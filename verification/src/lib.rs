//! Resolves the links of a bookmark export or a plain list into the
//! metadata of the posts that they point to on a link-aggregation site.
//!
//! The library holds the rules: which lines yield links, which identifier
//! and file name a link carries, how the document of a post decodes to an
//! entry, which documents a cache knows and how a directory mirrors them,
//! how long a request has to wait, and how a run goes from link to link.
//! Reading and writing files, waiting and fetching are left to the caller,
//! who hands the library what was read and fetched, and is told what to
//! write, what to fetch next and after how long.

pub mod cache;
pub mod entry;
pub mod fetch;
pub mod lines;
pub mod link;
pub mod pipeline;
pub mod text;
pub mod throttle;
