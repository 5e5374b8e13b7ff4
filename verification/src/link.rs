//! Links: validated absolute URLs, the identifier and file name derived
//! from a link's path, and the address under which a post's document is
//! fetched.

use vstd::prelude::*;
use vstd::string::StringExecFns;
use crate::text::{clone_strings, str_ends_with};

verus! {

/// The serialization of the URL that `url::Url::parse` yields on `input`;
/// `None` where it returns an error.
pub uninterp spec fn url_text(input: Seq<char>) -> Option<Seq<char>>;

/// What `url::Url::host_str` returns of the URL parsed from `input`.
pub uninterp spec fn url_host(input: Seq<char>) -> Option<Seq<char>>;

/// What `url::Url::path_segments` yields of the URL parsed from `input`,
/// collected in order; `None` where it returns `None`.
pub uninterp spec fn url_segments(input: Seq<char>) -> Option<Seq<Seq<char>>>;

/// The serialization of the URL that `url::Url::join` yields for the
/// reference `reference` against the URL parsed from `base`; `None` where
/// either step returns an error.
pub uninterp spec fn url_join(base: Seq<char>, reference: Seq<char>) -> Option<Seq<char>>;

/// What a link is, as mathematical values.
pub struct LinkView {
    /// The normalized string form.
    pub text: Seq<char>,
    /// The host, where the URL has one.
    pub host: Option<Seq<char>>,
    /// The segments of the path, where the URL can be a base.
    pub segments: Option<Seq<Seq<char>>>,
}

/// A validated absolute URL. Two links are the same link where their
/// normalized string forms are equal.
#[derive(Debug, Clone, PartialEq, Eq, Hash)]
pub struct Link {
    text: String,
    host: Option<String>,
    segments: Option<Vec<String>>,
}

impl View for Link {
    type V = LinkView;

    closed spec fn view(&self) -> LinkView {
        LinkView {
            text: self.text@,
            host: self.host.deep_view(),
            segments: self.segments.deep_view(),
        }
    }
}

impl DeepView for Link {
    type V = LinkView;

    open spec fn deep_view(&self) -> LinkView {
        self@
    }
}

/// The link that `input` parses to, if it is an absolute URL.
pub open spec fn parsed(input: Seq<char>) -> Option<LinkView> {
    match url_text(input) {
        Some(text) => Some(
            LinkView { text, host: url_host(input), segments: url_segments(input) },
        ),
        None => None,
    }
}

/// The segments that count towards the identifier: those longer than one
/// character.
pub open spec fn qualifying(segments: Seq<Seq<char>>) -> Seq<Seq<char>> {
    segments.filter(|s: Seq<char>| s.len() > 1)
}

/// The identifier that a path with these segments carries: the second to
/// last of its qualifying segments.
pub open spec fn identifier_of(segments: Option<Seq<Seq<char>>>) -> Option<Seq<char>> {
    match segments {
        Some(s) => if qualifying(s).len() >= 2 {
            Some(qualifying(s)[qualifying(s).len() - 2])
        } else {
            None
        },
        None => None,
    }
}

/// The slug that a path with these segments carries: the last of its
/// qualifying segments, where it has an identifier.
pub open spec fn slug_of(segments: Option<Seq<Seq<char>>>) -> Option<Seq<char>> {
    match segments {
        Some(s) => if qualifying(s).len() >= 2 {
            Some(qualifying(s).last())
        } else {
            None
        },
        None => None,
    }
}

/// The file name under which a post is kept: identifier, underscore, slug
/// and the extension.
pub open spec fn file_name_of(segments: Option<Seq<Seq<char>>>) -> Option<Seq<char>> {
    match identifier_of(segments) {
        Some(id) => Some(id + "_"@ + slug_of(segments).unwrap() + ".json"@),
        None => None,
    }
}

/// The reference that, joined to a link whose path has these segments,
/// appends `.json` to the path as a segment of its own. Joining replaces
/// the last segment of the path: so where that segment is not empty, the
/// reference names it again, from the place of the path, before `.json`.
pub open spec fn json_reference(segments: Option<Seq<Seq<char>>>) -> Seq<char> {
    match segments {
        Some(segments) => if segments.len() > 0 && segments.last().len() > 0 {
            "./"@ + segments.last() + "/.json"@
        } else {
            ".json"@
        },
        None => ".json"@,
    }
}

/// The address under which the document of `link` is fetched: the link
/// itself where its text ends in `.json`, else the link with `.json`
/// appended to its path as a segment, none of its segments lost.
pub open spec fn api_link_of(link: LinkView) -> Option<LinkView> {
    if ".json"@.is_suffix_of(link.text) {
        Some(link)
    } else {
        match url_join(link.text, json_reference(link.segments)) {
            Some(joined) => parsed(joined),
            None => None,
        }
    }
}

/// Calls `url::Url::parse` on `input` and copies out of the URL what
/// `as_str`, `host_str` and `path_segments` return. The contract only gives
/// these results their names: it claims that each is determined by `input`.
#[verifier::external_body]
fn parse_url(input: &str) -> (r: Option<Link>)
    ensures
        r is Some <==> url_text(input@) is Some,
        r matches Some(link) ==> Some(link@.text) == url_text(input@),
        r matches Some(link) ==> link@.host == url_host(input@),
        r matches Some(link) ==> link@.segments == url_segments(input@),
{
    match url::Url::parse(input) {
        Ok(u) => Some(
            Link {
                text: u.as_str().to_string(),
                host: u.host_str().map(|h| h.to_string()),
                segments: u.path_segments().map(|s| s.map(|p| p.to_string()).collect()),
            },
        ),
        Err(_) => None,
    }
}

/// Calls `url::Url::parse` on `base` and `url::Url::join` on the result with
/// `reference`, and returns the serialization of the joined URL. The
/// contract only gives that result its name.
#[verifier::external_body]
fn join_url(base: &str, reference: &str) -> (r: Option<String>)
    ensures
        r.deep_view() == url_join(base@, reference@),
{
    match url::Url::parse(base) {
        Ok(u) => match u.join(reference) {
            Ok(joined) => Some(joined.as_str().to_string()),
            Err(_) => None,
        },
        Err(_) => None,
    }
}

/// Parses `input` as an absolute URL. Fails where it is none.
pub fn parse(input: &str) -> (r: Option<Link>)
    ensures
        r.deep_view() == parsed(input@),
{
    parse_url(input)
}

impl Link {
    /// The normalized string form of the link.
    pub fn as_str(&self) -> (r: &str)
        ensures
            r@ == self@.text,
    {
        self.text.as_str()
    }

    /// The host of the link, where it has one.
    pub fn host_str(&self) -> (r: Option<&str>)
        ensures
            r.deep_view() == self@.host,
    {
        match &self.host {
            Some(h) => Some(h.as_str()),
            None => None,
        }
    }

    /// The segments of the link's path, where it can be a base.
    pub fn path_segments(&self) -> (r: Option<Vec<String>>)
        ensures
            r.deep_view() == self@.segments,
    {
        match &self.segments {
            Some(s) => Some(clone_strings(s)),
            None => None,
        }
    }

    /// Whether `self` and `other` are the same link.
    pub fn same_as(&self, other: &Link) -> (r: bool)
        ensures
            r == (self@.text == other@.text),
    {
        self.text == other.text
    }

    /// A copy of the link.
    pub fn duplicate(&self) -> (r: Link)
        ensures
            r@ == self@,
    {
        let host = match &self.host {
            Some(h) => Some(h.clone()),
            None => None,
        };
        let segments = match &self.segments {
            Some(s) => Some(clone_strings(s)),
            None => None,
        };
        Link { text: self.text.clone(), host, segments }
    }
}

/// The last two of `segments` that are longer than one character: the
/// identifier and the slug of a path with these segments. None where fewer
/// than two are that long.
pub fn id_and_slug(segments: &Vec<String>) -> (r: Option<(&String, &String)>)
    ensures
        match r {
            Some((id, slug)) => identifier_of(Some(segments.deep_view())) == Some(id@) && slug_of(
                Some(segments.deep_view()),
            ) == Some(slug@),
            None => identifier_of(Some(segments.deep_view())) is None,
        },
{
    let ghost all = segments.deep_view();
    let ghost keep = |s: Seq<char>| s.len() > 1;
    let mut id: Option<&String> = None;
    let mut slug: Option<&String> = None;
    let mut i: usize = 0;
    while i < segments.len()
        invariant
            i <= segments.len(),
            all == segments.deep_view(),
            keep == (|s: Seq<char>| s.len() > 1),
            all.take(i as int).filter(keep).len() == 0 ==> id is None && slug is None,
            all.take(i as int).filter(keep).len() == 1 ==> id is None && slug is Some
                && slug.unwrap()@ == all.take(i as int).filter(keep)[0],
            all.take(i as int).filter(keep).len() >= 2 ==> id is Some && slug is Some
                && slug.unwrap()@ == all.take(i as int).filter(keep).last() && id.unwrap()@
                == all.take(i as int).filter(keep)[all.take(i as int).filter(keep).len() - 2],
        decreases segments.len() - i,
    {
        let segment = &segments[i];
        proof {
            assert(all.take(i as int + 1) =~= all.take(i as int).push(all[i as int]));
            all.take(i as int).lemma_filter_push(all[i as int], keep);
            assert(all[i as int] == segment@);
        }
        if segment.as_str().unicode_len() > 1 {
            id = slug;
            slug = Some(segment);
        }
        i = i + 1;
    }
    assert(all.take(i as int) =~= all);
    match (id, slug) {
        (Some(a), Some(b)) => Some((a, b)),
        _ => None,
    }
}

/// The identifier of `link`: of the segments of its path that are longer
/// than one character, the second to last. Fails where fewer than two such
/// segments exist.
pub fn id_from_link(link: &Link) -> (r: Option<String>)
    ensures
        r.deep_view() == identifier_of(link@.segments),
{
    match &link.segments {
        Some(segments) => match id_and_slug(segments) {
            Some((id, _)) => Some(id.clone()),
            None => None,
        },
        None => None,
    }
}

/// The file name under which the post of `link` is kept: identifier,
/// underscore, slug, `.json`. None where the path of `link` carries no
/// identifier.
pub fn canonical_filename(link: &Link) -> (r: Option<String>)
    ensures
        r.deep_view() == file_name_of(link@.segments),
{
    match &link.segments {
        Some(segments) => match id_and_slug(segments) {
            Some((id, slug)) => Some(
                id.clone().concat("_").concat(slug.as_str()).concat(".json"),
            ),
            None => None,
        },
        None => None,
    }
}

/// The file name under which the post of `link` is kept, for a link whose
/// path carries an identifier.
pub fn filename_from_link(link: &Link) -> (r: String)
    requires
        identifier_of(link@.segments) is Some,
    ensures
        Some(r@) == file_name_of(link@.segments),
{
    match canonical_filename(link) {
        Some(name) => name,
        None => String::new(),
    }
}

/// The reference that appends `.json` to the path of `link`.
fn json_reference_of(link: &Link) -> (r: String)
    ensures
        r@ == json_reference(link@.segments),
{
    match &link.segments {
        Some(segments) => {
            if segments.len() > 0 && segments[segments.len() - 1].as_str().unicode_len() > 0 {
                let last = &segments[segments.len() - 1];
                assert(segments.deep_view().last() == last@);
                String::from_str("./").concat(last.as_str()).concat("/.json")
            } else {
                String::from_str(".json")
            }
        },
        None => String::from_str(".json"),
    }
}

/// The address under which the document of `link` is fetched: `link`
/// itself where it already ends in `.json`, else `link` with `.json`
/// appended to its path as a segment.
pub fn ensure_json_link(link: &Link) -> (r: Option<Link>)
    ensures
        r.deep_view() == api_link_of(link@),
{
    if str_ends_with(link.as_str(), ".json") {
        Some(link.duplicate())
    } else {
        let reference = json_reference_of(link);
        match join_url(link.as_str(), reference.as_str()) {
            Some(joined) => parse(joined.as_str()),
            None => None,
        }
    }
}

/// No segment of `segments` counts towards the identifier where none is
/// longer than one character.
proof fn lemma_none_qualifying(segments: Seq<Seq<char>>)
    requires
        forall|i: int| 0 <= i < segments.len() ==> segments[i].len() <= 1,
    ensures
        qualifying(segments).len() == 0,
{
    let keep = |s: Seq<char>| s.len() > 1;
    if segments.filter(keep).len() > 0 {
        segments.lemma_filter_pred(keep, 0);
        let first = segments.filter(keep)[0];
        segments.lemma_filter_contains_rev(keep, first);
        assert(segments.filter(keep).contains(first));
        assert(segments.contains(first));
    }
}

/// A path whose last two longer segments are `id` and `slug`, whatever
/// short segments stand between and after them, has the identifier `id`,
/// the slug `slug` and the file name made of both.
pub proof fn lemma_identifier_of_post_path(
    before: Seq<Seq<char>>,
    id: Seq<char>,
    between: Seq<Seq<char>>,
    slug: Seq<char>,
    after: Seq<Seq<char>>,
)
    requires
        id.len() > 1,
        slug.len() > 1,
        forall|i: int| 0 <= i < between.len() ==> between[i].len() <= 1,
        forall|i: int| 0 <= i < after.len() ==> after[i].len() <= 1,
    ensures
        identifier_of(Some(before + seq![id] + between + seq![slug] + after)) == Some(id),
        slug_of(Some(before + seq![id] + between + seq![slug] + after)) == Some(slug),
        file_name_of(Some(before + seq![id] + between + seq![slug] + after)) == Some(
            id + "_"@ + slug + ".json"@,
        ),
{
    let keep = |s: Seq<char>| s.len() > 1;
    lemma_none_qualifying(between);
    lemma_none_qualifying(after);
    let head = before + seq![id] + between + seq![slug];
    Seq::filter_distributes_over_add(head, after, keep);
    Seq::filter_distributes_over_add(before + seq![id] + between, seq![slug], keep);
    Seq::filter_distributes_over_add(before + seq![id], between, keep);
    Seq::filter_distributes_over_add(before, seq![id], keep);
    assert(seq![id] =~= Seq::<Seq<char>>::empty().push(id));
    assert(seq![slug] =~= Seq::<Seq<char>>::empty().push(slug));
    Seq::<Seq<char>>::empty().lemma_filter_push(id, keep);
    Seq::<Seq<char>>::empty().lemma_filter_push(slug, keep);
    assert(Seq::<Seq<char>>::empty().filter(keep).len() == 0) by {
        Seq::<Seq<char>>::empty().lemma_filter_len(keep);
    }
    let kept = before.filter(keep);
    assert(qualifying(head + after) =~= kept.push(id).push(slug));
}

/// A path with fewer than two segments longer than one character has no
/// identifier, and so has a link that cannot be a base.
pub proof fn lemma_identifier_needs_two_segments(segments: Option<Seq<Seq<char>>>)
    ensures
        identifier_of(segments) is Some <==> segments is Some && qualifying(segments.unwrap()).len()
            >= 2,
        identifier_of(segments) is Some <==> file_name_of(segments) is Some,
{
}

} // verus!
