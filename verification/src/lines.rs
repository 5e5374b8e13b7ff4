//! Candidate links out of the lines of an input file: plain lines, or the
//! lines of a bookmark export, which hold the address in double quotes.

use vstd::prelude::*;
use vstd::string::StrSliceExecFns;
use crate::link::{parse, parsed, Link, LinkView};
use crate::text::{chars_of, find_char, lemma_position_from, position_from};

verus! {

/// How the lines of an input file hold their links.
#[derive(Debug, Clone, Copy, PartialEq, Eq)]
pub enum LineFormat {
    /// One link per line, as it stands.
    Plain,
    /// A line of a bookmark export: the link stands between the first two
    /// double quotes.
    Bookmark,
}

/// What stands between the first double quote of `line` and the next one,
/// or the end of the line where no second one follows; nothing where the
/// line holds no double quote.
pub open spec fn quoted_text(line: Seq<char>) -> Option<Seq<char>> {
    let open = position_from(line, '"', 0);
    if open >= line.len() {
        None
    } else {
        Some(line.subrange(open + 1, position_from(line, '"', open + 1)))
    }
}

/// What a line holds as its candidate link under `format`.
pub open spec fn candidate(format: LineFormat, line: Seq<char>) -> Option<Seq<char>> {
    match format {
        LineFormat::Plain => Some(line),
        LineFormat::Bookmark => quoted_text(line),
    }
}

/// The link that a line yields under `format`, where it yields one.
pub open spec fn link_of_line(format: LineFormat, line: Seq<char>) -> Option<LinkView> {
    match candidate(format, line) {
        Some(text) => parsed(text),
        None => None,
    }
}

/// The links that `lines` yield under `format`, in the order of the lines.
pub open spec fn links_of_lines(format: LineFormat, lines: Seq<Seq<char>>) -> Seq<LinkView>
    decreases lines.len(),
{
    if lines.len() == 0 {
        Seq::empty()
    } else {
        let before = links_of_lines(format, lines.drop_last());
        match link_of_line(format, lines.last()) {
            Some(link) => before.push(link),
            None => before,
        }
    }
}

/// The address that a line of a bookmark export holds: the text between
/// its first two double quotes.
pub fn bookmark_cleanup(line: String) -> (r: Option<String>)
    ensures
        r.deep_view() == quoted_text(line@),
{
    let chars = chars_of(line.as_str());
    let open = find_char(&chars, '"', 0);
    if open >= chars.len() {
        return None;
    }
    let close = find_char(&chars, '"', open + 1);
    proof {
        lemma_position_from(line@, '"', open as int + 1);
    }
    Some(line.as_str().substring_char(open + 1, close).to_owned())
}

/// What `line` holds as its candidate link under `format`.
pub fn preprocess(format: LineFormat, line: String) -> (r: Option<String>)
    ensures
        r.deep_view() == candidate(format, line@),
{
    match format {
        LineFormat::Plain => Some(line),
        LineFormat::Bookmark => bookmark_cleanup(line),
    }
}

/// The links among `lines` under `format`: each line is reduced to its
/// candidate and parsed; a line that yields no link is passed over.
pub fn parse_song_links(lines: &Vec<String>, format: LineFormat) -> (r: Vec<Link>)
    ensures
        r.deep_view() == links_of_lines(format, lines.deep_view()),
{
    let mut links: Vec<Link> = Vec::new();
    let mut i: usize = 0;
    while i < lines.len()
        invariant
            i <= lines.len(),
            links.deep_view() == links_of_lines(format, lines.deep_view().take(i as int)),
        decreases lines.len() - i,
    {
        let ghost before = links.deep_view();
        proof {
            let all = lines.deep_view();
            assert(all.take(i as int + 1).drop_last() =~= all.take(i as int));
            assert(all.take(i as int + 1).last() == lines@[i as int]@);
        }
        match preprocess(format, lines[i].clone()) {
            Some(text) => match parse(text.as_str()) {
                Some(link) => {
                    links.push(link);
                    assert(links.deep_view() =~= before.push(link@));
                },
                None => {},
            },
            None => {},
        }
        i = i + 1;
    }
    assert(lines.deep_view().take(i as int) =~= lines.deep_view());
    links
}

/// The links among the lines of a plain text file.
pub fn parse_song_links_from_plain(lines: &Vec<String>) -> (r: Vec<Link>)
    ensures
        r.deep_view() == links_of_lines(LineFormat::Plain, lines.deep_view()),
{
    parse_song_links(lines, LineFormat::Plain)
}

/// The links among the lines of a bookmark export.
pub fn parse_song_links_from_bookmark(lines: &Vec<String>) -> (r: Vec<Link>)
    ensures
        r.deep_view() == links_of_lines(LineFormat::Bookmark, lines.deep_view()),
{
    parse_song_links(lines, LineFormat::Bookmark)
}

} // verus!
