//! Entries: the metadata of one post, decoded from the JSON document that
//! the site returns for it.

use vstd::prelude::*;
use vstd::string::StringExecFns;
use crate::link::{parse, parsed, Link, LinkView};
use crate::text::str_eq;

verus! {

/// What the decoder reads of one member of a JSON object: its name, and of
/// its value the string, the unsigned integer and the null that it may be.
#[derive(Debug, Clone, PartialEq, Eq)]
pub struct Member {
    /// The member's name.
    pub name: String,
    /// The value, where it is a string.
    pub text: Option<String>,
    /// The value, where it is a number that is an unsigned 64-bit integer.
    pub count: Option<u64>,
    /// Whether the value is `null`.
    pub null: bool,
}

/// A member, as mathematical values.
pub struct MemberView {
    pub name: Seq<char>,
    pub text: Option<Seq<char>>,
    pub count: Option<u64>,
    pub null: bool,
}

impl View for Member {
    type V = MemberView;

    open spec fn view(&self) -> MemberView {
        MemberView {
            name: self.name@,
            text: self.text.deep_view(),
            count: self.count,
            null: self.null,
        }
    }
}

impl DeepView for Member {
    type V = MemberView;

    open spec fn deep_view(&self) -> MemberView {
        self@
    }
}

/// What a document holds at a location.
#[derive(Debug, Clone, PartialEq, Eq)]
pub enum Payload {
    /// The document is not JSON.
    NotJson,
    /// The document holds nothing at the location.
    Absent,
    /// The document holds a value there that is no object.
    Other,
    /// The document holds an object there, with these members.
    Object(Vec<Member>),
}

/// A payload, as mathematical values.
pub enum PayloadView {
    NotJson,
    Absent,
    Other,
    Object(Seq<MemberView>),
}

impl View for Payload {
    type V = PayloadView;

    open spec fn view(&self) -> PayloadView {
        match self {
            Payload::NotJson => PayloadView::NotJson,
            Payload::Absent => PayloadView::Absent,
            Payload::Other => PayloadView::Other,
            Payload::Object(members) => PayloadView::Object(members.deep_view()),
        }
    }
}

/// The metadata of one post. Every field is optional: the document may lack
/// any of them.
#[derive(Debug, Clone, PartialEq, Eq)]
pub struct RedditEntry {
    /// The outbound link that the post refers to.
    pub url: Option<Link>,
    /// The identifier of the post.
    pub reddit_id: Option<String>,
    /// The title of the post.
    pub title: Option<String>,
    /// The community that the post was made in.
    pub subreddit: Option<String>,
    /// The score of the post.
    pub votes: Option<u64>,
    /// The number of comments on the post.
    pub comments: Option<u64>,
    /// The permanent link back to the post.
    pub self_link: Option<Link>,
}

/// An entry, as mathematical values.
pub struct EntryView {
    pub url: Option<LinkView>,
    pub reddit_id: Option<Seq<char>>,
    pub title: Option<Seq<char>>,
    pub subreddit: Option<Seq<char>>,
    pub votes: Option<u64>,
    pub comments: Option<u64>,
    pub self_link: Option<LinkView>,
}

impl View for RedditEntry {
    type V = EntryView;

    open spec fn view(&self) -> EntryView {
        EntryView {
            url: self.url.deep_view(),
            reddit_id: self.reddit_id.deep_view(),
            title: self.title.deep_view(),
            subreddit: self.subreddit.deep_view(),
            votes: self.votes,
            comments: self.comments,
            self_link: self.self_link.deep_view(),
        }
    }
}

impl DeepView for RedditEntry {
    type V = EntryView;

    open spec fn deep_view(&self) -> EntryView {
        self@
    }
}

/// Why a document was not decoded.
#[derive(Debug, Clone, Copy, PartialEq, Eq)]
pub enum DecodeError {
    /// The document is not JSON.
    NotJson,
    /// The document holds nothing where the data of a post stands.
    NoPost,
    /// The outbound link is there, is not `null`, and is no absolute URL.
    MalformedLink,
}

/// What `serde_json` finds in the document `text` at the JSON pointer
/// `pointer`: whether `from_str` accepts `text`, whether `Value::pointer`
/// finds a value there, whether that value is an object, and what its
/// members are.
pub uninterp spec fn json_lookup(text: Seq<char>, pointer: Seq<char>) -> PayloadView;

/// Where the data of a post stands in its document, as a JSON pointer: in
/// the first listing, the data of the first child.
pub const PAYLOAD_POINTER: &'static str = "/0/data/children/0/data";

/// The origin that a post's permalink is relative to.
pub const SITE_ORIGIN: &'static str = "https://www.reddit.com";

/// Where the data of a post stands in its document.
pub open spec fn payload_pointer() -> Seq<char> {
    PAYLOAD_POINTER@
}

/// The origin that a post's permalink is relative to.
pub open spec fn site_origin() -> Seq<char> {
    SITE_ORIGIN@
}

/// The index of the first member at or after `from` whose name is `name`,
/// or the number of members where there is none.
pub open spec fn member_index(members: Seq<MemberView>, name: Seq<char>, from: int) -> int
    decreases members.len() - from,
{
    if from < 0 || from >= members.len() {
        members.len() as int
    } else if members[from].name == name {
        from
    } else {
        member_index(members, name, from + 1)
    }
}

/// The first member whose name is `name`.
pub open spec fn member_named(members: Seq<MemberView>, name: Seq<char>) -> Option<MemberView> {
    let at = member_index(members, name, 0);
    if at < members.len() {
        Some(members[at])
    } else {
        None
    }
}

/// The string that the member `name` holds; nothing where the member is
/// absent or holds another kind of value.
pub open spec fn text_field(members: Seq<MemberView>, name: Seq<char>) -> Option<Seq<char>> {
    match member_named(members, name) {
        Some(member) => member.text,
        None => None,
    }
}

/// The unsigned integer that the member `name` holds; nothing where the
/// member is absent or holds another kind of value.
pub open spec fn count_field(members: Seq<MemberView>, name: Seq<char>) -> Option<u64> {
    match member_named(members, name) {
        Some(member) => member.count,
        None => None,
    }
}

/// The outbound link of a post. The outer `None` says that the member is
/// there, is not `null`, and is no absolute URL: such a document is not
/// decoded at all. The inner `None` says that the member is absent or
/// `null`.
pub open spec fn outbound_link(members: Seq<MemberView>) -> Option<Option<LinkView>> {
    match member_named(members, "url"@) {
        None => Some(None),
        Some(member) => if member.null {
            Some(None)
        } else {
            match member.text {
                Some(text) => match parsed(text) {
                    Some(link) => Some(Some(link)),
                    None => None,
                },
                None => None,
            }
        },
    }
}

/// The permanent link of a post: its relative permalink behind the site's
/// origin, where that is an absolute URL.
pub open spec fn permanent_link(members: Seq<MemberView>) -> Option<LinkView> {
    match text_field(members, "permalink"@) {
        Some(path) => parsed(site_origin() + path),
        None => None,
    }
}

/// The entry that the data of a post decodes to.
pub open spec fn decoded(members: Seq<MemberView>) -> Option<EntryView> {
    match outbound_link(members) {
        Some(url) => Some(
            EntryView {
                url,
                reddit_id: text_field(members, "id"@),
                title: text_field(members, "title"@),
                subreddit: text_field(members, "subreddit"@),
                votes: count_field(members, "score"@),
                comments: count_field(members, "num_comments"@),
                self_link: permanent_link(members),
            },
        ),
        None => None,
    }
}

/// What decoding a payload gives: the entry, or why there is none. A value
/// that is no object has no members, and gives an entry without any field.
pub open spec fn decoding(payload: PayloadView) -> Result<EntryView, DecodeError> {
    match payload {
        PayloadView::NotJson => Err(DecodeError::NotJson),
        PayloadView::Absent => Err(DecodeError::NoPost),
        PayloadView::Other => match decoded(Seq::empty()) {
            Some(entry) => Ok(entry),
            None => Err(DecodeError::MalformedLink),
        },
        PayloadView::Object(members) => match decoded(members) {
            Some(entry) => Ok(entry),
            None => Err(DecodeError::MalformedLink),
        },
    }
}

/// What decoding the document `json` gives.
pub open spec fn decoding_of(json: Seq<char>) -> Result<EntryView, DecodeError> {
    decoding(json_lookup(json, payload_pointer()))
}

/// The entry that the document `json` decodes to.
pub open spec fn entry_of(json: Seq<char>) -> Option<EntryView> {
    match decoding_of(json) {
        Ok(entry) => Some(entry),
        Err(_) => None,
    }
}

/// The identifier under which the document `json` is kept: the identifier
/// of the entry that it decodes to.
pub open spec fn entry_id(json: Seq<char>) -> Option<Seq<char>> {
    match entry_of(json) {
        Some(entry) => entry.reddit_id,
        None => None,
    }
}

/// The entry `entry` without the field that is read from the member
/// `name`.
pub open spec fn cleared(entry: EntryView, name: Seq<char>) -> EntryView {
    if name == "url"@ {
        EntryView { url: None, ..entry }
    } else if name == "id"@ {
        EntryView { reddit_id: None, ..entry }
    } else if name == "title"@ {
        EntryView { title: None, ..entry }
    } else if name == "subreddit"@ {
        EntryView { subreddit: None, ..entry }
    } else if name == "score"@ {
        EntryView { votes: None, ..entry }
    } else if name == "num_comments"@ {
        EntryView { comments: None, ..entry }
    } else if name == "permalink"@ {
        EntryView { self_link: None, ..entry }
    } else {
        entry
    }
}

/// Parses `text` with `serde_json::from_str` into a `serde_json::Value`,
/// looks `pointer` up in it with `Value::pointer`, and, where an object
/// stands there, copies out of each of its members the name and what
/// `Value::as_str`, `Value::as_u64` and `Value::is_null` return of the
/// value. The contract only gives the result its name: it claims that
/// `text` and `pointer` determine it.
#[verifier::external_body]
fn json_payload(text: &str, pointer: &str) -> (r: Payload)
    ensures
        r@ == json_lookup(text@, pointer@),
{
    let document: serde_json::Value = match serde_json::from_str(text) {
        Ok(document) => document,
        Err(_) => return Payload::NotJson,
    };
    match document.pointer(pointer) {
        None => Payload::Absent,
        Some(serde_json::Value::Object(members)) => Payload::Object(members.iter().map(
            |(name, value)| Member {
                name: name.clone(),
                text: value.as_str().map(String::from),
                count: value.as_u64(),
                null: value.is_null(),
            }).collect()),
        Some(_) => Payload::Other,
    }
}

/// The first member of `members` whose name is `name`.
pub fn find_member<'a>(members: &'a Vec<Member>, name: &str) -> (r: Option<&'a Member>)
    ensures
        r.deep_view() == member_named(members.deep_view(), name@),
{
    let mut i: usize = 0;
    while i < members.len()
        invariant
            i <= members.len(),
            member_index(members.deep_view(), name@, 0) == member_index(
                members.deep_view(),
                name@,
                i as int,
            ),
        decreases members.len() - i,
    {
        if str_eq(members[i].name.as_str(), name) {
            return Some(&members[i]);
        }
        i = i + 1;
    }
    None
}

/// The string that the member `name` holds, if it holds one.
pub fn text_of(members: &Vec<Member>, name: &str) -> (r: Option<String>)
    ensures
        r.deep_view() == text_field(members.deep_view(), name@),
{
    match find_member(members, name) {
        Some(member) => match &member.text {
            Some(text) => Some(text.clone()),
            None => None,
        },
        None => None,
    }
}

/// The unsigned integer that the member `name` holds, if it holds one.
pub fn count_of(members: &Vec<Member>, name: &str) -> (r: Option<u64>)
    ensures
        r == count_field(members.deep_view(), name@),
{
    match find_member(members, name) {
        Some(member) => member.count,
        None => None,
    }
}

/// Decodes the data of a post. Each field is taken on its own: a member
/// that is absent, or holds another kind of value than its field takes,
/// leaves that field empty. Only the outbound link is held to more: where
/// its member is there and not `null`, it has to be an absolute URL, or
/// nothing is decoded.
pub fn entry_from_members(members: &Vec<Member>) -> (r: Option<RedditEntry>)
    ensures
        r.deep_view() == decoded(members.deep_view()),
{
    let url = match find_member(members, "url") {
        None => None,
        Some(member) => if member.null {
            None
        } else {
            match &member.text {
                Some(text) => match parse(text.as_str()) {
                    Some(link) => Some(link),
                    None => {
                        return None;
                    },
                },
                None => {
                    return None;
                },
            }
        },
    };
    let self_link = match text_of(members, "permalink") {
        Some(path) => {
            let address = String::from_str(SITE_ORIGIN).concat(path.as_str());
            parse(address.as_str())
        },
        None => None,
    };
    Some(
        RedditEntry {
            url,
            reddit_id: text_of(members, "id"),
            title: text_of(members, "title"),
            subreddit: text_of(members, "subreddit"),
            votes: count_of(members, "score"),
            comments: count_of(members, "num_comments"),
            self_link,
        },
    )
}

/// Decodes what a document holds where the data of a post stands.
pub fn entry_from_payload(payload: &Payload) -> (r: Result<RedditEntry, DecodeError>)
    ensures
        match r {
            Ok(entry) => decoding(payload@) == Ok::<EntryView, DecodeError>(entry@),
            Err(error) => decoding(payload@) == Err::<EntryView, DecodeError>(error),
        },
{
    let decoded = match payload {
        Payload::NotJson => {
            return Err(DecodeError::NotJson);
        },
        Payload::Absent => {
            return Err(DecodeError::NoPost);
        },
        Payload::Other => entry_from_members(&Vec::new()),
        Payload::Object(members) => entry_from_members(members),
    };
    match decoded {
        Some(entry) => Ok(entry),
        None => Err(DecodeError::MalformedLink),
    }
}

/// Decodes the document of a post, and says why where it cannot: the
/// document is not JSON, it does not hold the data of a post in its first
/// listing's first child, or the outbound link is there and malformed.
pub fn decode(json: &String) -> (r: Result<RedditEntry, DecodeError>)
    ensures
        match r {
            Ok(entry) => decoding_of(json@) == Ok::<EntryView, DecodeError>(entry@),
            Err(error) => decoding_of(json@) == Err::<EntryView, DecodeError>(error),
        },
{
    let payload = json_payload(json.as_str(), PAYLOAD_POINTER);
    entry_from_payload(&payload)
}

/// Decodes the document of a post, if it can be decoded.
pub fn parse_reddit_json(json: &String) -> (r: Option<RedditEntry>)
    ensures
        r.deep_view() == entry_of(json@),
{
    match decode(json) {
        Ok(entry) => Some(entry),
        Err(_) => None,
    }
}

impl RedditEntry {
    /// The entry of a well-known post, for trying things out.
    pub fn new() -> (r: RedditEntry)
        ensures
            r@ == (EntryView {
                url: parsed("https://www.youtube.com/watch?v=bbvBJMDbyeo"@),
                reddit_id: Some("5k0ncr"@),
                title: Some("[Black] Weakling - Dead as Dreams"@),
                subreddit: Some("Metal"@),
                votes: Some(83u64),
                comments: Some(12u64),
                self_link: parsed(
                    "https://www.reddit.com/r/Metal/comments/5k0ncr/black_weakling_dead_as_dreams/"@,
                ),
            }),
    {
        RedditEntry {
            title: Some(String::from_str("[Black] Weakling - Dead as Dreams")),
            subreddit: Some(String::from_str("Metal")),
            comments: Some(12),
            votes: Some(83),
            url: parse("https://www.youtube.com/watch?v=bbvBJMDbyeo"),
            reddit_id: Some(String::from_str("5k0ncr")),
            self_link: parse(
                "https://www.reddit.com/r/Metal/comments/5k0ncr/black_weakling_dead_as_dreams/",
            ),
        }
    }
}

/// The names of the members that the decoder reads differ from each other.
proof fn lemma_names_differ()
    ensures
        "url"@.len() == 3,
        "id"@.len() == 2,
        "title"@.len() == 5,
        "subreddit"@.len() == 9,
        "score"@.len() == 5,
        "num_comments"@.len() == 12,
        "permalink"@.len() == 9,
        "title"@[0] != "score"@[0],
        "subreddit"@[0] != "permalink"@[0],
{
    reveal_strlit("url");
    reveal_strlit("id");
    reveal_strlit("title");
    reveal_strlit("subreddit");
    reveal_strlit("score");
    reveal_strlit("num_comments");
    reveal_strlit("permalink");
}

/// Each field is read from the member of its own name: of two payloads
/// that agree but for the member `name`, which the second lacks, the second
/// decodes to what the first decodes to without the field of that name.
/// And but for the outbound link, whose member may keep a document from
/// being decoded, the second is decoded exactly where the first is.
pub proof fn lemma_missing_member(
    with: Seq<MemberView>,
    lacking: Seq<MemberView>,
    name: Seq<char>,
)
    requires
        member_named(lacking, name) is None,
        forall|other: Seq<char>|
            other != name ==> member_named(lacking, other) == member_named(with, other),
    ensures
        decoded(with) matches Some(entry) ==> decoded(lacking) == Some(cleared(entry, name)),
        name != "url"@ ==> (decoded(with) is None <==> decoded(lacking) is None),
{
    lemma_names_differ();
}

/// A document without a score decodes to an entry without votes, and as
/// before in every other field.
pub proof fn lemma_missing_score(with: Seq<MemberView>, lacking: Seq<MemberView>)
    requires
        member_named(lacking, "score"@) is None,
        forall|other: Seq<char>|
            other != "score"@ ==> member_named(lacking, other) == member_named(with, other),
    ensures
        decoded(lacking) == match decoded(with) {
            Some(entry) => Some(EntryView { votes: None, ..entry }),
            None => None,
        },
{
    lemma_names_differ();
    lemma_missing_member(with, lacking, "score"@);
}

/// A document fails to decode for exactly one of three reasons: it is not
/// JSON, it holds nothing where the data of a post stands, or the outbound
/// link of the post is malformed.
pub proof fn lemma_decoding_fails(json: Seq<char>)
    ensures
        decoding_of(json) == Err::<EntryView, DecodeError>(DecodeError::NotJson) <==> json_lookup(
            json,
            payload_pointer(),
        ) is NotJson,
        decoding_of(json) == Err::<EntryView, DecodeError>(DecodeError::NoPost) <==> json_lookup(
            json,
            payload_pointer(),
        ) is Absent,
        decoding_of(json) == Err::<EntryView, DecodeError>(DecodeError::MalformedLink) <==> (
        json_lookup(json, payload_pointer()) matches PayloadView::Object(members) && outbound_link(
            members,
        ) is None),
        entry_of(json) is None <==> decoding_of(json) is Err,
{
    lemma_names_differ();
    assert(member_index(Seq::<MemberView>::empty(), "url"@, 0) == 0);
}

} // verus!
