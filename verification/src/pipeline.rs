//! A run: the links of an input are reduced to those of the site, each
//! taken once; what the cache knows of them is decoded at once, and the rest
//! is fetched link by link, each request paced by the throttle. The requests themselves, the
//! waiting and the files are the caller's part: a run says what to fetch
//! next and after how long, and takes what came back.

use vstd::prelude::*;
use crate::cache::{
    after_store, cache_view, cached_documents, file_name, get_entries, Cache, CacheView,
};
use crate::entry::{entry_of, parse_reddit_json, EntryView, RedditEntry};
use crate::lines::{links_of_lines, parse_song_links_from_bookmark, LineFormat};
use crate::link::{
    api_link_of, ensure_json_link, id_from_link, identifier_of, Link, LinkView,
};
use crate::text::str_eq;
use crate::throttle::{after_request, delay_of, now, Throttle, ThrottleView, COOLDOWN};

verus! {

/// The host of the site whose posts a run resolves.
pub const SITE_HOST: &'static str = "www.reddit.com";

/// What a run asks of its caller next.
#[derive(Debug)]
pub struct Fetch {
    /// The address to fetch. `None` where the link has none: the caller
    /// then reports that nothing came back.
    pub address: Option<Link>,
    /// How many milliseconds to wait before the request.
    pub wait: u128,
}

/// The state of a run.
#[derive(Debug)]
pub struct Run {
    cache: Option<Cache>,
    reddits: Vec<RedditEntry>,
    missing: Vec<Link>,
    position: usize,
    throttle: Throttle,
}

/// A run, as mathematical values.
pub struct RunView {
    /// The cache of the run, where it has one.
    pub cache: Option<CacheView>,
    /// The entries gathered so far.
    pub reddits: Seq<EntryView>,
    /// The links that the cache did not answer.
    pub missing: Seq<LinkView>,
    /// How many of `missing` were worked off.
    pub position: int,
    /// The pacing of the requests.
    pub throttle: ThrottleView,
}

impl View for Run {
    type V = RunView;

    closed spec fn view(&self) -> RunView {
        RunView {
            cache: match self.cache {
                Some(cache) => Some(cache@),
                None => None,
            },
            reddits: self.reddits.deep_view(),
            missing: self.missing.deep_view(),
            position: self.position as int,
            throttle: self.throttle@,
        }
    }
}

/// What came back for one link: the body, if the request brought one;
/// whether the body was written to its file; and when the request ended.
pub struct Outcome {
    pub body: Option<Seq<char>>,
    pub written: bool,
    pub now: int,
}

/// The links of `links` whose host is `host`, in order.
pub open spec fn on_host(links: Seq<LinkView>, host: Seq<char>) -> Seq<LinkView> {
    links.filter(|link: LinkView| link.host == Some(host))
}

/// The entries that `documents` decode to, in order; a document that does
/// not decode gives none.
pub open spec fn decode_all(documents: Seq<Seq<char>>) -> Seq<EntryView>
    decreases documents.len(),
{
    if documents.len() == 0 {
        Seq::empty()
    } else {
        let before = decode_all(documents.drop_last());
        match entry_of(documents.last()) {
            Some(entry) => before.push(entry),
            None => before,
        }
    }
}

/// The entries that the cache gives for `links`; none without a cache.
pub open spec fn cache_pass(links: Seq<LinkView>, cache: Option<CacheView>) -> Seq<EntryView> {
    match cache {
        Some(cache) => decode_all(cached_documents(links, cache)),
        None => Seq::empty(),
    }
}

/// The text of the permanent link of `entry`, where it has one.
pub open spec fn self_link_text(entry: EntryView) -> Option<Seq<char>> {
    match entry.self_link {
        Some(link) => Some(link.text),
        None => None,
    }
}

/// Whether one of `reddits` has `text` as the text of its permanent link.
pub open spec fn is_found(reddits: Seq<EntryView>, text: Seq<char>) -> bool {
    exists|i: int| 0 <= i < reddits.len() && self_link_text(#[trigger] reddits[i]) == Some(text)
}

/// Whether one of `links` has the text `text`.
pub open spec fn holds_text(links: Seq<LinkView>, text: Seq<char>) -> bool {
    exists|i: int| 0 <= i < links.len() && (#[trigger] links[i]).text == text
}

/// The links still to fetch: each link of `links` once, in the order in
/// which it first occurs, but for those that are the permanent link of one
/// of `reddits`.
pub open spec fn missing_of(links: Seq<LinkView>, reddits: Seq<EntryView>) -> Seq<LinkView>
    decreases links.len(),
{
    if links.len() == 0 {
        Seq::empty()
    } else {
        let before = missing_of(links.drop_last(), reddits);
        let link = links.last();
        if is_found(reddits, link.text) || holds_text(before, link.text) {
            before
        } else {
            before.push(link)
        }
    }
}

/// Each link of `links` once, in the order in which it first occurs. Two
/// links are the same where their texts are.
pub open spec fn unique(links: Seq<LinkView>) -> Seq<LinkView> {
    missing_of(links, Seq::empty())
}

/// The run at its start: of the links, each taken once, the cache has
/// answered what it could, and the others wait to be fetched.
pub open spec fn started(links: Seq<LinkView>, cache: Option<CacheView>) -> RunView {
    RunView {
        cache,
        reddits: cache_pass(unique(links), cache),
        missing: missing_of(unique(links), cache_pass(unique(links), cache)),
        position: 0,
        throttle: ThrottleView { interval: COOLDOWN as int, previous: None },
    }
}

/// Whether all links were worked off.
pub open spec fn is_done(run: RunView) -> bool {
    run.position >= run.missing.len()
}

/// The link that the run works on.
pub open spec fn current(run: RunView) -> LinkView
    recommends
        !is_done(run),
{
    run.missing[run.position]
}

/// The name of the file that the body fetched for `link` is written to:
/// none without a cache, and none for a link without an identifier.
pub open spec fn store_target(has_cache: bool, link: LinkView) -> Option<Seq<char>> {
    if has_cache {
        match identifier_of(link.segments) {
            Some(key) => Some(file_name(key)),
            None => None,
        }
    } else {
        None
    }
}

/// The cache after `body` came back for `link`: it knows the body under the
/// link's identifier where there is a cache, a body, an identifier, and the
/// file was written.
pub open spec fn cache_after(
    cache: Option<CacheView>,
    link: LinkView,
    body: Option<Seq<char>>,
    written: bool,
) -> Option<CacheView> {
    match (cache, body, identifier_of(link.segments)) {
        (Some(cache), Some(body), Some(key)) => if written {
            Some(after_store(cache, key, body))
        } else {
            Some(cache)
        },
        _ => cache,
    }
}

/// The entry that a fetched body gives.
pub open spec fn fetched_entry(body: Option<Seq<char>>) -> Option<EntryView> {
    match body {
        Some(body) => entry_of(body),
        None => None,
    }
}

/// The run after `body` came back for its current link at `now`. A run
/// that is done stays as it is.
pub open spec fn after_fetch(
    run: RunView,
    body: Option<Seq<char>>,
    written: bool,
    now: int,
) -> RunView {
    if is_done(run) {
        run
    } else {
        RunView {
            cache: cache_after(run.cache, current(run), body, written),
            reddits: match fetched_entry(body) {
                Some(entry) => run.reddits.push(entry),
                None => run.reddits,
            },
            missing: run.missing,
            position: run.position + 1,
            throttle: after_request(run.throttle, now),
        }
    }
}

/// The run after `outcomes` came back, one after the other.
pub open spec fn run_through(run: RunView, outcomes: Seq<Outcome>) -> RunView
    decreases outcomes.len(),
{
    if outcomes.len() == 0 {
        run
    } else {
        let last = outcomes.last();
        after_fetch(run_through(run, outcomes.drop_last()), last.body, last.written, last.now)
    }
}

/// The entries that the bodies of `outcomes` decode to, in order.
pub open spec fn fetched_entries(outcomes: Seq<Outcome>) -> Seq<EntryView>
    decreases outcomes.len(),
{
    if outcomes.len() == 0 {
        Seq::empty()
    } else {
        let before = fetched_entries(outcomes.drop_last());
        match fetched_entry(outcomes.last().body) {
            Some(entry) => before.push(entry),
            None => before,
        }
    }
}

/// Whether one of `reddits` has `text` as the text of its permanent link.
fn has_self_link(reddits: &Vec<RedditEntry>, text: &str) -> (r: bool)
    ensures
        r == is_found(reddits.deep_view(), text@),
{
    let mut i: usize = 0;
    while i < reddits.len()
        invariant
            i <= reddits.len(),
            forall|j: int|
                0 <= j < i ==> self_link_text(#[trigger] reddits.deep_view()[j]) != Some(text@),
        decreases reddits.len() - i,
    {
        let same = match &reddits[i].self_link {
            Some(link) => str_eq(link.as_str(), text),
            None => false,
        };
        if same {
            assert(self_link_text(reddits.deep_view()[i as int]) == Some(text@));
            return true;
        }
        i = i + 1;
    }
    false
}

/// Whether one of `links` has the text `text`.
fn has_link(links: &Vec<Link>, text: &str) -> (r: bool)
    ensures
        r == holds_text(links.deep_view(), text@),
{
    let mut i: usize = 0;
    while i < links.len()
        invariant
            i <= links.len(),
            forall|j: int| 0 <= j < i ==> (#[trigger] links.deep_view()[j]).text != text@,
        decreases links.len() - i,
    {
        if str_eq(links[i].as_str(), text) {
            assert(links.deep_view()[i as int].text == text@);
            return true;
        }
        i = i + 1;
    }
    false
}

/// The links of `links` whose host is `host`, in order.
pub fn links_on_host(links: &Vec<Link>, host: &str) -> (r: Vec<Link>)
    ensures
        r.deep_view() == on_host(links.deep_view(), host@),
{
    let ghost keep = |link: LinkView| link.host == Some(host@);
    let mut kept: Vec<Link> = Vec::new();
    let mut i: usize = 0;
    while i < links.len()
        invariant
            i <= links.len(),
            keep == (|link: LinkView| link.host == Some(host@)),
            kept.deep_view() == links.deep_view().take(i as int).filter(keep),
        decreases links.len() - i,
    {
        let ghost before = kept.deep_view();
        proof {
            let all = links.deep_view();
            assert(all.take(i as int + 1) =~= all.take(i as int).push(all[i as int]));
            all.take(i as int).lemma_filter_push(all[i as int], keep);
            assert(all[i as int] == links@[i as int]@);
        }
        let matches = match links[i].host_str() {
            Some(h) => str_eq(h, host),
            None => false,
        };
        if matches {
            kept.push(links[i].duplicate());
            assert(kept.deep_view() =~= before.push(links@[i as int]@));
        }
        i = i + 1;
    }
    assert(links.deep_view().take(i as int) =~= links.deep_view());
    kept
}

/// The entries that `documents` decode to, in order.
pub fn decode_documents(documents: &Vec<String>) -> (r: Vec<RedditEntry>)
    ensures
        r.deep_view() == decode_all(documents.deep_view()),
{
    let mut reddits: Vec<RedditEntry> = Vec::new();
    let mut i: usize = 0;
    while i < documents.len()
        invariant
            i <= documents.len(),
            reddits.deep_view() == decode_all(documents.deep_view().take(i as int)),
        decreases documents.len() - i,
    {
        let ghost before = reddits.deep_view();
        proof {
            let all = documents.deep_view();
            assert(all.take(i as int + 1).drop_last() =~= all.take(i as int));
            assert(all.take(i as int + 1).last() == documents@[i as int]@);
        }
        match parse_reddit_json(&documents[i]) {
            Some(entry) => {
                reddits.push(entry);
                assert(reddits.deep_view() =~= before.push(entry@));
            },
            None => {},
        }
        i = i + 1;
    }
    assert(documents.deep_view().take(i as int) =~= documents.deep_view());
    reddits
}

/// The links still to fetch: each link of `links` once, in the order in
/// which it first occurs, but for those that are the permanent link of one
/// of `reddits`.
pub fn missing_links(links: &Vec<Link>, reddits: &Vec<RedditEntry>) -> (r: Vec<Link>)
    ensures
        r.deep_view() == missing_of(links.deep_view(), reddits.deep_view()),
{
    let mut missing: Vec<Link> = Vec::new();
    let mut i: usize = 0;
    while i < links.len()
        invariant
            i <= links.len(),
            missing.deep_view() == missing_of(
                links.deep_view().take(i as int),
                reddits.deep_view(),
            ),
        decreases links.len() - i,
    {
        let ghost before = missing.deep_view();
        proof {
            let all = links.deep_view();
            assert(all.take(i as int + 1).drop_last() =~= all.take(i as int));
            assert(all.take(i as int + 1).last() == links@[i as int]@);
        }
        let link = &links[i];
        if !has_self_link(reddits, link.as_str()) && !has_link(&missing, link.as_str()) {
            missing.push(link.duplicate());
            assert(missing.deep_view() =~= before.push(link@));
        }
        i = i + 1;
    }
    assert(links.deep_view().take(i as int) =~= links.deep_view());
    missing
}

/// Each link of `links` once, in the order in which it first occurs.
pub fn unique_links(links: &Vec<Link>) -> (r: Vec<Link>)
    ensures
        r.deep_view() == unique(links.deep_view()),
{
    let none: Vec<RedditEntry> = Vec::new();
    assert(none.deep_view() =~= Seq::<EntryView>::empty());
    missing_links(links, &none)
}

/// What becomes of a body that was fetched for `link`: where there is a
/// cache, a body and an identifier, and the body was written to its file,
/// the cache takes it in under the identifier; and the body is decoded,
/// whether or not it was stored.
pub fn download_reddit_and_cache(
    link: &Link,
    cache: &mut Option<Cache>,
    body: Option<String>,
    written: bool,
) -> (r: Option<RedditEntry>)
    ensures
        r.deep_view() == fetched_entry(body.deep_view()),
        cache_view(*final(cache)) == cache_after(
            cache_view(*old(cache)),
            link@,
            body.deep_view(),
            written,
        ),
{
    let json = match body {
        Some(json) => json,
        None => {
            return None;
        },
    };
    let taken = cache.take();
    match taken {
        Some(mut known) => {
            match id_from_link(link) {
                Some(key) => {
                    let _ = known.store(key, &json, written);
                },
                None => {},
            }
            *cache = Some(known);
        },
        None => {},
    }
    parse_reddit_json(&json)
}

impl Run {
    #[verifier::type_invariant]
    spec fn in_range(&self) -> bool {
        self.position <= self.missing.len()
    }

    /// Starts a run on `links`. A link that occurs more than once is taken
    /// once. What the cache knows of the links is decoded, and the links
    /// that are not the permanent link of such an entry wait to be fetched.
    pub fn start(links: Vec<Link>, cache: Option<Cache>) -> (r: Run)
        ensures
            r@ == started(links.deep_view(), cache_view(cache)),
    {
        let links = unique_links(&links);
        let reddits = match &cache {
            Some(known) => decode_documents(&get_entries(&links, known)),
            None => Vec::new(),
        };
        let missing = missing_links(&links, &reddits);
        assert(reddits.deep_view() =~= cache_pass(links.deep_view(), cache_view(cache)));
        Run { cache, reddits, missing, position: 0, throttle: Throttle::new() }
    }

    /// Whether all links were worked off.
    pub fn is_finished(&self) -> (r: bool)
        ensures
            r == is_done(self@),
    {
        self.position >= self.missing.len()
    }

    /// How many links are still to fetch.
    pub fn remaining(&self) -> (r: usize)
        ensures
            r == self@.missing.len() - self@.position,
            0 <= self@.position <= self@.missing.len(),
    {
        proof {
            use_type_invariant(self);
        }
        self.missing.len() - self.position
    }

    /// What to fetch next, and how long to wait before it, at `now`.
    /// Nothing once the run is done.
    pub fn next_fetch(&self, now: i64) -> (r: Option<Fetch>)
        ensures
            r is None <==> is_done(self@),
            r matches Some(fetch) ==> fetch.address.deep_view() == api_link_of(current(self@))
                && fetch.wait == delay_of(self@.throttle, now as int),
    {
        if self.position >= self.missing.len() {
            return None;
        }
        let address = ensure_json_link(&self.missing[self.position]);
        Some(Fetch { address, wait: self.throttle.delay(now) })
    }

    /// What to fetch next, and how long to wait before it, by the clock.
    /// Nothing once the run is done.
    pub fn next_fetch_now(&self) -> (r: Option<Fetch>)
        ensures
            r is None <==> is_done(self@),
            r matches Some(fetch) ==> fetch.address.deep_view() == api_link_of(current(self@))
                && exists|time: int| fetch.wait == #[trigger] delay_of(self@.throttle, time),
    {
        self.next_fetch(now())
    }

    /// The name of the file, in the cache's directory, that a body fetched
    /// for the current link is to be written to before it is handed to
    /// `fetched`. None where nothing is to be written.
    pub fn store_request(&self) -> (r: Option<String>)
        ensures
            r.deep_view() == if is_done(self@) {
                None
            } else {
                store_target(self@.cache is Some, current(self@))
            },
    {
        if self.position >= self.missing.len() || self.cache.is_none() {
            return None;
        }
        match id_from_link(&self.missing[self.position]) {
            Some(key) => Some(Cache::file_name_for(key.as_str())),
            None => None,
        }
    }

    /// Takes what came back for the current link: `body` is the document,
    /// or `None` where the request failed; `written` says whether the body
    /// was written to the file that `store_request` named; `now` is the
    /// time after the request. The run moves on to its next link.
    pub fn fetched(&mut self, body: Option<String>, written: bool, now: i64)
        ensures
            final(self)@ == after_fetch(old(self)@, body.deep_view(), written, now as int),
    {
        if self.position >= self.missing.len() {
            return ;
        }
        let mut taken = Run {
            cache: None,
            reddits: Vec::new(),
            missing: Vec::new(),
            position: 0,
            throttle: Throttle::new(),
        };
        std::mem::swap(self, &mut taken);
        let Run { mut cache, mut reddits, missing, position, mut throttle } = taken;
        let ghost before = reddits.deep_view();
        match download_reddit_and_cache(&missing[position], &mut cache, body, written) {
            Some(entry) => {
                reddits.push(entry);
                assert(reddits.deep_view() =~= before.push(entry@));
            },
            None => {},
        }
        throttle.finished(now);
        *self = Run { cache, reddits, missing, position: position + 1, throttle };
    }

    /// Takes what came back for the current link, as `fetched` does, at the
    /// time of the clock.
    pub fn fetched_now(&mut self, body: Option<String>, written: bool)
        ensures
            exists|time: int|
                final(self)@ == #[trigger] after_fetch(
                    old(self)@,
                    body.deep_view(),
                    written,
                    time,
                ),
    {
        self.fetched(body, written, now());
    }

    /// The entries gathered so far.
    pub fn entries(&self) -> (r: &Vec<RedditEntry>)
        ensures
            r.deep_view() == self@.reddits,
    {
        &self.reddits
    }

    /// The cache of the run, where it has one.
    pub fn cache(&self) -> (r: Option<&Cache>)
        ensures
            r matches Some(cache) ==> self@.cache == Some(cache@),
            r is None <==> self@.cache is None,
    {
        self.cache.as_ref()
    }

    /// Ends the run: the entries gathered, those of the cache first, and
    /// the cache.
    pub fn finish(self) -> (r: (Vec<RedditEntry>, Option<Cache>))
        ensures
            r.0.deep_view() == self@.reddits,
            cache_view(r.1) == self@.cache,
    {
        (self.reddits, self.cache)
    }
}

/// Starts a run on the lines of a bookmark export: of the links that the
/// lines hold, those of the site are taken.
pub fn bookmark_to_reddit(lines: &Vec<String>, cache: Option<Cache>) -> (r: Run)
    ensures
        r@ == started(
            on_host(links_of_lines(LineFormat::Bookmark, lines.deep_view()), SITE_HOST@),
            cache_view(cache),
        ),
{
    let links = parse_song_links_from_bookmark(lines);
    let links = links_on_host(&links, SITE_HOST);
    Run::start(links, cache)
}

/// What `missing_of` holds: no link twice, only links of `links` that are
/// not the permanent link of an entry, and each of those.
pub proof fn lemma_missing_of(links: Seq<LinkView>, reddits: Seq<EntryView>)
    ensures
        forall|i: int, j: int|
            0 <= i < j < missing_of(links, reddits).len() ==> (#[trigger] missing_of(
                links,
                reddits,
            )[i]).text != (#[trigger] missing_of(links, reddits)[j]).text,
        forall|i: int|
            0 <= i < missing_of(links, reddits).len() ==> links.contains(
                #[trigger] missing_of(links, reddits)[i],
            ) && !is_found(reddits, missing_of(links, reddits)[i].text),
        forall|i: int|
            0 <= i < links.len() && !is_found(reddits, (#[trigger] links[i]).text) ==> holds_text(
                missing_of(links, reddits),
                links[i].text,
            ),
    decreases links.len(),
{
    if links.len() > 0 {
        let init = links.drop_last();
        let last = links.last();
        let before = missing_of(init, reddits);
        let all = missing_of(links, reddits);
        lemma_missing_of(init, reddits);
        assert forall|i: int| 0 <= i < all.len() implies links.contains(#[trigger] all[i])
            && !is_found(reddits, all[i].text) by {
            if i < before.len() {
                assert(all[i] == before[i]);
                assert(init.contains(before[i]));
                let k = choose|k: int| 0 <= k < init.len() && init[k] == before[i];
                assert(links[k] == all[i]);
            } else {
                assert(links[links.len() - 1] == all[i]);
            }
        }
        assert forall|i: int, j: int| 0 <= i < j < all.len() implies (#[trigger] all[i]).text != (
        #[trigger] all[j]).text by {
            assert(all[i] == before[i]);
            if j < before.len() {
                assert(all[j] == before[j]);
            }
        }
        assert forall|i: int|
            0 <= i < links.len() && !is_found(reddits, (#[trigger] links[i]).text) implies holds_text(
            all,
            links[i].text,
        ) by {
            if i < init.len() {
                assert(init[i] == links[i]);
                let k = choose|k: int|
                    0 <= k < before.len() && (#[trigger] before[k]).text == links[i].text;
                assert(all[k].text == links[i].text);
            } else if holds_text(before, last.text) {
                let k = choose|k: int|
                    0 <= k < before.len() && (#[trigger] before[k]).text == last.text;
                assert(all[k].text == links[i].text);
            } else {
                assert(all[all.len() - 1].text == links[i].text);
            }
        }
    }
}

/// A run works its links off one by one: each outcome moves it on by one
/// link, and adds the entry of its body, if it decodes to one, behind the
/// entries gathered before.
pub proof fn lemma_run_through(run: RunView, outcomes: Seq<Outcome>)
    requires
        0 <= run.position,
        run.position + outcomes.len() <= run.missing.len(),
    ensures
        run_through(run, outcomes).position == run.position + outcomes.len(),
        run_through(run, outcomes).missing == run.missing,
        run_through(run, outcomes).reddits == run.reddits + fetched_entries(outcomes),
    decreases outcomes.len(),
{
    if outcomes.len() > 0 {
        lemma_run_through(run, outcomes.drop_last());
        let before = fetched_entries(outcomes.drop_last());
        match fetched_entry(outcomes.last().body) {
            Some(entry) => {
                assert((run.reddits + before).push(entry) =~= run.reddits + before.push(entry));
            },
            None => {},
        }
    } else {
        assert(run.reddits + Seq::<EntryView>::empty() =~= run.reddits);
    }
}

/// The cache gives at most one entry for each link that it is asked for.
pub proof fn lemma_cache_pass_len(links: Seq<LinkView>, cache: Option<CacheView>)
    ensures
        cache_pass(links, cache).len() <= links.len(),
{
    match cache {
        Some(cache) => {
            lemma_cached_documents_len(links, cache);
            lemma_decode_all_len(cached_documents(links, cache));
        },
        None => {},
    }
}

/// Documents decode to at most as many entries as there are documents.
proof fn lemma_decode_all_len(documents: Seq<Seq<char>>)
    ensures
        decode_all(documents).len() <= documents.len(),
    decreases documents.len(),
{
    if documents.len() > 0 {
        lemma_decode_all_len(documents.drop_last());
    }
}

/// The cache knows at most one document for each link.
proof fn lemma_cached_documents_len(links: Seq<LinkView>, cache: CacheView)
    ensures
        cached_documents(links, cache).len() <= links.len(),
    decreases links.len(),
{
    if links.len() > 0 {
        lemma_cached_documents_len(links.drop_last(), cache);
    }
}

/// The links of a run: each link of the input is taken once, so that the
/// cache gives at most one entry for it; and each that is not the permanent
/// link of an entry of the cache waits to be fetched, once, and no other
/// link does.
pub proof fn lemma_started(links: Seq<LinkView>, cache: Option<CacheView>)
    ensures
        forall|i: int, j: int|
            0 <= i < j < unique(links).len() ==> (#[trigger] unique(links)[i]).text != (
            #[trigger] unique(links)[j]).text,
        forall|i: int|
            0 <= i < links.len() ==> holds_text(unique(links), (#[trigger] links[i]).text),
        started(links, cache).reddits.len() <= unique(links).len(),
        forall|i: int, j: int|
            0 <= i < j < started(links, cache).missing.len() ==> (#[trigger] started(
                links,
                cache,
            ).missing[i]).text != (#[trigger] started(links, cache).missing[j]).text,
        forall|i: int|
            0 <= i < started(links, cache).missing.len() ==> links.contains(
                #[trigger] started(links, cache).missing[i],
            ) && !is_found(started(links, cache).reddits, started(links, cache).missing[i].text),
        forall|i: int|
            0 <= i < links.len() && !is_found(
                started(links, cache).reddits,
                (#[trigger] links[i]).text,
            ) ==> holds_text(started(links, cache).missing, links[i].text),
{
    let once = unique(links);
    let reddits = cache_pass(once, cache);
    let missing = missing_of(once, reddits);
    lemma_missing_of(links, Seq::empty());
    lemma_missing_of(once, reddits);
    lemma_cache_pass_len(once, cache);
    assert forall|i: int| 0 <= i < links.len() implies holds_text(
        once,
        (#[trigger] links[i]).text,
    ) by {
        assert(!is_found(Seq::<EntryView>::empty(), links[i].text));
    }
    assert forall|i: int| 0 <= i < missing.len() implies links.contains(#[trigger] missing[i]) by {
        assert(once.contains(missing[i]));
        let k = choose|k: int| 0 <= k < once.len() && once[k] == missing[i];
        assert(links.contains(once[k]));
    }
    assert forall|i: int|
        0 <= i < links.len() && !is_found(reddits, (#[trigger] links[i]).text) implies holds_text(
        missing,
        links[i].text,
    ) by {
        assert(holds_text(once, links[i].text));
        let k = choose|k: int| 0 <= k < once.len() && (#[trigger] once[k]).text == links[i].text;
        assert(holds_text(missing, once[k].text));
    }
}

/// A whole run: once an outcome came back for each link that the cache
/// did not answer, the run is done, and holds the entries of the cache
/// followed by those of the bodies.
pub proof fn lemma_whole_run(
    links: Seq<LinkView>,
    cache: Option<CacheView>,
    outcomes: Seq<Outcome>,
)
    requires
        outcomes.len() == started(links, cache).missing.len(),
    ensures
        is_done(run_through(started(links, cache), outcomes)),
        run_through(started(links, cache), outcomes).reddits == cache_pass(unique(links), cache)
            + fetched_entries(outcomes),
{
    lemma_run_through(started(links, cache), outcomes);
}

} // verus!
