//! The document cache: which document is known under which identifier,
//! mirrored by one file per document in a directory. The files themselves
//! are read and written by the caller; this module says which, and keeps
//! the mapping in step with them.

use vstd::prelude::*;
use vstd::std_specs::cmp::PartialEqSpecImpl;
use vstd::string::StringExecFns;
use crate::entry::{entry_id, parse_reddit_json};
use crate::link::{id_from_link, identifier_of, Link, LinkView};
use crate::text::{str_ends_with, str_eq};

verus! {

/// Why a document was not stored.
#[derive(Debug, Clone, Copy, PartialEq, Eq)]
pub enum CacheError {
    /// The document could not be written to its file.
    WriteFailed,
}

/// A cache, as mathematical values.
pub struct CacheView {
    /// The document known under each identifier.
    pub storage: Map<Seq<char>, Seq<char>>,
    /// The directory that holds the files.
    pub directory: Seq<char>,
}

/// One document under its identifier.
#[derive(Debug)]
struct Stored {
    key: String,
    json: String,
}

/// The documents known under their identifiers, and the directory that
/// mirrors them. No identifier is held twice.
#[derive(Debug)]
pub struct Cache {
    storage: Vec<Stored>,
    directory: String,
}

/// The name of the file that holds the document known under `key`.
pub open spec fn file_name(key: Seq<char>) -> Seq<char> {
    key + ".json"@
}

/// Whether a file of this name, in a cache directory, holds a document:
/// whether its extension is `json`.
pub open spec fn is_document_name(name: Seq<char>) -> bool {
    ".json"@.is_suffix_of(name) && name.len() > ".json"@.len()
}

/// The document known under `key`.
pub open spec fn lookup(cache: CacheView, key: Seq<char>) -> Option<Seq<char>> {
    if cache.storage.contains_key(key) {
        Some(cache.storage[key])
    } else {
        None
    }
}

/// The mapping after the document `data` was stored under `key`.
pub open spec fn after_store(cache: CacheView, key: Seq<char>, data: Seq<char>) -> CacheView {
    CacheView { storage: cache.storage.insert(key, data), directory: cache.directory }
}

/// The files of a directory, each name with its content, after `data` was
/// written for `key`.
pub open spec fn files_after_store(
    files: Map<Seq<char>, Seq<char>>,
    key: Seq<char>,
    data: Seq<char>,
) -> Map<Seq<char>, Seq<char>> {
    files.insert(file_name(key), data)
}

/// The mapping that the documents of a directory give, taken in order:
/// each document that decodes to an entry with an identifier is known under
/// that identifier, a later one in place of an earlier one.
pub open spec fn loaded(documents: Seq<Seq<char>>) -> Map<Seq<char>, Seq<char>>
    decreases documents.len(),
{
    if documents.len() == 0 {
        Map::empty()
    } else {
        let before = loaded(documents.drop_last());
        match entry_id(documents.last()) {
            Some(id) => before.insert(id, documents.last()),
            None => before,
        }
    }
}

/// The documents that a listing of a directory gives: of the names listed,
/// in their order, the content of each file whose name is that of a
/// document.
pub open spec fn documents_of(
    files: Map<Seq<char>, Seq<char>>,
    names: Seq<Seq<char>>,
) -> Seq<Seq<char>>
    decreases names.len(),
{
    if names.len() == 0 {
        Seq::empty()
    } else {
        let before = documents_of(files, names.drop_last());
        if is_document_name(names.last()) && files.contains_key(names.last()) {
            before.push(files[names.last()])
        } else {
            before
        }
    }
}

/// Whether a directory mirrors a mapping: for each identifier it holds the
/// file of that identifier, with the document known under it, and it holds
/// no other file that bears the name of a document.
pub open spec fn mirrors(
    files: Map<Seq<char>, Seq<char>>,
    storage: Map<Seq<char>, Seq<char>>,
) -> bool {
    &&& forall|key: Seq<char>| #[trigger]
        storage.contains_key(key) ==> files.contains_key(file_name(key)) && files[file_name(key)]
            == storage[key]
    &&& forall|name: Seq<char>|
        is_document_name(name) && #[trigger] files.contains_key(name) ==> exists|key: Seq<char>|
            #[trigger] storage.contains_key(key) && name == file_name(key)
}

/// The documents that the cache knows for `links`, in the order of the
/// links: a link without an identifier, or with one that the cache does not
/// know, gives none.
pub open spec fn cached_documents(links: Seq<LinkView>, cache: CacheView) -> Seq<Seq<char>>
    decreases links.len(),
{
    if links.len() == 0 {
        Seq::empty()
    } else {
        let before = cached_documents(links.drop_last(), cache);
        match identifier_of(links.last().segments) {
            Some(key) => match lookup(cache, key) {
                Some(json) => before.push(json),
                None => before,
            },
            None => before,
        }
    }
}

/// The view of a cache that may be there.
pub open spec fn cache_view(cache: Option<Cache>) -> Option<CacheView> {
    match cache {
        Some(cache) => Some(cache@),
        None => None,
    }
}

/// The mapping that a sequence of stored documents stands for.
spec fn map_of(entries: Seq<Stored>) -> Map<Seq<char>, Seq<char>>
    decreases entries.len(),
{
    if entries.len() == 0 {
        Map::empty()
    } else {
        map_of(entries.drop_last()).insert(entries.last().key@, entries.last().json@)
    }
}

/// No identifier is held twice.
spec fn distinct_keys(entries: Seq<Stored>) -> bool {
    forall|i: int, j: int|
        0 <= i < j < entries.len() ==> #[trigger] entries[i].key@ != #[trigger] entries[j].key@
}

/// What `map_of` holds: exactly the identifiers of the entries, and for
/// each the document of its entry.
proof fn lemma_map_of(entries: Seq<Stored>)
    requires
        distinct_keys(entries),
    ensures
        forall|k: Seq<char>| #[trigger]
            map_of(entries).contains_key(k) <==> exists|i: int|
                0 <= i < entries.len() && #[trigger] entries[i].key@ == k,
        forall|i: int|
            0 <= i < entries.len() ==> map_of(entries)[#[trigger] entries[i].key@]
                == entries[i].json@,
    decreases entries.len(),
{
    if entries.len() > 0 {
        let init = entries.drop_last();
        lemma_map_of(init);
        assert forall|k: Seq<char>| #[trigger]
            map_of(entries).contains_key(k) implies exists|i: int|
            0 <= i < entries.len() && #[trigger] entries[i].key@ == k by {
            if k == entries.last().key@ {
                assert(entries[entries.len() - 1].key@ == k);
            } else {
                assert(map_of(init).contains_key(k));
                let i = choose|i: int| 0 <= i < init.len() && #[trigger] init[i].key@ == k;
                assert(entries[i].key@ == k);
            }
        }
        assert forall|k: Seq<char>|
            (exists|i: int|
                0 <= i < entries.len() && #[trigger] entries[i].key@ == k) implies #[trigger]
            map_of(entries).contains_key(k) by {
            let i = choose|i: int| 0 <= i < entries.len() && #[trigger] entries[i].key@ == k;
            if i < init.len() {
                assert(init[i].key@ == k);
            }
        }
        assert forall|i: int| 0 <= i < entries.len() implies map_of(entries)[#[trigger]
            entries[i].key@] == entries[i].json@ by {
            if i < init.len() {
                assert(init[i].key@ == entries[i].key@);
                assert(entries[i].key@ != entries[entries.len() - 1].key@);
            }
        }
    }
}

/// Replacing the document of an entry stores it under that entry's
/// identifier.
proof fn lemma_map_of_update(entries: Seq<Stored>, at: int, stored: Stored)
    requires
        distinct_keys(entries),
        0 <= at < entries.len(),
        stored.key@ == entries[at].key@,
    ensures
        distinct_keys(entries.update(at, stored)),
        map_of(entries.update(at, stored)) == map_of(entries).insert(stored.key@, stored.json@),
{
    let after = entries.update(at, stored);
    assert(distinct_keys(after)) by {
        assert forall|i: int, j: int| 0 <= i < j < after.len() implies #[trigger] after[i].key@
            != #[trigger] after[j].key@ by {
            assert(entries[i].key@ != entries[j].key@);
        }
    }
    lemma_map_of(entries);
    lemma_map_of(after);
    let want = map_of(entries).insert(stored.key@, stored.json@);
    assert forall|k: Seq<char>| map_of(after).contains_key(k) <==> want.contains_key(k) by {
        if map_of(after).contains_key(k) {
            let i = choose|i: int| 0 <= i < after.len() && #[trigger] after[i].key@ == k;
            assert(entries[i].key@ == k);
        }
        if want.contains_key(k) && k != stored.key@ {
            let i = choose|i: int| 0 <= i < entries.len() && #[trigger] entries[i].key@ == k;
            assert(after[i].key@ == k);
        }
        if k == stored.key@ {
            assert(after[at].key@ == k);
        }
    }
    assert forall|k: Seq<char>| map_of(after).contains_key(k) implies map_of(after)[k]
        == want[k] by {
        let i = choose|i: int| 0 <= i < after.len() && #[trigger] after[i].key@ == k;
        assert(map_of(after)[after[i].key@] == after[i].json@);
        if i != at {
            assert(entries[i].key@ != entries[at].key@);
            assert(map_of(entries)[entries[i].key@] == entries[i].json@);
        }
    }
    assert(map_of(after) =~= want);
}

/// The number of identifiers that `map_of` holds is the number of entries.
proof fn lemma_map_of_len(entries: Seq<Stored>)
    requires
        distinct_keys(entries),
    ensures
        map_of(entries).dom().finite(),
        map_of(entries).len() == entries.len(),
    decreases entries.len(),
{
    if entries.len() > 0 {
        let init = entries.drop_last();
        lemma_map_of_len(init);
        lemma_map_of(init);
        assert(!map_of(init).contains_key(entries.last().key@)) by {
            if map_of(init).contains_key(entries.last().key@) {
                let i = choose|i: int|
                    0 <= i < init.len() && #[trigger] init[i].key@ == entries.last().key@;
                assert(entries[i].key@ != entries[entries.len() - 1].key@);
            }
        }
    }
}

impl View for Cache {
    type V = CacheView;

    closed spec fn view(&self) -> CacheView {
        CacheView { storage: map_of(self.storage@), directory: self.directory@ }
    }
}

impl Cache {
    #[verifier::type_invariant]
    spec fn distinct(&self) -> bool {
        distinct_keys(self.storage@)
    }

    /// A cache for `directory` that knows no document yet.
    pub fn new(directory: &str) -> (r: Cache)
        ensures
            r@.storage == Map::<Seq<char>, Seq<char>>::empty(),
            r@.directory == directory@,
    {
        Cache { storage: Vec::new(), directory: String::from_str(directory) }
    }

    /// The directory that holds the files of the cache.
    pub fn directory(&self) -> (r: &str)
        ensures
            r@ == self@.directory,
    {
        self.directory.as_str()
    }

    /// Where `key` stands among the stored documents.
    fn position(&self, key: &str) -> (r: Option<usize>)
        ensures
            match r {
                Some(at) => at < self.storage.len() && self.storage[at as int].key@ == key@,
                None => forall|i: int|
                    0 <= i < self.storage.len() ==> #[trigger] self.storage[i].key@ != key@,
            },
    {
        let mut i: usize = 0;
        while i < self.storage.len()
            invariant
                i <= self.storage.len(),
                forall|j: int| 0 <= j < i ==> #[trigger] self.storage[j].key@ != key@,
            decreases self.storage.len() - i,
        {
            if str_eq(self.storage[i].key.as_str(), key) {
                return Some(i);
            }
            i = i + 1;
        }
        None
    }

    /// The document known under `key`, if there is one. Only the mapping
    /// is asked.
    pub fn try_to_get(&self, key: &String) -> (r: Option<String>)
        ensures
            r.deep_view() == lookup(self@, key@),
    {
        proof {
            use_type_invariant(self);
            lemma_map_of(self.storage@);
        }
        match self.position(key.as_str()) {
            Some(at) => Some(self.storage[at].json.clone()),
            None => None,
        }
    }

    /// The number of documents that the cache knows.
    pub fn len(&self) -> (r: usize)
        ensures
            r == self@.storage.len(),
            self@.storage.dom().finite(),
    {
        proof {
            use_type_invariant(self);
            lemma_map_of_len(self.storage@);
        }
        self.storage.len()
    }

    /// Whether the cache knows no document.
    pub fn is_empty(&self) -> (r: bool)
        ensures
            r == (self@.storage == Map::<Seq<char>, Seq<char>>::empty()),
    {
        proof {
            use_type_invariant(self);
            lemma_map_of(self.storage@);
            if self.storage.len() > 0 {
                assert(map_of(self.storage@).contains_key(self.storage@[0].key@));
            } else {
                assert(map_of(self.storage@) =~= Map::<Seq<char>, Seq<char>>::empty());
            }
        }
        self.storage.len() == 0
    }

    /// The name of the file that holds the document known under `key`.
    pub fn file_name_for(key: &str) -> (r: String)
        ensures
            r@ == file_name(key@),
    {
        String::from_str(key).concat(".json")
    }

    /// Takes the document `data` into the mapping under `key`, once the
    /// caller has written it to the file `file_name_for(key)` and says in
    /// `written` whether that succeeded. Where it did, the mapping knows
    /// `data` under `key`, in place of what it knew there before. Where it
    /// did not, the mapping is as before and the failure is returned.
    pub fn store(&mut self, key: String, data: &String, written: bool) -> (r: Result<
        (),
        CacheError,
    >)
        ensures
            written ==> r is Ok && final(self)@ == after_store(old(self)@, key@, data@),
            !written ==> r == Err::<(), CacheError>(CacheError::WriteFailed) && final(self)@ == old(
                self,
            )@,
    {
        if !written {
            return Err(CacheError::WriteFailed);
        }
        proof {
            use_type_invariant(&*self);
        }
        let stored = Stored { key, json: data.clone() };
        let at = self.position(stored.key.as_str());
        let mut taken = Cache { storage: Vec::new(), directory: String::new() };
        std::mem::swap(self, &mut taken);
        let Cache { mut storage, directory } = taken;
        match at {
            Some(at) => {
                proof {
                    lemma_map_of_update(storage@, at as int, stored);
                }
                storage.set(at, stored);
            },
            None => {
                proof {
                    assert(storage@.push(stored).drop_last() =~= storage@);
                }
                storage.push(stored);
            },
        }
        *self = Cache { storage, directory };
        Ok(())
    }

    /// Whether `self` and `other` know the same documents under the same
    /// identifiers, for the same directory.
    pub fn equals(&self, other: &Cache) -> (r: bool)
        ensures
            r == (self@ == other@),
    {
        proof {
            use_type_invariant(self);
            use_type_invariant(other);
            lemma_map_of(self.storage@);
            lemma_map_of(other.storage@);
        }
        if self.directory != other.directory {
            return false;
        }
        if !self.within(other) {
            return false;
        }
        if !other.within(self) {
            return false;
        }
        assert(self@.storage =~= other@.storage);
        true
    }

    /// Whether `other` knows every document of `self` under the same
    /// identifier.
    fn within(&self, other: &Cache) -> (r: bool)
        ensures
            r == (forall|k: Seq<char>| #[trigger]
                self@.storage.contains_key(k) ==> other@.storage.contains_key(k)
                    && other@.storage[k] == self@.storage[k]),
    {
        proof {
            use_type_invariant(self);
            use_type_invariant(other);
            lemma_map_of(self.storage@);
            lemma_map_of(other.storage@);
        }
        let mut i: usize = 0;
        while i < self.storage.len()
            invariant
                i <= self.storage.len(),
                forall|k: Seq<char>| #[trigger]
                    map_of(self.storage@).contains_key(k) <==> exists|i: int|
                        0 <= i < self.storage.len() && #[trigger] self.storage[i].key@ == k,
                forall|i: int|
                    0 <= i < self.storage.len() ==> map_of(self.storage@)[#[trigger]
                    self.storage[i].key@] == self.storage[i].json@,
                forall|j: int|
                    0 <= j < i ==> other@.storage.contains_key(#[trigger] self.storage[j].key@)
                        && other@.storage[self.storage[j].key@] == self.storage[j].json@,
            decreases self.storage.len() - i,
        {
            let same = match other.try_to_get(&self.storage[i].key) {
                Some(json) => json == self.storage[i].json,
                None => false,
            };
            if !same {
                assert(self@.storage.contains_key(self.storage[i as int].key@));
                return false;
            }
            i = i + 1;
        }
        true
    }

    /// The cache of a directory, from the documents that the caller read
    /// out of its files whose names `is_cache_file` accepts. No cache where
    /// `documents` is `None`: where the directory is none, or could not be
    /// listed. A document that does not decode to an entry with an
    /// identifier is passed over.
    pub fn load_cache_from_directory(directory: &str, documents: Option<&Vec<String>>) -> (r:
        Option<Cache>)
        ensures
            r is Some <==> documents is Some,
            r matches Some(cache) ==> cache@.directory == directory@ && cache@.storage == loaded(
                documents.unwrap().deep_view(),
            ),
    {
        let documents = match documents {
            Some(documents) => documents,
            None => {
                return None;
            },
        };
        let mut cache = Cache::new(directory);
        let mut i: usize = 0;
        while i < documents.len()
            invariant
                i <= documents.len(),
                cache@.directory == directory@,
                cache@.storage == loaded(documents.deep_view().take(i as int)),
            decreases documents.len() - i,
        {
            proof {
                let all = documents.deep_view();
                assert(all.take(i as int + 1).drop_last() =~= all.take(i as int));
                assert(all.take(i as int + 1).last() == documents@[i as int]@);
            }
            let json = &documents[i];
            match parse_reddit_json(json) {
                Some(entry) => match entry.reddit_id {
                    Some(id) => {
                        let _ = cache.store(id, json, true);
                    },
                    None => {},
                },
                None => {},
            }
            i = i + 1;
        }
        assert(documents.deep_view().take(i as int) =~= documents.deep_view());
        Some(cache)
    }
}

impl PartialEq for Cache {
    /// Two caches are equal where they know the same documents under the
    /// same identifiers, for the same directory.
    fn eq(&self, other: &Cache) -> (r: bool) {
        self.equals(other)
    }
}

impl PartialEqSpecImpl for Cache {
    open spec fn obeys_eq_spec() -> bool {
        true
    }

    open spec fn eq_spec(&self, other: &Cache) -> bool {
        self@ == other@
    }
}

/// Whether a file of this name, in a cache directory, holds a document.
pub fn is_cache_file(name: &str) -> (r: bool)
    ensures
        r == is_document_name(name@),
{
    proof {
        reveal_strlit(".json");
    }
    str_ends_with(name, ".json") && name.unicode_len() > 5
}

/// The documents that `cache` knows for `links`, in the order of the links.
pub fn get_entries(links: &Vec<Link>, cache: &Cache) -> (r: Vec<String>)
    ensures
        r.deep_view() == cached_documents(links.deep_view(), cache@),
{
    let mut jsons: Vec<String> = Vec::new();
    let mut i: usize = 0;
    while i < links.len()
        invariant
            i <= links.len(),
            jsons.deep_view() == cached_documents(links.deep_view().take(i as int), cache@),
        decreases links.len() - i,
    {
        let ghost before = jsons.deep_view();
        proof {
            let all = links.deep_view();
            assert(all.take(i as int + 1).drop_last() =~= all.take(i as int));
            assert(all.take(i as int + 1).last() == links@[i as int]@);
        }
        match id_from_link(&links[i]) {
            Some(key) => match cache.try_to_get(&key) {
                Some(json) => {
                    jsons.push(json);
                    assert(jsons.deep_view() =~= before.push(json@));
                },
                None => {},
            },
            None => {},
        }
        i = i + 1;
    }
    assert(links.deep_view().take(i as int) =~= links.deep_view());
    jsons
}

/// A document that was stored is the one that is found, and what is known
/// under other identifiers is as before.
pub proof fn lemma_store_then_get(cache: CacheView, key: Seq<char>, data: Seq<char>)
    ensures
        lookup(after_store(cache, key, data), key) == Some(data),
        forall|other: Seq<char>|
            other != key ==> lookup(after_store(cache, key, data), other) == lookup(cache, other),
{
}

/// Storing the same document under the same identifier a second time
/// changes neither the mapping nor the files.
pub proof fn lemma_store_twice(
    cache: CacheView,
    files: Map<Seq<char>, Seq<char>>,
    key: Seq<char>,
    data: Seq<char>,
)
    ensures
        after_store(after_store(cache, key, data), key, data) == after_store(cache, key, data),
        files_after_store(files_after_store(files, key, data), key, data) == files_after_store(
            files,
            key,
            data,
        ),
{
    assert(cache.storage.insert(key, data).insert(key, data) =~= cache.storage.insert(key, data));
    assert(files.insert(file_name(key), data).insert(file_name(key), data) =~= files.insert(
        file_name(key),
        data,
    ));
}

/// Files of different identifiers have different names.
proof fn lemma_file_name_injective(a: Seq<char>, b: Seq<char>)
    requires
        file_name(a) == file_name(b),
    ensures
        a == b,
{
    assert(a =~= file_name(a).subrange(0, a.len() as int));
    assert(b =~= file_name(b).subrange(0, b.len() as int));
    assert(file_name(a).len() == a.len() + ".json"@.len());
    assert(file_name(b).len() == b.len() + ".json"@.len());
}

/// A store keeps the directory the mirror of the mapping.
pub proof fn lemma_store_keeps_mirror(
    files: Map<Seq<char>, Seq<char>>,
    cache: CacheView,
    key: Seq<char>,
    data: Seq<char>,
)
    requires
        mirrors(files, cache.storage),
    ensures
        mirrors(files_after_store(files, key, data), after_store(cache, key, data).storage),
{
    let written = files_after_store(files, key, data);
    let storage = after_store(cache, key, data).storage;
    assert forall|other: Seq<char>| #[trigger] storage.contains_key(other) implies written.contains_key(
        file_name(other),
    ) && written[file_name(other)] == storage[other] by {
        if other != key {
            assert(cache.storage.contains_key(other));
            if file_name(other) == file_name(key) {
                lemma_file_name_injective(other, key);
            }
        }
    }
    assert forall|name: Seq<char>|
        is_document_name(name) && #[trigger] written.contains_key(name) implies exists|
        other: Seq<char>,
    | #[trigger] storage.contains_key(other) && name == file_name(other) by {
        if name == file_name(key) {
            assert(storage.contains_key(key));
        } else {
            assert(files.contains_key(name));
            let other = choose|other: Seq<char>| #[trigger]
                cache.storage.contains_key(other) && name == file_name(other);
            assert(storage.contains_key(other));
        }
    }
}

/// What a loaded cache knows: an identifier is known where some document
/// decodes to an entry with it, and what is known under it is the last such
/// document.
pub proof fn lemma_loaded(documents: Seq<Seq<char>>, key: Seq<char>)
    ensures
        loaded(documents).contains_key(key) <==> exists|i: int|
            0 <= i < documents.len() && entry_id(#[trigger] documents[i]) == Some(key),
        loaded(documents).contains_key(key) ==> exists|i: int|
            0 <= i < documents.len() && entry_id(#[trigger] documents[i]) == Some(key) && loaded(
                documents,
            )[key] == documents[i] && forall|j: int|
                i < j < documents.len() ==> entry_id(#[trigger] documents[j]) != Some(key),
    decreases documents.len(),
{
    if documents.len() > 0 {
        let init = documents.drop_last();
        let last = documents.len() - 1;
        lemma_loaded(init, key);
        if entry_id(documents[last]) == Some(key) {
            assert(loaded(documents)[key] == documents[last]);
        } else if loaded(init).contains_key(key) {
            let i = choose|i: int|
                0 <= i < init.len() && entry_id(#[trigger] init[i]) == Some(key) && loaded(
                    init,
                )[key] == init[i] && forall|j: int|
                    i < j < init.len() ==> entry_id(#[trigger] init[j]) != Some(key);
            assert(entry_id(documents[i]) == Some(key) && loaded(documents)[key] == documents[i]);
            assert forall|j: int| i < j < documents.len() implies entry_id(
                #[trigger] documents[j],
            ) != Some(key) by {
                if j < last {
                    assert(init[j] == documents[j]);
                }
            }
        } else {
            assert forall|i: int| 0 <= i < documents.len() implies entry_id(
                #[trigger] documents[i],
            ) != Some(key) by {
                if i < last {
                    assert(init[i] == documents[i]);
                }
            }
        }
        if exists|i: int| 0 <= i < init.len() && entry_id(#[trigger] init[i]) == Some(key) {
            let i = choose|i: int| 0 <= i < init.len() && entry_id(#[trigger] init[i]) == Some(key);
            assert(entry_id(documents[i]) == Some(key));
        }
    }
}

/// A document that was stored under the identifier that it decodes to is
/// found again by a cache loaded from the same directory: from any listing
/// that names its file, at `at`, so long as no other document that decodes
/// to the same identifier is listed after it.
pub proof fn lemma_load_after_store(
    files: Map<Seq<char>, Seq<char>>,
    names: Seq<Seq<char>>,
    at: int,
    key: Seq<char>,
    data: Seq<char>,
)
    requires
        key.len() > 0,
        entry_id(data) == Some(key),
        0 <= at < names.len(),
        names[at] == file_name(key),
        forall|j: int|
            at < j < names.len() && (#[trigger] names[j]) != file_name(key) && is_document_name(
                names[j],
            ) && files.contains_key(names[j]) ==> entry_id(files[names[j]]) != Some(key),
    ensures
        loaded(documents_of(files_after_store(files, key, data), names)).contains_key(key),
        loaded(documents_of(files_after_store(files, key, data), names))[key] == data,
    decreases names.len(),
{
    let written = files_after_store(files, key, data);
    let last = names.len() - 1;
    let init = names.drop_last();
    let before = documents_of(written, init);
    let all = documents_of(written, names);
    assert(is_document_name(file_name(key))) by {
        let name = file_name(key);
        assert(name.subrange(name.len() - ".json"@.len(), name.len() as int) =~= ".json"@);
    }
    if at < last {
        assert(init[at] == names[at]);
        assert forall|j: int|
            at < j < init.len() && (#[trigger] init[j]) != file_name(key) && is_document_name(
                init[j],
            ) && files.contains_key(init[j]) implies entry_id(files[init[j]]) != Some(key) by {
            assert(init[j] == names[j]);
        }
        lemma_load_after_store(files, init, at, key, data);
        if is_document_name(names[last]) && written.contains_key(names[last]) {
            assert(all.drop_last() =~= before);
            if names[last] != file_name(key) {
                assert(files.contains_key(names[last]));
                assert(entry_id(all.last()) != Some(key));
            }
        }
    } else {
        assert(all.drop_last() =~= before);
        assert(all.last() == data);
    }
}

/// The documents of a listing are the contents of the listed files that
/// bear the name of a document.
proof fn lemma_documents_of(files: Map<Seq<char>, Seq<char>>, names: Seq<Seq<char>>)
    ensures
        forall|i: int|
            0 <= i < documents_of(files, names).len() ==> exists|j: int|
                0 <= j < names.len() && is_document_name(#[trigger] names[j]) && files.contains_key(
                    names[j],
                ) && files[names[j]] == (#[trigger] documents_of(files, names)[i]),
        forall|j: int|
            0 <= j < names.len() && is_document_name(#[trigger] names[j]) && files.contains_key(
                names[j],
            ) ==> documents_of(files, names).contains(files[names[j]]),
    decreases names.len(),
{
    if names.len() > 0 {
        let init = names.drop_last();
        let last = names.len() - 1;
        let all = documents_of(files, names);
        let before = documents_of(files, init);
        lemma_documents_of(files, init);
        assert forall|i: int| 0 <= i < all.len() implies exists|j: int|
            0 <= j < names.len() && is_document_name(#[trigger] names[j]) && files.contains_key(
                names[j],
            ) && files[names[j]] == (#[trigger] all[i]) by {
            if i < before.len() {
                assert(all[i] == before[i]);
                let j = choose|j: int|
                    0 <= j < init.len() && is_document_name(#[trigger] init[j])
                        && files.contains_key(init[j]) && files[init[j]] == before[i];
                assert(names[j] == init[j]);
            } else {
                assert(is_document_name(names[last]));
            }
        }
        assert forall|j: int|
            0 <= j < names.len() && is_document_name(#[trigger] names[j]) && files.contains_key(
                names[j],
            ) implies all.contains(files[names[j]]) by {
            if j < last {
                assert(init[j] == names[j]);
                assert(before.contains(files[init[j]]));
                let i = choose|i: int| 0 <= i < before.len() && before[i] == files[init[j]];
                assert(all[i] == files[names[j]]);
            } else {
                assert(all[all.len() - 1] == files[names[j]]);
            }
        }
    }
}

/// A cache loaded from a directory that mirrors a mapping knows that
/// mapping again, where every document is kept under the identifier that
/// it decodes to, no identifier is empty, and the listing names every file
/// of the directory.
pub proof fn lemma_load_mirrors(
    files: Map<Seq<char>, Seq<char>>,
    names: Seq<Seq<char>>,
    storage: Map<Seq<char>, Seq<char>>,
)
    requires
        mirrors(files, storage),
        forall|key: Seq<char>| #[trigger]
            storage.contains_key(key) ==> key.len() > 0 && entry_id(storage[key]) == Some(key),
        forall|name: Seq<char>| #[trigger] files.contains_key(name) ==> names.contains(name),
    ensures
        loaded(documents_of(files, names)) == storage,
{
    let documents = documents_of(files, names);
    let found = loaded(documents);
    lemma_documents_of(files, names);
    assert forall|key: Seq<char>| found.contains_key(key) == storage.contains_key(key) && (
    found.contains_key(key) ==> found[key] == storage[key]) by {
        lemma_loaded(documents, key);
        if found.contains_key(key) {
            let i = choose|i: int|
                0 <= i < documents.len() && entry_id(#[trigger] documents[i]) == Some(key) && found[key]
                    == documents[i];
            let j = choose|j: int|
                0 <= j < names.len() && is_document_name(#[trigger] names[j]) && files.contains_key(
                    names[j],
                ) && files[names[j]] == documents[i];
            let other = choose|other: Seq<char>| #[trigger]
                storage.contains_key(other) && names[j] == file_name(other);
            assert(entry_id(storage[other]) == Some(other));
        }
        if storage.contains_key(key) {
            let name = file_name(key);
            assert(is_document_name(name)) by {
                assert(name.subrange(name.len() - ".json"@.len(), name.len() as int) =~= ".json"@);
            }
            assert(names.contains(name));
            let j = choose|j: int| 0 <= j < names.len() && names[j] == name;
            assert(is_document_name(names[j]) && files.contains_key(names[j]));
            assert(documents.contains(files[names[j]]));
            let i = choose|i: int| 0 <= i < documents.len() && documents[i] == files[names[j]];
            assert(entry_id(documents[i]) == Some(key));
        }
    }
    assert(found =~= storage);
}

} // verus!
