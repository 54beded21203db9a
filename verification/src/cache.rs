//! Bounded least-recently-used caches of replies.
//!
//! A cache maps a text key to a reply (media type and body). It holds at most
//! as many entries as it was made for; storing into a full cache drops the
//! entry that was used least recently, and both reading and storing count as
//! use.

use lru::LruCache;
use std::num::NonZeroUsize;
use vstd::prelude::*;

use crate::lookup::{first_index, lemma_first_index_found, lemma_first_index_is_first};

verus! {

/// `lru::LruCache`, whose inside is not looked into.
#[verifier::external_type_specification]
#[verifier::external_body]
#[verifier::reject_recursive_types(K)]
#[verifier::reject_recursive_types(V)]
#[verifier::reject_recursive_types(S)]
pub struct ExLruCache<K, V, S>(LruCache<K, V, S>);

/// `lru::DefaultHasher`, the hasher that an `LruCache` has unless it is given
/// another.
#[verifier::external_type_specification]
#[verifier::external_body]
pub struct ExDefaultHasher(lru::DefaultHasher);

/// What the cache holds, as pairs of key and reply, most recently used
/// first.
pub uninterp spec fn lru_entries(cache: LruCache<String, (String, Vec<u8>)>) -> Seq<
    (Seq<char>, (Seq<char>, Seq<u8>)),
>;

/// The number of entries that the cache was made to hold.
pub uninterp spec fn lru_limit(cache: LruCache<String, (String, Vec<u8>)>) -> nat;

/// The keys of a list of entries, in order.
pub open spec fn keys_of(entries: Seq<(Seq<char>, (Seq<char>, Seq<u8>))>) -> Seq<Seq<char>> {
    Seq::new(entries.len(), |i: int| entries[i].0)
}

/// The reply stored under `key`.
pub open spec fn entry_lookup(entries: Seq<(Seq<char>, (Seq<char>, Seq<u8>))>, key: Seq<char>)
    -> Option<(Seq<char>, Seq<u8>)> {
    match first_index(keys_of(entries), key) {
        Some(i) => Some(entries[i].1),
        None => None,
    }
}

/// The entries after `key` was read: its entry, if there is one, moves to
/// the front.
pub open spec fn entries_after_get(
    entries: Seq<(Seq<char>, (Seq<char>, Seq<u8>))>,
    key: Seq<char>,
) -> Seq<(Seq<char>, (Seq<char>, Seq<u8>))> {
    match first_index(keys_of(entries), key) {
        Some(i) => seq![entries[i]] + entries.remove(i),
        None => entries,
    }
}

/// The entries after `value` was stored under `key`: the new entry stands at
/// the front; it replaces the entry that `key` had, or else, where the cache
/// is full, pushes out the last one.
pub open spec fn entries_after_put(
    entries: Seq<(Seq<char>, (Seq<char>, Seq<u8>))>,
    limit: nat,
    key: Seq<char>,
    value: (Seq<char>, Seq<u8>),
) -> Seq<(Seq<char>, (Seq<char>, Seq<u8>))> {
    match first_index(keys_of(entries), key) {
        Some(i) => seq![(key, value)] + entries.remove(i),
        None => if entries.len() == limit {
            seq![(key, value)] + entries.drop_last()
        } else {
            seq![(key, value)] + entries
        },
    }
}

/// `LruCache::new`: an empty cache for at most `limit` entries. The call
/// needs a limit that is not zero.
#[verifier::external_body]
fn lru_new(limit: usize) -> (cache: LruCache<String, (String, Vec<u8>)>)
    requires
        limit > 0,
    ensures
        lru_entries(cache) == Seq::<(Seq<char>, (Seq<char>, Seq<u8>))>::empty(),
        lru_limit(cache) == limit,
{
    LruCache::new(NonZeroUsize::new(limit).unwrap())
}

/// `LruCache::contains`: whether the key has an entry. The cache is left as
/// it is; the order of use does not change.
#[verifier::external_body]
fn lru_contains(cache: &LruCache<String, (String, Vec<u8>)>, key: &str) -> (found: bool)
    ensures
        found == (first_index(keys_of(lru_entries(*cache)), key@) is Some),
{
    cache.contains(key)
}

/// `LruCache::get`: a copy of the reply stored under the key, if there is
/// one; that entry becomes the most recently used. Nothing is added or
/// dropped.
#[verifier::external_body]
fn lru_get(cache: &mut LruCache<String, (String, Vec<u8>)>, key: &str) -> (out: Option<
    (String, Vec<u8>),
>)
    ensures
        lru_limit(*final(cache)) == lru_limit(*old(cache)),
        lru_entries(*final(cache)) == entries_after_get(lru_entries(*old(cache)), key@),
        match entry_lookup(lru_entries(*old(cache)), key@) {
            Some(v) => out is Some && out->Some_0.0@ == v.0 && out->Some_0.1@ == v.1,
            None => out is None,
        },
{
    cache.get(key).cloned()
}

/// `LruCache::put`: stores the reply under the key and makes it the most
/// recently used entry. A key that was present keeps its single entry, with
/// the new reply; otherwise a full cache first drops its least recently used
/// entry.
#[verifier::external_body]
fn lru_put(cache: &mut LruCache<String, (String, Vec<u8>)>, key: String, value: (String, Vec<u8>))
    ensures
        lru_limit(*final(cache)) == lru_limit(*old(cache)),
        lru_entries(*final(cache)) == entries_after_put(
            lru_entries(*old(cache)),
            lru_limit(*old(cache)),
            key@,
            (value.0@, value.1@),
        ),
{
    cache.put(key, value);
}

/// A reply: a media type (empty where none is known) and a body.
pub struct Content {
    /// The media type.
    pub mime: String,
    /// The body.
    pub bytes: Vec<u8>,
}

impl View for Content {
    type V = (Seq<char>, Seq<u8>);

    open spec fn view(&self) -> (Seq<char>, Seq<u8>) {
        (self.mime@, self.bytes@)
    }
}

/// The mathematical value of a [`ReplyCache`].
pub ghost struct CacheView {
    /// The entries, most recently used first.
    pub entries: Seq<(Seq<char>, (Seq<char>, Seq<u8>))>,
    /// The number of entries that the cache may hold.
    pub limit: nat,
}

impl CacheView {
    /// An empty cache for at most `limit` entries.
    pub open spec fn empty(limit: nat) -> CacheView {
        CacheView { entries: Seq::empty(), limit }
    }

    /// The cache holds each key once and no more entries than it may.
    pub open spec fn wf(self) -> bool {
        &&& self.limit > 0
        &&& self.entries.len() <= self.limit
        &&& keys_of(self.entries).no_duplicates()
    }

    /// Whether `key` has an entry.
    pub open spec fn contains(self, key: Seq<char>) -> bool {
        first_index(keys_of(self.entries), key) is Some
    }

    /// The reply stored under `key`.
    pub open spec fn lookup(self, key: Seq<char>) -> Option<(Seq<char>, Seq<u8>)> {
        entry_lookup(self.entries, key)
    }

    /// The cache after `key` was read.
    pub open spec fn touched(self, key: Seq<char>) -> CacheView {
        CacheView { entries: entries_after_get(self.entries, key), limit: self.limit }
    }

    /// The cache after `value` was stored under `key`.
    pub open spec fn stored(self, key: Seq<char>, value: (Seq<char>, Seq<u8>)) -> CacheView {
        CacheView {
            entries: entries_after_put(self.entries, self.limit, key, value),
            limit: self.limit,
        }
    }

    /// The key that storing under `key` pushes out: the least recently used
    /// one where the cache is full and `key` is new, else none.
    pub open spec fn evicted_by(self, key: Seq<char>) -> Option<Seq<char>> {
        if !self.contains(key) && self.entries.len() == self.limit && self.entries.len() > 0 {
            Some(self.entries.last().0)
        } else {
            None
        }
    }

    /// The cache after each of `items` was stored, in order.
    pub open spec fn stored_all(self, items: Seq<(Seq<char>, (Seq<char>, Seq<u8>))>) -> CacheView
        decreases items.len(),
    {
        if items.len() == 0 {
            self
        } else {
            self.stored_all(items.drop_last()).stored(items.last().0, items.last().1)
        }
    }
}

/// The number of rendered tables of contents that are kept.
pub const TOC_CACHE_CAPACITY: usize = 10;

/// The number of resolved resources that are kept.
pub const CONTENT_CACHE_CAPACITY: usize = 200;

/// A bounded cache of replies with least-recently-used eviction.
pub struct ReplyCache {
    cache: LruCache<String, (String, Vec<u8>)>,
}

impl View for ReplyCache {
    type V = CacheView;

    closed spec fn view(&self) -> CacheView {
        CacheView { entries: lru_entries(self.cache), limit: lru_limit(self.cache) }
    }
}

impl ReplyCache {
    /// The cache holds each key once and no more entries than it may.
    pub open spec fn wf(&self) -> bool {
        self@.wf()
    }

    /// An empty cache for at most `limit` entries.
    pub fn new(limit: usize) -> (out: ReplyCache)
        requires
            limit > 0,
        ensures
            out@ == CacheView::empty(limit as nat),
            out.wf(),
    {
        ReplyCache { cache: lru_new(limit) }
    }

    /// An empty cache for rendered tables of contents.
    pub fn for_toc() -> (out: ReplyCache)
        ensures
            out@ == CacheView::empty(TOC_CACHE_CAPACITY as nat),
            out.wf(),
    {
        ReplyCache::new(TOC_CACHE_CAPACITY)
    }

    /// An empty cache for resolved resources.
    pub fn for_content() -> (out: ReplyCache)
        ensures
            out@ == CacheView::empty(CONTENT_CACHE_CAPACITY as nat),
            out.wf(),
    {
        ReplyCache::new(CONTENT_CACHE_CAPACITY)
    }

    /// Whether `key` has an entry. This does not count as use.
    pub fn contains(&self, key: &str) -> (found: bool)
        ensures
            found == self@.contains(key@),
    {
        lru_contains(&self.cache, key)
    }

    /// The reply stored under `key`, which thereby becomes the most recently
    /// used entry.
    pub fn get(&mut self, key: &str) -> (out: Option<Content>)
        ensures
            final(self)@ == old(self)@.touched(key@),
            old(self).wf() ==> final(self).wf(),
            match old(self)@.lookup(key@) {
                Some(v) => out is Some && out->Some_0@ == v,
                None => out is None,
            },
    {
        proof {
            if self@.wf() {
                lemma_touched_wf(self@, key@);
            }
        }
        match lru_get(&mut self.cache, key) {
            Some(pair) => Some(Content { mime: pair.0, bytes: pair.1 }),
            None => None,
        }
    }

    /// Stores `content` under `key` as the most recently used entry. A full
    /// cache first drops its least recently used entry, unless `key` is
    /// already present.
    pub fn put(&mut self, key: String, content: Content)
        ensures
            final(self)@ == old(self)@.stored(key@, content@),
            old(self).wf() ==> final(self).wf(),
    {
        proof {
            if self@.wf() {
                lemma_stored_wf(self@, key@, content@);
            }
        }
        lru_put(&mut self.cache, key, (content.mime, content.bytes));
    }
}

/// In a cache that holds each key once, the entry at `i` is the one that a
/// lookup of its key finds.
pub proof fn lemma_lookup_at(c: CacheView, i: int)
    requires
        keys_of(c.entries).no_duplicates(),
        0 <= i < c.entries.len(),
    ensures
        first_index(keys_of(c.entries), c.entries[i].0) == Some(i),
        c.lookup(c.entries[i].0) == Some(c.entries[i].1),
{
    let keys = keys_of(c.entries);
    assert(keys[i] == c.entries[i].0);
    assert forall|j: int| 0 <= j < i implies keys[j] != keys[i] by {}
    lemma_first_index_found(keys, keys[i], i);
}

/// A key that no entry carries is not found.
pub proof fn lemma_lookup_missing(c: CacheView, key: Seq<char>)
    requires
        forall|j: int| 0 <= j < c.entries.len() ==> (#[trigger] c.entries[j]).0 != key,
    ensures
        !c.contains(key),
        c.lookup(key) is None,
{
    let keys = keys_of(c.entries);
    assert forall|j: int| 0 <= j < keys.len() implies keys[j] != key by {
        assert(keys[j] == c.entries[j].0);
    }
    crate::lookup::lemma_first_index_absent(keys, key);
}

/// Where the keys of a list are distinct, they stay distinct when the entry
/// at `i` gives way to an entry of the same key at the front.
proof fn lemma_moved_to_front(
    e: Seq<(Seq<char>, (Seq<char>, Seq<u8>))>,
    i: int,
    front: (Seq<char>, (Seq<char>, Seq<u8>)),
)
    requires
        keys_of(e).no_duplicates(),
        0 <= i < e.len(),
        front.0 == e[i].0,
    ensures
        (seq![front] + e.remove(i)).len() == e.len(),
        keys_of(seq![front] + e.remove(i)).no_duplicates(),
{
    let keys = keys_of(e);
    let n = seq![front] + e.remove(i);
    let nk = keys_of(n);
    assert forall|a: int, b: int| 0 <= a < nk.len() && 0 <= b < nk.len() && a != b implies nk[a]
        != nk[b] by {
        let sa = if a == 0 {
            i
        } else if a - 1 < i {
            a - 1
        } else {
            a
        };
        let sb = if b == 0 {
            i
        } else if b - 1 < i {
            b - 1
        } else {
            b
        };
        assert(nk[a] == keys[sa]);
        assert(nk[b] == keys[sb]);
        assert(sa != sb);
    }
}

/// Reading keeps a cache well formed.
pub proof fn lemma_touched_wf(c: CacheView, key: Seq<char>)
    requires
        c.wf(),
    ensures
        c.touched(key).wf(),
{
    let keys = keys_of(c.entries);
    lemma_first_index_is_first(keys, key);
    match first_index(keys, key) {
        Some(i) => {
            lemma_moved_to_front(c.entries, i, c.entries[i]);
        },
        None => {},
    }
}

/// Storing keeps a cache well formed.
pub proof fn lemma_stored_wf(c: CacheView, key: Seq<char>, value: (Seq<char>, Seq<u8>))
    requires
        c.wf(),
    ensures
        c.stored(key, value).wf(),
{
    let keys = keys_of(c.entries);
    let nk = keys_of(c.stored(key, value).entries);
    lemma_first_index_is_first(keys, key);
    match first_index(keys, key) {
        Some(i) => {
            lemma_moved_to_front(c.entries, i, (key, value));
        },
        None => {
            assert forall|a: int, b: int| 0 <= a < nk.len() && 0 <= b < nk.len() && a != b implies nk[a]
                != nk[b] by {
                if a > 0 {
                    assert(nk[a] == keys[a - 1]);
                }
                if b > 0 {
                    assert(nk[b] == keys[b - 1]);
                }
            }
        },
    }
}

/// What was stored under a key is what a lookup of the key finds.
pub proof fn lemma_lookup_after_store(c: CacheView, key: Seq<char>, value: (Seq<char>, Seq<u8>))
    ensures
        c.stored(key, value).lookup(key) == Some(value),
        c.stored(key, value).contains(key),
        c.stored(key, value).entries[0] == (key, value),
{
    let n = c.stored(key, value).entries;
    assert(n[0] == (key, value));
    assert(keys_of(n)[0] == key);
}

/// Reading changes the order of use and nothing else: every key is found
/// with the reply it had, so a request that is repeated gets what it got.
pub proof fn lemma_touch_keeps_replies(c: CacheView, key: Seq<char>, other: Seq<char>)
    requires
        c.wf(),
    ensures
        c.touched(key).lookup(other) == c.lookup(other),
        c.touched(key).entries.len() == c.entries.len(),
        c.contains(key) ==> c.touched(key).entries[0].0 == key,
{
    let e = c.entries;
    let keys = keys_of(e);
    lemma_first_index_is_first(keys, key);
    lemma_touched_wf(c, key);
    match first_index(keys, key) {
        Some(i) => {
            let t = c.touched(key);
            let n = t.entries;
            lemma_first_index_is_first(keys, other);
            match first_index(keys, other) {
                Some(p) => {
                    let q = if p == i {
                        0
                    } else if p < i {
                        p + 1
                    } else {
                        p
                    };
                    assert(n[q] == e[p]);
                    assert(keys[p] == e[p].0);
                    lemma_lookup_at(t, q);
                },
                None => {
                    assert forall|j: int| 0 <= j < n.len() implies (#[trigger] n[j]).0 != other by {
                        let s = if j == 0 {
                            i
                        } else if j - 1 < i {
                            j - 1
                        } else {
                            j
                        };
                        assert(n[j] == e[s]);
                        assert(keys[s] == e[s].0);
                    }
                    lemma_lookup_missing(t, other);
                },
            }
        },
        None => {},
    }
}

/// A store changes nothing but the entry of its key and, where it pushes one
/// out, the least recently used entry: every other key is found with the
/// reply it had, and the key that was pushed out is gone.
pub proof fn lemma_store_keeps_others(
    c: CacheView,
    key: Seq<char>,
    value: (Seq<char>, Seq<u8>),
    other: Seq<char>,
)
    requires
        c.wf(),
        other != key,
    ensures
        c.evicted_by(key) == Some(other) ==> !c.stored(key, value).contains(other),
        c.evicted_by(key) != Some(other) ==> c.stored(key, value).lookup(other) == c.lookup(other),
{
    let e = c.entries;
    let keys = keys_of(e);
    let s = c.stored(key, value);
    let n = s.entries;
    lemma_stored_wf(c, key, value);
    lemma_first_index_is_first(keys, key);
    lemma_first_index_is_first(keys, other);
    // Where each entry of the new list comes from in the old one.
    let dropped: int = match first_index(keys, key) {
        Some(i) => i,
        None => if e.len() == c.limit {
            e.len() - 1
        } else {
            e.len() as int
        },
    };
    assert forall|j: int| 1 <= j < n.len() implies n[j] == e[if j - 1 < dropped {
        j - 1
    } else {
        j
    }] by {}
    match first_index(keys, other) {
        Some(p) => {
            assert(keys[p] == e[p].0);
            if p == dropped {
                assert(c.evicted_by(key) == Some(other));
                assert forall|j: int| 0 <= j < n.len() implies (#[trigger] n[j]).0 != other by {
                    if j > 0 {
                        let src = if j - 1 < dropped {
                            j - 1
                        } else {
                            j
                        };
                        assert(n[j] == e[src]);
                        assert(keys[src] == e[src].0);
                        assert(src != p);
                    }
                }
                lemma_lookup_missing(s, other);
            } else {
                if e.len() > 0 {
                    assert(keys[e.len() - 1] == e[e.len() - 1].0);
                }
                assert(c.evicted_by(key) != Some(other));
                let q = if p < dropped {
                    p + 1
                } else {
                    p
                };
                assert(n[q] == e[p]);
                lemma_lookup_at(s, q);
            }
        },
        None => {
            if e.len() > 0 {
                assert(keys[e.len() - 1] == e[e.len() - 1].0);
            }
            assert(c.evicted_by(key) != Some(other));
            assert forall|j: int| 0 <= j < n.len() implies (#[trigger] n[j]).0 != other by {
                if j > 0 {
                    let src = if j - 1 < dropped {
                        j - 1
                    } else {
                        j
                    };
                    assert(n[j] == e[src]);
                    assert(keys[src] == e[src].0);
                }
            }
            lemma_lookup_missing(s, other);
        },
    }
}

/// Storing a new key into a full cache evicts exactly the entry that was
/// used least recently: that key is gone, the new one is found, and every
/// other key is found with the reply it had.
pub proof fn lemma_full_store_evicts_least_recent(
    c: CacheView,
    key: Seq<char>,
    value: (Seq<char>, Seq<u8>),
    other: Seq<char>,
)
    requires
        c.wf(),
        c.entries.len() == c.limit,
        !c.contains(key),
    ensures
        c.stored(key, value).entries.len() == c.limit,
        !c.stored(key, value).contains(c.entries.last().0),
        c.stored(key, value).lookup(key) == Some(value),
        other != key && other != c.entries.last().0 ==> c.stored(key, value).lookup(other)
            == c.lookup(other),
{
    let e = c.entries;
    let keys = keys_of(e);
    let s = c.stored(key, value);
    let n = s.entries;
    let last = e.len() - 1;
    lemma_stored_wf(c, key, value);
    lemma_first_index_is_first(keys, key);
    lemma_lookup_after_store(c, key, value);
    assert(n =~= seq![(key, value)] + e.drop_last());
    assert(keys[last] == e[last].0);
    assert forall|j: int| 0 <= j < n.len() implies (#[trigger] n[j]).0 != e[last].0 by {
        if j > 0 {
            assert(n[j] == e[j - 1]);
            assert(keys[j - 1] == e[j - 1].0);
        } else {
            assert(keys[last] != key);
        }
    }
    lemma_lookup_missing(s, e[last].0);
    if other != key && other != e[last].0 {
        lemma_first_index_is_first(keys, other);
        match first_index(keys, other) {
            Some(p) => {
                assert(keys[p] == e[p].0);
                assert(p < last);
                assert(n[p + 1] == e[p]);
                lemma_lookup_at(s, p + 1);
            },
            None => {
                assert forall|j: int| 0 <= j < n.len() implies (#[trigger] n[j]).0 != other by {
                    if j > 0 {
                        assert(n[j] == e[j - 1]);
                        assert(keys[j - 1] == e[j - 1].0);
                    }
                }
                lemma_lookup_missing(s, other);
            },
        }
    }
}

/// After distinct keys were stored into an empty cache, it holds the latest
/// of them, as many as it may, the latest first.
pub proof fn lemma_fill_keeps_latest(limit: nat, items: Seq<(Seq<char>, (Seq<char>, Seq<u8>))>)
    requires
        limit > 0,
        keys_of(items).no_duplicates(),
    ensures
        CacheView::empty(limit).stored_all(items).wf(),
        CacheView::empty(limit).stored_all(items).limit == limit,
        CacheView::empty(limit).stored_all(items).entries.len() == if items.len() <= limit {
            items.len()
        } else {
            limit
        },
        forall|j: int|
            0 <= j < CacheView::empty(limit).stored_all(items).entries.len() ==> CacheView::empty(
                limit,
            ).stored_all(items).entries[j] == items[items.len() - 1 - j],
    decreases items.len(),
{
    let start = CacheView::empty(limit);
    if items.len() == 0 {
        assert(keys_of(start.entries).no_duplicates());
    } else {
        let prefix = items.drop_last();
        let m = items.len() as int;
        assert forall|a: int, b: int|
            0 <= a < prefix.len() && 0 <= b < prefix.len() && a != b implies keys_of(prefix)[a]
            != keys_of(prefix)[b] by {
            assert(keys_of(prefix)[a] == keys_of(items)[a]);
            assert(keys_of(prefix)[b] == keys_of(items)[b]);
        }
        lemma_fill_keeps_latest(limit, prefix);
        let before = start.stored_all(prefix);
        let key = items.last().0;
        let value = items.last().1;
        let after = before.stored(key, value);
        assert(start.stored_all(items) == after);
        assert forall|j: int| 0 <= j < before.entries.len() implies (#[trigger] before.entries[j]).0
            != key by {
            let src = prefix.len() - 1 - j;
            assert(before.entries[j] == prefix[src]);
            assert(keys_of(items)[src] == items[src].0);
            assert(keys_of(items)[m - 1] == key);
        }
        lemma_lookup_missing(before, key);
        lemma_stored_wf(before, key, value);
        assert forall|j: int| 0 <= j < after.entries.len() implies after.entries[j] == items[m - 1
            - j] by {
            if j > 0 {
                assert(after.entries[j] == before.entries[j - 1]);
                assert(before.entries[j - 1] == prefix[prefix.len() - 1 - (j - 1)]);
            }
        }
    }
}

/// Storing one key more than an empty cache may hold, all distinct, evicts
/// exactly the key that was stored first.
pub proof fn lemma_overfill_evicts_first(
    limit: nat,
    items: Seq<(Seq<char>, (Seq<char>, Seq<u8>))>,
)
    requires
        limit > 0,
        items.len() == limit + 1,
        keys_of(items).no_duplicates(),
    ensures
        !CacheView::empty(limit).stored_all(items).contains(items[0].0),
        forall|k: int|
            1 <= k < items.len() ==> CacheView::empty(limit).stored_all(items).lookup(
                (#[trigger] items[k]).0,
            ) == Some(items[k].1),
{
    let c = CacheView::empty(limit).stored_all(items);
    let m = items.len() as int;
    lemma_fill_keeps_latest(limit, items);
    assert forall|j: int| 0 <= j < c.entries.len() implies (#[trigger] c.entries[j]).0
        != items[0].0 by {
        assert(c.entries[j] == items[m - 1 - j]);
        assert(keys_of(items)[m - 1 - j] == items[m - 1 - j].0);
        assert(keys_of(items)[0] == items[0].0);
    }
    lemma_lookup_missing(c, items[0].0);
    assert forall|k: int| 1 <= k < items.len() implies c.lookup((#[trigger] items[k]).0) == Some(
        items[k].1,
    ) by {
        let j = m - 1 - k;
        assert(c.entries[j] == items[k]);
        lemma_lookup_at(c, j);
    }
}

/// Reading a key promotes it: it becomes the most recently used entry, so in
/// a cache for two entries or more the next eviction does not take it.
pub proof fn lemma_read_promotes(
    c: CacheView,
    key: Seq<char>,
    fresh: Seq<char>,
    value: (Seq<char>, Seq<u8>),
)
    requires
        c.wf(),
        c.limit >= 2,
        c.contains(key),
        !c.contains(fresh),
    ensures
        c.touched(key).entries[0].0 == key,
        c.touched(key).stored(fresh, value).lookup(key) == c.lookup(key),
{
    let t = c.touched(key);
    lemma_touched_wf(c, key);
    lemma_touch_keeps_replies(c, key, key);
    lemma_touch_keeps_replies(c, key, fresh);
    let s = t.stored(fresh, value);
    lemma_stored_wf(t, fresh, value);
    lemma_first_index_is_first(keys_of(c.entries), key);
    lemma_first_index_is_first(keys_of(c.entries), fresh);
    assert(key != fresh);
    assert(s.entries[1] == t.entries[0]);
    lemma_lookup_at(s, 1);
    lemma_lookup_at(t, 0);
}

/// Of two stores under one key, the later one is what the cache holds: where
/// two requests both miss and both store, a later request finds the reply of
/// one of them.
pub proof fn lemma_last_store_wins(
    c: CacheView,
    key: Seq<char>,
    first: (Seq<char>, Seq<u8>),
    second: (Seq<char>, Seq<u8>),
)
    ensures
        c.stored(key, first).stored(key, second).lookup(key) == Some(second),
        c.stored(key, second).stored(key, first).lookup(key) == Some(first),
{
    lemma_lookup_after_store(c.stored(key, first), key, second);
    lemma_lookup_after_store(c.stored(key, second), key, first);
}

} // verus!
