//! A cache of fetched tiles with a limit on the bytes it holds.
//!
//! When the limit is reached, what was used least recently goes first. A key that is
//! being loaded is marked, so that of several requests that miss it at the same time only
//! one loads it.

use crate::tile::TileCoord;
use vstd::prelude::*;
use vstd::string::*;

verus! {

/// What stands for a cached value.
#[derive(Clone, Debug, PartialEq, Eq, Hash)]
pub enum CacheKey {
    /// The tile of a source at a place.
    Tile(String, TileCoord),
    /// The tile of a source at a place, for a query string.
    TileWithQuery(String, TileCoord, String),
    /// A glyph range of a font stack, from its first to its last codepoint.
    Glyph(String, u32, u32),
}

/// A [`CacheKey`] as plain mathematics.
pub enum KeyModel {
    Tile(Seq<char>, TileCoord),
    TileWithQuery(Seq<char>, TileCoord, Seq<char>),
    Glyph(Seq<char>, u32, u32),
}

impl CacheKey {
    /// The key as plain mathematics.
    pub open spec fn model(self) -> KeyModel {
        match self {
            CacheKey::Tile(id, xyz) => KeyModel::Tile(id@, xyz),
            CacheKey::TileWithQuery(id, xyz, query) => KeyModel::TileWithQuery(id@, xyz, query@),
            CacheKey::Glyph(id, start, end) => KeyModel::Glyph(id@, start, end),
        }
    }

    /// Whether the two keys stand for the same value.
    pub fn same(&self, other: &CacheKey) -> (same: bool)
        ensures
            same == (self.model() == other.model()),
    {
        match (self, other) {
            (CacheKey::Tile(a, p), CacheKey::Tile(b, q)) => *a == *b && p.z == q.z && p.x == q.x
                && p.y == q.y,
            (CacheKey::TileWithQuery(a, p, s), CacheKey::TileWithQuery(b, q, t)) => *a == *b
                && p.z == q.z && p.x == q.x && p.y == q.y && *s == *t,
            (CacheKey::Glyph(a, s, e), CacheKey::Glyph(b, t, f)) => *a == *b && *s == *t && *e
                == *f,
            _ => false,
        }
    }

    /// A copy of the key.
    pub fn duplicate(&self) -> (copy: CacheKey)
        ensures
            copy.model() == self.model(),
    {
        match self {
            CacheKey::Tile(id, xyz) => CacheKey::Tile(id.clone(), *xyz),
            CacheKey::TileWithQuery(id, xyz, query) => CacheKey::TileWithQuery(
                id.clone(),
                *xyz,
                query.clone(),
            ),
            CacheKey::Glyph(id, start, end) => CacheKey::Glyph(id.clone(), *start, *end),
        }
    }
}

/// The bytes that `entries` hold.
pub open spec fn total_bytes(entries: Seq<(KeyModel, Seq<u8>)>) -> nat
    decreases entries.len(),
{
    if entries.len() == 0 {
        0
    } else {
        total_bytes(entries.drop_last()) + entries.last().1.len()
    }
}

/// Whether no key stands twice in `entries`.
pub open spec fn keys_distinct(entries: Seq<(KeyModel, Seq<u8>)>) -> bool {
    forall|i: int, j: int|
        0 <= i < j < entries.len() ==> (#[trigger] entries[i]).0 != (#[trigger] entries[j]).0
}

/// Whether `key` has a value among `entries`.
pub open spec fn is_cached(entries: Seq<(KeyModel, Seq<u8>)>, key: KeyModel) -> bool {
    exists|i: int| 0 <= i < entries.len() && (#[trigger] entries[i]).0 == key
}

/// The place of `key` among `entries`.
pub open spec fn place_of(entries: Seq<(KeyModel, Seq<u8>)>, key: KeyModel) -> int {
    choose|i: int| 0 <= i < entries.len() && (#[trigger] entries[i]).0 == key
}

/// `entries` without the entry of `key`, if it has one.
pub open spec fn without(entries: Seq<(KeyModel, Seq<u8>)>, key: KeyModel) -> Seq<
    (KeyModel, Seq<u8>),
> {
    if is_cached(entries, key) {
        entries.remove(place_of(entries, key))
    } else {
        entries
    }
}

/// `entries` after the entry of `key` was used: it is now the last, which is the place of
/// what was used most recently.
pub open spec fn used(entries: Seq<(KeyModel, Seq<u8>)>, key: KeyModel) -> Seq<
    (KeyModel, Seq<u8>),
> {
    without(entries, key).push(entries[place_of(entries, key)])
}

/// `entries` without as many of its first entries, which were used least recently, as it
/// takes to hold no more than `budget` bytes.
pub open spec fn evicted(entries: Seq<(KeyModel, Seq<u8>)>, budget: nat) -> Seq<
    (KeyModel, Seq<u8>),
>
    decreases entries.len(),
{
    if entries.len() == 0 || total_bytes(entries) <= budget {
        entries
    } else {
        evicted(entries.drop_first(), budget)
    }
}

/// `entries` after `value` was stored for `key` under a limit of `max_bytes` bytes.
///
/// An earlier value of the key is gone. A value larger than the limit is not stored.
/// Otherwise room is made for it and it is stored as used most recently.
pub open spec fn stored(
    entries: Seq<(KeyModel, Seq<u8>)>,
    key: KeyModel,
    value: Seq<u8>,
    max_bytes: nat,
) -> Seq<(KeyModel, Seq<u8>)> {
    if value.len() > max_bytes {
        without(entries, key)
    } else {
        evicted(without(entries, key), (max_bytes - value.len()) as nat).push((key, value))
    }
}

/// What a cache holds, as plain mathematics.
pub struct CacheModel {
    /// The keys with their values, from what was used least recently to what was used
    /// most recently.
    pub entries: Seq<(KeyModel, Seq<u8>)>,
    /// The keys that are being loaded, each with the number of requests that wait for it
    /// besides the one that loads it.
    pub loading: Seq<(KeyModel, usize)>,
    /// The limit on the bytes of the values.
    pub max_bytes: nat,
}

/// What a cache says of a key.
#[derive(Debug)]
pub enum Lookup {
    /// The value of the key.
    Hit(Vec<u8>),
    /// The key has no value and is being loaded: wait for the one who loads it to pass on
    /// how that ended. The cache has counted this request among those who wait.
    Wait,
    /// The key has no value: load it, tell the cache how that ended, and pass the same on
    /// to those who wait for it.
    Load,
}

/// A cache of byte strings by key.
#[derive(Debug)]
pub struct TileCache {
    max_bytes: usize,
    used_bytes: usize,
    entries: Vec<(CacheKey, Vec<u8>)>,
    loading: Vec<(CacheKey, usize)>,
}

/// Whether `key` is marked in `loading` as being loaded.
pub open spec fn is_loading(loading: Seq<(KeyModel, usize)>, key: KeyModel) -> bool {
    exists|i: int| 0 <= i < loading.len() && (#[trigger] loading[i]).0 == key
}

/// The place of the mark of `key` in `loading`.
pub open spec fn mark_of(loading: Seq<(KeyModel, usize)>, key: KeyModel) -> int {
    choose|i: int| 0 <= i < loading.len() && (#[trigger] loading[i]).0 == key
}

/// The number of requests that wait for `key`; none where it is not being loaded.
pub open spec fn waiting_for(loading: Seq<(KeyModel, usize)>, key: KeyModel) -> usize {
    if is_loading(loading, key) {
        loading[mark_of(loading, key)].1
    } else {
        0
    }
}

/// Whether no key is marked twice in `loading`.
pub open spec fn marks_distinct(loading: Seq<(KeyModel, usize)>) -> bool {
    forall|i: int, j: int|
        0 <= i < j < loading.len() ==> (#[trigger] loading[i]).0 != (#[trigger] loading[j]).0
}

/// A number of waiting requests with one more; the largest number stays as it is.
pub open spec fn bumped(waiters: usize) -> usize {
    if waiters < usize::MAX {
        (waiters + 1) as usize
    } else {
        waiters
    }
}

/// `loading` without the mark of `key`, if it has one.
pub open spec fn unmarked(loading: Seq<(KeyModel, usize)>, key: KeyModel) -> Seq<
    (KeyModel, usize),
> {
    if is_loading(loading, key) {
        loading.remove(mark_of(loading, key))
    } else {
        loading
    }
}

/// Removing an entry takes its bytes off the total, and keeps the keys distinct.
proof fn lemma_remove(entries: Seq<(KeyModel, Seq<u8>)>, i: int)
    requires
        0 <= i < entries.len(),
    ensures
        total_bytes(entries.remove(i)) + entries[i].1.len() == total_bytes(entries),
        keys_distinct(entries) ==> keys_distinct(entries.remove(i)),
        keys_distinct(entries) ==> !is_cached(entries.remove(i), entries[i].0),
    decreases entries.len(),
{
    let removed = entries.remove(i);
    if i == entries.len() - 1 {
        assert(removed =~= entries.drop_last());
    } else {
        lemma_remove(entries.drop_last(), i);
        assert(removed.drop_last() =~= entries.drop_last().remove(i));
        assert(removed.last() == entries.last());
    }
    if keys_distinct(entries) {
        assert forall|a: int, b: int| 0 <= a < b < removed.len() implies (#[trigger] removed[a]).0
            != (#[trigger] removed[b]).0 by {
            let x = if a < i {
                a
            } else {
                a + 1
            };
            let y = if b < i {
                b
            } else {
                b + 1
            };
            assert(removed[a] == entries[x] && removed[b] == entries[y]);
        }
        if is_cached(removed, entries[i].0) {
            let a = place_of(removed, entries[i].0);
            let x = if a < i {
                a
            } else {
                a + 1
            };
            assert(removed[a] == entries[x]);
            if x < i {
                assert(entries[x].0 != entries[i].0);
            } else {
                assert(entries[i].0 != entries[x].0);
            }
        }
    }
}

/// Dropping the first entry takes its bytes off the total.
proof fn lemma_drop_first(entries: Seq<(KeyModel, Seq<u8>)>)
    requires
        entries.len() > 0,
    ensures
        total_bytes(entries.drop_first()) + entries[0].1.len() == total_bytes(entries),
{
    lemma_remove(entries, 0);
    assert(entries.remove(0) =~= entries.drop_first());
}

/// Adding a fresh key at the end keeps the keys distinct.
proof fn lemma_push(entries: Seq<(KeyModel, Seq<u8>)>, entry: (KeyModel, Seq<u8>))
    requires
        keys_distinct(entries),
        !is_cached(entries, entry.0),
    ensures
        keys_distinct(entries.push(entry)),
        total_bytes(entries.push(entry)) == total_bytes(entries) + entry.1.len(),
{
    let pushed = entries.push(entry);
    assert(pushed.drop_last() =~= entries);
    assert forall|a: int, b: int| 0 <= a < b < pushed.len() implies (#[trigger] pushed[a]).0 != (
    #[trigger] pushed[b]).0 by {
        if b == entries.len() {
            assert(pushed[a] == entries[a]);
        } else {
            assert(pushed[a] == entries[a] && pushed[b] == entries[b]);
        }
    }
}

/// What is left after eviction fits the budget, is an end piece of what was there, and
/// so has distinct keys where that had, and lacks every key that it lacked.
pub proof fn lemma_evicted(entries: Seq<(KeyModel, Seq<u8>)>, budget: nat)
    ensures
        total_bytes(evicted(entries, budget)) <= budget,
        exists|n: int| 0 <= n <= entries.len() && evicted(entries, budget) == entries.skip(n),
        keys_distinct(entries) ==> keys_distinct(evicted(entries, budget)),
        forall|key: KeyModel|
            !is_cached(entries, key) ==> !is_cached(#[trigger] evicted(entries, budget), key),
    decreases entries.len(),
{
    if entries.len() == 0 || total_bytes(entries) <= budget {
        assert(entries.skip(0) =~= entries);
    } else {
        let rest = entries.drop_first();
        lemma_evicted(rest, budget);
        let n = choose|n: int| 0 <= n <= rest.len() && evicted(rest, budget) == rest.skip(n);
        assert(rest.skip(n) =~= entries.skip(n + 1));
    }
    let out = evicted(entries, budget);
    let n = choose|n: int| 0 <= n <= entries.len() && out == entries.skip(n);
    if keys_distinct(entries) {
        assert forall|a: int, b: int| 0 <= a < b < out.len() implies (#[trigger] out[a]).0 != (
        #[trigger] out[b]).0 by {
            assert(out[a] == entries[a + n] && out[b] == entries[b + n]);
        }
    }
    assert forall|key: KeyModel| !is_cached(entries, key) implies !is_cached(
        #[trigger] evicted(entries, budget),
        key,
    ) by {
        if is_cached(out, key) {
            let a = place_of(out, key);
            assert(out[a] == entries[a + n]);
        }
    }
}

impl TileCache {
    /// What the cache holds.
    pub closed spec fn view(&self) -> CacheModel {
        CacheModel {
            entries: Seq::new(
                self.entries@.len(),
                |i: int| (self.entries@[i].0.model(), self.entries@[i].1@),
            ),
            loading: Seq::new(
                self.loading@.len(),
                |i: int| (self.loading@[i].0.model(), self.loading@[i].1),
            ),
            max_bytes: self.max_bytes as nat,
        }
    }

    /// The bytes that the cache counts itself to hold.
    pub closed spec fn counted(&self) -> nat {
        self.used_bytes as nat
    }

    /// What holds of every cache that the library hands out: no key has two values or two
    /// marks, the values hold no more bytes than the limit allows, and the count of them
    /// is right.
    pub open spec fn wf(&self) -> bool {
        &&& keys_distinct(self@.entries)
        &&& marks_distinct(self@.loading)
        &&& total_bytes(self@.entries) <= self@.max_bytes
        &&& self.counted() == total_bytes(self@.entries)
    }

    /// A cache that holds nothing, for values of up to `max_bytes` bytes in all.
    pub fn new(max_bytes: usize) -> (cache: TileCache)
        ensures
            cache.wf(),
            cache@.entries == Seq::<(KeyModel, Seq<u8>)>::empty(),
            cache@.loading == Seq::<(KeyModel, usize)>::empty(),
            cache@.max_bytes == max_bytes,
    {
        let cache = TileCache {
            max_bytes,
            used_bytes: 0,
            entries: Vec::new(),
            loading: Vec::new(),
        };
        assert(cache@.entries =~= Seq::<(KeyModel, Seq<u8>)>::empty());
        assert(cache@.loading =~= Seq::<(KeyModel, usize)>::empty());
        cache
    }

    /// The number of values in the cache.
    pub fn len(&self) -> (n: usize)
        ensures
            n == self@.entries.len(),
    {
        self.entries.len()
    }

    /// The bytes that the values in the cache hold.
    pub fn size(&self) -> (bytes: usize)
        requires
            self.wf(),
        ensures
            bytes == total_bytes(self@.entries),
    {
        self.used_bytes
    }

    fn find(&self, key: &CacheKey) -> (found: Option<usize>)
        ensures
            found is Some <==> is_cached(self@.entries, key.model()),
            found matches Some(i) ==> i < self@.entries.len() && self@.entries[i as int].0
                == key.model(),
            found matches Some(i) ==> (keys_distinct(self@.entries) ==> i == place_of(
                self@.entries,
                key.model(),
            )),
    {
        let mut i: usize = 0;
        while i < self.entries.len()
            invariant
                i <= self.entries@.len(),
                self@.entries.len() == self.entries@.len(),
                forall|k: int| 0 <= k < i ==> (#[trigger] self@.entries[k]).0 != key.model(),
            decreases self.entries.len() - i,
        {
            if self.entries[i].0.same(key) {
                assert(self@.entries[i as int].0 == key.model());
                return Some(i);
            }
            i = i + 1;
        }
        None
    }

    fn find_loading(&self, key: &CacheKey) -> (found: Option<usize>)
        ensures
            found is Some <==> is_loading(self@.loading, key.model()),
            found matches Some(i) ==> i < self@.loading.len() && self@.loading[i as int].0
                == key.model(),
            found matches Some(i) ==> (marks_distinct(self@.loading) ==> i == mark_of(
                self@.loading,
                key.model(),
            )),
    {
        let mut i: usize = 0;
        while i < self.loading.len()
            invariant
                i <= self.loading@.len(),
                self@.loading.len() == self.loading@.len(),
                forall|k: int| 0 <= k < i ==> (#[trigger] self@.loading[k]).0 != key.model(),
            decreases self.loading.len() - i,
        {
            if self.loading[i].0.same(key) {
                assert(self@.loading[i as int].0 == key.model());
                return Some(i);
            }
            i = i + 1;
        }
        None
    }

    /// Asks the cache for the value of `key`.
    ///
    /// A value that is there is handed out and counts as used just now. Where there is
    /// none, the answer is to wait if the key is being loaded, and the request is counted
    /// among those who wait for it; and to load it otherwise, and the key is then marked
    /// as being loaded, with nobody waiting for it yet.
    pub fn lookup(&mut self, key: &CacheKey) -> (answer: Lookup)
        requires
            old(self).wf(),
        ensures
            final(self).wf(),
            final(self)@.max_bytes == old(self)@.max_bytes,
            match answer {
                Lookup::Hit(value) => {
                    &&& is_cached(old(self)@.entries, key.model())
                    &&& value@ == old(self)@.entries[place_of(
                        old(self)@.entries,
                        key.model(),
                    )].1
                    &&& final(self)@.entries == used(old(self)@.entries, key.model())
                    &&& final(self)@.loading == old(self)@.loading
                },
                Lookup::Wait => {
                    &&& !is_cached(old(self)@.entries, key.model())
                    &&& is_loading(old(self)@.loading, key.model())
                    &&& final(self)@.entries == old(self)@.entries
                    &&& final(self)@.loading == old(self)@.loading.update(
                        mark_of(old(self)@.loading, key.model()),
                        (key.model(), bumped(waiting_for(old(self)@.loading, key.model()))),
                    )
                },
                Lookup::Load => {
                    &&& !is_cached(old(self)@.entries, key.model())
                    &&& !is_loading(old(self)@.loading, key.model())
                    &&& final(self)@.entries == old(self)@.entries
                    &&& final(self)@.loading == old(self)@.loading.push((key.model(), 0))
                },
            },
    {
        let ghost before = self@;
        match self.find(key) {
            Some(i) => {
                proof {
                    lemma_remove(before.entries, i as int);
                }
                let entry = self.entries.remove(i);
                let value = entry.1.clone();
                assert(value@ == entry.1@);
                self.entries.push(entry);
                proof {
                    let removed = before.entries.remove(i as int);
                    assert(self@.entries =~= removed.push(before.entries[i as int]));
                    lemma_push(removed, before.entries[i as int]);
                    assert(self@.loading =~= before.loading);
                }
                Lookup::Hit(value)
            },
            None => {
                match self.find_loading(key) {
                    Some(i) => {
                        let waiters = self.loading[i].1;
                        let more = if waiters < usize::MAX {
                            waiters + 1
                        } else {
                            waiters
                        };
                        self.loading.set(i, (key.duplicate(), more));
                        proof {
                            assert(self@.entries =~= before.entries);
                            assert(self@.loading =~= before.loading.update(
                                i as int,
                                (key.model(), more),
                            ));
                            assert forall|a: int, b: int|
                                0 <= a < b < self@.loading.len() implies (
                            #[trigger] self@.loading[a]).0 != (#[trigger] self@.loading[b]).0 by {
                                assert(self@.loading[a].0 == before.loading[a].0);
                                assert(self@.loading[b].0 == before.loading[b].0);
                            }
                        }
                        Lookup::Wait
                    },
                    None => {
                        self.loading.push((key.duplicate(), 0));
                        proof {
                            assert(self@.loading =~= before.loading.push((key.model(), 0)));
                            assert(self@.entries =~= before.entries);
                            assert forall|a: int, b: int|
                                0 <= a < b < self@.loading.len() implies (
                            #[trigger] self@.loading[a]).0 != (#[trigger] self@.loading[b]).0 by {
                                if b == before.loading.len() {
                                    assert(self@.loading[a] == before.loading[a]);
                                } else {
                                    assert(self@.loading[a] == before.loading[a]);
                                    assert(self@.loading[b] == before.loading[b]);
                                }
                            }
                        }
                        Lookup::Load
                    },
                }
            },
        }
    }

    /// Tells the cache how loading `key` ended: with a value, which the cache stores, or
    /// without one, and then nothing is stored. Either way the key is no longer marked as
    /// being loaded, and a later request for it that finds no value loads it anew.
    ///
    /// The answer is the number of requests that were told to wait for this load. They are
    /// owed how it ended, value or failure, from the one who loaded.
    pub fn complete(&mut self, key: CacheKey, loaded: Option<Vec<u8>>) -> (waiters: usize)
        requires
            old(self).wf(),
        ensures
            final(self).wf(),
            final(self)@.max_bytes == old(self)@.max_bytes,
            final(self)@.entries == match loaded {
                Some(value) => stored(
                    old(self)@.entries,
                    key.model(),
                    value@,
                    old(self)@.max_bytes,
                ),
                None => old(self)@.entries,
            },
            final(self)@.loading == unmarked(old(self)@.loading, key.model()),
            !is_loading(final(self)@.loading, key.model()),
            waiters == waiting_for(old(self)@.loading, key.model()),
    {
        let waiters = self.forget_loading(&key);
        match loaded {
            Some(value) => {
                self.store(key, value);
            },
            None => {},
        }
        waiters
    }

    fn forget_loading(&mut self, key: &CacheKey) -> (waiters: usize)
        requires
            old(self).wf(),
        ensures
            final(self).wf(),
            final(self)@.max_bytes == old(self)@.max_bytes,
            final(self)@.entries == old(self)@.entries,
            final(self)@.loading == unmarked(old(self)@.loading, key.model()),
            !is_loading(final(self)@.loading, key.model()),
            waiters == waiting_for(old(self)@.loading, key.model()),
    {
        let ghost before = self@;
        match self.find_loading(key) {
            Some(i) => {
                let mark = self.loading.remove(i);
                proof {
                    assert(self@.entries =~= before.entries);
                    assert(self@.loading =~= before.loading.remove(i as int));
                    assert forall|a: int, b: int| 0 <= a < b < self@.loading.len() implies (
                    #[trigger] self@.loading[a]).0 != (#[trigger] self@.loading[b]).0 by {
                        let x = if a < i {
                            a
                        } else {
                            a + 1
                        };
                        let y = if b < i {
                            b
                        } else {
                            b + 1
                        };
                        assert(self@.loading[a] == before.loading[x]);
                        assert(self@.loading[b] == before.loading[y]);
                    }
                    if is_loading(self@.loading, key.model()) {
                        let a = mark_of(self@.loading, key.model());
                        let x = if a < i {
                            a
                        } else {
                            a + 1
                        };
                        assert(self@.loading[a] == before.loading[x]);
                        if x < i {
                            assert(before.loading[x].0 != before.loading[i as int].0);
                        } else {
                            assert(before.loading[i as int].0 != before.loading[x].0);
                        }
                    }
                }
                mark.1
            },
            None => {
                proof {
                    assert(self@.loading =~= before.loading);
                }
                0
            },
        }
    }

    fn store(&mut self, key: CacheKey, value: Vec<u8>)
        requires
            old(self).wf(),
        ensures
            final(self).wf(),
            final(self)@.max_bytes == old(self)@.max_bytes,
            final(self)@.loading == old(self)@.loading,
            final(self)@.entries == stored(
                old(self)@.entries,
                key.model(),
                value@,
                old(self)@.max_bytes,
            ),
    {
        let ghost before = self@;
        if let Some(i) = self.find(&key) {
            proof {
                lemma_remove(before.entries, i as int);
            }
            let old_entry = self.entries.remove(i);
            self.used_bytes = self.used_bytes - old_entry.1.len();
            assert(self@.entries =~= before.entries.remove(i as int));
        } else {
            assert(self@.entries =~= before.entries);
        }
        assert(self@.entries == without(before.entries, key.model()));
        assert(self@.loading =~= before.loading);
        if value.len() > self.max_bytes {
            return;
        }
        let budget: usize = self.max_bytes - value.len();
        let ghost kept = self@.entries;
        while self.entries.len() > 0 && self.used_bytes > budget
            invariant
                self.wf(),
                self@.max_bytes == before.max_bytes,
                self@.loading == before.loading,
                budget == self@.max_bytes - value@.len(),
                evicted(self@.entries, budget as nat) == evicted(kept, budget as nat),
            decreases self.entries.len(),
        {
            let ghost now = self@.entries;
            proof {
                lemma_drop_first(now);
                lemma_remove(now, 0);
                assert(now.remove(0) =~= now.drop_first());
            }
            let first = self.entries.remove(0);
            self.used_bytes = self.used_bytes - first.1.len();
            proof {
                assert(self@.entries =~= now.drop_first());
                assert(self@.loading =~= before.loading);
            }
        }
        proof {
            lemma_evicted(kept, budget as nat);
            assert(self@.entries == evicted(kept, budget as nat)) by {
                if self@.entries.len() > 0 {
                    assert(total_bytes(self@.entries) <= budget);
                }
            }
            assert(!is_cached(kept, key.model())) by {
                if is_cached(before.entries, key.model()) {
                    lemma_remove(before.entries, place_of(before.entries, key.model()));
                }
            }
            lemma_push(self@.entries, (key.model(), value@));
        }
        let ghost fitted = self@.entries;
        self.used_bytes = self.used_bytes + value.len();
        self.entries.push((key, value));
        proof {
            assert(self@.entries =~= fitted.push((key.model(), value@)));
            assert(self@.loading =~= before.loading);
        }
    }
}

} // verus!
