//! A store in memory: the pairs lie in one vector, in the order of their
//! keys, each key once.

use super::mutation::Mutation;
use crate::kv::error::TkvResult;
use crate::kv::order::{
    before, lemma_before_chains, lemma_before_is_strict, lemma_common_prefix,
    lemma_not_before_itself, lemma_one_comes_first, rank, Rank,
};
use crate::kv::{applied_all, is_scan_of, pair_view, pairs_view, scanned, within};
use crate::kv::{ColumnFamily, KvIterator, Storage, StorageScanner};
use std::ops::Bound;
use vstd::prelude::*;

verus! {

/// The pairs stand in the order of their keys, and no key stands twice.
pub open spec fn sorted(entries: Seq<(Seq<u8>, Seq<u8>)>) -> bool {
    forall|i: int, j: int|
        0 <= i < j < entries.len() ==> before(#[trigger] entries[i].0, #[trigger] entries[j].0)
}

/// One of the pairs has the key `key`.
pub open spec fn holds_key(entries: Seq<(Seq<u8>, Seq<u8>)>, key: Seq<u8>) -> bool {
    exists|i: int| 0 <= i < entries.len() && #[trigger] entries[i].0 == key
}

/// The place of a pair with the key `key`.
pub open spec fn place_of(entries: Seq<(Seq<u8>, Seq<u8>)>, key: Seq<u8>) -> int {
    choose|i: int| 0 <= i < entries.len() && #[trigger] entries[i].0 == key
}

/// The pairs as a map from key to value.
pub open spec fn map_of(entries: Seq<(Seq<u8>, Seq<u8>)>) -> Map<Seq<u8>, Seq<u8>> {
    Map::new(
        |key: Seq<u8>| holds_key(entries, key),
        |key: Seq<u8>| entries[place_of(entries, key)].1,
    )
}

/// `place` is where `key` stands or would have to stand: all pairs before it
/// have keys before `key`, and no pair from it on has.
pub open spec fn divides(entries: Seq<(Seq<u8>, Seq<u8>)>, key: Seq<u8>, place: int) -> bool {
    &&& 0 <= place <= entries.len()
    &&& forall|i: int| 0 <= i < place ==> before(#[trigger] entries[i].0, key)
    &&& forall|i: int| place <= i < entries.len() ==> !before(#[trigger] entries[i].0, key)
}

/// In sorted pairs each key has one place, and the map gives the value that
/// stands there.
proof fn lemma_map_at(entries: Seq<(Seq<u8>, Seq<u8>)>, i: int)
    requires
        sorted(entries),
        0 <= i < entries.len(),
    ensures
        map_of(entries).contains_key(entries[i].0),
        map_of(entries)[entries[i].0] == entries[i].1,
        place_of(entries, entries[i].0) == i,
{
    let key = entries[i].0;
    assert(holds_key(entries, key));
    let place = place_of(entries, key);
    if place < i {
        assert(before(entries[place].0, entries[i].0));
        lemma_not_before_itself(key, 0);
    } else if i < place {
        assert(before(entries[i].0, entries[place].0));
        lemma_not_before_itself(key, 0);
    }
}

/// Where `key` would have to stand and does not, no pair has it.
proof fn lemma_absent(entries: Seq<(Seq<u8>, Seq<u8>)>, key: Seq<u8>, place: int)
    requires
        divides(entries, key, place),
        place == entries.len() || entries[place].0 != key,
        sorted(entries),
    ensures
        !map_of(entries).contains_key(key),
{
    if holds_key(entries, key) {
        let i = place_of(entries, key);
        if i < place {
            assert(before(entries[i].0, key));
            lemma_not_before_itself(key, 0);
        } else {
            assert(place < i);
            assert(before(entries[place].0, entries[i].0));
            assert(!before(entries[place].0, key));
        }
    }
}

/// Keys from the place of `key` on that are not `key` stand after it.
proof fn lemma_after(entries: Seq<(Seq<u8>, Seq<u8>)>, key: Seq<u8>, place: int, i: int)
    requires
        divides(entries, key, place),
        place <= i < entries.len(),
        entries[i].0 != key,
    ensures
        before(key, entries[i].0),
{
    assert(!before(entries[i].0, key));
    lemma_one_comes_first(entries[i].0, key, 0);
}

/// A new pair put where its key has to stand keeps the order, and the map
/// gains the pair.
proof fn lemma_inserted(
    entries: Seq<(Seq<u8>, Seq<u8>)>,
    place: int,
    key: Seq<u8>,
    value: Seq<u8>,
)
    requires
        sorted(entries),
        divides(entries, key, place),
        place == entries.len() || entries[place].0 != key,
    ensures
        sorted(entries.insert(place, (key, value))),
        map_of(entries.insert(place, (key, value))) == map_of(entries).insert(key, value),
{
    let grown = entries.insert(place, (key, value));
    assert forall|i: int, j: int| 0 <= i < j < grown.len() implies before(
        #[trigger] grown[i].0,
        #[trigger] grown[j].0,
    ) by {
        if j < place {
            assert(before(entries[i].0, entries[j].0));
        } else if j == place {
            assert(before(entries[i].0, key));
        } else if i < place {
            assert(before(entries[i].0, key));
            lemma_after(entries, key, place, j - 1);
            lemma_before_chains(entries[i].0, key, entries[j - 1].0, 0);
        } else if i == place {
            lemma_after(entries, key, place, j - 1);
        } else {
            assert(before(entries[i - 1].0, entries[j - 1].0));
        }
    }
    assert forall|other: Seq<u8>| #[trigger]
        map_of(grown).contains_key(other) == map_of(entries).insert(key, value).contains_key(
            other,
        ) by {
        if holds_key(grown, other) {
            let i = place_of(grown, other);
            if i < place {
                assert(entries[i].0 == other);
            } else if i > place {
                assert(entries[i - 1].0 == other);
            }
        }
        if holds_key(entries, other) {
            let i = place_of(entries, other);
            if i < place {
                assert(grown[i].0 == other);
            } else {
                assert(grown[i + 1].0 == other);
            }
        }
        if other == key {
            assert(grown[place].0 == other);
        }
    }
    assert forall|other: Seq<u8>| #[trigger]
        map_of(grown).contains_key(other) implies map_of(grown)[other] == map_of(entries).insert(
        key,
        value,
    )[other] by {
        let i = place_of(grown, other);
        lemma_map_at(grown, i);
        lemma_absent(entries, key, place);
        if i < place {
            lemma_map_at(entries, i);
        } else if i > place {
            lemma_map_at(entries, i - 1);
        }
    }
    assert(map_of(grown) =~= map_of(entries).insert(key, value));
}

/// A new value put in the place of a key keeps the order, and the map has
/// the new value for the key.
proof fn lemma_replaced(entries: Seq<(Seq<u8>, Seq<u8>)>, place: int, value: Seq<u8>)
    requires
        sorted(entries),
        0 <= place < entries.len(),
    ensures
        sorted(entries.update(place, (entries[place].0, value))),
        map_of(entries.update(place, (entries[place].0, value))) == map_of(entries).insert(
            entries[place].0,
            value,
        ),
{
    let key = entries[place].0;
    let changed = entries.update(place, (key, value));
    assert forall|i: int, j: int| 0 <= i < j < changed.len() implies before(
        #[trigger] changed[i].0,
        #[trigger] changed[j].0,
    ) by {
        assert(before(entries[i].0, entries[j].0));
    }
    assert forall|other: Seq<u8>| #[trigger]
        map_of(changed).contains_key(other) == map_of(entries).insert(key, value).contains_key(
            other,
        ) by {
        if holds_key(changed, other) {
            let i = place_of(changed, other);
            assert(entries[i].0 == other);
        }
        if holds_key(entries, other) {
            let i = place_of(entries, other);
            assert(changed[i].0 == other);
        }
        if other == key {
            assert(changed[place].0 == other);
        }
    }
    assert forall|other: Seq<u8>| #[trigger]
        map_of(changed).contains_key(other) implies map_of(changed)[other] == map_of(
        entries,
    ).insert(key, value)[other] by {
        let i = place_of(changed, other);
        lemma_map_at(changed, i);
        lemma_map_at(entries, i);
        lemma_map_at(entries, place);
    }
    assert(map_of(changed) =~= map_of(entries).insert(key, value));
}

/// A pair taken out keeps the order, and the map loses the key.
proof fn lemma_removed(entries: Seq<(Seq<u8>, Seq<u8>)>, place: int)
    requires
        sorted(entries),
        0 <= place < entries.len(),
    ensures
        sorted(entries.remove(place)),
        map_of(entries.remove(place)) == map_of(entries).remove(entries[place].0),
{
    let key = entries[place].0;
    let shrunk = entries.remove(place);
    assert forall|i: int, j: int| 0 <= i < j < shrunk.len() implies before(
        #[trigger] shrunk[i].0,
        #[trigger] shrunk[j].0,
    ) by {
        let from = if i < place {
            i
        } else {
            i + 1
        };
        let to = if j < place {
            j
        } else {
            j + 1
        };
        assert(before(entries[from].0, entries[to].0));
    }
    assert forall|other: Seq<u8>| #[trigger]
        map_of(shrunk).contains_key(other) == map_of(entries).remove(key).contains_key(
            other,
        ) by {
        if holds_key(shrunk, other) {
            let i = place_of(shrunk, other);
            let from = if i < place {
                i
            } else {
                i + 1
            };
            assert(entries[from].0 == other);
            lemma_map_at(entries, from);
            lemma_map_at(entries, place);
        }
        if holds_key(entries, other) && other != key {
            let i = place_of(entries, other);
            if i < place {
                assert(shrunk[i].0 == other);
            } else {
                assert(shrunk[i - 1].0 == other);
            }
        }
    }
    assert forall|other: Seq<u8>| #[trigger]
        map_of(shrunk).contains_key(other) implies map_of(shrunk)[other] == map_of(
        entries,
    ).remove(key)[other] by {
        let i = place_of(shrunk, other);
        lemma_map_at(shrunk, i);
        let from = if i < place {
            i
        } else {
            i + 1
        };
        lemma_map_at(entries, from);
    }
    assert(map_of(shrunk) =~= map_of(entries).remove(key));
}

/// Finds where `key` stands or would have to stand among `pairs`.
fn find_place(pairs: &Vec<(Vec<u8>, Vec<u8>)>, key: &[u8]) -> (place: usize)
    requires
        sorted(pairs_view(pairs@)),
    ensures
        divides(pairs_view(pairs@), key@, place as int),
{
    let ghost entries = pairs_view(pairs@);
    let mut low: usize = 0;
    let mut high: usize = pairs.len();
    while low < high
        invariant
            0 <= low <= high <= pairs@.len(),
            entries == pairs_view(pairs@),
            sorted(entries),
            forall|i: int| 0 <= i < low ==> before(#[trigger] entries[i].0, key@),
            forall|i: int| high <= i < entries.len() ==> !before(#[trigger] entries[i].0, key@),
        decreases high - low,
    {
        let middle: usize = low + (high - low) / 2;
        let here = &pairs[middle];
        assert(entries[middle as int].0 == here.0@);
        match rank(here.0.as_slice(), key) {
            Rank::Before => {
                proof {
                    assert forall|i: int| 0 <= i < middle + 1 implies before(
                        #[trigger] entries[i].0,
                        key@,
                    ) by {
                        if i < middle {
                            assert(before(entries[i].0, entries[middle as int].0));
                            lemma_before_chains(entries[i].0, entries[middle as int].0, key@, 0);
                        }
                    }
                }
                low = middle + 1;
            },
            _ => {
                proof {
                    assert(!before(entries[middle as int].0, key@)) by {
                        if before(entries[middle as int].0, key@) {
                            lemma_before_is_strict(entries[middle as int].0, key@);
                        }
                    }
                    assert forall|i: int| middle <= i < entries.len() implies !before(
                        #[trigger] entries[i].0,
                        key@,
                    ) by {
                        if i > middle && before(entries[i].0, key@) {
                            assert(before(entries[middle as int].0, entries[i].0));
                            lemma_before_chains(entries[middle as int].0, entries[i].0, key@, 0);
                        }
                    }
                }
                high = middle;
            },
        }
    }
    low
}

/// Whether `key` lies at or above the lower bound `start`.
fn reaches(key: &[u8], start: &Bound<Vec<u8>>) -> (inside: bool)
    ensures
        inside == within(key@, ColumnFamily::bound_view(*start), Bound::Unbounded),
{
    match start {
        Bound::Included(least) => match rank(key, least.as_slice()) {
            Rank::Before => false,
            Rank::Same => {
                proof {
                    lemma_not_before_itself(key@, 0);
                }
                true
            },
            Rank::After => {
                proof {
                    lemma_before_is_strict(least@, key@);
                }
                true
            },
        },
        Bound::Excluded(below) => match rank(key, below.as_slice()) {
            Rank::After => true,
            Rank::Same => {
                proof {
                    lemma_not_before_itself(key@, 0);
                }
                false
            },
            Rank::Before => {
                proof {
                    lemma_before_is_strict(key@, below@);
                }
                false
            },
        },
        Bound::Unbounded => true,
    }
}

/// Whether `key` lies above the upper bound `end`.
fn passes(key: &[u8], end: &Bound<Vec<u8>>) -> (beyond: bool)
    ensures
        beyond == !within(key@, Bound::Unbounded, ColumnFamily::bound_view(*end)),
{
    match end {
        Bound::Included(greatest) => match rank(key, greatest.as_slice()) {
            Rank::After => true,
            Rank::Same => {
                proof {
                    lemma_not_before_itself(key@, 0);
                }
                false
            },
            Rank::Before => {
                proof {
                    lemma_before_is_strict(key@, greatest@);
                }
                false
            },
        },
        Bound::Excluded(above) => match rank(key, above.as_slice()) {
            Rank::Before => false,
            Rank::Same => {
                proof {
                    lemma_not_before_itself(key@, 0);
                }
                true
            },
            Rank::After => {
                proof {
                    lemma_before_is_strict(above@, key@);
                }
                true
            },
        },
        Bound::Unbounded => false,
    }
}

#[derive(Debug)]
pub struct MemoryStorage {
    store: Vec<(Vec<u8>, Vec<u8>)>,
}

impl MemoryStorage {
    /// The pairs of the store, in the order of their keys.
    pub closed spec fn entries(&self) -> Seq<(Seq<u8>, Seq<u8>)> {
        pairs_view(self.store@)
    }

    #[verifier::type_invariant]
    spec fn in_order(&self) -> bool {
        sorted(pairs_view(self.store@))
    }

    pub fn new() -> (storage: Self)
        ensures
            storage.content() == Map::<Seq<u8>, Seq<u8>>::empty(),
            storage.entries() == Seq::<(Seq<u8>, Seq<u8>)>::empty(),
    {
        let storage = Self { store: Vec::new() };
        proof {
            assert(storage.entries() =~= Seq::<(Seq<u8>, Seq<u8>)>::empty());
            assert(map_of(storage.entries()) =~= Map::<Seq<u8>, Seq<u8>>::empty());
        }
        storage
    }

    /// The number of pairs in the store.
    pub fn len(&self) -> (len: usize)
        ensures
            len == self.entries().len(),
    {
        self.store.len()
    }

    /// Stores `value` for the key `real_key`, which is a key as it is
    /// stored.
    fn put_pair(&mut self, real_key: Vec<u8>, value: Vec<u8>)
        ensures
            final(self).content() == old(self).content().insert(real_key@, value@),
    {
        proof {
            use_type_invariant(&*self);
        }
        let mut store: Vec<(Vec<u8>, Vec<u8>)> = Vec::new();
        core::mem::swap(&mut store, &mut self.store);
        let ghost entries = pairs_view(store@);
        let place = find_place(&store, real_key.as_slice());
        let present = place < store.len() && match rank(
            store[place].0.as_slice(),
            real_key.as_slice(),
        ) {
            Rank::Same => true,
            _ => false,
        };
        proof {
            if place < store.len() {
                assert(entries[place as int].0 == store@[place as int].0@);
                if !present {
                    lemma_before_is_strict_either(entries[place as int].0, real_key@);
                }
            }
        }
        if present {
            proof {
                lemma_replaced(entries, place as int, value@);
            }
            store.set(place, (real_key, value));
            proof {
                assert(pairs_view(store@) =~= entries.update(
                    place as int,
                    (entries[place as int].0, value@),
                ));
            }
        } else {
            proof {
                lemma_inserted(entries, place as int, real_key@, value@);
            }
            store.insert(place, (real_key, value));
            proof {
                assert(pairs_view(store@) =~= entries.insert(place as int, (real_key@, value@)));
            }
        }
        self.store = store;
    }

    /// Drops the pair with the key `real_key`, which is a key as it is
    /// stored, if there is one.
    fn delete_pair(&mut self, real_key: &[u8])
        ensures
            final(self).content() == old(self).content().remove(real_key@),
    {
        proof {
            use_type_invariant(&*self);
        }
        let mut store: Vec<(Vec<u8>, Vec<u8>)> = Vec::new();
        core::mem::swap(&mut store, &mut self.store);
        let ghost entries = pairs_view(store@);
        let place = find_place(&store, real_key);
        let present = place < store.len() && match rank(store[place].0.as_slice(), real_key) {
            Rank::Same => true,
            _ => false,
        };
        proof {
            if place < store.len() {
                assert(entries[place as int].0 == store@[place as int].0@);
                if !present {
                    lemma_before_is_strict_either(entries[place as int].0, real_key@);
                }
            }
        }
        if present {
            proof {
                lemma_removed(entries, place as int);
            }
            store.remove(place);
            proof {
                assert(pairs_view(store@) =~= entries.remove(place as int));
            }
        } else {
            proof {
                lemma_absent(entries, real_key@, place as int);
                assert(map_of(entries).remove(real_key@) =~= map_of(entries));
            }
        }
        self.store = store;
    }
}

/// Keys of which one stands before the other are not the same.
proof fn lemma_before_is_strict_either(a: Seq<u8>, b: Seq<u8>)
    requires
        before(a, b) || before(b, a),
    ensures
        a != b,
{
    lemma_not_before_itself(a, 0);
}

/// What a scan of a store in memory has found.
#[derive(Debug)]
pub struct MemoryScanner {
    found: Vec<(Vec<u8>, Vec<u8>)>,
}

/// A walk over what a scan has found.
#[derive(Debug)]
pub struct MemoryStorageIterator {
    found: Vec<(Vec<u8>, Vec<u8>)>,
    position: usize,
}

impl KvIterator for MemoryStorageIterator {
    /// What was found lies in memory, so that every pair can be read.
    open spec fn never_fails(&self) -> bool {
        true
    }

    closed spec fn remaining(&self) -> Seq<(Seq<u8>, Seq<u8>)> {
        if self.position <= self.found@.len() {
            pairs_view(self.found@).skip(self.position as int)
        } else {
            Seq::empty()
        }
    }

    fn next(&mut self) -> (item: Option<TkvResult<(Vec<u8>, Vec<u8>)>>)
        ensures
            !(item matches Some(Err(_))),
    {
        if self.position < self.found.len() {
            let pair = &self.found[self.position];
            let item = (pair.0.clone(), pair.1.clone());
            proof {
                let all = pairs_view(self.found@);
                assert(all.skip(self.position as int).skip(1) =~= all.skip(self.position + 1));
            }
            self.position = self.position + 1;
            Some(Ok(item))
        } else {
            None
        }
    }
}

/// A copy of `pairs`.
fn copy_of(pairs: &Vec<(Vec<u8>, Vec<u8>)>) -> (copy: Vec<(Vec<u8>, Vec<u8>)>)
    ensures
        pairs_view(copy@) == pairs_view(pairs@),
{
    let mut copy: Vec<(Vec<u8>, Vec<u8>)> = Vec::new();
    let mut i: usize = 0;
    while i < pairs.len()
        invariant
            i <= pairs@.len(),
            copy@.len() == i,
            forall|j: int| 0 <= j < i ==> pair_view(copy@[j]) == pair_view(pairs@[j]),
        decreases pairs@.len() - i,
    {
        let pair = &pairs[i];
        copy.push((pair.0.clone(), pair.1.clone()));
        i = i + 1;
    }
    proof {
        assert(pairs_view(copy@) =~= pairs_view(pairs@));
    }
    copy
}

impl MemoryScanner {
    /// Scans `storage` for what the column family `cf` holds between
    /// `start` and `end`, and keeps what it finds.
    pub fn new(
        storage: &MemoryStorage,
        cf: ColumnFamily,
        start: Bound<Vec<u8>>,
        end: Bound<Vec<u8>>,
    ) -> (scanner: Self)
        ensures
            is_scan_of(
                scanner.found(),
                storage.content(),
                cf,
                cf.bound_with_prefix(start),
                cf.bound_with_prefix(end),
            ),
    {
        proof {
            use_type_invariant(storage);
        }
        let ghost entries = pairs_view(storage.store@);
        let ghost content = map_of(entries);
        let real_start = cf.add_bound_prefix(start);
        let real_end = cf.add_bound_prefix(end);
        let ghost low = ColumnFamily::bound_view(real_start);
        let ghost high = ColumnFamily::bound_view(real_end);
        let prefix = cf.prefix_bytes();
        let mut found: Vec<(Vec<u8>, Vec<u8>)> = Vec::new();
        let ghost mut sources: Seq<int> = Seq::empty();
        let mut i: usize = 0;
        let mut beyond = false;
        while i < storage.store.len() && !beyond
            invariant
                0 <= i <= storage.store@.len(),
                entries == pairs_view(storage.store@),
                content == map_of(entries),
                sorted(entries),
                low == ColumnFamily::bound_view(real_start),
                high == ColumnFamily::bound_view(real_end),
                prefix@ == cf.prefix(),
                sources.len() == found@.len(),
                forall|k: int|
                    0 <= k < sources.len() ==> 0 <= #[trigger] sources[k] < i && entries[sources[k]]
                        == (cf.prefix() + found@[k].0@, found@[k].1@) && within(
                        entries[sources[k]].0,
                        low,
                        high,
                    ),
                forall|k: int, l: int|
                    0 <= k < l < sources.len() ==> #[trigger] sources[k] < #[trigger] sources[l],
                forall|at: int|
                    0 <= at < i && cf.prefix().is_prefix_of(#[trigger] entries[at].0) && within(
                        entries[at].0,
                        low,
                        high,
                    ) ==> exists|k: int| 0 <= k < sources.len() && #[trigger] sources[k] == at,
                beyond ==> forall|at: int|
                    i <= at < entries.len() ==> !within(#[trigger] entries[at].0, low, high),
            decreases storage.store@.len() - i + (if beyond { 0int } else { 1int }),
        {
            let here = &storage.store[i];
            assert(entries[i as int] == pair_view(*here));
            if passes(here.0.as_slice(), &real_end) {
                proof {
                    assert forall|at: int| i <= at < entries.len() implies !within(
                        #[trigger] entries[at].0,
                        low,
                        high,
                    ) by {
                        if at > i {
                            assert(before(entries[i as int].0, entries[at].0));
                            lemma_passes_on(entries[i as int].0, entries[at].0, high);
                        }
                    }
                }
                beyond = true;
            } else {
                let ghost earlier = sources;
                if reaches(here.0.as_slice(), &real_start) && cf.has_prefix(here.0.as_slice()) {
                    let key = cf.strip_prefix(here.0.as_slice());
                    found.push((key, here.1.clone()));
                    proof {
                        sources = sources.push(i as int);
                    }
                }
                proof {
                    assert forall|at: int|
                        0 <= at < i + 1 && cf.prefix().is_prefix_of(#[trigger] entries[at].0)
                            && within(entries[at].0, low, high) implies exists|k: int|
                        0 <= k < sources.len() && #[trigger] sources[k] == at by {
                        if at < i {
                            let k = choose|k: int|
                                0 <= k < earlier.len() && #[trigger] earlier[k] == at;
                            assert(sources[k] == at);
                        } else {
                            assert(sources[sources.len() - 1] == at);
                        }
                    }
                }
                i = i + 1;
            }
        }
        let scanner = MemoryScanner { found };
        proof {
            let list = pairs_view(scanner.found@);
            assert forall|k: int, l: int| 0 <= k < l < list.len() implies before(
                #[trigger] list[k].0,
                #[trigger] list[l].0,
            ) by {
                assert(sources[k] < sources[l]);
                assert(before(entries[sources[k]].0, entries[sources[l]].0));
                lemma_common_prefix(cf.prefix(), list[k].0, list[l].0);
            }
            assert forall|k: int| 0 <= k < list.len() implies scanned(
                content,
                cf,
                low,
                high,
                #[trigger] list[k].0,
            ) && content[cf.prefix() + list[k].0] == list[k].1 by {
                lemma_map_at(entries, sources[k]);
            }
            assert forall|key: Seq<u8>| #[trigger]
                scanned(content, cf, low, high, key) implies exists|k: int|
                0 <= k < list.len() && #[trigger] list[k].0 == key by {
                let real_key = cf.prefix() + key;
                let at = place_of(entries, real_key);
                assert(entries[at].0 == real_key);
                assert(cf.prefix().is_prefix_of(entries[at].0));
                assert(at < i);
                let k = choose|k: int| 0 <= k < sources.len() && #[trigger] sources[k] == at;
                assert(cf.prefix() + list[k].0 == cf.prefix() + key);
                assert(list[k].0 =~= (cf.prefix() + list[k].0).skip(cf.prefix().len() as int));
                assert(key =~= (cf.prefix() + key).skip(cf.prefix().len() as int));
            }
        }
        scanner
    }
}

impl StorageScanner for MemoryScanner {
    type Iter = MemoryStorageIterator;

    /// What was found lies in memory, so that every pair can be read.
    open spec fn never_fails(&self) -> bool {
        true
    }

    closed spec fn found(&self) -> Seq<(Seq<u8>, Seq<u8>)> {
        pairs_view(self.found@)
    }

    fn iter(&self) -> (iter: MemoryStorageIterator) {
        let iter = MemoryStorageIterator { found: copy_of(&self.found), position: 0 };
        proof {
            assert(pairs_view(iter.found@).skip(0) =~= pairs_view(self.found@));
        }
        iter
    }
}

impl Storage for MemoryStorage {
    type Scanner = MemoryScanner;

    /// A store in memory depends on nothing outside itself.
    open spec fn never_fails(&self) -> bool {
        true
    }

    closed spec fn content(&self) -> Map<Seq<u8>, Seq<u8>> {
        map_of(pairs_view(self.store@))
    }

    fn start(&self) -> (result: TkvResult<()>)
        ensures
            result is Ok,
    {
        Ok(())
    }

    fn stop(self) -> (result: TkvResult<()>)
        ensures
            result is Ok,
    {
        Ok(())
    }

    fn write(&mut self, batch: Vec<Mutation>) -> (result: TkvResult<()>)
        ensures
            result is Ok,
    {
        let ghost all = batch@;
        let ghost before_all = self.content();
        let mut batch = batch;
        let mut rest: Vec<Mutation> = Vec::new();
        // the mutations are taken from the end of the batch, so they are
        // turned round first
        while batch.len() > 0
            invariant
                rest@.len() + batch@.len() == all.len(),
                forall|i: int| 0 <= i < batch@.len() ==> batch@[i] == all[i],
                forall|i: int|
                    0 <= i < rest@.len() ==> rest@[i] == all[all.len() - 1 - i],
            decreases batch@.len(),
        {
            let mutation = batch.pop().unwrap();
            rest.push(mutation);
        }
        let ghost mut done: int = 0;
        while rest.len() > 0
            invariant
                done + rest@.len() == all.len(),
                0 <= done,
                forall|i: int|
                    0 <= i < rest@.len() ==> rest@[i] == all[all.len() - 1 - i],
                self.content() == applied_all(before_all, all.take(done)),
            decreases rest@.len(),
        {
            let mutation = rest.pop().unwrap();
            proof {
                assert(mutation == all[done]);
                assert(all.take(done + 1).drop_last() =~= all.take(done));
                assert(all.take(done + 1).last() == mutation);
            }
            match mutation {
                Mutation::Put { key, value, cf } => {
                    let real_key = cf.add_prefix(key.as_slice());
                    self.put_pair(real_key, value);
                },
                Mutation::Delete { key, cf } => {
                    let real_key = cf.add_prefix(key.as_slice());
                    self.delete_pair(real_key.as_slice());
                },
            }
            proof {
                done = done + 1;
            }
        }
        proof {
            assert(all.take(all.len() as int) =~= all);
        }
        Ok(())
    }

    fn put(&mut self, cf: ColumnFamily, key: &[u8], value: Vec<u8>) -> (result: TkvResult<()>)
        ensures
            result is Ok,
    {
        let real_key = cf.add_prefix(key);
        self.put_pair(real_key, value);
        Ok(())
    }

    fn delete(&mut self, cf: ColumnFamily, key: &[u8]) -> (result: TkvResult<()>)
        ensures
            result is Ok,
    {
        let real_key = cf.add_prefix(key);
        self.delete_pair(real_key.as_slice());
        Ok(())
    }

    fn get(&self, cf: ColumnFamily, key: &[u8]) -> (result: TkvResult<Option<Vec<u8>>>)
        ensures
            result is Ok,
    {
        proof {
            use_type_invariant(self);
        }
        let ghost entries = pairs_view(self.store@);
        let real_key = cf.add_prefix(key);
        let place = find_place(&self.store, real_key.as_slice());
        if place < self.store.len() {
            let here = &self.store[place];
            assert(entries[place as int].0 == here.0@);
            match rank(here.0.as_slice(), real_key.as_slice()) {
                Rank::Same => {
                    proof {
                        lemma_map_at(entries, place as int);
                    }
                    return Ok(Some(here.1.clone()));
                },
                _ => {
                    proof {
                        lemma_before_is_strict_either(entries[place as int].0, real_key@);
                    }
                },
            }
        }
        proof {
            lemma_absent(entries, real_key@, place as int);
        }
        Ok(None)
    }

    fn scan(&self, cf: ColumnFamily, start: Bound<Vec<u8>>, end: Bound<Vec<u8>>) -> (result:
        TkvResult<MemoryScanner>)
        ensures
            result is Ok,
    {
        Ok(MemoryScanner::new(self, cf, start, end))
    }
}

/// A key above the upper bound leaves every later key above it too.
proof fn lemma_passes_on(key: Seq<u8>, later: Seq<u8>, end: Bound<Seq<u8>>)
    requires
        before(key, later),
        !within(key, Bound::Unbounded, end),
    ensures
        !within(later, Bound::Unbounded, end),
{
    match end {
        Bound::Included(greatest) => {
            lemma_before_chains(greatest, key, later, 0);
        },
        Bound::Excluded(above) => {
            if before(later, above) {
                lemma_before_chains(key, later, above, 0);
            }
        },
        Bound::Unbounded => {},
    }
}

} // verus!
