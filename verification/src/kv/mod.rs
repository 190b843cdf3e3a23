pub mod config;
pub mod error;
pub mod order;
pub mod server;
pub mod storage;
pub mod util;

use self::error::{TkvError, TkvResult};
use self::order::before;
use self::storage::mutation::Mutation;
use std::ops::Bound;
use vstd::prelude::*;

verus! {

/// std's `Bound`, an end of a range: a value that is included, a value that
/// is excluded, or no bound at all.
#[verifier::external_type_specification]
#[verifier::reject_recursive_types(T)]
pub struct ExBound<T>(Bound<T>);

#[derive(Debug, Copy, Clone, PartialEq, Eq, Structural)]
pub enum ColumnFamily {
    Default,
    Write,
    Lock,
}

impl ColumnFamily {
    /// The name of the column family, in lower case.
    pub open spec fn name(self) -> Seq<char> {
        match self {
            ColumnFamily::Default => "default"@,
            ColumnFamily::Write => "write"@,
            ColumnFamily::Lock => "lock"@,
        }
    }

    /// The bytes that stand before every key of the column family: its name
    /// and an underscore.
    pub open spec fn prefix(self) -> Seq<u8> {
        match self {
            ColumnFamily::Default => seq![100u8, 101u8, 102u8, 97u8, 117u8, 108u8, 116u8, 95u8],
            ColumnFamily::Write => seq![119u8, 114u8, 105u8, 116u8, 101u8, 95u8],
            ColumnFamily::Lock => seq![108u8, 111u8, 99u8, 107u8, 95u8],
        }
    }

    /// The bound with the prefix of the column family before its key, if it
    /// has one.
    pub open spec fn bound_with_prefix(self, bound: Bound<Vec<u8>>) -> Bound<Seq<u8>> {
        match bound {
            Bound::Included(key) => Bound::Included(self.prefix() + key@),
            Bound::Excluded(key) => Bound::Excluded(self.prefix() + key@),
            Bound::Unbounded => Bound::Unbounded,
        }
    }

    /// A bound on byte vectors as a bound on byte sequences.
    pub open spec fn bound_view(bound: Bound<Vec<u8>>) -> Bound<Seq<u8>> {
        match bound {
            Bound::Included(key) => Bound::Included(key@),
            Bound::Excluded(key) => Bound::Excluded(key@),
            Bound::Unbounded => Bound::Unbounded,
        }
    }

    /// The column family that `name` names, if it names one.
    pub fn parse(name: &str) -> (cf: Option<ColumnFamily>)
        ensures
            match cf {
                Some(cf) => name@ == cf.name(),
                None => forall|cf: ColumnFamily| name@ != cf.name(),
            },
    {
        let name = name.to_owned();
        if name == "default".to_owned() {
            Some(ColumnFamily::Default)
        } else if name == "write".to_owned() {
            Some(ColumnFamily::Write)
        } else if name == "lock".to_owned() {
            Some(ColumnFamily::Lock)
        } else {
            None
        }
    }

    /// The prefix of the column family, as bytes to work with.
    pub fn prefix_bytes(&self) -> (prefix: Vec<u8>)
        ensures
            prefix@ == self.prefix(),
    {
        match self {
            ColumnFamily::Default => vec![100u8, 101u8, 102u8, 97u8, 117u8, 108u8, 116u8, 95u8],
            ColumnFamily::Write => vec![119u8, 114u8, 105u8, 116u8, 101u8, 95u8],
            ColumnFamily::Lock => vec![108u8, 111u8, 99u8, 107u8, 95u8],
        }
    }

    pub fn add_prefix(&self, key: &[u8]) -> (real_key: Vec<u8>)
        ensures
            real_key@ == self.prefix() + key@,
    {
        let mut real_key = self.prefix_bytes();
        real_key.extend_from_slice(key);
        proof {
            assert(real_key@ =~= self.prefix() + key@);
        }
        real_key
    }

    pub fn add_bound_prefix(&self, bound: Bound<Vec<u8>>) -> (real_bound: Bound<Vec<u8>>)
        ensures
            Self::bound_view(real_bound) == self.bound_with_prefix(bound),
    {
        match bound {
            Bound::Included(v) => Bound::Included(self.add_prefix(v.as_slice())),
            Bound::Excluded(v) => Bound::Excluded(self.add_prefix(v.as_slice())),
            Bound::Unbounded => Bound::Unbounded,
        }
    }

    /// Whether `key` begins with the prefix of the column family.
    pub fn has_prefix(&self, key: &[u8]) -> (has: bool)
        ensures
            has == self.prefix().is_prefix_of(key@),
    {
        let prefix = self.prefix_bytes();
        if key.len() < prefix.len() {
            return false;
        }
        let mut i: usize = 0;
        while i < prefix.len()
            invariant
                i <= prefix@.len() <= key@.len(),
                prefix@ == self.prefix(),
                forall|j: int| 0 <= j < i ==> prefix@[j] == key@[j],
            decreases prefix@.len() - i,
        {
            if prefix[i] != key[i] {
                return false;
            }
            i = i + 1;
        }
        true
    }

    /// The key without the prefix of the column family. The key must begin
    /// with that prefix.
    pub fn strip_prefix(&self, key: &[u8]) -> (plain_key: Vec<u8>)
        requires
            self.prefix().is_prefix_of(key@),
        ensures
            plain_key@ == key@.skip(self.prefix().len() as int),
            self.prefix() + plain_key@ == key@,
    {
        let prefix = self.prefix_bytes();
        let plain_key = vstd::slice::slice_to_vec(
            vstd::slice::slice_subrange(key, prefix.len(), key.len()),
        );
        proof {
            assert(self.prefix() + plain_key@ =~= key@);
        }
        plain_key
    }
}

/// What the error says when a name is the name of no column family.
pub open spec fn unknown_name_text() -> Seq<char> {
    "unknown column family"@
}

impl core::str::FromStr for ColumnFamily {
    type Err = TkvError;

    /// The column family that `name` names, or the error that says that it
    /// names none.
    fn from_str(name: &str) -> (result: Result<Self, TkvError>)
        ensures
            match result {
                Ok(cf) => name@ == cf.name(),
                Err(error) => {
                    &&& forall|cf: ColumnFamily| name@ != cf.name()
                    &&& error.message() == unknown_name_text()
                },
            },
    {
        match ColumnFamily::parse(name) {
            Some(cf) => Ok(cf),
            None => Err(TkvError("unknown column family".to_owned())),
        }
    }
}

/// Taking the prefix off a key that it was put before gives the key back.
pub proof fn lemma_prefix_round_trip(cf: ColumnFamily, key: Seq<u8>)
    ensures
        cf.prefix().is_prefix_of(cf.prefix() + key),
        (cf.prefix() + key).skip(cf.prefix().len() as int) == key,
{
    assert((cf.prefix() + key).skip(cf.prefix().len() as int) =~= key);
}

/// Keys of different column families never meet: no key with the prefix of
/// one begins with the prefix of another.
pub proof fn lemma_prefixes_apart(one: ColumnFamily, other: ColumnFamily, key: Seq<u8>)
    requires
        one != other,
    ensures
        !other.prefix().is_prefix_of(one.prefix() + key),
{
    let real_key = one.prefix() + key;
    if other.prefix().is_prefix_of(real_key) {
        assert(real_key[0] == other.prefix()[0]);
        assert(real_key[0] == one.prefix()[0]);
    }
}

/// A stored pair as plain mathematics.
pub open spec fn pair_view(pair: (Vec<u8>, Vec<u8>)) -> (Seq<u8>, Seq<u8>) {
    (pair.0@, pair.1@)
}

/// Stored pairs as plain mathematics.
pub open spec fn pairs_view(pairs: Seq<(Vec<u8>, Vec<u8>)>) -> Seq<(Seq<u8>, Seq<u8>)> {
    pairs.map_values(|pair: (Vec<u8>, Vec<u8>)| pair_view(pair))
}

/// `key` lies within the bounds `start` and `end`.
pub open spec fn within(key: Seq<u8>, start: Bound<Seq<u8>>, end: Bound<Seq<u8>>) -> bool {
    &&& match start {
        Bound::Included(least) => !before(key, least),
        Bound::Excluded(below) => before(below, key),
        Bound::Unbounded => true,
    }
    &&& match end {
        Bound::Included(greatest) => !before(greatest, key),
        Bound::Excluded(above) => before(key, above),
        Bound::Unbounded => true,
    }
}

/// What a store holds after `mutation`, if it held `content` before. The
/// keys of the content are the keys as they are stored: with the prefix of
/// their column family.
pub open spec fn applied(content: Map<Seq<u8>, Seq<u8>>, mutation: Mutation) -> Map<
    Seq<u8>,
    Seq<u8>,
> {
    match mutation {
        Mutation::Put { key, value, cf } => content.insert(cf.prefix() + key@, value@),
        Mutation::Delete { key, cf } => content.remove(cf.prefix() + key@),
    }
}

/// What a store holds after the mutations of `batch`, one after the other.
pub open spec fn applied_all(content: Map<Seq<u8>, Seq<u8>>, batch: Seq<Mutation>) -> Map<
    Seq<u8>,
    Seq<u8>,
>
    decreases batch.len(),
{
    if batch.len() == 0 {
        content
    } else {
        applied(applied_all(content, batch.drop_last()), batch.last())
    }
}

/// `key`, without the prefix of `cf`, is what a scan of `content` in `cf`
/// between `start` and `end` has to find.
pub open spec fn scanned(
    content: Map<Seq<u8>, Seq<u8>>,
    cf: ColumnFamily,
    start: Bound<Seq<u8>>,
    end: Bound<Seq<u8>>,
    key: Seq<u8>,
) -> bool {
    content.contains_key(cf.prefix() + key) && within(cf.prefix() + key, start, end)
}

/// `found` is the result of a scan of `content` in the column family `cf`
/// between the bounds `start` and `end`, which are keys as they are stored:
/// the keys of the column family within the bounds, each once and without
/// its prefix, with their values, in the order of the keys.
pub open spec fn is_scan_of(
    found: Seq<(Seq<u8>, Seq<u8>)>,
    content: Map<Seq<u8>, Seq<u8>>,
    cf: ColumnFamily,
    start: Bound<Seq<u8>>,
    end: Bound<Seq<u8>>,
) -> bool {
    &&& forall|i: int, j: int|
        0 <= i < j < found.len() ==> before(#[trigger] found[i].0, #[trigger] found[j].0)
    &&& forall|i: int|
        0 <= i < found.len() ==> scanned(content, cf, start, end, #[trigger] found[i].0)
            && content[cf.prefix() + found[i].0] == found[i].1
    &&& forall|key: Seq<u8>| #[trigger]
        scanned(content, cf, start, end, key) ==> exists|i: int|
            0 <= i < found.len() && #[trigger] found[i].0 == key
}

/// Hands out key-value pairs one by one.
pub trait KvIterator {
    /// The pairs that are still to come, the next one first.
    spec fn remaining(&self) -> Seq<(Seq<u8>, Seq<u8>)>;

    /// Every pair of this walk can be read: the walk never hands out an
    /// error.
    spec fn never_fails(&self) -> bool;

    /// The next pair, or nothing when all pairs have been handed out. Where
    /// a pair cannot be read, the error stands in its place; a walk that
    /// never fails has no such place.
    fn next(&mut self) -> (item: Option<TkvResult<(Vec<u8>, Vec<u8>)>>)
        ensures
            final(self).never_fails() == old(self).never_fails(),
            old(self).never_fails() ==> !(item matches Some(Err(_))),
            match item {
                Some(Ok(pair)) => {
                    &&& old(self).remaining().len() > 0
                    &&& (pair.0@, pair.1@) == old(self).remaining()[0]
                    &&& final(self).remaining() == old(self).remaining().skip(1)
                },
                Some(Err(_)) => old(self).remaining().len() > 0,
                None => old(self).remaining().len() == 0 && final(self).remaining().len() == 0,
            },
    ;
}

/// The result of a scan, which can be walked any number of times.
pub trait StorageScanner {
    type Iter: KvIterator;

    /// The pairs that the scan has found, in the order of their keys.
    spec fn found(&self) -> Seq<(Seq<u8>, Seq<u8>)>;

    /// Every pair that was found can be read: no walk over them fails.
    spec fn never_fails(&self) -> bool;

    /// A walk over all that was found, from the first pair.
    fn iter(&self) -> (iter: Self::Iter)
        ensures
            iter.remaining() == self.found(),
            iter.never_fails() == self.never_fails(),
    ;
}

/// Storage represents the internal-facing server part of TinyYKV,
/// It handles sending and receiving messages from other TinyKV nodes.
/// As part of that responsibility, it also reads and writes data to disk
/// (or semi-permanent memory).
pub trait Storage: Sized {
    type Scanner: StorageScanner;

    /// What the store holds: for each key as it is stored, its value.
    spec fn content(&self) -> Map<Seq<u8>, Seq<u8>>;

    /// Nothing that is asked of the store can fail: it depends on nothing
    /// outside itself. A store of which this holds owes success to every
    /// call, and goes on to owe it.
    spec fn never_fails(&self) -> bool;

    fn start(&self) -> (result: TkvResult<()>)
        ensures
            self.never_fails() ==> result is Ok,
    ;

    fn stop(self) -> (result: TkvResult<()>)
        ensures
            self.never_fails() ==> result is Ok,
    ;

    /// Applies the mutations of `batch` one after the other, all of them or
    /// none.
    fn write(&mut self, batch: Vec<Mutation>) -> (result: TkvResult<()>)
        ensures
            final(self).never_fails() == old(self).never_fails(),
            old(self).never_fails() ==> result is Ok,
            match result {
                Ok(_) => final(self).content() == applied_all(old(self).content(), batch@),
                Err(_) => final(self).content() == old(self).content(),
            },
    ;

    /// The value stored for `key` in the column family `cf`, if there is
    /// one.
    fn get(&self, cf: ColumnFamily, key: &[u8]) -> (result: TkvResult<Option<Vec<u8>>>)
        ensures
            self.never_fails() ==> result is Ok,
            match result {
                Ok(Some(value)) => self.content().contains_key(cf.prefix() + key@)
                    && self.content()[cf.prefix() + key@] == value@,
                Ok(None) => !self.content().contains_key(cf.prefix() + key@),
                Err(_) => true,
            },
    ;

    /// Stores `value` for `key` in the column family `cf`: a write of that
    /// one mutation. It succeeds where that write does, and so always on a
    /// store that never fails.
    fn put(&mut self, cf: ColumnFamily, key: &[u8], value: Vec<u8>) -> (result: TkvResult<()>)
        ensures
            final(self).never_fails() == old(self).never_fails(),
            old(self).never_fails() ==> result is Ok,
            match result {
                Ok(_) => final(self).content() == old(self).content().insert(
                    cf.prefix() + key@,
                    value@,
                ),
                Err(_) => final(self).content() == old(self).content(),
            },
    {
        let mutation = Mutation::Put { key: vstd::slice::slice_to_vec(key), value, cf };
        let ghost put = mutation;
        let mut batch: Vec<Mutation> = Vec::new();
        batch.push(mutation);
        proof {
            let content = self.content();
            assert(batch@.drop_last() =~= Seq::<Mutation>::empty());
            assert(batch@.last() == put);
            assert(applied_all(content, batch@.drop_last()) == content);
            assert(applied_all(content, batch@) == applied(content, put));
        }
        self.write(batch)
    }

    /// Drops `key` from the column family `cf`: a write of that one
    /// mutation. It succeeds where that write does, and so always on a store
    /// that never fails.
    fn delete(&mut self, cf: ColumnFamily, key: &[u8]) -> (result: TkvResult<()>)
        ensures
            final(self).never_fails() == old(self).never_fails(),
            old(self).never_fails() ==> result is Ok,
            match result {
                Ok(_) => final(self).content() == old(self).content().remove(cf.prefix() + key@),
                Err(_) => final(self).content() == old(self).content(),
            },
    {
        let mutation = Mutation::Delete { key: vstd::slice::slice_to_vec(key), cf };
        let ghost delete = mutation;
        let mut batch: Vec<Mutation> = Vec::new();
        batch.push(mutation);
        proof {
            let content = self.content();
            assert(batch@.drop_last() =~= Seq::<Mutation>::empty());
            assert(batch@.last() == delete);
            assert(applied_all(content, batch@.drop_last()) == content);
            assert(applied_all(content, batch@) == applied(content, delete));
        }
        self.write(batch)
    }

    /// Finds what the column family `cf` holds between `start` and `end`.
    fn scan(&self, cf: ColumnFamily, start: Bound<Vec<u8>>, end: Bound<Vec<u8>>) -> (result:
        TkvResult<Self::Scanner>)
        ensures
            self.never_fails() ==> result is Ok,
            result matches Ok(scanner) ==> {
                &&& scanner.never_fails() == self.never_fails()
                &&& is_scan_of(
                    scanner.found(),
                    self.content(),
                    cf,
                    cf.bound_with_prefix(start),
                    cf.bound_with_prefix(end),
                )
            },
    ;
}

} // verus!
