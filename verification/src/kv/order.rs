//! The order of keys: byte strings compared byte by byte from the left, a
//! string that is the beginning of another one standing before it.

use vstd::prelude::*;

verus! {

/// `a` stands before `b`, looking only at the bytes from position `i` on.
pub open spec fn before_from(a: Seq<u8>, b: Seq<u8>, i: int) -> bool
    decreases a.len() - i,
{
    if i >= b.len() {
        false
    } else if i >= a.len() {
        true
    } else if a[i] != b[i] {
        a[i] < b[i]
    } else {
        before_from(a, b, i + 1)
    }
}

/// `a` stands before `b`.
pub open spec fn before(a: Seq<u8>, b: Seq<u8>) -> bool {
    before_from(a, b, 0)
}

/// `a` and `b` hold the same bytes up to position `i`.
pub open spec fn agree_until(a: Seq<u8>, b: Seq<u8>, i: int) -> bool {
    &&& 0 <= i <= a.len()
    &&& i <= b.len()
    &&& forall|j: int| 0 <= j < i ==> a[j] == b[j]
}

/// How one key stands to another.
#[derive(Clone, Copy, Debug, PartialEq, Eq, Structural)]
pub enum Rank {
    Before,
    Same,
    After,
}

/// No key stands before itself.
pub proof fn lemma_not_before_itself(a: Seq<u8>, i: int)
    requires
        0 <= i,
    ensures
        !before_from(a, a, i),
    decreases a.len() - i,
{
    if i < a.len() {
        lemma_not_before_itself(a, i + 1);
    }
}

/// What stands before a key that stands before a third stands before the
/// third.
pub proof fn lemma_before_chains(a: Seq<u8>, b: Seq<u8>, c: Seq<u8>, i: int)
    requires
        0 <= i,
        before_from(a, b, i),
        before_from(b, c, i),
    ensures
        before_from(a, c, i),
    decreases a.len() - i,
{
    if i < a.len() && a[i] == b[i] && b[i] == c[i] {
        lemma_before_chains(a, b, c, i + 1);
    }
}

/// Of two keys one stands before the other, or they are the same from
/// position `i` on.
pub proof fn lemma_one_comes_first(a: Seq<u8>, b: Seq<u8>, i: int)
    requires
        agree_until(a, b, i),
    ensures
        before_from(a, b, i) || before_from(b, a, i) || a == b,
    decreases a.len() - i,
{
    if i < a.len() && i < b.len() && a[i] == b[i] {
        lemma_one_comes_first(a, b, i + 1);
    } else if i == a.len() && i == b.len() {
        assert(a =~= b);
    }
}

/// Keys that agree up to position `i` stand to each other as their bytes
/// from `i` on do.
pub proof fn lemma_skip_what_agrees(a: Seq<u8>, b: Seq<u8>, i: int)
    requires
        agree_until(a, b, i),
    ensures
        before(a, b) == before_from(a, b, i),
    decreases i,
{
    if i > 0 {
        lemma_skip_what_agrees(a, b, i - 1);
    }
}

/// The same bytes in front of two keys do not change how they stand to each
/// other.
pub proof fn lemma_common_prefix(prefix: Seq<u8>, a: Seq<u8>, b: Seq<u8>)
    ensures
        before(prefix + a, prefix + b) == before(a, b),
{
    lemma_skip_what_agrees(prefix + a, prefix + b, prefix.len() as int);
    lemma_shifted(prefix, a, b, 0);
}

/// Comparing from position `j` is comparing from `j` behind a common
/// prefix.
pub proof fn lemma_shifted(prefix: Seq<u8>, a: Seq<u8>, b: Seq<u8>, j: int)
    requires
        0 <= j,
    ensures
        before_from(prefix + a, prefix + b, prefix.len() + j) == before_from(a, b, j),
    decreases a.len() - j,
{
    let n = prefix.len() as int;
    if j < a.len() && j < b.len() {
        assert((prefix + a)[n + j] == a[j]);
        assert((prefix + b)[n + j] == b[j]);
        if a[j] == b[j] {
            lemma_shifted(prefix, a, b, j + 1);
        }
    }
}

/// A key that stands before another one is not after it, nor the same.
pub proof fn lemma_before_is_strict(a: Seq<u8>, b: Seq<u8>)
    requires
        before(a, b),
    ensures
        !before(b, a),
        a != b,
{
    if before(b, a) {
        lemma_before_chains(a, b, a, 0);
    }
    lemma_not_before_itself(a, 0);
}

/// Says how `a` stands to `b`.
pub fn rank(a: &[u8], b: &[u8]) -> (rank: Rank)
    ensures
        match rank {
            Rank::Before => before(a@, b@),
            Rank::Same => a@ == b@,
            Rank::After => before(b@, a@),
        },
{
    let mut i: usize = 0;
    while i < a.len() && i < b.len()
        invariant
            agree_until(a@, b@, i as int),
        decreases a@.len() - i,
    {
        if a[i] < b[i] {
            proof {
                lemma_skip_what_agrees(a@, b@, i as int);
            }
            return Rank::Before;
        }
        if a[i] > b[i] {
            proof {
                lemma_skip_what_agrees(b@, a@, i as int);
            }
            return Rank::After;
        }
        i = i + 1;
    }
    proof {
        lemma_skip_what_agrees(a@, b@, i as int);
        lemma_skip_what_agrees(b@, a@, i as int);
    }
    if i < b.len() {
        Rank::Before
    } else if i < a.len() {
        Rank::After
    } else {
        proof {
            assert(a@ =~= b@);
        }
        Rank::Same
    }
}

} // verus!
