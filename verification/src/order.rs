//! The lexicographic order on byte strings, by which the index keeps its
//! tokens.

use vstd::prelude::*;

verus! {

/// `k` is the first position at which `a` and `b` part, and `a` is the
/// smaller one there: either `a` ends at `k` and `b` goes on, or both go on
/// and `a` holds the smaller byte.
pub open spec fn parts_below(a: Seq<u8>, b: Seq<u8>, k: int) -> bool {
    &&& 0 <= k <= a.len()
    &&& k < b.len()
    &&& forall|j: int| 0 <= j < k ==> a[j] == b[j]
    &&& k < a.len() ==> a[k] < b[k]
}

/// `a` comes strictly before `b` in lexicographic byte order.
pub open spec fn bytes_lt(a: Seq<u8>, b: Seq<u8>) -> bool {
    exists|k: int| parts_below(a, b, k)
}

/// `p` is a prefix of `s`.
pub open spec fn is_prefix(p: Seq<u8>, s: Seq<u8>) -> bool {
    p.len() <= s.len() && s.subrange(0, p.len() as int) == p
}

/// How two byte strings stand to each other.
#[derive(Clone, Copy, PartialEq, Eq, Structural, Debug)]
pub enum Side {
    Before,
    Same,
    After,
}

/// No byte string comes before itself.
pub proof fn lemma_lt_irreflexive(a: Seq<u8>)
    ensures
        !bytes_lt(a, a),
{
}

/// What comes before a byte string comes before all that the byte string
/// comes before.
pub proof fn lemma_lt_transitive(a: Seq<u8>, b: Seq<u8>, c: Seq<u8>)
    requires
        bytes_lt(a, b),
        bytes_lt(b, c),
    ensures
        bytes_lt(a, c),
{
    let k = choose|k: int| parts_below(a, b, k);
    let m = choose|m: int| parts_below(b, c, m);
    let n = if k <= m { k } else { m };
    assert(parts_below(a, c, n));
}

/// Compares two byte strings lexicographically.
pub fn compare_bytes(a: &[u8], b: &[u8]) -> (side: Side)
    ensures
        side == Side::Before <==> bytes_lt(a@, b@),
        side == Side::Same <==> a@ == b@,
        side == Side::After <==> bytes_lt(b@, a@),
{
    let mut i: usize = 0;
    while i < a.len() && i < b.len()
        invariant
            i <= a.len(),
            i <= b.len(),
            forall|j: int| 0 <= j < i ==> a@[j] == b@[j],
        decreases a.len() - i,
    {
        if a[i] < b[i] {
            proof {
                assert(parts_below(a@, b@, i as int));
            }
            return Side::Before;
        }
        if b[i] < a[i] {
            proof {
                assert(parts_below(b@, a@, i as int));
            }
            return Side::After;
        }
        i += 1;
    }
    if i < b.len() {
        proof {
            assert(parts_below(a@, b@, i as int));
        }
        Side::Before
    } else if i < a.len() {
        proof {
            assert(parts_below(b@, a@, i as int));
        }
        Side::After
    } else {
        proof {
            assert(a@ =~= b@);
        }
        Side::Same
    }
}

/// Tells whether `s` starts with `p`.
pub fn starts_with_bytes(s: &[u8], p: &[u8]) -> (r: bool)
    ensures
        r == is_prefix(p@, s@),
{
    if p.len() > s.len() {
        return false;
    }
    let mut i: usize = 0;
    while i < p.len()
        invariant
            i <= p.len(),
            p.len() <= s.len(),
            forall|j: int| 0 <= j < i ==> s@[j] == p@[j],
        decreases p.len() - i,
    {
        if s[i] != p[i] {
            return false;
        }
        i += 1;
    }
    proof {
        assert(s@.subrange(0, p@.len() as int) =~= p@);
    }
    true
}

} // verus!
