//! Edit distance between two strings of characters: the least number of
//! insertions, deletions and substitutions of single characters that turns
//! one into the other.

use vstd::prelude::*;

verus! {

/// The least of three numbers.
pub open spec fn min3(x: nat, y: nat, z: nat) -> nat {
    if x <= y && x <= z {
        x
    } else if y <= z {
        y
    } else {
        z
    }
}

/// The edit distance of `a` and `b`, by the usual recurrence on their last
/// characters.
pub open spec fn edit_distance(a: Seq<char>, b: Seq<char>) -> nat
    decreases a.len() + b.len(),
{
    if a.len() == 0 {
        b.len()
    } else if b.len() == 0 {
        a.len()
    } else {
        let substitute = edit_distance(a.drop_last(), b.drop_last()) + if a.last() == b.last() {
            0nat
        } else {
            1nat
        };
        let delete = edit_distance(a.drop_last(), b) + 1;
        let insert = edit_distance(a, b.drop_last()) + 1;
        min3(substitute, delete, insert)
    }
}

/// A string is at distance zero from itself.
pub proof fn lemma_distance_to_self(a: Seq<char>)
    ensures
        edit_distance(a, a) == 0,
    decreases a.len(),
{
    if a.len() > 0 {
        lemma_distance_to_self(a.drop_last());
    }
}

/// The distance never exceeds the length of the longer string.
pub proof fn lemma_distance_bound(a: Seq<char>, b: Seq<char>)
    ensures
        edit_distance(a, b) <= a.len() || edit_distance(a, b) <= b.len(),
    decreases a.len() + b.len(),
{
    if a.len() > 0 && b.len() > 0 {
        lemma_distance_bound(a.drop_last(), b.drop_last());
    }
}

/// The characters of `s`, in order.
pub fn chars_of(s: &str) -> (chars: Vec<char>)
    ensures
        chars@ == s@,
{
    let mut chars: Vec<char> = Vec::new();
    for c in it: s.chars()
        invariant
            it.seq() == s@,
            chars@ == s@.take(it.index() as int),
    {
        chars.push(c);
    }
    chars
}

/// Computes the edit distance of `a` and `b` row by row.
pub fn distance(a: &Vec<char>, b: &Vec<char>) -> (d: usize)
    ensures
        d == edit_distance(a@, b@),
{
    let n = b.len();
    let mut row: Vec<usize> = Vec::new();
    let mut j: usize = 0;
    while j < n
        invariant
            n == b.len(),
            j <= n,
            row.len() == j,
            forall|k: int| 0 <= k < j ==> row[k] == k + 1,
        decreases n - j,
    {
        row.push(j + 1);
        j += 1;
    }
    let mut i: usize = 0;
    while i < a.len()
        invariant
            n == b.len(),
            i <= a.len(),
            row.len() == n,
            forall|k: int| 0 <= k < n ==> row[k] == edit_distance(a@.take(i as int), b@.take(k + 1)),
        decreases a.len() - i,
    {
        let ghost above = a@.take(i as int);
        let ghost here = a@.take(i + 1);
        let mut diag: usize = i;
        let mut left: usize = i + 1;
        let mut j: usize = 0;
        while j < n
            invariant
                n == b.len(),
                i < a.len(),
                j <= n,
                row.len() == n,
                above == a@.take(i as int),
                here == a@.take(i + 1),
                here.len() == i + 1,
                here.drop_last() == above,
                here.last() == a@[i as int],
                diag == edit_distance(above, b@.take(j as int)),
                left == edit_distance(here, b@.take(j as int)),
                forall|k: int| 0 <= k < j ==> row[k] == edit_distance(here, b@.take(k + 1)),
                forall|k: int| j <= k < n ==> row[k] == edit_distance(above, b@.take(k + 1)),
            decreases n - j,
        {
            let ghost short = b@.take(j as int);
            let ghost long = b@.take(j + 1);
            assert(long.drop_last() == short);
            proof {
                lemma_distance_bound(above, short);
            }
            let up = row[j];
            let substitute = if a[i] == b[j] {
                diag
            } else {
                diag + 1
            };
            let least = if up < left {
                up
            } else {
                left
            };
            let cell = if least < substitute {
                least + 1
            } else {
                substitute
            };
            diag = up;
            left = cell;
            row.set(j, cell);
            j += 1;
        }
        i += 1;
    }
    assert(a@.take(a@.len() as int) == a@);
    if n == 0 {
        a.len()
    } else {
        assert(b@.take(n as int) == b@);
        row[n - 1]
    }
}

} // verus!
