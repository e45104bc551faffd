//! Ranking: the scored documents in descending order of their scores, cut
//! to the number of results asked for.
//!
//! A score enters as a key: an unsigned number that orders as the score
//! does. Documents with the same key are ranked by ascending id.

use vstd::prelude::*;
use vstd::seq_lib::{to_multiset_contains, to_multiset_update};

verus! {

/// A document with the key of its score.
#[derive(Clone, Copy, PartialEq, Eq, Structural, Debug)]
pub struct Ranked {
    pub doc_id: usize,
    pub key: u64,
}

/// `a` is ranked before `b`: it has the higher key, or the same key and the
/// lower id.
pub open spec fn ranks_before(a: Ranked, b: Ranked) -> bool {
    a.key > b.key || (a.key == b.key && a.doc_id < b.doc_id)
}

/// No item stands before one that is ranked before it.
pub open spec fn in_rank_order(items: Seq<Ranked>) -> bool {
    forall|i: int, j: int| 0 <= i < j < items.len() ==> !ranks_before(items[j], items[i])
}

/// No item of `rest` is ranked before an item of `top`.
pub open spec fn none_outranks(rest: Seq<Ranked>, top: Seq<Ranked>) -> bool {
    forall|i: int, j: int| 0 <= i < top.len() && 0 <= j < rest.len() ==> !ranks_before(rest[j], top[i])
}

/// `result` holds the `max_results` best of `scored`, or all of them where
/// there are fewer, in rank order: together with some `rest` that it leaves
/// out it holds just the items of `scored`, and nothing left out is ranked
/// before an item that it holds. So each item of `result` is an item of
/// `scored`, and each item of `scored` stands in `result` or is ranked
/// before none of its items.
pub open spec fn is_ranking(result: Seq<Ranked>, scored: Seq<Ranked>, max_results: nat) -> bool {
    &&& result.len() == if scored.len() <= max_results {
        scored.len()
    } else {
        max_results
    }
    &&& in_rank_order(result)
    &&& exists|rest: Seq<Ranked>| #[trigger]
        (result + rest).to_multiset() == scored.to_multiset() && none_outranks(rest, result)
    &&& forall|i: int| 0 <= i < result.len() ==> scored.contains(#[trigger] result[i])
    &&& forall|j: int|
        0 <= j < scored.len() ==> result.contains(#[trigger] scored[j]) || forall|i: int|
            0 <= i < result.len() ==> !ranks_before(scored[j], #[trigger] result[i])
}

/// Tells whether `a` is ranked before `b`.
pub fn is_before(a: &Ranked, b: &Ranked) -> (before: bool)
    ensures
        before == ranks_before(*a, *b),
{
    a.key > b.key || (a.key == b.key && a.doc_id < b.doc_id)
}

/// Ranks the scored documents and keeps the first `max_results`.
pub fn rank(scored: Vec<Ranked>, max_results: usize) -> (result: Vec<Ranked>)
    ensures
        is_ranking(result@, scored@, max_results as nat),
{
    let ghost given = scored@;
    let mut items = scored;
    let len = items.len();
    let wanted = if len <= max_results {
        len
    } else {
        max_results
    };
    let mut r: usize = 0;
    while r < wanted
        invariant
            r <= wanted <= len,
            items.len() == len,
            items@.to_multiset() == given.to_multiset(),
            forall|i: int, j: int| 0 <= i < r && i < j < len ==> !ranks_before(items[j], items[i]),
        decreases wanted - r,
    {
        let mut best = r;
        let mut j = r + 1;
        while j < len
            invariant
                r <= best < j <= len,
                items.len() == len,
                forall|l: int| r <= l < j ==> !ranks_before(items[l], items[best as int]),
            decreases len - j,
        {
            if is_before(&items[j], &items[best]) {
                best = j;
            }
            j += 1;
        }
        if best != r {
            let ghost before = items@;
            let first = items[r];
            let chosen = items[best];
            items.set(r, chosen);
            let ghost between = items@;
            items.set(best, first);
            proof {
                to_multiset_update(before, r as int, chosen);
                to_multiset_update(between, best as int, first);
                to_multiset_contains(before, first);
            }
        }
        r += 1;
    }
    let ghost sorted = items@;
    items.truncate(wanted);
    proof {
        let rest = sorted.skip(wanted as int);
        assert(items@ + rest =~= sorted);
        assert forall|i: int| 0 <= i < items@.len() implies given.contains(
            #[trigger] items@[i],
        ) by {
            to_multiset_contains(sorted, items@[i]);
            to_multiset_contains(given, items@[i]);
        }
        assert forall|j: int| 0 <= j < given.len() implies items@.contains(#[trigger] given[j])
            || forall|i: int|
            0 <= i < items@.len() ==> !ranks_before(given[j], #[trigger] items@[i]) by {
            to_multiset_contains(sorted, given[j]);
            to_multiset_contains(given, given[j]);
        }
    }
    items
}

} // verus!
