//! The candidates of a query: the documents that at least one term names,
//! each with its terms.

use crate::score::ScoreTerm;
use vstd::prelude::*;

verus! {

/// A document that a query matches, with the terms that its score is made
/// of, in the order in which the scans gave them.
#[derive(Debug)]
pub struct Candidate {
    pub doc_id: usize,
    pub terms: Vec<ScoreTerm>,
}

/// The terms that name the document `doc`, in their order.
pub open spec fn terms_of_doc(terms: Seq<ScoreTerm>, doc: int) -> Seq<ScoreTerm>
    decreases terms.len(),
{
    if terms.len() == 0 {
        Seq::empty()
    } else {
        let before = terms_of_doc(terms.drop_last(), doc);
        if terms.last().doc_id == doc {
            before.push(terms.last())
        } else {
            before
        }
    }
}

/// The candidates are the documents that the terms name, in ascending
/// order of their ids, each with exactly its terms.
pub open spec fn groups(candidates: Seq<Candidate>, terms: Seq<ScoreTerm>) -> bool {
    &&& forall|i: int, j: int|
        0 <= i < j < candidates.len() ==> (#[trigger] candidates[i]).doc_id < (
        #[trigger] candidates[j]).doc_id
    &&& forall|i: int|
        0 <= i < candidates.len() ==> (#[trigger] candidates[i]).terms@ == terms_of_doc(
            terms,
            candidates[i].doc_id as int,
        ) && candidates[i].terms.len() > 0
    &&& forall|doc: int|
        (#[trigger] terms_of_doc(terms, doc)).len() > 0 ==> exists|i: int|
            0 <= i < candidates.len() && (#[trigger] candidates[i]).doc_id == doc
}

/// Terms that name no document from `bound` on give none of them a term.
pub proof fn lemma_no_terms_past(terms: Seq<ScoreTerm>, bound: int, doc: int)
    requires
        forall|k: int| 0 <= k < terms.len() ==> (#[trigger] terms[k]).doc_id < bound,
        doc >= bound || doc < 0,
    ensures
        terms_of_doc(terms, doc).len() == 0,
    decreases terms.len(),
{
    if terms.len() > 0 {
        lemma_no_terms_past(terms.drop_last(), bound, doc);
    }
}

/// Sorts the terms by the document that each names.
pub(crate) fn group_by_document(terms: &Vec<ScoreTerm>, total_docs: usize) -> (candidates: Vec<
    Candidate,
>)
    requires
        forall|k: int| 0 <= k < terms.len() ==> (#[trigger] terms[k]).doc_id < total_docs,
    ensures
        groups(candidates@, terms@),
{
    let mut buckets: Vec<Vec<ScoreTerm>> = Vec::new();
    let mut doc: usize = 0;
    while doc < total_docs
        invariant
            doc <= total_docs,
            buckets.len() == doc,
            forall|d: int| 0 <= d < doc ==> (#[trigger] buckets[d])@.len() == 0,
        decreases total_docs - doc,
    {
        buckets.push(Vec::new());
        doc += 1;
    }
    let mut i: usize = 0;
    while i < terms.len()
        invariant
            i <= terms.len(),
            buckets.len() == total_docs,
            forall|k: int| 0 <= k < terms.len() ==> (#[trigger] terms[k]).doc_id < total_docs,
            forall|d: int|
                0 <= d < total_docs ==> (#[trigger] buckets[d])@ == terms_of_doc(
                    terms@.take(i as int),
                    d,
                ),
        decreases terms.len() - i,
    {
        let term = terms[i];
        proof {
            assert(terms@.take(i + 1).drop_last() == terms@.take(i as int));
        }
        let bucket = &mut buckets[term.doc_id];
        bucket.push(term);
        i += 1;
    }
    assert(terms@.take(terms.len() as int) == terms@);
    let ghost filled = buckets@;
    let mut candidates: Vec<Candidate> = Vec::new();
    let mut doc: usize = 0;
    for bucket in it: buckets
        invariant
            it.seq() == filled,
            filled.len() == total_docs,
            doc == it.index(),
            forall|d: int| 0 <= d < total_docs ==> (#[trigger] filled[d])@ == terms_of_doc(terms@, d),
            forall|k: int| 0 <= k < candidates.len() ==> (#[trigger] candidates[k]).doc_id < doc,
            forall|k: int, l: int|
                0 <= k < l < candidates.len() ==> (#[trigger] candidates[k]).doc_id < (
                #[trigger] candidates[l]).doc_id,
            forall|k: int|
                0 <= k < candidates.len() ==> (#[trigger] candidates[k]).terms@ == terms_of_doc(
                    terms@,
                    candidates[k].doc_id as int,
                ) && candidates[k].terms.len() > 0,
            forall|d: int|
                0 <= d < doc && (#[trigger] terms_of_doc(terms@, d)).len() > 0 ==> exists|k: int|
                    0 <= k < candidates.len() && (#[trigger] candidates[k]).doc_id == d,
    {
        let ghost before = candidates@;
        if bucket.len() > 0 {
            candidates.push(Candidate { doc_id: doc, terms: bucket });
        }
        proof {
            assert forall|d: int|
                0 <= d < doc + 1 && (#[trigger] terms_of_doc(terms@, d)).len() > 0 implies exists|
                k: int,
            | 0 <= k < candidates.len() && (#[trigger] candidates[k]).doc_id == d by {
                if d < doc {
                    let k = choose|k: int| 0 <= k < before.len() && (#[trigger] before[k]).doc_id == d;
                    assert(candidates[k].doc_id == d);
                } else {
                    assert(candidates[candidates.len() - 1].doc_id == d);
                }
            }
        }
        doc += 1;
    }
    proof {
        assert forall|d: int| (#[trigger] terms_of_doc(terms@, d)).len() > 0 implies exists|k: int|
            0 <= k < candidates.len() && (#[trigger] candidates[k]).doc_id == d by {
            if d < 0 || d >= total_docs {
                lemma_no_terms_past(terms@, total_docs as int, d);
            }
        }
    }
    candidates
}

} // verus!
