//! What a score is computed from. For each related token and each document
//! of its posting list the engine hands out one term: the whole numbers that
//! enter the formula
//! `(1 + tf * idf) * distance_boost * prefix_boost`, with
//! `tf = occurrences / token_count` and
//! `idf = log10(total_docs / (docs_with_token + 1))`.

use crate::index::{postings_ok, Posting};
use crate::related::{related_of, RelatedToken};
use crate::search::LocalSearchView;
use vstd::prelude::*;

verus! {

/// The numbers behind the score of one document for one related token.
#[derive(Clone, Copy, Debug)]
pub struct ScoreTerm {
    /// The document.
    pub doc_id: usize,
    /// How often the token occurs in the document's text.
    pub occurrences: usize,
    /// The number of tokens of the document's text.
    pub token_count: usize,
    /// The number of documents whose text holds the token.
    pub docs_with_token: usize,
    /// The number of documents in the store.
    pub total_docs: usize,
    /// The edit distance of the token from the query token, where the
    /// fuzzy scan found the token.
    pub distance: Option<usize>,
    /// The bound on edits that the fuzzy scan applied.
    pub max_edit_distance: usize,
    /// Whether the token starts with the query token.
    pub same_prefix: bool,
}

/// The term names a stored document with at least one token, counts at
/// least one occurrence and no more than the document has tokens, counts at
/// least one document with the token and no more than are stored, and holds
/// no distance past the bound. So the division in `tf` is by a positive
/// number, `tf` lies between 0 and 1, the argument of the logarithm is at
/// least one half, and the distance boost is at least 1.
pub open spec fn term_ok(term: ScoreTerm) -> bool {
    &&& term.doc_id < term.total_docs
    &&& 1 <= term.occurrences <= term.token_count
    &&& 1 <= term.docs_with_token <= term.total_docs
    &&& term.distance matches Some(d) ==> d <= term.max_edit_distance
}

/// The factor by which a close match counts more: one more than the edits
/// that the match has to spare, and 1 for a token that only the prefix scan
/// found. It is zero for a distance past the bound, which no term of the
/// engine holds.
pub open spec fn distance_boost(term: ScoreTerm) -> nat {
    match term.distance {
        Some(d) => if d <= term.max_edit_distance {
            (term.max_edit_distance - d + 1) as nat
        } else {
            0
        },
        None => 1,
    }
}

impl ScoreTerm {
    /// The distance boost of the term. It may be one more than the largest
    /// machine word, so it comes as a wider number.
    pub fn distance_boost(&self) -> (boost: u128)
        ensures
            boost == distance_boost(*self),
    {
        match self.distance {
            Some(d) => if d <= self.max_edit_distance {
                (self.max_edit_distance - d) as u128 + 1
            } else {
                0
            },
            None => 1,
        }
    }
}

/// The term for one posting of a related token.
pub open spec fn term_for<T>(
    engine: LocalSearchView<T>,
    related: RelatedToken,
    posting: Posting,
) -> ScoreTerm {
    ScoreTerm {
        doc_id: posting.doc_id,
        occurrences: posting.count,
        token_count: engine.token_counts[posting.doc_id as int] as usize,
        docs_with_token: engine.index.postings[related.position as int].len() as usize,
        total_docs: engine.documents.len() as usize,
        distance: related.data.distance,
        max_edit_distance: engine.max_edit_distance as usize,
        same_prefix: related.data.same_prefix,
    }
}

/// The terms for one related token: one for each document of its posting
/// list, in ascending order of the documents.
pub open spec fn terms_of_related<T>(engine: LocalSearchView<T>, related: RelatedToken) -> Seq<
    ScoreTerm,
> {
    let postings = engine.index.postings[related.position as int];
    Seq::new(postings.len(), |k: int| term_for(engine, related, postings[k]))
}

/// The terms for a list of related tokens, in the order of the list.
pub open spec fn terms_of_list<T>(engine: LocalSearchView<T>, related: Seq<RelatedToken>) -> Seq<
    ScoreTerm,
>
    decreases related.len(),
{
    if related.len() == 0 {
        Seq::empty()
    } else {
        terms_of_list(engine, related.drop_last()) + terms_of_related(engine, related.last())
    }
}

/// The terms for a list of query tokens: for each query token in turn the
/// terms of the tokens related to it. A query token that stands twice in the
/// list gives its terms twice.
pub open spec fn terms_of_tokens<T>(engine: LocalSearchView<T>, tokens: Seq<Seq<char>>) -> Seq<
    ScoreTerm,
>
    decreases tokens.len(),
{
    if tokens.len() == 0 {
        Seq::empty()
    } else {
        terms_of_tokens(engine, tokens.drop_last()) + terms_of_list(
            engine,
            related_of(engine.index, tokens.last(), engine.max_edit_distance),
        )
    }
}

/// A posting list whose documents all lie below `n` has at most `n`
/// entries.
pub proof fn lemma_postings_fit(postings: Seq<Posting>, n: int)
    requires
        postings_ok(postings),
        forall|k: int| 0 <= k < postings.len() ==> (#[trigger] postings[k]).doc_id < n,
    ensures
        postings.len() <= n,
{
    lemma_doc_id_at_least(postings, postings.len() - 1);
}

/// In a posting list the `k`-th entry names a document with an id of at
/// least `k`.
pub proof fn lemma_doc_id_at_least(postings: Seq<Posting>, k: int)
    requires
        postings_ok(postings),
        0 <= k < postings.len(),
    ensures
        postings[k].doc_id >= k,
    decreases k,
{
    if k > 0 {
        lemma_doc_id_at_least(postings, k - 1);
    }
}

} // verus!
