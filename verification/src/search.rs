//! The finished engine: the document store beside the inverted index, and
//! the queries that read them.

use crate::builder::{default_token_lists, LocalSearchBuilder};
use crate::candidates::{group_by_document, groups, terms_of_doc, Candidate};
use crate::error::QueryError;
use crate::index::{
    all_scans_succeed, match_positions, postings_ok, scan_succeeds, Index, IndexView,
};
use crate::rank::{is_ranking, rank, Ranked};
use crate::related::{
    ascending, fuzzy_data, joined, lemma_is_found_upto, lemma_lookup_names, lemma_found_upto,
    lemma_lookup_present, lookup, prefix_data, prefixed_by, related_data, related_of, RelatedToken,
    RelatedTokenData, RelatedTokens,
};
use crate::score::{
    lemma_postings_fit, term_for, term_ok, terms_of_list, terms_of_related, terms_of_tokens,
    ScoreTerm,
};
use crate::token_map::texts;
use crate::tokenizer::{default_tokenizer, default_tokens, Token};
use vstd::prelude::*;

verus! {

/// A bound on the number of edits between a query token and a token of the
/// index.
pub type Distance = usize;

/// The bound on edits where none is chosen.
pub const DEFAULT_MAX_EDIT_DISTANCE: usize = 1;

/// How often `token` occurs in `tokens`.
pub open spec fn occurrences(tokens: Seq<Seq<char>>, token: Seq<char>) -> nat
    decreases tokens.len(),
{
    if tokens.len() == 0 {
        0
    } else {
        occurrences(tokens.drop_last(), token) + if tokens.last() == token {
            1nat
        } else {
            0nat
        }
    }
}

/// A token occurs in a list at most as often as the list is long.
pub proof fn lemma_occurrences_bound(tokens: Seq<Seq<char>>, token: Seq<char>)
    ensures
        occurrences(tokens, token) <= tokens.len(),
    decreases tokens.len(),
{
    if tokens.len() > 0 {
        lemma_occurrences_bound(tokens.drop_last(), token);
    }
}

/// A token that stands in a list occurs in it.
pub proof fn lemma_occurs(tokens: Seq<Seq<char>>, at: int)
    requires
        0 <= at < tokens.len(),
    ensures
        occurrences(tokens, tokens[at]) >= 1,
    decreases tokens.len(),
{
    if at < tokens.len() - 1 {
        lemma_occurs(tokens.drop_last(), at);
    }
}

/// What an engine holds: the documents in the order of their ids, the
/// number of tokens of each, the index, and the bound on edits.
pub struct LocalSearchView<T> {
    pub documents: Seq<T>,
    pub token_counts: Seq<nat>,
    pub index: IndexView,
    pub max_edit_distance: nat,
}

impl<T> LocalSearchView<T> {
    /// The index is well formed, each posting names a stored document and
    /// counts no more occurrences than the document has tokens, and the
    /// numbers fit in a machine word.
    pub open spec fn wf(self) -> bool {
        &&& self.index.wf()
        &&& self.documents.len() == self.token_counts.len()
        &&& self.documents.len() <= usize::MAX
        &&& self.max_edit_distance <= usize::MAX
        &&& forall|d: int|
            0 <= d < self.token_counts.len() ==> #[trigger] self.token_counts[d] <= usize::MAX
        &&& forall|i: int, k: int|
            0 <= i < self.index.postings.len() && 0 <= k < self.index.postings[i].len() ==> {
                let posting = #[trigger] self.index.postings[i][k];
                posting.doc_id < self.documents.len() && posting.count
                    <= self.token_counts[posting.doc_id as int]
            }
    }

    /// The engine indexes documents whose texts gave the token lists
    /// `doc_tokens`: it stores the length of each list, and for every token
    /// and document its index counts the occurrences of the token in the
    /// document's list. So the vocabulary holds the tokens that occur and
    /// no others.
    pub open spec fn describes(self, doc_tokens: Seq<Seq<Seq<char>>>) -> bool {
        &&& self.wf()
        &&& doc_tokens.len() == self.documents.len()
        &&& forall|d: int|
            0 <= d < doc_tokens.len() ==> #[trigger] self.token_counts[d] == doc_tokens[d].len()
        &&& forall|token: Seq<char>, d: int|
            0 <= d < doc_tokens.len() ==> #[trigger] self.index.count(token, d) == occurrences(
                doc_tokens[d],
                token,
            )
    }
}

/// What autocomplete answers for `fragment`: the tokens of the index that
/// start with it, in ascending byte order, as many as `max_results` allows;
/// nothing for the empty fragment.
pub open spec fn completions(index: IndexView, fragment: Seq<char>, max_results: nat) -> Seq<
    Seq<char>,
> {
    if fragment.len() == 0 {
        Seq::empty()
    } else {
        let found = prefixed_by(index, fragment);
        let shown = if found.len() <= max_results {
            found.len()
        } else {
            max_results
        };
        Seq::new(shown, |k: int| index.tokens[found[k].position as int])
    }
}

/// A scorer may be asked for the key of any terms that are in order.
pub open spec fn scores_all<S: Fn(&Vec<ScoreTerm>) -> u64>(scorer: S) -> bool {
    forall|terms: Vec<ScoreTerm>|
        (forall|k: int| 0 <= k < terms.len() ==> term_ok(#[trigger] terms[k]))
            ==> #[trigger] call_requires(scorer, (&terms,))
}

/// Each candidate stands in `scored` with a key that the scorer gave for
/// its terms.
pub open spec fn scored_by<S: Fn(&Vec<ScoreTerm>) -> u64>(
    scored: Seq<Ranked>,
    candidates: Seq<Candidate>,
    scorer: S,
) -> bool {
    &&& scored.len() == candidates.len()
    &&& forall|i: int|
        0 <= i < scored.len() ==> (#[trigger] scored[i]).doc_id == candidates[i].doc_id
            && call_ensures(scorer, (&candidates[i].terms,), scored[i].key)
}

/// The results show the documents of the ranking, in its order, each with
/// its key.
pub open spec fn shows<T>(results: Seq<(&T, u64)>, ranking: Seq<Ranked>, documents: Seq<T>) -> bool {
    &&& results.len() == ranking.len()
    &&& forall|i: int|
        0 <= i < results.len() ==> (#[trigger] ranking[i]).doc_id < documents.len()
            && *results[i].0 == documents[ranking[i].doc_id as int] && results[i].1
            == ranking[i].key
}

/// The results answer the query tokens: the terms of the tokens are sorted
/// by document, the scorer gives each candidate its key, the candidates are
/// ranked by their keys and cut to `max_results`, and the results show the
/// documents that are left. Where no results are asked for there are none,
/// and the scorer is not asked.
pub open spec fn answers<T, S: Fn(&Vec<ScoreTerm>) -> u64>(
    results: Seq<(&T, u64)>,
    engine: LocalSearchView<T>,
    tokens: Seq<Seq<char>>,
    max_results: nat,
    scorer: S,
) -> bool {
    if max_results == 0 {
        results.len() == 0
    } else {
        exists|candidates: Seq<Candidate>, scored: Seq<Ranked>, ranking: Seq<Ranked>|
            {
                &&& groups(candidates, terms_of_tokens(engine, tokens))
                &&& #[trigger] scored_by(scored, candidates, scorer)
                &&& #[trigger] is_ranking(ranking, scored, max_results)
                &&& shows(results, ranking, engine.documents)
            }
    }
}

/// Each of the terms of a document is one of the terms.
pub proof fn lemma_terms_of_doc_are_terms(terms: Seq<ScoreTerm>, doc: int, k: int) -> (at: int)
    requires
        0 <= k < terms_of_doc(terms, doc).len(),
    ensures
        0 <= at < terms.len(),
        terms[at] == terms_of_doc(terms, doc)[k],
        terms[at].doc_id == doc,
    decreases terms.len(),
{
    let before = terms_of_doc(terms.drop_last(), doc);
    if terms.last().doc_id == doc && k == before.len() {
        terms.len() - 1
    } else {
        let at = lemma_terms_of_doc_are_terms(terms.drop_last(), doc, k);
        at
    }
}

/// The engine: the documents with the number of tokens of each, and the
/// index over their tokens. It is built once and never changed.
pub struct LocalSearch<T> {
    documents: Vec<T>,
    token_counts: Vec<usize>,
    max_edit_distance: Distance,
    index: Index,
}

impl<T> View for LocalSearch<T> {
    type V = LocalSearchView<T>;

    closed spec fn view(&self) -> LocalSearchView<T> {
        LocalSearchView {
            documents: self.documents@,
            token_counts: Seq::new(self.token_counts.len() as nat, |d: int| self.token_counts[d] as nat),
            index: self.index@,
            max_edit_distance: self.max_edit_distance as nat,
        }
    }
}

impl<T> LocalSearch<T> {
    #[verifier::type_invariant]
    spec fn inv(self) -> bool {
        self@.wf()
    }

    /// Puts an engine together from its parts.
    pub(crate) fn assemble(
        documents: Vec<T>,
        token_counts: Vec<usize>,
        index: Index,
        max_edit_distance: Distance,
    ) -> (engine: LocalSearch<T>)
        requires
            (LocalSearchView {
                documents: documents@,
                token_counts: Seq::new(token_counts.len() as nat, |d: int| token_counts[d] as nat),
                index: index@,
                max_edit_distance: max_edit_distance as nat,
            }).wf(),
        ensures
            engine@ == (LocalSearchView {
                documents: documents@,
                token_counts: Seq::new(token_counts.len() as nat, |d: int| token_counts[d] as nat),
                index: index@,
                max_edit_distance: max_edit_distance as nat,
            }),
    {
        LocalSearch { documents, token_counts, max_edit_distance, index }
    }

    /// The number of documents.
    pub fn len(&self) -> (len: usize)
        ensures
            len == self@.documents.len(),
            self@.wf(),
    {
        proof {
            use_type_invariant(self);
        }
        self.documents.len()
    }

    /// The document with the id `doc_id`, where there is one.
    pub fn document(&self, doc_id: usize) -> (document: Option<&T>)
        ensures
            doc_id < self@.documents.len() ==> document == Some(&self@.documents[doc_id as int]),
            doc_id >= self@.documents.len() ==> document is None,
    {
        if doc_id < self.documents.len() {
            Some(&self.documents[doc_id])
        } else {
            None
        }
    }

    /// The number of tokens of the document with the id `doc_id`, where
    /// there is such a document.
    pub fn token_count(&self, doc_id: usize) -> (count: Option<usize>)
        ensures
            doc_id < self@.documents.len() ==> count is Some && count->0
                == self@.token_counts[doc_id as int],
            doc_id >= self@.documents.len() ==> count is None,
    {
        proof {
            use_type_invariant(self);
        }
        if doc_id < self.token_counts.len() {
            Some(self.token_counts[doc_id])
        } else {
            None
        }
    }

    /// The inverted index.
    pub fn index(&self) -> (index: &Index)
        ensures
            index@ == self@.index,
    {
        &self.index
    }

    /// The bound on edits that the fuzzy scan applies.
    pub fn max_edit_distance(&self) -> (max: Distance)
        ensures
            max == self@.max_edit_distance,
    {
        self.max_edit_distance
    }

    /// Starts a builder for `documents`, where `texts` holds the text
    /// extracted from each document, in the same order.
    pub fn builder(documents: Vec<T>, texts: Vec<String>) -> (builder: LocalSearchBuilder<T>)
        ensures
            builder.documents() == documents@,
            builder.doc_tokens() == default_token_lists(texts@),
            builder.edit_bound() == DEFAULT_MAX_EDIT_DISTANCE,
    {
        LocalSearchBuilder::new(documents, texts)
    }

    /// The bounded edit-distance scan for `query_token`: each token of the
    /// index within the bound on edits joins the related tokens with its
    /// distance. A token that the related tokens hold already keeps its
    /// prefix flag.
    ///
    /// The scan fails exactly where it asks the automaton and the automaton
    /// cannot be built. The related tokens are then left as they were.
    pub fn add_tokens_in_distance(
        &self,
        query_token: &str,
        related_tokens: &mut RelatedTokens,
    ) -> (added: Result<(), QueryError>)
        ensures
            added is Ok ==> forall|position: int|
                lookup(final(related_tokens)@, position) == joined(
                    lookup(old(related_tokens)@, position),
                    fuzzy_data(self@.index, query_token@, self@.max_edit_distance, position),
                ),
            added matches Err(error) ==> error == QueryError::AutomatonTooLarge
                && final(related_tokens)@ == old(related_tokens)@,
            added is Ok <==> scan_succeeds(query_token@, self@.max_edit_distance),
    {
        match self.index.tokens_in_distance(query_token, self.max_edit_distance) {
            Err(error) => Err(error),
            Ok(matches) => {
                let ghost index = self.index@;
                let ghost max = self.max_edit_distance as nat;
                let len = self.index.len();
                let mut found: Vec<RelatedToken> = Vec::new();
                let mut k: usize = 0;
                while k < matches.len()
                    invariant
                        k <= matches.len(),
                        found.len() == k,
                        forall|l: int|
                            0 <= l < k ==> (#[trigger] found[l]) == (RelatedToken {
                                position: matches[l].0,
                                data: RelatedTokenData {
                                    distance: Some(matches[l].1),
                                    same_prefix: false,
                                },
                            }),
                    decreases matches.len() - k,
                {
                    found.push(
                        RelatedToken {
                            position: matches[k].0,
                            data: RelatedTokenData {
                                distance: Some(matches[k].1),
                                same_prefix: false,
                            },
                        },
                    );
                    k += 1;
                }
                proof {
                    let positions = match_positions(matches@);
                    assert forall|i: int, j: int| 0 <= i < j < found.len() implies (
                    #[trigger] found[i]).position < (#[trigger] found[j]).position by {
                        assert(positions[i] == matches[i].0);
                        assert(positions[j] == matches[j].0);
                    }
                    assert forall|position: int|
                        lookup(found@, position) == fuzzy_data(
                            index,
                            query_token@,
                            max,
                            position,
                        ) by {
                        if lookup(found@, position) is Some {
                            let l = lemma_lookup_names(found@, position);
                            assert(positions[l] == matches[l].0);
                        } else if 0 <= position < index.tokens.len() && index.in_distance(
                            position,
                            query_token@,
                            max,
                        ) {
                            let l = choose|l: int|
                                0 <= l < positions.len() && positions[l] == position as usize;
                            lemma_lookup_present(found@, l);
                        }
                    }
                }
                related_tokens.join(&found);
                Ok(())
            },
        }
    }

    /// The prefix scan for `query_token`: each token of the index that
    /// starts with it joins the related tokens with the prefix flag. A
    /// token that the related tokens hold already keeps its distance.
    pub fn add_tokens_with_prefix(&self, query_token: &str, related_tokens: &mut RelatedTokens)
        ensures
            ascending(final(related_tokens)@),
            forall|position: int|
                lookup(final(related_tokens)@, position) == joined(
                    lookup(old(related_tokens)@, position),
                    prefix_data(self@.index, query_token@, position),
                ),
    {
        let positions = self.index.tokens_with_prefix(query_token);
        let ghost index = self.index@;
        let len = self.index.len();
        let mut found: Vec<RelatedToken> = Vec::new();
        let mut k: usize = 0;
        while k < positions.len()
            invariant
                k <= positions.len(),
                found.len() == k,
                forall|l: int|
                    0 <= l < k ==> (#[trigger] found[l]) == (RelatedToken {
                        position: positions[l],
                        data: RelatedTokenData { distance: None, same_prefix: true },
                    }),
            decreases positions.len() - k,
        {
            found.push(
                RelatedToken {
                    position: positions[k],
                    data: RelatedTokenData { distance: None, same_prefix: true },
                },
            );
            k += 1;
        }
        proof {
            assert forall|position: int|
                lookup(found@, position) == prefix_data(index, query_token@, position) by {
                if lookup(found@, position) is Some {
                    let l = lemma_lookup_names(found@, position);
                } else if 0 <= position < index.tokens.len() && index.has_prefix(
                    position,
                    query_token@,
                ) {
                    let l = choose|l: int|
                        0 <= l < positions.len() && positions[l] == position as usize;
                    lemma_lookup_present(found@, l);
                }
            }
        }
        related_tokens.join(&found);
    }

    /// The tokens of the index that are related to `query_token`: the
    /// bounded edit-distance scan and the prefix scan, merged.
    pub fn related_tokens(&self, query_token: &str) -> (related: Result<RelatedTokens, QueryError>)
        ensures
            related matches Ok(found) ==> found@ == related_of(
                self@.index,
                query_token@,
                self@.max_edit_distance,
            ),
            related matches Err(error) ==> error == QueryError::AutomatonTooLarge,
            related is Ok <==> scan_succeeds(query_token@, self@.max_edit_distance),
    {
        let mut related_tokens = RelatedTokens::new();
        match self.add_tokens_in_distance(query_token, &mut related_tokens) {
            Err(error) => Err(error),
            Ok(()) => {
                self.add_tokens_with_prefix(query_token, &mut related_tokens);
                let len = self.index.len();
                proof {
                    let index = self.index@;
                    let max = self@.max_edit_distance;
                    let data = |position: int| related_data(index, query_token@, max, position);
                    lemma_is_found_upto(related_tokens@, data, len as nat);
                }
                Ok(related_tokens)
            },
        }
    }

    /// The terms for one related token: one for each document whose text
    /// holds the token. A position past the vocabulary gives no term.
    pub fn search_exact(&self, related: RelatedToken) -> (terms: Vec<ScoreTerm>)
        ensures
            related.position < self@.index.tokens.len() ==> terms@ == terms_of_related(
                self@,
                related,
            ),
            related.position >= self@.index.tokens.len() ==> terms@.len() == 0,
            (related.data.distance matches Some(d) ==> d <= self@.max_edit_distance) ==> forall|
                k: int,
            | 0 <= k < terms.len() ==> term_ok(#[trigger] terms[k]),
            forall|k: int|
                0 <= k < terms.len() ==> (#[trigger] terms[k]).total_docs
                    == self@.documents.len(),
    {
        proof {
            use_type_invariant(self);
        }
        let mut terms: Vec<ScoreTerm> = Vec::new();
        if related.position >= self.index.len() {
            return terms;
        }
        let postings = self.index.postings(related.position);
        let total_docs = self.documents.len();
        proof {
            lemma_postings_fit(postings@, total_docs as int);
        }
        let mut k: usize = 0;
        while k < postings.len()
            invariant
                k <= postings.len(),
                self@.wf(),
                related.position < self@.index.tokens.len(),
                postings@ == self@.index.postings[related.position as int],
                postings_ok(postings@),
                postings.len() <= total_docs,
                total_docs == self.documents.len(),
                self.documents.len() == self.token_counts.len(),
                terms.len() == k,
                forall|l: int|
                    0 <= l < k ==> (#[trigger] terms[l]) == term_for(self@, related, postings[l]),
            decreases postings.len() - k,
        {
            let posting = postings[k];
            terms.push(
                ScoreTerm {
                    doc_id: posting.doc_id,
                    occurrences: posting.count,
                    token_count: self.token_counts[posting.doc_id],
                    docs_with_token: postings.len(),
                    total_docs,
                    distance: related.data.distance,
                    max_edit_distance: self.max_edit_distance,
                    same_prefix: related.data.same_prefix,
                },
            );
            k += 1;
        }
        terms
    }

    /// The terms for a list of query tokens: for each query token in turn
    /// the tokens related to it are found, and each gives its terms. Here
    /// the caller has tokenized the query.
    ///
    /// The call fails exactly where the scan for one of the tokens fails.
    pub fn score_terms_of(&self, tokens: &Vec<Token>) -> (scored: Result<Vec<ScoreTerm>, QueryError>)
        ensures
            scored matches Ok(terms) ==> terms@ == terms_of_tokens(self@, texts(tokens@))
                && forall|k: int|
                0 <= k < terms.len() ==> term_ok(#[trigger] terms[k]) && terms[k].total_docs
                    == self@.documents.len(),
            scored matches Err(error) ==> error == QueryError::AutomatonTooLarge,
            scored is Ok <==> all_scans_succeed(texts(tokens@), self@.max_edit_distance),
    {
        let ghost query = texts(tokens@);
        let mut terms: Vec<ScoreTerm> = Vec::new();
        let mut i: usize = 0;
        while i < tokens.len()
            invariant
                i <= tokens.len(),
                query == texts(tokens@),
                terms@ == terms_of_tokens(self@, query.take(i as int)),
                forall|k: int|
                    0 <= k < terms.len() ==> term_ok(#[trigger] terms[k]) && terms[k].total_docs
                        == self@.documents.len(),
                forall|k: int|
                    0 <= k < i ==> scan_succeeds(#[trigger] query[k], self@.max_edit_distance),
            decreases tokens.len() - i,
        {
            let related = match self.related_tokens(tokens[i].as_str()) {
                Err(error) => {
                    assert(!scan_succeeds(query[i as int], self@.max_edit_distance));
                    return Err(error);
                },
                Ok(related) => related,
            };
            let entries = related.entries();
            let ghost list = entries@;
            let ghost before = terms@;
            let len = self.index.len();
            proof {
                assert(query.take(i + 1).drop_last() == query.take(i as int));
                lemma_found_upto(
                    |position: int|
                        related_data(
                            self@.index,
                            tokens[i as int]@,
                            self@.max_edit_distance,
                            position,
                        ),
                    len as nat,
                );
                assert forall|l: int| 0 <= l < list.len() implies ((
                #[trigger] list[l]).data.distance matches Some(d) ==> d
                    <= self@.max_edit_distance) by {
                    lemma_lookup_present(list, l);
                }
            }
            let mut r: usize = 0;
            while r < entries.len()
                invariant
                    r <= entries.len(),
                    list == entries@,
                    len == self@.index.tokens.len(),
                    forall|l: int| 0 <= l < list.len() ==> (#[trigger] list[l]).position < len,
                    forall|l: int|
                        0 <= l < list.len() ==> ((#[trigger] list[l]).data.distance matches Some(d)
                            ==> d <= self@.max_edit_distance),
                    terms@ == before + terms_of_list(self@, list.take(r as int)),
                    forall|k: int|
                        0 <= k < terms.len() ==> term_ok(#[trigger] terms[k]) && terms[k].total_docs
                            == self@.documents.len(),
                decreases entries.len() - r,
            {
                let mut more = self.search_exact(entries[r]);
                proof {
                    assert(list.take(r + 1).drop_last() == list.take(r as int));
                }
                terms.append(&mut more);
                r += 1;
            }
            proof {
                assert(list.take(list.len() as int) == list);
            }
            i += 1;
        }
        proof {
            assert(query.take(tokens.len() as int) == query);
        }
        Ok(terms)
    }

    /// The terms for `query` under the default tokenizer.
    pub fn score_terms(&self, query: &str) -> (scored: Result<Vec<ScoreTerm>, QueryError>)
        ensures
            scored matches Ok(terms) ==> terms@ == terms_of_tokens(self@, default_tokens(query@))
                && forall|k: int|
                0 <= k < terms.len() ==> term_ok(#[trigger] terms[k]) && terms[k].total_docs
                    == self@.documents.len(),
            scored matches Err(error) ==> error == QueryError::AutomatonTooLarge,
            scored is Ok <==> all_scans_succeed(default_tokens(query@), self@.max_edit_distance),
    {
        let tokens = default_tokenizer(query);
        self.score_terms_of(&tokens)
    }

    /// Completes a token fragment: the tokens of the index that start with
    /// `query_token`, in ascending byte order, at most `max_results` of
    /// them. The empty fragment is completed by nothing.
    pub fn autocomplete(&self, query_token: &str, max_results: usize) -> (tokens: Vec<String>)
        ensures
            texts(tokens@) == completions(self@.index, query_token@, max_results as nat),
    {
        let mut tokens: Vec<String> = Vec::new();
        if query_token.is_empty() {
            return tokens;
        }
        let mut related_tokens = RelatedTokens::new();
        self.add_tokens_with_prefix(query_token, &mut related_tokens);
        let len = self.index.len();
        let entries = related_tokens.entries();
        let ghost found = prefixed_by(self@.index, query_token@);
        proof {
            let index = self@.index;
            let data = |position: int| prefix_data(index, query_token@, position);
            lemma_is_found_upto(related_tokens@, data, len as nat);
            lemma_found_upto(data, len as nat);
        }
        let shown = if entries.len() <= max_results {
            entries.len()
        } else {
            max_results
        };
        let mut k: usize = 0;
        while k < shown
            invariant
                k <= shown <= entries.len(),
                entries@ == found,
                len == self@.index.tokens.len(),
                forall|l: int| 0 <= l < found.len() ==> (#[trigger] found[l]).position < len,
                tokens.len() == k,
                forall|l: int|
                    0 <= l < k ==> (#[trigger] tokens[l])@
                        == self@.index.tokens[found[l].position as int],
            decreases shown - k,
        {
            let token = self.index.token(entries[k].position).clone();
            tokens.push(token);
            k += 1;
        }
        tokens
    }

    /// Answers a query whose tokens the caller has made: finds the terms of
    /// the tokens, sorts them by document, asks `scorer` for the key of
    /// each candidate, ranks the candidates and shows the first
    /// `max_results`.
    ///
    /// A key is an unsigned number that orders as the score does; the
    /// scorer makes it from the terms of one document. The engine holds no
    /// real numbers, so the formula is the scorer's.
    ///
    /// Where no results are asked for, the answer is the empty list and
    /// nothing is scanned. Otherwise the search fails with
    /// `AutomatonTooLarge` exactly where the scan for one of the tokens
    /// fails.
    pub fn search_tokens<S: Fn(&Vec<ScoreTerm>) -> u64>(
        &self,
        tokens: &Vec<Token>,
        max_results: usize,
        scorer: S,
    ) -> (found: Result<Vec<(&T, u64)>, QueryError>)
        requires
            scores_all(scorer),
        ensures
            found matches Ok(results) ==> answers(
                results@,
                self@,
                texts(tokens@),
                max_results as nat,
                scorer,
            ),
            found matches Err(error) ==> error == QueryError::AutomatonTooLarge,
            found is Ok <==> max_results == 0 || all_scans_succeed(
                texts(tokens@),
                self@.max_edit_distance,
            ),
    {
        if max_results == 0 {
            return Ok(Vec::new());
        }
        let terms = match self.score_terms_of(tokens) {
            Err(error) => { return Err(error); },
            Ok(terms) => terms,
        };
        let total_docs = self.documents.len();
        let candidates = group_by_document(&terms, total_docs);
        let mut scored: Vec<Ranked> = Vec::new();
        let mut c: usize = 0;
        while c < candidates.len()
            invariant
                c <= candidates.len(),
                scores_all(scorer),
                groups(candidates@, terms@),
                forall|k: int| 0 <= k < terms.len() ==> term_ok(#[trigger] terms[k]),
                scored.len() == c,
                forall|i: int|
                    0 <= i < c ==> (#[trigger] scored[i]).doc_id == candidates[i].doc_id
                        && call_ensures(scorer, (&candidates[i].terms,), scored[i].key),
            decreases candidates.len() - c,
        {
            let candidate = &candidates[c];
            proof {
                assert forall|k: int| 0 <= k < candidate.terms.len() implies term_ok(
                    #[trigger] candidate.terms[k],
                ) by {
                    let at = lemma_terms_of_doc_are_terms(terms@, candidate.doc_id as int, k);
                }
            }
            let key = scorer(&candidate.terms);
            scored.push(Ranked { doc_id: candidate.doc_id, key });
            c += 1;
        }
        let ghost keys = scored@;
        let ranking = rank(scored, max_results);
        let mut results: Vec<(&T, u64)> = Vec::new();
        let mut i: usize = 0;
        while i < ranking.len()
            invariant
                i <= ranking.len(),
                total_docs == self.documents.len(),
                is_ranking(ranking@, keys, max_results as nat),
                scored_by(keys, candidates@, scorer),
                groups(candidates@, terms@),
                forall|k: int| 0 <= k < terms.len() ==> (#[trigger] terms[k]).doc_id < total_docs,
                results.len() == i,
                forall|l: int|
                    0 <= l < i ==> (#[trigger] ranking[l]).doc_id < total_docs && *results[l].0
                        == self@.documents[ranking[l].doc_id as int] && results[l].1
                        == ranking[l].key,
            decreases ranking.len() - i,
        {
            let ranked = ranking[i];
            proof {
                let at = choose|at: int| 0 <= at < keys.len() && keys[at] == ranked;
                let named = lemma_terms_of_doc_are_terms(terms@, candidates[at].doc_id as int, 0);
            }
            results.push((&self.documents[ranked.doc_id], ranked.key));
            i += 1;
        }
        Ok(results)
    }

    /// Answers `query` under the default tokenizer: the documents that the
    /// query matches, best first, at most `max_results` of them, each with
    /// the key that `scorer` gave it. Documents with equal keys come in
    /// ascending order of their ids.
    pub fn search<S: Fn(&Vec<ScoreTerm>) -> u64>(
        &self,
        query: &str,
        max_results: usize,
        scorer: S,
    ) -> (found: Result<Vec<(&T, u64)>, QueryError>)
        requires
            scores_all(scorer),
        ensures
            found matches Ok(results) ==> answers(
                results@,
                self@,
                default_tokens(query@),
                max_results as nat,
                scorer,
            ),
            found matches Err(error) ==> error == QueryError::AutomatonTooLarge,
            found is Ok <==> max_results == 0 || all_scans_succeed(
                default_tokens(query@),
                self@.max_edit_distance,
            ),
    {
        let tokens = default_tokenizer(query);
        self.search_tokens(&tokens, max_results, scorer)
    }

    /// Completes the last token of a query that is being typed, under the
    /// default tokenizer. A query without tokens is completed by nothing.
    pub fn complete_query(&self, query: &str, max_results: usize) -> (tokens: Vec<String>)
        ensures
            texts(tokens@) == if default_tokens(query@).len() == 0 {
                Seq::<Seq<char>>::empty()
            } else {
                completions(self@.index, default_tokens(query@).last(), max_results as nat)
            },
    {
        let query_tokens = default_tokenizer(query);
        if query_tokens.len() == 0 {
            let tokens: Vec<String> = Vec::new();
            tokens
        } else {
            let last = &query_tokens[query_tokens.len() - 1];
            self.autocomplete(last.as_str(), max_results)
        }
    }
}

} // verus!
