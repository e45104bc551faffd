//! What holds of every engine, whatever was indexed and whatever is asked.

use crate::candidates::{groups, terms_of_doc, Candidate};
use crate::index::{count_for, postings_ok, IndexView, Posting};
use crate::levenshtein::{edit_distance, lemma_distance_to_self};
use crate::order::{bytes_lt, is_prefix};
use crate::rank::{is_ranking, none_outranks, Ranked};
use crate::related::{
    ascending, fuzzy_data, lemma_found_upto, lemma_lookup_names, lemma_lookup_present, lookup,
    prefix_data, prefixed_by, related_data, related_of, RelatedToken, RelatedTokenData,
};
use crate::score::{
    distance_boost, lemma_postings_fit, term_for, term_ok, terms_of_list, terms_of_related,
    terms_of_tokens, ScoreTerm,
};
use crate::search::{
    answers, completions, lemma_occurs, lemma_terms_of_doc_are_terms, occurrences, scored_by, shows,
    LocalSearchView,
};
use crate::token_map::token_bytes;
use crate::tokenizer::{is_white_space, words};
use vstd::prelude::*;

verus! {

/// A posting list that counts something for a document names the document.
pub proof fn lemma_counted_is_named(postings: Seq<Posting>, doc: int) -> (k: int)
    requires
        count_for(postings, doc) >= 1,
    ensures
        0 <= k < postings.len(),
        postings[k].doc_id == doc,
    decreases postings.len(),
{
    if postings.last().doc_id == doc {
        postings.len() - 1
    } else {
        lemma_counted_is_named(postings.drop_last(), doc)
    }
}

/// The terms of a list of related tokens hold the term of each posting of
/// each of them.
pub proof fn lemma_list_holds_term<T>(
    engine: LocalSearchView<T>,
    related: Seq<RelatedToken>,
    r: int,
    k: int,
)
    requires
        0 <= r < related.len(),
        0 <= k < engine.index.postings[related[r].position as int].len(),
    ensures
        terms_of_list(engine, related).contains(
            term_for(engine, related[r], engine.index.postings[related[r].position as int][k]),
        ),
    decreases related.len(),
{
    let term = term_for(engine, related[r], engine.index.postings[related[r].position as int][k]);
    let front = terms_of_list(engine, related.drop_last());
    let back = terms_of_related(engine, related.last());
    if r == related.len() - 1 {
        assert((front + back)[front.len() + k] == term);
    } else {
        lemma_list_holds_term(engine, related.drop_last(), r, k);
        let at = choose|at: int| 0 <= at < front.len() && front[at] == term;
        assert((front + back)[at] == term);
    }
}

/// The terms of a list of query tokens hold the terms of each of them.
pub proof fn lemma_tokens_hold_term<T>(
    engine: LocalSearchView<T>,
    tokens: Seq<Seq<char>>,
    j: int,
    term: ScoreTerm,
)
    requires
        0 <= j < tokens.len(),
        terms_of_list(
            engine,
            related_of(engine.index, tokens[j], engine.max_edit_distance),
        ).contains(term),
    ensures
        terms_of_tokens(engine, tokens).contains(term),
    decreases tokens.len(),
{
    let front = terms_of_tokens(engine, tokens.drop_last());
    let back = terms_of_list(
        engine,
        related_of(engine.index, tokens.last(), engine.max_edit_distance),
    );
    if j == tokens.len() - 1 {
        let at = choose|at: int| 0 <= at < back.len() && back[at] == term;
        assert((front + back)[front.len() + at] == term);
    } else {
        lemma_tokens_hold_term(engine, tokens.drop_last(), j, term);
        let at = choose|at: int| 0 <= at < front.len() && front[at] == term;
        assert((front + back)[at] == term);
    }
}

/// Exact-match inclusion, before the cut: a query that holds a token of a
/// document's text gives a term for that document, with distance zero and
/// the prefix flag. So a document with at least one token is a candidate
/// for the query that is its own text, whatever the bound on edits.
pub proof fn lemma_exact_match_is_candidate<T>(
    engine: LocalSearchView<T>,
    doc_tokens: Seq<Seq<Seq<char>>>,
    query: Seq<Seq<char>>,
    doc: int,
    i: int,
    j: int,
) -> (term: ScoreTerm)
    requires
        engine.describes(doc_tokens),
        0 <= doc < doc_tokens.len(),
        0 <= i < doc_tokens[doc].len(),
        0 <= j < query.len(),
        query[j] == doc_tokens[doc][i],
    ensures
        terms_of_tokens(engine, query).contains(term),
        term.doc_id == doc,
        term.distance == Some(0usize),
        term.same_prefix,
{
    let index = engine.index;
    let max = engine.max_edit_distance;
    let token = query[j];
    lemma_occurs(doc_tokens[doc], i);
    assert(index.count(token, doc) == occurrences(doc_tokens[doc], token));
    let position = index.tokens.index_of(token);
    let k = lemma_counted_is_named(index.postings[position], doc);
    lemma_distance_to_self(token);
    let data = |p: int| related_data(index, token, max, p);
    assert(is_prefix(token_bytes(token), token_bytes(token))) by {
        assert(token_bytes(token).subrange(0, token_bytes(token).len() as int) =~= token_bytes(
            token,
        ));
    }
    lemma_found_upto(data, index.tokens.len());
    let related = related_of(index, token, max);
    let r = lemma_lookup_names(related, position);
    lemma_list_holds_term(engine, related, r, k);
    let term = term_for(engine, related[r], index.postings[position][k]);
    lemma_tokens_hold_term(engine, query, j, term);
    term
}

/// Zero results: a ranking cut to no results is empty, and so is a
/// completion.
pub proof fn lemma_nothing_asked_nothing_given(
    result: Seq<Ranked>,
    scored: Seq<Ranked>,
    index: IndexView,
    fragment: Seq<char>,
)
    requires
        is_ranking(result, scored, 0),
    ensures
        result.len() == 0,
        completions(index, fragment, 0).len() == 0,
{
}

/// Zero results: a search that is asked for no results shows none.
pub proof fn lemma_search_for_nothing<T, S: Fn(&Vec<ScoreTerm>) -> u64>(
    results: Seq<(&T, u64)>,
    engine: LocalSearchView<T>,
    tokens: Seq<Seq<char>>,
    scorer: S,
)
    requires
        answers(results, engine, tokens, 0, scorer),
    ensures
        results.len() == 0,
{
}

/// The empty query: a search for no tokens shows no results, whatever the
/// engine holds and however many results are asked for.
pub proof fn lemma_empty_query_has_no_results<T, S: Fn(&Vec<ScoreTerm>) -> u64>(
    results: Seq<(&T, u64)>,
    engine: LocalSearchView<T>,
    max_results: nat,
    scorer: S,
)
    requires
        answers(results, engine, Seq::<Seq<char>>::empty(), max_results, scorer),
    ensures
        results.len() == 0,
{
    if max_results > 0 {
        let terms = terms_of_tokens(engine, Seq::<Seq<char>>::empty());
        let (candidates, scored, ranking): (Seq<Candidate>, Seq<Ranked>, Seq<Ranked>) = choose|
            candidates: Seq<Candidate>,
            scored: Seq<Ranked>,
            ranking: Seq<Ranked>,
        |
            {
                &&& groups(candidates, terms)
                &&& #[trigger] scored_by(scored, candidates, scorer)
                &&& #[trigger] is_ranking(ranking, scored, max_results)
                &&& shows(results, ranking, engine.documents)
            };
        if candidates.len() > 0 {
            assert(candidates[0].terms@ == terms_of_doc(terms, candidates[0].doc_id as int));
        }
    }
}

/// The merge rule: of the tokens related to a query token, one that both
/// scans find carries its distance and the prefix flag, one that only the
/// fuzzy scan finds carries its distance without the flag, one that only
/// the prefix scan finds carries the flag without a distance, and a token
/// that neither finds is not among them.
pub proof fn lemma_merge_rule(index: IndexView, query: Seq<char>, max: nat, position: int)
    requires
        index.tokens.len() <= usize::MAX,
        0 <= position < index.tokens.len(),
    ensures
        lookup(related_of(index, query, max), position) == if index.in_distance(
            position,
            query,
            max,
        ) {
            Some(
                RelatedTokenData {
                    distance: Some(edit_distance(query, index.tokens[position]) as usize),
                    same_prefix: index.has_prefix(position, query),
                },
            )
        } else if index.has_prefix(position, query) {
            Some(RelatedTokenData { distance: None, same_prefix: true })
        } else {
            None
        },
{
    lemma_found_upto(|p: int| related_data(index, query, max, p), index.tokens.len());
}

/// Monotonic fuzziness: a token that the fuzzy scan finds under one bound
/// on edits it finds under every larger bound, with the same distance.
pub proof fn lemma_fuzziness_is_monotonic(
    index: IndexView,
    query: Seq<char>,
    smaller: nat,
    larger: nat,
    position: int,
)
    requires
        smaller <= larger,
        fuzzy_data(index, query, smaller, position) is Some,
    ensures
        fuzzy_data(index, query, larger, position) == fuzzy_data(index, query, smaller, position),
{
}

/// The autocomplete invariant: there are at most `max_results`
/// completions, each starts with the fragment, and they come in strictly
/// ascending byte order.
pub proof fn lemma_completions_in_order(index: IndexView, fragment: Seq<char>, max_results: nat)
    requires
        index.wf(),
    ensures
        completions(index, fragment, max_results).len() <= max_results,
        forall|k: int|
            0 <= k < completions(index, fragment, max_results).len() ==> is_prefix(
                token_bytes(fragment),
                token_bytes(#[trigger] completions(index, fragment, max_results)[k]),
            ),
        forall|k: int, l: int|
            0 <= k < l < completions(index, fragment, max_results).len() ==> bytes_lt(
                token_bytes(#[trigger] completions(index, fragment, max_results)[k]),
                token_bytes(#[trigger] completions(index, fragment, max_results)[l]),
            ),
{
    if fragment.len() > 0 {
        let data = |position: int| prefix_data(index, fragment, position);
        let found = prefixed_by(index, fragment);
        let shown = completions(index, fragment, max_results);
        lemma_found_upto(data, index.tokens.len());
        assert forall|k: int| 0 <= k < shown.len() implies is_prefix(
            token_bytes(fragment),
            token_bytes(#[trigger] shown[k]),
        ) by {
            lemma_lookup_present(found, k);
        }
    }
}

/// What keeps a score from being negative: in a term that is in order the
/// term frequency is a fraction of positive numbers that is at most 1, the
/// argument of the logarithm is at least one half, so that the logarithm to
/// base 10 lies above -1 and `1 + tf * idf` above 0, and the distance boost
/// is at least 1. The score is then the product of positive numbers and the
/// prefix boost.
pub proof fn lemma_score_factors(term: ScoreTerm)
    requires
        term_ok(term),
    ensures
        0 < term.occurrences <= term.token_count,
        2 * term.total_docs >= term.docs_with_token + 1,
        distance_boost(term) >= 1,
{
}

/// The division-by-zero guard: an engine counts no occurrence of any token
/// for a document without tokens, so no term names such a document.
pub proof fn lemma_empty_document_is_no_match<T>(
    engine: LocalSearchView<T>,
    doc_tokens: Seq<Seq<Seq<char>>>,
    doc: int,
    related: RelatedToken,
    k: int,
)
    requires
        engine.describes(doc_tokens),
        0 <= doc < doc_tokens.len(),
        doc_tokens[doc].len() == 0,
        0 <= related.position < engine.index.tokens.len(),
        0 <= k < terms_of_related(engine, related).len(),
    ensures
        terms_of_related(engine, related)[k].doc_id != doc,
        engine.token_counts[terms_of_related(engine, related)[k].doc_id as int] >= 1,
{
}

/// In a posting list that names every document below `doc`, and `doc`
/// itself at `k`, at least `doc` entries stand before `k`.
pub proof fn lemma_named_in_turn(postings: Seq<Posting>, doc: int, k: int)
    requires
        postings_ok(postings),
        0 <= k < postings.len(),
        postings[k].doc_id == doc,
        forall|d: int| 0 <= d < doc ==> count_for(postings, d) >= 1,
    ensures
        k >= doc,
    decreases doc,
{
    if doc > 0 {
        let before = lemma_counted_is_named(postings, doc - 1);
        lemma_named_in_turn(postings, doc - 1, before);
    }
}

/// The basis of the IDF of a ubiquitous token: a token that occurs in the
/// text of every document is counted for as many documents as are stored,
/// so the argument of its logarithm is `N / (N + 1)`.
pub proof fn lemma_ubiquitous_token<T>(
    engine: LocalSearchView<T>,
    doc_tokens: Seq<Seq<Seq<char>>>,
    token: Seq<char>,
) -> (position: int)
    requires
        engine.describes(doc_tokens),
        doc_tokens.len() >= 1,
        forall|d: int| 0 <= d < doc_tokens.len() ==> occurrences(#[trigger] doc_tokens[d], token) >= 1,
    ensures
        0 <= position < engine.index.tokens.len(),
        engine.index.tokens[position] == token,
        engine.index.postings[position].len() == engine.documents.len(),
{
    let index = engine.index;
    let n = doc_tokens.len() as int;
    assert(index.count(token, 0) == occurrences(doc_tokens[0], token));
    let position = index.tokens.index_of(token);
    let postings = index.postings[position];
    assert forall|d: int| 0 <= d < n implies count_for(postings, d) >= 1 by {
        assert(index.count(token, d) == occurrences(doc_tokens[d], token));
    }
    let last = lemma_counted_is_named(postings, n - 1);
    lemma_named_in_turn(postings, n - 1, last);
    lemma_postings_fit(postings, n);
    position
}

/// The terms of a list of related tokens name stored documents only.
pub proof fn lemma_list_terms_in_range<T>(engine: LocalSearchView<T>, related: Seq<RelatedToken>)
    requires
        engine.wf(),
        forall|l: int|
            0 <= l < related.len() ==> (#[trigger] related[l]).position
                < engine.index.tokens.len(),
    ensures
        forall|k: int|
            0 <= k < terms_of_list(engine, related).len() ==> (#[trigger] terms_of_list(
                engine,
                related,
            )[k]).doc_id < engine.documents.len(),
    decreases related.len(),
{
    if related.len() > 0 {
        let shorter = related.drop_last();
        lemma_list_terms_in_range(engine, shorter);
    }
}

/// The terms of a list of query tokens name stored documents only.
pub proof fn lemma_terms_in_range<T>(engine: LocalSearchView<T>, tokens: Seq<Seq<char>>)
    requires
        engine.wf(),
    ensures
        forall|k: int|
            0 <= k < terms_of_tokens(engine, tokens).len() ==> (#[trigger] terms_of_tokens(
                engine,
                tokens,
            )[k]).doc_id < engine.documents.len(),
    decreases tokens.len(),
{
    if tokens.len() > 0 {
        lemma_terms_in_range(engine, tokens.drop_last());
        let data = |position: int|
            related_data(engine.index, tokens.last(), engine.max_edit_distance, position);
        lemma_found_upto(data, engine.index.tokens.len());
        lemma_list_terms_in_range(
            engine,
            related_of(engine.index, tokens.last(), engine.max_edit_distance),
        );
    }
}

/// A term that names a document is among the terms of that document.
pub proof fn lemma_named_document_has_terms(terms: Seq<ScoreTerm>, k: int)
    requires
        0 <= k < terms.len(),
    ensures
        terms_of_doc(terms, terms[k].doc_id as int).len() > 0,
    decreases terms.len(),
{
    if k < terms.len() - 1 {
        lemma_named_document_has_terms(terms.drop_last(), k);
    }
}

/// Among candidates with ascending ids the `k`-th has an id of at least
/// `k`.
pub proof fn lemma_candidates_fit(candidates: Seq<Candidate>, k: int)
    requires
        forall|i: int, j: int|
            0 <= i < j < candidates.len() ==> (#[trigger] candidates[i]).doc_id < (
            #[trigger] candidates[j]).doc_id,
        0 <= k < candidates.len(),
    ensures
        candidates[k].doc_id >= k,
    decreases k,
{
    if k > 0 {
        lemma_candidates_fit(candidates, k - 1);
    }
}

/// Exact-match inclusion: where no candidate is cut, a search for a query
/// that holds a token of a document's text shows that document. No
/// candidate is cut where as many results are asked for as documents are
/// stored. Under a smaller number the scorer's keys decide which
/// candidates are left.
pub proof fn lemma_exact_match_is_shown<T, S: Fn(&Vec<ScoreTerm>) -> u64>(
    results: Seq<(&T, u64)>,
    engine: LocalSearchView<T>,
    doc_tokens: Seq<Seq<Seq<char>>>,
    query: Seq<Seq<char>>,
    max_results: nat,
    scorer: S,
    doc: int,
    i: int,
    j: int,
) -> (shown: int)
    requires
        engine.describes(doc_tokens),
        0 <= doc < doc_tokens.len(),
        0 <= i < doc_tokens[doc].len(),
        0 <= j < query.len(),
        query[j] == doc_tokens[doc][i],
        answers(results, engine, query, max_results, scorer),
        max_results >= engine.documents.len(),
    ensures
        0 <= shown < results.len(),
        *results[shown].0 == engine.documents[doc],
{
    let terms = terms_of_tokens(engine, query);
    let (candidates, scored, ranking): (Seq<Candidate>, Seq<Ranked>, Seq<Ranked>) = choose|
        candidates: Seq<Candidate>,
        scored: Seq<Ranked>,
        ranking: Seq<Ranked>,
    |
        {
            &&& groups(candidates, terms)
            &&& #[trigger] scored_by(scored, candidates, scorer)
            &&& #[trigger] is_ranking(ranking, scored, max_results)
            &&& shows(results, ranking, engine.documents)
        };
    let term = lemma_exact_match_is_candidate(engine, doc_tokens, query, doc, i, j);
    let k = choose|k: int| 0 <= k < terms.len() && terms[k] == term;
    lemma_named_document_has_terms(terms, k);
    let c = choose|c: int| 0 <= c < candidates.len() && (#[trigger] candidates[c]).doc_id == doc;
    if candidates.len() > 0 {
        let last = candidates.len() - 1;
        lemma_candidates_fit(candidates, last);
        let at = lemma_terms_of_doc_are_terms(terms, candidates[last].doc_id as int, 0);
        lemma_terms_in_range(engine, query);
    }
    let rest = choose|rest: Seq<Ranked>| #[trigger]
        (ranking + rest).to_multiset() == scored.to_multiset() && none_outranks(rest, ranking);
    vstd::seq_lib::to_multiset_len(ranking + rest);
    vstd::seq_lib::to_multiset_len(scored);
    vstd::seq_lib::to_multiset_contains(scored, scored[c]);
    vstd::seq_lib::to_multiset_contains(ranking, scored[c]);
    let shown = choose|shown: int| 0 <= shown < ranking.len() && ranking[shown] == scored[c];
    shown
}

/// The words of a text: no word is empty or holds a whitespace character,
/// and a text that ends in another character ends in its last word.
pub proof fn lemma_words_hold_no_whitespace(text: Seq<char>)
    ensures
        forall|i: int| 0 <= i < words(text).len() ==> (#[trigger] words(text)[i]).len() > 0,
        forall|i: int, j: int|
            0 <= i < words(text).len() && 0 <= j < words(text)[i].len() ==> !is_white_space(
                #[trigger] words(text)[i][j],
            ),
        text.len() > 0 && !is_white_space(text.last()) ==> words(text).len() > 0 && words(
            text,
        ).last().last() == text.last(),
    decreases text.len(),
{
    if text.len() > 0 {
        let before = words(text.drop_last());
        lemma_words_hold_no_whitespace(text.drop_last());
    }
}

} // verus!
