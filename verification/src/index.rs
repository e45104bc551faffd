//! The inverted index: the vocabulary in ascending byte order, the posting
//! list of each token, and the sorted-token automaton over the vocabulary.

use crate::error::{BuildError, QueryError};
use crate::levenshtein::{chars_of, distance, edit_distance};
use crate::order::is_prefix;
use crate::token_map::{
    automaton_fits, build_map, finds_all_within, found_in_order, found_key, fuzzy_scan,
    map_entries, maps_positions, prefix_scan, strictly_ascending, texts, token_bytes,
};
use fst::automaton::LevenshteinError;
use vstd::prelude::*;
use vstd::utf8::is_ascii_chars;

verus! {

/// One entry of a posting list: a document and how often the token occurs
/// in its text.
#[derive(Clone, Copy, PartialEq, Eq, Structural, Debug)]
pub struct Posting {
    pub doc_id: usize,
    pub count: usize,
}

/// A posting list is never empty, names each document once, in ascending
/// order, and counts at least one occurrence for each.
pub open spec fn postings_ok(postings: Seq<Posting>) -> bool {
    &&& postings.len() > 0
    &&& forall|i: int| 0 <= i < postings.len() ==> (#[trigger] postings[i]).count >= 1
    &&& forall|i: int, j: int|
        0 <= i < j < postings.len() ==> (#[trigger] postings[i]).doc_id < (
        #[trigger] postings[j]).doc_id
}

/// How often the list counts the token for document `doc`: zero where the
/// list does not name the document.
pub open spec fn count_for(postings: Seq<Posting>, doc: int) -> nat
    decreases postings.len(),
{
    if postings.len() == 0 {
        0
    } else if postings.last().doc_id == doc {
        postings.last().count as nat
    } else {
        count_for(postings.drop_last(), doc)
    }
}

/// What an index holds.
pub struct IndexView {
    pub tokens: Seq<Seq<char>>,
    pub postings: Seq<Seq<Posting>>,
}

impl IndexView {
    /// Each token has its posting list, the tokens come in strictly
    /// ascending byte order, each posting list is in order, and a position
    /// fits in a machine word.
    pub open spec fn wf(self) -> bool {
        &&& self.tokens.len() == self.postings.len()
        &&& self.tokens.len() <= usize::MAX
        &&& strictly_ascending(self.tokens)
        &&& forall|i: int| 0 <= i < self.postings.len() ==> postings_ok(#[trigger] self.postings[i])
    }

    /// How often the index counts `token` for document `doc`: zero where the
    /// vocabulary lacks the token or its posting list does not name the
    /// document.
    pub open spec fn count(self, token: Seq<char>, doc: int) -> nat {
        if self.tokens.contains(token) {
            count_for(self.postings[self.tokens.index_of(token)], doc)
        } else {
            0
        }
    }

    /// No posting list names a document past `doc`.
    pub open spec fn docs_up_to(self, doc: int) -> bool {
        forall|i: int, k: int|
            0 <= i < self.postings.len() && 0 <= k < self.postings[i].len() ==> (
            #[trigger] self.postings[i][k]).doc_id <= doc
    }

    /// The token at `position` starts with `prefix`, byte for byte.
    pub open spec fn has_prefix(self, position: int, prefix: Seq<char>) -> bool {
        is_prefix(token_bytes(prefix), token_bytes(self.tokens[position]))
    }

    /// The token at `position` lies within `max` edits of `query`.
    pub open spec fn in_distance(self, position: int, query: Seq<char>, max: nat) -> bool {
        edit_distance(query, self.tokens[position]) <= max
    }
}

/// Two tokens with the same bytes are the same token.
pub proof fn lemma_bytes_tell_tokens(a: Seq<char>, b: Seq<char>)
    requires
        token_bytes(a) == token_bytes(b),
    ensures
        a == b,
{
    vstd::utf8::encode_utf8_decode_utf8(a);
    vstd::utf8::encode_utf8_decode_utf8(b);
}

/// In a well-formed index no two positions hold the same bytes.
pub proof fn lemma_one_position_of_bytes(index: IndexView, i: int, j: int)
    requires
        index.wf(),
        0 <= i < index.tokens.len(),
        0 <= j < index.tokens.len(),
        token_bytes(index.tokens[i]) == token_bytes(index.tokens[j]),
    ensures
        i == j,
{
}

/// In a well-formed index no token stands at two positions.
pub proof fn lemma_one_position(index: IndexView, i: int, j: int)
    requires
        index.wf(),
        0 <= i < index.tokens.len(),
        0 <= j < index.tokens.len(),
        index.tokens[i] == index.tokens[j],
    ensures
        i == j,
{
    lemma_one_position_of_bytes(index, i, j);
}

/// The count of the token at `position` is read off its posting list.
pub proof fn lemma_count_at(index: IndexView, position: int, doc: int)
    requires
        index.wf(),
        0 <= position < index.tokens.len(),
    ensures
        index.count(index.tokens[position], doc) == count_for(index.postings[position], doc),
{
    let token = index.tokens[position];
    lemma_one_position(index, index.tokens.index_of(token), position);
}

/// A list that does not name `doc` counts nothing for it.
pub proof fn lemma_count_absent(postings: Seq<Posting>, doc: int)
    requires
        forall|k: int| 0 <= k < postings.len() ==> (#[trigger] postings[k]).doc_id != doc,
    ensures
        count_for(postings, doc) == 0,
    decreases postings.len(),
{
    if postings.len() > 0 {
        lemma_count_absent(postings.drop_last(), doc);
    }
}

/// A list that names `doc` at `k` counts for it what stands there.
pub proof fn lemma_count_present(postings: Seq<Posting>, k: int)
    requires
        postings_ok(postings),
        0 <= k < postings.len(),
    ensures
        count_for(postings, postings[k].doc_id as int) == postings[k].count,
    decreases postings.len(),
{
    if k < postings.len() - 1 {
        let shorter = postings.drop_last();
        lemma_count_present(shorter, k);
    }
}

/// Whether the bounded edit-distance scan for `query` under the bound `max`
/// succeeds. It can fail only where it asks the automaton, which is for a
/// query of ASCII characters and a bound below `u32::MAX`, and it fails
/// there exactly where the automaton cannot be built.
pub open spec fn scan_succeeds(query: Seq<char>, max: nat) -> bool {
    !is_ascii_chars(query) || max >= u32::MAX || automaton_fits(query, max as u32)
}

/// The scan succeeds for each of the query tokens.
pub open spec fn all_scans_succeed(tokens: Seq<Seq<char>>, max: nat) -> bool {
    forall|i: int| 0 <= i < tokens.len() ==> scan_succeeds(#[trigger] tokens[i], max)
}

/// `positions` are valid positions of a vocabulary of `len` tokens, in
/// strictly ascending order.
pub open spec fn ascending_positions(positions: Seq<usize>, len: nat) -> bool {
    &&& forall|k: int| 0 <= k < positions.len() ==> (#[trigger] positions[k]) < len
    &&& forall|k: int, l: int| 0 <= k < l < positions.len() ==> positions[k] < positions[l]
}

/// The position of each match; a match is a position with a distance.
pub open spec fn match_positions(matches: Seq<(usize, usize)>) -> Seq<usize> {
    Seq::new(matches.len(), |k: int| matches[k].0)
}

/// The matches name positions of the vocabulary in strictly ascending order,
/// each with the distance of its token from `query`, which is at most `max`.
pub open spec fn measured(
    matches: Seq<(usize, usize)>,
    index: IndexView,
    query: Seq<char>,
    max: nat,
) -> bool {
    &&& ascending_positions(match_positions(matches), index.tokens.len())
    &&& forall|k: int|
        0 <= k < matches.len() ==> (#[trigger] matches[k]).1 == edit_distance(
            query,
            index.tokens[matches[k].0 as int],
        ) && matches[k].1 <= max
}

/// No token within `max` edits of `query` is missing from the matches.
pub open spec fn all_in_distance(
    matches: Seq<(usize, usize)>,
    index: IndexView,
    query: Seq<char>,
    max: nat,
) -> bool {
    forall|position: int|
        0 <= position < index.tokens.len() && #[trigger] index.in_distance(position, query, max)
            ==> match_positions(matches).contains(position as usize)
}

/// The inverted index. The automaton maps the bytes of each token to the
/// token's position, at which its posting list stands.
pub struct Index {
    tokens: Vec<String>,
    pairs: Vec<Vec<Posting>>,
    token_and_pair_index_map: fst::Map<Vec<u8>>,
}

impl View for Index {
    type V = IndexView;

    closed spec fn view(&self) -> IndexView {
        IndexView {
            tokens: texts(self.tokens@),
            postings: Seq::new(self.pairs.len() as nat, |i: int| self.pairs[i]@),
        }
    }
}

impl Index {
    #[verifier::type_invariant]
    spec fn inv(self) -> bool {
        &&& self@.wf()
        &&& maps_positions(map_entries(self.token_and_pair_index_map), self@.tokens)
    }

    /// Puts an index together from a vocabulary, its posting lists and the
    /// automaton that was built over the vocabulary, or reports that the
    /// automaton could not be built.
    pub(crate) fn assemble(
        tokens: Vec<String>,
        pairs: Vec<Vec<Posting>>,
        built: Result<fst::Map<Vec<u8>>, fst::Error>,
    ) -> (assembled: Result<Index, BuildError>)
        requires
            tokens.len() == pairs.len(),
            forall|i: int| 0 <= i < pairs.len() ==> postings_ok(#[trigger] pairs[i]@),
            built matches Ok(map) ==> strictly_ascending(texts(tokens@)) && maps_positions(
                map_entries(map),
                texts(tokens@),
            ),
        ensures
            built is Ok <==> assembled is Ok,
            assembled matches Ok(index) ==> {
                &&& index@.wf()
                &&& index@.tokens == texts(tokens@)
                &&& index@.postings == Seq::new(pairs.len() as nat, |i: int| pairs[i]@)
            },
            assembled matches Err(error) ==> error == BuildError::TokenMap,
    {
        match built {
            Ok(map) => Ok(Index { tokens, pairs, token_and_pair_index_map: map }),
            Err(_) => Err(BuildError::TokenMap),
        }
    }

    /// Builds the automaton over `tokens`, giving each token its position
    /// as the value, and puts the index together. The build succeeds
    /// exactly where the tokens are in strictly ascending byte order.
    pub(crate) fn new(tokens: Vec<String>, pairs: Vec<Vec<Posting>>) -> (assembled: Result<
        Index,
        BuildError,
    >)
        requires
            tokens.len() == pairs.len(),
            forall|i: int| 0 <= i < pairs.len() ==> postings_ok(#[trigger] pairs[i]@),
        ensures
            assembled is Ok <==> strictly_ascending(texts(tokens@)),
            assembled matches Ok(index) ==> {
                &&& index@.wf()
                &&& index@.tokens == texts(tokens@)
                &&& index@.postings == Seq::new(pairs.len() as nat, |i: int| pairs[i]@)
            },
            assembled matches Err(error) ==> error == BuildError::TokenMap,
    {
        let mut positions: Vec<u64> = Vec::new();
        let mut position: usize = 0;
        while position < tokens.len()
            invariant
                position <= tokens.len(),
                positions.len() == position,
                forall|i: int| 0 <= i < position ==> positions[i] == i,
            decreases tokens.len() - position,
        {
            positions.push(position as u64);
            position += 1;
        }
        let built = build_map(&tokens, &positions);
        Index::assemble(tokens, pairs, built)
    }

    /// The number of tokens in the vocabulary.
    pub fn len(&self) -> (len: usize)
        ensures
            len == self@.tokens.len(),
            self@.wf(),
    {
        proof {
            use_type_invariant(self);
        }
        self.tokens.len()
    }

    /// The token at `position`.
    pub(crate) fn token(&self, position: usize) -> (token: &String)
        requires
            position < self@.tokens.len(),
        ensures
            token@ == self@.tokens[position as int],
    {
        &self.tokens[position]
    }

    /// The posting list of the token at `position`.
    pub(crate) fn postings(&self, position: usize) -> (postings: &Vec<Posting>)
        requires
            position < self@.tokens.len(),
        ensures
            postings@ == self@.postings[position as int],
            postings_ok(postings@),
    {
        proof {
            use_type_invariant(self);
            assert(postings_ok(self@.postings[position as int]));
        }
        &self.pairs[position]
    }

    /// Turns what a scan of the automaton found into positions of the
    /// vocabulary.
    fn positions_of(&self, found: &Vec<(Vec<u8>, u64)>) -> (positions: Vec<usize>)
        requires
            found_in_order(found@, map_entries(self.token_and_pair_index_map)),
        ensures
            positions.len() == found.len(),
            ascending_positions(positions@, self@.tokens.len()),
            forall|k: int|
                0 <= k < found.len() ==> token_bytes(self@.tokens[positions[k] as int])
                    == #[trigger] found_key(found@, k),
    {
        proof {
            use_type_invariant(self);
        }
        let ghost entries = map_entries(self.token_and_pair_index_map);
        let ghost tokens = self@.tokens;
        let len = self.tokens.len();
        let mut positions: Vec<usize> = Vec::new();
        let mut k: usize = 0;
        while k < found.len()
            invariant
                k <= found.len(),
                len == tokens.len(),
                entries == map_entries(self.token_and_pair_index_map),
                tokens == self@.tokens,
                found_in_order(found@, entries),
                maps_positions(entries, tokens),
                strictly_ascending(tokens),
                positions.len() == k,
                ascending_positions(positions@, tokens.len()),
                forall|l: int|
                    0 <= l < k ==> token_bytes(tokens[positions[l] as int]) == #[trigger] found_key(
                        found@,
                        l,
                    ),
            decreases found.len() - k,
        {
            let value = found[k].1;
            proof {
                let key = found_key(found@, k as int);
                let at = choose|i: int|
                    0 <= i < tokens.len() && #[trigger] token_bytes(tokens[i]) == key;
                if k > 0 {
                    let before = positions[k - 1] as int;
                    assert(token_bytes(tokens[before]) == found_key(found@, k - 1));
                }
            }
            positions.push(value as usize);
            k += 1;
        }
        positions
    }

    /// The prefix scan: the positions of the tokens that start with
    /// `prefix`, in ascending order.
    pub fn tokens_with_prefix(&self, prefix: &str) -> (positions: Vec<usize>)
        ensures
            ascending_positions(positions@, self@.tokens.len()),
            forall|k: int|
                0 <= k < positions.len() ==> self@.has_prefix(
                    (#[trigger] positions[k]) as int,
                    prefix@,
                ),
            forall|position: int|
                0 <= position < self@.tokens.len() && #[trigger] self@.has_prefix(position, prefix@)
                    ==> positions@.contains(position as usize),
    {
        proof {
            use_type_invariant(self);
        }
        let found = prefix_scan(&self.token_and_pair_index_map, prefix);
        let positions = self.positions_of(&found);
        proof {
            assert forall|k: int| 0 <= k < positions.len() implies self@.has_prefix(
                (#[trigger] positions[k]) as int,
                prefix@,
            ) by {
                assert(is_prefix(token_bytes(prefix@), found_key(found@, k)));
            }
        }
        positions
    }

    /// Measures the distance from `query` to the token at each candidate
    /// position and keeps the candidates within `max` edits.
    fn measure(&self, candidates: &Vec<usize>, query: &Vec<char>, max: usize) -> (matches: Vec<
        (usize, usize),
    >)
        requires
            ascending_positions(candidates@, self@.tokens.len()),
        ensures
            measured(matches@, self@, query@, max as nat),
            forall|c: int|
                0 <= c < candidates.len() && self@.in_distance(
                    (#[trigger] candidates[c]) as int,
                    query@,
                    max as nat,
                ) ==> match_positions(matches@).contains(candidates[c]),
    {
        let mut matches: Vec<(usize, usize)> = Vec::new();
        let mut c: usize = 0;
        while c < candidates.len()
            invariant
                c <= candidates.len(),
                ascending_positions(candidates@, self@.tokens.len()),
                measured(matches@, self@, query@, max as nat),
                forall|k: int|
                    0 <= k < matches.len() ==> c > 0 && (#[trigger] matches[k]).0 <= candidates[c
                        - 1],
                forall|b: int|
                    0 <= b < c && self@.in_distance(
                        (#[trigger] candidates[b]) as int,
                        query@,
                        max as nat,
                    ) ==> match_positions(matches@).contains(candidates[b]),
            decreases candidates.len() - c,
        {
            let position = candidates[c];
            let token = chars_of(self.token(position).as_str());
            let d = distance(query, &token);
            if d <= max {
                let ghost before = matches@;
                matches.push((position, d));
                proof {
                    let positions = match_positions(matches@);
                    assert forall|k: int, l: int| 0 <= k < l < positions.len() implies positions[k]
                        < positions[l] by {
                        assert(match_positions(before)[k] == before[k].0);
                        if l < before.len() {
                            assert(match_positions(before)[l] == before[l].0);
                        }
                    }
                    assert forall|b: int|
                        0 <= b < c + 1 && self@.in_distance(
                            (#[trigger] candidates[b]) as int,
                            query@,
                            max as nat,
                        ) implies positions.contains(candidates[b]) by {
                        if b < c {
                            let k = choose|k: int|
                                0 <= k < before.len() && match_positions(before)[k] == candidates[b];
                            assert(positions[k] == candidates[b]);
                        } else {
                            assert(positions[before.len() as int] == candidates[b]);
                        }
                    }
                }
            }
            c += 1;
        }
        matches
    }

    /// The bounded edit-distance scan over what the automaton found for
    /// `query`, or the report that the automaton could not be built.
    fn matches_of_scan(
        &self,
        query: &str,
        max: usize,
        scanned: Result<Vec<(Vec<u8>, u64)>, LevenshteinError>,
    ) -> (matches: Result<Vec<(usize, usize)>, QueryError>)
        requires
            scanned matches Ok(found) ==> found_in_order(
                found@,
                map_entries(self.token_and_pair_index_map),
            ) && finds_all_within(
                found@,
                map_entries(self.token_and_pair_index_map),
                query@,
                max as nat,
            ),
        ensures
            matches is Ok <==> scanned is Ok,
            matches matches Ok(found) ==> measured(found@, self@, query@, max as nat)
                && all_in_distance(found@, self@, query@, max as nat),
            matches matches Err(error) ==> error == QueryError::AutomatonTooLarge,
    {
        proof {
            use_type_invariant(self);
        }
        match scanned {
            Err(_) => Err(QueryError::AutomatonTooLarge),
            Ok(found) => {
                let candidates = self.positions_of(&found);
                let query_chars = chars_of(query);
                let matches = self.measure(&candidates, &query_chars, max);
                proof {
                    assert forall|position: int|
                        0 <= position < self@.tokens.len() && #[trigger] self@.in_distance(
                            position,
                            query@,
                            max as nat,
                        ) implies match_positions(matches@).contains(position as usize) by {
                        let token = self@.tokens[position];
                        let k = choose|k: int|
                            0 <= k < found.len() && #[trigger] found_key(found@, k) == token_bytes(
                                token,
                            );
                    }
                }
                Ok(matches)
            },
        }
    }

    /// The bounded edit-distance scan: the positions of the tokens within
    /// `max` edits of `query`, in ascending order, each with its distance.
    ///
    /// The automaton is asked where it is known to find every such token:
    /// for a query of ASCII characters and a bound below `u32::MAX`. The
    /// scan fails there with `AutomatonTooLarge` exactly where the
    /// automaton cannot be built. For any other query each token of the
    /// vocabulary is measured, and the scan cannot fail.
    pub fn tokens_in_distance(&self, query: &str, max: usize) -> (matches: Result<
        Vec<(usize, usize)>,
        QueryError,
    >)
        ensures
            matches matches Ok(found) ==> measured(found@, self@, query@, max as nat)
                && all_in_distance(found@, self@, query@, max as nat),
            matches matches Err(error) ==> error == QueryError::AutomatonTooLarge,
            matches is Ok <==> scan_succeeds(query@, max as nat),
    {
        if query.is_ascii() && max < u32::MAX as usize {
            let scanned = fuzzy_scan(&self.token_and_pair_index_map, query, max as u32);
            self.matches_of_scan(query, max, scanned)
        } else {
            let len = self.len();
            let mut candidates: Vec<usize> = Vec::new();
            let mut position: usize = 0;
            while position < len
                invariant
                    position <= len,
                    len == self@.tokens.len(),
                    candidates.len() == position,
                    forall|k: int| 0 <= k < position ==> candidates[k] == k,
                decreases len - position,
            {
                candidates.push(position);
                position += 1;
            }
            let query_chars = chars_of(query);
            let matches = self.measure(&candidates, &query_chars, max);
            proof {
                assert forall|position: int|
                    0 <= position < self@.tokens.len() && #[trigger] self@.in_distance(
                        position,
                        query@,
                        max as nat,
                    ) implies match_positions(matches@).contains(position as usize) by {
                    assert(candidates[position] == position);
                }
            }
            Ok(matches)
        }
    }

}

} // verus!
