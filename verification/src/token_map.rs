//! The sorted-token automaton: a finite state transducer that maps the bytes
//! of each token to the token's position in the index. The transducer is
//! built and searched by the `fst` crate; this module states what the rest of
//! the engine relies on.

use crate::levenshtein::edit_distance;
use crate::order::{bytes_lt, is_prefix};
use fst::automaton::{Levenshtein, LevenshteinError, Str};
use fst::{Automaton, IntoStreamer};
use vstd::prelude::*;
use vstd::utf8::*;

verus! {

/// `fst::Map`: the transducer. Nothing of its inside is known here.
#[verifier::external_type_specification]
#[verifier::external_body]
#[verifier::reject_recursive_types(D)]
pub struct ExTokenMap<D>(fst::Map<D>);

/// `fst::Error`: why a transducer could not be built.
#[verifier::external_type_specification]
#[verifier::external_body]
pub struct ExTokenMapError(fst::Error);

/// `fst::automaton::LevenshteinError`: why an automaton could not be
/// built.
#[verifier::external_type_specification]
#[verifier::external_body]
pub struct ExLevenshteinError(LevenshteinError);

/// The keys that a transducer holds, each with its value.
pub uninterp spec fn map_entries(map: fst::Map<Vec<u8>>) -> Map<Seq<u8>, u64>;

/// The bytes under which a token is stored: its UTF-8 encoding.
pub open spec fn token_bytes(token: Seq<char>) -> Seq<u8> {
    encode_utf8(token)
}

/// The characters of each string.
pub open spec fn texts(strings: Seq<String>) -> Seq<Seq<char>> {
    Seq::new(strings.len(), |i: int| strings[i]@)
}

/// The tokens come in strictly ascending byte order.
pub open spec fn strictly_ascending(tokens: Seq<Seq<char>>) -> bool {
    forall|i: int, j: int|
        0 <= i < j < tokens.len() ==> bytes_lt(
            #[trigger] token_bytes(tokens[i]),
            #[trigger] token_bytes(tokens[j]),
        )
}

/// `entries` holds exactly the bytes of each token, with the value that
/// stands at the token's place in `values`.
pub open spec fn maps_values(
    entries: Map<Seq<u8>, u64>,
    tokens: Seq<Seq<char>>,
    values: Seq<u64>,
) -> bool {
    &&& forall|i: int|
        0 <= i < tokens.len() ==> entries.contains_key(#[trigger] token_bytes(tokens[i]))
            && entries[token_bytes(tokens[i])] == values[i]
    &&& forall|key: Seq<u8>| #[trigger]
        entries.contains_key(key) ==> exists|i: int|
            0 <= i < tokens.len() && #[trigger] token_bytes(tokens[i]) == key
}

/// `entries` holds exactly the bytes of each token, with the token's
/// position as the value.
pub open spec fn maps_positions(entries: Map<Seq<u8>, u64>, tokens: Seq<Seq<char>>) -> bool {
    &&& forall|i: int|
        0 <= i < tokens.len() ==> entries.contains_key(#[trigger] token_bytes(tokens[i]))
            && entries[token_bytes(tokens[i])] == i
    &&& forall|key: Seq<u8>| #[trigger]
        entries.contains_key(key) ==> exists|i: int|
            0 <= i < tokens.len() && #[trigger] token_bytes(tokens[i]) == key
}

/// Whether `fst::automaton::Levenshtein::new` builds the automaton for
/// `query` and `distance`: whether the automaton stays within the crate's
/// limit on states.
pub uninterp spec fn automaton_fits(query: Seq<char>, distance: u32) -> bool;

/// The key of the `i`-th item that a scan found.
pub open spec fn found_key(found: Seq<(Vec<u8>, u64)>, i: int) -> Seq<u8> {
    found[i].0@
}

/// Every item of `found` is an entry of `entries`, and the items come in
/// strictly ascending key order.
pub open spec fn found_in_order(found: Seq<(Vec<u8>, u64)>, entries: Map<Seq<u8>, u64>) -> bool {
    &&& forall|i: int|
        0 <= i < found.len() ==> entries.contains_key(#[trigger] found_key(found, i))
            && entries[found_key(found, i)] == found[i].1
    &&& forall|i: int, j: int|
        0 <= i < j < found.len() ==> bytes_lt(
            #[trigger] found_key(found, i),
            #[trigger] found_key(found, j),
        )
}

/// `key` is among the items of `found`.
pub open spec fn finds(found: Seq<(Vec<u8>, u64)>, key: Seq<u8>) -> bool {
    exists|i: int| 0 <= i < found.len() && #[trigger] found_key(found, i) == key
}

/// Each item of `found` has a key that starts with `prefix`.
pub open spec fn all_start_with(found: Seq<(Vec<u8>, u64)>, prefix: Seq<u8>) -> bool {
    forall|i: int| 0 <= i < found.len() ==> is_prefix(prefix, #[trigger] found_key(found, i))
}

/// No entry whose key starts with `prefix` is missing from `found`.
pub open spec fn finds_all_with_prefix(
    found: Seq<(Vec<u8>, u64)>,
    entries: Map<Seq<u8>, u64>,
    prefix: Seq<u8>,
) -> bool {
    forall|key: Seq<u8>| #[trigger]
        entries.contains_key(key) && is_prefix(prefix, key) ==> finds(found, key)
}

/// No entry whose token lies within `distance` edits of `query` is missing
/// from `found`.
pub open spec fn finds_all_within(
    found: Seq<(Vec<u8>, u64)>,
    entries: Map<Seq<u8>, u64>,
    query: Seq<char>,
    distance: nat,
) -> bool {
    forall|token: Seq<char>| #[trigger]
        entries.contains_key(token_bytes(token)) && edit_distance(query, token) <= distance
            ==> finds(found, token_bytes(token))
}

/// Builds the transducer with `fst::Map::from_iter`, handing it each token
/// with the value at its place. The call succeeds exactly where the tokens
/// are in strictly ascending byte order: the builder refuses a key only
/// where it equals or precedes the key before it, and it writes to memory.
/// The map then holds each token's bytes with its value and nothing else.
#[verifier::external_body]
pub(crate) fn build_map(tokens: &Vec<String>, values: &Vec<u64>) -> (built: Result<
    fst::Map<Vec<u8>>,
    fst::Error,
>)
    requires
        tokens.len() == values.len(),
    ensures
        built is Ok <==> strictly_ascending(texts(tokens@)),
        built matches Ok(map) ==> maps_values(map_entries(map), texts(tokens@), values@),
{
    fst::Map::from_iter(tokens.iter().zip(values.iter().copied()))
}

/// Searches the transducer with `fst::automaton::Str::starts_with`, through
/// `fst::Map::search`, and collects the stream with `into_byte_vec`. The
/// result holds the entries whose key starts with the bytes of `prefix`:
/// all of them, no others, in ascending key order.
#[verifier::external_body]
pub(crate) fn prefix_scan(map: &fst::Map<Vec<u8>>, prefix: &str) -> (found: Vec<(Vec<u8>, u64)>)
    ensures
        found_in_order(found@, map_entries(*map)),
        all_start_with(found@, token_bytes(prefix@)),
        finds_all_with_prefix(found@, map_entries(*map), token_bytes(prefix@)),
{
    map.search(Str::new(prefix).starts_with()).into_stream().into_byte_vec()
}

/// Searches the transducer with `fst::automaton::Levenshtein`, through
/// `fst::Map::search`, and collects the stream with `into_byte_vec`. The
/// call succeeds exactly where `Levenshtein::new` builds the automaton, which
/// `automaton_fits` names: the automaton depends on `query` and `distance`
/// alone. Where the call succeeds, the result holds entries of the map in
/// ascending key order, and for a query of ASCII characters none is missing
/// whose token lies within `distance` edits of the query. Nothing is claimed
/// of the distance of the entries found. Nor is anything claimed of what is
/// missing for a query with other characters: there the automaton gives a
/// leading byte that several characters share to one of them alone, and
/// passes over tokens within the distance.
#[verifier::external_body]
pub(crate) fn fuzzy_scan(map: &fst::Map<Vec<u8>>, query: &str, distance: u32) -> (scanned: Result<
    Vec<(Vec<u8>, u64)>,
    LevenshteinError,
>)
    requires
        distance < u32::MAX,
    ensures
        scanned is Ok <==> automaton_fits(query@, distance),
        scanned matches Ok(found) ==> found_in_order(found@, map_entries(*map)),
        scanned matches Ok(found) ==> (is_ascii_chars(query@) ==> finds_all_within(
            found@,
            map_entries(*map),
            query@,
            distance as nat,
        )),
{
    let automaton = Levenshtein::new(query, distance)?;
    Ok(map.search(automaton).into_stream().into_byte_vec())
}

} // verus!
