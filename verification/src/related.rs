//! The tokens of the index that are related to one query token: those
//! within the bound on edits, and those that start with the query token.

use crate::index::IndexView;
use crate::levenshtein::edit_distance;
use vstd::prelude::*;

verus! {

/// How an index token is related to a query token: its edit distance where
/// the fuzzy scan found it, and whether the prefix scan found it.
#[derive(Clone, Copy, Debug)]
pub struct RelatedTokenData {
    pub distance: Option<usize>,
    pub same_prefix: bool,
}

/// A related token, by its position in the vocabulary.
#[derive(Clone, Copy, Debug)]
pub struct RelatedToken {
    pub position: usize,
    pub data: RelatedTokenData,
}

/// The positions come in strictly ascending order.
pub open spec fn ascending(related: Seq<RelatedToken>) -> bool {
    forall|i: int, j: int|
        0 <= i < j < related.len() ==> (#[trigger] related[i]).position < (
        #[trigger] related[j]).position
}

/// What the list holds for the token at `position`, if anything.
pub open spec fn lookup(related: Seq<RelatedToken>, position: int) -> Option<RelatedTokenData>
    decreases related.len(),
{
    if related.len() == 0 {
        None
    } else if related.last().position == position {
        Some(related.last().data)
    } else {
        lookup(related.drop_last(), position)
    }
}

/// What two scans found of one token, put together: a token that both
/// found carries the distance of the one and the prefix flag of the other.
pub open spec fn joined(before: Option<RelatedTokenData>, found: Option<RelatedTokenData>) -> Option<
    RelatedTokenData,
> {
    match (before, found) {
        (None, _) => found,
        (_, None) => before,
        (Some(a), Some(b)) => Some(
            RelatedTokenData {
                distance: if b.distance is Some {
                    b.distance
                } else {
                    a.distance
                },
                same_prefix: a.same_prefix || b.same_prefix,
            },
        ),
    }
}

/// What the fuzzy scan for `query` finds of the token at `position`: its
/// distance, where that is at most `max`.
pub open spec fn fuzzy_data(index: IndexView, query: Seq<char>, max: nat, position: int) -> Option<
    RelatedTokenData,
> {
    if 0 <= position < index.tokens.len() && index.in_distance(position, query, max) {
        Some(
            RelatedTokenData {
                distance: Some(edit_distance(query, index.tokens[position]) as usize),
                same_prefix: false,
            },
        )
    } else {
        None
    }
}

/// What the prefix scan for `query` finds of the token at `position`: the
/// prefix flag, where the token starts with `query`.
pub open spec fn prefix_data(index: IndexView, query: Seq<char>, position: int) -> Option<
    RelatedTokenData,
> {
    if 0 <= position < index.tokens.len() && index.has_prefix(position, query) {
        Some(RelatedTokenData { distance: None, same_prefix: true })
    } else {
        None
    }
}

/// What the two scans for `query` find of the token at `position`.
pub open spec fn related_data(index: IndexView, query: Seq<char>, max: nat, position: int) -> Option<
    RelatedTokenData,
> {
    joined(fuzzy_data(index, query, max, position), prefix_data(index, query, position))
}

/// The positions below `n` for which `data` holds something, in ascending
/// order, each with what `data` holds for it.
pub open spec fn found_upto(data: spec_fn(int) -> Option<RelatedTokenData>, n: nat) -> Seq<
    RelatedToken,
>
    decreases n,
{
    if n == 0 {
        Seq::empty()
    } else {
        let rest = found_upto(data, (n - 1) as nat);
        match data(n - 1) {
            Some(found) => rest.push(RelatedToken { position: (n - 1) as usize, data: found }),
            None => rest,
        }
    }
}

/// The tokens related to `query`: every token within `max` edits of it or
/// starting with it, in ascending order of the positions.
pub open spec fn related_of(index: IndexView, query: Seq<char>, max: nat) -> Seq<RelatedToken> {
    found_upto(|position: int| related_data(index, query, max, position), index.tokens.len())
}

/// The tokens that start with `prefix`, in ascending order of the
/// positions.
pub open spec fn prefixed_by(index: IndexView, prefix: Seq<char>) -> Seq<RelatedToken> {
    found_upto(|position: int| prefix_data(index, prefix, position), index.tokens.len())
}

/// `found_upto` is ascending, names positions below `n` only, and holds
/// for each of them what `data` holds.
pub proof fn lemma_found_upto(data: spec_fn(int) -> Option<RelatedTokenData>, n: nat)
    requires
        n <= usize::MAX,
    ensures
        ascending(found_upto(data, n)),
        forall|k: int|
            0 <= k < found_upto(data, n).len() ==> (#[trigger] found_upto(data, n)[k]).position < n,
        forall|position: int|
            lookup(found_upto(data, n), position) == if 0 <= position < n {
                data(position)
            } else {
                None
            },
    decreases n,
{
    if n > 0 {
        let rest = found_upto(data, (n - 1) as nat);
        lemma_found_upto(data, (n - 1) as nat);
        let all = found_upto(data, n);
        if data(n - 1) is Some {
            assert(all.drop_last() == rest);
        }
        assert forall|position: int|
            lookup(all, position) == if 0 <= position < n {
                data(position)
            } else {
                None
            } by {
            if data(n - 1) is Some && position != n - 1 {
                assert(lookup(all, position) == lookup(rest, position));
            }
        }
    } else {
        assert forall|position: int| lookup(found_upto(data, n), position) is None by {}
    }
}

/// An ascending list that holds for every position below `n` what `data`
/// holds, and nothing for any other, is `found_upto(data, n)`.
pub proof fn lemma_is_found_upto(
    related: Seq<RelatedToken>,
    data: spec_fn(int) -> Option<RelatedTokenData>,
    n: nat,
)
    requires
        n <= usize::MAX,
        ascending(related),
        forall|position: int|
            lookup(related, position) == if 0 <= position < n {
                data(position)
            } else {
                None
            },
    ensures
        related == found_upto(data, n),
{
    lemma_found_upto(data, n);
    lemma_same_lookup_same_list(related, found_upto(data, n));
}

/// A list holds nothing for a position that it does not name.
pub proof fn lemma_lookup_absent(related: Seq<RelatedToken>, position: int)
    requires
        forall|k: int| 0 <= k < related.len() ==> (#[trigger] related[k]).position != position,
    ensures
        lookup(related, position) is None,
    decreases related.len(),
{
    if related.len() > 0 {
        lemma_lookup_absent(related.drop_last(), position);
    }
}

/// An ascending list holds for the position that it names at `k` the data
/// that stand there.
pub proof fn lemma_lookup_present(related: Seq<RelatedToken>, k: int)
    requires
        ascending(related),
        0 <= k < related.len(),
    ensures
        lookup(related, related[k].position as int) == Some(related[k].data),
    decreases related.len(),
{
    if k < related.len() - 1 {
        lemma_lookup_present(related.drop_last(), k);
    }
}

/// Where a list holds something for a position, it names the position.
pub proof fn lemma_lookup_names(related: Seq<RelatedToken>, position: int) -> (k: int)
    requires
        lookup(related, position) is Some,
    ensures
        0 <= k < related.len(),
        related[k].position == position,
        lookup(related, position) == Some(related[k].data),
    decreases related.len(),
{
    if related.last().position == position {
        related.len() - 1
    } else {
        lemma_lookup_names(related.drop_last(), position)
    }
}

/// Two ascending lists that hold the same for every position are the same
/// list.
pub proof fn lemma_same_lookup_same_list(a: Seq<RelatedToken>, b: Seq<RelatedToken>)
    requires
        ascending(a),
        ascending(b),
        forall|position: int| lookup(a, position) == lookup(b, position),
    ensures
        a == b,
    decreases a.len() + b.len(),
{
    if a.len() == 0 {
        if b.len() > 0 {
            lemma_lookup_present(b, 0);
        }
    } else if b.len() == 0 {
        lemma_lookup_present(a, 0);
    } else {
        let x = a.last();
        let y = b.last();
        if x.position < y.position {
            lemma_lookup_names(a, y.position as int);
        } else if y.position < x.position {
            lemma_lookup_names(b, x.position as int);
        }
        let shorter_a = a.drop_last();
        let shorter_b = b.drop_last();
        assert forall|position: int| lookup(shorter_a, position) == lookup(
            shorter_b,
            position,
        ) by {
            if position == x.position {
                lemma_lookup_absent(shorter_a, position);
                lemma_lookup_absent(shorter_b, position);
            } else {
                assert(lookup(a, position) == lookup(shorter_a, position));
            }
        }
        lemma_same_lookup_same_list(shorter_a, shorter_b);
        assert(a =~= shorter_a.push(x));
    }
}

/// The related tokens found so far for one query token, in ascending order
/// of their positions.
pub struct RelatedTokens {
    entries: Vec<RelatedToken>,
}

impl View for RelatedTokens {
    type V = Seq<RelatedToken>;

    closed spec fn view(&self) -> Seq<RelatedToken> {
        self.entries@
    }
}

impl RelatedTokens {
    #[verifier::type_invariant]
    spec fn inv(self) -> bool {
        ascending(self@)
    }

    /// No related tokens.
    pub fn new() -> (related: RelatedTokens)
        ensures
            related@.len() == 0,
    {
        RelatedTokens { entries: Vec::new() }
    }

    /// The related tokens, in ascending order of their positions.
    pub fn entries(&self) -> (entries: &Vec<RelatedToken>)
        ensures
            entries@ == self@,
            ascending(self@),
    {
        proof {
            use_type_invariant(self);
        }
        &self.entries
    }

    /// Joins what another scan found to the related tokens.
    pub(crate) fn join(&mut self, found: &Vec<RelatedToken>)
        requires
            ascending(found@),
        ensures
            ascending(final(self)@),
            forall|position: int|
                lookup(final(self)@, position) == joined(
                    lookup(old(self)@, position),
                    lookup(found@, position),
                ),
    {
        proof {
            use_type_invariant(&*self);
        }
        let ghost before = self@;
        let mut merged: Vec<RelatedToken> = Vec::new();
        let mut i: usize = 0;
        let mut j: usize = 0;
        while i < self.entries.len() || j < found.len()
            invariant
                before == self.entries@,
                ascending(before),
                ascending(found@),
                i <= before.len(),
                j <= found.len(),
                ascending(merged@),
                forall|k: int|
                    0 <= k < merged.len() && i < before.len() ==> (#[trigger] merged[k]).position
                        < before[i as int].position,
                forall|k: int|
                    0 <= k < merged.len() && j < found.len() ==> (#[trigger] merged[k]).position
                        < found[j as int].position,
                forall|position: int|
                    lookup(merged@, position) == joined(
                        lookup(before.take(i as int), position),
                        lookup(found@.take(j as int), position),
                    ),
            decreases before.len() - i + found.len() - j,
        {
            let ghost merged_before = merged@;
            let ghost seen_before = before.take(i as int);
            let ghost seen_found = found@.take(j as int);
            let take_before = j >= found.len() || (i < self.entries.len()
                && self.entries[i].position <= found[j].position);
            let take_found = i >= self.entries.len() || (j < found.len() && found[j].position
                <= self.entries[i].position);
            let ghost at;
            if take_before && take_found {
                let a = self.entries[i];
                let b = found[j];
                let distance = if b.data.distance.is_some() {
                    b.data.distance
                } else {
                    a.data.distance
                };
                let item = RelatedToken {
                    position: a.position,
                    data: RelatedTokenData {
                        distance,
                        same_prefix: a.data.same_prefix || b.data.same_prefix,
                    },
                };
                merged.push(item);
                proof {
                    at = a.position as int;
                    assert(before.take(i + 1).drop_last() == seen_before);
                    assert(found@.take(j + 1).drop_last() == seen_found);
                }
                i += 1;
                j += 1;
            } else if take_before {
                let a = self.entries[i];
                merged.push(a);
                proof {
                    at = a.position as int;
                    assert(before.take(i + 1).drop_last() == seen_before);
                    assert forall|k: int| 0 <= k < seen_found.len() implies (
                    #[trigger] seen_found[k]).position != at by {
                        lemma_lookup_present(seen_found, k);
                        let named = seen_found[k].position as int;
                        lemma_lookup_absent_below(merged_before, named, at);
                    }
                    lemma_lookup_absent(seen_found, at);
                }
                i += 1;
            } else {
                let b = found[j];
                merged.push(b);
                proof {
                    at = b.position as int;
                    assert(found@.take(j + 1).drop_last() == seen_found);
                    assert forall|k: int| 0 <= k < seen_before.len() implies (
                    #[trigger] seen_before[k]).position != at by {
                        lemma_lookup_present(seen_before, k);
                        let named = seen_before[k].position as int;
                        lemma_lookup_absent_below(merged_before, named, at);
                    }
                    lemma_lookup_absent(seen_before, at);
                }
                j += 1;
            }
            proof {
                assert(merged@.drop_last() == merged_before);
                assert forall|position: int|
                    lookup(merged@, position) == joined(
                        lookup(before.take(i as int), position),
                        lookup(found@.take(j as int), position),
                    ) by {
                    if position != at {
                        assert(lookup(merged@, position) == lookup(merged_before, position));
                    }
                }
            }
        }
        proof {
            assert(before.take(i as int) =~= before);
            assert(found@.take(j as int) =~= found@);
        }
        self.entries = merged;
    }
}

/// A list whose positions all lie below `bound` holds nothing for a
/// position from `bound` on, so what it holds for `position` shows that
/// `position` lies below `bound`.
pub proof fn lemma_lookup_absent_below(related: Seq<RelatedToken>, position: int, bound: int)
    requires
        forall|k: int| 0 <= k < related.len() ==> (#[trigger] related[k]).position < bound,
        lookup(related, position) is Some,
    ensures
        position < bound,
{
    let k = lemma_lookup_names(related, position);
}

} // verus!
