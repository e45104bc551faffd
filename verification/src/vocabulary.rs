//! The vocabulary while the documents are scanned: the tokens met so far, in
//! ascending byte order, each with its posting list.

use crate::index::{
    count_for, lemma_bytes_tell_tokens, lemma_count_absent, lemma_count_at, lemma_one_position,
    IndexView, Posting,
};
use crate::order::{bytes_lt, compare_bytes, lemma_lt_irreflexive, lemma_lt_transitive, Side};
use crate::token_map::{strictly_ascending, texts, token_bytes};
use vstd::prelude::*;

verus! {

/// The tokens met so far and the posting list of each.
pub(crate) struct Vocabulary {
    tokens: Vec<String>,
    pairs: Vec<Vec<Posting>>,
}

impl View for Vocabulary {
    type V = IndexView;

    closed spec fn view(&self) -> IndexView {
        IndexView {
            tokens: texts(self.tokens@),
            postings: Seq::new(self.pairs.len() as nat, |i: int| self.pairs[i]@),
        }
    }
}

/// One more occurrence where `token` is the token recorded and `doc` the
/// document it was recorded for.
pub open spec fn recorded(token: Seq<char>, doc: int, the_token: Seq<char>, the_doc: int) -> nat {
    if token == the_token && doc == the_doc {
        1
    } else {
        0
    }
}

impl Vocabulary {
    /// The empty vocabulary.
    pub(crate) fn new() -> (vocabulary: Vocabulary)
        ensures
            vocabulary@.wf(),
            vocabulary@.tokens.len() == 0,
    {
        Vocabulary { tokens: Vec::new(), pairs: Vec::new() }
    }

    /// Hands out the tokens and their posting lists.
    pub(crate) fn into_parts(self) -> (parts: (Vec<String>, Vec<Vec<Posting>>))
        ensures
            texts(parts.0@) == self@.tokens,
            parts.1.len() == self@.postings.len(),
            forall|i: int| 0 <= i < parts.1.len() ==> (#[trigger] parts.1[i])@ == self@.postings[i],
    {
        (self.tokens, self.pairs)
    }

    /// The first position whose token does not come before `bytes`.
    fn lower_bound(&self, bytes: &[u8]) -> (position: usize)
        requires
            self@.wf(),
        ensures
            position <= self@.tokens.len(),
            forall|i: int|
                0 <= i < position ==> bytes_lt(#[trigger] token_bytes(self@.tokens[i]), bytes@),
            forall|i: int|
                position <= i < self@.tokens.len() ==> !bytes_lt(
                    #[trigger] token_bytes(self@.tokens[i]),
                    bytes@,
                ),
    {
        let ghost tokens = self@.tokens;
        let mut low: usize = 0;
        let mut high: usize = self.tokens.len();
        while low < high
            invariant
                low <= high <= tokens.len(),
                tokens == self@.tokens,
                tokens.len() == self.tokens.len(),
                strictly_ascending(tokens),
                forall|i: int| 0 <= i < low ==> bytes_lt(#[trigger] token_bytes(tokens[i]), bytes@),
                forall|i: int|
                    high <= i < tokens.len() ==> !bytes_lt(
                        #[trigger] token_bytes(tokens[i]),
                        bytes@,
                    ),
            decreases high - low,
        {
            let middle = low + (high - low) / 2;
            let side = compare_bytes(self.tokens[middle].as_str().as_bytes(), bytes);
            let ghost pivot = token_bytes(tokens[middle as int]);
            match side {
                Side::Before => {
                    proof {
                        assert forall|i: int| 0 <= i < middle + 1 implies bytes_lt(
                            #[trigger] token_bytes(tokens[i]),
                            bytes@,
                        ) by {
                            if i < middle {
                                lemma_lt_transitive(token_bytes(tokens[i]), pivot, bytes@);
                            }
                        }
                    }
                    low = middle + 1;
                },
                _ => {
                    high = middle;
                },
            }
        }
        low
    }

    /// Counts one more occurrence of `token` in document `doc_id`: the
    /// token enters the vocabulary where it is new, and its posting list
    /// names the document from now on.
    pub(crate) fn record(&mut self, token: String, doc_id: usize)
        requires
            old(self)@.wf(),
            old(self)@.docs_up_to(doc_id as int),
            old(self)@.count(token@, doc_id as int) < usize::MAX,
        ensures
            final(self)@.wf(),
            final(self)@.docs_up_to(doc_id as int),
            forall|x: Seq<char>, d: int| #[trigger]
                final(self)@.count(x, d) == old(self)@.count(x, d) + recorded(
                    x,
                    d,
                    token@,
                    doc_id as int,
                ),
    {
        let ghost before = self@;
        let position = self.lower_bound(token.as_str().as_bytes());
        let known = position < self.tokens.len() && compare_bytes(
            self.tokens[position].as_str().as_bytes(),
            token.as_str().as_bytes(),
        ) == Side::Same;
        if known {
            proof {
                lemma_bytes_tell_tokens(before.tokens[position as int], token@);
                lemma_count_at(before, position as int, doc_id as int);
            }
            let ghost list_before = self.pairs[position as int]@;
            let list = &mut self.pairs[position];
            let last = list.len() - 1;
            if list[last].doc_id == doc_id {
                let count = list[last].count;
                list.set(last, Posting { doc_id, count: count + 1 });
            } else {
                list.push(Posting { doc_id, count: 1 });
            }
            proof {
                let after = self@;
                let list_after = after.postings[position as int];
                assert forall|i: int| 0 <= i < after.postings.len() && i != position implies (
                #[trigger] after.postings[i]) == before.postings[i] by {}
                assert forall|x: Seq<char>, d: int| #[trigger]
                    after.count(x, d) == before.count(x, d) + recorded(
                        x,
                        d,
                        token@,
                        doc_id as int,
                    ) by {
                    if before.tokens.contains(x) {
                        let i = before.tokens.index_of(x);
                        if i != position {
                            if x == token@ {
                                lemma_one_position(before, i, position as int);
                            }
                        } else {
                            if list_before.last().doc_id == doc_id {
                                assert(list_after.drop_last() == list_before.drop_last());
                            } else {
                                assert(list_after.drop_last() == list_before);
                                if d == doc_id {
                                    lemma_count_absent(list_before, d);
                                }
                            }
                        }
                    }
                }
            }
        } else {
            let ghost fresh = token@;
            proof {
                assert forall|i: int| position <= i < before.tokens.len() implies bytes_lt(
                    token_bytes(fresh),
                    #[trigger] token_bytes(before.tokens[i]),
                ) by {
                    let first = token_bytes(before.tokens[position as int]);
                    if i > position {
                        lemma_lt_transitive(token_bytes(fresh), first, token_bytes(before.tokens[i]));
                    }
                }
                assert(!before.tokens.contains(fresh)) by {
                    if before.tokens.contains(fresh) {
                        lemma_lt_irreflexive(token_bytes(fresh));
                    }
                }
            }
            let mut list: Vec<Posting> = Vec::new();
            list.push(Posting { doc_id, count: 1 });
            self.tokens.insert(position, token);
            self.pairs.insert(position, list);
            proof {
                let after = self@;
                assert(after.tokens =~= before.tokens.insert(position as int, fresh));
                assert(after.postings =~= before.postings.insert(position as int, list@));
                assert forall|x: Seq<char>, d: int| #[trigger]
                    after.count(x, d) == before.count(x, d) + recorded(
                        x,
                        d,
                        token@,
                        doc_id as int,
                    ) by {
                    if x == fresh {
                        lemma_count_at(after, position as int, d);
                        assert(count_for(list@.drop_last(), d) == 0);
                    } else if before.tokens.contains(x) {
                        let i = before.tokens.index_of(x);
                        let moved = if i < position { i } else { i + 1 };
                        lemma_count_at(after, moved, d);
                    }
                }
            }
        }
    }
}

} // verus!
