//! The index builder: one pass over the documents' token lists that fills
//! the document store and the inverted index.

use crate::error::BuildError;
use crate::index::{lemma_count_absent, lemma_count_at, lemma_count_present, Index, IndexView};
use crate::search::{
    lemma_occurrences_bound, occurrences, Distance, LocalSearch, LocalSearchView,
    DEFAULT_MAX_EDIT_DISTANCE,
};
use crate::token_map::texts;
use crate::tokenizer::{default_tokenizer, default_tokens, Token};
use crate::vocabulary::Vocabulary;
use vstd::prelude::*;

verus! {

/// The characters of each token of each list.
pub open spec fn token_lists_view(lists: Seq<Vec<Token>>) -> Seq<Seq<Seq<char>>> {
    Seq::new(lists.len(), |d: int| texts(lists[d]@))
}

/// The default tokens of each text.
pub open spec fn default_token_lists(documents_texts: Seq<String>) -> Seq<Seq<Seq<char>>> {
    Seq::new(documents_texts.len(), |d: int| default_tokens(documents_texts[d]@))
}

/// Scans the token lists of the documents, in the order of their ids, and
/// counts every occurrence of every token.
pub(crate) fn index_documents(token_lists: &Vec<Vec<Token>>) -> (scanned: (Vocabulary, Vec<usize>))
    ensures
        scanned.0@.wf(),
        scanned.0@.docs_up_to(token_lists.len() - 1),
        scanned.1.len() == token_lists.len(),
        forall|d: int| 0 <= d < token_lists.len() ==> (#[trigger] scanned.1[d]) == token_lists[d].len(),
        forall|token: Seq<char>, d: int|
            0 <= d < token_lists.len() ==> #[trigger] scanned.0@.count(token, d) == occurrences(
                token_lists_view(token_lists@)[d],
                token,
            ),
{
    let ghost lists = token_lists_view(token_lists@);
    let mut vocabulary = Vocabulary::new();
    let mut counts: Vec<usize> = Vec::new();
    let mut d: usize = 0;
    while d < token_lists.len()
        invariant
            d <= token_lists.len(),
            lists == token_lists_view(token_lists@),
            vocabulary@.wf(),
            vocabulary@.docs_up_to(d - 1),
            counts.len() == d,
            forall|e: int| 0 <= e < d ==> (#[trigger] counts[e]) == token_lists[e].len(),
            forall|token: Seq<char>, e: int|
                0 <= e < d ==> #[trigger] vocabulary@.count(token, e) == occurrences(lists[e], token),
        decreases token_lists.len() - d,
    {
        let list = &token_lists[d];
        let ghost full = lists[d as int];
        proof {
            assert forall|token: Seq<char>| #[trigger]
                vocabulary@.count(token, d as int) == occurrences(full.take(0), token) by {
                lemma_no_count_past(vocabulary@, token, d - 1, d as int);
            }
        }
        let mut j: usize = 0;
        while j < list.len()
            invariant
                d < token_lists.len(),
                j <= list.len(),
                list == &token_lists[d as int],
                lists == token_lists_view(token_lists@),
                full == lists[d as int],
                full == texts(list@),
                vocabulary@.wf(),
                vocabulary@.docs_up_to(d as int),
                forall|token: Seq<char>, e: int|
                    0 <= e < d ==> #[trigger] vocabulary@.count(token, e) == occurrences(
                        lists[e],
                        token,
                    ),
                forall|token: Seq<char>| #[trigger]
                    vocabulary@.count(token, d as int) == occurrences(full.take(j as int), token),
            decreases list.len() - j,
        {
            let token = list[j].clone();
            proof {
                lemma_occurrences_bound(full.take(j as int), token@);
                assert(full.take(j + 1).drop_last() == full.take(j as int));
            }
            vocabulary.record(token, d);
            j += 1;
        }
        assert(full.take(list.len() as int) == full);
        counts.push(list.len());
        d += 1;
    }
    (vocabulary, counts)
}

/// Tokenizes each text with the default tokenizer.
pub fn tokenize_texts(documents_texts: &Vec<String>) -> (token_lists: Vec<Vec<Token>>)
    ensures
        token_lists_view(token_lists@) == default_token_lists(documents_texts@),
{
    let mut token_lists: Vec<Vec<Token>> = Vec::new();
    let mut d: usize = 0;
    while d < documents_texts.len()
        invariant
            d <= documents_texts.len(),
            token_lists.len() == d,
            forall|e: int|
                0 <= e < d ==> texts((#[trigger] token_lists[e])@) == default_tokens(
                    documents_texts[e]@,
                ),
        decreases documents_texts.len() - d,
    {
        token_lists.push(default_tokenizer(documents_texts[d].as_str()));
        d += 1;
    }
    token_lists
}

/// Collects what an engine is built from: the documents, the text or the
/// token list of each, and the bound on edits.
pub struct LocalSearchBuilder<T> {
    documents: Vec<T>,
    texts: Vec<String>,
    token_lists: Option<Vec<Vec<Token>>>,
    max_edit_distance: Option<Distance>,
}

impl<T> LocalSearchBuilder<T> {
    /// The documents to store, in the order of their ids.
    pub closed spec fn documents(&self) -> Seq<T> {
        self.documents@
    }

    /// The token lists to index, one for each document: those given with
    /// `token_lists`, or else the default tokens of each text.
    pub closed spec fn doc_tokens(&self) -> Seq<Seq<Seq<char>>> {
        match self.token_lists {
            Some(lists) => token_lists_view(lists@),
            None => default_token_lists(self.texts@),
        }
    }

    /// The bound on edits that the engine will apply.
    pub closed spec fn edit_bound(&self) -> nat {
        match self.max_edit_distance {
            Some(max) => max as nat,
            None => DEFAULT_MAX_EDIT_DISTANCE as nat,
        }
    }

    /// Starts a builder for `documents`, where `texts` holds the text
    /// extracted from each document, in the same order.
    pub fn new(documents: Vec<T>, texts: Vec<String>) -> (builder: Self)
        ensures
            builder.documents() == documents@,
            builder.doc_tokens() == default_token_lists(texts@),
            builder.edit_bound() == DEFAULT_MAX_EDIT_DISTANCE,
    {
        LocalSearchBuilder { documents, texts, token_lists: None, max_edit_distance: None }
    }

    /// Replaces the default tokenizer: `token_lists` holds the tokens that
    /// the caller's tokenizer gave for the text of each document.
    pub fn token_lists(self, token_lists: Vec<Vec<Token>>) -> (builder: Self)
        ensures
            builder.documents() == self.documents(),
            builder.doc_tokens() == token_lists_view(token_lists@),
            builder.edit_bound() == self.edit_bound(),
    {
        LocalSearchBuilder {
            documents: self.documents,
            texts: self.texts,
            token_lists: Some(token_lists),
            max_edit_distance: self.max_edit_distance,
        }
    }

    /// Sets the bound on edits.
    pub fn max_edit_distance(self, max_edit_distance: Distance) -> (builder: Self)
        ensures
            builder.documents() == self.documents(),
            builder.doc_tokens() == self.doc_tokens(),
            builder.edit_bound() == max_edit_distance,
    {
        LocalSearchBuilder {
            documents: self.documents,
            texts: self.texts,
            token_lists: self.token_lists,
            max_edit_distance: Some(max_edit_distance),
        }
    }

    /// Builds the engine: stores each document with the length of its
    /// token list, counts every occurrence of every token, and builds the
    /// sorted-token automaton over the vocabulary.
    ///
    /// The build succeeds exactly where there is one text or token list
    /// for each document, whatever the texts hold; it fails with
    /// `CountMismatch` otherwise. The automaton is handed a vocabulary in
    /// strictly ascending order, which it never refuses.
    pub fn build(self) -> (built: Result<LocalSearch<T>, BuildError>)
        ensures
            built is Ok <==> self.doc_tokens().len() == self.documents().len(),
            built matches Ok(engine) ==> {
                &&& engine@.documents == self.documents()
                &&& engine@.describes(self.doc_tokens())
                &&& engine@.max_edit_distance == self.edit_bound()
            },
            built matches Err(error) ==> error == BuildError::CountMismatch,
    {
        let ghost doc_tokens = self.doc_tokens();
        let LocalSearchBuilder { documents, texts, token_lists, max_edit_distance } = self;
        let token_lists = match token_lists {
            Some(lists) => lists,
            None => tokenize_texts(&texts),
        };
        if token_lists.len() != documents.len() {
            return Err(BuildError::CountMismatch);
        }
        let max_edit_distance = match max_edit_distance {
            Some(max) => max,
            None => DEFAULT_MAX_EDIT_DISTANCE,
        };
        let (vocabulary, token_counts) = index_documents(&token_lists);
        let ghost counted = vocabulary@;
        let (tokens, pairs) = vocabulary.into_parts();
        match Index::new(tokens, pairs) {
            Err(error) => Err(error),
            Ok(index) => {
                proof {
                    assert(index@.postings =~= counted.postings);
                    let view = LocalSearchView {
                        documents: documents@,
                        token_counts: Seq::new(
                            token_counts.len() as nat,
                            |d: int| token_counts[d] as nat,
                        ),
                        index: index@,
                        max_edit_distance: max_edit_distance as nat,
                    };
                    assert forall|i: int, k: int|
                        0 <= i < counted.postings.len() && 0 <= k < counted.postings[i].len() implies {
                        let posting = #[trigger] counted.postings[i][k];
                        posting.doc_id < documents.len() && posting.count
                            <= view.token_counts[posting.doc_id as int]
                    } by {
                        let posting = counted.postings[i][k];
                        let doc = posting.doc_id as int;
                        lemma_count_present(counted.postings[i], k);
                        lemma_count_at(counted, i, doc);
                        lemma_occurrences_bound(doc_tokens[doc], counted.tokens[i]);
                    }
                }
                Ok(LocalSearch::assemble(documents, token_counts, index, max_edit_distance))
            },
        }
    }
}

/// An index that names no document past `last` counts nothing for a later
/// one.
pub proof fn lemma_no_count_past(index: IndexView, token: Seq<char>, last: int, doc: int)
    requires
        index.wf(),
        index.docs_up_to(last),
        last < doc,
    ensures
        index.count(token, doc) == 0,
{
    if index.tokens.contains(token) {
        let i = index.tokens.index_of(token);
        assert forall|k: int| 0 <= k < index.postings[i].len() implies (
        #[trigger] index.postings[i][k]).doc_id != doc by {}
        lemma_count_absent(index.postings[i], doc);
    }
}

} // verus!
