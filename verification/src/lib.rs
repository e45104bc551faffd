//! An in-memory fuzzy full-text search and autocomplete engine.
//!
//! A batch of documents is tokenized and indexed once. The finished engine
//! answers fuzzy and prefix queries and completes token fragments; it is
//! never changed after it is built.
//!
//! - `tokenizer`: the default tokenizer.
//! - `builder`: the one pass that fills the document store and the index.
//! - `index`, `token_map`: the inverted index and its sorted-token automaton.
//! - `levenshtein`, `order`: edit distance, and the byte order of the tokens.
//! - `related`: the tokens related to a query token, from the two scans.
//! - `score`, `candidates`, `rank`: the terms of a score, the candidates of
//!   a query, and their ranking.
//! - `search`: the engine and its queries.
//! - `laws`: what holds of every engine.
//!
//! The engine works on whole numbers only. Of a score it hands out the
//! numbers that enter the formula, and it ranks the documents by keys that
//! the caller makes of them.

pub mod builder;
pub mod candidates;
pub mod env;
pub mod error;
pub mod index;
pub mod laws;
pub mod levenshtein;
pub mod order;
pub mod rank;
pub mod related;
pub mod score;
pub mod search;
pub mod token_map;
pub mod tokenizer;
mod vocabulary;

pub use builder::LocalSearchBuilder;
pub use candidates::Candidate;
pub use env::WebEnv;
pub use error::{BuildError, QueryError};
pub use index::{Index, Posting};
pub use rank::{rank, Ranked};
pub use related::{RelatedToken, RelatedTokenData, RelatedTokens};
pub use score::ScoreTerm;
pub use search::{Distance, LocalSearch, DEFAULT_MAX_EDIT_DISTANCE};
pub use tokenizer::{default_tokenizer, Token};
