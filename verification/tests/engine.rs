use localsearch::{rank, LocalSearch, QueryError, Ranked, ScoreTerm};

#[derive(Clone, Debug, PartialEq)]
struct Record {
    id: String,
    name: String,
}

fn record(id: &str, name: &str) -> Record {
    Record { id: id.to_owned(), name: name.to_owned() }
}

fn engine_of(records: Vec<Record>, max_edit_distance: usize) -> LocalSearch<Record> {
    let texts: Vec<String> = records.iter().map(|r| r.name.clone()).collect();
    LocalSearch::builder(records, texts)
        .max_edit_distance(max_edit_distance)
        .build()
        .expect("build the engine")
}

fn movies() -> LocalSearch<Record> {
    engine_of(vec![record("1", "Shazam"), record("2", "Batman")], 1)
}

type Score = f64;

fn tf_idf(term: &ScoreTerm) -> f64 {
    let tf = if term.token_count == 0 {
        0.0
    } else {
        term.occurrences as f64 / term.token_count as f64
    };
    let df = term.docs_with_token as f64;
    let n = term.total_docs as f64;
    let idf = (n / (df + 1.0)).log10();
    tf * idf
}

fn score(term: &ScoreTerm, prefix_boost: f64) -> Score {
    let distance_boost = term.distance_boost() as f64;
    let prefix_boost = if term.same_prefix { prefix_boost } else { 1.0 };
    (1.0 + tf_idf(term)) * distance_boost * prefix_boost
}

fn key_of(score: Score) -> u64 {
    let bits = score.to_bits();
    if bits >> 63 == 0 {
        bits | (1 << 63)
    } else {
        !bits
    }
}

fn score_of(key: u64) -> Score {
    if key >> 63 == 1 {
        f64::from_bits(key & !(1 << 63))
    } else {
        f64::from_bits(!key)
    }
}

fn key_of_terms(terms: &Vec<ScoreTerm>) -> u64 {
    key_of(terms.iter().map(|term| score(term, 1.5)).sum())
}

fn search<'a>(
    engine: &'a LocalSearch<Record>,
    query: &str,
    max_results: usize,
) -> Vec<(&'a Record, f64)> {
    engine
        .search(query, max_results, key_of_terms)
        .expect("scan the index")
        .into_iter()
        .map(|(record, key)| (record, score_of(key)))
        .collect()
}

#[test]
fn fuzzy_query_finds_the_document_one_edit_away() {
    let engine = movies();
    let results = search(&engine, "shzam", 5);
    assert_eq!(results.len(), 1);
    assert_eq!(results[0].0.id, "1");
    assert!(results[0].1 > 0.0);
}

#[test]
fn prefix_query_finds_only_the_document_with_the_prefix() {
    let engine = movies();
    let results = search(&engine, "sha", 5);
    assert_eq!(results.len(), 1);
    assert_eq!(results[0].0.id, "1");
    assert!(results.iter().all(|(record, _)| record.id != "2"));
}

#[test]
fn autocomplete_completes_the_fragment() {
    let engine = movies();
    assert_eq!(engine.autocomplete("sha", 5), vec!["shazam".to_owned()]);
}

#[test]
fn exact_query_includes_its_document() {
    let engine = engine_of(
        vec![record("a", "The Dark Knight"), record("b", "Knight Rider"), record("c", "Dark")],
        1,
    );
    for (id, text) in [("a", "The Dark Knight"), ("b", "Knight Rider"), ("c", "Dark")] {
        let results = search(&engine, text, 3);
        assert!(results.iter().any(|(record, _)| record.id == id));
    }
}

#[test]
fn no_results_are_asked_for() {
    let engine = movies();
    assert!(search(&engine, "shazam", 0).is_empty());
    assert!(rank(vec![Ranked { doc_id: 0, key: 7 }], 0).is_empty());
}

#[test]
fn empty_query_gives_no_results() {
    let engine = movies();
    assert!(engine.score_terms("").expect("scan").is_empty());
    assert!(engine.score_terms("  \t ").expect("scan").is_empty());
    assert!(search(&engine, "", 5).is_empty());
}

#[test]
fn unseen_token_gives_no_candidates() {
    let engine = movies();
    assert!(engine.score_terms("zzzzzzzz").expect("scan").is_empty());
}

#[test]
fn exact_match_scores_by_the_formula() {
    let engine = movies();
    let terms = engine.score_terms("shazam").expect("scan");
    assert_eq!(terms.len(), 1);
    let term = terms[0];
    assert_eq!(term.doc_id, 0);
    assert_eq!(term.occurrences, 1);
    assert_eq!(term.token_count, 1);
    assert_eq!(term.docs_with_token, 1);
    assert_eq!(term.total_docs, 2);
    assert_eq!(term.distance, Some(0));
    assert_eq!(term.max_edit_distance, 1);
    assert!(term.same_prefix);
    assert_eq!(tf_idf(&term), 0.0);
    assert_eq!(score(&term, 1.5), 3.0);
}

#[test]
fn fuzzy_match_scores_by_the_formula() {
    let engine = movies();
    let terms = engine.score_terms("shzam").expect("scan");
    assert_eq!(terms.len(), 1);
    assert_eq!(terms[0].distance, Some(1));
    assert!(!terms[0].same_prefix);
    assert_eq!(score(&terms[0], 1.5), 1.0);
}

#[test]
fn prefix_match_scores_by_the_formula() {
    let engine = movies();
    let terms = engine.score_terms("sha").expect("scan");
    assert_eq!(terms.len(), 1);
    assert_eq!(terms[0].distance, None);
    assert!(terms[0].same_prefix);
    assert_eq!(score(&terms[0], 1.5), 1.5);
}

#[test]
fn term_frequency_counts_repeated_tokens() {
    let engine = engine_of(
        vec![record("1", "tick tick boom"), record("2", "boom"), record("3", "quiet"), record("4", "calm")],
        0,
    );
    let terms = engine.score_terms("tick").expect("scan");
    assert_eq!(terms.len(), 1);
    let term = terms[0];
    assert_eq!((term.doc_id, term.occurrences, term.token_count), (0, 2, 3));
    assert_eq!((term.docs_with_token, term.total_docs), (1, 4));
    let expected = (2.0f64 / 3.0) * (4.0f64 / 2.0).log10();
    assert_eq!(tf_idf(&term), expected);
    let boom = engine.score_terms("boom").expect("scan");
    assert_eq!(boom.len(), 2);
    assert_eq!((boom[0].doc_id, boom[0].occurrences, boom[0].token_count), (0, 1, 3));
    assert_eq!((boom[1].doc_id, boom[1].occurrences, boom[1].token_count), (1, 1, 1));
    assert_eq!(boom[0].docs_with_token, 2);
}

#[test]
fn token_in_every_document_has_a_small_idf() {
    let engine = engine_of(vec![record("1", "the cat"), record("2", "the dog"), record("3", "the owl")], 0);
    let common = engine.score_terms("the").expect("scan");
    assert_eq!(common.len(), 3);
    for term in &common {
        assert_eq!(term.docs_with_token, term.total_docs);
        let idf = (term.total_docs as f64 / (term.docs_with_token as f64 + 1.0)).log10();
        assert_eq!(idf, (3.0f64 / 4.0).log10());
        assert!(idf < 0.0);
    }
    let rare = engine.score_terms("cat").expect("scan");
    assert_eq!(rare.len(), 1);
    assert!(tf_idf(&rare[0]) > tf_idf(&common[0]));
    assert!(score(&rare[0], 1.5) > score(&common[0], 1.5));
}

#[test]
fn scores_are_not_negative() {
    let engine = engine_of(
        vec![record("1", "a a a b"), record("2", "a b c"), record("3", "a"), record("4", "")],
        2,
    );
    for query in ["a", "b", "c", "ab", "a b c", "abc"] {
        for term in engine.score_terms(query).expect("scan") {
            let value = score(&term, 1.5);
            assert!(value >= 0.0);
            assert!(value.is_finite());
        }
    }
}

#[test]
fn document_without_tokens_never_matches() {
    let engine = engine_of(vec![record("1", ""), record("2", "   "), record("3", "word")], 3);
    assert_eq!(engine.token_count(0), Some(0));
    assert_eq!(engine.token_count(1), Some(0));
    assert_eq!(engine.token_count(2), Some(1));
    for query in ["word", "w", "wor", "ward", "", "x"] {
        for term in engine.score_terms(query).expect("scan") {
            assert_eq!(term.doc_id, 2);
            assert!(term.token_count > 0);
            assert!(score(&term, 1.5).is_finite());
        }
    }
    let results = search(&engine, "word", 5);
    assert_eq!(results.len(), 1);
    assert_eq!(results[0].0.id, "3");
}

#[test]
fn larger_bound_on_edits_keeps_every_candidate() {
    let records = vec![record("1", "cat"), record("2", "cart"), record("3", "carts"), record("4", "dog")];
    let mut before: Vec<usize> = Vec::new();
    for max in 0..4 {
        let engine = engine_of(records.clone(), max);
        let mut related = localsearch::RelatedTokens::new();
        engine.add_tokens_in_distance("cat", &mut related).expect("scan");
        let now: Vec<usize> = related.entries().iter().map(|entry| entry.position).collect();
        assert!(before.iter().all(|position| now.contains(position)));
        before = now;
    }
    assert_eq!(before.len(), 4);
}

#[test]
fn scores_add_up_over_query_tokens() {
    let engine = engine_of(vec![record("1", "dark knight"), record("2", "dark"), record("3", "x")], 0);
    let results = search(&engine, "dark knight", 5);
    assert_eq!(results.len(), 2);
    assert_eq!(results[0].0.id, "1");
    assert_eq!(results[1].0.id, "2");
    let one = search(&engine, "knight", 5);
    let other = search(&engine, "dark", 5);
    let dark_for_first = other.iter().find(|(record, _)| record.id == "1").expect("found").1;
    assert_eq!(results[0].1, dark_for_first + one[0].1);
}

#[test]
fn results_are_cut_to_the_number_asked_for() {
    let engine = engine_of(
        vec![record("1", "sun"), record("2", "sunny"), record("3", "sunset"), record("4", "sunday")],
        0,
    );
    assert_eq!(search(&engine, "sun", 10).len(), 4);
    let two = search(&engine, "sun", 2);
    assert_eq!(two.len(), 2);
    assert_eq!(two[0].0.id, "1");
}

#[test]
fn query_of_other_than_ascii_characters_is_scanned_in_full() {
    let engine = engine_of(vec![record("1", "été"), record("2", "èté"), record("3", "thé")], 1);
    let terms = engine.score_terms("été").expect("scan");
    let mut found: Vec<(usize, Option<usize>)> = terms.iter().map(|t| (t.doc_id, t.distance)).collect();
    found.sort();
    assert_eq!(found, vec![(0, Some(0)), (1, Some(1))]);
}

#[test]
fn degenerate_query_token_is_reported() {
    let engine = engine_of(vec![record("1", "word")], 40);
    let query = "abcdefghijklmnopqrstuvwxyzabcdefghijklmnopqrstuvwxyzabcdefghijklmnopqrstuvwxyz";
    assert_eq!(engine.score_terms(query).err(), Some(QueryError::AutomatonTooLarge));
}

#[test]
fn keys_order_as_scores_do() {
    let scores = [-3.5f64, -0.0, 0.0, 0.25, 1.0, 1.5, 3.0, 1.0e300];
    for pair in scores.windows(2) {
        assert!(key_of(pair[0]) <= key_of(pair[1]));
    }
    for value in scores {
        assert_eq!(score_of(key_of(value)).to_bits(), value.to_bits());
    }
}

#[test]
fn search_reports_a_degenerate_query_token() {
    let engine = engine_of(vec![record("1", "word")], 40);
    let query = "abcdefghijklmnopqrstuvwxyzabcdefghijklmnopqrstuvwxyzabcdefghijklmnopqrstuvwxyz";
    assert_eq!(engine.search(query, 5, key_of_terms).err(), Some(QueryError::AutomatonTooLarge));
}

#[test]
fn equal_scores_are_ranked_by_ascending_id() {
    let engine = engine_of(vec![record("1", "bird"), record("2", "bird"), record("3", "bird")], 0);
    let results = search(&engine, "bird", 2);
    assert_eq!(results.len(), 2);
    assert_eq!(results[0].0.id, "1");
    assert_eq!(results[1].0.id, "2");
    assert_eq!(results[0].1, results[1].1);
}

#[test]
fn search_with_the_callers_tokens() {
    let records = vec![record("1", "Dark-Knight"), record("2", "Knight-Rider")];
    let token_lists = vec![
        vec!["dark".to_owned(), "knight".to_owned()],
        vec!["knight".to_owned(), "rider".to_owned()],
    ];
    let texts = vec!["Dark-Knight".to_owned(), "Knight-Rider".to_owned()];
    let engine = LocalSearch::builder(records, texts)
        .token_lists(token_lists)
        .max_edit_distance(0)
        .build()
        .expect("build the engine");
    let tokens = vec!["rider".to_owned()];
    let results = engine.search_tokens(&tokens, 5, key_of_terms).expect("scan");
    assert_eq!(results.len(), 1);
    assert_eq!(results[0].0.id, "2");
    assert!(engine.search("dark-knight", 5, key_of_terms).expect("scan").is_empty());
    assert_eq!(engine.autocomplete("kn", 5), vec!["knight".to_owned()]);
}

fn next_random(state: &mut u64) -> u64 {
    *state = state.wrapping_mul(6364136223846793005).wrapping_add(1442695040888963407);
    *state >> 33
}

fn random_word(state: &mut u64, alphabet: &[char], longest: u64) -> String {
    let length = 1 + next_random(state) % longest;
    (0..length).map(|_| alphabet[(next_random(state) % alphabet.len() as u64) as usize]).collect()
}

fn random_text(state: &mut u64, alphabet: &[char], most_words: u64) -> String {
    let count = next_random(state) % (most_words + 1);
    let words: Vec<String> = (0..count).map(|_| random_word(state, alphabet, 4)).collect();
    words.join(" ")
}

fn edits(a: &str, b: &str) -> usize {
    localsearch::levenshtein::distance(
        &localsearch::levenshtein::chars_of(a),
        &localsearch::levenshtein::chars_of(b),
    )
}

fn direct_search(texts: &[String], query: &str, max_edit_distance: usize, max_results: usize) -> Vec<(usize, f64)> {
    let doc_tokens: Vec<Vec<String>> =
        texts.iter().map(|text| text.split_whitespace().map(str::to_lowercase).collect()).collect();
    let mut vocabulary: Vec<String> = doc_tokens.iter().flatten().cloned().collect();
    vocabulary.sort();
    vocabulary.dedup();
    let mut sums: Vec<Option<f64>> = vec![None; texts.len()];
    for query_token in query.split_whitespace().map(str::to_lowercase) {
        for token in &vocabulary {
            let distance = Some(edits(&query_token, token)).filter(|distance| *distance <= max_edit_distance);
            let same_prefix = token.starts_with(&query_token);
            if distance.is_none() && !same_prefix {
                continue;
            }
            let docs_with_token = doc_tokens.iter().filter(|tokens| tokens.contains(token)).count();
            for (doc_id, tokens) in doc_tokens.iter().enumerate() {
                let occurrences = tokens.iter().filter(|other| *other == token).count();
                if occurrences == 0 {
                    continue;
                }
                let tf = occurrences as f64 / tokens.len() as f64;
                let idf = (texts.len() as f64 / (docs_with_token as f64 + 1.0)).log10();
                let distance_boost = distance.map_or(1.0, |d| (max_edit_distance - d + 1) as f64);
                let prefix_boost = if same_prefix { 1.5 } else { 1.0 };
                let value = (1.0 + tf * idf) * distance_boost * prefix_boost;
                sums[doc_id] = Some(sums[doc_id].map_or(0.0 + value, |sum| sum + value));
            }
        }
    }
    let mut scored: Vec<(usize, f64)> =
        sums.iter().enumerate().filter_map(|(doc_id, sum)| sum.map(|sum| (doc_id, sum))).collect();
    scored.sort_by(|a, b| b.1.partial_cmp(&a.1).expect("scores compare").then(a.0.cmp(&b.0)));
    scored.truncate(max_results);
    scored
}

#[test]
fn search_agrees_with_a_direct_computation() {
    let mut state = 0xabcdef_u64;
    let letters = ['a', 'b', 'c', 'B', 'é'];
    for round in 0..60 {
        let texts: Vec<String> = (0..1 + round % 7).map(|_| random_text(&mut state, &letters, 5)).collect();
        let max_edit_distance = (round % 3) as usize;
        let documents: Vec<Record> =
            texts.iter().enumerate().map(|(id, text)| record(&id.to_string(), text)).collect();
        let engine = engine_of(documents, max_edit_distance);
        for _ in 0..8 {
            let query = random_text(&mut state, &letters, 3);
            for max_results in [0, 1, 3, 10] {
                let expected = direct_search(&texts, &query, max_edit_distance, max_results);
                let found: Vec<(usize, f64)> = search(&engine, &query, max_results)
                    .into_iter()
                    .map(|(record, score)| (record.id.parse().expect("an id"), score))
                    .collect();
                assert_eq!(found, expected);
            }
        }
    }
}

#[test]
fn large_collection_is_indexed_and_searched() {
    let mut state = 0x1234_u64;
    let letters = ['a', 'b', 'c', 'd', 'e', 'f', 'g', 'h'];
    let records: Vec<Record> = (0..3000)
        .map(|id| {
            let name: Vec<String> = (0..3).map(|_| random_word(&mut state, &letters, 6)).collect();
            record(&id.to_string(), &name.join(" "))
        })
        .collect();
    let names: Vec<String> = records.iter().map(|record| record.name.clone()).collect();
    let engine = engine_of(records, 1);
    assert_eq!(engine.len(), 3000);
    for id in [0usize, 17, 1499, 2999] {
        let results = search(&engine, &names[id], 3000);
        assert!(results.iter().any(|(record, _)| record.id == id.to_string()));
        assert!(results.windows(2).all(|pair| pair[0].1 >= pair[1].1));
        let top = search(&engine, &names[id], 5);
        assert_eq!(top.len(), 5);
        assert_eq!(top[..], results[..5]);
    }
    let completions = engine.autocomplete("ab", 50);
    assert!(!completions.is_empty());
    assert!(completions.iter().all(|token| token.starts_with("ab")));
    assert!(completions.windows(2).all(|pair| pair[0] < pair[1]));
}

#[test]
fn search_for_no_results_scans_nothing() {
    let engine = engine_of(vec![record("1", "word")], 40);
    let query = "abcdefghijklmnopqrstuvwxyzabcdefghijklmnopqrstuvwxyzabcdefghijklmnopqrstuvwxyz";
    assert_eq!(engine.search(query, 1, key_of_terms).err(), Some(QueryError::AutomatonTooLarge));
    assert_eq!(engine.search(query, 0, key_of_terms).map(|results| results.len()), Ok(0));
    let tokens = vec![query.to_owned()];
    assert_eq!(engine.search_tokens(&tokens, 0, key_of_terms).map(|results| results.len()), Ok(0));
    let empty: LocalSearch<Record> = engine_of(Vec::new(), 1);
    assert_eq!(empty.search("anything", 0, key_of_terms).map(|results| results.len()), Ok(0));
    assert_eq!(empty.search("anything", 3, key_of_terms).map(|results| results.len()), Ok(0));
}

#[test]
fn query_fails_only_for_the_call_that_cannot_be_scanned() {
    let engine = engine_of(vec![record("1", "word"), record("2", "ward")], 40);
    let query = "abcdefghijklmnopqrstuvwxyzabcdefghijklmnopqrstuvwxyzabcdefghijklmnopqrstuvwxyz";
    assert_eq!(engine.search(query, 5, key_of_terms).err(), Some(QueryError::AutomatonTooLarge));
    assert_eq!(engine.score_terms(query).err(), Some(QueryError::AutomatonTooLarge));
    assert_eq!(engine.related_tokens(query).err(), Some(QueryError::AutomatonTooLarge));
    let mixed = format!("wo {}", query);
    assert_eq!(engine.search(&mixed, 5, key_of_terms).err(), Some(QueryError::AutomatonTooLarge));
    assert_eq!(engine.search("", 5, key_of_terms).map(|results| results.len()), Ok(0));
    assert_eq!(engine.search("wo", 5, key_of_terms).map(|results| results.len()), Ok(2));
    assert_eq!(engine.autocomplete("w", 5).len(), 2);
}

#[test]
fn build_succeeds_with_texts_that_hold_no_words() {
    let records = vec![record("a", "cat dog"), record("z", " \t "), record("b", "dog"), record("y", "")];
    let texts: Vec<String> = records.iter().map(|record| record.name.clone()).collect();
    let engine = LocalSearch::builder(records, texts).build().expect("build the engine");
    assert_eq!(engine.len(), 4);
    assert_eq!(engine.token_count(1), Some(0));
    assert_eq!(engine.token_count(3), Some(0));
    let without = engine_of(vec![record("a", "cat dog"), record("b", "dog")], 1);
    assert_eq!(engine.index().len(), without.index().len());
    assert_eq!(engine.autocomplete("c", 9), without.autocomplete("c", 9));
    assert_eq!(engine.autocomplete("d", 9), without.autocomplete("d", 9));
    let dogs = engine.score_terms("dog").expect("scan");
    let docs: Vec<(usize, usize, usize)> =
        dogs.iter().map(|term| (term.doc_id, term.occurrences, term.total_docs)).collect();
    assert_eq!(docs, vec![(0, 1, 4), (2, 1, 4)]);
    let only_empty = engine_of(vec![record("y", "")], 1);
    assert_eq!(only_empty.len(), 1);
    assert_eq!(only_empty.index().len(), 0);
}

#[test]
fn distance_boost_counts_the_edits_to_spare() {
    let engine = engine_of(vec![record("1", "cat cart carts")], 2);
    let boosts: Vec<(Option<usize>, u128)> =
        engine.score_terms("cat").expect("scan").iter().map(|term| (term.distance, term.distance_boost())).collect();
    assert_eq!(boosts, vec![(Some(1), 2), (Some(2), 1), (Some(0), 3)]);
    let prefix_only = engine.score_terms("c").expect("scan");
    assert!(prefix_only.iter().any(|term| term.distance.is_none() && term.distance_boost() == 1));
    let mut term = prefix_only[0];
    term.max_edit_distance = usize::MAX;
    term.distance = Some(0);
    assert_eq!(term.distance_boost(), usize::MAX as u128 + 1);
    term.max_edit_distance = 1;
    term.distance = Some(2);
    assert_eq!(term.distance_boost(), 0);
    term.distance = Some(7);
    assert_eq!(term.distance_boost(), 0);
}
