use localsearch::builder::tokenize_texts;
use localsearch::levenshtein::{chars_of, distance};
use localsearch::order::{compare_bytes, starts_with_bytes, Side};
use localsearch::rank::is_before;
use localsearch::{
    default_tokenizer, rank, BuildError, LocalSearch, LocalSearchBuilder, Ranked, RelatedTokens,
    WebEnv, DEFAULT_MAX_EDIT_DISTANCE,
};

fn strings(words: &[&str]) -> Vec<String> {
    words.iter().map(|word| (*word).to_owned()).collect()
}

fn engine_of(texts: &[&str], max_edit_distance: usize) -> LocalSearch<usize> {
    let documents: Vec<usize> = (0..texts.len()).collect();
    LocalSearch::builder(documents, strings(texts))
        .max_edit_distance(max_edit_distance)
        .build()
        .expect("build the engine")
}

fn edits(a: &str, b: &str) -> usize {
    distance(&chars_of(a), &chars_of(b))
}

#[test]
fn tokenizer_splits_on_whitespace_and_lowercases() {
    assert_eq!(default_tokenizer("Hello  World"), strings(&["hello", "world"]));
    assert_eq!(default_tokenizer("  The\tDark\nKnight  "), strings(&["the", "dark", "knight"]));
    assert_eq!(default_tokenizer("one"), strings(&["one"]));
    assert_eq!(default_tokenizer("a\u{00A0}b\u{3000}c"), strings(&["a", "b", "c"]));
    assert_eq!(default_tokenizer("ÉTÉ Straße"), strings(&["été", "straße"]));
    assert_eq!(default_tokenizer("x-y_z"), strings(&["x-y_z"]));
}

#[test]
fn tokenizer_gives_nothing_for_a_text_without_words() {
    assert!(default_tokenizer("").is_empty());
    assert!(default_tokenizer(" \t\r\n ").is_empty());
}

#[test]
fn tokenizer_agrees_with_the_standard_library() {
    for text in ["Batman Begins", " x  Y ", "ΟΔΟΣ ΣΟΦΟΣ", "tab\tTab", ""] {
        let expected: Vec<String> = text.split_whitespace().map(str::to_lowercase).collect();
        assert_eq!(default_tokenizer(text), expected);
    }
}

#[test]
fn texts_are_tokenized_one_by_one() {
    let lists = tokenize_texts(&strings(&["A b", "", "C"]));
    assert_eq!(lists, vec![strings(&["a", "b"]), strings(&[]), strings(&["c"])]);
}

#[test]
fn characters_of_a_string() {
    assert_eq!(chars_of("aé語"), vec!['a', 'é', '語']);
    assert!(chars_of("").is_empty());
}

#[test]
fn edit_distance_of_known_pairs() {
    assert_eq!(edits("kitten", "sitting"), 3);
    assert_eq!(edits("flaw", "lawn"), 2);
    assert_eq!(edits("shzam", "shazam"), 1);
    assert_eq!(edits("sha", "shazam"), 3);
    assert_eq!(edits("", "abc"), 3);
    assert_eq!(edits("abc", ""), 3);
    assert_eq!(edits("", ""), 0);
    assert_eq!(edits("same", "same"), 0);
    assert_eq!(edits("été", "ete"), 2);
    assert_eq!(edits("ab", "ba"), 2);
}

#[test]
fn byte_strings_compare_lexicographically() {
    assert_eq!(compare_bytes(b"abc", b"abd"), Side::Before);
    assert_eq!(compare_bytes(b"abd", b"abc"), Side::After);
    assert_eq!(compare_bytes(b"abc", b"abc"), Side::Same);
    assert_eq!(compare_bytes(b"ab", b"abc"), Side::Before);
    assert_eq!(compare_bytes(b"abc", b"ab"), Side::After);
    assert_eq!(compare_bytes(b"", b""), Side::Same);
    assert_eq!(compare_bytes(b"", b"a"), Side::Before);
    assert_eq!(compare_bytes(&[0xff], &[0x00, 0x01]), Side::After);
}

#[test]
fn byte_strings_start_with_their_prefixes() {
    assert!(starts_with_bytes(b"shazam", b"sha"));
    assert!(starts_with_bytes(b"shazam", b""));
    assert!(starts_with_bytes(b"shazam", b"shazam"));
    assert!(!starts_with_bytes(b"sha", b"shazam"));
    assert!(!starts_with_bytes(b"shazam", b"shz"));
}

#[test]
fn ranking_orders_by_descending_key() {
    let scored = vec![
        Ranked { doc_id: 0, key: 5 },
        Ranked { doc_id: 1, key: 9 },
        Ranked { doc_id: 2, key: 1 },
        Ranked { doc_id: 3, key: 7 },
    ];
    let ranking = rank(scored.clone(), 10);
    let ids: Vec<usize> = ranking.iter().map(|ranked| ranked.doc_id).collect();
    assert_eq!(ids, vec![1, 3, 0, 2]);
    let top: Vec<usize> = rank(scored, 2).iter().map(|ranked| ranked.doc_id).collect();
    assert_eq!(top, vec![1, 3]);
}

#[test]
fn ranking_breaks_ties_by_ascending_id() {
    let scored = vec![
        Ranked { doc_id: 4, key: 3 },
        Ranked { doc_id: 2, key: 3 },
        Ranked { doc_id: 9, key: 8 },
        Ranked { doc_id: 1, key: 3 },
    ];
    let ids: Vec<usize> = rank(scored, 3).iter().map(|ranked| ranked.doc_id).collect();
    assert_eq!(ids, vec![9, 1, 2]);
    assert!(is_before(&Ranked { doc_id: 1, key: 3 }, &Ranked { doc_id: 2, key: 3 }));
    assert!(is_before(&Ranked { doc_id: 2, key: 4 }, &Ranked { doc_id: 1, key: 3 }));
    assert!(!is_before(&Ranked { doc_id: 1, key: 3 }, &Ranked { doc_id: 1, key: 3 }));
}

#[test]
fn ranking_of_nothing_is_empty() {
    assert!(rank(Vec::new(), 5).is_empty());
    assert!(rank(vec![Ranked { doc_id: 0, key: 1 }], 0).is_empty());
}

#[test]
fn build_refuses_texts_that_do_not_match_the_documents() {
    let built = LocalSearchBuilder::new(vec![1, 2, 3], strings(&["a", "b"])).build();
    assert_eq!(built.err(), Some(BuildError::CountMismatch));
    let built = LocalSearchBuilder::new(vec![1, 2], strings(&["a", "b"]))
        .token_lists(vec![strings(&["a"])])
        .build();
    assert_eq!(built.err(), Some(BuildError::CountMismatch));
}

#[test]
fn build_of_no_documents_gives_an_empty_engine() {
    let engine: LocalSearch<usize> = LocalSearch::builder(Vec::new(), Vec::new()).build().expect("build");
    assert_eq!(engine.len(), 0);
    assert_eq!(engine.index().len(), 0);
    assert!(engine.score_terms("anything").expect("scan").is_empty());
    assert!(engine.autocomplete("a", 5).is_empty());
    assert_eq!(engine.document(0), None);
    assert_eq!(engine.token_count(0), None);
}

#[test]
fn build_keeps_the_documents_and_counts_their_tokens() {
    let engine = engine_of(&["one two two", "", "three"], 1);
    assert_eq!(engine.len(), 3);
    assert_eq!(engine.document(0), Some(&0));
    assert_eq!(engine.document(2), Some(&2));
    assert_eq!(engine.document(3), None);
    assert_eq!(engine.token_count(0), Some(3));
    assert_eq!(engine.token_count(1), Some(0));
    assert_eq!(engine.token_count(2), Some(1));
    assert_eq!(engine.index().len(), 3);
    assert_eq!(engine.max_edit_distance(), 1);
}

#[test]
fn default_bound_on_edits_is_one() {
    assert_eq!(DEFAULT_MAX_EDIT_DISTANCE, 1);
    let engine = LocalSearch::builder(vec![0], strings(&["word"])).build().expect("build");
    assert_eq!(engine.max_edit_distance(), 1);
    assert_eq!(engine.score_terms("ward").expect("scan").len(), 1);
    assert!(engine.score_terms("wart").expect("scan").is_empty());
}

#[test]
fn vocabulary_is_sorted_by_bytes() {
    let engine = engine_of(&["pear Apple fig", "apple élan zoo", "fig"], 0);
    assert_eq!(engine.autocomplete("", 10), Vec::<String>::new());
    let index = engine.index();
    assert_eq!(index.len(), 5);
    let all: Vec<String> = ["a", "f", "p", "z", "é"]
        .iter()
        .flat_map(|prefix| engine.autocomplete(prefix, 10))
        .collect();
    assert_eq!(all, strings(&["apple", "fig", "pear", "zoo", "élan"]));
}

#[test]
fn prefix_scan_gives_ascending_positions() {
    let engine = engine_of(&["sun sunny sunset moon", "sunday"], 0);
    let index = engine.index();
    assert_eq!(index.tokens_with_prefix("sun"), vec![1, 2, 3, 4]);
    assert_eq!(index.tokens_with_prefix("sunn"), vec![3]);
    assert_eq!(index.tokens_with_prefix("m"), vec![0]);
    assert_eq!(index.tokens_with_prefix(""), vec![0, 1, 2, 3, 4]);
    assert!(index.tokens_with_prefix("sunx").is_empty());
}

#[test]
fn fuzzy_scan_gives_positions_with_distances() {
    let engine = engine_of(&["cat cart carts dog"], 0);
    let index = engine.index();
    assert_eq!(index.tokens_in_distance("cat", 0).expect("scan"), vec![(2, 0)]);
    assert_eq!(index.tokens_in_distance("cat", 1).expect("scan"), vec![(0, 1), (2, 0)]);
    assert_eq!(index.tokens_in_distance("cat", 2).expect("scan"), vec![(0, 1), (1, 2), (2, 0)]);
    assert_eq!(
        index.tokens_in_distance("cat", 3).expect("scan"),
        vec![(0, 1), (1, 2), (2, 0), (3, 3)]
    );
    assert!(index.tokens_in_distance("zebra", 1).expect("scan").is_empty());
}

#[test]
fn fuzzy_scan_measures_characters_not_bytes() {
    let engine = engine_of(&["naïve naive nave"], 0);
    let index = engine.index();
    assert_eq!(index.tokens_in_distance("naive", 1).expect("scan"), vec![(0, 0), (1, 1), (2, 1)]);
    assert_eq!(index.tokens_in_distance("naïve", 1).expect("scan"), vec![(0, 1), (1, 1), (2, 0)]);
    assert_eq!(index.tokens_in_distance("naïve", 0).expect("scan"), vec![(2, 0)]);
    assert_eq!(index.tokens_in_distance("naïve", usize::MAX).expect("scan").len(), 3);
}

#[test]
fn related_tokens_merge_both_scans() {
    let engine = engine_of(&["cat cart car dog"], 1);
    let related = engine.related_tokens("car").expect("scan");
    let found: Vec<(usize, Option<usize>, bool)> = related
        .entries()
        .iter()
        .map(|entry| (entry.position, entry.data.distance, entry.data.same_prefix))
        .collect();
    assert_eq!(found, vec![(0, Some(0), true), (1, Some(1), true), (2, Some(1), false)]);
}

#[test]
fn scans_join_what_was_found_before() {
    let engine = engine_of(&["cat cart car dog"], 1);
    let mut related = RelatedTokens::new();
    assert!(related.entries().is_empty());
    engine.add_tokens_with_prefix("ca", &mut related);
    let positions: Vec<usize> = related.entries().iter().map(|entry| entry.position).collect();
    assert_eq!(positions, vec![0, 1, 2]);
    assert!(related.entries().iter().all(|entry| entry.data.distance.is_none() && entry.data.same_prefix));
    engine.add_tokens_in_distance("cat", &mut related).expect("scan");
    let found: Vec<(usize, Option<usize>, bool)> = related
        .entries()
        .iter()
        .map(|entry| (entry.position, entry.data.distance, entry.data.same_prefix))
        .collect();
    assert_eq!(found, vec![(0, Some(1), true), (1, Some(1), true), (2, Some(0), true)]);
}

#[test]
fn terms_of_one_related_token() {
    let engine = engine_of(&["cat cat", "dog", "cat dog"], 1);
    let related = engine.related_tokens("cat").expect("scan");
    let entries = related.entries();
    assert_eq!(entries.len(), 1);
    let terms = engine.search_exact(entries[0]);
    assert_eq!(terms.len(), 2);
    assert_eq!((terms[0].doc_id, terms[0].occurrences, terms[0].token_count), (0, 2, 2));
    assert_eq!((terms[1].doc_id, terms[1].occurrences, terms[1].token_count), (2, 1, 2));
    assert!(terms.iter().all(|term| term.docs_with_token == 2 && term.total_docs == 3));
    let mut past = entries[0];
    past.position = 99;
    assert!(engine.search_exact(past).is_empty());
}

#[test]
fn autocomplete_is_sorted_and_cut() {
    let engine = engine_of(&["sunset sun sunny", "sunday moon"], 1);
    assert_eq!(engine.autocomplete("sun", 10), strings(&["sun", "sunday", "sunny", "sunset"]));
    assert_eq!(engine.autocomplete("sun", 2), strings(&["sun", "sunday"]));
    assert_eq!(engine.autocomplete("sun", 0), Vec::<String>::new());
    assert_eq!(engine.autocomplete("", 10), Vec::<String>::new());
    assert_eq!(engine.autocomplete("sum", 10), Vec::<String>::new());
    for k in 0..6 {
        let tokens = engine.autocomplete("s", k);
        assert!(tokens.len() <= k);
        assert!(tokens.iter().all(|token| token.starts_with("s")));
        assert!(tokens.windows(2).all(|pair| pair[0] < pair[1]));
    }
}

#[test]
fn last_token_of_a_query_is_completed() {
    let engine = engine_of(&["dark knight", "darkness falls"], 1);
    assert_eq!(engine.complete_query("the Dar", 5), strings(&["dark", "darkness"]));
    assert_eq!(engine.complete_query("dark KN", 5), strings(&["knight"]));
    assert_eq!(engine.complete_query("   ", 5), Vec::<String>::new());
    assert_eq!(engine.complete_query("", 5), Vec::<String>::new());
}

#[test]
fn environment_names_the_browser() {
    assert!(matches!(WebEnv::Browser, WebEnv::Browser));
}

fn next_random(state: &mut u64) -> u64 {
    *state = state.wrapping_mul(6364136223846793005).wrapping_add(1442695040888963407);
    *state >> 33
}

fn random_word(state: &mut u64, alphabet: &[char], longest: u64) -> String {
    let length = 1 + next_random(state) % longest;
    (0..length).map(|_| alphabet[(next_random(state) % alphabet.len() as u64) as usize]).collect()
}

#[test]
fn automaton_scan_agrees_with_measuring_every_token() {
    let mut state = 0x5eed_u64;
    let letters = ['a', 'b', 'c', 'é', '語'];
    let ascii = ['a', 'b', 'c'];
    for _ in 0..40 {
        let mut vocabulary: Vec<String> = (0..30).map(|_| random_word(&mut state, &letters, 5)).collect();
        vocabulary.sort();
        vocabulary.dedup();
        let text = vocabulary.join(" ");
        let engine = engine_of(&[text.as_str()], 0);
        assert_eq!(engine.index().len(), vocabulary.len());
        for _ in 0..10 {
            let query = random_word(&mut state, &ascii, 5);
            for max in 0..4 {
                let expected: Vec<(usize, usize)> = vocabulary
                    .iter()
                    .enumerate()
                    .map(|(position, token)| (position, edits(&query, token)))
                    .filter(|(_, distance)| *distance <= max)
                    .collect();
                assert_eq!(engine.index().tokens_in_distance(&query, max).expect("scan"), expected);
            }
        }
    }
}

#[test]
fn prefix_scan_agrees_with_testing_every_token() {
    let mut state = 0xfeed_u64;
    let letters = ['a', 'b', 'é'];
    for _ in 0..40 {
        let mut vocabulary: Vec<String> = (0..30).map(|_| random_word(&mut state, &letters, 4)).collect();
        vocabulary.sort();
        vocabulary.dedup();
        let text = vocabulary.join(" ");
        let engine = engine_of(&[text.as_str()], 0);
        for _ in 0..10 {
            let prefix = random_word(&mut state, &letters, 3);
            let expected: Vec<usize> = vocabulary
                .iter()
                .enumerate()
                .filter(|(_, token)| token.starts_with(&prefix))
                .map(|(position, _)| position)
                .collect();
            assert_eq!(engine.index().tokens_with_prefix(&prefix), expected);
        }
    }
}

fn has_white_space_property(c: char) -> bool {
    matches!(
        c as u32,
        0x0009..=0x000D
            | 0x0020
            | 0x0085
            | 0x00A0
            | 0x1680
            | 0x2000..=0x200A
            | 0x2028
            | 0x2029
            | 0x202F
            | 0x205F
            | 0x3000
    )
}

#[test]
fn tokenizer_splits_on_every_white_space_character_and_no_other() {
    let mut text = String::new();
    for code in 0..=0x10FFFF_u32 {
        if let Some(c) = char::from_u32(code) {
            text.clear();
            text.push('a');
            text.push(c);
            text.push('b');
            let expected = if has_white_space_property(c) { 2 } else { 1 };
            assert_eq!(default_tokenizer(&text).len(), expected);
        }
    }
}

#[test]
fn tokenizer_makes_the_capital_letters_of_ascii_small() {
    for code in 0..128_u8 {
        let c = code as char;
        if c.is_whitespace() {
            continue;
        }
        let small = if c.is_ascii_uppercase() { (code + 32) as char } else { c };
        assert_eq!(default_tokenizer(&c.to_string()), vec![small.to_string()]);
        let word = format!("x{}Y{}{}", c, c, c);
        let expected = format!("x{}y{}{}", small, small, small);
        assert_eq!(default_tokenizer(&word), vec![expected]);
    }
    assert_eq!(default_tokenizer("ShAzAm BATMAN"), strings(&["shazam", "batman"]));
}
