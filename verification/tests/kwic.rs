use kwic::pipeline::{format_output, kwic_index, no_op};
use kwic::rotate::generate_circular_shifts;
use kwic::sort::order_shifted_pairs;
use kwic::tokenize::split_into_keywords;

fn stop_words() -> Vec<String> {
    vec!["a", "the", "is", "on", "at", "sat"].into_iter().map(String::from).collect()
}

fn pair(a: &str, b: &str) -> (String, String) {
    (String::from(a), String::from(b))
}

#[test]
fn scenario_single_title() {
    let lines = vec![String::from("the cat sat on the mat")];
    let pairs = split_into_keywords(lines, stop_words());
    assert_eq!(
        pairs,
        vec![
            pair("cat", "the cat sat on the mat"),
            pair("mat", "the cat sat on the mat"),
        ]
    );
    let shifted = generate_circular_shifts(pairs);
    assert_eq!(
        shifted,
        vec![
            pair("cat sat on the mat the", "the cat sat on the mat"),
            pair("mat the cat sat on the", "the cat sat on the mat"),
        ]
    );
    let ordered = order_shifted_pairs(shifted);
    assert_eq!(
        ordered,
        vec![
            pair("cat sat on the mat the", "the cat sat on the mat"),
            pair("mat the cat sat on the", "the cat sat on the mat"),
        ]
    );
    let out = format_output(ordered);
    assert_eq!(
        out,
        vec![
            pair("cat sat on the mat the", "(from: the cat sat on the mat)"),
            pair("mat the cat sat on the", "(from: the cat sat on the mat)"),
        ]
    );
}

#[test]
fn scenario_empty_input() {
    let out = kwic_index(Vec::new(), stop_words());
    assert_eq!(out.len(), 0);
}

#[test]
fn scenario_only_stop_words() {
    let lines = vec![String::from("the a is on")];
    let pairs = split_into_keywords(lines, stop_words());
    assert_eq!(pairs.len(), 0);
}

#[test]
fn word_multiset_preserved() {
    let lines = vec![String::from("Star Wars strikes back")];
    let out = kwic_index(lines, stop_words());
    assert_eq!(out.len(), 4);
    for (rotated, _) in &out {
        let mut rotated_words: Vec<&str> = rotated.split(' ').collect();
        let mut title_words: Vec<&str> = "Star Wars strikes back".split(' ').collect();
        rotated_words.sort();
        title_words.sort();
        assert_eq!(rotated_words, title_words);
    }
}

#[test]
fn one_rotation_per_surviving_token() {
    let lines = vec![
        String::from("the cat sat on the mat"),
        String::from("a dog and a dog"),
        String::from("the a is on"),
    ];
    // Surviving tokens: cat, mat; dog, and, dog; none. Duplicates each count.
    let shifted = generate_circular_shifts(split_into_keywords(lines, stop_words()));
    assert_eq!(shifted.len(), 5);
}

#[test]
fn keyword_leads_each_rotation() {
    let lines = vec![String::from("The Quick Brown Fox")];
    let pairs = split_into_keywords(lines, stop_words());
    let keywords: Vec<String> = pairs.iter().map(|p| p.0.clone()).collect();
    assert_eq!(keywords, vec!["quick", "brown", "fox"]);
    let shifted = generate_circular_shifts(pairs);
    for (i, (rotated, _)) in shifted.iter().enumerate() {
        let first = rotated.split(' ').next().unwrap().to_lowercase();
        assert_eq!(first, keywords[i]);
    }
}

#[test]
fn no_stop_word_becomes_a_keyword() {
    let lines = vec![
        String::from("The Cat SAT on a Mat"),
        String::from("at the zoo"),
    ];
    let pairs = split_into_keywords(lines, stop_words());
    let stops = stop_words();
    for (keyword, _) in &pairs {
        assert!(!stops.contains(keyword));
        assert!(!keyword.is_empty());
    }
    let keywords: Vec<String> = pairs.into_iter().map(|p| p.0).collect();
    assert_eq!(keywords, vec!["cat", "mat", "zoo"]);
}

#[test]
fn sorted_case_insensitively_by_rotated_text() {
    let lines = vec![
        String::from("Zebra art"),
        String::from("apple Zoo"),
        String::from("MANGO bay"),
    ];
    let out = kwic_index(lines, stop_words());
    assert_eq!(out.len(), 6);
    for adjacent in out.windows(2) {
        let left = adjacent[0].0.to_lowercase();
        let right = adjacent[1].0.to_lowercase();
        assert!(left <= right);
    }
}

#[test]
fn rotation_is_idempotent() {
    let lines = vec![String::from("the cat sat on the mat")];
    let shifted = generate_circular_shifts(split_into_keywords(lines, stop_words()));
    let again: Vec<(String, String)> = shifted
        .iter()
        .map(|p| {
            let keyword = p.0.split(' ').next().unwrap().to_lowercase();
            (keyword, p.0.clone())
        })
        .collect();
    let rotated_again = generate_circular_shifts(again);
    for (twice, once) in rotated_again.iter().zip(shifted.iter()) {
        assert_eq!(twice.0, once.0);
    }
}

#[test]
fn punctuation_is_stripped_from_keywords() {
    let lines = vec![String::from("hello, world!")];
    let pairs = split_into_keywords(lines, stop_words());
    assert_eq!(pairs, vec![pair("hello", "hello, world!"), pair("world", "hello, world!")]);
}

#[test]
fn punctuation_only_tokens_are_dropped() {
    let lines = vec![String::from("--- stars *** align ---")];
    let pairs = split_into_keywords(lines, stop_words());
    assert_eq!(
        pairs,
        vec![pair("stars", "--- stars *** align ---"), pair("align", "--- stars *** align ---")]
    );
}

#[test]
fn unmatched_keyword_leaves_title_order_unchanged() {
    // The cleaned keyword "mat" never equals the lower-cased word "mat.",
    // so the bounded rotation cycles back to the original order.
    let lines = vec![String::from("on the mat.")];
    let shifted = generate_circular_shifts(split_into_keywords(lines, stop_words()));
    assert_eq!(shifted, vec![pair("on the mat.", "on the mat.")]);
}

#[test]
fn repeated_whitespace_separates_words_once() {
    let lines = vec![String::from("  deep   blue  sea ")];
    let shifted = generate_circular_shifts(split_into_keywords(lines, stop_words()));
    assert_eq!(
        shifted,
        vec![
            pair("deep blue sea", "  deep   blue  sea "),
            pair("blue sea deep", "  deep   blue  sea "),
            pair("sea deep blue", "  deep   blue  sea "),
        ]
    );
}

#[test]
fn formatting_wraps_the_title() {
    let out = format_output(vec![pair("sea deep", "deep sea")]);
    assert_eq!(out, vec![pair("sea deep", "(from: deep sea)")]);
}

#[test]
fn sorting_orders_mixed_case_texts() {
    let shuffled = vec![
        pair("Banana split", "t1"),
        pair("apple pie", "t2"),
        pair("CHERRY cake", "t3"),
    ];
    let ordered = order_shifted_pairs(shuffled);
    assert_eq!(
        ordered,
        vec![
            pair("apple pie", "t2"),
            pair("Banana split", "t1"),
            pair("CHERRY cake", "t3"),
        ]
    );
}

#[test]
fn pipeline_end_matches_stage_by_stage_run() {
    let lines = vec![String::from("the quick brown fox"), String::from("lazy dogs sleep")];
    let by_stages = format_output(order_shifted_pairs(generate_circular_shifts(
        split_into_keywords(lines.clone(), stop_words()),
    )));
    let at_once = kwic_index(lines, stop_words());
    no_op();
    assert_eq!(by_stages, at_once);
}

#[test]
fn default_stop_words_are_the_fixed_six() {
    let expected: Vec<String> =
        vec!["a", "the", "is", "on", "at", "sat"].into_iter().map(String::from).collect();
    assert_eq!(kwic::tokenize::default_stop_words(), expected);
}

#[test]
fn rendered_lines_join_text_and_wrapped_title() {
    let lines = kwic::pipeline::render_lines(vec![(
        String::from("cat sat on the mat the"),
        String::from("(from: the cat sat on the mat)"),
    )]);
    assert_eq!(lines, vec![String::from("cat sat on the mat the : (from: the cat sat on the mat)")]);
}

#[test]
fn accented_letters_are_alphanumeric() {
    let lines = vec![String::from("\u{e9}")];
    let pairs = split_into_keywords(lines, Vec::new());
    assert_eq!(pairs, vec![pair("\u{e9}", "\u{e9}")]);
}

#[test]
fn accented_keyword_matches_its_own_word() {
    let lines = vec![String::from("\u{c9}douard paints")];
    let pairs = split_into_keywords(lines, stop_words());
    assert_eq!(
        pairs,
        vec![
            pair("\u{e9}douard", "\u{c9}douard paints"),
            pair("paints", "\u{c9}douard paints"),
        ]
    );
    let shifted = generate_circular_shifts(pairs);
    assert_eq!(
        shifted,
        vec![
            pair("\u{c9}douard paints", "\u{c9}douard paints"),
            pair("paints \u{c9}douard", "\u{c9}douard paints"),
        ]
    );
}

#[test]
fn unicode_whitespace_separates_words() {
    let lines = vec![String::from("alpha\u{2003}beta")];
    let shifted = generate_circular_shifts(split_into_keywords(lines, stop_words()));
    assert_eq!(
        shifted,
        vec![
            pair("alpha beta", "alpha\u{2003}beta"),
            pair("beta alpha", "alpha\u{2003}beta"),
        ]
    );
}
