use nico_title::ngram::{build_vocab, extract, normalize, vectorize};

#[test]
fn trigram_basic() {
    let g = extract("abcde", 3, 3);
    assert!(g.contains("abc"));
    assert!(g.contains("bcd"));
    assert!(g.contains("cde"));
    assert_eq!(g.len(), 3);
}

#[test]
fn range_3_5() {
    let g = extract("abcde", 3, 5);
    assert!(g.contains("abc"));
    assert!(g.contains("abcd"));
    assert!(g.contains("abcde"));
}

#[test]
fn shorter_than_n_returns_empty() {
    assert!(extract("ab", 3, 5).is_empty());
}

#[test]
fn repeated_grams_counted_once() {
    let g = extract("aaaa", 2, 3);
    assert_eq!(g.len(), 2);
    assert!(g.contains("aa"));
    assert!(g.contains("aaa"));
    assert!(!g.contains("aaaa"));
}

#[test]
fn grams_of_multibyte_text() {
    let g = extract("千本桜", 2, 2);
    assert_eq!(g.len(), 2);
    assert!(g.contains("千本"));
    assert!(g.contains("本桜"));
}

#[test]
fn empty_range_gives_no_grams() {
    assert!(extract("abcdef", 4, 3).is_empty());
}

#[test]
fn huge_upper_bound() {
    let g = extract("abc", 1, usize::MAX);
    assert_eq!(g.len(), 6);
}

#[test]
fn normalize_folds_width_and_case() {
    assert_eq!(normalize("ＡＢＣ"), "abc");
    assert_eq!(normalize("Cover"), "cover");
    assert_eq!(normalize("ｶﾊﾞｰ"), "カバー");
}

#[test]
fn vocab_ids_are_dense_and_distinct() {
    let texts = vec!["abcd".to_string(), "bcde".to_string()];
    let vocab = build_vocab(&texts, 3, 3);
    let mut keys: Vec<String> = vocab.keys().clone();
    keys.sort();
    assert_eq!(keys, vec!["abc", "bcd", "cde"]);
    for (i, k) in vocab.keys().iter().enumerate() {
        assert_eq!(vocab.get(k), Some(i));
    }
}

#[test]
fn vectorize_picks_known_grams() {
    let texts = vec!["abcd".to_string()];
    let vocab = build_vocab(&texts, 3, 3);
    let mut ids = vectorize("xbcdx", &vocab, 3, 3);
    ids.sort();
    assert_eq!(ids, vec![vocab.get("bcd").unwrap()]);
    assert!(vectorize("zzzz", &vocab, 3, 3).is_empty());
}
