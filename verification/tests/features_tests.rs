use nico_title::features::{CharType, FeatureExtractor};

#[test]
fn test_char_type_kanji() {
    assert_eq!(CharType::of('曲'), CharType::Kanji);
}

#[test]
fn test_char_type_hiragana() {
    assert_eq!(CharType::of('ぎ'), CharType::Hiragana);
}

#[test]
fn test_char_type_katakana() {
    assert_eq!(CharType::of('ミ'), CharType::Katakana);
}

#[test]
fn test_char_type_ascii() {
    assert_eq!(CharType::of('a'), CharType::AsciiLetter);
    assert_eq!(CharType::of('5'), CharType::AsciiDigit);
}

#[test]
fn test_feature_extractor() {
    let mut ext = FeatureExtractor::new();
    let features = ext.extract_features("曲名 / ボカロ", 0);
    assert!(!features.is_empty());
    assert!(ext.feature_map.contains_key("is_start"));
}

#[test]
fn test_separator_distance() {
    let mut ext = FeatureExtractor::new();
    let features = ext.extract_features("曲名 / ボカロ", 3);
    assert!(!features.is_empty());
}

#[test]
fn char_type_other_kinds() {
    assert_eq!(CharType::of('/'), CharType::AsciiSymbol);
    assert_eq!(CharType::of('Ａ'), CharType::FullwidthKana);
    assert_eq!(CharType::of(' '), CharType::Space);
    assert_eq!(CharType::of('\u{3000}'), CharType::Hiragana);
    assert_eq!(CharType::of('é'), CharType::Other);
    assert_eq!(CharType::of('、'), CharType::Hiragana);
}

#[test]
fn char_type_fullwidth_brackets() {
    for c in ['【', '】', '「', '」', '『', '』', '〈', '》', '〔', '〛', '（', '）'] {
        assert_eq!(CharType::of(c), CharType::FullwidthSymbol, "{}", c);
    }
    assert_eq!(CharType::of('［'), CharType::FullwidthKana);
    assert_eq!(CharType::of('〜'), CharType::Hiragana);
}

#[test]
fn char_type_names() {
    assert_eq!(CharType::Kanji.name(), "kanji");
    assert_eq!(CharType::FullwidthSymbol.name(), "fullwidth_symbol");
    assert_eq!(CharType::Other.name(), "other");
}

#[test]
fn feature_strings_at_start() {
    let mut ext = FeatureExtractor::new();
    let ids = ext.extract_features("曲名 / ボカロ", 0);
    let keys: Vec<&str> = ext.feature_map.keys().iter().map(|s| s.as_str()).collect();
    assert_eq!(
        keys,
        vec!["char_type:kanji", "is_start", "next_type:kanji", "sep_dist:/:3", "pos:start"]
    );
    assert_eq!(ids, vec![0, 1, 2, 3, 4]);
}

#[test]
fn feature_strings_near_separators() {
    let mut ext = FeatureExtractor::new();
    // Position 4 is one after "/" (at 3) and three before "feat." (at 7).
    let ids = ext.extract_features("ab /cd feat.x", 4);
    let keys: Vec<&str> = ext.feature_map.keys().iter().map(|s| s.as_str()).collect();
    assert_eq!(
        keys,
        vec![
            "char_type:ascii_letter",
            "prev_type:ascii_symbol",
            "next_type:ascii_letter",
            "sep_dist:/:1",
            "sep_dist:feat_:3",
        ]
    );
    assert_eq!(ids.len(), 5);
}

#[test]
fn feature_ids_are_reused() {
    let mut ext = FeatureExtractor::new();
    let a = ext.extract_features("abcdef", 2);
    let n = ext.feature_map.len();
    let b = ext.extract_features("abcdef", 2);
    assert_eq!(a, b);
    assert_eq!(ext.feature_map.len(), n);
}

#[test]
fn position_past_end_has_no_features() {
    let mut ext = FeatureExtractor::new();
    assert!(ext.extract_features("ab", 5).is_empty());
    assert!(ext.feature_map.is_empty());
}

#[test]
fn feature_strings_at_end() {
    let mut ext = FeatureExtractor::new();
    ext.extract_features("abcd", 3);
    let keys: Vec<&str> = ext.feature_map.keys().iter().map(|s| s.as_str()).collect();
    assert_eq!(
        keys,
        vec!["char_type:ascii_letter", "prev_type:ascii_letter", "is_end", "pos:end"]
    );
}

#[test]
fn position_ids_distinct_and_bounded() {
    let mut ext = FeatureExtractor::new();
    for title in ["a/／【】feat.Vo._b", "/【】", "曲名 / ボカロ", "abc"] {
        let n = title.chars().count();
        for idx in 0..n {
            let ids = ext.extract_features(title, idx);
            assert!(ids.len() >= 3 && ids.len() <= 13, "{} {}", title, idx);
            let mut sorted = ids.clone();
            sorted.sort();
            sorted.dedup();
            assert_eq!(sorted.len(), ids.len());
            assert!(ids.iter().all(|&i| i < ext.feature_map.len()));
        }
    }
    // Position 1 of a three-character title is start, end and middle at once.
    let ids = ext.extract_features("/【】", 1);
    assert_eq!(ids.len(), 9);
}
