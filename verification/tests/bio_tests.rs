use nico_title::analyze_results::extract_span_from_bio;
use nico_title::bio::{convert_to_bio, gold_labels, BioDocument, BioToken};
use nico_title::crf::Label;

#[test]
fn test_exact_match() {
    let doc = convert_to_bio("曲名", "曲名").unwrap();
    assert_eq!(doc.tokens.len(), 2);
    assert_eq!(doc.tokens[0].tag, "B");
    assert_eq!(doc.tokens[1].tag, "I");
}

#[test]
fn test_substring_at_start() {
    let doc = convert_to_bio("曲名 / ボカロ名", "曲名").unwrap();
    assert_eq!(doc.tokens[0].tag, "B");
    assert_eq!(doc.tokens[1].tag, "I");
    assert_eq!(doc.tokens[2].tag, "O");
    assert_eq!(doc.tokens[3].tag, "O");
}

#[test]
fn test_substring_in_middle() {
    let doc = convert_to_bio("【MV】曲名【オリジナル】", "曲名").unwrap();
    let b_count = doc.tokens.iter().filter(|t| t.tag == "B").count();
    let i_count = doc.tokens.iter().filter(|t| t.tag == "I").count();
    assert_eq!(b_count, 1);
    assert_eq!(i_count, 1);
}

#[test]
fn test_no_match_returns_none() {
    let result = convert_to_bio("タイトル", "別の曲名");
    assert!(result.is_none());
}

#[test]
fn tokens_hold_each_character() {
    let doc = convert_to_bio("ab曲c", "曲").unwrap();
    let chars: Vec<&str> = doc.tokens.iter().map(|t| t.char.as_str()).collect();
    assert_eq!(chars, vec!["a", "b", "曲", "c"]);
    let tags: Vec<&str> = doc.tokens.iter().map(|t| t.tag.as_str()).collect();
    assert_eq!(tags, vec!["O", "O", "B", "O"]);
    assert_eq!(doc.title, "ab曲c");
    assert_eq!(doc.extracted_title, "曲");
}

#[test]
fn first_occurrence_is_tagged() {
    let doc = convert_to_bio("abab", "ab").unwrap();
    let tags: Vec<&str> = doc.tokens.iter().map(|t| t.tag.as_str()).collect();
    assert_eq!(tags, vec!["B", "I", "O", "O"]);
}

#[test]
fn empty_extraction_tags_everything_outside() {
    let doc = convert_to_bio("abc", "").unwrap();
    assert!(doc.tokens.iter().all(|t| t.tag == "O"));
}

#[test]
fn longer_extraction_has_no_document() {
    assert!(convert_to_bio("ab", "abc").is_none());
}

#[test]
fn round_trip_through_labels() {
    for (title, song) in [
        ("【MV】曲名【オリジナル】", "曲名"),
        ("千本桜 / 初音ミク", "千本桜"),
        ("x / 終わり", "終わり"),
        ("abc", ""),
    ] {
        let doc = convert_to_bio(title, song).unwrap();
        let labels: Vec<Label> = doc.tokens.iter().map(|t| Label::from_str(&t.tag).unwrap()).collect();
        assert_eq!(extract_span_from_bio(title, &labels), song);
    }
}

#[test]
fn gold_labels_skip_unknown_tags() {
    let doc = BioDocument {
        title: "abc".to_string(),
        extracted_title: "b".to_string(),
        tokens: vec![
            BioToken { char: "a".to_string(), tag: "O".to_string() },
            BioToken { char: "b".to_string(), tag: "X".to_string() },
            BioToken { char: "c".to_string(), tag: "B".to_string() },
            BioToken { char: "d".to_string(), tag: "I".to_string() },
        ],
    };
    assert_eq!(gold_labels(&doc), vec![Label::O, Label::B]);
}
