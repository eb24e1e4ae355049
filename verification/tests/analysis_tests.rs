use nico_title::analyze::title_patterns;
use nico_title::analyze_results::{analysis_row, categorize_mismatch, extract_span_from_bio, MismatchKind};
use nico_title::annotate::{batch_prompt, batch_range, json_array_text};
use nico_title::compare::length_summary;
use nico_title::crf::Label;
use nico_title::dataset::tsv_fields;
use nico_title::download::next_page_offset;
use nico_title::features::FeatureExtractor;

#[test]
fn span_is_first_bio_chunk() {
    assert_eq!(extract_span_from_bio("abcdef", &[Label::O, Label::B, Label::I, Label::O, Label::B, Label::I]), "bc");
    assert_eq!(extract_span_from_bio("abcdef", &[Label::O, Label::O, Label::B, Label::I, Label::I, Label::I]), "cdef");
    assert_eq!(extract_span_from_bio("abcdef", &[Label::O, Label::I, Label::O, Label::O]), "");
    // A new Label::B closes the open span.
    assert_eq!(extract_span_from_bio("abcdef", &[Label::B, Label::I, Label::B, Label::I, Label::O]), "ab");
    assert_eq!(extract_span_from_bio("abcd", &[Label::B, Label::B, Label::I, Label::O]), "a");
    // An unclosed span runs to the end of the title, past the labels.
    assert_eq!(extract_span_from_bio("abcdef", &[Label::B, Label::I]), "abcdef");
}

#[test]
fn mismatch_kinds() {
    assert_eq!(categorize_mismatch("", "曲名"), MismatchKind::EmptyPrediction);
    assert_eq!(categorize_mismatch("曲", "曲名"), MismatchKind::PartialPrediction);
    assert_eq!(categorize_mismatch("名", "曲名"), MismatchKind::DifferentSpan);
    assert_eq!(categorize_mismatch("曲名x", "曲名"), MismatchKind::DifferentSpan);
    assert_eq!(categorize_mismatch("曲名", "曲名"), MismatchKind::Agree);
}

#[test]
fn analysis_row_fields() {
    let row = analysis_row("曲名 / x", "曲名", &[Label::B, Label::I, Label::O, Label::O, Label::O, Label::O], &[Label::B, Label::O, Label::O, Label::O, Label::O, Label::O]);
    assert_eq!(row.crf_extracted, "曲");
    assert!(!row.match_llm_crf);
    assert_eq!(row.gold_labels, vec!["B", "I", "O", "O", "O", "O"]);
    assert_eq!(row.pred_labels, vec!["B", "O", "O", "O", "O", "O"]);
    let row = analysis_row("曲名 / x", "曲名", &[], &[Label::B, Label::I, Label::O]);
    assert!(row.match_llm_crf);
}

#[test]
fn tsv_lines() {
    assert_eq!(
        tsv_fields("sm1\t千本桜\textra"),
        Some(("sm1".to_string(), "千本桜".to_string()))
    );
    assert_eq!(tsv_fields("sm1\t"), Some(("sm1".to_string(), "".to_string())));
    assert_eq!(tsv_fields("no tab"), None);
}

#[test]
fn patterns_of_titles() {
    let p = title_patterns("【MV】曲 / ボカロ feat. x");
    assert!(p.slash_separator && p.feat && p.japanese_brackets && p.starts_with_bracket);
    assert!(!p.dash_separator && !p.japanese_parens && !p.square_brackets && !p.round_parens);
    let q = title_patterns("a - b (c) [d]（e）");
    assert!(q.dash_separator && q.round_parens && q.square_brackets && q.japanese_parens);
    assert!(!q.starts_with_bracket && !q.feat);
}

#[test]
fn json_array_in_reply() {
    assert_eq!(
        json_array_text("Here: [{\"a\": 1}] done"),
        Some("[{\"a\": 1}]".to_string())
    );
    assert_eq!(json_array_text("[1] and [2]"), Some("[1] and [2]".to_string()));
    assert_eq!(json_array_text("no array"), None);
    assert_eq!(json_array_text("]["), Some("".to_string()));
}

#[test]
fn batches() {
    assert_eq!(batch_range(0, 20, 45), Some((0, 20)));
    assert_eq!(batch_range(2, 20, 45), Some((40, 45)));
    assert_eq!(batch_range(3, 20, 45), None);
    assert_eq!(batch_range(0, 20, 0), None);
}

#[test]
fn summary_of_lengths() {
    assert_eq!(length_summary(vec![5, 1, 3, 9]), Some((1, 5, 9)));
    assert_eq!(length_summary(vec![7]), Some((7, 7, 7)));
    assert_eq!(length_summary(vec![]), None);
}

#[test]
fn paging() {
    assert_eq!(next_page_offset(0, 100, 100), Some(100));
    assert_eq!(next_page_offset(0, 99, 99), None);
    assert_eq!(next_page_offset(1500, 100, 1600), None);
    assert_eq!(next_page_offset(1400, 100, 1500), Some(1500));
}

#[test]
fn features_of_whole_title() {
    let mut ext = FeatureExtractor::new();
    let seqs = ext.title_features("abcd");
    assert_eq!(seqs.len(), 4);
    let mut again = FeatureExtractor::new();
    for (i, s) in seqs.iter().enumerate() {
        assert_eq!(&again.extract_features("abcd", i), s);
    }
    assert_eq!(ext.feature_map.keys(), again.feature_map.keys());
    assert!(FeatureExtractor::new().title_features("").is_empty());
}

#[test]
fn prompt_for_a_batch() {
    let batch = vec!["曲 / 初音ミク".to_string(), "b".to_string()];
    let expected = "以下の 2 個のニコニコ動画ボカロ曲タイトルをアノテーションしてください。\n\
                    各タイトルに対して、抽出された曲名を以下の JSON 配列形式で返してください。\n\n\
                    タイトル一覧:\n1. 曲 / 初音ミク\n2. b\n\n\
                    JSON 配列形式で応答してください: [{\"title\": \"...\", \"extracted_title\": \"...\"}]";
    assert_eq!(batch_prompt(&batch), expected);
    let twelve: Vec<String> = (0..12).map(|i| format!("t{}", i)).collect();
    let p = batch_prompt(&twelve);
    assert!(p.starts_with("以下の 12 個の"));
    assert!(p.contains("\n10. t9\n11. t10\n12. t11\n\n"));
    assert!(batch_prompt(&[]).contains("タイトル一覧:\n\n\n"));
}
