use nico_title::analyze::{pattern_counts, ranked_patterns};
use nico_title::bio::AnnotationRow;
use nico_title::compare::{compare_annotations, distinct_titles, extraction_lengths, match_counts};

fn row(title: &str, extracted: &str) -> AnnotationRow {
    AnnotationRow { title: title.to_string(), extracted_title: extracted.to_string() }
}

#[test]
fn later_rows_replace_earlier_ones() {
    let rows = vec![row("a", "x"), row("b", "y"), row("a", "z")];
    assert_eq!(distinct_titles(&rows), 2);
    let rule = vec![row("a", "z")];
    let cs = compare_annotations(&rows, &rule);
    assert_eq!(cs.len(), 1);
    assert_eq!(cs[0].title, "a");
    assert_eq!(cs[0].llm_based, "z");
    assert_eq!(cs[0].rule_based, "z");
    assert!(cs[0].match_flag);
}

#[test]
fn only_shared_titles_are_compared() {
    let llm = vec![row("夜に駆ける / 初音ミク", "夜に駆ける"), row("only llm", "o"), row("曲 - IA", "曲")];
    let rule = vec![row("曲 - IA", "曲 - IA"), row("only rule", "r"), row("夜に駆ける / 初音ミク", "夜に駆ける")];
    let mut cs = compare_annotations(&llm, &rule);
    cs.sort_by(|a, b| a.title.cmp(&b.title));
    assert_eq!(cs.len(), 2);
    assert_eq!(cs[0].title, "夜に駆ける / 初音ミク");
    assert!(cs[0].match_flag);
    assert_eq!(cs[1].title, "曲 - IA");
    assert_eq!(cs[1].rule_based, "曲 - IA");
    assert_eq!(cs[1].llm_based, "曲");
    assert!(!cs[1].match_flag);
    assert_eq!(match_counts(&cs), (1, 1));
}

#[test]
fn no_shared_titles() {
    let cs = compare_annotations(&[row("a", "a")], &[row("b", "b")]);
    assert!(cs.is_empty());
    assert_eq!(match_counts(&cs), (0, 0));
    assert_eq!(distinct_titles(&[]), 0);
}

#[test]
fn lengths_are_utf8_bytes() {
    let cs = compare_annotations(&[row("t", "曲名"), row("u", "ab")], &[row("t", "abc"), row("u", "ab")]);
    let (rule, llm) = extraction_lengths(&cs);
    let mut pairs: Vec<(usize, usize)> = rule.into_iter().zip(llm).collect();
    pairs.sort();
    assert_eq!(pairs, vec![(2, 2), (3, 6)]);
}

#[test]
fn pattern_tallies() {
    let titles: Vec<String> = vec![
        "【MV】曲 / 初音ミク".to_string(),
        "曲 - sub feat. IA".to_string(),
        "曲（IA）[MV](short)".to_string(),
        "plain".to_string(),
    ];
    let c = pattern_counts(&titles);
    assert_eq!(c.slash_separator, 1);
    assert_eq!(c.dash_separator, 1);
    assert_eq!(c.feat, 1);
    assert_eq!(c.japanese_brackets, 1);
    assert_eq!(c.starts_with_bracket, 1);
    assert_eq!(c.japanese_parens, 1);
    assert_eq!(c.square_brackets, 1);
    assert_eq!(c.round_parens, 1);
    let none = pattern_counts(&[]);
    assert_eq!(none.feat, 0);
}

#[test]
fn patterns_ranked_by_count() {
    let titles: Vec<String> = vec![
        "曲 / IA feat. x".to_string(),
        "曲 / IA".to_string(),
        "【MV】曲 / IA".to_string(),
        "曲 feat. x".to_string(),
    ];
    let ranked = ranked_patterns(&pattern_counts(&titles));
    assert_eq!(ranked[0], ("slash_separator", 3));
    assert_eq!(ranked[1], ("feat", 2));
    let mut rest: Vec<(&str, usize)> = ranked[2..].to_vec();
    rest.sort();
    assert_eq!(rest, vec![("japanese_brackets", 1), ("starts_with_bracket", 1)]);
    assert!(ranked_patterns(&pattern_counts(&[])).is_empty());
}
