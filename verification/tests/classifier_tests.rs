use nico_title::classifier::classify;

#[test]
fn test_positive() {
    assert!(classify("【歌ってみた】千本桜"));
    assert!(classify("千本桜カバー【歌った】"));
    assert!(classify("弾き語り"));
}

#[test]
fn test_negative() {
    assert!(!classify("【MMD】千本桜"));
    assert!(!classify("【歌ってみた】ボカロ版"));
    assert!(!classify("千本桜 メドレー"));
}

#[test]
fn case_is_ignored() {
    assert!(classify("COVER"));
    assert!(!classify("Cover by VOCALOID"));
}

#[test]
fn empty_title_is_not_a_cover() {
    assert!(!classify(""));
}

#[test]
fn verdict_on_lowercased_lists() {
    use_verdict();
}

fn use_verdict() {
    let neg = vec!["ボカロ".to_string()];
    let pos = vec!["cover".to_string(), "歌って".to_string()];
    assert!(nico_title::classifier::keyword_verdict("a cover", &neg, &pos));
    assert!(!nico_title::classifier::keyword_verdict("ボカロ cover", &neg, &pos));
    assert!(!nico_title::classifier::keyword_verdict("COVER", &neg, &pos));
    assert!(!nico_title::classifier::keyword_verdict("anything", &[], &[]));
}
