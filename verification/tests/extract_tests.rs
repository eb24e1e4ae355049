use nico_title::extract::extract_song_title;

#[test]
fn test_bracket_prefix() {
    assert_eq!(
        extract_song_title("【初音ミク】ごめんなさい 【オリジナル曲】"),
        "ごめんなさい"
    );
}

#[test]
fn test_bracket_mv_prefix() {
    assert_eq!(extract_song_title("【MV】彼は誰メロディ"), "彼は誰メロディ");
}

#[test]
fn test_slash_with_spaces() {
    assert_eq!(extract_song_title("千本桜 / 初音ミク"), "千本桜");
}

#[test]
fn test_slash_no_space() {
    assert_eq!(extract_song_title("テトライド/重音テト"), "テトライド");
}

#[test]
fn test_slash_fullwidth() {
    assert_eq!(
        extract_song_title("怠惰でありたい／初音ミク"),
        "怠惰でありたい"
    );
}

#[test]
fn test_slash_feat_combo() {
    assert_eq!(
        extract_song_title("アフターブーケ / 何番サンダー feat. 夏色花梨"),
        "アフターブーケ"
    );
}

#[test]
fn test_creator_japanese_quotes() {
    assert_eq!(
        extract_song_title("utage「mirroring」- 初音ミク"),
        "mirroring"
    );
}

#[test]
fn test_creator_japanese_double_quotes() {
    assert_eq!(
        extract_song_title("稲葉曇『ラグトレイン』Vo. 歌愛ユキ"),
        "ラグトレイン"
    );
}

#[test]
fn test_creator_quotes_feat() {
    assert_eq!(
        extract_song_title("Chinozo「グッバイ宣言」feat. flower"),
        "グッバイ宣言"
    );
}

#[test]
fn test_underscore_separator() {
    assert_eq!(extract_song_title("桜のrunway_初音ミク"), "桜のrunway");
}

#[test]
fn test_feat_no_slash() {
    assert_eq!(
        extract_song_title("傀儡的フォルティシモ\u{3000}feat.初音ミク"),
        "傀儡的フォルティシモ"
    );
}

#[test]
fn test_square_brackets() {
    assert_eq!(extract_song_title("[MV] DIVA - Nebula"), "DIVA - Nebula");
}

#[test]
fn test_no_extraction_needed() {
    assert_eq!(extract_song_title("シンプルな曲名"), "シンプルな曲名");
}

// Edge cases of the rules.

#[test]
fn quotes_at_start_are_not_a_creator_pattern() {
    // The opening quote is the first character, so rule 0 does not apply and
    // the quote characters survive the later rules.
    assert_eq!(extract_song_title("「曲名」"), "「曲名」");
}

#[test]
fn empty_quotes_fall_through_to_double_quotes() {
    assert_eq!(extract_song_title("a「 」b『曲』"), "曲");
}

#[test]
fn nested_brackets_are_removed_whole() {
    assert_eq!(extract_song_title("【a【b】c】曲名"), "曲名");
}

#[test]
fn unmatched_close_bracket_is_dropped() {
    assert_eq!(extract_song_title("曲】名"), "曲名");
}

#[test]
fn fullwidth_parens_removed() {
    assert_eq!(extract_song_title("曲名（ショート版）"), "曲名");
}

#[test]
fn first_feat_separator_in_list_order_wins() {
    assert_eq!(extract_song_title("曲 ft. A feat. B"), "曲 ft. A");
}

#[test]
fn empty_title() {
    assert_eq!(extract_song_title(""), "");
}

#[test]
fn whitespace_only_title() {
    assert_eq!(extract_song_title(" \u{3000} "), "");
}
