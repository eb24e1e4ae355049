//! Rule-based classifier: does a video title look like a cover ("歌ってみた")?

use vstd::prelude::*;
use crate::text::{chars_of, contains_seq, find_chars, lemma_find_first_props, string_views};
use crate::unicode::{spec_lowercase, to_lowercase};

verus! {

/// Words that mark a sung cover.
pub open spec fn positive_keywords() -> Seq<Seq<char>> {
    seq![
        "歌って"@,
        "うたって"@,
        "唄って"@,
        "歌った"@,
        "うたった"@,
        "唄った"@,
        "歌いました"@,
        "うたいました"@,
        "唄いました"@,
        "歌わせていただき"@,
        "うたわせていただき"@,
        "歌いますた"@,
        "歌いなおし"@,
        "弾き語り"@,
        "カバー"@,
        "cover"@,
        "歌えている"@,
        "原キーで"@,
    ]
}

/// Words that rule a cover out: non-cover videos and voice-synthesis software.
pub open spec fn negative_keywords() -> Seq<Seq<char>> {
    seq![
        "まとめ"@,
        "音源"@,
        "講座"@,
        "配布"@,
        "メドレー"@,
        "予告"@,
        "人力"@,
        "utau"@,
        "vocaloid"@,
        "ボカロ"@,
        "neutrino"@,
        "synthesizerv"@,
        "synthv"@,
        "voiceroid"@,
        "ボイスロイド"@,
        "a.i.voice"@,
        "合成音声"@,
        "nnsvs"@,
        "voicevox"@,
    ]
}

/// Some keyword of `keywords`, lowercased, occurs in `text`.
pub open spec fn has_keyword(text: Seq<char>, keywords: Seq<Seq<char>>) -> bool {
    exists|k: int|
        0 <= k < keywords.len() && contains_seq(text, spec_lowercase(#[trigger] keywords[k]))
}

/// A title looks like a cover when its lowercased form holds no negative
/// keyword and some positive keyword (keywords lowercased as well).
pub open spec fn spec_classify(title: Seq<char>) -> bool {
    let lower = spec_lowercase(title);
    !has_keyword(lower, negative_keywords()) && has_keyword(lower, positive_keywords())
}

/// The verdict, keyword by keyword: any of the words for non-covers and
/// synthesis software (まとめ 音源 講座 配布 メドレー 予告 人力 utau vocaloid
/// ボカロ neutrino synthesizerv synthv voiceroid ボイスロイド a.i.voice 合成音声
/// nnsvs voicevox) in the lowercased title rules a cover out; otherwise any of
/// the singing words (歌って うたって 唄って 歌った うたった 唄った 歌いました
/// うたいました 唄いました 歌わせていただき うたわせていただき 歌いますた 歌いなおし
/// 弾き語り カバー cover 歌えている 原キーで) makes it a cover; a title with
/// neither is no cover.
pub proof fn lemma_classify_by_words(title: Seq<char>)
    ensures
        ({
            let lower = spec_lowercase(title);
            let neg = seq![
                "まとめ"@, "音源"@, "講座"@, "配布"@, "メドレー"@, "予告"@, "人力"@, "utau"@,
                "vocaloid"@, "ボカロ"@, "neutrino"@, "synthesizerv"@, "synthv"@, "voiceroid"@,
                "ボイスロイド"@, "a.i.voice"@, "合成音声"@, "nnsvs"@, "voicevox"@,
            ];
            let pos = seq![
                "歌って"@, "うたって"@, "唄って"@, "歌った"@, "うたった"@, "唄った"@, "歌いました"@,
                "うたいました"@, "唄いました"@, "歌わせていただき"@, "うたわせていただき"@,
                "歌いますた"@, "歌いなおし"@, "弾き語り"@, "カバー"@, "cover"@, "歌えている"@,
                "原キーで"@,
            ];
            let neg_found = exists|j: int| 0 <= j < 19 && #[trigger] contains_seq(lower, spec_lowercase(neg[j]));
            let pos_found = exists|k: int| 0 <= k < 18 && #[trigger] contains_seq(lower, spec_lowercase(pos[k]));
            spec_classify(title) == (!neg_found && pos_found)
        }),
{
    let neg = seq![
        "まとめ"@, "音源"@, "講座"@, "配布"@, "メドレー"@, "予告"@, "人力"@, "utau"@,
        "vocaloid"@, "ボカロ"@, "neutrino"@, "synthesizerv"@, "synthv"@, "voiceroid"@,
        "ボイスロイド"@, "a.i.voice"@, "合成音声"@, "nnsvs"@, "voicevox"@,
    ];
    let pos = seq![
        "歌って"@, "うたって"@, "唄って"@, "歌った"@, "うたった"@, "唄った"@, "歌いました"@,
        "うたいました"@, "唄いました"@, "歌わせていただき"@, "うたわせていただき"@,
        "歌いますた"@, "歌いなおし"@, "弾き語り"@, "カバー"@, "cover"@, "歌えている"@,
        "原キーで"@,
    ];
    assert(neg =~= negative_keywords());
    assert(pos =~= positive_keywords());
}

fn positive_keyword(i: usize) -> (r: &'static str)
    requires
        i < positive_keywords().len(),
    ensures
        r@ == positive_keywords()[i as int],
{
    match i {
        0 => "歌って",
        1 => "うたって",
        2 => "唄って",
        3 => "歌った",
        4 => "うたった",
        5 => "唄った",
        6 => "歌いました",
        7 => "うたいました",
        8 => "唄いました",
        9 => "歌わせていただき",
        10 => "うたわせていただき",
        11 => "歌いますた",
        12 => "歌いなおし",
        13 => "弾き語り",
        14 => "カバー",
        15 => "cover",
        16 => "歌えている",
        _ => "原キーで",
    }
}

fn negative_keyword(i: usize) -> (r: &'static str)
    requires
        i < negative_keywords().len(),
    ensures
        r@ == negative_keywords()[i as int],
{
    match i {
        0 => "まとめ",
        1 => "音源",
        2 => "講座",
        3 => "配布",
        4 => "メドレー",
        5 => "予告",
        6 => "人力",
        7 => "utau",
        8 => "vocaloid",
        9 => "ボカロ",
        10 => "neutrino",
        11 => "synthesizerv",
        12 => "synthv",
        13 => "voiceroid",
        14 => "ボイスロイド",
        15 => "a.i.voice",
        16 => "合成音声",
        17 => "nnsvs",
        _ => "voicevox",
    }
}

/// Some string of `keywords` occurs in `text`.
pub open spec fn holds_any(text: Seq<char>, keywords: Seq<Seq<char>>) -> bool {
    exists|k: int| 0 <= k < keywords.len() && contains_seq(text, #[trigger] keywords[k])
}

/// Whether some string of `keywords` occurs in `text`.
fn holds_any_of(text: &[char], keywords: &[String]) -> (r: bool)
    ensures
        r == holds_any(text@, string_views(keywords@)),
{
    let mut i: usize = 0;
    while i < keywords.len()
        invariant
            i <= keywords@.len(),
            forall|k: int| 0 <= k < i ==> !contains_seq(text@, #[trigger] string_views(keywords@)[k]),
        decreases keywords@.len() - i,
    {
        let k = chars_of(keywords[i].as_str());
        proof {
            lemma_find_first_props(text@, k@);
        }
        if find_chars(text, &k).is_some() {
            assert(string_views(keywords@)[i as int] == k@);
            return true;
        }
        i = i + 1;
    }
    false
}

/// The verdict on an already lowercased title against already lowercased
/// keyword lists: false when a negative keyword occurs, true when a
/// positive one does, false otherwise.
pub fn keyword_verdict(lower_title: &str, negatives: &[String], positives: &[String]) -> (r: bool)
    ensures
        r == (!holds_any(lower_title@, string_views(negatives@)) && holds_any(
            lower_title@,
            string_views(positives@),
        )),
{
    let t = chars_of(lower_title);
    if holds_any_of(&t, negatives) {
        return false;
    }
    holds_any_of(&t, positives)
}

/// The lowercased keywords `keyword(0..count)`.
fn lowered_keywords(negative: bool) -> (r: Vec<String>)
    ensures
        negative ==> string_views(r@) == negative_keywords().map_values(|k: Seq<char>| spec_lowercase(k)),
        !negative ==> string_views(r@) == positive_keywords().map_values(|k: Seq<char>| spec_lowercase(k)),
{
    let count: usize = if negative {
        19
    } else {
        18
    };
    let ghost src = if negative {
        negative_keywords()
    } else {
        positive_keywords()
    };
    let mut r: Vec<String> = Vec::new();
    let mut i: usize = 0;
    while i < count
        invariant
            i <= count,
            count == src.len(),
            src == (if negative {
                negative_keywords()
            } else {
                positive_keywords()
            }),
            string_views(r@) == src.map_values(|k: Seq<char>| spec_lowercase(k)).take(i as int),
        decreases count - i,
    {
        let k = if negative {
            negative_keyword(i)
        } else {
            positive_keyword(i)
        };
        let lower = to_lowercase(k);
        let ghost lv = lower@;
        let ghost before = r@;
        r.push(lower);
        assert(string_views(r@) =~= string_views(before).push(lv));
        assert(src.map_values(|k: Seq<char>| spec_lowercase(k)).take(i + 1) =~= src.map_values(
            |k: Seq<char>| spec_lowercase(k),
        ).take(i as int).push(lv));
        i = i + 1;
    }
    assert(src.map_values(|k: Seq<char>| spec_lowercase(k)).take(count as int) =~= src.map_values(
        |k: Seq<char>| spec_lowercase(k),
    ));
    r
}

/// Whether `title` looks like a sung cover: false when it holds a negative
/// keyword, true when it holds a positive one, false otherwise (case is
/// ignored on both sides).
pub fn classify(title: &str) -> (r: bool)
    ensures
        r == spec_classify(title@),
{
    let lower_title = to_lowercase(title);
    let negatives = lowered_keywords(true);
    let positives = lowered_keywords(false);
    let r = keyword_verdict(lower_title.as_str(), &negatives, &positives);
    proof {
        let lower = spec_lowercase(title@);
        let nl = negative_keywords().map_values(|k: Seq<char>| spec_lowercase(k));
        let pl = positive_keywords().map_values(|k: Seq<char>| spec_lowercase(k));
        assert(holds_any(lower, nl) == has_keyword(lower, negative_keywords())) by {
            if holds_any(lower, nl) {
                let k = choose|k: int| 0 <= k < nl.len() && contains_seq(lower, #[trigger] nl[k]);
                assert(contains_seq(lower, spec_lowercase(negative_keywords()[k])));
            }
            if has_keyword(lower, negative_keywords()) {
                let k = choose|k: int|
                    0 <= k < negative_keywords().len() && contains_seq(
                        lower,
                        spec_lowercase(#[trigger] negative_keywords()[k]),
                    );
                assert(nl[k] == spec_lowercase(negative_keywords()[k]));
            }
        }
        assert(holds_any(lower, pl) == has_keyword(lower, positive_keywords())) by {
            if holds_any(lower, pl) {
                let k = choose|k: int| 0 <= k < pl.len() && contains_seq(lower, #[trigger] pl[k]);
                assert(contains_seq(lower, spec_lowercase(positive_keywords()[k])));
            }
            if has_keyword(lower, positive_keywords()) {
                let k = choose|k: int|
                    0 <= k < positive_keywords().len() && contains_seq(
                        lower,
                        spec_lowercase(#[trigger] positive_keywords()[k]),
                    );
                assert(pl[k] == spec_lowercase(positive_keywords()[k]));
            }
        }
    }
    r
}

} // verus!
