//! Per-character features of a title, for sequence labelling.

use vstd::prelude::*;
use crate::interner::{Interner, distinct_keys, interned, lemma_interned_append, lemma_interned_extends, lemma_interned_idempotent};
use crate::text::{chars_of, find_chars, find_first, string_views};
use vstd::string::StringExecFns;

verus! {

/// The kind of a character.
#[derive(Debug, Clone, Copy, PartialEq, Eq, Hash, Structural)]
pub enum CharType {
    /// CJK unified ideographs.
    Kanji,
    /// Hiragana, with the rest of the CJK punctuation block before it
    /// (U+3000–U+309F, brackets aside).
    Hiragana,
    /// Katakana.
    Katakana,
    /// `A`–`Z`, `a`–`z`.
    AsciiLetter,
    /// `0`–`9`.
    AsciiDigit,
    /// ASCII punctuation and brackets.
    AsciiSymbol,
    /// Full-width letters, digits and symbols (Ａ–Ｚ, ａ–ｚ, ０–９, ：；＜ …).
    FullwidthKana,
    /// Full-width brackets: 【】「」『』〈〉《》〔〕〖〗〘〙〚〛 and （）.
    FullwidthSymbol,
    /// Space and tab.
    Space,
    /// Anything else.
    Other,
}

/// The ASCII punctuation that counts as a symbol.
pub open spec fn is_ascii_symbol(c: char) -> bool {
    ||| c == '!' || c == '@' || c == '#' || c == '$' || c == '%' || c == '&' || c == '*'
    ||| c == '-' || c == '_' || c == '=' || c == '+' || c == '{' || c == '}' || c == ';'
    ||| c == ':' || c == '\'' || c == '"' || c == '<' || c == '>' || c == '\\' || c == '|'
    ||| c == '`' || c == '^'
    ||| c == '(' || c == ')' || c == '[' || c == ']' || c == ',' || c == '.' || c == '/'
    ||| c == '?' || c == '~'
}

/// The full-width brackets: the CJK brackets U+3008–U+3011 and
/// U+3014–U+301B, and the full-width parentheses U+FF08 and U+FF09.
pub open spec fn is_fullwidth_bracket(c: char) -> bool {
    let u = c as u32;
    ||| 0x3008 <= u <= 0x3011
    ||| 0x3014 <= u <= 0x301B
    ||| u == 0xFF08
    ||| u == 0xFF09
}

/// The full-width letters, digits and symbols.
pub open spec fn is_fullwidth_alnum(c: char) -> bool {
    let u = c as u32;
    ||| 0xFF21 <= u <= 0xFF3A
    ||| 0xFF41 <= u <= 0xFF5A
    ||| 0xFF10 <= u <= 0xFF19
    ||| 0xFF1A <= u <= 0xFF20
    ||| 0xFF3B <= u <= 0xFF40
    ||| 0xFF5B <= u <= 0xFF65
}

/// The kind of `c`; earlier ranges take precedence.
pub open spec fn spec_char_type(c: char) -> CharType {
    let u = c as u32;
    if 0x4E00 <= u <= 0x9FFF {
        CharType::Kanji
    } else if is_fullwidth_bracket(c) {
        CharType::FullwidthSymbol
    } else if 0x3000 <= u <= 0x309F {
        CharType::Hiragana
    } else if 0x30A0 <= u <= 0x30FF {
        CharType::Katakana
    } else if ('A' <= c && c <= 'Z') || ('a' <= c && c <= 'z') {
        CharType::AsciiLetter
    } else if '0' <= c && c <= '9' {
        CharType::AsciiDigit
    } else if is_ascii_symbol(c) {
        CharType::AsciiSymbol
    } else if is_fullwidth_alnum(c) {
        CharType::FullwidthKana
    } else if c == ' ' || c == '\t' {
        CharType::Space
    } else {
        CharType::Other
    }
}

/// Which characters each kind holds, by code point: CJK ideographs
/// U+4E00–U+9FFF are kanji; the CJK brackets U+3008–U+3011, U+3014–U+301B
/// and （） are full-width symbols; the rest of U+3000–U+309F is hiragana;
/// U+30A0–U+30FF is katakana; ASCII letters, digits and every other
/// printable ASCII character (U+0021–U+007E) are letters, digits and
/// symbols; U+FF10–U+FF65 is full-width letters and signs; space and tab
/// are spaces; and nothing else is any of these.
pub proof fn lemma_char_type_classes(c: char)
    ensures
        ({
            let u = c as u32;
            let ascii_letter = (0x41 <= u <= 0x5A) || (0x61 <= u <= 0x7A);
            let ascii_digit = 0x30 <= u <= 0x39;
            let bracket = (0x3008 <= u <= 0x3011) || (0x3014 <= u <= 0x301B) || u == 0xFF08 || u == 0xFF09;
            &&& (spec_char_type(c) == CharType::Kanji <==> 0x4E00 <= u <= 0x9FFF)
            &&& (spec_char_type(c) == CharType::FullwidthSymbol <==> bracket)
            &&& (spec_char_type(c) == CharType::Hiragana <==> 0x3000 <= u <= 0x309F && !bracket)
            &&& (spec_char_type(c) == CharType::Katakana <==> 0x30A0 <= u <= 0x30FF)
            &&& (spec_char_type(c) == CharType::AsciiLetter <==> ascii_letter)
            &&& (spec_char_type(c) == CharType::AsciiDigit <==> ascii_digit)
            &&& (spec_char_type(c) == CharType::AsciiSymbol <==> 0x21 <= u <= 0x7E && !ascii_letter && !ascii_digit)
            &&& (spec_char_type(c) == CharType::FullwidthKana <==> 0xFF10 <= u <= 0xFF65)
            &&& (spec_char_type(c) == CharType::Space <==> u == 0x20 || u == 0x09)
        }),
{
}

/// The name of a kind, as it appears in feature strings.
pub open spec fn spec_type_name(t: CharType) -> Seq<char> {
    match t {
        CharType::Kanji => "kanji"@,
        CharType::Hiragana => "hiragana"@,
        CharType::Katakana => "katakana"@,
        CharType::AsciiLetter => "ascii_letter"@,
        CharType::AsciiDigit => "ascii_digit"@,
        CharType::AsciiSymbol => "ascii_symbol"@,
        CharType::FullwidthKana => "fullwidth_kana"@,
        CharType::FullwidthSymbol => "fullwidth_symbol"@,
        CharType::Space => "space"@,
        CharType::Other => "other"@,
    }
}

impl CharType {
    /// The kind of `c`.
    pub fn of(c: char) -> (r: Self)
        ensures
            r == spec_char_type(c),
    {
        let u = c as u32;
        if 0x4E00 <= u && u <= 0x9FFF {
            CharType::Kanji
        } else if (0x3008 <= u && u <= 0x3011) || (0x3014 <= u && u <= 0x301B) || u == 0xFF08 || u
            == 0xFF09 {
            CharType::FullwidthSymbol
        } else if 0x3000 <= u && u <= 0x309F {
            CharType::Hiragana
        } else if 0x30A0 <= u && u <= 0x30FF {
            CharType::Katakana
        } else if ('A' <= c && c <= 'Z') || ('a' <= c && c <= 'z') {
            CharType::AsciiLetter
        } else if '0' <= c && c <= '9' {
            CharType::AsciiDigit
        } else if c == '!' || c == '@' || c == '#' || c == '$' || c == '%' || c == '&' || c == '*'
            || c == '-' || c == '_' || c == '=' || c == '+' || c == '{' || c == '}' || c == ';'
            || c == ':' || c == '\'' || c == '"' || c == '<' || c == '>' || c == '\\' || c == '|'
            || c == '`' || c == '^' || c == '(' || c == ')' || c == '[' || c == ']' || c == ','
            || c == '.' || c == '/' || c == '?' || c == '~' {
            CharType::AsciiSymbol
        } else if (0xFF21 <= u && u <= 0xFF3A) || (0xFF41 <= u && u <= 0xFF5A) || (0xFF10 <= u && u
            <= 0xFF19) || (0xFF1A <= u && u <= 0xFF20) || (0xFF3B <= u && u <= 0xFF40) || (0xFF5B
            <= u && u <= 0xFF65) {
            CharType::FullwidthKana
        } else if c == ' ' || c == '\t' {
            CharType::Space
        } else {
            CharType::Other
        }
    }

    /// The name of the kind.
    pub fn name(&self) -> (r: &'static str)
        ensures
            r@ == spec_type_name(*self),
    {
        match self {
            CharType::Kanji => "kanji",
            CharType::Hiragana => "hiragana",
            CharType::Katakana => "katakana",
            CharType::AsciiLetter => "ascii_letter",
            CharType::AsciiDigit => "ascii_digit",
            CharType::AsciiSymbol => "ascii_symbol",
            CharType::FullwidthKana => "fullwidth_kana",
            CharType::FullwidthSymbol => "fullwidth_symbol",
            CharType::Space => "space",
            CharType::Other => "other",
        }
    }
}

/// The separators whose distance from the position is a feature.
pub open spec fn feature_separators() -> Seq<Seq<char>> {
    seq!["/"@, "／"@, "【"@, "】"@, "feat."@, "Vo."@, "_"@]
}

/// `s` with every `.` replaced by `_`.
pub open spec fn dot_to_underscore(s: Seq<char>) -> Seq<char> {
    s.map_values(|c: char| if c == '.' { '_' } else { c })
}

/// The decimal digit for `d` in `0..=5`.
pub open spec fn small_digit(d: int) -> char {
    if d == 0 {
        '0'
    } else if d == 1 {
        '1'
    } else if d == 2 {
        '2'
    } else if d == 3 {
        '3'
    } else if d == 4 {
        '4'
    } else {
        '5'
    }
}

/// `|a - b|`.
pub open spec fn abs_diff(a: int, b: int) -> int {
    if a >= b {
        a - b
    } else {
        b - a
    }
}

/// The distance feature for separator `sep`: present when the first
/// occurrence of `sep` lies within 5 characters of `idx`.
pub open spec fn separator_feature(t: Seq<char>, idx: int, sep: Seq<char>) -> Seq<Seq<char>> {
    match find_first(t, sep) {
        Some(p) => if abs_diff(idx, p) <= 5 {
            seq!["sep_dist:"@ + dot_to_underscore(sep) + ":"@ + seq![small_digit(abs_diff(idx, p))]]
        } else {
            Seq::empty()
        },
        None => Seq::empty(),
    }
}

/// The separator-distance features for `feature_separators()[i..]`, in order.
pub open spec fn separator_features(t: Seq<char>, idx: int, i: nat) -> Seq<Seq<char>>
    decreases feature_separators().len() - i,
{
    if i >= feature_separators().len() {
        Seq::empty()
    } else {
        separator_feature(t, idx, feature_separators()[i as int]) + separator_features(
            t,
            idx,
            i + 1,
        )
    }
}

/// The feature strings of position `idx` (< `t.len()`) of title `t`, in order.
pub open spec fn feature_names(t: Seq<char>, idx: int) -> Seq<Seq<char>> {
    seq!["char_type:"@ + spec_type_name(spec_char_type(t[idx]))] + (if idx > 0 {
        seq!["prev_type:"@ + spec_type_name(spec_char_type(t[idx - 1]))]
    } else {
        seq!["is_start"@]
    }) + (if idx + 1 < t.len() {
        seq!["next_type:"@ + spec_type_name(spec_char_type(t[idx + 1]))]
    } else {
        seq!["is_end"@]
    }) + separator_features(t, idx, 0) + (if idx < 3 {
        seq!["pos:start"@]
    } else {
        Seq::empty()
    }) + (if idx >= t.len() - 3 {
        seq!["pos:end"@]
    } else {
        Seq::empty()
    }) + (if idx == t.len() / 2 {
        seq!["pos:middle"@]
    } else {
        Seq::empty()
    })
}

fn push_name(names: &mut Vec<String>, name: String)
    ensures
        string_views(final(names)@) == string_views(old(names)@).push(name@),
{
    let ghost n = name@;
    names.push(name);
    assert(string_views(names@) =~= string_views(old(names)@).push(n));
}

/// `prefix` followed by `rest`.
fn concat(prefix: &str, rest: &str) -> (r: String)
    ensures
        r@ == prefix@ + rest@,
{
    let mut s = prefix.to_owned();
    s.append(rest);
    s
}

/// The `i`-th separator of `feature_separators()`.
fn feature_separator(i: usize) -> (r: &'static str)
    requires
        i < feature_separators().len(),
    ensures
        r@ == feature_separators()[i as int],
{
    match i {
        0 => "/",
        1 => "／",
        2 => "【",
        3 => "】",
        4 => "feat.",
        5 => "Vo.",
        _ => "_",
    }
}

/// The name of the distance feature for separator `sep` at distance `d`.
fn separator_feature_name(sep: &str, d: usize) -> (r: String)
    requires
        d <= 5,
    ensures
        r@ == "sep_dist:"@ + dot_to_underscore(sep@) + ":"@ + seq![small_digit(d as int)],
{
    let mut s = "sep_dist:".to_owned();
    let sc = chars_of(sep);
    let mut i: usize = 0;
    assert(s@ =~= "sep_dist:"@ + dot_to_underscore(sep@).take(0));
    while i < sc.len()
        invariant
            i <= sc@.len(),
            sc@ == sep@,
            s@ == "sep_dist:"@ + dot_to_underscore(sep@).take(i as int),
        decreases sc@.len() - i,
    {
        let c = sc[i];
        if c == '.' {
            s.push('_');
        } else {
            s.push(c);
        }
        i = i + 1;
        assert(dot_to_underscore(sep@).take(i as int) =~= dot_to_underscore(sep@).take(i - 1).push(
            dot_to_underscore(sep@)[i - 1],
        ));
    }
    assert(dot_to_underscore(sep@).take(sc@.len() as int) =~= dot_to_underscore(sep@));
    proof {
        reveal_strlit(":");
    }
    let digit = if d == 0 {
        '0'
    } else if d == 1 {
        '1'
    } else if d == 2 {
        '2'
    } else if d == 3 {
        '3'
    } else if d == 4 {
        '4'
    } else {
        '5'
    };
    s.push(':');
    s.push(digit);
    assert(":"@ =~= seq![':']);
    assert(s@ =~= "sep_dist:"@ + dot_to_underscore(sep@) + ":"@ + seq![small_digit(d as int)]);
    s
}

/// The distance feature name for `sep` at position `idx` of `t`, if any.
#[verifier::rlimit(40)]
fn separator_feature_name_at(t: &[char], idx: usize, sep: &str) -> (r: Option<String>)
    ensures
        match r {
            Some(name) => separator_feature(t@, idx as int, sep@) == seq![name@],
            None => separator_feature(t@, idx as int, sep@) == Seq::<Seq<char>>::empty(),
        },
{
    let sc = chars_of(sep);
    match find_chars(t, &sc) {
        Some(p) => {
            let d = if idx >= p {
                idx - p
            } else {
                p - idx
            };
            assert(d == abs_diff(idx as int, p as int));
            assert(find_first(t@, sep@) == Some(p as int));
            if d <= 5 {
                let name = separator_feature_name(sep, d);
                let ghost expected = "sep_dist:"@ + dot_to_underscore(sep@) + ":"@ + seq![small_digit(d as int)];
                assert(name@ == expected);
                assert(separator_feature(t@, idx as int, sep@) == seq![expected]);
                Some(name)
            } else {
                None
            }
        },
        None => None,
    }
}

/// The separator-distance feature names of position `idx` of `t`.
fn separator_feature_names(t: &[char], idx: usize, names: &mut Vec<String>)
    ensures
        string_views(final(names)@) == string_views(old(names)@) + separator_features(
            t@,
            idx as int,
            0,
        ),
{
    let mut i: usize = 0;
    assert(string_views(names@) + separator_features(t@, idx as int, 0) =~= string_views(
        old(names)@,
    ) + separator_features(t@, idx as int, 0));
    while i < 7
        invariant
            i <= 7,
            feature_separators().len() == 7,
            string_views(names@) + separator_features(t@, idx as int, i as nat) == string_views(
                old(names)@,
            ) + separator_features(t@, idx as int, 0),
        decreases 7 - i,
    {
        let ghost before = string_views(names@);
        let ghost rest = separator_features(t@, idx as int, (i + 1) as nat);
        let ghost here = separator_feature(t@, idx as int, feature_separators()[i as int]);
        assert(separator_features(t@, idx as int, i as nat) == here + rest);
        match separator_feature_name_at(t, idx, feature_separator(i)) {
            Some(name) => {
                push_name(names, name);
                assert(before.push(name@) + rest =~= before + (here + rest));
            },
            None => {
                assert(before + (here + rest) =~= before + rest);
            },
        }
        i = i + 1;
    }
    assert(separator_features(t@, idx as int, 7) =~= Seq::<Seq<char>>::empty());
    assert(string_views(names@) + Seq::<Seq<char>>::empty() =~= string_views(names@));
}

/// `ids` are the ids in `keys` of `names`, one for one.
pub open spec fn ids_name(keys: Seq<Seq<char>>, ids: Seq<usize>, names: Seq<Seq<char>>) -> bool {
    &&& ids.len() == names.len()
    &&& forall|j: int| 0 <= j < ids.len() ==> #[trigger] ids[j] < keys.len() && keys[ids[j] as int] == names[j]
}

/// Ids stay valid when keys are only appended.
pub proof fn lemma_ids_name_extends(
    before: Seq<Seq<char>>,
    after: Seq<Seq<char>>,
    ids: Seq<usize>,
    names: Seq<Seq<char>>,
)
    requires
        ids_name(before, ids, names),
        after.len() >= before.len(),
        forall|i: int| 0 <= i < before.len() ==> after[i] == before[i],
    ensures
        ids_name(after, ids, names),
{
    assert forall|j: int| 0 <= j < ids.len() implies #[trigger] ids[j] < after.len() && after[ids[j] as int] == names[j] by {
        assert(before[ids[j] as int] == names[j]);
    }
}

/// Feature ids are stable: extracting the features of a position a second
/// time adds no feature string, and with distinct keys the ids of a list of
/// names are determined by the names.
pub proof fn lemma_features_stable(
    keys: Seq<Seq<char>>,
    t: Seq<char>,
    idx: int,
    ids1: Seq<usize>,
    ids2: Seq<usize>,
)
    requires
        distinct_keys(interned(keys, feature_names(t, idx))),
        ids_name(interned(keys, feature_names(t, idx)), ids1, feature_names(t, idx)),
        ids_name(
            interned(interned(keys, feature_names(t, idx)), feature_names(t, idx)),
            ids2,
            feature_names(t, idx),
        ),
    ensures
        interned(interned(keys, feature_names(t, idx)), feature_names(t, idx)) == interned(
            keys,
            feature_names(t, idx),
        ),
        ids1 == ids2,
{
    let names = feature_names(t, idx);
    let k = interned(keys, names);
    lemma_interned_idempotent(keys, names);
    assert forall|j: int| 0 <= j < ids1.len() implies ids1[j] == ids2[j] by {
        assert(k[ids1[j] as int] == names[j]);
        assert(k[ids2[j] as int] == names[j]);
    }
    assert(ids1 =~= ids2);
}

/// The first character of separator `c`'s feature text, ranked in the
/// order of `feature_separators()`.
pub open spec fn separator_rank(c: char) -> int {
    if c == '/' {
        0
    } else if c == '／' {
        1
    } else if c == '【' {
        2
    } else if c == '】' {
        3
    } else if c == 'f' {
        4
    } else if c == 'V' {
        5
    } else {
        6
    }
}

/// The place of a feature string among the kinds of feature one position
/// has, read off its leading characters: character type 0, previous type or
/// start 1, next type or end 2, separator distances 3 to 9, then the
/// start, end and middle positions 10, 11 and 12.
#[verifier::opaque]
pub open spec fn feature_rank(s: Seq<char>) -> int {
    if s[0] == 'c' {
        0
    } else if s[0] == 'i' {
        if s[3] == 's' {
            1
        } else {
            2
        }
    } else if s[0] == 'n' {
        2
    } else if s[0] == 's' {
        3 + separator_rank(s[9])
    } else if s[1] == 'r' {
        1
    } else if s[4] == 's' {
        10
    } else if s[4] == 'e' {
        11
    } else {
        12
    }
}

/// The ranks of `names` strictly increase.
pub open spec fn ranks_increase(names: Seq<Seq<char>>) -> bool {
    forall|i: int, j: int|
        0 <= i < j < names.len() ==> feature_rank(#[trigger] names[i]) < feature_rank(#[trigger] names[j])
}

/// Every rank of `names` lies in `lo .. hi`.
pub open spec fn ranks_within(names: Seq<Seq<char>>, lo: int, hi: int) -> bool {
    forall|i: int| 0 <= i < names.len() ==> lo <= #[trigger] feature_rank(names[i]) < hi
}

proof fn lemma_ranked_concat(a: Seq<Seq<char>>, b: Seq<Seq<char>>, lo: int, mid: int, hi: int)
    requires
        lo <= mid <= hi,
        ranks_increase(a),
        ranks_increase(b),
        ranks_within(a, lo, mid),
        ranks_within(b, mid, hi),
    ensures
        ranks_increase(a + b),
        ranks_within(a + b, lo, hi),
{
    let c = a + b;
    assert forall|i: int, j: int| 0 <= i < j < c.len() implies feature_rank(#[trigger] c[i]) < feature_rank(
        #[trigger] c[j],
    ) by {
        if j < a.len() {
            assert(c[i] == a[i] && c[j] == a[j]);
        } else if i >= a.len() {
            assert(c[i] == b[i - a.len()] && c[j] == b[j - a.len()]);
        } else {
            assert(c[i] == a[i] && c[j] == b[j - a.len()]);
        }
    }
    assert forall|i: int| 0 <= i < c.len() implies lo <= #[trigger] feature_rank(c[i]) < hi by {
        if i < a.len() {
            assert(c[i] == a[i]);
            assert(lo <= feature_rank(a[i]) < mid);
        } else {
            assert(c[i] == b[i - a.len()]);
            assert(mid <= feature_rank(b[i - a.len()]) < hi);
        }
    }
}

/// A one-element or empty list whose element has rank `r`.
proof fn lemma_ranked_single(names: Seq<Seq<char>>, r: int)
    requires
        names.len() <= 1,
        names.len() == 1 ==> feature_rank(names[0]) == r,
    ensures
        ranks_increase(names),
        ranks_within(names, r, r + 1),
{
}

/// Separator `i` is non-empty, does not start with `.`, and its first
/// character has rank `i`.
proof fn lemma_separator_first(i: int)
    requires
        0 <= i < 7,
    ensures
        feature_separators()[i].len() >= 1,
        feature_separators()[i][0] != '.',
        separator_rank(feature_separators()[i][0]) == i,
{
    if i == 0 {
        reveal_strlit("/");
    } else if i == 1 {
        reveal_strlit("／");
    } else if i == 2 {
        reveal_strlit("【");
    } else if i == 3 {
        reveal_strlit("】");
    } else if i == 4 {
        reveal_strlit("feat.");
    } else if i == 5 {
        reveal_strlit("Vo.");
    } else {
        reveal_strlit("_");
    }
}

/// A separator-distance feature has the rank of its separator's first
/// character, plus 3.
proof fn lemma_separator_name_rank(sep: Seq<char>, tail: Seq<char>)
    requires
        sep.len() >= 1,
        sep[0] != '.',
    ensures
        feature_rank("sep_dist:"@ + dot_to_underscore(sep) + tail) == 3 + separator_rank(sep[0]),
{
    reveal_strlit("sep_dist:");
    reveal(feature_rank);
    let name = "sep_dist:"@ + dot_to_underscore(sep) + tail;
    assert(name[0] == 's');
    assert(name[9] == dot_to_underscore(sep)[0]);
}

/// The separator-distance features from separator `i` on rank `3 + i` and
/// up, one at most per separator.
#[verifier::rlimit(40)]
proof fn lemma_separator_features_ranked(t: Seq<char>, idx: int, i: nat)
    requires
        i <= 7,
    ensures
        ranks_increase(separator_features(t, idx, i)),
        ranks_within(separator_features(t, idx, i), 3 + i as int, 10),
        separator_features(t, idx, i).len() <= 7 - i,
    decreases 7 - i,
{
    if i < 7 {
        let sep = feature_separators()[i as int];
        let here = separator_feature(t, idx, sep);
        lemma_separator_features_ranked(t, idx, i + 1);
        lemma_separator_first(i as int);
        if here.len() == 1 {
            let p = find_first(t, sep)->0;
            let tail = ":"@ + seq![small_digit(abs_diff(idx, p))];
            lemma_separator_name_rank(sep, tail);
            assert(here[0] == "sep_dist:"@ + dot_to_underscore(sep) + tail);
        }
        lemma_ranked_single(here, 3 + i as int);
        lemma_ranked_concat(here, separator_features(t, idx, i + 1), 3 + i as int, 4 + i as int, 10);
    }
}

proof fn lemma_fixed_ranks(x: Seq<char>)
    ensures
        feature_rank("char_type:"@ + x) == 0,
        feature_rank("prev_type:"@ + x) == 1,
        feature_rank("is_start"@) == 1,
        feature_rank("next_type:"@ + x) == 2,
        feature_rank("is_end"@) == 2,
        feature_rank("pos:start"@) == 10,
        feature_rank("pos:end"@) == 11,
        feature_rank("pos:middle"@) == 12,
{
    reveal(feature_rank);
    reveal_strlit("char_type:");
    reveal_strlit("prev_type:");
    reveal_strlit("next_type:");
    reveal_strlit("is_start");
    reveal_strlit("is_end");
    reveal_strlit("pos:start");
    reveal_strlit("pos:end");
    reveal_strlit("pos:middle");
    assert(("char_type:"@ + x)[0] == 'c');
    assert(("prev_type:"@ + x)[0] == 'p');
    assert(("prev_type:"@ + x)[1] == 'r');
    assert(("next_type:"@ + x)[0] == 'n');
}

/// The feature strings of one position are all different, and there are
/// between 3 and 13 of them: one each for the character's type, the
/// previous and the next, at most one per separator, and at most one each
/// for the start, end and middle.
pub proof fn lemma_feature_names_distinct(t: Seq<char>, idx: int)
    requires
        0 <= idx < t.len(),
    ensures
        feature_names(t, idx).no_duplicates(),
        3 <= feature_names(t, idx).len() <= 13,
{
    let a = seq!["char_type:"@ + spec_type_name(spec_char_type(t[idx]))];
    let b = if idx > 0 {
        seq!["prev_type:"@ + spec_type_name(spec_char_type(t[idx - 1]))]
    } else {
        seq!["is_start"@]
    };
    let c = if idx + 1 < t.len() {
        seq!["next_type:"@ + spec_type_name(spec_char_type(t[idx + 1]))]
    } else {
        seq!["is_end"@]
    };
    let sf = separator_features(t, idx, 0);
    let p1 = if idx < 3 { seq!["pos:start"@] } else { Seq::<Seq<char>>::empty() };
    let p2 = if idx >= t.len() - 3 { seq!["pos:end"@] } else { Seq::<Seq<char>>::empty() };
    let p3 = if idx == t.len() / 2 { seq!["pos:middle"@] } else { Seq::<Seq<char>>::empty() };
    lemma_fixed_ranks(spec_type_name(spec_char_type(t[idx])));
    if idx > 0 {
        lemma_fixed_ranks(spec_type_name(spec_char_type(t[idx - 1])));
    }
    if idx + 1 < t.len() {
        lemma_fixed_ranks(spec_type_name(spec_char_type(t[idx + 1])));
    }
    lemma_ranked_single(a, 0);
    lemma_ranked_single(b, 1);
    lemma_ranked_single(c, 2);
    lemma_separator_features_ranked(t, idx, 0);
    lemma_ranked_single(p1, 10);
    lemma_ranked_single(p2, 11);
    lemma_ranked_single(p3, 12);
    lemma_ranked_concat(a, b, 0, 1, 2);
    lemma_ranked_concat(a + b, c, 0, 2, 3);
    lemma_ranked_concat(a + b + c, sf, 0, 3, 10);
    lemma_ranked_concat(a + b + c + sf, p1, 0, 10, 11);
    lemma_ranked_concat(a + b + c + sf + p1, p2, 0, 11, 12);
    lemma_ranked_concat(a + b + c + sf + p1 + p2, p3, 0, 12, 13);
    let names = feature_names(t, idx);
    assert(names == a + b + c + sf + p1 + p2 + p3);
    assert forall|i: int, j: int| 0 <= i < names.len() && 0 <= j < names.len() && i != j implies names[i]
        != names[j] by {
        if i < j {
            assert(feature_rank(names[i]) < feature_rank(names[j]));
        } else {
            assert(feature_rank(names[j]) < feature_rank(names[i]));
        }
    }
}

/// The type features and separator features of position `idx`.
pub open spec fn head_names(t: Seq<char>, idx: int) -> Seq<Seq<char>> {
    seq!["char_type:"@ + spec_type_name(spec_char_type(t[idx]))] + (if idx > 0 {
        seq!["prev_type:"@ + spec_type_name(spec_char_type(t[idx - 1]))]
    } else {
        seq!["is_start"@]
    }) + (if idx + 1 < t.len() {
        seq!["next_type:"@ + spec_type_name(spec_char_type(t[idx + 1]))]
    } else {
        seq!["is_end"@]
    }) + separator_features(t, idx, 0)
}

/// The position features of position `idx`.
pub open spec fn marker_names(t: Seq<char>, idx: int) -> Seq<Seq<char>> {
    (if idx < 3 {
        seq!["pos:start"@]
    } else {
        Seq::empty()
    }) + (if idx >= t.len() - 3 {
        seq!["pos:end"@]
    } else {
        Seq::empty()
    }) + (if idx == t.len() / 2 {
        seq!["pos:middle"@]
    } else {
        Seq::empty()
    })
}

proof fn lemma_head_ranks(t: Seq<char>, idx: int)
    requires
        0 <= idx < t.len(),
    ensures
        head_names(t, idx).len() >= 3,
        ranks_within(head_names(t, idx), 0, 10),
        feature_rank(head_names(t, idx)[0]) == 0,
        feature_rank(head_names(t, idx)[1]) == 1,
        feature_rank(head_names(t, idx)[2]) == 2,
        forall|i: int| 3 <= i < head_names(t, idx).len() ==> feature_rank(#[trigger] head_names(t, idx)[i]) >= 3,
{
    let a = seq!["char_type:"@ + spec_type_name(spec_char_type(t[idx]))];
    let b = if idx > 0 {
        seq!["prev_type:"@ + spec_type_name(spec_char_type(t[idx - 1]))]
    } else {
        seq!["is_start"@]
    };
    let c = if idx + 1 < t.len() {
        seq!["next_type:"@ + spec_type_name(spec_char_type(t[idx + 1]))]
    } else {
        seq!["is_end"@]
    };
    let sf = separator_features(t, idx, 0);
    lemma_fixed_ranks(spec_type_name(spec_char_type(t[idx])));
    if idx > 0 {
        lemma_fixed_ranks(spec_type_name(spec_char_type(t[idx - 1])));
    }
    if idx + 1 < t.len() {
        lemma_fixed_ranks(spec_type_name(spec_char_type(t[idx + 1])));
    }
    lemma_ranked_single(a, 0);
    lemma_ranked_single(b, 1);
    lemma_ranked_single(c, 2);
    lemma_separator_features_ranked(t, idx, 0);
    lemma_ranked_concat(a, b, 0, 1, 2);
    lemma_ranked_concat(a + b, c, 0, 2, 3);
    lemma_ranked_concat(a + b + c, sf, 0, 3, 10);
    let h = head_names(t, idx);
    assert(h == a + b + c + sf);
    assert(h[0] == a[0] && h[1] == b[0] && h[2] == c[0]);
    assert forall|i: int| 3 <= i < h.len() implies feature_rank(#[trigger] h[i]) >= 3 by {
        assert(h[i] == sf[i - 3]);
    }
}

proof fn lemma_marker_names(t: Seq<char>, idx: int)
    ensures
        marker_names(t, idx).contains("pos:start"@) <==> idx < 3,
        marker_names(t, idx).contains("pos:end"@) <==> idx >= t.len() - 3,
        marker_names(t, idx).contains("pos:middle"@) <==> idx == t.len() / 2,
        forall|i: int| 0 <= i < marker_names(t, idx).len() ==> feature_rank(#[trigger] marker_names(t, idx)[i]) >= 10,
{
    reveal_strlit("pos:start");
    reveal_strlit("pos:end");
    reveal_strlit("pos:middle");
    lemma_fixed_ranks(Seq::empty());
    let p1 = if idx < 3 { seq!["pos:start"@] } else { Seq::<Seq<char>>::empty() };
    let p2 = if idx >= t.len() - 3 { seq!["pos:end"@] } else { Seq::<Seq<char>>::empty() };
    let p3 = if idx == t.len() / 2 { seq!["pos:middle"@] } else { Seq::<Seq<char>>::empty() };
    let m = marker_names(t, idx);
    assert(m == p1 + p2 + p3);
    assert("pos:start"@[4] != "pos:end"@[4] && "pos:start"@[4] != "pos:middle"@[4] && "pos:end"@[4]
        != "pos:middle"@[4]);
    assert forall|i: int| 0 <= i < m.len() implies m[i] == "pos:start"@ || m[i] == "pos:end"@ || m[i]
        == "pos:middle"@ by {
        if i < p1.len() {
            assert(m[i] == p1[i]);
        } else if i < p1.len() + p2.len() {
            assert(m[i] == p2[i - p1.len()]);
        } else {
            assert(m[i] == p3[i - p1.len() - p2.len()]);
        }
    }
    if idx < 3 {
        assert(m[0] == "pos:start"@);
    }
    if idx >= t.len() - 3 {
        assert(m[p1.len() as int] == "pos:end"@);
    }
    if idx == t.len() / 2 {
        assert(m[(p1.len() + p2.len()) as int] == "pos:middle"@);
    }
    if m.contains("pos:start"@) {
        let i = choose|i: int| 0 <= i < m.len() && m[i] == "pos:start"@;
        if i >= p1.len() {
            if i < p1.len() + p2.len() {
                assert(m[i] == p2[i - p1.len()]);
            } else {
                assert(m[i] == p3[i - p1.len() - p2.len()]);
            }
        }
    }
    if m.contains("pos:end"@) {
        let i = choose|i: int| 0 <= i < m.len() && m[i] == "pos:end"@;
        if i < p1.len() {
            assert(m[i] == p1[i]);
        } else if i >= p1.len() + p2.len() {
            assert(m[i] == p3[i - p1.len() - p2.len()]);
        }
    }
    if m.contains("pos:middle"@) {
        let i = choose|i: int| 0 <= i < m.len() && m[i] == "pos:middle"@;
        if i < p1.len() {
            assert(m[i] == p1[i]);
        } else if i < p1.len() + p2.len() {
            assert(m[i] == p2[i - p1.len()]);
        }
    }
}

/// The position markers of a feature list: `is_start` exactly at the first
/// character, `is_end` exactly at the last, `pos:start` within the first
/// three, `pos:end` within the last three, `pos:middle` exactly at the
/// middle (half the length, rounded down); and the list opens with the
/// character's own type.
pub proof fn lemma_feature_markers(t: Seq<char>, idx: int)
    requires
        0 <= idx < t.len(),
    ensures
        feature_names(t, idx)[0] == "char_type:"@ + spec_type_name(spec_char_type(t[idx])),
        feature_names(t, idx).contains("is_start"@) <==> idx == 0,
        feature_names(t, idx).contains("is_end"@) <==> idx == t.len() - 1,
        feature_names(t, idx).contains("pos:start"@) <==> idx < 3,
        feature_names(t, idx).contains("pos:end"@) <==> idx + 3 >= t.len(),
        feature_names(t, idx).contains("pos:middle"@) <==> idx == t.len() / 2,
{
    let h = head_names(t, idx);
    let m = marker_names(t, idx);
    let names = feature_names(t, idx);
    assert(names =~= h + m);
    lemma_head_ranks(t, idx);
    lemma_marker_names(t, idx);
    lemma_fixed_ranks(Seq::empty());
    reveal_strlit("prev_type:");
    reveal_strlit("next_type:");
    reveal_strlit("is_start");
    reveal_strlit("is_end");
    assert(names[0] == h[0] && names[1] == h[1] && names[2] == h[2]);
    assert(("prev_type:"@ + spec_type_name(spec_char_type(t[idx - 1])))[0] == 'p');
    assert(("next_type:"@ + spec_type_name(spec_char_type(t[idx + 1])))[0] == 'n');
    assert("is_start"@[0] == 'i' && "is_end"@[0] == 'i');
    // An element of rank `r` below 10 stands at `r` when `r` < 3.
    assert forall|i: int| 0 <= i < names.len() && feature_rank(#[trigger] names[i]) < 3
        implies i == feature_rank(names[i]) by {
        if i >= h.len() {
            assert(names[i] == m[i - h.len()]);
        } else if i >= 3 {
            assert(names[i] == h[i]);
        }
    }
    // The position markers lie past the head.
    assert forall|i: int| 0 <= i < names.len() && feature_rank(#[trigger] names[i]) >= 10
        implies m.contains(names[i]) by {
        if i < h.len() {
            assert(names[i] == h[i]);
        } else {
            assert(m[i - h.len()] == names[i]);
        }
    }
    assert forall|x: Seq<char>| #[trigger] m.contains(x) implies names.contains(x) by {
        let j = choose|j: int| 0 <= j < m.len() && m[j] == x;
        assert(names[h.len() + j] == x);
    }
    if names.contains("pos:start"@) {
        let i = choose|i: int| 0 <= i < names.len() && names[i] == "pos:start"@;
        assert(feature_rank("pos:start"@) >= 10);
    }
    if names.contains("pos:end"@) {
        let i = choose|i: int| 0 <= i < names.len() && names[i] == "pos:end"@;
        assert(feature_rank("pos:end"@) >= 10);
    }
    if names.contains("pos:middle"@) {
        let i = choose|i: int| 0 <= i < names.len() && names[i] == "pos:middle"@;
        assert(feature_rank("pos:middle"@) >= 10);
    }
    if names.contains("is_start"@) {
        let i = choose|i: int| 0 <= i < names.len() && names[i] == "is_start"@;
        assert(feature_rank("is_start"@) == 1);
        assert(i == 1);
    }
    if names.contains("is_end"@) {
        let i = choose|i: int| 0 <= i < names.len() && names[i] == "is_end"@;
        assert(feature_rank("is_end"@) == 2);
        assert(i == 2);
    }
    if idx == 0 {
        assert(names[1] == "is_start"@);
    }
    if idx == t.len() - 1 {
        assert(names[2] == "is_end"@);
    }
}

/// The feature ids of one position are all different, and there are
/// between 3 and 13 of them.
pub proof fn lemma_position_ids_distinct(keys: Seq<Seq<char>>, ids: Seq<usize>, t: Seq<char>, idx: int)
    requires
        0 <= idx < t.len(),
        ids_name(keys, ids, feature_names(t, idx)),
    ensures
        ids.no_duplicates(),
        3 <= ids.len() <= 13,
{
    let names = feature_names(t, idx);
    lemma_feature_names_distinct(t, idx);
    assert forall|i: int, j: int| 0 <= i < ids.len() && 0 <= j < ids.len() && i != j implies ids[i] != ids[j] by {
        assert(keys[ids[i] as int] == names[i]);
        assert(keys[ids[j] as int] == names[j]);
    }
}

/// The feature strings of the first `k` positions of `t`, position by position.
pub open spec fn title_feature_names(t: Seq<char>, k: int) -> Seq<Seq<char>>
    decreases k,
{
    if k <= 0 {
        Seq::empty()
    } else {
        title_feature_names(t, k - 1) + feature_names(t, k - 1)
    }
}

/// The feature names of position `idx` of the title `t`.
fn feature_name_list(t: &[char], idx: usize) -> (names: Vec<String>)
    requires
        idx < t@.len(),
        t@.len() >= 3,
    ensures
        string_views(names@) == feature_names(t@, idx as int),
{
    let mut names: Vec<String> = Vec::new();
    let n = t.len();
    let ghost g: Seq<Seq<char>> = Seq::empty();
    assert(string_views(names@) =~= g);
    push_name(&mut names, concat("char_type:", CharType::of(t[idx]).name()));
    if idx > 0 {
        push_name(&mut names, concat("prev_type:", CharType::of(t[idx - 1]).name()));
    } else {
        push_name(&mut names, "is_start".to_owned());
    }
    if idx + 1 < n {
        push_name(&mut names, concat("next_type:", CharType::of(t[idx + 1]).name()));
    } else {
        push_name(&mut names, "is_end".to_owned());
    }
    let ghost first3 = string_views(names@);
    separator_feature_names(t, idx, &mut names);
    let ghost first4 = string_views(names@);
    if idx < 3 {
        push_name(&mut names, "pos:start".to_owned());
    }
    let ghost first5a = string_views(names@);
    if idx >= n - 3 {
        push_name(&mut names, "pos:end".to_owned());
    }
    let ghost first5b = string_views(names@);
    if idx == n / 2 {
        push_name(&mut names, "pos:middle".to_owned());
    }
    proof {
        let a = seq!["char_type:"@ + spec_type_name(spec_char_type(t@[idx as int]))];
        let b = if idx > 0 {
            seq!["prev_type:"@ + spec_type_name(spec_char_type(t@[idx - 1]))]
        } else {
            seq!["is_start"@]
        };
        let c = if idx + 1 < t@.len() {
            seq!["next_type:"@ + spec_type_name(spec_char_type(t@[idx + 1]))]
        } else {
            seq!["is_end"@]
        };
        assert(first3 =~= a + b + c);
        assert(string_views(names@) =~= feature_names(t@, idx as int));
    }
    names
}

/// Turns the characters of a title into feature ids, one id per feature
/// string, giving each new feature string the next free id.
pub struct FeatureExtractor {
    /// Feature string → id.
    pub feature_map: Interner,
}

impl FeatureExtractor {
    /// The extractor is ready to hand out ids.
    pub open spec fn wf(&self) -> bool {
        self.feature_map.wf()
    }

    /// An extractor with no feature strings yet.
    pub fn new() -> (r: Self)
        ensures
            r.wf(),
            r.feature_map@ == Seq::<Seq<char>>::empty(),
    {
        FeatureExtractor { feature_map: Interner::new() }
    }

    /// The id of `feature`, giving it the next free id when it is new.
    fn get_feature_id(&mut self, feature: String) -> (id: usize)
        requires
            old(self).wf(),
        ensures
            final(self).wf(),
            final(self).feature_map@ == interned(old(self).feature_map@, seq![feature@]),
            id < final(self).feature_map@.len(),
            final(self).feature_map@[id as int] == feature@,
            old(self).feature_map@.contains(feature@) ==> final(self).feature_map@ == old(
                self,
            ).feature_map@,
            !old(self).feature_map@.contains(feature@) ==> final(self).feature_map@ == old(
                self,
            ).feature_map@.push(feature@),
    {
        self.feature_map.intern(feature)
    }

    /// The feature ids of position `idx` of `title`: the ids of
    /// `feature_names(title, idx)`, in order, each new name getting the next
    /// free id. A position past the end has no features.
    ///
    /// The title must have at least three characters when `idx` is inside it.
    pub fn extract_features(&mut self, title: &str, idx: usize) -> (r: Vec<usize>)
        requires
            old(self).wf(),
            idx >= title@.len() || title@.len() >= 3,
        ensures
            final(self).wf(),
            idx >= title@.len() ==> r@.len() == 0 && final(self).feature_map@ == old(
                self,
            ).feature_map@,
            idx < title@.len() ==> {
                let names = feature_names(title@, idx as int);
                &&& final(self).feature_map@ == interned(old(self).feature_map@, names)
                &&& ids_name(final(self).feature_map@, r@, names)
                &&& r@.no_duplicates()
                &&& 3 <= r@.len() <= 13
            },
    {
        let chars = chars_of(title);
        if idx >= chars.len() {
            return Vec::new();
        }
        let names = feature_name_list(&chars, idx);
        let ids = self.ids_of(&names);
        proof {
            lemma_position_ids_distinct(self.feature_map@, ids@, title@, idx as int);
        }
        ids
    }

    /// The feature ids of every position of `title`, position by position.
    ///
    /// A non-empty title must have at least three characters.
    pub fn title_features(&mut self, title: &str) -> (r: Vec<Vec<usize>>)
        requires
            old(self).wf(),
            title@.len() == 0 || title@.len() >= 3,
        ensures
            final(self).wf(),
            final(self).feature_map@ == interned(
                old(self).feature_map@,
                title_feature_names(title@, title@.len() as int),
            ),
            r@.len() == title@.len(),
            forall|i: int|
                0 <= i < r@.len() ==> #[trigger] ids_name(
                    final(self).feature_map@,
                    r@[i]@,
                    feature_names(title@, i),
                ),
    {
        let n = title.unicode_len();
        let ghost start = self.feature_map@;
        let mut r: Vec<Vec<usize>> = Vec::new();
        let mut i: usize = 0;
        while i < n
            invariant
                self.wf(),
                i <= n,
                n == title@.len(),
                n == 0 || n >= 3,
                self.feature_map@ == interned(start, title_feature_names(title@, i as int)),
                r@.len() == i,
                forall|k: int|
                    0 <= k < i ==> #[trigger] ids_name(
                        self.feature_map@,
                        r@[k]@,
                        feature_names(title@, k),
                    ),
            decreases n - i,
        {
            let ghost before = self.feature_map@;
            let ghost r_old = r@;
            let ids = self.extract_features(title, i);
            proof {
                lemma_interned_append(
                    start,
                    title_feature_names(title@, i as int),
                    feature_names(title@, i as int),
                );
                lemma_interned_extends(before, feature_names(title@, i as int));
            }
            r.push(ids);
            proof {
                assert forall|k: int| 0 <= k < i + 1 implies #[trigger] ids_name(
                    self.feature_map@,
                    r@[k]@,
                    feature_names(title@, k),
                ) by {
                    if k == i {
                        assert(r@[k] == ids);
                    } else {
                        assert(r@[k] == r_old[k]);
                        assert(ids_name(before, r_old[k]@, feature_names(title@, k)));
                        lemma_ids_name_extends(before, self.feature_map@, r_old[k]@, feature_names(title@, k));
                    }
                }
            }
            i = i + 1;
        }
        r
    }

    /// The ids of `names`, in order, interning each in turn.
    fn ids_of(&mut self, names: &Vec<String>) -> (ids: Vec<usize>)
        requires
            old(self).wf(),
        ensures
            final(self).wf(),
            final(self).feature_map@ == interned(old(self).feature_map@, string_views(names@)),
            ids@.len() == names@.len(),
            forall|j: int|
                0 <= j < ids@.len() ==> ids@[j] < final(self).feature_map@.len()
                    && final(self).feature_map@[ids@[j] as int] == names@[j]@,
    {
        let ghost names_v = string_views(names@);
        let ghost start = self.feature_map@;
        let mut ids: Vec<usize> = Vec::new();
        let mut j: usize = 0;
        assert(names_v.take(0) =~= Seq::<Seq<char>>::empty());
        while j < names.len()
            invariant
                self.wf(),
                j <= names@.len(),
                names_v == string_views(names@),
                self.feature_map@ == interned(start, names_v.take(j as int)),
                start.len() <= self.feature_map@.len() <= start.len() + j,
                ids@.len() == j,
                forall|m: int| 0 <= m < j ==> #[trigger] ids@[m] < self.feature_map@.len(),
                forall|m: int|
                    0 <= m < j ==> self.feature_map@[#[trigger] ids@[m] as int] == names_v[m],
            decreases names@.len() - j,
        {
            let ghost before = self.feature_map@;
            let ghost ids_before = ids@;
            let id = self.get_feature_id(names[j].clone());
            ids.push(id);
            proof {
                assert(names_v.take(j + 1).drop_last() =~= names_v.take(j as int));
                assert(names_v.take(j + 1).last() == names_v[j as int]);
                assert forall|m: int| 0 <= m < j + 1 implies #[trigger] ids@[m]
                    < self.feature_map@.len() && self.feature_map@[ids@[m] as int] == names_v[m] by {
                    if m < j {
                        assert(ids@[m] == ids_before[m]);
                        assert(ids_before[m] < before.len());
                        assert(self.feature_map@[ids@[m] as int] == before[ids@[m] as int]);
                    }
                }
            }
            j = j + 1;
        }
        assert(names_v.take(names@.len() as int) =~= names_v);
        assert forall|m: int| 0 <= m < ids@.len() implies names_v[m] == names@[m]@ by {}
        ids
    }
}

} // verus!
