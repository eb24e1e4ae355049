//! Rule-based extraction of the song title from a NicoNico video title.
//!
//! Vocaloid song titles on NicoNico follow two historical styles:
//!   bracket style: `【vocalist】song【original song】`
//!   slash style:   `song / vocalist`
//! and, increasingly, a creator name in front:
//!   `creator - song feat. vocalist`, `creator「song」feat. vocalist`,
//!   `creator『song』Vo. vocalist`.

use vstd::prelude::*;
use crate::text::{
    lemma_find_first_is, lemma_find_last_is, lemma_contains_char, contains_seq, embeds, occurs_at, is_subsequence, lemma_subrange_subsequence, lemma_subsequence_cons, lemma_subsequence_trans,
    lemma_trim_subsequence, chars_of, find_chars, lemma_find_first_props, lemma_trim_idempotent, lemma_find_last_props, find_first, find_last, rfind_chars, slice_chars, string_from_chars, trim,
    trim_chars,
};

verus! {

// ---------------------------------------------------------------------------
// Specification
// ---------------------------------------------------------------------------

/// The trimmed text between the first `open` and the last `close`, when the
/// `open` is not the first character, comes before the `close`, and the
/// trimmed text is not empty.
pub open spec fn spec_quoted(s: Seq<char>, open: char, close: char) -> Option<Seq<char>> {
    match (find_first(s, seq![open]), find_last(s, seq![close])) {
        (Some(start), Some(end)) => {
            if start < end && start > 0 {
                let content = trim(s.subrange(start + 1, end));
                if content.len() > 0 {
                    Some(content)
                } else {
                    None
                }
            } else {
                None
            }
        },
        _ => None,
    }
}

/// The song title inside 「」, or else inside 『』 (rule 0).
pub open spec fn spec_extract_from_quotes(s: Seq<char>) -> Option<Seq<char>> {
    match spec_quoted(s, '「', '」') {
        Some(c) => Some(c),
        None => spec_quoted(s, '『', '』'),
    }
}

/// The characters of `s` that lie outside every `open` … `close` pair,
/// given the current nesting depth. An unmatched `close` is dropped and
/// leaves the depth at zero.
pub open spec fn spec_outside_brackets(s: Seq<char>, open: char, close: char, depth: nat) -> Seq<
    char,
>
    decreases s.len(),
{
    if s.len() == 0 {
        Seq::empty()
    } else {
        let c = s[0];
        let rest = s.drop_first();
        if c == open {
            spec_outside_brackets(rest, open, close, depth + 1)
        } else if c == close {
            spec_outside_brackets(rest, open, close, if depth > 0 { (depth - 1) as nat } else { 0 })
        } else if depth == 0 {
            seq![c] + spec_outside_brackets(rest, open, close, 0)
        } else {
            spec_outside_brackets(rest, open, close, depth)
        }
    }
}

/// `s` with every bracketed part removed, trimmed.
pub open spec fn spec_remove_brackets(s: Seq<char>, open: char, close: char) -> Seq<char> {
    trim(spec_outside_brackets(s, open, close, 0))
}

/// The trimmed text before the first occurrence of `pat`, or `None` when
/// `pat` does not occur.
pub open spec fn spec_cut_before(s: Seq<char>, pat: Seq<char>) -> Option<Seq<char>> {
    match find_first(s, pat) {
        Some(p) => Some(trim(s.take(p))),
        None => None,
    }
}

/// Rule 1: cut at `" / "`, else at `/`, else at the full-width `／`.
pub open spec fn spec_cut_at_slash(s: Seq<char>) -> Seq<char> {
    match spec_cut_before(s, " / "@) {
        Some(t) => t,
        None => match spec_cut_before(s, "/"@) {
            Some(t) => t,
            None => match spec_cut_before(s, "／"@) {
                Some(t) => t,
                None => s,
            },
        },
    }
}

/// The separators that introduce the vocalist, in the order they are tried.
pub open spec fn feat_separators() -> Seq<Seq<char>> {
    seq![
        " feat. "@,
        " feat."@,
        "(feat."@,
        "　feat."@,
        " feat "@,
        " ft. "@,
        " ft."@,
        " ft "@,
        " Vo. "@,
        "　Vo."@,
        " vo. "@,
        " vo."@,
    ]
}

/// Rule 6: cut at the first separator of `feat_separators()[i..]` that occurs.
pub open spec fn spec_cut_at_feat(s: Seq<char>, i: nat) -> Seq<char>
    decreases feat_separators().len() - i,
{
    if i >= feat_separators().len() {
        s
    } else {
        match spec_cut_before(s, feat_separators()[i as int]) {
            Some(t) => t,
            None => spec_cut_at_feat(s, i + 1),
        }
    }
}

/// The song title that the rules extract from a full video title.
pub open spec fn spec_extract_song_title(s: Seq<char>) -> Seq<char> {
    match spec_extract_from_quotes(s) {
        Some(q) => q,
        None => {
            let t1 = spec_cut_at_slash(s);
            let t2 = spec_remove_brackets(t1, '【', '】');
            let t3 = spec_remove_brackets(t2, '（', '）');
            let t4 = spec_remove_brackets(t3, '[', ']');
            let t5 = match spec_cut_before(t4, "_"@) {
                Some(t) => t,
                None => t4,
            };
            trim(spec_cut_at_feat(t5, 0))
        },
    }
}

/// The extracted title never starts or ends with whitespace: extracting
/// gives a trimmed string.
pub proof fn lemma_extracted_title_is_trimmed(s: Seq<char>)
    ensures
        trim(spec_extract_song_title(s)) == spec_extract_song_title(s),
{
    match spec_quoted(s, '「', '」') {
        Some(_) => {
            let start = find_first(s, seq!['「'])->0;
            let end = find_last(s, seq!['」'])->0;
            lemma_trim_idempotent(s.subrange(start + 1, end));
        },
        None => match spec_quoted(s, '『', '』') {
            Some(_) => {
                let start = find_first(s, seq!['『'])->0;
                let end = find_last(s, seq!['』'])->0;
                lemma_trim_idempotent(s.subrange(start + 1, end));
            },
            None => {
                let t1 = spec_cut_at_slash(s);
                let t2 = spec_remove_brackets(t1, '【', '】');
                let t3 = spec_remove_brackets(t2, '（', '）');
                let t4 = spec_remove_brackets(t3, '[', ']');
                let t5 = match spec_cut_before(t4, "_"@) {
                    Some(t) => t,
                    None => t4,
                };
                lemma_trim_idempotent(spec_cut_at_feat(t5, 0));
            },
        },
    }
}

proof fn lemma_outside_brackets_subsequence(s: Seq<char>, open: char, close: char, depth: nat)
    ensures
        is_subsequence(spec_outside_brackets(s, open, close, depth), s),
    decreases s.len(),
{
    if s.len() == 0 {
        lemma_subrange_subsequence(s, 0, 0);
        assert(s.subrange(0, 0) =~= spec_outside_brackets(s, open, close, depth));
    } else {
        let c = s[0];
        let rest = s.drop_first();
        let d2: nat = if c == open {
            depth + 1
        } else if c == close {
            if depth > 0 { (depth - 1) as nat } else { 0 }
        } else {
            depth
        };
        lemma_outside_brackets_subsequence(rest, open, close, d2);
        assert(s =~= seq![c] + rest);
        if c != open && c != close && depth == 0 {
            lemma_subsequence_cons(c, spec_outside_brackets(rest, open, close, 0), rest);
        } else {
            lemma_subrange_subsequence(s, 1, s.len() as int);
            assert(s.subrange(1, s.len() as int) =~= rest);
            lemma_subsequence_trans(spec_outside_brackets(rest, open, close, d2), rest, s);
        }
    }
}

proof fn lemma_cut_before_subsequence(s: Seq<char>, pat: Seq<char>)
    ensures
        spec_cut_before(s, pat) matches Some(t) ==> is_subsequence(t, s),
{
    lemma_find_first_props(s, pat);
    if let Some(p) = find_first(s, pat) {
        lemma_subrange_subsequence(s, 0, p);
        assert(s.take(p) =~= s.subrange(0, p));
        lemma_trim_subsequence(s.take(p));
        lemma_subsequence_trans(trim(s.take(p)), s.take(p), s);
    }
}

proof fn lemma_self_subsequence(s: Seq<char>)
    ensures
        is_subsequence(s, s),
{
    lemma_subrange_subsequence(s, 0, s.len() as int);
    assert(s.subrange(0, s.len() as int) =~= s);
}

proof fn lemma_cut_at_feat_subsequence(s: Seq<char>, i: nat)
    ensures
        is_subsequence(spec_cut_at_feat(s, i), s),
    decreases feat_separators().len() - i,
{
    if i >= feat_separators().len() {
        lemma_self_subsequence(s);
    } else {
        lemma_cut_before_subsequence(s, feat_separators()[i as int]);
        lemma_cut_at_feat_subsequence(s, i + 1);
    }
}

proof fn lemma_quoted_subsequence(s: Seq<char>, open: char, close: char)
    ensures
        spec_quoted(s, open, close) matches Some(t) ==> is_subsequence(t, s),
{
    lemma_find_first_props(s, seq![open]);
    lemma_find_last_props(s, seq![close]);
    if let Some(t) = spec_quoted(s, open, close) {
        let start = find_first(s, seq![open])->0;
        let end = find_last(s, seq![close])->0;
        lemma_subrange_subsequence(s, start + 1, end);
        lemma_trim_subsequence(s.subrange(start + 1, end));
        lemma_subsequence_trans(t, s.subrange(start + 1, end), s);
    }
}

/// The rules only delete characters: the extracted title is the full title
/// with some characters left out, the rest kept in order.
pub proof fn lemma_extracted_title_is_subsequence(s: Seq<char>)
    ensures
        is_subsequence(spec_extract_song_title(s), s),
{
    lemma_quoted_subsequence(s, '「', '」');
    lemma_quoted_subsequence(s, '『', '』');
    if spec_extract_from_quotes(s) is None {
        let t1 = spec_cut_at_slash(s);
        lemma_cut_before_subsequence(s, " / "@);
        lemma_cut_before_subsequence(s, "/"@);
        lemma_cut_before_subsequence(s, "／"@);
        lemma_self_subsequence(s);
        let t2 = spec_remove_brackets(t1, '【', '】');
        lemma_outside_brackets_subsequence(t1, '【', '】', 0);
        lemma_trim_subsequence(spec_outside_brackets(t1, '【', '】', 0));
        lemma_subsequence_trans(t2, spec_outside_brackets(t1, '【', '】', 0), t1);
        lemma_subsequence_trans(t2, t1, s);
        let t3 = spec_remove_brackets(t2, '（', '）');
        lemma_outside_brackets_subsequence(t2, '（', '）', 0);
        lemma_trim_subsequence(spec_outside_brackets(t2, '（', '）', 0));
        lemma_subsequence_trans(t3, spec_outside_brackets(t2, '（', '）', 0), t2);
        lemma_subsequence_trans(t3, t2, s);
        let t4 = spec_remove_brackets(t3, '[', ']');
        lemma_outside_brackets_subsequence(t3, '[', ']', 0);
        lemma_trim_subsequence(spec_outside_brackets(t3, '[', ']', 0));
        lemma_subsequence_trans(t4, spec_outside_brackets(t3, '[', ']', 0), t3);
        lemma_subsequence_trans(t4, t3, s);
        let t5 = match spec_cut_before(t4, "_"@) {
            Some(t) => t,
            None => t4,
        };
        lemma_cut_before_subsequence(t4, "_"@);
        lemma_self_subsequence(t4);
        lemma_subsequence_trans(t5, t4, s);
        let t6 = spec_cut_at_feat(t5, 0);
        lemma_cut_at_feat_subsequence(t5, 0);
        lemma_subsequence_trans(t6, t5, s);
        lemma_trim_subsequence(t6);
        lemma_subsequence_trans(trim(t6), t6, s);
    }
}

/// The feat./ft./Vo. separators of rule 6, in the order they are tried.
pub open spec fn rule6_separators() -> Seq<Seq<char>> {
    seq![
        " feat. "@, " feat."@, "(feat."@, "　feat."@, " feat "@, " ft. "@, " ft."@, " ft "@,
        " Vo. "@, "　Vo."@, " vo. "@, " vo."@,
    ]
}

proof fn lemma_cut_at_feat_skips(t: Seq<char>, i: nat, k: nat)
    requires
        i <= k <= 12,
        forall|j: int| i <= j < k ==> !contains_seq(t, #[trigger] feat_separators()[j]),
    ensures
        spec_cut_at_feat(t, i) == spec_cut_at_feat(t, k),
    decreases k - i,
{
    if i < k {
        lemma_find_first_props(t, feat_separators()[i as int]);
        lemma_cut_at_feat_skips(t, i + 1, k);
    }
}

/// Rule 6 cuts at the first-listed separator that occurs: when separator
/// `k` occurs and none listed before it does, the result is the trimmed
/// text before the first occurrence of separator `k`; when none occurs,
/// the text is left as it is.
pub proof fn lemma_cut_at_feat_first_separator(t: Seq<char>)
    ensures
        forall|k: int|
            0 <= k < 12 && #[trigger] contains_seq(t, rule6_separators()[k]) && (forall|j: int|
                0 <= j < k ==> !contains_seq(t, rule6_separators()[j])) ==> spec_cut_at_feat(t, 0)
                == trim(t.take(find_first(t, rule6_separators()[k])->0)),
        (forall|j: int| 0 <= j < 12 ==> !contains_seq(t, #[trigger] rule6_separators()[j]))
            ==> spec_cut_at_feat(t, 0) == t,
{
    assert(rule6_separators() == feat_separators());
    assert forall|k: int|
        0 <= k < 12 && #[trigger] contains_seq(t, rule6_separators()[k]) && (forall|j: int|
            0 <= j < k ==> !contains_seq(t, rule6_separators()[j])) implies spec_cut_at_feat(t, 0)
            == trim(t.take(find_first(t, rule6_separators()[k])->0)) by {
        lemma_cut_at_feat_skips(t, 0, k as nat);
        lemma_find_first_props(t, feat_separators()[k]);
    }
    if forall|j: int| 0 <= j < 12 ==> !contains_seq(t, #[trigger] rule6_separators()[j]) {
        lemma_cut_at_feat_skips(t, 0, 12);
    }
}

/// A pattern holding a character that `s` lacks does not occur in `s`.
proof fn lemma_absent_char(s: Seq<char>, pat: Seq<char>, c: char)
    requires
        pat.contains(c),
        !s.contains(c),
    ensures
        !contains_seq(s, pat),
{
    if contains_seq(s, pat) {
        let i = choose|i: int| occurs_at(s, pat, i);
        let j = choose|j: int| 0 <= j < pat.len() && pat[j] == c;
        assert(s.subrange(i, i + pat.len())[j] == s[i + j]);
        assert(s[i + j] == c);
    }
}

/// Deleting characters brings in no new ones.
proof fn lemma_subsequence_lacks(a: Seq<char>, b: Seq<char>, c: char)
    requires
        is_subsequence(a, b),
        !b.contains(c),
    ensures
        !a.contains(c),
{
    let f = choose|f: spec_fn(int) -> int| embeds(a, b, f);
    if a.contains(c) {
        let i = choose|i: int| 0 <= i < a.len() && a[i] == c;
        assert(0 <= f(i) < b.len() && a[i] == b[f(i)]);
    }
}

/// Without either bracket, nothing is bracketed.
proof fn lemma_outside_brackets_none(s: Seq<char>, open: char, close: char)
    requires
        !s.contains(open),
        !s.contains(close),
    ensures
        spec_outside_brackets(s, open, close, 0) == s,
    decreases s.len(),
{
    if s.len() > 0 {
        let rest = s.drop_first();
        assert(s[0] != open && s[0] != close);
        assert forall|c: char| rest.contains(c) implies s.contains(c) by {
            let i = choose|i: int| 0 <= i < rest.len() && rest[i] == c;
            assert(s[i + 1] == c);
        }
        lemma_outside_brackets_none(rest, open, close);
        assert(s =~= seq![s[0]] + rest);
    }
}

/// A title with no quote, slash, bracket or underscore characters goes
/// through rule 6 alone: trimmed, it is cut at the first-listed feat./ft./
/// Vo. separator that occurs (and trimmed again), or kept whole when none
/// does. For example `x + " Vo. " + y` gives the trimmed `x` when `x`
/// holds none of these.
pub proof fn lemma_extract_rule6_only(s: Seq<char>)
    requires
        !s.contains('「'),
        !s.contains('『'),
        !s.contains('/'),
        !s.contains('／'),
        !s.contains('【'),
        !s.contains('】'),
        !s.contains('（'),
        !s.contains('）'),
        !s.contains('['),
        !s.contains(']'),
        !s.contains('_'),
    ensures
        ({
            let u = trim(s);
            &&& forall|k: int|
                0 <= k < 12 && #[trigger] contains_seq(u, rule6_separators()[k]) && (forall|j: int|
                    0 <= j < k ==> !contains_seq(u, rule6_separators()[j])) ==> spec_extract_song_title(s)
                    == trim(u.take(find_first(u, rule6_separators()[k])->0))
            &&& (forall|j: int| 0 <= j < 12 ==> !contains_seq(u, #[trigger] rule6_separators()[j]))
                ==> spec_extract_song_title(s) == u
        }),
{
    reveal_strlit(" / ");
    reveal_strlit("/");
    reveal_strlit("／");
    reveal_strlit("_");
    let u = trim(s);
    // No quotes.
    lemma_find_first_props(s, seq!['「']);
    lemma_find_first_props(s, seq!['『']);
    assert(seq!['「'][0] == '「');
    assert(seq!['『'][0] == '『');
    lemma_absent_char(s, seq!['「'], '「');
    lemma_absent_char(s, seq!['『'], '『');
    assert(spec_extract_from_quotes(s) is None);
    // No slash: rule 1 keeps the title.
    assert(" / "@[1] == '/');
    lemma_absent_char(s, " / "@, '/');
    assert("/"@[0] == '/');
    lemma_absent_char(s, "/"@, '/');
    assert("／"@[0] == '／');
    lemma_absent_char(s, "／"@, '／');
    lemma_find_first_props(s, " / "@);
    lemma_find_first_props(s, "/"@);
    lemma_find_first_props(s, "／"@);
    assert(spec_cut_at_slash(s) == s);
    // Rules 2 to 4 only trim.
    lemma_trim_subsequence(s);
    lemma_subsequence_lacks(u, s, '（');
    lemma_subsequence_lacks(u, s, '）');
    lemma_subsequence_lacks(u, s, '[');
    lemma_subsequence_lacks(u, s, ']');
    lemma_subsequence_lacks(u, s, '_');
    lemma_outside_brackets_none(s, '【', '】');
    lemma_trim_idempotent(s);
    assert(spec_remove_brackets(s, '【', '】') == u);
    lemma_outside_brackets_none(u, '（', '）');
    assert(spec_remove_brackets(u, '（', '）') == u);
    lemma_outside_brackets_none(u, '[', ']');
    assert(spec_remove_brackets(u, '[', ']') == u);
    // No underscore: rule 5 keeps it.
    assert("_"@[0] == '_');
    lemma_absent_char(u, "_"@, '_');
    lemma_find_first_props(u, "_"@);
    assert(spec_cut_before(u, "_"@) is None);
    // Rule 6.
    lemma_cut_at_feat_first_separator(u);
    assert forall|k: int|
        0 <= k < 12 && #[trigger] contains_seq(u, rule6_separators()[k]) && (forall|j: int|
            0 <= j < k ==> !contains_seq(u, rule6_separators()[j])) implies spec_extract_song_title(s)
            == trim(u.take(find_first(u, rule6_separators()[k])->0)) by {
        lemma_trim_idempotent(u.take(find_first(u, rule6_separators()[k])->0));
    }
}

/// Bracket characters never survive bracket removal.
proof fn lemma_outside_brackets_lacks(s: Seq<char>, open: char, close: char, depth: nat)
    ensures
        !spec_outside_brackets(s, open, close, depth).contains(open),
        !spec_outside_brackets(s, open, close, depth).contains(close),
    decreases s.len(),
{
    if s.len() > 0 {
        let c = s[0];
        let rest = s.drop_first();
        let d2: nat = if c == open {
            depth + 1
        } else if c == close {
            if depth > 0 { (depth - 1) as nat } else { 0 }
        } else {
            depth
        };
        lemma_outside_brackets_lacks(rest, open, close, d2);
        if c != open && c != close && depth == 0 {
            let r = spec_outside_brackets(rest, open, close, 0);
            assert forall|x: char| (seq![c] + r).contains(x) implies x != open && x != close by {
                let i = choose|i: int| 0 <= i < (seq![c] + r).len() && (seq![c] + r)[i] == x;
                if i > 0 {
                    assert(r[i - 1] == x);
                }
            }
        }
    }
}

/// The text before the first `c` holds no `c`.
proof fn lemma_before_first_lacks(s: Seq<char>, c: char)
    ensures
        find_first(s, seq![c]) matches Some(p) ==> !s.take(p).contains(c),
        find_first(s, seq![c]) is None ==> !s.contains(c),
{
    lemma_find_first_props(s, seq![c]);
    if s.contains(c) {
        let i = choose|i: int| 0 <= i < s.len() && s[i] == c;
        assert(s.subrange(i, i + 1) =~= seq![c]);
        assert(occurs_at(s, seq![c], i));
    }
    if let Some(p) = find_first(s, seq![c]) {
        if s.take(p).contains(c) {
            let i = choose|i: int| 0 <= i < s.take(p).len() && s.take(p)[i] == c;
            assert(s.subrange(i, i + 1) =~= seq![c]);
            assert(occurs_at(s, seq![c], i));
        }
    }
}

/// Bracket removal drops both bracket characters and keeps the others'
/// absence.
proof fn lemma_remove_brackets_lacks(s: Seq<char>, open: char, close: char)
    ensures
        !spec_remove_brackets(s, open, close).contains(open),
        !spec_remove_brackets(s, open, close).contains(close),
        forall|x: char| !s.contains(x) ==> !#[trigger] spec_remove_brackets(s, open, close).contains(x),
{
    let o = spec_outside_brackets(s, open, close, 0);
    lemma_outside_brackets_lacks(s, open, close, 0);
    lemma_outside_brackets_subsequence(s, open, close, 0);
    lemma_trim_subsequence(o);
    lemma_subsequence_trans(trim(o), o, s);
    lemma_subsequence_lacks(trim(o), o, open);
    lemma_subsequence_lacks(trim(o), o, close);
    assert forall|x: char| !s.contains(x) implies !#[trigger] spec_remove_brackets(s, open, close).contains(x) by {
        lemma_subsequence_lacks(trim(o), s, x);
    }
}

/// Outside the quote rule, the extracted title holds none of 【 】 （ ） [ ]
/// and `_`: rules 2 to 4 remove the brackets, rule 5 cuts before the first
/// underscore, and what follows only deletes characters.
pub proof fn lemma_extracted_title_lacks_brackets(s: Seq<char>)
    requires
        spec_extract_from_quotes(s) is None,
    ensures
        ({
            let r = spec_extract_song_title(s);
            &&& !r.contains('【') && !r.contains('】')
            &&& !r.contains('（') && !r.contains('）')
            &&& !r.contains('[') && !r.contains(']')
            &&& !r.contains('_')
        }),
{
    reveal_strlit("_");
    assert("_"@ =~= seq!['_']);
    let t1 = spec_cut_at_slash(s);
    let t2 = spec_remove_brackets(t1, '【', '】');
    let t3 = spec_remove_brackets(t2, '（', '）');
    let t4 = spec_remove_brackets(t3, '[', ']');
    lemma_remove_brackets_lacks(t1, '【', '】');
    lemma_remove_brackets_lacks(t2, '（', '）');
    lemma_remove_brackets_lacks(t3, '[', ']');
    assert(!t3.contains('【') && !t3.contains('】'));
    assert(!t4.contains('【') && !t4.contains('】') && !t4.contains('（') && !t4.contains('）'));
    let t5 = match spec_cut_before(t4, "_"@) {
        Some(t) => t,
        None => t4,
    };
    lemma_before_first_lacks(t4, '_');
    lemma_cut_before_subsequence(t4, "_"@);
    lemma_self_subsequence(t4);
    if let Some(p) = find_first(t4, seq!['_']) {
        lemma_trim_subsequence(t4.take(p));
        lemma_subsequence_lacks(t5, t4.take(p), '_');
    } else {
        assert(t5 == t4);
    }
    let t6 = spec_cut_at_feat(t5, 0);
    lemma_cut_at_feat_subsequence(t5, 0);
    lemma_trim_subsequence(t6);
    lemma_subsequence_trans(trim(t6), t6, t5);
    lemma_subsequence_trans(trim(t6), t5, t4);
    let r = trim(t6);
    assert(r == spec_extract_song_title(s));
    lemma_subsequence_lacks(r, t4, '【');
    lemma_subsequence_lacks(r, t4, '】');
    lemma_subsequence_lacks(r, t4, '（');
    lemma_subsequence_lacks(r, t4, '）');
    lemma_subsequence_lacks(r, t4, '[');
    lemma_subsequence_lacks(r, t4, ']');
    lemma_subsequence_lacks(r, t5, '_');
}

/// Rule 1 prefers `" / "`, then any `/`, then the full-width `／`: the
/// result is the trimmed text before the first occurrence of the first of
/// these that occurs, or the title itself when it has no slash at all.
pub proof fn lemma_cut_at_slash_order(s: Seq<char>)
    ensures
        contains_seq(s, seq![' ', '/', ' ']) ==> spec_cut_at_slash(s) == trim(
            s.take(find_first(s, seq![' ', '/', ' '])->0),
        ),
        !contains_seq(s, seq![' ', '/', ' ']) && s.contains('/') ==> spec_cut_at_slash(s) == trim(
            s.take(find_first(s, seq!['/'])->0),
        ),
        !s.contains('/') && s.contains('／') ==> spec_cut_at_slash(s) == trim(
            s.take(find_first(s, seq!['／'])->0),
        ),
        !s.contains('/') && !s.contains('／') ==> spec_cut_at_slash(s) == s,
{
    reveal_strlit(" / ");
    reveal_strlit("/");
    reveal_strlit("／");
    assert(" / "@ =~= seq![' ', '/', ' ']);
    assert("/"@ =~= seq!['/']);
    assert("／"@ =~= seq!['／']);
    lemma_contains_char(s, '/');
    lemma_contains_char(s, '／');
    lemma_find_first_props(s, " / "@);
    lemma_find_first_props(s, "/"@);
    lemma_find_first_props(s, "／"@);
    if !s.contains('/') {
        assert(seq![' ', '/', ' '][1] == '/');
        lemma_absent_char(s, seq![' ', '/', ' '], '/');
    }
}

proof fn lemma_quoted_at(s: Seq<char>, open: char, close: char, p: int, e: int)
    requires
        0 < p < e < s.len(),
        s[p] == open,
        s[e] == close,
        forall|i: int| 0 <= i < p ==> s[i] != open,
        forall|i: int| e < i < s.len() ==> s[i] != close,
    ensures
        spec_quoted(s, open, close) == if trim(s.subrange(p + 1, e)).len() > 0 {
            Some(trim(s.subrange(p + 1, e)))
        } else {
            None
        },
{
    assert(s.subrange(p, p + 1) =~= seq![open]);
    assert(s.subrange(e, e + 1) =~= seq![close]);
    assert forall|j: int| 0 <= j < p implies !occurs_at(s, seq![open], j) by {
        assert(s.subrange(j, j + 1)[0] == s[j]);
    }
    assert forall|j: int| e < j implies !occurs_at(s, seq![close], j) by {
        if j < s.len() {
            assert(s.subrange(j, j + 1)[0] == s[j]);
        }
    }
    lemma_find_first_is(s, seq![open], p);
    lemma_find_last_is(s, seq![close], e);
}

/// Rule 0: when a creator name comes first, the song title is what stands
/// between the first 「 and the last 」, trimmed, provided it is not blank.
/// Failing that, the same holds of 『 and 』 in a title with no 「.
pub proof fn lemma_quote_rule(s: Seq<char>, p: int, e: int)
    requires
        0 < p < e < s.len(),
        forall|i: int| 0 <= i < p ==> s[i] != s[p],
        forall|i: int| e < i < s.len() ==> s[i] != s[e],
        trim(s.subrange(p + 1, e)).len() > 0,
        (s[p] == '「' && s[e] == '」') || (s[p] == '『' && s[e] == '』' && !s.contains('「')),
    ensures
        spec_extract_song_title(s) == trim(s.subrange(p + 1, e)),
{
    if s[p] == '「' {
        lemma_quoted_at(s, '「', '」', p, e);
    } else {
        lemma_find_first_props(s, seq!['「']);
        lemma_contains_char(s, '「');
        lemma_quoted_at(s, '『', '』', p, e);
    }
}

/// A quote at the very start is no creator's quote: when the title opens
/// with its only kind of quote mark, rule 0 does not apply, and the other
/// rules give a title free of brackets and underscores.
pub proof fn lemma_leading_quote_ignored(s: Seq<char>)
    requires
        s.len() > 0,
        (s[0] == '「' && !s.contains('『')) || (s[0] == '『' && !s.contains('「')),
    ensures
        spec_extract_from_quotes(s) is None,
        !spec_extract_song_title(s).contains('【') && !spec_extract_song_title(s).contains('】'),
        !spec_extract_song_title(s).contains('_'),
{
    lemma_find_first_props(s, seq!['「']);
    lemma_find_first_props(s, seq!['『']);
    lemma_contains_char(s, '「');
    lemma_contains_char(s, '『');
    assert(s.subrange(0, 1) =~= seq![s[0]]);
    if s[0] == '「' {
        assert(occurs_at(s, seq!['「'], 0));
    } else {
        assert(occurs_at(s, seq!['『'], 0));
    }
    lemma_extracted_title_lacks_brackets(s);
}

/// Neither bracket character occurs in `y`.
pub open spec fn bracket_free(y: Seq<char>, open: char, close: char) -> bool {
    !y.contains(open) && !y.contains(close)
}

proof fn lemma_outside_plain(y: Seq<char>, r: Seq<char>, open: char, close: char, depth: nat)
    requires
        bracket_free(y, open, close),
    ensures
        depth == 0 ==> spec_outside_brackets(y + r, open, close, depth) == y + spec_outside_brackets(r, open, close, 0),
        depth > 0 ==> spec_outside_brackets(y + r, open, close, depth) == spec_outside_brackets(r, open, close, depth),
    decreases y.len(),
{
    if y.len() == 0 {
        assert(y + r =~= r);
        assert(y + spec_outside_brackets(r, open, close, 0) =~= spec_outside_brackets(r, open, close, 0));
    } else {
        let t = y.drop_first();
        assert(y[0] != open && y[0] != close) by {
            assert(y.contains(y[0]));
        }
        assert(bracket_free(t, open, close)) by {
            assert forall|ch: char| t.contains(ch) implies y.contains(ch) by {
                let i = choose|i: int| 0 <= i < t.len() && t[i] == ch;
                assert(y[i + 1] == ch);
            }
        }
        lemma_outside_plain(t, r, open, close, depth);
        assert((y + r).drop_first() =~= t + r);
        assert((y + r)[0] == y[0]);
        if depth == 0 {
            assert(y =~= seq![y[0]] + t);
            assert(y + spec_outside_brackets(r, open, close, 0) =~= seq![y[0]] + (t + spec_outside_brackets(r, open, close, 0)));
        }
    }
}

proof fn lemma_outside_step(c: char, r: Seq<char>, open: char, close: char, depth: nat)
    requires
        open != close,
    ensures
        c == open ==> spec_outside_brackets(seq![c] + r, open, close, depth) == spec_outside_brackets(r, open, close, depth + 1),
        c == close ==> spec_outside_brackets(seq![c] + r, open, close, depth) == spec_outside_brackets(
            r, open, close, if depth > 0 { (depth - 1) as nat } else { 0 }),
{
    assert((seq![c] + r).drop_first() =~= r);
    assert((seq![c] + r)[0] == c);
}

/// Bracket removal drops a bracketed group whole, also a group nested one
/// level inside another, and drops a stray closing bracket, keeping the
/// text in front and going on after it at the outer level.
pub proof fn lemma_bracket_groups(
    x: Seq<char>,
    y1: Seq<char>,
    y2: Seq<char>,
    y3: Seq<char>,
    z: Seq<char>,
    open: char,
    close: char,
)
    requires
        open != close,
        bracket_free(x, open, close),
        bracket_free(y1, open, close),
        bracket_free(y2, open, close),
        bracket_free(y3, open, close),
    ensures
        spec_outside_brackets(x + seq![open] + y1 + seq![close] + z, open, close, 0) == x
            + spec_outside_brackets(z, open, close, 0),
        spec_outside_brackets(
            x + seq![open] + y1 + seq![open] + y2 + seq![close] + y3 + seq![close] + z,
            open,
            close,
            0,
        ) == x + spec_outside_brackets(z, open, close, 0),
        spec_outside_brackets(x + seq![close] + z, open, close, 0) == x + spec_outside_brackets(z, open, close, 0),
{
    // One group.
    let g = x + seq![open] + y1 + seq![close] + z;
    assert(g =~= x + (seq![open] + (y1 + (seq![close] + z))));
    lemma_outside_plain(x, seq![open] + (y1 + (seq![close] + z)), open, close, 0);
    lemma_outside_step(open, y1 + (seq![close] + z), open, close, 0);
    lemma_outside_plain(y1, seq![close] + z, open, close, 1);
    lemma_outside_step(close, z, open, close, 1);
    // A nested group.
    let h = x + seq![open] + y1 + seq![open] + y2 + seq![close] + y3 + seq![close] + z;
    let tail = seq![close] + z;
    let mid = seq![open] + (y2 + (seq![close] + (y3 + tail)));
    assert(h =~= x + (seq![open] + (y1 + mid)));
    lemma_outside_plain(x, seq![open] + (y1 + mid), open, close, 0);
    lemma_outside_step(open, y1 + mid, open, close, 0);
    lemma_outside_plain(y1, mid, open, close, 1);
    lemma_outside_step(open, y2 + (seq![close] + (y3 + tail)), open, close, 1);
    lemma_outside_plain(y2, seq![close] + (y3 + tail), open, close, 2);
    lemma_outside_step(close, y3 + tail, open, close, 2);
    lemma_outside_plain(y3, tail, open, close, 1);
    lemma_outside_step(close, z, open, close, 1);
    // A stray closing bracket.
    let k = x + seq![close] + z;
    assert(k =~= x + (seq![close] + z));
    lemma_outside_plain(x, seq![close] + z, open, close, 0);
    lemma_outside_step(close, z, open, close, 0);
}

// ---------------------------------------------------------------------------
// Implementation
// ---------------------------------------------------------------------------

/// The characters before the first occurrence of `pat`, trimmed.
fn cut_before(s: &[char], pat: &str) -> (r: Option<Vec<char>>)
    ensures
        match r {
            Some(t) => spec_cut_before(s@, pat@) == Some(t@),
            None => spec_cut_before(s@, pat@) is None,
        },
{
    let p = chars_of(pat);
    match find_chars(s, &p) {
        Some(pos) => {
            let head = slice_chars(s, 0, pos);
            assert(head@ == s@.take(pos as int));
            Some(trim_chars(&head))
        },
        None => None,
    }
}

/// Rule 0: the title inside 「」 or 『』 when a creator name comes first.
fn extract_from_quotes(s: &[char]) -> (r: Option<Vec<char>>)
    ensures
        match r {
            Some(t) => spec_extract_from_quotes(s@) == Some(t@),
            None => spec_extract_from_quotes(s@) is None,
        },
{
    match quoted(s, '「', '」') {
        Some(c) => Some(c),
        None => quoted(s, '『', '』'),
    }
}

fn quoted(s: &[char], open: char, close: char) -> (r: Option<Vec<char>>)
    ensures
        match r {
            Some(t) => spec_quoted(s@, open, close) == Some(t@),
            None => spec_quoted(s@, open, close) is None,
        },
{
    let o = vec![open];
    let c = vec![close];
    proof {
        assert(o@ == seq![open]);
        assert(c@ == seq![close]);
    }
    let start = find_chars(s, &o);
    let end = rfind_chars(s, &c);
    proof {
        lemma_find_first_props(s@, seq![open]);
        lemma_find_last_props(s@, seq![close]);
    }
    match (start, end) {
        (Some(st), Some(en)) => {
            if st < en && st > 0 {
                let inner = slice_chars(s, st + 1, en);
                let content = trim_chars(&inner);
                if content.len() > 0 {
                    Some(content)
                } else {
                    None
                }
            } else {
                None
            }
        },
        _ => None,
    }
}

/// The characters of `s` outside `open` … `close` pairs, trimmed.
fn remove_brackets(s: &[char], open: char, close: char) -> (r: Vec<char>)
    ensures
        r@ == spec_remove_brackets(s@, open, close),
{
    let mut result: Vec<char> = Vec::new();
    let mut depth: usize = 0;
    assert(s@.skip(0) =~= s@);
    assert(result@ + spec_outside_brackets(s@, open, close, 0) =~= spec_outside_brackets(
        s@,
        open,
        close,
        0,
    ));
    let mut i: usize = 0;
    while i < s.len()
        invariant
            i <= s@.len(),
            depth <= i,
            result@ + spec_outside_brackets(s@.skip(i as int), open, close, depth as nat)
                == spec_outside_brackets(s@, open, close, 0),
        decreases s@.len() - i,
    {
        let ch = s[i];
        proof {
            assert(s@.skip(i as int).drop_first() =~= s@.skip(i + 1));
            assert(s@.skip(i as int)[0] == ch);
        }
        if ch == open {
            depth = depth + 1;
        } else if ch == close {
            if depth > 0 {
                depth = depth - 1;
            }
        } else if depth == 0 {
            proof {
                assert(result@.push(ch) + spec_outside_brackets(s@.skip(i + 1), open, close, 0)
                    =~= result@ + (seq![ch] + spec_outside_brackets(s@.skip(i + 1), open, close, 0)));
            }
            result.push(ch);
        }
        i = i + 1;
    }
    proof {
        assert(s@.skip(i as int) =~= Seq::<char>::empty());
        assert(result@ + Seq::<char>::empty() =~= result@);
        assert(s@.skip(0) =~= s@);
    }
    trim_chars(&result)
}

/// Rule 1: the part before a slash separator.
fn cut_at_slash(s: &[char]) -> (r: Vec<char>)
    ensures
        r@ == spec_cut_at_slash(s@),
{
    if let Some(t) = cut_before(s, " / ") {
        t
    } else if let Some(t) = cut_before(s, "/") {
        t
    } else if let Some(t) = cut_before(s, "／") {
        t
    } else {
        slice_chars(s, 0, s.len())
    }
}

/// The `i`-th separator of `feat_separators()`.
fn feat_separator(i: usize) -> (r: &'static str)
    requires
        i < feat_separators().len(),
    ensures
        r@ == feat_separators()[i as int],
{
    match i {
        0 => " feat. ",
        1 => " feat.",
        2 => "(feat.",
        3 => "　feat.",
        4 => " feat ",
        5 => " ft. ",
        6 => " ft.",
        7 => " ft ",
        8 => " Vo. ",
        9 => "　Vo.",
        10 => " vo. ",
        _ => " vo.",
    }
}

/// Rule 6: the part before the first `feat.` / `ft.` / `Vo.` separator.
fn cut_at_feat(s: &[char]) -> (r: Vec<char>)
    ensures
        r@ == spec_cut_at_feat(s@, 0),
{
    let mut i: usize = 0;
    while i < 12
        invariant
            i <= 12,
            feat_separators().len() == 12,
            spec_cut_at_feat(s@, i as nat) == spec_cut_at_feat(s@, 0),
        decreases 12 - i,
    {
        if let Some(t) = cut_before(s, feat_separator(i)) {
            return t;
        }
        i = i + 1;
    }
    slice_chars(s, 0, s.len())
}

/// Extracts the song title from a full NicoNico video title.
///
/// The rules, in order: a title quoted in 「」 or 『』 after a creator name
/// wins; otherwise the text before a slash separator is kept, bracketed
/// parts in 【】, （） and [] are dropped, the text before `_` is kept, and
/// the text before a `feat.` / `ft.` / `Vo.` separator is kept.
pub fn extract_song_title(full_title: &str) -> (r: String)
    ensures
        r@ == spec_extract_song_title(full_title@),
{
    let s = chars_of(full_title);
    if let Some(q) = extract_from_quotes(&s) {
        return string_from_chars(&q);
    }
    let t1 = cut_at_slash(&s);
    let t2 = remove_brackets(&t1, '【', '】');
    let t3 = remove_brackets(&t2, '（', '）');
    let t4 = remove_brackets(&t3, '[', ']');
    let t5 = match cut_before(&t4, "_") {
        Some(t) => t,
        None => t4,
    };
    let t6 = cut_at_feat(&t5);
    let t7 = trim_chars(&t6);
    string_from_chars(&t7)
}

} // verus!
