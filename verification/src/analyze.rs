//! Which formatting patterns a title uses.

use vstd::prelude::*;
use crate::text::{chars_of, contains_seq, find_chars, lemma_contains_char, lemma_find_first_props, matches_at, occurs_at, string_views};

verus! {

/// The formatting patterns found in one title.
pub struct TitlePatterns {
    /// Holds `" / "`.
    pub slash_separator: bool,
    /// Holds `" - "`.
    pub dash_separator: bool,
    /// Holds `"feat."` or `"feat "`.
    pub feat: bool,
    /// Holds both `【` and `】`.
    pub japanese_brackets: bool,
    /// Holds both `（` and `）`.
    pub japanese_parens: bool,
    /// Starts with `【`.
    pub starts_with_bracket: bool,
    /// Holds both `[` and `]`.
    pub square_brackets: bool,
    /// Holds both `(` and `)`.
    pub round_parens: bool,
}

/// The patterns of `t`.
pub open spec fn spec_title_patterns(t: Seq<char>) -> TitlePatterns {
    TitlePatterns {
        slash_separator: contains_seq(t, " / "@),
        dash_separator: contains_seq(t, " - "@),
        feat: contains_seq(t, "feat."@) || contains_seq(t, "feat "@),
        japanese_brackets: contains_seq(t, "【"@) && contains_seq(t, "】"@),
        japanese_parens: contains_seq(t, "（"@) && contains_seq(t, "）"@),
        starts_with_bracket: occurs_at(t, "【"@, 0),
        square_brackets: contains_seq(t, "["@) && contains_seq(t, "]"@),
        round_parens: contains_seq(t, "("@) && contains_seq(t, ")"@),
    }
}

/// Whether `pat` occurs in `t`.
fn holds(t: &Vec<char>, pat: &str) -> (r: bool)
    ensures
        r == contains_seq(t@, pat@),
{
    let p = chars_of(pat);
    proof {
        lemma_find_first_props(t@, p@);
    }
    find_chars(t, &p).is_some()
}

/// The formatting patterns of `title`.
pub fn title_patterns(title: &str) -> (r: TitlePatterns)
    ensures
        r == spec_title_patterns(title@),
{
    let t = chars_of(title);
    let open = chars_of("【");
    TitlePatterns {
        slash_separator: holds(&t, " / "),
        dash_separator: holds(&t, " - "),
        feat: holds(&t, "feat.") || holds(&t, "feat "),
        japanese_brackets: holds(&t, "【") && holds(&t, "】"),
        japanese_parens: holds(&t, "（") && holds(&t, "）"),
        starts_with_bracket: matches_at(&t, &open, 0),
        square_brackets: holds(&t, "[") && holds(&t, "]"),
        round_parens: holds(&t, "(") && holds(&t, ")"),
    }
}

/// `pat` sits at `i` in `t` exactly when each of its characters does.
proof fn lemma_occurs_at_chars(t: Seq<char>, pat: Seq<char>, i: int)
    ensures
        occurs_at(t, pat, i) <==> (0 <= i && i + pat.len() <= t.len() && forall|k: int|
            0 <= k < pat.len() ==> #[trigger] t[i + k] == pat[k]),
{
    if 0 <= i && i + pat.len() <= t.len() && forall|k: int| 0 <= k < pat.len() ==> #[trigger] t[i + k] == pat[k] {
        assert forall|k: int| 0 <= k < pat.len() implies t.subrange(i, i + pat.len())[k] == pat[k] by {
            assert(t[i + k] == pat[k]);
        }
        assert(t.subrange(i, i + pat.len()) =~= pat);
    }
    if occurs_at(t, pat, i) {
        assert forall|k: int| 0 <= k < pat.len() implies #[trigger] t[i + k] == pat[k] by {
            assert(t.subrange(i, i + pat.len())[k] == t[i + k]);
        }
    }
}

/// The characters `a b c` stand at `i .. i + 3` of `t`.
pub open spec fn three_at(t: Seq<char>, i: int, a: char, b: char, c: char) -> bool {
    0 <= i && i + 3 <= t.len() && t[i] == a && t[i + 1] == b && t[i + 2] == c
}

/// `feat.` or `feat ` stands at `i .. i + 5` of `t`.
pub open spec fn feat_at(t: Seq<char>, i: int) -> bool {
    &&& 0 <= i && i + 5 <= t.len()
    &&& t[i] == 'f' && t[i + 1] == 'e' && t[i + 2] == 'a' && t[i + 3] == 't'
    &&& (t[i + 4] == '.' || t[i + 4] == ' ')
}

proof fn lemma_contains_three(t: Seq<char>, a: char, b: char, c: char)
    ensures
        contains_seq(t, seq![a, b, c]) == exists|i: int| #[trigger] three_at(t, i, a, b, c),
{
    let pat = seq![a, b, c];
    if exists|i: int| #[trigger] three_at(t, i, a, b, c) {
        let i = choose|i: int| #[trigger] three_at(t, i, a, b, c);
        assert forall|k: int| 0 <= k < pat.len() implies #[trigger] t[i + k] == pat[k] by {
            if k == 0 {
                assert(t[i + k] == t[i]);
            } else if k == 1 {
                assert(t[i + k] == t[i + 1]);
            } else {
                assert(t[i + k] == t[i + 2]);
            }
        }
        lemma_occurs_at_chars(t, pat, i);
    }
    if contains_seq(t, pat) {
        let i = choose|i: int| occurs_at(t, pat, i);
        lemma_occurs_at_chars(t, pat, i);
        assert(t[i + 0] == a && t[i + 1] == b && t[i + 2] == c);
        assert(three_at(t, i, a, b, c));
    }
}

proof fn lemma_contains_feat(t: Seq<char>)
    ensures
        (contains_seq(t, "feat."@) || contains_seq(t, "feat "@)) == exists|i: int| #[trigger] feat_at(t, i),
{
    reveal_strlit("feat.");
    reveal_strlit("feat ");
    if exists|i: int| #[trigger] feat_at(t, i) {
        let i = choose|i: int| #[trigger] feat_at(t, i);
        let pat = if t[i + 4] == '.' { "feat."@ } else { "feat "@ };
        assert forall|k: int| 0 <= k < pat.len() implies #[trigger] t[i + k] == pat[k] by {
            if k == 0 {
                assert(t[i + k] == t[i]);
            } else if k == 1 {
                assert(t[i + k] == t[i + 1]);
            } else if k == 2 {
                assert(t[i + k] == t[i + 2]);
            } else if k == 3 {
                assert(t[i + k] == t[i + 3]);
            } else {
                assert(t[i + k] == t[i + 4]);
            }
        }
        lemma_occurs_at_chars(t, pat, i);
    }
    if contains_seq(t, "feat."@) {
        let i = choose|i: int| occurs_at(t, "feat."@, i);
        lemma_occurs_at_chars(t, "feat."@, i);
        assert(t[i + 0] == 'f' && t[i + 1] == 'e' && t[i + 2] == 'a' && t[i + 3] == 't' && t[i + 4] == '.');
        assert(feat_at(t, i));
    }
    if contains_seq(t, "feat "@) {
        let i = choose|i: int| occurs_at(t, "feat "@, i);
        lemma_occurs_at_chars(t, "feat "@, i);
        assert(t[i + 0] == 'f' && t[i + 1] == 'e' && t[i + 2] == 'a' && t[i + 3] == 't' && t[i + 4] == ' ');
        assert(feat_at(t, i));
    }
}

/// What each pattern means in terms of the title's characters: the
/// separators ` / ` and ` - ` stand somewhere, `feat.` or `feat ` stands
/// somewhere, both brackets of a pair occur, and the title's first
/// character is 【.
pub proof fn lemma_title_patterns_chars(t: Seq<char>)
    ensures
        spec_title_patterns(t).slash_separator == exists|i: int| #[trigger] three_at(t, i, ' ', '/', ' '),
        spec_title_patterns(t).dash_separator == exists|i: int| #[trigger] three_at(t, i, ' ', '-', ' '),
        spec_title_patterns(t).feat == exists|i: int| #[trigger] feat_at(t, i),
        spec_title_patterns(t).japanese_brackets == (t.contains('【') && t.contains('】')),
        spec_title_patterns(t).japanese_parens == (t.contains('（') && t.contains('）')),
        spec_title_patterns(t).starts_with_bracket == (t.len() > 0 && t[0] == '【'),
        spec_title_patterns(t).square_brackets == (t.contains('[') && t.contains(']')),
        spec_title_patterns(t).round_parens == (t.contains('(') && t.contains(')')),
{
    reveal_strlit(" / ");
    reveal_strlit(" - ");
    reveal_strlit("【");
    reveal_strlit("】");
    reveal_strlit("（");
    reveal_strlit("）");
    reveal_strlit("[");
    reveal_strlit("]");
    reveal_strlit("(");
    reveal_strlit(")");
    assert(" / "@ =~= seq![' ', '/', ' ']);
    assert(" - "@ =~= seq![' ', '-', ' ']);
    assert("【"@ =~= seq!['【']);
    assert("】"@ =~= seq!['】']);
    assert("（"@ =~= seq!['（']);
    assert("）"@ =~= seq!['）']);
    assert("["@ =~= seq!['[']);
    assert("]"@ =~= seq![']']);
    assert("("@ =~= seq!['(']);
    assert(")"@ =~= seq![')']);
    lemma_contains_three(t, ' ', '/', ' ');
    lemma_contains_three(t, ' ', '-', ' ');
    lemma_contains_feat(t);
    lemma_contains_char(t, '【');
    lemma_contains_char(t, '】');
    lemma_contains_char(t, '（');
    lemma_contains_char(t, '）');
    lemma_contains_char(t, '[');
    lemma_contains_char(t, ']');
    lemma_contains_char(t, '(');
    lemma_contains_char(t, ')');
    lemma_occurs_at_chars(t, seq!['【'], 0);
    if t.len() > 0 && t[0] == '【' {
        assert forall|k: int| 0 <= k < 1 implies #[trigger] t[0 + k] == seq!['【'][k] by {
            assert(k == 0);
        }
        assert(occurs_at(t, seq!['【'], 0));
    }
    if occurs_at(t, seq!['【'], 0) {
        assert(t[0int + 0] == seq!['【'][0]);
    }
}

/// How many titles show each pattern.
pub struct PatternCounts {
    pub slash_separator: usize,
    pub dash_separator: usize,
    pub feat: usize,
    pub japanese_brackets: usize,
    pub japanese_parens: usize,
    pub starts_with_bracket: usize,
    pub square_brackets: usize,
    pub round_parens: usize,
}

/// How many of `titles` have patterns for which `has` holds.
pub open spec fn count_titles(titles: Seq<Seq<char>>, has: spec_fn(TitlePatterns) -> bool) -> nat
    decreases titles.len(),
{
    if titles.len() == 0 {
        0
    } else {
        count_titles(titles.drop_last(), has) + if has(spec_title_patterns(titles.last())) {
            1nat
        } else {
            0nat
        }
    }
}

/// No more titles are counted than there are.
pub proof fn lemma_count_titles_bound(titles: Seq<Seq<char>>, has: spec_fn(TitlePatterns) -> bool)
    ensures
        count_titles(titles, has) <= titles.len(),
    decreases titles.len(),
{
    if titles.len() > 0 {
        lemma_count_titles_bound(titles.drop_last(), has);
    }
}

/// Adds one to `n` when `present`, with `n` below `bound`.
fn bump(n: usize, present: bool, bound: usize) -> (r: usize)
    requires
        n < bound,
    ensures
        r == n + if present { 1int } else { 0int },
{
    if present { n + 1 } else { n }
}

/// For each pattern, the number of `titles` that show it.
pub fn pattern_counts(titles: &[String]) -> (r: PatternCounts)
    ensures
        r.slash_separator == count_titles(string_views(titles@), |p: TitlePatterns| p.slash_separator),
        r.dash_separator == count_titles(string_views(titles@), |p: TitlePatterns| p.dash_separator),
        r.feat == count_titles(string_views(titles@), |p: TitlePatterns| p.feat),
        r.japanese_brackets == count_titles(string_views(titles@), |p: TitlePatterns| p.japanese_brackets),
        r.japanese_parens == count_titles(string_views(titles@), |p: TitlePatterns| p.japanese_parens),
        r.starts_with_bracket == count_titles(string_views(titles@), |p: TitlePatterns| p.starts_with_bracket),
        r.square_brackets == count_titles(string_views(titles@), |p: TitlePatterns| p.square_brackets),
        r.round_parens == count_titles(string_views(titles@), |p: TitlePatterns| p.round_parens),
{
    let ghost v = string_views(titles@);
    let mut c = PatternCounts {
        slash_separator: 0,
        dash_separator: 0,
        feat: 0,
        japanese_brackets: 0,
        japanese_parens: 0,
        starts_with_bracket: 0,
        square_brackets: 0,
        round_parens: 0,
    };
    let mut i: usize = 0;
    while i < titles.len()
        invariant
            i <= titles@.len(),
            v == string_views(titles@),
            c.slash_separator == count_titles(v.take(i as int), |p: TitlePatterns| p.slash_separator),
            c.dash_separator == count_titles(v.take(i as int), |p: TitlePatterns| p.dash_separator),
            c.feat == count_titles(v.take(i as int), |p: TitlePatterns| p.feat),
            c.japanese_brackets == count_titles(v.take(i as int), |p: TitlePatterns| p.japanese_brackets),
            c.japanese_parens == count_titles(v.take(i as int), |p: TitlePatterns| p.japanese_parens),
            c.starts_with_bracket == count_titles(v.take(i as int), |p: TitlePatterns| p.starts_with_bracket),
            c.square_brackets == count_titles(v.take(i as int), |p: TitlePatterns| p.square_brackets),
            c.round_parens == count_titles(v.take(i as int), |p: TitlePatterns| p.round_parens),
        decreases titles@.len() - i,
    {
        let p = title_patterns(titles[i].as_str());
        let ghost prefix = v.take(i as int);
        proof {
            assert(v.take(i + 1).drop_last() =~= prefix);
            assert(v.take(i + 1).last() == titles@[i as int]@);
            lemma_count_titles_bound(prefix, |p: TitlePatterns| p.slash_separator);
            lemma_count_titles_bound(prefix, |p: TitlePatterns| p.dash_separator);
            lemma_count_titles_bound(prefix, |p: TitlePatterns| p.feat);
            lemma_count_titles_bound(prefix, |p: TitlePatterns| p.japanese_brackets);
            lemma_count_titles_bound(prefix, |p: TitlePatterns| p.japanese_parens);
            lemma_count_titles_bound(prefix, |p: TitlePatterns| p.starts_with_bracket);
            lemma_count_titles_bound(prefix, |p: TitlePatterns| p.square_brackets);
            lemma_count_titles_bound(prefix, |p: TitlePatterns| p.round_parens);
        }
        c.slash_separator = bump(c.slash_separator, p.slash_separator, titles.len());
        c.dash_separator = bump(c.dash_separator, p.dash_separator, titles.len());
        c.feat = bump(c.feat, p.feat, titles.len());
        c.japanese_brackets = bump(c.japanese_brackets, p.japanese_brackets, titles.len());
        c.japanese_parens = bump(c.japanese_parens, p.japanese_parens, titles.len());
        c.starts_with_bracket = bump(c.starts_with_bracket, p.starts_with_bracket, titles.len());
        c.square_brackets = bump(c.square_brackets, p.square_brackets, titles.len());
        c.round_parens = bump(c.round_parens, p.round_parens, titles.len());
        i = i + 1;
    }
    assert(v.take(i as int) =~= v);
    c
}

/// The name of pattern `k`, in the order of the fields of `PatternCounts`.
pub open spec fn pattern_name(k: int) -> Seq<char> {
    if k == 0 {
        "slash_separator"@
    } else if k == 1 {
        "dash_separator"@
    } else if k == 2 {
        "feat"@
    } else if k == 3 {
        "japanese_brackets"@
    } else if k == 4 {
        "japanese_parens"@
    } else if k == 5 {
        "starts_with_bracket"@
    } else if k == 6 {
        "square_brackets"@
    } else {
        "round_parens"@
    }
}

/// The count of pattern `k` in `c`.
pub open spec fn pattern_count(c: PatternCounts, k: int) -> usize {
    if k == 0 {
        c.slash_separator
    } else if k == 1 {
        c.dash_separator
    } else if k == 2 {
        c.feat
    } else if k == 3 {
        c.japanese_brackets
    } else if k == 4 {
        c.japanese_parens
    } else if k == 5 {
        c.starts_with_bracket
    } else if k == 6 {
        c.square_brackets
    } else {
        c.round_parens
    }
}

/// No two patterns share a name.
pub proof fn lemma_pattern_names_distinct(i: int, j: int)
    requires
        0 <= i < 8,
        0 <= j < 8,
        i != j,
    ensures
        pattern_name(i) != pattern_name(j),
{
    reveal_strlit("slash_separator");
    reveal_strlit("dash_separator");
    reveal_strlit("feat");
    reveal_strlit("japanese_brackets");
    reveal_strlit("japanese_parens");
    reveal_strlit("starts_with_bracket");
    reveal_strlit("square_brackets");
    reveal_strlit("round_parens");
    if pattern_name(i).len() == pattern_name(j).len() {
        if pattern_name(i)[0] == pattern_name(j)[0] {
            assert(pattern_name(i)[1] != pattern_name(j)[1]);
        } else {
            assert(pattern_name(i)[0] != pattern_name(j)[0]);
        }
    }
}

fn pattern_name_str(k: usize) -> (r: &'static str)
    requires
        k < 8,
    ensures
        r@ == pattern_name(k as int),
{
    if k == 0 {
        "slash_separator"
    } else if k == 1 {
        "dash_separator"
    } else if k == 2 {
        "feat"
    } else if k == 3 {
        "japanese_brackets"
    } else if k == 4 {
        "japanese_parens"
    } else if k == 5 {
        "starts_with_bracket"
    } else if k == 6 {
        "square_brackets"
    } else {
        "round_parens"
    }
}

fn pattern_count_of(c: &PatternCounts, k: usize) -> (r: usize)
    requires
        k < 8,
    ensures
        r == pattern_count(*c, k as int),
{
    if k == 0 {
        c.slash_separator
    } else if k == 1 {
        c.dash_separator
    } else if k == 2 {
        c.feat
    } else if k == 3 {
        c.japanese_brackets
    } else if k == 4 {
        c.japanese_parens
    } else if k == 5 {
        c.starts_with_bracket
    } else if k == 6 {
        c.square_brackets
    } else {
        c.round_parens
    }
}

/// Pattern `a` is listed before pattern `b`: it has the larger count, or
/// the same count and an earlier field.
pub open spec fn listed_before(c: PatternCounts, a: int, b: int) -> bool {
    pattern_count(c, a) > pattern_count(c, b) || (pattern_count(c, a) == pattern_count(c, b) && a < b)
}

/// The patterns that some title shows, as (name, count) pairs, most
/// frequent first: each such pattern exactly once, none with a zero count.
/// The order among equal counts is left open.
#[verifier::rlimit(40)]
pub fn ranked_patterns(c: &PatternCounts) -> (r: Vec<(&'static str, usize)>)
    ensures
        forall|i: int|
            0 <= i < r@.len() ==> (#[trigger] r@[i]).1 > 0 && exists|k: int|
                0 <= k < 8 && r@[i].0@ == pattern_name(k) && r@[i].1 == pattern_count(*c, k),
        forall|k: int|
            0 <= k < 8 && pattern_count(*c, k) > 0 ==> exists|i: int|
                0 <= i < r@.len() && (#[trigger] r@[i]).0@ == pattern_name(k) && r@[i].1
                    == pattern_count(*c, k),
        forall|i: int, j: int| 0 <= i < j < r@.len() ==> (#[trigger] r@[i]).1 >= (#[trigger] r@[j]).1,
        forall|i: int, j: int| 0 <= i < j < r@.len() ==> (#[trigger] r@[i]).0@ != (#[trigger] r@[j]).0@,
{
    // Indices of the patterns with a nonzero count, in listing order.
    let mut order: Vec<usize> = Vec::new();
    let mut k: usize = 0;
    while k < 8
        invariant
            k <= 8,
            forall|m: int| 0 <= m < order@.len() ==> #[trigger] order@[m] < k && pattern_count(*c, order@[m] as int) > 0,
            forall|a: int, b: int|
                0 <= a < b < order@.len() ==> listed_before(*c, #[trigger] order@[a] as int, #[trigger] order@[b] as int),
            forall|j: int| 0 <= j < k && pattern_count(*c, j) > 0 ==> exists|m: int| 0 <= m < order@.len() && #[trigger] order@[m] == j,
        decreases 8 - k,
    {
        let ck = pattern_count_of(c, k);
        if ck > 0 {
            let mut p: usize = 0;
            while p < order.len() && pattern_count_of(c, order[p]) >= ck
                invariant
                    p <= order@.len(),
                    k < 8,
                    ck == pattern_count(*c, k as int),
                    forall|m: int| 0 <= m < order@.len() ==> #[trigger] order@[m] < k,
                    forall|m: int| 0 <= m < p ==> pattern_count(*c, #[trigger] order@[m] as int) >= ck,
                decreases order@.len() - p,
            {
                p = p + 1;
            }
            let ghost before = order@;
            proof {
                // Past `p` every count is below `ck`, as counts do not increase.
                assert forall|m: int| p <= m < before.len() implies pattern_count(*c, #[trigger] before[m] as int) < ck by {
                    if m > p {
                        assert(listed_before(*c, before[p as int] as int, before[m] as int));
                    }
                }
            }
            order.insert(p, k);
            proof {
                assert forall|a: int, b: int| 0 <= a < b < order@.len() implies listed_before(
                    *c,
                    #[trigger] order@[a] as int,
                    #[trigger] order@[b] as int,
                ) by {
                    if b < p {
                        assert(order@[a] == before[a] && order@[b] == before[b]);
                    } else if b == p {
                        assert(order@[a] == before[a]);
                    } else if a < p {
                        assert(order@[a] == before[a] && order@[b] == before[b - 1]);
                    } else if a == p {
                        assert(order@[b] == before[b - 1]);
                    } else {
                        assert(order@[a] == before[a - 1] && order@[b] == before[b - 1]);
                    }
                }
                assert forall|m: int| 0 <= m < order@.len() implies #[trigger] order@[m] < k + 1 && pattern_count(
                    *c,
                    order@[m] as int,
                ) > 0 by {
                    if m < p {
                        assert(order@[m] == before[m]);
                    } else if m > p {
                        assert(order@[m] == before[m - 1]);
                    }
                }
                assert forall|j: int| 0 <= j < k + 1 && pattern_count(*c, j) > 0 implies exists|m: int|
                    0 <= m < order@.len() && #[trigger] order@[m] == j by {
                    if j == k {
                        assert(order@[p as int] == k);
                    } else {
                        let m = choose|m: int| 0 <= m < before.len() && #[trigger] before[m] == j;
                        if m < p {
                            assert(order@[m] == j);
                        } else {
                            assert(order@[m + 1] == j);
                        }
                    }
                }
            }
        }
        k = k + 1;
    }
    let mut r: Vec<(&'static str, usize)> = Vec::new();
    let mut i: usize = 0;
    while i < order.len()
        invariant
            i <= order@.len(),
            r@.len() == i,
            forall|m: int| 0 <= m < order@.len() ==> #[trigger] order@[m] < 8 && pattern_count(*c, order@[m] as int) > 0,
            forall|m: int|
                0 <= m < i ==> (#[trigger] r@[m]).0@ == pattern_name(order@[m] as int) && r@[m].1
                    == pattern_count(*c, order@[m] as int),
        decreases order@.len() - i,
    {
        let idx = order[i];
        r.push((pattern_name_str(idx), pattern_count_of(c, idx)));
        i = i + 1;
    }
    proof {
        assert forall|m: int| 0 <= m < r@.len() implies (#[trigger] r@[m]).1 > 0 && exists|k: int|
            0 <= k < 8 && r@[m].0@ == pattern_name(k) && r@[m].1 == pattern_count(*c, k) by {
            let k = order@[m] as int;
            assert(0 <= k < 8 && r@[m].0@ == pattern_name(k) && r@[m].1 == pattern_count(*c, k));
        }
        assert forall|j: int| 0 <= j < 8 && pattern_count(*c, j) > 0 implies exists|i: int|
            0 <= i < r@.len() && (#[trigger] r@[i]).0@ == pattern_name(j) && r@[i].1 == pattern_count(*c, j) by {
            let m = choose|m: int| 0 <= m < order@.len() && #[trigger] order@[m] == j;
            assert(r@[m].0@ == pattern_name(j));
        }
        assert forall|a: int, b: int| 0 <= a < b < r@.len() implies (#[trigger] r@[a]).1 >= (#[trigger] r@[b]).1
            && r@[a].0@ != r@[b].0@ by {
            assert(listed_before(*c, order@[a] as int, order@[b] as int));
            lemma_pattern_names_distinct(order@[a] as int, order@[b] as int);
        }
    }
    r
}

} // verus!
