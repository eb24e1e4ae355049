//! Statistics for comparing rule-based and model-annotated song titles.

use vstd::prelude::*;
use vstd::hash_map::StringHashMap;
use vstd::relations::{sorted_by, total_ordering};
use vstd::seq_lib::lemma_sorted_unique;
use vstd::utf8::encode_utf8;
use crate::bio::AnnotationRow;

verus! {

/// A title with the song title that each method extracted from it.
pub struct Comparison {
    pub title: String,
    pub rule_based: String,
    pub llm_based: String,
    pub match_flag: bool,
}

/// The (title, extracted title) pairs of `rows`.
pub open spec fn row_pairs(rows: Seq<AnnotationRow>) -> Seq<(Seq<char>, Seq<char>)> {
    rows.map_values(|r: AnnotationRow| (r.title@, r.extracted_title@))
}

/// Each title's extracted title, where a later pair replaces an earlier one
/// with the same title.
pub open spec fn annotation_map(pairs: Seq<(Seq<char>, Seq<char>)>) -> Map<Seq<char>, Seq<char>>
    decreases pairs.len(),
{
    if pairs.len() == 0 {
        Map::empty()
    } else {
        annotation_map(pairs.drop_last()).insert(pairs.last().0, pairs.last().1)
    }
}

/// `c` pairs a title that both tables hold with its entry in each, and says
/// whether the two agree.
pub open spec fn compares(
    c: Comparison,
    llm: Map<Seq<char>, Seq<char>>,
    rule: Map<Seq<char>, Seq<char>>,
) -> bool {
    &&& llm.contains_key(c.title@)
    &&& rule.contains_key(c.title@)
    &&& c.rule_based@ == rule[c.title@]
    &&& c.llm_based@ == llm[c.title@]
    &&& c.match_flag == (llm[c.title@] == rule[c.title@])
}

/// The titles of an annotation map are those of its pairs.
pub proof fn lemma_annotation_map_keys(pairs: Seq<(Seq<char>, Seq<char>)>)
    ensures
        annotation_map(pairs).dom().finite(),
        forall|k: Seq<char>|
            annotation_map(pairs).contains_key(k) <==> exists|j: int|
                0 <= j < pairs.len() && #[trigger] pairs[j].0 == k,
    decreases pairs.len(),
{
    if pairs.len() > 0 {
        let prev = pairs.drop_last();
        lemma_annotation_map_keys(prev);
        assert forall|k: Seq<char>|
            annotation_map(pairs).contains_key(k) <==> exists|j: int|
                0 <= j < pairs.len() && #[trigger] pairs[j].0 == k by {
            if annotation_map(pairs).contains_key(k) && k != pairs.last().0 {
                let j = choose|j: int| 0 <= j < prev.len() && #[trigger] prev[j].0 == k;
                assert(pairs[j].0 == k);
            }
            if exists|j: int| 0 <= j < pairs.len() && #[trigger] pairs[j].0 == k {
                let j = choose|j: int| 0 <= j < pairs.len() && #[trigger] pairs[j].0 == k;
                if j < pairs.len() - 1 {
                    assert(prev[j].0 == k);
                }
            }
        }
    }
}

/// A later row replaces an earlier one: a title's entry is the extracted
/// title of the last pair with that title.
pub proof fn lemma_annotation_map_last(pairs: Seq<(Seq<char>, Seq<char>)>, j: int)
    requires
        0 <= j < pairs.len(),
        forall|k: int| j < k < pairs.len() ==> pairs[k].0 != pairs[j].0,
    ensures
        annotation_map(pairs).contains_key(pairs[j].0),
        annotation_map(pairs)[pairs[j].0] == pairs[j].1,
    decreases pairs.len(),
{
    if j < pairs.len() - 1 {
        lemma_annotation_map_last(pairs.drop_last(), j);
    }
}

/// The table of `rows`: each title with the extracted title of its last row.
fn annotation_table(rows: &[AnnotationRow]) -> (r: StringHashMap<String>)
    ensures
        forall|k: Seq<char>|
            #[trigger] r@.contains_key(k) <==> annotation_map(row_pairs(rows@)).contains_key(k),
        forall|k: Seq<char>|
            #[trigger] r@.contains_key(k) ==> r@[k]@ == annotation_map(row_pairs(rows@))[k],
{
    let ghost pairs = row_pairs(rows@);
    let mut table: StringHashMap<String> = StringHashMap::new();
    let mut i: usize = 0;
    assert(pairs.take(0) =~= Seq::<(Seq<char>, Seq<char>)>::empty());
    while i < rows.len()
        invariant
            i <= rows@.len(),
            pairs == row_pairs(rows@),
            forall|k: Seq<char>|
                #[trigger] table@.contains_key(k) <==> annotation_map(pairs.take(i as int)).contains_key(k),
            forall|k: Seq<char>|
                #[trigger] table@.contains_key(k) ==> table@[k]@ == annotation_map(pairs.take(i as int))[k],
        decreases rows@.len() - i,
    {
        let title = rows[i].title.clone();
        let extracted = rows[i].extracted_title.clone();
        table.insert(title, extracted);
        assert(pairs.take(i + 1).drop_last() =~= pairs.take(i as int));
        i = i + 1;
    }
    assert(pairs.take(i as int) =~= pairs);
    table
}

/// The number of distinct titles among `rows`.
pub fn distinct_titles(rows: &[AnnotationRow]) -> (r: usize)
    ensures
        r == annotation_map(row_pairs(rows@)).len(),
{
    let table = annotation_table(rows);
    proof {
        lemma_annotation_map_keys(row_pairs(rows@));
        assert(table@.dom() =~= annotation_map(row_pairs(rows@)).dom());
    }
    table.len()
}

/// Compares the two annotations of every title that both `llm_rows` and
/// `rule_rows` annotate, taking for each title the extracted title of its last
/// row in each. Each such title is compared once; the order of the
/// comparisons is left open.
pub fn compare_annotations(llm_rows: &[AnnotationRow], rule_rows: &[AnnotationRow]) -> (r: Vec<Comparison>)
    ensures
        forall|i: int|
            0 <= i < r@.len() ==> compares(
                #[trigger] r@[i],
                annotation_map(row_pairs(llm_rows@)),
                annotation_map(row_pairs(rule_rows@)),
            ),
        forall|i: int, j: int| 0 <= i < j < r@.len() ==> r@[i].title@ != r@[j].title@,
        forall|t: Seq<char>|
            annotation_map(row_pairs(llm_rows@)).contains_key(t) && annotation_map(
                row_pairs(rule_rows@),
            ).contains_key(t) ==> exists|i: int| 0 <= i < r@.len() && #[trigger] r@[i].title@ == t,
{
    let ghost lmap = annotation_map(row_pairs(llm_rows@));
    let ghost rmap = annotation_map(row_pairs(rule_rows@));
    let ghost pairs = row_pairs(llm_rows@);
    proof {
        lemma_annotation_map_keys(pairs);
    }
    let llm = annotation_table(llm_rows);
    let rule = annotation_table(rule_rows);
    let mut seen: StringHashMap<bool> = StringHashMap::new();
    let mut out: Vec<Comparison> = Vec::new();
    let mut i: usize = 0;
    while i < llm_rows.len()
        invariant
            i <= llm_rows@.len(),
            pairs == row_pairs(llm_rows@),
            lmap == annotation_map(pairs),
            rmap == annotation_map(row_pairs(rule_rows@)),
            forall|k: Seq<char>| lmap.contains_key(k) <==> exists|j: int|
                0 <= j < pairs.len() && #[trigger] pairs[j].0 == k,
            forall|k: Seq<char>| #[trigger] llm@.contains_key(k) <==> lmap.contains_key(k),
            forall|k: Seq<char>| #[trigger] llm@.contains_key(k) ==> llm@[k]@ == lmap[k],
            forall|k: Seq<char>| #[trigger] rule@.contains_key(k) <==> rmap.contains_key(k),
            forall|k: Seq<char>| #[trigger] rule@.contains_key(k) ==> rule@[k]@ == rmap[k],
            forall|j: int| 0 <= j < out@.len() ==> compares(#[trigger] out@[j], lmap, rmap),
            forall|a: int, b: int| 0 <= a < b < out@.len() ==> out@[a].title@ != out@[b].title@,
            forall|k: Seq<char>|
                #[trigger] seen@.contains_key(k) <==> exists|j: int|
                    0 <= j < out@.len() && #[trigger] out@[j].title@ == k,
            forall|j: int|
                0 <= j < i && rmap.contains_key(#[trigger] pairs[j].0) ==> seen@.contains_key(pairs[j].0),
        decreases llm_rows@.len() - i,
    {
        let title = &llm_rows[i].title;
        assert(pairs[i as int].0 == title@);
        if !seen.contains_key(title.as_str()) {
            match rule.get(title.as_str()) {
                Some(rule_value) => {
                    match llm.get(title.as_str()) {
                        Some(llm_value) => {
                            let c = Comparison {
                                title: title.clone(),
                                rule_based: rule_value.clone(),
                                llm_based: llm_value.clone(),
                                match_flag: *llm_value == *rule_value,
                            };
                            let ghost before = out@;
                            out.push(c);
                            seen.insert(title.clone(), true);
                            assert(out@[before.len() as int].title@ == title@);
                            assert forall|k: Seq<char>|
                                #[trigger] seen@.contains_key(k) <==> exists|j: int|
                                    0 <= j < out@.len() && #[trigger] out@[j].title@ == k by {
                                if k != title@ && seen@.contains_key(k) {
                                    let j = choose|j: int| 0 <= j < before.len() && #[trigger] before[j].title@ == k;
                                    assert(out@[j].title@ == k);
                                }
                                if exists|j: int| 0 <= j < out@.len() && #[trigger] out@[j].title@ == k {
                                    let j = choose|j: int| 0 <= j < out@.len() && #[trigger] out@[j].title@ == k;
                                    if j < before.len() {
                                        assert(before[j].title@ == k);
                                    }
                                }
                            }
                            assert forall|a: int, b: int| 0 <= a < b < out@.len() implies out@[a].title@ != out@[b].title@ by {
                                if b == before.len() {
                                    assert(before[a].title@ == out@[a].title@);
                                    if out@[a].title@ == title@ {
                                        assert(exists|j: int| 0 <= j < before.len() && #[trigger] before[j].title@ == title@);
                                    }
                                }
                            }
                        },
                        None => {
                            assert(exists|j: int| 0 <= j < pairs.len() && #[trigger] pairs[j].0 == title@);
                        },
                    }
                },
                None => {},
            }
        }
        i = i + 1;
    }
    proof {
        assert forall|t: Seq<char>| lmap.contains_key(t) && rmap.contains_key(t) implies exists|i: int|
            0 <= i < out@.len() && #[trigger] out@[i].title@ == t by {
            let j = choose|j: int| 0 <= j < pairs.len() && #[trigger] pairs[j].0 == t;
            assert(seen@.contains_key(pairs[j].0));
        }
    }
    out
}

/// The number of comparisons whose two annotations agree.
pub open spec fn count_matches(cs: Seq<Comparison>) -> nat
    decreases cs.len(),
{
    if cs.len() == 0 {
        0
    } else {
        count_matches(cs.drop_last()) + if cs.last().match_flag { 1nat } else { 0nat }
    }
}

/// The comparisons whose annotations agree.
pub open spec fn agreeing(cs: Seq<Comparison>) -> Seq<Comparison> {
    cs.filter(|c: Comparison| c.match_flag)
}

/// The comparisons whose annotations differ.
pub open spec fn differing(cs: Seq<Comparison>) -> Seq<Comparison> {
    cs.filter(|c: Comparison| !c.match_flag)
}

/// The match count is the number of agreeing comparisons, and the rest
/// are exactly the differing ones.
pub proof fn lemma_match_counts_split(cs: Seq<Comparison>)
    ensures
        count_matches(cs) == agreeing(cs).len(),
        cs.len() - count_matches(cs) == differing(cs).len(),
    decreases cs.len(),
{
    reveal(Seq::filter);
    if cs.len() > 0 {
        lemma_match_counts_split(cs.drop_last());
    }
}

/// How many comparisons agree, and how many do not.
pub fn match_counts(comparisons: &[Comparison]) -> (r: (usize, usize))
    ensures
        r.0 == count_matches(comparisons@),
        r.0 + r.1 == comparisons@.len(),
        r.0 == agreeing(comparisons@).len(),
        r.1 == differing(comparisons@).len(),
{
    proof {
        lemma_match_counts_split(comparisons@);
    }
    let mut matches: usize = 0;
    let mut mismatches: usize = 0;
    let mut i: usize = 0;
    while i < comparisons.len()
        invariant
            i <= comparisons@.len(),
            matches == count_matches(comparisons@.take(i as int)),
            matches + mismatches == i,
        decreases comparisons@.len() - i,
    {
        assert(comparisons@.take(i + 1).drop_last() =~= comparisons@.take(i as int));
        if comparisons[i].match_flag {
            matches = matches + 1;
        } else {
            mismatches = mismatches + 1;
        }
        i = i + 1;
    }
    assert(comparisons@.take(i as int) =~= comparisons@);
    (matches, mismatches)
}

/// The lengths in UTF-8 bytes of the rule-based and of the model-based
/// extractions, in the order of the comparisons.
pub fn extraction_lengths(comparisons: &[Comparison]) -> (r: (Vec<usize>, Vec<usize>))
    ensures
        r.0@.len() == comparisons@.len(),
        r.1@.len() == comparisons@.len(),
        forall|i: int|
            0 <= i < comparisons@.len() ==> r.0@[i] == encode_utf8(
                (#[trigger] comparisons@[i]).rule_based@,
            ).len() as usize && r.1@[i] == encode_utf8(comparisons@[i].llm_based@).len() as usize,
{
    let mut rule_lengths: Vec<usize> = Vec::new();
    let mut llm_lengths: Vec<usize> = Vec::new();
    let mut i: usize = 0;
    while i < comparisons.len()
        invariant
            i <= comparisons@.len(),
            rule_lengths@.len() == i,
            llm_lengths@.len() == i,
            forall|j: int|
                0 <= j < i ==> rule_lengths@[j] == encode_utf8((#[trigger] comparisons@[j]).rule_based@).len() as usize
                    && llm_lengths@[j] == encode_utf8(comparisons@[j].llm_based@).len() as usize,
        decreases comparisons@.len() - i,
    {
        rule_lengths.push(comparisons[i].rule_based.as_str().len());
        llm_lengths.push(comparisons[i].llm_based.as_str().len());
        i = i + 1;
    }
    (rule_lengths, llm_lengths)
}

/// `a <= b` on lengths.
pub open spec fn len_leq(a: usize, b: usize) -> bool {
    a <= b
}

/// `lengths` in ascending order.
pub open spec fn sorted_lengths(lengths: Seq<usize>) -> Seq<usize> {
    lengths.sort_by(|a: usize, b: usize| len_leq(a, b))
}

/// Calls `slice::sort` on the lengths. Trusted: the slice comes back in
/// ascending order with the same elements, as std documents.
#[verifier::external_body]
fn sort_ascending(v: &mut Vec<usize>)
    ensures
        sorted_by(final(v)@, |a: usize, b: usize| len_leq(a, b)),
        final(v)@.to_multiset() == old(v)@.to_multiset(),
{
    v.sort();
}

proof fn lemma_len_leq_total()
    ensures
        total_ordering(|a: usize, b: usize| len_leq(a, b)),
{
}

/// The minimum, median (the element at position `len / 2` in ascending
/// order) and maximum of `lengths`; `None` when there are none.
pub fn length_summary(lengths: Vec<usize>) -> (r: Option<(usize, usize, usize)>)
    ensures
        lengths@.len() == 0 ==> r is None,
        lengths@.len() > 0 ==> {
            let s = sorted_lengths(lengths@);
            r == Some((s[0], s[(lengths@.len() / 2) as int], s[lengths@.len() - 1]))
        },
{
    let mut v = lengths;
    let ghost original = v@;
    sort_ascending(&mut v);
    proof {
        lemma_len_leq_total();
        original.lemma_sort_by_ensures(|a: usize, b: usize| len_leq(a, b));
        lemma_sorted_unique(v@, sorted_lengths(original), |a: usize, b: usize| len_leq(a, b));
        assert(v@ == sorted_lengths(original));
        v@.to_multiset_ensures();
        original.to_multiset_ensures();
    }
    if v.len() == 0 {
        return None;
    }
    let mid = v.len() / 2;
    Some((v[0], v[mid], v[v.len() - 1]))
}

/// The summary is ordered: minimum, then median, then maximum, and every
/// length lies between the minimum and the maximum.
pub proof fn lemma_summary_ordered(lengths: Seq<usize>)
    requires
        lengths.len() > 0,
    ensures
        ({
            let s = sorted_lengths(lengths);
            &&& s.len() == lengths.len()
            &&& s[0] <= s[(lengths.len() / 2) as int] <= s[lengths.len() - 1]
            &&& forall|i: int| 0 <= i < lengths.len() ==> s[0] <= #[trigger] lengths[i] <= s[lengths.len() - 1]
        }),
{
    let leq = |a: usize, b: usize| len_leq(a, b);
    lemma_len_leq_total();
    lengths.lemma_sort_by_ensures(leq);
    let s = sorted_lengths(lengths);
    assert(sorted_by(s, leq));
    s.to_multiset_ensures();
    lengths.to_multiset_ensures();
    assert forall|i: int| 0 <= i < lengths.len() implies s[0] <= #[trigger] lengths[i] <= s[lengths.len() - 1] by {
        assert(lengths.to_multiset().count(lengths[i]) > 0);
        assert(s.contains(lengths[i]));
        let j = choose|j: int| 0 <= j < s.len() && s[j] == lengths[i];
        if j > 0 {
            assert(leq(s[0], s[j]));
        }
        if j < s.len() - 1 {
            assert(leq(s[j], s[lengths.len() - 1]));
        }
    }
    let mid = (lengths.len() / 2) as int;
    if mid > 0 {
        assert(leq(s[0], s[mid]));
    }
    if mid < s.len() - 1 {
        assert(leq(s[mid], s[lengths.len() - 1]));
    }
}

} // verus!
