//! Comparing predicted BIO labels with annotated song titles.

use vstd::prelude::*;
use crate::bio::{bio_labels, bio_tags, spec_tag_at};
use crate::crf::{Label, bio_step_ok, bio_valid, lemma_tag_round_trip, spec_label_from, spec_label_tag};
use crate::text::string_views;
use crate::text::{chars_of, contains_seq, find_first, lemma_find_first_props, matches_at, occurs_at, slice_chars, string_from_chars};

verus! {

/// One row of the comparison between the annotated song title and the one
/// the CRF tagged.
pub struct AnalysisRow {
    pub title: String,
    pub llm_extracted: String,
    pub crf_extracted: String,
    pub match_llm_crf: bool,
    pub gold_labels: Vec<String>,
    pub pred_labels: Vec<String>,
}

/// How a predicted song title relates to the annotated one.
#[derive(Debug, Clone, Copy, PartialEq, Eq, Structural)]
pub enum MismatchKind {
    /// Nothing was predicted.
    EmptyPrediction,
    /// The prediction is a proper prefix of the annotation.
    PartialPrediction,
    /// The prediction is some other text.
    DifferentSpan,
    /// The prediction is the annotation.
    Agree,
}

/// The kind of disagreement between a predicted and an annotated title.
pub open spec fn spec_mismatch_kind(crf: Seq<char>, llm: Seq<char>) -> MismatchKind {
    if crf.len() == 0 {
        MismatchKind::EmptyPrediction
    } else if crf.len() < llm.len() && occurs_at(llm, crf, 0) {
        MismatchKind::PartialPrediction
    } else if crf != llm {
        MismatchKind::DifferentSpan
    } else {
        MismatchKind::Agree
    }
}

/// The kinds, by what the two titles are: an empty prediction; a non-empty
/// prediction that the annotation starts with and goes beyond; an exact
/// match; and any other difference.
pub proof fn lemma_mismatch_kinds(crf: Seq<char>, llm: Seq<char>)
    ensures
        (spec_mismatch_kind(crf, llm) == MismatchKind::EmptyPrediction) <==> crf.len() == 0,
        (spec_mismatch_kind(crf, llm) == MismatchKind::PartialPrediction) <==> (crf.len() > 0
            && exists|rest: Seq<char>| rest.len() > 0 && llm == crf + rest),
        (spec_mismatch_kind(crf, llm) == MismatchKind::Agree) <==> (crf.len() > 0 && crf == llm),
        (spec_mismatch_kind(crf, llm) == MismatchKind::DifferentSpan) <==> (crf.len() > 0 && crf != llm
            && !exists|rest: Seq<char>| rest.len() > 0 && llm == crf + rest),
{
    if crf.len() < llm.len() && occurs_at(llm, crf, 0) {
        let rest = llm.skip(crf.len() as int);
        assert(llm =~= crf + rest);
    }
    if exists|rest: Seq<char>| rest.len() > 0 && llm == crf + rest {
        let rest = choose|rest: Seq<char>| rest.len() > 0 && llm == crf + rest;
        assert(llm.subrange(0, crf.len() as int) =~= crf);
        assert(occurs_at(llm, crf, 0));
    }
}

/// Sorts a predicted song title against the annotated one: empty, a proper
/// prefix of it, different from it, or the same.
pub fn categorize_mismatch(crf_extracted: &str, llm_extracted: &str) -> (r: MismatchKind)
    ensures
        r == spec_mismatch_kind(crf_extracted@, llm_extracted@),
{
    let crf = chars_of(crf_extracted);
    let llm = chars_of(llm_extracted);
    if crf.len() == 0 {
        return MismatchKind::EmptyPrediction;
    }
    let prefix = matches_at(&llm, &crf, 0);
    if crf.len() < llm.len() && prefix {
        MismatchKind::PartialPrediction
    } else if !(crf.len() == llm.len() && prefix) {
        proof {
            if crf@ == llm@ {
                assert(llm@.subrange(0, crf@.len() as int) =~= crf@);
            }
        }
        MismatchKind::DifferentSpan
    } else {
        assert(crf@ =~= llm@.subrange(0, crf@.len() as int));
        assert(llm@.subrange(0, llm@.len() as int) =~= llm@);
        MismatchKind::Agree
    }
}

/// The tag strings of `labels`.
pub open spec fn label_tags(labels: Seq<Label>) -> Seq<Seq<char>> {
    labels.map_values(|l: Label| spec_label_tag(l))
}

fn tag_strings(labels: &[Label]) -> (r: Vec<String>)
    ensures
        string_views(r@) == label_tags(labels@),
{
    let mut r: Vec<String> = Vec::new();
    let mut i: usize = 0;
    while i < labels.len()
        invariant
            i <= labels@.len(),
            string_views(r@) == label_tags(labels@).take(i as int),
        decreases labels@.len() - i,
    {
        let tag = labels[i].as_str().to_owned();
        let ghost tv = tag@;
        assert(tv == spec_label_tag(labels@[i as int]));
        let ghost before = r@;
        r.push(tag);
        assert(string_views(r@) =~= string_views(before).push(tv));
        assert(label_tags(labels@).take(i + 1) =~= label_tags(labels@).take(i as int).push(tv));
        i = i + 1;
    }
    assert(label_tags(labels@).take(labels@.len() as int) =~= label_tags(labels@));
    r
}

/// The comparison row of one document: the annotated song title, the span
/// the predicted labels tag, whether the two agree, and both label
/// sequences as tag strings.
pub fn analysis_row(title: &str, llm_extracted: &str, gold: &[Label], pred: &[Label]) -> (r:
    AnalysisRow)
    requires
        span_fits(title@.len() as int, pred@),
    ensures
        r.title@ == title@,
        r.llm_extracted@ == llm_extracted@,
        r.crf_extracted@ == spec_span_text(title@, pred@),
        r.match_llm_crf == (llm_extracted@ == spec_span_text(title@, pred@)),
        string_views(r.gold_labels@) == label_tags(gold@),
        string_views(r.pred_labels@) == label_tags(pred@),
{
    let crf_extracted = extract_span_from_bio(title, pred);
    let llm = llm_extracted.to_owned();
    let match_llm_crf = llm == crf_extracted;
    AnalysisRow {
        title: title.to_owned(),
        llm_extracted: llm,
        crf_extracted,
        match_llm_crf,
        gold_labels: tag_strings(gold),
        pred_labels: tag_strings(pred),
    }
}

/// Scanning `labels` from position `i`, with `start` the position of the
/// `B` of the span now open: the span as `(start, Some(end))` when an `O`
/// or a new `B` closes it, `(start, None)` when it runs to the end, `None`
/// when no `B` is seen. An `I` outside a span is passed over.
pub open spec fn span_from(labels: Seq<Label>, i: int, start: Option<int>) -> Option<
    (int, Option<int>),
>
    decreases labels.len() - i,
{
    if i >= labels.len() {
        match start {
            Some(s) => Some((s, None)),
            None => None,
        }
    } else if labels[i] != Label::I && start is Some {
        Some((start->0, Some(i)))
    } else if labels[i] == Label::B {
        span_from(labels, i + 1, Some(i))
    } else {
        span_from(labels, i + 1, start)
    }
}

/// The first tagged span of `labels`: from the first `B` through the `I`s
/// that follow it, up to the next `O` or `B` or to the end.
pub open spec fn bio_span(labels: Seq<Label>) -> Option<(int, Option<int>)> {
    span_from(labels, 0, None)
}

/// The span of `labels` lies within a title of `len` characters.
pub open spec fn span_fits(len: int, labels: Seq<Label>) -> bool {
    match bio_span(labels) {
        Some((s, Some(e))) => e <= len,
        Some((s, None)) => s <= len,
        None => true,
    }
}

/// The characters of `title` that the span of `labels` covers.
pub open spec fn spec_span_text(title: Seq<char>, labels: Seq<Label>) -> Seq<char> {
    match bio_span(labels) {
        Some((s, Some(e))) => title.subrange(s, e),
        Some((s, None)) => title.skip(s),
        None => Seq::empty(),
    }
}

proof fn lemma_span_start_before(labels: Seq<Label>, i: int, start: Option<int>)
    requires
        0 <= i,
        start matches Some(s) ==> 0 <= s < i,
    ensures
        span_from(labels, i, start) matches Some((s, Some(e))) ==> 0 <= s < e <= labels.len(),
        span_from(labels, i, start) matches Some((s, None)) ==> 0 <= s < labels.len() || (
        start matches Some(s0) && s == s0),
    decreases labels.len() - i,
{
    if i < labels.len() {
        if labels[i] != Label::I && start is Some {
        } else if labels[i] == Label::B {
            lemma_span_start_before(labels, i + 1, Some(i));
        } else {
            lemma_span_start_before(labels, i + 1, start);
        }
    }
}

/// A span always lies within the labels, so labels no longer than the
/// title always fit it.
pub proof fn lemma_labels_within_title_fit(len: int, labels: Seq<Label>)
    requires
        labels.len() <= len,
    ensures
        span_fits(len, labels),
{
    lemma_span_start_before(labels, 0, None);
}

/// The text of the first B…I span of `labels` in `title`, or the empty
/// string when `labels` has no `B`.
pub fn extract_span_from_bio(title: &str, labels: &[Label]) -> (r: String)
    requires
        span_fits(title@.len() as int, labels@),
    ensures
        r@ == spec_span_text(title@, labels@),
{
    let chars = chars_of(title);
    let mut start: Option<usize> = None;
    let mut i: usize = 0;
    proof {
        lemma_span_start_before(labels@, 0, None);
    }
    while i < labels.len()
        invariant
            i <= labels@.len(),
            chars@ == title@,
            span_fits(title@.len() as int, labels@),
            span_from(labels@, i as int, match start {
                Some(s) => Some(s as int),
                None => None,
            }) == bio_span(labels@),
            start matches Some(s) ==> s < i,
        decreases labels@.len() - i,
    {
        if labels[i] != Label::I && start.is_some() {
            let s = start.unwrap();
            let piece = slice_chars(&chars, s, i);
            return string_from_chars(&piece);
        } else if labels[i] == Label::B {
            start = Some(i);
        }
        i = i + 1;
    }
    match start {
        Some(s) => {
            let piece = slice_chars(&chars, s, chars.len());
            assert(piece@ == title@.skip(s as int));
            string_from_chars(&piece)
        },
        None => String::new(),
    }
}

proof fn lemma_skip_outside(labels: Seq<Label>, i: int, j: int)
    requires
        0 <= i <= j <= labels.len(),
        forall|k: int| i <= k < j ==> labels[k] == Label::O,
    ensures
        span_from(labels, i, None) == span_from(labels, j, None),
    decreases j - i,
{
    if i < j {
        lemma_skip_outside(labels, i + 1, j);
    }
}

proof fn lemma_skip_inside(labels: Seq<Label>, i: int, j: int, s: int)
    requires
        0 <= i <= j <= labels.len(),
        forall|k: int| i <= k < j ==> labels[k] == Label::I,
    ensures
        span_from(labels, i, Some(s)) == span_from(labels, j, Some(s)),
    decreases j - i,
{
    if i < j {
        lemma_skip_inside(labels, i + 1, j, s);
    }
}

/// The labels of a title of `n` characters whose span is `st .. st + len`.
pub open spec fn span_labels(n: int, st: int, len: int) -> Seq<Label> {
    Seq::new(
        n as nat,
        |i: int|
            if st <= i < st + len {
                if i == st {
                    Label::B
                } else {
                    Label::I
                }
            } else {
                Label::O
            },
    )
}

proof fn lemma_tags_name_span_labels(title: Seq<char>, extracted: Seq<char>)
    requires
        contains_seq(title, extracted),
    ensures
        forall|i: int|
            0 <= i < title.len() ==> spec_label_from(#[trigger] bio_tags(title, extracted)[i]) is Some,
        find_first(title, extracted)->0 + extracted.len() <= title.len(),
        bio_labels(title, extracted) == span_labels(
            title.len() as int,
            find_first(title, extracted)->0,
            extracted.len() as int,
        ),
{
    lemma_find_first_props(title, extracted);
    lemma_tag_round_trip(Label::B);
    lemma_tag_round_trip(Label::I);
    lemma_tag_round_trip(Label::O);
    let st = find_first(title, extracted)->0;
    let len = extracted.len() as int;
    let tags = bio_tags(title, extracted);
    let labels = bio_labels(title, extracted);
    let expect = span_labels(title.len() as int, st, len);
    assert forall|i: int| 0 <= i < title.len() implies labels[i] == expect[i] && spec_label_from(
        #[trigger] tags[i],
    ) is Some by {
        assert(tags[i] == spec_tag_at(i, st, len));
        if st <= i < st + len {
            if i == st {
                assert(tags[i] == spec_label_tag(Label::B));
            } else {
                assert(tags[i] == spec_label_tag(Label::I));
            }
        } else {
            assert(tags[i] == spec_label_tag(Label::O));
        }
    }
    assert(labels =~= expect);
}

proof fn lemma_span_labels_valid(n: int, st: int, len: int)
    requires
        0 <= st,
        0 <= len,
        st + len <= n,
    ensures
        bio_valid(span_labels(n, st, len)),
{
    let labels = span_labels(n, st, len);
    assert forall|t: int| 1 <= t < labels.len() implies #[trigger] bio_step_ok(labels, t) by {
        if labels[t] == Label::I {
            assert(st < t < st + len);
        }
    }
}

proof fn lemma_span_labels_span(n: int, st: int, len: int)
    requires
        0 <= st,
        0 <= len,
        st + len <= n,
    ensures
        len == 0 ==> bio_span(span_labels(n, st, len)) is None,
        len > 0 && st + len < n ==> bio_span(span_labels(n, st, len)) == Some((st, Some(st + len))),
        len > 0 && st + len == n ==> bio_span(span_labels(n, st, len)) == Some((st, None::<int>)),
{
    let labels = span_labels(n, st, len);
    assert(labels.len() == n);
    if len == 0 {
        assert forall|k: int| 0 <= k < n implies labels[k] == Label::O by {}
        lemma_skip_outside(labels, 0, n);
        assert(span_from(labels, n, None) is None);
    } else {
        assert forall|k: int| 0 <= k < st implies labels[k] == Label::O by {}
        lemma_skip_outside(labels, 0, st);
        assert(labels[st] == Label::B);
        assert(span_from(labels, st, None) == span_from(labels, st + 1, Some(st)));
        assert forall|k: int| st + 1 <= k < st + len implies labels[k] == Label::I by {}
        lemma_skip_inside(labels, st + 1, st + len, st);
        if st + len < n {
            assert(labels[st + len] == Label::O);
            assert(span_from(labels, st + len, Some(st)) == Some((st, Some(st + len))));
        } else {
            assert(span_from(labels, st + len, Some(st)) == Some((st, None::<int>)));
        }
    }
}

/// Tagging a title from an extracted song title and reading the span back
/// from the tags gives the song title again: every tag names a label, the
/// labels obey the BIO scheme, and their span is the first occurrence of
/// the song title in the title.
pub proof fn lemma_bio_round_trip(title: Seq<char>, extracted: Seq<char>)
    requires
        contains_seq(title, extracted),
    ensures
        forall|i: int|
            0 <= i < title.len() ==> spec_label_from(#[trigger] bio_tags(title, extracted)[i]) is Some,
        bio_valid(bio_labels(title, extracted)),
        span_fits(title.len() as int, bio_labels(title, extracted)),
        spec_span_text(title, bio_labels(title, extracted)) == extracted,
{
    lemma_tags_name_span_labels(title, extracted);
    lemma_find_first_props(title, extracted);
    let st = find_first(title, extracted)->0;
    let len = extracted.len() as int;
    lemma_span_labels_valid(title.len() as int, st, len);
    lemma_span_labels_span(title.len() as int, st, len);
    if len == 0 {
        assert(spec_span_text(title, bio_labels(title, extracted)) =~= extracted);
    } else if st + len < title.len() {
        assert(title.subrange(st, st + len) == extracted);
    } else {
        assert(title.skip(st) =~= title.subrange(st, st + len));
    }
}

} // verus!
