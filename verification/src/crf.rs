//! BIO labels and the integer parts of linear-chain CRF decoding and
//! evaluation.
//!
//! The CRF scores themselves are floating point and are computed outside
//! this library; what is here is everything about labels: parsing them,
//! following Viterbi back-pointers to the best label sequence, the BIO
//! well-formedness of that sequence, and the B-tag counts used to score a
//! prediction against the gold labels.

use vstd::prelude::*;

verus! {

/// A BIO label: Begin, Inside or Outside of the song-title span.
#[derive(Debug, Clone, Copy, PartialEq, Eq, Hash, PartialOrd, Ord, Structural)]
pub enum Label {
    B,
    I,
    O,
}

/// The label a tag string names, if any.
pub open spec fn spec_label_from(s: Seq<char>) -> Option<Label> {
    if s == "B"@ {
        Some(Label::B)
    } else if s == "I"@ {
        Some(Label::I)
    } else if s == "O"@ {
        Some(Label::O)
    } else {
        None
    }
}

/// The tag string of a label.
pub open spec fn spec_label_tag(l: Label) -> Seq<char> {
    match l {
        Label::B => "B"@,
        Label::I => "I"@,
        Label::O => "O"@,
    }
}

/// The position of a label in `Label::all()`.
pub open spec fn spec_label_index(l: Label) -> int {
    match l {
        Label::B => 0,
        Label::I => 1,
        Label::O => 2,
    }
}

impl Label {
    /// The label named by `"B"`, `"I"` or `"O"`.
    pub fn from_str(s: &str) -> (r: Option<Label>)
        ensures
            r == spec_label_from(s@),
    {
        proof {
            reveal_strlit("B");
            reveal_strlit("I");
            reveal_strlit("O");
        }
        if s.unicode_len() != 1 {
            return None;
        }
        let c = s.get_char(0);
        if c == 'B' {
            assert(s@ =~= "B"@);
            Some(Label::B)
        } else if c == 'I' {
            assert(s@ =~= "I"@);
            Some(Label::I)
        } else if c == 'O' {
            assert(s@ =~= "O"@);
            Some(Label::O)
        } else {
            None
        }
    }

    /// The three labels, in index order.
    pub fn all() -> (r: [Label; 3])
        ensures
            r@ == seq![Label::B, Label::I, Label::O],
    {
        let r = [Label::B, Label::I, Label::O];
        assert(r@ =~= seq![Label::B, Label::I, Label::O]);
        r
    }

    /// The tag string of the label.
    pub fn as_str(&self) -> (r: &'static str)
        ensures
            r@ == spec_label_tag(*self),
    {
        match self {
            Label::B => "B",
            Label::I => "I",
            Label::O => "O",
        }
    }

    /// The position of the label in `Label::all()`.
    pub fn index(&self) -> (r: usize)
        ensures
            r == spec_label_index(*self),
    {
        match self {
            Label::B => 0,
            Label::I => 1,
            Label::O => 2,
        }
    }
}

/// Reading back the tag of a label gives the label.
pub proof fn lemma_tag_round_trip(l: Label)
    ensures
        spec_label_from(spec_label_tag(l)) == Some(l),
{
    reveal_strlit("B");
    reveal_strlit("I");
    reveal_strlit("O");
    assert("B"@[0] != "I"@[0]);
    assert("B"@[0] != "O"@[0]);
    assert("I"@[0] != "O"@[0]);
}

/// Position `t` does not put an `I` right after an `O`.
pub open spec fn bio_step_ok(labels: Seq<Label>, t: int) -> bool {
    labels[t] == Label::I ==> labels[t - 1] != Label::O
}

/// A label sequence obeys the BIO scheme: it does not start with `I`, and
/// `I` never directly follows `O`.
pub open spec fn bio_valid(labels: Seq<Label>) -> bool {
    &&& labels.len() > 0 ==> labels[0] != Label::I
    &&& forall|t: int| 1 <= t < labels.len() ==> #[trigger] bio_step_ok(labels, t)
}

/// Whether `curr` may follow `prev` under the BIO scheme, `prev` being
/// `None` at the first position: an `I` only continues a `B` or an `I`.
pub open spec fn spec_bio_allowed(prev: Option<Label>, curr: Label) -> bool {
    curr == Label::I ==> (prev matches Some(p) && p != Label::O)
}

/// Whether `curr` may follow `prev` (`None` at the first position) in a
/// BIO label sequence.
pub fn bio_allowed(prev: Option<Label>, curr: Label) -> (r: bool)
    ensures
        r == spec_bio_allowed(prev, curr),
{
    match curr {
        Label::I => match prev {
            Some(Label::B) | Some(Label::I) => true,
            _ => false,
        },
        _ => true,
    }
}

/// A label sequence obeys the BIO scheme exactly when each of its labels
/// may follow the one before it.
pub proof fn lemma_bio_valid_iff_allowed(labels: Seq<Label>)
    ensures
        bio_valid(labels) <==> {
            &&& labels.len() > 0 ==> spec_bio_allowed(None, labels[0])
            &&& forall|t: int| 1 <= t < labels.len() ==> #[trigger] spec_bio_allowed(Some(labels[t - 1]), labels[t])
        },
{
    if bio_valid(labels) {
        assert forall|t: int| 1 <= t < labels.len() implies #[trigger] spec_bio_allowed(Some(labels[t - 1]), labels[t]) by {
            assert(bio_step_ok(labels, t));
        }
    }
    if (labels.len() > 0 ==> spec_bio_allowed(None, labels[0])) && (forall|t: int| 1 <= t < labels.len() ==> #[trigger] spec_bio_allowed(Some(labels[t - 1]), labels[t])) {
        assert forall|t: int| 1 <= t < labels.len() implies #[trigger] bio_step_ok(labels, t) by {
            assert(spec_bio_allowed(Some(labels[t - 1]), labels[t]));
        }
    }
}

/// The label at position `t` of the path that Viterbi back-pointers give,
/// ending in `last` at position `backpointer.len() - 1`.
pub open spec fn backtracked(backpointer: Seq<[Label; 3]>, last: Label, t: int) -> Label
    decreases backpointer.len() - t,
{
    if t >= backpointer.len() - 1 {
        last
    } else {
        backpointer[t + 1]@[spec_label_index(backtracked(backpointer, last, t + 1))]
    }
}

/// Back-pointer tables produced under the BIO constraints: an `I` is only
/// ever reached from `B` or `I`, nothing is reached from an `I` at the first
/// position, and a one-position path does not end in `I`.
pub open spec fn bio_backpointers(backpointer: Seq<[Label; 3]>, last: Label) -> bool {
    &&& forall|t: int| 1 <= t < backpointer.len() ==> #[trigger] backpointer[t]@[1] != Label::O
    &&& backpointer.len() >= 2 ==> forall|k: int| 0 <= k < 3 ==> backpointer[1]@[k] != Label::I
    &&& backpointer.len() == 1 ==> last != Label::I
}

/// Follows Viterbi back-pointers from `last` at the final position to the
/// first: `backpointer[t][l]` is the label at `t - 1` on the best path that
/// has label `l` at `t` (`backpointer[0]` is not used).
pub fn viterbi_backtrack(backpointer: &[[Label; 3]], last: Label) -> (path: Vec<Label>)
    requires
        backpointer@.len() >= 1,
    ensures
        path@.len() == backpointer@.len(),
        forall|t: int| 0 <= t < path@.len() ==> path@[t] == backtracked(backpointer@, last, t),
        path@[path@.len() - 1] == last,
        bio_backpointers(backpointer@, last) ==> bio_valid(path@),
        forall|t: int|
            1 <= t < path@.len() ==> path@[t - 1] == #[trigger] backpointer@[t]@[spec_label_index(
                path@[t],
            )],
{
    let n = backpointer.len();
    let mut path: Vec<Label> = Vec::new();
    let mut k: usize = 0;
    while k < n
        invariant
            k <= n,
            n == backpointer@.len(),
            path@.len() == k,
            forall|m: int| 0 <= m < k ==> path@[m] == Label::O,
        decreases n - k,
    {
        path.push(Label::O);
        k = k + 1;
    }
    let mut curr = last;
    path.set(n - 1, curr);
    let mut t: usize = n - 1;
    while t > 0
        invariant
            t < n,
            n == backpointer@.len(),
            path@.len() == n,
            curr == path@[t as int],
            forall|m: int| t <= m < n ==> path@[m] == backtracked(backpointer@, last, m),
        decreases t,
    {
        curr = backpointer[t][curr.index()];
        path.set(t - 1, curr);
        t = t - 1;
    }
    proof {
        assert forall|m: int| 1 <= m < path@.len() implies path@[m - 1]
            == #[trigger] backpointer@[m]@[spec_label_index(path@[m])] by {
            assert(path@[m - 1] == backtracked(backpointer@, last, m - 1));
        }
        if bio_backpointers(backpointer@, last) {
            lemma_backtrack_is_bio(backpointer@, last);
            assert forall|m: int| 1 <= m < path@.len() implies #[trigger] bio_step_ok(path@, m) by {
                assert(path@[m] == backtracked(backpointer@, last, m));
                assert(path@[m - 1] == backtracked(backpointer@, last, m - 1));
            }
            assert(path@[0] == backtracked(backpointer@, last, 0));
        }
    }
    path
}

/// Back-pointers that respect the BIO constraints give a BIO-valid path.
pub proof fn lemma_backtrack_is_bio(backpointer: Seq<[Label; 3]>, last: Label)
    requires
        backpointer.len() >= 1,
        bio_backpointers(backpointer, last),
    ensures
        backtracked(backpointer, last, 0) != Label::I,
        forall|t: int|
            1 <= t < backpointer.len() && #[trigger] backtracked(backpointer, last, t) == Label::I
                ==> backtracked(backpointer, last, t - 1) != Label::O,
{
    if backpointer.len() >= 2 {
        let k = spec_label_index(backtracked(backpointer, last, 1));
        assert(backtracked(backpointer, last, 0) == backpointer[1]@[k]);
    }
    assert forall|t: int|
        1 <= t < backpointer.len() && #[trigger] backtracked(backpointer, last, t) == Label::I
            implies backtracked(backpointer, last, t - 1) != Label::O by {
        assert(backtracked(backpointer, last, t - 1) == backpointer[t]@[1]);
    }
}

/// The B-tag agreement between gold and predicted labels over the gold
/// positions: (both B, predicted B only, gold B only).
pub open spec fn b_counts(gold: Seq<Label>, pred: Seq<Label>) -> (nat, nat, nat)
    decreases gold.len(),
{
    if gold.len() == 0 {
        (0, 0, 0)
    } else {
        let (tp, fp, fneg) = b_counts(gold.drop_last(), pred);
        let g = gold.last() == Label::B;
        let p = pred[gold.len() - 1] == Label::B;
        if g && p {
            (tp + 1, fp, fneg)
        } else if p && !g {
            (tp, fp + 1, fneg)
        } else if g && !p {
            (tp, fp, fneg + 1)
        } else {
            (tp, fp, fneg)
        }
    }
}

/// The (gold, predicted) label pairs at the positions of `gold`.
pub open spec fn label_pairs(gold: Seq<Label>, pred: Seq<Label>) -> Seq<(Label, Label)> {
    Seq::new(gold.len(), |i: int| (gold[i], pred[i]))
}

/// The counts are positions counted by kind: a true positive is a gold `B`
/// predicted `B`, a false positive a predicted `B` where gold has none, a
/// false negative a gold `B` predicted as anything else. So true positives
/// and false negatives together are the gold `B`s.
pub proof fn lemma_b_counts_positions(gold: Seq<Label>, pred: Seq<Label>)
    requires
        pred.len() >= gold.len(),
    ensures
        b_counts(gold, pred).0 == label_pairs(gold, pred).filter(
            |p: (Label, Label)| p.0 == Label::B && p.1 == Label::B,
        ).len(),
        b_counts(gold, pred).1 == label_pairs(gold, pred).filter(
            |p: (Label, Label)| p.1 == Label::B && p.0 != Label::B,
        ).len(),
        b_counts(gold, pred).2 == label_pairs(gold, pred).filter(
            |p: (Label, Label)| p.0 == Label::B && p.1 != Label::B,
        ).len(),
        b_counts(gold, pred).0 + b_counts(gold, pred).2 == gold.filter(|l: Label| l == Label::B).len(),
    decreases gold.len(),
{
    reveal(Seq::filter);
    if gold.len() > 0 {
        let g = gold.drop_last();
        lemma_b_counts_positions(g, pred);
        assert(label_pairs(gold, pred).drop_last() =~= label_pairs(g, pred));
        assert(label_pairs(gold, pred).last() == (gold.last(), pred[gold.len() - 1]));
    }
}

/// Counts, over the positions of `gold`, the true positives, false positives
/// and false negatives of predicting the `B` tag.
pub fn count_b_tags(gold: &[Label], pred: &[Label]) -> (r: (usize, usize, usize))
    requires
        pred@.len() >= gold@.len(),
    ensures
        (r.0 as nat, r.1 as nat, r.2 as nat) == b_counts(gold@, pred@),
        r.0 + r.2 == gold@.filter(|l: Label| l == Label::B).len(),
        r.0 == label_pairs(gold@, pred@).filter(|p: (Label, Label)| p.0 == Label::B && p.1 == Label::B).len(),
        r.1 == label_pairs(gold@, pred@).filter(|p: (Label, Label)| p.1 == Label::B && p.0 != Label::B).len(),
        r.2 == label_pairs(gold@, pred@).filter(|p: (Label, Label)| p.0 == Label::B && p.1 != Label::B).len(),
{
    proof {
        lemma_b_counts_positions(gold@, pred@);
    }
    let mut tp: usize = 0;
    let mut fp: usize = 0;
    let mut fneg: usize = 0;
    let mut i: usize = 0;
    assert(gold@.take(0) =~= Seq::<Label>::empty());
    while i < gold.len()
        invariant
            i <= gold@.len() <= pred@.len(),
            (tp as nat, fp as nat, fneg as nat) == b_counts(gold@.take(i as int), pred@),
            tp + fp + fneg <= i,
        decreases gold@.len() - i,
    {
        let g = gold[i] == Label::B;
        let p = pred[i] == Label::B;
        proof {
            assert(gold@.take(i + 1).drop_last() =~= gold@.take(i as int));
        }
        if g && p {
            tp = tp + 1;
        } else if p && !g {
            fp = fp + 1;
        } else if g && !p {
            fneg = fneg + 1;
        }
        i = i + 1;
    }
    assert(gold@.take(gold@.len() as int) =~= gold@);
    (tp, fp, fneg)
}

} // verus!
