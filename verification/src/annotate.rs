//! Annotation of titles by a language model: the result rows, the batches
//! of titles sent per request, and framing the JSON array in a reply.

use vstd::prelude::*;
use crate::text::{lemma_contains_char, occurs_at, chars_of, find_chars, find_last, find_first, lemma_find_first_props, lemma_find_last_props, rfind_chars, slice_chars, string_from_chars, string_views};
use vstd::string::StringExecFns;

verus! {

/// A title and the song title the model extracted from it.
pub struct AnnotationResult {
    pub title: String,
    pub extracted_title: String,
}

/// Where the JSON array sits in a reply: from the first `[` to the last `]`.
pub open spec fn spec_array_bounds(text: Seq<char>) -> Option<(int, int)> {
    match (find_first(text, seq!['[']), find_last(text, seq![']'])) {
        (Some(start), Some(end)) => Some((start, end)),
        _ => None,
    }
}

/// The array's bounds by characters: there are none when the reply lacks a
/// `[` or a `]`; otherwise the start holds a `[` with none before it, and
/// the end holds a `]` with none after it.
pub proof fn lemma_array_bounds_chars(text: Seq<char>)
    ensures
        spec_array_bounds(text) is None <==> (!text.contains('[') || !text.contains(']')),
        spec_array_bounds(text) matches Some((p, e)) ==> {
            &&& 0 <= p < text.len() && text[p] == '['
            &&& forall|i: int| 0 <= i < p ==> text[i] != '['
            &&& 0 <= e < text.len() && text[e] == ']'
            &&& forall|i: int| e < i < text.len() ==> text[i] != ']'
        },
{
    lemma_find_first_props(text, seq!['[']);
    lemma_find_last_props(text, seq![']']);
    lemma_contains_char(text, '[');
    lemma_contains_char(text, ']');
    if let Some((p, e)) = spec_array_bounds(text) {
        assert(text.subrange(p, p + 1)[0] == text[p]);
        assert(text.subrange(e, e + 1)[0] == text[e]);
        assert forall|i: int| 0 <= i < p implies text[i] != '[' by {
            if text[i] == '[' {
                assert(text.subrange(i, i + 1) =~= seq!['[']);
                assert(occurs_at(text, seq!['['], i));
            }
        }
        assert forall|i: int| e < i < text.len() implies text[i] != ']' by {
            if text[i] == ']' {
                assert(text.subrange(i, i + 1) =~= seq![']']);
                assert(occurs_at(text, seq![']'], i));
            }
        }
    }
}

/// The text from the first `[` through the last `]` of a reply, where the
/// model put the JSON array of results; `None` when either bracket is
/// missing. A `]` right before the `[` gives the empty text; the last `]`
/// must not lie further before the first `[` than that.
pub fn json_array_text(text: &str) -> (r: Option<String>)
    requires
        spec_array_bounds(text@) matches Some((start, end)) ==> start <= end + 1,
    ensures
        match spec_array_bounds(text@) {
            Some((start, end)) => r matches Some(s) && s@ == text@.subrange(start, end + 1),
            None => r is None,
        },
{
    let chars = chars_of(text);
    let open = vec!['['];
    let close = vec![']'];
    assert(open@ =~= seq!['[']);
    assert(close@ =~= seq![']']);
    proof {
        lemma_find_first_props(text@, seq!['[']);
        lemma_find_last_props(text@, seq![']']);
    }
    match (find_chars(&chars, &open), rfind_chars(&chars, &close)) {
        (Some(start), Some(end)) => {
            let n = chars.len();
            assert(end < n);
            let piece = slice_chars(&chars, start, end + 1);
            Some(string_from_chars(&piece))
        },
        _ => None,
    }
}

/// The titles of batch `batch_num` when `total` titles are sent
/// `batch_size` at a time: positions `start .. end`, or `None` past the last
/// batch.
pub fn batch_range(batch_num: usize, batch_size: usize, total: usize) -> (r: Option<(usize, usize)>)
    requires
        batch_num * batch_size + batch_size <= usize::MAX,
    ensures
        batch_num * batch_size >= total ==> r is None,
        batch_num * batch_size < total ==> r == Some(
            (
                (batch_num * batch_size) as usize,
                if batch_num * batch_size + batch_size < total {
                    (batch_num * batch_size + batch_size) as usize
                } else {
                    total
                },
            ),
        ),
{
    let start = batch_num * batch_size;
    if start >= total {
        return None;
    }
    let end = if start + batch_size < total {
        start + batch_size
    } else {
        total
    };
    Some((start, end))
}

/// The character of decimal digit `d`.
pub open spec fn digit_char(d: nat) -> char {
    if d == 0 {
        '0'
    } else if d == 1 {
        '1'
    } else if d == 2 {
        '2'
    } else if d == 3 {
        '3'
    } else if d == 4 {
        '4'
    } else if d == 5 {
        '5'
    } else if d == 6 {
        '6'
    } else if d == 7 {
        '7'
    } else if d == 8 {
        '8'
    } else {
        '9'
    }
}

/// `n` written in decimal, without leading zeros.
pub open spec fn decimal(n: nat) -> Seq<char>
    decreases n,
{
    if n < 10 {
        seq![digit_char(n)]
    } else {
        decimal(n / 10).push(digit_char(n % 10))
    }
}

fn digit(d: usize) -> (c: char)
    requires
        d < 10,
    ensures
        c == digit_char(d as nat),
{
    if d == 0 {
        '0'
    } else if d == 1 {
        '1'
    } else if d == 2 {
        '2'
    } else if d == 3 {
        '3'
    } else if d == 4 {
        '4'
    } else if d == 5 {
        '5'
    } else if d == 6 {
        '6'
    } else if d == 7 {
        '7'
    } else if d == 8 {
        '8'
    } else {
        '9'
    }
}

/// `n` in decimal.
fn decimal_string(n: usize) -> (r: String)
    ensures
        r@ == decimal(n as nat),
    decreases n,
{
    if n < 10 {
        let mut s = String::new();
        s.push(digit(n));
        assert(s@ =~= seq![digit_char(n as nat)]);
        s
    } else {
        let mut s = decimal_string(n / 10);
        s.push(digit(n % 10));
        s
    }
}

/// Line `k` of the numbered title list: `"k. title"`.
pub open spec fn numbered_line(k: nat, title: Seq<char>) -> Seq<char> {
    decimal(k) + ". "@ + title
}

/// The titles numbered from 1, one per line, joined by newlines.
pub open spec fn numbered_list(titles: Seq<Seq<char>>) -> Seq<char>
    decreases titles.len(),
{
    if titles.len() == 0 {
        Seq::empty()
    } else if titles.len() == 1 {
        numbered_line(1, titles[0])
    } else {
        numbered_list(titles.drop_last()) + "\n"@ + numbered_line(titles.len(), titles.last())
    }
}

/// The request that asks the model to annotate `titles`: how many there
/// are, the numbered list, and the JSON shape of the answer.
pub open spec fn spec_batch_prompt(titles: Seq<Seq<char>>) -> Seq<char> {
    "以下の "@ + decimal(titles.len()) + " 個のニコニコ動画ボカロ曲タイトルをアノテーションしてください。\n各タイトルに対して、抽出された曲名を以下の JSON 配列形式で返してください。\n\nタイトル一覧:\n"@
        + numbered_list(titles)
        + "\n\nJSON 配列形式で応答してください: [{\"title\": \"...\", \"extracted_title\": \"...\"}]"@
}

/// The numbered list of `titles`.
fn numbered_titles(titles: &[String]) -> (r: String)
    ensures
        r@ == numbered_list(string_views(titles@)),
{
    let ghost v = string_views(titles@);
    let mut s = String::new();
    let mut i: usize = 0;
    assert(v.take(0) =~= Seq::<Seq<char>>::empty());
    while i < titles.len()
        invariant
            i <= titles@.len(),
            v == string_views(titles@),
            s@ == numbered_list(v.take(i as int)),
        decreases titles@.len() - i,
    {
        let ghost before = s@;
        if i > 0 {
            s.append("\n");
        }
        let k = decimal_string(i + 1);
        s.append(k.as_str());
        s.append(". ");
        s.append(titles[i].as_str());
        proof {
            let t = v.take(i + 1);
            assert(t.drop_last() =~= v.take(i as int));
            assert(t.last() == titles@[i as int]@);
            if i == 0 {
                assert(before =~= Seq::<char>::empty());
                assert(s@ =~= numbered_line(1, t[0]));
            } else {
                assert(s@ =~= before + "\n"@ + numbered_line((i + 1) as nat, t.last()));
            }
        }
        i = i + 1;
    }
    assert(v.take(i as int) =~= v);
    s
}

/// The request text that asks the model to annotate one batch of titles.
pub fn batch_prompt(titles: &[String]) -> (r: String)
    ensures
        r@ == spec_batch_prompt(string_views(titles@)),
{
    let mut s = "以下の ".to_owned();
    let n = decimal_string(titles.len());
    s.append(n.as_str());
    s.append(" 個のニコニコ動画ボカロ曲タイトルをアノテーションしてください。\n各タイトルに対して、抽出された曲名を以下の JSON 配列形式で返してください。\n\nタイトル一覧:\n");
    let list = numbered_titles(titles);
    s.append(list.as_str());
    s.append("\n\nJSON 配列形式で応答してください: [{\"title\": \"...\", \"extracted_title\": \"...\"}]");
    proof {
        assert(string_views(titles@).len() == titles@.len());
    }
    s
}

} // verus!
