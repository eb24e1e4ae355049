//! The downloaded title list: tab-separated lines of content id and title.

use vstd::prelude::*;
use crate::text::{chars_of, find_chars, find_first, lemma_contains_char, lemma_find_first_props, occurs_at, slice_chars, string_from_chars};

verus! {

/// The text of `line` before the first tab at or after `from`, or to the end.
pub open spec fn field_from(line: Seq<char>, from: int) -> Seq<char> {
    let rest = line.skip(from);
    match find_first(rest, seq!['\t']) {
        Some(q) => rest.take(q),
        None => rest,
    }
}

/// The first two tab-separated fields of a line, when it has a tab.
pub open spec fn spec_tsv_fields(line: Seq<char>) -> Option<(Seq<char>, Seq<char>)> {
    match find_first(line, seq!['\t']) {
        Some(p) => Some((line.take(p), field_from(line, p + 1))),
        None => None,
    }
}

/// The first field of `v[from..]`, up to the next tab or the end.
fn field_at(v: &Vec<char>, from: usize) -> (r: Vec<char>)
    requires
        from <= v@.len(),
    ensures
        r@ == field_from(v@, from as int),
{
    let rest = slice_chars(v, from, v.len());
    assert(rest@ =~= v@.skip(from as int));
    let tab = vec!['\t'];
    assert(tab@ =~= seq!['\t']);
    proof {
        lemma_find_first_props(rest@, seq!['\t']);
    }
    match find_chars(&rest, &tab) {
        Some(q) => {
            let r = slice_chars(&rest, 0, q);
            assert(r@ =~= rest@.take(q as int));
            r
        },
        None => rest,
    }
}

/// Splits a line of the title list into its content id and its title: the
/// first and second tab-separated fields. A line without a tab has no title.
pub fn tsv_fields(line: &str) -> (r: Option<(String, String)>)
    ensures
        match spec_tsv_fields(line@) {
            Some((id, title)) => r matches Some((i, t)) && i@ == id && t@ == title,
            None => r is None,
        },
{
    let v = chars_of(line);
    let tab = vec!['\t'];
    assert(tab@ =~= seq!['\t']);
    proof {
        lemma_find_first_props(line@, seq!['\t']);
    }
    match find_chars(&v, &tab) {
        Some(p) => {
            let n = v.len();
            assert(p < n);
            let id = slice_chars(&v, 0, p);
            assert(id@ =~= v@.take(p as int));
            let title = field_at(&v, p + 1);
            Some((string_from_chars(&id), string_from_chars(&title)))
        },
        None => None,
    }
}

/// The text before the first `c` holds no `c`, and `c` stands right after it.
proof fn lemma_before_tab(s: Seq<char>)
    ensures
        find_first(s, seq!['\t']) matches Some(p) ==> 0 <= p < s.len() && s[p] == '\t' && !s.take(p).contains('\t'),
        find_first(s, seq!['\t']) is None ==> !s.contains('\t'),
{
    lemma_find_first_props(s, seq!['\t']);
    lemma_contains_char(s, '\t');
    if let Some(p) = find_first(s, seq!['\t']) {
        assert(s.subrange(p, p + 1)[0] == s[p]);
        if s.take(p).contains('\t') {
            let i = choose|i: int| 0 <= i < s.take(p).len() && s.take(p)[i] == '\t';
            assert(s.subrange(i, i + 1) =~= seq!['\t']);
            assert(occurs_at(s, seq!['\t'], i));
        }
    }
}

/// The fields are what a tab split gives: a line with no tab has none;
/// otherwise the line starts with the content id, a tab and the title,
/// neither field holds a tab, and the title runs to the end of the line or
/// to the next tab.
pub proof fn lemma_tsv_fields_split(line: Seq<char>)
    ensures
        spec_tsv_fields(line) is None <==> !line.contains('\t'),
        spec_tsv_fields(line) matches Some((id, title)) ==> {
            let n = id.len() + 1 + title.len() as int;
            &&& !id.contains('\t') && !title.contains('\t')
            &&& n <= line.len()
            &&& line.take(n) == id + seq!['\t'] + title
            &&& (n == line.len() || line[n] == '\t')
        },
{
    lemma_before_tab(line);
    match find_first(line, seq!['\t']) {
        None => {},
        Some(p) => {
            assert(line.contains('\t')) by {
                assert(line[p] == '\t');
            }
            let rest = line.skip(p + 1);
            let id = line.take(p);
            let title = field_from(line, p + 1);
            lemma_tsv_title(line, p);
            assert(spec_tsv_fields(line) == Some((id, title)));
        },
    }
}

proof fn lemma_tsv_title(line: Seq<char>, p: int)
    requires
        0 <= p < line.len(),
        line[p] == '\t',
        !line.take(p).contains('\t'),
    ensures
        ({
            let id = line.take(p);
            let title = field_from(line, p + 1);
            let n = id.len() + 1 + title.len() as int;
            &&& !title.contains('\t')
            &&& n <= line.len()
            &&& line.take(n) == id + seq!['\t'] + title
            &&& (n == line.len() || line[n] == '\t')
        }),
{
    let rest = line.skip(p + 1);
    let id = line.take(p);
    let title = field_from(line, p + 1);
    lemma_before_tab(rest);
    let m: int = match find_first(rest, seq!['\t']) {
        Some(q) => q,
        None => rest.len() as int,
    };
    assert(title == rest.take(m));
    assert(!title.contains('\t'));
    let n = p + 1 + m;
    assert(id.len() + 1 + title.len() == n);
    if m < rest.len() {
        assert(line[n] == rest[m]);
    }
    assert forall|k: int| 0 <= k < n implies #[trigger] line.take(n)[k] == (id + seq!['\t'] + title)[k] by {
        if k > p {
            assert(title[k - p - 1] == rest[k - p - 1]);
        }
    }
    assert(line.take(n) =~= id + seq!['\t'] + title);
}

} // verus!
