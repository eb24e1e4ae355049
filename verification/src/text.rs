//! Character-level string utilities shared by the other modules.
//!
//! Every function here works on the `Seq<char>` view of a string: positions
//! are character positions, never byte offsets. For UTF-8 text the first
//! byte-level occurrence of a pattern is the first character-level one, so
//! searching by characters gives the same split points as `str::find`.

use vstd::prelude::*;

verus! {

/// `String::push` appends one character at the end of the string.
pub assume_specification[ String::push ](s: &mut String, ch: char)
    ensures
        final(s)@ == old(s)@.push(ch),
;

/// The character sequences of a list of strings.
pub open spec fn string_views(v: Seq<String>) -> Seq<Seq<char>> {
    v.map_values(|s: String| s@)
}

/// The characters of `s`, in order.
pub fn chars_of(s: &str) -> (out: Vec<char>)
    ensures
        out@ == s@,
{
    let mut out: Vec<char> = Vec::new();
    for c in it: s.chars()
        invariant
            out@ == it.seq().take(it.index() as int),
            it.seq() == s@,
    {
        out.push(c);
    }
    out
}

/// A `String` holding exactly the characters of `v`.
pub fn string_from_chars(v: &[char]) -> (out: String)
    ensures
        out@ == v@,
{
    let mut out = String::new();
    let mut i: usize = 0;
    while i < v.len()
        invariant
            i <= v@.len(),
            out@ == v@.take(i as int),
        decreases v@.len() - i,
    {
        out.push(v[i]);
        i = i + 1;
        assert(v@.take(i as int) == v@.take(i - 1).push(v@[i - 1]));
    }
    assert(v@.take(v@.len() as int) == v@);
    out
}

/// The characters `v[from..to]`, as a `Vec`.
pub fn slice_chars(v: &[char], from: usize, to: usize) -> (out: Vec<char>)
    requires
        from <= to <= v@.len(),
    ensures
        out@ == v@.subrange(from as int, to as int),
{
    let mut out: Vec<char> = Vec::new();
    let mut i: usize = from;
    while i < to
        invariant
            from <= i <= to <= v@.len(),
            out@ == v@.subrange(from as int, i as int),
        decreases to - i,
    {
        out.push(v[i]);
        i = i + 1;
        assert(v@.subrange(from as int, i as int) == v@.subrange(from as int, i - 1).push(
            v@[i - 1],
        ));
    }
    out
}

/// `pat` occurs in `s` starting at position `i`.
pub open spec fn occurs_at(s: Seq<char>, pat: Seq<char>, i: int) -> bool {
    &&& 0 <= i
    &&& i + pat.len() <= s.len()
    &&& s.subrange(i, i + pat.len()) == pat
}

/// `pat` occurs somewhere in `s`.
pub open spec fn contains_seq(s: Seq<char>, pat: Seq<char>) -> bool {
    exists|i: int| occurs_at(s, pat, i)
}

/// A one-character pattern occurs exactly when the character does.
pub proof fn lemma_contains_char(t: Seq<char>, c: char)
    ensures
        contains_seq(t, seq![c]) == t.contains(c),
{
    if t.contains(c) {
        let i = choose|i: int| 0 <= i < t.len() && t[i] == c;
        assert(t.subrange(i, i + 1) =~= seq![c]);
        assert(occurs_at(t, seq![c], i));
    }
    if contains_seq(t, seq![c]) {
        let i = choose|i: int| occurs_at(t, seq![c], i);
        assert(t.subrange(i, i + 1)[0] == t[i]);
    }
}

/// The first position at which `pat` occurs in `s`, if any.
pub open spec fn find_first(s: Seq<char>, pat: Seq<char>) -> Option<int> {
    if contains_seq(s, pat) {
        Some(
            choose|i: int|
                occurs_at(s, pat, i) && forall|j: int| occurs_at(s, pat, j) ==> i <= j,
        )
    } else {
        None
    }
}

/// The last position at which `pat` occurs in `s`, if any.
pub open spec fn find_last(s: Seq<char>, pat: Seq<char>) -> Option<int> {
    if contains_seq(s, pat) {
        Some(
            choose|i: int|
                occurs_at(s, pat, i) && forall|j: int| occurs_at(s, pat, j) ==> j <= i,
        )
    } else {
        None
    }
}

/// A position that is the earliest occurrence is the one `find_first` names.
pub proof fn lemma_find_first_is(s: Seq<char>, pat: Seq<char>, i: int)
    requires
        occurs_at(s, pat, i),
        forall|j: int| 0 <= j < i ==> !occurs_at(s, pat, j),
    ensures
        find_first(s, pat) == Some(i),
{
    assert(contains_seq(s, pat));
    assert(occurs_at(s, pat, i) && forall|j: int| occurs_at(s, pat, j) ==> i <= j);
    let k = choose|k: int| occurs_at(s, pat, k) && forall|j: int| occurs_at(s, pat, j) ==> k <= j;
    assert(k <= i);
    assert(i <= k);
}

/// A position that is the latest occurrence is the one `find_last` names.
pub proof fn lemma_find_last_is(s: Seq<char>, pat: Seq<char>, i: int)
    requires
        occurs_at(s, pat, i),
        forall|j: int| i < j ==> !occurs_at(s, pat, j),
    ensures
        find_last(s, pat) == Some(i),
{
    assert(contains_seq(s, pat));
    assert(occurs_at(s, pat, i) && forall|j: int| occurs_at(s, pat, j) ==> j <= i);
    let k = choose|k: int| occurs_at(s, pat, k) && forall|j: int| occurs_at(s, pat, j) ==> j <= k;
    assert(k <= i);
    assert(i <= k);
}

/// What `find_first` names is an occurrence with none before it.
pub proof fn lemma_find_first_props(s: Seq<char>, pat: Seq<char>)
    ensures
        find_first(s, pat) matches Some(i) ==> {
            &&& occurs_at(s, pat, i)
            &&& forall|j: int| j < i ==> !occurs_at(s, pat, j)
        },
        find_first(s, pat) is None ==> forall|j: int| !occurs_at(s, pat, j),
{
    if contains_seq(s, pat) {
        let w = choose|w: int| occurs_at(s, pat, w);
        lemma_earliest_exists(s, pat, w);
    }
}

/// What `find_last` names is an occurrence with none after it.
pub proof fn lemma_find_last_props(s: Seq<char>, pat: Seq<char>)
    ensures
        find_last(s, pat) matches Some(i) ==> {
            &&& occurs_at(s, pat, i)
            &&& forall|j: int| i < j ==> !occurs_at(s, pat, j)
        },
        find_last(s, pat) is None ==> forall|j: int| !occurs_at(s, pat, j),
{
    if contains_seq(s, pat) {
        let w = choose|w: int| occurs_at(s, pat, w);
        lemma_latest_exists(s, pat, w);
    }
}

proof fn lemma_earliest_exists(s: Seq<char>, pat: Seq<char>, w: int)
    requires
        occurs_at(s, pat, w),
    ensures
        exists|i: int| occurs_at(s, pat, i) && forall|j: int| occurs_at(s, pat, j) ==> i <= j,
    decreases w,
{
    if exists|j: int| j < w && occurs_at(s, pat, j) {
        let j = choose|j: int| j < w && occurs_at(s, pat, j);
        lemma_earliest_exists(s, pat, j);
    } else {
        assert(occurs_at(s, pat, w) && forall|j: int| occurs_at(s, pat, j) ==> w <= j);
    }
}

proof fn lemma_latest_exists(s: Seq<char>, pat: Seq<char>, w: int)
    requires
        occurs_at(s, pat, w),
    ensures
        exists|i: int| occurs_at(s, pat, i) && forall|j: int| occurs_at(s, pat, j) ==> j <= i,
    decreases s.len() - w,
{
    if exists|j: int| w < j && occurs_at(s, pat, j) {
        let j = choose|j: int| w < j && occurs_at(s, pat, j);
        lemma_latest_exists(s, pat, j);
    } else {
        assert(occurs_at(s, pat, w) && forall|j: int| occurs_at(s, pat, j) ==> j <= w);
    }
}

/// Whether `pat` occurs in `s` at position `i`.
pub fn matches_at(s: &[char], pat: &[char], i: usize) -> (r: bool)
    requires
        i <= s@.len(),
    ensures
        r == occurs_at(s@, pat@, i as int),
{
    if pat.len() > s.len() - i {
        return false;
    }
    let mut k: usize = 0;
    while k < pat.len()
        invariant
            i + pat@.len() <= s@.len(),
            s@.len() == s.len(),
            k <= pat@.len(),
            forall|m: int| 0 <= m < k ==> s@[i + m] == pat@[m],
        decreases pat@.len() - k,
    {
        if s[i + k] != pat[k] {
            assert(s@.subrange(i as int, i + pat@.len())[k as int] != pat@[k as int]);
            return false;
        }
        k = k + 1;
    }
    assert(s@.subrange(i as int, i + pat@.len()) =~= pat@);
    true
}

/// The first position at which `pat` occurs in `s`.
pub fn find_chars(s: &[char], pat: &[char]) -> (r: Option<usize>)
    ensures
        match r {
            Some(i) => find_first(s@, pat@) == Some(i as int) && occurs_at(s@, pat@, i as int),
            None => find_first(s@, pat@) is None,
        },
{
    let mut i: usize = 0;
    loop
        invariant
            i <= s@.len(),
            forall|j: int| 0 <= j < i ==> !occurs_at(s@, pat@, j),
        decreases s@.len() - i,
    {
        if matches_at(s, pat, i) {
            proof {
                lemma_find_first_is(s@, pat@, i as int);
            }
            return Some(i);
        }
        if i == s.len() {
            assert forall|j: int| !occurs_at(s@, pat@, j) by {
                if j > i {
                    assert(j + pat@.len() > s@.len());
                }
            }
            return None;
        }
        i = i + 1;
    }
}

/// The last position at which `pat` occurs in `s`.
pub fn rfind_chars(s: &[char], pat: &[char]) -> (r: Option<usize>)
    ensures
        match r {
            Some(i) => find_last(s@, pat@) == Some(i as int) && occurs_at(s@, pat@, i as int),
            None => find_last(s@, pat@) is None,
        },
{
    if pat.len() > s.len() {
        assert forall|j: int| !occurs_at(s@, pat@, j) by {}
        return None;
    }
    let mut i: usize = s.len() - pat.len();
    loop
        invariant
            i <= s@.len() - pat@.len(),
            pat@.len() <= s@.len(),
            forall|j: int| i < j ==> !occurs_at(s@, pat@, j),
        decreases i,
    {
        if matches_at(s, pat, i) {
            proof {
                lemma_find_last_is(s@, pat@, i as int);
            }
            return Some(i);
        }
        if i == 0 {
            assert forall|j: int| !occurs_at(s@, pat@, j) by {
                if j < 0 {
                }
            }
            return None;
        }
        i = i - 1;
    }
}

/// Unicode `White_Space`: the characters `char::is_whitespace` accepts.
pub open spec fn is_space(c: char) -> bool {
    let u = c as u32;
    ||| 0x09 <= u <= 0x0D
    ||| u == 0x20
    ||| u == 0x85
    ||| u == 0xA0
    ||| u == 0x1680
    ||| 0x2000 <= u <= 0x200A
    ||| u == 0x2028
    ||| u == 0x2029
    ||| u == 0x202F
    ||| u == 0x205F
    ||| u == 0x3000
}

/// Whether `c` is a Unicode whitespace character.
pub fn is_whitespace(c: char) -> (r: bool)
    ensures
        r == is_space(c),
{
    let u = c as u32;
    (0x09 <= u && u <= 0x0D) || u == 0x20 || u == 0x85 || u == 0xA0 || u == 0x1680 || (0x2000
        <= u && u <= 0x200A) || u == 0x2028 || u == 0x2029 || u == 0x202F || u == 0x205F || u
        == 0x3000
}

/// `s` without leading whitespace.
pub open spec fn trim_start(s: Seq<char>) -> Seq<char>
    decreases s.len(),
{
    if s.len() > 0 && is_space(s[0]) {
        trim_start(s.drop_first())
    } else {
        s
    }
}

/// `s` without trailing whitespace.
pub open spec fn trim_end(s: Seq<char>) -> Seq<char>
    decreases s.len(),
{
    if s.len() > 0 && is_space(s.last()) {
        trim_end(s.drop_last())
    } else {
        s
    }
}

/// `s` without leading and trailing whitespace, as `str::trim` gives it.
pub open spec fn trim(s: Seq<char>) -> Seq<char> {
    trim_end(trim_start(s))
}

proof fn lemma_trim_start_skip(s: Seq<char>, a: int)
    requires
        0 <= a <= s.len(),
        forall|k: int| 0 <= k < a ==> is_space(s[k]),
        a == s.len() || !is_space(s[a]),
    ensures
        trim_start(s) == s.skip(a),
    decreases a,
{
    if a > 0 {
        lemma_trim_start_skip(s.drop_first(), a - 1);
        assert(s.drop_first().skip(a - 1) =~= s.skip(a));
    } else {
        assert(s.skip(0) =~= s);
    }
}

proof fn lemma_trim_end_take(s: Seq<char>, b: int)
    requires
        0 <= b <= s.len(),
        forall|k: int| b <= k < s.len() ==> is_space(s[k]),
        b == 0 || !is_space(s[b - 1]),
    ensures
        trim_end(s) == s.take(b),
    decreases s.len() - b,
{
    if b < s.len() {
        lemma_trim_end_take(s.drop_last(), b);
        assert(s.drop_last().take(b) =~= s.take(b));
    } else {
        assert(s.take(b) =~= s);
    }
}

proof fn lemma_trim_start_shape(s: Seq<char>)
    ensures
        trim_start(s).len() == 0 || !is_space(trim_start(s)[0]),
        trim_start(s).len() <= s.len(),
        trim_start(s) == s.skip(s.len() - trim_start(s).len()),
    decreases s.len(),
{
    if s.len() > 0 && is_space(s[0]) {
        lemma_trim_start_shape(s.drop_first());
        assert(s.drop_first().skip(s.drop_first().len() - trim_start(s).len()) =~= s.skip(
            s.len() - trim_start(s).len(),
        ));
    } else {
        assert(s.skip(0) =~= s);
    }
}

proof fn lemma_trim_end_shape(s: Seq<char>)
    ensures
        trim_end(s).len() == 0 || !is_space(trim_end(s).last()),
        trim_end(s).len() <= s.len(),
        trim_end(s) == s.take(trim_end(s).len() as int),
    decreases s.len(),
{
    if s.len() > 0 && is_space(s.last()) {
        lemma_trim_end_shape(s.drop_last());
        assert(s.drop_last().take(trim_end(s).len() as int) =~= s.take(trim_end(s).len() as int));
    } else {
        assert(s.take(s.len() as int) =~= s);
    }
}

/// Trimming twice is trimming once: a trimmed string starts and ends with
/// a character that is not whitespace.
pub proof fn lemma_trim_idempotent(s: Seq<char>)
    ensures
        trim(trim(s)) == trim(s),
        trim(s).len() == 0 || (!is_space(trim(s)[0]) && !is_space(trim(s).last())),
{
    let a = trim_start(s);
    lemma_trim_start_shape(s);
    lemma_trim_end_shape(a);
    let t = trim_end(a);
    // `t` is a prefix of `a`, so it starts where `a` does.
    if t.len() > 0 {
        assert(t[0] == a[0]);
    }
    assert(trim_start(t) == t);
    assert(trim_end(t) == t) by {
        if t.len() > 0 {
            assert(!is_space(t.last()));
        }
    }
}

/// `f` places the characters of `a`, in order, at positions of `b` that hold
/// the same characters.
pub open spec fn embeds(a: Seq<char>, b: Seq<char>, f: spec_fn(int) -> int) -> bool {
    &&& forall|i: int| 0 <= i < a.len() ==> 0 <= #[trigger] f(i) < b.len() && a[i] == b[f(i)]
    &&& forall|i: int, j: int| 0 <= i < j < a.len() ==> #[trigger] f(i) < #[trigger] f(j)
}

/// `a` is `b` with some characters deleted.
pub open spec fn is_subsequence(a: Seq<char>, b: Seq<char>) -> bool {
    exists|f: spec_fn(int) -> int| #[trigger] embeds(a, b, f)
}

/// A contiguous piece of `s` is a subsequence of it.
pub proof fn lemma_subrange_subsequence(s: Seq<char>, i: int, j: int)
    requires
        0 <= i <= j <= s.len(),
    ensures
        is_subsequence(s.subrange(i, j), s),
{
    let f = |k: int| k + i;
    assert(embeds(s.subrange(i, j), s, f));
}

/// Deleting characters twice is deleting characters.
pub proof fn lemma_subsequence_trans(a: Seq<char>, b: Seq<char>, c: Seq<char>)
    requires
        is_subsequence(a, b),
        is_subsequence(b, c),
    ensures
        is_subsequence(a, c),
{
    let f = choose|f: spec_fn(int) -> int| embeds(a, b, f);
    let g = choose|g: spec_fn(int) -> int| embeds(b, c, g);
    let h = |k: int| g(f(k));
    assert forall|i: int| 0 <= i < a.len() implies 0 <= #[trigger] h(i) < c.len() && a[i] == c[h(i)] by {
        assert(0 <= f(i) < b.len());
    }
    assert forall|i: int, j: int| 0 <= i < j < a.len() implies #[trigger] h(i) < #[trigger] h(j) by {
        assert(f(i) < f(j));
        assert(0 <= f(i) < b.len() && 0 <= f(j) < b.len());
    }
    assert(embeds(a, c, h));
}

/// Keeping a first character on both sides keeps a subsequence.
pub proof fn lemma_subsequence_cons(x: char, a: Seq<char>, b: Seq<char>)
    requires
        is_subsequence(a, b),
    ensures
        is_subsequence(seq![x] + a, seq![x] + b),
{
    let f = choose|f: spec_fn(int) -> int| embeds(a, b, f);
    let g = |k: int| if k == 0 { 0 } else { f(k - 1) + 1 };
    let xa = seq![x] + a;
    let xb = seq![x] + b;
    assert forall|i: int| 0 <= i < xa.len() implies 0 <= #[trigger] g(i) < xb.len() && xa[i] == xb[g(i)] by {
        if i > 0 {
            assert(0 <= f(i - 1) < b.len() && a[i - 1] == b[f(i - 1)]);
        }
    }
    assert forall|i: int, j: int| 0 <= i < j < xa.len() implies #[trigger] g(i) < #[trigger] g(j) by {
        if i > 0 {
            assert(f(i - 1) < f(j - 1));
        } else {
            assert(0 <= f(j - 1));
        }
    }
    assert(embeds(xa, xb, g));
}

/// Trimming only deletes characters, from the two ends.
pub proof fn lemma_trim_subsequence(s: Seq<char>)
    ensures
        is_subsequence(trim(s), s),
{
    let a = trim_start(s);
    lemma_trim_start_shape(s);
    lemma_trim_end_shape(a);
    let k = s.len() - a.len();
    let m = trim_end(a).len() as int;
    assert(trim(s) =~= s.subrange(k, k + m));
    lemma_subrange_subsequence(s, k, k + m);
}

/// `v` without leading and trailing whitespace.
pub fn trim_chars(v: &[char]) -> (out: Vec<char>)
    ensures
        out@ == trim(v@),
{
    let mut a: usize = 0;
    while a < v.len() && is_whitespace(v[a])
        invariant
            a <= v@.len(),
            forall|k: int| 0 <= k < a ==> is_space(v@[k]),
        decreases v@.len() - a,
    {
        a = a + 1;
    }
    proof {
        lemma_trim_start_skip(v@, a as int);
    }
    let mut b: usize = v.len();
    while b > a && is_whitespace(v[b - 1])
        invariant
            a <= b <= v@.len(),
            forall|k: int| b <= k < v@.len() ==> is_space(v@[k]),
        decreases b,
    {
        b = b - 1;
    }
    proof {
        let t = v@.skip(a as int);
        assert forall|k: int| b - a <= k < t.len() implies is_space(t[k]) by {
            assert(t[k] == v@[a + k]);
        }
        if b > a {
            assert(t[b - a - 1] == v@[b - 1]);
        }
        lemma_trim_end_take(t, b - a);
        assert(t.take(b - a) =~= v@.subrange(a as int, b as int));
    }
    slice_chars(v, a, b)
}

} // verus!
