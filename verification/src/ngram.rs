//! Character n-grams of a text, and the n-gram vocabulary and feature
//! vectors of the cover-song classifier.

use vstd::prelude::*;
use crate::interner::{Interner, distinct_keys};
use crate::text::{chars_of, contains_seq, occurs_at, slice_chars, string_from_chars, string_views};
use crate::unicode::{nfkc, spec_lowercase, spec_nfkc, to_lowercase};

verus! {

/// `g` is an n-gram of `s` for some `n` in `n_min ..= n_max`.
pub open spec fn is_ngram(s: Seq<char>, g: Seq<char>, n_min: int, n_max: int) -> bool {
    &&& n_min <= g.len() <= n_max
    &&& contains_seq(s, g)
}

/// The character n-grams of `s` for `n` in `n_min ..= n_max`.
pub open spec fn spec_ngrams(s: Seq<char>, n_min: int, n_max: int) -> Set<Seq<char>> {
    Set::new(|g: Seq<char>| is_ngram(s, g, n_min, n_max))
}

/// A set of distinct strings that can also be walked in a fixed order.
pub struct NgramSet {
    grams: Interner,
}

impl View for NgramSet {
    type V = Set<Seq<char>>;

    closed spec fn view(&self) -> Set<Seq<char>> {
        self.grams@.to_set()
    }
}

impl NgramSet {
    pub closed spec fn wf(&self) -> bool {
        self.grams.wf()
    }

    /// The strings of the set in the order `items` lists them.
    pub closed spec fn items_view(&self) -> Seq<Seq<char>> {
        self.grams@
    }

    /// Whether `g` is in the set.
    pub fn contains(&self, g: &str) -> (r: bool)
        requires
            self.wf(),
        ensures
            r == self@.contains(g@),
    {
        self.grams.contains_key(g)
    }

    /// The number of strings in the set.
    pub fn len(&self) -> (r: usize)
        requires
            self.wf(),
        ensures
            r == self@.len(),
    {
        proof {
            self.grams.lemma_distinct();
            self.grams@.unique_seq_to_set();
        }
        self.grams.len()
    }

    /// Whether the set is empty.
    pub fn is_empty(&self) -> (r: bool)
        requires
            self.wf(),
        ensures
            r == (self@.len() == 0),
    {
        proof {
            self.grams.lemma_distinct();
            self.grams@.unique_seq_to_set();
        }
        self.grams.is_empty()
    }

    /// The strings of the set, each once.
    pub fn items(&self) -> (r: &Vec<String>)
        requires
            self.wf(),
        ensures
            r@.map_values(|k: String| k@) == self.items_view(),
            self.items_view().no_duplicates(),
            self.items_view().to_set() == self@,
    {
        proof {
            self.grams.lemma_distinct();
        }
        self.grams.keys()
    }
}

/// The n-grams of `s` of length below `n`, and those of length `n` that
/// start before position `i`.
pub open spec fn ngrams_so_far(s: Seq<char>, n_min: int, n: int, i: int) -> Set<Seq<char>> {
    Set::new(
        |g: Seq<char>|
            (n_min <= g.len() < n && contains_seq(s, g)) || (g.len() == n && exists|j: int|
                0 <= j < i && #[trigger] occurs_at(s, g, j)),
    )
}

/// The character n-grams of `text` for `n` in `n_min ..= n_max`.
///
/// `n_min` must be at least 1: a window of zero characters is refused.
pub fn extract(text: &str, n_min: usize, n_max: usize) -> (r: NgramSet)
    requires
        n_min >= 1,
    ensures
        r.wf(),
        r@ == spec_ngrams(text@, n_min as int, n_max as int),
{
    let chars = chars_of(text);
    let len = chars.len();
    let mut grams = Interner::new();
    let top = if n_max < len {
        n_max
    } else {
        len
    };
    if n_min > top {
        proof {
            assert(grams@.to_set() =~= spec_ngrams(text@, n_min as int, n_max as int)) by {
                assert forall|g: Seq<char>| !is_ngram(text@, g, n_min as int, n_max as int) by {
                    if is_ngram(text@, g, n_min as int, n_max as int) {
                        let j = choose|j: int| occurs_at(text@, g, j);
                    }
                }
            }
        }
        return NgramSet { grams };
    }
    let mut n: usize = n_min;
    loop
        invariant
            1 <= n_min <= n <= top <= len,
            top <= n_max,
            top == n_max || top == len,
            len == chars@.len(),
            chars@ == text@,
            grams.wf(),
            grams@.to_set() == ngrams_so_far(text@, n_min as int, n as int, 0),
        decreases top - n,
    {
        let mut i: usize = 0;
        let last = len - n;
        proof {
            assert(ngrams_so_far(text@, n_min as int, n as int, 0) =~= ngrams_so_far(
                text@,
                n_min as int,
                n as int,
                0,
            ));
        }
        while i <= last
            invariant
                1 <= n_min <= n <= top <= len,
                last == len - n,
                i <= last + 1,
                len == chars@.len(),
                chars@ == text@,
                grams.wf(),
                grams@.to_set() == ngrams_so_far(text@, n_min as int, n as int, i as int),
            decreases last + 1 - i,
        {
            let window = slice_chars(&chars, i, i + n);
            let gram = string_from_chars(&window);
            let ghost g = gram@;
            let ghost before = grams@;
            grams.intern(gram);
            proof {
                assert(occurs_at(text@, g, i as int));
                assert(grams@.to_set() =~= ngrams_so_far(text@, n_min as int, n as int, i + 1)) by {
                    assert forall|h: Seq<char>|
                        #[trigger] ngrams_so_far(text@, n_min as int, n as int, i + 1).contains(h)
                            == grams@.to_set().contains(h) by {
                        if h == g {
                        } else {
                            if h.len() == n && exists|j: int| 0 <= j < i + 1 && #[trigger] occurs_at(text@, h, j) {
                                let j = choose|j: int| 0 <= j < i + 1 && #[trigger] occurs_at(text@, h, j);
                                if j == i {
                                    assert(h == g);
                                }
                            }
                            if grams@.contains(h) {
                                let k = choose|k: int| 0 <= k < grams@.len() && grams@[k] == h;
                                assert(k < before.len());
                                assert(before[k] == h);
                            }
                            if before.contains(h) {
                                let k = choose|k: int| 0 <= k < before.len() && before[k] == h;
                                assert(grams@[k] == h);
                            }
                            assert(grams@.to_set().contains(h) == before.to_set().contains(h));
                        }
                    }
                }
            }
            i = i + 1;
        }
        proof {
            assert(grams@.to_set() =~= ngrams_so_far(text@, n_min as int, (n + 1) as int, 0)) by {
                assert forall|h: Seq<char>|
                    #[trigger] ngrams_so_far(text@, n_min as int, (n + 1) as int, 0).contains(h)
                        == ngrams_so_far(text@, n_min as int, n as int, (last + 1) as int).contains(h) by {
                    if h.len() == n && contains_seq(text@, h) {
                        let j = choose|j: int| occurs_at(text@, h, j);
                        assert(0 <= j < last + 1);
                    }
                }
            }
        }
        if n == top {
            proof {
                assert(grams@.to_set() =~= spec_ngrams(text@, n_min as int, n_max as int)) by {
                    assert forall|h: Seq<char>|
                        #[trigger] spec_ngrams(text@, n_min as int, n_max as int).contains(h)
                            == ngrams_so_far(text@, n_min as int, (n + 1) as int, 0).contains(h) by {
                        if contains_seq(text@, h) {
                            let j = choose|j: int| occurs_at(text@, h, j);
                        }
                    }
                }
            }
            return NgramSet { grams };
        }
        n = n + 1;
    }
}

/// NFKC normalization followed by lowercasing.
pub fn normalize(text: &str) -> (r: String)
    ensures
        r@ == spec_lowercase(spec_nfkc(text@)),
{
    let normalized = nfkc(text);
    to_lowercase(normalized.as_str())
}

/// The n-grams of any of `texts`.
pub open spec fn vocab_grams(texts: Seq<Seq<char>>, n_min: int, n_max: int) -> Set<Seq<char>> {
    Set::new(
        |g: Seq<char>|
            exists|k: int| 0 <= k < texts.len() && is_ngram(#[trigger] texts[k], g, n_min, n_max),
    )
}

/// The feature vector of `text`: the ids, each once, of the n-grams of
/// `text` that `vocab` holds (in no particular order).
pub fn vectorize(text: &str, vocab: &Interner, n_min: usize, n_max: usize) -> (r: Vec<usize>)
    requires
        vocab.wf(),
        n_min >= 1,
    ensures
        r@.no_duplicates(),
        forall|m: int|
            0 <= m < r@.len() ==> #[trigger] r@[m] < vocab@.len() && is_ngram(
                text@,
                vocab@[r@[m] as int],
                n_min as int,
                n_max as int,
            ),
        forall|id: int|
            0 <= id < vocab@.len() && is_ngram(text@, #[trigger] vocab@[id], n_min as int, n_max as int)
                ==> r@.contains(id as usize),
{
    let grams = extract(text, n_min, n_max);
    let items = grams.items();
    let ghost iv = grams.items_view();
    proof {
        vocab.lemma_distinct();
    }
    let mut r: Vec<usize> = Vec::new();
    let mut j: usize = 0;
    while j < items.len()
        invariant
            j <= items@.len(),
            vocab.wf(),
            distinct_keys(vocab@),
            iv == grams.items_view(),
            items@.map_values(|g: String| g@) == iv,
            iv.no_duplicates(),
            r@.no_duplicates(),
            forall|m: int|
                0 <= m < r@.len() ==> #[trigger] r@[m] < vocab@.len() && iv.take(j as int).contains(
                    vocab@[r@[m] as int],
                ),
            forall|a: int|
                0 <= a < j && vocab@.contains(#[trigger] iv[a]) ==> exists|m: int|
                    0 <= m < r@.len() && vocab@[r@[m] as int] == iv[a],
        decreases items@.len() - j,
    {
        let ghost g = iv[j as int];
        assert(items@[j as int]@ == g);
        match vocab.get(items[j].as_str()) {
            Some(id) => {
                proof {
                    assert forall|m: int| 0 <= m < r@.len() implies r@[m] != id by {
                        let a = choose|a: int| 0 <= a < j && iv.take(j as int)[a] == vocab@[r@[m] as int];
                        assert(iv[a] == iv.take(j as int)[a]);
                        if r@[m] == id {
                            assert(iv[a] == g);
                        }
                    }
                }
                let ghost r_old = r@;
                r.push(id);
                proof {
                    assert(iv.take(j + 1)[j as int] == g);
                    assert forall|m: int|
                        0 <= m < r@.len() implies #[trigger] r@[m] < vocab@.len() && iv.take(j + 1).contains(
                        vocab@[r@[m] as int],
                    ) by {
                        if m < r@.len() - 1 {
                            let a = choose|a: int| 0 <= a < j && iv.take(j as int)[a] == vocab@[r@[m] as int];
                            assert(iv.take(j + 1)[a] == iv.take(j as int)[a]);
                        }
                    }
                    assert forall|a: int|
                        0 <= a < j + 1 && vocab@.contains(#[trigger] iv[a]) implies exists|m: int|
                        0 <= m < r@.len() && vocab@[r@[m] as int] == iv[a] by {
                        if a == j {
                            assert(vocab@[r@[r@.len() - 1] as int] == iv[a]);
                        } else {
                            let m = choose|m: int| 0 <= m < r_old.len() && vocab@[r_old[m] as int] == iv[a];
                            assert(r@[m] == r_old[m]);
                        }
                    }
                }
            },
            None => {
                proof {
                    assert forall|m: int|
                        0 <= m < r@.len() implies #[trigger] r@[m] < vocab@.len() && iv.take(j + 1).contains(
                        vocab@[r@[m] as int],
                    ) by {
                        let a = choose|a: int| 0 <= a < j && iv.take(j as int)[a] == vocab@[r@[m] as int];
                        assert(iv.take(j + 1)[a] == iv.take(j as int)[a]);
                    }
                }
            },
        }
        j = j + 1;
    }
    proof {
        assert(iv.take(j as int) =~= iv);
        assert forall|m: int| 0 <= m < r@.len() implies #[trigger] r@[m] < vocab@.len() && is_ngram(
            text@,
            vocab@[r@[m] as int],
            n_min as int,
            n_max as int,
        ) by {
            assert(iv.to_set().contains(vocab@[r@[m] as int]));
        }
        assert forall|id: int|
            0 <= id < vocab@.len() && is_ngram(text@, #[trigger] vocab@[id], n_min as int, n_max as int)
                implies r@.contains(id as usize) by {
            assert(spec_ngrams(text@, n_min as int, n_max as int).contains(vocab@[id]));
            assert(iv.to_set().contains(vocab@[id]));
            let a = choose|a: int| 0 <= a < iv.len() && iv[a] == vocab@[id];
            assert(vocab@.contains(iv[a]));
            let m = choose|m: int| 0 <= m < r@.len() && vocab@[r@[m] as int] == iv[a];
            assert(r@[m] == id);
        }
    }
    r
}

/// Interning `g` into `before` adds `g` to its set of keys.
proof fn lemma_push_to_set(before: Seq<Seq<char>>, after: Seq<Seq<char>>, g: Seq<char>)
    requires
        after == before.push(g) || (after == before && before.contains(g)),
    ensures
        after.to_set() == before.to_set().insert(g),
{
    assert forall|h: Seq<char>| after.to_set().contains(h) == before.to_set().insert(g).contains(h) by {
        if after.contains(h) && h != g {
            let m = choose|m: int| 0 <= m < after.len() && after[m] == h;
            assert(before[m] == h);
        }
        if before.contains(h) {
            let m = choose|m: int| 0 <= m < before.len() && before[m] == h;
            assert(after[m] == h);
        }
        if h == g && after == before.push(g) {
            assert(after[before.len() as int] == g);
        }
    }
    assert(after.to_set() =~= before.to_set().insert(g));
}

/// The vocabulary of the training texts: every n-gram of every text, each
/// with a distinct dense id.
pub fn build_vocab(texts: &[String], n_min: usize, n_max: usize) -> (vocab: Interner)
    requires
        texts@.len() > 0 ==> n_min >= 1,
    ensures
        vocab.wf(),
        distinct_keys(vocab@),
        vocab@.to_set() == vocab_grams(string_views(texts@), n_min as int, n_max as int),
{
    let ghost tv = string_views(texts@);
    let mut vocab = Interner::new();
    let mut k: usize = 0;
    assert(vocab@.to_set() =~= vocab_grams(tv.take(0), n_min as int, n_max as int));
    while k < texts.len()
        invariant
            k <= texts@.len(),
            tv == string_views(texts@),
            texts@.len() > 0 ==> n_min >= 1,
            vocab.wf(),
            vocab@.to_set() == vocab_grams(tv.take(k as int), n_min as int, n_max as int),
        decreases texts@.len() - k,
    {
        let grams = extract(texts[k].as_str(), n_min, n_max);
        let items = grams.items();
        let ghost base = vocab@.to_set();
        let mut j: usize = 0;
        while j < items.len()
            invariant
                j <= items@.len(),
                vocab.wf(),
                items@.map_values(|g: String| g@) == grams.items_view(),
                vocab@.to_set() == base.union(grams.items_view().take(j as int).to_set()),
            decreases items@.len() - j,
        {
            let ghost before = vocab@;
            let ghost g = items@[j as int]@;
            vocab.intern(items[j].clone());
            proof {
                assert(grams.items_view()[j as int] == g);
                assert(grams.items_view().take(j + 1) =~= grams.items_view().take(j as int).push(g));
                lemma_push_to_set(before, vocab@, g);
                lemma_push_to_set(grams.items_view().take(j as int), grams.items_view().take(j + 1), g);
                assert(vocab@.to_set() =~= base.union(grams.items_view().take(j + 1).to_set()));
            }
            j = j + 1;
        }
        proof {
            assert(grams.items_view().take(items@.len() as int) =~= grams.items_view());
            assert(tv[k as int] == texts@[k as int]@);
            assert(tv.take(k + 1) =~= tv.take(k as int).push(tv[k as int]));
            assert forall|h: Seq<char>| vocab@.to_set().contains(h) == vocab_grams(
                tv.take(k + 1),
                n_min as int,
                n_max as int,
            ).contains(h) by {
                if vocab_grams(tv.take(k + 1), n_min as int, n_max as int).contains(h) {
                    let m = choose|m: int|
                        0 <= m < k + 1 && is_ngram(#[trigger] tv.take(k + 1)[m], h, n_min as int, n_max as int);
                    if m < k {
                        assert(tv.take(k as int)[m] == tv.take(k + 1)[m]);
                        assert(vocab_grams(tv.take(k as int), n_min as int, n_max as int).contains(h));
                    } else {
                        assert(spec_ngrams(texts@[k as int]@, n_min as int, n_max as int).contains(h));
                    }
                }
                if vocab_grams(tv.take(k as int), n_min as int, n_max as int).contains(h) {
                    let m = choose|m: int|
                        0 <= m < k && is_ngram(#[trigger] tv.take(k as int)[m], h, n_min as int, n_max as int);
                    assert(tv.take(k + 1)[m] == tv.take(k as int)[m]);
                }
                if spec_ngrams(texts@[k as int]@, n_min as int, n_max as int).contains(h) {
                    assert(tv.take(k + 1)[k as int] == texts@[k as int]@);
                    assert(is_ngram(tv.take(k + 1)[k as int], h, n_min as int, n_max as int));
                }
            }
            assert(vocab@.to_set() =~= vocab_grams(tv.take(k + 1), n_min as int, n_max as int));
        }
        k = k + 1;
    }
    assert(tv.take(texts@.len() as int) =~= tv);
    proof {
        vocab.lemma_distinct();
    }
    vocab
}

} // verus!
