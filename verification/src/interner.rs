//! A table that gives each distinct string a dense integer id.
//!
//! The first string added gets id 0, the next new one id 1, and so on; a
//! string that is already present keeps the id it was given. This is the
//! `entry(key).or_insert(len)` idiom of a `HashMap<String, usize>`, with the
//! keys also kept in id order so that they can be listed.

use vstd::prelude::*;
use vstd::hash_map::StringHashMap;

verus! {

/// No string occurs twice in `keys`.
pub open spec fn distinct_keys(keys: Seq<Seq<char>>) -> bool {
    keys.no_duplicates()
}

/// `keys` after interning each of `names` in turn.
pub open spec fn interned(keys: Seq<Seq<char>>, names: Seq<Seq<char>>) -> Seq<Seq<char>>
    decreases names.len(),
{
    if names.len() == 0 {
        keys
    } else {
        let k = interned(keys, names.drop_last());
        if k.contains(names.last()) {
            k
        } else {
            k.push(names.last())
        }
    }
}

/// Interning `a` and then `b` is interning `a + b`.
pub proof fn lemma_interned_append(keys: Seq<Seq<char>>, a: Seq<Seq<char>>, b: Seq<Seq<char>>)
    ensures
        interned(interned(keys, a), b) == interned(keys, a + b),
    decreases b.len(),
{
    if b.len() == 0 {
        assert(a + b =~= a);
    } else {
        lemma_interned_append(keys, a, b.drop_last());
        assert((a + b).drop_last() =~= a + b.drop_last());
        assert((a + b).last() == b.last());
    }
}

/// Interning only appends: the old keys keep their ids.
pub proof fn lemma_interned_extends(keys: Seq<Seq<char>>, names: Seq<Seq<char>>)
    ensures
        interned(keys, names).len() >= keys.len(),
        forall|i: int| 0 <= i < keys.len() ==> #[trigger] interned(keys, names)[i] == keys[i],
    decreases names.len(),
{
    if names.len() > 0 {
        lemma_interned_extends(keys, names.drop_last());
    }
}

/// After interning `names`, every name is present.
pub proof fn lemma_interned_contains(keys: Seq<Seq<char>>, names: Seq<Seq<char>>)
    ensures
        forall|j: int| 0 <= j < names.len() ==> interned(keys, names).contains(#[trigger] names[j]),
    decreases names.len(),
{
    if names.len() > 0 {
        let prev = names.drop_last();
        lemma_interned_contains(keys, prev);
        let k = interned(keys, prev);
        lemma_interned_extends(k, seq![names.last()]);
        assert(seq![names.last()].drop_last() =~= Seq::<Seq<char>>::empty());
        assert forall|j: int| 0 <= j < names.len() implies interned(keys, names).contains(
            #[trigger] names[j],
        ) by {
            if j < names.len() - 1 {
                assert(prev[j] == names[j]);
                let m = choose|m: int| 0 <= m < k.len() && k[m] == prev[j];
                assert(interned(keys, names)[m] == names[j]);
            } else {
                if !k.contains(names.last()) {
                    assert(interned(keys, names)[k.len() as int] == names.last());
                }
            }
        }
    }
}

/// Interning names that are all present changes nothing.
pub proof fn lemma_interned_present(keys: Seq<Seq<char>>, names: Seq<Seq<char>>)
    requires
        forall|j: int| 0 <= j < names.len() ==> keys.contains(#[trigger] names[j]),
    ensures
        interned(keys, names) == keys,
    decreases names.len(),
{
    if names.len() > 0 {
        lemma_interned_present(keys, names.drop_last());
        assert(keys.contains(names[names.len() - 1]));
    }
}

/// Interning the same names a second time changes nothing.
pub proof fn lemma_interned_idempotent(keys: Seq<Seq<char>>, names: Seq<Seq<char>>)
    ensures
        interned(interned(keys, names), names) == interned(keys, names),
{
    lemma_interned_contains(keys, names);
    lemma_interned_present(interned(keys, names), names);
}

pub struct Interner {
    ids: StringHashMap<usize>,
    keys: Vec<String>,
}

impl View for Interner {
    /// The keys in id order: the key with id `i` is `self@[i]`.
    type V = Seq<Seq<char>>;

    closed spec fn view(&self) -> Seq<Seq<char>> {
        self.keys@.map_values(|k: String| k@)
    }
}

impl Interner {
    /// The lookup table and the ordered key list agree, and ids are distinct.
    pub closed spec fn wf(&self) -> bool {
        &&& distinct_keys(self@)
        &&& forall|k: Seq<char>| #[trigger] self.ids@.contains_key(k) <==> self@.contains(k)
        &&& forall|i: int| 0 <= i < self@.len() ==> self.ids@[#[trigger] self@[i]] == i
    }

    /// A well-formed table holds no key twice.
    pub proof fn lemma_distinct(&self)
        requires
            self.wf(),
        ensures
            distinct_keys(self@),
    {
    }

    /// An empty table.
    pub fn new() -> (r: Self)
        ensures
            r.wf(),
            r@ == Seq::<Seq<char>>::empty(),
    {
        let r = Interner { ids: StringHashMap::new(), keys: Vec::new() };
        assert(r@ =~= Seq::<Seq<char>>::empty());
        r
    }

    /// The number of keys.
    pub fn len(&self) -> (r: usize)
        ensures
            r == self@.len(),
    {
        self.keys.len()
    }

    /// Whether the table holds no key.
    pub fn is_empty(&self) -> (r: bool)
        ensures
            r == (self@.len() == 0),
    {
        self.keys.len() == 0
    }

    /// Whether `k` has an id.
    pub fn contains_key(&self, k: &str) -> (r: bool)
        requires
            self.wf(),
        ensures
            r == self@.contains(k@),
    {
        self.ids.contains_key(k)
    }

    /// The id of `k`, if it has one.
    pub fn get(&self, k: &str) -> (r: Option<usize>)
        requires
            self.wf(),
        ensures
            match r {
                Some(i) => i < self@.len() && self@[i as int] == k@,
                None => !self@.contains(k@),
            },
    {
        match self.ids.get(k) {
            Some(i) => {
                let ghost j = choose|j: int| 0 <= j < self@.len() && self@[j] == k@;
                assert(self.ids@[self@[j]] == j);
                Some(*i)
            },
            None => None,
        }
    }

    /// The keys in id order.
    pub fn keys(&self) -> (r: &Vec<String>)
        ensures
            r@.map_values(|k: String| k@) == self@,
    {
        &self.keys
    }

    /// The id of `key`, giving it the next free id when it has none.
    pub fn intern(&mut self, key: String) -> (id: usize)
        requires
            old(self).wf(),
        ensures
            final(self).wf(),
            final(self)@ == interned(old(self)@, seq![key@]),
            id < final(self)@.len(),
            final(self)@[id as int] == key@,
            old(self)@.contains(key@) ==> final(self)@ == old(self)@,
            !old(self)@.contains(key@) ==> final(self)@ == old(self)@.push(key@) && id == old(
                self,
            )@.len(),
    {
        proof {
            assert(seq![key@].drop_last() =~= Seq::<Seq<char>>::empty());
            assert(interned(self@, Seq::<Seq<char>>::empty()) == self@);
        }
        match self.ids.get(key.as_str()) {
            Some(i) => {
                let ghost j = choose|j: int| 0 <= j < self@.len() && self@[j] == key@;
                assert(self.ids@[self@[j]] == j);
                *i
            },
            None => {
                let id = self.keys.len();
                let ghost old_view = self@;
                let ghost old_ids = self.ids@;
                let ghost kv = key@;
                self.ids.insert(key.clone(), id);
                self.keys.push(key);
                proof {
                    assert(self@ =~= old_view.push(kv));
                    assert(self.ids@ == old_ids.insert(kv, id));
                    assert(self@[old_view.len() as int] == kv);
                    assert forall|k: Seq<char>| #[trigger] self.ids@.contains_key(k) <==> self@.contains(k) by {
                        if self@.contains(k) {
                            let j = choose|j: int| 0 <= j < self@.len() && self@[j] == k;
                            if j < old_view.len() {
                                assert(old_view[j] == k);
                                assert(old_view.contains(k));
                                assert(old_ids.contains_key(k));
                            }
                        }
                        if self.ids@.contains_key(k) && k != kv {
                            assert(old_ids.contains_key(k));
                            assert(old_view.contains(k));
                            let j = choose|j: int| 0 <= j < old_view.len() && old_view[j] == k;
                            assert(self@[j] == k);
                        }
                    }
                }
                id
            },
        }
    }
}

} // verus!
