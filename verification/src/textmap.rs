//! A map keyed by text whose entries are kept in increasing key order, the
//! order in which the kernel lists plugins, settings and autostart entries.
use vstd::prelude::*;

use crate::text::{lemma_text_less_asymmetric, lemma_text_less_irreflexive, lemma_text_less_total, lemma_text_less_transitive, text_less, text_order, TextOrder};

verus! {

/// Whether the keys increase strictly, which also makes them distinct.
pub open spec fn keys_increasing(keys: Seq<Seq<char>>) -> bool {
    forall|i: int, j: int| 0 <= i < j < keys.len() ==> text_less(#[trigger] keys[i], #[trigger] keys[j])
}

/// The keys of a list of entries, in order.
pub open spec fn entry_keys<V>(e: Seq<(String, V)>) -> Seq<Seq<char>> {
    e.map_values(|p: (String, V)| p.0@)
}

/// Whether `k` is the key of some entry.
pub open spec fn has_key<V>(e: Seq<(String, V)>, k: Seq<char>) -> bool {
    exists|i: int| 0 <= i < e.len() && (#[trigger] e[i]).0@ == k
}

/// The position of an entry whose key is `k`.
pub open spec fn index_of_key<V>(e: Seq<(String, V)>, k: Seq<char>) -> int {
    choose|i: int| 0 <= i < e.len() && (#[trigger] e[i]).0@ == k
}

/// The map that a list of entries with distinct keys stands for.
pub open spec fn entries_map<V>(e: Seq<(String, V)>) -> Map<Seq<char>, V> {
    Map::new(|k: Seq<char>| has_key(e, k), |k: Seq<char>| e[index_of_key(e, k)].1)
}

pub proof fn lemma_has_key<V>(e: Seq<(String, V)>, k: Seq<char>)
    ensures
        has_key(e, k) <==> entry_keys(e).contains(k),
        entries_map(e).contains_key(k) <==> entry_keys(e).contains(k),
{
    if has_key(e, k) {
        let j = index_of_key(e, k);
        assert(entry_keys(e)[j] == k);
    }
    if entry_keys(e).contains(k) {
        let j = choose|j: int| 0 <= j < entry_keys(e).len() && entry_keys(e)[j] == k;
        assert(e[j].0@ == k);
    }
}

pub proof fn lemma_entries_map_at<V>(e: Seq<(String, V)>, i: int)
    requires
        keys_increasing(entry_keys(e)),
        0 <= i < e.len(),
    ensures
        entries_map(e).contains_key(e[i].0@),
        entries_map(e)[e[i].0@] == e[i].1,
{
    let k = e[i].0@;
    assert(has_key(e, k)) by {
        assert(e[i].0@ == k);
    }
    let j = index_of_key(e, k);
    if j != i {
        let ks = entry_keys(e);
        assert(ks[i] == k && ks[j] == k);
        if i < j {
            assert(text_less(ks[i], ks[j]));
        } else {
            assert(text_less(ks[j], ks[i]));
        }
        lemma_text_less_irreflexive(k);
    }
}

/// A map from text keys to values, kept in increasing key order.
pub struct TextMap<V> {
    entries: Vec<(String, V)>,
}

impl<V> TextMap<V> {
    /// The entries in increasing key order.
    pub closed spec fn entries(&self) -> Seq<(String, V)> {
        self.entries@
    }

    /// The keys in increasing order.
    pub open spec fn keys(&self) -> Seq<Seq<char>> {
        entry_keys(self.entries())
    }

    /// The values, in the order of their keys.
    pub open spec fn values(&self) -> Seq<V> {
        self.entries().map_values(|p: (String, V)| p.1)
    }

    pub open spec fn view(&self) -> Map<Seq<char>, V> {
        entries_map(self.entries())
    }

    /// The keys increase strictly; every map holds this.
    #[verifier::type_invariant]
    pub closed spec fn wf(&self) -> bool {
        keys_increasing(entry_keys(self.entries@))
    }

    pub proof fn lemma_view(&self)
        requires
            self.wf(),
        ensures
            forall|i: int|
                0 <= i < self.keys().len() ==> #[trigger] self@.contains_key(self.keys()[i])
                    && self@[self.keys()[i]] == self.values()[i],
            forall|k: Seq<char>| #[trigger] self@.contains_key(k) ==> self.keys().contains(k),
            self.keys().len() == self.values().len(),
    {
        assert forall|i: int| 0 <= i < self.keys().len() implies #[trigger] self@.contains_key(
            self.keys()[i],
        ) && self@[self.keys()[i]] == self.values()[i] by {
            lemma_entries_map_at(self.entries(), i);
        }
        assert forall|k: Seq<char>| #[trigger] self@.contains_key(k) implies self.keys().contains(
            k,
        ) by {
            let j = choose|j: int| 0 <= j < self.entries().len() && (#[trigger] self.entries()[j]).0@ == k;
            assert(self.keys()[j] == k);
        }
    }

    /// The keys increase, so no key is repeated.
    pub proof fn lemma_keys_increasing(&self)
        requires
            self.wf(),
        ensures
            keys_increasing(self.keys()),
            self.keys().no_duplicates(),
    {
        let e = self.keys();
        assert forall|i: int, j: int| 0 <= i < e.len() && 0 <= j < e.len() && i != j implies e[i]
            != e[j] by {
            if i < j {
                assert(text_less(e[i], e[j]));
            } else {
                assert(text_less(e[j], e[i]));
            }
            lemma_text_less_irreflexive(e[i]);
        }
    }

    /// The keys of the map are those of its entries; there are finitely many.
    pub proof fn lemma_dom(&self)
        requires
            self.wf(),
        ensures
            self@.dom() == self.keys().to_set(),
            self@.dom().finite(),
    {
        assert forall|k: Seq<char>| self@.dom().contains(k) <==> self.keys().to_set().contains(k) by {
            lemma_has_key(self.entries(), k);
        }
        assert(self@.dom() =~= self.keys().to_set());
        self.keys().lemma_cardinality_of_set();
    }

    pub fn new() -> (m: Self)
        ensures
            m.wf(),
            m.keys() == Seq::<Seq<char>>::empty(),
            m@ == Map::<Seq<char>, V>::empty(),
    {
        let m = TextMap { entries: Vec::new() };
        assert(m@ =~= Map::<Seq<char>, V>::empty());
        assert(m.keys() =~= Seq::<Seq<char>>::empty());
        m
    }

    pub fn len(&self) -> (n: usize)
        ensures
            n == self.keys().len(),
    {
        self.entries.len()
    }

    pub fn key_at(&self, i: usize) -> (k: &String)
        requires
            i < self.keys().len(),
        ensures
            k@ == self.keys()[i as int],
    {
        &self.entries[i].0
    }

    pub fn value_at(&self, i: usize) -> (v: &V)
        requires
            i < self.keys().len(),
        ensures
            *v == self.values()[i as int],
    {
        &self.entries[i].1
    }

    /// The entries in increasing key order, handed out.
    pub fn into_entries(self) -> (r: Vec<(String, V)>)
        ensures
            r@ == self.entries(),
            entry_keys(r@) == self.keys(),
    {
        self.entries
    }

    /// The first position whose key is not below `key`, and whether the key
    /// there is `key` itself.
    fn position(&self, key: &str) -> (r: (usize, bool))
        ensures
            r.0 <= self.keys().len(),
            forall|j: int| 0 <= j < r.0 ==> text_less(#[trigger] self.keys()[j], key@),
            forall|j: int| r.0 <= j < self.keys().len() ==> !text_less(#[trigger] self.keys()[j], key@),
            r.1 == (r.0 < self.keys().len() && self.keys()[r.0 as int] == key@),
            r.1 == self.keys().contains(key@),
    {
        proof {
            use_type_invariant(self);
        }
        let n: usize = self.entries.len();
        let mut i: usize = 0;
        while i < n
            invariant
                n == self.keys().len(),
                i <= n,
                self.wf(),
                forall|j: int| 0 <= j < i ==> text_less(#[trigger] self.keys()[j], key@),
            decreases n - i,
        {
            match text_order(self.entries[i].0.as_str(), key) {
                TextOrder::Before => {},
                TextOrder::Same => {
                    proof {
                        assert forall|j: int| i <= j < n implies !text_less(#[trigger] self.keys()[j], key@) by {
                            if j > i {
                                assert(text_less(self.keys()[i as int], self.keys()[j]));
                                lemma_text_less_asymmetric(self.keys()[i as int], self.keys()[j]);
                            } else {
                                lemma_text_less_irreflexive(key@);
                            }
                        }
                        assert(self.keys()[i as int] == key@);
                    }
                    return (i, true);
                },
                TextOrder::After => {
                    proof {
                        assert forall|j: int| i <= j < n implies !text_less(#[trigger] self.keys()[j], key@) by {
                            if j > i {
                                assert(text_less(self.keys()[i as int], self.keys()[j]));
                                if text_less(self.keys()[j], key@) {
                                    lemma_text_less_transitive(self.keys()[i as int], self.keys()[j], key@);
                                    lemma_text_less_asymmetric(self.keys()[i as int], key@);
                                }
                            } else {
                                lemma_text_less_asymmetric(key@, self.keys()[i as int]);
                            }
                        }
                        assert forall|j: int| 0 <= j < n implies self.keys()[j] != key@ by {
                            if j < i {
                                lemma_text_less_irreflexive(key@);
                            } else {
                                if j > i {
                                    assert(text_less(self.keys()[i as int], self.keys()[j]));
                                    lemma_text_less_asymmetric(key@, self.keys()[i as int]);
                                    if self.keys()[j] == key@ {
                                        lemma_text_less_asymmetric(self.keys()[i as int], key@);
                                    }
                                } else {
                                    lemma_text_less_irreflexive(key@);
                                }
                            }
                        }
                    }
                    return (i, false);
                },
            }
            i = i + 1;
        }
        proof {
            assert forall|j: int| 0 <= j < n implies self.keys()[j] != key@ by {
                lemma_text_less_irreflexive(key@);
            }
        }
        (n, false)
    }

    pub fn contains_key(&self, key: &str) -> (r: bool)
        ensures
            r == self@.contains_key(key@),
    {
        proof {
            use_type_invariant(self);
            self.lemma_view();
        }
        let (p, found) = self.position(key);
        proof {
            if found {
                assert(self@.contains_key(self.keys()[p as int]));
            }
        }
        found
    }

    pub fn get(&self, key: &str) -> (r: Option<&V>)
        ensures
            r is Some <==> self@.contains_key(key@),
            r is Some ==> *r->0 == self@[key@],
    {
        proof {
            use_type_invariant(self);
            self.lemma_view();
        }
        let (p, found) = self.position(key);
        if found {
            proof {
                lemma_entries_map_at(self.entries(), p as int);
            }
            Some(&self.entries[p].1)
        } else {
            None
        }
    }

    /// Sets the value of `key`, replacing an earlier value.
    pub fn insert(&mut self, key: String, value: V)
        ensures
            final(self).wf(),
            final(self)@ == old(self)@.insert(key@, value),
            final(self).keys().to_set() == old(self).keys().to_set().insert(key@),
    {
        proof {
            use_type_invariant(&*self);
        }
        let ghost old_e = self.entries@;
        let ghost k = key@;
        proof {
            self.lemma_view();
        }
        let (p, found) = self.position(key.as_str());
        let mut entries: Vec<(String, V)> = Vec::new();
        std::mem::swap(&mut entries, &mut self.entries);
        if found {
            entries.set(p, (key, value));
        } else {
            entries.insert(p, (key, value));
        }
        let ghost new_e = entries@;
        proof {
            let ok = entry_keys(old_e);
            let nk = entry_keys(new_e);
            if found {
                assert(nk =~= ok.update(p as int, k));
            } else {
                assert(nk =~= ok.insert(p as int, k));
            }
            assert(keys_increasing(nk)) by {
                assert forall|i: int, j: int| 0 <= i < j < nk.len() implies text_less(
                    #[trigger] nk[i],
                    #[trigger] nk[j],
                ) by {
                    if found {
                        if i == p {
                            assert(nk[i] == ok[i]);
                        }
                        if j == p {
                            assert(nk[j] == ok[j]);
                        }
                        assert(text_less(ok[i], ok[j]));
                    } else {
                        if i < p && j < p {
                            assert(text_less(ok[i], ok[j]));
                        } else if i < p && j == p {
                        } else if i < p && j > p {
                            assert(nk[j] == ok[j - 1]);
                            assert(text_less(ok[i], k));
                            assert(!text_less(ok[j - 1], k));
                            if ok[j - 1] != k {
                                lemma_text_less_total(ok[j - 1], k);
                            }
                            lemma_text_less_transitive(ok[i], k, ok[j - 1]);
                        } else if i == p {
                            assert(nk[j] == ok[j - 1]);
                            assert(!text_less(ok[j - 1], k));
                            lemma_text_less_total(ok[j - 1], k);
                        } else {
                            assert(nk[i] == ok[i - 1]);
                            assert(nk[j] == ok[j - 1]);
                            assert(text_less(ok[i - 1], ok[j - 1]));
                        }
                    }
                }
            }
            self.lemma_view();
            let om = entries_map(old_e);
            let nm = entries_map(new_e);
            assert(keys_increasing(ok));
            assert forall|i: int| 0 <= i < ok.len() implies #[trigger] om.contains_key(ok[i]) && om[ok[i]]
                == old_e[i].1 by {
                lemma_entries_map_at(old_e, i);
            }
            assert forall|x: Seq<char>| #[trigger] om.contains_key(x) implies ok.contains(x) by {
                let j = choose|j: int| 0 <= j < old_e.len() && (#[trigger] old_e[j]).0@ == x;
                assert(ok[j] == x);
            }
            assert(nm =~= om.insert(k, value)) by {
                assert forall|x: Seq<char>| #[trigger] nm.contains_key(x) <==> om.insert(k, value).contains_key(x) by {
                    lemma_has_key(new_e, x);
                    lemma_has_key(old_e, x);
                    if nm.contains_key(x) {
                        assert(nk.contains(x));
                        let j = choose|j: int| 0 <= j < nk.len() && nk[j] == x;
                        if x != k {
                            if found {
                                assert(ok[j] == x);
                            } else if j < p {
                                assert(ok[j] == x);
                            } else {
                                assert(ok[j - 1] == x);
                            }
                        }
                    }
                    if om.insert(k, value).contains_key(x) {
                        if x == k {
                            assert(nk[p as int] == k);
                        } else {
                            assert(ok.contains(x));
                            let j = choose|j: int| 0 <= j < ok.len() && ok[j] == x;
                            if found {
                                assert(nk[j] == x);
                            } else if j < p {
                                assert(nk[j] == x);
                            } else {
                                assert(nk[j + 1] == x);
                            }
                        }
                    }
                }
                assert forall|x: Seq<char>| #[trigger] nm.contains_key(x) implies nm[x] == om.insert(k, value)[x] by {
                    lemma_has_key(new_e, x);
                    let j = choose|j: int| 0 <= j < nk.len() && nk[j] == x;
                    lemma_entries_map_at(new_e, j);
                    if x == k {
                        if j != p {
                            if j < p {
                                assert(text_less(nk[j], nk[p as int]));
                            } else {
                                assert(text_less(nk[p as int], nk[j]));
                            }
                            lemma_text_less_irreflexive(x);
                        }
                    } else if found || j < p {
                        assert(ok[j] == x);
                        lemma_entries_map_at(old_e, j);
                    } else {
                        assert(ok[j - 1] == x);
                        lemma_entries_map_at(old_e, j - 1);
                    }
                }
            }
            assert(nk.to_set() =~= ok.to_set().insert(k)) by {
                assert forall|x: Seq<char>| nk.to_set().contains(x) <==> ok.to_set().insert(k).contains(x) by {
                    if nk.contains(x) {
                        let j = choose|j: int| 0 <= j < nk.len() && nk[j] == x;
                        if x != k {
                            if found || j < p {
                                assert(ok[j] == x);
                            } else {
                                assert(ok[j - 1] == x);
                            }
                        }
                    }
                    if ok.to_set().insert(k).contains(x) {
                        if x == k {
                            assert(nk[p as int] == k);
                        } else {
                            let j = choose|j: int| 0 <= j < ok.len() && ok[j] == x;
                            if found || j < p {
                                assert(nk[j] == x);
                            } else {
                                assert(nk[j + 1] == x);
                            }
                        }
                    }
                }
            }
        }
        self.entries = entries;
    }

    /// Removes `key`, handing back its value.
    pub fn remove(&mut self, key: &str) -> (r: Option<V>)
        ensures
            final(self).wf(),
            final(self)@ == old(self)@.remove(key@),
            r is Some <==> old(self)@.contains_key(key@),
            r is Some ==> r->0 == old(self)@[key@],
            final(self).keys().to_set() == old(self).keys().to_set().remove(key@),
    {
        proof {
            use_type_invariant(&*self);
        }
        let ghost old_e = self.entries@;
        let ghost k = key@;
        proof {
            self.lemma_view();
        }
        let (p, found) = self.position(key);
        if !found {
            proof {
                assert(self@ =~= self@.remove(k));
                assert(self.keys().to_set() =~= self.keys().to_set().remove(k));
            }
            return None;
        }
        let mut entries: Vec<(String, V)> = Vec::new();
        std::mem::swap(&mut entries, &mut self.entries);
        let (_k, v) = entries.remove(p);
        let ghost new_e = entries@;
        proof {
            let ok = entry_keys(old_e);
            let nk = entry_keys(new_e);
            assert(nk =~= ok.remove(p as int));
            assert(keys_increasing(nk)) by {
                assert forall|i: int, j: int| 0 <= i < j < nk.len() implies text_less(
                    #[trigger] nk[i],
                    #[trigger] nk[j],
                ) by {
                    if j < p {
                        assert(text_less(ok[i], ok[j]));
                    } else if i < p {
                        assert(text_less(ok[i], ok[j + 1]));
                    } else {
                        assert(text_less(ok[i + 1], ok[j + 1]));
                    }
                }
            }
            let om = entries_map(old_e);
            let nm = entries_map(new_e);
            lemma_entries_map_at(old_e, p as int);
            assert forall|i: int| 0 <= i < ok.len() && i != p implies ok[i] != k by {
                if i < p {
                    assert(text_less(ok[i], ok[p as int]));
                } else {
                    assert(text_less(ok[p as int], ok[i]));
                }
                lemma_text_less_irreflexive(k);
            }
            assert(nm =~= om.remove(k)) by {
                assert forall|x: Seq<char>| #[trigger] nm.contains_key(x) <==> om.remove(k).contains_key(x) by {
                    if nm.contains_key(x) {
                        let j = choose|j: int| 0 <= j < new_e.len() && (#[trigger] new_e[j]).0@ == x;
                        if j < p {
                            assert(ok[j] == x);
                            assert(old_e[j].0@ == x);
                        } else {
                            assert(ok[j + 1] == x);
                            assert(old_e[j + 1].0@ == x);
                        }
                    }
                    if om.remove(k).contains_key(x) {
                        let j = choose|j: int| 0 <= j < old_e.len() && (#[trigger] old_e[j]).0@ == x;
                        assert(ok[j] == x);
                        if j < p {
                            assert(new_e[j].0@ == x);
                        } else {
                            assert(new_e[j - 1].0@ == x);
                        }
                    }
                }
                assert forall|x: Seq<char>| #[trigger] nm.contains_key(x) implies nm[x] == om.remove(k)[x] by {
                    let j = choose|j: int| 0 <= j < new_e.len() && (#[trigger] new_e[j]).0@ == x;
                    lemma_entries_map_at(new_e, j);
                    if j < p {
                        lemma_entries_map_at(old_e, j);
                    } else {
                        lemma_entries_map_at(old_e, j + 1);
                    }
                }
            }
            assert(nk.to_set() =~= ok.to_set().remove(k)) by {
                assert forall|x: Seq<char>| nk.to_set().contains(x) <==> ok.to_set().remove(k).contains(x) by {
                    if nk.contains(x) {
                        let j = choose|j: int| 0 <= j < nk.len() && nk[j] == x;
                        if j < p {
                            assert(ok[j] == x);
                        } else {
                            assert(ok[j + 1] == x);
                        }
                    }
                    if ok.to_set().remove(k).contains(x) {
                        let j = choose|j: int| 0 <= j < ok.len() && ok[j] == x;
                        if j < p {
                            assert(nk[j] == x);
                        } else {
                            assert(nk[j - 1] == x);
                        }
                    }
                }
            }
        }
        self.entries = entries;
        Some(v)
    }
}

/// A set of texts, kept in increasing order.
pub struct TextSet {
    items: TextMap<()>,
}

impl TextSet {
    /// The members in increasing order.
    pub closed spec fn elements(&self) -> Seq<Seq<char>> {
        self.items.keys()
    }

    pub open spec fn view(&self) -> Set<Seq<char>> {
        self.elements().to_set()
    }

    /// Every set holds this.
    #[verifier::type_invariant]
    pub closed spec fn wf(&self) -> bool {
        self.items.wf()
    }

    pub fn new() -> (s: Self)
        ensures
            s.elements() == Seq::<Seq<char>>::empty(),
            s@ == Set::<Seq<char>>::empty(),
    {
        let s = TextSet { items: TextMap::new() };
        assert(s@ =~= Set::<Seq<char>>::empty());
        s
    }

    pub fn len(&self) -> (n: usize)
        ensures
            n == self.elements().len(),
    {
        self.items.len()
    }

    pub fn at(&self, i: usize) -> (k: &String)
        requires
            i < self.elements().len(),
        ensures
            k@ == self.elements()[i as int],
    {
        self.items.key_at(i)
    }

    pub fn contains(&self, key: &str) -> (r: bool)
        ensures
            r == self@.contains(key@),
    {
        proof {
            use_type_invariant(self);
            lemma_has_key(self.items.entries(), key@);
        }
        self.items.contains_key(key)
    }

    pub fn insert(&mut self, key: String)
        ensures
            final(self)@ == old(self)@.insert(key@),
    {
        let mut items: TextMap<()> = TextMap::new();
        std::mem::swap(&mut items, &mut self.items);
        items.insert(key, ());
        self.items = items;
    }

    pub fn remove(&mut self, key: &str)
        ensures
            final(self)@ == old(self)@.remove(key@),
    {
        let mut items: TextMap<()> = TextMap::new();
        std::mem::swap(&mut items, &mut self.items);
        let _ = items.remove(key);
        self.items = items;
    }
}

/// A copy of a map, entry for entry, each value copied by `copy`.
pub fn copy_text_map<V, F: Fn(&V) -> V>(m: &TextMap<V>, copy: F) -> (r: TextMap<V>)
    requires
        forall|v: &V| #[trigger] copy.requires((v,)),
        forall|v: &V, c: V| #[trigger] copy.ensures((v,), c) ==> c == *v,
    ensures
        r.wf(),
        r@ == m@,
{
    proof {
        use_type_invariant(m);
    }
    let mut r: TextMap<V> = TextMap::new();
    let n: usize = m.len();
    let mut i: usize = 0;
    proof {
        m.lemma_view();
        assert(r@ =~= m@.restrict(m.keys().take(0).to_set()));
    }
    while i < n
        invariant
            m.wf(),
            r.wf(),
            n == m.keys().len(),
            forall|v: &V| #[trigger] copy.requires((v,)),
            forall|v: &V, c: V| #[trigger] copy.ensures((v,), c) ==> c == *v,
            i <= n,
            r@ == m@.restrict(m.keys().take(i as int).to_set()),
        decreases n - i,
    {
        let k = m.key_at(i).clone();
        let v = copy(m.value_at(i));
        let ghost before = r@;
        r.insert(k, v);
        proof {
            m.lemma_view();
            let ks = m.keys();
            assert(m@[ks[i as int]] == m.values()[i as int]);
            let t1 = ks.take(i + 1);
            let t0 = ks.take(i as int);
            assert forall|x: Seq<char>| t1.to_set().contains(x) <==> t0.to_set().insert(ks[i as int]).contains(x) by {
                if t1.contains(x) {
                    let j = choose|j: int| 0 <= j < t1.len() && #[trigger] t1[j] == x;
                    if j < i {
                        assert(t0[j] == x);
                    }
                }
                if t0.contains(x) {
                    let j = choose|j: int| 0 <= j < t0.len() && #[trigger] t0[j] == x;
                    assert(t1[j] == x);
                }
                if x == ks[i as int] {
                    assert(t1[i as int] == x);
                }
            }
            assert(ks.take(i + 1).to_set() =~= ks.take(i as int).to_set().insert(ks[i as int]));
            assert(r@ =~= m@.restrict(ks.take(i + 1).to_set()));
        }
        i = i + 1;
    }
    proof {
        m.lemma_dom();
        assert(m.keys().take(n as int) =~= m.keys());
        assert(r@ =~= m@);
    }
    r
}

} // verus!
