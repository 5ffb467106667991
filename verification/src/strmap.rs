//! A map from strings to values that keeps its entries sorted by key, as the
//! ordered maps of the configuration do.
use vstd::prelude::*;

use crate::text::texts;
use crate::order::{lemma_text_lt_irreflexive, lemma_text_lt_total, lemma_text_lt_transitive, text_less, text_lt};

verus! {

/// A map from strings to values, its entries held in increasing key order.
#[derive(Debug)]
pub struct StrMap<V> {
    entries: Vec<(String, V)>,
}

/// The keys of a list of entries, in order.
pub open spec fn keys_of<V>(es: Seq<(String, V)>) -> Seq<Seq<char>> {
    es.map_values(|e: (String, V)| e.0@)
}

/// Keys strictly increase along the list.
pub open spec fn strictly_sorted(ks: Seq<Seq<char>>) -> bool {
    forall|i: int, j: int| 0 <= i < j < ks.len() ==> text_lt(#[trigger] ks[i], #[trigger] ks[j])
}

impl<V> View for StrMap<V> {
    type V = Map<Seq<char>, V>;

    closed spec fn view(&self) -> Map<Seq<char>, V> {
        Map::new(|k: Seq<char>| self.has_key(k), |k: Seq<char>| self.entries@[self.index_of(k)].1)
    }
}

impl<V> StrMap<V> {
    /// Some entry holds key `k`.
    closed spec fn has_key(&self, k: Seq<char>) -> bool {
        exists|i: int| 0 <= i < self.entries@.len() && #[trigger] self.entries@[i].0@ == k
    }

    /// An index whose entry holds key `k`, where there is one.
    closed spec fn index_of(&self, k: Seq<char>) -> int {
        choose|i: int| 0 <= i < self.entries@.len() && #[trigger] self.entries@[i].0@ == k
    }

    /// The keys in the order in which the map holds them.
    pub closed spec fn key_list(&self) -> Seq<Seq<char>> {
        keys_of(self.entries@)
    }

    /// The entries are sorted by key, each key once.
    #[verifier::type_invariant]
    pub closed spec fn wf(&self) -> bool {
        strictly_sorted(keys_of(self.entries@))
    }

    proof fn lemma_distinct(&self, i: int, j: int)
        requires
            self.wf(),
            0 <= i < self.entries@.len(),
            0 <= j < self.entries@.len(),
            i != j,
        ensures
            self.entries@[i].0@ != self.entries@[j].0@,
    {
        let ks = keys_of(self.entries@);
        if i < j {
            assert(text_lt(ks[i], ks[j]));
        } else {
            assert(text_lt(ks[j], ks[i]));
        }
        lemma_text_lt_irreflexive(ks[i]);
    }

    /// The entry at index `i` is what the view maps its key to.
    proof fn lemma_view_at(&self, i: int)
        requires
            self.wf(),
            0 <= i < self.entries@.len(),
        ensures
            self@.dom().contains(self.entries@[i].0@),
            self@[self.entries@[i].0@] == self.entries@[i].1,
    {
        let k = self.entries@[i].0@;
        assert(self.has_key(k));
        assert(self@.dom().contains(k));
        let j = self.index_of(k);
        assert(self@[k] == self.entries@[j].1);
        if j != i {
            self.lemma_distinct(i, j);
        }
    }

    /// The keys of the view are exactly the keys of the list.
    proof fn lemma_view_dom(&self)
        requires
            self.wf(),
        ensures
            forall|k: Seq<char>| self@.dom().contains(k) <==> self.key_list().contains(k),
    {
        assert forall|k: Seq<char>| self@.dom().contains(k) <==> self.key_list().contains(k) by {
            if self@.dom().contains(k) {
                let i = choose|i: int| 0 <= i < self.entries@.len() && #[trigger] self.entries@[i].0@ == k;
                assert(self.key_list()[i] == k);
            }
            if self.key_list().contains(k) {
                let i = choose|i: int| 0 <= i < self.key_list().len() && self.key_list()[i] == k;
                assert(self.entries@[i].0@ == k);
            }
        }
    }

    /// An empty map.
    pub fn new() -> (m: Self)
        ensures
            m@ == Map::<Seq<char>, V>::empty(),
            m.key_list() == Seq::<Seq<char>>::empty(),
            m.wf(),
    {
        let m = StrMap { entries: Vec::new() };
        assert(m@ =~= Map::<Seq<char>, V>::empty());
        assert(m.key_list() =~= Seq::<Seq<char>>::empty());
        m
    }

    /// Where `k` stands or would stand: the first index whose key is not before `k`,
    /// and whether the key there is `k`.
    fn find(&self, k: &String) -> (res: (usize, bool))
        requires
            self.wf(),
        ensures
            res.0 <= self.entries@.len(),
            forall|j: int| 0 <= j < res.0 ==> text_lt(#[trigger] self.entries@[j].0@, k@),
            res.1 ==> res.0 < self.entries@.len() && self.entries@[res.0 as int].0@ == k@,
            !res.1 ==> forall|j: int| res.0 <= j < self.entries@.len() ==> text_lt(k@, #[trigger] self.entries@[j].0@),
    {
        let n = self.entries.len();
        let mut i: usize = 0;
        while i < n
            invariant
                self.wf(),
                n == self.entries@.len(),
                i <= n,
                forall|j: int| 0 <= j < i ==> text_lt(#[trigger] self.entries@[j].0@, k@),
            decreases n - i,
        {
            if !text_less(&self.entries[i].0, k) {
                let found = self.entries[i].0 == *k;
                proof {
                    let ks = keys_of(self.entries@);
                    assert(ks[i as int] == self.entries@[i as int].0@);
                    if !found {
                        lemma_text_lt_total(self.entries@[i as int].0@, k@);
                        assert forall|j: int| i <= j < self.entries@.len() implies text_lt(k@, #[trigger] self.entries@[j].0@) by {
                            if j > i {
                                assert(ks[j] == self.entries@[j].0@);
                                assert(text_lt(ks[i as int], ks[j]));
                                lemma_text_lt_transitive(k@, ks[i as int], ks[j]);
                            }
                        }
                    }
                }
                return (i, found);
            }
            i = i + 1;
        }
        (n, false)
    }

    /// The number of entries.
    pub fn len(&self) -> (n: usize)
        ensures
            n == self@.len(),
            n == self.key_list().len(),
            self.wf(),
    {
        proof {
            use_type_invariant(self);
            self.lemma_view_dom();
            let ks = self.key_list();
            assert forall|i: int, j: int| 0 <= i < ks.len() && 0 <= j < ks.len() && i != j implies ks[i] != ks[j] by {
                self.lemma_distinct(i, j);
            }
            assert(ks.no_duplicates());
            ks.unique_seq_to_set();
            assert(self@.dom() =~= ks.to_set());
        }
        self.entries.len()
    }

    /// Whether `k` is a key.
    pub fn contains_key(&self, k: &String) -> (res: bool)
        ensures
            res == self@.dom().contains(k@),
            self.wf(),
    {
        proof { use_type_invariant(self); }
        let (i, found) = self.find(k);
        proof {
            if found {
                self.lemma_view_at(i as int);
            } else if self@.dom().contains(k@) {
                let j = choose|j: int| 0 <= j < self.entries@.len() && #[trigger] self.entries@[j].0@ == k@;
                if j < i {
                    lemma_text_lt_irreflexive(k@);
                } else {
                    lemma_text_lt_irreflexive(k@);
                }
            }
        }
        found
    }

    /// The value under `k`, if any.
    pub fn get(&self, k: &String) -> (res: Option<&V>)
        ensures
            res matches Some(v) ==> self@.dom().contains(k@) && *v == self@[k@],
            res is None <==> !self@.dom().contains(k@),
            self.wf(),
    {
        proof { use_type_invariant(self); }
        let (i, found) = self.find(k);
        if found {
            proof { self.lemma_view_at(i as int); }
            Some(&self.entries[i].1)
        } else {
            proof {
                if self@.dom().contains(k@) {
                    let j = choose|j: int| 0 <= j < self.entries@.len() && #[trigger] self.entries@[j].0@ == k@;
                    lemma_text_lt_irreflexive(k@);
                }
            }
            None
        }
    }

    /// Puts `v` under `k`, replacing and giving back what was there.
    pub fn insert(&mut self, k: String, v: V) -> (old_value: Option<V>)
        ensures
            final(self)@ == old(self)@.insert(k@, v),
            old_value matches Some(w) ==> old(self)@.dom().contains(k@) && w == old(self)@[k@],
            old_value is None <==> !old(self)@.dom().contains(k@),
            final(self).wf(),
    {
        proof { use_type_invariant(&*self); }
        let (i, found) = self.find(&k);
        let ghost before = *self;
        let ghost kv = k@;
        let mut entries: Vec<(String, V)> = Vec::new();
        std::mem::swap(&mut entries, &mut self.entries);
        if found {
            proof { before.lemma_view_at(i as int); }
            let (_, w) = entries.remove(i);
            entries.insert(i, (k, v));
            proof {
                assert(keys_of(entries@) =~= keys_of(before.entries@));
            }
            self.entries = entries;
            proof {
                assert(self.wf());
                assert forall|key: Seq<char>| #![auto] self@.dom().contains(key) <==> before@.insert(kv, v).dom().contains(key) by {
                    if self.has_key(key) {
                        let j = self.index_of(key);
                        if j != i {
                            assert(before.entries@[j] == self.entries@[j]);
                        }
                        assert(before.has_key(key) || key == kv);
                    }
                    if before.has_key(key) {
                        let j = before.index_of(key);
                        if j != i {
                            assert(before.entries@[j] == self.entries@[j]);
                        } else {
                            assert(self.entries@[j].0@ == key);
                        }
                        assert(self.has_key(key));
                    }
                    if key == kv {
                        assert(self.entries@[i as int].0@ == kv);
                    }
                }
                assert forall|key: Seq<char>| #![auto] self@.dom().contains(key) implies self@[key] == before@.insert(kv, v)[key] by {
                    let j = self.index_of(key);
                    self.lemma_view_at(j);
                    if j != i {
                        assert(before.entries@[j] == self.entries@[j]);
                        self.lemma_distinct(j, i as int);
                        before.lemma_view_at(j);
                    }
                }
                assert(self@ =~= before@.insert(kv, v));
            }
            Some(w)
        } else {
            proof {
                if before@.dom().contains(kv) {
                    let j = before.index_of(kv);
                    lemma_text_lt_irreflexive(kv);
                }
            }
            entries.insert(i, (k, v));
            proof {
                let ks = keys_of(entries@);
                let ko = keys_of(before.entries@);
                assert forall|a: int, b: int| 0 <= a < b < ks.len() implies text_lt(#[trigger] ks[a], #[trigger] ks[b]) by {
                    if b < i {
                        assert(ks[a] == ko[a] && ks[b] == ko[b]);
                    } else if b == i {
                        assert(ks[b] == kv);
                        assert(ks[a] == before.entries@[a].0@);
                    } else if a == i {
                        assert(ks[a] == kv);
                        assert(ks[b] == before.entries@[b - 1].0@);
                    } else if a < i {
                        assert(ks[a] == ko[a] && ks[b] == ko[b - 1]);
                        assert(ko[a] == before.entries@[a].0@);
                        assert(ko[b - 1] == before.entries@[b - 1].0@);
                        lemma_text_lt_transitive(ko[a], kv, ko[b - 1]);
                    } else {
                        assert(ks[a] == ko[a - 1] && ks[b] == ko[b - 1]);
                    }
                }
            }
            self.entries = entries;
            proof {
                assert(self.wf());
                assert forall|key: Seq<char>| #![auto] self@.dom().contains(key) <==> before@.insert(kv, v).dom().contains(key) by {
                    if self.has_key(key) {
                        let j = self.index_of(key);
                        if j < i {
                            assert(before.entries@[j] == self.entries@[j]);
                        } else if j > i {
                            assert(before.entries@[j - 1] == self.entries@[j]);
                        }
                        assert(before.has_key(key) || key == kv);
                    }
                    if before.has_key(key) {
                        let j = before.index_of(key);
                        if j < i {
                            assert(before.entries@[j] == self.entries@[j]);
                        } else {
                            assert(before.entries@[j] == self.entries@[j + 1]);
                        }
                        assert(self.has_key(key));
                    }
                    if key == kv {
                        assert(self.entries@[i as int].0@ == kv);
                    }
                }
                assert forall|key: Seq<char>| #![auto] self@.dom().contains(key) implies self@[key] == before@.insert(kv, v)[key] by {
                    let j = self.index_of(key);
                    self.lemma_view_at(j);
                    if j < i {
                        assert(before.entries@[j] == self.entries@[j]);
                        self.lemma_distinct(j, i as int);
                        before.lemma_view_at(j);
                    } else if j > i {
                        assert(before.entries@[j - 1] == self.entries@[j]);
                        self.lemma_distinct(j, i as int);
                        before.lemma_view_at(j - 1);
                    }
                }
                assert(self@ =~= before@.insert(kv, v));
            }
            None
        }
    }

    /// Takes the entry under `k` out of the map, giving back its value.
    pub fn remove(&mut self, k: &String) -> (removed: Option<V>)
        ensures
            final(self)@ == old(self)@.remove(k@),
            removed matches Some(w) ==> old(self)@.dom().contains(k@) && w == old(self)@[k@],
            removed is None <==> !old(self)@.dom().contains(k@),
            final(self).wf(),
    {
        proof { use_type_invariant(&*self); }
        let (i, found) = self.find(k);
        let ghost before = *self;
        let ghost kv = k@;
        if !found {
            proof {
                if before@.dom().contains(kv) {
                    let j = before.index_of(kv);
                    lemma_text_lt_irreflexive(kv);
                }
                assert(before@.remove(kv) =~= before@);
            }
            return None;
        }
        proof { before.lemma_view_at(i as int); }
        let mut entries: Vec<(String, V)> = Vec::new();
        std::mem::swap(&mut entries, &mut self.entries);
        let (_, w) = entries.remove(i);
        proof {
            let ks = keys_of(entries@);
            let ko = keys_of(before.entries@);
            assert forall|a: int, b: int| 0 <= a < b < ks.len() implies text_lt(#[trigger] ks[a], #[trigger] ks[b]) by {
                if b < i {
                    assert(ks[a] == ko[a] && ks[b] == ko[b]);
                } else if a < i {
                    assert(ks[a] == ko[a] && ks[b] == ko[b + 1]);
                } else {
                    assert(ks[a] == ko[a + 1] && ks[b] == ko[b + 1]);
                }
            }
        }
        self.entries = entries;
        proof {
            assert(self.wf());
            assert forall|key: Seq<char>| #![auto] self@.dom().contains(key) <==> before@.remove(kv).dom().contains(key) by {
                if self.has_key(key) {
                    let j = self.index_of(key);
                    if j < i {
                        assert(before.entries@[j] == self.entries@[j]);
                        before.lemma_distinct(j, i as int);
                    } else {
                        assert(before.entries@[j + 1] == self.entries@[j]);
                        before.lemma_distinct(j + 1, i as int);
                    }
                    assert(before.has_key(key));
                }
                if before.has_key(key) && key != kv {
                    let j = before.index_of(key);
                    if j < i {
                        assert(before.entries@[j] == self.entries@[j]);
                    } else {
                        assert(j != i);
                        assert(before.entries@[j] == self.entries@[j - 1]);
                    }
                    assert(self.has_key(key));
                }
            }
            assert forall|key: Seq<char>| #![auto] self@.dom().contains(key) implies self@[key] == before@.remove(kv)[key] by {
                let j = self.index_of(key);
                self.lemma_view_at(j);
                if j < i {
                    assert(before.entries@[j] == self.entries@[j]);
                    before.lemma_view_at(j);
                } else {
                    assert(before.entries@[j + 1] == self.entries@[j]);
                    before.lemma_view_at(j + 1);
                }
            }
            assert(self@ =~= before@.remove(kv));
        }
        Some(w)
    }

    /// The keys, in increasing order.
    pub fn keys(&self) -> (ks: Vec<String>)
        ensures
            texts(ks@) == self.key_list(),
            self.wf(),
    {
        proof { use_type_invariant(self); }
        let mut ks: Vec<String> = Vec::new();
        let n = self.entries.len();
        let mut i: usize = 0;
        while i < n
            invariant
                n == self.entries@.len(),
                i <= n,
                ks@.len() == i,
                texts(ks@) =~= self.key_list().take(i as int),
            decreases n - i,
        {
            let ghost prev = ks@;
            ks.push(self.entries[i].0.clone());
            proof {
                assert forall|j: int| 0 <= j < i + 1 implies #[trigger] texts(ks@)[j]
                    == self.key_list().take(i + 1)[j] by {
                    if j < i {
                        assert(texts(prev)[j] == self.key_list().take(i as int)[j]);
                        assert(ks@[j] == prev[j]);
                    }
                }
            }
            i = i + 1;
        }
        proof {
            assert(self.key_list().take(n as int) =~= self.key_list());
        }
        ks
    }

    /// The key at position `i` of the key order.
    pub fn key_at(&self, i: usize) -> (k: &String)
        requires
            i < self.key_list().len(),
        ensures
            k@ == self.key_list()[i as int],
            self@.dom().contains(k@),
            self.wf(),
    {
        proof {
            use_type_invariant(self);
            self.lemma_view_at(i as int);
        }
        &self.entries[i].0
    }

    /// The value under the key at position `i` of the key order.
    pub fn value_at(&self, i: usize) -> (v: &V)
        requires
            i < self.key_list().len(),
        ensures
            *v == self@[self.key_list()[i as int]],
            self.wf(),
    {
        proof {
            use_type_invariant(self);
            self.lemma_view_at(i as int);
        }
        &self.entries[i].1
    }

    /// The least key, if the map is not empty.
    pub fn first_key(&self) -> (k: Option<String>)
        ensures
            k is None <==> self@.dom().is_empty(),
            k matches Some(first) ==> self@.dom().contains(first@) && forall|other: Seq<char>|
                #![trigger self@.dom().contains(other)]
                self@.dom().contains(other) && other != first@ ==> text_lt(first@, other),
            k matches Some(first) ==> first@ == self.key_list()[0],
            self.wf(),
    {
        proof {
            use_type_invariant(self);
            self.lemma_view_dom();
        }
        if self.entries.len() == 0 {
            proof {
                assert(self@.dom() =~= Set::<Seq<char>>::empty());
            }
            None
        } else {
            proof {
                self.lemma_view_at(0);
                assert forall|other: Seq<char>| #![trigger self@.dom().contains(other)]
                    self@.dom().contains(other) && other != self.entries@[0].0@ implies text_lt(self.entries@[0].0@, other) by {
                    let j = self.index_of(other);
                    let ks = keys_of(self.entries@);
                    assert(ks[0] == self.entries@[0].0@);
                    assert(ks[j] == other);
                }
            }
            Some(self.entries[0].0.clone())
        }
    }

    /// The keys of the map, listed: the list is in increasing order, so holds
    /// each key once, and holds exactly the keys of the map.
    pub proof fn law_key_list(&self)
        requires
            self.wf(),
        ensures
            strictly_sorted(self.key_list()),
            self.key_list().no_duplicates(),
            forall|k: Seq<char>| #[trigger] self@.dom().contains(k) <==> self.key_list().contains(k),
            self.key_list().len() == self@.len(),
    {
        self.lemma_view_dom();
        let ks = self.key_list();
        assert forall|i: int, j: int| 0 <= i < ks.len() && 0 <= j < ks.len() && i != j implies ks[i] != ks[j] by {
            self.lemma_distinct(i, j);
        }
        ks.unique_seq_to_set();
        assert(self@.dom() =~= ks.to_set());
    }
}


impl<V: View> StrMap<V> {
    /// The map with each value taken by its view.
    pub open spec fn views(&self) -> Map<Seq<char>, V::V> {
        self@.map_values(|v: V| v@)
    }
}

/// Putting an entry in and then viewing the values is viewing and then putting in.
pub proof fn lemma_views_insert<V: View>(m: Map<Seq<char>, V>, k: Seq<char>, v: V)
    ensures
        m.insert(k, v).map_values(|x: V| x@) == m.map_values(|x: V| x@).insert(k, v@),
{
    assert(m.insert(k, v).map_values(|x: V| x@) =~= m.map_values(|x: V| x@).insert(k, v@));
}

/// Taking an entry out and then viewing the values is viewing and then taking out.
pub proof fn lemma_views_remove<V: View>(m: Map<Seq<char>, V>, k: Seq<char>)
    ensures
        m.remove(k).map_values(|x: V| x@) == m.map_values(|x: V| x@).remove(k),
{
    assert(m.remove(k).map_values(|x: V| x@) =~= m.map_values(|x: V| x@).remove(k));
}

impl<V: Clone> Clone for StrMap<V> {
    /// A copy with the same keys, in the same order, each value a clone of
    /// the value under the same key.
    fn clone(&self) -> (res: Self)
        ensures
            res.key_list() == self.key_list(),
            res@.dom() == self@.dom(),
            forall|k: Seq<char>| #[trigger] self@.dom().contains(k) ==> vstd::pervasive::cloned::<V>(self@[k], res@[k]),
    {
        proof { use_type_invariant(self); }
        let n = self.entries.len();
        let mut entries: Vec<(String, V)> = Vec::new();
        let mut i: usize = 0;
        while i < n
            invariant
                n == self.entries@.len(),
                i <= n,
                entries@.len() == i,
                forall|j: int| 0 <= j < i ==> #[trigger] entries@[j].0@ == self.entries@[j].0@,
                forall|j: int| 0 <= j < i ==> vstd::pervasive::cloned::<V>(self.entries@[j].1, #[trigger] entries@[j].1),
            decreases n - i,
        {
            let k = self.entries[i].0.clone();
            let v = self.entries[i].1.clone();
            entries.push((k, v));
            i = i + 1;
        }
        proof {
            assert(keys_of(entries@) =~= keys_of(self.entries@));
        }
        let res = StrMap { entries };
        proof {
            assert forall|k: Seq<char>| #![auto] res@.dom().contains(k) <==> self@.dom().contains(k) by {
                if res.has_key(k) {
                    let j = res.index_of(k);
                    assert(self.entries@[j].0@ == k);
                }
                if self.has_key(k) {
                    let j = self.index_of(k);
                    assert(res.entries@[j].0@ == k);
                }
            }
            assert(res@.dom() =~= self@.dom());
            assert forall|k: Seq<char>| #[trigger] self@.dom().contains(k) implies vstd::pervasive::cloned::<V>(self@[k], res@[k]) by {
                let j = self.index_of(k);
                self.lemma_view_at(j);
                res.lemma_view_at(j);
            }
        }
        res
    }
}

/// What a read gives back of a write: where `after` is `before` with `v`
/// put under `k` (what [`StrMap::insert`] makes of it), [`StrMap::get`] of
/// `k` gives `v`, every other key reads as before, and the map grows by one
/// entry exactly when `k` was new.
pub proof fn law_read_after_insert<V>(before: &StrMap<V>, after: &StrMap<V>, k: Seq<char>, v: V, other: Seq<char>)
    requires
        before.wf(),
        after.wf(),
        after@ == before@.insert(k, v),
    ensures
        after@.dom().contains(k),
        after@[k] == v,
        other != k ==> after@.dom().contains(other) == before@.dom().contains(other),
        other != k && before@.dom().contains(other) ==> after@[other] == before@[other],
        after@.len() == before@.len() + (if before@.dom().contains(k) { 0int } else { 1int }),
{
    before.law_key_list();
    after.law_key_list();
    assert(before@.dom() =~= before.key_list().to_set());
    vstd::seq_lib::seq_to_set_is_finite(before.key_list());
    if before@.dom().contains(k) {
        assert(after@.dom() =~= before@.dom());
    } else {
        assert(after@.dom() =~= before@.dom().insert(k));
    }
}

/// After `k` is taken out (what [`StrMap::remove`] makes of `before`),
/// [`StrMap::get`] of `k` finds nothing, every other key reads as before,
/// and the map shrinks by one entry exactly when `k` was there.
pub proof fn law_read_after_remove<V>(before: &StrMap<V>, after: &StrMap<V>, k: Seq<char>, other: Seq<char>)
    requires
        before.wf(),
        after.wf(),
        after@ == before@.remove(k),
    ensures
        !after@.dom().contains(k),
        other != k ==> after@.dom().contains(other) == before@.dom().contains(other),
        other != k && before@.dom().contains(other) ==> after@[other] == before@[other],
        after@.len() + (if before@.dom().contains(k) { 1int } else { 0int }) == before@.len(),
{
    before.law_key_list();
    after.law_key_list();
    assert(before@.dom() =~= before.key_list().to_set());
    vstd::seq_lib::seq_to_set_is_finite(before.key_list());
    if before@.dom().contains(k) {
        assert(after@.dom() =~= before@.dom().remove(k));
    } else {
        assert(after@.dom() =~= before@.dom());
    }
}

} // verus!
