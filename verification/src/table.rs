//! A small map keyed by text. Entries keep the order in which their keys were
//! first inserted.

use vstd::prelude::*;

use crate::text::{lemma_views_push, same_text, views};

verus! {

/// A map from text to `V`; no key occurs twice.
pub struct StrMap<V> {
    keys: Vec<String>,
    vals: Vec<V>,
}

/// Where `k` stands among the keys.
pub open spec fn position(order: Seq<Seq<char>>, k: Seq<char>) -> int {
    choose|i: int| 0 <= i < order.len() && order[i] == k
}

impl<V: View> View for StrMap<V> {
    type V = Map<Seq<char>, V::V>;

    closed spec fn view(&self) -> Map<Seq<char>, V::V> {
        Map::new(
            |k: Seq<char>| views(self.keys@).contains(k),
            |k: Seq<char>| self.vals@[position(views(self.keys@), k)]@,
        )
    }
}

impl<V: View> StrMap<V> {
    /// One value for each key, and no key twice.
    pub closed spec fn wf(&self) -> bool {
        &&& self.keys@.len() == self.vals@.len()
        &&& views(self.keys@).no_duplicates()
    }

    /// The keys in the order of their first insertion.
    pub closed spec fn order(&self) -> Seq<Seq<char>> {
        views(self.keys@)
    }

    /// The keys are the domain of the map, each listed once.
    pub proof fn lemma_order(&self)
        requires
            self.wf(),
        ensures
            self.order().no_duplicates(),
            self@.dom() == self.order().to_set(),
            self@.dom().finite(),
            self@.dom().len() == self.order().len(),
    {
        assert(self@.dom() =~= self.order().to_set());
        self.order().unique_seq_to_set();
    }

    proof fn lemma_at(&self, i: int)
        requires
            self.wf(),
            0 <= i < self.keys@.len(),
        ensures
            self@.dom().contains(self.order()[i]),
            self@[self.order()[i]] == self.vals@[i]@,
    {
        let order = self.order();
        assert(order[i] == order[i]);
        let p = position(order, order[i]);
        assert(0 <= p < order.len() && order[p] == order[i]);
        assert(p == i);
    }

    pub fn new() -> (r: Self)
        ensures
            r.wf(),
            r@ == Map::<Seq<char>, V::V>::empty(),
            r.order() == Seq::<Seq<char>>::empty(),
    {
        let r = StrMap { keys: Vec::new(), vals: Vec::new() };
        assert(r@ =~= Map::<Seq<char>, V::V>::empty());
        assert(r.order() =~= Seq::<Seq<char>>::empty());
        r
    }

    pub fn len(&self) -> (r: usize)
        requires
            self.wf(),
        ensures
            r == self.order().len(),
            r == self@.dom().len(),
    {
        proof {
            self.lemma_order();
        }
        self.keys.len()
    }

    fn find(&self, k: &str) -> (r: Option<usize>)
        requires
            self.wf(),
        ensures
            match r {
                Some(i) => i < self.keys@.len() && self.keys@[i as int]@ == k@,
                None => !views(self.keys@).contains(k@),
            },
    {
        let mut i: usize = 0;
        while i < self.keys.len()
            invariant
                i <= self.keys@.len(),
                forall|j: int| 0 <= j < i ==> (#[trigger] self.keys@[j])@ != k@,
            decreases self.keys@.len() - i,
        {
            if same_text(self.keys[i].as_str(), k) {
                return Some(i);
            }
            i = i + 1;
        }
        proof {
            if views(self.keys@).contains(k@) {
                let j = position(views(self.keys@), k@);
                assert(self.keys@[j]@ == k@);
            }
        }
        None
    }

    pub fn get(&self, k: &str) -> (r: Option<&V>)
        requires
            self.wf(),
        ensures
            match r {
                Some(v) => self@.dom().contains(k@) && v@ == self@[k@],
                None => !self@.dom().contains(k@),
            },
    {
        match self.find(k) {
            Some(i) => {
                proof {
                    self.lemma_at(i as int);
                }
                Some(&self.vals[i])
            },
            None => None,
        }
    }

    pub fn contains_key(&self, k: &str) -> (r: bool)
        requires
            self.wf(),
        ensures
            r == self@.dom().contains(k@),
    {
        match self.get(k) {
            Some(_) => true,
            None => false,
        }
    }

    /// The key at a place in the insertion order.
    pub fn key_at(&self, i: usize) -> (r: &String)
        requires
            self.wf(),
            i < self.order().len(),
        ensures
            r@ == self.order()[i as int],
            self@.dom().contains(r@),
    {
        proof {
            self.lemma_at(i as int);
        }
        &self.keys[i]
    }

    /// The value at a place in the insertion order.
    pub fn value_at(&self, i: usize) -> (r: &V)
        requires
            self.wf(),
            i < self.order().len(),
        ensures
            self@.dom().contains(self.order()[i as int]),
            r@ == self@[self.order()[i as int]],
    {
        proof {
            self.lemma_at(i as int);
        }
        &self.vals[i]
    }

    pub fn insert(&mut self, k: String, v: V)
        requires
            old(self).wf(),
        ensures
            final(self).wf(),
            final(self)@ == old(self)@.insert(k@, v@),
    {
        let ghost before = *self;
        match self.find(k.as_str()) {
            Some(i) => {
                self.vals.set(i, v);
                proof {
                    assert(self.keys@ == before.keys@);
                    assert(self.order()[i as int] == k@);
                    assert forall|q: Seq<char>| self@.dom().contains(q) implies self@[q]
                        == before@.insert(k@, v@)[q] by {
                        let p = position(self.order(), q);
                        assert(0 <= p < self.order().len() && self.order()[p] == q);
                        if q == k@ {
                            assert(p == i);
                        } else {
                            assert(p != i);
                        }
                    }
                    assert(self@ =~= before@.insert(k@, v@));
                }
            },
            None => {
                let ghost key = k@;
                let ghost value = v@;
                let ghost n = self.keys@.len();
                proof {
                    lemma_views_push(self.keys@, k);
                }
                self.keys.push(k);
                self.vals.push(v);
                proof {
                    let old_order = before.order();
                    let new_order = self.order();
                    assert(new_order == old_order.push(key));
                    assert forall|q: Seq<char>| old_order.contains(q) || q == key implies
                        new_order.contains(q) by {
                        if q == key {
                            assert(new_order[n as int] == q);
                        } else {
                            let p = position(old_order, q);
                            assert(new_order[p] == q);
                        }
                    }
                    assert forall|q: Seq<char>| self@.dom().contains(q) implies self@[q]
                        == before@.insert(key, value)[q] by {
                        let p = position(new_order, q);
                        assert(0 <= p < new_order.len() && new_order[p] == q);
                        if q != key {
                            assert(p < n);
                            assert(old_order[p] == q);
                            before.lemma_at(p);
                        }
                    }
                    assert(self@.dom() =~= before@.insert(key, value).dom());
                    assert(self@ =~= before@.insert(key, value));
                }
            },
        }
    }

    /// Drop the entry at a place in the insertion order.
    pub fn remove_at(&mut self, i: usize)
        requires
            old(self).wf(),
            i < old(self).order().len(),
        ensures
            final(self).wf(),
            final(self)@ == old(self)@.remove(old(self).order()[i as int]),
            final(self).order() == old(self).order().remove(i as int),
    {
        let ghost before = *self;
        self.keys.remove(i);
        self.vals.remove(i);
        proof {
            let old_order = before.order();
            let new_order = self.order();
            let key = old_order[i as int];
            assert(new_order =~= old_order.remove(i as int));
            assert forall|q: Seq<char>| new_order.contains(q) == (old_order.contains(q) && q
                != key) by {
                if new_order.contains(q) {
                    let p = position(new_order, q);
                    let o = if p < i {
                        p
                    } else {
                        p + 1
                    };
                    assert(old_order[o] == q);
                }
                if old_order.contains(q) && q != key {
                    let o = position(old_order, q);
                    let p = if o < i {
                        o
                    } else {
                        o - 1
                    };
                    assert(new_order[p] == q);
                }
            }
            assert forall|q: Seq<char>| self@.dom().contains(q) implies self@[q]
                == before@.remove(key)[q] by {
                let p = position(new_order, q);
                assert(0 <= p < new_order.len() && new_order[p] == q);
                let o = if p < i {
                    p
                } else {
                    p + 1
                };
                assert(old_order[o] == q);
                before.lemma_at(o);
            }
            assert(self@.dom() =~= before@.remove(key).dom());
            assert(self@ =~= before@.remove(key));
        }
    }

    pub fn remove(&mut self, k: &str)
        requires
            old(self).wf(),
        ensures
            final(self).wf(),
            final(self)@ == old(self)@.remove(k@),
    {
        match self.find(k) {
            Some(i) => {
                assert(self.order()[i as int] == k@);
                self.remove_at(i);
            },
            None => {
                assert(self@.remove(k@) =~= self@);
            },
        }
    }
}

} // verus!
