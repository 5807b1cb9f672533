//! The per-client state store: a mapping from client key to a per-client
//! accounting record. A record is created lazily on a client's first request
//! and is never evicted, so the key set only grows.

use vstd::prelude::*;

verus! {

/// An association list from client keys to per-client records.
///
/// Keys are pairwise distinct; the abstract view is the finite
/// `Map<Seq<char>, V>` holding one record per known client.
pub struct ClientMap<V> {
    pairs: Vec<(String, V)>,
}

impl<V> ClientMap<V> {
    /// Well-formed: no two entries share a key.
    pub closed spec fn wf(&self) -> bool {
        forall|i: int, j: int|
            0 <= i < j < self.pairs@.len() ==> self.pairs@[i].0@ != self.pairs@[j].0@
    }

    spec fn contains_key(&self, k: Seq<char>) -> bool {
        exists|i: int| 0 <= i < self.pairs@.len() && self.pairs@[i].0@ == k
    }

    spec fn index_of(&self, k: Seq<char>) -> int {
        choose|i: int| 0 <= i < self.pairs@.len() && self.pairs@[i].0@ == k
    }

    spec fn spec_get(&self, k: Seq<char>) -> V {
        self.pairs@[self.index_of(k)].1
    }
}

impl<V> View for ClientMap<V> {
    type V = Map<Seq<char>, V>;

    closed spec fn view(&self) -> Map<Seq<char>, V> {
        Map::new(|k: Seq<char>| self.contains_key(k), |k: Seq<char>| self.spec_get(k))
    }
}

impl<V> ClientMap<V> {
    /// In a well-formed map the entry at any index is the one its key maps to.
    proof fn lemma_entry_determined(&self, i: int)
        requires
            self.wf(),
            0 <= i < self.pairs@.len(),
        ensures
            self.contains_key(self.pairs@[i].0@),
            self.index_of(self.pairs@[i].0@) == i,
            self@[self.pairs@[i].0@] == self.pairs@[i].1,
    {
        let k = self.pairs@[i].0@;
        assert(0 <= i < self.pairs@.len() && self.pairs@[i].0@ == k);
        let j = self.index_of(k);
        if j != i {
            if j < i {
                assert(self.pairs@[j].0@ != self.pairs@[i].0@);
            } else {
                assert(self.pairs@[i].0@ != self.pairs@[j].0@);
            }
        }
    }

    pub fn new() -> (m: Self)
        ensures
            m.wf(),
            m@ == Map::<Seq<char>, V>::empty(),
    {
        let m = ClientMap { pairs: Vec::new() };
        proof {
            assert(m@ =~= Map::<Seq<char>, V>::empty());
        }
        m
    }

    fn find(&self, ip: &String) -> (r: Option<usize>)
        requires
            self.wf(),
        ensures
            match r {
                Some(i) => i < self.pairs@.len() && self.pairs@[i as int].0@ == ip@,
                None => !self.contains_key(ip@),
            },
    {
        let n = self.pairs.len();
        let mut i: usize = 0;
        while i < n
            invariant
                n == self.pairs@.len(),
                i <= n,
                forall|j: int| 0 <= j < i ==> self.pairs@[j].0@ != ip@,
            decreases n - i,
        {
            if self.pairs[i].0 == *ip {
                return Some(i);
            }
            i = i + 1;
        }
        None
    }

    /// Whether this client already has a record.
    pub fn contains(&self, ip: &String) -> (b: bool)
        requires
            self.wf(),
        ensures
            b == self@.dom().contains(ip@),
    {
        match self.find(ip) {
            Some(i) => {
                proof {
                    self.lemma_entry_determined(i as int);
                }
                true
            },
            None => false,
        }
    }

    /// The client's record, if the client is known.
    pub fn get(&self, ip: &String) -> (r: Option<&V>)
        requires
            self.wf(),
        ensures
            match r {
                Some(v) => self@.dom().contains(ip@) && *v == self@[ip@],
                None => !self@.dom().contains(ip@),
            },
    {
        match self.find(ip) {
            Some(i) => {
                proof {
                    self.lemma_entry_determined(i as int);
                }
                Some(&self.pairs[i].1)
            },
            None => None,
        }
    }

    /// Insert or replace the client's record.
    pub fn insert(&mut self, ip: &String, v: V)
        requires
            old(self).wf(),
        ensures
            final(self).wf(),
            final(self)@ == old(self)@.insert(ip@, v),
    {
        match self.find(ip) {
            Some(i) => {
                let key = ip.clone();
                self.pairs[i] = (key, v);
                proof {
                    assert forall|p: int, q: int|
                        0 <= p < q < self.pairs@.len() implies self.pairs@[p].0@
                        != self.pairs@[q].0@ by {
                        assert(old(self).pairs@[p].0@ != old(self).pairs@[q].0@);
                    }
                    assert forall|k: Seq<char>| #[trigger] self.contains_key(k) implies old(
                        self,
                    ).contains_key(k) by {
                        let w = choose|w: int|
                            0 <= w < self.pairs@.len() && self.pairs@[w].0@ == k;
                        assert(old(self).pairs@[w].0@ == k);
                    }
                    assert forall|k: Seq<char>| #[trigger] old(self).contains_key(k) implies self
                        .contains_key(k) by {
                        let w = choose|w: int|
                            0 <= w < old(self).pairs@.len() && old(self).pairs@[w].0@ == k;
                        assert(self.pairs@[w].0@ == k);
                    }
                    assert forall|k: Seq<char>| self.contains_key(k) && k != ip@ implies self@[k]
                        == old(self)@[k] by {
                        let w = self.index_of(k);
                        assert(self.pairs@[w].0@ == k);
                        assert(w != i as int);
                        assert(old(self).pairs@[w].0@ == k);
                        old(self).lemma_entry_determined(w);
                        self.lemma_entry_determined(w);
                    }
                    self.lemma_entry_determined(i as int);
                    assert(self@ =~= old(self)@.insert(ip@, v));
                }
            },
            None => {
                let key = ip.clone();
                self.pairs.push((key, v));
                proof {
                    let n = old(self).pairs@.len() as int;
                    assert forall|p: int, q: int|
                        0 <= p < q < self.pairs@.len() implies self.pairs@[p].0@
                        != self.pairs@[q].0@ by {
                        if q < n {
                            assert(old(self).pairs@[p].0@ != old(self).pairs@[q].0@);
                        } else {
                            assert(self.pairs@[q].0@ == ip@);
                            assert(old(self).pairs@[p].0@ != ip@) by {
                                assert(!old(self).contains_key(ip@));
                            }
                        }
                    }
                    assert forall|k: Seq<char>| #[trigger] self.contains_key(k) implies old(
                        self,
                    ).contains_key(k) || k == ip@ by {
                        let w = choose|w: int|
                            0 <= w < self.pairs@.len() && self.pairs@[w].0@ == k;
                        if w < n {
                            assert(old(self).pairs@[w].0@ == k);
                        }
                    }
                    assert forall|k: Seq<char>| #[trigger] old(self).contains_key(k) implies self
                        .contains_key(k) by {
                        let w = choose|w: int|
                            0 <= w < old(self).pairs@.len() && old(self).pairs@[w].0@ == k;
                        assert(self.pairs@[w].0@ == k);
                    }
                    assert(self.pairs@[n].0@ == ip@);
                    assert(self.contains_key(ip@));
                    assert forall|k: Seq<char>| self.contains_key(k) && k != ip@ implies self@[k]
                        == old(self)@[k] by {
                        let w = self.index_of(k);
                        assert(self.pairs@[w].0@ == k);
                        assert(w != n);
                        assert(old(self).pairs@[w].0@ == k);
                        old(self).lemma_entry_determined(w);
                        self.lemma_entry_determined(w);
                    }
                    self.lemma_entry_determined(n);
                    assert(self@ =~= old(self)@.insert(ip@, v));
                }
            },
        }
    }
}

} // verus!
