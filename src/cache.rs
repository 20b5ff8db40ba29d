use vstd::prelude::*;

verus! {

/// An in-memory mapping from key to encoded value, each key held once.
pub struct Cache {
    entries: Vec<(String, String)>,
    model: Ghost<Map<Seq<char>, Seq<char>>>,
}

impl View for Cache {
    type V = Map<Seq<char>, Seq<char>>;

    closed spec fn view(&self) -> Map<Seq<char>, Seq<char>> {
        self.model@
    }
}

impl Cache {
    /// The entries hold distinct keys, and hold exactly the mapping of the view.
    pub closed spec fn wf(&self) -> bool {
        &&& forall|i: int, j: int|
            0 <= i < j < self.entries@.len() ==> (#[trigger] self.entries@[i]).0@ != (
            #[trigger] self.entries@[j]).0@
        &&& forall|i: int|
            0 <= i < self.entries@.len() ==> self.model@.contains_key(
                (#[trigger] self.entries@[i]).0@,
            ) && self.model@[self.entries@[i].0@] == self.entries@[i].1@
        &&& forall|k: Seq<char>|
            #[trigger] self.model@.contains_key(k) ==> exists|i: int|
                0 <= i < self.entries@.len() && (#[trigger] self.entries@[i]).0@ == k
    }

    pub fn new() -> (r: Cache)
        ensures
            r.wf(),
            r@ == Map::<Seq<char>, Seq<char>>::empty(),
    {
        Cache { entries: Vec::new(), model: Ghost(Map::empty()) }
    }

    fn find(&self, key: &String) -> (r: Option<usize>)
        requires
            self.wf(),
        ensures
            match r {
                Some(i) => i < self.entries@.len() && self.entries@[i as int].0@ == key@,
                None => !self@.contains_key(key@),
            },
    {
        let mut i: usize = 0;
        while i < self.entries.len()
            invariant
                self.wf(),
                i <= self.entries@.len(),
                forall|j: int| 0 <= j < i ==> (#[trigger] self.entries@[j]).0@ != key@,
            decreases self.entries@.len() - i,
        {
            if self.entries[i].0 == *key {
                return Some(i);
            }
            i = i + 1;
        }
        None
    }

    /// The value held under `key`, if any.
    pub fn get(&self, key: &String) -> (r: Option<&String>)
        requires
            self.wf(),
        ensures
            match r {
                Some(v) => self@.contains_key(key@) && v@ == self@[key@],
                None => !self@.contains_key(key@),
            },
    {
        match self.find(key) {
            Some(i) => Some(&self.entries[i].1),
            None => None,
        }
    }

    /// Holds `value` under `key`, replacing any earlier value.
    pub fn insert(&mut self, key: String, value: String)
        requires
            old(self).wf(),
        ensures
            final(self).wf(),
            final(self)@ == old(self)@.insert(key@, value@),
    {
        let ghost m = self.model@.insert(key@, value@);
        let ghost k0 = key@;
        let ghost mut at: int = old(self).entries@.len() as int;
        match self.find(&key) {
            Some(i) => {
                proof {
                    at = i as int;
                }
                self.entries.set(i, (key, value));
            },
            None => {
                self.entries.push((key, value));
            },
        }
        self.model = Ghost(m);
        assert forall|k: Seq<char>| #[trigger] self.model@.contains_key(k) implies exists|i: int|
            0 <= i < self.entries@.len() && (#[trigger] self.entries@[i]).0@ == k by {
            if k != k0 {
                let j = choose|j: int|
                    0 <= j < old(self).entries@.len() && (#[trigger] old(self).entries@[j]).0@
                        == k;
                assert(self.entries@[j] == old(self).entries@[j]);
            } else {
                assert(self.entries@[at].0@ == k);
            }
        }
    }

    /// Drops whatever is held under `key`.
    pub fn remove(&mut self, key: &String)
        requires
            old(self).wf(),
        ensures
            final(self).wf(),
            final(self)@ == old(self)@.remove(key@),
    {
        let ghost m = self.model@.remove(key@);
        match self.find(key) {
            Some(i) => {
                self.entries.remove(i);
                proof {
                    let o = old(self).entries@;
                    let e = self.entries@;
                    assert forall|j: int| 0 <= j < e.len() implies #[trigger] e[j] == (if j < i {
                        o[j]
                    } else {
                        o[j + 1]
                    }) by {}
                    assert forall|k: Seq<char>| #[trigger] m.contains_key(k) implies exists|j: int|
                        0 <= j < e.len() && (#[trigger] e[j]).0@ == k by {
                        assert(old(self).model@.contains_key(k));
                        let j = choose|j: int| 0 <= j < o.len() && (#[trigger] o[j]).0@ == k;
                        if j < i {
                            assert(e[j] == o[j]);
                        } else {
                            assert(j != i);
                            assert(e[j - 1] == o[j]);
                        }
                    }
                    assert forall|a: int, b: int| 0 <= a < b < e.len() implies (#[trigger] e[a]).0@
                        != (#[trigger] e[b]).0@ by {
                        let a2 = if a < i {
                            a
                        } else {
                            a + 1
                        };
                        let b2 = if b < i {
                            b
                        } else {
                            b + 1
                        };
                        assert(e[a] == o[a2] && e[b] == o[b2]);
                        assert(o[a2].0@ != o[b2].0@);
                    }
                    assert forall|j: int| 0 <= j < e.len() implies m.contains_key(
                        (#[trigger] e[j]).0@,
                    ) && m[e[j].0@] == e[j].1@ by {
                        let j2 = if j < i {
                            j
                        } else {
                            j + 1
                        };
                        assert(e[j] == o[j2]);
                        assert(o[j2].0@ != o[i as int].0@);
                    }
                }
                self.model = Ghost(m);
                assert(self.wf());
            },
            None => {
                assert(m =~= self.model@);
                self.model = Ghost(m);
                assert(self.wf());
            },
        }
    }
}

} // verus!
