use vstd::prelude::*;

verus! {

/// A map from byte strings to values, kept as two parallel vectors with no
/// key twice. Looking up compares keys by content.
pub struct Table<T> {
    keys: Vec<Vec<u8>>,
    values: Vec<T>,
}

impl<T> Table<T> {
    pub closed spec fn wf(&self) -> bool {
        &&& self.keys@.len() == self.values@.len()
        &&& forall|i: int, j: int|
            0 <= i < self.keys@.len() && 0 <= j < self.keys@.len() && i != j
                ==> #[trigger] self.keys@[i]@ != #[trigger] self.keys@[j]@
    }

    /// Whether `k` is a key, at some position.
    pub closed spec fn has(&self, k: Seq<u8>) -> bool {
        exists|i: int| 0 <= i < self.keys@.len() && #[trigger] self.keys@[i]@ == k
    }

    pub closed spec fn pos(&self, k: Seq<u8>) -> int {
        choose|i: int| 0 <= i < self.keys@.len() && #[trigger] self.keys@[i]@ == k
    }

    /// The table as a map from key contents to values.
    pub closed spec fn view(&self) -> Map<Seq<u8>, T> {
        Map::new(|k: Seq<u8>| self.has(k), |k: Seq<u8>| self.values@[self.pos(k)])
    }

    proof fn lemma_found(&self, i: int)
        requires
            self.wf(),
            0 <= i < self.keys@.len(),
        ensures
            self.view().contains_key(self.keys@[i]@),
            self.view()[self.keys@[i]@] == self.values@[i],
    {
        let k = self.keys@[i]@;
        assert(self.has(k));
        let j = self.pos(k);
        assert(self.keys@[j]@ == k);
    }

    /// Replacing the value at a key's position replaces that key's value.
    proof fn lemma_update_view(&self, i: int, v: T)
        requires
            self.wf(),
            0 <= i < self.keys@.len(),
        ensures
            forall|t: Table<T>| #![trigger t.view()]
                t.keys@ == self.keys@ && t.values@ == self.values@.update(i, v)
                    ==> t.wf() && t.view() == self.view().insert(self.keys@[i]@, v),
    {
        assert forall|t: Table<T>| #![trigger t.view()]
            t.keys@ == self.keys@ && t.values@ == self.values@.update(i, v)
                implies t.wf() && t.view() == self.view().insert(self.keys@[i]@, v) by {
            let k = self.keys@[i]@;
            assert forall|key: Seq<u8>| #[trigger] t.view().contains_key(key) <==> self.view().insert(k, v).contains_key(key) by {
                if key == k {
                    assert(t.has(key));
                    assert(self.has(key));
                }
                if t.has(key) {
                    let j = t.pos(key);
                    assert(self.keys@[j]@ == key);
                }
                if self.has(key) {
                    let j = self.pos(key);
                    assert(t.keys@[j]@ == key);
                }
            }
            assert forall|key: Seq<u8>| t.view().contains_key(key) implies #[trigger] t.view()[key] == self.view().insert(k, v)[key] by {
                let j = t.pos(key);
                assert(t.keys@[j]@ == key);
                t.lemma_found(j);
                if key == k {
                    t.lemma_found(i);
                } else {
                    assert(j != i);
                    self.lemma_found(j);
                }
            }
            assert(t.view() =~= self.view().insert(k, v));
        }
    }

    pub fn new() -> (t: Self)
        ensures
            t.wf(),
            t.view() == Map::<Seq<u8>, T>::empty(),
    {
        let t = Table { keys: Vec::new(), values: Vec::new() };
        assert(t.view() =~= Map::<Seq<u8>, T>::empty());
        t
    }

    /// Position of the key `k`, if it is one.
    fn find(&self, k: &[u8]) -> (r: Option<usize>)
        requires
            self.wf(),
        ensures
            match r {
                Some(i) => i < self.keys@.len() && self.keys@[i as int]@ == k@,
                None => !self.view().contains_key(k@),
            },
    {
        let mut i: usize = 0;
        while i < self.keys.len()
            invariant
                self.wf(),
                i <= self.keys@.len(),
                forall|j: int| 0 <= j < i ==> self.keys@[j]@ != k@,
            decreases self.keys@.len() - i,
        {
            if slice_eq(self.keys[i].as_slice(), k) {
                return Some(i);
            }
            i = i + 1;
        }
        None
    }

    pub fn get(&self, k: &[u8]) -> (r: Option<&T>)
        requires
            self.wf(),
        ensures
            match r {
                Some(v) => self.view().contains_key(k@) && *v == self.view()[k@],
                None => !self.view().contains_key(k@),
            },
    {
        match self.find(k) {
            Some(i) => {
                proof { self.lemma_found(i as int); }
                Some(&self.values[i])
            },
            None => None,
        }
    }

    /// A handle to the value of `k`, through which it can be changed.
    pub fn get_mut(&mut self, k: &[u8]) -> (r: Option<&mut T>)
        requires
            old(self).wf(),
        ensures
            final(self).wf(),
            match r {
                Some(v) => {
                    &&& old(self).view().contains_key(k@)
                    &&& *v == old(self).view()[k@]
                    &&& final(self).view() == old(self).view().insert(k@, *final(v))
                },
                None => !old(self).view().contains_key(k@) && final(self).view() == old(self).view(),
            },
    {
        match self.find(k) {
            Some(i) => {
                proof { self.lemma_found(i as int); }
                let ghost old_t = *self;
                let r = &mut self.values[i];
                proof {
                    old_t.lemma_update_view(i as int, *final(r));
                }
                Some(r)
            },
            None => None,
        }
    }

    /// Adds or replaces the value of `k`.
    pub fn insert(&mut self, k: &[u8], v: T)
        requires
            old(self).wf(),
        ensures
            final(self).wf(),
            final(self).view() == old(self).view().insert(k@, v),
    {
        match self.find(k) {
            Some(i) => {
                let ghost old_t = *self;
                self.values.set(i, v);
                proof {
                    assert(self.keys@ == old_t.keys@);
                    assert forall|key: Seq<u8>| #[trigger] self.view().contains_key(key) <==> old_t.view().insert(k@, v).contains_key(key) by {
                        if key == k@ {
                            assert(self.has(key));
                        }
                    }
                    assert forall|key: Seq<u8>| self.view().contains_key(key) implies #[trigger] self.view()[key] == old_t.view().insert(k@, v)[key] by {
                        if key == k@ {
                            self.lemma_found(i as int);
                        } else {
                            let j = self.pos(key);
                            assert(j != i);
                            old_t.lemma_found(j);
                        }
                    }
                    assert(self.view() =~= old_t.view().insert(k@, v));
                }
            },
            None => {
                let ghost old_t = *self;
                self.keys.push(vstd::slice::slice_to_vec(k));
                self.values.push(v);
                proof {
                    let n = old_t.keys@.len() as int;
                    assert(self.keys@[n]@ == k@);
                    assert forall|a: int| 0 <= a < n implies #[trigger] self.keys@[a] == old_t.keys@[a] by {}
                    assert forall|key: Seq<u8>| #[trigger] self.view().contains_key(key) <==> old_t.view().insert(k@, v).contains_key(key) by {
                        if key == k@ {
                            assert(self.has(key));
                        } else if self.has(key) {
                            let j = self.pos(key);
                            assert(old_t.keys@[j]@ == key);
                            assert(old_t.has(key));
                        } else if old_t.has(key) {
                            let j = old_t.pos(key);
                            assert(self.keys@[j]@ == key);
                        }
                    }
                    assert forall|key: Seq<u8>| self.view().contains_key(key) implies #[trigger] self.view()[key] == old_t.view().insert(k@, v)[key] by {
                        if key == k@ {
                            self.lemma_found(n);
                        } else {
                            let j = self.pos(key);
                            assert(j != n);
                            assert(old_t.keys@[j]@ == key);
                            old_t.lemma_found(j);
                            self.lemma_found(j);
                        }
                    }
                    assert(self.view() =~= old_t.view().insert(k@, v));
                }
            },
        }
    }
}

/// Whether two byte strings are equal.
pub fn slice_eq(a: &[u8], b: &[u8]) -> (r: bool)
    ensures
        r == (a@ == b@),
{
    if a.len() != b.len() {
        return false;
    }
    let mut i: usize = 0;
    while i < a.len()
        invariant
            a@.len() == b@.len(),
            i <= a@.len(),
            forall|j: int| 0 <= j < i ==> a@[j] == b@[j],
        decreases a@.len() - i,
    {
        if a[i] != b[i] {
            return false;
        }
        i = i + 1;
    }
    assert(a@ =~= b@);
    true
}

} // verus!
