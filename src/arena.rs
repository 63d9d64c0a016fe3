use vstd::prelude::*;

verus! {

/// A stable handle into an [`Arena`]: the index of a slot and the generation that
/// slot had when the value was stored. A slot that is freed and reused gets a new
/// generation, so a handle to a removed value never reaches its successor.
#[derive(Clone, Copy, PartialEq, Eq, Structural, Debug, Hash)]
pub struct Key {
    pub index: usize,
    pub generation: u64,
}

struct Slot<V> {
    generation: u64,
    value: Option<V>,
}

/// A generational arena: values stored in reusable slots, addressed by [`Key`].
pub struct Arena<V> {
    slots: Vec<Slot<V>>,
    free: Vec<usize>,
    count: usize,
    contents: Ghost<Map<Key, V>>,
}

impl<V> View for Arena<V> {
    type V = Map<Key, V>;

    closed spec fn view(&self) -> Map<Key, V> {
        self.contents@
    }
}

impl<V> Arena<V> {
    /// Whether slot `k.index` exists, is occupied, and has generation `k.generation`.
    closed spec fn holds(&self, k: Key) -> bool {
        &&& k.index < self.slots@.len()
        &&& self.slots@[k.index as int].generation == k.generation
        &&& self.slots@[k.index as int].value is Some
    }

    /// The arena's internal invariant.
    pub closed spec fn wf(&self) -> bool {
        &&& self.contents@.dom().finite()
        &&& self.count == self.contents@.len()
        &&& forall|k: Key|
            #![trigger self.contents@.contains_key(k)]
            #![trigger self.holds(k)]
            self.contents@.contains_key(k) <==> self.holds(k)
        &&& forall|k: Key| #[trigger]
            self.contents@.contains_key(k) ==> self.contents@[k]
                == self.slots@[k.index as int].value->Some_0
        &&& forall|j: int|
            0 <= j < self.free@.len() ==> {
                &&& (#[trigger] self.free@[j] as int) < self.slots@.len()
                &&& self.slots@[self.free@[j] as int].value is None
            }
        &&& forall|a: int, b: int|
            0 <= a < b < self.free@.len() ==> #[trigger] self.free@[a] != #[trigger] self.free@[b]
    }

    /// The number of values stored.
    pub open spec fn spec_len(&self) -> nat {
        self@.len()
    }

    /// An arena that stores something is not empty.
    pub proof fn lemma_nonempty(&self, k: Key)
        requires
            self.wf(),
            self@.contains_key(k),
        ensures
            self.spec_len() >= 1,
    {
        assert(self.contents@.dom().remove(k).len() + 1 == self.contents@.dom().len());
    }

    /// An arena holds finitely many values.
    pub proof fn lemma_finite(&self)
        requires
            self.wf(),
        ensures
            self@.dom().finite(),
    {
    }

    /// An empty arena.
    pub fn new() -> (r: Self)
        ensures
            r.wf(),
            r@ == Map::<Key, V>::empty(),
            r.spec_len() == 0,
    {
        Arena { slots: Vec::new(), free: Vec::new(), count: 0, contents: Ghost(Map::empty()) }
    }

    /// The number of values stored.
    pub fn len(&self) -> (r: usize)
        requires
            self.wf(),
        ensures
            r == self.spec_len(),
            r == self@.len(),
    {
        self.count
    }

    /// Whether `k` addresses a stored value.
    pub fn contains(&self, k: Key) -> (r: bool)
        requires
            self.wf(),
        ensures
            r == self@.contains_key(k),
    {
        k.index < self.slots.len() && self.slots[k.index].generation == k.generation
            && self.slots[k.index].value.is_some()
    }

    /// Stores `v` under a key that addresses no stored value, and returns that key.
    pub fn insert(&mut self, v: V) -> (k: Key)
        requires
            old(self).wf(),
            old(self).spec_len() < usize::MAX,
        ensures
            final(self).wf(),
            !old(self)@.contains_key(k),
            final(self)@ == old(self)@.insert(k, v),
            final(self).spec_len() == old(self).spec_len() + 1,
    {
        let ghost v_spec = v;
        if self.free.len() > 0 {
            let index = self.free.pop().unwrap();
            let generation = self.slots[index].generation;
            let k = Key { index, generation };
            assert(!self.holds(k));
            self.slots.set(index, Slot { generation, value: Some(v) });
            self.contents = Ghost(self.contents@.insert(k, v_spec));
            self.count = self.count + 1;
            assert forall|j: int| 0 <= j < self.free@.len() implies {
                &&& (#[trigger] self.free@[j] as int) < self.slots@.len()
                &&& self.slots@[self.free@[j] as int].value is None
            } by {
                assert(old(self).free@[j] != old(self).free@[old(self).free@.len() - 1]);
            }
            assert forall|q: Key|
                #![trigger self.contents@.contains_key(q)]
                #![trigger self.holds(q)]
                self.contents@.contains_key(q) <==> self.holds(q) by {
                if q.index != index {
                    assert(old(self).holds(q) == self.holds(q));
                }
            }
            k
        } else {
            let index = self.slots.len();
            let k = Key { index, generation: 0 };
            assert(!old(self)@.contains_key(k));
            self.slots.push(Slot { generation: 0, value: Some(v) });
            self.contents = Ghost(self.contents@.insert(k, v_spec));
            self.count = self.count + 1;
            assert forall|q: Key|
                #![trigger self.contents@.contains_key(q)]
                #![trigger self.holds(q)]
                self.contents@.contains_key(q) <==> self.holds(q) by {
                if q.index != index {
                    assert(old(self).holds(q) == self.holds(q));
                }
            }
            k
        }
    }

    /// The value stored under `k`.
    pub fn get(&self, k: Key) -> (r: &V)
        requires
            self.wf(),
            self@.contains_key(k),
        ensures
            *r == self@[k],
    {
        assert(self.holds(k));
        self.slots[k.index].value.as_ref().unwrap()
    }

    /// Puts `v` in place of the value stored under `k` and returns the value it replaced.
    pub fn replace(&mut self, k: Key, v: V) -> (r: V)
        requires
            old(self).wf(),
            old(self)@.contains_key(k),
        ensures
            final(self).wf(),
            r == old(self)@[k],
            final(self)@ == old(self)@.insert(k, v),
            final(self).spec_len() == old(self).spec_len(),
    {
        let ghost v_spec = v;
        assert(self.holds(k));
        let mut slot = Slot { generation: k.generation, value: Some(v) };
        std::mem::swap(&mut self.slots[k.index], &mut slot);
        self.contents = Ghost(self.contents@.insert(k, v_spec));
        assert(self.contents@.dom() =~= old(self).contents@.dom());
        assert forall|q: Key|
            #![trigger self.contents@.contains_key(q)]
            #![trigger self.holds(q)]
            self.contents@.contains_key(q) <==> self.holds(q) by {
            if q.index != k.index {
                assert(old(self).holds(q) == self.holds(q));
            }
        }
        slot.value.unwrap()
    }

    /// Removes the value stored under `k` and returns it; `k` and every other copy of
    /// it stop addressing anything.
    pub fn remove(&mut self, k: Key) -> (r: V)
        requires
            old(self).wf(),
            old(self)@.contains_key(k),
        ensures
            final(self).wf(),
            r == old(self)@[k],
            final(self)@ == old(self)@.remove(k),
            final(self).spec_len() + 1 == old(self).spec_len(),
    {
        assert(self.holds(k));
        let next = if k.generation < u64::MAX {
            k.generation + 1
        } else {
            0
        };
        let mut slot = Slot { generation: next, value: None };
        std::mem::swap(&mut self.slots[k.index], &mut slot);
        self.contents = Ghost(self.contents@.remove(k));
        self.count = self.count - 1;
        assert forall|j: int| 0 <= j < old(self).free@.len() implies old(self).free@[j]
            != k.index by {}
        self.free.push(k.index);
        assert forall|q: Key|
            #![trigger self.contents@.contains_key(q)]
            #![trigger self.holds(q)]
            self.contents@.contains_key(q) <==> self.holds(q) by {
            if q.index != k.index {
                assert(old(self).holds(q) == self.holds(q));
            }
        }
        slot.value.unwrap()
    }

    /// Every key that addresses a stored value, by increasing slot index.
    pub fn keys(&self) -> (r: Vec<Key>)
        requires
            self.wf(),
        ensures
            forall|i: int| 0 <= i < r@.len() ==> self@.contains_key(#[trigger] r@[i]),
            forall|k: Key| #[trigger] self@.contains_key(k) ==> r@.contains(k),
            forall|a: int, b: int| 0 <= a < b < r@.len() ==> r@[a].index < r@[b].index,
    {
        let mut r: Vec<Key> = Vec::new();
        let mut i: usize = 0;
        while i < self.slots.len()
            invariant
                self.wf(),
                i <= self.slots@.len(),
                forall|j: int| 0 <= j < r@.len() ==> self@.contains_key(#[trigger] r@[j]),
                forall|j: int| 0 <= j < r@.len() ==> (#[trigger] r@[j]).index < i,
                forall|k: Key| #[trigger]
                    self@.contains_key(k) && k.index < i ==> r@.contains(k),
                forall|a: int, b: int| 0 <= a < b < r@.len() ==> r@[a].index < r@[b].index,
            decreases self.slots@.len() - i,
        {
            if self.slots[i].value.is_some() {
                let k = Key { index: i, generation: self.slots[i].generation };
                assert(self.holds(k));
                let ghost before = r@;
                r.push(k);
                assert forall|q: Key| #[trigger]
                    self@.contains_key(q) && q.index < i + 1 implies r@.contains(q) by {
                    if q.index < i {
                        let w = choose|w: int| 0 <= w < before.len() && before[w] == q;
                        assert(r@[w] == q);
                    } else {
                        assert(self.holds(q));
                        assert(r@[r@.len() - 1] == q);
                    }
                }
            } else {
                assert forall|q: Key| #[trigger]
                    self@.contains_key(q) && q.index < i + 1 implies r@.contains(q) by {
                    if q.index == i {
                        assert(self.holds(q));
                    }
                }
            }
            i = i + 1;
        }
        r
    }
}

} // verus!
