//! A map from numbers to values that keeps the order of first insertion.
use vstd::prelude::*;

verus! {

/// A map from numbers to values. No number occurs twice; iteration follows first insertion.
#[derive(Debug)]
pub struct IdMap<V> {
    ids: Vec<u32>,
    items: Vec<V>,
}

impl<V> View for IdMap<V> {
    type V = Map<u32, V>;

    /// The map from each number to its value.
    open spec fn view(&self) -> Map<u32, V> {
        Map::new(
            |k: u32| self.keys().contains(k),
            |k: u32| self.values()[self.keys().index_of(k)],
        )
    }
}

impl<V> IdMap<V> {
    /// The numbers in order.
    pub closed spec fn keys(self) -> Seq<u32> {
        self.ids@
    }

    /// The values in the order of their numbers.
    pub closed spec fn values(self) -> Seq<V> {
        self.items@
    }

    #[verifier::type_invariant]
    spec fn inv(self) -> bool {
        &&& self.ids@.len() == self.items@.len()
        &&& self.ids@.no_duplicates()
    }

    /// What every map keeps: one value per number, and no number twice.
    pub open spec fn well_formed(self) -> bool {
        &&& self.keys().len() == self.values().len()
        &&& self.keys().no_duplicates()
    }

    /// The map without entries.
    pub fn new() -> (r: Self)
        ensures
            r.keys() == Seq::<u32>::empty(),
            r.values() == Seq::<V>::empty(),
            r@ == Map::<u32, V>::empty(),
            r.well_formed(),
    {
        let r = IdMap { ids: Vec::new(), items: Vec::new() };
        assert(r.ids@ == Seq::<u32>::empty());
        assert(r@ =~= Map::<u32, V>::empty());
        r
    }

    /// The number of entries.
    pub fn len(&self) -> (r: usize)
        ensures
            r == self.keys().len(),
            self.well_formed(),
    {
        proof {
            use_type_invariant(self);
        }
        self.ids.len()
    }

    /// The number at position `i`.
    pub fn key_at(&self, i: usize) -> (r: u32)
        requires
            i < self.keys().len(),
        ensures
            r == self.keys()[i as int],
    {
        self.ids[i]
    }

    /// The value at position `i`.
    pub fn value_at(&self, i: usize) -> (r: &V)
        requires
            i < self.keys().len(),
        ensures
            *r == self.values()[i as int],
    {
        proof {
            use_type_invariant(self);
        }
        &self.items[i]
    }

    /// The position of a number.
    pub fn position(&self, id: u32) -> (r: Option<usize>)
        ensures
            self.well_formed(),
            match r {
                Some(i) => i < self.keys().len() && self.keys()[i as int] == id
                    && self.keys().index_of(id) == i && self@.contains_key(id)
                    && self@[id] == self.values()[i as int],
                None => !self.keys().contains(id) && !self@.contains_key(id),
            },
    {
        proof {
            use_type_invariant(self);
        }
        let mut i: usize = 0;
        while i < self.ids.len()
            invariant
                i <= self.ids@.len(),
                self.inv(),
                forall|j: int| 0 <= j < i ==> self.keys()[j] != id,
            decreases self.ids@.len() - i,
        {
            if self.ids[i] == id {
                assert(self.keys()[i as int] == id);
                assert(self.keys().contains(id));
                return Some(i);
            }
            assert(self.keys()[i as int] != id);
            i += 1;
        }
        None
    }

    /// The value of a number.
    pub fn get(&self, id: u32) -> (r: Option<&V>)
        ensures
            match r {
                Some(v) => self@.contains_key(id) && *v == self@[id],
                None => !self@.contains_key(id),
            },
    {
        match self.position(id) {
            Some(i) => Some(self.value_at(i)),
            None => None,
        }
    }

    /// Whether a number is in the map.
    pub fn contains_key(&self, id: u32) -> (r: bool)
        ensures
            r == self@.contains_key(id),
            r == self.keys().contains(id),
    {
        self.position(id).is_some()
    }

    /// The value at position `i`, for changing it.
    pub fn value_at_mut(&mut self, i: usize) -> (r: &mut V)
        requires
            i < old(self).keys().len(),
        ensures
            *r == old(self).values()[i as int],
            final(self).keys() == old(self).keys(),
            final(self).values() == old(self).values().update(i as int, *final(r)),
    {
        proof {
            use_type_invariant(&*self);
        }
        &mut self.items[i]
    }

    /// The value of a number, for changing it.
    pub fn get_mut(&mut self, id: u32) -> (r: Option<&mut V>)
        ensures
            final(self).keys() == old(self).keys(),
            match r {
                Some(v) => old(self)@.contains_key(id) && *v == old(self)@[id] && final(self).values() == old(self).values().update(
                    old(self).keys().index_of(id),
                    *final(v),
                ) && final(self)@ == old(self)@.insert(id, *final(v)),
                None => !old(self)@.contains_key(id) && *final(self) == *old(self),
            },
    {
        match self.position(id) {
            Some(i) => {
                let ghost before = *self;
                let r = self.value_at_mut(i);
                proof {
                    lemma_update(before.keys(), before.values(), i as int, *final(r));
                }
                Some(r)
            },
            None => None,
        }
    }

    /// Gives `id` the value `value`; a new number goes to the end.
    pub fn insert(&mut self, id: u32, value: V)
        ensures
            final(self)@ == old(self)@.insert(id, value),
            old(self).keys().contains(id) ==> final(self).keys() == old(self).keys() && final(self).values() == old(self).values().update(old(self).keys().index_of(id), value),
            !old(self).keys().contains(id) ==> final(self).keys() == old(self).keys().push(
                id,
            ) && final(self).values() == old(self).values().push(value),
    {
        match self.position(id) {
            Some(i) => {
                let ghost before = *self;
                *self.value_at_mut(i) = value;
                proof {
                    lemma_update(before.keys(), before.values(), i as int, value);
                }
            },
            None => {
                proof {
                    use_type_invariant(&*self);
                }
                let ghost before = *self;
                let mut taken: IdMap<V> = IdMap::new();
                std::mem::swap(&mut taken, self);
                let IdMap { mut ids, mut items } = taken;
                let ghost key = id;
                ids.push(id);
                items.push(value);
                assert(ids@ == before.keys().push(key));
                *self = IdMap { ids, items };
                proof {
                    lemma_push(before.keys(), before.values(), key, value);
                }
            },
        }
    }

    /// Takes `id` out of the map.
    pub fn remove(&mut self, id: u32) -> (r: Option<V>)
        ensures
            final(self)@ == old(self)@.remove(id),
            match r {
                Some(v) => old(self)@.contains_key(id) && v == old(self)@[id],
                None => !old(self)@.contains_key(id),
            },
    {
        match self.position(id) {
            Some(i) => {
                proof {
                    use_type_invariant(&*self);
                }
                let ghost before = *self;
                let mut taken: IdMap<V> = IdMap::new();
                std::mem::swap(&mut taken, self);
                let IdMap { mut ids, mut items } = taken;
                ids.remove(i);
                let v = items.remove(i);
                assert(ids@ == before.keys().remove(i as int));
                proof {
                    lemma_remove(before.keys(), before.values(), i as int);
                }
                *self = IdMap { ids, items };
                Some(v)
            },
            None => {
                assert(self@ == self@.remove(id));
                None
            },
        }
    }
}

/// The map that a list of distinct numbers and a list of values describe.
pub open spec fn as_map<V>(keys: Seq<u32>, values: Seq<V>) -> Map<u32, V> {
    Map::new(|k: u32| keys.contains(k), |k: u32| values[keys.index_of(k)])
}

proof fn lemma_update<V>(keys: Seq<u32>, values: Seq<V>, i: int, v: V)
    requires
        keys.no_duplicates(),
        keys.len() == values.len(),
        0 <= i < keys.len(),
    ensures
        as_map(keys, values.update(i, v)) == as_map(keys, values).insert(keys[i], v),
{
    assert(keys.index_of(keys[i]) == i);
    assert(as_map(keys, values.update(i, v)) =~= as_map(keys, values).insert(keys[i], v));
}

proof fn lemma_push<V>(keys: Seq<u32>, values: Seq<V>, k: u32, v: V)
    requires
        keys.no_duplicates(),
        keys.len() == values.len(),
        !keys.contains(k),
    ensures
        keys.push(k).no_duplicates(),
        as_map(keys.push(k), values.push(v)) == as_map(keys, values).insert(k, v),
{
    let keys2 = keys.push(k);
    let m = as_map(keys2, values.push(v));
    let w = as_map(keys, values).insert(k, v);
    assert forall|x: u32| m.contains_key(x) <==> w.contains_key(x) by {
        if keys.contains(x) {
            assert(keys2[keys.index_of(x)] == x);
        }
        if x == k {
            assert(keys2[keys.len() as int] == k);
        }
    }
    assert forall|x: u32| m.contains_key(x) implies m[x] == w[x] by {
        let i = keys2.index_of(x);
        assert(keys2[i] == x);
        if x == k {
            assert(keys2[keys.len() as int] == k);
            assert(i == keys.len());
        } else {
            assert(keys[i] == x);
            assert(keys.index_of(x) == i);
        }
    }
    assert(m =~= w);
}

proof fn lemma_remove<V>(keys: Seq<u32>, values: Seq<V>, i: int)
    requires
        keys.no_duplicates(),
        keys.len() == values.len(),
        0 <= i < keys.len(),
    ensures
        keys.remove(i).no_duplicates(),
        as_map(keys.remove(i), values.remove(i)) == as_map(keys, values).remove(keys[i]),
{
    let keys2 = keys.remove(i);
    let m = as_map(keys2, values.remove(i));
    let w = as_map(keys, values).remove(keys[i]);
    assert forall|x: u32| m.contains_key(x) <==> w.contains_key(x) by {
        if keys2.contains(x) {
            let j = keys2.index_of(x);
            assert(keys[if j < i { j } else { j + 1 }] == x);
        }
        if w.contains_key(x) {
            let j = keys.index_of(x);
            assert(keys2[if j < i { j } else { j - 1 }] == x);
        }
    }
    assert forall|x: u32| m.contains_key(x) implies m[x] == w[x] by {
        let j = keys2.index_of(x);
        let j1 = if j < i { j } else { j + 1 };
        assert(keys[j1] == x);
        assert(keys.index_of(x) == j1);
    }
    assert(m =~= w);
}

} // verus!
