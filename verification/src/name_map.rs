//! A map from names to values that keeps the order of first insertion.
use vstd::prelude::*;
use crate::text::{same, views};

verus! {

/// A map from names to values. No name occurs twice; iteration follows first insertion.
#[derive(Debug)]
pub struct NameMap<V> {
    names: Vec<String>,
    items: Vec<V>,
}

impl<V> View for NameMap<V> {
    type V = Map<Seq<char>, V>;

    /// The map from the view of each name to its value.
    open spec fn view(&self) -> Map<Seq<char>, V> {
        Map::new(
            |k: Seq<char>| self.keys().contains(k),
            |k: Seq<char>| self.values()[self.keys().index_of(k)],
        )
    }
}

impl<V> NameMap<V> {
    /// The names in order.
    pub closed spec fn keys(self) -> Seq<Seq<char>> {
        views(self.names@)
    }

    /// The values in the order of their names.
    pub closed spec fn values(self) -> Seq<V> {
        self.items@
    }

    #[verifier::type_invariant]
    spec fn inv(self) -> bool {
        &&& self.names@.len() == self.items@.len()
        &&& views(self.names@).no_duplicates()
    }

    /// What every map keeps: one value per name, and no name twice.
    pub open spec fn well_formed(self) -> bool {
        &&& self.keys().len() == self.values().len()
        &&& self.keys().no_duplicates()
    }

    /// The map without entries.
    pub fn new() -> (r: Self)
        ensures
            r.keys() == Seq::<Seq<char>>::empty(),
            r.values() == Seq::<V>::empty(),
            r@ == Map::<Seq<char>, V>::empty(),
            r.well_formed(),
    {
        let r = NameMap { names: Vec::new(), items: Vec::new() };
        assert(views(r.names@) == Seq::<Seq<char>>::empty());
        assert(r@ =~= Map::<Seq<char>, V>::empty());
        r
    }

    /// The number of entries.
    pub fn len(&self) -> (r: usize)
        ensures
            r == self.keys().len(),
            self.well_formed(),
    {
        proof {
            use_type_invariant(self);
        }
        self.names.len()
    }

    /// The name at position `i`.
    pub fn key_at(&self, i: usize) -> (r: &String)
        requires
            i < self.keys().len(),
        ensures
            r@ == self.keys()[i as int],
    {
        &self.names[i]
    }

    /// The value at position `i`.
    pub fn value_at(&self, i: usize) -> (r: &V)
        requires
            i < self.keys().len(),
        ensures
            *r == self.values()[i as int],
    {
        proof {
            use_type_invariant(self);
        }
        &self.items[i]
    }

    /// The position of a name.
    pub fn position(&self, name: &str) -> (r: Option<usize>)
        ensures
            self.well_formed(),
            match r {
                Some(i) => i < self.keys().len() && self.keys()[i as int] == name@
                    && self.keys().index_of(name@) == i && self@.contains_key(name@)
                    && self@[name@] == self.values()[i as int],
                None => !self.keys().contains(name@) && !self@.contains_key(name@),
            },
    {
        proof {
            use_type_invariant(self);
        }
        let mut i: usize = 0;
        while i < self.names.len()
            invariant
                i <= self.names@.len(),
                self.inv(),
                forall|j: int| 0 <= j < i ==> self.keys()[j] != name@,
            decreases self.names@.len() - i,
        {
            if same(self.names[i].as_str(), name) {
                assert(self.keys()[i as int] == name@);
                assert(self.keys().contains(name@));
                return Some(i);
            }
            assert(self.keys()[i as int] != name@);
            i += 1;
        }
        None
    }

    /// The value of a name.
    pub fn get(&self, name: &str) -> (r: Option<&V>)
        ensures
            match r {
                Some(v) => self@.contains_key(name@) && *v == self@[name@],
                None => !self@.contains_key(name@),
            },
    {
        match self.position(name) {
            Some(i) => Some(self.value_at(i)),
            None => None,
        }
    }

    /// Whether a name is in the map.
    pub fn contains_key(&self, name: &str) -> (r: bool)
        ensures
            r == self@.contains_key(name@),
            r == self.keys().contains(name@),
    {
        self.position(name).is_some()
    }

    /// The value at position `i`, for changing it.
    pub fn value_at_mut(&mut self, i: usize) -> (r: &mut V)
        requires
            i < old(self).keys().len(),
        ensures
            *r == old(self).values()[i as int],
            final(self).keys() == old(self).keys(),
            final(self).values() == old(self).values().update(i as int, *final(r)),
    {
        proof {
            use_type_invariant(&*self);
        }
        &mut self.items[i]
    }

    /// The value of a name, for changing it.
    pub fn get_mut(&mut self, name: &str) -> (r: Option<&mut V>)
        ensures
            final(self).keys() == old(self).keys(),
            match r {
                Some(v) => old(self)@.contains_key(name@) && *v == old(self)@[name@] && final(self).values() == old(self).values().update(
                    old(self).keys().index_of(name@),
                    *final(v),
                ) && final(self)@ == old(self)@.insert(name@, *final(v)),
                None => !old(self)@.contains_key(name@) && *final(self) == *old(self),
            },
    {
        match self.position(name) {
            Some(i) => {
                let ghost before = *self;
                let r = self.value_at_mut(i);
                proof {
                    lemma_update(before.keys(), before.values(), i as int, *final(r));
                }
                Some(r)
            },
            None => None,
        }
    }

    /// Gives `name` the value `value`; a new name goes to the end.
    pub fn insert(&mut self, name: String, value: V)
        ensures
            final(self)@ == old(self)@.insert(name@, value),
            old(self).keys().contains(name@) ==> final(self).keys() == old(self).keys() && final(self).values() == old(self).values().update(old(self).keys().index_of(name@), value),
            !old(self).keys().contains(name@) ==> final(self).keys() == old(self).keys().push(
                name@,
            ) && final(self).values() == old(self).values().push(value),
    {
        match self.position(name.as_str()) {
            Some(i) => {
                let ghost before = *self;
                *self.value_at_mut(i) = value;
                proof {
                    lemma_update(before.keys(), before.values(), i as int, value);
                }
            },
            None => {
                proof {
                    use_type_invariant(&*self);
                }
                let ghost before = *self;
                let mut taken: NameMap<V> = NameMap::new();
                std::mem::swap(&mut taken, self);
                let NameMap { mut names, mut items } = taken;
                let ghost key = name@;
                names.push(name);
                items.push(value);
                assert(views(names@) == before.keys().push(key));
                *self = NameMap { names, items };
                proof {
                    lemma_push(before.keys(), before.values(), key, value);
                }
            },
        }
    }

    /// Takes `name` out of the map.
    pub fn remove(&mut self, name: &str) -> (r: Option<V>)
        ensures
            final(self)@ == old(self)@.remove(name@),
            match r {
                Some(v) => old(self)@.contains_key(name@) && v == old(self)@[name@],
                None => !old(self)@.contains_key(name@),
            },
    {
        match self.position(name) {
            Some(i) => {
                proof {
                    use_type_invariant(&*self);
                }
                let ghost before = *self;
                let mut taken: NameMap<V> = NameMap::new();
                std::mem::swap(&mut taken, self);
                let NameMap { mut names, mut items } = taken;
                names.remove(i);
                let v = items.remove(i);
                assert(views(names@) == before.keys().remove(i as int));
                proof {
                    lemma_remove(before.keys(), before.values(), i as int);
                }
                *self = NameMap { names, items };
                Some(v)
            },
            None => {
                assert(self@ == self@.remove(name@));
                None
            },
        }
    }
}

/// The map that a list of distinct names and a list of values describe.
pub open spec fn as_map<V>(keys: Seq<Seq<char>>, values: Seq<V>) -> Map<Seq<char>, V> {
    Map::new(|k: Seq<char>| keys.contains(k), |k: Seq<char>| values[keys.index_of(k)])
}

proof fn lemma_update<V>(keys: Seq<Seq<char>>, values: Seq<V>, i: int, v: V)
    requires
        keys.no_duplicates(),
        keys.len() == values.len(),
        0 <= i < keys.len(),
    ensures
        as_map(keys, values.update(i, v)) == as_map(keys, values).insert(keys[i], v),
{
    assert(keys.index_of(keys[i]) == i);
    assert(as_map(keys, values.update(i, v)) =~= as_map(keys, values).insert(keys[i], v));
}

proof fn lemma_push<V>(keys: Seq<Seq<char>>, values: Seq<V>, k: Seq<char>, v: V)
    requires
        keys.no_duplicates(),
        keys.len() == values.len(),
        !keys.contains(k),
    ensures
        keys.push(k).no_duplicates(),
        as_map(keys.push(k), values.push(v)) == as_map(keys, values).insert(k, v),
{
    let keys2 = keys.push(k);
    let m = as_map(keys2, values.push(v));
    let w = as_map(keys, values).insert(k, v);
    assert forall|x: Seq<char>| m.contains_key(x) <==> w.contains_key(x) by {
        if keys.contains(x) {
            assert(keys2[keys.index_of(x)] == x);
        }
        if x == k {
            assert(keys2[keys.len() as int] == k);
        }
    }
    assert forall|x: Seq<char>| m.contains_key(x) implies m[x] == w[x] by {
        let i = keys2.index_of(x);
        assert(keys2[i] == x);
        if x == k {
            assert(keys2[keys.len() as int] == k);
            assert(i == keys.len());
        } else {
            assert(keys[i] == x);
            assert(keys.index_of(x) == i);
        }
    }
    assert(m =~= w);
}

proof fn lemma_remove<V>(keys: Seq<Seq<char>>, values: Seq<V>, i: int)
    requires
        keys.no_duplicates(),
        keys.len() == values.len(),
        0 <= i < keys.len(),
    ensures
        keys.remove(i).no_duplicates(),
        as_map(keys.remove(i), values.remove(i)) == as_map(keys, values).remove(keys[i]),
{
    let keys2 = keys.remove(i);
    let m = as_map(keys2, values.remove(i));
    let w = as_map(keys, values).remove(keys[i]);
    assert forall|x: Seq<char>| m.contains_key(x) <==> w.contains_key(x) by {
        if keys2.contains(x) {
            let j = keys2.index_of(x);
            assert(keys[if j < i { j } else { j + 1 }] == x);
        }
        if w.contains_key(x) {
            let j = keys.index_of(x);
            assert(keys2[if j < i { j } else { j - 1 }] == x);
        }
    }
    assert forall|x: Seq<char>| m.contains_key(x) implies m[x] == w[x] by {
        let j = keys2.index_of(x);
        let j1 = if j < i { j } else { j + 1 };
        assert(keys[j1] == x);
        assert(keys.index_of(x) == j1);
    }
    assert(m =~= w);
}

impl<V: Clone> Clone for NameMap<V> {
    fn clone(&self) -> (r: Self)
        ensures
            r.keys() == self.keys(),
            r.values().len() == self.values().len(),
            r.values().len() == r.keys().len(),
            forall|i: int|
                0 <= i < self.values().len() ==> cloned::<V>(
                    #[trigger] self.values()[i],
                    r.values()[i],
                ),
    {
        proof {
            use_type_invariant(self);
        }
        let names = self.names.clone();
        let items = self.items.clone();
        assert(views(names@) == views(self.names@));
        NameMap { names, items }
    }
}

} // verus!
