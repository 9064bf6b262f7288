//! Records by name, in a concurrent map.
use dashmap::DashMap;
use vstd::prelude::*;

verus! {

/// The concurrent map.
#[verifier::external_type_specification]
#[verifier::external_body]
#[verifier::reject_recursive_types(K)]
#[verifier::reject_recursive_types(V)]
#[verifier::reject_recursive_types(S)]
pub struct ExDashMap<K, V, S>(dashmap::DashMap<K, V, S>);

/// What the map holds: a text and two numbers for each name.
pub uninterp spec fn records_in(
    map: DashMap<String, (String, u64, u64), std::hash::RandomState>,
) -> Map<Seq<char>, (Seq<char>, u64, u64)>;

/// Which records stay.
#[derive(Debug)]
pub enum KeepRule {
    /// Those with another text.
    OtherText(String),
    /// Those with another first number.
    OtherFirst(u64),
    /// Those whose second number is less than `span` before `now`; a later one counts as `now`.
    Within { now: u64, span: u64 },
}

impl KeepRule {
    /// Whether a record stays.
    pub open spec fn keeps(self, record: (Seq<char>, u64, u64)) -> bool {
        match self {
            KeepRule::OtherText(t) => record.0 != t@,
            KeepRule::OtherFirst(n) => record.1 != n,
            KeepRule::Within { now, span } => if now >= record.2 {
                now - record.2 < span
            } else {
                span > 0
            },
        }
    }

    /// Whether a record stays.
    pub fn keep(&self, text: &str, first: u64, second: u64) -> (r: bool)
        ensures
            r == self.keeps((text@, first, second)),
    {
        match self {
            KeepRule::OtherText(t) => !crate::text::same(text, t.as_str()),
            KeepRule::OtherFirst(n) => first != *n,
            KeepRule::Within { now, span } => {
                if *now >= second {
                    *now - second < *span
                } else {
                    *span > 0
                }
            },
        }
    }
}

/// `dashmap::DashMap::new`: an empty map.
#[verifier::external_body]
fn new_map() -> (r: DashMap<String, (String, u64, u64), std::hash::RandomState>)
    ensures
        forall|name: Seq<char>| !#[trigger] records_in(r).contains_key(name),
{
    DashMap::new()
}

/// `dashmap::DashMap::insert`: gives a name a record, in place of any other.
#[verifier::external_body]
fn insert_record(
    map: &mut DashMap<String, (String, u64, u64), std::hash::RandomState>,
    name: String,
    record: (String, u64, u64),
)
    ensures
        records_in(*final(map)) == records_in(*old(map)).insert(
            name@,
            (record.0@, record.1, record.2),
        ),
{
    map.insert(name, record);
}

/// `dashmap::DashMap::get`: the record of a name.
#[verifier::external_body]
fn get_record(map: &DashMap<String, (String, u64, u64), std::hash::RandomState>, name: &str) -> (r:
    Option<(String, u64, u64)>)
    ensures
        match r {
            Some(record) => records_in(*map).contains_key(name@) && records_in(*map)[name@] == (
                record.0@,
                record.1,
                record.2,
            ),
            None => !records_in(*map).contains_key(name@),
        },
{
    match map.get(name) {
        Some(entry) => Some(entry.value().clone()),
        None => None,
    }
}

/// `dashmap::DashMap::remove`: takes a name out of the map, and says whether it was there.
#[verifier::external_body]
fn remove_record(
    map: &mut DashMap<String, (String, u64, u64), std::hash::RandomState>,
    name: &str,
) -> (r: bool)
    ensures
        records_in(*final(map)) == records_in(*old(map)).remove(name@),
        r == records_in(*old(map)).contains_key(name@),
{
    map.remove(name).is_some()
}

/// `dashmap::DashMap::retain`: leaves the records that a rule keeps.
#[verifier::external_body]
fn retain_records(
    map: &mut DashMap<String, (String, u64, u64), std::hash::RandomState>,
    rule: &KeepRule,
)
    ensures
        forall|name: Seq<char>| #[trigger]
            records_in(*final(map)).contains_key(name) <==> records_in(*old(map)).contains_key(name)
                && rule.keeps(records_in(*old(map))[name]),
        forall|name: Seq<char>| #[trigger]
            records_in(*final(map)).contains_key(name) ==> records_in(*final(map))[name]
                == records_in(*old(map))[name],
{
    map.retain(|_name, record| rule.keep(record.0.as_str(), record.1, record.2));
}

/// `dashmap::DashMap::iter`: the names in the map, in no particular order.
#[verifier::external_body]
fn names_of(map: &DashMap<String, (String, u64, u64), std::hash::RandomState>) -> (r: Vec<String>)
    ensures
        crate::text::views(r@).no_duplicates(),
        forall|name: Seq<char>| #[trigger]
            crate::text::views(r@).contains(name) <==> records_in(*map).contains_key(name),
{
    map.iter().map(|entry| entry.key().clone()).collect()
}

/// `dashmap::DashMap::clear`: takes all names out of the map.
#[verifier::external_body]
fn clear_map(map: &mut DashMap<String, (String, u64, u64), std::hash::RandomState>)
    ensures
        forall|name: Seq<char>| !#[trigger] records_in(*final(map)).contains_key(name),
{
    map.clear();
}

/// Records by name: a text and two numbers each.
pub struct Shelf {
    map: DashMap<String, (String, u64, u64), std::hash::RandomState>,
}

impl View for Shelf {
    type V = Map<Seq<char>, (Seq<char>, u64, u64)>;

    closed spec fn view(&self) -> Map<Seq<char>, (Seq<char>, u64, u64)> {
        records_in(self.map)
    }
}

impl Shelf {
    /// No records.
    pub fn new() -> (r: Self)
        ensures
            r@ == Map::<Seq<char>, (Seq<char>, u64, u64)>::empty(),
    {
        let r = Shelf { map: new_map() };
        assert(r@ =~= Map::<Seq<char>, (Seq<char>, u64, u64)>::empty());
        r
    }

    /// Gives a name a record.
    pub fn insert(&mut self, name: String, text: String, first: u64, second: u64)
        ensures
            final(self)@ == old(self)@.insert(name@, (text@, first, second)),
    {
        insert_record(&mut self.map, name, (text, first, second));
    }

    /// The record of a name.
    pub fn get(&self, name: &str) -> (r: Option<(String, u64, u64)>)
        ensures
            match r {
                Some(record) => self@.contains_key(name@) && self@[name@] == (
                    record.0@,
                    record.1,
                    record.2,
                ),
                None => !self@.contains_key(name@),
            },
    {
        get_record(&self.map, name)
    }

    /// Takes a name away.
    pub fn remove(&mut self, name: &str) -> (r: bool)
        ensures
            final(self)@ == old(self)@.remove(name@),
            r == old(self)@.contains_key(name@),
    {
        remove_record(&mut self.map, name)
    }

    /// Leaves the records that a rule keeps.
    pub fn retain(&mut self, rule: &KeepRule)
        ensures
            final(self)@ == kept(old(self)@, *rule),
    {
        let ghost before = self@;
        retain_records(&mut self.map, rule);
        assert(self@ =~= kept(before, *rule));
    }

    /// The names, in no particular order.
    pub fn names(&self) -> (r: Vec<String>)
        ensures
            crate::text::views(r@).no_duplicates(),
            forall|name: Seq<char>| #[trigger]
                crate::text::views(r@).contains(name) <==> self@.contains_key(name),
    {
        names_of(&self.map)
    }

    /// Takes all names away.
    pub fn clear(&mut self)
        ensures
            final(self)@ == Map::<Seq<char>, (Seq<char>, u64, u64)>::empty(),
    {
        clear_map(&mut self.map);
        assert(self@ =~= Map::<Seq<char>, (Seq<char>, u64, u64)>::empty());
    }
}

/// The records that a rule keeps.
pub open spec fn kept(m: Map<Seq<char>, (Seq<char>, u64, u64)>, rule: KeepRule) -> Map<
    Seq<char>,
    (Seq<char>, u64, u64),
> {
    Map::new(|name: Seq<char>| m.contains_key(name) && rule.keeps(m[name]), |name: Seq<char>| m[name])
}

} // verus!
