//! Fields that are known when the configuration is read, or computed when a service starts.
use vstd::prelude::*;
use crate::config::expr::DynamicExpr;

verus! {

/// A field of the configuration.
#[derive(Debug)]
pub enum ConfigValue<T> {
    /// The value is known.
    Static(T),
    /// The value is computed when a service starts.
    Dynamic(Box<DynamicExpr>),
}

impl<T> From<T> for ConfigValue<T> {
    fn from(value: T) -> (r: Self) {
        ConfigValue::Static(value)
    }
}

impl<T> vstd::std_specs::convert::FromSpecImpl<T> for ConfigValue<T> {
    open spec fn obeys_from_spec() -> bool {
        true
    }

    open spec fn from_spec(v: T) -> Self {
        ConfigValue::Static(v)
    }
}

/// The known value of a field, if it is known.
pub open spec fn static_value<T>(v: ConfigValue<T>) -> Option<T> {
    match v {
        ConfigValue::Static(t) => Some(t),
        ConfigValue::Dynamic(_) => None,
    }
}

impl<T> ConfigValue<T> {
    /// A list of known fields.
    pub fn wrap_vec(v: Vec<T>) -> (r: Vec<ConfigValue<T>>)
        ensures
            r@ == v@.map_values(|t: T| ConfigValue::Static(t)),
    {
        let mut out: Vec<ConfigValue<T>> = Vec::new();
        let ghost all = v@.map_values(|t: T| ConfigValue::Static(t));
        for item in it: v
            invariant
                out@ == all.take(it.index()),
                all == v@.map_values(|t: T| ConfigValue::Static(t)),
                it.seq() == v@,
        {
            out.push(ConfigValue::Static(item));
            assert(all.take(it.index() + 1) == all.take(it.index()).push(
                ConfigValue::Static(item),
            ));
        }
        assert(all.take(v@.len() as int) == all);
        out
    }

    /// Applies `f` to a known value; a computed field stays as it is.
    pub fn map_static<U, F: FnOnce(&T) -> U>(&self, f: F) -> (r: ConfigValue<U>)
        requires
            self matches ConfigValue::Static(v) ==> call_requires(f, (&v,)),
        ensures
            match *self {
                ConfigValue::Static(v) => r matches ConfigValue::Static(u) && call_ensures(
                    f,
                    (&v,),
                    u,
                ),
                ConfigValue::Dynamic(e) => r matches ConfigValue::Dynamic(d) && d@ == e@,
            },
    {
        match self {
            ConfigValue::Static(v) => ConfigValue::Static(f(v)),
            ConfigValue::Dynamic(e) => ConfigValue::Dynamic(Box::new((**e).clone())),
        }
    }

    /// The known value.
    pub fn as_static(&self) -> (r: Option<&T>)
        ensures
            match r {
                Some(v) => static_value(*self) == Some(*v),
                None => static_value(*self) is None,
            },
    {
        match self {
            ConfigValue::Static(v) => Some(v),
            ConfigValue::Dynamic(_) => None,
        }
    }

    /// Whether the value is computed when a service starts.
    pub fn is_dynamic(&self) -> (r: bool)
        ensures
            r == (self is Dynamic),
    {
        match self {
            ConfigValue::Static(_) => false,
            ConfigValue::Dynamic(_) => true,
        }
    }
}

impl<T> ConfigValue<Option<T>> {
    /// Whether the field is known to be absent.
    pub fn is_static_none(&self) -> (r: bool)
        ensures
            r == (*self == ConfigValue::Static(None::<T>)),
    {
        match self {
            ConfigValue::Static(None) => true,
            _ => false,
        }
    }
}

/// The known texts of a field that is a list of texts: nothing if the list is computed, and
/// without the entries that are computed.
pub open spec fn static_texts(v: ConfigValue<Vec<ConfigValue<String>>>) -> Seq<Seq<char>> {
    match v {
        ConfigValue::Static(items) => known_texts(items@),
        ConfigValue::Dynamic(_) => seq![],
    }
}

/// The known texts of a list.
pub open spec fn known_texts(items: Seq<ConfigValue<String>>) -> Seq<Seq<char>>
    decreases items.len(),
{
    if items.len() == 0 {
        seq![]
    } else {
        let front = known_texts(items.drop_last());
        match items.last() {
            ConfigValue::Static(s) => front.push(s@),
            ConfigValue::Dynamic(_) => front,
        }
    }
}

/// The known texts of a field that is a list of texts.
pub fn collect_static(v: &ConfigValue<Vec<ConfigValue<String>>>) -> (r: Vec<String>)
    ensures
        crate::text::views(r@) == static_texts(*v),
{
    let mut out: Vec<String> = Vec::new();
    assert(crate::text::views(out@) == Seq::<Seq<char>>::empty());
    match v {
        ConfigValue::Static(items) => {
            let mut i: usize = 0;
            while i < items.len()
                invariant
                    i <= items@.len(),
                    crate::text::views(out@) == known_texts(items@.take(i as int)),
                decreases items@.len() - i,
            {
                let ghost before = crate::text::views(out@);
                assert(items@.take(i + 1).drop_last() == items@.take(i as int));
                match &items[i] {
                    ConfigValue::Static(s) => {
                        out.push(s.clone());
                        assert(crate::text::views(out@) == before.push(s@));
                    },
                    ConfigValue::Dynamic(_) => {},
                }
                i += 1;
            }
            assert(items@.take(i as int) == items@);
        },
        ConfigValue::Dynamic(_) => {},
    }
    out
}

impl<T: Clone> Clone for ConfigValue<T> {
    fn clone(&self) -> (r: Self)
        ensures
            match (*self, r) {
                (ConfigValue::Static(a), ConfigValue::Static(b)) => cloned(a, b),
                (ConfigValue::Dynamic(a), ConfigValue::Dynamic(b)) => a@ == b@,
                _ => false,
            },
    {
        match self {
            ConfigValue::Static(v) => ConfigValue::Static(v.clone()),
            ConfigValue::Dynamic(e) => ConfigValue::Dynamic(Box::new((**e).clone())),
        }
    }
}

/// The known texts of a list are its texts in order, without those that are computed; of a list
/// that is computed itself none is known.
pub proof fn law_known_texts_in_order(
    items: Vec<ConfigValue<String>>,
    r: Vec<String>,
    e: Box<DynamicExpr>,
    none: Vec<String>,
    k: int,
)
    requires
        call_ensures(collect_static, (&ConfigValue::Static(items),), r),
        call_ensures(
            collect_static,
            (&ConfigValue::<Vec<ConfigValue<String>>>::Dynamic(e),),
            none,
        ),
    ensures
        none@.len() == 0,
        r@.len() <= items@.len(),
        (forall|i: int| 0 <= i < items@.len() ==> (#[trigger] items@[i]) is Static) ==> r@.len()
            == items@.len() && (0 <= k < items@.len() ==> r@[k]@ == items@[k]->Static_0@),
        (forall|i: int| 0 <= i < items@.len() ==> (#[trigger] items@[i]) is Dynamic) ==> r@.len()
            == 0,
{
    assert(crate::text::views(none@).len() == none@.len());
    assert(crate::text::views(r@).len() == r@.len());
    lemma_known_texts(items@);
    if 0 <= k < r@.len() {
        assert(crate::text::views(r@)[k] == r@[k]@);
    }
}

/// What the known texts of a list are.
proof fn lemma_known_texts(items: Seq<ConfigValue<String>>)
    ensures
        known_texts(items).len() <= items.len(),
        (forall|i: int| 0 <= i < items.len() ==> (#[trigger] items[i]) is Static) ==> known_texts(
            items,
        ).len() == items.len() && forall|i: int|
            0 <= i < items.len() ==> #[trigger] known_texts(items)[i] == items[i]->Static_0@,
        (forall|i: int| 0 <= i < items.len() ==> (#[trigger] items[i]) is Dynamic) ==> known_texts(
            items,
        ).len() == 0,
    decreases items.len(),
{
    if items.len() > 0 {
        let front = items.drop_last();
        lemma_known_texts(front);
        if forall|i: int| 0 <= i < items.len() ==> (#[trigger] items[i]) is Static {
            assert forall|i: int| 0 <= i < front.len() implies (#[trigger] front[i]) is Static by {
                assert(items[i] is Static);
            }
            assert(items[items.len() - 1] is Static);
            assert forall|i: int| 0 <= i < items.len() implies #[trigger] known_texts(items)[i]
                == items[i]->Static_0@ by {
                if i < front.len() {
                    assert(known_texts(front)[i] == front[i]->Static_0@);
                }
            }
        }
        if forall|i: int| 0 <= i < items.len() ==> (#[trigger] items[i]) is Dynamic {
            assert forall|i: int| 0 <= i < front.len() implies (#[trigger] front[i]) is Dynamic by {
                assert(items[i] is Dynamic);
            }
            assert(items[items.len() - 1] is Dynamic);
        }
    }
}

} // verus!
