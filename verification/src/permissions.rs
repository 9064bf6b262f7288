//! Rights, and which requests need them.
use vstd::prelude::*;
use vstd::string::*;
use crate::name_map::NameMap;
use crate::text::{concat3, same, views};

verus! {

/// A set of rights, by name.
#[derive(Debug)]
pub struct RightSet {
    names: NameMap<()>,
}

impl View for RightSet {
    type V = Set<Seq<char>>;

    closed spec fn view(&self) -> Set<Seq<char>> {
        self.names@.dom()
    }
}

impl RightSet {
    /// The empty set.
    pub fn new() -> (r: Self)
        ensures
            r@ == Set::<Seq<char>>::empty(),
    {
        let r = RightSet { names: NameMap::new() };
        assert(r@ =~= Set::<Seq<char>>::empty());
        r
    }

    /// Whether a right is in the set.
    pub fn contains(&self, name: &str) -> (r: bool)
        ensures
            r == self@.contains(name@),
    {
        self.names.contains_key(name)
    }

    /// Adds a right.
    pub fn insert(&mut self, name: &str)
        ensures
            final(self)@ == old(self)@.insert(name@),
    {
        let ghost before = self@;
        self.names.insert(name.to_owned(), ());
        assert(self@ =~= before.insert(name@));
    }

    /// Adds all rights of another set.
    pub fn extend(&mut self, other: &RightSet)
        ensures
            final(self)@ == old(self)@.union(other@),
    {
        let ghost before = self@;
        let ghost keys = other.names.keys();
        let n: usize = other.names.len();
        let mut i: usize = 0;
        assert(self@ =~= before.union(keys.take(0).to_set()));
        while i < n
            invariant
                i <= n,
                n == keys.len(),
                keys == other.names.keys(),
                before == old(self)@,
                self@ == before.union(keys.take(i as int).to_set()),
            decreases n - i,
        {
            let ghost was = self@;
            self.insert(other.names.key_at(i).as_str());
            proof {
                let t0 = keys.take(i as int);
                let t1 = keys.take(i + 1);
                assert forall|a: Seq<char>| t1.contains(a) <==> t0.contains(a) || a
                    == keys[i as int] by {
                    if t1.contains(a) && a != keys[i as int] {
                        assert(t0[t1.index_of(a)] == a);
                    }
                    if t0.contains(a) {
                        assert(t1[t0.index_of(a)] == a);
                    }
                    assert(t1[i as int] == keys[i as int]);
                }
                assert(self@ =~= before.union(t1.to_set()));
            }
            i += 1;
        }
        proof {
            assert(keys.take(i as int) == keys);
            assert(self@ =~= before.union(other@));
        }
    }

    /// A set with the same rights.
    pub fn copy(&self) -> (r: RightSet)
        ensures
            r@ == self@,
    {
        let mut r = RightSet::new();
        r.extend(self);
        assert(r@ =~= self@);
        r
    }

    /// The rights that are in both sets.
    pub fn intersection(&self, other: &RightSet) -> (r: RightSet)
        ensures
            r@ == self@.intersect(other@),
    {
        let ghost keys = self.names.keys();
        let n: usize = self.names.len();
        let mut out = RightSet::new();
        let mut i: usize = 0;
        assert(out@ =~= keys.take(0).to_set().intersect(other@));
        while i < n
            invariant
                i <= n,
                n == keys.len(),
                keys == self.names.keys(),
                out@ == keys.take(i as int).to_set().intersect(other@),
            decreases n - i,
        {
            let name = self.names.key_at(i).as_str();
            if other.contains(name) {
                out.insert(name);
            }
            proof {
                let t0 = keys.take(i as int);
                let t1 = keys.take(i + 1);
                assert forall|a: Seq<char>| t1.contains(a) <==> t0.contains(a) || a
                    == keys[i as int] by {
                    if t1.contains(a) && a != keys[i as int] {
                        assert(t0[t1.index_of(a)] == a);
                    }
                    if t0.contains(a) {
                        assert(t1[t0.index_of(a)] == a);
                    }
                    assert(t1[i as int] == keys[i as int]);
                }
                assert(out@ =~= t1.to_set().intersect(other@));
            }
            i += 1;
        }
        proof {
            assert(keys.take(i as int) == keys);
            assert(out@ =~= self@.intersect(other@));
        }
        out
    }
}

/// The name that stands for all rights.
pub open spec fn all_word() -> Seq<char> {
    "all"@
}

/// All rights: what may be done, and what may be asked for in addition.
pub open spec fn every_right() -> Set<Seq<char>> {
    Set::<Seq<char>>::empty().insert("start"@).insert("stop"@).insert("restart"@).insert(
        "recreate"@,
    ).insert("status"@).insert("inspect"@).insert("logs"@).insert("subscribe"@).insert(
        "quiescence"@,
    ).insert("readiness"@).insert("start:env-override"@).insert("logs:search"@)
}

/// All rights.
pub fn all_rights() -> (r: RightSet)
    ensures
        r@ == every_right(),
{
    let mut r = RightSet::new();
    r.insert("start");
    r.insert("stop");
    r.insert("restart");
    r.insert("recreate");
    r.insert("status");
    r.insert("inspect");
    r.insert("logs");
    r.insert("subscribe");
    r.insert("quiescence");
    r.insert("readiness");
    r.insert("start:env-override");
    r.insert("logs:search");
    r
}

/// The message on a name that is no right.
pub open spec fn unknown_right(name: Seq<char>) -> Seq<char> {
    "unknown right '"@ + name + "'"@
}

/// What a list of rights stands for, where names beside the rights stand for others.
pub open spec fn rights_of(names: Seq<Seq<char>>) -> Result<Set<Seq<char>>, Seq<char>>
    decreases names.len(),
{
    if names.len() == 0 {
        Ok(Set::<Seq<char>>::empty())
    } else {
        match rights_of(names.drop_last()) {
            Err(e) => Err(e),
            Ok(s) => if names.last() == all_word() {
                Ok(s.union(every_right()))
            } else if every_right().contains(names.last()) {
                Ok(s.insert(names.last()))
            } else {
                Err(unknown_right(names.last()))
            },
        }
    }
}

/// What a list of rights and aliases stands for. An alias stands for the rights of its list.
pub open spec fn allowed(names: Seq<Seq<char>>, aliases: Map<Seq<char>, Vec<String>>) -> Result<
    Set<Seq<char>>,
    Seq<char>,
>
    decreases names.len(),
{
    if names.len() == 0 {
        Ok(Set::<Seq<char>>::empty())
    } else {
        match allowed(names.drop_last(), aliases) {
            Err(e) => Err(e),
            Ok(s) => {
                let one = if aliases.contains_key(names.last()) {
                    rights_of(views(aliases[names.last()]@))
                } else {
                    rights_of(seq![names.last()])
                };
                match one {
                    Ok(t) => Ok(s.union(t)),
                    Err(e) => Err(e),
                }
            },
        }
    }
}

/// Adds the rights that a name stands for.
fn add_right(set: &mut RightSet, all: &RightSet, name: &str) -> (r: Result<(), String>)
    requires
        all@ == every_right(),
    ensures
        match r {
            Ok(_) => if name@ == all_word() {
                final(set)@ == old(set)@.union(every_right())
            } else {
                every_right().contains(name@) && final(set)@ == old(set)@.insert(name@)
            },
            Err(e) => name@ != all_word() && !every_right().contains(name@) && e@ == unknown_right(
                name@,
            ),
        },
{
    if same(name, "all") {
        set.extend(all);
        return Ok(());
    }
    if all.contains(name) {
        set.insert(name);
        return Ok(());
    }
    Err(concat3("unknown right '", name, "'"))
}

/// What a list of rights stands for.
fn expand_rights(names: &Vec<String>) -> (r: Result<RightSet, String>)
    ensures
        match r {
            Ok(s) => rights_of(views(names@)) == Ok::<Set<Seq<char>>, Seq<char>>(s@),
            Err(e) => rights_of(views(names@)) == Err::<Set<Seq<char>>, Seq<char>>(e@),
        },
{
    let all = all_rights();
    let ghost list = views(names@);
    let mut set = RightSet::new();
    let mut i: usize = 0;
    while i < names.len()
        invariant
            i <= names@.len(),
            list == views(names@),
            all@ == every_right(),
            rights_of(list.take(i as int)) == Ok::<Set<Seq<char>>, Seq<char>>(set@),
        decreases names@.len() - i,
    {
        proof {
            assert(list.take(i + 1).drop_last() == list.take(i as int));
            assert(list.take(i + 1).last() == names@[i as int]@);
        }
        match add_right(&mut set, &all, names[i].as_str()) {
            Ok(_) => {},
            Err(e) => {
                proof {
                    lemma_rights_err(list, i as int + 1, e@);
                }
                return Err(e);
            },
        }
        i += 1;
    }
    assert(list.take(i as int) == list);
    Ok(set)
}

/// A list whose beginning is wrong is wrong in the same way.
proof fn lemma_rights_err(list: Seq<Seq<char>>, k: int, e: Seq<char>)
    requires
        0 <= k <= list.len(),
        rights_of(list.take(k)) == Err::<Set<Seq<char>>, Seq<char>>(e),
    ensures
        rights_of(list) == Err::<Set<Seq<char>>, Seq<char>>(e),
    decreases list.len() - k,
{
    if k < list.len() {
        assert(list.take(k + 1).drop_last() == list.take(k));
        lemma_rights_err(list, k + 1, e);
    } else {
        assert(list.take(k) == list);
    }
}

proof fn lemma_allowed_err(
    list: Seq<Seq<char>>,
    aliases: Map<Seq<char>, Vec<String>>,
    k: int,
    e: Seq<char>,
)
    requires
        0 <= k <= list.len(),
        allowed(list.take(k), aliases) == Err::<Set<Seq<char>>, Seq<char>>(e),
    ensures
        allowed(list, aliases) == Err::<Set<Seq<char>>, Seq<char>>(e),
    decreases list.len() - k,
{
    if k < list.len() {
        assert(list.take(k + 1).drop_last() == list.take(k));
        lemma_allowed_err(list, aliases, k + 1, e);
    } else {
        assert(list.take(k) == list);
    }
}

/// What a list of rights and aliases stands for.
pub fn expand_allow(names: &Vec<String>, aliases: &NameMap<Vec<String>>) -> (r: Result<
    RightSet,
    String,
>)
    ensures
        match r {
            Ok(s) => allowed(views(names@), aliases@) == Ok::<Set<Seq<char>>, Seq<char>>(s@),
            Err(e) => allowed(views(names@), aliases@) == Err::<Set<Seq<char>>, Seq<char>>(e@),
        },
{
    let ghost list = views(names@);
    let mut set = RightSet::new();
    let mut i: usize = 0;
    while i < names.len()
        invariant
            i <= names@.len(),
            list == views(names@),
            allowed(list.take(i as int), aliases@) == Ok::<Set<Seq<char>>, Seq<char>>(set@),
        decreases names@.len() - i,
    {
        proof {
            assert(list.take(i + 1).drop_last() == list.take(i as int));
            assert(list.take(i + 1).last() == names@[i as int]@);
        }
        let one = match aliases.get(names[i].as_str()) {
            Some(list) => expand_rights(list),
            None => {
                let mut single: Vec<String> = Vec::new();
                single.push(names[i].clone());
                assert(views(single@) == seq![names@[i as int]@]);
                expand_rights(&single)
            },
        };
        match one {
            Ok(rights) => {
                set.extend(&rights);
            },
            Err(e) => {
                proof {
                    lemma_allowed_err(list, aliases@, i as int + 1, e@);
                }
                return Err(e);
            },
        }
        i += 1;
    }
    assert(list.take(i as int) == list);
    Ok(set)
}

/// A request to the daemon.
#[derive(Debug)]
pub enum Request {
    Ping,
    Start {
        config_path: String,
        services: Vec<String>,
        sys_env: Option<NameMap<String>>,
        no_deps: bool,
        override_envs: Option<NameMap<String>>,
        hardening: Option<String>,
    },
    Stop { config_path: String, service: Option<String>, clean: bool, signal: Option<i32> },
    Status { config_path: Option<String> },
    Subscribe { config_path: String, services: Option<Vec<String>> },
    Prune { force: bool, dry_run: bool },
    Shutdown,
}

/// The rights that a request needs: what it does, and what it asks for in addition. Some
/// requests need none.
pub open spec fn needed_rights(request: Request) -> Option<Seq<Seq<char>>> {
    match request {
        Request::Start { override_envs, .. } => if override_envs is Some {
            Some(seq!["start"@, "start:env-override"@])
        } else {
            Some(seq!["start"@])
        },
        Request::Stop { .. } => Some(seq!["stop"@]),
        Request::Status { config_path: Some(_) } => Some(seq!["status"@]),
        Request::Subscribe { .. } => Some(seq!["subscribe"@]),
        _ => None,
    }
}

/// The rights that a request needs.
pub fn required_rights(request: &Request) -> (r: Option<Vec<&'static str>>)
    ensures
        match r {
            Some(list) => needed_rights(*request) == Some(word_views(list@)),
            None => needed_rights(*request) is None,
        },
{
    let mut list: Vec<&'static str> = Vec::new();
    match request {
        Request::Start { override_envs, .. } => {
            list.push("start");
            if override_envs.is_some() {
                list.push("start:env-override");
                assert(word_views(list@) == seq!["start"@, "start:env-override"@]);
            } else {
                assert(word_views(list@) == seq!["start"@]);
            }
            Some(list)
        },
        Request::Stop { .. } => {
            list.push("stop");
            assert(word_views(list@) == seq!["stop"@]);
            Some(list)
        },
        Request::Status { config_path: Some(_) } => {
            list.push("status");
            assert(word_views(list@) == seq!["status"@]);
            Some(list)
        },
        Request::Subscribe { .. } => {
            list.push("subscribe");
            assert(word_views(list@) == seq!["subscribe"@]);
            Some(list)
        },
        _ => None,
    }
}

/// The views of a list of words.
pub open spec fn word_views(list: Seq<&'static str>) -> Seq<Seq<char>> {
    Seq::new(list.len(), |i: int| list[i]@)
}

/// The first right of a list that is not granted.
pub open spec fn first_missing(granted: Set<Seq<char>>, needed: Seq<Seq<char>>) -> Option<Seq<char>>
    decreases needed.len(),
{
    if needed.len() == 0 {
        None
    } else {
        match first_missing(granted, needed.drop_last()) {
            Some(m) => Some(m),
            None => if granted.contains(needed.last()) {
                None
            } else {
                Some(needed.last())
            },
        }
    }
}

/// The right that a request lacks.
pub open spec fn lacked_right(granted: Set<Seq<char>>, request: Request) -> Option<Seq<char>> {
    match needed_rights(request) {
        Some(needed) => first_missing(granted, needed),
        None => None,
    }
}

/// Checks that a request has the rights that it needs.
pub fn check_rights(granted: &RightSet, request: &Request) -> (r: Result<(), String>)
    ensures
        match r {
            Ok(_) => lacked_right(granted@, *request) is None,
            Err(e) => lacked_right(granted@, *request) matches Some(m) && e@ == "missing right '"@
                + m + "'"@,
        },
{
    let needed = match required_rights(request) {
        Some(list) => list,
        None => {
            return Ok(());
        },
    };
    let ghost words = word_views(needed@);
    let mut i: usize = 0;
    while i < needed.len()
        invariant
            i <= needed@.len(),
            words == word_views(needed@),
            needed_rights(*request) == Some(words),
            first_missing(granted@, words.take(i as int)) is None,
        decreases needed@.len() - i,
    {
        proof {
            assert(words.take(i + 1).drop_last() == words.take(i as int));
            assert(words.take(i + 1).last() == needed@[i as int]@);
        }
        if !granted.contains(needed[i]) {
            proof {
                lemma_missing_stays(granted@, words, i as int + 1, needed@[i as int]@);
            }
            return Err(concat3("missing right '", needed[i], "'"));
        }
        i += 1;
    }
    assert(words.take(i as int) == words);
    Ok(())
}

proof fn lemma_missing_stays(granted: Set<Seq<char>>, needed: Seq<Seq<char>>, k: int, m: Seq<char>)
    requires
        0 <= k <= needed.len(),
        first_missing(granted, needed.take(k)) == Some(m),
    ensures
        first_missing(granted, needed) == Some(m),
    decreases needed.len() - k,
{
    if k < needed.len() {
        assert(needed.take(k + 1).drop_last() == needed.take(k));
        lemma_missing_stays(granted, needed, k + 1, m);
    } else {
        assert(needed.take(k) == needed);
    }
}

/// More rights never make a request fail that was allowed.
pub proof fn law_more_rights_allow_more(
    granted: Set<Seq<char>>,
    more: Set<Seq<char>>,
    request: Request,
)
    requires
        granted.subset_of(more),
        lacked_right(granted, request) is None,
    ensures
        lacked_right(more, request) is None,
{
    if let Some(needed) = needed_rights(request) {
        lemma_more(granted, more, needed);
    }
}

proof fn lemma_more(granted: Set<Seq<char>>, more: Set<Seq<char>>, needed: Seq<Seq<char>>)
    requires
        granted.subset_of(more),
        first_missing(granted, needed) is None,
    ensures
        first_missing(more, needed) is None,
    decreases needed.len(),
{
    if needed.len() > 0 {
        lemma_more(granted, more, needed.drop_last());
    }
}

/// All rights together allow every request.
pub proof fn law_all_rights_allow_all(request: Request)
    ensures
        lacked_right(every_right(), request) is None,
{
    if let Some(needed) = needed_rights(request) {
        assert forall|i: int| 0 <= i < needed.len() implies every_right().contains(
            #[trigger] needed[i],
        ) by {}
        lemma_all_granted(every_right(), needed);
    }
}

proof fn lemma_all_granted(granted: Set<Seq<char>>, needed: Seq<Seq<char>>)
    requires
        forall|i: int| 0 <= i < needed.len() ==> granted.contains(#[trigger] needed[i]),
    ensures
        first_missing(granted, needed) is None,
    decreases needed.len(),
{
    if needed.len() > 0 {
        let front = needed.drop_last();
        assert forall|i: int| 0 <= i < front.len() implies granted.contains(#[trigger] front[i]) by {
            assert(front[i] == needed[i]);
        }
        lemma_all_granted(granted, front);
        assert(needed.last() == needed[needed.len() - 1]);
    }
}

/// What each request needs: a start the right to start, and with variables of its own the right to
/// those too; a stop the right to stop; the status of one configuration the right to it; and those
/// who follow one the right to that. The rest needs none.
pub proof fn law_requests_and_their_rights(
    granted: RightSet,
    request: Request,
    r: Result<(), String>,
)
    requires
        call_ensures(check_rights, (&granted, &request), r),
    ensures
        match request {
            Request::Start { override_envs, .. } => r is Ok <==> granted@.contains("start"@) && (
            override_envs is Some ==> granted@.contains("start:env-override"@)),
            Request::Stop { .. } => r is Ok <==> granted@.contains("stop"@),
            Request::Status { config_path } => r is Ok <==> config_path is None
                || granted@.contains("status"@),
            Request::Subscribe { .. } => r is Ok <==> granted@.contains("subscribe"@),
            _ => r is Ok,
        },
{
    lemma_request_rights(granted@, request);
}

/// What a request lacks, right by right.
pub proof fn lemma_request_rights(granted: Set<Seq<char>>, request: Request)
    ensures
        lacked_right(granted, request) is None <==> match request {
            Request::Start { override_envs, .. } => granted.contains("start"@) && (override_envs
                is Some ==> granted.contains("start:env-override"@)),
            Request::Stop { .. } => granted.contains("stop"@),
            Request::Status { config_path } => config_path is None || granted.contains("status"@),
            Request::Subscribe { .. } => granted.contains("subscribe"@),
            _ => true,
        },
{
    reveal_with_fuel(first_missing, 3);
    assert(seq!["start"@, "start:env-override"@].drop_last() =~= seq!["start"@]);
    assert(seq!["start"@].drop_last() =~= Seq::<Seq<char>>::empty());
    assert(seq!["stop"@].drop_last() =~= Seq::<Seq<char>>::empty());
    assert(seq!["status"@].drop_last() =~= Seq::<Seq<char>>::empty());
    assert(seq!["subscribe"@].drop_last() =~= Seq::<Seq<char>>::empty());
}

/// The rights that there are.
pub proof fn law_the_rights(all: RightSet, x: Seq<char>)
    requires
        call_ensures(all_rights, (), all),
    ensures
        all@.contains(x) <==> {
            ||| x == "start"@
            ||| x == "stop"@
            ||| x == "restart"@
            ||| x == "recreate"@
            ||| x == "status"@
            ||| x == "inspect"@
            ||| x == "logs"@
            ||| x == "subscribe"@
            ||| x == "quiescence"@
            ||| x == "readiness"@
            ||| x == "start:env-override"@
            ||| x == "logs:search"@
        },
{
}

/// What a list without aliases stands for.
proof fn lemma_allowed_plain(
    names: Seq<Seq<char>>,
    aliases: Map<Seq<char>, Vec<String>>,
    x: Seq<char>,
)
    requires
        forall|i: int| 0 <= i < names.len() ==> !aliases.contains_key(#[trigger] names[i]),
    ensures
        allowed(names, aliases) matches Ok(s) ==> (s.contains(x) <==> every_right().contains(x) && (
        names.contains(x) || names.contains("all"@))),
        allowed(names, aliases) is Ok <==> forall|i: int|
            0 <= i < names.len() ==> (#[trigger] names[i]) == "all"@ || every_right().contains(
                names[i],
            ),
    decreases names.len(),
{
    if names.len() > 0 {
        let front = names.drop_last();
        let last = names.last();
        assert forall|i: int| 0 <= i < front.len() implies !aliases.contains_key(
            #[trigger] front[i],
        ) by {
            assert(!aliases.contains_key(names[i]));
        }
        lemma_allowed_plain(front, aliases, x);
        assert(!aliases.contains_key(names[names.len() - 1]));
        reveal_with_fuel(rights_of, 2);
        assert(seq![last].drop_last() =~= Seq::<Seq<char>>::empty());
        assert(seq![last].last() == last);
        assert forall|w: Seq<char>| #[trigger] names.contains(w) <==> front.contains(w) || w
            == last by {
            if names.contains(w) {
                let i = names.index_of(w);
                if i < front.len() {
                    assert(front[i] == w);
                }
            }
            if front.contains(w) {
                assert(names[front.index_of(w)] == w);
            }
            assert(names[names.len() - 1] == last);
        }
        assert(forall|i: int| 0 <= i < front.len() ==> names[i] == front[i]);
    }
}

/// A list of rights stands for those rights, and for all of them if `all` is in it; a name that is
/// neither is refused.
pub proof fn law_list_stands_for_its_rights(
    names: Vec<String>,
    aliases: NameMap<Vec<String>>,
    all: RightSet,
    r: Result<RightSet, String>,
    x: Seq<char>,
)
    requires
        call_ensures(expand_allow, (&names, &aliases), r),
        call_ensures(all_rights, (), all),
        forall|i: int| 0 <= i < names@.len() ==> !aliases@.contains_key((#[trigger] names@[i])@),
    ensures
        r matches Ok(s) ==> (s@.contains(x) <==> all@.contains(x) && (views(names@).contains(x)
            || views(names@).contains("all"@))),
        r is Err <==> exists|i: int|
            0 <= i < names@.len() && (#[trigger] names@[i])@ != "all"@ && !all@.contains(
                names@[i]@,
            ),
{
    let list = views(names@);
    assert forall|i: int| 0 <= i < list.len() implies !aliases@.contains_key(#[trigger] list[i]) by {
        assert(!aliases@.contains_key(names@[i]@));
    }
    lemma_allowed_plain(list, aliases@, x);
    if r is Err {
        let i = choose|i: int|
            0 <= i < list.len() && !((#[trigger] list[i]) == "all"@ || every_right().contains(
                list[i],
            ));
        assert(names@[i]@ == list[i]);
    }
    if exists|i: int|
        0 <= i < names@.len() && (#[trigger] names@[i])@ != "all"@ && !all@.contains(names@[i]@) {
        let i = choose|i: int|
            0 <= i < names@.len() && (#[trigger] names@[i])@ != "all"@ && !all@.contains(
                names@[i]@,
            );
        assert(list[i] == names@[i]@);
    }
}

/// An alias stands for what its list stands for.
pub proof fn law_alias_stands_for_its_list(
    name: String,
    aliases: NameMap<Vec<String>>,
    one: Vec<String>,
    none: NameMap<Vec<String>>,
    of_alias: Result<RightSet, String>,
    of_list: Result<RightSet, String>,
)
    requires
        aliases@.contains_key(name@),
        one@ == seq![name],
        none@ == Map::<Seq<char>, Vec<String>>::empty(),
        call_ensures(expand_allow, (&one, &aliases), of_alias),
        call_ensures(expand_allow, (&aliases@[name@], &none), of_list),
    ensures
        of_alias is Ok <==> of_list is Ok,
        of_alias is Ok ==> of_alias->Ok_0@ == of_list->Ok_0@,
{
    let list = views(aliases@[name@]@);
    assert(views(one@) =~= seq![name@]);
    assert(views(one@).drop_last() =~= Seq::<Seq<char>>::empty());
    reveal_with_fuel(allowed, 2);
    lemma_without_aliases(list, none@);
    if let Ok(s) = rights_of(list) {
        assert(Set::<Seq<char>>::empty().union(s) =~= s);
    }
}

/// Without aliases a list stands for its rights.
proof fn lemma_without_aliases(names: Seq<Seq<char>>, none: Map<Seq<char>, Vec<String>>)
    requires
        none == Map::<Seq<char>, Vec<String>>::empty(),
    ensures
        allowed(names, none) is Ok <==> rights_of(names) is Ok,
        allowed(names, none) is Ok ==> allowed(names, none)->Ok_0 == rights_of(names)->Ok_0,
    decreases names.len(),
{
    if names.len() > 0 {
        lemma_without_aliases(names.drop_last(), none);
        reveal_with_fuel(rights_of, 2);
        let last = names.last();
        assert(seq![last].drop_last() =~= Seq::<Seq<char>>::empty());
        assert(seq![last].last() == last);
        if allowed(names, none) is Ok {
            assert(allowed(names, none)->Ok_0 =~= rights_of(names)->Ok_0);
        }
    }
}

} // verus!
