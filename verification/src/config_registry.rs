//! The loaded configurations.
use vstd::prelude::*;
use crate::shelf::Shelf;
use crate::text::{same, views};

verus! {

/// What is listed of a loaded configuration.
#[derive(Debug)]
pub struct LoadedConfigInfo {
    pub config_path: String,
    pub config_hash: String,
    pub service_count: usize,
    pub running_count: usize,
}

/// The loaded configurations, by path. A configuration has a place from the moment on at which
/// its loading begins, and a handle once it is loaded. Times are nanoseconds since the epoch.
pub struct ConfigRegistry {
    /// The hash, the number of the handle, and 1 once the configuration is loaded.
    actors: Shelf,
    started_at: i64,
}

/// What to do with a configuration that is asked for.
#[derive(Debug, Clone, Copy, PartialEq, Eq, Structural)]
pub enum Lookup {
    /// It is loaded: here is its handle.
    Loaded(u64),
    /// It has to be loaded.
    Load,
}

impl ConfigRegistry {
    /// The handles of the loaded configurations, with their hashes, by path.
    pub closed spec fn loaded(self) -> Map<Seq<char>, (Seq<char>, u64)> {
        Map::new(
            |p: Seq<char>| self.actors@.contains_key(p) && self.actors@[p].2 == 1,
            |p: Seq<char>| (self.actors@[p].0, self.actors@[p].1),
        )
    }

    /// The paths that have a place.
    pub closed spec fn places(self) -> Set<Seq<char>> {
        self.actors@.dom()
    }

    /// When the daemon was started.
    pub closed spec fn started(self) -> i64 {
        self.started_at
    }

    /// What is loaded has a place.
    pub proof fn law_loaded_has_place(self, path: Seq<char>)
        requires
            self.loaded().contains_key(path),
        ensures
            self.places().contains(path),
    {
    }

    /// No configurations.
    pub fn new(started_at: i64) -> (r: Self)
        ensures
            r.loaded() == Map::<Seq<char>, (Seq<char>, u64)>::empty(),
            r.places() == Set::<Seq<char>>::empty(),
            r.started() == started_at,
    {
        let r = ConfigRegistry { actors: Shelf::new(), started_at };
        assert(r.loaded() =~= Map::<Seq<char>, (Seq<char>, u64)>::empty());
        assert(r.places() =~= Set::<Seq<char>>::empty());
        r
    }

    /// For how many whole seconds the daemon runs; zero if the clock was set back.
    pub fn uptime_secs(&self, now: i64) -> (r: u64)
        ensures
            r == if now >= self.started() {
                (now - self.started()) / 1_000_000_000
            } else {
                0
            },
    {
        if now >= self.started_at {
            ((now as i128 - self.started_at as i128) / 1_000_000_000) as u64
        } else {
            0
        }
    }

    /// The handle of a loaded configuration. For another one a place is made, if there is none,
    /// and it has to be loaded.
    pub fn get_or_reserve(&mut self, path: &str, hash: String) -> (r: Lookup)
        ensures
            final(self).started() == old(self).started(),
            final(self).loaded() == old(self).loaded(),
            final(self).places() == old(self).places().insert(path@),
            r == if old(self).loaded().contains_key(path@) {
                Lookup::Loaded(old(self).loaded()[path@].1)
            } else {
                Lookup::Load
            },
    {
        let ghost before = *self;
        match self.actors.get(path) {
            Some((_hash, handle, state)) => {
                assert(self.places() =~= before.places().insert(path@));
                if state == 1 {
                    Lookup::Loaded(handle)
                } else {
                    Lookup::Load
                }
            },
            None => {
                self.actors.insert(path.to_owned(), hash, 0, 0);
                assert(self.places() =~= before.places().insert(path@));
                assert(self.loaded() =~= before.loaded());
                Lookup::Load
            },
        }
    }

    /// Notes how the loading of a configuration ended. If it failed its place is given up, so
    /// that it can be tried again.
    pub fn finish_load(&mut self, path: &str, hash: String, handle: Option<u64>)
        ensures
            final(self).started() == old(self).started(),
            match handle {
                Some(h) => final(self).loaded() == old(self).loaded().insert(path@, (hash@, h))
                    && final(self).places() == old(self).places().insert(path@),
                None => final(self).loaded() == old(self).loaded().remove(path@)
                    && final(self).places() == old(self).places().remove(path@),
            },
    {
        let ghost before = *self;
        match handle {
            Some(h) => {
                let ghost key = hash@;
                self.actors.insert(path.to_owned(), hash, h, 1);
                assert(self.loaded() =~= before.loaded().insert(path@, (key, h)));
                assert(self.places() =~= before.places().insert(path@));
            },
            None => {
                let _ = self.actors.remove(path);
                assert(self.loaded() =~= before.loaded().remove(path@));
                assert(self.places() =~= before.places().remove(path@));
            },
        }
    }

    /// The handle of a loaded configuration.
    pub fn get(&self, path: &str) -> (r: Option<u64>)
        ensures
            r == if self.loaded().contains_key(path@) {
                Some(self.loaded()[path@].1)
            } else {
                None
            },
    {
        match self.actors.get(path) {
            Some((_hash, handle, state)) => if state == 1 {
                Some(handle)
            } else {
                None
            },
            None => None,
        }
    }

    /// Takes a configuration out; the handle, if it was loaded, has to be shut down.
    pub fn unload(&mut self, path: &str) -> (r: Option<u64>)
        ensures
            final(self).started() == old(self).started(),
            final(self).loaded() == old(self).loaded().remove(path@),
            final(self).places() == old(self).places().remove(path@),
            r == if old(self).loaded().contains_key(path@) {
                Some(old(self).loaded()[path@].1)
            } else {
                None
            },
    {
        let ghost before = *self;
        let r = self.get(path);
        let _ = self.actors.remove(path);
        assert(self.loaded() =~= before.loaded().remove(path@));
        assert(self.places() =~= before.places().remove(path@));
        r
    }

    /// The paths of the loaded configurations, in no particular order.
    pub fn list_paths(&self) -> (r: Vec<String>)
        ensures
            views(r@).no_duplicates(),
            forall|p: Seq<char>| #[trigger]
                views(r@).contains(p) <==> self.loaded().contains_key(p),
    {
        let names = self.actors.names();
        let ghost all = views(names@);
        let mut out: Vec<String> = Vec::new();
        let mut i: usize = 0;
        assert(views(out@) == Seq::<Seq<char>>::empty());
        while i < names.len()
            invariant
                i <= names@.len(),
                all == views(names@),
                all.no_duplicates(),
                forall|p: Seq<char>| #[trigger] all.contains(p) <==> self.actors@.contains_key(p),
                views(out@).no_duplicates(),
                forall|p: Seq<char>| #[trigger]
                    views(out@).contains(p) <==> all.take(i as int).contains(p)
                        && self.loaded().contains_key(p),
            decreases names@.len() - i,
        {
            let ghost before = views(out@);
            let ghost path = all[i as int];
            proof {
                let t0 = all.take(i as int);
                let t1 = all.take(i + 1);
                assert forall|p: Seq<char>| t1.contains(p) <==> t0.contains(p) || p == path by {
                    if t1.contains(p) && p != path {
                        assert(t0[t1.index_of(p)] == p);
                    }
                    if t0.contains(p) {
                        assert(t1[t0.index_of(p)] == p);
                    }
                    assert(t1[i as int] == path);
                }
                assert(!t0.contains(path)) by {
                    if t0.contains(path) {
                        assert(all[t0.index_of(path)] == all[i as int]);
                    }
                }
                assert(!before.contains(path));
            }
            let is_loaded = self.get(names[i].as_str()).is_some();
            assert(is_loaded == self.loaded().contains_key(path));
            if is_loaded {
                out.push(names[i].clone());
                proof {
                    assert(views(out@) == before.push(path));
                    assert forall|p: Seq<char>| views(out@).contains(p) <==> before.contains(p) || p
                        == path by {
                        let now = views(out@);
                        if now.contains(p) {
                            let k = now.index_of(p);
                            if k < before.len() {
                                assert(before[k] == p);
                            }
                        }
                        if before.contains(p) {
                            assert(now[before.index_of(p)] == p);
                        }
                        assert(now[before.len() as int] == path);
                    }
                }
            }
            assert forall|p: Seq<char>| #[trigger] views(out@).contains(p) <==> all.take(
                i + 1,
            ).contains(p) && self.loaded().contains_key(p) by {
                assert(before.contains(p) <==> all.take(i as int).contains(p)
                    && self.loaded().contains_key(p));
            }
            i += 1;
        }
        proof {
            assert(all.take(i as int) == all);
            assert forall|p: Seq<char>| #[trigger] views(out@).contains(p)
                <==> self.loaded().contains_key(p) by {
                assert(all.contains(p) <==> self.actors@.contains_key(p));
            }
        }
        out
    }

    /// Takes all configurations out.
    pub fn clear(&mut self)
        ensures
            final(self).started() == old(self).started(),
            final(self).loaded() == Map::<Seq<char>, (Seq<char>, u64)>::empty(),
            final(self).places() == Set::<Seq<char>>::empty(),
    {
        self.actors.clear();
        assert(self.loaded() =~= Map::<Seq<char>, (Seq<char>, u64)>::empty());
        assert(self.places() =~= Set::<Seq<char>>::empty());
    }

    /// Whether the configuration with a hash is loaded from this path.
    pub open spec fn has_hash(self, path: Seq<char>, hash: Seq<char>) -> bool {
        self.loaded().contains_key(path) && self.loaded()[path].0 == hash
    }

    /// Whether a configuration with a hash is loaded.
    pub open spec fn knows_hash(self, hash: Seq<char>) -> bool {
        exists|path: Seq<char>| #[trigger] self.has_hash(path, hash)
    }

    /// The handle of a loaded configuration with a hash. A configuration that is not loaded can
    /// be removed from disk; one that is loaded, only if none of its services runs.
    pub fn find_hash(&self, hash: &str) -> (r: Option<u64>)
        ensures
            match r {
                Some(h) => exists|p: Seq<char>| #[trigger]
                    self.has_hash(p, hash@) && self.loaded()[p].1 == h,
                None => forall|p: Seq<char>| !#[trigger] self.has_hash(p, hash@),
            },
            r is Some <==> self.knows_hash(hash@),
    {
        let paths = self.list_paths();
        let ghost all = views(paths@);
        let mut i: usize = 0;
        while i < paths.len()
            invariant
                i <= paths@.len(),
                all == views(paths@),
                forall|p: Seq<char>| #[trigger]
                    all.contains(p) <==> self.loaded().contains_key(p),
                forall|j: int| 0 <= j < i ==> !self.has_hash(#[trigger] all[j], hash@),
            decreases paths@.len() - i,
        {
            assert(all.contains(all[i as int]));
            if let Some((h, handle, _state)) = self.actors.get(paths[i].as_str()) {
                if same(h.as_str(), hash) {
                    assert(self.has_hash(all[i as int], hash@));
                    return Some(handle);
                }
            }
            i += 1;
        }
        assert forall|p: Seq<char>| !#[trigger] self.has_hash(p, hash@) by {
            if self.has_hash(p, hash@) {
                assert(all.contains(p));
                assert(all[all.index_of(p)] == p);
            }
        }
        None
    }
}

/// Whether a configuration can be removed from disk, given whether it is loaded and, if so,
/// whether all its services are stopped.
pub fn can_prune_config(loaded_and_stopped: Option<bool>) -> (r: bool)
    ensures
        r == (loaded_and_stopped matches Some(stopped) ==> stopped),
{
    match loaded_and_stopped {
        Some(stopped) => stopped,
        None => true,
    }
}

/// Whether the name of a status is that of a running service.
pub open spec fn running_word(s: Seq<char>) -> bool {
    s == "running"@ || s == "healthy"@ || s == "unhealthy"@
}

/// How many of the first `n` statuses are those of running services.
pub open spec fn running_among(statuses: Seq<Seq<char>>, n: nat) -> nat
    decreases n,
{
    if n == 0 {
        0
    } else {
        running_among(statuses, (n - 1) as nat) + if running_word(statuses[n - 1]) {
            1nat
        } else {
            0nat
        }
    }
}

/// How many statuses are those of running services.
pub fn running_count(statuses: &Vec<String>) -> (r: usize)
    ensures
        r == running_among(views(statuses@), statuses@.len()),
{
    let mut count: usize = 0;
    let mut i: usize = 0;
    let ghost list = views(statuses@);
    while i < statuses.len()
        invariant
            i <= statuses@.len(),
            list == views(statuses@),
            count <= i,
            count == running_among(list, i as nat),
        decreases statuses@.len() - i,
    {
        let s = statuses[i].as_str();
        assert(list[i as int] == s@);
        if same(s, "running") || same(s, "healthy") || same(s, "unhealthy") {
            count += 1;
        }
        i += 1;
    }
    count
}

/// What is listed of a loaded configuration, given how many services it has and their statuses.
pub fn loaded_config_info(
    config_path: String,
    config_hash: String,
    service_count: Option<usize>,
    statuses: &Vec<String>,
) -> (r: LoadedConfigInfo)
    ensures
        r.config_path == config_path,
        r.config_hash == config_hash,
        r.service_count == (match service_count {
            Some(n) => n,
            None => 0,
        }),
        r.running_count == running_among(views(statuses@), statuses@.len()),
{
    LoadedConfigInfo {
        config_path,
        config_hash,
        service_count: match service_count {
            Some(n) => n,
            None => 0,
        },
        running_count: running_count(statuses),
    }
}

/// A configuration that was loaded is found by its path until it is unloaded or its loading fails;
/// asking for it gives its handle, and for another one that it has to be loaded.
pub proof fn law_loaded_until_unloaded(
    a: &mut ConfigRegistry,
    b: &mut ConfigRegistry,
    c: &mut ConfigRegistry,
    path: &str,
    hash: String,
    handle: u64,
    found: Option<u64>,
    gone: Option<u64>,
    lookup: Lookup,
)
    requires
        call_ensures(ConfigRegistry::finish_load, (a, path, hash, Some(handle)), ()),
        call_ensures(ConfigRegistry::get, (&*final(a), path), found),
        call_ensures(ConfigRegistry::unload, (b, path), gone),
        call_ensures(ConfigRegistry::get_or_reserve, (c, path, hash), lookup),
    ensures
        found == Some(handle),
        !final(b).loaded().contains_key(path@),
        !final(b).places().contains(path@),
        old(b).loaded().contains_key(path@) ==> gone == Some(old(b).loaded()[path@].1),
        !old(b).loaded().contains_key(path@) ==> gone is None,
        old(c).loaded().contains_key(path@) ==> lookup == Lookup::Loaded(
            old(c).loaded()[path@].1,
        ),
        !old(c).loaded().contains_key(path@) ==> lookup == Lookup::Load,
        final(c).places().contains(path@),
{
}

/// A configuration whose loading failed has no place, and the others stay.
pub proof fn law_failed_load_gives_up_its_place(
    a: &mut ConfigRegistry,
    path: &str,
    hash: String,
    other: Seq<char>,
)
    requires
        call_ensures(ConfigRegistry::finish_load, (a, path, hash, None), ()),
    ensures
        !final(a).loaded().contains_key(path@),
        !final(a).places().contains(path@),
        other != path@ ==> (final(a).loaded().contains_key(other)
            <==> old(a).loaded().contains_key(other)),
        other != path@ && old(a).loaded().contains_key(other) ==> final(a).loaded()[other]
            == old(a).loaded()[other],
{
}

/// The daemon runs for as many whole seconds as have passed since its start, and for none if the
/// clock was set back.
pub proof fn law_uptime_in_seconds(r: ConfigRegistry, now: i64, secs: u64)
    requires
        call_ensures(ConfigRegistry::uptime_secs, (&r, now), secs),
    ensures
        now >= r.started() ==> secs * 1_000_000_000 <= now - r.started() < (secs + 1)
            * 1_000_000_000,
        now < r.started() ==> secs == 0,
{
}

/// A configuration can be removed from disk unless it is loaded and one of its services runs.
pub proof fn law_running_configuration_is_not_pruned(state: Option<bool>, r: bool)
    requires
        call_ensures(can_prune_config, (state,), r),
    ensures
        r <==> state != Some(false),
{
}

/// A status counts as one of a running service exactly if it is `running`, `healthy` or
/// `unhealthy`, and each counts once.
pub proof fn law_running_statuses_are_counted(
    list: Vec<String>,
    more: Vec<String>,
    last: String,
    n: usize,
    m: usize,
)
    requires
        call_ensures(running_count, (&list,), n),
        call_ensures(running_count, (&more,), m),
        more@ == list@.push(last),
    ensures
        last@ == "running"@ || last@ == "healthy"@ || last@ == "unhealthy"@ ==> m == n + 1,
        last@ != "running"@ && last@ != "healthy"@ && last@ != "unhealthy"@ ==> m == n,
        list@.len() == 0 ==> n == 0,
{
    let a = views(list@);
    let b = views(more@);
    assert(b =~= a.push(last@));
    lemma_running_prefix(a, b, a.len());
}

/// Statuses that agree count the same.
proof fn lemma_running_prefix(a: Seq<Seq<char>>, b: Seq<Seq<char>>, n: nat)
    requires
        n <= a.len(),
        n <= b.len(),
        forall|i: int| 0 <= i < n ==> a[i] == b[i],
    ensures
        running_among(a, n) == running_among(b, n),
    decreases n,
{
    if n > 0 {
        lemma_running_prefix(a, b, (n - 1) as nat);
    }
}

/// A configuration is found by its hash exactly if one with this hash is loaded, and what is
/// found is one of them.
pub proof fn law_found_by_hash(
    registry: ConfigRegistry,
    hash: &str,
    found: Option<u64>,
    path: Seq<char>,
)
    requires
        call_ensures(ConfigRegistry::find_hash, (&registry, hash), found),
    ensures
        registry.has_hash(path, hash@) ==> found is Some,
        found matches Some(h) ==> exists|q: Seq<char>| #[trigger]
            registry.has_hash(q, hash@) && registry.loaded()[q].1 == h,
        registry.has_hash(path, hash@) <==> registry.loaded().contains_key(path)
            && registry.loaded()[path].0 == hash@,
{
    assert(registry.has_hash(path, hash@) ==> registry.knows_hash(hash@));
}

/// What is listed of a configuration is its path, its hash, how many services it has and how many
/// of them run.
pub proof fn law_what_is_listed(
    path: String,
    hash: String,
    services: Option<usize>,
    statuses: Vec<String>,
    running: usize,
    r: LoadedConfigInfo,
)
    requires
        call_ensures(loaded_config_info, (path, hash, services, &statuses), r),
        call_ensures(running_count, (&statuses,), running),
    ensures
        r.config_path == path,
        r.config_hash == hash,
        services matches Some(n) ==> r.service_count == n,
        services is None ==> r.service_count == 0,
        r.running_count == running,
{
}

} // verus!
