//! What users and groups other than the owner may do with a configuration.
use vstd::prelude::*;
use vstd::string::*;
use crate::accounts::{
    get_all_gids, gids_view, group_for, groups_for, has_id, id_view, resolve_gid, resolve_uid,
    user_for,
};
use crate::auth::{refusal_view, AuthContext};
use crate::config::service::{AclConfig, AclRule};
use crate::id_map::IdMap;
use crate::name_map::NameMap;
use crate::permissions::{
    all_rights, allowed, check_rights, every_right, expand_allow, lacked_right,
    lemma_request_rights, needed_rights, required_rights, Request, RightSet,
};
use crate::text::{concat, views};

verus! {

/// Rules by number, with the rights that they grant.
#[derive(Debug)]
pub struct ResolvedAcl {
    pub user_rules: IdMap<RightSet>,
    pub group_rules: IdMap<RightSet>,
    /// Code that decides on each request of a user.
    pub user_authorizers: IdMap<String>,
    /// Code that decides on each request of the members of a group.
    pub group_authorizers: IdMap<String>,
    /// Code that the deciding code may use.
    pub acl_lua: Option<String>,
    /// Whether the deciding code was compiled.
    pub compiled: bool,
    /// The compiled code of a user, by number.
    pub user_authorizer_keys: IdMap<u64>,
    /// The compiled code of a group, by number.
    pub group_authorizer_keys: IdMap<u64>,
}

/// The rights that rules grant.
pub open spec fn rights_map(m: Map<u32, RightSet>) -> Map<u32, Set<Seq<char>>> {
    Map::new(|id: u32| m.contains_key(id), |id: u32| m[id]@)
}

/// The code of rules.
pub open spec fn code_map(m: Map<u32, String>) -> Map<u32, Seq<char>> {
    Map::new(|id: u32| m.contains_key(id), |id: u32| m[id]@)
}

/// The rules of users or groups by number: rights of one number are joined, and later code
/// replaces earlier code.
#[verifier::ext_equal]
pub struct Rules {
    pub rights: Map<u32, Set<Seq<char>>>,
    pub code: Map<u32, Seq<char>>,
}

/// The rights of a number.
pub open spec fn rights_at(m: Map<u32, Set<Seq<char>>>, id: u32) -> Set<Seq<char>> {
    if m.contains_key(id) {
        m[id]
    } else {
        Set::empty()
    }
}

/// The first `n` rules, given the numbers that their keys stand for; or what is wrong with the
/// first wrong one.
pub open spec fn rules_of(
    rules: Seq<AclRule>,
    ids: Seq<Result<u32, Seq<char>>>,
    aliases: Map<Seq<char>, Vec<String>>,
    n: nat,
) -> Result<Rules, Seq<char>>
    decreases n,
{
    if n == 0 {
        Ok(Rules { rights: Map::empty(), code: Map::empty() })
    } else {
        match rules_of(rules, ids, aliases, (n - 1) as nat) {
            Err(e) => Err(e),
            Ok(done) => match ids[n - 1] {
                Err(e) => Err(e),
                Ok(id) => match allowed(views(rules[n - 1].allow@), aliases) {
                    Err(e) => Err(e),
                    Ok(rights) => Ok(
                        Rules {
                            rights: done.rights.insert(
                                id,
                                rights_at(done.rights, id).union(rights),
                            ),
                            code: match rules[n - 1].authorize {
                                Some(src) => done.code.insert(id, src@),
                                None => done.code,
                            },
                        },
                    ),
                },
            },
        }
    }
}

/// The views of what keys stand for.
pub open spec fn id_views(ids: Seq<Result<u32, String>>) -> Seq<Result<u32, Seq<char>>> {
    ids.map_values(|r: Result<u32, String>| id_view(r))
}

proof fn lemma_rules_err(
    rules: Seq<AclRule>,
    ids: Seq<Result<u32, Seq<char>>>,
    aliases: Map<Seq<char>, Vec<String>>,
    k: nat,
    n: nat,
    e: Seq<char>,
)
    requires
        k <= n,
        rules_of(rules, ids, aliases, k) == Err::<Rules, Seq<char>>(e),
    ensures
        rules_of(rules, ids, aliases, n) == Err::<Rules, Seq<char>>(e),
    decreases n - k,
{
    if k < n {
        lemma_rules_err(rules, ids, aliases, k + 1, n, e);
    }
}

/// Adds rights to those of a number.
fn join_rights(map: &mut IdMap<RightSet>, id: u32, rights: RightSet)
    ensures
        rights_map(final(map)@) == rights_map(old(map)@).insert(
            id,
            rights_at(rights_map(old(map)@), id).union(rights@),
        ),
{
    let ghost before = rights_map(map@);
    let mut joined = match map.get(id) {
        Some(r) => r.copy(),
        None => RightSet::new(),
    };
    assert(joined@ == rights_at(before, id));
    joined.extend(&rights);
    let ghost all = joined@;
    map.insert(id, joined);
    assert(rights_map(map@) =~= before.insert(id, all));
}

/// The rules of a map, given the numbers that its keys stand for.
fn resolve_rules(
    rules: &NameMap<AclRule>,
    ids: Vec<Result<u32, String>>,
    aliases: &NameMap<Vec<String>>,
) -> (r: Result<(IdMap<RightSet>, IdMap<String>), String>)
    requires
        ids@.len() == rules.keys().len(),
    ensures
        match r {
            Ok((rights, code)) => rules_of(
                rules.values(),
                id_views(ids@),
                aliases@,
                rules.keys().len(),
            ) == Ok::<Rules, Seq<char>>(
                Rules { rights: rights_map(rights@), code: code_map(code@) },
            ),
            Err(e) => rules_of(rules.values(), id_views(ids@), aliases@, rules.keys().len())
                == Err::<Rules, Seq<char>>(e@),
        },
{
    let n: usize = rules.len();
    let ghost views_of_ids = id_views(ids@);
    let mut rights: IdMap<RightSet> = IdMap::new();
    let mut code: IdMap<String> = IdMap::new();
    let mut i: usize = 0;
    assert(rights_map(rights@) =~= Map::<u32, Set<Seq<char>>>::empty());
    assert(code_map(code@) =~= Map::<u32, Seq<char>>::empty());
    while i < n
        invariant
            i <= n,
            n == rules.keys().len(),
            rules.well_formed(),
            ids@.len() == n,
            views_of_ids == id_views(ids@),
            rules_of(rules.values(), views_of_ids, aliases@, i as nat) == Ok::<Rules, Seq<char>>(
                Rules { rights: rights_map(rights@), code: code_map(code@) },
            ),
        decreases n - i,
    {
        assert(views_of_ids[i as int] == id_view(ids@[i as int]));
        let id: u32 = match &ids[i] {
            Ok(id) => *id,
            Err(e) => {
                proof {
                    lemma_rules_err(
                        rules.values(),
                        views_of_ids,
                        aliases@,
                        (i + 1) as nat,
                        n as nat,
                        e@,
                    );
                }
                return Err(e.clone());
            },
        };
        let rule = rules.value_at(i);
        let expanded = match expand_allow(&rule.allow, aliases) {
            Ok(r) => r,
            Err(e) => {
                proof {
                    lemma_rules_err(
                        rules.values(),
                        views_of_ids,
                        aliases@,
                        (i + 1) as nat,
                        n as nat,
                        e@,
                    );
                }
                return Err(e);
            },
        };
        join_rights(&mut rights, id, expanded);
        if let Some(src) = &rule.authorize {
            let ghost before = code_map(code@);
            code.insert(id, src.clone());
            assert(code_map(code@) =~= before.insert(id, src@));
        }
        i += 1;
    }
    Ok((rights, code))
}

/// What the keys of a map of users stand for.
fn user_ids(rules: &NameMap<AclRule>) -> (r: Vec<Result<u32, String>>)
    ensures
        r@.len() == rules.keys().len(),
        forall|i: int|
            0 <= i < r@.len() ==> user_for(rules.keys()[i], #[trigger] id_views(r@)[i]),
{
    let n: usize = rules.len();
    let mut out: Vec<Result<u32, String>> = Vec::new();
    let mut i: usize = 0;
    while i < n
        invariant
            i <= n,
            n == rules.keys().len(),
            out@.len() == i,
            forall|j: int|
                0 <= j < i ==> user_for(rules.keys()[j], id_view(#[trigger] out@[j])),
        decreases n - i,
    {
        out.push(resolve_uid(rules.key_at(i).as_str()));
        i += 1;
    }
    out
}

/// What the keys of a map of groups stand for.
fn group_ids(rules: &NameMap<AclRule>) -> (r: Vec<Result<u32, String>>)
    ensures
        r@.len() == rules.keys().len(),
        forall|i: int|
            0 <= i < r@.len() ==> group_for(rules.keys()[i], #[trigger] id_views(r@)[i]),
{
    let n: usize = rules.len();
    let mut out: Vec<Result<u32, String>> = Vec::new();
    let mut i: usize = 0;
    while i < n
        invariant
            i <= n,
            n == rules.keys().len(),
            out@.len() == i,
            forall|j: int|
                0 <= j < i ==> group_for(rules.keys()[j], id_view(#[trigger] out@[j])),
        decreases n - i,
    {
        out.push(resolve_gid(rules.key_at(i).as_str()));
        i += 1;
    }
    out
}

impl ResolvedAcl {
    /// The rules without any entry.
    pub fn empty() -> (r: Self)
        ensures
            r.user_rules.keys().len() == 0,
            r.group_rules.keys().len() == 0,
            r.user_authorizers.keys().len() == 0,
            r.group_authorizers.keys().len() == 0,
            r.acl_lua is None,
            !r.compiled,
            r.user_authorizer_keys.keys().len() == 0,
            r.group_authorizer_keys.keys().len() == 0,
    {
        ResolvedAcl {
            user_rules: IdMap::new(),
            group_rules: IdMap::new(),
            user_authorizers: IdMap::new(),
            group_authorizers: IdMap::new(),
            acl_lua: None,
            compiled: false,
            user_authorizer_keys: IdMap::new(),
            group_authorizer_keys: IdMap::new(),
        }
    }

    /// Whether these are the rules of a configuration, given what its keys stand for.
    pub open spec fn resolves(
        self,
        acl: AclConfig,
        users: Seq<Result<u32, Seq<char>>>,
        groups: Seq<Result<u32, Seq<char>>>,
    ) -> bool {
        &&& rules_of(acl.users.values(), users, acl.aliases@, acl.users.keys().len()) == Ok::<
            Rules,
            Seq<char>,
        >(
            Rules { rights: rights_map(self.user_rules@), code: code_map(self.user_authorizers@) },
        )
        &&& rules_of(acl.groups.values(), groups, acl.aliases@, acl.groups.keys().len()) == Ok::<
            Rules,
            Seq<char>,
        >(
            Rules {
                rights: rights_map(self.group_rules@),
                code: code_map(self.group_authorizers@),
            },
        )
        &&& self.acl_lua == acl.lua
        &&& !self.compiled
        &&& self.user_authorizer_keys.keys().len() == 0
        &&& self.group_authorizer_keys.keys().len() == 0
    }

    /// What is wrong with a configuration, given what its keys stand for: the first wrong user
    /// rule, or else the first wrong group rule.
    pub open spec fn acl_fault(
        acl: AclConfig,
        users: Seq<Result<u32, Seq<char>>>,
        groups: Seq<Result<u32, Seq<char>>>,
    ) -> Option<Seq<char>> {
        match rules_of(acl.users.values(), users, acl.aliases@, acl.users.keys().len()) {
            Err(e) => Some(e),
            Ok(_) => match rules_of(
                acl.groups.values(),
                groups,
                acl.aliases@,
                acl.groups.keys().len(),
            ) {
                Err(e) => Some(e),
                Ok(_) => None,
            },
        }
    }

    /// The rules of a configuration, given what its keys stand for.
    pub fn from_config_with(
        acl: &AclConfig,
        users: Vec<Result<u32, String>>,
        groups: Vec<Result<u32, String>>,
    ) -> (r: Result<ResolvedAcl, String>)
        requires
            users@.len() == acl.users.keys().len(),
            groups@.len() == acl.groups.keys().len(),
        ensures
            match r {
                Ok(a) => a.resolves(*acl, id_views(users@), id_views(groups@)),
                Err(e) => Self::acl_fault(*acl, id_views(users@), id_views(groups@)) == Some(e@),
            },
    {
        let (user_rules, user_authorizers) = match resolve_rules(&acl.users, users, &acl.aliases) {
            Ok(x) => x,
            Err(e) => {
                return Err(e);
            },
        };
        let (group_rules, group_authorizers) = match resolve_rules(
            &acl.groups,
            groups,
            &acl.aliases,
        ) {
            Ok(x) => x,
            Err(e) => {
                return Err(e);
            },
        };
        Ok(
            ResolvedAcl {
                user_rules,
                group_rules,
                user_authorizers,
                group_authorizers,
                acl_lua: acl.lua.clone(),
                compiled: false,
                user_authorizer_keys: IdMap::new(),
                group_authorizer_keys: IdMap::new(),
            },
        )
    }

    /// The rules of a configuration. Numbers stand for themselves; names are looked up in the
    /// system.
    pub fn from_config(acl: &AclConfig) -> (r: Result<ResolvedAcl, String>)
        ensures
            exists|users: Seq<Result<u32, Seq<char>>>, groups: Seq<Result<u32, Seq<char>>>|
                {
                    &&& #[trigger] all_users(acl.users.keys(), users)
                    &&& #[trigger] all_groups(acl.groups.keys(), groups)
                    &&& match r {
                        Ok(a) => a.resolves(*acl, users, groups),
                        Err(e) => Self::acl_fault(*acl, users, groups) == Some(e@),
                    }
                },
    {
        let users = user_ids(&acl.users);
        let groups = group_ids(&acl.groups);
        proof {
            assert(all_users(acl.users.keys(), id_views(users@)));
            assert(all_groups(acl.groups.keys(), id_views(groups@)));
        }
        Self::from_config_with(acl, users, groups)
    }
}

/// Whether the keys stand for these users.
pub open spec fn all_users(keys: Seq<Seq<char>>, ids: Seq<Result<u32, Seq<char>>>) -> bool {
    ids.len() == keys.len() && forall|i: int|
        0 <= i < ids.len() ==> user_for(keys[i], #[trigger] ids[i])
}

/// Whether the keys stand for these groups.
pub open spec fn all_groups(keys: Seq<Seq<char>>, ids: Seq<Result<u32, Seq<char>>>) -> bool {
    ids.len() == keys.len() && forall|i: int|
        0 <= i < ids.len() ==> group_for(keys[i], #[trigger] ids[i])
}

// ---------------------------------------------------------------------------------------------
// Rights
// ---------------------------------------------------------------------------------------------

/// Whether some rule is for one of these groups.
pub open spec fn some_group(m: Map<u32, RightSet>, gids: Seq<u32>) -> bool {
    exists|i: int| 0 <= i < gids.len() && m.contains_key(#[trigger] gids[i])
}

/// The rights that the rules of groups grant.
pub open spec fn group_rights(m: Map<u32, RightSet>, gids: Seq<u32>) -> Set<Seq<char>>
    decreases gids.len(),
{
    if gids.len() == 0 {
        Set::empty()
    } else {
        let rest = group_rights(m, gids.drop_last());
        if m.contains_key(gids.last()) {
            rest.union(m[gids.last()]@)
        } else {
            rest
        }
    }
}

impl ResolvedAcl {
    /// Whether some rule is for the user or one of their groups.
    pub open spec fn concerns(self, uid: u32, gids: Seq<u32>) -> bool {
        self.user_rules@.contains_key(uid) || some_group(self.group_rules@, gids)
    }

    /// The rights of a user: those of the user and of all their groups together.
    pub open spec fn rights(self, uid: u32, gids: Seq<u32>) -> Set<Seq<char>> {
        let own = if self.user_rules@.contains_key(uid) {
            self.user_rules@[uid]@
        } else {
            Set::empty()
        };
        own.union(group_rights(self.group_rules@, gids))
    }

    /// The rights of a user of these groups, if some rule is for the user.
    pub open spec fn granted(self, uid: u32, gids: Seq<u32>) -> Option<Set<Seq<char>>> {
        if self.concerns(uid, gids) {
            Some(self.rights(uid, gids))
        } else {
            None
        }
    }

    /// The rights of a user of these groups, if some rule is for the user.
    pub fn collect_rights_for(&self, uid: u32, gids: &Vec<u32>) -> (r: Option<RightSet>)
        ensures
            rights_view(r) == self.granted(uid, gids@),
    {
        let mut matched: bool = false;
        let mut rights = RightSet::new();
        let ghost own = if self.user_rules@.contains_key(uid) {
            self.user_rules@[uid]@
        } else {
            Set::<Seq<char>>::empty()
        };
        if let Some(r) = self.user_rules.get(uid) {
            matched = true;
            rights.extend(r);
        }
        let mut i: usize = 0;
        assert(rights@ =~= own.union(group_rights(self.group_rules@, gids@.take(0))));
        while i < gids.len()
            invariant
                i <= gids@.len(),
                matched == (self.user_rules@.contains_key(uid) || exists|j: int|
                    0 <= j < i && self.group_rules@.contains_key(#[trigger] gids@[j])),
                rights@ == own.union(group_rights(self.group_rules@, gids@.take(i as int))),
            decreases gids@.len() - i,
        {
            let ghost before = rights@;
            assert(gids@.take(i + 1).drop_last() == gids@.take(i as int));
            if let Some(r) = self.group_rules.get(gids[i]) {
                matched = true;
                rights.extend(r);
            }
            assert(rights@ =~= own.union(group_rights(self.group_rules@, gids@.take(i + 1))));
            i += 1;
        }
        assert(gids@.take(i as int) == gids@);
        if matched {
            Some(rights)
        } else {
            None
        }
    }

    /// Whether these are the rights of a user, given what looking up their groups gave.
    pub open spec fn collects(
        self,
        uid: u32,
        groups: Result<Seq<u32>, Seq<char>>,
        r: Result<Option<RightSet>, String>,
    ) -> bool {
        match groups {
            Ok(gids) => r matches Ok(s) && rights_view(s) == self.granted(uid, gids),
            Err(e) => r matches Err(m) && m@ == e,
        }
    }

    /// The rights of a user, if some rule is for the user. The groups of the user are looked up
    /// in the system.
    pub fn collect_rights(&self, uid: u32, gid: u32) -> (r: Result<Option<RightSet>, String>)
        ensures
            exists|groups: Result<Seq<u32>, Seq<char>>| #[trigger]
                groups_for(uid, gid, groups) && self.collects(uid, groups, r),
    {
        let found = get_all_gids(uid, gid);
        assert(groups_for(uid, gid, gids_view(found)));
        match found {
            Ok(gids) => Ok(self.collect_rights_for(uid, &gids)),
            Err(e) => Err(e),
        }
    }

    /// Why a request is refused, given the rights of the user if some rule is for them.
    pub open spec fn refusal(granted: Option<Set<Seq<char>>>, request: Request) -> Option<Seq<char>> {
        match granted {
            None => if needed_rights(request) is None {
                None
            } else {
                Some("ACL denied: no matching rules for this user"@)
            },
            Some(rights) => match lacked_right(rights, request) {
                Some(m) => Some("ACL denied: "@ + ("missing right '"@ + m + "'"@)),
                None => None,
            },
        }
    }

    /// Checks a request, given the rights of the user if some rule is for them.
    pub fn check_granted(granted: &Option<RightSet>, request: &Request) -> (r: Result<(), String>)
        ensures
            match r {
                Ok(_) => Self::refusal(rights_view(*granted), *request) is None,
                Err(e) => Self::refusal(rights_view(*granted), *request) == Some(e@),
            },
    {
        match granted {
            None => {
                if required_rights(request).is_none() {
                    return Ok(());
                }
                Err("ACL denied: no matching rules for this user".to_owned())
            },
            Some(rights) => match check_rights(rights, request) {
                Ok(_) => Ok(()),
                Err(e) => Err(concat("ACL denied: ", e.as_str())),
            },
        }
    }

    /// Checks that a user may make a request. The groups of the user are looked up in the
    /// system.
    pub fn check_access(&self, uid: u32, gid: u32, request: &Request) -> (r: Result<(), String>)
        ensures
            exists|groups: Result<Seq<u32>, Seq<char>>| #[trigger]
                groups_for(uid, gid, groups) && refusal_view(r) == match groups {
                    Ok(gids) => Self::refusal(self.granted(uid, gids), *request),
                    Err(e) => Some(e),
                },
    {
        match self.collect_rights(uid, gid) {
            Ok(granted) => Self::check_granted(&granted, request),
            Err(e) => Err(e),
        }
    }

    /// Whether a user of these groups may see the configuration: they have the right to its
    /// status.
    pub fn has_read_access_for(&self, uid: u32, gids: &Vec<u32>) -> (r: bool)
        ensures
            r == self.rights(uid, gids@).contains("status"@),
    {
        match self.collect_rights_for(uid, gids) {
            Some(rights) => rights.contains("status"),
            None => {
                proof {
                    lemma_no_group_no_right(self.group_rules@, gids@);
                }
                false
            },
        }
    }

    /// Whether a user may see the configuration, given what looking up their groups gave: not if
    /// that failed.
    pub fn has_read_access_with(&self, uid: u32, groups: &Result<Vec<u32>, String>) -> (r: bool)
        ensures
            r == (groups matches Ok(gids) && self.rights(uid, gids@).contains("status"@)),
    {
        match groups {
            Ok(gids) => self.has_read_access_for(uid, gids),
            Err(_) => false,
        }
    }

    /// Whether a user may see the configuration. The groups of the user are looked up in the
    /// system; if that fails, they may not.
    pub fn has_read_access(&self, uid: u32, gid: u32) -> (r: bool)
        ensures
            exists|groups: Result<Seq<u32>, Seq<char>>| #[trigger]
                groups_for(uid, gid, groups) && r == (groups matches Ok(gids) && self.rights(
                    uid,
                    gids,
                ).contains("status"@)),
    {
        let groups = get_all_gids(uid, gid);
        assert(groups_for(uid, gid, gids_view(groups)));
        self.has_read_access_with(uid, &groups)
    }
}

/// The view of optional rights.
pub open spec fn rights_view(r: Option<RightSet>) -> Option<Set<Seq<char>>> {
    match r {
        Some(s) => Some(s@),
        None => None,
    }
}

proof fn lemma_no_group_no_right(m: Map<u32, RightSet>, gids: Seq<u32>)
    requires
        !some_group(m, gids),
    ensures
        group_rights(m, gids) == Set::<Seq<char>>::empty(),
    decreases gids.len(),
{
    if gids.len() > 0 {
        let front = gids.drop_last();
        assert(!some_group(m, front)) by {
            if some_group(m, front) {
                let i = choose|i: int| 0 <= i < front.len() && m.contains_key(#[trigger] front[i]);
                assert(gids[i] == front[i]);
            }
        }
        lemma_no_group_no_right(m, front);
        assert(gids.last() == gids[gids.len() - 1]);
    }
}

/// Rights grow with the groups of a user: whoever is in more groups has at least as many.
pub proof fn law_more_groups_more_rights(acl: ResolvedAcl, uid: u32, gids: Seq<u32>, more: Seq<u32>)
    ensures
        acl.rights(uid, gids).subset_of(acl.rights(uid, gids + more)),
    decreases more.len(),
{
    if more.len() == 0 {
        assert(gids + more == gids);
    } else {
        law_more_groups_more_rights(acl, uid, gids, more.drop_last());
        assert((gids + more).drop_last() == gids + more.drop_last());
    }
}

// ---------------------------------------------------------------------------------------------
// Who may do what
// ---------------------------------------------------------------------------------------------

/// Whether the rights of a caller depend on the rules: root and the owner do not need them.
pub open spec fn asks_rules(auth: AuthContext, owner_uid: Option<u32>) -> bool {
    match auth {
        AuthContext::Root { .. } => false,
        AuthContext::Group { uid, .. } => Some(uid) != owner_uid,
        AuthContext::Token { uid, .. } => uid != 0 && Some(uid) != owner_uid,
    }
}

/// The rights of a caller, given what the rules grant them. Root and the owner have all rights.
/// A member of the daemon's group has what the rules grant, if anything. The bearer of a token
/// has what the token allows, if they are root or the owner; else what the token and the rules
/// both allow; and no access at all where no rule is for them.
pub open spec fn effective(
    auth: AuthContext,
    owner_uid: Option<u32>,
    granted: Option<Set<Seq<char>>>,
) -> Option<Set<Seq<char>>> {
    match auth {
        AuthContext::Root { .. } => Some(every_right()),
        AuthContext::Group { uid, .. } => if Some(uid) == owner_uid {
            Some(every_right())
        } else {
            match granted {
                Some(s) => Some(s),
                None => Some(Set::empty()),
            }
        },
        AuthContext::Token { uid, ctx, .. } => if uid == 0 || Some(uid) == owner_uid {
            Some(ctx.allow@)
        } else {
            match granted {
                Some(s) => Some(ctx.allow@.intersect(s)),
                None => None,
            }
        },
    }
}

/// Whether an optional number is this one.
fn is_owner(owner_uid: Option<u32>, uid: u32) -> (r: bool)
    ensures
        r == (Some(uid) == owner_uid),
{
    match owner_uid {
        Some(o) => o == uid,
        None => false,
    }
}

/// The rights of a caller, given what the rules grant them.
pub fn effective_rights_with(
    auth_ctx: &AuthContext,
    owner_uid: Option<u32>,
    granted: Option<RightSet>,
) -> (r: Option<RightSet>)
    ensures
        rights_view(r) == effective(*auth_ctx, owner_uid, rights_view(granted)),
{
    match auth_ctx {
        AuthContext::Root { .. } => Some(all_rights()),
        AuthContext::Group { uid, .. } => {
            if is_owner(owner_uid, *uid) {
                return Some(all_rights());
            }
            match granted {
                Some(s) => Some(s),
                None => Some(RightSet::new()),
            }
        },
        AuthContext::Token { uid, gid: _, ctx } => {
            if *uid == 0 || is_owner(owner_uid, *uid) {
                return Some(ctx.allow.copy());
            }
            match granted {
                Some(s) => Some(ctx.allow.intersection(&s)),
                None => None,
            }
        },
    }
}

/// The rights of a caller on a configuration. The groups of the caller are looked up in the
/// system where the rules are asked.
pub fn effective_rights(
    auth_ctx: &AuthContext,
    owner_uid: Option<u32>,
    acl: Option<&ResolvedAcl>,
) -> (r: Result<Option<RightSet>, String>)
    ensures
        !asks_rules(*auth_ctx, owner_uid) || acl is None ==> (r matches Ok(s) && rights_view(s)
            == effective(*auth_ctx, owner_uid, None)),
        asks_rules(*auth_ctx, owner_uid) && acl is Some ==> exists|
            groups: Result<Seq<u32>, Seq<char>>,
        | #[trigger]
            groups_for(caller(*auth_ctx).0, caller(*auth_ctx).1, groups) && match groups {
                Ok(gids) => r matches Ok(s) && rights_view(s) == effective_in(
                    *auth_ctx,
                    owner_uid,
                    *acl->0,
                    gids,
                ),
                Err(e) => r matches Err(m) && m@ == e,
            },
{
    let uid: u32 = auth_ctx.uid();
    let gid: u32 = auth_ctx.gid();
    let exempt: bool = match auth_ctx {
        AuthContext::Root { .. } => true,
        AuthContext::Group { .. } => is_owner(owner_uid, uid),
        AuthContext::Token { .. } => uid == 0 || is_owner(owner_uid, uid),
    };
    if let Some(acl) = acl {
        if !exempt {
            let found = acl.collect_rights(uid, gid);
            let ghost groups = choose|groups: Result<Seq<u32>, Seq<char>>| #[trigger]
                groups_for(uid, gid, groups) && acl.collects(uid, groups, found);
            assert(groups_for(caller(*auth_ctx).0, caller(*auth_ctx).1, groups));
            let granted = match found {
                Ok(g) => g,
                Err(e) => {
                    return Err(e);
                },
            };
            return Ok(effective_rights_with(auth_ctx, owner_uid, granted));
        }
    }
    Ok(effective_rights_with(auth_ctx, owner_uid, None))
}

/// The rights of a caller who is in these groups.
pub open spec fn effective_in(
    auth: AuthContext,
    owner_uid: Option<u32>,
    acl: ResolvedAcl,
    gids: Seq<u32>,
) -> Option<Set<Seq<char>>> {
    effective(auth, owner_uid, acl.granted(caller(auth).0, gids))
}

/// The user and the primary group of a caller.
pub open spec fn caller(auth: AuthContext) -> (u32, u32) {
    match auth {
        AuthContext::Root { uid, gid } => (uid, gid),
        AuthContext::Group { uid, gid } => (uid, gid),
        AuthContext::Token { uid, gid, .. } => (uid, gid),
    }
}

/// The bearer of a token never has a right that the token does not allow.
pub proof fn law_token_bounds_rights(
    auth: AuthContext,
    owner_uid: Option<u32>,
    granted: Option<Set<Seq<char>>>,
)
    requires
        auth is Token,
    ensures
        effective(auth, owner_uid, granted) matches Some(s) ==> s.subset_of(auth->ctx.allow@),
{
}

/// A member of the daemon's group who is not the owner never has a right that the rules do not
/// grant.
pub proof fn law_rules_bound_rights(
    uid: u32,
    gid: u32,
    owner_uid: Option<u32>,
    granted: Option<Set<Seq<char>>>,
)
    requires
        Some(uid) != owner_uid,
    ensures
        effective(AuthContext::Group { uid, gid }, owner_uid, granted) matches Some(s)
            ==> s.subset_of(
            match granted {
                Some(g) => g,
                None => Set::empty(),
            },
        ),
{
}

// ---------------------------------------------------------------------------------------------
// Deciding code
// ---------------------------------------------------------------------------------------------

/// Whether the list holds in ascending order the groups that have an entry.
pub open spec fn entries_ascend(list: Seq<u32>, has: spec_fn(u32) -> bool, gids: Seq<u32>) -> bool {
    &&& forall|i: int, j: int| 0 <= i < j < list.len() ==> list[i] < list[j]
    &&& forall|g: u32| #[trigger] list.contains(g) <==> gids.contains(g) && has(g)
}

/// Puts a number into an ascending list.
fn insert_sorted(list: &mut Vec<u32>, id: u32)
    requires
        forall|i: int, j: int| 0 <= i < j < old(list)@.len() ==> old(list)@[i] < old(list)@[j],
    ensures
        forall|i: int, j: int| 0 <= i < j < final(list)@.len() ==> final(list)@[i] < final(list)@[j],
        forall|g: u32| #[trigger]
            final(list)@.contains(g) <==> old(list)@.contains(g) || g == id,
{
    if has_id(list, id) {
        return;
    }
    let ghost before = list@;
    let mut p: usize = 0;
    while p < list.len() && list[p] < id
        invariant
            p <= list@.len(),
            list@ == before,
            forall|k: int| 0 <= k < p ==> #[trigger] before[k] < id,
        decreases list@.len() - p,
    {
        p += 1;
    }
    list.insert(p, id);
    proof {
        assert forall|i: int, j: int| 0 <= i < j < list@.len() implies list@[i] < list@[j] by {
            if p < before.len() {
                assert(before[p as int] >= id);
                assert(before[p as int] != id) by {
                    if before[p as int] == id {
                        assert(before.contains(id));
                    }
                }
            }
        }
        assert forall|g: u32| #[trigger] list@.contains(g) <==> before.contains(g) || g == id by {
            if list@.contains(g) {
                let k = list@.index_of(g);
                if k < p {
                    assert(before[k] == g);
                } else if k > p {
                    assert(before[k - 1] == g);
                }
            }
            if before.contains(g) {
                let k = before.index_of(g);
                if k < p {
                    assert(list@[k] == g);
                } else {
                    assert(list@[k + 1] == g);
                }
            }
            assert(list@[p as int] == id);
        }
    }
}

/// The groups that have an entry, in ascending order.
fn matching_groups<V>(entries: &IdMap<V>, gids: &Vec<u32>) -> (r: Vec<u32>)
    ensures
        entries_ascend(r@, |g: u32| entries@.contains_key(g), gids@),
{
    let mut out: Vec<u32> = Vec::new();
    let mut i: usize = 0;
    while i < gids.len()
        invariant
            i <= gids@.len(),
            forall|a: int, b: int| 0 <= a < b < out@.len() ==> out@[a] < out@[b],
            forall|g: u32| #[trigger]
                out@.contains(g) <==> gids@.take(i as int).contains(g) && entries@.contains_key(g),
        decreases gids@.len() - i,
    {
        let ghost before = out@;
        if entries.contains_key(gids[i]) {
            insert_sorted(&mut out, gids[i]);
        }
        proof {
            let t0 = gids@.take(i as int);
            let t1 = gids@.take(i + 1);
            assert forall|g: u32| #[trigger] out@.contains(g) <==> t1.contains(g)
                && entries@.contains_key(g) by {
                assert(before.contains(g) <==> t0.contains(g) && entries@.contains_key(g));
                if t0.contains(g) {
                    assert(t1[t0.index_of(g)] == g);
                }
                if t1.contains(g) {
                    let k = t1.index_of(g);
                    if k < i {
                        assert(t0[k] == g);
                    }
                }
                assert(t1[i as int] == gids@[i as int]);
            }
        }
        i += 1;
    }
    assert(gids@.take(i as int) == gids@);
    out
}

/// Whether the list holds the entry of the user, if any, then those of the groups by ascending
/// number.
pub open spec fn in_turn<V>(
    list: Seq<(u32, V)>,
    users: Map<u32, V>,
    groups: Map<u32, V>,
    uid: u32,
    gids: Seq<u32>,
) -> bool {
    let first: nat = if users.contains_key(uid) {
        1
    } else {
        0
    };
    &&& list.len() >= first
    &&& users.contains_key(uid) ==> list[0] == (uid, users[uid])
    &&& entries_ascend(
        Seq::new((list.len() - first) as nat, |i: int| list[i + first].0),
        |g: u32| groups.contains_key(g),
        gids,
    )
    &&& forall|i: int| first <= i < list.len() ==> (#[trigger] list[i]).1 == groups[list[i].0]
}

impl ResolvedAcl {
    /// The deciding code for a user of these groups: that of the user, then that of the groups
    /// by ascending number.
    pub fn collect_authorizers_for(&self, uid: u32, gids: &Vec<u32>) -> (r: Vec<(u32, String)>)
        ensures
            in_turn(r@, self.user_authorizers@, self.group_authorizers@, uid, gids@),
    {
        let mut out: Vec<(u32, String)> = Vec::new();
        if let Some(src) = self.user_authorizers.get(uid) {
            out.push((uid, src.clone()));
        }
        let ghost first = out@.len();
        let groups = matching_groups(&self.group_authorizers, gids);
        let mut i: usize = 0;
        while i < groups.len()
            invariant
                i <= groups@.len(),
                first == (if self.user_authorizers@.contains_key(uid) {
                    1nat
                } else {
                    0nat
                }),
                out@.len() == first + i,
                self.user_authorizers@.contains_key(uid) ==> out@[0] == (
                    uid,
                    self.user_authorizers@[uid],
                ),
                entries_ascend(groups@, |g: u32| self.group_authorizers@.contains_key(g), gids@),
                forall|k: int|
                    0 <= k < i ==> (#[trigger] out@[k + first]) == (
                        groups@[k],
                        self.group_authorizers@[groups@[k]],
                    ),
            decreases groups@.len() - i,
        {
            let ghost before = out@;
            assert(groups@.contains(groups@[i as int]));
            if let Some(src) = self.group_authorizers.get(groups[i]) {
                out.push((groups[i], src.clone()));
            }
            assert forall|k: int| 0 <= k < i + 1 implies (#[trigger] out@[k + first]) == (
                groups@[k],
                self.group_authorizers@[groups@[k]],
            ) by {
                if k < i {
                    assert(out@[k + first] == before[k + first]);
                }
            }
            i += 1;
        }
        proof {
            let ids = Seq::new((out@.len() - first) as nat, |k: int| out@[k + first].0);
            assert(ids =~= groups@);
            assert forall|k: int| first <= k < out@.len() implies (#[trigger] out@[k]).1
                == self.group_authorizers@[out@[k].0] by {
                assert(out@[(k - first) + first] == out@[k]);
            }
        }
        out
    }

    /// The deciding code for a user. The groups of the user are looked up in the system.
    pub fn collect_authorizers(&self, uid: u32, gid: u32) -> (r: Result<Vec<(u32, String)>, String>)
        ensures
            exists|groups: Result<Seq<u32>, Seq<char>>| #[trigger]
                groups_for(uid, gid, groups) && match groups {
                    Ok(gids) => r matches Ok(list) && in_turn(
                        list@,
                        self.user_authorizers@,
                        self.group_authorizers@,
                        uid,
                        gids,
                    ),
                    Err(e) => r matches Err(m) && m@ == e,
                },
    {
        let found = get_all_gids(uid, gid);
        assert(groups_for(uid, gid, gids_view(found)));
        match found {
            Ok(gids) => Ok(self.collect_authorizers_for(uid, &gids)),
            Err(e) => Err(e),
        }
    }

    /// Code that the deciding code may use.
    pub fn acl_lua(&self) -> (r: Option<&str>)
        ensures
            match r {
                Some(s) => self.acl_lua matches Some(t) && s@ == t@,
                None => self.acl_lua is None,
            },
    {
        match &self.acl_lua {
            Some(s) => Some(s.as_str()),
            None => None,
        }
    }

    /// Whether there is any deciding code.
    pub fn has_authorizers(&self) -> (r: bool)
        ensures
            r == (self.user_authorizers.keys().len() > 0 || self.group_authorizers.keys().len() > 0),
    {
        self.user_authorizers.len() > 0 || self.group_authorizers.len() > 0
    }

    /// The deciding code of all users and then all groups, numbered from zero.
    pub fn authorizer_sources(&self) -> (r: Vec<(u32, String)>)
        requires
            self.user_authorizers.keys().len() + self.group_authorizers.keys().len() <= u32::MAX,
        ensures
            r@.len() == self.user_authorizers.keys().len() + self.group_authorizers.keys().len(),
            forall|i: int|
                0 <= i < r@.len() ==> (#[trigger] r@[i]) == (
                    i as u32,
                    if i < self.user_authorizers.keys().len() {
                        self.user_authorizers.values()[i]
                    } else {
                        self.group_authorizers.values()[i - self.user_authorizers.keys().len()]
                    },
                ),
    {
        let n: usize = self.user_authorizers.len();
        let k: usize = self.group_authorizers.len();
        let mut out: Vec<(u32, String)> = Vec::new();
        let mut i: usize = 0;
        while i < n
            invariant
                i <= n,
                n == self.user_authorizers.keys().len(),
                n + self.group_authorizers.keys().len() <= u32::MAX,
                self.user_authorizers.well_formed(),
                out@.len() == i,
                forall|j: int|
                    0 <= j < i ==> (#[trigger] out@[j]) == (
                        j as u32,
                        self.user_authorizers.values()[j],
                    ),
            decreases n - i,
        {
            out.push((i as u32, self.user_authorizers.value_at(i).clone()));
            i += 1;
        }
        let mut g: usize = 0;
        while g < k
            invariant
                g <= k,
                n == self.user_authorizers.keys().len(),
                k == self.group_authorizers.keys().len(),
                n + k <= u32::MAX,
                self.group_authorizers.well_formed(),
                out@.len() == n + g,
                forall|j: int|
                    0 <= j < n + g ==> (#[trigger] out@[j]) == (
                        j as u32,
                        if j < n {
                            self.user_authorizers.values()[j]
                        } else {
                            self.group_authorizers.values()[j - n]
                        },
                    ),
            decreases k - g,
        {
            let number: usize = n + g;
            out.push((number as u32, self.group_authorizers.value_at(g).clone()));
            g += 1;
        }
        out
    }

    /// Notes the compiled code, by the numbers of the sources. Where the code could not be
    /// compiled nothing changes.
    pub fn init_authorizers(&mut self, compiled: Result<IdMap<u64>, String>) -> (r: Result<
        (),
        String,
    >)
        requires
            old(self).user_authorizers.keys().len() + old(self).group_authorizers.keys().len()
                <= u32::MAX,
        ensures
            match compiled {
                Ok(map) => {
                    &&& r is Ok
                    &&& compiled_for(
                        final(self).user_authorizer_keys@,
                        old(self).user_authorizers.keys(),
                        0,
                        map@,
                    )
                    &&& compiled_for(
                        final(self).group_authorizer_keys@,
                        old(self).group_authorizers.keys(),
                        old(self).user_authorizers.keys().len(),
                        map@,
                    )
                    &&& *final(self) == (ResolvedAcl {
                        compiled: true,
                        user_authorizer_keys: final(self).user_authorizer_keys,
                        group_authorizer_keys: final(self).group_authorizer_keys,
                        ..*old(self)
                    })
                },
                Err(e) => *final(self) == *old(self) && r == Err::<(), String>(e),
            },
    {
        match compiled {
            Ok(map) => {
                let n: usize = self.user_authorizers.len();
                self.user_authorizer_keys = pick_compiled(&self.user_authorizers, 0, &map);
                self.group_authorizer_keys = pick_compiled(&self.group_authorizers, n, &map);
                self.compiled = true;
                Ok(())
            },
            Err(e) => Err(e),
        }
    }

    /// The compiled code that decides on a request of a user of these groups: that of the token,
    /// if any, then that of the user, then that of the groups by ascending number. Without
    /// compiled code there is nothing to ask.
    pub fn authorizer_chain(&self, token: Option<u64>, uid: u32, gids: &Vec<u32>) -> (r: Vec<u64>)
        ensures
            !self.compiled ==> r@.len() == 0,
            self.compiled ==> exists|list: Seq<(u32, u64)>|
                {
                    &&& #[trigger] in_turn(
                        list,
                        self.user_authorizer_keys@,
                        self.group_authorizer_keys@,
                        uid,
                        gids@,
                    )
                    &&& r@ == (match token {
                        Some(t) => seq![t],
                        None => Seq::<u64>::empty(),
                    }) + list.map_values(|p: (u32, u64)| p.1)
                },
    {
        let mut out: Vec<u64> = Vec::new();
        if !self.compiled {
            return out;
        }
        if let Some(t) = token {
            out.push(t);
        }
        let ghost head = match token {
            Some(t) => seq![t],
            None => Seq::<u64>::empty(),
        };
        assert(out@ == head);
        let pairs = self.collect_authorizer_keys_for(uid, gids);
        let ghost tail = pairs@.map_values(|p: (u32, u64)| p.1);
        let mut i: usize = 0;
        assert(head + tail.take(0) == head);
        while i < pairs.len()
            invariant
                i <= pairs@.len(),
                tail == pairs@.map_values(|p: (u32, u64)| p.1),
                out@ == head + tail.take(i as int),
            decreases pairs@.len() - i,
        {
            out.push(pairs[i].1);
            assert(head + tail.take(i + 1) == (head + tail.take(i as int)).push(tail[i as int]));
            i += 1;
        }
        assert(tail.take(i as int) == tail);
        out
    }

    /// The compiled code for a user of these groups, with the numbers that it is for.
    pub fn collect_authorizer_keys_for(&self, uid: u32, gids: &Vec<u32>) -> (r: Vec<(u32, u64)>)
        ensures
            in_turn(r@, self.user_authorizer_keys@, self.group_authorizer_keys@, uid, gids@),
    {
        let mut out: Vec<(u32, u64)> = Vec::new();
        if let Some(key) = self.user_authorizer_keys.get(uid) {
            out.push((uid, *key));
        }
        let ghost first = out@.len();
        let groups = matching_groups(&self.group_authorizer_keys, gids);
        let mut i: usize = 0;
        while i < groups.len()
            invariant
                i <= groups@.len(),
                first == (if self.user_authorizer_keys@.contains_key(uid) {
                    1nat
                } else {
                    0nat
                }),
                out@.len() == first + i,
                self.user_authorizer_keys@.contains_key(uid) ==> out@[0] == (
                    uid,
                    self.user_authorizer_keys@[uid],
                ),
                entries_ascend(
                    groups@,
                    |g: u32| self.group_authorizer_keys@.contains_key(g),
                    gids@,
                ),
                forall|k: int|
                    0 <= k < i ==> (#[trigger] out@[k + first]) == (
                        groups@[k],
                        self.group_authorizer_keys@[groups@[k]],
                    ),
            decreases groups@.len() - i,
        {
            let ghost before = out@;
            assert(groups@.contains(groups@[i as int]));
            if let Some(key) = self.group_authorizer_keys.get(groups[i]) {
                out.push((groups[i], *key));
            }
            assert forall|k: int| 0 <= k < i + 1 implies (#[trigger] out@[k + first]) == (
                groups@[k],
                self.group_authorizer_keys@[groups@[k]],
            ) by {
                if k < i {
                    assert(out@[k + first] == before[k + first]);
                }
            }
            i += 1;
        }
        proof {
            let ids = Seq::new((out@.len() - first) as nat, |k: int| out@[k + first].0);
            assert(ids =~= groups@);
            assert forall|k: int| first <= k < out@.len() implies (#[trigger] out@[k]).1
                == self.group_authorizer_keys@[out@[k].0] by {
                assert(out@[(k - first) + first] == out@[k]);
            }
        }
        out
    }

    /// The compiled code for a user. The groups of the user are looked up in the system.
    pub fn collect_authorizer_keys(&self, uid: u32, gid: u32) -> (r: Result<Vec<(u32, u64)>, String>)
        ensures
            exists|groups: Result<Seq<u32>, Seq<char>>| #[trigger]
                groups_for(uid, gid, groups) && match groups {
                    Ok(gids) => r matches Ok(list) && in_turn(
                        list@,
                        self.user_authorizer_keys@,
                        self.group_authorizer_keys@,
                        uid,
                        gids,
                    ),
                    Err(e) => r matches Err(m) && m@ == e,
                },
    {
        let found = get_all_gids(uid, gid);
        assert(groups_for(uid, gid, gids_view(found)));
        match found {
            Ok(gids) => Ok(self.collect_authorizer_keys_for(uid, &gids)),
            Err(e) => Err(e),
        }
    }

    /// Code of a token can be compiled only beside compiled rules.
    pub fn check_compiled(&self) -> (r: Result<(), String>)
        ensures
            match r {
                Ok(_) => self.compiled,
                Err(e) => !self.compiled && e@
                    == "No ACL Lua VM available for token authorizer compilation"@,
            },
    {
        if self.compiled {
            Ok(())
        } else {
            Err("No ACL Lua VM available for token authorizer compilation".to_owned())
        }
    }
}

/// Whether the map holds the compiled code of the entries, which are numbered from `first`.
pub open spec fn compiled_for(
    keys: Map<u32, u64>,
    ids: Seq<u32>,
    first: nat,
    compiled: Map<u32, u64>,
) -> bool {
    &&& forall|i: int|
        0 <= i < ids.len() ==> (keys.contains_key(#[trigger] ids[i]) <==> compiled.contains_key(
            (first + i) as u32,
        ))
    &&& forall|i: int|
        0 <= i < ids.len() && compiled.contains_key((first + i) as u32) ==> keys[#[trigger] ids[i]]
            == compiled[(first + i) as u32]
    &&& forall|id: u32| #[trigger] keys.contains_key(id) ==> ids.contains(id)
}

/// The compiled code of entries, which are numbered from `first`.
fn pick_compiled(entries: &IdMap<String>, first: usize, compiled: &IdMap<u64>) -> (r: IdMap<u64>)
    requires
        first + entries.keys().len() <= u32::MAX,
    ensures
        compiled_for(r@, entries.keys(), first as nat, compiled@),
{
    let n: usize = entries.len();
    let ghost ids = entries.keys();
    let mut out: IdMap<u64> = IdMap::new();
    let mut i: usize = 0;
    while i < n
        invariant
            i <= n,
            n == ids.len(),
            ids == entries.keys(),
            ids.no_duplicates(),
            first + n <= u32::MAX,
            forall|j: int|
                0 <= j < i ==> (out@.contains_key(#[trigger] ids[j]) <==> compiled@.contains_key(
                    (first + j) as u32,
                )),
            forall|j: int|
                0 <= j < i && compiled@.contains_key((first + j) as u32) ==> out@[#[trigger] ids[j]]
                    == compiled@[(first + j) as u32],
            forall|id: u32| #[trigger]
                out@.contains_key(id) ==> ids.take(i as int).contains(id),
        decreases n - i,
    {
        let ghost before = out@;
        let ghost id = ids[i as int];
        let number: usize = first + i;
        proof {
            let t0 = ids.take(i as int);
            assert(!t0.contains(id)) by {
                if t0.contains(id) {
                    assert(ids[t0.index_of(id)] == ids[i as int]);
                }
            }
            let t1 = ids.take(i + 1);
            assert forall|x: u32| t0.contains(x) || x == id implies t1.contains(x) by {
                if t0.contains(x) {
                    assert(t1[t0.index_of(x)] == x);
                } else {
                    assert(t1[i as int] == x);
                }
            }
        }
        if let Some(key) = compiled.get(number as u32) {
            out.insert(entries.key_at(i), *key);
        }
        proof {
            assert forall|j: int| 0 <= j < i implies ids[j] != id by {}
        }
        i += 1;
    }
    assert(ids.take(i as int) == ids);
    out
}

// ---------------------------------------------------------------------------------------------
// What holds of rules and rights
// ---------------------------------------------------------------------------------------------

/// A right of groups is a right of one of them.
proof fn lemma_group_rights(m: Map<u32, RightSet>, gids: Seq<u32>, x: Seq<char>)
    ensures
        group_rights(m, gids).contains(x) <==> exists|i: int|
            0 <= i < gids.len() && m.contains_key(#[trigger] gids[i]) && m[gids[i]]@.contains(x),
    decreases gids.len(),
{
    if gids.len() > 0 {
        let front = gids.drop_last();
        lemma_group_rights(m, front, x);
        if group_rights(m, front).contains(x) {
            let i = choose|i: int|
                0 <= i < front.len() && m.contains_key(#[trigger] front[i])
                    && m[front[i]]@.contains(x);
            assert(m.contains_key(gids[i]));
        }
        if m.contains_key(gids.last()) && m[gids.last()]@.contains(x) {
            assert(m.contains_key(gids[gids.len() - 1]));
        }
        if exists|i: int|
            0 <= i < gids.len() && m.contains_key(#[trigger] gids[i]) && m[gids[i]]@.contains(x) {
            let i = choose|i: int|
                0 <= i < gids.len() && m.contains_key(#[trigger] gids[i])
                    && m[gids[i]]@.contains(x);
            if i < front.len() {
                assert(m.contains_key(front[i]));
            }
        }
    }
}

/// A user has a right exactly if the rule of the user or that of one of their groups grants it; who
/// is under no rule has none granted. The right to the status is the right to see the
/// configuration.
pub proof fn law_rights_come_from_rules(
    acl: ResolvedAcl,
    uid: u32,
    gids: Vec<u32>,
    r: Option<RightSet>,
    sees: bool,
    x: Seq<char>,
)
    requires
        call_ensures(ResolvedAcl::collect_rights_for, (&acl, uid, &gids), r),
        call_ensures(ResolvedAcl::has_read_access_for, (&acl, uid, &gids), sees),
    ensures
        r is None <==> !acl.user_rules@.contains_key(uid) && forall|i: int|
            0 <= i < gids@.len() ==> !acl.group_rules@.contains_key(#[trigger] gids@[i]),
        r matches Some(s) ==> (s@.contains(x) <==> {
            ||| acl.user_rules@.contains_key(uid) && acl.user_rules@[uid]@.contains(x)
            ||| exists|i: int|
                0 <= i < gids@.len() && acl.group_rules@.contains_key(#[trigger] gids@[i])
                    && acl.group_rules@[gids@[i]]@.contains(x)
        }),
        sees <==> (r matches Some(s) && s@.contains("status"@)),
{
    lemma_group_rights(acl.group_rules@, gids@, x);
    if !acl.concerns(uid, gids@) {
        lemma_no_group_no_right(acl.group_rules@, gids@);
    }
}

/// What rules by number hold of one rule, and where their rights come from.
proof fn lemma_rules_of(
    rules: Seq<AclRule>,
    ids: Seq<Result<u32, Seq<char>>>,
    aliases: Map<Seq<char>, Vec<String>>,
    n: nat,
    k: int,
    id: u32,
    x: Seq<char>,
)
    requires
        n <= rules.len(),
        n <= ids.len(),
    ensures
        rules_of(rules, ids, aliases, n) matches Ok(done) ==> {
            &&& 0 <= k < n ==> {
                &&& ids[k] is Ok
                &&& allowed(views(rules[k].allow@), aliases) is Ok
                &&& done.rights.contains_key(ids[k]->Ok_0)
                &&& allowed(views(rules[k].allow@), aliases)->Ok_0.subset_of(
                    done.rights[ids[k]->Ok_0],
                )
                &&& rules[k].authorize is Some ==> done.code.contains_key(ids[k]->Ok_0)
            }
            &&& done.rights.contains_key(id) && done.rights[id].contains(x) ==> exists|j: int|
                0 <= j < n && #[trigger] ids[j] == Ok::<u32, Seq<char>>(id) && (allowed(
                    views(rules[j].allow@),
                    aliases,
                ) matches Ok(s) && s.contains(x))
            &&& done.rights.contains_key(id) ==> exists|j: int|
                0 <= j < n && #[trigger] ids[j] == Ok::<u32, Seq<char>>(id)
            &&& done.code.contains_key(id) ==> exists|j: int|
                0 <= j < n && #[trigger] ids[j] == Ok::<u32, Seq<char>>(id) && rules[j].authorize
                    is Some && rules[j].authorize->0@ == done.code[id]
        },
    decreases n,
{
    if n > 0 {
        lemma_rules_of(rules, ids, aliases, (n - 1) as nat, k, id, x);
        if rules_of(rules, ids, aliases, n) is Ok {
            let done = rules_of(rules, ids, aliases, (n - 1) as nat)->Ok_0;
            let all = rules_of(rules, ids, aliases, n)->Ok_0;
            let last = ids[n - 1]->Ok_0;
            let rights = allowed(views(rules[n - 1].allow@), aliases)->Ok_0;
            assert(all.rights == done.rights.insert(last, rights_at(done.rights, last).union(rights)));
            assert(ids[n - 1] == Ok::<u32, Seq<char>>(last));
        }
    }
}

/// Rules by number grant a user what is configured for them: what each rule allows whose key
/// stands for the user, and nothing else. Each rule with deciding code leaves code for its user.
pub proof fn law_configured_rules_are_kept(
    config: AclConfig,
    users: Vec<Result<u32, String>>,
    groups: Vec<Result<u32, String>>,
    r: Result<ResolvedAcl, String>,
    k: int,
    id: u32,
    rights: Result<RightSet, String>,
    x: Seq<char>,
)
    requires
        users@.len() == config.users.keys().len(),
        groups@.len() == config.groups.keys().len(),
        config.users.values().len() == config.users.keys().len(),
        config.groups.values().len() == config.groups.keys().len(),
        call_ensures(ResolvedAcl::from_config_with, (&config, users, groups), r),
        0 <= k < users@.len(),
        call_ensures(expand_allow, (&config.users.values()[k].allow, &config.aliases), rights),
    ensures
        users@[k] is Err || rights is Err ==> r is Err,
        r is Ok && users@[k] == Ok::<u32, String>(id) ==> {
            let acl = r->Ok_0;
            &&& acl.user_rules@.contains_key(id)
            &&& rights->Ok_0@.contains(x) ==> acl.user_rules@[id]@.contains(x)
            &&& config.users.values()[k].authorize is Some ==> acl.user_authorizers@.contains_key(
                id,
            )
        },
        r is Ok && r->Ok_0.user_rules@.contains_key(id) ==> exists|j: int|
            0 <= j < users@.len() && #[trigger] users@[j] == Ok::<u32, String>(id),
        r matches Ok(acl) ==> acl.acl_lua == config.lua,
{
    let ids = id_views(users@);
    assert(ids[k] == id_view(users@[k]));
    let n = config.users.keys().len();
    lemma_rules_of(config.users.values(), ids, config.aliases@, n, k, id, x);
    if r is Ok {
        let acl = r->Ok_0;
        assert(rights_map(acl.user_rules@).contains_key(id) <==> acl.user_rules@.contains_key(id));
        assert(code_map(acl.user_authorizers@).contains_key(id)
            <==> acl.user_authorizers@.contains_key(id));
        if acl.user_rules@.contains_key(id) {
            let j = choose|j: int|
                0 <= j < n && #[trigger] ids[j] == Ok::<u32, Seq<char>>(id);
            assert(ids[j] == id_view(users@[j]));
            assert(users@[j] == Ok::<u32, String>(id));
        }
    }
}

/// The same of groups: their rules grant what is configured for them.
pub proof fn law_configured_group_rules_are_kept(
    config: AclConfig,
    users: Vec<Result<u32, String>>,
    groups: Vec<Result<u32, String>>,
    acl: ResolvedAcl,
    k: int,
    id: u32,
    rights: Result<RightSet, String>,
    x: Seq<char>,
)
    requires
        users@.len() == config.users.keys().len(),
        groups@.len() == config.groups.keys().len(),
        config.groups.values().len() == config.groups.keys().len(),
        call_ensures(
            ResolvedAcl::from_config_with,
            (&config, users, groups),
            Ok::<ResolvedAcl, String>(acl),
        ),
        0 <= k < groups@.len(),
        groups@[k] == Ok::<u32, String>(id),
        call_ensures(expand_allow, (&config.groups.values()[k].allow, &config.aliases), rights),
    ensures
        rights is Ok,
        acl.group_rules@.contains_key(id),
        rights->Ok_0@.contains(x) ==> acl.group_rules@[id]@.contains(x),
        config.groups.values()[k].authorize is Some ==> acl.group_authorizers@.contains_key(id),
{
    let ids = id_views(groups@);
    assert(ids[k] == id_view(groups@[k]));
    let n = config.groups.keys().len();
    lemma_rules_of(config.groups.values(), ids, config.aliases@, n, k, id, x);
    assert(rights_map(acl.group_rules@).contains_key(id) <==> acl.group_rules@.contains_key(id));
    assert(code_map(acl.group_authorizers@).contains_key(id)
        <==> acl.group_authorizers@.contains_key(id));
}

/// Who is under no rule may only make requests that need no right; who is under one may make those
/// that the rights allow.
pub proof fn law_request_needs_its_rights(
    rights: RightSet,
    request: Request,
    without: Result<(), String>,
    with: Result<(), String>,
)
    requires
        call_ensures(ResolvedAcl::check_granted, (&None::<RightSet>, &request), without),
        call_ensures(ResolvedAcl::check_granted, (&Some(rights), &request), with),
    ensures
        match request {
            Request::Start { override_envs, .. } => without is Err && (with is Ok
                <==> rights@.contains("start"@) && (override_envs is Some ==> rights@.contains(
                "start:env-override"@,
            ))),
            Request::Stop { .. } => without is Err && (with is Ok <==> rights@.contains("stop"@)),
            Request::Status { config_path } => (without is Ok <==> config_path is None) && (with
                is Ok <==> config_path is None || rights@.contains("status"@)),
            Request::Subscribe { .. } => without is Err && (with is Ok <==> rights@.contains(
                "subscribe"@,
            )),
            Request::Ping => without is Ok && with is Ok,
            Request::Prune { .. } => without is Ok && with is Ok,
            Request::Shutdown => without is Ok && with is Ok,
        },
{
    lemma_request_rights(rights@, request);
}

/// Root has all rights, and so has the owner, unless they bear a token; the bearer of a token has
/// at most what it allows, all of that as root or as the owner, and nothing without a rule for
/// them.
pub proof fn law_callers_and_their_rights(
    auth: AuthContext,
    owner: Option<u32>,
    granted: Option<RightSet>,
    all: RightSet,
    r: Option<RightSet>,
    x: Seq<char>,
)
    requires
        call_ensures(effective_rights_with, (&auth, owner, granted), r),
        call_ensures(all_rights, (), all),
    ensures
        auth is Root ==> (r matches Some(s) && (all@.contains(x) ==> s@.contains(x))),
        auth matches AuthContext::Group { uid, gid } ==> {
            &&& owner == Some(uid) ==> (r matches Some(s) && (all@.contains(x) ==> s@.contains(x)))
            &&& owner != Some(uid) ==> (r matches Some(s) && (s@.contains(x) <==> (granted matches
                Some(g) && g@.contains(x))))
        },
        auth matches AuthContext::Token { uid, gid, ctx } ==> {
            &&& uid == 0 || owner == Some(uid) ==> (r matches Some(s) && (s@.contains(x)
                <==> ctx.allow@.contains(x)))
            &&& uid != 0 && owner != Some(uid) && granted is None ==> r is None
            &&& uid != 0 && owner != Some(uid) && granted is Some ==> (r matches Some(s)
                && (s@.contains(x) <==> ctx.allow@.contains(x) && granted->0@.contains(x)))
        },
{
}

/// Where the rules are not asked, what they would grant makes no difference.
pub proof fn law_rules_are_asked_where_they_count(
    auth: AuthContext,
    owner: Option<u32>,
    granted: Option<Set<Seq<char>>>,
    other: Option<Set<Seq<char>>>,
)
    ensures
        !asks_rules(auth, owner) ==> effective(auth, owner, granted) == effective(
            auth,
            owner,
            other,
        ),
        asks_rules(auth, owner) <==> match auth {
            AuthContext::Root { .. } => false,
            AuthContext::Group { uid, .. } => owner != Some(uid),
            AuthContext::Token { uid, .. } => uid != 0 && owner != Some(uid),
        },
{
}

/// Deciding code runs for the user first and then for the groups in ascending order, each once,
/// and for nobody else.
pub proof fn law_deciding_code_in_turn(
    acl: ResolvedAcl,
    uid: u32,
    gids: Vec<u32>,
    r: Vec<(u32, String)>,
    g: u32,
)
    requires
        call_ensures(ResolvedAcl::collect_authorizers_for, (&acl, uid, &gids), r),
    ensures
        acl.user_authorizers@.contains_key(uid) ==> r@.len() > 0 && r@[0] == (
            uid,
            acl.user_authorizers@[uid],
        ),
        acl.group_authorizers@.contains_key(g) && gids@.contains(g) ==> r@.contains(
            (g, acl.group_authorizers@[g]),
        ),
        !acl.user_authorizers@.contains_key(uid) && (forall|i: int|
            0 <= i < gids@.len() ==> !acl.group_authorizers@.contains_key(#[trigger] gids@[i]))
            ==> r@.len() == 0,
{
    let first: nat = if acl.user_authorizers@.contains_key(uid) {
        1
    } else {
        0
    };
    let list = Seq::new((r@.len() - first) as nat, |i: int| r@[i + first].0);
    if acl.group_authorizers@.contains_key(g) && gids@.contains(g) {
        assert(list.contains(g));
        let i = list.index_of(g);
        assert(r@[i + first].0 == g);
        assert(r@[i + first].1 == acl.group_authorizers@[g]);
        assert(r@[i + first] == (g, acl.group_authorizers@[g]));
    }
    if !acl.user_authorizers@.contains_key(uid) && (forall|i: int|
        0 <= i < gids@.len() ==> !acl.group_authorizers@.contains_key(#[trigger] gids@[i]))
        && r@.len() > 0 {
        assert(list[0] == r@[0].0);
        assert(list.contains(r@[0].0));
        let i = gids@.index_of(r@[0].0);
        assert(!acl.group_authorizers@.contains_key(gids@[i]));
    }
}

/// Compiled code is noted for whom its source was: sources are numbered from zero, those of users
/// first and then those of groups. Code that could not be compiled changes nothing.
pub proof fn law_compiled_code_is_that_of_its_source(
    acl: &mut ResolvedAcl,
    sources: Vec<(u32, String)>,
    compiled: Result<IdMap<u64>, String>,
    r: Result<(), String>,
    i: int,
)
    requires
        call_ensures(ResolvedAcl::authorizer_sources, (&*old(acl),), sources),
        call_ensures(ResolvedAcl::init_authorizers, (acl, compiled), r),
        old(acl).user_authorizers.keys().len() + old(acl).group_authorizers.keys().len()
            <= u32::MAX,
        0 <= i < sources@.len(),
    ensures
        compiled is Err ==> r is Err && *final(acl) == *old(acl),
        compiled is Ok ==> r is Ok && final(acl).compiled && final(acl).user_rules
            == old(acl).user_rules && final(acl).group_rules == old(acl).group_rules,
        sources@[i].0 == i,
        ({
            let n = old(acl).user_authorizers.keys().len() as int;
            &&& i < n ==> sources@[i].1 == old(acl).user_authorizers.values()[i]
            &&& i >= n ==> sources@[i].1 == old(acl).group_authorizers.values()[i - n]
            &&& compiled matches Ok(map) ==> {
                &&& i < n && map@.contains_key(i as u32) ==> {
                    let id = old(acl).user_authorizers.keys()[i];
                    final(acl).user_authorizer_keys@.contains_key(id) && final(
                        acl).user_authorizer_keys@[id] == map@[i as u32]
                }
                &&& i >= n && map@.contains_key(i as u32) ==> {
                    let id = old(acl).group_authorizers.keys()[i - n];
                    final(acl).group_authorizer_keys@.contains_key(id) && final(
                        acl).group_authorizer_keys@[id] == map@[i as u32]
                }
                &&& i < n && !map@.contains_key(i as u32)
                    ==> !final(acl).user_authorizer_keys@.contains_key(
                    old(acl).user_authorizers.keys()[i],
                )
            }
        }),
{
    let n = old(acl).user_authorizers.keys().len() as int;
    if let Ok(map) = compiled {
        if i < n {
            let id = old(acl).user_authorizers.keys()[i];
            assert((0 + i) as u32 == i as u32);
        } else {
            let id = old(acl).group_authorizers.keys()[i - n];
            assert((n + (i - n)) as u32 == i as u32);
        }
    }
}

/// The code that decides on a request is that of the token first, then that of the user, then that
/// of the groups; without compiled code there is none.
pub proof fn law_chain_of_deciding_code(
    acl: ResolvedAcl,
    token: Option<u64>,
    uid: u32,
    gids: Vec<u32>,
    r: Vec<u64>,
    g: u32,
)
    requires
        call_ensures(ResolvedAcl::authorizer_chain, (&acl, token, uid, &gids), r),
    ensures
        !acl.compiled ==> r@.len() == 0,
        acl.compiled ==> (token matches Some(t) ==> r@.len() > 0 && r@[0] == t),
        acl.compiled && acl.user_authorizer_keys@.contains_key(uid) ==> {
            let at: int = if token is Some {
                1
            } else {
                0
            };
            r@.len() > at && r@[at] == acl.user_authorizer_keys@[uid]
        },
        acl.compiled && acl.group_authorizer_keys@.contains_key(g) && gids@.contains(g)
            ==> r@.contains(acl.group_authorizer_keys@[g]),
        acl.compiled && token is None && !acl.user_authorizer_keys@.contains_key(uid) && (forall|
            i: int,
        |
            0 <= i < gids@.len() ==> !acl.group_authorizer_keys@.contains_key(#[trigger] gids@[i]))
            ==> r@.len() == 0,
{
    if acl.compiled {
        let head = match token {
            Some(t) => seq![t],
            None => Seq::<u64>::empty(),
        };
        let list = choose|list: Seq<(u32, u64)>|
            #[trigger] in_turn(
                list,
                acl.user_authorizer_keys@,
                acl.group_authorizer_keys@,
                uid,
                gids@,
            ) && r@ == head + list.map_values(|p: (u32, u64)| p.1);
        let tail = list.map_values(|p: (u32, u64)| p.1);
        let first: nat = if acl.user_authorizer_keys@.contains_key(uid) {
            1
        } else {
            0
        };
        let ids = Seq::new((list.len() - first) as nat, |i: int| list[i + first].0);
        if acl.user_authorizer_keys@.contains_key(uid) {
            assert(tail[0] == acl.user_authorizer_keys@[uid]);
            assert(r@[head.len() as int] == tail[0]);
        }
        if acl.group_authorizer_keys@.contains_key(g) && gids@.contains(g) {
            assert(ids.contains(g));
            let i = ids.index_of(g);
            assert(list[i + first].0 == g);
            assert(list[i + first].1 == acl.group_authorizer_keys@[g]);
            assert(tail[i + first] == acl.group_authorizer_keys@[g]);
            assert(r@[head.len() + i + first] == tail[i + first]);
        }
        if token is None && !acl.user_authorizer_keys@.contains_key(uid) && (forall|i: int|
            0 <= i < gids@.len() ==> !acl.group_authorizer_keys@.contains_key(#[trigger] gids@[i]))
            && list.len() > 0 {
            assert(ids[0] == list[0].0);
            assert(ids.contains(list[0].0));
            let i = gids@.index_of(list[0].0);
            assert(!acl.group_authorizer_keys@.contains_key(gids@[i]));
        }
    }
}

/// Code of a token can be compiled exactly where the rules were, and there is deciding code exactly
/// if a user or a group has some.
pub proof fn law_there_is_deciding_code(acl: ResolvedAcl, check: Result<(), String>, has: bool)
    requires
        call_ensures(ResolvedAcl::check_compiled, (&acl,), check),
        call_ensures(ResolvedAcl::has_authorizers, (&acl,), has),
    ensures
        check is Ok <==> acl.compiled,
        has <==> acl.user_authorizers.keys().len() > 0 || acl.group_authorizers.keys().len() > 0,
{
}

/// Without rules nobody has a right, and nobody whose groups could not be found may see the
/// configuration.
pub proof fn law_no_rules_no_rights(
    acl: ResolvedAcl,
    uid: u32,
    gids: Vec<u32>,
    r: Option<RightSet>,
    any: ResolvedAcl,
    e: String,
    sees: bool,
)
    requires
        call_ensures(ResolvedAcl::empty, (), acl),
        call_ensures(ResolvedAcl::collect_rights_for, (&acl, uid, &gids), r),
        call_ensures(
            ResolvedAcl::has_read_access_with,
            (&any, uid, &Err::<Vec<u32>, String>(e)),
            sees,
        ),
    ensures
        r is None,
        !acl.compiled,
        !sees,
{
}

/// Root, and the owner without a token, have all rights without regard to rules.
pub proof fn law_root_and_owner_have_all_rights(
    auth: AuthContext,
    owner: Option<u32>,
    acl: Option<&ResolvedAcl>,
    all: RightSet,
    r: Result<Option<RightSet>, String>,
    x: Seq<char>,
)
    requires
        call_ensures(effective_rights, (&auth, owner, acl), r),
        call_ensures(all_rights, (), all),
        auth is Root || (auth matches AuthContext::Group { uid, .. } && owner == Some(uid)),
    ensures
        r matches Ok(Some(s)) && (all@.contains(x) ==> s@.contains(x)),
{
}

} // verus!
