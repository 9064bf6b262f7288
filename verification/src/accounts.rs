//! Users and groups of the system.
use vstd::prelude::*;
use vstd::string::*;
use crate::called::{given, given2};
use crate::number::{
    decimal, format_u64, is_digit, lemma_decimal_reads_back, lemma_digits_read, parse_u32,
    read_bounded,
};
use crate::text::{concat, concat5, lemma_span_unique, split_once, split_once_at};

verus! {

/// The number of the user of a name, as `nix::unistd::User::from_name` finds it. Nothing is
/// claimed of it: it depends on the system.
#[verifier::external_body]
fn user_id_of(name: &str) -> (r: Result<Option<u32>, String>) {
    match nix::unistd::User::from_name(name) {
        Ok(Some(user)) => Ok(Some(user.uid.as_raw())),
        Ok(None) => Ok(None),
        Err(e) => Err(e.to_string()),
    }
}

/// The number of the group of a name, as `nix::unistd::Group::from_name` finds it. Nothing is
/// claimed of it: it depends on the system.
#[verifier::external_body]
fn group_id_of(name: &str) -> (r: Result<Option<u32>, String>) {
    match nix::unistd::Group::from_name(name) {
        Ok(Some(group)) => Ok(Some(group.gid.as_raw())),
        Ok(None) => Ok(None),
        Err(e) => Err(e.to_string()),
    }
}

/// The name of the user of a number, as `nix::unistd::User::from_uid` finds it. Nothing is
/// claimed of it: it depends on the system.
#[verifier::external_body]
fn user_name_of(uid: u32) -> (r: Result<Option<String>, String>) {
    match nix::unistd::User::from_uid(nix::unistd::Uid::from_raw(uid)) {
        Ok(Some(user)) => Ok(Some(user.name)),
        Ok(None) => Ok(None),
        Err(e) => Err(e.to_string()),
    }
}

/// The groups of a user, as `nix::unistd::getgrouplist` finds them. Nothing is claimed of them:
/// they depend on the system.
#[verifier::external_body]
fn groups_of(name: &str, gid: u32) -> (r: Result<Vec<u32>, String>) {
    let group = nix::unistd::Gid::from_raw(gid);
    match nix::NixPath::with_nix_path(name, |user| nix::unistd::getgrouplist(user, group)) {
        Ok(Ok(list)) => Ok(list.iter().map(|g| g.as_raw()).collect()),
        Ok(Err(e)) => Err(e.to_string()),
        Err(e) => Err(e.to_string()),
    }
}

/// Whether looking a user up by name can give this.
pub closed spec fn user_found(name: Seq<char>, found: Result<Option<u32>, String>) -> bool {
    exists|s: &str| s@ == name && #[trigger] call_ensures(user_id_of, (s,), found)
}

/// Whether looking a group up by name can give this.
pub closed spec fn group_found(name: Seq<char>, found: Result<Option<u32>, String>) -> bool {
    exists|s: &str| s@ == name && #[trigger] call_ensures(group_id_of, (s,), found)
}

/// Whether looking the name of a user up can give this.
pub closed spec fn name_found(uid: u32, found: Result<Option<String>, String>) -> bool {
    call_ensures(user_name_of, (uid,), found)
}

/// Whether looking up the groups of a user whose primary group this is can give this.
pub closed spec fn groups_found(name: Seq<char>, gid: u32, found: Result<Vec<u32>, String>) -> bool {
    exists|s: &str| s@ == name && #[trigger] call_ensures(groups_of, (s, gid), found)
}

/// The number that a name or a number stands for, given what the system has for it as a name.
pub open spec fn id_for(
    what: Seq<char>,
    key: Seq<char>,
    found: Result<Option<u32>, String>,
) -> Result<u32, Seq<char>> {
    match read_bounded(key, u32::MAX as nat) {
        Some(n) => Ok(n as u32),
        None => match found {
            Ok(Some(id)) => Ok(id),
            Ok(None) => Err("ACL "@ + what + " '"@ + key + "' not found in system database"@),
            Err(e) => Err(
                "Failed to resolve ACL "@ + what + " '"@ + (key + "': "@ + e@),
            ),
        },
    }
}

/// A result with the view of its error.
pub open spec fn id_view(r: Result<u32, String>) -> Result<u32, Seq<char>> {
    match r {
        Ok(id) => Ok(id),
        Err(e) => Err(e@),
    }
}

/// The number that a name or a number stands for, given what the system has for it as a name.
pub fn choose_id(what: &str, key: &str, found: Result<Option<u32>, String>) -> (r: Result<u32, String>)
    ensures
        id_view(r) == id_for(what@, key@, found),
{
    if let Some(n) = parse_u32(key) {
        return Ok(n);
    }
    match found {
        Ok(Some(id)) => Ok(id),
        Ok(None) => {
            let r = concat5("ACL ", what, " '", key, "' not found in system database");
            Err(r)
        },
        Err(e) => {
            let tail = concat5(key, "': ", e.as_str(), "", "");
            proof {
                reveal_strlit("");
                assert(tail@ == key@ + "': "@ + e@);
            }
            Err(concat5("Failed to resolve ACL ", what, " '", tail.as_str(), ""))
        },
    }
}

/// Whether a name or a number stands for this user: a number for itself, a name for what looking
/// it up gave.
pub open spec fn user_for(key: Seq<char>, id: Result<u32, Seq<char>>) -> bool {
    match read_bounded(key, u32::MAX as nat) {
        Some(n) => id == Ok::<u32, Seq<char>>(n as u32),
        None => exists|found: Result<Option<u32>, String>| #[trigger]
            user_found(key, found) && id == id_for("user"@, key, found),
    }
}

/// Whether a name or a number stands for this group: a number for itself, a name for what
/// looking it up gave.
pub open spec fn group_for(key: Seq<char>, id: Result<u32, Seq<char>>) -> bool {
    match read_bounded(key, u32::MAX as nat) {
        Some(n) => id == Ok::<u32, Seq<char>>(n as u32),
        None => exists|found: Result<Option<u32>, String>| #[trigger]
            group_found(key, found) && id == id_for("group"@, key, found),
    }
}

/// The number of the user that a name or a number stands for. A number stands for itself.
pub fn resolve_uid(key: &str) -> (r: Result<u32, String>)
    ensures
        user_for(key@, id_view(r)),
{
    if let Some(n) = parse_u32(key) {
        return Ok(n);
    }
    let found = given(user_id_of, key);
    assert(user_found(key@, found));
    choose_id("user", key, found)
}

/// The number of the group that a name or a number stands for. A number stands for itself.
pub fn resolve_gid(key: &str) -> (r: Result<u32, String>)
    ensures
        group_for(key@, id_view(r)),
{
    if let Some(n) = parse_u32(key) {
        return Ok(n);
    }
    let found = given(group_id_of, key);
    assert(group_found(key@, found));
    choose_id("group", key, found)
}

/// A list with the numbers of another one that it does not hold yet.
pub open spec fn merged(gids: Seq<u32>, more: Seq<u32>) -> Seq<u32>
    decreases more.len(),
{
    if more.len() == 0 {
        gids
    } else {
        let m = merged(gids, more.drop_last());
        if m.contains(more.last()) {
            m
        } else {
            m.push(more.last())
        }
    }
}

/// Whether a list holds a number.
pub fn has_id(list: &Vec<u32>, id: u32) -> (r: bool)
    ensures
        r == list@.contains(id),
{
    let mut i: usize = 0;
    while i < list.len()
        invariant
            i <= list@.len(),
            forall|j: int| 0 <= j < i ==> #[trigger] list@[j] != id,
        decreases list@.len() - i,
    {
        if list[i] == id {
            return true;
        }
        i += 1;
    }
    false
}

/// The groups of a user: the primary one, then the others once each.
pub fn merge_gids(primary_gid: u32, supplementary: &Vec<u32>) -> (r: Vec<u32>)
    ensures
        r@ == merged(seq![primary_gid], supplementary@),
{
    let mut gids: Vec<u32> = Vec::new();
    gids.push(primary_gid);
    assert(gids@ == seq![primary_gid]);
    let mut i: usize = 0;
    while i < supplementary.len()
        invariant
            i <= supplementary@.len(),
            gids@ == merged(seq![primary_gid], supplementary@.take(i as int)),
        decreases supplementary@.len() - i,
    {
        let g: u32 = supplementary[i];
        assert(supplementary@.take(i + 1).drop_last() == supplementary@.take(i as int));
        if !has_id(&gids, g) {
            gids.push(g);
        }
        i += 1;
    }
    assert(supplementary@.take(i as int) == supplementary@);
    gids
}

/// The primary group comes first, no group occurs twice, and exactly the given groups occur.
pub proof fn law_merged_groups(primary_gid: u32, more: Seq<u32>)
    ensures
        merged(seq![primary_gid], more)[0] == primary_gid,
        merged(seq![primary_gid], more).len() > 0,
        merged(seq![primary_gid], more).no_duplicates(),
        forall|g: u32| #[trigger]
            merged(seq![primary_gid], more).contains(g) <==> g == primary_gid || more.contains(g),
    decreases more.len(),
{
    let start = seq![primary_gid];
    if more.len() > 0 {
        let front = more.drop_last();
        law_merged_groups(primary_gid, front);
        let m = merged(start, front);
        let all = merged(start, more);
        assert forall|g: u32| #[trigger] all.contains(g) <==> g == primary_gid || more.contains(g) by {
            assert(more.contains(g) <==> front.contains(g) || g == more.last()) by {
                if more.contains(g) {
                    let k = more.index_of(g);
                    if k < front.len() {
                        assert(front[k] == g);
                    }
                }
                if front.contains(g) {
                    assert(more[front.index_of(g)] == g);
                }
                assert(more[more.len() - 1] == more.last());
            }
            if !m.contains(more.last()) {
                if all.contains(g) {
                    let k = all.index_of(g);
                    if k < m.len() {
                        assert(m[k] == g);
                    }
                }
                if m.contains(g) {
                    assert(all[m.index_of(g)] == g);
                }
                assert(all[m.len() as int] == more.last());
            }
        }
    } else {
        assert(start[0] == primary_gid);
    }
}

/// The message on groups that could not be found.
pub open spec fn groups_error(uid: u32, m: Seq<char>) -> Seq<char> {
    "Failed to get supplementary groups for UID "@ + decimal(uid as nat) + ": "@ + m
}

/// The message on a user that could not be found for their groups.
pub open spec fn user_error(uid: u32, m: Seq<char>) -> Seq<char> {
    "Failed to resolve UID "@ + decimal(uid as nat)
        + " for supplementary group lookup: "@ + m
}

/// The groups of a user, or what went wrong, given what looking up the name gave, and for a user
/// with a name what looking up the groups gave.
pub open spec fn groups_with(
    uid: u32,
    primary_gid: u32,
    name: Result<Option<String>, String>,
    more: Result<Vec<u32>, String>,
) -> Result<Seq<u32>, Seq<char>> {
    match name {
        Ok(Some(_)) => match more {
            Ok(list) => Ok(merged(seq![primary_gid], list@)),
            Err(e) => Err(groups_error(uid, e@)),
        },
        Ok(None) => Ok(seq![primary_gid]),
        Err(e) => Err(user_error(uid, e@)),
    }
}

/// Whether these are all groups of a user, or what went wrong: what looking up the name of the
/// user and then the groups of that name gave.
pub open spec fn groups_for(
    uid: u32,
    primary_gid: u32,
    groups: Result<Seq<u32>, Seq<char>>,
) -> bool {
    exists|name: Result<Option<String>, String>, more: Result<Vec<u32>, String>|
        {
            &&& #[trigger] name_found(uid, name)
            &&& name matches Ok(Some(n)) ==> groups_found(n@, primary_gid, more)
            &&& groups == #[trigger] groups_with(uid, primary_gid, name, more)
        }
}

/// A result with the views of its groups and of its error.
pub open spec fn gids_view(r: Result<Vec<u32>, String>) -> Result<Seq<u32>, Seq<char>> {
    match r {
        Ok(gids) => Ok(gids@),
        Err(e) => Err(e@),
    }
}

/// The groups of a user, given what looking up their name and their groups gave.
pub fn choose_gids(
    uid: u32,
    primary_gid: u32,
    name: &Result<Option<String>, String>,
    more: &Result<Vec<u32>, String>,
) -> (r: Result<Vec<u32>, String>)
    ensures
        gids_view(r) == groups_with(uid, primary_gid, *name, *more),
{
    match name {
        Ok(Some(_)) => match more {
            Ok(list) => Ok(merge_gids(primary_gid, list)),
            Err(e) => {
                let id = format_u64(uid as u64);
                let r = concat5(
                    "Failed to get supplementary groups for UID ",
                    id.as_str(),
                    ": ",
                    e.as_str(),
                    "",
                );
                proof {
                    reveal_strlit("");
                    assert(r@ == groups_error(uid, e@));
                }
                Err(r)
            },
        },
        Ok(None) => {
            let mut gids: Vec<u32> = Vec::new();
            gids.push(primary_gid);
            assert(gids@ =~= seq![primary_gid]);
            Ok(gids)
        },
        Err(e) => {
            let id = format_u64(uid as u64);
            let r = concat5(
                "Failed to resolve UID ",
                id.as_str(),
                " for supplementary group lookup: ",
                e.as_str(),
                "",
            );
            proof {
                reveal_strlit("");
                assert(r@ == user_error(uid, e@));
            }
            Err(r)
        },
    }
}

/// All groups of a user: the primary one, then those that the system has for the user, once
/// each. A user without a name has the primary group only.
pub fn get_all_gids(uid: u32, primary_gid: u32) -> (r: Result<Vec<u32>, String>)
    ensures
        groups_for(uid, primary_gid, gids_view(r)),
{
    let name = given(user_name_of, uid);
    let more = match &name {
        Ok(Some(n)) => given2(groups_of, n.as_str(), primary_gid),
        _ => Ok(Vec::new()),
    };
    assert(name_found(uid, name));
    assert(name matches Ok(Some(n)) ==> groups_found(n@, primary_gid, more));
    choose_gids(uid, primary_gid, &name, &more)
}

/// The part of a user specification before the colon.
pub open spec fn user_part(spec_text: Seq<char>) -> Seq<char> {
    match split_once_at(spec_text, ':') {
        Some((user, _)) => user,
        None => spec_text,
    }
}

/// The user that a specification stands for, given what the system has for it as a name.
pub open spec fn spec_user(spec_text: Seq<char>, found: Result<Option<u32>, String>) -> Result<
    u32,
    Seq<char>,
> {
    match read_bounded(user_part(spec_text), u32::MAX as nat) {
        Some(n) => Ok(n as u32),
        None => match found {
            Ok(Some(id)) => Ok(id),
            Ok(None) => Err("User not found: "@ + user_part(spec_text)),
            Err(e) => Err(e@),
        },
    }
}

/// Whether a specification stands for this user: a number for itself, a name for what looking it
/// up gave.
pub open spec fn spec_user_for(spec_text: Seq<char>, id: Result<u32, Seq<char>>) -> bool {
    match read_bounded(user_part(spec_text), u32::MAX as nat) {
        Some(n) => id == Ok::<u32, Seq<char>>(n as u32),
        None => exists|found: Result<Option<u32>, String>| #[trigger]
            user_found(user_part(spec_text), found) && id == spec_user(spec_text, found),
    }
}

/// The user that a specification such as `user`, `user:group` or `1000:1000` stands for.
pub fn resolve_user(spec_text: &str) -> (r: Result<u32, String>)
    ensures
        spec_user_for(spec_text@, id_view(r)),
{
    let user = match split_once(spec_text, ':') {
        Some((user, _)) => user,
        None => spec_text.to_owned(),
    };
    if let Some(n) = parse_u32(user.as_str()) {
        return Ok(n);
    }
    let found = given(user_id_of, user.as_str());
    assert(user_found(user@, found));
    match found {
        Ok(Some(id)) => Ok(id),
        Ok(None) => Err(concat("User not found: ", user.as_str())),
        Err(e) => Err(e),
    }
}

/// A number, alone or with a group behind a colon, stands for itself.
pub proof fn lemma_numbered_user(text: Seq<char>, n: u32, group: Seq<char>)
    requires
        text == decimal(n as nat) || text == decimal(n as nat) + seq![':'] + group,
    ensures
        user_part(text) == decimal(n as nat),
        read_bounded(decimal(n as nat), u32::MAX as nat) == Some(n as nat),
{
    let d = decimal(n as nat);
    lemma_decimal_reads_back(n as nat);
    assert forall|j: int| 0 <= j < d.len() implies text[j] != ':' by {
        assert(text[j] == d[j]);
        assert(is_digit(d[j]));
    }
    lemma_span_unique(text, ':', d.len() as int);
    assert(text.take(d.len() as int) == d);
    lemma_digits_read(d);
}

/// A number stands for the user and the group with that number, whatever names there are.
pub proof fn law_numbers_stand_for_themselves(
    n: u32,
    text: &str,
    with_group: &str,
    group: Seq<char>,
    uid: Result<u32, String>,
    gid: Result<u32, String>,
    user: Result<u32, String>,
    both: Result<u32, String>,
)
    requires
        text@ == decimal(n as nat),
        with_group@ == decimal(n as nat) + seq![':'] + group,
        call_ensures(resolve_uid, (text,), uid),
        call_ensures(resolve_gid, (text,), gid),
        call_ensures(resolve_user, (text,), user),
        call_ensures(resolve_user, (with_group,), both),
    ensures
        uid == Ok::<u32, String>(n),
        gid == Ok::<u32, String>(n),
        user == Ok::<u32, String>(n),
        both == Ok::<u32, String>(n),
{
    lemma_numbered_user(text@, n, group);
    lemma_numbered_user(with_group@, n, group);
}

/// A name stands for the number that looking it up gave, and for none if it gave none.
pub proof fn law_names_stand_for_what_was_found(
    what: &str,
    key: &str,
    found: Result<Option<u32>, String>,
    r: Result<u32, String>,
)
    requires
        call_ensures(choose_id, (what, key, found), r),
        key@.len() > 0 && !is_digit(key@[0]) && key@[0] != '+',
    ensures
        match found {
            Ok(Some(id)) => r == Ok::<u32, String>(id),
            _ => r is Err,
        },
{
}

/// The groups of a user are the primary one first, then the others in order, none twice; a user
/// without a name has the primary one only.
pub proof fn law_groups_of_a_user(
    uid: u32,
    primary: u32,
    name: Result<Option<String>, String>,
    more: Result<Vec<u32>, String>,
    r: Result<Vec<u32>, String>,
    g: u32,
)
    requires
        call_ensures(choose_gids, (uid, primary, &name, &more), r),
    ensures
        name is Err ==> r is Err,
        (name matches Ok(None)) ==> r is Ok && r->Ok_0@ == seq![primary],
        (name matches Ok(Some(_))) && more is Err ==> r is Err,
        (name matches Ok(Some(_))) && more is Ok ==> {
            &&& r is Ok
            &&& r->Ok_0@.len() > 0
            &&& r->Ok_0@[0] == primary
            &&& r->Ok_0@.no_duplicates()
            &&& r->Ok_0@.contains(g) <==> g == primary || more->Ok_0@.contains(g)
        },
{
    if let Ok(list) = more {
        law_merged_groups(primary, list@);
    }
}

} // verus!
