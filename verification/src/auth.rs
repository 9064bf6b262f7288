//! Who makes a request, and what their processes may run as.
use std::sync::Arc;
use vstd::prelude::*;
use vstd::string::*;
use crate::accounts::{id_view, lemma_numbered_user, resolve_user, spec_user_for};
use crate::hardening::{read_level, HardeningLevel};
use crate::number::{decimal, format_u64};
use crate::permissions::RightSet;
use crate::text::{concat5, text_view};

verus! {

/// What the bearer of a token may do.
#[derive(Debug)]
pub struct TokenContext {
    pub allow: RightSet,
    /// The least restrictive level that the bearer may start processes at.
    pub max_hardening: HardeningLevel,
    pub service: String,
    pub config_path: String,
}

/// Who makes a request.
#[derive(Debug)]
pub enum AuthContext {
    /// Root.
    Root { uid: u32, gid: u32 },
    /// A member of the daemon's group.
    Group { uid: u32, gid: u32 },
    /// The bearer of a token.
    Token { uid: u32, gid: u32, ctx: Arc<TokenContext> },
}

impl AuthContext {
    /// The user.
    pub fn uid(&self) -> (r: u32)
        ensures
            r == match *self {
                AuthContext::Root { uid, .. } => uid,
                AuthContext::Group { uid, .. } => uid,
                AuthContext::Token { uid, .. } => uid,
            },
    {
        match self {
            AuthContext::Root { uid, .. } => *uid,
            AuthContext::Group { uid, .. } => *uid,
            AuthContext::Token { uid, .. } => *uid,
        }
    }

    /// The primary group.
    pub fn gid(&self) -> (r: u32)
        ensures
            r == match *self {
                AuthContext::Root { gid, .. } => gid,
                AuthContext::Group { gid, .. } => gid,
                AuthContext::Token { gid, .. } => gid,
            },
    {
        match self {
            AuthContext::Root { gid, .. } => *gid,
            AuthContext::Group { gid, .. } => *gid,
            AuthContext::Token { gid, .. } => *gid,
        }
    }
}

/// Who makes a request. A token that is known comes first, then root, then the members of the
/// daemon's group; others are refused. `token_context` is what is known of the token, and
/// `has_kepler_gid` whether the daemon's group is a supplementary group of the user.
pub fn resolve_auth(
    token_context: Option<Arc<TokenContext>>,
    uid: u32,
    gid: u32,
    kepler_gid: u32,
    has_kepler_gid: bool,
) -> (r: Result<AuthContext, String>)
    ensures
        match token_context {
            Some(ctx) => r == Ok::<AuthContext, String>(AuthContext::Token { uid, gid, ctx }),
            None => if uid == 0 {
                r == Ok::<AuthContext, String>(AuthContext::Root { uid, gid })
            } else if gid == kepler_gid || has_kepler_gid {
                r == Ok::<AuthContext, String>(AuthContext::Group { uid, gid })
            } else {
                r matches Err(e) && e@
                    == "permission denied: not authorized to connect to the daemon"@
            },
        },
{
    if let Some(ctx) = token_context {
        return Ok(AuthContext::Token { uid, gid, ctx });
    }
    if uid == 0 {
        return Ok(AuthContext::Root { uid, gid });
    }
    if gid == kepler_gid || has_kepler_gid {
        return Ok(AuthContext::Group { uid, gid });
    }
    Err("permission denied: not authorized to connect to the daemon".to_owned())
}

/// Whether it counts which supplementary groups a user has.
pub fn asks_groups(token_known: bool, uid: u32, gid: u32, kepler_gid: u32) -> (r: bool)
    ensures
        r == (!token_known && uid != 0 && gid != kepler_gid),
{
    !token_known && uid != 0 && gid != kepler_gid
}

/// The level at which a process of the bearer of a token starts: the requested one if it is not
/// below the floor, or the floor if none is requested.
pub open spec fn floored(floor: HardeningLevel, requested: Option<Seq<char>>) -> Result<
    Option<HardeningLevel>,
    Seq<char>,
> {
    match requested {
        None => if floor == HardeningLevel::Unrestricted {
            Ok(None)
        } else {
            Ok(Some(floor))
        },
        Some(s) => match read_level(s) {
            Err(e) => Err(e),
            Ok(level) => if level.rank() < floor.rank() {
                Err(
                    "permission denied: requested hardening level '"@ + level.word()
                        + "' is below the process's floor '"@ + floor.word() + "'"@,
                )
            } else {
                Ok(Some(level))
            },
        },
    }
}

/// The level at which a process of the bearer of a token starts.
pub fn check_hardening_floor(ctx: &TokenContext, requested_hardening: Option<&str>) -> (r: Result<
    Option<HardeningLevel>,
    String,
>)
    ensures
        ({
            let requested = match requested_hardening {
                Some(s) => Some(s@),
                None => None,
            };
            match r {
                Ok(l) => floored(ctx.max_hardening, requested) == Ok::<
                    Option<HardeningLevel>,
                    Seq<char>,
                >(l),
                Err(e) => floored(ctx.max_hardening, requested) == Err::<
                    Option<HardeningLevel>,
                    Seq<char>,
                >(e@),
            }
        }),
{
    match requested_hardening {
        Some(s) => {
            let level = match HardeningLevel::parse(s) {
                Ok(level) => level,
                Err(e) => {
                    return Err(e);
                },
            };
            if level.below(&ctx.max_hardening) {
                return Err(
                    concat5(
                        "permission denied: requested hardening level '",
                        level.as_str(),
                        "' is below the process's floor '",
                        ctx.max_hardening.as_str(),
                        "'",
                    ),
                );
            }
            Ok(Some(level))
        },
        None => match ctx.max_hardening {
            HardeningLevel::Unrestricted => Ok(None),
            level => Ok(Some(level)),
        },
    }
}

/// Whatever is requested, a process of the bearer of a token never starts below the floor.
pub proof fn law_floor_is_kept(floor: HardeningLevel, requested: Option<Seq<char>>)
    ensures
        floored(floor, requested) matches Ok(level) ==> match level {
            Some(l) => l.rank() >= floor.rank(),
            None => floor == HardeningLevel::Unrestricted,
        },
{
}

/// Whether a level restricts what a configuration of this owner may run as. Configurations of
/// root, and those without an owner, are not restricted.
pub open spec fn restricts(hardening: HardeningLevel, owner_uid: Option<u32>) -> bool {
    hardening != HardeningLevel::Unrestricted && (owner_uid matches Some(o) && o != 0)
}

/// Why a process may not run as a user, given which user it is.
pub open spec fn escalation(
    hardening: HardeningLevel,
    user_spec: Option<Seq<char>>,
    owner_uid: Option<u32>,
    context: Seq<char>,
    resolved: Result<u32, Seq<char>>,
) -> Option<Seq<char>> {
    if !restricts(hardening, owner_uid) || user_spec is None {
        None
    } else {
        let text = user_spec->0;
        let owner = owner_uid->0;
        match resolved {
            Err(e) => Some(
                ("Privilege escalation check failed for "@ + context + ": cannot resolve user '"@
                    + text + "': "@) + e,
            ),
            Ok(uid) => if hardening == HardeningLevel::NoRoot && uid == 0 {
                Some(
                    ("Privilege escalation denied for "@ + context + ": user '"@ + text
                        + "' resolves to uid 0 (root), but config owner is uid "@) + decimal(
                        owner as nat,
                    ) + " (hardening level: no-root)"@,
                )
            } else if hardening == HardeningLevel::Strict && uid != owner {
                Some(
                    ("Privilege escalation denied for "@ + context + ": user '"@ + text
                        + "' (uid "@) + decimal(uid as nat) + ") is not the config owner uid "@
                        + decimal(owner as nat) + " (hardening level: strict)"@,
                )
            } else {
                None
            },
        }
    }
}

/// Checks that a process may run as a user, given which user it is.
pub fn check_resolved_user(
    hardening: HardeningLevel,
    user_spec: Option<&str>,
    owner_uid: Option<u32>,
    context: &str,
    resolved: Result<u32, String>,
) -> (r: Result<(), String>)
    ensures
        ({
            let why = escalation(
                hardening,
                text_view(user_spec),
                owner_uid,
                context@,
                id_view(resolved),
            );
            match r {
                Ok(_) => why is None,
                Err(e) => why == Some(e@),
            }
        }),
{
    let owner: u32 = match owner_uid {
        Some(o) => o,
        None => {
            return Ok(());
        },
    };
    if hardening == HardeningLevel::Unrestricted || owner == 0 {
        return Ok(());
    }
    let text = match user_spec {
        Some(s) => s,
        None => {
            return Ok(());
        },
    };
    match resolved {
        Err(e) => {
            let head = concat5(
                "Privilege escalation check failed for ",
                context,
                ": cannot resolve user '",
                text,
                "': ",
            );
            Err(crate::text::concat(head.as_str(), e.as_str()))
        },
        Ok(uid) => {
            if hardening == HardeningLevel::NoRoot && uid == 0 {
                let head = concat5(
                    "Privilege escalation denied for ",
                    context,
                    ": user '",
                    text,
                    "' resolves to uid 0 (root), but config owner is uid ",
                );
                return Err(
                    crate::text::concat3(
                        head.as_str(),
                        format_u64(owner as u64).as_str(),
                        " (hardening level: no-root)",
                    ),
                );
            }
            if hardening == HardeningLevel::Strict && uid != owner {
                let head = concat5(
                    "Privilege escalation denied for ",
                    context,
                    ": user '",
                    text,
                    "' (uid ",
                );
                return Err(
                    concat5(
                        head.as_str(),
                        format_u64(uid as u64).as_str(),
                        ") is not the config owner uid ",
                        format_u64(owner as u64).as_str(),
                        " (hardening level: strict)",
                    ),
                );
            }
            Ok(())
        },
    }
}

/// Why something was refused, if it was.
pub open spec fn refusal_view(r: Result<(), String>) -> Option<Seq<char>> {
    match r {
        Ok(_) => None,
        Err(e) => Some(e@),
    }
}

/// Checks that a process may run as the user that a specification stands for.
pub fn check_privilege_escalation(
    hardening: HardeningLevel,
    user_spec: Option<&str>,
    owner_uid: Option<u32>,
    context: &str,
) -> (r: Result<(), String>)
    ensures
        !restricts(hardening, owner_uid) || user_spec is None ==> r is Ok,
        restricts(hardening, owner_uid) ==> (user_spec matches Some(s) ==> exists|
            resolved: Result<u32, Seq<char>>,
        | #[trigger]
            spec_user_for(s@, resolved) && escalation(
                hardening,
                text_view(user_spec),
                owner_uid,
                context@,
                resolved,
            ) == refusal_view(r)),
{
    let owner: u32 = match owner_uid {
        Some(o) => o,
        None => 0,
    };
    let text = match user_spec {
        Some(s) => s,
        None => {
            return Ok(());
        },
    };
    if hardening == HardeningLevel::Unrestricted || owner == 0 {
        return Ok(());
    }
    let resolved = resolve_user(text);
    check_resolved_user(hardening, user_spec, owner_uid, context, resolved)
}

/// Under the strict level a configuration of another user than root runs nothing as anyone but
/// its owner.
pub proof fn law_strict_means_owner(
    text: Seq<char>,
    owner: u32,
    context: Seq<char>,
    resolved: Result<u32, Seq<char>>,
)
    requires
        owner != 0,
        escalation(HardeningLevel::Strict, Some(text), Some(owner), context, resolved) is None,
    ensures
        resolved == Ok::<u32, Seq<char>>(owner),
{
}

/// Above the lowest level a configuration of another user than root runs nothing as root.
pub proof fn law_hardened_means_no_root(
    hardening: HardeningLevel,
    text: Seq<char>,
    owner: u32,
    context: Seq<char>,
    resolved: Result<u32, Seq<char>>,
)
    requires
        hardening != HardeningLevel::Unrestricted,
        owner != 0,
        escalation(hardening, Some(text), Some(owner), context, resolved) is None,
    ensures
        resolved matches Ok(uid) && uid != 0,
{
}

/// What a stricter level allows a less strict one allows too.
pub proof fn law_stricter_allows_less(
    lower: HardeningLevel,
    higher: HardeningLevel,
    user_spec: Option<Seq<char>>,
    owner_uid: Option<u32>,
    context: Seq<char>,
    resolved: Result<u32, Seq<char>>,
)
    requires
        lower.rank() <= higher.rank(),
        escalation(higher, user_spec, owner_uid, context, resolved) is None,
    ensures
        escalation(lower, user_spec, owner_uid, context, resolved) is None,
{
}

/// The bearer of a known token is let in as such, whoever they are; without one, root and the
/// members of the daemon's group are, and nobody else.
pub proof fn law_who_is_let_in(
    token: Option<Arc<TokenContext>>,
    uid: u32,
    gid: u32,
    kepler_gid: u32,
    member: bool,
    r: Result<AuthContext, String>,
)
    requires
        call_ensures(resolve_auth, (token, uid, gid, kepler_gid, member), r),
    ensures
        r is Err <==> token is None && uid != 0 && gid != kepler_gid && !member,
        r matches Ok(AuthContext::Token { uid: u, gid: g, ctx }) ==> token == Some(ctx) && u == uid
            && g == gid,
        r matches Ok(AuthContext::Root { uid: u, gid: g }) ==> token is None && uid == 0 && u == 0
            && g == gid,
        r matches Ok(AuthContext::Group { uid: u, gid: g }) ==> token is None && uid != 0 && (gid
            == kepler_gid || member) && u == uid && g == gid,
        token is Some ==> r matches Ok(AuthContext::Token { .. }),
{
}

/// The groups of a user are asked for only where they decide: whoever is let in or refused without
/// regard to them is not asked.
pub proof fn law_groups_are_asked_where_they_decide(
    token: Option<Arc<TokenContext>>,
    uid: u32,
    gid: u32,
    kepler_gid: u32,
    asked: bool,
    with: Result<AuthContext, String>,
    without: Result<AuthContext, String>,
)
    requires
        call_ensures(asks_groups, (token is Some, uid, gid, kepler_gid), asked),
        call_ensures(resolve_auth, (token, uid, gid, kepler_gid, true), with),
        call_ensures(resolve_auth, (token, uid, gid, kepler_gid, false), without),
    ensures
        !asked ==> with == without,
        asked ==> with is Ok && without is Err,
{
}

/// A level that is asked for is granted if it is not below the floor of the token, and refused if
/// it is; without one the process starts at the floor.
pub proof fn law_levels_down_to_the_floor(
    ctx: TokenContext,
    text: &str,
    asked: Result<Option<HardeningLevel>, String>,
    plain: Result<Option<HardeningLevel>, String>,
)
    requires
        call_ensures(check_hardening_floor, (&ctx, Some(text)), asked),
        call_ensures(check_hardening_floor, (&ctx, None), plain),
    ensures
        ctx.max_hardening == HardeningLevel::Unrestricted ==> plain
            == Ok::<Option<HardeningLevel>, String>(None),
        ctx.max_hardening != HardeningLevel::Unrestricted ==> plain
            == Ok::<Option<HardeningLevel>, String>(Some(ctx.max_hardening)),
        text@ == "strict"@ ==> asked == Ok::<Option<HardeningLevel>, String>(
            Some(HardeningLevel::Strict),
        ),
        text@ == "no-root"@ ==> match ctx.max_hardening {
            HardeningLevel::Strict => asked is Err,
            _ => asked == Ok::<Option<HardeningLevel>, String>(Some(HardeningLevel::NoRoot)),
        },
        text@ == "none"@ ==> match ctx.max_hardening {
            HardeningLevel::Unrestricted => asked == Ok::<Option<HardeningLevel>, String>(
                Some(HardeningLevel::Unrestricted),
            ),
            _ => asked is Err,
        },
        text@ != "strict"@ && text@ != "no-root"@ && text@ != "none"@ ==> asked is Err,
{
    reveal_strlit("none");
    reveal_strlit("no-root");
    reveal_strlit("strict");
    assert("none"@[1] == 'o' && "strict"@[1] == 't');
    assert("none"@.len() == 4 && "no-root"@.len() == 7 && "strict"@.len() == 6);
}

/// What a process may run as: anyone without a level, without an owner, with root as owner, or
/// where no user is named. Else under `no-root` anyone but root, and under `strict` the owner; a
/// user that cannot be told is refused.
pub proof fn law_what_a_process_may_run_as(
    level: HardeningLevel,
    user: Option<&str>,
    owner: Option<u32>,
    context: &str,
    resolved: Result<u32, String>,
    r: Result<(), String>,
)
    requires
        call_ensures(check_resolved_user, (level, user, owner, context, resolved), r),
    ensures
        level == HardeningLevel::Unrestricted ==> r is Ok,
        owner is None || owner == Some(0u32) ==> r is Ok,
        user is None ==> r is Ok,
        user is Some && owner is Some && owner != Some(0u32) ==> {
            &&& level == HardeningLevel::NoRoot ==> (r is Ok <==> (resolved matches Ok(uid) && uid
                != 0))
            &&& level == HardeningLevel::Strict ==> (r is Ok <==> (resolved matches Ok(uid)
                && Some(uid) == owner))
        },
{
}

/// A user that is given by number, alone or with a group behind a colon, is that user.
pub proof fn law_numbered_user_is_checked(
    level: HardeningLevel,
    n: u32,
    group: Seq<char>,
    text: &str,
    owner: u32,
    context: &str,
    r: Result<(), String>,
)
    requires
        call_ensures(check_privilege_escalation, (level, Some(text), Some(owner), context), r),
        text@ == decimal(n as nat) || text@ == decimal(n as nat) + seq![':'] + group,
        owner != 0,
    ensures
        level == HardeningLevel::Unrestricted ==> r is Ok,
        level == HardeningLevel::NoRoot ==> (r is Ok <==> n != 0),
        level == HardeningLevel::Strict ==> (r is Ok <==> n == owner),
{
    lemma_numbered_user(text@, n, group);
}

/// A caller is who they were let in as, by user and by group.
pub proof fn law_caller_is_who_was_let_in(
    token: Option<Arc<TokenContext>>,
    uid: u32,
    gid: u32,
    kepler_gid: u32,
    member: bool,
    who: AuthContext,
    u: u32,
    g: u32,
)
    requires
        call_ensures(
            resolve_auth,
            (token, uid, gid, kepler_gid, member),
            Ok::<AuthContext, String>(who),
        ),
        call_ensures(AuthContext::uid, (&who,), u),
        call_ensures(AuthContext::gid, (&who,), g),
    ensures
        u == uid,
        g == gid,
{
}

} // verus!
