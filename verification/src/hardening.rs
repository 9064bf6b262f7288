//! How strictly the processes of a configuration are kept to its owner.
use vstd::prelude::*;
use vstd::string::*;
use crate::text::{concat3, same};

verus! {

/// How strictly the processes of a configuration are kept to its owner.
#[derive(Debug, Clone, Copy, PartialEq, Eq, Structural)]
pub enum HardeningLevel {
    /// No restriction.
    Unrestricted,
    /// Processes of others than root do not run as root.
    NoRoot,
    /// Processes of others than root run as their owner.
    Strict,
}

impl Default for HardeningLevel {
    fn default() -> (r: Self)
        ensures
            r == HardeningLevel::Unrestricted,
    {
        HardeningLevel::Unrestricted
    }
}

/// What a text reads as.
pub open spec fn read_level(s: Seq<char>) -> Result<HardeningLevel, Seq<char>> {
    if s == "none"@ {
        Ok(HardeningLevel::Unrestricted)
    } else if s == "no-root"@ {
        Ok(HardeningLevel::NoRoot)
    } else if s == "strict"@ {
        Ok(HardeningLevel::Strict)
    } else {
        Err("invalid hardening level '"@ + s + "': expected 'none', 'no-root', or 'strict'"@)
    }
}

impl HardeningLevel {
    /// How restrictive the level is; a higher rank is more restrictive.
    pub open spec fn rank(self) -> nat {
        match self {
            HardeningLevel::Unrestricted => 0,
            HardeningLevel::NoRoot => 1,
            HardeningLevel::Strict => 2,
        }
    }

    /// Whether this level is less restrictive than another.
    pub fn below(&self, other: &HardeningLevel) -> (r: bool)
        ensures
            r == (self.rank() < other.rank()),
    {
        match (self, other) {
            (HardeningLevel::Unrestricted, HardeningLevel::NoRoot) => true,
            (HardeningLevel::Unrestricted, HardeningLevel::Strict) => true,
            (HardeningLevel::NoRoot, HardeningLevel::Strict) => true,
            _ => false,
        }
    }

    /// The name of the level.
    pub open spec fn word(self) -> Seq<char> {
        match self {
            HardeningLevel::Unrestricted => "none"@,
            HardeningLevel::NoRoot => "no-root"@,
            HardeningLevel::Strict => "strict"@,
        }
    }

    /// The name of the level.
    pub fn as_str(&self) -> (r: &'static str)
        ensures
            r@ == self.word(),
    {
        match self {
            HardeningLevel::Unrestricted => "none",
            HardeningLevel::NoRoot => "no-root",
            HardeningLevel::Strict => "strict",
        }
    }

    /// The level with the given name.
    pub fn parse(s: &str) -> (r: Result<HardeningLevel, String>)
        ensures
            match r {
                Ok(l) => read_level(s@) == Ok::<HardeningLevel, Seq<char>>(l),
                Err(e) => read_level(s@) == Err::<HardeningLevel, Seq<char>>(e@),
            },
    {
        if same(s, "none") {
            Ok(HardeningLevel::Unrestricted)
        } else if same(s, "no-root") {
            Ok(HardeningLevel::NoRoot)
        } else if same(s, "strict") {
            Ok(HardeningLevel::Strict)
        } else {
            Err(
                concat3(
                    "invalid hardening level '",
                    s,
                    "': expected 'none', 'no-root', or 'strict'",
                ),
            )
        }
    }
}

/// The name of a level reads as the level.
pub proof fn law_level_round_trip(level: HardeningLevel)
    ensures
        read_level(level.word()) == Ok::<HardeningLevel, Seq<char>>(level),
{
    reveal_strlit("none");
    reveal_strlit("no-root");
    reveal_strlit("strict");
    assert("none"@[1] == 'o' && "strict"@[1] == 't');
    assert("none"@.len() == 4 && "no-root"@.len() == 7 && "strict"@.len() == 6);
}

/// The levels are ordered by how restrictive they are, and no two have the same rank.
pub proof fn law_levels_ordered(a: HardeningLevel, b: HardeningLevel)
    ensures
        a.rank() == b.rank() ==> a == b,
        HardeningLevel::Unrestricted.rank() < HardeningLevel::NoRoot.rank(),
        HardeningLevel::NoRoot.rank() < HardeningLevel::Strict.rank(),
{
}

/// One level is below another exactly if it restricts less: none below `no-root`, and both below
/// `strict`.
pub proof fn law_below(a: HardeningLevel, b: HardeningLevel, r: bool)
    requires
        call_ensures(HardeningLevel::below, (&a, &b), r),
    ensures
        r <==> (a == HardeningLevel::Unrestricted && b != HardeningLevel::Unrestricted) || (a
            == HardeningLevel::NoRoot && b == HardeningLevel::Strict),
{
}

/// A level is read by its name, and no other text is one.
pub proof fn law_names_of_levels(s: &str, r: Result<HardeningLevel, String>)
    requires
        call_ensures(HardeningLevel::parse, (s,), r),
    ensures
        s@ == "none"@ ==> r == Ok::<HardeningLevel, String>(HardeningLevel::Unrestricted),
        s@ == "no-root"@ ==> r == Ok::<HardeningLevel, String>(HardeningLevel::NoRoot),
        s@ == "strict"@ ==> r == Ok::<HardeningLevel, String>(HardeningLevel::Strict),
        s@ != "none"@ && s@ != "no-root"@ && s@ != "strict"@ ==> r is Err,
{
    reveal_strlit("none");
    reveal_strlit("no-root");
    reveal_strlit("strict");
    assert("none"@[1] == 'o' && "strict"@[1] == 't');
    assert("none"@.len() == 4 && "no-root"@.len() == 7 && "strict"@.len() == 6);
}

} // verus!
