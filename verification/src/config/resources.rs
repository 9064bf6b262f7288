//! Resource limits.
use vstd::prelude::*;
use vstd::string::*;
use crate::number::{
    count_digits, decimal, digit_span, format_u64, is_digit, lemma_decimal_reads_back,
    lemma_digit_span_unique, lemma_digits_read, parse_u64, read_bounded,
};
use crate::text::{
    chars_of, concat, equal_letters, is_space, lemma_trimmed_fixed, lower, same_letters, substring,
    trim, trimmed,
};

verus! {

/// Limits for the process of a service.
#[derive(Debug)]
pub struct ResourceLimits {
    /// Memory limit, such as `512M`, `1G` or `2048K`.
    pub memory: Option<String>,
    /// CPU time limit in seconds.
    pub cpu_time: Option<u64>,
    /// Maximum number of open file descriptors.
    pub max_fds: Option<u64>,
}

impl Clone for ResourceLimits {
    fn clone(&self) -> (r: Self)
        ensures
            r == *self,
    {
        ResourceLimits {
            memory: self.memory.clone(),
            cpu_time: self.cpu_time,
            max_fds: self.max_fds,
        }
    }
}

impl Default for ResourceLimits {
    fn default() -> (r: Self)
        ensures
            r.memory is None,
            r.cpu_time is None,
            r.max_fds is None,
    {
        ResourceLimits { memory: None, cpu_time: None, max_fds: None }
    }
}

/// Whether a service gets the variables of the daemon's environment.
#[derive(Debug, Clone, Copy, PartialEq, Eq, Structural)]
pub enum SysEnvPolicy {
    /// Only the variables that the configuration gives.
    Clear,
    /// All variables of the daemon.
    Inherit,
}

impl Default for SysEnvPolicy {
    fn default() -> (r: Self)
        ensures
            r == SysEnvPolicy::Clear,
    {
        SysEnvPolicy::Clear
    }
}

/// The number of bytes of a unit; letters count in either case.
pub open spec fn unit_bytes(unit: Seq<char>) -> Option<nat> {
    if unit.len() == 0 || same_letters(unit, "B"@) {
        Some(1)
    } else if same_letters(unit, "K"@) || same_letters(unit, "KB"@) {
        Some(1024)
    } else if same_letters(unit, "M"@) || same_letters(unit, "MB"@) {
        Some(1048576)
    } else if same_letters(unit, "G"@) || same_letters(unit, "GB"@) {
        Some(1073741824)
    } else {
        None
    }
}

/// The bytes that a memory limit reads as, or why it is none: digits and then a unit, where no
/// unit means bytes.
pub open spec fn read_memory(s: Seq<char>) -> Result<nat, Seq<char>> {
    let t = trimmed(s);
    let k = digit_span(t);
    let num = t.take(k as int);
    let unit = if k == t.len() {
        "B"@
    } else {
        t.skip(k as int)
    };
    if t.len() == 0 {
        Err("Empty memory limit string"@)
    } else if k == 0 {
        Err("Invalid number in memory limit: "@ + t)
    } else {
        match read_bounded(num, u64::MAX as nat) {
            None => Err("Invalid number in memory limit: "@ + num),
            Some(n) => match unit_bytes(unit) {
                None => Err("Unknown memory unit: "@ + unit),
                Some(m) => if n * m <= u64::MAX {
                    Ok(n * m)
                } else {
                    Err("Memory limit overflows u64: "@ + decimal(n) + "*"@ + decimal(m))
                },
            },
        }
    }
}

/// The bytes of a unit.
pub fn unit_size(unit: &str) -> (r: Option<u64>)
    ensures
        match r {
            Some(m) => unit_bytes(unit@) == Some(m as nat) && 1 <= m <= 1073741824,
            None => unit_bytes(unit@) is None,
        },
{
    if unit.is_empty() || equal_letters(unit, "B") {
        Some(1)
    } else if equal_letters(unit, "K") || equal_letters(unit, "KB") {
        Some(1024)
    } else if equal_letters(unit, "M") || equal_letters(unit, "MB") {
        Some(1048576)
    } else if equal_letters(unit, "G") || equal_letters(unit, "GB") {
        Some(1073741824)
    } else {
        None
    }
}

/// Reads a memory limit such as `512M` or `1G` as bytes.
pub fn parse_memory_limit(s: &str) -> (r: Result<u64, String>)
    ensures
        match r {
            Ok(n) => read_memory(s@) == Ok::<nat, Seq<char>>(n as nat),
            Err(e) => read_memory(s@) == Err::<nat, Seq<char>>(e@),
        },
{
    let t = trim(s);
    if t.as_str().is_empty() {
        return Err("Empty memory limit string".to_owned());
    }
    let chars = chars_of(t.as_str());
    let k: usize = count_digits(&chars);
    let num = substring(&chars, 0, k);
    assert(num@ == t@.take(k as int));
    let unit = if k == chars.len() {
        "B".to_owned()
    } else {
        let u = substring(&chars, k, chars.len());
        assert(u@ == t@.skip(k as int));
        u
    };
    if k == 0 {
        return Err(concat("Invalid number in memory limit: ", t.as_str()));
    }
    let n: u64 = match parse_u64(num.as_str()) {
        Some(n) => n,
        None => {
            return Err(concat("Invalid number in memory limit: ", num.as_str()));
        },
    };
    let m: u64 = match unit_size(unit.as_str()) {
        Some(m) => m,
        None => {
            return Err(concat("Unknown memory unit: ", unit.as_str()));
        },
    };
    match n.checked_mul(m) {
        Some(bytes) => Ok(bytes),
        None => {
            let mut e = concat("Memory limit overflows u64: ", format_u64(n).as_str());
            e.append("*");
            e.append(format_u64(m).as_str());
            Err(e)
        },
    }
}

/// How a number with a unit behind it is taken apart.
proof fn lemma_number_and_unit(n: nat, unit: Seq<char>)
    requires
        unit.len() > 0 ==> !is_digit(unit[0]) && !is_space(unit.last()),
        n <= u64::MAX,
    ensures
        trimmed(decimal(n) + unit) == decimal(n) + unit,
        digit_span(decimal(n) + unit) == decimal(n).len(),
        decimal(n).len() > 0,
        (decimal(n) + unit).take(decimal(n).len() as int) == decimal(n),
        (decimal(n) + unit).skip(decimal(n).len() as int) == unit,
        read_bounded(decimal(n), u64::MAX as nat) == Some(n),
{
    let t = decimal(n) + unit;
    lemma_decimal_reads_back(n);
    let k = decimal(n).len() as int;
    assert(is_digit(decimal(n)[0]));
    assert(is_digit(decimal(n)[k - 1]));
    assert(t[0] == decimal(n)[0]);
    assert(unit.len() > 0 ==> t.last() == unit.last());
    assert(unit.len() == 0 ==> t.last() == decimal(n)[k - 1]);
    lemma_trimmed_fixed(t);
    assert forall|j: int| 0 <= j < k implies is_digit(#[trigger] t[j]) by {
        assert(t[j] == decimal(n)[j]);
    }
    lemma_digit_span_unique(t, k);
    assert(t.take(k) == decimal(n));
    assert(t.skip(k) == unit);
    lemma_digits_read(decimal(n));
}

/// What the letters of the units are in lower case.
proof fn lemma_unit_letters()
    ensures
        forall|c: char| #[trigger] lower(c) == 'b' <==> c == 'b' || c == 'B',
        forall|c: char| #[trigger] lower(c) == 'k' <==> c == 'k' || c == 'K',
        forall|c: char| #[trigger] lower(c) == 'm' <==> c == 'm' || c == 'M',
        forall|c: char| #[trigger] lower(c) == 'g' <==> c == 'g' || c == 'G',
        "B"@ == seq!['B'],
        "K"@ == seq!['K'],
        "M"@ == seq!['M'],
        "G"@ == seq!['G'],
        "KB"@ == seq!['K', 'B'],
        "MB"@ == seq!['M', 'B'],
        "GB"@ == seq!['G', 'B'],
{
    reveal_strlit("B");
    reveal_strlit("K");
    reveal_strlit("M");
    reveal_strlit("G");
    reveal_strlit("KB");
    reveal_strlit("MB");
    reveal_strlit("GB");
    assert("B"@ =~= seq!['B']);
    assert("K"@ =~= seq!['K']);
    assert("M"@ =~= seq!['M']);
    assert("G"@ =~= seq!['G']);
    assert("KB"@ =~= seq!['K', 'B']);
    assert("MB"@ =~= seq!['M', 'B']);
    assert("GB"@ =~= seq!['G', 'B']);
}

/// A plain number, and a number with `B` behind it, is a number of bytes.
pub proof fn law_memory_in_bytes(n: u64, s: &str, r: Result<u64, String>)
    requires
        call_ensures(parse_memory_limit, (s,), r),
        s@ == decimal(n as nat) || s@ == decimal(n as nat) + seq!['B'] || s@ == decimal(n as nat)
            + seq!['b'],
    ensures
        r == Ok::<u64, String>(n),
{
    lemma_unit_letters();
    assert(decimal(n as nat) + Seq::<char>::empty() =~= decimal(n as nat));
    lemma_number_and_unit(n as nat, Seq::empty());
    lemma_number_and_unit(n as nat, seq!['B']);
    lemma_number_and_unit(n as nat, seq!['b']);
    assert(same_letters("B"@, "B"@));
    assert(same_letters(seq!['b'], "B"@));
    assert(n * 1 == n);
}

/// What a number with a unit of one or two letters behind it reads as, where the second letter is
/// a `B` in either case.
pub proof fn law_memory_in_larger_units(
    n: u64,
    letter: char,
    unit: Seq<char>,
    s: &str,
    r: Result<u64, String>,
)
    requires
        call_ensures(parse_memory_limit, (s,), r),
        unit == seq![letter] || unit == seq![letter, 'B'] || unit == seq![letter, 'b'],
        s@ == decimal(n as nat) + unit,
    ensures
        letter == 'K' || letter == 'k' ==> (match r {
            Ok(bytes) => bytes == n * 1024,
            Err(_) => n * 1024 > u64::MAX,
        }),
        letter == 'M' || letter == 'm' ==> (match r {
            Ok(bytes) => bytes == n * 1024 * 1024,
            Err(_) => n * 1024 * 1024 > u64::MAX,
        }),
        letter == 'G' || letter == 'g' ==> (match r {
            Ok(bytes) => bytes == n * 1024 * 1024 * 1024,
            Err(_) => n * 1024 * 1024 * 1024 > u64::MAX,
        }),
{
    lemma_unit_letters();
    if letter == 'K' || letter == 'k' || letter == 'M' || letter == 'm' || letter == 'G' || letter
        == 'g' {
        lemma_number_and_unit(n as nat, unit);
        assert(unit[0] == letter);
        assert(n * 1048576 == n * 1024 * 1024);
        assert(n * 1073741824 == n * 1024 * 1024 * 1024);
        assert(!same_letters(unit, "B"@)) by {
            if unit.len() == 1 {
                assert(lower(unit[0]) != lower("B"@[0]));
            }
        }
        if unit.len() == 1 {
            assert(lower("K"@[0]) == 'k' && lower("M"@[0]) == 'm' && lower("G"@[0]) == 'g');
            assert(same_letters(unit, "K"@) == (lower(letter) == 'k'));
            assert(same_letters(unit, "M"@) == (lower(letter) == 'm'));
            assert(same_letters(unit, "G"@) == (lower(letter) == 'g'));
        } else {
            assert(lower("KB"@[0]) == 'k' && lower("MB"@[0]) == 'm' && lower("GB"@[0]) == 'g');
            assert(lower("KB"@[1]) == 'b' && lower("MB"@[1]) == 'b' && lower("GB"@[1]) == 'b');
            assert(lower(unit[1]) == 'b');
            assert(same_letters(unit, "KB"@) == (lower(letter) == 'k'));
            assert(same_letters(unit, "MB"@) == (lower(letter) == 'm'));
            assert(same_letters(unit, "GB"@) == (lower(letter) == 'g'));
        }
    }
}

/// No other unit is known: one of more than two letters, one that starts with another letter than
/// `B`, `K`, `M` and `G`, or one whose second letter is not a `B` is refused.
pub proof fn law_other_memory_units_are_refused(
    n: u64,
    unit: Seq<char>,
    s: &str,
    r: Result<u64, String>,
)
    requires
        call_ensures(parse_memory_limit, (s,), r),
        s@ == decimal(n as nat) + unit,
        unit.len() > 0,
        !is_digit(unit[0]),
        !is_space(unit.last()),
        unit.len() > 2 || (unit[0] != 'B' && unit[0] != 'b' && unit[0] != 'K' && unit[0] != 'k'
            && unit[0] != 'M' && unit[0] != 'm' && unit[0] != 'G' && unit[0] != 'g') || (unit.len()
            == 2 && (unit[0] == 'B' || unit[0] == 'b' || (unit[1] != 'B' && unit[1] != 'b'))),
    ensures
        r is Err,
        r->Err_0@ == "Unknown memory unit: "@ + unit,
{
    lemma_unit_letters();
    lemma_number_and_unit(n as nat, unit);
    assert(lower("B"@[0]) == 'b' && lower("K"@[0]) == 'k' && lower("M"@[0]) == 'm' && lower("G"@[0])
        == 'g');
    assert(lower("KB"@[0]) == 'k' && lower("MB"@[0]) == 'm' && lower("GB"@[0]) == 'g');
    assert(lower("KB"@[1]) == 'b' && lower("MB"@[1]) == 'b' && lower("GB"@[1]) == 'b');
    assert(unit_bytes(unit) is None);
}

/// Without digits in front, nothing is read.
pub proof fn law_memory_needs_digits(s: &str, r: Result<u64, String>)
    requires
        call_ensures(parse_memory_limit, (s,), r),
        s@.len() > 0 ==> !is_digit(s@[0]) && !is_space(s@[0]) && !is_space(s@.last()),
    ensures
        r is Err,
{
    lemma_trimmed_fixed(s@);
}

} // verus!
