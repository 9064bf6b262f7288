//! Durations and their notation.
use vstd::prelude::*;
use crate::number::{
    count_digits, decimal, digit_span, format_u64, is_digit, lemma_decimal_reads_back,
    lemma_digit_span_unique, lemma_digits_read, parse_u64, read_bounded,
};
use crate::text::{
    chars_of, concat, equal_letters, is_space, lemma_trimmed_fixed, lower, same_letters, substring, trim,
    trimmed,
};

verus! {

/// A span of time in milliseconds.
#[derive(Debug, Clone, Copy, PartialEq, Eq, Structural)]
pub struct Duration {
    pub millis: u64,
}

impl Duration {
    /// The span of `millis` milliseconds.
    pub fn from_millis(millis: u64) -> (r: Duration)
        ensures
            r.millis == millis,
    {
        Duration { millis }
    }

    /// The span of `secs` seconds.
    pub fn from_secs(secs: u64) -> (r: Duration)
        requires
            secs * 1000 <= u64::MAX,
        ensures
            r.millis == secs * 1000,
    {
        Duration { millis: secs * 1000 }
    }

    /// Whether the span is empty.
    pub fn is_zero(&self) -> (r: bool)
        ensures
            r == (self.millis == 0),
    {
        self.millis == 0
    }
}

/// The number of milliseconds of a unit; letters count in either case.
pub open spec fn unit_millis(unit: Seq<char>) -> Option<nat> {
    if same_letters(unit, "ms"@) {
        Some(1)
    } else if unit.len() == 0 || same_letters(unit, "s"@) {
        Some(1000)
    } else if same_letters(unit, "m"@) {
        Some(60000)
    } else if same_letters(unit, "h"@) {
        Some(3600000)
    } else if same_letters(unit, "d"@) {
        Some(86400000)
    } else {
        None
    }
}

/// The milliseconds that a duration reads as, or why it is none: digits and then a unit, where
/// no unit means seconds.
pub open spec fn read_duration(s: Seq<char>) -> Result<nat, Seq<char>> {
    let t = trimmed(s);
    let k = digit_span(t);
    let num = t.take(k as int);
    let unit = if k == t.len() {
        "s"@
    } else {
        t.skip(k as int)
    };
    if t.len() == 0 {
        Err("Empty duration string"@)
    } else {
        match read_bounded(num, u64::MAX as nat) {
            None => Err("Invalid number in duration: "@ + num),
            Some(n) => match unit_millis(unit) {
                None => Err("Unknown duration unit: "@ + unit),
                Some(m) => if n * m <= u64::MAX {
                    Ok(n * m)
                } else {
                    Err("Duration value too large: "@ + t)
                },
            },
        }
    }
}

/// The milliseconds of a unit.
pub fn unit_factor(unit: &str) -> (r: Option<u64>)
    ensures
        match r {
            Some(m) => unit_millis(unit@) == Some(m as nat) && 1 <= m <= 86400000,
            None => unit_millis(unit@) is None,
        },
{
    if equal_letters(unit, "ms") {
        Some(1)
    } else if unit.is_empty() || equal_letters(unit, "s") {
        Some(1000)
    } else if equal_letters(unit, "m") {
        Some(60000)
    } else if equal_letters(unit, "h") {
        Some(3600000)
    } else if equal_letters(unit, "d") {
        Some(86400000)
    } else {
        None
    }
}

/// Reads a duration such as `10s`, `5m`, `1h` or `100ms`.
pub fn parse_duration(s: &str) -> (r: Result<Duration, String>)
    ensures
        match r {
            Ok(d) => read_duration(s@) == Ok::<nat, Seq<char>>(d.millis as nat),
            Err(e) => read_duration(s@) == Err::<nat, Seq<char>>(e@),
        },
{
    let t = trim(s);
    if t.as_str().is_empty() {
        return Err("Empty duration string".to_owned());
    }
    let chars = chars_of(t.as_str());
    let k: usize = count_digits(&chars);
    let num = substring(&chars, 0, k);
    assert(num@ == t@.take(k as int));
    let unit = if k == chars.len() {
        "s".to_owned()
    } else {
        let u = substring(&chars, k, chars.len());
        assert(u@ == t@.skip(k as int));
        u
    };
    let n: u64 = match parse_u64(num.as_str()) {
        Some(n) => n,
        None => {
            return Err(concat("Invalid number in duration: ", num.as_str()));
        },
    };
    let m: u64 = match unit_factor(unit.as_str()) {
        Some(m) => m,
        None => {
            return Err(concat("Unknown duration unit: ", unit.as_str()));
        },
    };
    match n.checked_mul(m) {
        Some(millis) => Ok(Duration { millis }),
        None => Err(concat("Duration value too large: ", t.as_str())),
    }
}

/// The notation of a duration: the greatest unit that divides it.
pub open spec fn duration_text(millis: nat) -> Seq<char> {
    if millis == 0 {
        "0s"@
    } else if millis % 86400000 == 0 {
        decimal(millis / 86400000) + "d"@
    } else if millis % 3600000 == 0 {
        decimal(millis / 3600000) + "h"@
    } else if millis % 60000 == 0 {
        decimal(millis / 60000) + "m"@
    } else if millis % 1000 == 0 {
        decimal(millis / 1000) + "s"@
    } else {
        decimal(millis) + "ms"@
    }
}

/// Writes a duration such as `10s`, `5m`, `1h` or `100ms`.
pub fn format_duration(duration: &Duration) -> (r: String)
    ensures
        r@ == duration_text(duration.millis as nat),
{
    let millis: u64 = duration.millis;
    if millis == 0 {
        return "0s".to_owned();
    }
    if millis % 86400000 == 0 {
        concat(format_u64(millis / 86400000).as_str(), "d")
    } else if millis % 3600000 == 0 {
        concat(format_u64(millis / 3600000).as_str(), "h")
    } else if millis % 60000 == 0 {
        concat(format_u64(millis / 60000).as_str(), "m")
    } else if millis % 1000 == 0 {
        concat(format_u64(millis / 1000).as_str(), "s")
    } else {
        concat(format_u64(millis).as_str(), "ms")
    }
}

/// A number and a unit in letters read as their product.
proof fn lemma_reads_product(n: nat, unit: Seq<char>, m: nat)
    requires
        unit_millis(unit) == Some(m),
        unit.len() > 0,
        !is_digit(unit[0]),
        !is_space(unit.last()),
        n * m <= u64::MAX,
        n <= u64::MAX,
    ensures
        read_duration(decimal(n) + unit) == Ok::<nat, Seq<char>>(n * m),
{
    let t = decimal(n) + unit;
    lemma_decimal_reads_back(n);
    assert(is_digit(decimal(n)[0]));
    assert(t[0] == decimal(n)[0]);
    assert(t.last() == unit.last());
    lemma_trimmed_fixed(t);
    let k = decimal(n).len() as int;
    assert forall|j: int| 0 <= j < k implies is_digit(#[trigger] t[j]) by {
        assert(t[j] == decimal(n)[j]);
    }
    lemma_digit_span_unique(t, k);
    assert(t.take(k) == decimal(n));
    assert(t.skip(k) == unit);
    lemma_digits_read(decimal(n));
}

/// Reading what was written gives back the duration.
pub proof fn law_duration_round_trip(millis: u64)
    ensures
        read_duration(duration_text(millis as nat)) == Ok::<nat, Seq<char>>(millis as nat),
{
    reveal_strlit("0s");
    reveal_strlit("ms");
    reveal_strlit("s");
    reveal_strlit("m");
    reveal_strlit("h");
    reveal_strlit("d");
    let n = millis as nat;
    assert("s"@[0] == 's' && "m"@[0] == 'm' && "h"@[0] == 'h' && "d"@[0] == 'd' && "ms"@[0]
        == 'm');
    assert(lower('s') == 's' && lower('m') == 'm' && lower('h') == 'h' && lower('d') == 'd');
    if n == 0 {
        lemma_decimal_reads_back(0);
        assert("0s"@ =~= decimal(0) + "s"@);
        lemma_reads_product(0, "s"@, 1000);
    } else if n % 86400000 == 0 {
        lemma_reads_product(n / 86400000, "d"@, 86400000);
    } else if n % 3600000 == 0 {
        lemma_reads_product(n / 3600000, "h"@, 3600000);
    } else if n % 60000 == 0 {
        lemma_reads_product(n / 60000, "m"@, 60000);
    } else if n % 1000 == 0 {
        lemma_reads_product(n / 1000, "s"@, 1000);
    } else {
        lemma_reads_product(n, "ms"@, 1);
    }
}

/// A number with a unit behind it is that many milliseconds, seconds, minutes, hours or days; the
/// unit counts in either case, and a plain number is one of seconds. What does not fit is refused.
pub proof fn law_duration_units(n: u64, unit: Seq<char>, s: &str, r: Result<Duration, String>)
    requires
        call_ensures(parse_duration, (s,), r),
        s@ == decimal(n as nat) + unit,
    ensures
        unit.len() == 2 && (unit[0] == 'm' || unit[0] == 'M') && (unit[1] == 's' || unit[1] == 'S')
            ==> r is Ok && r->Ok_0.millis == n,
        unit.len() == 0 || unit == seq!['s'] || unit == seq!['S'] ==> (match r {
            Ok(d) => d.millis == n * 1000,
            Err(_) => n * 1000 > u64::MAX,
        }),
        unit == seq!['m'] || unit == seq!['M'] ==> (match r {
            Ok(d) => d.millis == n * 60 * 1000,
            Err(_) => n * 60 * 1000 > u64::MAX,
        }),
        unit == seq!['h'] || unit == seq!['H'] ==> (match r {
            Ok(d) => d.millis == n * 60 * 60 * 1000,
            Err(_) => n * 60 * 60 * 1000 > u64::MAX,
        }),
        unit == seq!['d'] || unit == seq!['D'] ==> (match r {
            Ok(d) => d.millis == n * 24 * 60 * 60 * 1000,
            Err(_) => n * 24 * 60 * 60 * 1000 > u64::MAX,
        }),
{
    reveal_strlit("ms");
    reveal_strlit("s");
    reveal_strlit("m");
    reveal_strlit("h");
    reveal_strlit("d");
    assert("ms"@ =~= seq!['m', 's']);
    assert("s"@ =~= seq!['s']);
    assert("m"@ =~= seq!['m']);
    assert("h"@ =~= seq!['h']);
    assert("d"@ =~= seq!['d']);
    assert(forall|c: char| #[trigger] lower(c) == 's' <==> c == 's' || c == 'S');
    assert(forall|c: char| #[trigger] lower(c) == 'm' <==> c == 'm' || c == 'M');
    assert(forall|c: char| #[trigger] lower(c) == 'h' <==> c == 'h' || c == 'H');
    assert(forall|c: char| #[trigger] lower(c) == 'd' <==> c == 'd' || c == 'D');
    assert(lower("s"@[0]) == 's' && lower("m"@[0]) == 'm' && lower("h"@[0]) == 'h' && lower("d"@[0])
        == 'd');
    assert(lower("ms"@[0]) == 'm' && lower("ms"@[1]) == 's');
    let asked = unit.len() == 0 || (unit.len() == 1 && (lower(unit[0]) == 's' || lower(unit[0])
        == 'm' || lower(unit[0]) == 'h' || lower(unit[0]) == 'd')) || (unit.len() == 2 && lower(
        unit[0],
    ) == 'm' && lower(unit[1]) == 's');
    if asked {
        let t = decimal(n as nat) + unit;
        let k = decimal(n as nat).len() as int;
        lemma_decimal_reads_back(n as nat);
        assert(is_digit(decimal(n as nat)[0]));
        assert(is_digit(decimal(n as nat)[k - 1]));
        assert(t[0] == decimal(n as nat)[0]);
        assert(unit.len() > 0 ==> t.last() == unit.last());
        assert(unit.len() == 0 ==> t.last() == decimal(n as nat)[k - 1]);
        lemma_trimmed_fixed(t);
        assert forall|j: int| 0 <= j < k implies is_digit(#[trigger] t[j]) by {
            assert(t[j] == decimal(n as nat)[j]);
        }
        lemma_digit_span_unique(t, k);
        assert(t.take(k) == decimal(n as nat));
        assert(t.skip(k) == unit);
        lemma_digits_read(decimal(n as nat));
        assert(same_letters("s"@, "s"@));
        assert(unit.len() == 1 ==> (same_letters(unit, "s"@) == (lower(unit[0]) == 's')));
        assert(unit.len() == 1 ==> (same_letters(unit, "m"@) == (lower(unit[0]) == 'm')));
        assert(unit.len() == 1 ==> (same_letters(unit, "h"@) == (lower(unit[0]) == 'h')));
        assert(unit.len() == 1 ==> (same_letters(unit, "d"@) == (lower(unit[0]) == 'd')));
        assert(unit.len() == 2 ==> same_letters(unit, "ms"@));
        if unit.len() == 2 {
            assert(unit_millis(unit) == Some(1nat));
            assert(n * 1 == n);
        }
        if unit == seq!['s'] || unit == seq!['S'] {
            assert(unit[0] == 's' || unit[0] == 'S');
            assert(unit_millis(unit) == Some(1000nat));
        }
        if unit == seq!['m'] || unit == seq!['M'] {
            assert(unit[0] == 'm' || unit[0] == 'M');
            assert(unit_millis(unit) == Some(60000nat));
            assert(n * 60 * 1000 == n * 60000);
        }
        if unit == seq!['h'] || unit == seq!['H'] {
            assert(unit[0] == 'h' || unit[0] == 'H');
            assert(unit_millis(unit) == Some(3600000nat));
            assert(n * 60 * 60 * 1000 == n * 3600000);
        }
        if unit == seq!['d'] || unit == seq!['D'] {
            assert(unit[0] == 'd' || unit[0] == 'D');
            assert(unit_millis(unit) == Some(86400000nat));
            assert(n * 24 * 60 * 60 * 1000 == n * 86400000);
        }
    }
}

/// A whole number of days is written in days.
pub proof fn law_days_written(n: nat)
    requires
        n > 0,
    ensures
        duration_text(n * 24 * 60 * 60 * 1000) == decimal(n) + "d"@,
{
    assert(n * 24 * 60 * 60 * 1000 == n * 86400000);
}

/// A whole number of hours that is none of days is written in hours.
pub proof fn law_hours_written(n: nat)
    requires
        n % 24 != 0,
    ensures
        duration_text(n * 60 * 60 * 1000) == decimal(n) + "h"@,
{
    let m = n * 60 * 60 * 1000;
    assert(m == n * 3600000);
    assert(m % 86400000 != 0) by {
        let q = m / 86400000;
        if m % 86400000 == 0 {
            assert(n == q * 24);
        }
    }
}

/// A whole number of minutes that is none of hours is written in minutes.
pub proof fn law_minutes_written(n: nat)
    requires
        n % 60 != 0,
    ensures
        duration_text(n * 60 * 1000) == decimal(n) + "m"@,
{
    let m = n * 60 * 1000;
    assert(m == n * 60000);
    assert(m % 3600000 != 0) by {
        let q = m / 3600000;
        if m % 3600000 == 0 {
            assert(n == q * 60);
        }
    }
    lemma_coarser(m as int, 3600000, 24);
}

/// A whole number of seconds that is none of minutes is written in seconds.
pub proof fn law_seconds_written(n: nat)
    requires
        n % 60 != 0,
    ensures
        duration_text(n * 1000) == decimal(n) + "s"@,
{
    let m = n * 1000;
    assert(m % 60000 != 0) by {
        let q = m / 60000;
        if m % 60000 == 0 {
            assert(n == q * 60);
        }
    }
    lemma_coarser(m as int, 60000, 60);
    lemma_coarser(m as int, 60000, 1440);
}

/// What is no whole number of seconds is written in milliseconds.
pub proof fn law_milliseconds_written(n: nat)
    requires
        n % 1000 != 0,
    ensures
        duration_text(n) == decimal(n) + "ms"@,
{
    lemma_coarser(n as int, 1000, 60);
    lemma_coarser(n as int, 1000, 3600);
    lemma_coarser(n as int, 1000, 86400);
}

/// What is no multiple of a unit is no multiple of a coarser one.
proof fn lemma_coarser(m: int, unit: int, k: int)
    requires
        m >= 0,
        unit > 0,
        k > 0,
        m % unit != 0,
    ensures
        m % (unit * k) != 0,
{
    if m % (unit * k) == 0 {
        assert(unit * k > 0) by (nonlinear_arith)
            requires
                unit > 0,
                k > 0,
        ;
        let q = m / (unit * k);
        vstd::arithmetic::div_mod::lemma_fundamental_div_mod(m, unit * k);
        assert(m == (k * q) * unit) by (nonlinear_arith)
            requires
                m == (unit * k) * q,
        ;
        vstd::arithmetic::div_mod::lemma_mod_multiples_basic(k * q, unit);
    }
}

} // verus!
