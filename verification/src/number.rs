//! Decimal and hexadecimal notation for integers.
use vstd::prelude::*;
use vstd::string::*;
use crate::text::{chars_of, concat};

verus! {

/// The digit characters in order.
pub open spec fn digit(d: nat) -> char {
    if d < 10 {
        ('0' as u32 + d) as char
    } else {
        ('a' as u32 + (d - 10)) as char
    }
}

/// `n` written in base `base`, without leading zeros.
pub open spec fn in_base(n: nat, base: nat) -> Seq<char>
    decreases n,
{
    if base < 2 {
        seq![]
    } else if n < base {
        seq![digit(n)]
    } else {
        proof {
            assert(n / base < n) by (nonlinear_arith)
                requires
                    n >= base,
                    base >= 2,
            ;
        }
        in_base(n / base, base).push(digit(n % base))
    }
}

/// `n` in decimal notation.
pub open spec fn decimal(n: nat) -> Seq<char> {
    in_base(n, 10)
}

/// `n` in decimal notation, with a minus sign if it is negative.
pub open spec fn signed_decimal(n: int) -> Seq<char> {
    if n < 0 {
        seq!['-'] + decimal((-n) as nat)
    } else {
        decimal(n as nat)
    }
}

/// `n` in hexadecimal notation, in lower case.
pub open spec fn hexadecimal(n: nat) -> Seq<char> {
    in_base(n, 16)
}

/// Whether `c` is one of `0` to `9`.
pub open spec fn is_digit(c: char) -> bool {
    '0' <= c <= '9'
}

/// The number of leading characters of `s` that are digits.
pub open spec fn digit_span(s: Seq<char>) -> nat
    decreases s.len(),
{
    if s.len() == 0 || !is_digit(s[0]) {
        0
    } else {
        1 + digit_span(s.skip(1))
    }
}

/// The value of a sequence of digits.
pub open spec fn digits_value(s: Seq<char>) -> nat
    decreases s.len(),
{
    if s.len() == 0 {
        0
    } else {
        digits_value(s.drop_last()) * 10 + (s.last() as u32 - '0' as u32) as nat
    }
}

/// Whether `s` is a nonempty sequence of digits.
pub open spec fn all_digits(s: Seq<char>) -> bool {
    s.len() > 0 && forall|i: int| 0 <= i < s.len() ==> is_digit(#[trigger] s[i])
}

/// What an unsigned integer reads as: digits, with an optional plus sign in front.
pub open spec fn read_unsigned(s: Seq<char>) -> Option<nat> {
    let body = if s.len() > 0 && s[0] == '+' {
        s.skip(1)
    } else {
        s
    };
    if all_digits(body) {
        Some(digits_value(body))
    } else {
        None
    }
}

/// What a signed integer reads as: digits, with an optional sign in front.
pub open spec fn read_signed(s: Seq<char>) -> Option<int> {
    if s.len() > 0 && s[0] == '-' {
        if all_digits(s.skip(1)) {
            Some(-(digits_value(s.skip(1)) as int))
        } else {
            None
        }
    } else {
        match read_unsigned(s) {
            Some(n) => Some(n as int),
            None => None,
        }
    }
}

/// The value of `s` as a number of at most `max`, if it is one.
pub open spec fn read_bounded(s: Seq<char>, max: nat) -> Option<nat> {
    match read_unsigned(s) {
        Some(n) => if n <= max {
            Some(n)
        } else {
            None
        },
        None => None,
    }
}

/// The value of `s` as an `i32`, if it is one.
pub open spec fn read_i32(s: Seq<char>) -> Option<int> {
    match read_signed(s) {
        Some(n) => if i32::MIN <= n <= i32::MAX {
            Some(n)
        } else {
            None
        },
        None => None,
    }
}

/// The value of `s` as an `i64`, if it is one.
pub open spec fn read_i64(s: Seq<char>) -> Option<int> {
    match read_signed(s) {
        Some(n) => if i64::MIN <= n <= i64::MAX {
            Some(n)
        } else {
            None
        },
        None => None,
    }
}

/// The value of the digits `chars[from..]`, if they are digits and the value fits.
fn parse_digits(chars: &Vec<char>, from: usize) -> (r: Option<u64>)
    requires
        from <= chars@.len(),
    ensures
        r matches Some(n) ==> all_digits(chars@.skip(from as int)) && n == digits_value(
            chars@.skip(from as int),
        ),
        r is None ==> !all_digits(chars@.skip(from as int)) || digits_value(
            chars@.skip(from as int),
        ) > u64::MAX,
{
    let ghost body = chars@.skip(from as int);
    if from == chars.len() {
        return None;
    }
    let mut n: u64 = 0;
    let mut i: usize = from;
    let mut fits: bool = true;
    while i < chars.len()
        invariant
            from <= i <= chars@.len(),
            body == chars@.skip(from as int),
            forall|j: int| 0 <= j < i - from ==> is_digit(#[trigger] body[j]),
            fits ==> n == digits_value(body.take(i - from)),
            !fits ==> digits_value(body.take(i - from)) > u64::MAX,
        decreases chars@.len() - i,
    {
        let c = chars[i];
        assert(body[i - from] == c);
        if c < '0' || c > '9' {
            assert(!is_digit(body[i - from]));
            return None;
        }
        let ghost done = body.take(i - from);
        assert(body.take(i + 1 - from).drop_last() == done);
        assert(body.take(i + 1 - from).last() == c);
        let d: u64 = (c as u32 - '0' as u32) as u64;
        assert(digits_value(body.take(i + 1 - from)) == digits_value(done) * 10 + d);
        if fits && n <= (u64::MAX - d) / 10 {
            n = n * 10 + d;
        } else {
            fits = false;
        }
        i += 1;
    }
    assert(body.take(body.len() as int) == body);
    if fits {
        Some(n)
    } else {
        None
    }
}

/// `s` read as a `u64`.
pub fn parse_u64(s: &str) -> (r: Option<u64>)
    ensures
        match r {
            Some(n) => read_bounded(s@, u64::MAX as nat) == Some(n as nat),
            None => read_bounded(s@, u64::MAX as nat) is None,
        },
{
    let chars = chars_of(s);
    assert(chars@.skip(0) == chars@);
    if chars.len() > 0 && chars[0] == '+' {
        parse_digits(&chars, 1)
    } else {
        parse_digits(&chars, 0)
    }
}

/// `s` read as a `u32`.
pub fn parse_u32(s: &str) -> (r: Option<u32>)
    ensures
        match r {
            Some(n) => read_bounded(s@, u32::MAX as nat) == Some(n as nat),
            None => read_bounded(s@, u32::MAX as nat) is None,
        },
{
    match parse_u64(s) {
        Some(n) => if n <= u32::MAX as u64 {
            Some(n as u32)
        } else {
            None
        },
        None => None,
    }
}

/// `s` read as an `i32`.
pub fn parse_i32(s: &str) -> (r: Option<i32>)
    ensures
        match r {
            Some(n) => read_i32(s@) == Some(n as int),
            None => read_i32(s@) is None,
        },
{
    let chars = chars_of(s);
    if chars.len() > 0 && chars[0] == '-' {
        match parse_digits(&chars, 1) {
            Some(n) => if n <= 2147483648u64 {
                Some((0i64 - n as i64) as i32)
            } else {
                None
            },
            None => None,
        }
    } else {
        match parse_u64(s) {
            Some(n) => if n <= 2147483647u64 {
                Some(n as i32)
            } else {
                None
            },
            None => None,
        }
    }
}

/// `s` read as an `i64`.
pub fn parse_i64(s: &str) -> (r: Option<i64>)
    ensures
        match r {
            Some(n) => read_i64(s@) == Some(n as int),
            None => read_i64(s@) is None,
        },
{
    let chars = chars_of(s);
    if chars.len() > 0 && chars[0] == '-' {
        match parse_digits(&chars, 1) {
            Some(n) => if n <= 9223372036854775808u64 {
                Some((0i128 - n as i128) as i64)
            } else {
                None
            },
            None => None,
        }
    } else {
        match parse_u64(s) {
            Some(n) => if n <= 9223372036854775807u64 {
                Some(n as i64)
            } else {
                None
            },
            None => None,
        }
    }
}

/// The character of one digit.
fn digit_char(d: u64) -> (r: char)
    requires
        d < 16,
    ensures
        r == digit(d as nat),
{
    if d < 10 {
        (48u8 + d as u8) as char
    } else {
        (97u8 + (d - 10) as u8) as char
    }
}

fn format_in_base(n: u64, base: u64) -> (r: String)
    requires
        2 <= base <= 16,
    ensures
        r@ == in_base(n as nat, base as nat),
    decreases n,
{
    let mut s: String;
    if n >= base {
        assert(n / base < n) by (nonlinear_arith)
            requires
                n >= base,
                base >= 2,
        ;
        s = format_in_base(n / base, base);
    } else {
        s = String::new();
    }
    assert(n % base < base);
    assert(n < base ==> n % base == n) by (nonlinear_arith)
        requires
            base >= 2,
    ;
    s.push(digit_char(n % base));
    assert(Seq::<char>::empty().push(digit((n % base) as nat)) == seq![digit((n % base) as nat)]);
    s
}

/// `n` in decimal notation.
pub fn format_u64(n: u64) -> (r: String)
    ensures
        r@ == decimal(n as nat),
{
    format_in_base(n, 10)
}

/// `n` in hexadecimal notation, in lower case.
pub fn format_hex(n: u64) -> (r: String)
    ensures
        r@ == hexadecimal(n as nat),
{
    format_in_base(n, 16)
}

/// `n` in decimal notation, with a minus sign if it is negative.
pub fn format_i64(n: i64) -> (r: String)
    ensures
        r@ == signed_decimal(n as int),
{
    if n < 0 {
        let magnitude: u64 = (-(n + 1)) as u64 + 1;
        let digits = format_u64(magnitude);
        let r = concat("-", digits.as_str());
        proof {
            reveal_strlit("-");
            assert("-"@ == seq!['-']);
        }
        r
    } else {
        format_u64(n as u64)
    }
}

/// Decimal notation consists of digits and reads back as the number.
pub proof fn lemma_decimal_reads_back(n: nat)
    ensures
        all_digits(decimal(n)),
        digits_value(decimal(n)) == n,
        read_unsigned(decimal(n)) == Some(n),
    decreases n,
{
    let s = decimal(n);
    if n < 10 {
        assert(s.drop_last() == Seq::<char>::empty());
        assert(digits_value(s.drop_last()) == 0);
        assert(s.last() == digit(n));
    } else {
        lemma_decimal_reads_back(n / 10);
        assert(s == decimal(n / 10).push(digit(n % 10)));
        assert(s.drop_last() == decimal(n / 10));
        assert(s.last() == digit(n % 10));
        assert forall|i: int| 0 <= i < s.len() implies is_digit(#[trigger] s[i]) by {
            if i < s.len() - 1 {
                assert(s[i] == decimal(n / 10)[i]);
            }
        }
    }
    assert(is_digit(s[0]));
}

/// What `digit_span` counts: digits in front, and then either the end or no digit.
pub proof fn lemma_digit_span_unique(s: Seq<char>, k: int)
    requires
        0 <= k <= s.len(),
        forall|j: int| 0 <= j < k ==> is_digit(#[trigger] s[j]),
        k < s.len() ==> !is_digit(s[k]),
    ensures
        digit_span(s) == k,
    decreases s.len(),
{
    if k > 0 {
        assert(is_digit(s[0]));
        assert forall|j: int| 0 <= j < k - 1 implies is_digit(#[trigger] s.skip(1)[j]) by {
            assert(s.skip(1)[j] == s[j + 1]);
        }
        lemma_digit_span_unique(s.skip(1), k - 1);
    }
}

/// The number of leading digits.
pub fn count_digits(chars: &Vec<char>) -> (r: usize)
    ensures
        r == digit_span(chars@),
        r <= chars@.len(),
{
    let mut k: usize = 0;
    while k < chars.len() && '0' <= chars[k] && chars[k] <= '9'
        invariant
            k <= chars@.len(),
            forall|j: int| 0 <= j < k ==> is_digit(#[trigger] chars@[j]),
        decreases chars@.len() - k,
    {
        k += 1;
    }
    proof {
        lemma_digit_span_unique(chars@, k as int);
    }
    k
}

/// A list of digits has no plus sign in front, so it reads as its value.
pub proof fn lemma_digits_read(s: Seq<char>)
    requires
        all_digits(s),
    ensures
        read_unsigned(s) == Some(digits_value(s)),
{
    assert(is_digit(s[0]));
}

/// Different numbers are written differently in hexadecimal notation.
pub proof fn lemma_hexadecimal_differs(a: nat, b: nat)
    requires
        hexadecimal(a) == hexadecimal(b),
    ensures
        a == b,
    decreases a + b,
{
    let s = hexadecimal(a);
    assert(s.last() == digit(a % 16)) by {
        if a >= 16 {
            assert(s == hexadecimal(a / 16).push(digit(a % 16)));
        }
    }
    assert(s.last() == digit(b % 16)) by {
        if b >= 16 {
            assert(s == hexadecimal(b / 16).push(digit(b % 16)));
        }
    }
    assert(a % 16 == b % 16);
    if a >= 16 && b >= 16 {
        assert(s.drop_last() =~= hexadecimal(a / 16));
        assert(s.drop_last() =~= hexadecimal(b / 16));
        lemma_hexadecimal_differs(a / 16, b / 16);
    } else if a >= 16 {
        assert(hexadecimal(a / 16).len() > 0);
        assert(s.len() == 1);
    } else if b >= 16 {
        assert(hexadecimal(b / 16).len() > 0);
        assert(s.len() == 1);
    }
}

/// A written number reads as itself, and is made of digits behind an optional sign.
pub proof fn lemma_signed_reads_back_wide(n: i64)
    ensures
        read_i64(signed_decimal(n as int)) == Some(n as int),
        forall|j: int|
            0 <= j < signed_decimal(n as int).len() ==> is_digit(
                #[trigger] signed_decimal(n as int)[j],
            ) || signed_decimal(n as int)[j] == '-',
{
    let s = signed_decimal(n as int);
    if n < 0 {
        let d = decimal((-n) as nat);
        lemma_decimal_reads_back((-n) as nat);
        assert(s.skip(1) =~= d);
        assert forall|j: int| 0 <= j < s.len() implies is_digit(#[trigger] s[j]) || s[j]
            == '-' by {
            if j > 0 {
                assert(s[j] == d[j - 1]);
            }
        }
    } else {
        lemma_decimal_reads_back(n as nat);
        assert(is_digit(s[0]));
        lemma_digits_read(s);
    }
}

/// A number below ten is written as its digit, and any other with its last digit behind the rest.
pub proof fn law_decimal_digits(n: nat, d: nat, r: String, whole: u64)
    requires
        d < 10,
        whole == 10 * n + d,
        call_ensures(format_u64, (whole,), r),
    ensures
        r@.last() == ('0' as u32 + d) as char,
        n == 0 ==> r@ == seq![('0' as u32 + d) as char],
        n > 0 ==> r@.drop_last() == decimal(n),
{
    if n > 0 {
        assert(whole as nat / 10 == n);
        assert(whole as nat % 10 == d);
        assert(decimal(whole as nat) == decimal(n).push(digit(d)));
        assert(decimal(n).push(digit(d)).drop_last() =~= decimal(n));
    }
}

/// A number that was written is read again, with its sign; one that does not fit is not read.
pub proof fn law_written_numbers_are_read(
    n: u64,
    k: i64,
    text: String,
    signed: String,
    s: &str,
    t: &str,
    r64: Option<u64>,
    r32: Option<u32>,
    i64s: Option<i64>,
    i32s: Option<i32>,
)
    requires
        call_ensures(format_u64, (n,), text),
        call_ensures(format_i64, (k,), signed),
        s@ == text@,
        t@ == signed@,
        call_ensures(parse_u64, (s,), r64),
        call_ensures(parse_u32, (s,), r32),
        call_ensures(parse_i64, (t,), i64s),
        call_ensures(parse_i32, (t,), i32s),
    ensures
        r64 == Some(n),
        n <= u32::MAX ==> r32 == Some(n as u32),
        n > u32::MAX ==> r32 is None,
        i64s == Some(k),
        i32::MIN <= k <= i32::MAX ==> i32s == Some(k as i32),
        !(i32::MIN <= k <= i32::MAX) ==> i32s is None,
{
    lemma_decimal_reads_back(n as nat);
    lemma_digits_read(decimal(n as nat));
    lemma_signed_reads_back_wide(k);
}

/// What starts with another character than a digit or a sign is no number.
pub proof fn law_words_are_no_numbers(s: &str, r: Option<u64>, k: Option<i64>)
    requires
        call_ensures(parse_u64, (s,), r),
        call_ensures(parse_i64, (s,), k),
        s@.len() == 0 || (!is_digit(s@[0]) && s@[0] != '+' && s@[0] != '-'),
    ensures
        r is None,
        k is None,
{
}

/// A plus sign in front of a number changes nothing; a minus sign makes it negative.
pub proof fn law_signs_of_numbers(
    n: u32,
    plus: &str,
    minus: &str,
    r: Option<u64>,
    k: Option<i64>,
    none: Option<u64>,
)
    requires
        plus@ == seq!['+'] + decimal(n as nat),
        minus@ == seq!['-'] + decimal(n as nat),
        call_ensures(parse_u64, (plus,), r),
        call_ensures(parse_i64, (minus,), k),
        call_ensures(parse_u64, (minus,), none),
    ensures
        r == Some(n as u64),
        k matches Some(m) && m == -(n as int),
        none is None,
{
    lemma_decimal_reads_back(n as nat);
    assert(plus@.skip(1) =~= decimal(n as nat));
    assert(minus@.skip(1) =~= decimal(n as nat));
    assert(minus@[0] == '-');
    assert(!is_digit('-'));
}

} // verus!
