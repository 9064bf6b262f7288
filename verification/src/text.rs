//! Text primitives over sequences of characters.
//!
//! Every function here has a model over `Seq<char>`; the rest of the crate states its
//! contracts on text through these models.
use vstd::prelude::*;
use vstd::string::*;

verus! {

/// `String::push` appends one character to the end of the string.
pub assume_specification[ std::string::String::push ](s: &mut std::string::String, c: char)
    ensures
        final(s)@ == old(s)@.push(c),
;

/// The views of a list of strings.
pub open spec fn views(list: Seq<String>) -> Seq<Seq<char>> {
    list.map_values(|s: String| s@)
}

/// The view of an optional string.
pub open spec fn opt_view(s: Option<String>) -> Option<Seq<char>> {
    match s {
        Some(t) => Some(t@),
        None => None,
    }
}

/// The characters of a string, as a vector.
pub fn chars_of(s: &str) -> (r: Vec<char>)
    ensures
        r@ == s@,
{
    let mut out: Vec<char> = Vec::new();
    for c in it: s.chars()
        invariant
            out@ == s@.take(it.index()),
            it.seq() == s@,
    {
        out.push(c);
        assert(s@.take(it.index() + 1) == s@.take(it.index()).push(c));
    }
    assert(s@.take(s@.len() as int) == s@);
    out
}

/// The string made of the characters `chars[from..to]`.
pub fn substring(chars: &Vec<char>, from: usize, to: usize) -> (r: String)
    requires
        from <= to <= chars@.len(),
    ensures
        r@ == chars@.subrange(from as int, to as int),
{
    let mut out: String = String::new();
    let mut i: usize = from;
    while i < to
        invariant
            from <= i <= to <= chars@.len(),
            out@ == chars@.subrange(from as int, i as int),
        decreases to - i,
    {
        out.push(chars[i]);
        i += 1;
        assert(chars@.subrange(from as int, i as int) == chars@.subrange(from as int, i - 1).push(
            chars@[i - 1],
        ));
    }
    out
}

/// The string made of all of `chars`.
pub fn string_of(chars: &Vec<char>) -> (r: String)
    ensures
        r@ == chars@,
{
    let r = substring(chars, 0, chars.len());
    assert(chars@.subrange(0, chars@.len() as int) == chars@);
    r
}

/// Whether two strings hold the same characters.
pub fn same(a: &str, b: &str) -> (r: bool)
    ensures
        r == (a@ == b@),
{
    let x = chars_of(a);
    let y = chars_of(b);
    if x.len() != y.len() {
        return false;
    }
    let mut i: usize = 0;
    while i < x.len()
        invariant
            x@ == a@,
            y@ == b@,
            x@.len() == y@.len(),
            i <= x@.len(),
            forall|j: int| 0 <= j < i ==> x@[j] == y@[j],
        decreases x@.len() - i,
    {
        if x[i] != y[i] {
            return false;
        }
        i += 1;
    }
    assert(a@ == b@);
    true
}

// ---------------------------------------------------------------------------------------------
// Whitespace
// ---------------------------------------------------------------------------------------------

/// The characters with the Unicode property `White_Space`.
pub open spec fn is_space(c: char) -> bool {
    ||| '\u{9}' <= c <= '\u{d}'
    ||| c == ' '
    ||| c == '\u{85}'
    ||| c == '\u{a0}'
    ||| c == '\u{1680}'
    ||| '\u{2000}' <= c <= '\u{200a}'
    ||| c == '\u{2028}'
    ||| c == '\u{2029}'
    ||| c == '\u{202f}'
    ||| c == '\u{205f}'
    ||| c == '\u{3000}'
}

/// Whether `c` is white space.
pub fn space(c: char) -> (r: bool)
    ensures
        r == is_space(c),
{
    ('\u{9}' <= c && c <= '\u{d}') || c == ' ' || c == '\u{85}' || c == '\u{a0}' || c == '\u{1680}'
        || ('\u{2000}' <= c && c <= '\u{200a}') || c == '\u{2028}' || c == '\u{2029}' || c
        == '\u{202f}' || c == '\u{205f}' || c == '\u{3000}'
}

/// `s` without its leading white space.
pub open spec fn trim_start(s: Seq<char>) -> Seq<char>
    decreases s.len(),
{
    if s.len() > 0 && is_space(s[0]) {
        trim_start(s.skip(1))
    } else {
        s
    }
}

/// `s` without its trailing white space.
pub open spec fn trim_end(s: Seq<char>) -> Seq<char>
    decreases s.len(),
{
    if s.len() > 0 && is_space(s.last()) {
        trim_end(s.drop_last())
    } else {
        s
    }
}

/// `s` without leading and trailing white space.
pub open spec fn trimmed(s: Seq<char>) -> Seq<char> {
    trim_end(trim_start(s))
}

/// `s` without leading and trailing white space.
pub fn trim(s: &str) -> (r: String)
    ensures
        r@ == trimmed(s@),
{
    let chars = chars_of(s);
    let n: usize = chars.len();
    let mut from: usize = 0;
    assert(chars@.skip(0) == chars@);
    while from < n && space(chars[from])
        invariant
            n == chars@.len(),
            from <= n,
            trim_start(chars@) == trim_start(chars@.skip(from as int)),
        decreases n - from,
    {
        from += 1;
        assert(chars@.skip(from - 1).skip(1) == chars@.skip(from as int));
    }
    assert(trim_start(chars@) == chars@.skip(from as int));
    let mut to: usize = n;
    assert(chars@.skip(from as int) == chars@.subrange(from as int, n as int));
    while from < to && space(chars[to - 1])
        invariant
            n == chars@.len(),
            from <= to <= n,
            trimmed(chars@) == trim_end(chars@.subrange(from as int, to as int)),
        decreases to - from,
    {
        assert(chars@.subrange(from as int, to as int).drop_last() == chars@.subrange(
            from as int,
            to - 1,
        ));
        to -= 1;
    }
    substring(&chars, from, to)
}

/// Text that neither starts nor ends with white space is its own trim.
pub proof fn lemma_trimmed_fixed(s: Seq<char>)
    requires
        s.len() > 0 ==> !is_space(s[0]) && !is_space(s.last()),
    ensures
        trimmed(s) == s,
{
}

// ---------------------------------------------------------------------------------------------
// Order
// ---------------------------------------------------------------------------------------------

/// Lexicographic order by character value, which is the order of the UTF-8 encodings.
pub open spec fn precedes(a: Seq<char>, b: Seq<char>) -> bool
    decreases a.len(),
{
    if b.len() == 0 {
        false
    } else if a.len() == 0 {
        true
    } else if a[0] == b[0] {
        precedes(a.skip(1), b.skip(1))
    } else {
        a[0] < b[0]
    }
}

/// Exactly one of `a` before `b`, `b` before `a`, and `a` equal to `b` holds.
pub proof fn lemma_precedes_total(a: Seq<char>, b: Seq<char>)
    ensures
        precedes(a, b) ==> !precedes(b, a) && a != b,
        a == b || precedes(a, b) || precedes(b, a),
    decreases a.len(),
{
    if a.len() > 0 && b.len() > 0 {
        lemma_precedes_total(a.skip(1), b.skip(1));
        if a[0] == b[0] && a.skip(1) == b.skip(1) {
            assert(a == seq![a[0]] + a.skip(1));
            assert(b == seq![b[0]] + b.skip(1));
        }
    } else if a.len() == 0 && b.len() == 0 {
        assert(a == b);
    }
}

/// The order is transitive.
pub proof fn lemma_precedes_transitive(a: Seq<char>, b: Seq<char>, c: Seq<char>)
    requires
        precedes(a, b),
        precedes(b, c),
    ensures
        precedes(a, c),
    decreases a.len(),
{
    if a.len() > 0 && b.len() > 0 && c.len() > 0 && a[0] == b[0] && b[0] == c[0] {
        lemma_precedes_transitive(a.skip(1), b.skip(1), c.skip(1));
    }
}

/// Whether `a` comes strictly before `b`.
pub fn before(a: &str, b: &str) -> (r: bool)
    ensures
        r == precedes(a@, b@),
{
    let x = chars_of(a);
    let y = chars_of(b);
    let mut i: usize = 0;
    assert(x@.skip(0) == x@);
    assert(y@.skip(0) == y@);
    while i < x.len() && i < y.len()
        invariant
            x@ == a@,
            y@ == b@,
            i <= x@.len(),
            i <= y@.len(),
            precedes(a@, b@) == precedes(x@.skip(i as int), y@.skip(i as int)),
        decreases x@.len() - i,
    {
        assert(x@.skip(i as int).skip(1) == x@.skip(i + 1));
        assert(y@.skip(i as int).skip(1) == y@.skip(i + 1));
        if x[i] != y[i] {
            return x[i] < y[i];
        }
        i += 1;
    }
    i < y.len()
}

// ---------------------------------------------------------------------------------------------
// Searching and splitting
// ---------------------------------------------------------------------------------------------

/// The number of characters before the first `c`, or all of them if there is none.
pub open spec fn span_before(s: Seq<char>, c: char) -> nat
    decreases s.len(),
{
    if s.len() == 0 || s[0] == c {
        0
    } else {
        1 + span_before(s.skip(1), c)
    }
}

/// What `span_before` counts: no `c` in front, and then either the end or a `c`.
pub proof fn lemma_span_before(s: Seq<char>, c: char)
    ensures
        span_before(s, c) <= s.len(),
        forall|j: int| 0 <= j < span_before(s, c) ==> s[j] != c,
        span_before(s, c) < s.len() ==> s[span_before(s, c) as int] == c,
    decreases s.len(),
{
    if s.len() > 0 && s[0] != c {
        lemma_span_before(s.skip(1), c);
        assert forall|j: int| 0 <= j < span_before(s, c) implies s[j] != c by {
            if j > 0 {
                assert(s.skip(1)[j - 1] == s[j]);
            }
        }
    }
}

/// `span_before` is determined by what it counts.
pub proof fn lemma_span_unique(s: Seq<char>, c: char, k: int)
    requires
        0 <= k <= s.len(),
        forall|j: int| 0 <= j < k ==> s[j] != c,
        k < s.len() ==> s[k] == c,
    ensures
        span_before(s, c) == k,
{
    lemma_span_before(s, c);
}

/// The two parts of `s` around its first `c`, if it has one.
pub open spec fn split_once_at(s: Seq<char>, c: char) -> Option<(Seq<char>, Seq<char>)> {
    let k = span_before(s, c);
    if k < s.len() {
        Some((s.take(k as int), s.skip(k as int + 1)))
    } else {
        None
    }
}

/// The two parts of `s` around its first `c`, if it has one.
pub fn split_once(s: &str, c: char) -> (r: Option<(String, String)>)
    ensures
        match r {
            Some((a, b)) => split_once_at(s@, c) == Some((a@, b@)),
            None => split_once_at(s@, c) is None,
        },
{
    let chars = chars_of(s);
    let mut i: usize = 0;
    while i < chars.len()
        invariant
            chars@ == s@,
            i <= chars@.len(),
            forall|j: int| 0 <= j < i ==> chars@[j] != c,
        decreases chars@.len() - i,
    {
        if chars[i] == c {
            proof {
                lemma_span_unique(s@, c, i as int);
            }
            let a = substring(&chars, 0, i);
            let b = substring(&chars, i + 1, chars.len());
            assert(s@.take(i as int) == s@.subrange(0, i as int));
            assert(s@.skip(i + 1) == s@.subrange(i + 1, s@.len() as int));
            return Some((a, b));
        }
        i += 1;
    }
    proof {
        lemma_span_unique(s@, c, i as int);
    }
    None
}

/// The pieces of `s` between the separators `c`; one more than there are separators.
pub open spec fn split_at_all(s: Seq<char>, c: char) -> Seq<Seq<char>>
    decreases s.len(),
{
    match split_once_at(s, c) {
        Some((a, b)) => {
            proof {
                lemma_span_before(s, c);
            }
            seq![a] + split_at_all(b, c)
        },
        None => seq![s],
    }
}

/// The pieces of `s` between the separators `c`.
pub fn split(s: &str, c: char) -> (r: Vec<String>)
    ensures
        views(r@) == split_at_all(s@, c),
{
    let mut out: Vec<String> = Vec::new();
    let mut rest: String = s.to_owned();
    assert(views(out@) + split_at_all(rest@, c) == split_at_all(s@, c));
    loop
        invariant
            views(out@) + split_at_all(rest@, c) == split_at_all(s@, c),
        decreases rest@.len(),
    {
        proof {
            lemma_span_before(rest@, c);
        }
        match split_once(&rest, c) {
            Some((a, b)) => {
                let ghost before = views(out@);
                out.push(a);
                assert(views(out@) == before.push(a@));
                assert(before + (seq![a@] + split_at_all(b@, c)) == before.push(a@)
                    + split_at_all(b@, c));
                rest = b;
            },
            None => {
                let ghost before = views(out@);
                let ghost last = rest@;
                out.push(rest);
                assert(views(out@) == before.push(last));
                assert(before + seq![last] == before.push(last));
                return out;
            },
        }
    }
}

/// Whether `pat` stands in `s` at position `i`.
pub open spec fn stands_at(s: Seq<char>, pat: Seq<char>, i: int) -> bool {
    0 <= i && i + pat.len() <= s.len() && s.subrange(i, i + pat.len()) == pat
}

/// The first position at or after `from` at which `pat` stands in `s`, or `s.len() + 1`.
pub open spec fn find_from(s: Seq<char>, pat: Seq<char>, from: int) -> int
    decreases s.len() + 1 - from,
{
    if from > s.len() {
        s.len() as int + 1
    } else if stands_at(s, pat, from) {
        from
    } else {
        find_from(s, pat, from + 1)
    }
}

/// Whether `pat` occurs somewhere in `s`.
pub open spec fn occurs(s: Seq<char>, pat: Seq<char>) -> bool {
    exists|i: int| stands_at(s, pat, i)
}

/// `find_from` finds the first occurrence.
pub proof fn lemma_find_from(s: Seq<char>, pat: Seq<char>, from: int)
    requires
        0 <= from,
    ensures
        from <= s.len() ==> from <= find_from(s, pat, from) <= s.len() + 1,
        from <= s.len() + 1 ==> find_from(s, pat, from) <= s.len() + 1,
        find_from(s, pat, from) <= s.len() ==> stands_at(s, pat, find_from(s, pat, from)),
        forall|j: int|
            from <= j < find_from(s, pat, from) ==> !(#[trigger] stands_at(s, pat, j)),
    decreases s.len() + 1 - from,
{
    if from <= s.len() && !stands_at(s, pat, from) {
        lemma_find_from(s, pat, from + 1);
    }
}

/// `pat` occurs in `s` exactly if `find_from` finds it.
pub proof fn lemma_occurs_iff_found(s: Seq<char>, pat: Seq<char>)
    ensures
        occurs(s, pat) <==> find_from(s, pat, 0) <= s.len(),
{
    lemma_find_from(s, pat, 0);
}

/// Searching in a suffix finds the same places, counted from its start.
pub proof fn lemma_find_shift(s: Seq<char>, pat: Seq<char>, o: int, i: int)
    requires
        0 <= o <= s.len(),
        0 <= i,
        o + i <= s.len() + 1,
    ensures
        find_from(s.skip(o), pat, i) + o == find_from(s, pat, o + i),
    decreases s.len() + 1 - o - i,
{
    let t = s.skip(o);
    if i <= t.len() {
        if i + pat.len() <= t.len() {
            assert(t.subrange(i, i + pat.len()) == s.subrange(o + i, o + i + pat.len()));
        }
        assert(stands_at(t, pat, i) == stands_at(s, pat, o + i));
        if !stands_at(t, pat, i) {
            lemma_find_shift(s, pat, o, i + 1);
        }
    }
}

/// Whether `pat` stands in `chars` at position `i`.
pub fn starts_at(chars: &Vec<char>, pat: &Vec<char>, i: usize) -> (r: bool)
    requires
        i <= chars@.len(),
    ensures
        r == stands_at(chars@, pat@, i as int),
{
    if chars.len() - i < pat.len() {
        return false;
    }
    let mut j: usize = 0;
    while j < pat.len()
        invariant
            i + pat@.len() <= chars@.len() <= usize::MAX,
            j <= pat@.len(),
            forall|k: int| 0 <= k < j ==> chars@[i + k] == pat@[k],
        decreases pat@.len() - j,
    {
        if chars[i + j] != pat[j] {
            assert(chars@.subrange(i as int, i + pat@.len())[j as int] != pat@[j as int]);
            return false;
        }
        j += 1;
    }
    assert(chars@.subrange(i as int, i + pat@.len()) == pat@);
    true
}

/// The first position at or after `from` at which `pat` stands in `chars`.
pub fn find(chars: &Vec<char>, pat: &Vec<char>, from: usize) -> (r: Option<usize>)
    requires
        from <= chars@.len(),
    ensures
        match r {
            Some(i) => i <= chars@.len() && find_from(chars@, pat@, from as int) == i,
            None => find_from(chars@, pat@, from as int) == chars@.len() + 1,
        },
{
    let mut i: usize = from;
    loop
        invariant
            from <= i <= chars@.len(),
            find_from(chars@, pat@, from as int) == find_from(chars@, pat@, i as int),
        decreases chars@.len() - i,
    {
        if starts_at(chars, pat, i) {
            return Some(i);
        }
        if i == chars.len() {
            assert(find_from(chars@, pat@, i as int) == find_from(chars@, pat@, i + 1));
            return None;
        }
        i += 1;
    }
}

/// Whether `pat` occurs in `s`.
pub fn contains(s: &str, pat: &str) -> (r: bool)
    ensures
        r == occurs(s@, pat@),
{
    let chars = chars_of(s);
    let p = chars_of(pat);
    proof {
        lemma_occurs_iff_found(s@, pat@);
    }
    match find(&chars, &p, 0) {
        Some(_) => true,
        None => false,
    }
}

/// The list `parts` written one after the other with `sep` in between.
pub open spec fn joined(parts: Seq<Seq<char>>, sep: Seq<char>) -> Seq<char>
    decreases parts.len(),
{
    if parts.len() == 0 {
        seq![]
    } else if parts.len() == 1 {
        parts[0]
    } else {
        joined(parts.drop_last(), sep) + sep + parts.last()
    }
}

/// The list `parts` written one after the other with `sep` in between.
pub fn join(parts: &Vec<String>, sep: &str) -> (r: String)
    ensures
        r@ == joined(views(parts@), sep@),
{
    let mut out: String = String::new();
    let mut i: usize = 0;
    while i < parts.len()
        invariant
            i <= parts@.len(),
            out@ == joined(views(parts@).take(i as int), sep@),
        decreases parts@.len() - i,
    {
        let ghost done = views(parts@).take(i as int);
        if i > 0 {
            out.append(sep);
        }
        out.append(parts[i].as_str());
        assert(views(parts@).take(i + 1) == done.push(parts@[i as int]@));
        assert(done.push(parts@[i as int]@).drop_last() == done);
        if i == 0 {
            assert(out@ == parts@[0]@);
        }
        i += 1;
    }
    assert(views(parts@).take(parts@.len() as int) == views(parts@));
    out
}

/// Two strings one after the other.
pub fn concat(a: &str, b: &str) -> (r: String)
    ensures
        r@ == a@ + b@,
{
    let mut out: String = a.to_owned();
    out.append(b);
    out
}

/// Three strings one after the other.
pub fn concat3(a: &str, b: &str, c: &str) -> (r: String)
    ensures
        r@ == a@ + b@ + c@,
{
    let mut out: String = a.to_owned();
    out.append(b);
    out.append(c);
    out
}

/// Five strings one after the other.
pub fn concat5(a: &str, b: &str, c: &str, d: &str, e: &str) -> (r: String)
    ensures
        r@ == a@ + b@ + c@ + d@ + e@,
{
    let mut out: String = a.to_owned();
    out.append(b);
    out.append(c);
    out.append(d);
    out.append(e);
    out
}

/// The letters `A` to `Z` in lower case, and every other character as it is.
pub open spec fn lower(c: char) -> char {
    if 'A' <= c <= 'Z' {
        (c as u32 + 32) as char
    } else {
        c
    }
}

/// Whether two texts are equal up to the case of the letters `A` to `Z`.
pub open spec fn same_letters(a: Seq<char>, b: Seq<char>) -> bool {
    a.len() == b.len() && forall|i: int| 0 <= i < a.len() ==> lower(a[i]) == lower(b[i])
}

/// `lower` on one character.
fn lower_char(c: char) -> (r: char)
    ensures
        r == lower(c),
{
    if 'A' <= c && c <= 'Z' {
        ((c as u8) + 32u8) as char
    } else {
        c
    }
}

/// Whether two strings are equal up to the case of the letters `A` to `Z`.
pub fn equal_letters(a: &str, b: &str) -> (r: bool)
    ensures
        r == same_letters(a@, b@),
{
    let x = chars_of(a);
    let y = chars_of(b);
    if x.len() != y.len() {
        return false;
    }
    let mut i: usize = 0;
    while i < x.len()
        invariant
            x@ == a@,
            y@ == b@,
            x@.len() == y@.len(),
            i <= x@.len(),
            forall|j: int| 0 <= j < i ==> lower(x@[j]) == lower(y@[j]),
        decreases x@.len() - i,
    {
        if lower_char(x[i]) != lower_char(y[i]) {
            return false;
        }
        i += 1;
    }
    true
}

/// A text as `Debug` writes it: in quotes, with some characters escaped.
pub uninterp spec fn quoted(s: Seq<char>) -> Seq<char>;

/// A text as `std::fmt::Debug` for `str` writes it. The claim is that this depends on the text
/// alone.
#[verifier::external_body]
pub(crate) fn quote(s: &str) -> (r: String)
    ensures
        r@ == quoted(s@),
{
    format!("{:?}", s)
}

/// The view of an optional text.
pub open spec fn text_view(s: Option<&str>) -> Option<Seq<char>> {
    match s {
        Some(t) => Some(t@),
        None => None,
    }
}

/// What is trimmed of a text is white space at its two ends, and all of it.
pub proof fn law_trimming_takes_white_space_off(s: &str, r: String)
    requires
        call_ensures(trim, (s,), r),
    ensures
        r@.len() > 0 ==> !is_space(r@[0]) && !is_space(r@.last()),
        exists|i: int|
            0 <= i && i + r@.len() <= s@.len() && r@ == #[trigger] s@.subrange(i, i + r@.len()) && (
            forall|j: int| 0 <= j < i || i + r@.len() <= j < s@.len() ==> is_space(
                #[trigger] s@[j],
            )),
{
    let i = lemma_trim_start(s@);
    let t = trim_start(s@);
    lemma_trim_end(t);
    let u = trim_end(t);
    assert(u =~= s@.subrange(i, i + u.len()));
    assert forall|j: int| 0 <= j < i || i + u.len() <= j < s@.len() implies is_space(
        #[trigger] s@[j],
    ) by {
        if j >= i {
            assert(t[j - i] == s@[j]);
        }
    }
    if u.len() > 0 {
        assert(u[0] == t[0]);
    }
}

/// How many characters are trimmed at the beginning.
proof fn lemma_trim_start(s: Seq<char>) -> (i: int)
    ensures
        0 <= i <= s.len(),
        trim_start(s) == s.skip(i),
        forall|j: int| 0 <= j < i ==> is_space(#[trigger] s[j]),
        trim_start(s).len() > 0 ==> !is_space(trim_start(s)[0]),
    decreases s.len(),
{
    if s.len() > 0 && is_space(s[0]) {
        let k = lemma_trim_start(s.skip(1));
        assert(s.skip(1).skip(k) =~= s.skip(k + 1));
        assert forall|j: int| 0 <= j < k + 1 implies is_space(#[trigger] s[j]) by {
            if j > 0 {
                assert(s.skip(1)[j - 1] == s[j]);
            }
        }
        k + 1
    } else {
        assert(s.skip(0) =~= s);
        0
    }
}

/// What is trimmed at the end.
proof fn lemma_trim_end(s: Seq<char>)
    ensures
        trim_end(s).len() <= s.len(),
        trim_end(s) == s.take(trim_end(s).len() as int),
        forall|j: int| trim_end(s).len() <= j < s.len() ==> is_space(#[trigger] s[j]),
        trim_end(s).len() > 0 ==> !is_space(trim_end(s).last()),
    decreases s.len(),
{
    if s.len() > 0 && is_space(s.last()) {
        lemma_trim_end(s.drop_last());
        let n = trim_end(s).len() as int;
        assert(s.drop_last().take(n) =~= s.take(n));
        assert forall|j: int| n <= j < s.len() implies is_space(#[trigger] s[j]) by {
            if j < s.len() - 1 {
                assert(s.drop_last()[j] == s[j]);
            }
        }
    } else {
        assert(s.take(s.len() as int) =~= s);
    }
}

/// A text is split at the first occurrence of a character, which stands between the two parts; a
/// text without it is not split.
pub proof fn law_split_at_the_first(s: &str, c: char, r: Option<(String, String)>)
    requires
        call_ensures(split_once, (s, c), r),
    ensures
        r matches Some((a, b)) ==> s@ == a@ + seq![c] + b@ && !a@.contains(c),
        r is None ==> !s@.contains(c),
{
    lemma_span_before(s@, c);
    if let Some((a, b)) = r {
        assert(s@ =~= a@ + seq![c] + b@);
        if a@.contains(c) {
            let j = a@.index_of(c);
            assert(s@[j] == c);
        }
    } else if s@.contains(c) {
        let j = s@.index_of(c);
        assert(s@[j] == c);
    }
}

/// The pieces between the separators hold none of them, and written one after the other with
/// separators in between they are the text.
pub proof fn law_split_and_joined(s: &str, c: char, r: Vec<String>, k: int)
    requires
        call_ensures(split, (s, c), r),
        0 <= k < r@.len(),
    ensures
        joined(views(r@), seq![c]) == s@,
        !r@[k]@.contains(c),
        r@.len() >= 1,
{
    lemma_split_joined(s@, c, k);
    assert(views(r@)[k] == r@[k]@);
    assert(views(r@).len() == r@.len());
}

/// Pieces that are joined are the text.
proof fn lemma_split_joined(s: Seq<char>, c: char, k: int)
    ensures
        joined(split_at_all(s, c), seq![c]) == s,
        split_at_all(s, c).len() >= 1,
        0 <= k < split_at_all(s, c).len() ==> !split_at_all(s, c)[k].contains(c),
    decreases s.len(),
{
    lemma_span_before(s, c);
    let parts = split_at_all(s, c);
    match split_once_at(s, c) {
        Some((a, b)) => {
            lemma_split_joined(b, c, k - 1);
            lemma_joined_front(a, split_at_all(b, c), seq![c]);
            assert(s =~= a + seq![c] + b);
            if k == 0 && a.contains(c) {
                let j = a.index_of(c);
                assert(s[j] == c);
            }
        },
        None => {
            if s.contains(c) {
                let j = s.index_of(c);
                assert(s[j] == c);
            }
        },
    }
}

/// A piece in front of others is joined in front of them.
proof fn lemma_joined_front(a: Seq<char>, rest: Seq<Seq<char>>, sep: Seq<char>)
    requires
        rest.len() >= 1,
    ensures
        joined(seq![a] + rest, sep) == a + sep + joined(rest, sep),
    decreases rest.len(),
{
    let all = seq![a] + rest;
    if rest.len() == 1 {
        assert(all.drop_last() =~= seq![a]);
        assert(joined(seq![a], sep) == a);
        assert(all.last() == rest[0]);
    } else {
        lemma_joined_front(a, rest.drop_last(), sep);
        assert(all.drop_last() =~= seq![a] + rest.drop_last());
        assert(all.last() == rest.last());
        assert(a + sep + joined(rest.drop_last(), sep) + sep + rest.last() =~= a + sep + (joined(
            rest.drop_last(),
            sep,
        ) + sep + rest.last()));
    }
}

/// Texts are compared letter by letter without regard to case, and all else as it is.
pub proof fn law_letters_in_either_case(a: &str, b: &str, r: bool, i: int)
    requires
        call_ensures(equal_letters, (a, b), r),
        a@.len() == 1,
        b@.len() == 1,
    ensures
        a@[0] == b@[0] ==> r,
        'A' <= a@[0] <= 'Z' && b@[0] as u32 == a@[0] as u32 + 32 ==> r,
        'a' <= a@[0] <= 'z' && b@[0] as u32 + 32 == a@[0] as u32 ==> r,
        r && a@[0] != b@[0] ==> (b@[0] as u32 == a@[0] as u32 + 32 && 'A' <= a@[0] <= 'Z') || (
        a@[0] as u32 == b@[0] as u32 + 32 && 'A' <= b@[0] <= 'Z'),
{
    if 'A' <= a@[0] <= 'Z' && b@[0] as u32 == a@[0] as u32 + 32 {
        assert(lower(a@[0]) == b@[0]);
        assert(lower(b@[0]) == b@[0]);
    }
    if 'a' <= a@[0] <= 'z' && b@[0] as u32 + 32 == a@[0] as u32 {
        assert(lower(b@[0]) == a@[0]);
        assert(lower(a@[0]) == a@[0]);
    }
}

/// Texts are ordered by the first character in which they differ, and a beginning comes before the
/// whole.
pub proof fn law_order_of_texts(
    head: Seq<char>,
    x: char,
    y: char,
    p: Seq<char>,
    q: Seq<char>,
    a: &str,
    b: &str,
    c: &str,
    r: bool,
    back: bool,
    longer: bool,
    shorter: bool,
)
    requires
        a@ == head + seq![x] + p,
        b@ == head + seq![y] + q,
        c@ == head,
        call_ensures(before, (a, b), r),
        call_ensures(before, (b, a), back),
        call_ensures(before, (c, a), shorter),
        call_ensures(before, (a, c), longer),
    ensures
        x < y ==> r && !back,
        shorter,
        !longer,
{
    lemma_order_after(head, seq![x] + p, seq![y] + q);
    lemma_order_after(head, seq![y] + q, seq![x] + p);
    lemma_order_after(head, Seq::<char>::empty(), seq![x] + p);
    lemma_order_after(head, seq![x] + p, Seq::<char>::empty());
    assert(a@ =~= head + (seq![x] + p));
    assert(b@ =~= head + (seq![y] + q));
    assert(c@ =~= head + Seq::<char>::empty());
}

/// What texts have in common at the beginning does not count.
proof fn lemma_order_after(head: Seq<char>, a: Seq<char>, b: Seq<char>)
    ensures
        precedes(head + a, head + b) == precedes(a, b),
    decreases head.len(),
{
    if head.len() > 0 {
        let s = head + a;
        let t = head + b;
        assert(s.skip(1) =~= head.skip(1) + a);
        assert(t.skip(1) =~= head.skip(1) + b);
        lemma_order_after(head.skip(1), a, b);
    } else {
        assert(head + a =~= a);
        assert(head + b =~= b);
    }
}

/// Blanks, tabs and line ends are white space; letters, digits and the marks of ASCII are not.
pub proof fn law_white_space(c: char, r: bool)
    requires
        call_ensures(space, (c,), r),
    ensures
        c == ' ' || c == '\t' || c == '\n' || c == '\r' ==> r,
        '!' <= c <= '~' ==> !r,
{
}

} // verus!
