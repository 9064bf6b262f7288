//! Calls that keep which function gave a result.
use vstd::prelude::*;

verus! {

/// Calls a function of one argument, and keeps that it was this function that gave the result.
pub(crate) fn given<A, B, F: Fn(A) -> B>(f: F, a: A) -> (r: B)
    requires
        call_requires(f, (a,)),
    ensures
        call_ensures(f, (a,), r),
{
    f(a)
}

/// Calls a function of two arguments, and keeps that it was this function that gave the result.
pub(crate) fn given2<A1, A2, B, F: Fn(A1, A2) -> B>(f: F, a: A1, b: A2) -> (r: B)
    requires
        call_requires(f, (a, b)),
    ensures
        call_ensures(f, (a, b), r),
{
    f(a, b)
}

/// Calls a function of three arguments, and keeps that it was this function that gave the
/// result.
pub(crate) fn given3<A1, A2, A3, B, F: Fn(A1, A2, A3) -> B>(f: F, a: A1, b: A2, c: A3) -> (r: B)
    requires
        call_requires(f, (a, b, c)),
    ensures
        call_ensures(f, (a, b, c), r),
{
    f(a, b, c)
}

/// Calls a function of four arguments, and keeps that it was this function that gave the result.
pub(crate) fn given4<A1, A2, A3, A4, B, F: Fn(A1, A2, A3, A4) -> B>(
    f: F,
    a: A1,
    b: A2,
    c: A3,
    d: A4,
) -> (r: B)
    requires
        call_requires(f, (a, b, c, d)),
    ensures
        call_ensures(f, (a, b, c, d), r),
{
    f(a, b, c, d)
}

} // verus!
