//! The numeric kernel of the simulator, and the vocabulary in which the
//! contracts of this crate speak of it.
//!
//! An amplitude is a value of a type that implements [`Scalar`].  The trait
//! promises nothing about what its operations return: a contract that has to
//! speak of a sum or a product says that the value in question is one that the
//! operation returned, or could have returned, on the given operands.  The
//! predicates below give those statements their names.

use vstd::prelude::*;

verus! {

/// The operations on amplitudes that the simulator is built from.
///
/// An implementation for machine numbers rounds; nothing here assumes that it
/// does not.  The operations must be total: they may not panic.
pub trait Scalar: Copy {
    /// The number `n`.
    fn from_u32(n: u32) -> Self;

    /// `self + rhs`.
    fn plus(self, rhs: Self) -> Self;

    /// `self - rhs`.
    fn minus(self, rhs: Self) -> Self;

    /// `self * rhs`.
    fn times(self, rhs: Self) -> Self;

    /// `self / rhs`.
    fn over(self, rhs: Self) -> Self;

    /// `-self`.
    fn neg(self) -> Self;

    /// The absolute value of `self`.
    fn abs(self) -> Self;

    /// The square root of `self`.
    fn sqrt(self) -> Self;

    /// Whether `self < rhs`.
    fn less_than(self, rhs: Self) -> bool;

    /// Whether `self >= rhs`.
    fn at_least(self, rhs: Self) -> bool;

    /// `self` in decimal notation, with `decimals` digits behind the point.
    fn show(self, decimals: usize) -> String;
}

/// The denominator of the tolerance within which two amplitudes count as
/// equal and a norm counts as 1: the tolerance is 1/1000.
pub const TOLERANCE_DENOMINATOR: u32 = 1000;

/// `r` is the kernel's value for the number `n`.
pub open spec fn is_constant<T: Scalar>(n: u32, r: T) -> bool {
    call_ensures(T::from_u32, (n,), r)
}

/// `r` is the kernel's value for `a + b`.
pub open spec fn is_sum<T: Scalar>(a: T, b: T, r: T) -> bool {
    call_ensures(T::plus, (a, b), r)
}

/// `r` is the kernel's value for `a - b`.
pub open spec fn is_difference<T: Scalar>(a: T, b: T, r: T) -> bool {
    call_ensures(T::minus, (a, b), r)
}

/// `r` is the kernel's value for `a * b`.
pub open spec fn is_product<T: Scalar>(a: T, b: T, r: T) -> bool {
    call_ensures(T::times, (a, b), r)
}

/// `r` is the kernel's value for `a / b`.
pub open spec fn is_quotient<T: Scalar>(a: T, b: T, r: T) -> bool {
    call_ensures(T::over, (a, b), r)
}

/// `r` is the kernel's value for `-a`.
pub open spec fn is_negation<T: Scalar>(a: T, r: T) -> bool {
    call_ensures(T::neg, (a,), r)
}

/// `r` is the kernel's value for `|a|`.
pub open spec fn is_abs<T: Scalar>(a: T, r: T) -> bool {
    call_ensures(T::abs, (a,), r)
}

/// `r` is the kernel's value for the square root of `a`.
pub open spec fn is_sqrt<T: Scalar>(a: T, r: T) -> bool {
    call_ensures(T::sqrt, (a,), r)
}

/// `out` is the kernel's answer to `a < b`.
pub open spec fn is_less<T: Scalar>(a: T, b: T, out: bool) -> bool {
    call_ensures(T::less_than, (a, b), out)
}

/// `out` is the kernel's answer to `a >= b`.
pub open spec fn is_at_least<T: Scalar>(a: T, b: T, out: bool) -> bool {
    call_ensures(T::at_least, (a, b), out)
}

/// `text` is the kernel's notation of `a` with `decimals` digits behind the
/// point.
pub open spec fn is_shown<T: Scalar>(a: T, decimals: usize, text: String) -> bool {
    call_ensures(T::show, (a, decimals), text)
}

/// `e` is the tolerance: the kernel's value for 1 / 1000.
pub open spec fn is_tolerance<T: Scalar>(e: T) -> bool {
    exists|one: T, k: T|
        #![trigger is_quotient(one, k, e)]
        is_constant(1, one) && is_constant(TOLERANCE_DENOMINATOR, k) && is_quotient(one, k, e)
}

/// `m` is the kernel's value for `|x - y|`.
pub open spec fn is_distance<T: Scalar>(x: T, y: T, m: T) -> bool {
    exists|d: T| #![trigger is_abs(d, m)] is_difference(x, y, d) && is_abs(d, m)
}

/// `out` is the kernel's answer to `|x - y| < 1/1000`.
pub open spec fn is_within_tolerance<T: Scalar>(x: T, y: T, out: bool) -> bool {
    exists|m: T, e: T|
        #![trigger is_less(m, e, out)]
        is_distance(x, y, m) && is_tolerance(e) && is_less(m, e, out)
}

/// `out` is the kernel's answer to `|x - y| >= bound`.
pub open spec fn is_apart<T: Scalar>(x: T, y: T, bound: T, out: bool) -> bool {
    exists|m: T|
        #![trigger is_at_least(m, bound, out)]
        is_distance(x, y, m) && is_at_least(m, bound, out)
}

/// `out` is the kernel's value for the sum of the products `a[0] * b[0]`, ...,
/// `a[n - 1] * b[n - 1]`, each added in this order to what came before,
/// starting from the kernel's 0.
pub open spec fn is_dot<T: Scalar>(a: Seq<T>, b: Seq<T>, n: nat, out: T) -> bool
    decreases n,
{
    if n == 0 {
        is_constant(0, out)
    } else {
        exists|acc: T, p: T|
            #![trigger is_sum(acc, p, out)]
            is_dot(a, b, (n - 1) as nat, acc) && is_product(a[n - 1], b[n - 1], p) && is_sum(
                acc,
                p,
                out,
            )
    }
}

/// `out` is the kernel's value for the sum of the squares of `v`, added in
/// the order of the indices.
pub open spec fn is_norm_squared<T: Scalar>(v: Seq<T>, out: T) -> bool {
    is_dot(v, v, v.len(), out)
}

/// `out` is the kernel's answer to whether the squares of `v` sum to 1 within
/// the tolerance.
pub open spec fn is_normalized<T: Scalar>(v: Seq<T>, out: bool) -> bool {
    exists|norm: T, one: T|
        #![trigger is_within_tolerance(norm, one, out)]
        is_norm_squared(v, norm) && is_constant(1, one) && is_within_tolerance(norm, one, out)
}

/// The tolerance.
pub fn tolerance<T: Scalar>() -> (e: T)
    ensures
        is_tolerance(e),
{
    let one = T::from_u32(1);
    let k = T::from_u32(TOLERANCE_DENOMINATOR);
    let e = one.over(k);
    assert(is_quotient(one, k, e));
    e
}

/// `|x - y|`.
pub fn distance<T: Scalar>(x: T, y: T) -> (m: T)
    ensures
        is_distance(x, y, m),
{
    let d = x.minus(y);
    let m = d.abs();
    assert(is_abs(d, m));
    m
}

/// Whether `x` and `y` differ by less than the tolerance.
pub fn within_tolerance<T: Scalar>(x: T, y: T) -> (out: bool)
    ensures
        is_within_tolerance(x, y, out),
{
    let m = distance(x, y);
    let e = tolerance::<T>();
    let out = m.less_than(e);
    assert(is_less(m, e, out));
    out
}

/// Whether `x` and `y` differ by `bound` or more.
pub fn apart<T: Scalar>(x: T, y: T, bound: T) -> (out: bool)
    ensures
        is_apart(x, y, bound, out),
{
    let m = distance(x, y);
    let out = m.at_least(bound);
    assert(is_at_least(m, bound, out));
    out
}

/// The sum of the products of the first `n` entries of `a` and `b`.
pub fn dot<T: Scalar>(a: &Vec<T>, b: &Vec<T>, n: usize) -> (out: T)
    requires
        n <= a.len(),
        n <= b.len(),
    ensures
        is_dot(a@, b@, n as nat, out),
{
    let mut acc = T::from_u32(0);
    let mut k: usize = 0;
    while k < n
        invariant
            k <= n,
            n <= a.len(),
            n <= b.len(),
            is_dot(a@, b@, k as nat, acc),
        decreases n - k,
    {
        let p = a[k].times(b[k]);
        let next = acc.plus(p);
        assert(is_sum(acc, p, next));
        acc = next;
        k = k + 1;
    }
    acc
}

/// The sum of the squares of `v`.
pub fn norm_squared<T: Scalar>(v: &Vec<T>) -> (out: T)
    ensures
        is_norm_squared(v@, out),
{
    dot(v, v, v.len())
}

/// Whether the squares of `v` sum to 1 within the tolerance.
pub fn normalized<T: Scalar>(v: &Vec<T>) -> (out: bool)
    ensures
        is_normalized(v@, out),
{
    let norm = norm_squared(v);
    let one = T::from_u32(1);
    let out = within_tolerance(norm, one);
    assert(is_within_tolerance(norm, one, out));
    out
}

} // verus!
