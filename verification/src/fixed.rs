//! Fixed-point scalars for the complex plane.
//!
//! A [`Fixed`] value carries a real number scaled by [`ONE`] (24 fractional
//! bits) in an `i64`. All products are rescaled with division that truncates
//! toward zero, which [`trunc_div`] captures exactly, so every contract in the
//! crate can pin results down to the raw unit.

use vstd::prelude::*;

verus! {

/// Raw representation of the real number 1: one unit per 2^-24.
pub const ONE: i64 = 16777216;

/// Division truncating toward zero, as the hardware performs it on raw
/// values; for a nonnegative numerator it agrees with Euclidean division.
pub open spec fn trunc_div(n: int, d: int) -> int {
    if n >= 0 {
        n / d
    } else {
        -((-n) / d)
    }
}

/// The raw value of the product of two fixed-point numbers.
pub open spec fn fmul(a: int, b: int) -> int {
    trunc_div(a * b, ONE as int)
}

/// A real number scaled by [`ONE`], the scalar type of the viewport and of
/// the Julia parameter.
#[derive(Clone, Copy, PartialEq, Eq, Structural, Debug)]
pub struct Fixed {
    pub raw: i64,
}

/// Truncating division of a raw value by a positive divisor.
pub fn div_trunc(n: i64, d: i64) -> (r: i64)
    requires
        d >= 1,
        -0x4000_0000_0000_0000 <= n <= 0x4000_0000_0000_0000,
    ensures
        r == trunc_div(n as int, d as int),
{
    if n >= 0 {
        let q: u64 = (n as u64) / (d as u64);
        q as i64
    } else {
        let m: i64 = -n;
        let q: u64 = (m as u64) / (d as u64);
        proof {
            assert((m as u64) / (d as u64) <= m as u64) by (nonlinear_arith)
                requires d as u64 >= 1;
        }
        -(q as i64)
    }
}

/// Magnitude never grows under truncating division by a positive divisor.
pub proof fn lemma_trunc_div_mag(n: int, d: int, m: int)
    requires
        d >= 1,
        -m <= n <= m,
    ensures
        -m <= trunc_div(n, d) <= m,
        n >= 0 ==> 0 <= trunc_div(n, d) <= n,
        n <= 0 ==> n <= trunc_div(n, d) <= 0,
{
    if n >= 0 {
        vstd::arithmetic::div_mod::lemma_div_is_ordered(0, n, d);
        vstd::arithmetic::div_mod::lemma_div_nonincreasing(n, d);
    } else {
        vstd::arithmetic::div_mod::lemma_div_is_ordered(0, -n, d);
        vstd::arithmetic::div_mod::lemma_div_nonincreasing(-n, d);
    }
}

/// Truncating division is monotone for divisors at least 1.
pub proof fn lemma_trunc_div_ordered(n1: int, n2: int, d: int)
    requires
        d >= 1,
        n1 <= n2,
    ensures
        trunc_div(n1, d) <= trunc_div(n2, d),
{
    if n1 >= 0 {
        vstd::arithmetic::div_mod::lemma_div_is_ordered(n1, n2, d);
    } else if n2 <= 0 {
        vstd::arithmetic::div_mod::lemma_div_is_ordered(-n2, -n1, d);
    } else {
        vstd::arithmetic::div_mod::lemma_div_is_ordered(0, -n1, d);
        vstd::arithmetic::div_mod::lemma_div_is_ordered(0, n2, d);
    }
}

/// Truncating division is an odd function of the numerator.
pub proof fn lemma_trunc_div_neg(n: int, d: int)
    requires
        d >= 1,
    ensures
        trunc_div(-n, d) == -trunc_div(n, d),
{
}

/// Quotients are almost additive: splitting a nonnegative numerator lowers
/// the quotient of the difference by at most one.
pub proof fn lemma_div_sub(a: int, b: int, d: int)
    requires
        0 <= b <= a,
        0 < d,
    ensures
        (a - b) / d <= a / d - b / d <= (a - b) / d + 1,
{
    let qa = a / d;
    let ra = a % d;
    let qb = b / d;
    let rb = b % d;
    let qc = (a - b) / d;
    let rc = (a - b) % d;
    vstd::arithmetic::div_mod::lemma_fundamental_div_mod(a, d);
    vstd::arithmetic::div_mod::lemma_fundamental_div_mod(b, d);
    vstd::arithmetic::div_mod::lemma_fundamental_div_mod(a - b, d);
    vstd::arithmetic::div_mod::lemma_mod_division_less_than_divisor(a, d);
    vstd::arithmetic::div_mod::lemma_mod_division_less_than_divisor(b, d);
    vstd::arithmetic::div_mod::lemma_mod_division_less_than_divisor(a - b, d);
    assert(d * (qa - qb - qc) == rc + rb - ra) by (nonlinear_arith)
        requires
            a == d * qa + ra,
            b == d * qb + rb,
            a - b == d * qc + rc,
    ;
    assert(0 <= qa - qb - qc <= 1) by (nonlinear_arith)
        requires
            d * (qa - qb - qc) == rc + rb - ra,
            0 <= ra < d,
            0 <= rb < d,
            0 <= rc < d,
            0 < d,
    ;
}

/// Scaling a quotient stays below the quotient of the scaled numerator.
pub proof fn lemma_div_mul_le(a: int, f: int, d: int)
    requires
        0 <= a,
        0 <= f,
        0 < d,
    ensures
        (a / d) * f <= (a * f) / d,
{
    let q = a / d;
    vstd::arithmetic::div_mod::lemma_fundamental_div_mod(a, d);
    vstd::arithmetic::div_mod::lemma_mod_division_less_than_divisor(a, d);
    vstd::arithmetic::div_mod::lemma_div_pos_is_pos(a, d);
    assert(d * (q * f) <= a * f) by (nonlinear_arith)
        requires
            a == d * q + a % d,
            a % d >= 0,
            f >= 0,
    ;
    assert(0 <= d * (q * f)) by (nonlinear_arith)
        requires
            0 <= q,
            0 <= f,
            0 < d,
    ;
    vstd::arithmetic::div_mod::lemma_div_is_ordered(d * (q * f), a * f, d);
    vstd::arithmetic::div_mod::lemma_div_multiples_vanish(q * f, d);
}

/// Multiplying by a factor of magnitude at most 1 never grows the raw
/// magnitude.
pub proof fn lemma_fmul_in_one(a: int, b: int, m: int)
    requires
        -m <= a <= m,
        -(ONE as int) <= b <= ONE as int,
        0 <= m,
    ensures
        -m <= fmul(a, b) <= m,
{
    assert(-(m * (ONE as int)) <= a * b <= m * (ONE as int)) by (nonlinear_arith)
        requires
            -m <= a <= m,
            -(ONE as int) <= b <= ONE as int,
            0 <= m,
    ;
    vstd::arithmetic::div_mod::lemma_div_multiples_vanish(m, ONE as int);
    assert((ONE as int) * m == m * (ONE as int)) by (nonlinear_arith);
    if a * b >= 0 {
        vstd::arithmetic::div_mod::lemma_div_is_ordered(a * b, m * (ONE as int), ONE as int);
        vstd::arithmetic::div_mod::lemma_div_pos_is_pos(a * b, ONE as int);
    } else {
        vstd::arithmetic::div_mod::lemma_div_is_ordered(-(a * b), m * (ONE as int), ONE as int);
        vstd::arithmetic::div_mod::lemma_div_pos_is_pos(-(a * b), ONE as int);
    }
}

/// Negating either factor negates the fixed-point product exactly.
pub proof fn lemma_fmul_neg(a: int, b: int)
    ensures
        fmul(a, -b) == -fmul(a, b),
        fmul(-a, b) == -fmul(a, b),
{
    assert(a * (-b) == -(a * b)) by (nonlinear_arith);
    assert((-a) * b == -(a * b)) by (nonlinear_arith);
    lemma_trunc_div_neg(a * b, ONE as int);
}

/// The product of two fixed-point numbers, rescaled to raw units.
pub fn mul_fixed(a: i64, b: i64) -> (r: i64)
    requires
        -0x4000_0000_0000_0000 <= a * b <= 0x4000_0000_0000_0000,
    ensures
        r == fmul(a as int, b as int),
{
    let p: i64 = a * b;
    div_trunc(p, ONE)
}

impl Fixed {
    /// The number zero.
    pub fn zero() -> (r: Fixed)
        ensures
            r.raw == 0,
    {
        Fixed { raw: 0 }
    }

    /// The fixed-point image of a small integer.
    pub fn from_int(v: i64) -> (r: Fixed)
        requires
            -0x2_0000_0000 <= v <= 0x2_0000_0000,
        ensures
            r.raw == v * ONE,
    {
        Fixed { raw: v * ONE }
    }

    /// The fixed-point image of the ratio `num / den`, truncated toward zero.
    pub fn from_ratio(num: i64, den: i64) -> (r: Fixed)
        requires
            1 <= den,
            -0x2_0000_0000 <= num <= 0x2_0000_0000,
        ensures
            r.raw == trunc_div(num * ONE, den as int),
    {
        let n: i64 = num * ONE;
        Fixed { raw: div_trunc(n, den) }
    }

    /// Builds a value directly from its raw representation.
    pub fn from_raw(raw: i64) -> (r: Fixed)
        ensures
            r.raw == raw,
    {
        Fixed { raw }
    }
}

} // verus!
