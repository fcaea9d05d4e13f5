//! Exact `floor(a * b / d)` on 128-bit integers without a wider type.

use vstd::prelude::*;
use vstd::arithmetic::div_mod::lemma_fundamental_div_mod;
use vstd::arithmetic::div_mod::lemma_fundamental_div_mod_converse;

verus! {

/// `floor(a * b / d)` over the mathematical integers.
pub open spec fn mul_div_floor(a: int, b: int, d: int) -> int
    recommends
        d > 0,
{
    (a * b) / d
}

/// One doubling step of the quotient and remainder.
proof fn lemma_double_step(
    a: int,
    half: int,
    bit: int,
    r: int,
    d: int,
    q0: int,
    r0: int,
    c: int,
    t: int,
)
    by (nonlinear_arith)
    requires
        a == 2 * half + bit,
        0 <= bit <= 1,
        0 <= r < d,
        a > 0,
        q0 * d + r0 == half * r,
        t == 2 * r0 + bit * r - c * d,
        0 <= t < d,
    ensures
        (2 * q0 + c) * d + t == a * r,
        2 * q0 + c <= a,
{
    assert((2 * q0 + c) * d + t == 2 * (q0 * d + r0) + bit * r);
    assert(a * r == 2 * (half * r) + bit * r);
    assert(a * r <= a * (d - 1));
    assert((2 * q0 + c) * d <= a * d - a);
}

/// Quotient and remainder of `a * r` by `d` for a factor `r` below `d`.
///
/// The product is never formed: the quotient is built from the binary digits
/// of `a`, one doubling at a time, and every intermediate stays below `d` or
/// `a`.
pub fn mul_div_rem(a: u128, r: u128, d: u128) -> (out: (u128, u128))
    requires
        r < d,
    ensures
        out.0 * d + out.1 == a * r,
        out.1 < d,
        out.0 == (a * r) / (d as int),
        out.1 == (a * r) % (d as int),
        out.0 <= a,
    decreases a,
{
    if a == 0 {
        proof {
            assert(a * r == 0) by (nonlinear_arith)
                requires
                    a == 0,
            ;
            lemma_fundamental_div_mod_converse(0, d as int, 0, 0);
        }
        return (0, 0);
    }
    let half: u128 = a / 2;
    let bit: u128 = a % 2;
    let prev = mul_div_rem(half, r, d);
    let q0: u128 = prev.0;
    let r0: u128 = prev.1;
    let mut carry: u128 = 0;
    let mut t: u128 = r0;
    if t >= d - r0 {
        t = t - (d - r0);
        carry = 1;
    } else {
        t = t + r0;
    }
    if bit == 1 {
        if t >= d - r {
            t = t - (d - r);
            carry = carry + 1;
        } else {
            t = t + r;
        }
    }
    proof {
        assert(bit * r == (if bit == 1 { r as int } else { 0 })) by (nonlinear_arith)
            requires
                0 <= bit <= 1,
        ;
        assert(carry * d == (if carry == 0 {
            0
        } else if carry == 1 {
            d as int
        } else {
            2 * d
        })) by (nonlinear_arith)
            requires
                0 <= carry <= 2,
        ;
        lemma_double_step(
            a as int,
            half as int,
            bit as int,
            r as int,
            d as int,
            q0 as int,
            r0 as int,
            carry as int,
            t as int,
        );
        lemma_fundamental_div_mod_converse(a * r, d as int, 2 * q0 + carry, t as int);
    }
    (q0 + q0 + carry, t)
}

/// `floor(a * b / d)`, or `None` when that quotient does not fit in `u128`.
///
/// The product `a * b` may exceed 128 bits; the result is exact all the same.
pub fn mul_div(a: u128, b: u128, d: u128) -> (q: Option<u128>)
    requires
        d > 0,
    ensures
        mul_div_floor(a as int, b as int, d as int) <= u128::MAX ==> q == Some(
            mul_div_floor(a as int, b as int, d as int) as u128,
        ),
        mul_div_floor(a as int, b as int, d as int) > u128::MAX ==> q is None,
{
    let whole: u128 = b / d;
    let part: u128 = b % d;
    let low = mul_div_rem(a, part, d);
    proof {
        lemma_fundamental_div_mod(b as int, d as int);
        assert(a * b == (a * whole + low.0) * d + low.1) by (nonlinear_arith)
            requires
                b == d * whole + part,
                low.0 * d + low.1 == a * part,
        ;
        lemma_fundamental_div_mod_converse(a * b, d as int, a * whole + low.0, low.1 as int);
    }
    match a.checked_mul(whole) {
        None => None,
        Some(high) => high.checked_add(low.0),
    }
}

} // verus!
