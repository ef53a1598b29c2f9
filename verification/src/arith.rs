//! Saturating arithmetic on lots and ticks, and floor division on signed
//! integers.

use vstd::prelude::*;

verus! {

/// The sum of two lot counts, capped at the largest representable count.
pub open spec fn capped_sum(a: int, b: int) -> int {
    if a + b > u64::MAX {
        u64::MAX as int
    } else {
        a + b
    }
}

/// Adds two lot counts, saturating at `u64::MAX`.
pub fn add_lots(a: u64, b: u64) -> (r: u64)
    ensures
        r == capped_sum(a as int, b as int),
{
    if a > u64::MAX - b {
        u64::MAX
    } else {
        a + b
    }
}

/// `value` brought into the range of a signed 64-bit number, in which ticks
/// and timestamps are counted.
pub open spec fn clip_i64(value: int) -> i64 {
    if value < i64::MIN {
        i64::MIN
    } else if value > i64::MAX {
        i64::MAX
    } else {
        value as i64
    }
}

/// Narrows a wide number, saturating at the ends of the 64-bit range.
pub fn clip_wide(value: i128) -> (r: i64)
    ensures
        r == clip_i64(value as int),
{
    if value < i64::MIN as i128 {
        i64::MIN
    } else if value > i64::MAX as i128 {
        i64::MAX
    } else {
        value as i64
    }
}

/// A multiple of the divisor is the dividend minus its remainder.
pub proof fn lemma_floor_by_rem(a: int, d: int)
    requires
        d > 0,
    ensures
        (a / d) * d == a - a % d,
{
    vstd::arithmetic::div_mod::lemma_fundamental_div_mod(a, d);
    assert((a / d) * d == d * (a / d)) by (nonlinear_arith);
}

/// Remainder of `a` by a positive `d`, never negative.
pub fn floor_rem(a: i64, d: i64) -> (r: i64)
    requires
        d > 0,
    ensures
        r == (a as int) % (d as int),
        0 <= r < d,
{
    let m: i64 = a % d;
    if a >= 0 {
        m
    } else {
        proof {
            let n = -(a as int);
            let b = d as int;
            let q = n / b;
            let r = n % b;
            vstd::arithmetic::div_mod::lemma_fundamental_div_mod(n, b);
            vstd::arithmetic::div_mod::lemma_mod_bound(n, b);
            if r == 0 {
                assert(b * (-q) == -(b * q)) by (nonlinear_arith);
                vstd::arithmetic::div_mod::lemma_fundamental_div_mod_converse(a as int, b, -q, 0);
            } else {
                assert(b * (-q - 1) == -(b * q) - b) by (nonlinear_arith);
                vstd::arithmetic::div_mod::lemma_fundamental_div_mod_converse(
                    a as int,
                    b,
                    -q - 1,
                    b - r,
                );
            }
        }
        if m < 0 {
            m + d
        } else {
            m
        }
    }
}

/// Quotient of `a` by a positive `d`, rounded down.
pub fn floor_div(a: i64, d: i64) -> (q: i64)
    requires
        d > 0,
    ensures
        q == (a as int) / (d as int),
{
    if a >= 0 {
        a / d
    } else {
        let m: i64 = -(a + 1);
        let h: i64 = m / d;
        proof {
            let b = d as int;
            let q = (a as int) / b;
            let r = (a as int) % b;
            vstd::arithmetic::div_mod::lemma_fundamental_div_mod(a as int, b);
            vstd::arithmetic::div_mod::lemma_mod_bound(a as int, b);
            assert(b * (-q - 1) == -(b * q) - b) by (nonlinear_arith);
            vstd::arithmetic::div_mod::lemma_fundamental_div_mod_converse(
                m as int,
                b,
                -q - 1,
                b - 1 - r,
            );
        }
        -h - 1
    }
}

/// Quotient of a wide `a` by a positive `d`, rounded down.
pub fn floor_div_wide(a: i128, d: i128) -> (q: i128)
    requires
        d > 0,
    ensures
        q == (a as int) / (d as int),
{
    if a >= 0 {
        a / d
    } else {
        let m: i128 = -(a + 1);
        let h: i128 = m / d;
        proof {
            let b = d as int;
            let q = (a as int) / b;
            let r = (a as int) % b;
            vstd::arithmetic::div_mod::lemma_fundamental_div_mod(a as int, b);
            vstd::arithmetic::div_mod::lemma_mod_bound(a as int, b);
            assert(b * (-q - 1) == -(b * q) - b) by (nonlinear_arith);
            vstd::arithmetic::div_mod::lemma_fundamental_div_mod_converse(
                m as int,
                b,
                -q - 1,
                b - 1 - r,
            );
        }
        -h - 1
    }
}

} // verus!
