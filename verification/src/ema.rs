//! A bounded window of recent values and the integer exponential moving
//! average step.

use vstd::prelude::*;
use crate::arith::{clip_i64, clip_wide, floor_div_wide};

verus! {

/// The quotient `n / m` of an integer by a positive integer, rounded to the
/// nearest integer, halves away from zero.
pub open spec fn round_half_away(n: int, m: int) -> int
    recommends
        m > 0,
{
    if n >= 0 {
        (2 * n + m) / (2 * m)
    } else {
        -((-2 * n + m) / (2 * m))
    }
}

/// The moving average over `period` candles after the price `tick`, given
/// its value `prev` at the previous candle: `prev + (tick - prev) * 2 /
/// (period + 1)`, rounded to the nearest tick and kept within the range of a
/// tick.
pub open spec fn ema_next(prev: i64, tick: i64, period: i64) -> i64
    recommends
        period != -1,
{
    let m = period + 1;
    let d = tick - prev;
    if m > 0 {
        clip_i64(round_half_away(prev * m + 2 * d, m))
    } else {
        clip_i64(round_half_away(prev * (-m) - 2 * d, -m))
    }
}

/// Rounding a whole number plus a fraction rounds the fraction alone, up on
/// a half when the sum is not negative and down on a half when it is.
proof fn lemma_round_split(prev: int, d: int, m: int)
    requires
        m > 0,
    ensures
        prev * m + 2 * d >= 0 ==> round_half_away(prev * m + 2 * d, m) == prev + (4 * d + m) / (2
            * m),
        prev * m + 2 * d < 0 ==> round_half_away(prev * m + 2 * d, m) == prev - (m - 4 * d) / (2
            * m),
{
    let n = prev * m + 2 * d;
    if n >= 0 {
        assert(2 * n + m == (4 * d + m) + prev * (2 * m)) by (nonlinear_arith)
            requires
                n == prev * m + 2 * d,
        ;
        vstd::arithmetic::div_mod::lemma_hoist_over_denominator(4 * d + m, prev, (2 * m) as nat);
    } else {
        assert(-2 * n + m == (m - 4 * d) + (-prev) * (2 * m)) by (nonlinear_arith)
            requires
                n == prev * m + 2 * d,
        ;
        vstd::arithmetic::div_mod::lemma_hoist_over_denominator(m - 4 * d, -prev, (2 * m) as nat);
    }
}

/// One step of the integer moving average.
pub fn ema_step(prev: i64, tick: i64, period: i64) -> (r: i64)
    requires
        period != -1,
    ensures
        r == ema_next(prev, tick, period),
{
    let m0: i128 = period as i128 + 1;
    let d0: i128 = tick as i128 - prev as i128;
    let m: i128 = if m0 > 0 { m0 } else { -m0 };
    let d: i128 = if m0 > 0 { d0 } else { -d0 };
    assert(prev * m <= 0x4000_0000_0000_0000_0000_0000_0000_0000 && prev * m
        >= -0x4000_0000_0000_0000_0000_0000_0000_0000) by (nonlinear_arith)
        requires
            -0x8000_0000_0000_0000 <= prev <= 0x8000_0000_0000_0000,
            0 < m <= 0x8000_0000_0000_0000,
    ;
    let n: i128 = prev as i128 * m + 2 * d;
    proof {
        lemma_round_split(prev as int, d as int, m as int);
    }
    let wide: i128 = if n >= 0 {
        prev as i128 + floor_div_wide(4 * d + m, 2 * m)
    } else {
        prev as i128 - floor_div_wide(m - 4 * d, 2 * m)
    };
    clip_wide(wide)
}

/// A window that keeps the most recent `max_size` values pushed into it.
#[derive(Debug)]
pub struct FixedSizeEma<T> {
    max_size: usize,
    data: Vec<T>,
}

impl<T> View for FixedSizeEma<T> {
    type V = Seq<T>;

    /// The values held, oldest first.
    closed spec fn view(&self) -> Seq<T> {
        self.data@
    }
}

impl<T: Clone> Clone for FixedSizeEma<T> {
    /// A window of the same capacity that holds a clone of every value.
    fn clone(&self) -> (r: Self)
        ensures
            r.capacity() == self.capacity(),
            r@.len() == self@.len(),
            forall|i: int| #![all_triggers] 0 <= i < self@.len() ==> cloned::<T>(self@[i], r@[i]),
    {
        FixedSizeEma { max_size: self.max_size, data: self.data.clone() }
    }
}

impl<T> FixedSizeEma<T> {
    /// The number of values the window keeps before it drops the oldest.
    pub closed spec fn capacity(&self) -> nat {
        self.max_size as nat
    }

    /// What the window holds after `value` is pushed into a window that holds
    /// `held` and keeps `capacity` values.
    pub open spec fn pushed(held: Seq<T>, capacity: nat, value: T) -> Seq<T> {
        if held.len() == capacity {
            held.drop_first().push(value)
        } else {
            held.push(value)
        }
    }

    pub fn new(max_size: usize) -> (r: Self)
        ensures
            r@ == Seq::<T>::empty(),
            r.capacity() == max_size,
    {
        Self { max_size, data: Vec::new() }
    }

    /// Appends `value`, first dropping the oldest value when the window is
    /// exactly full.
    pub fn push(&mut self, value: T)
        requires
            old(self).capacity() > 0 || old(self)@.len() > 0,
        ensures
            final(self)@ == Self::pushed(old(self)@, old(self).capacity(), value),
            final(self).capacity() == old(self).capacity(),
    {
        if self.data.len() == self.max_size {
            self.data.remove(0);
        }
        self.data.push(value);
    }

    pub fn get(&self) -> (r: &Vec<T>)
        ensures
            r@ == self@,
    {
        &self.data
    }

    /// Hands out the stored values for editing; the window then holds
    /// whatever the caller leaves in the vector.
    pub fn get_mut(&mut self) -> (r: &mut Vec<T>)
        ensures
            r@ == old(self)@,
            final(self)@ == final(r)@,
            final(self).capacity() == old(self).capacity(),
    {
        &mut self.data
    }

    pub fn len(&self) -> (r: usize)
        ensures
            r == self@.len(),
    {
        self.data.len()
    }

    pub fn last(&self) -> (r: Option<&T>)
        ensures
            self@.len() == 0 ==> r is None,
            self@.len() > 0 ==> r == Some(&self@.last()),
    {
        let n = self.data.len();
        if n == 0 {
            None
        } else {
            Some(&self.data[n - 1])
        }
    }

    /// Hands out the newest value for editing.
    pub fn last_mut(&mut self) -> (r: Option<&mut T>)
        ensures
            old(self)@.len() == 0 ==> r is None && final(self)@ == old(self)@,
            old(self)@.len() > 0 ==> r is Some && *r->0 == old(self)@.last() && final(self)@
                == old(self)@.update(old(self)@.len() - 1, *final(r->0)),
            final(self).capacity() == old(self).capacity(),
    {
        let n = self.data.len();
        if n == 0 {
            None
        } else {
            Some(&mut self.data[n - 1])
        }
    }

    pub fn get_second_last_value(&self) -> (r: Option<&T>)
        ensures
            self@.len() < 2 ==> r is None,
            self@.len() >= 2 ==> r == Some(&self@[self@.len() - 2]),
    {
        if self.data.len() < 2 {
            return None;
        }
        Some(&self.data[self.data.len() - 2])
    }
}

} // verus!
