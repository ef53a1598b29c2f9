//! Plain values shared by every component: trade sides, lot arithmetic and
//! exact ratios.

use vstd::prelude::*;

verus! {

/// Number of lots in one whole unit of the traded asset.
pub const LOTS_PER_UNIT: u64 = 100_000_000;

/// The aggressor side of a trade, or the side of an order.
#[derive(Debug, Clone, Copy, PartialEq, Eq, Structural)]
pub enum Side {
    Buy,
    Sell,
    Neither,
    Unsupported,
}

/// One executed trade as the feed reports it.
#[derive(Debug, Clone, Copy, PartialEq, Eq, Structural)]
pub struct Trade {
    pub tick: i64,
    pub qty: u64,
    pub time: i64,
    pub side: Side,
}

/// An exact ratio of two lot counts. The denominator of a ratio that the
/// engine produces is never zero.
#[derive(Debug, Clone, Copy, PartialEq, Eq, Structural)]
pub struct Rate {
    pub num: u64,
    pub den: u64,
}

impl Rate {
    /// The ratio reported when there is nothing to compare.
    pub open spec fn spec_zero() -> Rate {
        Rate { num: 0, den: 1 }
    }

    #[verifier::when_used_as_spec(spec_zero)]
    pub fn zero() -> (r: Rate)
        ensures
            r == Rate::spec_zero(),
    {
        Rate { num: 0, den: 1 }
    }
}

} // verus!
