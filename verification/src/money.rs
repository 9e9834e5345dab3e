//! Exact fixed-point money values.
//!
//! A `Money` value is an integer count of units of one ten-thousandth of the
//! currency, so every amount with up to four fractional digits is represented
//! exactly and arithmetic on amounts is integer arithmetic.

use vstd::prelude::*;

verus! {

/// Largest magnitude, in units, that a single event amount may carry.
///
/// Balances are sums of event amounts, so keeping each amount under this
/// bound lets the projectors prove that balance arithmetic never overflows
/// an `i128`.
pub const AMOUNT_LIMIT: i128 = 0x2000_0000_0000_0000;

/// An exact decimal amount with four fractional digits, stored as an integer
/// number of units of one ten-thousandth.
#[derive(Clone, Copy, Debug, PartialEq, Eq, Structural)]
pub struct Money {
    pub units: i128,
}

impl View for Money {
    type V = int;

    open spec fn view(&self) -> int {
        self.units as int
    }
}

/// The number of units in one whole currency unit at `scale` fractional
/// digits: `Money::new(n, scale)` denotes `n / 10^scale`.
pub open spec fn scale_factor(scale: u32) -> int {
    if scale == 0 {
        10000
    } else if scale == 1 {
        1000
    } else if scale == 2 {
        100
    } else if scale == 3 {
        10
    } else {
        1
    }
}

impl Money {
    /// Whether the amount is small enough to take part in balance arithmetic.
    pub open spec fn in_bounds(self) -> bool {
        -AMOUNT_LIMIT <= self.units <= AMOUNT_LIMIT
    }

    /// The amount of `units` ten-thousandths.
    pub fn from_units(units: i128) -> (r: Money)
        ensures
            r@ == units,
    {
        Money { units }
    }

    /// The amount of `value` whole currency units.
    pub fn from_int(value: i64) -> (r: Money)
        ensures
            r@ == value * 10000,
    {
        Money { units: (value as i128) * 10000 }
    }

    /// The amount `num / 10^scale`, for up to four fractional digits.
    pub fn new(num: i64, scale: u32) -> (r: Money)
        requires
            scale <= 4,
        ensures
            r@ == num * scale_factor(scale),
    {
        let factor: i128 = if scale == 0 {
            10000
        } else if scale == 1 {
            1000
        } else if scale == 2 {
            100
        } else if scale == 3 {
            10
        } else {
            1
        };
        Money { units: (num as i128) * factor }
    }

    /// The zero amount.
    pub fn zero() -> (r: Money)
        ensures
            r@ == 0,
    {
        Money { units: 0 }
    }
}

} // verus!
