//! Exact fixed-point money amounts with four fractional digits.
//!
//! An `Amount` counts in units of one ten-thousandth, so additions,
//! subtractions and comparisons are exact integer operations with no
//! rounding drift.

use vstd::prelude::*;

verus! {

/// Number of units that make up one whole (10^4, four fractional digits).
pub const UNITS_PER_WHOLE: u64 = 10_000;

/// An exact non-negative fixed-point decimal with four fractional digits,
/// stored as a count of 1/10000 units.
#[derive(Clone, Copy, Debug, PartialEq, Eq, Structural, Hash)]
pub struct Amount {
    /// The count of 1/10000 units.
    pub units: u64,
}

impl Amount {
    /// The raw count of 1/10000 units.
    pub open spec fn spec_units(self) -> int {
        self.units as int
    }

    /// Builds an amount directly from a count of 1/10000 units.
    pub fn from_units(units: u64) -> (r: Amount)
        ensures
            r.spec_units() == units,
    {
        Amount { units }
    }

    /// Builds an amount from a mantissa and a decimal scale, so that the
    /// value is `mantissa * 10^-scale`; for example `new(1000, 2)` is 10.
    pub fn new(mantissa: i64, scale: u32) -> (r: Amount)
        requires
            0 <= mantissa,
            scale <= 4,
            mantissa * pow10((4 - scale) as nat) <= u64::MAX,
        ensures
            r.spec_units() == mantissa * pow10((4 - scale) as nat),
    {
        let factor: u64 = pow10_exec(4 - scale);
        proof {
            lemma_pow10_positive((4 - scale) as nat);
        }
        Amount { units: (mantissa as u64) * factor }
    }

    /// The zero amount.
    pub fn zero() -> (r: Amount)
        ensures
            r.spec_units() == 0,
    {
        Amount { units: 0 }
    }

    /// The raw unit count, as an executable value.
    pub fn units(self) -> (r: u64)
        ensures
            r == self.spec_units(),
    {
        self.units
    }

    /// True when the amount is zero.
    pub fn is_zero(self) -> (r: bool)
        ensures
            r == (self.spec_units() == 0),
    {
        self.units == 0
    }

    /// Exact addition.
    pub fn add(self, other: Amount) -> (r: Amount)
        requires
            self.spec_units() + other.spec_units() <= u64::MAX,
        ensures
            r.spec_units() == self.spec_units() + other.spec_units(),
    {
        Amount { units: self.units + other.units }
    }

    /// Exact subtraction.
    pub fn sub(self, other: Amount) -> (r: Amount)
        requires
            other.spec_units() <= self.spec_units(),
        ensures
            r.spec_units() == self.spec_units() - other.spec_units(),
    {
        Amount { units: self.units - other.units }
    }

    /// Comparison: is this amount strictly less than the other?
    pub fn lt(self, other: Amount) -> (r: bool)
        ensures
            r == (self.spec_units() < other.spec_units()),
    {
        self.units < other.units
    }
}

/// Exact addition as a value transform; faithful when the sum fits.
pub open spec fn amt_add(a: Amount, b: Amount) -> Amount {
    Amount { units: (a.units + b.units) as u64 }
}

/// Exact subtraction as a value transform; faithful when nothing borrows.
pub open spec fn amt_sub(a: Amount, b: Amount) -> Amount {
    Amount { units: (a.units - b.units) as u64 }
}

/// Mathematical power of ten.
pub open spec fn pow10(e: nat) -> int
    decreases e,
{
    if e == 0 {
        1
    } else {
        10 * pow10((e - 1) as nat)
    }
}

proof fn lemma_pow10_positive(e: nat)
    ensures
        pow10(e) >= 1,
    decreases e,
{
    if e > 0 {
        lemma_pow10_positive((e - 1) as nat);
    }
}

/// Executable power of ten for exponents up to four.
pub fn pow10_exec(e: u32) -> (r: u64)
    requires
        e <= 4,
    ensures
        r == pow10(e as nat),
{
    proof {
        reveal_with_fuel(pow10, 5);
    }
    if e == 0 {
        1
    } else if e == 1 {
        10
    } else if e == 2 {
        100
    } else if e == 3 {
        1_000
    } else {
        10_000
    }
}

} // verus!
