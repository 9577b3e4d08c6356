//! The fixed-point currency amount.
//!
//! An `Amount` is a signed decimal fixed-point number held as an `i64` count
//! of ten-thousandths, so it carries exactly four fractional digits and is
//! exact under addition and subtraction on every platform.

use vstd::prelude::*;

verus! {

/// A signed decimal fixed-point currency value with four fractional digits.
///
/// The mathematical value is `self@` ten-thousandths of a currency unit.
#[derive(Clone, Copy, Debug, PartialEq, Eq, Structural)]
pub struct Amount {
    raw: i64,
}

impl View for Amount {
    type V = int;

    closed spec fn view(&self) -> int {
        self.raw as int
    }
}

impl Amount {
    /// The zero amount.
    pub fn zero() -> (r: Amount)
        ensures
            r@ == 0,
    {
        Amount { raw: 0 }
    }

    /// Builds an amount from a raw count of ten-thousandths.
    pub fn from_raw(raw: i64) -> (r: Amount)
        ensures
            r@ == raw as int,
    {
        Amount { raw }
    }

    /// The raw count of ten-thousandths this amount stands for.
    pub fn raw(&self) -> (r: i64)
        ensures
            r as int == self@,
    {
        self.raw
    }

    /// Exact sum, or `None` when the sum does not fit the raw range.
    pub fn checked_add(self, other: Amount) -> (r: Option<Amount>)
        ensures
            amount_in_range(self@ + other@) ==> (r matches Some(s) && s@ == self@ + other@),
            !amount_in_range(self@ + other@) ==> r is None,
    {
        match self.raw.checked_add(other.raw) {
            Some(raw) => Some(Amount { raw }),
            None => None,
        }
    }

    /// Exact difference, or `None` when it does not fit the raw range.
    pub fn checked_sub(self, other: Amount) -> (r: Option<Amount>)
        ensures
            amount_in_range(self@ - other@) ==> (r matches Some(s) && s@ == self@ - other@),
            !amount_in_range(self@ - other@) ==> r is None,
    {
        match self.raw.checked_sub(other.raw) {
            Some(raw) => Some(Amount { raw }),
            None => None,
        }
    }

    /// Whether this amount is at least `other`.
    pub fn ge(&self, other: &Amount) -> (r: bool)
        ensures
            r == (self@ >= other@),
    {
        self.raw >= other.raw
    }
}

/// Whether a mathematical value fits the raw `i64` range of `Amount`.
pub open spec fn amount_in_range(v: int) -> bool {
    i64::MIN <= v <= i64::MAX
}

} // verus!
