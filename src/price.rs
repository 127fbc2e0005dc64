//! Prices as unsigned fixed-point numbers with nine decimal places.
use vstd::prelude::*;

use crate::stp258::Balance;

verus! {

/// The raw value of the price 1.
pub const PRICE_ONE: u128 = 1_000_000_000;

/// A non-negative price: `inner / PRICE_ONE`.
#[derive(Clone, Copy, Debug, PartialEq, Eq, Structural)]
pub struct Price {
    pub inner: u128,
}

/// `n / d` rounded down, where `n` scaled to a raw value fits.
pub open spec fn rational_price(n: Balance, d: Balance) -> Option<Price> {
    if d == 0 || n * PRICE_ONE > u128::MAX {
        None
    } else {
        Some(Price { inner: (n * PRICE_ONE / (d as int)) as u128 })
    }
}

/// The product of two prices, rounded down, where the raw product fits.
pub open spec fn product_price(a: Price, b: Price) -> Option<Price> {
    if a.inner * b.inner > u128::MAX {
        None
    } else {
        Some(Price { inner: (a.inner * b.inner / (PRICE_ONE as int)) as u128 })
    }
}

impl Price {
    pub fn from_inner(inner: u128) -> (r: Price)
        ensures
            r.inner == inner,
    {
        Price { inner }
    }

    pub fn into_inner(self) -> (r: u128)
        ensures
            r == self.inner,
    {
        self.inner
    }

    pub fn one() -> (r: Price)
        ensures
            r.inner == PRICE_ONE,
    {
        Price { inner: PRICE_ONE }
    }

    /// `n / d`; `None` where `d` is zero or `n` is too large to scale.
    pub fn checked_from_rational(n: Balance, d: Balance) -> (r: Option<Price>)
        ensures
            r == rational_price(n, d),
    {
        if d == 0 || n > u128::MAX / PRICE_ONE {
            None
        } else {
            Some(Price { inner: n * PRICE_ONE / d })
        }
    }

    pub fn checked_add(self, other: Price) -> (r: Option<Price>)
        ensures
            r == if self.inner + other.inner > u128::MAX {
                None
            } else {
                Some(Price { inner: (self.inner + other.inner) as u128 })
            },
    {
        if self.inner > u128::MAX - other.inner {
            None
        } else {
            Some(Price { inner: self.inner + other.inner })
        }
    }

    pub fn checked_sub(self, other: Price) -> (r: Option<Price>)
        ensures
            r == if self.inner < other.inner {
                None
            } else {
                Some(Price { inner: (self.inner - other.inner) as u128 })
            },
    {
        if self.inner < other.inner {
            None
        } else {
            Some(Price { inner: self.inner - other.inner })
        }
    }

    pub fn checked_mul(self, other: Price) -> (r: Option<Price>)
        ensures
            r == product_price(self, other),
    {
        if other.inner != 0 && self.inner > u128::MAX / other.inner {
            proof {
                assert(self.inner * other.inner > u128::MAX) by (nonlinear_arith)
                    requires
                        other.inner > 0,
                        self.inner > u128::MAX / other.inner,
                ;
            }
            None
        } else {
            proof {
                assert(self.inner * other.inner <= u128::MAX) by (nonlinear_arith)
                    requires
                        other.inner == 0 || self.inner <= u128::MAX / other.inner,
                ;
            }
            Some(Price { inner: self.inner * other.inner / PRICE_ONE })
        }
    }
}

} // verus!
