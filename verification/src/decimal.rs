//! Fixed-point numbers with 18 fractional digits, stored as a count of atomic
//! units in a `u128`.

use vstd::prelude::*;

verus! {

/// Atomic units in one whole.
pub const DECIMAL_FRACTIONAL: u128 = 1_000_000_000_000_000_000;

/// `value * numerator / denominator`, rounded down.
pub open spec fn mul_div(value: nat, numerator: nat, denominator: nat) -> nat
    recommends
        denominator > 0,
{
    ((value * numerator) as int / denominator as int) as nat
}

/// `mul_div` where the denominator is not zero and the quotient fits in 128 bits.
pub open spec fn checked_mul_div(value: nat, numerator: nat, denominator: nat) -> Option<u128> {
    if denominator == 0 || mul_div(value, numerator, denominator) > u128::MAX {
        None
    } else {
        Some(mul_div(value, numerator, denominator) as u128)
    }
}

/// Calls `cosmwasm_std::Decimal::checked_from_ratio` and hands back the atomic
/// units of its result. Trusted: the outside function multiplies the numerator
/// by 10^18 in 256 bits, divides by the denominator rounding down, and fails on
/// a zero denominator or a quotient beyond 128 bits.
#[verifier::external_body]
fn ratio_atomics(numerator: u128, denominator: u128) -> (r: Option<u128>)
    ensures
        r == checked_mul_div(numerator as nat, DECIMAL_FRACTIONAL as nat, denominator as nat),
{
    match cosmwasm_std::Decimal::checked_from_ratio(numerator, denominator) {
        Ok(d) => Some(d.atomics().u128()),
        Err(_) => None,
    }
}

/// Calls `cosmwasm_std::Uint128::checked_multiply_ratio`. Trusted: the outside
/// function multiplies in 256 bits, divides rounding down, and fails on a zero
/// denominator or a quotient beyond 128 bits.
#[verifier::external_body]
fn multiply_ratio(value: u128, numerator: u128, denominator: u128) -> (r: Option<u128>)
    ensures
        r == checked_mul_div(value as nat, numerator as nat, denominator as nat),
{
    match cosmwasm_std::Uint128::new(value).checked_multiply_ratio(numerator, denominator) {
        Ok(v) => Some(v.u128()),
        Err(_) => None,
    }
}

/// A non-negative fixed-point number: `atomics / 10^18`.
#[derive(Clone, Copy, Debug, PartialEq, Eq, Structural)]
pub struct Decimal {
    pub atomics: u128,
}

impl View for Decimal {
    type V = nat;

    open spec fn view(&self) -> nat {
        self.atomics as nat
    }
}

impl Decimal {
    /// The number made of `atomics` atomic units.
    pub fn raw(atomics: u128) -> (d: Decimal)
        ensures
            d@ == atomics,
    {
        Decimal { atomics }
    }

    pub fn zero() -> (d: Decimal)
        ensures
            d@ == 0,
    {
        Decimal { atomics: 0 }
    }

    pub fn one() -> (d: Decimal)
        ensures
            d@ == DECIMAL_FRACTIONAL,
    {
        Decimal { atomics: DECIMAL_FRACTIONAL }
    }

    /// `x` hundredths.
    pub fn percent(x: u64) -> (d: Decimal)
        ensures
            d@ == x * 10_000_000_000_000_000,
    {
        let wide: u128 = x as u128;
        Decimal { atomics: wide * 10_000_000_000_000_000 }
    }

    pub fn atomics(&self) -> (a: u128)
        ensures
            a == self@,
    {
        self.atomics
    }

    pub fn is_zero(&self) -> (b: bool)
        ensures
            b == (self@ == 0),
    {
        self.atomics == 0
    }

    /// Whether `self` is strictly greater than `other`.
    pub fn gt(&self, other: &Decimal) -> (b: bool)
        ensures
            b == (self@ > other@),
    {
        self.atomics > other.atomics
    }

    /// The sum, where it fits in 128 bits.
    pub open spec fn sum(self, other: Decimal) -> Option<Decimal> {
        if self@ + other@ <= u128::MAX {
            Some(Decimal { atomics: (self@ + other@) as u128 })
        } else {
            None
        }
    }

    /// The difference, where `other` is not the greater.
    pub open spec fn difference(self, other: Decimal) -> Option<Decimal> {
        if self@ >= other@ {
            Some(Decimal { atomics: (self@ - other@) as u128 })
        } else {
            None
        }
    }

    /// The ratio of two whole numbers, rounded down to 18 fractional digits.
    pub open spec fn ratio(numerator: nat, denominator: nat) -> Option<Decimal> {
        match checked_mul_div(numerator, DECIMAL_FRACTIONAL as nat, denominator) {
            Some(atomics) => Some(Decimal { atomics }),
            None => None,
        }
    }

    /// The sum, or `None` where it does not fit.
    pub fn checked_add(self, other: Decimal) -> (r: Option<Decimal>)
        ensures
            r == self.sum(other),
    {
        match self.atomics.checked_add(other.atomics) {
            Some(atomics) => Some(Decimal { atomics }),
            None => None,
        }
    }

    /// The difference, or `None` where `other` is the greater.
    pub fn checked_sub(self, other: Decimal) -> (r: Option<Decimal>)
        ensures
            r == self.difference(other),
    {
        match self.atomics.checked_sub(other.atomics) {
            Some(atomics) => Some(Decimal { atomics }),
            None => None,
        }
    }

    /// `numerator / denominator` rounded down to 18 fractional digits, or `None`
    /// where the denominator is zero or the ratio does not fit.
    pub fn checked_from_ratio(numerator: u128, denominator: u128) -> (r: Option<Decimal>)
        ensures
            r == Decimal::ratio(numerator as nat, denominator as nat),
    {
        match ratio_atomics(numerator, denominator) {
            Some(atomics) => Some(Decimal { atomics }),
            None => None,
        }
    }

    /// `self * weight` rounded down to a whole number, or `None` where that does
    /// not fit.
    pub fn checked_mul_floor(self, weight: u128) -> (r: Option<u128>)
        ensures
            r == checked_mul_div(weight as nat, self@, DECIMAL_FRACTIONAL as nat),
    {
        multiply_ratio(weight, self.atomics, DECIMAL_FRACTIONAL)
    }
}

/// What is lost to rounding in `mul_div` is less than one unit of the quotient.
pub proof fn lemma_mul_div_bounds(value: nat, numerator: nat, denominator: nat)
    requires
        denominator > 0,
    ensures
        mul_div(value, numerator, denominator) * denominator <= value * numerator,
        value * numerator < (mul_div(value, numerator, denominator) + 1) * denominator,
{
    let x = (value * numerator) as int;
    let d = denominator as int;
    vstd::arithmetic::div_mod::lemma_fundamental_div_mod(x, d);
    vstd::arithmetic::div_mod::lemma_mod_bound(x, d);
    assert(x >= 0) by (nonlinear_arith)
        requires
            x == value * numerator,
    ;
    vstd::arithmetic::div_mod::lemma_div_pos_is_pos(x, d);
    assert(d * (x / d) == (x / d) * d) by (nonlinear_arith);
    assert(((x / d) + 1) * d == (x / d) * d + d) by (nonlinear_arith);
}

} // verus!
