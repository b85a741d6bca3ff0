use vstd::arithmetic::div_mod::{
    lemma_div_denominator, lemma_div_multiples_vanish, lemma_div_nonincreasing,
    lemma_multiply_divide_le,
};
use vstd::arithmetic::mul::{lemma_mul_inequality, lemma_mul_is_commutative};
use vstd::prelude::*;

verus! {

/// Number of atomic units in one whole unit: a `Decimal` stores its value
/// as an integer count of units of `10^-18`.
pub const DECIMAL_FRACTIONAL: u128 = 1_000_000_000_000_000_000;

/// A non-negative fixed-point rational with eighteen fractional decimal
/// digits: the represented value is `atomics / 10^18`. Every `u128` count of
/// atomic units is a valid value, from zero up to `u128::MAX / 10^18`.
#[derive(Clone, Copy, Debug, PartialEq, Eq, Structural)]
pub struct Decimal {
    pub atomics: u128,
}

impl View for Decimal {
    type V = int;

    open spec fn view(&self) -> int {
        self.atomics as int
    }
}

/// The atomics of a fixed-point product: the exact integer product of the
/// atomics, scaled back down by `10^18`, truncated toward zero.
pub open spec fn spec_mul_atomics(a: int, b: int) -> int {
    (a * b) / (DECIMAL_FRACTIONAL as int)
}

/// The atomics of a fixed-point quotient: the dividend scaled up by `10^18`,
/// divided by the divisor, truncated toward zero.
pub open spec fn spec_div_atomics(a: int, b: int) -> int {
    (a * DECIMAL_FRACTIONAL) / b
}

/// Relies on cosmwasm_std::Decimal::checked_mul: it computes the full-width
/// product of the two atomics counts, divides it by 10^18 truncating toward
/// zero, and fails exactly when the quotient exceeds u128::MAX.
#[verifier::external_body]
fn mul_atomics(a: u128, b: u128) -> (r: Option<u128>)
    ensures
        match r {
            Some(x) => spec_mul_atomics(a as int, b as int) <= u128::MAX && x == spec_mul_atomics(
                a as int,
                b as int,
            ),
            None => spec_mul_atomics(a as int, b as int) > u128::MAX,
        },
{
    match cosmwasm_std::Decimal::raw(a).checked_mul(cosmwasm_std::Decimal::raw(b)) {
        Ok(d) => Some(d.atomics().u128()),
        Err(_) => None,
    }
}

/// Relies on cosmwasm_std::Decimal::checked_div: it scales the dividend's
/// atomics up by 10^18, divides by the divisor's atomics truncating toward
/// zero, and fails exactly on a zero divisor or a quotient above u128::MAX.
#[verifier::external_body]
fn div_atomics(a: u128, b: u128) -> (r: Option<u128>)
    ensures
        match r {
            Some(x) => b > 0 && spec_div_atomics(a as int, b as int) <= u128::MAX && x
                == spec_div_atomics(a as int, b as int),
            None => b == 0 || spec_div_atomics(a as int, b as int) > u128::MAX,
        },
{
    match cosmwasm_std::Decimal::raw(a).checked_div(cosmwasm_std::Decimal::raw(b)) {
        Ok(d) => Some(d.atomics().u128()),
        Err(_) => None,
    }
}

/// A fixed-point multiplication by an embedded integer `w` is exact: the
/// scale factor of the embedding cancels against the truncating division.
pub proof fn lemma_mul_integer_embedding(w: int, x: int)
    requires
        0 <= w,
        0 <= x,
    ensures
        spec_mul_atomics(w * DECIMAL_FRACTIONAL, x) == w * x,
{
    let f = DECIMAL_FRACTIONAL as int;
    assert((w * f) * x == f * (w * x)) by (nonlinear_arith);
    lemma_div_multiples_vanish(w * x, f);
}

/// A fixed-point division by an embedded integer `t` is plain integer
/// division of the atomics: the scale factors cancel.
pub proof fn lemma_div_integer_embedding(y: int, t: int)
    requires
        0 <= y,
        1 <= t,
    ensures
        spec_div_atomics(y, t * DECIMAL_FRACTIONAL) == y / t,
{
    let f = DECIMAL_FRACTIONAL as int;
    lemma_mul_is_commutative(y, f);
    lemma_div_denominator(y * f, f, t);
    lemma_div_multiples_vanish(y, f);
    lemma_mul_is_commutative(t, f);
}

/// A weighted share of a non-negative quantity never exceeds the quantity:
/// `(w * x) / t <= x` whenever `w <= t`.
pub proof fn lemma_weighted_share_le(w: int, t: int, x: int)
    requires
        0 <= w <= t,
        1 <= t,
        0 <= x,
    ensures
        0 <= (w * x) / t <= x,
{
    lemma_mul_inequality(w, t, x);
    lemma_multiply_divide_le(w * x, t, x);
    assert(0 <= w * x) by (nonlinear_arith)
        requires
            0 <= w,
            0 <= x,
    ;
    lemma_div_nonincreasing(w * x, t);
}

impl Decimal {
    /// The value made of exactly `atomics` units of `10^-18`.
    pub fn from_atomics(atomics: u128) -> (d: Decimal)
        ensures
            d@ == atomics,
    {
        Decimal { atomics }
    }

    /// Embeds the non-negative integer `n`; always representable, since
    /// `u64::MAX * 10^18` still fits in 128 bits.
    pub fn from_integer(n: u64) -> (d: Decimal)
        ensures
            d@ == n * DECIMAL_FRACTIONAL,
    {
        Decimal { atomics: (n as u128) * DECIMAL_FRACTIONAL }
    }

    /// The value `x / 100`.
    pub fn percent(x: u64) -> (d: Decimal)
        ensures
            d@ == x * 10_000_000_000_000_000u128,
    {
        Decimal { atomics: (x as u128) * 10_000_000_000_000_000u128 }
    }

    /// The value zero.
    pub fn zero() -> (d: Decimal)
        ensures
            d@ == 0,
    {
        Decimal { atomics: 0 }
    }

    /// The count of atomic units.
    pub fn atomics(&self) -> (r: u128)
        ensures
            r == self@,
    {
        self.atomics
    }

    /// Whether this value is strictly greater than `other`.
    pub fn gt(&self, other: &Decimal) -> (r: bool)
        ensures
            r == (self@ > other@),
    {
        self.atomics > other.atomics
    }

    /// Exact checked addition: `None` exactly when the sum is out of range.
    pub fn checked_add(self, other: Decimal) -> (r: Option<Decimal>)
        ensures
            self@ + other@ <= u128::MAX ==> (r matches Some(d) && d@ == self@ + other@),
            self@ + other@ > u128::MAX ==> r is None,
    {
        if self.atomics <= u128::MAX - other.atomics {
            Some(Decimal { atomics: self.atomics + other.atomics })
        } else {
            None
        }
    }

    /// Exact checked subtraction: `None` exactly when it would cross zero.
    pub fn checked_sub(self, other: Decimal) -> (r: Option<Decimal>)
        ensures
            self@ >= other@ ==> (r matches Some(d) && d@ == self@ - other@),
            self@ < other@ ==> r is None,
    {
        if self.atomics >= other.atomics {
            Some(Decimal { atomics: self.atomics - other.atomics })
        } else {
            None
        }
    }

    /// Checked fixed-point multiplication, truncating toward zero at the
    /// eighteenth fractional digit: `None` exactly when the truncated
    /// product is out of range.
    pub fn checked_mul(self, other: Decimal) -> (r: Option<Decimal>)
        ensures
            spec_mul_atomics(self@, other@) <= u128::MAX ==> (r matches Some(d) && d@
                == spec_mul_atomics(self@, other@)),
            spec_mul_atomics(self@, other@) > u128::MAX ==> r is None,
    {
        match mul_atomics(self.atomics, other.atomics) {
            Some(a) => Some(Decimal { atomics: a }),
            None => None,
        }
    }

    /// Checked fixed-point division, truncating toward zero at the
    /// eighteenth fractional digit: `None` exactly on a zero divisor or
    /// when the truncated quotient is out of range.
    pub fn checked_div(self, other: Decimal) -> (r: Option<Decimal>)
        ensures
            other@ == 0 ==> r is None,
            other@ > 0 && spec_div_atomics(self@, other@) <= u128::MAX ==> (r matches Some(d) && d@
                == spec_div_atomics(self@, other@)),
            other@ > 0 && spec_div_atomics(self@, other@) > u128::MAX ==> r is None,
    {
        match div_atomics(self.atomics, other.atomics) {
            Some(a) => Some(Decimal { atomics: a }),
            None => None,
        }
    }
}

} // verus!
