//! Fixed-point arithmetic on amounts held as attos (units of 10^-18).
use scrypto::prelude::{CheckedDiv, CheckedMul, Decimal, I192};
use vstd::prelude::*;

verus! {

/// The number of attos in one whole unit.
pub const ONE: u128 = 1_000_000_000_000_000_000;

/// Product of two fixed-point values, truncated toward zero.
pub open spec fn mul_spec(a: int, b: int) -> int {
    a * b / (ONE as int)
}

/// Quotient of two fixed-point values, truncated toward zero.
pub open spec fn div_spec(a: int, b: int) -> int {
    a * (ONE as int) / b
}

/// Whether a mathematical value can be held as an amount.
pub open spec fn fits(x: int) -> bool {
    0 <= x <= u128::MAX
}

/// Relies on `radix_common::math::Decimal::checked_mul`: the product is
/// computed in 256 bits, divided by one unit (truncating) and returned when it
/// fits; the result is then narrowed to `u128`.
#[verifier::external_body]
pub(crate) fn checked_mul(a: u128, b: u128) -> (r: Option<u128>)
    ensures
        fits(mul_spec(a as int, b as int)) ==> r == Some(mul_spec(a as int, b as int) as u128),
        !fits(mul_spec(a as int, b as int)) ==> r.is_none(),
{
    let x = Decimal::from_attos(I192::from(a));
    let y = Decimal::from_attos(I192::from(b));
    x.checked_mul(y).and_then(|c| u128::try_from(c.attos()).ok())
}

/// Relies on `radix_common::math::Decimal::checked_div`: the dividend is scaled
/// by one unit in 256 bits, divided (truncating) and returned when the divisor
/// is nonzero and the quotient fits; the result is then narrowed to `u128`.
#[verifier::external_body]
pub(crate) fn checked_div(a: u128, b: u128) -> (r: Option<u128>)
    ensures
        b != 0 && fits(div_spec(a as int, b as int)) ==> r == Some(div_spec(a as int, b as int) as u128),
        b == 0 || !fits(div_spec(a as int, b as int)) ==> r.is_none(),
{
    let x = Decimal::from_attos(I192::from(a));
    let y = Decimal::from_attos(I192::from(b));
    x.checked_div(y).and_then(|c| u128::try_from(c.attos()).ok())
}

} // verus!
