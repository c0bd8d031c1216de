//! Fixed-point arithmetic of `cosmwasm_std::Decimal` and `Uint128`, as used by
//! the reward computation.
//!
//! A `Decimal` is held by its atomic units: the value `a / 10^18`.

use cosmwasm_std::{Decimal, Uint128};
use vstd::prelude::*;

verus! {

/// Atomic units per whole `Decimal` (10^18).
pub open spec fn decimal_fractional() -> int {
    1_000_000_000_000_000_000
}

/// Atomics of `Decimal::from_ratio(numerator, denominator)`: the quotient floored
/// to 18 fractional digits.
pub open spec fn ratio_atomics(numerator: int, denominator: int) -> int {
    numerator * decimal_fractional() / denominator
}

/// `value * decimal` for a `Uint128` value and a `Decimal` given by its atomics:
/// the product floored to an integer.
pub open spec fn mul_atomics(value: int, atomics: int) -> int {
    value * atomics / decimal_fractional()
}

/// The decimal digit `d` as a character.
pub open spec fn digit_char(d: nat) -> char {
    (48 + d) as char
}

/// The decimal representation of `n`, without leading zeros.
pub open spec fn decimal_digits(n: nat) -> Seq<char>
    decreases n,
{
    if n < 10 {
        seq![digit_char(n)]
    } else {
        decimal_digits(n / 10).push(digit_char(n % 10))
    }
}

/// Calls `cosmwasm_std::Decimal::from_ratio` and returns the atomics of the
/// result. The crate computes `numerator * 10^18 / denominator` in 256 bits,
/// floors it, and panics on a zero denominator or a result beyond `u128`; the
/// `requires` leaves those inputs out.
#[verifier::external_body]
pub(crate) fn decimal_from_ratio(numerator: u128, denominator: u128) -> (atomics: u128)
    requires
        denominator > 0,
        ratio_atomics(numerator as int, denominator as int) <= u128::MAX,
    ensures
        atomics == ratio_atomics(numerator as int, denominator as int),
{
    Decimal::from_ratio(Uint128::new(numerator), Uint128::new(denominator)).atomics().u128()
}

/// Calls `cosmwasm_std::Decimal::checked_from_ratio`: `None` exactly where
/// `from_ratio` would panic, else the atomics of the ratio.
#[verifier::external_body]
pub(crate) fn checked_decimal_from_ratio(numerator: u128, denominator: u128) -> (atomics: Option<
    u128,
>)
    ensures
        atomics is None <==> (denominator == 0 || ratio_atomics(numerator as int, denominator as int)
            > u128::MAX),
        atomics matches Some(a) ==> a == ratio_atomics(numerator as int, denominator as int),
{
    match Decimal::checked_from_ratio(Uint128::new(numerator), Uint128::new(denominator)) {
        Ok(d) => Some(d.atomics().u128()),
        Err(_) => None,
    }
}

/// Calls `<Uint128 as Mul<Decimal>>::mul`. The crate returns zero when either
/// factor is zero and otherwise `value * atomics / 10^18` floored, computed in
/// 256 bits; it panics when the result exceeds `u128`, which `requires` leaves out.
#[verifier::external_body]
pub(crate) fn mul_decimal(value: u128, atomics: u128) -> (product: u128)
    requires
        mul_atomics(value as int, atomics as int) <= u128::MAX,
    ensures
        product == mul_atomics(value as int, atomics as int),
{
    (Uint128::new(value) * Decimal::raw(atomics)).u128()
}

/// Calls `cosmwasm_std::Uint128::checked_mul_floor` with a `Decimal`: the
/// crate computes `value * atomics / 10^18` in 256 bits and floors it, as
/// `Uint128 * Decimal` does, failing exactly where the result exceeds `u128`.
#[verifier::external_body]
pub(crate) fn checked_mul_decimal(value: u128, atomics: u128) -> (product: Option<u128>)
    ensures
        product is None <==> mul_atomics(value as int, atomics as int) > u128::MAX,
        product matches Some(p) ==> p == mul_atomics(value as int, atomics as int),
{
    match Uint128::new(value).checked_mul_floor(Decimal::raw(atomics)) {
        Ok(p) => Some(p.u128()),
        Err(_) => None,
    }
}

/// Calls `<Uint128 as Display>` through `to_string`, which formats the inner
/// `u128` in decimal.
#[verifier::external_body]
pub(crate) fn amount_to_string(amount: u128) -> (text: String)
    ensures
        text@ == decimal_digits(amount as nat),
{
    Uint128::new(amount).to_string()
}

} // verus!
