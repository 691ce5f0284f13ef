//! Arbitrary-precision counts, backed by `num_bigint::BigUint`.
//!
//! A `BigUint` is opaque to the verifier: its numeric value is given the name
//! `big_value`, and every operation that the library performs on it goes
//! through one of the wrappers below, whose contract is stated over that value.
use num_bigint::BigUint;
use vstd::prelude::*;

verus! {

#[verifier::external_type_specification]
#[verifier::external_body]
pub struct ExBigUint(BigUint);

/// The non-negative integer that a `BigUint` holds.
pub uninterp spec fn big_value(b: BigUint) -> nat;

/// Number of binary digits of `n`: 0 for 0, else `floor(log2(n)) + 1`.
pub open spec fn bit_len(n: nat) -> nat
    decreases n,
{
    if n == 0 {
        0
    } else {
        1 + bit_len(n / 2)
    }
}

/// Value of a little-endian byte sequence.
pub open spec fn le_value(s: Seq<u8>) -> nat
    decreases s.len(),
{
    if s.len() == 0 {
        0
    } else {
        s[0] as nat + 256 * le_value(s.subrange(1, s.len() as int))
    }
}

/// Relies on `From<u128> for BigUint`: the conversion keeps the value.
#[verifier::external_body]
pub(crate) fn big_from_u128(x: u128) -> (r: BigUint)
    ensures
        big_value(r) == x as nat,
{
    BigUint::from(x)
}

/// Relies on `Mul<&BigUint> for &BigUint`: the exact product.
#[verifier::external_body]
pub(crate) fn big_mul(a: &BigUint, b: &BigUint) -> (r: BigUint)
    ensures
        big_value(r) == big_value(*a) * big_value(*b),
{
    a * b
}

/// Relies on `Div<&BigUint> for &BigUint`: the floored quotient; it panics on a
/// zero divisor, which `requires` leaves out.
#[verifier::external_body]
pub(crate) fn big_div(a: &BigUint, b: &BigUint) -> (r: BigUint)
    requires
        big_value(*b) > 0,
    ensures
        big_value(r) == big_value(*a) / big_value(*b),
{
    a / b
}

/// Relies on `Rem<&BigUint> for &BigUint`: the remainder of the floored
/// division; it panics on a zero divisor, which `requires` leaves out.
#[verifier::external_body]
pub(crate) fn big_rem(a: &BigUint, b: &BigUint) -> (r: BigUint)
    requires
        big_value(*b) > 0,
    ensures
        big_value(r) == big_value(*a) % big_value(*b),
{
    a % b
}

/// Relies on `BigUint::bits`: the fewest bits that express the value, 0 for 0.
#[verifier::external_body]
pub(crate) fn big_bits(a: &BigUint) -> (r: u64)
    ensures
        r as nat == bit_len(big_value(*a)),
{
    a.bits()
}

/// Relies on `BigUint::from_bytes_le`: the bytes read as a little-endian number.
#[verifier::external_body]
pub(crate) fn big_from_bytes_le(bytes: &[u8]) -> (r: BigUint)
    ensures
        big_value(r) == le_value(bytes@),
{
    BigUint::from_bytes_le(bytes)
}

/// Relies on `TryFrom<&BigUint> for u32`: `Some` exactly when the value fits.
#[verifier::external_body]
pub(crate) fn big_to_u32(a: &BigUint) -> (r: Option<u32>)
    ensures
        big_value(*a) <= u32::MAX ==> r == Some(big_value(*a) as u32),
        big_value(*a) > u32::MAX ==> r is None,
{
    u32::try_from(a).ok()
}

} // verus!
