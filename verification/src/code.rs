//! Coordinate codes.
//!
//! A quantity is carried as a signed 64-bit code made from the bit pattern
//! of its binary64 form. A pattern with the sign bit clear is its own code.
//! A pattern with the sign bit set, whose other bits make the magnitude `m`,
//! has the code `-m - 1`; only negative zero, which equals zero, shares the
//! code 0 with it. So the codes of numbers are ordered as the numbers are,
//! and whatever only compares, selects or arranges can work on codes.

use vstd::prelude::*;

verus! {

/// The bit that holds the sign in a bit pattern.
pub const SIGN_BIT: u64 = 0x8000_0000_0000_0000;

/// The code of one.
pub const ONE: i64 = 0x3FF0_0000_0000_0000;

/// The code of positive infinity.
pub const INFINITY: i64 = 0x7FF0_0000_0000_0000;

/// The code of negative infinity.
pub const NEG_INFINITY: i64 = -0x7FF0_0000_0000_0001;

/// The code of the bound, one hundred-millionth, within which a component
/// counts as zero.
pub const NEAR_ZERO: i64 = 0x3E45_798E_E230_8C3A;

pub open spec fn spec_encode(bits: u64) -> i64 {
    if bits < SIGN_BIT {
        bits as i64
    } else if bits == SIGN_BIT {
        0
    } else {
        (-(bits - SIGN_BIT) - 1) as i64
    }
}

pub open spec fn spec_decode(code: i64) -> u64 {
    if code >= 0 {
        code as u64
    } else {
        (-(code + 1) + SIGN_BIT) as u64
    }
}

/// The code of the negated quantity.
pub open spec fn spec_negate(code: i64) -> i64 {
    if code == 0 {
        0
    } else {
        (-code - 1) as i64
    }
}

/// The code of the quantity with the bit pattern `bits`.
pub fn encode(bits: u64) -> (code: i64)
    ensures
        code == spec_encode(bits),
{
    if bits < SIGN_BIT {
        bits as i64
    } else if bits == SIGN_BIT {
        0
    } else {
        let magnitude = (bits - SIGN_BIT) as i64;
        -magnitude - 1
    }
}

/// The bit pattern of the quantity with the code `code`.
pub fn decode(code: i64) -> (bits: u64)
    ensures
        bits == spec_decode(code),
{
    if code >= 0 {
        code as u64
    } else {
        let magnitude = (-(code + 1)) as u64;
        magnitude + SIGN_BIT
    }
}

/// The code of the negated quantity.
pub fn negate(code: i64) -> (r: i64)
    ensures
        r == spec_negate(code),
{
    if code == 0 {
        0
    } else if code < 0 {
        -(code + 1)
    } else {
        -code - 1
    }
}

/// Every bit pattern but that of negative zero comes back from its code,
/// and negative zero comes back as zero.
pub proof fn lemma_decode_encode(bits: u64)
    ensures
        bits != SIGN_BIT ==> spec_decode(spec_encode(bits)) == bits,
        spec_decode(spec_encode(SIGN_BIT)) == 0,
{
}

/// Every code but -1, which no bit pattern has, comes back from its bit
/// pattern; so different bit patterns, negative zero apart, have different
/// codes.
pub proof fn lemma_encode_decode(code: i64)
    ensures
        code != -1 ==> spec_encode(spec_decode(code)) == code,
        forall|bits: u64| spec_encode(bits) != -1,
{
}

/// Among bit patterns of one sign the code grows with the magnitude when
/// the sign bit is clear and falls with it when the sign bit is set, and
/// every code of a pattern with the sign bit set lies below every code of a
/// pattern with the sign bit clear, but for negative zero.
pub proof fn lemma_encode_order(a: u64, b: u64)
    ensures
        a < b < SIGN_BIT ==> spec_encode(a) < spec_encode(b),
        SIGN_BIT < a < b ==> spec_encode(b) < spec_encode(a),
        SIGN_BIT < a && b < SIGN_BIT ==> spec_encode(a) < -1 < spec_encode(b),
{
}

/// Negating twice gives the code back, and negation turns the order
/// around.
pub proof fn lemma_negate(a: i64, b: i64)
    ensures
        a != -1 ==> spec_negate(spec_negate(a)) == a,
        a < b && a != -1 && b != -1 ==> spec_negate(b) < spec_negate(a),
        0 < a ==> spec_negate(a) < 0,
{
}

} // verus!
