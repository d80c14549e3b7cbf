use vstd::prelude::*;
use vstd::relations::total_ordering;

verus! {

/// Two to the 52nd: the weight of the lowest exponent bit of a binary64 value.
pub const EXPONENT_UNIT: u64 = 4503599627370496;

/// Two to the 63rd: the sign bit of a binary64 value.
pub const SIGN_BIT: u64 = 9223372036854775808;

/// A binary64 bit pattern is NaN when its exponent field is all ones and its
/// fraction field is not zero.
pub open spec fn is_nan(bits: u64) -> bool {
    (bits / EXPONENT_UNIT) % 2048 == 2047 && bits % EXPONENT_UNIT != 0
}

/// The key under which binary64 bit patterns are ordered: negative values
/// (sign bit set) come first, larger magnitudes earlier; non-negative values
/// follow, larger magnitudes later. On values that are not NaN this is the
/// numeric order, with -0 placed just before +0.
pub open spec fn order_key(bits: u64) -> u64 {
    if bits >= SIGN_BIT {
        (u64::MAX - bits) as u64
    } else {
        (bits + SIGN_BIT) as u64
    }
}

/// `a` comes no later than `b` in the numeric order of bit patterns.
pub open spec fn precedes(a: u64, b: u64) -> bool {
    order_key(a) <= order_key(b)
}

pub open spec fn precedes_fn() -> spec_fn(u64, u64) -> bool {
    |a: u64, b: u64| precedes(a, b)
}

/// The key tells bit patterns apart.
pub proof fn lemma_order_key_injective(a: u64, b: u64)
    ensures
        order_key(a) == order_key(b) ==> a == b,
{
}

/// The numeric order of bit patterns is a total order.
pub proof fn lemma_precedes_total()
    ensures
        total_ordering(precedes_fn()),
{
    assert forall|a: u64, b: u64|
        #[trigger] precedes_fn()(a, b) && #[trigger] precedes_fn()(b, a) implies a == b by {
        lemma_order_key_injective(a, b);
    }
}

/// Whether a bit pattern is NaN.
pub fn bits_are_nan(bits: u64) -> (r: bool)
    ensures
        r == is_nan(bits),
{
    (bits / EXPONENT_UNIT) % 2048 == 2047 && bits % EXPONENT_UNIT != 0
}

/// The order key of a bit pattern.
pub fn key_of(bits: u64) -> (r: u64)
    ensures
        r == order_key(bits),
{
    if bits >= SIGN_BIT {
        u64::MAX - bits
    } else {
        bits + SIGN_BIT
    }
}

} // verus!
