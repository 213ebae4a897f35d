//! Order keys of IEEE-754 binary64 bit patterns. The key of a pattern is an
//! unsigned integer whose order is the IEEE total order of the values: a
//! set sign bit reverses the order of the magnitudes and puts them below
//! every pattern whose sign bit is clear.
use vstd::prelude::*;

verus! {

/// The sign bit of a binary64 pattern.
pub const SIGN_BIT: u64 = 0x8000_0000_0000_0000;

/// Position of a bit pattern in the IEEE total order: a clear sign bit
/// gives the magnitude itself, a set one the negated magnitude minus one,
/// so that -0.0 sits just below +0.0.
pub open spec fn total_rank(bits: u64) -> int {
    if bits < SIGN_BIT {
        bits as int
    } else {
        -((bits - SIGN_BIT) as int) - 1
    }
}

/// The key of a bit pattern: its total-order rank shifted to start at 0.
pub open spec fn key_of(bits: u64) -> int {
    total_rank(bits) + SIGN_BIT
}

/// The order key of a binary64 bit pattern.
pub fn order_key(bits: u64) -> (r: u64)
    ensures
        r as int == key_of(bits),
{
    if bits >= SIGN_BIT {
        u64::MAX - bits
    } else {
        bits + SIGN_BIT
    }
}

/// The bit pattern whose order key is `key`.
pub fn bits_of_key(key: u64) -> (r: u64)
    ensures
        key_of(r) == key as int,
{
    if key >= SIGN_BIT {
        key - SIGN_BIT
    } else {
        u64::MAX - key
    }
}

/// Keys compare as the values that they stand for in the total order, and
/// distinct patterns have distinct keys, so decoding a key gives back the
/// pattern that it was made from.
pub proof fn lemma_order_key_faithful(a: u64, b: u64)
    ensures
        key_of(a) < key_of(b) <==> total_rank(a) < total_rank(b),
        key_of(a) == key_of(b) <==> a == b,
        0 <= key_of(a) <= u64::MAX,
{
}

} // verus!
