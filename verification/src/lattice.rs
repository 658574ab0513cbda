//! Single-precision floats on the integer lattice.
//!
//! A float is known here by its bit pattern. The key of a pattern is the
//! place of the float in ascending order: the floats from positive zero
//! upwards have the keys 0, 1, 2 and so on, those from negative zero
//! downwards the keys -1, -2, -3 and so on. A smaller float has a smaller
//! key, so the smallest box around some keys is the box around the floats.

use vstd::prelude::*;

verus! {

/// The bit that a negative float has set.
pub const SIGN_BIT: u32 = 0x8000_0000;

/// The key of the float with the bit pattern `bits`.
pub open spec fn key_spec(bits: u32) -> int {
    if bits < SIGN_BIT {
        bits as int
    } else {
        -1 - (bits - SIGN_BIT)
    }
}

/// The bit pattern of the float with the key `key`.
pub open spec fn bits_spec(key: i32) -> int {
    if key >= 0 {
        key as int
    } else {
        SIGN_BIT + (-1 - key)
    }
}

/// The key of the float with the bit pattern `bits`.
pub fn key_of_bits(bits: u32) -> (key: i32)
    ensures
        key == key_spec(bits),
        bits_spec(key) == bits,
{
    if bits < SIGN_BIT {
        bits as i32
    } else {
        -1 - ((bits - SIGN_BIT) as i32)
    }
}

/// The bit pattern of the float with the key `key`.
pub fn bits_of_key(key: i32) -> (bits: u32)
    ensures
        bits == bits_spec(key),
        key_spec(bits) == key,
{
    if key >= 0 {
        key as u32
    } else {
        SIGN_BIT + ((-1 - key) as u32)
    }
}

/// Keys and bit patterns stand one to one: each way and back gives what
/// one started from.
pub proof fn lemma_key_round_trip(bits: u32, key: i32)
    ensures
        i32::MIN <= key_spec(bits) <= i32::MAX,
        0 <= bits_spec(key) <= u32::MAX,
        bits_spec(key_spec(bits) as i32) == bits,
        key_spec(bits_spec(key) as u32) == key,
{
}

/// Keys are in the order of the floats. Among floats without the sign bit
/// a larger pattern has a larger key, among those with it a smaller one,
/// and every float with the sign bit has a smaller key than every float
/// without.
pub proof fn lemma_key_order(a: u32, b: u32)
    ensures
        a < b < SIGN_BIT ==> key_spec(a) < key_spec(b),
        SIGN_BIT <= a < b ==> key_spec(a) > key_spec(b),
        a >= SIGN_BIT && b < SIGN_BIT ==> key_spec(a) < key_spec(b),
        a != b ==> key_spec(a) != key_spec(b),
{
}

} // verus!
