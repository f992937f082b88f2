//! Bit order on the wire of the bit-banged buses: bytes leave and arrive
//! most significant bit first.
use vstd::prelude::*;

verus! {

/// Bit `i` (0 = least significant) of `byte`.
pub open spec fn bit_of(byte: u8, i: u8) -> bool {
    (byte >> i) & 1 == 1
}

/// The level to put on the data line for bit `i` of `byte`.
pub fn msb_bit(byte: u8, i: u8) -> (b: bool)
    requires
        i < 8,
    ensures
        b == bit_of(byte, i),
{
    let b = byte & (1u8 << i) != 0;
    assert(b == bit_of(byte, i)) by (bit_vector)
        requires
            i < 8,
            b == (byte & (1u8 << i) != 0),
    ;
    b
}

/// The byte received so far, `val`, with one more bit shifted in at the
/// least significant end.
pub open spec fn shifted_in(val: u8, bit: bool) -> u8 {
    ((2 * val + if bit {
        1int
    } else {
        0int
    }) % 256) as u8
}

/// Shifts one received bit into a byte.
pub fn shift_in(val: u8, bit: bool) -> (r: u8)
    ensures
        r == shifted_in(val, bit),
{
    let mut r = val << 1;
    if bit {
        r = r | 1;
    }
    assert(r == shifted_in(val, bit)) by (bit_vector)
        requires
            r == (if bit {
                (val << 1) | 1
            } else {
                val << 1
            }),
    ;
    r
}

/// The byte assembled from the first `m` bits of `b` sent most significant
/// first, starting from zero.
pub open spec fn received(b: u8, m: nat) -> u8
    decreases m,
{
    if m == 0 {
        0
    } else {
        shifted_in(received(b, (m - 1) as nat), bit_of(b, (8 - m) as u8))
    }
}

/// After `m` bits the receiver holds the top `m` bits of the byte.
proof fn lemma_received_prefix(b: u8, m: nat)
    requires
        m <= 8,
    ensures
        received(b, m) == b >> ((8 - m) as u8),
    decreases m,
{
    if m == 0 {
        assert(b >> 8u8 == 0) by (bit_vector);
    } else {
        lemma_received_prefix(b, (m - 1) as nat);
        let k = (8 - m) as u8;
        let prev = b >> ((k + 1) as u8);
        assert(k < 8);
        assert(b >> k == shifted_in(prev, (b >> k) & 1 == 1)) by (bit_vector)
            requires
                k < 8,
                prev == b >> ((k + 1) as u8),
        ;
    }
}

/// A byte sent most significant bit first and shifted in bit by bit on the
/// other side arrives unchanged.
pub proof fn lemma_byte_round_trip(b: u8)
    ensures
        received(b, 8) == b,
{
    lemma_received_prefix(b, 8);
    assert(b >> 0u8 == b) by (bit_vector);
}

} // verus!
