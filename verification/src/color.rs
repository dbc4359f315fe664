//! Colours and their packed-word encoding.
//!
//! A pixel is stored as one 32-bit word whose little-endian bytes are
//! `[pad, r, g, b]`: byte 0 (least significant) is a pad that must be 0 for
//! the word to display correctly, bytes 1..4 are the red, green and blue
//! channels. The same pixel is addressed by drawing code as the four-byte
//! group `[pad, r, g, b]`. `pack` and `unpack` translate between the two
//! representations; the lemmas below prove the translation is a bijection,
//! which is what makes the flat and the grid view of a buffer agree.

use vstd::prelude::*;

verus! {

/// A colour as the grid view addresses it: four bytes `[pad, r, g, b]`.
/// The pad byte should be 0; the red, green and blue channels follow.
pub type Color = [u8; 4];

/// The 32-bit word whose little-endian bytes are `[b0, b1, b2, b3]`.
pub open spec fn packed_bytes(b0: u8, b1: u8, b2: u8, b3: u8) -> u32 {
    (b0 as u32) | ((b1 as u32) << 8) | ((b2 as u32) << 16) | ((b3 as u32) << 24)
}

/// The packed word that encodes the colour `c`: its little-endian bytes are
/// exactly the four bytes of `c`.
pub open spec fn packed_of(c: Color) -> u32 {
    packed_bytes(c@[0], c@[1], c@[2], c@[3])
}

/// Byte `k` (little-endian order, `0 <= k < 4`) of the packed word `w`.
pub open spec fn word_byte(w: u32, k: int) -> u8 {
    if k == 0 {
        (w & 0xff) as u8
    } else if k == 1 {
        ((w >> 8) & 0xff) as u8
    } else if k == 2 {
        ((w >> 16) & 0xff) as u8
    } else {
        ((w >> 24) & 0xff) as u8
    }
}

/// The channel group of the packed word `w`: its four little-endian bytes
/// `[pad, r, g, b]` in order.
pub open spec fn group_of(w: u32) -> Seq<u8> {
    seq![word_byte(w, 0), word_byte(w, 1), word_byte(w, 2), word_byte(w, 3)]
}

/// Builds the four-byte colour `[0, r, g, b]` from bare red, green and blue
/// channels, prepending the zero pad byte.
pub fn rgb(r: u8, g: u8, b: u8) -> (c: Color)
    ensures
        c@ == seq![0u8, r, g, b],
        c@ == group_of(packed_of(c)),
{
    let c: Color = [0, r, g, b];
    proof {
        assert(c@ =~= seq![0u8, r, g, b]);
        lemma_group_of_packed(c);
    }
    c
}

/// Packs a colour into the 32-bit word the flat view stores.
pub fn pack(c: Color) -> (w: u32)
    ensures
        w == packed_of(c),
{
    (c[0] as u32) | ((c[1] as u32) << 8) | ((c[2] as u32) << 16) | ((c[3] as u32) << 24)
}

/// Unpacks a 32-bit word into the four-byte channel group it encodes.
pub fn unpack(w: u32) -> (c: Color)
    ensures
        c@ == group_of(w),
        packed_of(c) == w,
{
    let c: Color = [
        (w & 0xff) as u8,
        ((w >> 8) & 0xff) as u8,
        ((w >> 16) & 0xff) as u8,
        ((w >> 24) & 0xff) as u8,
    ];
    proof {
        assert(c@ =~= group_of(w));
        lemma_packed_of_group(w);
    }
    c
}

/// Decoding a packed colour gives the colour's own bytes back: the grid view
/// reads exactly what was written through it, pad byte included.
pub proof fn lemma_group_of_packed(c: Color)
    ensures
        group_of(packed_of(c)) == c@,
{
    let b0 = c@[0];
    let b1 = c@[1];
    let b2 = c@[2];
    let b3 = c@[3];
    let w = packed_bytes(b0, b1, b2, b3);
    assert(((b0 as u32) | ((b1 as u32) << 8) | ((b2 as u32) << 16) | ((b3 as u32) << 24)) & 0xff
        == b0 as u32) by (bit_vector);
    assert((((b0 as u32) | ((b1 as u32) << 8) | ((b2 as u32) << 16) | ((b3 as u32) << 24)) >> 8)
        & 0xff == b1 as u32) by (bit_vector);
    assert((((b0 as u32) | ((b1 as u32) << 8) | ((b2 as u32) << 16) | ((b3 as u32) << 24)) >> 16)
        & 0xff == b2 as u32) by (bit_vector);
    assert((((b0 as u32) | ((b1 as u32) << 8) | ((b2 as u32) << 16) | ((b3 as u32) << 24)) >> 24)
        & 0xff == b3 as u32) by (bit_vector);
    assert(word_byte(w, 0) == b0);
    assert(word_byte(w, 1) == b1);
    assert(word_byte(w, 2) == b2);
    assert(word_byte(w, 3) == b3);
    assert(group_of(w) =~= c@);
}

/// Re-packing the four bytes of a word gives the word back: the flat view
/// reads exactly what was written through the grid view.
pub proof fn lemma_packed_of_group(w: u32)
    ensures
        packed_bytes(word_byte(w, 0), word_byte(w, 1), word_byte(w, 2), word_byte(w, 3)) == w,
{
    assert((((w & 0xff) as u8) as u32) | (((((w >> 8) & 0xff) as u8) as u32) << 8)
        | (((((w >> 16) & 0xff) as u8) as u32) << 16) | (((((w >> 24) & 0xff) as u8) as u32) << 24)
        == w) by (bit_vector);
}

} // verus!
