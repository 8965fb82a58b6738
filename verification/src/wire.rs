//! Numbers and length-prefixed fields in a sequence of bytes, as TLS writes
//! them: big-endian, the length before the content.

use vstd::prelude::*;

verus! {

/// The two bytes of `s` at `at`, as a big-endian number.
pub open spec fn u16_at(s: Seq<u8>, at: int) -> int {
    s[at] * 0x100 + s[at + 1]
}

/// The three bytes of `s` at `at`, as a big-endian number.
pub open spec fn u24_at(s: Seq<u8>, at: int) -> int {
    s[at] * 0x1_0000 + s[at + 1] * 0x100 + s[at + 2]
}

/// The content length that a prefix of `width` bytes (one or two) announces at
/// the head of `s`.
pub open spec fn announced(s: Seq<u8>, width: int) -> int {
    if width == 1 {
        s[0] as int
    } else {
        u16_at(s, 0)
    }
}

/// Whether `s` starts with a whole length-prefixed field: the prefix of `width`
/// bytes and the content that it announces.
pub open spec fn has_field(s: Seq<u8>, width: int) -> bool {
    width <= s.len() && width + announced(s, width) <= s.len()
}

/// The content of the length-prefixed field at the head of `s`.
pub open spec fn field_content(s: Seq<u8>, width: int) -> Seq<u8> {
    s.subrange(width, width + announced(s, width))
}

/// What follows the length-prefixed field at the head of `s`.
pub open spec fn after_field(s: Seq<u8>, width: int) -> Seq<u8> {
    s.subrange(width + announced(s, width), s.len() as int)
}

/// The bytes behind each slice of a list of slices.
pub open spec fn contents(slices: Seq<&[u8]>) -> Seq<Seq<u8>> {
    slices.map_values(|slice: &[u8]| slice@)
}

/// Shifting two bytes together gives their big-endian number.
pub proof fn lemma_u16_from_bytes(high: u8, low: u8)
    ensures
        ((high as u16) << 8) | (low as u16) == high * 0x100 + low,
{
    assert(((high as u16) << 8) | (low as u16) == high * 0x100 + low) by (bit_vector);
}

/// Shifting three bytes together gives their big-endian number.
pub proof fn lemma_u24_from_bytes(high: u8, middle: u8, low: u8)
    ensures
        ((high as usize) << 16) | ((middle as usize) << 8) | (low as usize) == high * 0x1_0000
            + middle * 0x100 + low,
{
    assert(((high as usize) << 16) | ((middle as usize) << 8) | (low as usize) == high * 0x1_0000
        + middle * 0x100 + low) by (bit_vector);
}

} // verus!
