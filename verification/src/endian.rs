//! Little- and big-endian byte strings, and the byteorder reads the driver uses.

use byteorder::{ByteOrder, LittleEndian};
use vstd::prelude::*;

verus! {

/// The number a byte string denotes when its first byte is the least significant.
pub open spec fn le_value(s: Seq<u8>) -> nat
    decreases s.len(),
{
    if s.len() == 0 {
        0
    } else {
        s[0] as nat + 256 * le_value(s.drop_first())
    }
}

/// The 16-bit number with low byte `lo` and high byte `hi`.
pub open spec fn word16(lo: u8, hi: u8) -> u16 {
    (lo as nat + 256 * (hi as nat)) as u16
}

/// The two bytes of `x`, least significant first.
pub open spec fn le16(x: u16) -> Seq<u8> {
    seq![(x % 256) as u8, (x / 256) as u8]
}

/// The four bytes of `x`, least significant first.
pub open spec fn le32(x: u32) -> Seq<u8> {
    seq![(x % 256) as u8, (x / 0x100 % 256) as u8, (x / 0x1_0000 % 256) as u8, (x / 0x100_0000) as u8]
}

/// `LittleEndian::read_uint` of byteorder: the first `nbytes` bytes of `buf`,
/// least significant first. byteorder asserts `1 <= nbytes <= 8` and
/// `nbytes <= buf.len()`, so those are required here.
#[verifier::external_body]
pub(crate) fn le_read_uint(buf: &[u8], nbytes: usize) -> (r: u64)
    requires
        1 <= nbytes <= 8,
        nbytes <= buf@.len(),
    ensures
        r == le_value(buf@.subrange(0, nbytes as int)),
{
    LittleEndian::read_uint(buf, nbytes)
}

/// `LittleEndian::read_u32` of byteorder: the first four bytes of `buf`, least
/// significant first; it panics on a shorter buffer.
#[verifier::external_body]
pub(crate) fn le_read_u32(buf: &[u8]) -> (r: u32)
    requires
        4 <= buf@.len(),
    ensures
        r == le_value(buf@.subrange(0, 4)),
{
    LittleEndian::read_u32(buf)
}

/// Reads a 16-bit number from its high byte `h` and low byte `l`.
pub fn as_u16(h: u8, l: u8) -> (r: u16)
    ensures
        r == word16(l, h),
{
    let r = ((h as u16) << 8) | (l as u16);
    assert(((h as u16) << 8) | (l as u16) == (l as u16) + 256 * (h as u16)) by (bit_vector);
    r
}

/// The value of a two-byte little-endian string.
pub proof fn lemma_le_value_two(s: Seq<u8>)
    requires
        s.len() == 2,
    ensures
        le_value(s) == s[0] as nat + 256 * (s[1] as nat),
{
    reveal_with_fuel(le_value, 3);
    assert(s.drop_first().drop_first().len() == 0);
}

/// The value of a four-byte little-endian string.
pub proof fn lemma_le_value_four(s: Seq<u8>)
    requires
        s.len() == 4,
    ensures
        le_value(s) == s[0] as nat + 0x100 * (s[1] as nat) + 0x1_0000 * (s[2] as nat) + 0x100_0000 * (s[3] as nat),
{
    reveal_with_fuel(le_value, 5);
    assert(s.drop_first().drop_first().drop_first().drop_first().len() == 0);
}

/// Reading back the two bytes written for `x` gives `x`.
pub proof fn lemma_le16_roundtrip(x: u16)
    ensures
        word16(le16(x)[0], le16(x)[1]) == x,
        le_value(le16(x)) == x,
{
    lemma_le_value_two(le16(x));
}

/// Reading back the four bytes written for `x` gives `x`.
pub proof fn lemma_le32_roundtrip(x: u32)
    ensures
        le_value(le32(x)) == x,
{
    lemma_le_value_four(le32(x));
}

} // verus!
