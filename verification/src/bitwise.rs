use vstd::prelude::*;

verus! {

/// The four bytes of `val`, most significant first.
pub fn get_bytes(val: u32) -> (r: (u8, u8, u8, u8))
    ensures
        r.0 as int == (val as int / 0x100_0000) % 0x100,
        r.1 as int == (val as int / 0x1_0000) % 0x100,
        r.2 as int == (val as int / 0x100) % 0x100,
        r.3 as int == val as int % 0x100,
{
    let b4: u32 = (val >> 24) & 0xff;
    let b3: u32 = (val >> 16) & 0xff;
    let b2: u32 = (val >> 8) & 0xff;
    let b1: u32 = val & 0xff;
    assert((val >> 24) & 0xff == (val / 0x100_0000) % 0x100) by (bit_vector);
    assert((val >> 16) & 0xff == (val / 0x1_0000) % 0x100) by (bit_vector);
    assert((val >> 8) & 0xff == (val / 0x100) % 0x100) by (bit_vector);
    assert(val & 0xff == val % 0x100) by (bit_vector);
    (b4 as u8, b3 as u8, b2 as u8, b1 as u8)
}

/// The number that three bytes denote when read most significant first.
pub open spec fn be24(b0: u8, b1: u8, b2: u8) -> int {
    b0 as int * 0x1_0000 + b1 as int * 0x100 + b2 as int
}

/// Reads three bytes as a big-endian 24-bit number.
pub fn u32_from_bytes(bytes: &[u8; 3]) -> (r: u32)
    ensures
        r as int == be24(bytes[0], bytes[1], bytes[2]),
        r < 0x100_0000,
{
    let b0: u32 = bytes[0] as u32;
    let b1: u32 = bytes[1] as u32;
    let b2: u32 = bytes[2] as u32;
    b0 * 0x1_0000 + b1 * 0x100 + b2
}

/// Splitting a number below 2^24 into bytes and reading the three low bytes
/// back gives the number again, and the top byte is zero.
pub proof fn lemma_bytes_round_trip(val: u32)
    requires
        val < 0x100_0000,
    ensures
        (val as int / 0x100_0000) % 0x100 == 0,
        be24(
            ((val as int / 0x1_0000) % 0x100) as u8,
            ((val as int / 0x100) % 0x100) as u8,
            (val as int % 0x100) as u8,
        ) == val as int,
{
}

} // verus!
