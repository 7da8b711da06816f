//! Numbers as bytes, the most significant first.

use vstd::prelude::*;

verus! {

/// The four bytes of a number.
pub open spec fn be32(n: u32) -> Seq<u8> {
    seq![
        (n / 0x100_0000) as u8,
        (n / 0x1_0000 % 0x100) as u8,
        (n / 0x100 % 0x100) as u8,
        (n % 0x100) as u8,
    ]
}

/// The number that four bytes stand for.
pub open spec fn be32_value(b: Seq<u8>) -> int {
    b[0] * 0x100_0000 + b[1] * 0x1_0000 + b[2] * 0x100 + b[3]
}

/// The eight bytes of a number.
pub open spec fn be64(n: u64) -> Seq<u8> {
    be32((n / 0x1_0000_0000) as u32) + be32((n % 0x1_0000_0000) as u32)
}

/// A signed number as the unsigned one with the same bits.
pub open spec fn twos_complement(n: i64) -> u64 {
    if n < 0 {
        (n + 0x1_0000_0000_0000_0000) as u64
    } else {
        n as u64
    }
}

/// Appends the four bytes of a number.
pub fn push_be32(out: &mut Vec<u8>, n: u32)
    ensures
        final(out)@ == old(out)@ + be32(n),
{
    out.push((n / 0x100_0000) as u8);
    out.push((n / 0x1_0000 % 0x100) as u8);
    out.push((n / 0x100 % 0x100) as u8);
    out.push((n % 0x100) as u8);
    assert(out@ =~= old(out)@ + be32(n));
}

/// Appends the eight bytes of a signed number.
pub fn push_be64(out: &mut Vec<u8>, n: i64)
    ensures
        final(out)@ == old(out)@ + be64(twos_complement(n)),
{
    let bits: u64 = if n < 0 {
        (n as i128 + 0x1_0000_0000_0000_0000) as u64
    } else {
        n as u64
    };
    push_be32(out, (bits / 0x1_0000_0000) as u32);
    push_be32(out, (bits % 0x1_0000_0000) as u32);
    assert(out@ =~= old(out)@ + be64(twos_complement(n)));
}

/// The number that the four bytes from `at` on stand for.
pub fn read_be32(bytes: &Vec<u8>, at: usize) -> (r: u32)
    requires
        at + 4 <= bytes@.len(),
    ensures
        r == be32_value(bytes@.subrange(at as int, at + 4)),
{
    assert(at + 4 <= bytes.len());
    bytes[at] as u32 * 0x100_0000 + bytes[at + 1] as u32 * 0x1_0000 + bytes[at + 2] as u32 * 0x100
        + bytes[at + 3] as u32
}

/// A number that was written is read back.
pub proof fn law_be32_round_trip(n: u32)
    ensures
        be32(n).len() == 4,
        be32_value(be32(n)) == n,
{
}

} // verus!
