//! Byte images of fixed-width integers, zig-zag varints and hexadecimal bytes.
use vstd::prelude::*;
use vstd::string::*;

verus! {

/// The two bytes of `u`, most significant first.
pub open spec fn be16(u: u16) -> Seq<u8> {
    seq![(u >> 8u16) as u8, u as u8]
}

/// The two bytes of `u`, least significant first.
pub open spec fn le16(u: u16) -> Seq<u8> {
    seq![u as u8, (u >> 8u16) as u8]
}

/// The four bytes of `u`, most significant first.
pub open spec fn be32(u: u32) -> Seq<u8> {
    seq![(u >> 24u32) as u8, (u >> 16u32) as u8, (u >> 8u32) as u8, u as u8]
}

/// The four bytes of `u`, least significant first.
pub open spec fn le32(u: u32) -> Seq<u8> {
    seq![u as u8, (u >> 8u32) as u8, (u >> 16u32) as u8, (u >> 24u32) as u8]
}

/// The eight bytes of `u`, most significant first.
pub open spec fn be64(u: u64) -> Seq<u8> {
    seq![
        (u >> 56u64) as u8, (u >> 48u64) as u8, (u >> 40u64) as u8, (u >> 32u64) as u8,
        (u >> 24u64) as u8, (u >> 16u64) as u8, (u >> 8u64) as u8, u as u8,
    ]
}

/// The eight bytes of `u`, least significant first.
pub open spec fn le64(u: u64) -> Seq<u8> {
    seq![
        u as u8, (u >> 8u64) as u8, (u >> 16u64) as u8, (u >> 24u64) as u8,
        (u >> 32u64) as u8, (u >> 40u64) as u8, (u >> 48u64) as u8, (u >> 56u64) as u8,
    ]
}

/// The value of two bytes, most significant first.
pub open spec fn from_be16(b: Seq<u8>) -> u16 {
    ((b[0] as u16) << 8u16) | (b[1] as u16)
}

/// The value of two bytes, least significant first.
pub open spec fn from_le16(b: Seq<u8>) -> u16 {
    ((b[1] as u16) << 8u16) | (b[0] as u16)
}

/// The value of four bytes, most significant first.
pub open spec fn from_be32(b: Seq<u8>) -> u32 {
    ((b[0] as u32) << 24u32) | ((b[1] as u32) << 16u32) | ((b[2] as u32) << 8u32) | (b[3] as u32)
}

/// The value of four bytes, least significant first.
pub open spec fn from_le32(b: Seq<u8>) -> u32 {
    ((b[3] as u32) << 24u32) | ((b[2] as u32) << 16u32) | ((b[1] as u32) << 8u32) | (b[0] as u32)
}

/// The value of eight bytes, most significant first.
pub open spec fn from_be64(b: Seq<u8>) -> u64 {
    ((b[0] as u64) << 56u64) | ((b[1] as u64) << 48u64) | ((b[2] as u64) << 40u64) | ((b[3] as u64)
        << 32u64) | ((b[4] as u64) << 24u64) | ((b[5] as u64) << 16u64) | ((b[6] as u64) << 8u64)
        | (b[7] as u64)
}

/// The value of eight bytes, least significant first.
pub open spec fn from_le64(b: Seq<u8>) -> u64 {
    ((b[7] as u64) << 56u64) | ((b[6] as u64) << 48u64) | ((b[5] as u64) << 40u64) | ((b[4] as u64)
        << 32u64) | ((b[3] as u64) << 24u64) | ((b[2] as u64) << 16u64) | ((b[1] as u64) << 8u64)
        | (b[0] as u64)
}

/// The varint bytes of `u` from its 7-bit group `k` on: each group low first, with the high
/// bit set on every byte but the last.
pub open spec fn varint_from(u: u64, k: nat) -> Seq<u8>
    decreases 10 - k,
{
    if k >= 10 || (u >> (7 * k) as u64) < 0x80 {
        seq![(u >> (7 * k) as u64) as u8]
    } else {
        seq![((u >> (7 * k) as u64) as u8) | 0x80u8].add(varint_from(u, k + 1))
    }
}

/// The unsigned varint image of `u`.
pub open spec fn varint(u: u64) -> Seq<u8> {
    varint_from(u, 0)
}

/// The 7-bit groups of the first `n` bytes of `b`, the first byte lowest, or-ed together.
pub open spec fn varint_acc(b: Seq<u8>, n: nat) -> u64
    decreases n,
{
    if n == 0 {
        0
    } else {
        varint_acc(b, (n - 1) as nat) | (((b[n - 1] & 0x7fu8) as u64) << (7 * (n - 1)) as u64)
    }
}

/// The varint bytes from group `k` on, where the group there is not the last one.
pub proof fn lemma_varint_more(u: u64, k: nat)
    requires
        k <= 9,
        (u >> (7 * k) as u64) >= 0x80,
    ensures
        k < 9,
        varint_from(u, k) == seq![((u >> (7 * k) as u64) as u8) | 0x80u8].add(varint_from(u, k + 1)),
        (u >> (7 * k) as u64) >> 7u64 == u >> (7 * (k + 1)) as u64,
        (u >> (7 * k) as u64) >> 7u64 < (u >> (7 * k) as u64),
{
    assert((u >> 63u64) < 0x80u64) by (bit_vector);
    let s = (7 * k) as u64;
    let c = u >> s;
    assert(c >= 0x80 ==> c >> 7u64 < c) by (bit_vector);
    if k < 9 {
        assert(s <= 56 ==> (u >> s) >> 7u64 == u >> (s + 7) as u64) by (bit_vector);
        assert((7 * (k + 1)) as u64 == (s + 7) as u64);
    }
}

/// The varint bytes from group `k` on, where the group there is the last one.
pub proof fn lemma_varint_last(u: u64, k: nat)
    requires
        (u >> (7 * k) as u64) < 0x80,
    ensures
        varint_from(u, k) == seq![(u >> (7 * k) as u64) as u8],
{
}

/// Or-ing a 7-bit group at a shift below 32 commutes with truncation to 32 bits.
pub proof fn lemma_acc_truncate(a: u64, g: u8, s: u64)
    requires
        s <= 28,
    ensures
        ((a | (((g & 0x7fu8) as u64) << s)) as u32) == ((a as u32) | (((g & 0x7fu8) as u32) << (
        s as u32))),
{
    assert(s <= 28 ==> ((a | (((g & 0x7fu8) as u64) << s)) as u32) == ((a as u32) | (((g
        & 0x7fu8) as u32) << (s as u32)))) by (bit_vector);
}

/// Zig-zag form of a 32-bit integer: 0, -1, 1, -2, ... become 0, 1, 2, 3, ...
pub open spec fn zigzag32(x: i32) -> u32 {
    if x < 0 {
        !((x as u32) << 1u32)
    } else {
        (x as u32) << 1u32
    }
}

/// The 32-bit integer whose zig-zag form is `v`.
pub open spec fn unzigzag32(v: u32) -> i32 {
    if v & 1 == 0 {
        (v >> 1u32) as i32
    } else {
        !((v >> 1u32) as i32)
    }
}

/// Zig-zag form of a 64-bit integer.
pub open spec fn zigzag64(x: i64) -> u64 {
    if x < 0 {
        !((x as u64) << 1u64)
    } else {
        (x as u64) << 1u64
    }
}

/// The 64-bit integer whose zig-zag form is `v`.
pub open spec fn unzigzag64(v: u64) -> i64 {
    if v & 1 == 0 {
        (v >> 1u64) as i64
    } else {
        !((v >> 1u64) as i64)
    }
}

/// `b` written as `0x` and two lowercase hexadecimal digits.
pub open spec fn hex_text(b: u8) -> Seq<char> {
    seq!['0', 'x', "0123456789abcdef"@[b as int / 16], "0123456789abcdef"@[b as int % 16]]
}

/// The text of [`hex_text`].
pub fn hex_of(b: u8) -> (s: String)
    ensures
        s@ == hex_text(b),
{
    let digits = "0123456789abcdef";
    proof {
        reveal_strlit("0123456789abcdef");
        reveal_strlit("0x");
    }
    let hi = (b / 16) as usize;
    let lo = (b % 16) as usize;
    let mut s = String::from_str("0x");
    s.append(digits.substring_char(hi, hi + 1));
    s.append(digits.substring_char(lo, lo + 1));
    proof {
        assert(s@ =~= hex_text(b));
    }
    s
}

} // verus!
