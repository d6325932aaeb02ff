//! The three standard NBT encodings: [BigEndian], [LittleEndian] and [NetworkLittleEndian].
use crate::err::{ErrorPath, ReadError};
use crate::reader::{
    io_error, lemma_prefixed_text, lemma_root_path, parse_text, prefixed_text, read_bytes,
    read_outcome, read_text, then_at, utf8_string, Fault, Parsed, Reader, Res as ReadRes,
    MAX_STRING_LEN,
};
use crate::source::ByteSource;
use crate::wire::{
    be16, be32, be64, from_be16, from_be32, from_be64, from_le16, from_le32, from_le64,
    lemma_acc_truncate, lemma_varint_last, lemma_varint_more, le16, le32, le64, unzigzag32,
    unzigzag64, varint, varint_acc, varint_from, zigzag32, zigzag64,
};
use crate::writer::{length_error, write_bytes, Res as WriteRes, Writer};
use vstd::prelude::*;
use vstd::string::*;

verus! {

/// An NBT encoding that encodes all basic types using big endian encoding.
///
/// This format is most commonly used in Minecraft: Java Edition.
#[derive(Debug, Default, Clone, Copy)]
pub struct BigEndian;

/// An NBT encoding that encodes all basic types using little endian encoding.
///
/// This format is most commonly used in Minecraft: Bedrock Edition, and more specifically in
/// Bedrock Edition world saves. It is not to be confused with [NetworkLittleEndian].
#[derive(Debug, Default, Clone, Copy)]
pub struct LittleEndian;

/// An NBT encoding that encodes 32- and 64-bit integers as zig-zag varints and string lengths as
/// unsigned varints, while using fixed-size little endian encoding for all other basic types.
///
/// This format is most commonly used for NBT sent in Minecraft: Bedrock Edition's protocol.
#[derive(Debug, Default, Clone, Copy)]
pub struct NetworkLittleEndian;

/// `n` bytes that make the value `v`, where that many are left.
pub open spec fn parse_fixed<T>(b: Seq<u8>, n: nat, v: T) -> Parsed<T> {
    if b.len() < n {
        Parsed::Failed(Fault::Eof, seq![])
    } else {
        Parsed::Done(v, n)
    }
}

/// Reads exactly `n` bytes.
fn read_fixed(src: &mut ByteSource, n: usize) -> (r: ReadRes<Vec<u8>>)
    ensures
        old(src).rest().len() >= n ==> r is Ok && r->Ok_0@ == old(src).rest().take(n as int)
            && final(src).rest() == old(src).rest().skip(n as int),
        old(src).rest().len() < n ==> r is Err && crate::reader::fault_matches(
            r->Err_0,
            Fault::Eof,
            seq![],
        ),
{
    match src.read_exact(n) {
        Ok(v) => Ok(v),
        Err(e) => {
            proof {
                lemma_root_path();
            }
            Err(io_error(e))
        },
    }
}

fn put_be16(sink: &mut Vec<u8>, u: u16)
    ensures
        final(sink)@ == old(sink)@.add(be16(u)),
{
    sink.push((u >> 8) as u8);
    sink.push(u as u8);
    proof {
        assert(sink@ =~= old(sink)@.add(be16(u)));
    }
}

fn put_le16(sink: &mut Vec<u8>, u: u16)
    ensures
        final(sink)@ == old(sink)@.add(le16(u)),
{
    sink.push(u as u8);
    sink.push((u >> 8) as u8);
    proof {
        assert(sink@ =~= old(sink)@.add(le16(u)));
    }
}

fn put_be32(sink: &mut Vec<u8>, u: u32)
    ensures
        final(sink)@ == old(sink)@.add(be32(u)),
{
    sink.push((u >> 24) as u8);
    sink.push((u >> 16) as u8);
    sink.push((u >> 8) as u8);
    sink.push(u as u8);
    proof {
        assert(sink@ =~= old(sink)@.add(be32(u)));
    }
}

fn put_le32(sink: &mut Vec<u8>, u: u32)
    ensures
        final(sink)@ == old(sink)@.add(le32(u)),
{
    sink.push(u as u8);
    sink.push((u >> 8) as u8);
    sink.push((u >> 16) as u8);
    sink.push((u >> 24) as u8);
    proof {
        assert(sink@ =~= old(sink)@.add(le32(u)));
    }
}

fn put_be64(sink: &mut Vec<u8>, u: u64)
    ensures
        final(sink)@ == old(sink)@.add(be64(u)),
{
    sink.push((u >> 56) as u8);
    sink.push((u >> 48) as u8);
    sink.push((u >> 40) as u8);
    sink.push((u >> 32) as u8);
    sink.push((u >> 24) as u8);
    sink.push((u >> 16) as u8);
    sink.push((u >> 8) as u8);
    sink.push(u as u8);
    proof {
        assert(sink@ =~= old(sink)@.add(be64(u)));
    }
}

fn put_le64(sink: &mut Vec<u8>, u: u64)
    ensures
        final(sink)@ == old(sink)@.add(le64(u)),
{
    sink.push(u as u8);
    sink.push((u >> 8) as u8);
    sink.push((u >> 16) as u8);
    sink.push((u >> 24) as u8);
    sink.push((u >> 32) as u8);
    sink.push((u >> 40) as u8);
    sink.push((u >> 48) as u8);
    sink.push((u >> 56) as u8);
    proof {
        assert(sink@ =~= old(sink)@.add(le64(u)));
    }
}

fn get_be16(b: &Vec<u8>) -> (u: u16)
    requires
        b@.len() == 2,
    ensures
        u == from_be16(b@),
{
    ((b[0] as u16) << 8) | (b[1] as u16)
}

fn get_le16(b: &Vec<u8>) -> (u: u16)
    requires
        b@.len() == 2,
    ensures
        u == from_le16(b@),
{
    ((b[1] as u16) << 8) | (b[0] as u16)
}

fn get_be32(b: &Vec<u8>) -> (u: u32)
    requires
        b@.len() == 4,
    ensures
        u == from_be32(b@),
{
    ((b[0] as u32) << 24) | ((b[1] as u32) << 16) | ((b[2] as u32) << 8) | (b[3] as u32)
}

fn get_le32(b: &Vec<u8>) -> (u: u32)
    requires
        b@.len() == 4,
    ensures
        u == from_le32(b@),
{
    ((b[3] as u32) << 24) | ((b[2] as u32) << 16) | ((b[1] as u32) << 8) | (b[0] as u32)
}

fn get_be64(b: &Vec<u8>) -> (u: u64)
    requires
        b@.len() == 8,
    ensures
        u == from_be64(b@),
{
    ((b[0] as u64) << 56) | ((b[1] as u64) << 48) | ((b[2] as u64) << 40) | ((b[3] as u64) << 32)
        | ((b[4] as u64) << 24) | ((b[5] as u64) << 16) | ((b[6] as u64) << 8) | (b[7] as u64)
}

fn get_le64(b: &Vec<u8>) -> (u: u64)
    requires
        b@.len() == 8,
    ensures
        u == from_le64(b@),
{
    ((b[7] as u64) << 56) | ((b[6] as u64) << 48) | ((b[5] as u64) << 40) | ((b[4] as u64) << 32)
        | ((b[3] as u64) << 24) | ((b[2] as u64) << 16) | ((b[1] as u64) << 8) | (b[0] as u64)
}

/// The unsigned varint at the front of `b` from its byte `k` on, of at most `max` bytes in
/// all: its accumulated groups and its length, or where it fails.
pub open spec fn varint_scan(b: Seq<u8>, k: nat, max: nat) -> Parsed<u64>
    decreases max - k,
{
    if k >= max {
        Parsed::Failed(Fault::Overflow, seq![])
    } else if k >= b.len() {
        Parsed::Failed(Fault::Eof, seq![])
    } else if b[k as int] & 0x80u8 == 0 {
        Parsed::Done(varint_acc(b, k + 1), k + 1)
    } else {
        varint_scan(b, k + 1, max)
    }
}

/// A varint fails only by running out of bytes or past its integer.
pub proof fn lemma_varint_faults(b: Seq<u8>, k: nat, max: nat)
    ensures
        varint_scan(b, k, max) matches Parsed::Failed(f, _) ==> f is Eof || f is Overflow,
    decreases max - k,
{
    if k < max && k < b.len() && b[k as int] & 0x80u8 != 0 {
        lemma_varint_faults(b, k + 1, max);
    }
}

/// Bytes that all carry the high bit up to the limit make a varint that overflows.
proof fn lemma_scan_overflows(b: Seq<u8>, k: nat, max: nat)
    requires
        k <= max <= b.len(),
        forall|i: int| k <= i < max ==> b[i] & 0x80u8 != 0,
    ensures
        varint_scan(b, k, max) == Parsed::<u64>::Failed(Fault::Overflow, seq![]),
    decreases max - k,
{
    if k < max {
        lemma_scan_overflows(b, k + 1, max);
    }
}

/// Five bytes that all carry the high bit overflow a 32-bit varint and a string's length,
/// whatever follows them.
pub proof fn lemma_varint32_overflow(b: Seq<u8>)
    requires
        b.len() >= 5,
        forall|i: int| 0 <= i < 5 ==> b[i] & 0x80u8 != 0,
    ensures
        NetworkLittleEndian::parse_i32(b) == Parsed::<i32>::Failed(Fault::Overflow, seq![]),
        NetworkLittleEndian::parse_string(b) == Parsed::<Seq<char>>::Failed(Fault::Overflow, seq![]),
{
    lemma_scan_overflows(b, 0, 5);
}

/// Ten bytes that all carry the high bit overflow a 64-bit varint, whatever follows them.
pub proof fn lemma_varint64_overflow(b: Seq<u8>)
    requires
        b.len() >= 10,
        forall|i: int| 0 <= i < 10 ==> b[i] & 0x80u8 != 0,
    ensures
        NetworkLittleEndian::parse_i64(b) == Parsed::<i64>::Failed(Fault::Overflow, seq![]),
{
    lemma_scan_overflows(b, 0, 10);
}

/// An unsigned varint of at most five bytes, accumulated into 32 bits.
pub open spec fn varint_u32(b: Seq<u8>) -> Parsed<u32> {
    match varint_scan(b, 0, 5) {
        Parsed::Done(v, n) => Parsed::Done(v as u32, n),
        Parsed::Failed(f, at) => Parsed::Failed(f, at),
    }
}

/// The message of a varint that runs past its integer.
fn overflow_error() -> (e: ErrorPath<ReadError>)
    ensures
        crate::reader::fault_matches(e, Fault::Overflow, seq![]),
{
    proof {
        lemma_root_path();
    }
    ErrorPath::new(ReadError::Custom(String::from_str("varint overflows integer")))
}

impl Reader for BigEndian {
    open spec fn parse_i16(b: Seq<u8>) -> Parsed<i16> {
        parse_fixed(b, 2, from_be16(b) as i16)
    }

    open spec fn parse_i32(b: Seq<u8>) -> Parsed<i32> {
        parse_fixed(b, 4, from_be32(b) as i32)
    }

    open spec fn parse_i64(b: Seq<u8>) -> Parsed<i64> {
        parse_fixed(b, 8, from_be64(b) as i64)
    }

    open spec fn parse_f32_bits(b: Seq<u8>) -> Parsed<u32> {
        parse_fixed(b, 4, from_be32(b))
    }

    open spec fn parse_f64_bits(b: Seq<u8>) -> Parsed<u64> {
        parse_fixed(b, 8, from_be64(b))
    }

    open spec fn parse_string(b: Seq<u8>) -> Parsed<Seq<char>> {
        prefixed_text(Self::parse_i16(b), b)
    }

    fn i16(&mut self, src: &mut ByteSource) -> (r: ReadRes<i16>) {
        let b = read_fixed(src, 2)?;
        Ok(get_be16(&b) as i16)
    }

    fn i32(&mut self, src: &mut ByteSource) -> (r: ReadRes<i32>) {
        let b = read_fixed(src, 4)?;
        Ok(get_be32(&b) as i32)
    }

    fn i64(&mut self, src: &mut ByteSource) -> (r: ReadRes<i64>) {
        let b = read_fixed(src, 8)?;
        Ok(get_be64(&b) as i64)
    }

    fn f32_bits(&mut self, src: &mut ByteSource) -> (r: ReadRes<u32>) {
        let b = read_fixed(src, 4)?;
        Ok(get_be32(&b))
    }

    fn f64_bits(&mut self, src: &mut ByteSource) -> (r: ReadRes<u64>) {
        let b = read_fixed(src, 8)?;
        Ok(get_be64(&b))
    }

    fn string(&mut self, src: &mut ByteSource) -> (r: ReadRes<String>) {
        let ghost b = src.rest();
        let len = self.i16(src)?;
        let ghost mid = src.rest();
        let r = read_text(src, len);
        proof {
            lemma_prefixed_text(Self::parse_i16(b), b, mid, r, src.rest());
        }
        r
    }
}

impl Writer for BigEndian {
    open spec fn i16_image(x: i16) -> Seq<u8> {
        be16(x as u16)
    }

    open spec fn i32_image(x: i32) -> Seq<u8> {
        be32(x as u32)
    }

    open spec fn i64_image(x: i64) -> Seq<u8> {
        be64(x as u64)
    }

    open spec fn f32_bits_image(x: u32) -> Seq<u8> {
        be32(x)
    }

    open spec fn f64_bits_image(x: u64) -> Seq<u8> {
        be64(x)
    }

    open spec fn string_image(bytes: Seq<u8>) -> Seq<u8> {
        Self::i16_image(bytes.len() as i16).add(bytes)
    }

    fn write_i16(&mut self, sink: &mut Vec<u8>, x: i16) -> (r: WriteRes) {
        put_be16(sink, x as u16);
        Ok(())
    }

    fn write_i32(&mut self, sink: &mut Vec<u8>, x: i32) -> (r: WriteRes) {
        put_be32(sink, x as u32);
        Ok(())
    }

    fn write_i64(&mut self, sink: &mut Vec<u8>, x: i64) -> (r: WriteRes) {
        put_be64(sink, x as u64);
        Ok(())
    }

    fn write_f32_bits(&mut self, sink: &mut Vec<u8>, x: u32) -> (r: WriteRes) {
        put_be32(sink, x);
        Ok(())
    }

    fn write_f64_bits(&mut self, sink: &mut Vec<u8>, x: u64) -> (r: WriteRes) {
        put_be64(sink, x);
        Ok(())
    }

    fn write_string(&mut self, sink: &mut Vec<u8>, x: &str) -> (r: WriteRes) {
        let bytes = x.as_bytes();
        if bytes.len() > MAX_STRING_LEN {
            return length_error(MAX_STRING_LEN, bytes.len());
        }
        self.write_i16(sink, bytes.len() as i16)?;
        write_bytes(sink, bytes);
        proof {
            assert(sink@ =~= old(sink)@.add(Self::string_image(x.spec_bytes())));
        }
        Ok(())
    }
}

impl Reader for LittleEndian {
    open spec fn parse_i16(b: Seq<u8>) -> Parsed<i16> {
        parse_fixed(b, 2, from_le16(b) as i16)
    }

    open spec fn parse_i32(b: Seq<u8>) -> Parsed<i32> {
        parse_fixed(b, 4, from_le32(b) as i32)
    }

    open spec fn parse_i64(b: Seq<u8>) -> Parsed<i64> {
        parse_fixed(b, 8, from_le64(b) as i64)
    }

    open spec fn parse_f32_bits(b: Seq<u8>) -> Parsed<u32> {
        parse_fixed(b, 4, from_le32(b))
    }

    open spec fn parse_f64_bits(b: Seq<u8>) -> Parsed<u64> {
        parse_fixed(b, 8, from_le64(b))
    }

    open spec fn parse_string(b: Seq<u8>) -> Parsed<Seq<char>> {
        prefixed_text(Self::parse_i16(b), b)
    }

    fn i16(&mut self, src: &mut ByteSource) -> (r: ReadRes<i16>) {
        let b = read_fixed(src, 2)?;
        Ok(get_le16(&b) as i16)
    }

    fn i32(&mut self, src: &mut ByteSource) -> (r: ReadRes<i32>) {
        let b = read_fixed(src, 4)?;
        Ok(get_le32(&b) as i32)
    }

    fn i64(&mut self, src: &mut ByteSource) -> (r: ReadRes<i64>) {
        let b = read_fixed(src, 8)?;
        Ok(get_le64(&b) as i64)
    }

    fn f32_bits(&mut self, src: &mut ByteSource) -> (r: ReadRes<u32>) {
        let b = read_fixed(src, 4)?;
        Ok(get_le32(&b))
    }

    fn f64_bits(&mut self, src: &mut ByteSource) -> (r: ReadRes<u64>) {
        let b = read_fixed(src, 8)?;
        Ok(get_le64(&b))
    }

    fn string(&mut self, src: &mut ByteSource) -> (r: ReadRes<String>) {
        let ghost b = src.rest();
        let len = self.i16(src)?;
        let ghost mid = src.rest();
        let r = read_text(src, len);
        proof {
            lemma_prefixed_text(Self::parse_i16(b), b, mid, r, src.rest());
        }
        r
    }
}

impl Writer for LittleEndian {
    open spec fn i16_image(x: i16) -> Seq<u8> {
        le16(x as u16)
    }

    open spec fn i32_image(x: i32) -> Seq<u8> {
        le32(x as u32)
    }

    open spec fn i64_image(x: i64) -> Seq<u8> {
        le64(x as u64)
    }

    open spec fn f32_bits_image(x: u32) -> Seq<u8> {
        le32(x)
    }

    open spec fn f64_bits_image(x: u64) -> Seq<u8> {
        le64(x)
    }

    open spec fn string_image(bytes: Seq<u8>) -> Seq<u8> {
        Self::i16_image(bytes.len() as i16).add(bytes)
    }

    fn write_i16(&mut self, sink: &mut Vec<u8>, x: i16) -> (r: WriteRes) {
        put_le16(sink, x as u16);
        Ok(())
    }

    fn write_i32(&mut self, sink: &mut Vec<u8>, x: i32) -> (r: WriteRes) {
        put_le32(sink, x as u32);
        Ok(())
    }

    fn write_i64(&mut self, sink: &mut Vec<u8>, x: i64) -> (r: WriteRes) {
        put_le64(sink, x as u64);
        Ok(())
    }

    fn write_f32_bits(&mut self, sink: &mut Vec<u8>, x: u32) -> (r: WriteRes) {
        put_le32(sink, x);
        Ok(())
    }

    fn write_f64_bits(&mut self, sink: &mut Vec<u8>, x: u64) -> (r: WriteRes) {
        put_le64(sink, x);
        Ok(())
    }

    fn write_string(&mut self, sink: &mut Vec<u8>, x: &str) -> (r: WriteRes) {
        let bytes = x.as_bytes();
        if bytes.len() > MAX_STRING_LEN {
            return length_error(MAX_STRING_LEN, bytes.len());
        }
        self.write_i16(sink, bytes.len() as i16)?;
        write_bytes(sink, bytes);
        proof {
            assert(sink@ =~= old(sink)@.add(Self::string_image(x.spec_bytes())));
        }
        Ok(())
    }
}

impl NetworkLittleEndian {
    /// Reads an unsigned varint of at most five bytes.
    fn varint32(&mut self, src: &mut ByteSource) -> (r: ReadRes<u32>)
        ensures
            read_outcome(r, old(src).rest(), final(src).rest(), varint_u32(old(src).rest())),
    {
        let ghost b = src.rest();
        let mut v: u32 = 0;
        let mut k: u32 = 0;
        while k < 5
            invariant
                b == old(src).rest(),
                k <= 5,
                k <= b.len(),
                src.rest() == b.skip(k as int),
                v == varint_acc(b, k as nat) as u32,
                varint_scan(b, 0, 5) == varint_scan(b, k as nat, 5),
            decreases 5 - k,
        {
            let byte = self.u8(src)?;
            proof {
                assert(b[k as int] == byte);
                lemma_acc_truncate(varint_acc(b, k as nat), byte, (7 * k) as u64);
            }
            v = v | (((byte & 0x7f) as u32) << (7 * k));
            k = k + 1;
            proof {
                assert(src.rest() =~= b.skip(k as int));
            }
            if byte & 0x80 == 0 {
                return Ok(v);
            }
        }
        Err(overflow_error())
    }

    /// Writes `u` as an unsigned varint.
    fn write_varint(&mut self, sink: &mut Vec<u8>, u: u64) -> (r: WriteRes)
        ensures
            r is Ok,
            final(sink)@ == old(sink)@.add(varint(u)),
    {
        let mut cur = u;
        let ghost mut k: nat = 0;
        proof {
            assert(u >> 0u64 == u) by (bit_vector);
        }
        while cur >= 0x80
            invariant
                k <= 9,
                cur == u >> (7 * k) as u64,
                old(sink)@.add(varint(u)) == sink@.add(varint_from(u, k)),
            decreases cur,
        {
            proof {
                lemma_varint_more(u, k);
            }
            let ghost before = sink@;
            self.write_u8(sink, (cur as u8) | 0x80)?;
            cur = cur >> 7;
            proof {
                assert(before.add(varint_from(u, k)) =~= sink@.add(varint_from(u, k + 1)));
                k = k + 1;
            }
        }
        proof {
            lemma_varint_last(u, k);
        }
        let ghost before = sink@;
        self.write_u8(sink, cur as u8)?;
        proof {
            assert(before.add(varint_from(u, k)) =~= sink@);
        }
        Ok(())
    }
}

impl Reader for NetworkLittleEndian {
    open spec fn parse_i16(b: Seq<u8>) -> Parsed<i16> {
        parse_fixed(b, 2, from_le16(b) as i16)
    }

    open spec fn parse_i32(b: Seq<u8>) -> Parsed<i32> {
        match varint_u32(b) {
            Parsed::Done(v, n) => Parsed::Done(unzigzag32(v), n),
            Parsed::Failed(f, at) => Parsed::Failed(f, at),
        }
    }

    open spec fn parse_i64(b: Seq<u8>) -> Parsed<i64> {
        match varint_scan(b, 0, 10) {
            Parsed::Done(v, n) => Parsed::Done(unzigzag64(v), n),
            Parsed::Failed(f, at) => Parsed::Failed(f, at),
        }
    }

    open spec fn parse_f32_bits(b: Seq<u8>) -> Parsed<u32> {
        parse_fixed(b, 4, from_le32(b))
    }

    open spec fn parse_f64_bits(b: Seq<u8>) -> Parsed<u64> {
        parse_fixed(b, 8, from_le64(b))
    }

    open spec fn parse_string(b: Seq<u8>) -> Parsed<Seq<char>> {
        match varint_u32(b) {
            Parsed::Done(l, k) => then_at(k, parse_text(b.skip(k as int), l as nat)),
            Parsed::Failed(f, at) => Parsed::Failed(f, at),
        }
    }

    fn i16(&mut self, src: &mut ByteSource) -> (r: ReadRes<i16>) {
        let b = read_fixed(src, 2)?;
        Ok(get_le16(&b) as i16)
    }

    fn i32(&mut self, src: &mut ByteSource) -> (r: ReadRes<i32>) {
        let v = self.varint32(src)?;
        let x = (v >> 1) as i32;
        Ok(
            if v & 1 != 0 {
                !x
            } else {
                x
            },
        )
    }

    fn i64(&mut self, src: &mut ByteSource) -> (r: ReadRes<i64>) {
        let ghost b = src.rest();
        let mut v: u64 = 0;
        let mut k: u64 = 0;
        while k < 10
            invariant
                b == old(src).rest(),
                k <= 10,
                k <= b.len(),
                src.rest() == b.skip(k as int),
                v == varint_acc(b, k as nat),
                varint_scan(b, 0, 10) == varint_scan(b, k as nat, 10),
            decreases 10 - k,
        {
            let byte = self.u8(src)?;
            proof {
                assert(b[k as int] == byte);
            }
            v = v | (((byte & 0x7f) as u64) << (7 * k));
            k = k + 1;
            proof {
                assert(src.rest() =~= b.skip(k as int));
            }
            if byte & 0x80 == 0 {
                let x = (v >> 1) as i64;
                return Ok(
                    if v & 1 != 0 {
                        !x
                    } else {
                        x
                    },
                );
            }
        }
        Err(overflow_error())
    }

    fn f32_bits(&mut self, src: &mut ByteSource) -> (r: ReadRes<u32>) {
        let b = read_fixed(src, 4)?;
        Ok(get_le32(&b))
    }

    fn f64_bits(&mut self, src: &mut ByteSource) -> (r: ReadRes<u64>) {
        let b = read_fixed(src, 8)?;
        Ok(get_le64(&b))
    }

    fn string(&mut self, src: &mut ByteSource) -> (r: ReadRes<String>) {
        let ghost b = src.rest();
        proof {
            lemma_varint_faults(b, 0, 5);
        }
        let len = self.varint32(src)?;
        let ghost k = (b.len() - src.rest().len()) as nat;
        let ghost mid = src.rest();
        let bytes = read_bytes(src, len as usize)?;
        proof {
            assert(b.skip(k as int).skip(len as int) =~= b.skip(k + len));
        }
        match utf8_string(bytes) {
            Ok(s) => Ok(s),
            Err(e) => {
                proof {
                    lemma_root_path();
                }
                Err(ErrorPath::new(ReadError::InvalidUtf8(e)))
            },
        }
    }
}

impl Writer for NetworkLittleEndian {
    open spec fn i16_image(x: i16) -> Seq<u8> {
        le16(x as u16)
    }

    open spec fn i32_image(x: i32) -> Seq<u8> {
        varint(zigzag32(x) as u64)
    }

    open spec fn i64_image(x: i64) -> Seq<u8> {
        varint(zigzag64(x))
    }

    open spec fn f32_bits_image(x: u32) -> Seq<u8> {
        le32(x)
    }

    open spec fn f64_bits_image(x: u64) -> Seq<u8> {
        le64(x)
    }

    open spec fn string_image(bytes: Seq<u8>) -> Seq<u8> {
        varint(bytes.len() as u64).add(bytes)
    }

    fn write_u8(&mut self, sink: &mut Vec<u8>, x: u8) -> (r: WriteRes) {
        sink.push(x);
        Ok(())
    }

    fn write_i16(&mut self, sink: &mut Vec<u8>, x: i16) -> (r: WriteRes) {
        put_le16(sink, x as u16);
        Ok(())
    }

    fn write_i32(&mut self, sink: &mut Vec<u8>, x: i32) -> (r: WriteRes) {
        let mut u = (x as u32) << 1;
        if x < 0 {
            u = !u;
        }
        self.write_varint(sink, u as u64)
    }

    fn write_i64(&mut self, sink: &mut Vec<u8>, x: i64) -> (r: WriteRes) {
        let mut u = (x as u64) << 1;
        if x < 0 {
            u = !u;
        }
        self.write_varint(sink, u)
    }

    fn write_f32_bits(&mut self, sink: &mut Vec<u8>, x: u32) -> (r: WriteRes) {
        put_le32(sink, x);
        Ok(())
    }

    fn write_f64_bits(&mut self, sink: &mut Vec<u8>, x: u64) -> (r: WriteRes) {
        put_le64(sink, x);
        Ok(())
    }

    fn write_string(&mut self, sink: &mut Vec<u8>, x: &str) -> (r: WriteRes) {
        let bytes = x.as_bytes();
        if bytes.len() > MAX_STRING_LEN {
            return length_error(MAX_STRING_LEN, bytes.len());
        }
        self.write_varint(sink, bytes.len() as u64)?;
        write_bytes(sink, bytes);
        proof {
            assert(sink@ =~= old(sink)@.add(Self::string_image(x.spec_bytes())));
        }
        Ok(())
    }
}

} // verus!
