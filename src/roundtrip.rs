//! What the codecs guarantee across calls: reading back what was written, and the mirror
//! relation between the two fixed byte orders.
use crate::encoding::{varint_scan, BigEndian, LittleEndian, NetworkLittleEndian};
use crate::reader::{
    length_text, parse_bytes, parse_seq, parse_text, prefixed_bytes, prefixed_seq, prefixed_text,
    Parsed, Reader, MAX_ARRAY_LEN, MAX_STRING_LEN,
};
use crate::wire::{
    be16, be32, be64, from_be16, from_be32, from_be64, from_le16, from_le32, from_le64, le16, le32,
    le64, lemma_varint_last, lemma_varint_more, unzigzag32, unzigzag64, varint, varint_acc,
    varint_from, zigzag32, zigzag64,
};
use crate::writer::{concat_images, Writer};
use vstd::prelude::*;
use vstd::utf8::{encode_utf8, encode_utf8_decode_utf8, encode_utf8_valid_utf8};

verus! {

/// Big and little endian write every fixed-width value as the same bytes in mirrored order.
pub proof fn lemma_endian_mirror(a: i16, b: i32, c: i64, f: u32, g: u64)
    ensures
        LittleEndian::i16_image(a) == BigEndian::i16_image(a).reverse(),
        LittleEndian::i32_image(b) == BigEndian::i32_image(b).reverse(),
        LittleEndian::i64_image(c) == BigEndian::i64_image(c).reverse(),
        LittleEndian::f32_bits_image(f) == BigEndian::f32_bits_image(f).reverse(),
        LittleEndian::f64_bits_image(g) == BigEndian::f64_bits_image(g).reverse(),
{
    assert(le16(a as u16) =~= be16(a as u16).reverse());
    assert(le32(b as u32) =~= be32(b as u32).reverse());
    assert(le64(c as u64) =~= be64(c as u64).reverse());
    assert(le32(f) =~= be32(f).reverse());
    assert(le64(g) =~= be64(g).reverse());
}

/// The bytes of a fixed-width value give the value back, whatever follows them.
pub proof fn lemma_fixed_bytes(a: u16, b: u32, c: u64, rest: Seq<u8>)
    ensures
        from_be16(be16(a).add(rest)) == a,
        from_le16(le16(a).add(rest)) == a,
        from_be32(be32(b).add(rest)) == b,
        from_le32(le32(b).add(rest)) == b,
        from_be64(be64(c).add(rest)) == c,
        from_le64(le64(c).add(rest)) == c,
{
    assert(((((a >> 8u16) as u8) as u16) << 8u16) | ((a as u8) as u16) == a) by (bit_vector);
    assert(((((b >> 24u32) as u8) as u32) << 24u32) | ((((b >> 16u32) as u8) as u32) << 16u32)
        | ((((b >> 8u32) as u8) as u32) << 8u32) | ((b as u8) as u32) == b) by (bit_vector);
    assert(((((c >> 56u64) as u8) as u64) << 56u64) | ((((c >> 48u64) as u8) as u64) << 48u64)
        | ((((c >> 40u64) as u8) as u64) << 40u64) | ((((c >> 32u64) as u8) as u64) << 32u64)
        | ((((c >> 24u64) as u8) as u64) << 24u64) | ((((c >> 16u64) as u8) as u64) << 16u64)
        | ((((c >> 8u64) as u8) as u64) << 8u64) | ((c as u8) as u64) == c) by (bit_vector);
}

/// Zig-zag forms are undone exactly, the minimum values included.
pub proof fn lemma_zigzag(x: i32, y: i64)
    ensures
        unzigzag32(zigzag32(x)) == x,
        unzigzag64(zigzag64(y)) == y,
{
    assert(unzigzag32(zigzag32(x)) == x) by (bit_vector);
    assert(unzigzag64(zigzag64(y)) == y) by (bit_vector);
}

/// The low `s` bits of `u`.
pub open spec fn low_bits(u: u64, s: nat) -> u64 {
    if s >= 64 {
        u
    } else {
        u & !(0xffff_ffff_ffff_ffffu64 << (s as u64))
    }
}

/// The varint bytes from group `k` on: every byte but the last carries the high bit and a
/// group that is not the last one; the last carries the highest group, which is below 0x80.
pub proof fn lemma_varint_shape(u: u64, k: nat)
    requires
        k <= 9,
    ensures
        1 <= varint_from(u, k).len(),
        k + varint_from(u, k).len() <= 10,
        (u >> (7 * (k + varint_from(u, k).len() - 1)) as u64) < 0x80,
        forall|j: int|
            0 <= j < varint_from(u, k).len() - 1 ==> #[trigger] varint_from(u, k)[j] == ((u >> (7 * (
            k + j)) as u64) as u8) | 0x80u8,
        varint_from(u, k).last() == (u >> (7 * (k + varint_from(u, k).len() - 1)) as u64) as u8,
    decreases 10 - k,
{
    if (u >> (7 * k) as u64) < 0x80 {
        lemma_varint_last(u, k);
        assert(varint_from(u, k).len() == 1);
    } else {
        lemma_varint_more(u, k);
        lemma_varint_shape(u, k + 1);
        let t = varint_from(u, k + 1);
        assert forall|j: int|
            0 <= j < varint_from(u, k).len() - 1 implies #[trigger] varint_from(u, k)[j] == ((u >> (7
            * (k + j)) as u64) as u8) | 0x80u8 by {
            if j > 0 {
                assert(t[j - 1] == varint_from(u, k)[j]);
                assert((7 * ((k + 1) + (j - 1))) as u64 == (7 * (k + j)) as u64);
            } else {
                assert((7 * (k + j)) as u64 == (7 * k) as u64);
            }
        }
    }
}

/// The groups of a varint, accumulated up to byte `k`, are the low `7 * k` bits of its value.
proof fn lemma_varint_acc(u: u64, rest: Seq<u8>, k: nat)
    requires
        k <= varint(u).len(),
    ensures
        varint_acc(varint(u).add(rest), k) == low_bits(u, 7 * k),
    decreases k,
{
    let b = varint(u).add(rest);
    lemma_varint_shape(u, 0);
    if k == 0 {
        assert(u & !(0xffff_ffff_ffff_ffffu64 << 0u64) == 0) by (bit_vector);
    } else {
        let j = (k - 1) as nat;
        lemma_varint_acc(u, rest, j);
        let s = (7 * j) as u64;
        let x = u >> s;
        assert(j <= 9);
        assert(b[j as int] == varint(u)[j as int]);
        assert(b[j as int] & 0x7fu8 == (x as u8) & 0x7fu8) by {
            if j + 1 < varint(u).len() {
                assert(((x as u8) | 0x80u8) & 0x7fu8 == (x as u8) & 0x7fu8) by (bit_vector);
            }
        }
        assert(((x as u8) & 0x7fu8) as u64 == x & 0x7fu64) by (bit_vector);
        let prev = varint_acc(b, j);
        assert(prev == u & !(0xffff_ffff_ffff_ffffu64 << s));
        assert(varint_acc(b, k) == prev | (((b[j as int] & 0x7fu8) as u64) << s));
        if s + 7 < 64 {
            assert(s + 7 < 64 ==> (u & !(0xffff_ffff_ffff_ffffu64 << s)) | (((u >> s) & 0x7fu64)
                << s) == u & !(0xffff_ffff_ffff_ffffu64 << (s + 7) as u64)) by (bit_vector);
            assert((7 * k) as u64 == (s + 7) as u64);
        } else {
            assert(s < 64 && s + 7 >= 64 ==> (u & !(0xffff_ffff_ffff_ffffu64 << s)) | (((u >> s)
                & 0x7fu64) << s) == u) by (bit_vector);
        }
    }
}

/// The varint of `u` is read back, whatever follows it, by a scan of at least its length.
pub proof fn lemma_varint_read_back(u: u64, rest: Seq<u8>, max: nat)
    requires
        varint(u).len() <= max,
    ensures
        varint_scan(varint(u).add(rest), 0, max) == Parsed::Done(u, varint(u).len()),
{
    let b = varint(u).add(rest);
    let n = varint(u).len();
    lemma_varint_shape(u, 0);
    lemma_varint_scan_from(u, rest, max, 0);
    lemma_varint_acc(u, rest, n);
    let s = (7 * (n - 1)) as u64;
    if 7 * n < 64 {
        assert((u >> s) < 0x80 && s + 7 < 64 ==> u & !(0xffff_ffff_ffff_ffffu64 << (s + 7) as u64) == u)
            by (bit_vector);
    }
}

proof fn lemma_varint_scan_from(u: u64, rest: Seq<u8>, max: nat, k: nat)
    requires
        varint(u).len() <= max,
        k < varint(u).len(),
    ensures
        varint_scan(varint(u).add(rest), k, max) == Parsed::Done(
            varint_acc(varint(u).add(rest), varint(u).len()),
            varint(u).len(),
        ),
    decreases varint(u).len() - k,
{
    let b = varint(u).add(rest);
    lemma_varint_shape(u, 0);
    let x = u >> (7 * k) as u64;
    assert(b[k as int] == varint(u)[k as int]);
    if k + 1 < varint(u).len() {
        assert(((x as u8) | 0x80u8) & 0x80u8 != 0) by (bit_vector);
        lemma_varint_scan_from(u, rest, max, k + 1);
    } else {
        assert(x < 0x80 ==> (x as u8) & 0x80u8 == 0) by (bit_vector);
    }
}

/// Where the group at `m` is the highest, the varint bytes from group `k` end by it.
proof fn lemma_varint_len_bound(u: u64, k: nat, m: nat)
    requires
        k <= m <= 9,
        (u >> (7 * m) as u64) < 0x80,
    ensures
        k + varint_from(u, k).len() <= m + 1,
    decreases m - k,
{
    if (u >> (7 * k) as u64) < 0x80 {
        lemma_varint_last(u, k);
    } else {
        lemma_varint_more(u, k);
        lemma_varint_len_bound(u, k + 1, m);
    }
}

/// A varint of a 32-bit value takes at most five bytes.
pub proof fn lemma_varint_u32_len(u: u32)
    ensures
        varint(u as u64).len() <= 5,
{
    let w = u as u64;
    assert(w <= 0xffff_ffff ==> (w >> 28u64) < 0x80) by (bit_vector);
    lemma_varint_len_bound(w, 0, 4);
}

/// The UTF-8 bytes of `s` decode back to `s`, whatever follows them.
proof fn lemma_text_read_back(s: Seq<char>, rest: Seq<u8>)
    ensures
        parse_text(encode_utf8(s).add(rest), encode_utf8(s).len()) == Parsed::Done(
            s,
            encode_utf8(s).len(),
        ),
{
    let e = encode_utf8(s);
    assert(e.add(rest).take(e.len() as int) =~= e);
    encode_utf8_valid_utf8(s);
    encode_utf8_decode_utf8(s);
}

/// A run of bytes is read back, whatever follows it.
proof fn lemma_bytes_read_back(xs: Seq<u8>, rest: Seq<u8>)
    ensures
        parse_bytes(xs.add(rest), xs.len()) == Parsed::Done(xs, xs.len()),
{
    assert(xs.add(rest).take(xs.len() as int) =~= xs);
}

/// Values whose images each read back are read back in sequence.
proof fn lemma_seq_read_back<T>(
    elem: spec_fn(Seq<u8>) -> Parsed<T>,
    image: spec_fn(T) -> Seq<u8>,
    xs: Seq<T>,
    rest: Seq<u8>,
)
    requires
        forall|x: T, r: Seq<u8>| #[trigger] elem(image(x).add(r)) == Parsed::Done(x, image(x).len()),
    ensures
        parse_seq(elem, concat_images(xs, image).add(rest), xs.len()) == Parsed::Done(
            xs,
            concat_images(xs, image).len(),
        ),
    decreases xs.len(),
{
    if xs.len() > 0 {
        let init = xs.drop_last();
        let last = xs.last();
        let tail = image(last).add(rest);
        lemma_seq_read_back(elem, image, init, tail);
        let b = concat_images(xs, image).add(rest);
        assert(b =~= concat_images(init, image).add(tail));
        let k = concat_images(init, image).len();
        assert(b.skip(k as int) =~= tail);
        assert(init.push(last) =~= xs);
    } else {
        assert(xs =~= Seq::<T>::empty());
    }
}

/// Reading what a two-byte length and an array of bytes wrote: the array comes back.
proof fn lemma_prefixed_bytes_read_back(p: Parsed<i32>, pre: Seq<u8>, xs: Seq<u8>, rest: Seq<u8>)
    requires
        xs.len() <= MAX_ARRAY_LEN,
        p == Parsed::Done(xs.len() as i32, pre.len()),
    ensures
        prefixed_bytes(p, pre.add(xs).add(rest)) == Parsed::Done(xs, pre.len() + xs.len()),
{
    let b = pre.add(xs).add(rest);
    assert(b.skip(pre.len() as int) =~= xs.add(rest));
    lemma_bytes_read_back(xs, rest);
}

/// Reading what a length and an array of values wrote: the array comes back.
proof fn lemma_prefixed_seq_read_back<T>(
    p: Parsed<i32>,
    pre: Seq<u8>,
    elem: spec_fn(Seq<u8>) -> Parsed<T>,
    image: spec_fn(T) -> Seq<u8>,
    xs: Seq<T>,
    rest: Seq<u8>,
)
    requires
        xs.len() <= MAX_ARRAY_LEN,
        p == Parsed::Done(xs.len() as i32, pre.len()),
        forall|x: T, r: Seq<u8>| #[trigger] elem(image(x).add(r)) == Parsed::Done(x, image(x).len()),
    ensures
        prefixed_seq(p, pre.add(concat_images(xs, image)).add(rest), elem) == Parsed::Done(
            xs,
            pre.len() + concat_images(xs, image).len(),
        ),
{
    let b = pre.add(concat_images(xs, image)).add(rest);
    assert(b.skip(pre.len() as int) =~= concat_images(xs, image).add(rest));
    lemma_seq_read_back(elem, image, xs, rest);
}

/// The bytes that a codec writes for an array of bytes: the length, then the bytes.
pub open spec fn u8_vec_image<E: Writer>(xs: Seq<u8>) -> Seq<u8> {
    E::i32_image(xs.len() as i32).add(xs)
}

/// The bytes that a codec writes for an array of 32-bit integers.
pub open spec fn i32_vec_image<E: Writer>(xs: Seq<i32>) -> Seq<u8> {
    E::i32_image(xs.len() as i32).add(concat_images(xs, |v: i32| E::i32_image(v)))
}

/// The bytes that a codec writes for an array of 64-bit integers.
pub open spec fn i64_vec_image<E: Writer>(xs: Seq<i64>) -> Seq<u8> {
    E::i32_image(xs.len() as i32).add(concat_images(xs, |v: i64| E::i64_image(v)))
}

/// Each value that codec `E` writes is read back by `E` unchanged, taking exactly the bytes
/// written, whatever bytes follow (`rest`); strings and arrays within their length limits.
pub open spec fn reads_back<E: Reader + Writer>(
    a: i16,
    b: i32,
    c: i64,
    f: u32,
    g: u64,
    s: Seq<char>,
    bytes: Seq<u8>,
    ints: Seq<i32>,
    longs: Seq<i64>,
    rest: Seq<u8>,
) -> bool {
    &&& E::parse_i16(E::i16_image(a).add(rest)) == Parsed::Done(a, E::i16_image(a).len())
    &&& E::parse_i32(E::i32_image(b).add(rest)) == Parsed::Done(b, E::i32_image(b).len())
    &&& E::parse_i64(E::i64_image(c).add(rest)) == Parsed::Done(c, E::i64_image(c).len())
    &&& E::parse_f32_bits(E::f32_bits_image(f).add(rest)) == Parsed::Done(
        f,
        E::f32_bits_image(f).len(),
    )
    &&& E::parse_f64_bits(E::f64_bits_image(g).add(rest)) == Parsed::Done(
        g,
        E::f64_bits_image(g).len(),
    )
    &&& encode_utf8(s).len() <= MAX_STRING_LEN ==> E::parse_string(
        E::string_image(encode_utf8(s)).add(rest),
    ) == Parsed::Done(s, E::string_image(encode_utf8(s)).len())
    &&& bytes.len() <= MAX_ARRAY_LEN ==> prefixed_bytes(
        E::parse_i32(u8_vec_image::<E>(bytes).add(rest)),
        u8_vec_image::<E>(bytes).add(rest),
    ) == Parsed::Done(bytes, u8_vec_image::<E>(bytes).len())
    &&& ints.len() <= MAX_ARRAY_LEN ==> prefixed_seq(
        E::parse_i32(i32_vec_image::<E>(ints).add(rest)),
        i32_vec_image::<E>(ints).add(rest),
        |x: Seq<u8>| E::parse_i32(x),
    ) == Parsed::Done(ints, i32_vec_image::<E>(ints).len())
    &&& longs.len() <= MAX_ARRAY_LEN ==> prefixed_seq(
        E::parse_i32(i64_vec_image::<E>(longs).add(rest)),
        i64_vec_image::<E>(longs).add(rest),
        |x: Seq<u8>| E::parse_i64(x),
    ) == Parsed::Done(longs, i64_vec_image::<E>(longs).len())
}

/// The arrays of a codec read back where its integers do.
proof fn lemma_arrays_read_back<E: Reader + Writer>(
    bytes: Seq<u8>,
    ints: Seq<i32>,
    longs: Seq<i64>,
    rest: Seq<u8>,
)
    requires
        forall|x: i32, r: Seq<u8>| #[trigger] E::parse_i32(E::i32_image(x).add(r)) == Parsed::Done(
            x,
            E::i32_image(x).len(),
        ),
        forall|x: i64, r: Seq<u8>| #[trigger] E::parse_i64(E::i64_image(x).add(r)) == Parsed::Done(
            x,
            E::i64_image(x).len(),
        ),
    ensures
        bytes.len() <= MAX_ARRAY_LEN ==> prefixed_bytes(
            E::parse_i32(u8_vec_image::<E>(bytes).add(rest)),
            u8_vec_image::<E>(bytes).add(rest),
        ) == Parsed::Done(bytes, u8_vec_image::<E>(bytes).len()),
        ints.len() <= MAX_ARRAY_LEN ==> prefixed_seq(
            E::parse_i32(i32_vec_image::<E>(ints).add(rest)),
            i32_vec_image::<E>(ints).add(rest),
            |x: Seq<u8>| E::parse_i32(x),
        ) == Parsed::Done(ints, i32_vec_image::<E>(ints).len()),
        longs.len() <= MAX_ARRAY_LEN ==> prefixed_seq(
            E::parse_i32(i64_vec_image::<E>(longs).add(rest)),
            i64_vec_image::<E>(longs).add(rest),
            |x: Seq<u8>| E::parse_i64(x),
        ) == Parsed::Done(longs, i64_vec_image::<E>(longs).len()),
{
    let e32 = |x: Seq<u8>| E::parse_i32(x);
    let i32_img = |v: i32| E::i32_image(v);
    let e64 = |x: Seq<u8>| E::parse_i64(x);
    let i64_img = |v: i64| E::i64_image(v);
    if bytes.len() <= MAX_ARRAY_LEN {
        let pre = E::i32_image(bytes.len() as i32);
        assert(pre.add(bytes).add(rest) =~= pre.add(bytes.add(rest)));
        lemma_prefixed_bytes_read_back(E::parse_i32(pre.add(bytes).add(rest)), pre, bytes, rest);
    }
    if ints.len() <= MAX_ARRAY_LEN {
        let pre = E::i32_image(ints.len() as i32);
        let body = concat_images(ints, i32_img);
        assert(pre.add(body).add(rest) =~= pre.add(body.add(rest)));
        lemma_prefixed_seq_read_back(
            E::parse_i32(pre.add(body).add(rest)),
            pre,
            e32,
            i32_img,
            ints,
            rest,
        );
    }
    if longs.len() <= MAX_ARRAY_LEN {
        let pre = E::i32_image(longs.len() as i32);
        let body = concat_images(longs, i64_img);
        assert(pre.add(body).add(rest) =~= pre.add(body.add(rest)));
        lemma_prefixed_seq_read_back(
            E::parse_i32(pre.add(body).add(rest)),
            pre,
            e64,
            i64_img,
            longs,
            rest,
        );
    }
}

/// A string after an `i16` length reads back where the `i16` does.
proof fn lemma_i16_string_read_back<E: Reader + Writer>(s: Seq<char>, rest: Seq<u8>)
    requires
        encode_utf8(s).len() <= MAX_STRING_LEN,
        forall|x: i16, r: Seq<u8>| #[trigger] E::parse_i16(E::i16_image(x).add(r)) == Parsed::Done(
            x,
            E::i16_image(x).len(),
        ),
        forall|x: Seq<u8>| #[trigger] E::parse_string(x) == prefixed_text(E::parse_i16(x), x),
        forall|x: Seq<u8>| #[trigger] E::string_image(x) == E::i16_image(x.len() as i16).add(x),
    ensures
        E::parse_string(E::string_image(encode_utf8(s)).add(rest)) == Parsed::Done(
            s,
            E::string_image(encode_utf8(s)).len(),
        ),
{
    let e = encode_utf8(s);
    let pre = E::i16_image(e.len() as i16);
    let w = E::string_image(e).add(rest);
    assert(w =~= pre.add(e.add(rest)));
    assert(w.skip(pre.len() as int) =~= e.add(rest));
    lemma_text_read_back(s, rest);
    assert(length_text(e.len() as i16, e.add(rest)) == parse_text(e.add(rest), e.len()));
}

/// Every value that [`BigEndian`] writes, [`BigEndian`] reads back unchanged, taking exactly the
/// bytes written, whatever follows; strings and arrays within their length limits.
pub proof fn lemma_big_endian_reads_back(
    a: i16,
    b: i32,
    c: i64,
    f: u32,
    g: u64,
    s: Seq<char>,
    bytes: Seq<u8>,
    ints: Seq<i32>,
    longs: Seq<i64>,
    rest: Seq<u8>,
)
    ensures
        reads_back::<BigEndian>(a, b, c, f, g, s, bytes, ints, longs, rest),
{
    assert forall|x: i16, r: Seq<u8>| #[trigger] BigEndian::parse_i16(BigEndian::i16_image(x).add(r))
        == Parsed::Done(x, BigEndian::i16_image(x).len()) by {
        lemma_fixed_bytes(x as u16, 0, 0, r);
        assert((x as u16) as i16 == x) by (bit_vector);
    }
    assert forall|x: i32, r: Seq<u8>| #[trigger] BigEndian::parse_i32(BigEndian::i32_image(x).add(r))
        == Parsed::Done(x, BigEndian::i32_image(x).len()) by {
        lemma_fixed_bytes(0, x as u32, 0, r);
        assert((x as u32) as i32 == x) by (bit_vector);
    }
    assert forall|x: i64, r: Seq<u8>| #[trigger] BigEndian::parse_i64(BigEndian::i64_image(x).add(r))
        == Parsed::Done(x, BigEndian::i64_image(x).len()) by {
        lemma_fixed_bytes(0, 0, x as u64, r);
        assert((x as u64) as i64 == x) by (bit_vector);
    }
    lemma_fixed_bytes(0, f, g, rest);
    lemma_arrays_read_back::<BigEndian>(bytes, ints, longs, rest);
    if encode_utf8(s).len() <= MAX_STRING_LEN {
        lemma_i16_string_read_back::<BigEndian>(s, rest);
    }
}

/// Every value that [`LittleEndian`] writes, [`LittleEndian`] reads back unchanged, taking exactly the
/// bytes written, whatever follows; strings and arrays within their length limits.
pub proof fn lemma_little_endian_reads_back(
    a: i16,
    b: i32,
    c: i64,
    f: u32,
    g: u64,
    s: Seq<char>,
    bytes: Seq<u8>,
    ints: Seq<i32>,
    longs: Seq<i64>,
    rest: Seq<u8>,
)
    ensures
        reads_back::<LittleEndian>(a, b, c, f, g, s, bytes, ints, longs, rest),
{
    assert forall|x: i16, r: Seq<u8>| #[trigger] LittleEndian::parse_i16(LittleEndian::i16_image(x).add(r))
        == Parsed::Done(x, LittleEndian::i16_image(x).len()) by {
        lemma_fixed_bytes(x as u16, 0, 0, r);
        assert((x as u16) as i16 == x) by (bit_vector);
    }
    assert forall|x: i32, r: Seq<u8>| #[trigger] LittleEndian::parse_i32(LittleEndian::i32_image(x).add(r))
        == Parsed::Done(x, LittleEndian::i32_image(x).len()) by {
        lemma_fixed_bytes(0, x as u32, 0, r);
        assert((x as u32) as i32 == x) by (bit_vector);
    }
    assert forall|x: i64, r: Seq<u8>| #[trigger] LittleEndian::parse_i64(LittleEndian::i64_image(x).add(r))
        == Parsed::Done(x, LittleEndian::i64_image(x).len()) by {
        lemma_fixed_bytes(0, 0, x as u64, r);
        assert((x as u64) as i64 == x) by (bit_vector);
    }
    lemma_fixed_bytes(0, f, g, rest);
    lemma_arrays_read_back::<LittleEndian>(bytes, ints, longs, rest);
    if encode_utf8(s).len() <= MAX_STRING_LEN {
        lemma_i16_string_read_back::<LittleEndian>(s, rest);
    }
}

/// Every value that [`NetworkLittleEndian`] writes, [`NetworkLittleEndian`] reads back
/// unchanged, taking exactly the bytes written, whatever follows; strings and arrays within
/// their length limits.
pub proof fn lemma_network_little_endian_reads_back(
    a: i16,
    b: i32,
    c: i64,
    f: u32,
    g: u64,
    s: Seq<char>,
    bytes: Seq<u8>,
    ints: Seq<i32>,
    longs: Seq<i64>,
    rest: Seq<u8>,
)
    ensures
        reads_back::<NetworkLittleEndian>(a, b, c, f, g, s, bytes, ints, longs, rest),
{
    assert((a as u16) as i16 == a) by (bit_vector);
    lemma_fixed_bytes(a as u16, f, g, rest);
    assert forall|x: i32, r: Seq<u8>| #[trigger] NetworkLittleEndian::parse_i32(
        NetworkLittleEndian::i32_image(x).add(r),
    ) == Parsed::Done(x, NetworkLittleEndian::i32_image(x).len()) by {
        let u = zigzag32(x);
        lemma_varint_u32_len(u);
        lemma_varint_read_back(u as u64, r, 5);
        lemma_zigzag(x, 0);
    }
    assert forall|x: i64, r: Seq<u8>| #[trigger] NetworkLittleEndian::parse_i64(
        NetworkLittleEndian::i64_image(x).add(r),
    ) == Parsed::Done(x, NetworkLittleEndian::i64_image(x).len()) by {
        let u = zigzag64(x);
        lemma_varint_shape(u, 0);
        lemma_varint_read_back(u, r, 10);
        lemma_zigzag(0, x);
    }
    lemma_arrays_read_back::<NetworkLittleEndian>(bytes, ints, longs, rest);
    let e = encode_utf8(s);
    if e.len() <= MAX_STRING_LEN {
        let n = e.len() as u64;
        let pre = varint(n);
        let w = NetworkLittleEndian::string_image(e).add(rest);
        assert(w =~= pre.add(e.add(rest)));
        lemma_varint_u32_len(n as u32);
        assert((n as u32) as u64 == n);
        lemma_varint_read_back(n, e.add(rest), 5);
        assert(w.skip(pre.len() as int) =~= e.add(rest));
        lemma_text_read_back(s, rest);
    }
}

} // verus!
