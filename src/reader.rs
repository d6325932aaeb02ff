//! The read side of a codec: what each primitive consumes and yields.
use crate::err::{ErrorPath, IoFailure, PathPart, ReadError};
use crate::source::ByteSource;
use crate::wire::hex_text;
use vstd::prelude::*;
use vstd::string::*;
use vstd::utf8::*;

verus! {

/// A short notation for the result type used in the [Reader].
pub type Res<T> = Result<T, ErrorPath<ReadError>>;

/// Why a read fails, as seen by the contracts.
pub enum Fault {
    /// The source ended early.
    Eof,
    /// A varint ran past the bytes its integer can hold.
    Overflow,
    /// A negative length was read: the length, and the maximum permitted.
    BadLength(i32, usize),
    /// The bytes of a string are not UTF-8.
    BadUtf8,
    /// A byte other than the end tag was found.
    BadTag(u8),
}

/// What reading a value from the front of some bytes gives: the value and the number of bytes
/// it took, or the fault and the element indices, root first, at which it happened.
pub enum Parsed<T> {
    Done(T, nat),
    Failed(Fault, Seq<nat>),
}

/// The message of a varint that runs past its integer.
pub open spec fn overflow_text() -> Seq<char> {
    "varint overflows integer"@
}

/// The description of the expected end tag.
pub open spec fn end_text() -> Seq<char> {
    "END (0x00)"@
}

/// Largest length that a string's `i16` prefix can carry.
pub const MAX_STRING_LEN: usize = 32767;

/// The most bytes reserved ahead of reading for a length taken from the input; past it the
/// buffer grows as the bytes arrive.
pub const CAPACITY_GUARD: usize = 1024;

/// Largest length that an array's `i32` prefix can carry.
pub const MAX_ARRAY_LEN: usize = 2147483647;

/// Element indices as path parts.
pub open spec fn element_path(at: Seq<nat>) -> Seq<PathPart> {
    at.map_values(|i: nat| PathPart::Element(i as usize))
}

/// `e` is the error that reports fault `f` at the element indices `at`.
pub open spec fn fault_matches(e: ErrorPath<ReadError>, f: Fault, at: Seq<nat>) -> bool {
    &&& e.path@ == element_path(at)
    &&& match f {
        Fault::Eof => e.reason == ReadError::Io(IoFailure::UnexpectedEof),
        Fault::Overflow => e.reason matches ReadError::Custom(m) && m@ == overflow_text(),
        Fault::BadLength(seen, max) => e.reason == ReadError::SeqLengthViolation(max, seen),
        Fault::BadUtf8 => e.reason is InvalidUtf8,
        Fault::BadTag(t) => e.reason matches ReadError::UnexpectedTag(x, y) && x@ == end_text()
            && y@ == hex_text(t),
    }
}

/// `r` is the result that `p` describes, and `after` what is left of `before`.
pub open spec fn read_outcome<T>(r: Res<T>, before: Seq<u8>, after: Seq<u8>, p: Parsed<T>) -> bool {
    match p {
        Parsed::Done(v, n) => r == Ok::<T, ErrorPath<ReadError>>(v) && n <= before.len() && after
            == before.skip(n as int),
        Parsed::Failed(f, at) => r is Err && fault_matches(r->Err_0, f, at),
    }
}

/// As [`read_outcome`], for a result that is compared by its view.
pub open spec fn view_outcome<T: View>(
    r: Res<T>,
    before: Seq<u8>,
    after: Seq<u8>,
    p: Parsed<T::V>,
) -> bool {
    match p {
        Parsed::Done(v, n) => r is Ok && r->Ok_0@ == v && n <= before.len() && after == before.skip(
            n as int,
        ),
        Parsed::Failed(f, at) => r is Err && fault_matches(r->Err_0, f, at),
    }
}

/// Where the length prefix read as `p` is negative, nothing after it has been consumed.
pub open spec fn negative_length_stops(p: Parsed<i32>, before: Seq<u8>, after: Seq<u8>) -> bool {
    match p {
        Parsed::Done(l, k) => l < 0 ==> after == before.skip(k as int),
        Parsed::Failed(..) => true,
    }
}

/// `p` with `k` more bytes taken in front of it.
pub open spec fn then_at<T>(k: nat, p: Parsed<T>) -> Parsed<T> {
    match p {
        Parsed::Done(v, n) => Parsed::Done(v, k + n),
        Parsed::Failed(f, at) => Parsed::Failed(f, at),
    }
}

/// One byte.
pub open spec fn parse_u8(b: Seq<u8>) -> Parsed<u8> {
    if b.len() == 0 {
        Parsed::Failed(Fault::Eof, seq![])
    } else {
        Parsed::Done(b[0], 1)
    }
}

/// The end tag.
pub open spec fn parse_end(b: Seq<u8>) -> Parsed<()> {
    if b.len() == 0 {
        Parsed::Failed(Fault::Eof, seq![])
    } else if b[0] == 0 {
        Parsed::Done((), 1)
    } else {
        Parsed::Failed(Fault::BadTag(b[0]), seq![])
    }
}

/// `len` bytes taken one by one; where they run out, the fault is at the first missing index.
pub open spec fn parse_bytes(b: Seq<u8>, len: nat) -> Parsed<Seq<u8>> {
    if b.len() < len {
        Parsed::Failed(Fault::Eof, seq![b.len()])
    } else {
        Parsed::Done(b.take(len as int), len)
    }
}

/// `len` bytes decoded as UTF-8.
pub open spec fn parse_text(b: Seq<u8>, len: nat) -> Parsed<Seq<char>> {
    match parse_bytes(b, len) {
        Parsed::Done(bs, n) => if valid_utf8(bs) {
            Parsed::Done(decode_utf8(bs), n)
        } else {
            Parsed::Failed(Fault::BadUtf8, seq![])
        },
        Parsed::Failed(f, at) => Parsed::Failed(f, at),
    }
}

/// A string of `len` bytes at the front of `b`; a negative length is refused.
pub open spec fn length_text(len: i16, b: Seq<u8>) -> Parsed<Seq<char>> {
    if len < 0 {
        Parsed::Failed(Fault::BadLength(len as i32, MAX_STRING_LEN), seq![])
    } else {
        parse_text(b, len as nat)
    }
}

/// A string after the `i16` length prefix `len` read from the front of `b`.
pub open spec fn prefixed_text(len: Parsed<i16>, b: Seq<u8>) -> Parsed<Seq<char>> {
    match len {
        Parsed::Done(l, k) => then_at(k, length_text(l, b.skip(k as int))),
        Parsed::Failed(f, at) => Parsed::Failed(f, at),
    }
}

/// A byte array after the `i32` length prefix `len` read from the front of `b`.
pub open spec fn prefixed_bytes(len: Parsed<i32>, b: Seq<u8>) -> Parsed<Seq<u8>> {
    match len {
        Parsed::Done(l, k) => if l < 0 {
            Parsed::Failed(Fault::BadLength(l, MAX_ARRAY_LEN), seq![])
        } else {
            then_at(k, parse_bytes(b.skip(k as int), l as nat))
        },
        Parsed::Failed(f, at) => Parsed::Failed(f, at),
    }
}

/// `n` values, each read by `elem` after the one before; a fault in element `i` is reported
/// under index `i`.
pub open spec fn parse_seq<T>(elem: spec_fn(Seq<u8>) -> Parsed<T>, b: Seq<u8>, n: nat) -> Parsed<
    Seq<T>,
>
    decreases n,
{
    if n == 0 {
        Parsed::Done(seq![], 0)
    } else {
        match parse_seq(elem, b, (n - 1) as nat) {
            Parsed::Done(xs, k) => match elem(b.skip(k as int)) {
                Parsed::Done(x, m) => Parsed::Done(xs.push(x), k + m),
                Parsed::Failed(f, at) => Parsed::Failed(f, seq![(n - 1) as nat].add(at)),
            },
            Parsed::Failed(f, at) => Parsed::Failed(f, at),
        }
    }
}

/// Once reading a sequence fails, reading more elements fails in the same way.
pub proof fn lemma_parse_seq_failed<T>(elem: spec_fn(Seq<u8>) -> Parsed<T>, b: Seq<u8>, i: nat, n: nat)
    requires
        i <= n,
        parse_seq(elem, b, i) is Failed,
    ensures
        parse_seq(elem, b, n) == parse_seq(elem, b, i),
    decreases n - i,
{
    if i < n {
        lemma_parse_seq_failed(elem, b, i, (n - 1) as nat);
    }
}

/// An array after the `i32` length prefix `len` read from the front of `b`.
pub open spec fn prefixed_seq<T>(
    len: Parsed<i32>,
    b: Seq<u8>,
    elem: spec_fn(Seq<u8>) -> Parsed<T>,
) -> Parsed<Seq<T>> {
    match len {
        Parsed::Done(l, k) => if l < 0 {
            Parsed::Failed(Fault::BadLength(l, MAX_ARRAY_LEN), seq![])
        } else {
            then_at(k, parse_seq(elem, b.skip(k as int), l as nat))
        },
        Parsed::Failed(f, at) => Parsed::Failed(f, at),
    }
}

/// Relies on `String::from_utf8`: it succeeds exactly on UTF-8 and then holds the decoded
/// characters.
#[verifier::external_body]
pub(crate) fn utf8_string(bytes: Vec<u8>) -> (r: Result<String, std::string::FromUtf8Error>)
    ensures
        r is Ok <==> valid_utf8(bytes@),
        r matches Ok(s) ==> s@ == decode_utf8(bytes@),
{
    String::from_utf8(bytes)
}

/// No element indices make an empty path.
pub proof fn lemma_root_path()
    ensures
        element_path(seq![]) == Seq::<PathPart>::empty(),
{
    assert(element_path(seq![]) =~= Seq::<PathPart>::empty());
}

/// An I/O failure as a read error with an empty path.
pub(crate) fn io_error(e: IoFailure) -> (r: ErrorPath<ReadError>)
    ensures
        r.reason == ReadError::Io(e),
        r.path@ == Seq::<PathPart>::empty(),
{
    ErrorPath::new(ReadError::Io(e))
}

/// Reads `len` bytes one at a time, reporting a missing byte under its index.
pub(crate) fn read_bytes(src: &mut ByteSource, len: usize) -> (r: Res<Vec<u8>>)
    ensures
        view_outcome(r, old(src).rest(), final(src).rest(), parse_bytes(old(src).rest(), len as nat)),
{
    let ghost b = src.rest();
    let mut out: Vec<u8> = Vec::with_capacity(if len < CAPACITY_GUARD { len } else { CAPACITY_GUARD });
    let mut i: usize = 0;
    while i < len
        invariant
            b == old(src).rest(),
            i <= len,
            i <= b.len(),
            out@ == b.take(i as int),
            src.rest() == b.skip(i as int),
        decreases len - i,
    {
        match src.read_u8() {
            Ok(v) => {
                out.push(v);
            },
            Err(e) => {
                let e0 = io_error(e);
                let e = e0.prepend(PathPart::Element(i));
                proof {
                    assert(b.len() == i);
                    assert(e.path@ =~= seq![PathPart::Element(i)]);
                    assert(element_path(seq![b.len()]) =~= e.path@);
                }
                return Err(e);
            },
        }
        i = i + 1;
        proof {
            assert(out@ =~= b.take(i as int));
            assert(src.rest() =~= b.skip(i as int));
        }
    }
    Ok(out)
}

/// Reading a length prefix and then the text after it reads what [`prefixed_text`] says.
pub proof fn lemma_prefixed_text(p: Parsed<i16>, b: Seq<u8>, mid: Seq<u8>, r: Res<String>, after: Seq<u8>)
    requires
        p is Done,
        p->Done_1 <= b.len(),
        mid == b.skip(p->Done_1 as int),
        view_outcome(r, mid, after, length_text(p->Done_0, mid)),
    ensures
        view_outcome(r, b, after, prefixed_text(p, b)),
{
    if let Parsed::Done(v, n) = length_text(p->Done_0, mid) {
        assert(b.skip(p->Done_1 as int).skip(n as int) =~= b.skip((p->Done_1 + n) as int));
    }
}

/// Reads the UTF-8 bytes of a string whose length `len` has been read.
pub(crate) fn read_text(src: &mut ByteSource, len: i16) -> (r: Res<String>)
    ensures
        view_outcome(r, old(src).rest(), final(src).rest(), length_text(len, old(src).rest())),
        len < 0 ==> final(src).rest() == old(src).rest(),
        r is Err && r->Err_0.reason is SeqLengthViolation ==> len < 0,
{
    if len < 0 {
        proof {
            lemma_root_path();
        }
        return Err(ErrorPath::new(ReadError::SeqLengthViolation(MAX_STRING_LEN, len as i32)));
    }
    let bytes = match read_bytes(src, len as usize) {
        Ok(v) => v,
        Err(e) => {
            return Err(e);
        },
    };
    match utf8_string(bytes) {
        Ok(s) => Ok(s),
        Err(e) => {
            proof {
                lemma_root_path();
            }
            Err(ErrorPath::new(ReadError::InvalidUtf8(e)))
        },
    }
}

/// The read side of a codec. All the methods return their failures and never panic.
pub trait Reader {
    /// What [`Reader::i16`] reads from the front of some bytes.
    spec fn parse_i16(b: Seq<u8>) -> Parsed<i16>;

    /// What [`Reader::i32`] reads from the front of some bytes.
    spec fn parse_i32(b: Seq<u8>) -> Parsed<i32>;

    /// What [`Reader::i64`] reads from the front of some bytes.
    spec fn parse_i64(b: Seq<u8>) -> Parsed<i64>;

    /// What [`Reader::f32_bits`] reads from the front of some bytes.
    spec fn parse_f32_bits(b: Seq<u8>) -> Parsed<u32>;

    /// What [`Reader::f64_bits`] reads from the front of some bytes.
    spec fn parse_f64_bits(b: Seq<u8>) -> Parsed<u64>;

    /// What [`Reader::string`] reads from the front of some bytes.
    spec fn parse_string(b: Seq<u8>) -> Parsed<Seq<char>>;

    /// Reads an 8-bit unsigned integer.
    fn u8(&mut self, src: &mut ByteSource) -> (r: Res<u8>)
        ensures
            read_outcome(r, old(src).rest(), final(src).rest(), parse_u8(old(src).rest())),
    {
        match src.read_u8() {
            Ok(b) => Ok(b),
            Err(e) => {
                proof {
                    lemma_root_path();
                }
                Err(io_error(e))
            },
        }
    }

    /// Reads a 16-bit signed integer.
    fn i16(&mut self, src: &mut ByteSource) -> (r: Res<i16>)
        ensures
            read_outcome(r, old(src).rest(), final(src).rest(), Self::parse_i16(old(src).rest())),
    ;

    /// Reads a 32-bit signed integer.
    fn i32(&mut self, src: &mut ByteSource) -> (r: Res<i32>)
        ensures
            read_outcome(r, old(src).rest(), final(src).rest(), Self::parse_i32(old(src).rest())),
    ;

    /// Reads a 64-bit signed integer.
    fn i64(&mut self, src: &mut ByteSource) -> (r: Res<i64>)
        ensures
            read_outcome(r, old(src).rest(), final(src).rest(), Self::parse_i64(old(src).rest())),
    ;

    /// Reads the bit pattern of a 32-bit floating point number.
    fn f32_bits(&mut self, src: &mut ByteSource) -> (r: Res<u32>)
        ensures
            read_outcome(
                r,
                old(src).rest(),
                final(src).rest(),
                Self::parse_f32_bits(old(src).rest()),
            ),
    ;

    /// Reads the bit pattern of a 64-bit floating point number.
    fn f64_bits(&mut self, src: &mut ByteSource) -> (r: Res<u64>)
        ensures
            read_outcome(
                r,
                old(src).rest(),
                final(src).rest(),
                Self::parse_f64_bits(old(src).rest()),
            ),
    ;

    /// Reads the NBT `end` tag, which indicates the end of a compound tag.
    fn end(&mut self, src: &mut ByteSource) -> (r: Res<()>)
        ensures
            read_outcome(r, old(src).rest(), final(src).rest(), parse_end(old(src).rest())),
    {
        let t = match self.u8(src) {
            Ok(t) => t,
            Err(e) => {
                return Err(e);
            },
        };
        if t != 0 {
            proof {
                lemma_root_path();
                reveal_strlit("END (0x00)");
            }
            let expected = String::from_str("END (0x00)");
            return Err(ErrorPath::new(ReadError::UnexpectedTag(expected, crate::wire::hex_of(t))));
        }
        Ok(())
    }

    /// Reads a variable-length string.
    fn string(&mut self, src: &mut ByteSource) -> (r: Res<String>)
        ensures
            view_outcome(r, old(src).rest(), final(src).rest(), Self::parse_string(old(src).rest())),
            r is Err && r->Err_0.reason is SeqLengthViolation ==> Self::parse_i16(old(src).rest()) is Done
                && final(src).rest() == old(src).rest().skip(Self::parse_i16(old(src).rest())->Done_1 as int),
    ;

    /// Reads a variable-length array of 8-bit unsigned integers.
    fn u8_vec(&mut self, src: &mut ByteSource) -> (r: Res<Vec<u8>>)
        ensures
            view_outcome(
                r,
                old(src).rest(),
                final(src).rest(),
                prefixed_bytes(Self::parse_i32(old(src).rest()), old(src).rest()),
            ),
            negative_length_stops(Self::parse_i32(old(src).rest()), old(src).rest(), final(src).rest()),
    {
        let ghost b = src.rest();
        let len = match self.i32(src) {
            Ok(l) => l,
            Err(e) => {
                return Err(e);
            },
        };
        if len < 0 {
            proof {
                lemma_root_path();
            }
            return Err(ErrorPath::new(ReadError::SeqLengthViolation(MAX_ARRAY_LEN, len)));
        }
        let ghost k = b.len() - src.rest().len();
        proof {
            assert(src.rest() =~= b.skip(k));
        }
        let r = read_bytes(src, len as usize);
        proof {
            if k + len <= b.len() {
                assert(b.skip(k).skip(len as int) =~= b.skip(k + len));
            }
        }
        r
    }

    /// Reads a variable-length array of 32-bit signed integers.
    fn i32_vec(&mut self, src: &mut ByteSource) -> (r: Res<Vec<i32>>)
        ensures
            view_outcome(
                r,
                old(src).rest(),
                final(src).rest(),
                prefixed_seq(
                    Self::parse_i32(old(src).rest()),
                    old(src).rest(),
                    |s: Seq<u8>| Self::parse_i32(s),
                ),
            ),
            negative_length_stops(Self::parse_i32(old(src).rest()), old(src).rest(), final(src).rest()),
    {
        let ghost b = src.rest();
        let ghost elem = |s: Seq<u8>| Self::parse_i32(s);
        let len = match self.i32(src) {
            Ok(l) => l,
            Err(e) => {
                return Err(e);
            },
        };
        if len < 0 {
            proof {
                lemma_root_path();
            }
            return Err(ErrorPath::new(ReadError::SeqLengthViolation(MAX_ARRAY_LEN, len)));
        }
        let ghost k = b.len() - src.rest().len();
        let ghost body = src.rest();
        proof {
            assert(body =~= b.skip(k));
        }
        let n = len as usize;
        let mut out: Vec<i32> = Vec::with_capacity(
            if n < CAPACITY_GUARD / 4 {
                n
            } else {
                CAPACITY_GUARD / 4
            },
        );
        let mut i: usize = 0;
        let ghost mut used: nat = 0;
        while i < n
            invariant
                b == old(src).rest(),
                body == b.skip(k),
                0 <= k <= b.len(),
                Self::parse_i32(b) == Parsed::<i32>::Done(len, k as nat),
                n == len,
                elem == (|s: Seq<u8>| Self::parse_i32(s)),
                i <= n,
                used <= body.len(),
                parse_seq(elem, body, i as nat) == Parsed::Done(out@, used),
                src.rest() == body.skip(used as int),
            decreases n - i,
        {
            let ghost before = src.rest();
            match self.i32(src) {
                Ok(v) => {
                    out.push(v);
                    proof {
                        let m = (before.len() - src.rest().len()) as nat;
                        assert(body.skip(used as int).skip(m as int) =~= body.skip((used + m) as int));
                        used = used + m;
                    }
                },
                Err(e) => {
                    let e2 = e.prepend(PathPart::Element(i));
                    proof {
                        assert(Self::parse_i32(before) is Failed);
                        let f = Self::parse_i32(before)->Failed_0;
                        let at = Self::parse_i32(before)->Failed_1;
                        assert(element_path(seq![i as nat].add(at)) =~= e2.path@);
                        assert(parse_seq(elem, body, (i + 1) as nat) == Parsed::<Seq<i32>>::Failed(f, seq![i as nat].add(at)));
                        lemma_parse_seq_failed(elem, body, (i + 1) as nat, n as nat);
                    }
                    return Err(e2);
                },
            }
            i = i + 1;
        }
        proof {
            assert(b.skip(k).skip(used as int) =~= b.skip((k + used) as int));
        }
        Ok(out)
    }

    /// Reads a variable-length array of 64-bit signed integers.
    fn i64_vec(&mut self, src: &mut ByteSource) -> (r: Res<Vec<i64>>)
        ensures
            view_outcome(
                r,
                old(src).rest(),
                final(src).rest(),
                prefixed_seq(
                    Self::parse_i32(old(src).rest()),
                    old(src).rest(),
                    |s: Seq<u8>| Self::parse_i64(s),
                ),
            ),
            negative_length_stops(Self::parse_i32(old(src).rest()), old(src).rest(), final(src).rest()),
    {
        let ghost b = src.rest();
        let ghost elem = |s: Seq<u8>| Self::parse_i64(s);
        let len = match self.i32(src) {
            Ok(l) => l,
            Err(e) => {
                return Err(e);
            },
        };
        if len < 0 {
            proof {
                lemma_root_path();
            }
            return Err(ErrorPath::new(ReadError::SeqLengthViolation(MAX_ARRAY_LEN, len)));
        }
        let ghost k = b.len() - src.rest().len();
        let ghost body = src.rest();
        proof {
            assert(body =~= b.skip(k));
        }
        let n = len as usize;
        let mut out: Vec<i64> = Vec::with_capacity(
            if n < CAPACITY_GUARD / 8 {
                n
            } else {
                CAPACITY_GUARD / 8
            },
        );
        let mut i: usize = 0;
        let ghost mut used: nat = 0;
        while i < n
            invariant
                b == old(src).rest(),
                body == b.skip(k),
                0 <= k <= b.len(),
                Self::parse_i32(b) == Parsed::<i32>::Done(len, k as nat),
                n == len,
                elem == (|s: Seq<u8>| Self::parse_i64(s)),
                i <= n,
                used <= body.len(),
                parse_seq(elem, body, i as nat) == Parsed::Done(out@, used),
                src.rest() == body.skip(used as int),
            decreases n - i,
        {
            let ghost before = src.rest();
            match self.i64(src) {
                Ok(v) => {
                    out.push(v);
                    proof {
                        let m = (before.len() - src.rest().len()) as nat;
                        assert(body.skip(used as int).skip(m as int) =~= body.skip((used + m) as int));
                        used = used + m;
                    }
                },
                Err(e) => {
                    let e2 = e.prepend(PathPart::Element(i));
                    proof {
                        assert(Self::parse_i64(before) is Failed);
                        let f = Self::parse_i64(before)->Failed_0;
                        let at = Self::parse_i64(before)->Failed_1;
                        assert(element_path(seq![i as nat].add(at)) =~= e2.path@);
                        assert(parse_seq(elem, body, (i + 1) as nat) == Parsed::<Seq<i64>>::Failed(f, seq![i as nat].add(at)));
                        lemma_parse_seq_failed(elem, body, (i + 1) as nat, n as nat);
                    }
                    return Err(e2);
                },
            }
            i = i + 1;
        }
        proof {
            assert(b.skip(k).skip(used as int) =~= b.skip((k + used) as int));
        }
        Ok(out)
    }
}

/// A mutable reference to a reader reads as the reader does.
impl<T: Reader> Reader for &mut T {
    open spec fn parse_i16(b: Seq<u8>) -> Parsed<i16> {
        T::parse_i16(b)
    }

    open spec fn parse_i32(b: Seq<u8>) -> Parsed<i32> {
        T::parse_i32(b)
    }

    open spec fn parse_i64(b: Seq<u8>) -> Parsed<i64> {
        T::parse_i64(b)
    }

    open spec fn parse_f32_bits(b: Seq<u8>) -> Parsed<u32> {
        T::parse_f32_bits(b)
    }

    open spec fn parse_f64_bits(b: Seq<u8>) -> Parsed<u64> {
        T::parse_f64_bits(b)
    }

    open spec fn parse_string(b: Seq<u8>) -> Parsed<Seq<char>> {
        T::parse_string(b)
    }

    fn u8(&mut self, src: &mut ByteSource) -> (r: Res<u8>) {
        (**self).u8(src)
    }

    fn i16(&mut self, src: &mut ByteSource) -> (r: Res<i16>) {
        (**self).i16(src)
    }

    fn i32(&mut self, src: &mut ByteSource) -> (r: Res<i32>) {
        (**self).i32(src)
    }

    fn i64(&mut self, src: &mut ByteSource) -> (r: Res<i64>) {
        (**self).i64(src)
    }

    fn f32_bits(&mut self, src: &mut ByteSource) -> (r: Res<u32>) {
        (**self).f32_bits(src)
    }

    fn f64_bits(&mut self, src: &mut ByteSource) -> (r: Res<u64>) {
        (**self).f64_bits(src)
    }

    fn end(&mut self, src: &mut ByteSource) -> (r: Res<()>) {
        (**self).end(src)
    }

    fn string(&mut self, src: &mut ByteSource) -> (r: Res<String>) {
        (**self).string(src)
    }

    fn u8_vec(&mut self, src: &mut ByteSource) -> (r: Res<Vec<u8>>) {
        (**self).u8_vec(src)
    }

    fn i32_vec(&mut self, src: &mut ByteSource) -> (r: Res<Vec<i32>>) {
        proof {
            assert((|s: Seq<u8>| Self::parse_i32(s)) =~= (|s: Seq<u8>| T::parse_i32(s)));
        }
        (**self).i32_vec(src)
    }

    fn i64_vec(&mut self, src: &mut ByteSource) -> (r: Res<Vec<i64>>) {
        proof {
            assert((|s: Seq<u8>| Self::parse_i64(s)) =~= (|s: Seq<u8>| T::parse_i64(s)));
        }
        (**self).i64_vec(src)
    }
}

} // verus!
