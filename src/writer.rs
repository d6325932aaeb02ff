//! The write side of a codec: the bytes that each primitive appends.
use crate::err::{ErrorPath, PathPart, WriteError};
use crate::reader::{MAX_ARRAY_LEN, MAX_STRING_LEN};
use vstd::prelude::*;
use vstd::string::*;

verus! {

/// A short notation for the result type used in the [Writer].
pub type Res = Result<(), ErrorPath<WriteError>>;

/// The images of `xs`, one after the other.
pub open spec fn concat_images<T>(xs: Seq<T>, image: spec_fn(T) -> Seq<u8>) -> Seq<u8>
    decreases xs.len(),
{
    if xs.len() == 0 {
        seq![]
    } else {
        concat_images(xs.drop_last(), image).add(image(xs.last()))
    }
}

/// `r` reports a sequence of length `seen` over the limit `max`, with an empty path.
pub open spec fn too_long(r: Res, max: usize, seen: usize) -> bool {
    &&& r is Err
    &&& r->Err_0.reason == WriteError::SeqLengthViolation(max, seen)
    &&& r->Err_0.path@ == Seq::<PathPart>::empty()
}

/// The error for a sequence of length `seen` over the limit `max`.
pub(crate) fn length_error(max: usize, seen: usize) -> (r: Res)
    ensures
        too_long(r, max, seen),
{
    Err(ErrorPath::new(WriteError::SeqLengthViolation(max, seen)))
}

/// Appends the bytes of `x`.
pub(crate) fn write_bytes(sink: &mut Vec<u8>, x: &[u8])
    ensures
        final(sink)@ == old(sink)@.add(x@),
{
    let mut i: usize = 0;
    while i < x.len()
        invariant
            i <= x@.len(),
            sink@ == old(sink)@.add(x@.take(i as int)),
        decreases x@.len() - i,
    {
        sink.push(x[i]);
        i = i + 1;
        proof {
            assert(sink@ =~= old(sink)@.add(x@.take(i as int)));
        }
    }
    proof {
        assert(x@.take(i as int) =~= x@);
    }
}

/// The write side of a codec. All the methods return their failures and never panic; an
/// in-memory sink itself never fails.
pub trait Writer {
    /// The bytes that [`Writer::write_i16`] appends.
    spec fn i16_image(x: i16) -> Seq<u8>;

    /// The bytes that [`Writer::write_i32`] appends.
    spec fn i32_image(x: i32) -> Seq<u8>;

    /// The bytes that [`Writer::write_i64`] appends.
    spec fn i64_image(x: i64) -> Seq<u8>;

    /// The bytes that [`Writer::write_f32_bits`] appends.
    spec fn f32_bits_image(x: u32) -> Seq<u8>;

    /// The bytes that [`Writer::write_f64_bits`] appends.
    spec fn f64_bits_image(x: u64) -> Seq<u8>;

    /// The bytes that [`Writer::write_string`] appends for a string of these UTF-8 bytes.
    spec fn string_image(bytes: Seq<u8>) -> Seq<u8>;

    /// Writes an 8-bit unsigned integer.
    fn write_u8(&mut self, sink: &mut Vec<u8>, x: u8) -> (r: Res)
        ensures
            r is Ok,
            final(sink)@ == old(sink)@.push(x),
    {
        sink.push(x);
        Ok(())
    }

    /// Writes a 16-bit signed integer.
    fn write_i16(&mut self, sink: &mut Vec<u8>, x: i16) -> (r: Res)
        ensures
            r is Ok,
            final(sink)@ == old(sink)@.add(Self::i16_image(x)),
    ;

    /// Writes a 32-bit signed integer.
    fn write_i32(&mut self, sink: &mut Vec<u8>, x: i32) -> (r: Res)
        ensures
            r is Ok,
            final(sink)@ == old(sink)@.add(Self::i32_image(x)),
    ;

    /// Writes a 64-bit signed integer.
    fn write_i64(&mut self, sink: &mut Vec<u8>, x: i64) -> (r: Res)
        ensures
            r is Ok,
            final(sink)@ == old(sink)@.add(Self::i64_image(x)),
    ;

    /// Writes the bit pattern of a 32-bit floating point number.
    fn write_f32_bits(&mut self, sink: &mut Vec<u8>, x: u32) -> (r: Res)
        ensures
            r is Ok,
            final(sink)@ == old(sink)@.add(Self::f32_bits_image(x)),
    ;

    /// Writes the bit pattern of a 64-bit floating point number.
    fn write_f64_bits(&mut self, sink: &mut Vec<u8>, x: u64) -> (r: Res)
        ensures
            r is Ok,
            final(sink)@ == old(sink)@.add(Self::f64_bits_image(x)),
    ;

    /// Writes the NBT `end` tag, which indicates the end of a compound tag.
    fn write_end(&mut self, sink: &mut Vec<u8>) -> (r: Res)
        ensures
            r is Ok,
            final(sink)@ == old(sink)@.push(0u8),
    {
        self.write_u8(sink, 0)
    }

    /// Writes a variable-length string; one of more than 32767 bytes is refused.
    fn write_string(&mut self, sink: &mut Vec<u8>, x: &str) -> (r: Res)
        ensures
            x.spec_bytes().len() > MAX_STRING_LEN ==> too_long(r, MAX_STRING_LEN, x.spec_bytes().len() as usize)
                && final(sink)@ == old(sink)@,
            x.spec_bytes().len() <= MAX_STRING_LEN ==> r is Ok && final(sink)@ == old(sink)@.add(
                Self::string_image(x.spec_bytes()),
            ),
    ;

    /// Writes a variable-length array of 8-bit unsigned integers; one of more than
    /// 2147483647 elements is refused.
    fn write_u8_vec(&mut self, sink: &mut Vec<u8>, x: &[u8]) -> (r: Res)
        ensures
            x@.len() > MAX_ARRAY_LEN ==> too_long(r, MAX_ARRAY_LEN, x@.len() as usize)
                && final(sink)@ == old(sink)@,
            x@.len() <= MAX_ARRAY_LEN ==> r is Ok && final(sink)@ == old(sink)@.add(
                Self::i32_image(x@.len() as i32),
            ).add(x@),
    {
        if x.len() > MAX_ARRAY_LEN {
            return length_error(MAX_ARRAY_LEN, x.len());
        }
        match self.write_i32(sink, x.len() as i32) {
            Ok(()) => {},
            Err(e) => {
                return Err(e);
            },
        }
        let ghost mid = sink@;
        let mut i: usize = 0;
        while i < x.len()
            invariant
                i <= x@.len(),
                sink@ == mid.add(x@.take(i as int)),
            decreases x@.len() - i,
        {
            match self.write_u8(sink, x[i]) {
                Ok(()) => {},
                Err(e) => {
                    return Err(e.prepend(PathPart::Element(i)));
                },
            }
            i = i + 1;
            proof {
                assert(sink@ =~= mid.add(x@.take(i as int)));
            }
        }
        proof {
            assert(x@.take(i as int) =~= x@);
        }
        Ok(())
    }

    /// Writes a variable-length array of 32-bit signed integers; one of more than 2147483647 elements is
    /// refused.
    fn write_i32_vec(&mut self, sink: &mut Vec<u8>, x: &[i32]) -> (r: Res)
        ensures
            x@.len() > MAX_ARRAY_LEN ==> too_long(r, MAX_ARRAY_LEN, x@.len() as usize)
                && final(sink)@ == old(sink)@,
            x@.len() <= MAX_ARRAY_LEN ==> r is Ok && final(sink)@ == old(sink)@.add(
                Self::i32_image(x@.len() as i32),
            ).add(concat_images(x@, |v: i32| Self::i32_image(v))),
    {
        if x.len() > MAX_ARRAY_LEN {
            return length_error(MAX_ARRAY_LEN, x.len());
        }
        match self.write_i32(sink, x.len() as i32) {
            Ok(()) => {},
            Err(e) => {
                return Err(e);
            },
        }
        let ghost mid = sink@;
        let ghost image = |v: i32| Self::i32_image(v);
        let mut i: usize = 0;
        while i < x.len()
            invariant
                i <= x@.len(),
                image == (|v: i32| Self::i32_image(v)),
                sink@ == mid.add(concat_images(x@.take(i as int), image)),
            decreases x@.len() - i,
        {
            match self.write_i32(sink, x[i]) {
                Ok(()) => {},
                Err(e) => {
                    return Err(e.prepend(PathPart::Element(i)));
                },
            }
            proof {
                let t = x@.take(i + 1);
                assert(t.drop_last() =~= x@.take(i as int));
                assert(t.last() == x@[i as int]);
                assert(sink@ =~= mid.add(concat_images(t, image)));
            }
            i = i + 1;
        }
        proof {
            assert(x@.take(i as int) =~= x@);
        }
        Ok(())
    }

    /// Writes a variable-length array of 64-bit signed integers; one of more than 2147483647 elements is
    /// refused.
    fn write_i64_vec(&mut self, sink: &mut Vec<u8>, x: &[i64]) -> (r: Res)
        ensures
            x@.len() > MAX_ARRAY_LEN ==> too_long(r, MAX_ARRAY_LEN, x@.len() as usize)
                && final(sink)@ == old(sink)@,
            x@.len() <= MAX_ARRAY_LEN ==> r is Ok && final(sink)@ == old(sink)@.add(
                Self::i32_image(x@.len() as i32),
            ).add(concat_images(x@, |v: i64| Self::i64_image(v))),
    {
        if x.len() > MAX_ARRAY_LEN {
            return length_error(MAX_ARRAY_LEN, x.len());
        }
        match self.write_i32(sink, x.len() as i32) {
            Ok(()) => {},
            Err(e) => {
                return Err(e);
            },
        }
        let ghost mid = sink@;
        let ghost image = |v: i64| Self::i64_image(v);
        let mut i: usize = 0;
        while i < x.len()
            invariant
                i <= x@.len(),
                image == (|v: i64| Self::i64_image(v)),
                sink@ == mid.add(concat_images(x@.take(i as int), image)),
            decreases x@.len() - i,
        {
            match self.write_i64(sink, x[i]) {
                Ok(()) => {},
                Err(e) => {
                    return Err(e.prepend(PathPart::Element(i)));
                },
            }
            proof {
                let t = x@.take(i + 1);
                assert(t.drop_last() =~= x@.take(i as int));
                assert(t.last() == x@[i as int]);
                assert(sink@ =~= mid.add(concat_images(t, image)));
            }
            i = i + 1;
        }
        proof {
            assert(x@.take(i as int) =~= x@);
        }
        Ok(())
    }
}

/// A mutable reference to a writer writes as the writer does.
impl<T: Writer> Writer for &mut T {
    open spec fn i16_image(x: i16) -> Seq<u8> {
        T::i16_image(x)
    }

    open spec fn i32_image(x: i32) -> Seq<u8> {
        T::i32_image(x)
    }

    open spec fn i64_image(x: i64) -> Seq<u8> {
        T::i64_image(x)
    }

    open spec fn f32_bits_image(x: u32) -> Seq<u8> {
        T::f32_bits_image(x)
    }

    open spec fn f64_bits_image(x: u64) -> Seq<u8> {
        T::f64_bits_image(x)
    }

    open spec fn string_image(bytes: Seq<u8>) -> Seq<u8> {
        T::string_image(bytes)
    }

    fn write_u8(&mut self, sink: &mut Vec<u8>, x: u8) -> (r: Res) {
        (**self).write_u8(sink, x)
    }

    fn write_i16(&mut self, sink: &mut Vec<u8>, x: i16) -> (r: Res) {
        (**self).write_i16(sink, x)
    }

    fn write_i32(&mut self, sink: &mut Vec<u8>, x: i32) -> (r: Res) {
        (**self).write_i32(sink, x)
    }

    fn write_i64(&mut self, sink: &mut Vec<u8>, x: i64) -> (r: Res) {
        (**self).write_i64(sink, x)
    }

    fn write_f32_bits(&mut self, sink: &mut Vec<u8>, x: u32) -> (r: Res) {
        (**self).write_f32_bits(sink, x)
    }

    fn write_f64_bits(&mut self, sink: &mut Vec<u8>, x: u64) -> (r: Res) {
        (**self).write_f64_bits(sink, x)
    }

    fn write_end(&mut self, sink: &mut Vec<u8>) -> (r: Res) {
        (**self).write_end(sink)
    }

    fn write_string(&mut self, sink: &mut Vec<u8>, x: &str) -> (r: Res) {
        (**self).write_string(sink, x)
    }

    fn write_u8_vec(&mut self, sink: &mut Vec<u8>, x: &[u8]) -> (r: Res) {
        (**self).write_u8_vec(sink, x)
    }

    fn write_i32_vec(&mut self, sink: &mut Vec<u8>, x: &[i32]) -> (r: Res) {
        proof {
            assert((|v: i32| Self::i32_image(v)) =~= (|v: i32| T::i32_image(v)));
        }
        (**self).write_i32_vec(sink, x)
    }

    fn write_i64_vec(&mut self, sink: &mut Vec<u8>, x: &[i64]) -> (r: Res) {
        proof {
            assert((|v: i64| Self::i64_image(v)) =~= (|v: i64| T::i64_image(v)));
        }
        (**self).write_i64_vec(sink, x)
    }
}

} // verus!
