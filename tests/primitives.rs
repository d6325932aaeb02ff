use nbt_codec::encoding::{BigEndian, LittleEndian, NetworkLittleEndian};
use nbt_codec::err::{ErrorPath, IoFailure, PathPart, ReadError, WriteError};
use nbt_codec::reader::Reader;
use nbt_codec::source::ByteSource;
use nbt_codec::wire::hex_of;
use nbt_codec::writer::Writer;

fn net_i32(x: i32) -> Vec<u8> {
    let mut out = Vec::new();
    NetworkLittleEndian.write_i32(&mut out, x).unwrap();
    out
}

fn net_i64(x: i64) -> Vec<u8> {
    let mut out = Vec::new();
    NetworkLittleEndian.write_i64(&mut out, x).unwrap();
    out
}

fn src(bytes: &[u8]) -> ByteSource {
    ByteSource::new(bytes.to_vec())
}

fn eof() -> ErrorPath<ReadError> {
    ErrorPath::new(ReadError::Io(IoFailure::UnexpectedEof))
}

#[test]
fn fixed_width_orders_mirror() {
    let mut be = Vec::new();
    let mut le = Vec::new();
    BigEndian.write_i32(&mut be, 0x01020304).unwrap();
    LittleEndian.write_i32(&mut le, 0x01020304).unwrap();
    assert_eq!(be, vec![1, 2, 3, 4]);
    assert_eq!(le, vec![4, 3, 2, 1]);
    let mut be = Vec::new();
    let mut le = Vec::new();
    BigEndian.write_i16(&mut be, 0x0102).unwrap();
    LittleEndian.write_i16(&mut le, 0x0102).unwrap();
    assert_eq!(be, vec![1, 2]);
    assert_eq!(le, vec![2, 1]);
    let mut be = Vec::new();
    let mut le = Vec::new();
    BigEndian.write_i64(&mut be, 0x0102030405060708).unwrap();
    LittleEndian.write_i64(&mut le, 0x0102030405060708).unwrap();
    assert_eq!(be, vec![1, 2, 3, 4, 5, 6, 7, 8]);
    assert_eq!(le, vec![8, 7, 6, 5, 4, 3, 2, 1]);
}

#[test]
fn fixed_width_reads() {
    assert_eq!(BigEndian.i32(&mut src(&[0xff, 0xff, 0xff, 0xfe])), Ok(-2));
    assert_eq!(LittleEndian.i32(&mut src(&[0xfe, 0xff, 0xff, 0xff])), Ok(-2));
    assert_eq!(BigEndian.i16(&mut src(&[0x80, 0x00])), Ok(i16::MIN));
    assert_eq!(LittleEndian.i64(&mut src(&[1, 0, 0, 0, 0, 0, 0, 0])), Ok(1));
    assert_eq!(NetworkLittleEndian.i16(&mut src(&[0x34, 0x12])), Ok(0x1234));
    assert_eq!(BigEndian.i32(&mut src(&[1, 2, 3])), Err(eof()));
}

#[test]
fn float_bits_follow_byte_order() {
    let bits = 1.5f32.to_bits();
    let mut be = Vec::new();
    let mut net = Vec::new();
    BigEndian.write_f32_bits(&mut be, bits).unwrap();
    NetworkLittleEndian.write_f32_bits(&mut net, bits).unwrap();
    assert_eq!(be, vec![0x3f, 0xc0, 0x00, 0x00]);
    assert_eq!(net, vec![0x00, 0x00, 0xc0, 0x3f]);
    let mut s = src(&be);
    assert_eq!(f32::from_bits(BigEndian.f32_bits(&mut s).unwrap()), 1.5);
    let mut le = Vec::new();
    LittleEndian.write_f64_bits(&mut le, (-2.0f64).to_bits()).unwrap();
    assert_eq!(f64::from_bits(LittleEndian.f64_bits(&mut src(&le)).unwrap()), -2.0);
}

#[test]
fn varint_boundary_values() {
    assert_eq!(net_i32(0), vec![0x00]);
    assert_eq!(net_i32(-1), vec![0x01]);
    assert_eq!(net_i32(1), vec![0x02]);
    assert_eq!(net_i32(-2), vec![0x03]);
    assert_eq!(net_i32(63), vec![0x7e]);
    assert_eq!(net_i32(64), vec![0x80, 0x01]);
    assert_eq!(net_i32(i32::MAX), vec![0xfe, 0xff, 0xff, 0xff, 0x0f]);
    assert_eq!(net_i32(i32::MIN), vec![0xff, 0xff, 0xff, 0xff, 0x0f]);
    assert_eq!(net_i64(0), vec![0x00]);
    assert_eq!(net_i64(-1), vec![0x01]);
    assert_eq!(net_i64(1), vec![0x02]);
}

#[test]
fn varint_reads_back() {
    for x in [0, -1, 1, -2, 63, 64, -65, 300, i32::MAX, i32::MIN] {
        let bytes = net_i32(x);
        let mut s = src(&bytes);
        assert_eq!(NetworkLittleEndian.i32(&mut s), Ok(x));
        assert_eq!(s.remaining(), 0);
    }
    for x in [0, -1, 1, 1 << 40, i64::MAX, i64::MIN] {
        let bytes = net_i64(x);
        let mut s = src(&bytes);
        assert_eq!(NetworkLittleEndian.i64(&mut s), Ok(x));
        assert_eq!(s.remaining(), 0);
    }
    assert_eq!(
        NetworkLittleEndian.i32(&mut src(&[0xff, 0xff, 0xff, 0xff, 0x0f])),
        Ok(i32::MIN)
    );
}

#[test]
fn varint_overflow() {
    let custom = ErrorPath::new(ReadError::Custom("varint overflows integer".to_string()));
    assert_eq!(NetworkLittleEndian.i32(&mut src(&[0x80; 5])), Err(custom.clone_custom()));
    assert_eq!(NetworkLittleEndian.i64(&mut src(&[0xff; 10])), Err(custom.clone_custom()));
    assert_eq!(NetworkLittleEndian.string(&mut src(&[0x80; 5])), Err(custom));
    assert_eq!(NetworkLittleEndian.i32(&mut src(&[0x80, 0x80])), Err(eof()));
}

trait CloneCustom {
    fn clone_custom(&self) -> Self;
}

impl CloneCustom for ErrorPath<ReadError> {
    fn clone_custom(&self) -> Self {
        match &self.reason {
            ReadError::Custom(m) => ErrorPath::new(ReadError::Custom(m.clone())),
            _ => unreachable!(),
        }
    }
}

#[test]
fn string_length_cap_on_write() {
    let long = "a".repeat(32768);
    let ok = "a".repeat(32767);
    let want = ErrorPath::new(WriteError::SeqLengthViolation(32767, 32768));
    let mut out = Vec::new();
    assert_eq!(BigEndian.write_string(&mut out, &long), Err(want.clone()));
    assert_eq!(LittleEndian.write_string(&mut out, &long), Err(want.clone()));
    assert_eq!(NetworkLittleEndian.write_string(&mut out, &long), Err(want));
    assert!(out.is_empty());
    assert_eq!(BigEndian.write_string(&mut out, &ok), Ok(()));
    assert_eq!(&out[..2], &[0x7f, 0xff]);
    assert_eq!(out.len(), 32769);
    let mut net = Vec::new();
    assert_eq!(NetworkLittleEndian.write_string(&mut net, &ok), Ok(()));
    assert_eq!(&net[..3], &[0xff, 0xff, 0x01]);
    assert_eq!(NetworkLittleEndian.string(&mut src(&net)), Ok(ok));
}

#[test]
fn string_round_trip_with_multibyte() {
    for text in ["", "héllo", "日本語"] {
        let mut out = Vec::new();
        LittleEndian.write_string(&mut out, text).unwrap();
        assert_eq!(LittleEndian.string(&mut src(&out)), Ok(text.to_string()));
    }
}

#[test]
fn negative_length_on_read() {
    let mut s = src(&[0xff, 0xff, 0x41, 0x42]);
    assert_eq!(
        BigEndian.string(&mut s),
        Err(ErrorPath::new(ReadError::SeqLengthViolation(32767, -1)))
    );
    assert_eq!(s.remaining(), 2);
    let mut s = src(&[0xfe, 0xff, 0xff, 0xff, 9]);
    assert_eq!(
        LittleEndian.u8_vec(&mut s),
        Err(ErrorPath::new(ReadError::SeqLengthViolation(2147483647, -2)))
    );
    assert_eq!(s.remaining(), 1);
    let mut s = src(&[0x03, 9]);
    assert_eq!(
        NetworkLittleEndian.i64_vec(&mut s),
        Err(ErrorPath::new(ReadError::SeqLengthViolation(2147483647, -2)))
    );
    assert_eq!(s.remaining(), 1);
}

#[test]
fn unexpected_end_tag() {
    let err = BigEndian.end(&mut src(&[0x0a])).unwrap_err();
    assert_eq!(
        err,
        ErrorPath::new(ReadError::UnexpectedTag("END (0x00)".to_string(), "0x0a".to_string()))
    );
    assert_eq!(LittleEndian.end(&mut src(&[0x00])), Ok(()));
    assert_eq!(NetworkLittleEndian.end(&mut src(&[])), Err(eof()));
    assert_eq!(hex_of(0xff), "0xff");
    assert_eq!(hex_of(0x05), "0x05");
}

#[test]
fn path_preservation() {
    let mut bytes = Vec::new();
    BigEndian.write_i32(&mut bytes, 8).unwrap();
    for i in 0..5 {
        BigEndian.write_i32(&mut bytes, i).unwrap();
    }
    bytes.extend_from_slice(&[0, 0]);
    let err = BigEndian.i32_vec(&mut src(&bytes)).unwrap_err();
    assert_eq!(err.path, vec![PathPart::Element(5)]);
    let err = err.prepend(PathPart::Field("inventory".to_string()));
    assert_eq!(
        err.path,
        vec![PathPart::Field("inventory".to_string()), PathPart::Element(5)]
    );
    assert_eq!(err.reason, ReadError::Io(IoFailure::UnexpectedEof));
}

#[test]
fn missing_string_byte_reports_its_index() {
    let err = BigEndian.string(&mut src(&[0, 4, b'a', b'b'])).unwrap_err();
    assert_eq!(err.path, vec![PathPart::Element(2)]);
    let err = LittleEndian.u8_vec(&mut src(&[3, 0, 0, 0, 7])).unwrap_err();
    assert_eq!(err.path, vec![PathPart::Element(1)]);
}

#[test]
fn invalid_utf8() {
    let err = BigEndian.string(&mut src(&[0, 2, 0xc3, 0x28])).unwrap_err();
    assert!(matches!(err.reason, ReadError::InvalidUtf8(_)));
    assert!(err.path.is_empty());
    let err = NetworkLittleEndian.string(&mut src(&[1, 0xff])).unwrap_err();
    assert!(matches!(err.reason, ReadError::InvalidUtf8(_)));
}

#[test]
fn arrays_round_trip_in_every_encoding() {
    let ints = vec![0, -1, 7, i32::MIN, i32::MAX];
    let longs = vec![i64::MIN, 5, -5];
    let bytes = vec![9u8, 0, 255];
    let mut out = Vec::new();
    NetworkLittleEndian.write_i32_vec(&mut out, &ints).unwrap();
    NetworkLittleEndian.write_i64_vec(&mut out, &longs).unwrap();
    NetworkLittleEndian.write_u8_vec(&mut out, &bytes).unwrap();
    assert_eq!(out[0], 0x0a);
    let mut s = src(&out);
    assert_eq!(NetworkLittleEndian.i32_vec(&mut s), Ok(ints.clone()));
    assert_eq!(NetworkLittleEndian.i64_vec(&mut s), Ok(longs.clone()));
    assert_eq!(NetworkLittleEndian.u8_vec(&mut s), Ok(bytes.clone()));
    let mut out = Vec::new();
    BigEndian.write_i32_vec(&mut out, &ints).unwrap();
    assert_eq!(&out[..8], &[0, 0, 0, 5, 0, 0, 0, 0]);
    assert_eq!(BigEndian.i32_vec(&mut src(&out)), Ok(ints));
    let mut out = Vec::new();
    LittleEndian.write_i64_vec(&mut out, &longs).unwrap();
    assert_eq!(LittleEndian.i64_vec(&mut src(&out)), Ok(longs));
}

#[test]
fn end_tag_and_byte() {
    let mut out = Vec::new();
    BigEndian.write_end(&mut out).unwrap();
    NetworkLittleEndian.write_u8(&mut out, 0xab).unwrap();
    assert_eq!(out, vec![0, 0xab]);
    let mut s = src(&out);
    assert_eq!(BigEndian.end(&mut s), Ok(()));
    assert_eq!(BigEndian.u8(&mut s), Ok(0xab));
    assert_eq!(BigEndian.u8(&mut s), Err(eof()));
}

#[test]
fn large_length_prefix_reads_lazily() {
    let mut s = src(&[0x7f, 0xff, 0xff, 0xff, 1, 2]);
    let err = BigEndian.u8_vec(&mut s).unwrap_err();
    assert_eq!(err.path, vec![PathPart::Element(2)]);
    assert_eq!(s.remaining(), 0);
}

fn write_pair<W: Writer>(mut w: W, out: &mut Vec<u8>) {
    w.write_i32(out, 300).unwrap();
    w.write_string(out, "ab").unwrap();
}

fn read_pair<R: Reader>(mut r: R, s: &mut ByteSource) -> (i32, String) {
    (r.i32(s).unwrap(), r.string(s).unwrap())
}

#[test]
fn mutable_reference_codec() {
    let mut codec = NetworkLittleEndian;
    let mut out = Vec::new();
    write_pair(&mut codec, &mut out);
    assert_eq!(out, vec![0xd8, 0x04, 0x02, b'a', b'b']);
    let mut s = src(&out);
    assert_eq!(read_pair(&mut codec, &mut s), (300, "ab".to_string()));
}
