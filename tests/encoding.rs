use nbt_codec::encoding::{BigEndian, LittleEndian, NetworkLittleEndian};
use nbt_codec::reader::Reader;
use nbt_codec::source::ByteSource;
use nbt_codec::writer::Writer;

const TAG_END: u8 = 0;
const TAG_BYTE: u8 = 1;
const TAG_SHORT: u8 = 2;
const TAG_LONG: u8 = 4;
const TAG_BYTE_ARRAY: u8 = 7;
const TAG_LIST: u8 = 9;
const TAG_COMPOUND: u8 = 10;

#[derive(Debug, PartialEq)]
struct Doc {
    test: i64,
    test1: u8,
    test2: i16,
    test3: Vec<Vec<u8>>,
    test4: Vec<u8>,
}

fn sample() -> Doc {
    Doc {
        test: 10,
        test1: 100,
        test2: 1,
        test3: vec![vec![1, 2, 3], vec![4, 5, 6]],
        test4: vec![1, 3],
    }
}

fn field<T: Writer>(w: &mut T, out: &mut Vec<u8>, id: u8, name: &str) {
    w.write_u8(out, id).unwrap();
    w.write_string(out, name).unwrap();
}

fn write_doc<T: Writer>(w: &mut T, out: &mut Vec<u8>, d: &Doc) {
    field(w, out, TAG_COMPOUND, "");
    field(w, out, TAG_LONG, "test");
    w.write_i64(out, d.test).unwrap();
    field(w, out, TAG_BYTE, "test1");
    w.write_u8(out, d.test1).unwrap();
    field(w, out, TAG_SHORT, "test2");
    w.write_i16(out, d.test2).unwrap();
    field(w, out, TAG_LIST, "test3");
    w.write_u8(out, TAG_BYTE_ARRAY).unwrap();
    w.write_i32(out, d.test3.len() as i32).unwrap();
    for a in &d.test3 {
        w.write_u8_vec(out, a).unwrap();
    }
    field(w, out, TAG_LIST, "test4");
    w.write_u8(out, TAG_BYTE).unwrap();
    w.write_i32(out, d.test4.len() as i32).unwrap();
    for b in &d.test4 {
        w.write_u8(out, *b).unwrap();
    }
    field(w, out, TAG_COMPOUND, "test5");
    w.write_end(out).unwrap();
    w.write_end(out).unwrap();
}

fn expect_field<T: Reader>(r: &mut T, src: &mut ByteSource, id: u8, name: &str) {
    assert_eq!(r.u8(src).unwrap(), id);
    assert_eq!(r.string(src).unwrap(), name);
}

fn read_doc<T: Reader>(r: &mut T, src: &mut ByteSource) -> Doc {
    expect_field(r, src, TAG_COMPOUND, "");
    expect_field(r, src, TAG_LONG, "test");
    let test = r.i64(src).unwrap();
    expect_field(r, src, TAG_BYTE, "test1");
    let test1 = r.u8(src).unwrap();
    expect_field(r, src, TAG_SHORT, "test2");
    let test2 = r.i16(src).unwrap();
    expect_field(r, src, TAG_LIST, "test3");
    assert_eq!(r.u8(src).unwrap(), TAG_BYTE_ARRAY);
    let n = r.i32(src).unwrap();
    let mut test3 = Vec::new();
    for _ in 0..n {
        test3.push(r.u8_vec(src).unwrap());
    }
    expect_field(r, src, TAG_LIST, "test4");
    assert_eq!(r.u8(src).unwrap(), TAG_BYTE);
    let n = r.i32(src).unwrap();
    let mut test4 = Vec::new();
    for _ in 0..n {
        test4.push(r.u8(src).unwrap());
    }
    expect_field(r, src, TAG_COMPOUND, "test5");
    r.end(src).unwrap();
    r.end(src).unwrap();
    assert_eq!(src.remaining(), 0);
    assert_eq!(TAG_END, 0);
    Doc { test, test1, test2, test3, test4 }
}

fn test<T: Reader + Writer + Sized + Default>() {
    let nbt = sample();
    let mut buf_writer = Vec::new();
    write_doc(&mut T::default(), &mut buf_writer, &nbt);
    let mut src = ByteSource::new(buf_writer);
    assert_eq!(read_doc(&mut T::default(), &mut src), nbt);
}

#[test]
fn test_big_endian() {
    test::<BigEndian>();
}

#[test]
fn test_little_endian() {
    test::<LittleEndian>();
}

#[test]
fn test_network_little_endian() {
    test::<NetworkLittleEndian>();
}
