use dex::encoded_item::{decode_array, EncodedItem};
use dex::error::Error;
use dex::field::EncodedField;
use dex::method::EncodedMethod;
use dex::raw::{read_u16, read_u32, read_u64, Endian};
use dex::source::Source;
use dex::uleb::{read_uleb128, write_uleb128};

fn encoded(values: &[u64]) -> Vec<u8> {
    let mut out = Vec::new();
    for &v in values {
        write_uleb128(&mut out, v);
    }
    out
}

#[test]
fn uleb_one_byte_values() {
    let src = Source::new(vec![0x00, 0x7f]);
    assert_eq!(read_uleb128(&src, 0), Ok((0, 1)));
    assert_eq!(read_uleb128(&src, 1), Ok((127, 1)));
}

#[test]
fn uleb_two_byte_values() {
    let src = Source::new(vec![0x80, 0x01, 0xac, 0x02]);
    assert_eq!(read_uleb128(&src, 0), Ok((128, 2)));
    assert_eq!(read_uleb128(&src, 2), Ok((300, 2)));
}

#[test]
fn uleb_max_width_value() {
    let bytes = vec![0xff, 0xff, 0xff, 0xff, 0xff, 0xff, 0xff, 0xff, 0xff, 0x01];
    let src = Source::new(bytes);
    assert_eq!(read_uleb128(&src, 0), Ok((u64::MAX, 10)));
}

#[test]
fn uleb_tenth_byte_overflow() {
    let bytes = vec![0xff, 0xff, 0xff, 0xff, 0xff, 0xff, 0xff, 0xff, 0xff, 0x02];
    let src = Source::new(bytes);
    assert_eq!(read_uleb128(&src, 0), Err(Error::MalformedUleb));
}

#[test]
fn uleb_continuation_past_width_fails() {
    let mut bytes = vec![0x80; 10];
    bytes.push(0x00);
    let src = Source::new(bytes);
    assert_eq!(read_uleb128(&src, 0), Err(Error::MalformedUleb));
}

#[test]
fn uleb_truncated_stream() {
    let src = Source::new(vec![0x80]);
    assert_eq!(read_uleb128(&src, 0), Err(Error::OutOfBounds));
    let empty = Source::new(vec![]);
    assert_eq!(read_uleb128(&empty, 0), Err(Error::OutOfBounds));
}

#[test]
fn uleb_round_trip_values() {
    let values = [
        0u64,
        1,
        127,
        128,
        129,
        300,
        16383,
        16384,
        u32::MAX as u64,
        1 << 62,
        u64::MAX - 1,
        u64::MAX,
    ];
    for &v in &values {
        let mut bytes = Vec::new();
        write_uleb128(&mut bytes, v);
        let len = bytes.len();
        let src = Source::new(bytes);
        assert_eq!(read_uleb128(&src, 0), Ok((v, len)));
    }
}

#[test]
fn source_clone_shares_identical_bytes() {
    let src = Source::new(vec![3, 1, 4, 1, 5, 9, 2, 6]);
    let twin = src.clone();
    assert_eq!(src.len(), twin.len());
    for i in 0..src.len() {
        assert_eq!(src.get(i), twin.get(i));
    }
    assert_eq!(src.get(8), None);
}

#[test]
fn source_range_access() {
    let src = Source::new(vec![10, 20, 30, 40]);
    assert_eq!(src.get_range(1, 3), Some(&[20u8, 30u8][..]));
    assert_eq!(src.get_range_from(2), Some(&[30u8, 40u8][..]));
    assert_eq!(src.get_range(3, 2), None);
    assert_eq!(src.get_range(2, 5), None);
    assert_eq!(src.get_range_from(5), None);
}

#[test]
fn words_little_and_big_endian() {
    let src = Source::new(vec![0x01, 0x02, 0x03, 0x04, 0x05, 0x06, 0x07, 0x08]);
    assert_eq!(read_u16(&src, 0, Endian::Little), Ok(0x0201));
    assert_eq!(read_u16(&src, 0, Endian::Big), Ok(0x0102));
    assert_eq!(read_u32(&src, 0, Endian::Little), Ok(0x0403_0201));
    assert_eq!(read_u32(&src, 0, Endian::Big), Ok(0x0102_0304));
    assert_eq!(read_u64(&src, 0, Endian::Little), Ok(0x0807_0605_0403_0201));
    assert_eq!(read_u64(&src, 0, Endian::Big), Ok(0x0102_0304_0506_0708));
    assert_eq!(read_u16(&src, 7, Endian::Little), Err(Error::OutOfBounds));
    assert_eq!(read_u32(&src, 5, Endian::Little), Err(Error::OutOfBounds));
    assert_eq!(read_u64(&src, 1, Endian::Big), Err(Error::OutOfBounds));
}

#[test]
fn field_array_two_records() {
    // count = 2, then (delta 5, flags 1) and (delta 3, flags 0).
    let src = Source::new(encoded(&[2, 5, 1, 3, 0]));
    let (items, end): (Vec<EncodedField>, usize) = decode_array(&src, 0).unwrap();
    assert_eq!(end, 5);
    assert_eq!(items.len(), 2);
    assert_eq!(items[0].field_id, 5);
    assert_eq!(items[0].access_flags, 1);
    assert_eq!(items[1].field_id, 8);
    assert_eq!(items[1].access_flags, 0);
    assert_eq!(items[0].get_id(), 5);
    assert_eq!(items[1].get_id(), 8);
}

#[test]
fn field_array_running_sum_chain() {
    let src = Source::new(encoded(&[4, 300, 7, 0, 1, 1, 0, 16384, 3]));
    let (items, _end): (Vec<EncodedField>, usize) = decode_array(&src, 0).unwrap();
    let ids: Vec<u64> = items.iter().map(|i| i.field_id).collect();
    assert_eq!(ids, vec![300, 300, 301, 16685]);
    let flags: Vec<u64> = items.iter().map(|i| i.access_flags).collect();
    assert_eq!(flags, vec![7, 1, 0, 3]);
}

#[test]
fn method_array_records() {
    // count = 2, then (delta 7, flags 2, code 256) and (delta 1, flags 0, code 0).
    let src = Source::new(encoded(&[2, 7, 2, 256, 1, 0, 0]));
    let (items, _end): (Vec<EncodedMethod>, usize) = decode_array(&src, 0).unwrap();
    assert_eq!(items.len(), 2);
    assert_eq!(items[0].method_id, 7);
    assert_eq!(items[0].access_flags, 2);
    assert_eq!(items[0].code_offset, 256);
    assert_eq!(items[1].method_id, 8);
    assert_eq!(items[1].access_flags, 0);
    assert_eq!(items[1].code_offset, 0);
    assert_eq!(items[0].get_id(), 7);
}

#[test]
fn array_decode_failures() {
    let empty = Source::new(vec![]);
    let r: Result<(Vec<EncodedField>, usize), Error> = decode_array(&empty, 0);
    assert_eq!(r.unwrap_err(), Error::OutOfBounds);
    // Count says two records but the bytes end after one.
    let src = Source::new(encoded(&[2, 5, 1]));
    let r: Result<(Vec<EncodedField>, usize), Error> = decode_array(&src, 0);
    assert_eq!(r.unwrap_err(), Error::OutOfBounds);
}

#[test]
fn delta_id_overflow_is_an_error() {
    let src = Source::new(encoded(&[1, 0]));
    let r: Result<(EncodedField, usize), Error> = EncodedField::try_from_ctx(&src, 0, u64::MAX);
    assert_eq!(r.unwrap_err(), Error::IdOverflow);
    let ok: (EncodedField, usize) = EncodedField::try_from_ctx(&src, 0, 41).unwrap();
    assert_eq!(ok.0.field_id, 42);
}
