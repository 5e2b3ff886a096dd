use std::rc::Rc;

use dex::dex::Dex;
use dex::encoded_item::decode_array;
use dex::error::Error;
use dex::field::{EncodedField, Field};
use dex::jtype::Type;
use dex::method::{EncodedMethod, Method};
use dex::raw::Endian;
use dex::source::Source;
use dex::uleb::write_uleb128;

fn pools() -> (Vec<Rc<String>>, Vec<Type>) {
    let strings = vec![
        Rc::new(String::from("alpha")),
        Rc::new(String::from("beta")),
    ];
    let types = vec![
        Type { id: 0, descriptor: Rc::new(String::from("I")) },
        Type { id: 1, descriptor: Rc::new(String::from("Lfoo;")) },
        Type { id: 2, descriptor: Rc::new(String::from("J")) },
    ];
    (strings, types)
}

fn empty_dex(bytes: Vec<u8>, endian: Endian) -> Dex {
    let (strings, types) = pools();
    Dex {
        source: Source::new(bytes),
        endian,
        strings,
        types,
        field_ids_off: 0,
        field_ids_count: 0,
        method_ids_off: 0,
        method_ids_count: 0,
        proto_ids_off: 0,
        proto_ids_count: 0,
    }
}

/// Four little-endian field-id rows: (class, type, name) =
/// (1, 2, 0), (3, 0, 1), (0, 0, 7), (0, 9, 0).
fn field_dex() -> Dex {
    let bytes = vec![
        0x01, 0x00, 0x02, 0x00, 0x00, 0x00, // row 0
        0x03, 0x00, 0x00, 0x00, 0x01, 0x00, // row 1
        0x00, 0x00, 0x00, 0x00, 0x07, 0x00, // row 2: name id misses the pool
        0x00, 0x00, 0x09, 0x00, 0x00, 0x00, // row 3: type id misses the pool
    ];
    let mut d = empty_dex(bytes, Endian::Little);
    d.field_ids_count = 4;
    d
}

fn le16(v: u16, out: &mut Vec<u8>) {
    out.push(v as u8);
    out.push((v >> 8) as u8);
}

fn le32(v: u32, out: &mut Vec<u8>) {
    le16(v as u16, out);
    le16((v >> 16) as u16, out);
}

fn le64(v: u64, out: &mut Vec<u8>) {
    le32(v as u32, out);
    le32((v >> 32) as u32, out);
}

/// Four method-id rows at 0, three proto-id rows at 56, a two-entry
/// parameter block at 86, an empty parameter block at 94.
fn method_dex() -> Dex {
    let mut bytes = Vec::new();
    // method rows: (class type id, proto id, name id)
    for &(c, p, n) in &[(1u32, 0u64, 0u16), (2, 1, 1), (0, 2, 0), (0, 9, 0)] {
        le32(c, &mut bytes);
        le64(p, &mut bytes);
        le16(n, &mut bytes);
    }
    assert_eq!(bytes.len(), 56);
    // proto rows: (shorty id, return type id, params offset)
    for &(s, r, off) in &[(1u16, 0u32, 86u32), (1, 2, 0), (0, 0, 94)] {
        le16(s, &mut bytes);
        le32(r, &mut bytes);
        le32(off, &mut bytes);
    }
    assert_eq!(bytes.len(), 86);
    le32(2, &mut bytes); // parameter count
    le16(2, &mut bytes); // first parameter: type 2
    le16(0, &mut bytes); // second parameter: type 0
    le32(0, &mut bytes); // empty parameter block: count 0
    assert_eq!(bytes.len(), 98);
    let mut d = empty_dex(bytes, Endian::Little);
    d.method_ids_count = 4;
    d.proto_ids_off = 56;
    d.proto_ids_count = 3;
    d
}

#[test]
fn field_resolution_keeps_class_raw() {
    let d = field_dex();
    let f = Field::try_from_dex(&d, &EncodedField { field_id: 0, access_flags: 9 }).unwrap();
    assert_eq!(f.name.as_str(), "alpha");
    assert_eq!(f.jtype.id, 2);
    assert_eq!(f.jtype.descriptor.as_str(), "J");
    // The owning class stays the raw row id, though type 1 would resolve.
    assert_eq!(f.class, 1);
    assert_eq!(f.access_flags, 9);
}

#[test]
fn field_resolution_class_needs_no_pool_entry() {
    let d = field_dex();
    // Row 1 names class 3, which has no pool entry: resolution still
    // succeeds because the class is never resolved to a type.
    let f = Field::try_from_dex(&d, &EncodedField { field_id: 1, access_flags: 0 }).unwrap();
    assert_eq!(f.class, 3);
    assert_eq!(f.name.as_str(), "beta");
    assert_eq!(f.jtype.id, 0);
}

#[test]
fn fields_share_one_string_instance() {
    let d = field_dex();
    let a = Field::try_from_dex(&d, &EncodedField { field_id: 0, access_flags: 0 }).unwrap();
    let b = Field::try_from_dex(&d, &EncodedField { field_id: 0, access_flags: 1 }).unwrap();
    assert!(Rc::ptr_eq(&a.name, &b.name));
}

#[test]
fn field_dangling_id_fails() {
    let d = field_dex();
    let r = Field::try_from_dex(&d, &EncodedField { field_id: 4, access_flags: 0 });
    assert_eq!(r.unwrap_err(), Error::DanglingIndex);
}

#[test]
fn field_pool_misses_fail() {
    let d = field_dex();
    let r = Field::try_from_dex(&d, &EncodedField { field_id: 2, access_flags: 0 });
    assert_eq!(r.unwrap_err(), Error::PoolMiss);
    let r = Field::try_from_dex(&d, &EncodedField { field_id: 3, access_flags: 0 });
    assert_eq!(r.unwrap_err(), Error::PoolMiss);
}

#[test]
fn field_table_past_buffer_fails() {
    let mut d = field_dex();
    d.field_ids_off = 22;
    d.field_ids_count = 1;
    let r = Field::try_from_dex(&d, &EncodedField { field_id: 0, access_flags: 0 });
    assert_eq!(r.unwrap_err(), Error::OutOfBounds);
}

#[test]
fn field_row_big_endian() {
    let bytes = vec![0x00, 0x01, 0x00, 0x02, 0x00, 0x00];
    let mut d = empty_dex(bytes, Endian::Big);
    d.field_ids_count = 1;
    let f = Field::try_from_dex(&d, &EncodedField { field_id: 0, access_flags: 0 }).unwrap();
    assert_eq!(f.class, 1);
    assert_eq!(f.jtype.id, 2);
    assert_eq!(f.name.as_str(), "alpha");
}

#[test]
fn method_with_parameters_in_order() {
    let d = method_dex();
    let em = EncodedMethod { method_id: 0, access_flags: 5, code_offset: 77 };
    let m = Method::from_dex(&d, &em).unwrap();
    assert_eq!(m.name.as_str(), "alpha");
    assert_eq!(m.class_id.id, 1);
    assert_eq!(m.class_id.descriptor.as_str(), "Lfoo;");
    assert_eq!(m.shorty.as_str(), "beta");
    assert_eq!(m.return_type.id, 0);
    let params = m.params.as_ref().unwrap();
    assert_eq!(params.len(), 2);
    assert_eq!(params[0].id, 2);
    assert_eq!(params[0].descriptor.as_str(), "J");
    assert_eq!(params[1].id, 0);
    assert_eq!(params[1].descriptor.as_str(), "I");
    assert_eq!(m.access_flags, 5);
    assert_eq!(m.code_off, 77);
}

#[test]
fn method_without_parameter_list() {
    let d = method_dex();
    let em = EncodedMethod { method_id: 1, access_flags: 0, code_offset: 0 };
    let m = Method::from_dex(&d, &em).unwrap();
    assert!(m.params.is_none());
    assert_eq!(m.return_type.id, 2);
    assert_eq!(m.name.as_str(), "beta");
}

#[test]
fn method_empty_parameter_list_is_present() {
    let d = method_dex();
    let em = EncodedMethod { method_id: 2, access_flags: 0, code_offset: 0 };
    let m = Method::from_dex(&d, &em).unwrap();
    // A zero count behind a nonzero offset is an empty list, still
    // distinguishable from the absent one.
    assert!(m.params.is_some());
    assert_eq!(m.params.as_ref().unwrap().len(), 0);
}

#[test]
fn method_dangling_ids_fail() {
    let d = method_dex();
    let r = Method::from_dex(&d, &EncodedMethod { method_id: 4, access_flags: 0, code_offset: 0 });
    assert_eq!(r.unwrap_err(), Error::DanglingIndex);
    // Row 3 names proto id 9, beyond the proto table's extent.
    let r = Method::from_dex(&d, &EncodedMethod { method_id: 3, access_flags: 0, code_offset: 0 });
    assert_eq!(r.unwrap_err(), Error::DanglingIndex);
}

#[test]
fn decoded_fields_resolve_end_to_end() {
    // Append a two-record delta array behind the field table and run the
    // full pipeline: delta decode, then resolution of every record.
    let mut d = field_dex();
    let mut bytes = vec![
        0x01, 0x00, 0x02, 0x00, 0x00, 0x00, //
        0x03, 0x00, 0x00, 0x00, 0x01, 0x00, //
    ];
    let array_at = bytes.len();
    for &v in &[2u64, 0, 9, 1, 0] {
        write_uleb128(&mut bytes, v);
    }
    d.source = Source::new(bytes);
    d.field_ids_count = 2;
    let (items, _end): (Vec<EncodedField>, usize) = decode_array(&d.source, array_at).unwrap();
    assert_eq!(items[0].field_id, 0);
    assert_eq!(items[1].field_id, 1);
    let fields: Vec<Field> = items
        .iter()
        .map(|ef| Field::try_from_dex(&d, ef).unwrap())
        .collect();
    assert_eq!(fields[0].name.as_str(), "alpha");
    assert_eq!(fields[0].access_flags, 9);
    assert_eq!(fields[1].name.as_str(), "beta");
    assert_eq!(fields[1].class, 3);
}
