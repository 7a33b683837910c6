use py_spy::layout::{
    decode_signed, decode_unsigned, python_3_3_layout, read_field, storage_address, DecodeRule,
    FieldEntry, FieldName, LayoutDescriptor, StructKind, Value,
};
use py_spy::memory::{MemoryImage, ReadError, RemoteReader};

fn entry(kind: StructKind, name: FieldName, offset: u64, width: usize, rule: DecodeRule) -> FieldEntry {
    FieldEntry { kind, name, offset, width, rule }
}

#[test]
fn little_endian_integers() {
    assert_eq!(decode_unsigned(&vec![0x34, 0x12]), 0x1234);
    assert_eq!(decode_unsigned(&vec![]), 0);
    assert_eq!(decode_unsigned(&vec![0xff; 8]), u64::MAX);
    assert_eq!(decode_signed(&vec![0xfe, 0xff, 0xff, 0xff]), -2);
    assert_eq!(decode_signed(&vec![0x7f]), 127);
    assert_eq!(decode_signed(&vec![0x80]), -128);
    assert_eq!(decode_signed(&vec![0, 0, 0, 0, 0, 0, 0, 0x80]), i64::MIN);
}

#[test]
fn memory_image_reads() {
    let mut m = MemoryImage::new();
    m.map_region(100, vec![1, 2, 3, 4]);
    assert_eq!(m.read(101, 2), Ok(vec![2, 3]));
    assert_eq!(m.read(102, 10), Ok(vec![3, 4]));
    assert_eq!(m.read(104, 1), Err(ReadError::Unmapped));
    assert_eq!(m.read(99, 1), Err(ReadError::Unmapped));
}

#[test]
fn read_field_by_rule() {
    let l = LayoutDescriptor::from_entries(vec![
        entry(StructKind::Frame, FieldName::Back, 0, 8, DecodeRule::Unsigned),
        entry(StructKind::Frame, FieldName::LastInstruction, 8, 4, DecodeRule::Signed),
        entry(StructKind::Bytes, FieldName::Data, 12, 3, DecodeRule::CharArray),
    ])
    .unwrap();
    let mut m = MemoryImage::new();
    m.map_region(0x40, vec![0x10, 0x20, 0, 0, 0, 0, 0, 0, 0xff, 0xff, 0xff, 0xff, 7, 8, 9]);
    match read_field(&m, &l, 0x40, StructKind::Frame, FieldName::Back) {
        Ok(Value::Unsigned(v)) => assert_eq!(v, 0x2010),
        other => panic!("unexpected {:?}", other),
    }
    match read_field(&m, &l, 0x40, StructKind::Frame, FieldName::LastInstruction) {
        Ok(Value::Signed(v)) => assert_eq!(v, -1),
        other => panic!("unexpected {:?}", other),
    }
    match read_field(&m, &l, 0x40, StructKind::Bytes, FieldName::Data) {
        Ok(Value::Chars(v)) => assert_eq!(v, vec![7, 8, 9]),
        other => panic!("unexpected {:?}", other),
    }
}

#[test]
fn read_field_errors() {
    let l = LayoutDescriptor::from_entries(vec![
        entry(StructKind::Frame, FieldName::Back, 0, 8, DecodeRule::Unsigned),
        entry(StructKind::Frame, FieldName::Code, 4, 8, DecodeRule::Unsigned),
    ])
    .unwrap();
    let mut m = MemoryImage::new();
    m.map_region(0x40, vec![0; 8]);
    assert!(matches!(
        read_field(&m, &l, 0x40, StructKind::Frame, FieldName::LastInstruction),
        Err(ReadError::UnsupportedField)
    ));
    assert!(matches!(
        read_field(&m, &l, 0x40, StructKind::Frame, FieldName::Code),
        Err(ReadError::OutOfRange)
    ));
    assert!(matches!(
        read_field(&m, &l, 0x80, StructKind::Frame, FieldName::Back),
        Err(ReadError::Unmapped)
    ));
    assert!(matches!(
        read_field(&m, &l, u64::MAX, StructKind::Frame, FieldName::Code),
        Err(ReadError::Unmapped)
    ));
}

#[test]
fn descriptor_rejects_bad_widths() {
    let bad = entry(StructKind::Code, FieldName::Name, 0, 9, DecodeRule::Unsigned);
    let r = LayoutDescriptor::from_entries(vec![
        entry(StructKind::Code, FieldName::FileName, 0, 8, DecodeRule::Unsigned),
        bad,
    ]);
    assert_eq!(r.err(), Some(bad));
    let empty = entry(StructKind::Code, FieldName::FirstLine, 0, 0, DecodeRule::Signed);
    assert!(LayoutDescriptor::from_entries(vec![empty]).is_err());
}

#[test]
fn storage_address_adds_offset() {
    let l = python_3_3_layout();
    assert_eq!(storage_address(&l, 0x1000, StructKind::Str, FieldName::InlineAscii), Ok(0x1030));
    assert_eq!(storage_address(&l, 0x1000, StructKind::Bytes, FieldName::Data), Ok(0x1020));
    assert_eq!(
        storage_address(&l, u64::MAX, StructKind::Bytes, FieldName::Data),
        Err(ReadError::Unmapped)
    );
    assert_eq!(l.lookup(StructKind::Frame, FieldName::Back).map(|e| e.offset), Some(24));
    assert!(!l.has_field(StructKind::Interpreter, FieldName::Back));
}
