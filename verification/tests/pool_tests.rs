use jclass::constant_pool::{lookup, parse_pool, ConstantPoolEntry, EntryKind};
use jclass::cursor::ByteCursor;
use jclass::error::DecodeError;

#[test]
fn test_cp_class_entry_parsing() {
    let bytes: Vec<u8> = vec![7, 1, 2, 3, 4, 5];
    let mut class_entry = ConstantPoolEntry::from_tag(bytes[0]).unwrap();

    if let ConstantPoolEntry::Class { name_idx: value } = class_entry {
        assert_eq!(0, value);
        println!("1. Value of Class::name_index is {}", value);
    }

    let mut byte_rdr = ByteCursor::new(bytes);
    byte_rdr.set_position(1);
    class_entry.parse_entry(&mut byte_rdr).unwrap();

    if let ConstantPoolEntry::Class { name_idx: value } = class_entry {
        assert_eq!(258, value);
        println!("2. Value of Class::name_index is {}", value);
    }
}

#[test]
fn test_cp_fieldref_entry_parsing() {
    let bytes: Vec<u8> = vec![9, 2, 5, 3, 0];
    let mut fieldref_entry = ConstantPoolEntry::from_tag(bytes[0]).unwrap();

    if let ConstantPoolEntry::FieldRef { class_idx: cidx, name_and_type_idx: ntidx } =
        fieldref_entry
    {
        assert_eq!(0, cidx);
        assert_eq!(0, ntidx);
        println!("Fieldref {} {}", cidx, ntidx);
    }

    let mut byte_rdr = ByteCursor::new(bytes.clone());
    byte_rdr.set_position(1);
    fieldref_entry.parse_entry(&mut byte_rdr).unwrap();

    if let ConstantPoolEntry::FieldRef { class_idx: cidx, name_and_type_idx: ntidx } =
        fieldref_entry
    {
        assert_eq!(0x0205, cidx);
        assert_eq!(0x0300, ntidx);
        println!("Fieldref {} {}", cidx, ntidx);
    }
    println!("Bytes vector is {:?}", bytes);
}

#[test]
fn integer_entry_decodes_forty_two() {
    let bytes: Vec<u8> = vec![0x03, 0x00, 0x00, 0x00, 0x2A];
    let mut entry = ConstantPoolEntry::from_tag(bytes[0]).unwrap();
    let mut byte_rdr = ByteCursor::new(bytes);
    byte_rdr.set_position(1);
    entry.parse_entry(&mut byte_rdr).unwrap();
    match entry {
        ConstantPoolEntry::Integer(v) => assert_eq!(42, v),
        other => panic!("expected an Integer entry, got {:?}", other),
    }
    assert_eq!(5, byte_rdr.position());
}

#[test]
fn integer_entry_decodes_negative_values() {
    let bytes: Vec<u8> = vec![0x03, 0xFF, 0xFF, 0xFF, 0xFF];
    let mut entry = ConstantPoolEntry::from_tag(bytes[0]).unwrap();
    let mut byte_rdr = ByteCursor::new(bytes);
    byte_rdr.set_position(1);
    entry.parse_entry(&mut byte_rdr).unwrap();
    match entry {
        ConstantPoolEntry::Integer(v) => assert_eq!(-1, v),
        other => panic!("expected an Integer entry, got {:?}", other),
    }
}

#[test]
fn utf8_entry_decodes_hello() {
    let bytes: Vec<u8> = vec![0x01, 0x00, 0x05, 0x48, 0x65, 0x6C, 0x6C, 0x6F];
    let mut entry = ConstantPoolEntry::from_tag(bytes[0]).unwrap();
    let mut byte_rdr = ByteCursor::new(bytes);
    byte_rdr.set_position(1);
    entry.parse_entry(&mut byte_rdr).unwrap();
    match entry {
        ConstantPoolEntry::Utf8(text) => {
            assert_eq!(vec![0x48, 0x65, 0x6C, 0x6C, 0x6F], text);
            assert_eq!("Hello", String::from_utf8(text).unwrap());
        },
        other => panic!("expected a UTF8 entry, got {:?}", other),
    }
    assert_eq!(8, byte_rdr.position());
}

#[test]
fn utf8_entry_rejects_invalid_encoding() {
    let bytes: Vec<u8> = vec![0x01, 0x00, 0x02, 0xFF, 0xFE];
    let mut entry = ConstantPoolEntry::from_tag(bytes[0]).unwrap();
    let mut byte_rdr = ByteCursor::new(bytes);
    byte_rdr.set_position(1);
    assert_eq!(Err(DecodeError::InvalidEncoding), entry.parse_entry(&mut byte_rdr));
}

#[test]
fn long_and_double_and_float_entries_keep_their_bytes() {
    let bytes: Vec<u8> = vec![0x05, 0x00, 0x00, 0x00, 0x01, 0x00, 0x00, 0x00, 0x00];
    let mut entry = ConstantPoolEntry::from_tag(bytes[0]).unwrap();
    let mut byte_rdr = ByteCursor::new(bytes);
    byte_rdr.set_position(1);
    entry.parse_entry(&mut byte_rdr).unwrap();
    match entry {
        ConstantPoolEntry::Long(v) => assert_eq!(0x1_0000_0000, v),
        other => panic!("expected a Long entry, got {:?}", other),
    }

    let bytes: Vec<u8> = vec![0x04, 0x40, 0x49, 0x0F, 0xDB];
    let mut entry = ConstantPoolEntry::from_tag(bytes[0]).unwrap();
    let mut byte_rdr = ByteCursor::new(bytes);
    byte_rdr.set_position(1);
    entry.parse_entry(&mut byte_rdr).unwrap();
    match entry {
        ConstantPoolEntry::Float { bits } => {
            assert_eq!(0x40490FDB, bits);
            assert!((f32::from_bits(bits) - 3.14159274).abs() < 1e-6);
        },
        other => panic!("expected a Float entry, got {:?}", other),
    }

    let bytes: Vec<u8> = vec![0x06, 0x40, 0x09, 0x21, 0xFB, 0x54, 0x44, 0x2D, 0x18];
    let mut entry = ConstantPoolEntry::from_tag(bytes[0]).unwrap();
    let mut byte_rdr = ByteCursor::new(bytes);
    byte_rdr.set_position(1);
    entry.parse_entry(&mut byte_rdr).unwrap();
    match entry {
        ConstantPoolEntry::Double { bits } => {
            assert_eq!(0x400921FB54442D18, bits);
            assert!((f64::from_bits(bits) - core::f64::consts::PI).abs() < 1e-12);
        },
        other => panic!("expected a Double entry, got {:?}", other),
    }
}

#[test]
fn name_and_type_entry_decodes_both_indices() {
    let bytes: Vec<u8> = vec![0x0C, 0x00, 0x07, 0x00, 0x09];
    let mut entry = ConstantPoolEntry::from_tag(bytes[0]).unwrap();
    let mut byte_rdr = ByteCursor::new(bytes);
    byte_rdr.set_position(1);
    entry.parse_entry(&mut byte_rdr).unwrap();
    match entry {
        ConstantPoolEntry::NameAndType { name_idx, descriptor_idx } => {
            assert_eq!(7, name_idx);
            assert_eq!(9, descriptor_idx);
        },
        other => panic!("expected a NameAndType entry, got {:?}", other),
    }
}

#[test]
fn unknown_tag_is_rejected() {
    assert_eq!(Err(DecodeError::UnknownConstantTag), ConstantPoolEntry::from_tag(2).map(|_| ()));
    assert_eq!(Err(DecodeError::UnknownConstantTag), ConstantPoolEntry::from_tag(13).map(|_| ()));
    assert_eq!(Err(DecodeError::UnknownConstantTag), ConstantPoolEntry::from_tag(0).map(|_| ()));
}

#[test]
fn truncated_entry_fails_with_truncated_stream() {
    let bytes: Vec<u8> = vec![0x03, 0x00, 0x00];
    let mut entry = ConstantPoolEntry::from_tag(bytes[0]).unwrap();
    let mut byte_rdr = ByteCursor::new(bytes);
    byte_rdr.set_position(1);
    assert_eq!(Err(DecodeError::TruncatedStream), entry.parse_entry(&mut byte_rdr));
}

#[test]
fn pool_decode_reserves_slot_zero() {
    // Declared count 3: the reserved slot plus two decoded entries.
    let bytes: Vec<u8> = vec![
        0x07, 0x00, 0x02, // Class entry naming slot 2
        0x01, 0x00, 0x01, 0x41, // UTF8 entry "A"
    ];
    let mut byte_rdr = ByteCursor::new(bytes);
    let cp = parse_pool(&mut byte_rdr, 3).unwrap();
    assert_eq!(3, cp.len());
    assert!(matches!(cp[0], ConstantPoolEntry::Reserved));
    assert!(matches!(cp[1], ConstantPoolEntry::Class { name_idx: 2 }));
    assert!(matches!(&cp[2], ConstantPoolEntry::Utf8(t) if t == &vec![0x41u8]));
}

#[test]
fn typed_lookup_checks_index_and_kind() {
    let bytes: Vec<u8> = vec![0x07, 0x00, 0x02, 0x01, 0x00, 0x01, 0x41];
    let mut byte_rdr = ByteCursor::new(bytes);
    let cp = parse_pool(&mut byte_rdr, 3).unwrap();

    assert!(matches!(
        lookup(&cp, 1, EntryKind::Class),
        Ok(ConstantPoolEntry::Class { name_idx: 2 })
    ));
    assert!(matches!(lookup(&cp, 2, EntryKind::Utf8), Ok(ConstantPoolEntry::Utf8(_))));
    // Slot 0 is never a valid lookup target.
    assert_eq!(Err(DecodeError::DanglingReference), lookup(&cp, 0, EntryKind::Integer).map(|_| ()));
    assert_eq!(Err(DecodeError::DanglingReference), lookup(&cp, 3, EntryKind::Class).map(|_| ()));
    assert_eq!(Err(DecodeError::TypeMismatch), lookup(&cp, 1, EntryKind::Utf8).map(|_| ()));
}
