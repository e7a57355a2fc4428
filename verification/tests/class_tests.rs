use jclass::attributes::Attributes;
use jclass::class_file::ClassFile;
use jclass::constant_pool::ConstantPoolEntry;
use jclass::cursor::ByteCursor;
use jclass::error::DecodeError;
use jclass::raw_class_reader::is_java_class_format;

fn minimal_class_bytes() -> Vec<u8> {
    vec![
        0xCA, 0xFE, 0xBA, 0xBE, // magic
        0x00, 0x00, // minor 0
        0x00, 0x34, // major 52
        0x00, 0x01, // pool count 1: only the reserved slot
        0x00, 0x00, // access flags
        0x00, 0x00, // this class
        0x00, 0x00, // super class
        0x00, 0x00, // interfaces count
        0x00, 0x00, // fields count
        0x00, 0x00, // methods count
    ]
}

fn full_class_bytes() -> Vec<u8> {
    vec![
        0xCA, 0xFE, 0xBA, 0xBE, // magic
        0x00, 0x00, // minor
        0x00, 0x34, // major
        0x00, 0x04, // pool count 4
        0x01, 0x00, 0x04, 0x43, 0x6F, 0x64, 0x65, // 1: UTF8 "Code"
        0x07, 0x00, 0x03, // 2: Class naming slot 3
        0x01, 0x00, 0x01, 0x41, // 3: UTF8 "A"
        0x00, 0x21, // access flags
        0x00, 0x02, // this class: slot 2
        0x00, 0x00, // super class: none
        0x00, 0x01, 0x00, 0x02, // one super interface: slot 2
        0x00, 0x01, // one field
        0x00, 0x02, 0x00, 0x03, 0x00, 0x03, 0x00, 0x00, // field, no attributes
        0x00, 0x01, // one method
        0x00, 0x01, 0x00, 0x03, 0x00, 0x03, 0x00, 0x01, // method, one attribute
        0x00, 0x01, // attribute name: slot 1 ("Code")
        0x00, 0x00, 0x00, 0x0B, // declared length 11
        0x00, 0x01, // max_stack
        0x00, 0x01, // max_locals
        0x00, 0x00, 0x00, 0x01, // code length 1
        0xB1, // bytecode
        0x00, 0x00, // empty exception table
    ]
}

#[test]
fn minimal_header_decodes_to_empty_class() {
    let bytes = minimal_class_bytes();
    let total = bytes.len();
    let mut jclass = ClassFile::new();
    let mut byte_rdr = ByteCursor::new(bytes);
    jclass.parse(&mut byte_rdr).unwrap();
    assert_eq!(0xCAFEBABE, jclass.magic);
    assert_eq!(0, jclass.minor_version);
    assert_eq!(52, jclass.major_version);
    assert_eq!(1, jclass.constant_pool_count);
    assert_eq!(1, jclass.cp.len());
    assert!(matches!(jclass.cp[0], ConstantPoolEntry::Reserved));
    assert_eq!(0, jclass.access_flags);
    assert_eq!(0, jclass.this_class);
    assert_eq!(0, jclass.super_class);
    assert!(jclass.super_interfaces.is_empty());
    assert!(jclass.fields.is_empty());
    assert!(jclass.methods.is_empty());
    assert_eq!(total, byte_rdr.position());
}

#[test]
fn full_class_decodes_every_stage() {
    let bytes = full_class_bytes();
    let total = bytes.len();
    let mut jclass = ClassFile::new();
    let mut byte_rdr = ByteCursor::new(bytes);
    jclass.parse(&mut byte_rdr).unwrap();
    assert_eq!(4, jclass.constant_pool_count);
    assert_eq!(4, jclass.cp.len());
    assert_eq!(0x21, jclass.access_flags);
    assert_eq!(2, jclass.this_class);
    assert_eq!(0, jclass.super_class);
    assert_eq!(vec![2], jclass.super_interfaces);
    assert_eq!(1, jclass.fields.len());
    assert_eq!(3, jclass.fields[0].name_idx);
    assert_eq!(0, jclass.fields[0].attributes.len());
    assert_eq!(1, jclass.methods.len());
    assert_eq!(1, jclass.methods[0].attributes.len());
    match &jclass.methods[0].attributes[0] {
        Attributes::Code { max_stack, max_locals, code, exception_table } => {
            assert_eq!(1, *max_stack);
            assert_eq!(1, *max_locals);
            assert_eq!(&vec![0xB1u8], code);
            assert!(exception_table.is_empty());
        },
        other => panic!("expected a Code attribute, got {:?}", other),
    }
    assert_eq!(total, byte_rdr.position());
}

#[test]
fn every_truncation_fails_with_truncated_stream() {
    for bytes in [minimal_class_bytes(), full_class_bytes()] {
        for k in 0..bytes.len() {
            let mut jclass = ClassFile::new();
            let mut byte_rdr = ByteCursor::new(bytes[..k].to_vec());
            assert_eq!(
                Err(DecodeError::TruncatedStream),
                jclass.parse(&mut byte_rdr),
                "truncation at offset {} of a {}-byte class",
                k,
                bytes.len()
            );
        }
    }
}

#[test]
fn trailing_bytes_are_left_unread() {
    let mut bytes = full_class_bytes();
    let end = bytes.len();
    bytes.extend_from_slice(&[0xDE, 0xAD, 0xBE, 0xEF]);
    let mut jclass = ClassFile::new();
    let mut byte_rdr = ByteCursor::new(bytes);
    jclass.parse(&mut byte_rdr).unwrap();
    assert_eq!(end, byte_rdr.position());
}

#[test]
fn wrong_magic_is_malformed() {
    let mut bytes = minimal_class_bytes();
    bytes[0] = 0xCB;
    let mut jclass = ClassFile::new();
    let mut byte_rdr = ByteCursor::new(bytes);
    assert_eq!(Err(DecodeError::MalformedHeader), jclass.parse(&mut byte_rdr));
}

#[test]
fn zero_pool_count_is_malformed() {
    let mut bytes = minimal_class_bytes();
    bytes[8] = 0x00;
    bytes[9] = 0x00;
    let mut jclass = ClassFile::new();
    let mut byte_rdr = ByteCursor::new(bytes);
    assert_eq!(Err(DecodeError::MalformedHeader), jclass.parse(&mut byte_rdr));
}

#[test]
fn this_class_must_resolve_to_a_class_name() {
    // this-class points at an Integer entry.
    let bytes: Vec<u8> = vec![
        0xCA, 0xFE, 0xBA, 0xBE, 0x00, 0x00, 0x00, 0x34, 0x00, 0x02, // header, pool count 2
        0x03, 0x00, 0x00, 0x00, 0x01, // 1: Integer 1
        0x00, 0x00, // flags
        0x00, 0x01, // this class: slot 1, an Integer
        0x00, 0x00, // super class
    ];
    let mut jclass = ClassFile::new();
    let mut byte_rdr = ByteCursor::new(bytes);
    assert_eq!(Err(DecodeError::DanglingReference), jclass.parse(&mut byte_rdr));

    // this-class points past the pool.
    let bytes: Vec<u8> = vec![
        0xCA, 0xFE, 0xBA, 0xBE, 0x00, 0x00, 0x00, 0x34, 0x00, 0x02, //
        0x03, 0x00, 0x00, 0x00, 0x01, //
        0x00, 0x00, 0x00, 0x09, 0x00, 0x00,
    ];
    let mut jclass = ClassFile::new();
    let mut byte_rdr = ByteCursor::new(bytes);
    assert_eq!(Err(DecodeError::DanglingReference), jclass.parse(&mut byte_rdr));

    // this-class reaches a Class entry whose name index dangles.
    let bytes: Vec<u8> = vec![
        0xCA, 0xFE, 0xBA, 0xBE, 0x00, 0x00, 0x00, 0x34, 0x00, 0x02, //
        0x07, 0x00, 0x09, // 1: Class naming slot 9, which does not exist
        0x00, 0x00, 0x00, 0x01, 0x00, 0x00,
    ];
    let mut jclass = ClassFile::new();
    let mut byte_rdr = ByteCursor::new(bytes);
    assert_eq!(Err(DecodeError::DanglingReference), jclass.parse(&mut byte_rdr));
}

#[test]
fn magic_gate_recognizes_class_files() {
    assert!(is_java_class_format(&minimal_class_bytes()));
    assert!(is_java_class_format(&full_class_bytes()));
    assert!(!is_java_class_format(&[0xCA, 0xFE, 0xBA]));
    assert!(!is_java_class_format(&[0xCA, 0xFE, 0xBB, 0xBE, 0x00]));
    assert!(!is_java_class_format(&[]));
}
