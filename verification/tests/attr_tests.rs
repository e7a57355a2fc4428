use jclass::attributes::{Attributes, ExceptionHandlingInfo};
use jclass::constant_pool::{ConstantPool, ConstantPoolEntry};
use jclass::cursor::ByteCursor;
use jclass::error::DecodeError;

fn name_pool() -> ConstantPool {
    vec![
        ConstantPoolEntry::Reserved,
        ConstantPoolEntry::Utf8(b"ConstantValue".to_vec()),
        ConstantPoolEntry::Utf8(b"Code".to_vec()),
        ConstantPoolEntry::Utf8(b"Exceptions".to_vec()),
        ConstantPoolEntry::Utf8(b"LineNumberTable".to_vec()),
        ConstantPoolEntry::Integer(7),
    ]
}

#[test]
fn constant_value_attribute_references_slot_three() {
    let cp = name_pool();
    // Name index 1 ("ConstantValue"), declared length 2, then the index 3.
    let bytes: Vec<u8> = vec![0x00, 0x01, 0x00, 0x00, 0x00, 0x02, 0x00, 0x03];
    let mut byte_rdr = ByteCursor::new(bytes);
    let attr = Attributes::parse_attribute(&mut byte_rdr, &cp).unwrap();
    match attr {
        Attributes::ConstantValue { const_idx } => assert_eq!(3, const_idx),
        other => panic!("expected a ConstantValue attribute, got {:?}", other),
    }
    // Anchor is 6, declared length 2: the cursor ends at 8.
    assert_eq!(8, byte_rdr.position());
}

#[test]
fn code_attribute_decodes_body_and_fences_cursor() {
    let cp = name_pool();
    let mut bytes: Vec<u8> = vec![0x00, 0x02]; // name index 2 ("Code")
    // body: max_stack 2, max_locals 3, code [1,2,3,4], one handler,
    // then 4 unparsed sub-attribute bytes inside the declared length.
    let body: Vec<u8> = vec![
        0x00, 0x02, // max_stack
        0x00, 0x03, // max_locals
        0x00, 0x00, 0x00, 0x04, // code length
        0x01, 0x02, 0x03, 0x04, // bytecode
        0x00, 0x01, // exception table length
        0x00, 0x00, 0x00, 0x08, 0x00, 0x0C, 0x00, 0x00, // one handler row
        0xAA, 0xBB, 0xCC, 0xDD, // skipped sub-attribute bytes
    ];
    bytes.extend_from_slice(&(body.len() as u32).to_be_bytes());
    bytes.extend_from_slice(&body);
    let end = bytes.len();
    let mut byte_rdr = ByteCursor::new(bytes);
    let attr = Attributes::parse_attribute(&mut byte_rdr, &cp).unwrap();
    match attr {
        Attributes::Code { max_stack, max_locals, code, exception_table } => {
            assert_eq!(2, max_stack);
            assert_eq!(3, max_locals);
            assert_eq!(vec![1, 2, 3, 4], code);
            assert_eq!(1, exception_table.len());
            assert_eq!(
                ExceptionHandlingInfo { start_pc: 0, end_pc: 8, handler_pc: 12, catch_type: 0 },
                exception_table[0]
            );
        },
        other => panic!("expected a Code attribute, got {:?}", other),
    }
    // The cursor ends exactly at anchor + declared length, past the
    // unparsed sub-attribute bytes.
    assert_eq!(end, byte_rdr.position());
}

#[test]
fn code_attribute_with_empty_code_and_table() {
    let cp = name_pool();
    let bytes: Vec<u8> = vec![
        0x00, 0x02, // name index 2 ("Code")
        0x00, 0x00, 0x00, 0x0A, // declared length 10
        0x00, 0x00, // max_stack
        0x00, 0x00, // max_locals
        0x00, 0x00, 0x00, 0x00, // code length 0
        0x00, 0x00, // exception table length 0
    ];
    let mut byte_rdr = ByteCursor::new(bytes);
    let attr = Attributes::parse_attribute(&mut byte_rdr, &cp).unwrap();
    match attr {
        Attributes::Code { max_stack, max_locals, code, exception_table } => {
            assert_eq!(0, max_stack);
            assert_eq!(0, max_locals);
            assert!(code.is_empty());
            assert!(exception_table.is_empty());
        },
        other => panic!("expected a Code attribute, got {:?}", other),
    }
    assert_eq!(16, byte_rdr.position());
}

#[test]
fn exceptions_attribute_decodes_ids() {
    let cp = name_pool();
    let bytes: Vec<u8> = vec![
        0x00, 0x03, // name index 3 ("Exceptions")
        0x00, 0x00, 0x00, 0x06, // declared length 6
        0x00, 0x02, // two exception ids
        0x00, 0x05, 0x01, 0x07,
    ];
    let mut byte_rdr = ByteCursor::new(bytes);
    let attr = Attributes::parse_attribute(&mut byte_rdr, &cp).unwrap();
    match attr {
        Attributes::Exceptions { exception_ids } => {
            assert_eq!(vec![5, 0x0107], exception_ids);
        },
        other => panic!("expected an Exceptions attribute, got {:?}", other),
    }
    assert_eq!(12, byte_rdr.position());
}

#[test]
fn unknown_attribute_becomes_placeholder_and_next_decodes() {
    let cp = name_pool();
    let bytes: Vec<u8> = vec![
        0x00, 0x04, // name index 4 ("LineNumberTable", unrecognized)
        0x00, 0x00, 0x00, 0x03, // declared length 3
        0x10, 0x20, 0x30, // skipped body
        0x00, 0x01, // next attribute: name index 1 ("ConstantValue")
        0x00, 0x00, 0x00, 0x02, 0x00, 0x05,
    ];
    let total = bytes.len();
    let mut byte_rdr = ByteCursor::new(bytes);
    let first = Attributes::parse_attribute(&mut byte_rdr, &cp).unwrap();
    assert!(matches!(first, Attributes::Undefined));
    assert_eq!(9, byte_rdr.position());
    let second = Attributes::parse_attribute(&mut byte_rdr, &cp).unwrap();
    match second {
        Attributes::ConstantValue { const_idx } => assert_eq!(5, const_idx),
        other => panic!("expected a ConstantValue attribute, got {:?}", other),
    }
    assert_eq!(total, byte_rdr.position());
}

#[test]
fn attribute_name_resolution_failures_are_dangling() {
    let cp = name_pool();
    // Index 0 reaches the reserved slot.
    let bytes: Vec<u8> = vec![0x00, 0x00, 0x00, 0x00, 0x00, 0x00];
    let mut byte_rdr = ByteCursor::new(bytes);
    assert_eq!(
        Err(DecodeError::DanglingReference),
        Attributes::parse_attribute(&mut byte_rdr, &cp).map(|_| ())
    );

    // Index 9 reaches no slot.
    let bytes: Vec<u8> = vec![0x00, 0x09, 0x00, 0x00, 0x00, 0x00];
    let mut byte_rdr = ByteCursor::new(bytes);
    assert_eq!(
        Err(DecodeError::DanglingReference),
        Attributes::parse_attribute(&mut byte_rdr, &cp).map(|_| ())
    );

    // Index 5 reaches an Integer entry, not UTF8 text.
    let bytes: Vec<u8> = vec![0x00, 0x05, 0x00, 0x00, 0x00, 0x00];
    let mut byte_rdr = ByteCursor::new(bytes);
    assert_eq!(
        Err(DecodeError::DanglingReference),
        Attributes::parse_attribute(&mut byte_rdr, &cp).map(|_| ())
    );
}

#[test]
fn attribute_with_oversized_length_is_truncated() {
    let cp = name_pool();
    // Declared length 100, but only 2 bytes of body remain.
    let bytes: Vec<u8> = vec![0x00, 0x04, 0x00, 0x00, 0x00, 0x64, 0x00, 0x03];
    let mut byte_rdr = ByteCursor::new(bytes);
    assert_eq!(
        Err(DecodeError::TruncatedStream),
        Attributes::parse_attribute(&mut byte_rdr, &cp).map(|_| ())
    );
}

#[test]
fn exception_handler_row_reads_four_fields() {
    let bytes: Vec<u8> = vec![0x00, 0x01, 0x00, 0x02, 0x00, 0x03, 0x00, 0x04];
    let mut byte_rdr = ByteCursor::new(bytes);
    let h = ExceptionHandlingInfo::new(&mut byte_rdr).unwrap();
    assert_eq!(1, h.start_pc);
    assert_eq!(2, h.end_pc);
    assert_eq!(3, h.handler_pc);
    assert_eq!(4, h.catch_type);
    assert_eq!(8, byte_rdr.position());

    let mut short_rdr = ByteCursor::new(vec![0x00, 0x01, 0x00]);
    assert_eq!(
        Err(DecodeError::TruncatedStream),
        ExceptionHandlingInfo::new(&mut short_rdr).map(|_| ())
    );
}
