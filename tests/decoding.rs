use tiny_jvm::class_file::{
    AttributeInfo, ClassAccessFlags, Constant, DecodePhase, MalformedClassFile, MethodsAccessFlags,
};
use tiny_jvm::reader::{Cursor, DecodeError};
use tiny_jvm::{read_attributes, ClassFile, CodeAttribute};

fn u16be(out: &mut Vec<u8>, v: u16) {
    out.extend_from_slice(&v.to_be_bytes());
}

fn u32be(out: &mut Vec<u8>, v: u32) {
    out.extend_from_slice(&v.to_be_bytes());
}

fn utf8(out: &mut Vec<u8>, text: &str) {
    out.push(1);
    u16be(out, text.len() as u16);
    out.extend_from_slice(text.as_bytes());
}

fn header(out: &mut Vec<u8>) {
    u32be(out, 0xCAFE_BABE);
    u16be(out, 0);
    u16be(out, 52);
}

/// Pool: 1 "main", 2 "Code", 3 "()V", 4 Integer 7.
fn small_pool(out: &mut Vec<u8>) {
    u16be(out, 5);
    utf8(out, "main");
    utf8(out, "Code");
    utf8(out, "()V");
    out.push(3);
    u32be(out, 7);
}

fn class_bytes(interfaces: u16, fields: u16) -> Vec<u8> {
    let mut out = Vec::new();
    header(&mut out);
    small_pool(&mut out);
    u16be(&mut out, 0x0021);
    u16be(&mut out, 0);
    u16be(&mut out, 0);
    u16be(&mut out, interfaces);
    u16be(&mut out, fields);
    // one method "main" with a "Code" attribute holding three bytes
    u16be(&mut out, 1);
    u16be(&mut out, 0x0009);
    u16be(&mut out, 1);
    u16be(&mut out, 3);
    u16be(&mut out, 1);
    u16be(&mut out, 2);
    u32be(&mut out, 3);
    out.extend_from_slice(&[9, 8, 7]);
    // one class attribute, name "Code", empty payload
    u16be(&mut out, 1);
    u16be(&mut out, 2);
    u32be(&mut out, 0);
    out
}

#[test]
fn reads_big_endian_integers() {
    let mut c = Cursor::new(vec![0x12, 0x34, 0x56, 0x78, 0x9A, 0xBC, 0xDE, 0xF0, 0x01, 0x02, 0x03, 0x04, 0x05, 0x06, 0x07, 0x08, 0x09]);
    assert_eq!(c.read_u16(), Ok(0x1234));
    assert_eq!(c.read_u32(), Ok(0x5678_9ABC));
    assert_eq!(c.read_u8(), Ok(0xDE));
    assert_eq!(c.position(), 7);
    assert_eq!(c.read_u64(), Ok(0xF001_0203_0405_0607));
    assert_eq!(c.read_bytes(2), Ok(vec![0x08, 0x09]));
}

#[test]
fn short_read_fails_and_keeps_position() {
    let mut c = Cursor::new(vec![1, 2, 3]);
    assert_eq!(c.read_u8(), Ok(1));
    assert_eq!(c.read_u32(), Err(DecodeError::UnexpectedEndOfInput));
    assert_eq!(c.position(), 1);
    assert_eq!(c.read_bytes(3), Err(DecodeError::UnexpectedEndOfInput));
    assert_eq!(c.read_u16(), Ok(0x0203));
    assert_eq!(c.read_u8(), Err(DecodeError::UnexpectedEndOfInput));
}

#[test]
fn text_is_decoded_with_replacement() {
    let mut c = Cursor::new(vec![b'h', 0xC3, 0xA9, 0xFF, b'!']);
    assert_eq!(c.read_string(5).unwrap(), "h\u{e9}\u{fffd}!");
    assert_eq!(c.position(), 5);
    let mut d = Cursor::new(vec![b'o', b'k']);
    assert_eq!(d.read_string(0).unwrap(), "");
    assert_eq!(d.read_string(2).unwrap(), "ok");
}

#[test]
fn reads_attribute_records() {
    let mut bytes = Vec::new();
    u16be(&mut bytes, 4);
    u32be(&mut bytes, 2);
    bytes.extend_from_slice(&[0xAA, 0xBB]);
    u16be(&mut bytes, 5);
    u32be(&mut bytes, 0);
    let mut c = Cursor::new(bytes.clone());
    let attrs = read_attributes(&mut c, 2).unwrap();
    assert_eq!(attrs.len(), 2);
    assert_eq!(attrs[0].attribute_name_index, 4);
    assert_eq!(attrs[0].info, vec![0xAA, 0xBB]);
    assert_eq!(attrs[1].attribute_name_index, 5);
    assert!(attrs[1].info.is_empty());
    let mut c = Cursor::new(bytes);
    assert_eq!(read_attributes(&mut c, 3).err(), Some(DecodeError::UnexpectedEndOfInput));
}

#[test]
fn decodes_a_class_file() {
    let mut c = Cursor::new(class_bytes(0, 0));
    let cf = ClassFile::new(&mut c).unwrap();
    assert_eq!(cf.magic, 0xCAFE_BABE);
    assert_eq!(cf.major, 52);
    assert_eq!(cf.access_flags, 0x0021);
    assert_eq!(cf.constants_pool.len(), 4);
    assert!(matches!(&cf.constants_pool[0], Constant::Utf8(u) if u.data == "main"));
    assert!(matches!(&cf.constants_pool[3], Constant::Integer(i) if i.value == 7));
    assert_eq!(cf.methods.len(), 1);
    assert_eq!(cf.methods[0].access_flags, 0x0009);
    assert_eq!(cf.methods[0].descriptor_index, 3);
    assert_eq!(cf.methods[0].attributes[0].info, vec![9, 8, 7]);
    assert_eq!(cf.attributes.len(), 1);
    assert_eq!(c.position(), c.len());
}

#[test]
fn decoding_twice_gives_the_same_descriptor() {
    let a = ClassFile::new(&mut Cursor::new(class_bytes(0, 0))).unwrap();
    let b = ClassFile::new(&mut Cursor::new(class_bytes(0, 0))).unwrap();
    assert_eq!(format!("{:?}", a), format!("{:?}", b));
}

#[test]
fn fields_are_rejected() {
    let r = ClassFile::new(&mut Cursor::new(class_bytes(0, 1)));
    assert_eq!(
        r.err(),
        Some(MalformedClassFile {
            phase: DecodePhase::Header,
            cause: DecodeError::FieldsNotSupported { count: 1 }
        })
    );
}

#[test]
fn interfaces_are_rejected() {
    let r = ClassFile::new(&mut Cursor::new(class_bytes(2, 0)));
    assert_eq!(
        r.err(),
        Some(MalformedClassFile {
            phase: DecodePhase::Header,
            cause: DecodeError::InterfacesNotSupported { count: 2 }
        })
    );
}

#[test]
fn unsupported_constant_kind_is_rejected() {
    let mut out = Vec::new();
    header(&mut out);
    u16be(&mut out, 3);
    utf8(&mut out, "x");
    out.push(5);
    u32be(&mut out, 0);
    u32be(&mut out, 1);
    let r = ClassFile::new(&mut Cursor::new(out));
    assert_eq!(
        r.err(),
        Some(MalformedClassFile {
            phase: DecodePhase::ConstantPool,
            cause: DecodeError::UnsupportedConstantKind { tag: 5 }
        })
    );
}

#[test]
fn truncation_names_its_phase() {
    let full = class_bytes(0, 0);
    let r = ClassFile::new(&mut Cursor::new(full[..6].to_vec()));
    assert_eq!(
        r.err(),
        Some(MalformedClassFile { phase: DecodePhase::Header, cause: DecodeError::UnexpectedEndOfInput })
    );
    let r = ClassFile::new(&mut Cursor::new(full[..15].to_vec()));
    assert_eq!(
        r.err(),
        Some(MalformedClassFile {
            phase: DecodePhase::ConstantPool,
            cause: DecodeError::UnexpectedEndOfInput
        })
    );
    let r = ClassFile::new(&mut Cursor::new(full[..full.len() - 10].to_vec()));
    assert_eq!(
        r.err(),
        Some(MalformedClassFile { phase: DecodePhase::Methods, cause: DecodeError::UnexpectedEndOfInput })
    );
    let r = ClassFile::new(&mut Cursor::new(full[..full.len() - 3].to_vec()));
    assert_eq!(
        r.err(),
        Some(MalformedClassFile {
            phase: DecodePhase::Attributes,
            cause: DecodeError::UnexpectedEndOfInput
        })
    );
}

#[test]
fn constant_indices_are_one_based() {
    let cf = ClassFile::new(&mut Cursor::new(class_bytes(0, 0))).unwrap();
    assert!(cf.constant(0).is_none());
    assert!(matches!(cf.constant(1), Some(Constant::Utf8(u)) if u.data == "main"));
    assert!(matches!(cf.constant(2), Some(Constant::Utf8(u)) if u.data == "Code"));
    assert!(matches!(cf.constant(4), Some(Constant::Integer(i)) if i.value == 7));
    assert!(cf.constant(5).is_none());
    assert!(cf.constant(u16::MAX).is_none());
}

#[test]
fn lookups_by_name_are_repeatable() {
    let cf = ClassFile::new(&mut Cursor::new(class_bytes(0, 0))).unwrap();
    let first = cf.find_method_by_name("main").unwrap();
    let again = cf.find_method_by_name("main").unwrap();
    assert!(std::ptr::eq(first, again));
    assert!(cf.find_method_by_name("Main").is_none());
    assert!(cf.find_method_by_name("()V").is_none());
    let code = cf.find_attribute_by_name(&first.attributes, "Code").unwrap();
    assert_eq!(code.info, vec![9, 8, 7]);
    assert!(cf.find_attribute_by_name(&first.attributes, "LineNumberTable").is_none());
    assert!(cf.find_attribute_by_name(&cf.attributes, "Code").is_some());
}

#[test]
fn lookup_takes_the_first_match() {
    let cf = ClassFile::new(&mut Cursor::new(class_bytes(0, 0))).unwrap();
    let attrs = vec![
        AttributeInfo { attribute_name_index: 4, info: vec![1] },
        AttributeInfo { attribute_name_index: 0, info: vec![2] },
        AttributeInfo { attribute_name_index: 2, info: vec![3] },
        AttributeInfo { attribute_name_index: 2, info: vec![4] },
    ];
    assert_eq!(cf.find_attribute_by_name(&attrs, "Code").unwrap().info, vec![3]);
}

#[test]
fn code_attribute_is_decoded() {
    let mut info = Vec::new();
    u16be(&mut info, 2);
    u16be(&mut info, 1);
    u32be(&mut info, 3);
    info.extend_from_slice(&[0x10, 0x05, 0xB1]);
    u16be(&mut info, 2);
    info.extend_from_slice(&[0xEE, 0xFF]);
    u16be(&mut info, 1);
    u16be(&mut info, 9);
    u32be(&mut info, 1);
    info.push(0x42);
    let att = AttributeInfo { attribute_name_index: 1, info };
    let code = CodeAttribute::new(&att).unwrap();
    assert_eq!(code.max_stack, 2);
    assert_eq!(code.max_locals, 1);
    assert_eq!(code.code, vec![0x10, 0x05, 0xB1]);
    assert_eq!(code.exception_table, vec![0xEE, 0xFF]);
    assert_eq!(code.attributes.len(), 1);
    assert_eq!(code.attributes[0].attribute_name_index, 9);
    assert_eq!(code.attributes[0].info, vec![0x42]);
}

#[test]
fn truncated_code_attribute_is_malformed() {
    let att = AttributeInfo { attribute_name_index: 1, info: vec![0, 2, 0, 1, 0, 0, 0, 9, 0x10] };
    assert_eq!(
        CodeAttribute::new(&att).err(),
        Some(MalformedClassFile { phase: DecodePhase::Code, cause: DecodeError::UnexpectedEndOfInput })
    );
}

#[test]
fn access_flags_have_their_bits() {
    let cf = ClassFile::new(&mut Cursor::new(class_bytes(0, 0))).unwrap();
    assert_eq!(cf.access_flags, ClassAccessFlags::PUBLIC.mask() | ClassAccessFlags::SUPER.mask());
    assert_eq!(ClassAccessFlags::ENUM.mask(), 0x4000);
    let m = &cf.methods[0];
    assert_ne!(m.access_flags & MethodsAccessFlags::STATIC.mask(), 0);
    assert_eq!(m.access_flags & MethodsAccessFlags::PRIVATE.mask(), 0);
    assert_eq!(MethodsAccessFlags::STRICT.mask(), 0x0800);
}

#[test]
fn failed_decode_leaves_the_cursor_in_place() {
    let bytes = vec![
        0xCA, 0xFE, 0xBA, 0xBE, 0x00, 0x00, 0x00, 0x34, 0x00, 0x01, 0x00, 0x21, 0x00, 0x00, 0x00,
        0x00, 0x00, 0x00, 0x00, 0x01, 0x00, 0x00, 0x00, 0x00,
    ];
    let mut c = Cursor::new(bytes);
    let r = ClassFile::new(&mut c);
    assert_eq!(
        r.err(),
        Some(MalformedClassFile {
            phase: DecodePhase::Header,
            cause: DecodeError::FieldsNotSupported { count: 1 }
        })
    );
    assert_eq!(c.position(), 0);
}

#[test]
fn pool_reader_stores_entries_in_order() {
    let mut bytes = Vec::new();
    u16be(&mut bytes, 3);
    utf8(&mut bytes, "Hi");
    bytes.push(8);
    u16be(&mut bytes, 1);
    let pool = ClassFile::read_constants_pool(&mut Cursor::new(bytes)).unwrap();
    assert_eq!(pool.len(), 2);
    assert!(matches!(&pool[0], Constant::Utf8(u) if u.data == "Hi"));
    assert!(matches!(&pool[1], Constant::String(s) if s.string_index == 1));
    assert!(ClassFile::read_constants_pool(&mut Cursor::new(vec![0, 0])).unwrap().is_empty());
}
