use std::collections::VecDeque;
use tiny_jvm::class_file::{
    Constant, ConstantClass, ConstantFieldRef, ConstantInteger, ConstantNameAndType, ConstantUft8,
    DecodePhase, MalformedClassFile,
};
use tiny_jvm::code::{ExecError, RunError, Value};
use tiny_jvm::reader::{Cursor, DecodeError};
use tiny_jvm::{execute_code, run_method, ClassFile};

fn u16be(out: &mut Vec<u8>, v: u16) {
    out.extend_from_slice(&v.to_be_bytes());
}

fn u32be(out: &mut Vec<u8>, v: u32) {
    out.extend_from_slice(&v.to_be_bytes());
}

fn utf8(out: &mut Vec<u8>, text: &str) {
    out.push(1);
    u16be(out, text.len() as u16);
    out.extend_from_slice(text.as_bytes());
}

fn one(out: &mut Vec<u8>, tag: u8, a: u16) {
    out.push(tag);
    u16be(out, a);
}

fn pair(out: &mut Vec<u8>, tag: u8, a: u16, b: u16) {
    out.push(tag);
    u16be(out, a);
    u16be(out, b);
}

/// The pool of a "print a constant" program:
///  1 "java/lang/System"  2 Class 1  3 "out"  4 "Ljava/io/PrintStream;"
///  5 NameAndType 3 4  6 FieldRef 2 5  7 "Hi"  8 String 7
///  9 "java/io/PrintStream"  10 Class 9  11 "println"  12 "(Ljava/lang/String;)V"
///  13 NameAndType 11 12  14 MethodRef 10 13  15 "main"  16 "([Ljava/lang/String;)V"
///  17 "Code"  18 Integer -3  19 Float 1.5  20 "err"  21 NameAndType 20 4
///  22 FieldRef 2 21  23 MethodRef 10 5
fn pool(out: &mut Vec<u8>) {
    u16be(out, 24);
    utf8(out, "java/lang/System");
    one(out, 7, 1);
    utf8(out, "out");
    utf8(out, "Ljava/io/PrintStream;");
    pair(out, 12, 3, 4);
    pair(out, 9, 2, 5);
    utf8(out, "Hi");
    one(out, 8, 7);
    utf8(out, "java/io/PrintStream");
    one(out, 7, 9);
    utf8(out, "println");
    utf8(out, "(Ljava/lang/String;)V");
    pair(out, 12, 11, 12);
    pair(out, 10, 10, 13);
    utf8(out, "main");
    utf8(out, "([Ljava/lang/String;)V");
    utf8(out, "Code");
    out.push(3);
    u32be(out, (-3i32) as u32);
    out.push(4);
    u32be(out, 1.5f32.to_bits());
    utf8(out, "err");
    pair(out, 12, 20, 4);
    pair(out, 9, 2, 21);
    pair(out, 10, 10, 5);
}

fn class_with_main(code: &[u8]) -> Box<ClassFile> {
    let mut out = Vec::new();
    u32be(&mut out, 0xCAFE_BABE);
    u16be(&mut out, 0);
    u16be(&mut out, 52);
    pool(&mut out);
    u16be(&mut out, 0x0021);
    u16be(&mut out, 0);
    u16be(&mut out, 0);
    u16be(&mut out, 0);
    u16be(&mut out, 0);
    u16be(&mut out, 1);
    u16be(&mut out, 0x0009);
    u16be(&mut out, 15);
    u16be(&mut out, 16);
    u16be(&mut out, 1);
    u16be(&mut out, 17);
    u32be(&mut out, 12 + code.len() as u32);
    u16be(&mut out, 2);
    u16be(&mut out, 1);
    u32be(&mut out, code.len() as u32);
    out.extend_from_slice(code);
    u16be(&mut out, 0);
    u16be(&mut out, 0);
    u16be(&mut out, 0);
    ClassFile::new(&mut Cursor::new(out)).unwrap()
}

fn run_main(code: &[u8]) -> (Vec<Value>, Result<(), ExecError>) {
    let cf = class_with_main(code);
    let o = run_method(&cf, "main").unwrap();
    (o.printed, o.result)
}

const GET_OUT: [u8; 3] = [0xB2, 0x00, 0x06];
const PRINTLN: [u8; 3] = [0xB6, 0x00, 0x0E];

#[test]
fn prints_a_string_constant() {
    let code = [&GET_OUT[..], &[0x12, 0x08], &PRINTLN[..], &[0xB1]].concat();
    let (printed, result) = run_main(&code);
    assert_eq!(printed, vec![Value::String("Hi".to_string())]);
    assert_eq!(result, Ok(()));
}

#[test]
fn prints_a_pushed_byte() {
    let code = [&GET_OUT[..], &[0x10, 0x05], &PRINTLN[..], &[0xB1]].concat();
    let (printed, result) = run_main(&code);
    assert_eq!(printed, vec![Value::SByte(5)]);
    assert_eq!(result, Ok(()));
}

#[test]
fn pushed_immediates_are_signed() {
    let code = [
        &GET_OUT[..], &[0x10, 0xFB], &PRINTLN[..],
        &GET_OUT[..], &[0x11, 0xFF, 0x38], &PRINTLN[..],
        &GET_OUT[..], &[0x11, 0x01, 0x00], &PRINTLN[..],
        &[0xB1],
    ]
    .concat();
    let (printed, result) = run_main(&code);
    assert_eq!(printed, vec![Value::SByte(-5), Value::Short(-200), Value::Short(256)]);
    assert_eq!(result, Ok(()));
}

#[test]
fn loads_integer_and_float_constants() {
    let code = [&GET_OUT[..], &[0x12, 18], &PRINTLN[..], &GET_OUT[..], &[0x12, 19], &PRINTLN[..], &[0xB1]].concat();
    let (printed, result) = run_main(&code);
    assert_eq!(printed, vec![Value::Integer(-3), Value::Float(1.5f32.to_bits())]);
    assert_eq!(result, Ok(()));
}

#[test]
fn missing_method_is_reported() {
    let cf = class_with_main(&[0xB1]);
    assert_eq!(run_method(&cf, "other").err(), Some(RunError::MethodNotFound));
    assert!(cf.find_method_by_name("other").is_none());
}

#[test]
fn unsupported_opcode_keeps_earlier_output() {
    let code = [&GET_OUT[..], &[0x10, 0x07], &PRINTLN[..], &[0x60], &GET_OUT[..], &[0x10, 0x08], &PRINTLN[..], &[0xB1]].concat();
    let (printed, result) = run_main(&code);
    assert_eq!(printed, vec![Value::SByte(7)]);
    assert_eq!(result, Err(ExecError::UnsupportedOpcode { opcode: 0x60 }));
}

#[test]
fn every_unsupported_opcode_fails_without_output() {
    let supported = [0xB2u8, 0x12, 0xB6, 0x10, 0x11, 0xB1];
    let cf = class_with_main(&[0xB1]);
    for op in 0..=255u8 {
        if supported.contains(&op) {
            continue;
        }
        let o = execute_code(&cf, vec![op, 0x00, 0x01]);
        assert!(o.printed.is_empty());
        assert_eq!(o.result, Err(ExecError::UnsupportedOpcode { opcode: op }));
    }
}

#[test]
fn return_on_empty_stack_succeeds() {
    let (printed, result) = run_main(&[0xB1]);
    assert!(printed.is_empty());
    assert_eq!(result, Ok(()));
}

#[test]
fn return_with_values_left_is_corrupt() {
    let (printed, result) = run_main(&[0x10, 0x05, 0xB1]);
    assert!(printed.is_empty());
    assert_eq!(result, Err(ExecError::CorruptStackState));
}

#[test]
fn stream_without_return_is_a_fault() {
    assert_eq!(run_main(&[0x10, 0x05]).1, Err(ExecError::MissingReturn));
    assert_eq!(run_main(&[]).1, Err(ExecError::MissingReturn));
}

#[test]
fn truncated_operand_is_reported() {
    assert_eq!(run_main(&[0xB2, 0x00]).1, Err(ExecError::UnexpectedEndOfInput));
    assert_eq!(run_main(&[0x10]).1, Err(ExecError::UnexpectedEndOfInput));
}

#[test]
fn other_static_fields_are_unsupported() {
    assert_eq!(run_main(&[0xB2, 0x00, 22, 0xB1]).1, Err(ExecError::UnsupportedMember));
}

#[test]
fn other_virtual_methods_are_unsupported() {
    let code = [&GET_OUT[..], &[0x10, 0x01], &[0xB6, 0x00, 23], &[0xB1]].concat();
    assert_eq!(run_main(&code).1, Err(ExecError::UnsupportedMember));
}

#[test]
fn wrong_kind_of_reference_is_reported() {
    assert_eq!(run_main(&[0xB2, 0x00, 14, 0xB1]).1, Err(ExecError::InvalidReference));
    assert_eq!(run_main(&[0xB2, 0x00, 0, 0xB1]).1, Err(ExecError::InvalidReference));
    assert_eq!(run_main(&[0x12, 200, 0xB1]).1, Err(ExecError::InvalidReference));
}

#[test]
fn loading_a_class_constant_is_invalid() {
    assert_eq!(run_main(&[0x12, 2, 0xB1]).1, Err(ExecError::InvalidConstantType));
}

#[test]
fn println_needs_two_operands() {
    let code = [&GET_OUT[..], &PRINTLN[..], &[0xB1]].concat();
    assert_eq!(run_main(&code).1, Err(ExecError::CorruptStackState));
}

#[test]
fn println_needs_the_stream_first() {
    let code = [&[0x10, 0x01], &GET_OUT[..], &PRINTLN[..], &[0xB1]].concat();
    assert_eq!(run_main(&code).1, Err(ExecError::TypeMismatch));
    let code = [&GET_OUT[..], &GET_OUT[..], &PRINTLN[..], &[0xB1]].concat();
    assert_eq!(run_main(&code).1, Err(ExecError::TypeMismatch));
}

#[test]
fn missing_code_attribute_is_reported() {
    let mut cf = class_with_main(&[0xB1]);
    cf.methods[0].attributes.clear();
    assert_eq!(run_method(&cf, "main").err(), Some(RunError::CodeNotFound));
}

#[test]
fn malformed_code_attribute_is_reported() {
    let mut cf = class_with_main(&[0xB1]);
    cf.methods[0].attributes[0].info.truncate(5);
    assert_eq!(
        run_method(&cf, "main").err(),
        Some(RunError::MalformedCode(MalformedClassFile {
            phase: DecodePhase::Code,
            cause: DecodeError::UnexpectedEndOfInput
        }))
    );
}

fn pool_class(pool: Vec<Constant>) -> ClassFile {
    ClassFile {
        magic: 0,
        minor: 0,
        major: 0,
        constants_pool: pool,
        access_flags: 0,
        this_class: 0,
        super_class: 0,
        methods: Vec::new(),
        attributes: Vec::new(),
    }
}

fn text(s: &str) -> Constant {
    Constant::Utf8(ConstantUft8 { data: s.to_string() })
}

fn system_field(member: &str) -> ClassFile {
    pool_class(vec![
        Constant::FieldRef(ConstantFieldRef { class_index: 2, name_and_type_index: 4 }),
        Constant::Class(ConstantClass { name_index: 3 }),
        text("java/lang/System"),
        Constant::NameAndType(ConstantNameAndType { name_index: 5, descriptor_index: 6 }),
        text(member),
        text("Ljava/io/PrintStream;"),
    ])
}

#[test]
fn get_static_refuses_other_members_of_system() {
    let cf = system_field("err");
    let mut cursor = Cursor::new(vec![0x00, 0x01]);
    let mut stack: VecDeque<Value> = VecDeque::new();
    stack.push_back(Value::SByte(3));
    let r = tiny_jvm::code::get_static(&cf, &mut cursor, &mut stack);
    assert_eq!(r, Err(ExecError::UnsupportedMember));
    assert_eq!(stack, VecDeque::from(vec![Value::SByte(3)]));
}

#[test]
fn get_static_accepts_system_out() {
    let cf = system_field("out");
    let mut cursor = Cursor::new(vec![0x00, 0x01]);
    let mut stack: VecDeque<Value> = VecDeque::new();
    assert_eq!(tiny_jvm::code::get_static(&cf, &mut cursor, &mut stack), Ok(()));
    assert_eq!(stack, VecDeque::from(vec![Value::OutputStream]));
    assert_eq!(cursor.position(), 2);
    let mut cursor = Cursor::new(vec![0x00, 0x00]);
    assert_eq!(tiny_jvm::code::get_static(&cf, &mut cursor, &mut stack), Err(ExecError::InvalidReference));
    assert_eq!(stack, VecDeque::from(vec![Value::OutputStream]));
}

#[test]
fn ldc_reads_integer_bits_as_signed() {
    let cf = pool_class(vec![Constant::Integer(ConstantInteger { value: 0xFFFF_FFFF })]);
    let mut stack: VecDeque<Value> = VecDeque::new();
    assert_eq!(tiny_jvm::code::ldc(&cf, &mut Cursor::new(vec![0x01]), &mut stack), Ok(()));
    assert_eq!(stack, VecDeque::from(vec![Value::Integer(-1)]));
    assert_eq!(
        tiny_jvm::code::ldc(&cf, &mut Cursor::new(vec![0x00]), &mut stack),
        Err(ExecError::InvalidReference)
    );
    assert_eq!(
        tiny_jvm::code::ldc(&cf, &mut Cursor::new(vec![0x02]), &mut stack),
        Err(ExecError::InvalidReference)
    );
    assert_eq!(stack, VecDeque::from(vec![Value::Integer(-1)]));
}

#[test]
fn failed_invoke_virtual_keeps_the_stack() {
    let cf = class_with_main(&[0xB1]);
    let mut stack: VecDeque<Value> = VecDeque::new();
    stack.push_back(Value::SByte(1));
    stack.push_back(Value::OutputStream);
    let r = tiny_jvm::code::invoke_virtual(&cf, &mut Cursor::new(vec![0x00, 0x0E]), &mut stack);
    assert_eq!(r, Err(ExecError::TypeMismatch));
    assert_eq!(stack, VecDeque::from(vec![Value::SByte(1), Value::OutputStream]));
    let r = tiny_jvm::code::invoke_virtual(&cf, &mut Cursor::new(vec![0x00, 23]), &mut stack);
    assert_eq!(r, Err(ExecError::UnsupportedMember));
    assert_eq!(stack.len(), 2);
    let mut ok: VecDeque<Value> = VecDeque::from(vec![Value::OutputStream, Value::Short(4), Value::SByte(9)]);
    let r = tiny_jvm::code::invoke_virtual(&cf, &mut Cursor::new(vec![0x00, 0x0E]), &mut ok);
    assert_eq!(r, Ok(Value::Short(4)));
    assert_eq!(ok, VecDeque::from(vec![Value::SByte(9)]));
}

#[test]
fn string_constant_without_text_is_an_invalid_constant() {
    let cf = pool_class(vec![
        Constant::String(tiny_jvm::class_file::ConstantString { string_index: 2 }),
        Constant::Integer(ConstantInteger { value: 1 }),
        Constant::String(tiny_jvm::class_file::ConstantString { string_index: 9 }),
    ]);
    let mut stack: VecDeque<Value> = VecDeque::new();
    assert_eq!(
        tiny_jvm::code::ldc(&cf, &mut Cursor::new(vec![0x01]), &mut stack),
        Err(ExecError::InvalidConstantType)
    );
    assert_eq!(
        tiny_jvm::code::ldc(&cf, &mut Cursor::new(vec![0x03]), &mut stack),
        Err(ExecError::InvalidConstantType)
    );
    assert!(stack.is_empty());
}
