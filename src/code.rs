//! Method bodies: decoding of the "Code" attribute and execution of its
//! instruction stream on an operand stack.
use std::collections::VecDeque;
use vstd::prelude::*;
use crate::class_file::{
    attribute_names, first_named, method_names, resolve, take_attribute_table, AttributeInfo,
    AttributeModel, ClassFile, Constant, ConstantModel, DecodePhase, MalformedClassFile,
    attributes_view, read_attributes,
};
use crate::reader::{
    available, be16, take_bytes, take_u16, take_u32, Cursor, DecodeError, Parsed,
};

verus! {

pub struct CodeModel {
    pub max_stack: u16,
    pub max_locals: u16,
    pub code: Seq<u8>,
    pub exception_table: Seq<u8>,
    pub attributes: Seq<AttributeModel>,
}

/// A method body: stack and locals bounds, a 32-bit-length instruction
/// stream, a 16-bit-length exception table kept as raw bytes, and nested
/// attributes.
pub open spec fn take_code(s: Seq<u8>, p: int) -> Parsed<CodeModel> {
    match take_u16(s, p) {
        Ok((max_stack, p1)) => match take_u16(s, p1) {
            Ok((max_locals, p2)) => match take_u32(s, p2) {
                Ok((code_length, p3)) => match take_bytes(s, p3, code_length as int) {
                    Ok((code, p4)) => match take_u16(s, p4) {
                        Ok((table_length, p5)) => match take_bytes(s, p5, table_length as int) {
                            Ok((exception_table, p6)) => match take_attribute_table(s, p6) {
                                Ok((attributes, p7)) => Ok(
                                    (
                                        CodeModel {
                                            max_stack,
                                            max_locals,
                                            code,
                                            exception_table,
                                            attributes,
                                        },
                                        p7,
                                    ),
                                ),
                                Err(e) => Err(e),
                            },
                            Err(e) => Err(e),
                        },
                        Err(e) => Err(e),
                    },
                    Err(e) => Err(e),
                },
                Err(e) => Err(e),
            },
            Err(e) => Err(e),
        },
        Err(e) => Err(e),
    }
}

/// The decoded body of a method. The two bounds are advisory: nothing
/// enforces them.
#[derive(Debug)]
pub struct CodeAttribute {
    pub max_stack: u16,
    pub max_locals: u16,
    pub code: Vec<u8>,
    pub exception_table: Vec<u8>,
    pub attributes: Vec<AttributeInfo>,
}

impl View for CodeAttribute {
    type V = CodeModel;

    open spec fn view(&self) -> CodeModel {
        CodeModel {
            max_stack: self.max_stack,
            max_locals: self.max_locals,
            code: self.code@,
            exception_table: self.exception_table@,
            attributes: attributes_view(self.attributes@),
        }
    }
}

/// The bytes of `bytes`, copied.
fn copy_bytes(bytes: &Vec<u8>) -> (r: Vec<u8>)
    ensures
        r@ == bytes@,
{
    let mut out: Vec<u8> = Vec::with_capacity(bytes.len());
    let mut i: usize = 0;
    while i < bytes.len()
        invariant
            i <= bytes.len(),
            out@ == bytes@.subrange(0, i as int),
        decreases bytes.len() - i,
    {
        out.push(bytes[i]);
        i = i + 1;
        assert(out@ =~= bytes@.subrange(0, i as int));
    }
    assert(out@ =~= bytes@);
    out
}

fn read_code(cursor: &mut Cursor) -> (r: Result<CodeAttribute, DecodeError>)
    ensures
        match take_code(old(cursor).data(), old(cursor).offset()) {
            Ok((model, _)) => r matches Ok(c) && c@ == model,
            Err(e) => r == Err::<CodeAttribute, DecodeError>(e),
        },
{
    let max_stack = cursor.read_u16()?;
    let max_locals = cursor.read_u16()?;
    let code_length = cursor.read_u32()?;
    let code = cursor.read_bytes(code_length as usize)?;
    let table_length = cursor.read_u16()?;
    let exception_table = cursor.read_bytes(table_length as usize)?;
    let attributes_count = cursor.read_u16()?;
    let attributes = read_attributes(cursor, attributes_count as usize)?;
    Ok(CodeAttribute { max_stack, max_locals, code, exception_table, attributes })
}

impl CodeAttribute {
    /// Reads an attribute's payload, from its start, as a method body.
    pub fn new(attribute: &AttributeInfo) -> (r: Result<Box<CodeAttribute>, MalformedClassFile>)
        ensures
            match take_code(attribute.info@, 0) {
                Ok((model, _)) => r matches Ok(c) && c@ == model,
                Err(cause) => r == Err::<Box<CodeAttribute>, MalformedClassFile>(
                    MalformedClassFile { phase: DecodePhase::Code, cause },
                ),
            },
    {
        let mut cursor = Cursor::new(copy_bytes(&attribute.info));
        match read_code(&mut cursor) {
            Ok(c) => Ok(Box::new(c)),
            Err(cause) => Err(MalformedClassFile { phase: DecodePhase::Code, cause }),
        }
    }
}

// ---------------------------------------------------------------------------
// The interpreter
// ---------------------------------------------------------------------------

pub const OP_CODE_GET_STATIC: u8 = 0xB2;
pub const OP_CODE_LDC: u8 = 0x12;
pub const OP_CODE_INVOKE_VIRTUAL: u8 = 0xB6;
pub const OP_CODE_BI_PUSH: u8 = 0x10;
pub const OP_CODE_SI_PUSH: u8 = 0x11;
pub const OP_CODE_RETURN: u8 = 0xB1;

/// A value on the operand stack. `OutputStream` is the handle that
/// `get-static-field` yields for the standard output stream; a float is
/// held as its IEEE 754 bit pattern.
#[derive(Debug, PartialEq, Eq)]
pub enum Value {
    OutputStream,
    String(String),
    SByte(i8),
    Short(i16),
    Integer(i32),
    Float(u32),
}

pub enum ValueModel {
    OutputStream,
    String(Seq<char>),
    SByte(i8),
    Short(i16),
    Integer(i32),
    Float(u32),
}

impl View for Value {
    type V = ValueModel;

    open spec fn view(&self) -> ValueModel {
        match self {
            Value::OutputStream => ValueModel::OutputStream,
            Value::String(s) => ValueModel::String(s@),
            Value::SByte(v) => ValueModel::SByte(*v),
            Value::Short(v) => ValueModel::Short(*v),
            Value::Integer(v) => ValueModel::Integer(*v),
            Value::Float(v) => ValueModel::Float(*v),
        }
    }
}

pub open spec fn values_view(v: Seq<Value>) -> Seq<ValueModel> {
    v.map_values(|x: Value| x@)
}

/// Why execution stopped short of a successful return.
#[derive(Clone, Copy, Debug, PartialEq, Eq, Structural)]
pub enum ExecError {
    /// An instruction's operand runs past the end of the stream.
    UnexpectedEndOfInput,
    UnsupportedOpcode { opcode: u8 },
    /// A static field or virtual method other than the supported ones.
    UnsupportedMember,
    /// `ldc` names an entry that is not a string, integer or float, or a
    /// string whose text entry is missing or not UTF-8.
    InvalidConstantType,
    /// An index refers to no entry, or to an entry of the wrong kind.
    InvalidReference,
    TypeMismatch,
    CorruptStackState,
    /// The stream ended without a `return`.
    MissingReturn,
}

/// The text of the UTF-8 entry that the class entry at `index` names.
pub open spec fn class_name(pool: Seq<ConstantModel>, index: int) -> Option<Seq<char>> {
    match resolve(pool, index) {
        Some(ConstantModel::Class(name_index)) => match resolve(pool, name_index as int) {
            Some(ConstantModel::Utf8(t)) => Some(t),
            _ => None,
        },
        _ => None,
    }
}

/// The text of the UTF-8 entry that the name-and-type entry at `index` names.
pub open spec fn member_name(pool: Seq<ConstantModel>, index: int) -> Option<Seq<char>> {
    match resolve(pool, index) {
        Some(ConstantModel::NameAndType(name_index, _)) => match resolve(pool, name_index as int) {
            Some(ConstantModel::Utf8(t)) => Some(t),
            _ => None,
        },
        _ => None,
    }
}

/// What one instruction does.
pub enum Step {
    /// Go on at `pc` with `stack`, having printed `printed`, if anything.
    Next { pc: int, stack: Seq<ValueModel>, printed: Option<ValueModel> },
    /// A successful return.
    Done,
    Fault(ExecError),
}

/// `at` is the position of the instruction's first operand byte.
pub open spec fn get_static_step(
    pool: Seq<ConstantModel>,
    code: Seq<u8>,
    at: int,
    stack: Seq<ValueModel>,
) -> Step {
    if !available(code, at, 2) {
        Step::Fault(ExecError::UnexpectedEndOfInput)
    } else {
        match resolve(pool, be16(code, at) as int) {
            Some(ConstantModel::FieldRef(c, nt)) => match (
                class_name(pool, c as int),
                member_name(pool, nt as int),
            ) {
                (Some(cn), Some(mn)) => if cn == "java/lang/System"@ && mn == "out"@ {
                    Step::Next { pc: at + 2, stack: stack.push(ValueModel::OutputStream), printed: None }
                } else {
                    Step::Fault(ExecError::UnsupportedMember)
                },
                _ => Step::Fault(ExecError::InvalidReference),
            },
            _ => Step::Fault(ExecError::InvalidReference),
        }
    }
}

/// `at` is the position of the instruction's first operand byte.
pub open spec fn ldc_step(
    pool: Seq<ConstantModel>,
    code: Seq<u8>,
    at: int,
    stack: Seq<ValueModel>,
) -> Step {
    if !available(code, at, 1) {
        Step::Fault(ExecError::UnexpectedEndOfInput)
    } else {
        match resolve(pool, code[at] as int) {
            Some(ConstantModel::String(i)) => match resolve(pool, i as int) {
                Some(ConstantModel::Utf8(t)) => Step::Next {
                    pc: at + 1,
                    stack: stack.push(ValueModel::String(t)),
                    printed: None,
                },
                _ => Step::Fault(ExecError::InvalidConstantType),
            },
            Some(ConstantModel::Integer(v)) => Step::Next {
                pc: at + 1,
                stack: stack.push(ValueModel::Integer(v as i32)),
                printed: None,
            },
            Some(ConstantModel::Float(b)) => Step::Next {
                pc: at + 1,
                stack: stack.push(ValueModel::Float(b)),
                printed: None,
            },
            Some(_) => Step::Fault(ExecError::InvalidConstantType),
            None => Step::Fault(ExecError::InvalidReference),
        }
    }
}

/// `println` on the output stream: the stream handle leaves first, then the
/// value that is printed.
/// `at` is the position of the instruction's first operand byte.
pub open spec fn invoke_virtual_step(
    pool: Seq<ConstantModel>,
    code: Seq<u8>,
    at: int,
    stack: Seq<ValueModel>,
) -> Step {
    if !available(code, at, 2) {
        Step::Fault(ExecError::UnexpectedEndOfInput)
    } else {
        match resolve(pool, be16(code, at) as int) {
            Some(ConstantModel::MethodRef(c, nt)) => match (
                class_name(pool, c as int),
                member_name(pool, nt as int),
            ) {
                (Some(cn), Some(mn)) => if cn == "java/io/PrintStream"@ && mn == "println"@ {
                    if stack.len() < 2 {
                        Step::Fault(ExecError::CorruptStackState)
                    } else if !(stack[0] is OutputStream) || stack[1] is OutputStream {
                        Step::Fault(ExecError::TypeMismatch)
                    } else {
                        Step::Next {
                            pc: at + 2,
                            stack: stack.subrange(2, stack.len() as int),
                            printed: Some(stack[1]),
                        }
                    }
                } else {
                    Step::Fault(ExecError::UnsupportedMember)
                },
                _ => Step::Fault(ExecError::InvalidReference),
            },
            _ => Step::Fault(ExecError::InvalidReference),
        }
    }
}

/// The instruction at `pc`, which lies within `code`.
pub open spec fn step(pool: Seq<ConstantModel>, code: Seq<u8>, pc: int, stack: Seq<ValueModel>) -> Step {
    let op = code[pc];
    if op == OP_CODE_GET_STATIC {
        get_static_step(pool, code, pc + 1, stack)
    } else if op == OP_CODE_LDC {
        ldc_step(pool, code, pc + 1, stack)
    } else if op == OP_CODE_INVOKE_VIRTUAL {
        invoke_virtual_step(pool, code, pc + 1, stack)
    } else if op == OP_CODE_BI_PUSH {
        if available(code, pc + 1, 1) {
            Step::Next { pc: pc + 2, stack: stack.push(ValueModel::SByte(code[pc + 1] as i8)), printed: None }
        } else {
            Step::Fault(ExecError::UnexpectedEndOfInput)
        }
    } else if op == OP_CODE_SI_PUSH {
        if available(code, pc + 1, 2) {
            Step::Next {
                pc: pc + 3,
                stack: stack.push(ValueModel::Short(be16(code, pc + 1) as i16)),
                printed: None,
            }
        } else {
            Step::Fault(ExecError::UnexpectedEndOfInput)
        }
    } else if op == OP_CODE_RETURN {
        if stack.len() == 0 {
            Step::Done
        } else {
            Step::Fault(ExecError::CorruptStackState)
        }
    } else {
        Step::Fault(ExecError::UnsupportedOpcode { opcode: op })
    }
}

/// Running `code` from `pc`: the values printed, in order, and how it ended.
pub open spec fn run(
    pool: Seq<ConstantModel>,
    code: Seq<u8>,
    pc: int,
    stack: Seq<ValueModel>,
    printed: Seq<ValueModel>,
) -> (Seq<ValueModel>, Result<(), ExecError>)
    decreases code.len() - pc,
{
    if !(0 <= pc < code.len()) {
        (printed, Err(ExecError::MissingReturn))
    } else {
        match step(pool, code, pc, stack) {
            Step::Next { pc: next, stack: rest, printed: out } => if pc < next <= code.len() {
                run(
                    pool,
                    code,
                    next,
                    rest,
                    match out {
                        Some(v) => printed.push(v),
                        None => printed,
                    },
                )
            } else {
                (printed, Err(ExecError::MissingReturn))
            },
            Step::Done => (printed, Ok(())),
            Step::Fault(e) => (printed, Err(e)),
        }
    }
}

/// Running `code` from its start on an empty stack.
pub open spec fn execution(pool: Seq<ConstantModel>, code: Seq<u8>) -> (
    Seq<ValueModel>,
    Result<(), ExecError>,
) {
    run(pool, code, 0, Seq::empty(), Seq::empty())
}

/// The values a method printed, in order, and how its execution ended.
#[derive(Debug)]
pub struct ExecutionOutcome {
    pub printed: Vec<Value>,
    pub result: Result<(), ExecError>,
}

impl View for ExecutionOutcome {
    type V = (Seq<ValueModel>, Result<(), ExecError>);

    open spec fn view(&self) -> (Seq<ValueModel>, Result<(), ExecError>) {
        (values_view(self.printed@), self.result)
    }
}

pub open spec fn text_view(r: Option<&String>) -> Option<Seq<char>> {
    match r {
        Some(t) => Some(t@),
        None => None,
    }
}

pub fn get_name_of_class(class_file: &ClassFile, class_index: u16) -> (r: Option<&String>)
    ensures
        text_view(r) == class_name(class_file@.pool, class_index as int),
{
    if let Some(Constant::Class(class)) = class_file.constant(class_index) {
        if let Some(Constant::Utf8(name)) = class_file.constant(class.name_index) {
            return Some(&name.data);
        }
    }
    None
}

pub fn get_name_of_member(class_file: &ClassFile, name_and_type_index: u16) -> (r: Option<&String>)
    ensures
        text_view(r) == member_name(class_file@.pool, name_and_type_index as int),
{
    if let Some(Constant::NameAndType(name_and_type)) = class_file.constant(name_and_type_index) {
        if let Some(Constant::Utf8(name)) = class_file.constant(name_and_type.name_index) {
            return Some(&name.data);
        }
    }
    None
}

/// Whether `text` is exactly `expected`.
fn text_is(text: &String, expected: &str) -> (r: bool)
    ensures
        r == (text@ == expected@),
{
    *text == expected.to_owned()
}

/// Carries out get-static-field; the cursor stands on its operand.
pub fn get_static(class_file: &ClassFile, cursor: &mut Cursor, stack: &mut VecDeque<Value>) -> (r: Result<
    (),
    ExecError,
>)
    ensures
        final(cursor).data() == old(cursor).data(),
        match get_static_step(
            class_file@.pool,
            old(cursor).data(),
            old(cursor).offset(),
            values_view(old(stack)@),
        ) {
            Step::Next { pc, stack: st, printed } => r is Ok && final(cursor).offset() == pc
                && values_view(final(stack)@) == st && printed is None,
            Step::Fault(e) => r == Err::<(), ExecError>(e),
            Step::Done => false,
        },
        r is Err ==> final(stack)@ == old(stack)@,
{
    let index = match cursor.read_u16() {
        Ok(i) => i,
        Err(_) => return Err(ExecError::UnexpectedEndOfInput),
    };
    let field_ref = match class_file.constant(index) {
        Some(Constant::FieldRef(fr)) => fr,
        _ => return Err(ExecError::InvalidReference),
    };
    let class_name = get_name_of_class(class_file, field_ref.class_index);
    let member_name = get_name_of_member(class_file, field_ref.name_and_type_index);
    match (class_name, member_name) {
        (Some(c), Some(m)) => {
            if text_is(c, "java/lang/System") && text_is(m, "out") {
                let ghost before = stack@;
                stack.push_back(Value::OutputStream);
                assert(values_view(stack@) =~= values_view(before).push(ValueModel::OutputStream));
                Ok(())
            } else {
                Err(ExecError::UnsupportedMember)
            }
        },
        _ => Err(ExecError::InvalidReference),
    }
}

/// Carries out load-constant; the cursor stands on its operand.
pub fn ldc(class_file: &ClassFile, cursor: &mut Cursor, stack: &mut VecDeque<Value>) -> (r: Result<
    (),
    ExecError,
>)
    ensures
        final(cursor).data() == old(cursor).data(),
        match ldc_step(
            class_file@.pool,
            old(cursor).data(),
            old(cursor).offset(),
            values_view(old(stack)@),
        ) {
            Step::Next { pc, stack: st, printed } => r is Ok && final(cursor).offset() == pc
                && values_view(final(stack)@) == st && printed is None,
            Step::Fault(e) => r == Err::<(), ExecError>(e),
            Step::Done => false,
        },
        r is Err ==> final(stack)@ == old(stack)@,
{
    let index = match cursor.read_u8() {
        Ok(i) => i,
        Err(_) => return Err(ExecError::UnexpectedEndOfInput),
    };
    let value = match class_file.constant(index as u16) {
        Some(Constant::String(string_constant)) => match class_file.constant(
            string_constant.string_index,
        ) {
            Some(Constant::Utf8(text)) => Value::String(text.data.clone()),
            _ => return Err(ExecError::InvalidConstantType),
        },
        Some(Constant::Integer(int_constant)) => Value::Integer(
            #[verifier::truncate]
            (int_constant.value as i32),
        ),
        Some(Constant::Float(float_constant)) => Value::Float(float_constant.bits),
        Some(_) => return Err(ExecError::InvalidConstantType),
        None => return Err(ExecError::InvalidReference),
    };
    let ghost before = stack@;
    stack.push_back(value);
    assert(values_view(stack@) =~= values_view(before).push(value@));
    Ok(())
}

/// Carries out invoke-virtual, the cursor standing on its operand, and
/// returns the value to print.
pub fn invoke_virtual(
    class_file: &ClassFile,
    cursor: &mut Cursor,
    stack: &mut VecDeque<Value>,
) -> (r: Result<Value, ExecError>)
    ensures
        final(cursor).data() == old(cursor).data(),
        match invoke_virtual_step(
            class_file@.pool,
            old(cursor).data(),
            old(cursor).offset(),
            values_view(old(stack)@),
        ) {
            Step::Next { pc, stack: st, printed } => r matches Ok(v) && final(cursor).offset() == pc
                && values_view(final(stack)@) == st && printed == Some(v@),
            Step::Fault(e) => r == Err::<Value, ExecError>(e),
            Step::Done => false,
        },
        r is Err ==> final(stack)@ == old(stack)@,
{
    let index = match cursor.read_u16() {
        Ok(i) => i,
        Err(_) => return Err(ExecError::UnexpectedEndOfInput),
    };
    let method_ref = match class_file.constant(index) {
        Some(Constant::MethodRef(mr)) => mr,
        _ => return Err(ExecError::InvalidReference),
    };
    let class_name = get_name_of_class(class_file, method_ref.class_index);
    let member_name = get_name_of_member(class_file, method_ref.name_and_type_index);
    let (c, m) = match (class_name, member_name) {
        (Some(c), Some(m)) => (c, m),
        _ => return Err(ExecError::InvalidReference),
    };
    if !(text_is(c, "java/io/PrintStream") && text_is(m, "println")) {
        return Err(ExecError::UnsupportedMember);
    }
    if stack.len() < 2 {
        return Err(ExecError::CorruptStackState);
    }
    let stream_first = match &stack[0] {
        Value::OutputStream => true,
        _ => false,
    };
    let value_second = match &stack[1] {
        Value::OutputStream => false,
        _ => true,
    };
    if !(stream_first && value_second) {
        return Err(ExecError::TypeMismatch);
    }
    let ghost before = stack@;
    let _stream = stack.pop_front();
    match stack.pop_front() {
        Some(v) => {
            assert(values_view(stack@) =~= values_view(before).subrange(2, before.len() as int));
            Ok(v)
        },
        None => Err(ExecError::CorruptStackState),
    }
}

/// Executes `code` from offset 0 against the constant pool of `class_file`
/// until a `return`. The outcome lists what each executed `println` printed,
/// including those before a failure.
pub fn execute_code(class_file: &ClassFile, code: Vec<u8>) -> (r: ExecutionOutcome)
    ensures
        r@ == execution(class_file@.pool, code@),
{
    let ghost pool = class_file@.pool;
    let ghost c = code@;
    let mut cursor = Cursor::new(code);
    let mut stack: VecDeque<Value> = VecDeque::new();
    let mut printed: Vec<Value> = Vec::new();
    assert(values_view(stack@) =~= Seq::<ValueModel>::empty());
    assert(values_view(printed@) =~= Seq::<ValueModel>::empty());
    loop
        invariant
            pool == class_file@.pool,
            c == code@,
            cursor.data() == c,
            0 <= cursor.offset() <= c.len(),
            execution(pool, c) == run(
                pool,
                c,
                cursor.offset(),
                values_view(stack@),
                values_view(printed@),
            ),
        decreases c.len() - cursor.offset(),
    {
        if cursor.position() >= cursor.len() {
            return ExecutionOutcome { printed, result: Err(ExecError::MissingReturn) };
        }
        let ghost pc = cursor.offset();
        let ghost st = values_view(stack@);
        let opcode = match cursor.read_u8() {
            Ok(op) => op,
            Err(_) => return ExecutionOutcome { printed, result: Err(ExecError::MissingReturn) },
        };
        if opcode == OP_CODE_GET_STATIC {
            if let Err(e) = get_static(class_file, &mut cursor, &mut stack) {
                return ExecutionOutcome { printed, result: Err(e) };
            }
        } else if opcode == OP_CODE_LDC {
            if let Err(e) = ldc(class_file, &mut cursor, &mut stack) {
                return ExecutionOutcome { printed, result: Err(e) };
            }
        } else if opcode == OP_CODE_INVOKE_VIRTUAL {
            match invoke_virtual(class_file, &mut cursor, &mut stack) {
                Ok(v) => {
                    let ghost before = printed@;
                    printed.push(v);
                    assert(values_view(printed@) =~= values_view(before).push(v@));
                },
                Err(e) => return ExecutionOutcome { printed, result: Err(e) },
            }
        } else if opcode == OP_CODE_BI_PUSH {
            match cursor.read_u8() {
                Ok(b) => {
                    let ghost before = stack@;
                    stack.push_back(Value::SByte(#[verifier::truncate] (b as i8)));
                    assert(values_view(stack@) =~= values_view(before).push(
                        ValueModel::SByte(b as i8),
                    ));
                },
                Err(_) => return ExecutionOutcome {
                    printed,
                    result: Err(ExecError::UnexpectedEndOfInput),
                },
            }
        } else if opcode == OP_CODE_SI_PUSH {
            match cursor.read_u16() {
                Ok(v) => {
                    let ghost before = stack@;
                    stack.push_back(Value::Short(#[verifier::truncate] (v as i16)));
                    assert(values_view(stack@) =~= values_view(before).push(
                        ValueModel::Short(v as i16),
                    ));
                },
                Err(_) => return ExecutionOutcome {
                    printed,
                    result: Err(ExecError::UnexpectedEndOfInput),
                },
            }
        } else if opcode == OP_CODE_RETURN {
            if stack.len() == 0 {
                return ExecutionOutcome { printed, result: Ok(()) };
            }
            return ExecutionOutcome { printed, result: Err(ExecError::CorruptStackState) };
        } else {
            return ExecutionOutcome {
                printed,
                result: Err(ExecError::UnsupportedOpcode { opcode }),
            };
        }
    }
}

/// Why a method could not be run at all.
#[derive(Clone, Copy, Debug, PartialEq, Eq, Structural)]
pub enum RunError {
    MethodNotFound,
    CodeNotFound,
    MalformedCode(MalformedClassFile),
}

/// Runs the first method named `method_name`, using the first of its
/// attributes named "Code" as its body.
pub fn run_method(class_file: &ClassFile, method_name: &str) -> (r: Result<
    ExecutionOutcome,
    RunError,
>)
    ensures
        match first_named(class_file@.pool, method_names(class_file.methods@), method_name@) {
            None => r == Err::<ExecutionOutcome, RunError>(RunError::MethodNotFound),
            Some(i) => {
                let attributes = class_file.methods@[i].attributes@;
                match first_named(class_file@.pool, attribute_names(attributes), "Code"@) {
                    None => r == Err::<ExecutionOutcome, RunError>(RunError::CodeNotFound),
                    Some(k) => match take_code(attributes[k].info@, 0) {
                        Ok((body, _)) => r matches Ok(o) && o@ == execution(
                            class_file@.pool,
                            body.code,
                        ),
                        Err(cause) => r == Err::<ExecutionOutcome, RunError>(
                            RunError::MalformedCode(
                                MalformedClassFile { phase: DecodePhase::Code, cause },
                            ),
                        ),
                    },
                }
            },
        },
{
    let method = match class_file.find_method_by_name(method_name) {
        Some(m) => m,
        None => return Err(RunError::MethodNotFound),
    };
    let attribute = match class_file.find_attribute_by_name(&method.attributes, "Code") {
        Some(a) => a,
        None => return Err(RunError::CodeNotFound),
    };
    match CodeAttribute::new(attribute) {
        Ok(body) => Ok(execute_code(class_file, body.code)),
        Err(e) => Err(RunError::MalformedCode(e)),
    }
}

/// Whether `op` is one of the instructions the interpreter carries out.
pub open spec fn is_supported_opcode(op: u8) -> bool {
    op == OP_CODE_GET_STATIC || op == OP_CODE_LDC || op == OP_CODE_INVOKE_VIRTUAL || op
        == OP_CODE_BI_PUSH || op == OP_CODE_SI_PUSH || op == OP_CODE_RETURN
}

/// A `return` succeeds exactly when the operand stack is empty; on any other
/// stack it fails with `CorruptStackState`. Either way nothing more is printed.
pub proof fn return_needs_empty_stack(
    pool: Seq<ConstantModel>,
    code: Seq<u8>,
    pc: int,
    stack: Seq<ValueModel>,
    printed: Seq<ValueModel>,
)
    requires
        0 <= pc < code.len(),
        code[pc] == OP_CODE_RETURN,
    ensures
        run(pool, code, pc, stack, printed) == if stack.len() == 0 {
            (printed, Ok::<(), ExecError>(()))
        } else {
            (printed, Err::<(), ExecError>(ExecError::CorruptStackState))
        },
{
}

/// An instruction outside the supported set stops execution with
/// `UnsupportedOpcode`, and adds nothing to what was printed before it.
pub proof fn unsupported_opcode_fails(
    pool: Seq<ConstantModel>,
    code: Seq<u8>,
    pc: int,
    stack: Seq<ValueModel>,
    printed: Seq<ValueModel>,
)
    requires
        0 <= pc < code.len(),
        !is_supported_opcode(code[pc]),
    ensures
        run(pool, code, pc, stack, printed) == (
            printed,
            Err::<(), ExecError>(ExecError::UnsupportedOpcode { opcode: code[pc] }),
        ),
{
}

/// The state after `n` instructions from offset 0 on an empty stack, each of
/// which went on to a next one: the position reached, the operand stack, and
/// what was printed. `None` where fewer than `n` instructions went on.
pub open spec fn trace(pool: Seq<ConstantModel>, code: Seq<u8>, n: nat) -> Option<
    (int, Seq<ValueModel>, Seq<ValueModel>),
>
    decreases n,
{
    if n == 0 {
        Some((0, Seq::empty(), Seq::empty()))
    } else {
        match trace(pool, code, (n - 1) as nat) {
            Some((pc, stack, printed)) => if 0 <= pc < code.len() {
                match step(pool, code, pc, stack) {
                    Step::Next { pc: next, stack: rest, printed: out } => if pc < next
                        <= code.len() {
                        Some(
                            (
                                next,
                                rest,
                                match out {
                                    Some(v) => printed.push(v),
                                    None => printed,
                                },
                            ),
                        )
                    } else {
                        None
                    },
                    _ => None,
                }
            } else {
                None
            },
            None => None,
        }
    }
}

/// Running from the start is running from any state the start leads to.
pub proof fn execution_continues_from_trace(
    pool: Seq<ConstantModel>,
    code: Seq<u8>,
    n: nat,
    pc: int,
    stack: Seq<ValueModel>,
    printed: Seq<ValueModel>,
)
    requires
        trace(pool, code, n) == Some((pc, stack, printed)),
    ensures
        execution(pool, code) == run(pool, code, pc, stack, printed),
    decreases n,
{
    if n > 0 {
        let (p0, s0, o0) = trace(pool, code, (n - 1) as nat)->Some_0;
        execution_continues_from_trace(pool, code, (n - 1) as nat, p0, s0, o0);
    }
}

/// Where the instructions before an unsupported opcode all went on, execution
/// fails with `UnsupportedOpcode`, and what was printed is exactly what they
/// printed.
pub proof fn unsupported_opcode_after_prefix_fails(
    pool: Seq<ConstantModel>,
    code: Seq<u8>,
    n: nat,
    pc: int,
    stack: Seq<ValueModel>,
    printed: Seq<ValueModel>,
)
    requires
        trace(pool, code, n) == Some((pc, stack, printed)),
        0 <= pc < code.len(),
        !is_supported_opcode(code[pc]),
    ensures
        execution(pool, code) == (
            printed,
            Err::<(), ExecError>(ExecError::UnsupportedOpcode { opcode: code[pc] }),
        ),
{
    execution_continues_from_trace(pool, code, n, pc, stack, printed);
}

/// Where the instructions before a `return` all went on, execution succeeds
/// exactly when they left the operand stack empty, and fails with
/// `CorruptStackState` otherwise.
pub proof fn return_after_prefix_needs_empty_stack(
    pool: Seq<ConstantModel>,
    code: Seq<u8>,
    n: nat,
    pc: int,
    stack: Seq<ValueModel>,
    printed: Seq<ValueModel>,
)
    requires
        trace(pool, code, n) == Some((pc, stack, printed)),
        0 <= pc < code.len(),
        code[pc] == OP_CODE_RETURN,
    ensures
        execution(pool, code) == if stack.len() == 0 {
            (printed, Ok::<(), ExecError>(()))
        } else {
            (printed, Err::<(), ExecError>(ExecError::CorruptStackState))
        },
{
    execution_continues_from_trace(pool, code, n, pc, stack, printed);
}

/// Whether `state` stands at a `return` with an empty operand stack.
pub open spec fn returns_on_empty_stack(
    code: Seq<u8>,
    state: Option<(int, Seq<ValueModel>, Seq<ValueModel>)>,
) -> bool {
    match state {
        Some((pc, stack, _)) => 0 <= pc < code.len() && code[pc] == OP_CODE_RETURN && stack.len()
            == 0,
        None => false,
    }
}

/// A successful execution ends at a `return` reached with an empty operand
/// stack.
pub proof fn success_ends_on_empty_stack(pool: Seq<ConstantModel>, code: Seq<u8>)
    requires
        execution(pool, code).1 is Ok,
    ensures
        exists|n: nat| returns_on_empty_stack(code, #[trigger] trace(pool, code, n)),
{
    lemma_success_from(pool, code, 0, 0, Seq::empty(), Seq::empty());
}

proof fn lemma_success_from(
    pool: Seq<ConstantModel>,
    code: Seq<u8>,
    n: nat,
    pc: int,
    stack: Seq<ValueModel>,
    printed: Seq<ValueModel>,
)
    requires
        trace(pool, code, n) == Some((pc, stack, printed)),
        run(pool, code, pc, stack, printed).1 is Ok,
    ensures
        exists|m: nat| returns_on_empty_stack(code, #[trigger] trace(pool, code, m)),
    decreases code.len() - pc,
{
    match step(pool, code, pc, stack) {
        Step::Next { pc: next, stack: rest, printed: out } => {
            let printed2 = match out {
                Some(v) => printed.push(v),
                None => printed,
            };
            assert(trace(pool, code, n + 1) == Some((next, rest, printed2)));
            lemma_success_from(pool, code, n + 1, next, rest, printed2);
        },
        Step::Done => {
            assert(returns_on_empty_stack(code, trace(pool, code, n)));
        },
        Step::Fault(_) => {},
    }
}

/// Whether `op` puts one value on the operand stack.
pub open spec fn is_push(op: u8) -> bool {
    op == OP_CODE_GET_STATIC || op == OP_CODE_LDC || op == OP_CODE_BI_PUSH || op == OP_CODE_SI_PUSH
}

/// Among the first `n` instructions of the trace: how many pushed a value,
/// and how many were invoke-virtual.
pub open spec fn pushes_and_calls(pool: Seq<ConstantModel>, code: Seq<u8>, n: nat) -> (nat, nat)
    decreases n,
{
    if n == 0 {
        (0, 0)
    } else {
        let (pushes, calls) = pushes_and_calls(pool, code, (n - 1) as nat);
        match trace(pool, code, (n - 1) as nat) {
            Some((pc, _, _)) => if 0 <= pc < code.len() {
                (
                    if is_push(code[pc]) {
                        pushes + 1
                    } else {
                        pushes
                    },
                    if code[pc] == OP_CODE_INVOKE_VIRTUAL {
                        calls + 1
                    } else {
                        calls
                    },
                )
            } else {
                (pushes, calls)
            },
            None => (pushes, calls),
        }
    }
}

/// Along a trace, each push adds one value and each invoke-virtual takes two
/// and prints one: the stack holds the pushes less twice the calls.
pub proof fn stack_counts_pushes_and_calls(
    pool: Seq<ConstantModel>,
    code: Seq<u8>,
    n: nat,
    pc: int,
    stack: Seq<ValueModel>,
    printed: Seq<ValueModel>,
)
    requires
        trace(pool, code, n) == Some((pc, stack, printed)),
    ensures
        stack.len() + 2 * pushes_and_calls(pool, code, n).1 == pushes_and_calls(pool, code, n).0,
        printed.len() == pushes_and_calls(pool, code, n).1,
    decreases n,
{
    if n > 0 {
        let (p0, s0, o0) = trace(pool, code, (n - 1) as nat)->Some_0;
        stack_counts_pushes_and_calls(pool, code, (n - 1) as nat, p0, s0, o0);
        let op = code[p0];
        if op == OP_CODE_GET_STATIC {
            assert(step(pool, code, p0, s0) == get_static_step(pool, code, p0 + 1, s0));
        } else if op == OP_CODE_LDC {
            assert(step(pool, code, p0, s0) == ldc_step(pool, code, p0 + 1, s0));
        } else if op == OP_CODE_INVOKE_VIRTUAL {
            assert(step(pool, code, p0, s0) == invoke_virtual_step(pool, code, p0 + 1, s0));
        }
    }
}

/// A successful execution returns after exactly twice as many pushes as
/// invoke-virtual calls, with nothing left on the stack.
pub proof fn success_balances_pushes_and_calls(pool: Seq<ConstantModel>, code: Seq<u8>)
    requires
        execution(pool, code).1 is Ok,
    ensures
        exists|n: nat|
            returns_on_empty_stack(code, #[trigger] trace(pool, code, n))
                && pushes_and_calls(pool, code, n).0 == 2 * pushes_and_calls(pool, code, n).1,
{
    success_ends_on_empty_stack(pool, code);
    let n = choose|n: nat| returns_on_empty_stack(code, #[trigger] trace(pool, code, n));
    let (pc, stack, printed) = trace(pool, code, n)->Some_0;
    stack_counts_pushes_and_calls(pool, code, n, pc, stack, printed);
}

} // verus!
