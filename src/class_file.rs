//! The class-file model, its decoder, and name lookups over the constant pool.
use vstd::prelude::*;
use crate::reader::{
    outcome, take_bytes, take_text, take_u16, take_u32, take_u8, Cursor, DecodeError, Parsed,
};

verus! {

pub const CONSTANT_UTF8: u8 = 1;
pub const CONSTANT_INTEGER: u8 = 3;
pub const CONSTANT_FLOAT: u8 = 4;
pub const CONSTANT_CLASS: u8 = 7;
pub const CONSTANT_STRING: u8 = 8;
pub const CONSTANT_FIELD_REF: u8 = 9;
pub const CONSTANT_METHOD_REF: u8 = 10;
pub const CONSTANT_INTERFACE_METHOD_REF: u8 = 11;
pub const CONSTANT_NAME_AND_TYPE: u8 = 12;

// ---------------------------------------------------------------------------
// Spec-level decoding
// ---------------------------------------------------------------------------

/// `n` items decoded one after another by `item`, starting at `p`.
pub open spec fn repeat<T>(item: spec_fn(int) -> Parsed<T>, p: int, n: nat) -> Parsed<Seq<T>>
    decreases n,
{
    if n == 0 {
        Ok((Seq::empty(), p))
    } else {
        match repeat(item, p, (n - 1) as nat) {
            Ok((xs, q)) => match item(q) {
                Ok((x, r)) => Ok((xs.push(x), r)),
                Err(e) => Err(e),
            },
            Err(e) => Err(e),
        }
    }
}

/// Once a prefix of a repetition fails, the whole repetition fails the same way.
pub proof fn lemma_repeat_failure_sticks<T>(
    item: spec_fn(int) -> Parsed<T>,
    p: int,
    i: nat,
    n: nat,
)
    requires
        i <= n,
        repeat(item, p, i) is Err,
    ensures
        repeat(item, p, n) == repeat(item, p, i),
    decreases n - i,
{
    if n > i {
        lemma_repeat_failure_sticks(item, p, i, (n - 1) as nat);
    }
}

pub struct AttributeModel {
    pub name_index: u16,
    pub info: Seq<u8>,
}

pub enum ConstantModel {
    Utf8(Seq<char>),
    Integer(u32),
    Float(u32),
    Class(u16),
    String(u16),
    FieldRef(u16, u16),
    MethodRef(u16, u16),
    InterfaceMethodRef(u16, u16),
    NameAndType(u16, u16),
}

pub struct MethodModel {
    pub access_flags: u16,
    pub name_index: u16,
    pub descriptor_index: u16,
    pub attributes: Seq<AttributeModel>,
}

pub struct ClassFileModel {
    pub magic: u32,
    pub minor: u16,
    pub major: u16,
    pub pool: Seq<ConstantModel>,
    pub access_flags: u16,
    pub this_class: u16,
    pub super_class: u16,
    pub methods: Seq<MethodModel>,
    pub attributes: Seq<AttributeModel>,
}

/// One attribute record: name index, 32-bit length, then that many bytes.
pub open spec fn take_attribute(s: Seq<u8>, p: int) -> Parsed<AttributeModel> {
    match take_u16(s, p) {
        Ok((name_index, q)) => match take_u32(s, q) {
            Ok((len, r)) => match take_bytes(s, r, len as int) {
                Ok((info, e)) => Ok((AttributeModel { name_index, info }, e)),
                Err(x) => Err(x),
            },
            Err(x) => Err(x),
        },
        Err(x) => Err(x),
    }
}

pub open spec fn take_attributes(s: Seq<u8>, p: int, n: nat) -> Parsed<Seq<AttributeModel>> {
    repeat(|q: int| take_attribute(s, q), p, n)
}

/// A 16-bit count followed by that many attribute records.
pub open spec fn take_attribute_table(s: Seq<u8>, p: int) -> Parsed<Seq<AttributeModel>> {
    match take_u16(s, p) {
        Ok((n, q)) => take_attributes(s, q, n as nat),
        Err(e) => Err(e),
    }
}

pub open spec fn take_index_pair(s: Seq<u8>, p: int) -> Parsed<(u16, u16)> {
    match take_u16(s, p) {
        Ok((a, q)) => match take_u16(s, q) {
            Ok((b, r)) => Ok(((a, b), r)),
            Err(e) => Err(e),
        },
        Err(e) => Err(e),
    }
}

/// The body of a constant-pool entry whose tag has been read.
pub open spec fn take_constant_body(s: Seq<u8>, tag: u8, q: int) -> Parsed<ConstantModel> {
    if tag == CONSTANT_UTF8 {
        match take_u16(s, q) {
            Ok((n, r)) => match take_text(s, r, n as int) {
                Ok((t, e)) => Ok((ConstantModel::Utf8(t), e)),
                Err(x) => Err(x),
            },
            Err(x) => Err(x),
        }
    } else if tag == CONSTANT_INTEGER || tag == CONSTANT_FLOAT {
        match take_u32(s, q) {
            Ok((v, r)) => Ok(
                (
                    if tag == CONSTANT_INTEGER {
                        ConstantModel::Integer(v)
                    } else {
                        ConstantModel::Float(v)
                    },
                    r,
                ),
            ),
            Err(x) => Err(x),
        }
    } else if tag == CONSTANT_CLASS || tag == CONSTANT_STRING {
        match take_u16(s, q) {
            Ok((i, r)) => Ok(
                (
                    if tag == CONSTANT_CLASS {
                        ConstantModel::Class(i)
                    } else {
                        ConstantModel::String(i)
                    },
                    r,
                ),
            ),
            Err(x) => Err(x),
        }
    } else if tag == CONSTANT_FIELD_REF || tag == CONSTANT_METHOD_REF || tag
        == CONSTANT_INTERFACE_METHOD_REF || tag == CONSTANT_NAME_AND_TYPE {
        match take_index_pair(s, q) {
            Ok(((a, b), r)) => Ok(
                (
                    if tag == CONSTANT_FIELD_REF {
                        ConstantModel::FieldRef(a, b)
                    } else if tag == CONSTANT_METHOD_REF {
                        ConstantModel::MethodRef(a, b)
                    } else if tag == CONSTANT_INTERFACE_METHOD_REF {
                        ConstantModel::InterfaceMethodRef(a, b)
                    } else {
                        ConstantModel::NameAndType(a, b)
                    },
                    r,
                ),
            ),
            Err(x) => Err(x),
        }
    } else {
        Err(DecodeError::UnsupportedConstantKind { tag })
    }
}

pub open spec fn take_constant(s: Seq<u8>, p: int) -> Parsed<ConstantModel> {
    match take_u8(s, p) {
        Ok((tag, q)) => take_constant_body(s, tag, q),
        Err(e) => Err(e),
    }
}

/// The number of entries a pool whose count field reads `n` holds: slot 0 is
/// reserved, so `n - 1` (and none for a count of 0).
pub open spec fn pool_entries(n: u16) -> nat {
    if n == 0 {
        0
    } else {
        (n - 1) as nat
    }
}

/// A 16-bit count `n` followed by `n - 1` constant-pool entries.
pub open spec fn take_pool(s: Seq<u8>, p: int) -> Parsed<Seq<ConstantModel>> {
    match take_u16(s, p) {
        Ok((n, q)) => repeat(|r: int| take_constant(s, r), q, pool_entries(n)),
        Err(e) => Err(e),
    }
}

pub open spec fn take_method(s: Seq<u8>, p: int) -> Parsed<MethodModel> {
    match take_u16(s, p) {
        Ok((access_flags, q)) => match take_index_pair(s, q) {
            Ok(((name_index, descriptor_index), r)) => match take_attribute_table(s, r) {
                Ok((attributes, e)) => Ok(
                    (MethodModel { access_flags, name_index, descriptor_index, attributes }, e),
                ),
                Err(x) => Err(x),
            },
            Err(x) => Err(x),
        },
        Err(x) => Err(x),
    }
}

/// A 16-bit count followed by that many method records.
pub open spec fn take_methods(s: Seq<u8>, p: int) -> Parsed<Seq<MethodModel>> {
    match take_u16(s, p) {
        Ok((n, q)) => repeat(|r: int| take_method(s, r), q, n as nat),
        Err(e) => Err(e),
    }
}

// ---------------------------------------------------------------------------
// Executable model
// ---------------------------------------------------------------------------

#[derive(Debug)]
pub struct ConstantUft8 {
    pub data: String,
}

#[derive(Debug)]
pub struct ConstantInteger {
    pub value: u32,
}

/// A 32-bit float constant, kept as its IEEE 754 bit pattern.
#[derive(Debug)]
pub struct ConstantFloat {
    pub bits: u32,
}

#[derive(Debug)]
pub struct ConstantClass {
    pub name_index: u16,
}

#[derive(Debug)]
pub struct ConstantString {
    pub string_index: u16,
}

#[derive(Debug)]
pub struct ConstantFieldRef {
    pub class_index: u16,
    pub name_and_type_index: u16,
}

#[derive(Debug)]
pub struct ConstantMethodRef {
    pub class_index: u16,
    pub name_and_type_index: u16,
}

#[derive(Debug)]
pub struct ConstantInterfaceMethodRef {
    pub class_index: u16,
    pub name_and_type_index: u16,
}

#[derive(Debug)]
pub struct ConstantNameAndType {
    pub name_index: u16,
    pub descriptor_index: u16,
}

#[derive(Debug)]
pub enum Constant {
    Utf8(ConstantUft8),
    Integer(ConstantInteger),
    Float(ConstantFloat),
    Class(ConstantClass),
    String(ConstantString),
    FieldRef(ConstantFieldRef),
    MethodRef(ConstantMethodRef),
    InterfaceMethodRef(ConstantInterfaceMethodRef),
    NameAndType(ConstantNameAndType),
}

impl View for Constant {
    type V = ConstantModel;

    open spec fn view(&self) -> ConstantModel {
        match self {
            Constant::Utf8(c) => ConstantModel::Utf8(c.data@),
            Constant::Integer(c) => ConstantModel::Integer(c.value),
            Constant::Float(c) => ConstantModel::Float(c.bits),
            Constant::Class(c) => ConstantModel::Class(c.name_index),
            Constant::String(c) => ConstantModel::String(c.string_index),
            Constant::FieldRef(c) => ConstantModel::FieldRef(c.class_index, c.name_and_type_index),
            Constant::MethodRef(c) => ConstantModel::MethodRef(
                c.class_index,
                c.name_and_type_index,
            ),
            Constant::InterfaceMethodRef(c) => ConstantModel::InterfaceMethodRef(
                c.class_index,
                c.name_and_type_index,
            ),
            Constant::NameAndType(c) => ConstantModel::NameAndType(
                c.name_index,
                c.descriptor_index,
            ),
        }
    }
}

#[derive(Clone, Copy, Debug, PartialEq, Eq)]
pub enum ClassAccessFlags {
    PUBLIC,
    FINAL,
    SUPER,
    INTERFACE,
    ABSTRACT,
    SYNTHETIC,
    ANNOTATION,
    ENUM,
}

#[derive(Clone, Copy, Debug, PartialEq, Eq)]
pub enum FieldsAccessFlags {
    PUBLIC,
    PRIVATE,
    PROTECTED,
    STATIC,
    FINAL,
    VOLATILE,
    TRANSIENT,
    SYNTHETIC,
    ENUM,
}

#[derive(Clone, Copy, Debug, PartialEq, Eq)]
pub enum MethodsAccessFlags {
    PUBLIC,
    PRIVATE,
    PROTECTED,
    STATIC,
    FINAL,
    SYNCHRONIZED,
    BRIDGE,
    VARARGS,
    NATIVE,
    ABSTRACT,
    STRICT,
    SYNTHETIC,
}

impl ClassAccessFlags {
    pub open spec fn spec_mask(&self) -> u16 {
        match self {
            ClassAccessFlags::PUBLIC => 0x0001,
            ClassAccessFlags::FINAL => 0x0010,
            ClassAccessFlags::SUPER => 0x0020,
            ClassAccessFlags::INTERFACE => 0x0200,
            ClassAccessFlags::ABSTRACT => 0x0400,
            ClassAccessFlags::SYNTHETIC => 0x1000,
            ClassAccessFlags::ANNOTATION => 0x2000,
            ClassAccessFlags::ENUM => 0x4000,
        }
    }

    /// The flag's bit in an access-flag mask.
    pub fn mask(&self) -> (r: u16)
        ensures
            r == self.spec_mask(),
    {
        match self {
            ClassAccessFlags::PUBLIC => 0x0001,
            ClassAccessFlags::FINAL => 0x0010,
            ClassAccessFlags::SUPER => 0x0020,
            ClassAccessFlags::INTERFACE => 0x0200,
            ClassAccessFlags::ABSTRACT => 0x0400,
            ClassAccessFlags::SYNTHETIC => 0x1000,
            ClassAccessFlags::ANNOTATION => 0x2000,
            ClassAccessFlags::ENUM => 0x4000,
        }
    }
}

impl FieldsAccessFlags {
    pub open spec fn spec_mask(&self) -> u16 {
        match self {
            FieldsAccessFlags::PUBLIC => 0x0001,
            FieldsAccessFlags::PRIVATE => 0x0002,
            FieldsAccessFlags::PROTECTED => 0x0004,
            FieldsAccessFlags::STATIC => 0x0008,
            FieldsAccessFlags::FINAL => 0x0010,
            FieldsAccessFlags::VOLATILE => 0x0040,
            FieldsAccessFlags::TRANSIENT => 0x0080,
            FieldsAccessFlags::SYNTHETIC => 0x1000,
            FieldsAccessFlags::ENUM => 0x4000,
        }
    }

    /// The flag's bit in an access-flag mask.
    pub fn mask(&self) -> (r: u16)
        ensures
            r == self.spec_mask(),
    {
        match self {
            FieldsAccessFlags::PUBLIC => 0x0001,
            FieldsAccessFlags::PRIVATE => 0x0002,
            FieldsAccessFlags::PROTECTED => 0x0004,
            FieldsAccessFlags::STATIC => 0x0008,
            FieldsAccessFlags::FINAL => 0x0010,
            FieldsAccessFlags::VOLATILE => 0x0040,
            FieldsAccessFlags::TRANSIENT => 0x0080,
            FieldsAccessFlags::SYNTHETIC => 0x1000,
            FieldsAccessFlags::ENUM => 0x4000,
        }
    }
}

impl MethodsAccessFlags {
    pub open spec fn spec_mask(&self) -> u16 {
        match self {
            MethodsAccessFlags::PUBLIC => 0x0001,
            MethodsAccessFlags::PRIVATE => 0x0002,
            MethodsAccessFlags::PROTECTED => 0x0004,
            MethodsAccessFlags::STATIC => 0x0008,
            MethodsAccessFlags::FINAL => 0x0010,
            MethodsAccessFlags::SYNCHRONIZED => 0x0020,
            MethodsAccessFlags::BRIDGE => 0x0040,
            MethodsAccessFlags::VARARGS => 0x0080,
            MethodsAccessFlags::NATIVE => 0x0100,
            MethodsAccessFlags::ABSTRACT => 0x0400,
            MethodsAccessFlags::STRICT => 0x0800,
            MethodsAccessFlags::SYNTHETIC => 0x1000,
        }
    }

    /// The flag's bit in an access-flag mask.
    pub fn mask(&self) -> (r: u16)
        ensures
            r == self.spec_mask(),
    {
        match self {
            MethodsAccessFlags::PUBLIC => 0x0001,
            MethodsAccessFlags::PRIVATE => 0x0002,
            MethodsAccessFlags::PROTECTED => 0x0004,
            MethodsAccessFlags::STATIC => 0x0008,
            MethodsAccessFlags::FINAL => 0x0010,
            MethodsAccessFlags::SYNCHRONIZED => 0x0020,
            MethodsAccessFlags::BRIDGE => 0x0040,
            MethodsAccessFlags::VARARGS => 0x0080,
            MethodsAccessFlags::NATIVE => 0x0100,
            MethodsAccessFlags::ABSTRACT => 0x0400,
            MethodsAccessFlags::STRICT => 0x0800,
            MethodsAccessFlags::SYNTHETIC => 0x1000,
        }
    }
}

#[derive(Debug)]
pub struct AttributeInfo {
    pub attribute_name_index: u16,
    pub info: Vec<u8>,
}

impl View for AttributeInfo {
    type V = AttributeModel;

    open spec fn view(&self) -> AttributeModel {
        AttributeModel { name_index: self.attribute_name_index, info: self.info@ }
    }
}

pub open spec fn attributes_view(v: Seq<AttributeInfo>) -> Seq<AttributeModel> {
    v.map_values(|a: AttributeInfo| a@)
}

#[derive(Debug)]
pub struct MethodInfo {
    pub access_flags: u16,
    pub name_index: u16,
    pub descriptor_index: u16,
    pub attributes: Vec<AttributeInfo>,
}

impl View for MethodInfo {
    type V = MethodModel;

    open spec fn view(&self) -> MethodModel {
        MethodModel {
            access_flags: self.access_flags,
            name_index: self.name_index,
            descriptor_index: self.descriptor_index,
            attributes: attributes_view(self.attributes@),
        }
    }
}

pub open spec fn methods_view(v: Seq<MethodInfo>) -> Seq<MethodModel> {
    v.map_values(|m: MethodInfo| m@)
}

pub open spec fn pool_view(v: Seq<Constant>) -> Seq<ConstantModel> {
    v.map_values(|c: Constant| c@)
}

// ---------------------------------------------------------------------------
// Executable decoding
// ---------------------------------------------------------------------------

/// Reads `count` attribute records, each kept as an opaque byte payload.
pub fn read_attributes(cursor: &mut Cursor, count: usize) -> (r: Result<
    Vec<AttributeInfo>,
    DecodeError,
>)
    ensures
        final(cursor).data() == old(cursor).data(),
        match r {
            Ok(v) => take_attributes(old(cursor).data(), old(cursor).offset(), count as nat) == Ok::<
                (Seq<AttributeModel>, int),
                DecodeError,
            >((attributes_view(v@), final(cursor).offset())),
            Err(e) => take_attributes(old(cursor).data(), old(cursor).offset(), count as nat)
                == Err::<(Seq<AttributeModel>, int), DecodeError>(e),
        },
{
    let ghost s = cursor.data();
    let ghost p = cursor.offset();
    let ghost item = |q: int| take_attribute(s, q);
    let mut attributes: Vec<AttributeInfo> = Vec::new();
    let mut i: usize = 0;
    assert(attributes_view(attributes@) =~= Seq::<AttributeModel>::empty());
    while i < count
        invariant
            s == old(cursor).data(),
            p == old(cursor).offset(),
            cursor.data() == s,
            i <= count,
            item == (|q: int| take_attribute(s, q)),
            repeat(item, p, i as nat) == Ok::<(Seq<AttributeModel>, int), DecodeError>(
                (attributes_view(attributes@), cursor.offset()),
            ),
        decreases count - i,
    {
        let ghost q = cursor.offset();
        let ghost before = attributes@;
        let step = read_attribute(cursor);
        match step {
            Ok(a) => {
                attributes.push(a);
                assert(attributes_view(attributes@) =~= attributes_view(before).push(a@));
                i = i + 1;
            },
            Err(e) => {
                proof {
                    lemma_repeat_failure_sticks(item, p, (i + 1) as nat, count as nat);
                }
                return Err(e);
            },
        }
    }
    Ok(attributes)
}

fn read_attribute(cursor: &mut Cursor) -> (r: Result<AttributeInfo, DecodeError>)
    ensures
        final(cursor).data() == old(cursor).data(),
        match r {
            Ok(a) => take_attribute(old(cursor).data(), old(cursor).offset()) == Ok::<
                (AttributeModel, int),
                DecodeError,
            >((a@, final(cursor).offset())),
            Err(e) => take_attribute(old(cursor).data(), old(cursor).offset()) == Err::<
                (AttributeModel, int),
                DecodeError,
            >(e),
        },
{
    let attribute_name_index = cursor.read_u16()?;
    let length = cursor.read_u32()?;
    let info = cursor.read_bytes(length as usize)?;
    Ok(AttributeInfo { attribute_name_index, info })
}

/// An executable result, by its view, paired with the position reached.
pub open spec fn decoded<T: View>(r: Result<T, DecodeError>, at: int) -> Parsed<T::V> {
    match r {
        Ok(v) => Ok((v@, at)),
        Err(e) => Err(e),
    }
}

fn read_constant(cursor: &mut Cursor) -> (r: Result<Constant, DecodeError>)
    ensures
        final(cursor).data() == old(cursor).data(),
        decoded(r, final(cursor).offset()) == take_constant(old(cursor).data(), old(cursor).offset()),
{
    let tag = cursor.read_u8()?;
    if tag == CONSTANT_UTF8 {
        let length = cursor.read_u16()?;
        let data = cursor.read_string(length as usize)?;
        Ok(Constant::Utf8(ConstantUft8 { data }))
    } else if tag == CONSTANT_INTEGER {
        let value = cursor.read_u32()?;
        Ok(Constant::Integer(ConstantInteger { value }))
    } else if tag == CONSTANT_FLOAT {
        let bits = cursor.read_u32()?;
        Ok(Constant::Float(ConstantFloat { bits }))
    } else if tag == CONSTANT_CLASS {
        let name_index = cursor.read_u16()?;
        Ok(Constant::Class(ConstantClass { name_index }))
    } else if tag == CONSTANT_STRING {
        let string_index = cursor.read_u16()?;
        Ok(Constant::String(ConstantString { string_index }))
    } else if tag == CONSTANT_FIELD_REF || tag == CONSTANT_METHOD_REF || tag
        == CONSTANT_INTERFACE_METHOD_REF || tag == CONSTANT_NAME_AND_TYPE {
        let a = cursor.read_u16()?;
        let b = cursor.read_u16()?;
        if tag == CONSTANT_FIELD_REF {
            Ok(Constant::FieldRef(ConstantFieldRef { class_index: a, name_and_type_index: b }))
        } else if tag == CONSTANT_METHOD_REF {
            Ok(Constant::MethodRef(ConstantMethodRef { class_index: a, name_and_type_index: b }))
        } else if tag == CONSTANT_INTERFACE_METHOD_REF {
            Ok(
                Constant::InterfaceMethodRef(
                    ConstantInterfaceMethodRef { class_index: a, name_and_type_index: b },
                ),
            )
        } else {
            Ok(Constant::NameAndType(ConstantNameAndType { name_index: a, descriptor_index: b }))
        }
    } else {
        Err(DecodeError::UnsupportedConstantKind { tag })
    }
}

fn read_method(cursor: &mut Cursor) -> (r: Result<MethodInfo, DecodeError>)
    ensures
        final(cursor).data() == old(cursor).data(),
        decoded(r, final(cursor).offset()) == take_method(old(cursor).data(), old(cursor).offset()),
{
    let access_flags = cursor.read_u16()?;
    let name_index = cursor.read_u16()?;
    let descriptor_index = cursor.read_u16()?;
    let attributes_count = cursor.read_u16()?;
    let attributes = read_attributes(cursor, attributes_count as usize)?;
    Ok(MethodInfo { access_flags, name_index, descriptor_index, attributes })
}

// ---------------------------------------------------------------------------
// The class descriptor
// ---------------------------------------------------------------------------

/// The part of the file in which decoding failed.
#[derive(Clone, Copy, Debug, PartialEq, Eq, Structural)]
pub enum DecodePhase {
    Header,
    ConstantPool,
    Methods,
    Attributes,
    Code,
}

/// A structural violation, with the phase it was found in and its cause.
#[derive(Clone, Copy, Debug, PartialEq, Eq, Structural)]
pub struct MalformedClassFile {
    pub phase: DecodePhase,
    pub cause: DecodeError,
}

pub open spec fn in_phase<T>(r: Parsed<T>, phase: DecodePhase) -> Result<(T, int), MalformedClassFile> {
    match r {
        Ok(v) => Ok(v),
        Err(cause) => Err(MalformedClassFile { phase, cause }),
    }
}

/// Magic number, minor and major version; the magic is not checked.
pub open spec fn take_version(s: Seq<u8>, p: int) -> Parsed<(u32, u16, u16)> {
    match take_u32(s, p) {
        Ok((magic, q)) => match take_index_pair(s, q) {
            Ok(((minor, major), r)) => Ok(((magic, minor, major), r)),
            Err(e) => Err(e),
        },
        Err(e) => Err(e),
    }
}

/// Access flags, this-class and super-class indices, then the interface and
/// field counts, each of which must be zero.
pub open spec fn take_class_info(s: Seq<u8>, p: int) -> Parsed<(u16, u16, u16)> {
    match take_u16(s, p) {
        Ok((access_flags, q)) => match take_index_pair(s, q) {
            Ok(((this_class, super_class), r)) => match take_u16(s, r) {
                Ok((interfaces, t)) => if interfaces != 0 {
                    Err(DecodeError::InterfacesNotSupported { count: interfaces })
                } else {
                    match take_u16(s, t) {
                        Ok((fields, e)) => if fields != 0 {
                            Err(DecodeError::FieldsNotSupported { count: fields })
                        } else {
                            Ok(((access_flags, this_class, super_class), e))
                        },
                        Err(x) => Err(x),
                    }
                },
                Err(x) => Err(x),
            },
            Err(x) => Err(x),
        },
        Err(x) => Err(x),
    }
}

/// The class file laid out in `s` from position `p`.
pub open spec fn take_class_file(s: Seq<u8>, p: int) -> Result<
    (ClassFileModel, int),
    MalformedClassFile,
> {
    match in_phase(take_version(s, p), DecodePhase::Header) {
        Ok(((magic, minor, major), p1)) => match in_phase(
            take_pool(s, p1),
            DecodePhase::ConstantPool,
        ) {
            Ok((pool, p2)) => match in_phase(take_class_info(s, p2), DecodePhase::Header) {
                Ok(((access_flags, this_class, super_class), p3)) => match in_phase(
                    take_methods(s, p3),
                    DecodePhase::Methods,
                ) {
                    Ok((methods, p4)) => match in_phase(
                        take_attribute_table(s, p4),
                        DecodePhase::Attributes,
                    ) {
                        Ok((attributes, p5)) => Ok(
                            (
                                ClassFileModel {
                                    magic,
                                    minor,
                                    major,
                                    pool,
                                    access_flags,
                                    this_class,
                                    super_class,
                                    methods,
                                    attributes,
                                },
                                p5,
                            ),
                        ),
                        Err(x) => Err(x),
                    },
                    Err(x) => Err(x),
                },
                Err(x) => Err(x),
            },
            Err(x) => Err(x),
        },
        Err(x) => Err(x),
    }
}

/// The entry that 1-based `index` refers to, if there is one.
pub open spec fn resolve(pool: Seq<ConstantModel>, index: int) -> Option<ConstantModel> {
    if 1 <= index <= pool.len() {
        Some(pool[index - 1])
    } else {
        None
    }
}

/// Whether `index` refers to a UTF-8 entry holding exactly `name`.
pub open spec fn names(pool: Seq<ConstantModel>, index: int, name: Seq<char>) -> bool {
    resolve(pool, index) == Some(ConstantModel::Utf8(name))
}

/// Whether position `i` is the first of `indices` that names `name`.
pub open spec fn is_first_named(
    pool: Seq<ConstantModel>,
    indices: Seq<u16>,
    name: Seq<char>,
    i: int,
) -> bool {
    &&& 0 <= i < indices.len()
    &&& names(pool, indices[i] as int, name)
    &&& forall|j: int| 0 <= j < i ==> !names(pool, #[trigger] indices[j] as int, name)
}

/// The first position of `indices` whose entry names `name`.
pub open spec fn first_named(pool: Seq<ConstantModel>, indices: Seq<u16>, name: Seq<char>) -> Option<
    int,
> {
    if exists|i: int| is_first_named(pool, indices, name, i) {
        Some(choose|i: int| is_first_named(pool, indices, name, i))
    } else {
        None
    }
}

pub open spec fn method_names(methods: Seq<MethodInfo>) -> Seq<u16> {
    methods.map_values(|m: MethodInfo| m.name_index)
}

pub open spec fn attribute_names(attributes: Seq<AttributeInfo>) -> Seq<u16> {
    attributes.map_values(|a: AttributeInfo| a.attribute_name_index)
}

proof fn lemma_first_named_unique(
    pool: Seq<ConstantModel>,
    indices: Seq<u16>,
    name: Seq<char>,
    i: int,
)
    requires
        is_first_named(pool, indices, name, i),
    ensures
        first_named(pool, indices, name) == Some(i),
{
    let k = choose|k: int| is_first_named(pool, indices, name, k);
    assert(is_first_named(pool, indices, name, k));
    if k < i {
        assert(!names(pool, indices[k] as int, name));
    } else if i < k {
        assert(!names(pool, indices[i] as int, name));
    }
}

#[derive(Debug)]
pub struct ClassFile {
    pub magic: u32,
    pub minor: u16,
    pub major: u16,
    pub constants_pool: Vec<Constant>,
    pub access_flags: u16,
    pub this_class: u16,
    pub super_class: u16,
    pub methods: Vec<MethodInfo>,
    pub attributes: Vec<AttributeInfo>,
}

impl View for ClassFile {
    type V = ClassFileModel;

    open spec fn view(&self) -> ClassFileModel {
        ClassFileModel {
            magic: self.magic,
            minor: self.minor,
            major: self.major,
            pool: pool_view(self.constants_pool@),
            access_flags: self.access_flags,
            this_class: self.this_class,
            super_class: self.super_class,
            methods: methods_view(self.methods@),
            attributes: attributes_view(self.attributes@),
        }
    }
}

fn read_version(cursor: &mut Cursor) -> (r: Result<(u32, u16, u16), DecodeError>)
    ensures
        final(cursor).data() == old(cursor).data(),
        outcome(r, final(cursor).offset()) == take_version(old(cursor).data(), old(cursor).offset()),
{
    let magic = cursor.read_u32()?;
    let minor = cursor.read_u16()?;
    let major = cursor.read_u16()?;
    Ok((magic, minor, major))
}

fn read_class_info(cursor: &mut Cursor) -> (r: Result<(u16, u16, u16), DecodeError>)
    ensures
        final(cursor).data() == old(cursor).data(),
        outcome(r, final(cursor).offset()) == take_class_info(
            old(cursor).data(),
            old(cursor).offset(),
        ),
{
    let access_flags = cursor.read_u16()?;
    let this_class = cursor.read_u16()?;
    let super_class = cursor.read_u16()?;
    let interfaces_count = cursor.read_u16()?;
    if interfaces_count != 0 {
        return Err(DecodeError::InterfacesNotSupported { count: interfaces_count });
    }
    let fields_count = cursor.read_u16()?;
    if fields_count != 0 {
        return Err(DecodeError::FieldsNotSupported { count: fields_count });
    }
    Ok((access_flags, this_class, super_class))
}

impl ClassFile {
    /// Decodes a class file from the cursor's position. Interfaces and fields
    /// are not supported: a non-zero count of either is rejected.
    /// A failed decode leaves the cursor where it was.
    pub fn new(cursor: &mut Cursor) -> (r: Result<Box<ClassFile>, MalformedClassFile>)
        ensures
            final(cursor).data() == old(cursor).data(),
            match take_class_file(old(cursor).data(), old(cursor).offset()) {
                Ok((model, at)) => r matches Ok(cf) && cf@ == model && final(cursor).offset() == at,
                Err(e) => r == Err::<Box<ClassFile>, MalformedClassFile>(e)
                    && final(cursor).offset() == old(cursor).offset(),
            },
    {
        let start = cursor.position();
        let r = ClassFile::decode(cursor);
        if r.is_err() {
            cursor.set_position(start);
        }
        r
    }

    fn decode(cursor: &mut Cursor) -> (r: Result<Box<ClassFile>, MalformedClassFile>)
        ensures
            final(cursor).data() == old(cursor).data(),
            match take_class_file(old(cursor).data(), old(cursor).offset()) {
                Ok((model, at)) => r matches Ok(cf) && cf@ == model && final(cursor).offset() == at,
                Err(e) => r == Err::<Box<ClassFile>, MalformedClassFile>(e),
            },
    {
        let (magic, minor, major) = match read_version(cursor) {
            Ok(v) => v,
            Err(cause) => return Err(MalformedClassFile { phase: DecodePhase::Header, cause }),
        };
        let constants_pool = match ClassFile::read_constants_pool(cursor) {
            Ok(v) => v,
            Err(cause) => return Err(
                MalformedClassFile { phase: DecodePhase::ConstantPool, cause },
            ),
        };
        let (access_flags, this_class, super_class) = match read_class_info(cursor) {
            Ok(v) => v,
            Err(cause) => return Err(MalformedClassFile { phase: DecodePhase::Header, cause }),
        };
        let methods = match ClassFile::read_methods(cursor) {
            Ok(v) => v,
            Err(cause) => return Err(MalformedClassFile { phase: DecodePhase::Methods, cause }),
        };
        let attributes_count = match cursor.read_u16() {
            Ok(v) => v,
            Err(cause) => return Err(
                MalformedClassFile { phase: DecodePhase::Attributes, cause },
            ),
        };
        let attributes = match read_attributes(cursor, attributes_count as usize) {
            Ok(v) => v,
            Err(cause) => return Err(
                MalformedClassFile { phase: DecodePhase::Attributes, cause },
            ),
        };
        Ok(
            Box::new(
                ClassFile {
                    magic,
                    minor,
                    major,
                    constants_pool,
                    access_flags,
                    this_class,
                    super_class,
                    methods,
                    attributes,
                },
            ),
        )
    }

    /// Reads the pool's 16-bit count `n`, then `n - 1` entries.
    pub fn read_constants_pool(cursor: &mut Cursor) -> (r: Result<Vec<Constant>, DecodeError>)
        ensures
            final(cursor).data() == old(cursor).data(),
            match r {
                Ok(v) => take_pool(old(cursor).data(), old(cursor).offset()) == Ok::<
                    (Seq<ConstantModel>, int),
                    DecodeError,
                >((pool_view(v@), final(cursor).offset())),
                Err(e) => take_pool(old(cursor).data(), old(cursor).offset()) == Err::<
                    (Seq<ConstantModel>, int),
                    DecodeError,
                >(e),
            },
    {
        let ghost s = cursor.data();
        let pool_count = cursor.read_u16()?;
        let count: u16 = if pool_count == 0 {
            0
        } else {
            pool_count - 1
        };
        let ghost p = cursor.offset();
        let ghost item = |q: int| take_constant(s, q);
        let mut pool: Vec<Constant> = Vec::new();
        let mut i: u16 = 0;
        assert(pool_view(pool@) =~= Seq::<ConstantModel>::empty());
        while i < count
            invariant
                s == old(cursor).data(),
                take_u16(s, old(cursor).offset()) == Ok::<(u16, int), DecodeError>((pool_count, p)),
                count == pool_entries(pool_count),
                cursor.data() == s,
                i <= count,
                item == (|q: int| take_constant(s, q)),
                repeat(item, p, i as nat) == Ok::<(Seq<ConstantModel>, int), DecodeError>(
                    (pool_view(pool@), cursor.offset()),
                ),
            decreases count - i,
        {
            let ghost before = pool@;
            match read_constant(cursor) {
                Ok(c) => {
                    pool.push(c);
                    assert(pool_view(pool@) =~= pool_view(before).push(c@));
                    i = i + 1;
                },
                Err(e) => {
                    proof {
                        lemma_repeat_failure_sticks(item, p, (i + 1) as nat, count as nat);
                    }
                    return Err(e);
                },
            }
        }
        Ok(pool)
    }

    /// Reads a 16-bit count, then that many methods with their attribute tables.
    pub fn read_methods(cursor: &mut Cursor) -> (r: Result<Vec<MethodInfo>, DecodeError>)
        ensures
            final(cursor).data() == old(cursor).data(),
            match r {
                Ok(v) => take_methods(old(cursor).data(), old(cursor).offset()) == Ok::<
                    (Seq<MethodModel>, int),
                    DecodeError,
                >((methods_view(v@), final(cursor).offset())),
                Err(e) => take_methods(old(cursor).data(), old(cursor).offset()) == Err::<
                    (Seq<MethodModel>, int),
                    DecodeError,
                >(e),
            },
    {
        let ghost s = cursor.data();
        let count = cursor.read_u16()?;
        let ghost p = cursor.offset();
        let ghost item = |q: int| take_method(s, q);
        let mut methods: Vec<MethodInfo> = Vec::new();
        let mut i: u16 = 0;
        assert(methods_view(methods@) =~= Seq::<MethodModel>::empty());
        while i < count
            invariant
                s == old(cursor).data(),
                take_u16(s, old(cursor).offset()) == Ok::<(u16, int), DecodeError>((count, p)),
                cursor.data() == s,
                i <= count,
                item == (|q: int| take_method(s, q)),
                repeat(item, p, i as nat) == Ok::<(Seq<MethodModel>, int), DecodeError>(
                    (methods_view(methods@), cursor.offset()),
                ),
            decreases count - i,
        {
            let ghost before = methods@;
            match read_method(cursor) {
                Ok(m) => {
                    methods.push(m);
                    assert(methods_view(methods@) =~= methods_view(before).push(m@));
                    i = i + 1;
                },
                Err(e) => {
                    proof {
                        lemma_repeat_failure_sticks(item, p, (i + 1) as nat, count as nat);
                    }
                    return Err(e);
                },
            }
        }
        Ok(methods)
    }

    /// The entry that 1-based `index` refers to: the one stored at position
    /// `index - 1`. Index 0 and indices past the pool refer to nothing.
    pub fn constant(&self, index: u16) -> (r: Option<&Constant>)
        ensures
            match r {
                Some(c) => 1 <= index <= self.constants_pool@.len() && *c
                    == self.constants_pool@[index - 1],
                None => index == 0 || index > self.constants_pool@.len(),
            },
            resolve(self@.pool, index as int) == match r {
                Some(c) => Some(c@),
                None => None::<ConstantModel>,
            },
    {
        if index == 0 || index as usize > self.constants_pool.len() {
            None
        } else {
            Some(&self.constants_pool[index as usize - 1])
        }
    }

    /// Whether `index` refers to a UTF-8 entry holding exactly `name`.
    fn entry_names(&self, index: u16, name: &String) -> (r: bool)
        ensures
            r == names(self@.pool, index as int, name@),
    {
        match self.constant(index) {
            Some(Constant::Utf8(text)) => text.data == *name,
            _ => false,
        }
    }

    /// The first method whose name entry holds exactly `name`.
    pub fn find_method_by_name(&self, name: &str) -> (r: Option<&MethodInfo>)
        ensures
            match first_named(self@.pool, method_names(self.methods@), name@) {
                Some(i) => r == Some(&self.methods@[i]),
                None => r is None,
            },
    {
        let wanted = name.to_owned();
        let mut i: usize = 0;
        while i < self.methods.len()
            invariant
                wanted@ == name@,
                i <= self.methods.len(),
                forall|j: int|
                    0 <= j < i ==> !names(
                        self@.pool,
                        #[trigger] method_names(self.methods@)[j] as int,
                        name@,
                    ),
            decreases self.methods.len() - i,
        {
            if self.entry_names(self.methods[i].name_index, &wanted) {
                proof {
                    lemma_first_named_unique(self@.pool, method_names(self.methods@), name@, i as int);
                }
                return Some(&self.methods[i]);
            }
            i = i + 1;
        }
        None
    }

    /// The first attribute of `attributes` whose name entry holds exactly `name`.
    pub fn find_attribute_by_name<'a>(
        &'a self,
        attributes: &'a Vec<AttributeInfo>,
        name: &str,
    ) -> (r: Option<&'a AttributeInfo>)
        ensures
            match first_named(self@.pool, attribute_names(attributes@), name@) {
                Some(i) => r == Some(&attributes@[i]),
                None => r is None,
            },
    {
        let wanted = name.to_owned();
        let mut i: usize = 0;
        while i < attributes.len()
            invariant
                wanted@ == name@,
                i <= attributes.len(),
                forall|j: int|
                    0 <= j < i ==> !names(
                        self@.pool,
                        #[trigger] attribute_names(attributes@)[j] as int,
                        name@,
                    ),
            decreases attributes.len() - i,
        {
            if self.entry_names(attributes[i].attribute_name_index, &wanted) {
                proof {
                    lemma_first_named_unique(self@.pool, attribute_names(attributes@), name@, i as int);
                }
                return Some(&attributes[i]);
            }
            i = i + 1;
        }
        None
    }
}

/// Decoding is a function of the bytes: equal inputs give equal outcomes,
/// whether a class descriptor or a failure.
pub proof fn decoding_is_deterministic(a: Seq<u8>, b: Seq<u8>, p: int)
    requires
        a == b,
    ensures
        take_class_file(a, p) == take_class_file(b, p),
{
}

/// A 1-based index `i` refers to the entry stored at position `i - 1`;
/// index 0 and any index past the last entry refer to nothing.
pub proof fn index_refers_to_stored_entry(pool: Seq<ConstantModel>, i: int)
    ensures
        1 <= i <= pool.len() ==> resolve(pool, i) == Some(pool[i - 1]),
        (i <= 0 || i > pool.len()) ==> resolve(pool, i) is None,
{
}

/// A lookup by name yields the first entry that names it, and nothing only
/// when no entry does; the answer depends on the pool, the indices and the
/// name alone, so asking again gives the same answer.
pub proof fn lookup_is_first_match(pool: Seq<ConstantModel>, indices: Seq<u16>, name: Seq<char>)
    ensures
        match first_named(pool, indices, name) {
            Some(i) => is_first_named(pool, indices, name, i),
            None => forall|j: int|
                0 <= j < indices.len() ==> !names(pool, #[trigger] indices[j] as int, name),
        },
{
    match first_named(pool, indices, name) {
        Some(i) => {},
        None => {
            assert forall|j: int| 0 <= j < indices.len() implies !names(
                pool,
                #[trigger] indices[j] as int,
                name,
            ) by {
                if names(pool, indices[j] as int, name) {
                    lemma_some_first_named(pool, indices, name, j);
                }
            }
        },
    }
}

/// Where position `j` names `name`, some position is the first to.
proof fn lemma_some_first_named(pool: Seq<ConstantModel>, indices: Seq<u16>, name: Seq<char>, j: int)
    requires
        0 <= j < indices.len(),
        names(pool, indices[j] as int, name),
    ensures
        exists|i: int| is_first_named(pool, indices, name, i),
    decreases j,
{
    if forall|k: int| 0 <= k < j ==> !names(pool, #[trigger] indices[k] as int, name) {
        assert(is_first_named(pool, indices, name, j));
    } else {
        let k = choose|k: int| 0 <= k < j && names(pool, #[trigger] indices[k] as int, name);
        lemma_some_first_named(pool, indices, name, k);
    }
}

/// A successful repetition holds exactly `n` items, and for each `k < n` its
/// first `k` items are the repetition of `k`; item `k` is then the one decoded
/// where those stopped.
pub proof fn repeat_decodes_each_item_in_order<T>(
    item: spec_fn(int) -> Parsed<T>,
    p: int,
    n: nat,
)
    requires
        repeat(item, p, n) is Ok,
    ensures
        repeat(item, p, n)->Ok_0.0.len() == n,
        forall|k: nat|
            k < n ==> {
                let (xs, _) = repeat(item, p, n)->Ok_0;
                &&& #[trigger] repeat(item, p, k) is Ok
                &&& repeat(item, p, k)->Ok_0.0 == xs.subrange(0, k as int)
                &&& item(repeat(item, p, k)->Ok_0.1) is Ok
                &&& item(repeat(item, p, k)->Ok_0.1)->Ok_0.0 == xs[k as int]
            },
    decreases n,
{
    if n > 0 {
        let m = (n - 1) as nat;
        repeat_decodes_each_item_in_order(item, p, m);
        let (xs, _) = repeat(item, p, n)->Ok_0;
        let (ys, q) = repeat(item, p, m)->Ok_0;
        assert(xs == ys.push(item(q)->Ok_0.0));
        assert forall|k: nat| k < n implies {
            &&& #[trigger] repeat(item, p, k) is Ok
            &&& repeat(item, p, k)->Ok_0.0 == xs.subrange(0, k as int)
            &&& item(repeat(item, p, k)->Ok_0.1) is Ok
            &&& item(repeat(item, p, k)->Ok_0.1)->Ok_0.0 == xs[k as int]
        } by {
            if k < m {
                assert(ys.subrange(0, k as int) =~= xs.subrange(0, k as int));
            } else {
                assert(ys =~= xs.subrange(0, k as int));
            }
        }
    }
}

/// The first `k` pool entries decoded from position `q`.
pub open spec fn pool_prefix(s: Seq<u8>, q: int, k: nat) -> Parsed<Seq<ConstantModel>> {
    repeat(|r: int| take_constant(s, r), q, k)
}

/// Pool decoding from a count `c`: `c - 1` entries (none for 0), entry `k`
/// decoded where entries before it stopped, so 1-based index `k + 1` refers to
/// the `k + 1`-th record.
pub proof fn pool_holds_each_record_in_order(s: Seq<u8>, p: int)
    requires
        take_pool(s, p) is Ok,
        take_u16(s, p) is Ok,
    ensures
        ({
            let (n, q) = take_u16(s, p)->Ok_0;
            let (pool, _) = take_pool(s, p)->Ok_0;
            &&& pool.len() == pool_entries(n)
            &&& forall|k: nat|
                k < pool_entries(n) ==> {
                    &&& #[trigger] pool_prefix(s, q, k) is Ok
                    &&& take_constant(s, pool_prefix(s, q, k)->Ok_0.1) is Ok
                    &&& resolve(pool, k + 1int) == Some(
                        take_constant(s, pool_prefix(s, q, k)->Ok_0.1)->Ok_0.0,
                    )
                }
        }),
{
    let (n, q) = take_u16(s, p)->Ok_0;
    let item = |r: int| take_constant(s, r);
    repeat_decodes_each_item_in_order(item, q, pool_entries(n));
    let (pool, _) = take_pool(s, p)->Ok_0;
    assert forall|k: nat| k < pool_entries(n) implies {
        &&& #[trigger] pool_prefix(s, q, k) is Ok
        &&& take_constant(s, pool_prefix(s, q, k)->Ok_0.1) is Ok
        &&& resolve(pool, k + 1int) == Some(take_constant(s, pool_prefix(s, q, k)->Ok_0.1)->Ok_0.0)
    } by {
        assert(repeat(item, q, k) is Ok);
    }
}

} // verus!
