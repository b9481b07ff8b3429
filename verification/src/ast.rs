//! The abstract syntax of schema definitions: types, values, fields, structs
//! and whole schemas, each with a mathematical view.

use vstd::prelude::*;
use crate::text::{chars_to_string, str_to_chars};

verus! {

/// A type of the schema language.
#[derive(Debug)]
pub enum Type {
    /// 8-bit unsigned integer.
    U8,
    /// 16-bit unsigned integer.
    U16,
    /// 32-bit unsigned integer.
    U32,
    /// 64-bit unsigned integer.
    U64,
    /// 128-bit unsigned integer.
    U128,
    /// 8-bit signed integer.
    I8,
    /// 16-bit signed integer.
    I16,
    /// 32-bit signed integer.
    I32,
    /// 64-bit signed integer.
    I64,
    /// 128-bit signed integer.
    I128,
    /// 32-bit floating point number.
    F32,
    /// 64-bit floating point number.
    F64,
    /// Boolean.
    Bool,
    /// UTF-8 string.
    String,
    /// Byte array.
    Bytes,
    /// Variable-length array.
    Vec(Box<Type>),
    /// Fixed-length array.
    Array(Box<Type>, usize),
    /// A user-defined struct type, by name.
    Custom(String),
}

/// The mathematical content of a [`Type`].
pub enum TypeV {
    U8,
    U16,
    U32,
    U64,
    U128,
    I8,
    I16,
    I32,
    I64,
    I128,
    F32,
    F64,
    Bool,
    Str,
    Bytes,
    Vec(Box<TypeV>),
    Array(Box<TypeV>, usize),
    Custom(Seq<char>),
}

impl View for Type {
    type V = TypeV;

    open spec fn view(&self) -> TypeV
        decreases self,
    {
        match self {
            Type::U8 => TypeV::U8,
            Type::U16 => TypeV::U16,
            Type::U32 => TypeV::U32,
            Type::U64 => TypeV::U64,
            Type::U128 => TypeV::U128,
            Type::I8 => TypeV::I8,
            Type::I16 => TypeV::I16,
            Type::I32 => TypeV::I32,
            Type::I64 => TypeV::I64,
            Type::I128 => TypeV::I128,
            Type::F32 => TypeV::F32,
            Type::F64 => TypeV::F64,
            Type::Bool => TypeV::Bool,
            Type::String => TypeV::Str,
            Type::Bytes => TypeV::Bytes,
            Type::Vec(inner) => TypeV::Vec(Box::new((**inner).view())),
            Type::Array(inner, n) => TypeV::Array(Box::new((**inner).view()), *n),
            Type::Custom(name) => TypeV::Custom(name@),
        }
    }
}

impl TypeV {
    /// Byte size of a fixed-size type; `None` for variable-length types.
    pub open spec fn size(self) -> Option<int>
        decreases self,
    {
        match self {
            TypeV::U8 | TypeV::I8 | TypeV::Bool => Some(1),
            TypeV::U16 | TypeV::I16 => Some(2),
            TypeV::U32 | TypeV::I32 | TypeV::F32 => Some(4),
            TypeV::U64 | TypeV::I64 | TypeV::F64 => Some(8),
            TypeV::U128 | TypeV::I128 => Some(16),
            TypeV::Array(inner, n) => match inner.size() {
                Some(s) => Some(s * n),
                None => None,
            },
            TypeV::Str | TypeV::Bytes | TypeV::Vec(_) | TypeV::Custom(_) => None,
        }
    }

    /// The size computation of [`Type::size`] stays within `usize` at every step.
    pub open spec fn size_fits(self) -> bool
        decreases self,
    {
        match self {
            TypeV::Array(inner, n) => inner.size_fits() && match inner.size() {
                Some(s) => s * n <= usize::MAX,
                None => true,
            },
            _ => true,
        }
    }

    /// `Vec`, `Bytes`, `String` and custom types have no fixed size.
    pub open spec fn is_variable_length(self) -> bool {
        match self {
            TypeV::Vec(_) | TypeV::Bytes | TypeV::Str | TypeV::Custom(_) => true,
            _ => false,
        }
    }
}

proof fn lemma_size_nonneg(t: TypeV)
    ensures
        t.size() matches Some(s) ==> s >= 0,
        t.size_fits() ==> (t.size() matches Some(s) ==> s <= usize::MAX),
    decreases t,
{
    match t {
        TypeV::Array(inner, n) => {
            lemma_size_nonneg(*inner);
            if let Some(s) = inner.size() {
                assert(s * n >= 0) by (nonlinear_arith)
                    requires
                        s >= 0,
                        n >= 0,
                ;
            }
        },
        _ => {},
    }
}

impl Clone for Type {
    fn clone(&self) -> (r: Self)
        ensures
            r == *self,
        decreases self,
    {
        match self {
            Type::U8 => Type::U8,
            Type::U16 => Type::U16,
            Type::U32 => Type::U32,
            Type::U64 => Type::U64,
            Type::U128 => Type::U128,
            Type::I8 => Type::I8,
            Type::I16 => Type::I16,
            Type::I32 => Type::I32,
            Type::I64 => Type::I64,
            Type::I128 => Type::I128,
            Type::F32 => Type::F32,
            Type::F64 => Type::F64,
            Type::Bool => Type::Bool,
            Type::String => Type::String,
            Type::Bytes => Type::Bytes,
            Type::Vec(inner) => Type::Vec(Box::new((**inner).clone())),
            Type::Array(inner, n) => Type::Array(Box::new((**inner).clone()), *n),
            Type::Custom(name) => Type::Custom(name.clone()),
        }
    }
}

impl PartialEq for Type {
    fn eq(&self, other: &Self) -> (r: bool)
        decreases self,
    {
        match (self, other) {
            (Type::U8, Type::U8) => true,
            (Type::U16, Type::U16) => true,
            (Type::U32, Type::U32) => true,
            (Type::U64, Type::U64) => true,
            (Type::U128, Type::U128) => true,
            (Type::I8, Type::I8) => true,
            (Type::I16, Type::I16) => true,
            (Type::I32, Type::I32) => true,
            (Type::I64, Type::I64) => true,
            (Type::I128, Type::I128) => true,
            (Type::F32, Type::F32) => true,
            (Type::F64, Type::F64) => true,
            (Type::Bool, Type::Bool) => true,
            (Type::String, Type::String) => true,
            (Type::Bytes, Type::Bytes) => true,
            (Type::Vec(a), Type::Vec(b)) => (**a).eq(&**b),
            (Type::Array(a, n), Type::Array(b, m)) => *n == *m && (**a).eq(&**b),
            (Type::Custom(a), Type::Custom(b)) => *a == *b,
            _ => false,
        }
    }
}

impl vstd::std_specs::cmp::PartialEqSpecImpl for Type {
    open spec fn obeys_eq_spec() -> bool {
        true
    }

    open spec fn eq_spec(&self, other: &Type) -> bool {
        self@ == other@
    }
}

impl Eq for Type {}

impl Type {
    /// Byte size of the type; `None` for variable-length types.
    pub fn size(&self) -> (r: Option<usize>)
        requires
            self@.size_fits(),
        ensures
            match self@.size() {
                Some(s) => r == Some(s as usize),
                None => r is None,
            },
        decreases self,
    {
        match self {
            Type::U8 | Type::I8 | Type::Bool => Some(1),
            Type::U16 | Type::I16 => Some(2),
            Type::U32 | Type::I32 | Type::F32 => Some(4),
            Type::U64 | Type::I64 | Type::F64 => Some(8),
            Type::U128 | Type::I128 => Some(16),
            Type::Array(inner, count) => {
                proof {
                    lemma_size_nonneg((**inner)@);
                    lemma_size_nonneg(self@);
                    assert(self@ == TypeV::Array(Box::new((**inner)@), *count));
                }
                match (**inner).size() {
                    Some(s) => {
                        proof {
                            assert((**inner)@.size() == Some(s as int));
                            assert(s * *count <= usize::MAX);
                        }
                        Some(s * *count)
                    },
                    None => None,
                }
            },
            Type::String | Type::Bytes | Type::Vec(_) | Type::Custom(_) => None,
        }
    }

    /// Whether the type has no fixed size.
    pub fn is_variable_length(&self) -> (r: bool)
        ensures
            r == self@.is_variable_length(),
    {
        match self {
            Type::Vec(_) | Type::Bytes | Type::String | Type::Custom(_) => true,
            _ => false,
        }
    }
}

} // verus!

verus! {

/// The binary representations of a floating-point literal, as IEEE 754 bit
/// patterns: `f64_bits` for the 64-bit value and `f32_bits` for the value
/// narrowed to 32 bits.
#[derive(Debug, Clone, Copy, PartialEq, Eq, Structural)]
pub struct FloatBits {
    /// IEEE 754 binary64 bits of the literal.
    pub f64_bits: u64,
    /// IEEE 754 binary32 bits of the literal narrowed to single precision.
    pub f32_bits: u32,
}

/// A floating-point literal of the schema text, with its binary form once resolved.
#[derive(Debug)]
pub struct FloatValue {
    /// The literal as written, such as `25.5` or `-2.5`.
    pub literal: String,
    /// The bit patterns of the literal, when resolved.
    pub bits: Option<FloatBits>,
}

/// The mathematical content of a [`FloatValue`].
pub struct FloatValueV {
    pub literal: Seq<char>,
    pub bits: Option<FloatBits>,
}

impl View for FloatValue {
    type V = FloatValueV;

    open spec fn view(&self) -> FloatValueV {
        FloatValueV { literal: self.literal@, bits: self.bits }
    }
}

/// A value of the schema language.
#[derive(Debug)]
pub enum Value {
    /// Integer (decimal or hexadecimal literal).
    Integer(i128),
    /// Floating-point literal.
    Float(FloatValue),
    /// Boolean.
    Bool(bool),
    /// String.
    String(String),
    /// Byte array.
    Bytes(Vec<u8>),
    /// List of values.
    Array(Vec<Value>),
    /// Struct initializer: type name and field values.
    Struct(String, Vec<(String, Value)>),
}

/// The mathematical content of a [`Value`].
pub enum ValueV {
    Integer(i128),
    Float(FloatValueV),
    Bool(bool),
    Str(Seq<char>),
    Bytes(Seq<u8>),
    Array(Seq<ValueV>),
    Struct(Seq<char>, Seq<(Seq<char>, ValueV)>),
}

impl View for Value {
    type V = ValueV;

    open spec fn view(&self) -> ValueV {
        value_view(*self)
    }
}

/// The mathematical content of a value.
pub open spec fn value_view(v: Value) -> ValueV
    decreases v, 1nat,
{
    match v {
        Value::Integer(n) => ValueV::Integer(n),
        Value::Float(f) => ValueV::Float(f@),
        Value::Bool(b) => ValueV::Bool(b),
        Value::String(s) => ValueV::Str(s@),
        Value::Bytes(b) => ValueV::Bytes(b@),
        Value::Array(items) => ValueV::Array(values_view(items@)),
        Value::Struct(name, fields) => ValueV::Struct(name@, named_values_view(fields@)),
    }
}

/// The views of a sequence of values.
pub open spec fn values_view(items: Seq<Value>) -> Seq<ValueV>
    decreases items, 0nat,
{
    if items.len() == 0 {
        Seq::empty()
    } else {
        seq![value_view(items[0])] + values_view(items.drop_first())
    }
}

/// The views of a sequence of named values.
pub open spec fn named_values_view(fields: Seq<(String, Value)>) -> Seq<(Seq<char>, ValueV)>
    decreases fields, 0nat,
{
    if fields.len() == 0 {
        Seq::empty()
    } else {
        seq![(fields[0].0@, value_view(fields[0].1))] + named_values_view(fields.drop_first())
    }
}

} // verus!

verus! {

/// The view of a sequence of values has one view per value, in order.
pub proof fn lemma_values_view(s: Seq<Value>)
    ensures
        values_view(s).len() == s.len(),
        forall|i: int| 0 <= i < s.len() ==> #[trigger] values_view(s)[i] == s[i]@,
    decreases s.len(),
{
    if s.len() > 0 {
        lemma_values_view(s.drop_first());
        assert forall|i: int| 0 <= i < s.len() implies #[trigger] values_view(s)[i] == s[i]@ by {
            if i > 0 {
                assert(s.drop_first()[i - 1] == s[i]);
            }
        }
    }
}

/// The view of a sequence of named values has one entry per pair, in order.
pub proof fn lemma_named_values_view(s: Seq<(String, Value)>)
    ensures
        named_values_view(s).len() == s.len(),
        forall|i: int|
            0 <= i < s.len() ==> #[trigger] named_values_view(s)[i] == (s[i].0@, s[i].1@),
    decreases s.len(),
{
    if s.len() > 0 {
        lemma_named_values_view(s.drop_first());
        assert forall|i: int| 0 <= i < s.len() implies #[trigger] named_values_view(s)[i] == (
        s[i].0@, s[i].1@) by {
            if i > 0 {
                assert(s.drop_first()[i - 1] == s[i]);
            }
        }
    }
}

impl Clone for FloatValue {
    fn clone(&self) -> (r: Self)
        ensures
            r@ == self@,
    {
        FloatValue { literal: self.literal.clone(), bits: self.bits }
    }
}

fn clone_values(items: &Vec<Value>) -> (r: Vec<Value>)
    ensures
        r@.len() == items@.len(),
        forall|i: int| 0 <= i < items@.len() ==> #[trigger] r@[i]@ == items@[i]@,
    decreases items, 0nat,
{
    let mut r: Vec<Value> = Vec::new();
    let mut i: usize = 0;
    while i < items.len()
        invariant
            i <= items@.len(),
            r@.len() == i,
            forall|j: int| 0 <= j < i ==> #[trigger] r@[j]@ == items@[j]@,
        decreases items@.len() - i,
    {
        proof {
            assert(decreases_to!(items => items@[i as int]));
        }
        let c = items[i].clone_value();
        r.push(c);
        i = i + 1;
    }
    r
}

fn clone_named_values(fields: &Vec<(String, Value)>) -> (r: Vec<(String, Value)>)
    ensures
        r@.len() == fields@.len(),
        forall|i: int|
            0 <= i < fields@.len() ==> #[trigger] r@[i].0@ == fields@[i].0@ && r@[i].1@
                == fields@[i].1@,
    decreases fields, 0nat,
{
    let mut r: Vec<(String, Value)> = Vec::new();
    let mut i: usize = 0;
    while i < fields.len()
        invariant
            i <= fields@.len(),
            r@.len() == i,
            forall|j: int|
                0 <= j < i ==> #[trigger] r@[j].0@ == fields@[j].0@ && r@[j].1@ == fields@[j].1@,
        decreases fields@.len() - i,
    {
        proof {
            assert(decreases_to!(fields => fields@[i as int]));
            assert(decreases_to!(fields@[i as int] => fields@[i as int].1));
        }
        let c = fields[i].1.clone_value();
        let name = fields[i].0.clone();
        let ghost before = r@;
        r.push((name, c));
        proof {
            assert(r@[i as int] == (name, c));
            assert forall|j: int| 0 <= j < i + 1 implies #[trigger] r@[j].0@ == fields@[j].0@
                && r@[j].1@ == fields@[j].1@ by {
                if j < i {
                    assert(r@[j] == before[j]);
                }
            }
        }
        i = i + 1;
    }
    r
}

impl Value {
    /// A copy of the value with the same view.
    pub fn clone_value(&self) -> (r: Value)
        ensures
            r@ == self@,
        decreases self, 1nat,
    {
        match self {
            Value::Integer(n) => Value::Integer(*n),
            Value::Float(f) => Value::Float(f.clone()),
            Value::Bool(b) => Value::Bool(*b),
            Value::String(s) => Value::String(s.clone()),
            Value::Bytes(b) => {
                let c = b.clone();
                proof {
                    assert(c@ =~= b@);
                }
                Value::Bytes(c)
            },
            Value::Array(items) => {
                let r = clone_values(items);
                proof {
                    lemma_values_view(r@);
                    lemma_values_view(items@);
                    assert(values_view(r@) =~= values_view(items@));
                }
                Value::Array(r)
            },
            Value::Struct(name, fields) => {
                let r = clone_named_values(fields);
                proof {
                    lemma_named_values_view(r@);
                    lemma_named_values_view(fields@);
                    assert(named_values_view(r@) =~= named_values_view(fields@));
                }
                Value::Struct(name.clone(), r)
            },
        }
    }
}

impl Clone for Value {
    fn clone(&self) -> (r: Self)
        ensures
            r@ == self@,
    {
        self.clone_value()
    }
}

/// Direction of a struct: what it is used for.
#[derive(Debug, Clone, Copy, PartialEq, Eq, Structural)]
pub enum Direction {
    /// Used for encoding.
    Send,
    /// Used for decoding.
    Receive,
}

impl Direction {
    /// The keyword of the direction.
    pub fn as_str(&self) -> (s: &'static str)
        ensures
            s@ == (match self {
                Direction::Send => "send"@,
                Direction::Receive => "receive"@,
            }),
    {
        match self {
            Direction::Send => "send",
            Direction::Receive => "receive",
        }
    }
}

/// Checksum algorithm of a `#[checksum]` field.
#[derive(Debug, Clone, Copy, PartialEq, Eq, Structural)]
pub enum ChecksumAlgorithm {
    /// CRC-8 (polynomial 0x07).
    Crc8,
    /// CRC-16 (Modbus).
    Crc16,
    /// CRC-32 (IEEE 802.3).
    Crc32,
    /// Byte-wise XOR.
    Xor,
    /// Byte-wise sum.
    Sum,
}

impl ChecksumAlgorithm {
    /// The keyword of the algorithm.
    pub fn as_str(&self) -> (s: &'static str)
        ensures
            s@ == (match self {
                ChecksumAlgorithm::Crc8 => "crc8"@,
                ChecksumAlgorithm::Crc16 => "crc16"@,
                ChecksumAlgorithm::Crc32 => "crc32"@,
                ChecksumAlgorithm::Xor => "xor"@,
                ChecksumAlgorithm::Sum => "sum"@,
            }),
    {
        match self {
            ChecksumAlgorithm::Crc8 => "crc8",
            ChecksumAlgorithm::Crc16 => "crc16",
            ChecksumAlgorithm::Crc32 => "crc32",
            ChecksumAlgorithm::Xor => "xor",
            ChecksumAlgorithm::Sum => "sum",
        }
    }
}

/// Byte order.
#[derive(Debug, Clone, Copy, PartialEq, Eq, Structural)]
pub enum Endianness {
    /// Most significant byte first.
    Big,
    /// Least significant byte first.
    Little,
}

impl Endianness {
    /// The keyword of the byte order.
    pub fn as_str(&self) -> (s: &'static str)
        ensures
            s@ == (match self {
                Endianness::Big => "big"@,
                Endianness::Little => "little"@,
            }),
    {
        match self {
            Endianness::Big => "big",
            Endianness::Little => "little",
        }
    }
}

/// An attribute written on a struct.
#[derive(Debug, Clone, Copy, PartialEq, Eq, Structural)]
pub enum StructAttribute {
    /// `#[send]`.
    Send,
    /// `#[receive]`.
    Receive,
    /// `#[endian(..)]`.
    Endian(Endianness),
}

/// An attribute written at the head of a schema file.
#[derive(Debug, Clone, PartialEq)]
pub enum FileAttribute {
    /// `#![version("x.y.z")]`.
    Version(String),
    /// `#![endian(big|little)]`.
    Endian(Endianness),
    /// `#![import_path("prefix/")]`.
    ImportPath(String),
    /// `#![doc("...")]`.
    Doc(String),
    /// `#![prefix(disable)]`: no automatic length prefixes.
    PrefixDisabled,
}

/// The mathematical content of a [`FileAttribute`].
pub enum FileAttributeV {
    Version(Seq<char>),
    Endian(Endianness),
    ImportPath(Seq<char>),
    Doc(Seq<char>),
    PrefixDisabled,
}

impl View for FileAttribute {
    type V = FileAttributeV;

    open spec fn view(&self) -> FileAttributeV {
        match self {
            FileAttribute::Version(s) => FileAttributeV::Version(s@),
            FileAttribute::Endian(e) => FileAttributeV::Endian(*e),
            FileAttribute::ImportPath(s) => FileAttributeV::ImportPath(s@),
            FileAttribute::Doc(s) => FileAttributeV::Doc(s@),
            FileAttribute::PrefixDisabled => FileAttributeV::PrefixDisabled,
        }
    }
}

/// An import statement.
#[derive(Debug, Clone)]
pub struct Import {
    /// Path of the imported file.
    pub path: String,
    /// Documentation comment.
    pub doc: Option<String>,
}

/// The mathematical content of an [`Import`].
pub struct ImportV {
    pub path: Seq<char>,
    pub doc: Option<Seq<char>>,
}

impl View for Import {
    type V = ImportV;

    open spec fn view(&self) -> ImportV {
        ImportV { path: self.path@, doc: crate::error::opt_str_view(self.doc) }
    }
}

impl Import {
    /// An import of `path` without documentation.
    pub fn new(path: &str) -> (r: Import)
        ensures
            r@ == (ImportV { path: path@, doc: None }),
    {
        Import { path: String::from_str(path), doc: None }
    }
}

/// An attribute written on a field.
#[derive(Debug, Clone, PartialEq)]
pub enum FieldAttribute {
    /// `#[auto]` (total length) or `#[auto(field)]` (length of a field).
    Auto(Option<String>),
    /// `#[len_ref(field)]`: the length of this field is held by another field.
    LenRef(String),
    /// `#[remaining]`: all remaining bytes.
    Remaining,
    /// `#[bits(start, end)]`: a bit range.
    Bits(usize, usize),
    /// `#[bit(pos)]`: a single bit.
    Bit(usize),
    /// `#[if(field)]`: present only when a bool field is true.
    If(String),
    /// `#[checksum(algo)]`.
    Checksum(ChecksumAlgorithm),
    /// `#[endian(big|little)]`.
    Endian(Endianness),
}

/// The mathematical content of a [`FieldAttribute`].
pub enum FieldAttributeV {
    Auto(Option<Seq<char>>),
    LenRef(Seq<char>),
    Remaining,
    Bits(usize, usize),
    Bit(usize),
    If(Seq<char>),
    Checksum(ChecksumAlgorithm),
    Endian(Endianness),
}

impl View for FieldAttribute {
    type V = FieldAttributeV;

    open spec fn view(&self) -> FieldAttributeV {
        match self {
            FieldAttribute::Auto(o) => FieldAttributeV::Auto(crate::error::opt_str_view(*o)),
            FieldAttribute::LenRef(s) => FieldAttributeV::LenRef(s@),
            FieldAttribute::Remaining => FieldAttributeV::Remaining,
            FieldAttribute::Bits(a, b) => FieldAttributeV::Bits(*a, *b),
            FieldAttribute::Bit(p) => FieldAttributeV::Bit(*p),
            FieldAttribute::If(s) => FieldAttributeV::If(s@),
            FieldAttribute::Checksum(c) => FieldAttributeV::Checksum(*c),
            FieldAttribute::Endian(e) => FieldAttributeV::Endian(*e),
        }
    }
}

/// A field definition.
#[derive(Debug, Clone)]
pub struct Field {
    /// Field name.
    pub name: String,
    /// Field type.
    pub ty: Type,
    /// Value (used by send structs).
    pub value: Option<Value>,
    /// Field attributes.
    pub attributes: Vec<FieldAttribute>,
    /// Documentation comment.
    pub doc: Option<String>,
}

/// The mathematical content of a [`Field`].
pub struct FieldV {
    pub name: Seq<char>,
    pub ty: TypeV,
    pub value: Option<ValueV>,
    pub attributes: Seq<FieldAttributeV>,
    pub doc: Option<Seq<char>>,
}

/// The view of an optional value.
pub open spec fn opt_value_view(o: Option<Value>) -> Option<ValueV> {
    match o {
        Some(v) => Some(v@),
        None => None,
    }
}

impl View for Field {
    type V = FieldV;

    open spec fn view(&self) -> FieldV {
        FieldV {
            name: self.name@,
            ty: self.ty@,
            value: opt_value_view(self.value),
            attributes: crate::attrs::attrs_view(self.attributes@),
            doc: crate::error::opt_str_view(self.doc),
        }
    }
}

/// The views of a list of fields.
pub open spec fn fields_view(fields: Seq<Field>) -> Seq<FieldV> {
    fields.map_values(|f: Field| f@)
}

/// The views of a list of struct definitions.
pub open spec fn structs_view(structs: Seq<StructDef>) -> Seq<StructDefV> {
    structs.map_values(|d: StructDef| d@)
}

/// A struct definition.
#[derive(Debug, Clone)]
pub struct StructDef {
    /// Struct name.
    pub name: String,
    /// Direction (send or receive), if declared.
    pub direction: Option<Direction>,
    /// Fields, in order.
    pub fields: Vec<Field>,
    /// Documentation comment.
    pub doc: Option<String>,
    /// Byte order of the struct, overriding the file default.
    pub endian: Option<Endianness>,
}

/// The mathematical content of a [`StructDef`].
pub struct StructDefV {
    pub name: Seq<char>,
    pub direction: Option<Direction>,
    pub fields: Seq<FieldV>,
    pub doc: Option<Seq<char>>,
    pub endian: Option<Endianness>,
}

impl View for StructDef {
    type V = StructDefV;

    open spec fn view(&self) -> StructDefV {
        StructDefV {
            name: self.name@,
            direction: self.direction,
            fields: fields_view(self.fields@),
            doc: crate::error::opt_str_view(self.doc),
            endian: self.endian,
        }
    }
}

} // verus!

verus! {

/// Compares two string slices.
///
/// Calls `<str as PartialEq>::eq`; the contract says the result is whether
/// the two slices hold the same characters.
#[verifier::external_body]
pub(crate) fn str_eq(a: &str, b: &str) -> (r: bool)
    ensures
        r == (a@ == b@),
{
    a == b
}

/// The map that a sequence of `(name, index)` insertions builds, later
/// insertions replacing earlier ones.
pub open spec fn entries_map(entries: Seq<(String, usize)>) -> Map<Seq<char>, usize>
    decreases entries.len(),
{
    if entries.len() == 0 {
        Map::empty()
    } else {
        entries_map(entries.drop_last()).insert(entries.last().0@, entries.last().1)
    }
}

/// Index of struct definitions by name.
#[derive(Debug, Clone)]
pub struct StructMap {
    entries: Vec<(String, usize)>,
}

impl View for StructMap {
    type V = Map<Seq<char>, usize>;

    closed spec fn view(&self) -> Map<Seq<char>, usize> {
        entries_map(self.entries@)
    }
}

/// The value bound to `k` in `m`, if any.
pub open spec fn map_get(m: Map<Seq<char>, usize>, k: Seq<char>) -> Option<usize> {
    if m.contains_key(k) {
        Some(m[k])
    } else {
        None
    }
}

impl StructMap {
    /// An empty index.
    pub fn new() -> (r: StructMap)
        ensures
            r@ == Map::<Seq<char>, usize>::empty(),
    {
        StructMap { entries: Vec::new() }
    }

    /// Binds `name` to `index`, replacing any earlier binding.
    pub fn insert(&mut self, name: String, index: usize)
        ensures
            final(self)@ == old(self)@.insert(name@, index),
    {
        self.entries.push((name, index));
        proof {
            assert(self.entries@.drop_last() == old(self).entries@);
        }
    }

    /// The index bound to `name`, if any.
    pub fn get(&self, name: &str) -> (r: Option<usize>)
        ensures
            r == map_get(self@, name@),
    {
        let mut found: Option<usize> = None;
        let mut i: usize = 0;
        while i < self.entries.len()
            invariant
                i <= self.entries@.len(),
                found == map_get(entries_map(self.entries@.take(i as int)), name@),
            decreases self.entries@.len() - i,
        {
            if str_eq(self.entries[i].0.as_str(), name) {
                found = Some(self.entries[i].1);
            }
            proof {
                assert(self.entries@.take(i + 1).drop_last() == self.entries@.take(i as int));
            }
            i = i + 1;
        }
        proof {
            assert(self.entries@.take(i as int) == self.entries@);
        }
        found
    }

    /// Whether `name` is bound.
    pub fn contains_key(&self, name: &str) -> (r: bool)
        ensures
            r == self@.contains_key(name@),
    {
        self.get(name).is_some()
    }

    /// Whether nothing is bound.
    pub fn is_empty(&self) -> (r: bool)
        ensures
            r == (self@ == Map::<Seq<char>, usize>::empty()),
    {
        proof {
            if self.entries@.len() > 0 {
                assert(self@.contains_key(self.entries@.last().0@));
            }
        }
        self.entries.len() == 0
    }
}

/// A parsed schema file: file attributes, imports and struct definitions.
#[derive(Debug, Clone)]
pub struct Schema {
    /// File-level attributes.
    pub file_attributes: Vec<FileAttribute>,
    /// Import statements.
    pub imports: Vec<Import>,
    /// Struct definitions.
    pub structs: Vec<StructDef>,
    /// Index of the struct definitions by name.
    pub struct_map: StructMap,
}

/// The mathematical content of a [`Schema`].
pub struct SchemaV {
    pub file_attributes: Seq<FileAttributeV>,
    pub imports: Seq<ImportV>,
    pub structs: Seq<StructDefV>,
    pub struct_map: Map<Seq<char>, usize>,
}

impl View for Schema {
    type V = SchemaV;

    open spec fn view(&self) -> SchemaV {
        SchemaV {
            file_attributes: self.file_attributes@.map_values(|a: FileAttribute| a@),
            imports: self.imports@.map_values(|i: Import| i@),
            structs: structs_view(self.structs@),
            struct_map: self.struct_map@,
        }
    }
}

/// The schema with nothing in it.
pub open spec fn empty_schema() -> SchemaV {
    SchemaV {
        file_attributes: Seq::empty(),
        imports: Seq::empty(),
        structs: Seq::empty(),
        struct_map: Map::empty(),
    }
}

impl SchemaV {
    /// The struct definition that the index binds to `name`.
    pub open spec fn lookup(self, name: Seq<char>) -> Option<StructDefV> {
        match map_get(self.struct_map, name) {
            Some(i) => if i < self.structs.len() {
                Some(self.structs[i as int])
            } else {
                None
            },
            None => None,
        }
    }

    /// The schema after adding a struct definition.
    pub open spec fn add_struct(self, def: StructDefV) -> SchemaV {
        SchemaV {
            structs: self.structs.push(def),
            struct_map: self.struct_map.insert(def.name, self.structs.len() as usize),
            ..self
        }
    }

    /// The byte order of the first `#![endian(..)]` attribute, big endian when there is none.
    pub open spec fn default_endian(self) -> Endianness {
        first_endian(self.file_attributes)
    }

    /// No `#![prefix(disable)]` attribute is present.
    pub open spec fn is_prefix_enabled(self) -> bool {
        forall|i: int|
            0 <= i < self.file_attributes.len() ==> !(#[trigger] self.file_attributes[i]
                is PrefixDisabled)
    }
}

impl SchemaV {
    /// Every name of the index points at a struct definition of that name.
    pub open spec fn index_valid(self) -> bool {
        forall|k: Seq<char>|
            #[trigger] self.struct_map.contains_key(k) ==> self.struct_map[k] < self.structs.len()
                && self.structs[self.struct_map[k] as int].name == k
    }
}

/// Adding a struct definition makes a lookup of its name give that
/// definition, leaves the lookup of every other name as it was, and keeps the
/// index valid.
pub proof fn lemma_add_struct_lookup(s: SchemaV, def: StructDefV, other: Seq<char>)
    requires
        s.index_valid(),
        s.structs.len() < usize::MAX,
    ensures
        s.add_struct(def).lookup(def.name) == Some(def),
        other != def.name ==> s.add_struct(def).lookup(other) == s.lookup(other),
        s.add_struct(def).index_valid(),
{
    let t = s.add_struct(def);
    assert(t.structs[s.structs.len() as int] == def);
    if other != def.name && s.struct_map.contains_key(other) {
        assert(t.structs[s.struct_map[other] as int] == s.structs[s.struct_map[other] as int]);
    }
    assert forall|k: Seq<char>| #[trigger] t.struct_map.contains_key(k) implies t.struct_map[k]
        < t.structs.len() && t.structs[t.struct_map[k] as int].name == k by {
        if k != def.name {
            assert(s.struct_map.contains_key(k));
            assert(t.structs[s.struct_map[k] as int] == s.structs[s.struct_map[k] as int]);
        }
    }
}

/// The byte order of the first endian attribute, big endian when there is none.
pub open spec fn first_endian(attrs: Seq<FileAttributeV>) -> Endianness
    decreases attrs.len(),
{
    if attrs.len() == 0 {
        Endianness::Big
    } else {
        match attrs[0] {
            FileAttributeV::Endian(e) => e,
            _ => first_endian(attrs.drop_first()),
        }
    }
}

/// Index of the first struct with the given direction.
pub open spec fn first_with_direction(structs: Seq<StructDefV>, d: Direction) -> Option<int>
    decreases structs.len(),
{
    if structs.len() == 0 {
        None
    } else if structs[0].direction == Some(d) {
        Some(0)
    } else {
        match first_with_direction(structs.drop_first(), d) {
            Some(i) => Some(i + 1),
            None => None,
        }
    }
}

impl Schema {
    /// An empty schema.
    pub fn new() -> (r: Schema)
        ensures
            r@ == empty_schema(),
    {
        let r = Schema {
            file_attributes: Vec::new(),
            imports: Vec::new(),
            structs: Vec::new(),
            struct_map: StructMap::new(),
        };
        proof {
            assert(r@.file_attributes =~= Seq::<FileAttributeV>::empty());
            assert(r@.imports =~= Seq::<ImportV>::empty());
            assert(r@.structs =~= Seq::<StructDefV>::empty());
        }
        r
    }

    /// Appends a file attribute.
    pub fn add_file_attribute(&mut self, attr: FileAttribute)
        ensures
            final(self)@ == (SchemaV {
                file_attributes: old(self)@.file_attributes.push(attr@),
                ..old(self)@
            }),
    {
        self.file_attributes.push(attr);
        proof {
            assert(self@.file_attributes =~= old(self)@.file_attributes.push(attr@));
        }
    }

    /// Appends an import statement.
    pub fn add_import(&mut self, import: Import)
        ensures
            final(self)@ == (SchemaV { imports: old(self)@.imports.push(import@), ..old(self)@ }),
    {
        self.imports.push(import);
        proof {
            assert(self@.imports =~= old(self)@.imports.push(import@));
        }
    }

    /// Appends a struct definition and indexes it by its name.
    pub fn add_struct(&mut self, def: StructDef)
        ensures
            final(self)@ == old(self)@.add_struct(def@),
    {
        let name = def.name.clone();
        let index = self.structs.len();
        let ghost d = def@;
        self.structs.push(def);
        self.struct_map.insert(name, index);
        proof {
            assert(self@.structs =~= old(self)@.structs.push(d));
        }
    }

    /// The struct definition indexed under `name`.
    pub fn get_struct(&self, name: &str) -> (r: Option<&StructDef>)
        ensures
            match self@.lookup(name@) {
                Some(d) => r matches Some(x) && x@ == d,
                None => r is None,
            },
    {
        match self.struct_map.get(name) {
            Some(idx) => {
                if idx < self.structs.len() {
                    Some(&self.structs[idx])
                } else {
                    None
                }
            },
            None => None,
        }
    }

    /// The first struct marked `#[receive]`.
    pub fn get_first_receive_struct(&self) -> (r: Option<&StructDef>)
        ensures
            match first_with_direction(self@.structs, Direction::Receive) {
                Some(i) => r matches Some(x) && x@ == self@.structs[i],
                None => r is None,
            },
    {
        self.first_with(Direction::Receive)
    }

    /// The first struct marked `#[send]`.
    pub fn get_first_send_struct(&self) -> (r: Option<&StructDef>)
        ensures
            match first_with_direction(self@.structs, Direction::Send) {
                Some(i) => r matches Some(x) && x@ == self@.structs[i],
                None => r is None,
            },
    {
        self.first_with(Direction::Send)
    }

    fn first_with(&self, d: Direction) -> (r: Option<&StructDef>)
        ensures
            match first_with_direction(self@.structs, d) {
                Some(i) => r matches Some(x) && x@ == self@.structs[i],
                None => r is None,
            },
    {
        let mut i: usize = 0;
        while i < self.structs.len()
            invariant
                i <= self.structs@.len(),
                forall|j: int| 0 <= j < i ==> self@.structs[j].direction != Some(d),
            decreases self.structs@.len() - i,
        {
            let is_match = match (self.structs[i].direction, d) {
                (Some(Direction::Send), Direction::Send) => true,
                (Some(Direction::Receive), Direction::Receive) => true,
                _ => false,
            };
            if is_match {
                proof {
                    lemma_first_with_direction(self@.structs, d, i as int);
                }
                return Some(&self.structs[i]);
            }
            i = i + 1;
        }
        proof {
            lemma_first_with_direction_none(self@.structs, d);
        }
        None
    }

    /// The file's default byte order: the first `#![endian(..)]`, else big endian.
    pub fn default_endian(&self) -> (r: Endianness)
        ensures
            r == self@.default_endian(),
    {
        let mut i: usize = 0;
        proof {
            assert(self@.file_attributes.skip(0) == self@.file_attributes);
        }
        while i < self.file_attributes.len()
            invariant
                i <= self.file_attributes@.len(),
                first_endian(self@.file_attributes) == first_endian(
                    self@.file_attributes.skip(i as int),
                ),
            decreases self.file_attributes@.len() - i,
        {
            proof {
                assert(self@.file_attributes.skip(i as int).drop_first()
                    == self@.file_attributes.skip(i + 1));
            }
            match &self.file_attributes[i] {
                FileAttribute::Endian(e) => {
                    return *e;
                },
                _ => {},
            }
            i = i + 1;
        }
        Endianness::Big
    }

    /// Whether automatic length prefixes are on (no `#![prefix(disable)]`).
    pub fn is_prefix_enabled(&self) -> (r: bool)
        ensures
            r == self@.is_prefix_enabled(),
    {
        let mut i: usize = 0;
        while i < self.file_attributes.len()
            invariant
                i <= self.file_attributes@.len(),
                forall|j: int|
                    0 <= j < i ==> !(#[trigger] self@.file_attributes[j] is PrefixDisabled),
            decreases self.file_attributes@.len() - i,
        {
            match &self.file_attributes[i] {
                FileAttribute::PrefixDisabled => {
                    proof {
                        assert(self@.file_attributes[i as int] is PrefixDisabled);
                    }
                    return false;
                },
                _ => {},
            }
            i = i + 1;
        }
        true
    }
}

proof fn lemma_first_with_direction(s: Seq<StructDefV>, d: Direction, i: int)
    requires
        0 <= i < s.len(),
        s[i].direction == Some(d),
        forall|j: int| 0 <= j < i ==> s[j].direction != Some(d),
    ensures
        first_with_direction(s, d) == Some(i),
    decreases i,
{
    if i > 0 {
        lemma_first_with_direction(s.drop_first(), d, i - 1);
    }
}

proof fn lemma_first_with_direction_none(s: Seq<StructDefV>, d: Direction)
    requires
        forall|j: int| 0 <= j < s.len() ==> s[j].direction != Some(d),
    ensures
        first_with_direction(s, d) is None,
    decreases s.len(),
{
    if s.len() > 0 {
        lemma_first_with_direction_none(s.drop_first(), d);
    }
}

impl Default for Schema {
    fn default() -> (r: Schema)
        ensures
            r@ == empty_schema(),
    {
        Schema::new()
    }
}

} // verus!
