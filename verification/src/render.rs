//! Text forms of types and values, as used in error messages.

use vstd::prelude::*;
use crate::ast::{
    lemma_named_values_view, lemma_values_view, named_values_view, values_view, Type, TypeV, Value,
    ValueV,
};
use crate::text::{decimal, push_decimal, push_signed_decimal, push_str, push_string, signed_decimal};

verus! {

/// The text form of a type, such as `U8`, `Vec(U16)`, `Array(U8, 4)` or `Custom("Header")`.
pub open spec fn type_text(ty: TypeV) -> Seq<char>
    decreases ty,
{
    match ty {
        TypeV::U8 => "U8"@,
        TypeV::U16 => "U16"@,
        TypeV::U32 => "U32"@,
        TypeV::U64 => "U64"@,
        TypeV::U128 => "U128"@,
        TypeV::I8 => "I8"@,
        TypeV::I16 => "I16"@,
        TypeV::I32 => "I32"@,
        TypeV::I64 => "I64"@,
        TypeV::I128 => "I128"@,
        TypeV::F32 => "F32"@,
        TypeV::F64 => "F64"@,
        TypeV::Bool => "Bool"@,
        TypeV::Str => "String"@,
        TypeV::Bytes => "Bytes"@,
        TypeV::Vec(inner) => "Vec("@ + type_text(*inner) + ")"@,
        TypeV::Array(inner, n) => "Array("@ + type_text(*inner) + ", "@ + decimal(n as nat) + ")"@,
        TypeV::Custom(name) => "Custom(\""@ + name + "\")"@,
    }
}

/// Appends the text form of a type.
pub fn push_type_text(buf: &mut Vec<char>, ty: &Type)
    ensures
        final(buf)@ == old(buf)@ + type_text(ty@),
    decreases ty,
{
    match ty {
        Type::U8 => push_str(buf, "U8"),
        Type::U16 => push_str(buf, "U16"),
        Type::U32 => push_str(buf, "U32"),
        Type::U64 => push_str(buf, "U64"),
        Type::U128 => push_str(buf, "U128"),
        Type::I8 => push_str(buf, "I8"),
        Type::I16 => push_str(buf, "I16"),
        Type::I32 => push_str(buf, "I32"),
        Type::I64 => push_str(buf, "I64"),
        Type::I128 => push_str(buf, "I128"),
        Type::F32 => push_str(buf, "F32"),
        Type::F64 => push_str(buf, "F64"),
        Type::Bool => push_str(buf, "Bool"),
        Type::String => push_str(buf, "String"),
        Type::Bytes => push_str(buf, "Bytes"),
        Type::Vec(inner) => {
            push_str(buf, "Vec(");
            push_type_text(buf, inner);
            push_str(buf, ")");
        },
        Type::Array(inner, n) => {
            push_str(buf, "Array(");
            push_type_text(buf, inner);
            push_str(buf, ", ");
            push_decimal(buf, *n as u128);
            push_str(buf, ")");
        },
        Type::Custom(name) => {
            push_str(buf, "Custom(\"");
            push_string(buf, name);
            push_str(buf, "\")");
        },
    }
}

/// `", "` before every item but the first.
pub open spec fn separator(i: int) -> Seq<char> {
    if i > 0 {
        ", "@
    } else {
        Seq::empty()
    }
}

/// The text form of a value, such as `Integer(5)`, `Bytes([1, 2])` or
/// `Struct("P", [("a", Bool(true))])`.
pub open spec fn value_text(v: ValueV) -> Seq<char>
    decreases v, 1nat, 0int,
{
    match v {
        ValueV::Integer(n) => "Integer("@ + signed_decimal(n as int) + ")"@,
        ValueV::Float(f) => "Float("@ + f.literal + ")"@,
        ValueV::Bool(b) => if b {
            "Bool(true)"@
        } else {
            "Bool(false)"@
        },
        ValueV::Str(s) => "String(\""@ + s + "\")"@,
        ValueV::Bytes(b) => "Bytes(["@ + bytes_text(b, 0) + "])"@,
        ValueV::Array(_) => "Array(["@ + items_text(v, 0) + "])"@,
        ValueV::Struct(name, _) => "Struct(\""@ + name + "\", ["@ + pairs_text(v, 0) + "])"@,
    }
}

/// The bytes of `b` from index `i` on, in decimal, separated by `", "`.
pub open spec fn bytes_text(b: Seq<u8>, i: int) -> Seq<char>
    decreases b.len() - i,
{
    if i < 0 || i >= b.len() {
        Seq::empty()
    } else {
        separator(i) + decimal(b[i] as nat) + bytes_text(b, i + 1)
    }
}

/// The items of the array value `parent` from index `i` on.
pub open spec fn items_text(parent: ValueV, i: int) -> Seq<char>
    decreases parent, 0nat, parent->Array_0.len() - i,
{
    match parent {
        ValueV::Array(items) => if i < 0 || i >= items.len() {
            Seq::empty()
        } else {
            separator(i) + value_text(items[i]) + items_text(parent, i + 1)
        },
        _ => Seq::empty(),
    }
}

/// The fields of the struct value `parent` from index `i` on, each as
/// `("name", value)`.
pub open spec fn pairs_text(parent: ValueV, i: int) -> Seq<char>
    decreases parent, 0nat, parent->Struct_1.len() - i,
{
    match parent {
        ValueV::Struct(_, pairs) => if i < 0 || i >= pairs.len() {
            Seq::empty()
        } else {
            separator(i) + "(\""@ + pairs[i].0 + "\", "@ + value_text(pairs[i].1) + ")"@
                + pairs_text(parent, i + 1)
        },
        _ => Seq::empty(),
    }
}

fn push_separator(buf: &mut Vec<char>, i: usize)
    ensures
        final(buf)@ == old(buf)@ + separator(i as int),
{
    if i > 0 {
        push_str(buf, ", ");
    } else {
        proof {
            assert(old(buf)@ + separator(i as int) =~= old(buf)@);
        }
    }
}

/// Appends the text form of a value.
pub fn push_value_text(buf: &mut Vec<char>, v: &Value)
    ensures
        final(buf)@ == old(buf)@ + value_text(v@),
    decreases v, 1nat,
{
    match v {
        Value::Integer(n) => {
            push_str(buf, "Integer(");
            push_signed_decimal(buf, *n);
            push_str(buf, ")");
        },
        Value::Float(f) => {
            push_str(buf, "Float(");
            push_string(buf, &f.literal);
            push_str(buf, ")");
        },
        Value::Bool(b) => {
            if *b {
                push_str(buf, "Bool(true)");
            } else {
                push_str(buf, "Bool(false)");
            }
        },
        Value::String(s) => {
            push_str(buf, "String(\"");
            push_string(buf, s);
            push_str(buf, "\")");
        },
        Value::Bytes(b) => {
            push_str(buf, "Bytes([");
            let ghost start = buf@;
            let mut i: usize = 0;
            while i < b.len()
                invariant
                    i <= b@.len(),
                    buf@ + bytes_text(b@, i as int) == start + bytes_text(b@, 0),
                decreases b@.len() - i,
            {
                push_separator(buf, i);
                push_decimal(buf, b[i] as u128);
                i = i + 1;
            }
            push_str(buf, "])");
        },
        Value::Array(items) => {
            push_str(buf, "Array([");
            push_items_text(buf, items);
            push_str(buf, "])");
        },
        Value::Struct(name, fields) => {
            push_str(buf, "Struct(\"");
            push_string(buf, name);
            push_str(buf, "\", [");
            push_pairs_text(buf, name, fields);
            push_str(buf, "])");
        },
    }
}

fn push_items_text(buf: &mut Vec<char>, items: &Vec<Value>)
    ensures
        final(buf)@ == old(buf)@ + items_text(ValueV::Array(values_view(items@)), 0),
    decreases items, 0nat,
{
    let ghost start = buf@;
    let ghost parent = ValueV::Array(values_view(items@));
    proof {
        lemma_values_view(items@);
    }
    let mut i: usize = 0;
    while i < items.len()
        invariant
            i <= items@.len(),
            parent == ValueV::Array(values_view(items@)),
            values_view(items@).len() == items@.len(),
            forall|j: int| 0 <= j < items@.len() ==> #[trigger] values_view(items@)[j] == items@[j]@,
            buf@ + items_text(parent, i as int) == start + items_text(parent, 0),
        decreases items@.len() - i,
    {
        proof {
            assert(decreases_to!(items => items@[i as int]));
        }
        push_separator(buf, i);
        push_value_text(buf, &items[i]);
        i = i + 1;
    }
}

fn push_pairs_text(buf: &mut Vec<char>, name: &String, fields: &Vec<(String, Value)>)
    ensures
        final(buf)@ == old(buf)@ + pairs_text(
            ValueV::Struct(name@, named_values_view(fields@)),
            0,
        ),
    decreases fields, 0nat,
{
    let ghost start = buf@;
    let ghost parent = ValueV::Struct(name@, named_values_view(fields@));
    proof {
        lemma_named_values_view(fields@);
    }
    let mut i: usize = 0;
    while i < fields.len()
        invariant
            i <= fields@.len(),
            parent == ValueV::Struct(name@, named_values_view(fields@)),
            named_values_view(fields@).len() == fields@.len(),
            forall|j: int|
                0 <= j < fields@.len() ==> #[trigger] named_values_view(fields@)[j] == (
                    fields@[j].0@,
                    fields@[j].1@,
                ),
            buf@ + pairs_text(parent, i as int) == start + pairs_text(parent, 0),
        decreases fields@.len() - i,
    {
        proof {
            assert(decreases_to!(fields => fields@[i as int]));
            assert(decreases_to!(fields@[i as int] => fields@[i as int].1));
        }
        push_separator(buf, i);
        push_str(buf, "(\"");
        push_string(buf, &fields[i].0);
        push_str(buf, "\", ");
        push_value_text(buf, &fields[i].1);
        push_str(buf, ")");
        i = i + 1;
    }
}

} // verus!
