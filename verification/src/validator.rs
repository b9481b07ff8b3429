//! Schema validation: unique names, known types, values that match their
//! types, and well-formed field attributes, each failure with its code.

use vstd::prelude::*;
use crate::ast::{
    fields_view, str_eq, Direction, Field, FieldAttribute, FieldAttributeV, FieldV, Schema,
    SchemaV, StructDef, StructDefV, Type, TypeV, Value, ValueV, lemma_values_view, values_view,
};
use crate::attrs::{has_auto, has_auto_attribute, has_remaining, has_remaining_attribute, attrs_view};
use crate::encode::{find_field, lookup_field};
use crate::error::{validation_error, CoreError, ErrorView};
use crate::render::{push_type_text, type_text};
use crate::text::{chars_to_string, push_str, push_string, str_to_chars};

verus! {

/// A validation error with a code and a message made of pieces.
pub open spec fn verr(code: Seq<char>, message: Seq<char>) -> ErrorView {
    validation_error(code, message)
}

/// Some struct before index `i` has the name of struct `i`.
pub open spec fn name_seen_before(structs: Seq<StructDefV>, i: int) -> bool {
    exists|j: int| 0 <= j < i && #[trigger] structs[j].name == structs[i].name
}

/// The index of the first struct whose name was used before.
pub open spec fn first_duplicate_struct(structs: Seq<StructDefV>, i: nat) -> Option<nat>
    decreases structs.len() - i,
{
    if i >= structs.len() {
        None
    } else if name_seen_before(structs, i as int) {
        Some(i)
    } else {
        first_duplicate_struct(structs, i + 1)
    }
}

/// Some field before index `i` has the name of field `i`.
pub open spec fn field_seen_before(fields: Seq<FieldV>, i: int) -> bool {
    exists|j: int| 0 <= j < i && #[trigger] fields[j].name == fields[i].name
}

/// A value fits a type: integers fit integer types and `Bytes`, floats fit
/// float types, lists fit `Vec` and arrays of the right length item by item,
/// struct initializers fit struct types.
pub open spec fn value_matches(v: ValueV, ty: TypeV) -> bool
    decreases v, 1nat, 0int,
{
    match (v, ty) {
        (ValueV::Integer(_), TypeV::U8) | (ValueV::Integer(_), TypeV::U16) | (
            ValueV::Integer(_),
            TypeV::U32,
        ) | (ValueV::Integer(_), TypeV::U64) | (ValueV::Integer(_), TypeV::U128) | (
            ValueV::Integer(_),
            TypeV::I8,
        ) | (ValueV::Integer(_), TypeV::I16) | (ValueV::Integer(_), TypeV::I32) | (
            ValueV::Integer(_),
            TypeV::I64,
        ) | (ValueV::Integer(_), TypeV::I128) | (ValueV::Integer(_), TypeV::Bytes) => true,
        (ValueV::Float(_), TypeV::F32) | (ValueV::Float(_), TypeV::F64) => true,
        (ValueV::Bool(_), TypeV::Bool) => true,
        (ValueV::Str(_), TypeV::Str) => true,
        (ValueV::Bytes(_), TypeV::Bytes) => true,
        (ValueV::Array(_), TypeV::Vec(inner)) => items_match(v, *inner, 0),
        (ValueV::Array(items), TypeV::Array(inner, n)) => items.len() == n && items_match(
            v,
            *inner,
            0,
        ),
        (ValueV::Struct(_, _), TypeV::Custom(_)) => true,
        _ => false,
    }
}

/// Every item of the list value `parent` from index `i` on fits `inner`.
pub open spec fn items_match(parent: ValueV, inner: TypeV, i: int) -> bool
    decreases parent, 0nat, parent->Array_0.len() - i,
{
    match parent {
        ValueV::Array(items) => if i < 0 || i >= items.len() {
            true
        } else {
            value_matches(items[i], inner) && items_match(parent, inner, i + 1)
        },
        _ => true,
    }
}

/// The error a type gives in a field of struct `s`, if any.
pub open spec fn type_error(ty: TypeV, schema: SchemaV, s: Seq<char>) -> Option<ErrorView>
    decreases ty,
{
    match ty {
        TypeV::Custom(name) => if schema.lookup(name) is None {
            Some(verr("E009"@, "unknown type '"@ + name + "' in field of struct '"@ + s + "'"@))
        } else {
            None
        },
        TypeV::Vec(inner) => type_error(*inner, schema, s),
        TypeV::Array(inner, n) => if n == 0 {
            Some(verr("E010"@, "array size cannot be zero in struct '"@ + s + "'"@))
        } else {
            type_error(*inner, schema, s)
        },
        _ => None,
    }
}

/// The integer types a `#[len_ref]` may reference.
pub open spec fn is_count_type(ty: TypeV) -> bool {
    match ty {
        TypeV::U8 | TypeV::U16 | TypeV::U32 | TypeV::U64 | TypeV::I8 | TypeV::I16 | TypeV::I32
        | TypeV::I64 => true,
        _ => false,
    }
}

/// The unsigned types a checksum field may have.
pub open spec fn is_unsigned_type(ty: TypeV) -> bool {
    match ty {
        TypeV::U8 | TypeV::U16 | TypeV::U32 | TypeV::U64 => true,
        _ => false,
    }
}

/// The error an attribute of field `f` of struct `def` gives, if any.
pub open spec fn attribute_error(a: FieldAttributeV, f: FieldV, def: StructDefV) -> Option<ErrorView> {
    match a {
        FieldAttributeV::If(c) => match find_field(def.fields, c) {
            Some(cf) => if cf.ty != TypeV::Bool {
                Some(
                    verr(
                        "E006"@,
                        "#[if("@ + c + ")] in struct '"@ + def.name + "' references field '"@ + c
                            + "' which is not bool type"@,
                    ),
                )
            } else {
                None
            },
            None => Some(
                verr(
                    "E006"@,
                    "#[if("@ + c + ")] in struct '"@ + def.name + "' references non-existent field '"@
                        + c + "'"@,
                ),
            ),
        },
        FieldAttributeV::LenRef(r) => match find_field(def.fields, r) {
            Some(rf) => if !is_count_type(rf.ty) {
                Some(
                    verr(
                        "E007"@,
                        "#[len_ref("@ + r + ")] in struct '"@ + def.name + "' references field '"@
                            + r + "' which is not an integer type"@,
                    ),
                )
            } else {
                None
            },
            None => Some(
                verr(
                    "E007"@,
                    "#[len_ref("@ + r + ")] in struct '"@ + def.name
                        + "' references non-existent field '"@ + r + "'"@,
                ),
            ),
        },
        FieldAttributeV::Auto(Some(r)) => if find_field(def.fields, r) is None {
            Some(
                verr(
                    "E015"@,
                    "#[auto("@ + r + ")] in struct '"@ + def.name + "' references non-existent field '"@
                        + r + "'"@,
                ),
            )
        } else {
            None
        },
        FieldAttributeV::Checksum(_) => if !is_unsigned_type(f.ty) {
            Some(
                verr(
                    "E008"@,
                    "#[checksum] field '"@ + f.name + "' in struct '"@ + def.name
                        + "' must be an unsigned integer type"@,
                ),
            )
        } else {
            None
        },
        _ => None,
    }
}

/// The first error among the attributes of `f` from index `k` on.
pub open spec fn attributes_error(f: FieldV, def: StructDefV, k: nat) -> Option<ErrorView>
    decreases f.attributes.len() - k,
{
    if k >= f.attributes.len() {
        None
    } else {
        match attribute_error(f.attributes[k as int], f, def) {
            Some(e) => Some(e),
            None => attributes_error(f, def, k + 1),
        }
    }
}

/// The error field `f` of struct `def` gives, if any.
pub open spec fn field_error(f: FieldV, schema: SchemaV, def: StructDefV) -> Option<ErrorView> {
    if f.name.len() == 0 {
        Some(verr("E005"@, "field name cannot be empty in struct '"@ + def.name + "'"@))
    } else {
        match type_error(f.ty, schema, def.name) {
            Some(e) => Some(e),
            None => match f.value {
                Some(v) => if !value_matches(v, f.ty) {
                    Some(
                        verr(
                            "E006"@,
                            "field '"@ + f.name + "' value type does not match declared type '"@
                                + type_text(f.ty) + "'"@,
                        ),
                    )
                } else {
                    attributes_error(f, def, 0)
                },
                None => attributes_error(f, def, 0),
            },
        }
    }
}

/// The first error among the fields of `def` from index `i` on: a repeated
/// name or an error of the field.
pub open spec fn fields_error(def: StructDefV, schema: SchemaV, i: nat) -> Option<ErrorView>
    decreases def.fields.len() - i,
{
    if i >= def.fields.len() {
        None
    } else if field_seen_before(def.fields, i as int) {
        Some(
            verr(
                "E003"@,
                "duplicate field name '"@ + def.fields[i as int].name + "' in struct '"@ + def.name
                    + "'"@,
            ),
        )
    } else {
        match field_error(def.fields[i as int], schema, def) {
            Some(e) => Some(e),
            None => fields_error(def, schema, i + 1),
        }
    }
}

/// The number of `#[remaining]` fields.
pub open spec fn remaining_count(fields: Seq<FieldV>) -> nat
    decreases fields.len(),
{
    if fields.len() == 0 {
        0
    } else {
        remaining_count(fields.drop_last()) + if has_remaining(fields.last().attributes) {
            1nat
        } else {
            0nat
        }
    }
}

/// The index of the last `#[remaining]` field.
pub open spec fn last_remaining(fields: Seq<FieldV>) -> Option<nat>
    decreases fields.len(),
{
    if fields.len() == 0 {
        None
    } else if has_remaining(fields.last().attributes) {
        Some((fields.len() - 1) as nat)
    } else {
        last_remaining(fields.drop_last())
    }
}

/// The error the `#[remaining]` fields of `def` give, if any.
pub open spec fn remaining_error(def: StructDefV) -> Option<ErrorView> {
    let n = remaining_count(def.fields);
    if n == 0 {
        None
    } else if n > 1 {
        Some(
            verr(
                "E014"@,
                "struct '"@ + def.name + "' has multiple #[remaining] fields, only one allowed"@,
            ),
        )
    } else if def.direction != Some(Direction::Receive) {
        Some(
            verr(
                "E012"@,
                "struct '"@ + def.name + "' has #[remaining] field but is not a receive struct"@,
            ),
        )
    } else if last_remaining(def.fields) != Some((def.fields.len() - 1) as nat) {
        Some(
            verr(
                "E013"@,
                "#[remaining] field in struct '"@ + def.name + "' must be the last field"@,
            ),
        )
    } else {
        let f = def.fields.last();
        match f.ty {
            TypeV::Bytes | TypeV::Str | TypeV::Vec(_) => None,
            _ => Some(
                verr(
                    "E011"@,
                    "#[remaining] field '"@ + f.name + "' in struct '"@ + def.name
                        + "' must be Bytes, String, or Vec<T>"@,
                ),
            ),
        }
    }
}

/// The first field of a send struct with neither a value nor `#[auto]`.
pub open spec fn first_missing_value(fields: Seq<FieldV>, i: nat) -> Option<nat>
    decreases fields.len() - i,
{
    if i >= fields.len() {
        None
    } else if fields[i as int].value is None && !has_auto(fields[i as int].attributes) {
        Some(i)
    } else {
        first_missing_value(fields, i + 1)
    }
}

/// A `String`, `Bytes` or `Vec` field of a receive struct that names no
/// length (neither `#[len_ref]` nor `#[remaining]`).
pub open spec fn lacks_length(f: FieldV) -> bool {
    crate::receive::is_length_carrying(f.ty) && crate::attrs::len_ref_attr(f.attributes) is None
        && !has_remaining(f.attributes)
}

/// The first field that names no length, from index `i` on.
pub open spec fn first_lacking_length(fields: Seq<FieldV>, i: nat) -> Option<nat>
    decreases fields.len() - i,
{
    if i >= fields.len() {
        None
    } else if lacks_length(fields[i as int]) {
        Some(i)
    } else {
        first_lacking_length(fields, i + 1)
    }
}

/// The error struct `def` gives, if any.
pub open spec fn struct_error(def: StructDefV, schema: SchemaV) -> Option<ErrorView> {
    if def.name.len() == 0 {
        Some(verr("E001"@, "struct name cannot be empty"@))
    } else {
        match fields_error(def, schema, 0) {
            Some(e) => Some(e),
            None => match remaining_error(def) {
                Some(e) => Some(e),
                None => presence_error(def, schema),
            },
        }
    }
}

/// The error a struct gives for a field without a value (send structs) or
/// without a length when prefixes are disabled (receive structs), if any.
pub open spec fn presence_error(def: StructDefV, schema: SchemaV) -> Option<ErrorView> {
    if def.direction == Some(Direction::Send) && first_missing_value(def.fields, 0) is Some {
        let f = def.fields[first_missing_value(def.fields, 0)->0 as int];
        Some(
            verr(
                "E004"@,
                "field '"@ + f.name + "' in send struct '"@ + def.name
                    + "' must have a value or be auto"@,
            ),
        )
    } else if def.direction == Some(Direction::Receive) && !schema.is_prefix_enabled()
        && first_lacking_length(def.fields, 0) is Some {
        let f = def.fields[first_lacking_length(def.fields, 0)->0 as int];
        Some(
            verr(
                "E016"@,
                "field '"@ + f.name + "' in receive struct '"@ + def.name
                    + "' needs #[len_ref] or #[remaining] when #![prefix(disable)] is set"@,
            ),
        )
    } else {
        None
    }
}

/// The first error among the structs from index `i` on.
pub open spec fn structs_error(schema: SchemaV, i: nat) -> Option<ErrorView>
    decreases schema.structs.len() - i,
{
    if i >= schema.structs.len() {
        None
    } else {
        match struct_error(schema.structs[i as int], schema) {
            Some(e) => Some(e),
            None => structs_error(schema, i + 1),
        }
    }
}

/// The error validation reports for a schema, if any: a repeated struct
/// name first, else the first error of the structs in order.
pub open spec fn schema_error(schema: SchemaV) -> Option<ErrorView> {
    match first_duplicate_struct(schema.structs, 0) {
        Some(i) => Some(
            verr("E002"@, "duplicate struct name: '"@ + schema.structs[i as int].name + "'"@),
        ),
        None => structs_error(schema, 0),
    }
}

} // verus!

verus! {

fn verr_exec(code: &str, m: &Vec<char>) -> (e: CoreError)
    ensures
        e@ == verr(code@, m@),
{
    let s = chars_to_string(m.as_slice());
    CoreError::validation(code, s.as_str())
}

/// Whether a value fits a type.
pub fn value_matches_type(value: &Value, ty: &Type) -> (r: bool)
    ensures
        r == value_matches(value@, ty@),
    decreases value, 1nat,
{
    match (value, ty) {
        (Value::Integer(_), Type::U8) | (Value::Integer(_), Type::U16) | (
            Value::Integer(_),
            Type::U32,
        ) | (Value::Integer(_), Type::U64) | (Value::Integer(_), Type::U128) | (
            Value::Integer(_),
            Type::I8,
        ) | (Value::Integer(_), Type::I16) | (Value::Integer(_), Type::I32) | (
            Value::Integer(_),
            Type::I64,
        ) | (Value::Integer(_), Type::I128) | (Value::Integer(_), Type::Bytes) => true,
        (Value::Float(_), Type::F32) | (Value::Float(_), Type::F64) => true,
        (Value::Bool(_), Type::Bool) => true,
        (Value::String(_), Type::String) => true,
        (Value::Bytes(_), Type::Bytes) => true,
        (Value::Array(items), Type::Vec(inner)) => all_items_match(value, items, inner),
        (Value::Array(items), Type::Array(inner, n)) => {
            proof {
                lemma_values_view(items@);
            }
            items.len() == *n && all_items_match(value, items, inner)
        },
        (Value::Struct(_, _), Type::Custom(_)) => true,
        _ => false,
    }
}

fn all_items_match(parent: &Value, items: &Vec<Value>, inner: &Type) -> (r: bool)
    requires
        parent@ == ValueV::Array(values_view(items@)),
    ensures
        r == items_match(parent@, inner@, 0),
    decreases items, 0nat,
{
    let ghost pv = parent@;
    proof {
        lemma_values_view(items@);
    }
    let mut i: usize = 0;
    while i < items.len()
        invariant
            i <= items@.len(),
            pv == parent@,
            pv == ValueV::Array(values_view(items@)),
            values_view(items@).len() == items@.len(),
            forall|j: int| 0 <= j < items@.len() ==> #[trigger] values_view(items@)[j] == items@[j]@,
            items_match(pv, inner@, 0) == items_match(pv, inner@, i as int),
        decreases items@.len() - i,
    {
        proof {
            assert(decreases_to!(items => items@[i as int]));
        }
        if !value_matches_type(&items[i], inner) {
            return false;
        }
        i = i + 1;
    }
    true
}

/// The error a type gives in a field of struct `s`, if any.
fn check_type(ty: &Type, schema: &Schema, s: &String) -> (r: Option<CoreError>)
    ensures
        match type_error(ty@, schema@, s@) {
            Some(e) => r matches Some(x) && x@ == e,
            None => r is None,
        },
    decreases ty,
{
    match ty {
        Type::Custom(name) => {
            if schema.get_struct(name.as_str()).is_none() {
                let mut m: Vec<char> = Vec::new();
                push_str(&mut m, "unknown type '");
                push_string(&mut m, name);
                push_str(&mut m, "' in field of struct '");
                push_string(&mut m, s);
                push_str(&mut m, "'");
                Some(verr_exec("E009", &m))
            } else {
                None
            }
        },
        Type::Vec(inner) => check_type(inner, schema, s),
        Type::Array(inner, n) => {
            if *n == 0 {
                let mut m: Vec<char> = Vec::new();
                push_str(&mut m, "array size cannot be zero in struct '");
                push_string(&mut m, s);
                push_str(&mut m, "'");
                Some(verr_exec("E010", &m))
            } else {
                check_type(inner, schema, s)
            }
        },
        _ => None,
    }
}

/// Whether a `#[len_ref]` may reference a field of this type.
fn is_count_type_exec(ty: &Type) -> (r: bool)
    ensures
        r == is_count_type(ty@),
{
    match ty {
        Type::U8 | Type::U16 | Type::U32 | Type::U64 | Type::I8 | Type::I16 | Type::I32
        | Type::I64 => true,
        _ => false,
    }
}

/// Whether a checksum field may have this type.
fn is_unsigned_type_exec(ty: &Type) -> (r: bool)
    ensures
        r == is_unsigned_type(ty@),
{
    match ty {
        Type::U8 | Type::U16 | Type::U32 | Type::U64 => true,
        _ => false,
    }
}

/// The error an attribute of field `f` of struct `def` gives, if any.
fn check_attribute(a: &FieldAttribute, f: &Field, def: &StructDef) -> (r: Option<CoreError>)
    ensures
        match attribute_error(a@, f@, def@) {
            Some(e) => r matches Some(x) && x@ == e,
            None => r is None,
        },
{
    match a {
        FieldAttribute::If(c) => match lookup_field(&def.fields, c.as_str()) {
            Some(cf) => {
                let is_bool = match &cf.ty {
                    Type::Bool => true,
                    _ => false,
                };
                if !is_bool {
                    let mut m: Vec<char> = Vec::new();
                    push_str(&mut m, "#[if(");
                    push_string(&mut m, c);
                    push_str(&mut m, ")] in struct '");
                    push_string(&mut m, &def.name);
                    push_str(&mut m, "' references field '");
                    push_string(&mut m, c);
                    push_str(&mut m, "' which is not bool type");
                    Some(verr_exec("E006", &m))
                } else {
                    None
                }
            },
            None => {
                let mut m: Vec<char> = Vec::new();
                push_str(&mut m, "#[if(");
                push_string(&mut m, c);
                push_str(&mut m, ")] in struct '");
                push_string(&mut m, &def.name);
                push_str(&mut m, "' references non-existent field '");
                push_string(&mut m, c);
                push_str(&mut m, "'");
                Some(verr_exec("E006", &m))
            },
        },
        FieldAttribute::LenRef(r) => match lookup_field(&def.fields, r.as_str()) {
            Some(rf) => {
                if !is_count_type_exec(&rf.ty) {
                    let mut m: Vec<char> = Vec::new();
                    push_str(&mut m, "#[len_ref(");
                    push_string(&mut m, r);
                    push_str(&mut m, ")] in struct '");
                    push_string(&mut m, &def.name);
                    push_str(&mut m, "' references field '");
                    push_string(&mut m, r);
                    push_str(&mut m, "' which is not an integer type");
                    Some(verr_exec("E007", &m))
                } else {
                    None
                }
            },
            None => {
                let mut m: Vec<char> = Vec::new();
                push_str(&mut m, "#[len_ref(");
                push_string(&mut m, r);
                push_str(&mut m, ")] in struct '");
                push_string(&mut m, &def.name);
                push_str(&mut m, "' references non-existent field '");
                push_string(&mut m, r);
                push_str(&mut m, "'");
                Some(verr_exec("E007", &m))
            },
        },
        FieldAttribute::Auto(Some(r)) => {
            if lookup_field(&def.fields, r.as_str()).is_none() {
                let mut m: Vec<char> = Vec::new();
                push_str(&mut m, "#[auto(");
                push_string(&mut m, r);
                push_str(&mut m, ")] in struct '");
                push_string(&mut m, &def.name);
                push_str(&mut m, "' references non-existent field '");
                push_string(&mut m, r);
                push_str(&mut m, "'");
                Some(verr_exec("E015", &m))
            } else {
                None
            }
        },
        FieldAttribute::Checksum(_) => {
            if !is_unsigned_type_exec(&f.ty) {
                let mut m: Vec<char> = Vec::new();
                push_str(&mut m, "#[checksum] field '");
                push_string(&mut m, &f.name);
                push_str(&mut m, "' in struct '");
                push_string(&mut m, &def.name);
                push_str(&mut m, "' must be an unsigned integer type");
                Some(verr_exec("E008", &m))
            } else {
                None
            }
        },
        _ => None,
    }
}

/// The error field `f` of struct `def` gives, if any.
fn check_field(f: &Field, schema: &Schema, def: &StructDef) -> (r: Option<CoreError>)
    ensures
        match field_error(f@, schema@, def@) {
            Some(e) => r matches Some(x) && x@ == e,
            None => r is None,
        },
{
    if str_to_chars(f.name.as_str()).len() == 0 {
        let mut m: Vec<char> = Vec::new();
        push_str(&mut m, "field name cannot be empty in struct '");
        push_string(&mut m, &def.name);
        push_str(&mut m, "'");
        return Some(verr_exec("E005", &m));
    }
    match check_type(&f.ty, schema, &def.name) {
        Some(e) => {
            return Some(e);
        },
        None => {},
    }
    match &f.value {
        Some(v) => {
            if !value_matches_type(v, &f.ty) {
                let mut m: Vec<char> = Vec::new();
                push_str(&mut m, "field '");
                push_string(&mut m, &f.name);
                push_str(&mut m, "' value type does not match declared type '");
                push_type_text(&mut m, &f.ty);
                push_str(&mut m, "'");
                return Some(verr_exec("E006", &m));
            }
        },
        None => {},
    }
    let ghost fv = f@;
    let mut k: usize = 0;
    while k < f.attributes.len()
        invariant
            k <= f.attributes@.len(),
            fv == f@,
            fv.attributes.len() == f.attributes@.len(),
            field_error(fv, schema@, def@) == attributes_error(fv, def@, 0),
            attributes_error(fv, def@, 0) == attributes_error(fv, def@, k as nat),
        decreases f.attributes@.len() - k,
    {
        proof {
            assert(fv.attributes[k as int] == f.attributes@[k as int]@);
        }
        match check_attribute(&f.attributes[k], f, def) {
            Some(e) => {
                return Some(e);
            },
            None => {},
        }
        k = k + 1;
    }
    None
}

} // verus!

verus! {

/// Whether a field before index `i` has the name of field `i`.
fn field_name_seen(fields: &Vec<Field>, i: usize) -> (r: bool)
    requires
        i < fields@.len(),
    ensures
        r == field_seen_before(fields_view(fields@), i as int),
{
    let ghost fs = fields_view(fields@);
    let mut j: usize = 0;
    while j < i
        invariant
            j <= i < fields@.len(),
            fs == fields_view(fields@),
            forall|k: int| 0 <= k < j ==> #[trigger] fs[k].name != fs[i as int].name,
        decreases i - j,
    {
        proof {
            assert(fs[j as int] == fields@[j as int]@);
            assert(fs[i as int] == fields@[i as int]@);
        }
        if str_eq(fields[j].name.as_str(), fields[i].name.as_str()) {
            proof {
                assert(fs[j as int].name == fs[i as int].name);
            }
            return true;
        }
        j = j + 1;
    }
    false
}

/// Whether a struct before index `i` has the name of struct `i`.
fn struct_name_seen(structs: &Vec<StructDef>, i: usize) -> (r: bool)
    requires
        i < structs@.len(),
    ensures
        r == name_seen_before(crate::ast::structs_view(structs@), i as int),
{
    let ghost ss = crate::ast::structs_view(structs@);
    let mut j: usize = 0;
    while j < i
        invariant
            j <= i < structs@.len(),
            ss == crate::ast::structs_view(structs@),
            forall|k: int| 0 <= k < j ==> #[trigger] ss[k].name != ss[i as int].name,
        decreases i - j,
    {
        proof {
            assert(ss[j as int] == structs@[j as int]@);
            assert(ss[i as int] == structs@[i as int]@);
        }
        if str_eq(structs[j].name.as_str(), structs[i].name.as_str()) {
            proof {
                assert(ss[j as int].name == ss[i as int].name);
            }
            return true;
        }
        j = j + 1;
    }
    false
}

proof fn lemma_remaining_take(fields: Seq<FieldV>, i: int)
    requires
        0 <= i < fields.len(),
    ensures
        remaining_count(fields.take(i + 1)) == remaining_count(fields.take(i)) + if has_remaining(
            fields[i].attributes,
        ) {
            1nat
        } else {
            0nat
        },
        last_remaining(fields.take(i + 1)) == if has_remaining(fields[i].attributes) {
            Some(i as nat)
        } else {
            last_remaining(fields.take(i))
        },
{
    assert(fields.take(i + 1).drop_last() == fields.take(i));
    assert(fields.take(i + 1).last() == fields[i]);
}

proof fn lemma_remaining_some(fields: Seq<FieldV>)
    ensures
        remaining_count(fields) > 0 ==> last_remaining(fields) is Some,
        last_remaining(fields) matches Some(p) ==> p < fields.len(),
    decreases fields.len(),
{
    if fields.len() > 0 {
        lemma_remaining_some(fields.drop_last());
    }
}

/// The error struct `def` gives, if any.
fn check_struct(def: &StructDef, schema: &Schema) -> (r: Option<CoreError>)
    ensures
        match struct_error(def@, schema@) {
            Some(e) => r matches Some(x) && x@ == e,
            None => r is None,
        },
{
    if str_to_chars(def.name.as_str()).len() == 0 {
        let mut m: Vec<char> = Vec::new();
        push_str(&mut m, "struct name cannot be empty");
        return Some(verr_exec("E001", &m));
    }
    let ghost fs = def@.fields;
    let mut count: usize = 0;
    let mut last: Option<usize> = None;
    let mut i: usize = 0;
    proof {
        assert(fs.take(0) =~= Seq::<FieldV>::empty());
    }
    while i < def.fields.len()
        invariant
            i <= def.fields@.len(),
            fs == def@.fields,
            fs == fields_view(def.fields@),
            fs.len() == def.fields@.len(),
            def@.name.len() > 0,
            struct_error(def@, schema@) == match fields_error(def@, schema@, 0) {
                Some(e) => Some(e),
                None => match remaining_error(def@) {
                    Some(e) => Some(e),
                    None => struct_error(def@, schema@),
                },
            },
            fields_error(def@, schema@, 0) == fields_error(def@, schema@, i as nat),
            count as nat == remaining_count(fs.take(i as int)),
            count <= i,
            match last {
                Some(p) => last_remaining(fs.take(i as int)) == Some(p as nat),
                None => last_remaining(fs.take(i as int)) is None,
            },
        decreases def.fields@.len() - i,
    {
        let f = &def.fields[i];
        proof {
            assert(fs[i as int] == f@);
            lemma_remaining_take(fs, i as int);
        }
        if field_name_seen(&def.fields, i) {
            let mut m: Vec<char> = Vec::new();
            push_str(&mut m, "duplicate field name '");
            push_string(&mut m, &f.name);
            push_str(&mut m, "' in struct '");
            push_string(&mut m, &def.name);
            push_str(&mut m, "'");
            return Some(verr_exec("E003", &m));
        }
        match check_field(f, schema, def) {
            Some(e) => {
                return Some(e);
            },
            None => {},
        }
        if has_remaining_attribute(&f.attributes) {
            count = count + 1;
            last = Some(i);
        }
        i = i + 1;
    }
    proof {
        assert(fs.take(fs.len() as int) == fs);
        lemma_remaining_some(fs);
    }
    if count > 0 {
        if count > 1 {
            let mut m: Vec<char> = Vec::new();
            push_str(&mut m, "struct '");
            push_string(&mut m, &def.name);
            push_str(&mut m, "' has multiple #[remaining] fields, only one allowed");
            return Some(verr_exec("E014", &m));
        }
        let is_receive = match def.direction {
            Some(Direction::Receive) => true,
            _ => false,
        };
        if !is_receive {
            let mut m: Vec<char> = Vec::new();
            push_str(&mut m, "struct '");
            push_string(&mut m, &def.name);
            push_str(&mut m, "' has #[remaining] field but is not a receive struct");
            return Some(verr_exec("E012", &m));
        }
        let pos = last.unwrap();
        if pos != def.fields.len() - 1 {
            let mut m: Vec<char> = Vec::new();
            push_str(&mut m, "#[remaining] field in struct '");
            push_string(&mut m, &def.name);
            push_str(&mut m, "' must be the last field");
            return Some(verr_exec("E013", &m));
        }
        let f = &def.fields[def.fields.len() - 1];
        proof {
            assert(fs.last() == f@);
        }
        let ok = match &f.ty {
            Type::Bytes | Type::String | Type::Vec(_) => true,
            _ => false,
        };
        if !ok {
            let mut m: Vec<char> = Vec::new();
            push_str(&mut m, "#[remaining] field '");
            push_string(&mut m, &f.name);
            push_str(&mut m, "' in struct '");
            push_string(&mut m, &def.name);
            push_str(&mut m, "' must be Bytes, String, or Vec<T>");
            return Some(verr_exec("E011", &m));
        }
    }
    let is_send = match def.direction {
        Some(Direction::Send) => true,
        _ => false,
    };
    let is_receive = match def.direction {
        Some(Direction::Receive) => true,
        _ => false,
    };
    if is_send {
        let mut j: usize = 0;
        while j < def.fields.len()
            invariant
                j <= def.fields@.len(),
                fs == fields_view(def.fields@),
                fs == def@.fields,
                def@.direction == Some(Direction::Send),
                struct_error(def@, schema@) == presence_error(def@, schema@),
                first_missing_value(fs, 0) == first_missing_value(fs, j as nat),
            decreases def.fields@.len() - j,
        {
            let f = &def.fields[j];
            proof {
                assert(fs[j as int] == f@);
            }
            if f.value.is_none() && !has_auto_attribute(&f.attributes) {
                let mut m: Vec<char> = Vec::new();
                push_str(&mut m, "field '");
                push_string(&mut m, &f.name);
                push_str(&mut m, "' in send struct '");
                push_string(&mut m, &def.name);
                push_str(&mut m, "' must have a value or be auto");
                return Some(verr_exec("E004", &m));
            }
            j = j + 1;
        }
    }
    if is_receive && !schema.is_prefix_enabled() {
        let mut j: usize = 0;
        while j < def.fields.len()
            invariant
                j <= def.fields@.len(),
                fs == fields_view(def.fields@),
                fs == def@.fields,
                def@.direction == Some(Direction::Receive),
                !schema@.is_prefix_enabled(),
                struct_error(def@, schema@) == presence_error(def@, schema@),
                first_lacking_length(fs, 0) == first_lacking_length(fs, j as nat),
            decreases def.fields@.len() - j,
        {
            let f = &def.fields[j];
            proof {
                assert(fs[j as int] == f@);
            }
            let carrying = match &f.ty {
                Type::Vec(_) | Type::String | Type::Bytes => true,
                _ => false,
            };
            if carrying && crate::attrs::get_len_ref_attribute(&f.attributes).is_none()
                && !has_remaining_attribute(&f.attributes) {
                let mut m: Vec<char> = Vec::new();
                push_str(&mut m, "field '");
                push_string(&mut m, &f.name);
                push_str(&mut m, "' in receive struct '");
                push_string(&mut m, &def.name);
                push_str(
                    &mut m,
                    "' needs #[len_ref] or #[remaining] when #![prefix(disable)] is set",
                );
                return Some(verr_exec("E016", &m));
            }
            j = j + 1;
        }
    }
    None
}

/// Validates a schema: struct names are unique, and each struct passes
/// its checks, in order.
pub fn validate_schema(schema: &Schema) -> (r: Result<(), CoreError>)
    ensures
        match schema_error(schema@) {
            Some(e) => r matches Err(x) && x@ == e,
            None => r is Ok,
        },
{
    let ghost ss = schema@.structs;
    let mut i: usize = 0;
    while i < schema.structs.len()
        invariant
            i <= schema.structs@.len(),
            ss == schema@.structs,
            ss == crate::ast::structs_view(schema.structs@),
            first_duplicate_struct(ss, 0) == first_duplicate_struct(ss, i as nat),
        decreases schema.structs@.len() - i,
    {
        if struct_name_seen(&schema.structs, i) {
            let mut m: Vec<char> = Vec::new();
            push_str(&mut m, "duplicate struct name: '");
            push_string(&mut m, &schema.structs[i].name);
            push_str(&mut m, "'");
            proof {
                assert(ss[i as int] == schema.structs@[i as int]@);
            }
            return Err(verr_exec("E002", &m));
        }
        i = i + 1;
    }
    let mut k: usize = 0;
    while k < schema.structs.len()
        invariant
            k <= schema.structs@.len(),
            ss == schema@.structs,
            ss == crate::ast::structs_view(schema.structs@),
            first_duplicate_struct(ss, 0) is None,
            structs_error(schema@, 0) == structs_error(schema@, k as nat),
        decreases schema.structs@.len() - k,
    {
        proof {
            assert(ss[k as int] == schema.structs@[k as int]@);
        }
        match check_struct(&schema.structs[k], schema) {
            Some(e) => {
                return Err(e);
            },
            None => {},
        }
        k = k + 1;
    }
    Ok(())
}

/// The outcome of a validation that collects all errors.
#[derive(Debug)]
pub struct ValidationResult {
    /// Whether no error was added.
    pub is_valid: bool,
    /// The errors, in the order they were added.
    pub errors: Vec<ValidationError>,
}

/// One validation error.
#[derive(Debug, Clone)]
pub struct ValidationError {
    /// Error code.
    pub code: String,
    /// Error message.
    pub message: String,
    /// The struct concerned, if any.
    pub struct_name: Option<String>,
    /// The field concerned, if any.
    pub field_name: Option<String>,
}

impl ValidationResult {
    /// A result with no errors.
    pub fn success() -> (r: ValidationResult)
        ensures
            r.is_valid,
            r.errors@.len() == 0,
    {
        ValidationResult { is_valid: true, errors: Vec::new() }
    }

    /// Records an error: the result is no longer valid.
    pub fn add_error(&mut self, error: ValidationError)
        ensures
            !final(self).is_valid,
            final(self).errors@ == old(self).errors@.push(error),
    {
        self.is_valid = false;
        self.errors.push(error);
    }
}

} // verus!
