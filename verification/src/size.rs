//! The byte size of a value as the size calculator counts it: scalars by
//! their width, strings and byte arrays with a four-byte length, `Vec`s with
//! a four-byte count, arrays and structs by their items and fields.
use vstd::prelude::*;
use crate::ast::{str_eq, Schema, SchemaV, Type, TypeV, Value, ValueV, lemma_values_view, values_view, named_values_view, lemma_named_values_view};
use crate::decode::{prim_width, scalar_width};
use crate::encode::{
    integer_to_byte_len, spec_integer_to_byte_len, type_text_string, utf8_len, value_text_string,
};
use crate::error::{CoreError, ErrorView};
use crate::messages::{err_named, err_named2, make_err_named, make_err_named2};
use crate::render::{type_text, value_text};

verus! {

/// `cannot calculate size for value V with type T`.
pub open spec fn err_no_size(v: ValueV, ty: TypeV) -> ErrorView {
    err_named2("encode"@, "cannot calculate size for value "@, value_text(v), " with type "@, type_text(ty), ""@)
}

/// `field 'F' not found in struct init`.
pub open spec fn err_no_init(name: Seq<char>) -> ErrorView {
    err_named("encode"@, "field '"@, name, "' not found in struct init"@)
}

/// The value of the first pair from index `i` on named `name`.
pub open spec fn first_binding(pairs: Seq<(Seq<char>, ValueV)>, name: Seq<char>, i: nat) -> Option<ValueV>
    decreases pairs.len() - i,
{
    if i >= pairs.len() {
        None
    } else if pairs[i as int].0 == name {
        Some(pairs[i as int].1)
    } else {
        first_binding(pairs, name, i + 1)
    }
}

/// `n` plus `acc`, or `None` where the sum leaves `usize`.
pub open spec fn add_size(acc: nat, n: nat) -> Option<Result<nat, ErrorView>> {
    if acc + n > usize::MAX {
        None
    } else {
        Some(Ok(acc + n))
    }
}

/// The size of value `v` taken as type `ty`, with at most `fuel` levels of
/// nested structs; `None` past the budget or where a sum leaves `usize`.
pub open spec fn spec_value_size(v: ValueV, ty: TypeV, schema: SchemaV, fuel: nat) -> Option<
    Result<nat, ErrorView>,
>
    decreases fuel, 0nat, v, 1nat, 0int,
{
    match prim_width(ty) {
        Some(w) => Some(Ok(w)),
        None => match (v, ty) {
            (ValueV::Str(s), TypeV::Str) => add_size(4, utf8_len(s)),
            (ValueV::Bytes(b), TypeV::Bytes) => add_size(4, b.len()),
            (ValueV::Integer(n), TypeV::Bytes) => add_size(4, spec_integer_to_byte_len(n) as nat),
            (ValueV::Array(_), TypeV::Vec(inner)) => spec_items_size(v, *inner, 0, 4, schema, fuel),
            (ValueV::Array(_), TypeV::Array(inner, _)) => spec_items_size(v, *inner, 0, 0, schema, fuel),
            (ValueV::Struct(name, pairs), TypeV::Custom(tname)) => if name != tname {
                Some(
                    Err(
                        err_named2(
                            "encode"@,
                            "struct name mismatch: expected "@,
                            tname,
                            ", got "@,
                            name,
                            ""@,
                        ),
                    ),
                )
            } else {
                match schema.lookup(tname) {
                    None => Some(Err(err_named("encode"@, "struct '"@, tname, "' not found in schema"@))),
                    Some(def) => if fuel == 0 {
                        None
                    } else {
                        spec_fields_size(pairs, def.fields, 0, 0, schema, (fuel - 1) as nat)
                    },
                }
            },
            _ => Some(Err(err_no_size(v, ty))),
        },
    }
}

/// The sizes of the items of the array value `parent` from index `i` on,
/// added to `acc`.
pub open spec fn spec_items_size(parent: ValueV, inner: TypeV, i: nat, acc: nat, schema: SchemaV, fuel: nat) -> Option<
    Result<nat, ErrorView>,
>
    decreases fuel, 0nat, parent, 0nat, parent->Array_0.len() - i,
{
    match parent {
        ValueV::Array(items) => if i >= items.len() {
            Some(Ok(acc))
        } else {
            match spec_value_size(items[i as int], inner, schema, fuel) {
                Some(Ok(s)) => if acc + s > usize::MAX {
                    None
                } else {
                    spec_items_size(parent, inner, i + 1, acc + s, schema, fuel)
                },
                o => o,
            }
        },
        _ => Some(Ok(acc)),
    }
}

/// The sizes of the values that `pairs` gives the fields from index `i` on
/// (the first pair of each name), added to `acc`.
pub open spec fn spec_fields_size(
    pairs: Seq<(Seq<char>, ValueV)>,
    fields: Seq<crate::ast::FieldV>,
    i: nat,
    acc: nat,
    schema: SchemaV,
    fuel: nat,
) -> Option<Result<nat, ErrorView>>
    decreases fuel, 1nat, ValueV::Bool(false), 0nat, fields.len() - i,
{
    if i >= fields.len() {
        Some(Ok(acc))
    } else {
        match first_binding(pairs, fields[i as int].name, 0) {
            None => Some(Err(err_no_init(fields[i as int].name))),
            Some(fv) => match spec_value_size(fv, fields[i as int].ty, schema, fuel) {
                Some(Ok(s)) => if acc + s > usize::MAX {
                    None
                } else {
                    spec_fields_size(pairs, fields, i + 1, acc + s, schema, fuel)
                },
                o => o,
            },
        }
    }
}

/// The view of a size result.
pub open spec fn size_result(r: Result<usize, CoreError>) -> Result<nat, ErrorView> {
    match r {
        Ok(n) => Ok(n as nat),
        Err(e) => Err(e@),
    }
}

fn first_binding_exec<'a>(pairs: &'a Vec<(String, Value)>, name: &str) -> (r: Option<&'a Value>)
    ensures
        match first_binding(named_values_view(pairs@), name@, 0) {
            Some(v) => r matches Some(x) && x@ == v,
            None => r is None,
        },
{
    let ghost nv = named_values_view(pairs@);
    proof {
        lemma_named_values_view(pairs@);
    }
    let mut i: usize = 0;
    while i < pairs.len()
        invariant
            i <= pairs@.len(),
            nv == named_values_view(pairs@),
            nv.len() == pairs@.len(),
            forall|j: int| 0 <= j < pairs@.len() ==> #[trigger] nv[j] == (pairs@[j].0@, pairs@[j].1@),
            first_binding(nv, name@, 0) == first_binding(nv, name@, i as nat),
        decreases pairs@.len() - i,
    {
        assert(nv[i as int] == (pairs@[i as int].0@, pairs@[i as int].1@));
        if str_eq(pairs[i].0.as_str(), name) {
            return Some(&pairs[i].1);
        }
        i = i + 1;
    }
    None
}

/// The byte size of value `v` taken as type `ty`: the width of a scalar
/// type; four more than the byte count of a string or byte array (the
/// bytes of the smallest unsigned type that holds an integer given as
/// bytes); four more than the items' sizes for a `Vec`; the items' sizes
/// for an array; the sizes of the first values the struct value gives its
/// fields for a struct. Any other pairing is an error.
pub fn value_size(v: &Value, ty: &Type, schema: &Schema, Ghost(fuel): Ghost<nat>) -> (r: Result<usize, CoreError>)
    requires
        spec_value_size(v@, ty@, schema@, fuel) is Some,
    ensures
        spec_value_size(v@, ty@, schema@, fuel) == Some(size_result(r)),
    decreases fuel, 0nat, v@, 1nat, 0int,
{
    match scalar_width(ty) {
        Some(w) => {
            return Ok(w);
        },
        None => {},
    }
    match (v, ty) {
        (Value::String(s), Type::String) => {
            let n = s.as_str().as_bytes().len();
            assert(n == utf8_len(s@));
            Ok(4 + n)
        },
        (Value::Bytes(b), Type::Bytes) => Ok(4 + b.len()),
        (Value::Integer(n), Type::Bytes) => {
            let w = integer_to_byte_len(*n);
            Ok(4 + w as usize)
        },
        (Value::Array(items), Type::Vec(inner)) => items_size(v, items, inner, 4, schema, Ghost(fuel)),
        (Value::Array(items), Type::Array(inner, _)) => items_size(v, items, inner, 0, schema, Ghost(fuel)),
        (Value::Struct(name, pairs), Type::Custom(tname)) => {
            if !str_eq(name.as_str(), tname.as_str()) {
                return Err(make_err_named2("encode", "struct name mismatch: expected ", tname, ", got ", name, ""));
            }
            match schema.get_struct(tname.as_str()) {
                None => Err(make_err_named("encode", "struct '", tname, "' not found in schema")),
                Some(def) => fields_size(pairs, &def.fields, schema, Ghost((fuel - 1) as nat)),
            }
        },
        _ => {
            let a = value_text_string(v);
            let b = type_text_string(ty);
            Err(make_err_named2("encode", "cannot calculate size for value ", &a, " with type ", &b, ""))
        },
    }
}

/// The sizes of the items of the array value `parent`, added to `start`.
fn items_size(
    parent: &Value,
    items: &Vec<Value>,
    inner: &Type,
    start: usize,
    schema: &Schema,
    Ghost(fuel): Ghost<nat>,
) -> (r: Result<usize, CoreError>)
    requires
        parent@ == ValueV::Array(values_view(items@)),
        spec_items_size(parent@, inner@, 0, start as nat, schema@, fuel) is Some,
    ensures
        spec_items_size(parent@, inner@, 0, start as nat, schema@, fuel) == Some(size_result(r)),
    decreases fuel, 0nat, parent@, 0nat, 0int,
{
    let ghost pv = parent@;
    proof {
        lemma_values_view(items@);
    }
    let mut acc: usize = start;
    let mut i: usize = 0;
    while i < items.len()
        invariant
            i <= items@.len(),
            pv == parent@,
            pv == ValueV::Array(values_view(items@)),
            values_view(items@).len() == items@.len(),
            forall|j: int| 0 <= j < items@.len() ==> #[trigger] values_view(items@)[j] == items@[j]@,
            spec_items_size(pv, inner@, 0, start as nat, schema@, fuel)
                == spec_items_size(pv, inner@, i as nat, acc as nat, schema@, fuel),
            spec_items_size(pv, inner@, 0, start as nat, schema@, fuel) is Some,
        decreases items@.len() - i,
    {
        proof {
            assert(decreases_to!(pv => values_view(items@)));
            assert(decreases_to!(values_view(items@) => values_view(items@)[i as int]));
            assert(values_view(items@)[i as int] == items@[i as int]@);
        }
        match value_size(&items[i], inner, schema, Ghost(fuel)) {
            Err(e) => {
                return Err(e);
            },
            Ok(s) => {
                acc = acc + s;
            },
        }
        i = i + 1;
    }
    Ok(acc)
}

/// The sizes of the values that `pairs` gives `fields`.
fn fields_size(
    pairs: &Vec<(String, Value)>,
    fields: &Vec<crate::ast::Field>,
    schema: &Schema,
    Ghost(fuel): Ghost<nat>,
) -> (r: Result<usize, CoreError>)
    requires
        spec_fields_size(named_values_view(pairs@), crate::ast::fields_view(fields@), 0, 0, schema@, fuel) is Some,
    ensures
        spec_fields_size(named_values_view(pairs@), crate::ast::fields_view(fields@), 0, 0, schema@, fuel)
            == Some(size_result(r)),
    decreases fuel, 1nat, ValueV::Bool(false), 0nat, 0int,
{
    let ghost nv = named_values_view(pairs@);
    let ghost fs = crate::ast::fields_view(fields@);
    let mut acc: usize = 0;
    let mut i: usize = 0;
    while i < fields.len()
        invariant
            i <= fields@.len(),
            nv == named_values_view(pairs@),
            fs == crate::ast::fields_view(fields@),
            fs.len() == fields@.len(),
            forall|j: int| 0 <= j < fields@.len() ==> #[trigger] fs[j] == fields@[j]@,
            spec_fields_size(nv, fs, 0, 0, schema@, fuel) == spec_fields_size(nv, fs, i as nat, acc as nat, schema@, fuel),
            spec_fields_size(nv, fs, 0, 0, schema@, fuel) is Some,
        decreases fields@.len() - i,
    {
        assert(fs[i as int] == fields@[i as int]@);
        let f = &fields[i];
        match first_binding_exec(pairs, f.name.as_str()) {
            None => {
                return Err(make_err_named("encode", "field '", &f.name, "' not found in struct init"));
            },
            Some(fv) => match value_size(fv, &f.ty, schema, Ghost(fuel)) {
                Err(e) => {
                    return Err(e);
                },
                Ok(s) => {
                    acc = acc + s;
                },
            },
        }
        i = i + 1;
    }
    Ok(acc)
}

} // verus!
