//! What encoding values and structs means: the bytes of each value, the
//! fixed sizes of types, and the two passes over a struct's fields.

use vstd::prelude::*;
use crate::ast::{
    fields_view, lemma_named_values_view, lemma_values_view, named_values_view, str_eq, Direction,
    Endianness, Field,
    FieldV, Schema, SchemaV, StructDef, StructDefV, Type, TypeV, Value, ValueV, values_view,
};
use crate::attrs::{
    bit_attr, bits_attr, checksum_attr, field_endian, get_bit_attribute, get_bits_attribute,
    get_auto_attribute, get_checksum_attribute, get_field_endian, get_if_attribute, get_len_ref_attribute, has_auto,
    has_auto_attribute, has_remaining, has_remaining_attribute, if_attr, len_ref_attr,
};
use crate::decode::{prim_width, scalar_width, type_depth};
use crate::error::{CoreError, ErrorView};
use crate::messages::{
    err_fixed, err_named, err_named2, err_numbers, make_err_fixed, make_err_named, make_err_named2,
    make_err_numbers,
};
use crate::receive::{bit_key, field_bit_key};
use crate::render::{push_type_text, push_value_text, type_text, value_text};
use crate::text::chars_to_string;
use crate::wire::{
    bit_range_ok, calculate_checksum, int_bytes, lemma_int_bytes_len, set_bits, spec_checksum,
    spec_set_bits, write_int,
};
use vstd::slice::slice_subrange;
use vstd::utf8::encode_utf8;

verus! {

/// The value bound to `name` by a list of bindings, the last binding winning.
pub open spec fn binding(fv: Seq<(Seq<char>, ValueV)>, name: Seq<char>) -> Option<ValueV>
    decreases fv.len(),
{
    if fv.len() == 0 {
        None
    } else if fv.last().0 == name {
        Some(fv.last().1)
    } else {
        binding(fv.drop_last(), name)
    }
}

/// The value of field `f`: its binding, else its own value.
pub open spec fn field_value(fv: Seq<(Seq<char>, ValueV)>, f: FieldV) -> Option<ValueV> {
    match binding(fv, f.name) {
        Some(v) => Some(v),
        None => f.value,
    }
}

/// The first field named `name`.
pub open spec fn find_field(fields: Seq<FieldV>, name: Seq<char>) -> Option<FieldV>
    decreases fields.len(),
{
    if fields.len() == 0 {
        None
    } else if fields[0].name == name {
        Some(fields[0])
    } else {
        find_field(fields.drop_first(), name)
    }
}

/// The bindings a struct's own field values make, in field order.
pub open spec fn own_bindings(fields: Seq<FieldV>) -> Seq<(Seq<char>, ValueV)>
    decreases fields.len(),
{
    if fields.len() == 0 {
        Seq::empty()
    } else {
        let rest = own_bindings(fields.drop_last());
        match fields.last().value {
            Some(v) => rest.push((fields.last().name, v)),
            None => rest,
        }
    }
}

/// The byte count of the text of a string.
pub open spec fn utf8_len(s: Seq<char>) -> nat {
    encode_utf8(s).len()
}

/// The length the `#[auto(..)]`/`#[len_ref(..)]` of a send struct takes from
/// a value: the number of items, bytes or string bytes; `None` for other values.
pub open spec fn value_length(v: ValueV) -> Option<nat> {
    match v {
        ValueV::Array(items) => Some(items.len()),
        ValueV::Bytes(b) => Some(b.len()),
        ValueV::Str(s) => Some(utf8_len(s)),
        _ => None,
    }
}

/// The number of bytes a hexadecimal integer takes as a `Bytes` value.
pub open spec fn spec_integer_to_byte_len(n: i128) -> u64 {
    if n <= 0xff {
        1
    } else if n <= 0xffff {
        2
    } else if n <= 0xffff_ffff {
        4
    } else if n <= 0xffff_ffff_ffff_ffff {
        8
    } else {
        16
    }
}

/// Byte width of an integer type.
pub open spec fn int_width(ty: TypeV) -> Option<nat> {
    match ty {
        TypeV::U8 | TypeV::I8 => Some(1),
        TypeV::U16 | TypeV::I16 => Some(2),
        TypeV::U32 | TypeV::I32 => Some(4),
        TypeV::U64 | TypeV::I64 => Some(8),
        TypeV::U128 | TypeV::I128 => Some(16),
        _ => None,
    }
}

/// Byte width of an unsigned type that can hold a length or checksum.
pub open spec fn uint_width(ty: TypeV) -> Option<nat> {
    match ty {
        TypeV::U8 => Some(1),
        TypeV::U16 => Some(2),
        TypeV::U32 => Some(4),
        TypeV::U64 => Some(8),
        _ => None,
    }
}

/// The 4-byte big-endian length prefix of `n`, when prefixes are enabled.
pub open spec fn length_prefix(schema: SchemaV, n: nat) -> Seq<u8> {
    if schema.is_prefix_enabled() {
        int_bytes(n, 4, Endianness::Big)
    } else {
        Seq::empty()
    }
}

/// `n` zero bytes.
pub open spec fn zeros(n: nat) -> Seq<u8> {
    Seq::new(n, |i: int| 0u8)
}

/// `buf` with `bytes` written over it at `off`.
pub open spec fn splice(buf: Seq<u8>, off: nat, bytes: Seq<u8>) -> Seq<u8> {
    buf.subrange(0, off as int) + bytes + buf.subrange((off + bytes.len()) as int, buf.len() as int)
}

/// Writes the low `w` bytes of `x` at `off`; `None` when they do not fit.
pub open spec fn write_at(buf: Seq<u8>, off: nat, w: nat, x: nat, endian: Endianness) -> Option<
    Seq<u8>,
> {
    if off + w <= buf.len() {
        Some(splice(buf, off, int_bytes(x, w, endian)))
    } else {
        None
    }
}

/// `type T has dynamic size`.
pub open spec fn err_dynamic(ty: TypeV) -> ErrorView {
    err_named("encode"@, "type "@, type_text(ty), " has dynamic size"@)
}

/// `value V does not match type T`.
pub open spec fn err_mismatch(v: ValueV, ty: TypeV) -> ErrorView {
    err_named2("encode"@, "value "@, value_text(v), " does not match type "@, type_text(ty), ""@)
}

/// The fixed byte size of a type; `None` where the computation would
/// overflow `usize` or nest struct types deeper than `fuel`.
pub open spec fn spec_type_size(ty: TypeV, schema: SchemaV, fuel: nat) -> Option<
    Result<nat, ErrorView>,
>
    decreases fuel, 0nat, type_depth(ty),
{
    match prim_width(ty) {
        Some(w) => Some(Ok(w)),
        None => match ty {
            TypeV::Array(inner, n) => match spec_type_size(*inner, schema, fuel) {
                Some(Ok(s)) => if s * n > usize::MAX {
                    None
                } else {
                    Some(Ok(s * (n as nat)))
                },
                o => o,
            },
            TypeV::Custom(name) => match schema.lookup(name) {
                None => Some(Err(err_named("encode"@, "struct '"@, name, "' not found in schema"@))),
                Some(def) => if fuel == 0 {
                    None
                } else {
                    sum_sizes(def.fields, 0, 0, schema, (fuel - 1) as nat)
                },
            },
            _ => Some(Err(err_dynamic(ty))),
        },
    }
}

/// The sum of the sizes of `fields` from `i` on, added to `acc`.
pub open spec fn sum_sizes(fields: Seq<FieldV>, i: nat, acc: nat, schema: SchemaV, fuel: nat) -> Option<
    Result<nat, ErrorView>,
>
    decreases fuel, 1nat, fields.len() - i,
{
    if i >= fields.len() {
        Some(Ok(acc))
    } else {
        match spec_type_size(fields[i as int].ty, schema, fuel) {
            Some(Ok(s)) => if acc + s > usize::MAX {
                None
            } else {
                sum_sizes(fields, i + 1, acc + s, schema, fuel)
            },
            o => o,
        }
    }
}

/// The encoding of a value of type `ty`. Nested structs are encoded by their
/// definition, with at most `fuel` levels of nesting.
pub open spec fn spec_encode_value(
    v: ValueV,
    ty: TypeV,
    endian: Endianness,
    schema: SchemaV,
    fuel: nat,
) -> Option<Result<Seq<u8>, ErrorView>>
    decreases fuel, 0nat, v, 1nat, 0int,
{
    match (v, ty) {
        (ValueV::Integer(n), _) if int_width(ty) is Some => Some(
            Ok(int_bytes((n as u128) as nat, int_width(ty)->0, endian)),
        ),
        (ValueV::Float(f), TypeV::F32) => match f.bits {
            Some(b) => Some(Ok(int_bytes(b.f32_bits as nat, 4, endian))),
            None => Some(Err(err_unresolved(f.literal))),
        },
        (ValueV::Float(f), TypeV::F64) => match f.bits {
            Some(b) => Some(Ok(int_bytes(b.f64_bits as nat, 8, endian))),
            None => Some(Err(err_unresolved(f.literal))),
        },
        (ValueV::Bool(b), TypeV::Bool) => Some(Ok(seq![if b { 1u8 } else { 0u8 }])),
        (ValueV::Str(s), TypeV::Str) => Some(
            Ok(length_prefix(schema, utf8_len(s)) + encode_utf8(s)),
        ),
        (ValueV::Bytes(b), TypeV::Bytes) => Some(Ok(length_prefix(schema, b.len()) + b)),
        (ValueV::Integer(n), TypeV::Bytes) => {
            let w = spec_integer_to_byte_len(n) as nat;
            Some(Ok(length_prefix(schema, w) + int_bytes((n as u128) as nat, w, endian)))
        },
        (ValueV::Array(items), TypeV::Vec(inner)) => match spec_encode_items(
            v,
            *inner,
            0,
            Seq::empty(),
            endian,
            schema,
            fuel,
        ) {
            Some(Ok(b)) => Some(Ok(length_prefix(schema, items.len()) + b)),
            o => o,
        },
        (ValueV::Array(items), TypeV::Array(inner, n)) => if items.len() != n {
            Some(
                Err(
                    err_numbers(
                        "encode"@,
                        "array size mismatch: expected "@,
                        n as nat,
                        ", got "@,
                        items.len(),
                        ""@,
                    ),
                ),
            )
        } else {
            spec_encode_items(v, *inner, 0, Seq::empty(), endian, schema, fuel)
        },
        (ValueV::Struct(name, pairs), TypeV::Custom(tname)) => if name != tname {
            Some(
                Err(
                    err_named2(
                        "encode"@,
                        "struct name mismatch: expected "@,
                        tname,
                        ", got "@,
                        name,
                        ""@,
                    ),
                ),
            )
        } else {
            match schema.lookup(tname) {
                None => Some(
                    Err(err_named("encode"@, "struct '"@, tname, "' not found in schema"@)),
                ),
                Some(def) => if fuel == 0 {
                    None
                } else {
                    spec_encode_struct_def(def, pairs, endian, schema, (fuel - 1) as nat)
                },
            }
        },
        _ => Some(Err(err_mismatch(v, ty))),
    }
}

/// `float literal 'L' has no resolved binary value`.
pub open spec fn err_unresolved(literal: Seq<char>) -> ErrorView {
    err_named("encode"@, "float literal '"@, literal, "' has no resolved binary value"@)
}

/// The encodings of the items of the array value `parent` from index `i` on,
/// appended to `acc`.
pub open spec fn spec_encode_items(
    parent: ValueV,
    inner: TypeV,
    i: nat,
    acc: Seq<u8>,
    endian: Endianness,
    schema: SchemaV,
    fuel: nat,
) -> Option<Result<Seq<u8>, ErrorView>>
    decreases fuel, 0nat, parent, 0nat, parent->Array_0.len() - i,
{
    match parent {
        ValueV::Array(items) => if i >= items.len() {
            Some(Ok(acc))
        } else {
            match spec_encode_value(items[i as int], inner, endian, schema, fuel) {
                Some(Ok(b)) => spec_encode_items(parent, inner, i + 1, acc + b, endian, schema, fuel),
                o => o,
            }
        },
        _ => Some(Ok(acc)),
    }
}

/// The state of the first pass over a struct's fields: the bytes so far, the
/// position and size of each field by name (the last entry winning), the index
/// of the last checksum field, the bit-field groups written, and the
/// `#[auto]` fields seen (absolute position, field, struct).
pub struct PassState {
    pub buf: Seq<u8>,
    pub offsets: Seq<(Seq<char>, nat, nat)>,
    pub checksum_idx: Option<nat>,
    pub groups: Seq<usize>,
    pub autos: Seq<(nat, FieldV, StructDefV)>,
}

/// The position and size recorded last for `name`.
pub open spec fn offset_of(offsets: Seq<(Seq<char>, nat, nat)>, name: Seq<char>) -> Option<
    (nat, nat),
>
    decreases offsets.len(),
{
    if offsets.len() == 0 {
        None
    } else if offsets.last().0 == name {
        Some((offsets.last().1, offsets.last().2))
    } else {
        offset_of(offsets.drop_last(), name)
    }
}

/// The empty first-pass state.
pub open spec fn empty_pass() -> PassState {
    PassState {
        buf: Seq::empty(),
        offsets: Seq::empty(),
        checksum_idx: None,
        groups: Seq::empty(),
        autos: Seq::empty(),
    }
}

/// The word holding the values of the bit-field group `key`, built from
/// `c` over the fields from index `j` on; `None` where a bit range cannot be
/// masked in 64 bits.
pub open spec fn group_word(
    fields: Seq<FieldV>,
    j: nat,
    key: usize,
    fv: Seq<(Seq<char>, ValueV)>,
    c: u64,
) -> Option<u64>
    decreases fields.len() - j,
{
    if j >= fields.len() {
        Some(c)
    } else if bit_key(fields[j as int]) != Some(key) {
        group_word(fields, j + 1, key, fv, c)
    } else {
        let gf = fields[j as int];
        match bits_attr(gf.attributes) {
            Some((s, e)) => match field_value(fv, gf) {
                Some(ValueV::Integer(val)) => if bit_range_ok(s, e) {
                    group_word(fields, j + 1, key, fv, spec_set_bits(c, val as u64, s, e))
                } else {
                    None
                },
                _ => group_word(fields, j + 1, key, fv, c),
            },
            None => {
                let p = bit_attr(gf.attributes)->0;
                match field_value(fv, gf) {
                    Some(ValueV::Bool(b)) => if bit_range_ok(p, p) {
                        group_word(
                            fields,
                            j + 1,
                            key,
                            fv,
                            spec_set_bits(c, if b { 1u64 } else { 0u64 }, p, p),
                        )
                    } else {
                        None
                    },
                    Some(ValueV::Integer(val)) => if bit_range_ok(p, p) {
                        group_word(fields, j + 1, key, fv, spec_set_bits(c, val as u64, p, p))
                    } else {
                        None
                    },
                    _ => group_word(fields, j + 1, key, fv, c),
                }
            },
        }
    }
}

/// Records position `start` and size `size` for each member of group `key`,
/// from index `j` on.
pub open spec fn group_offsets(
    fields: Seq<FieldV>,
    j: nat,
    key: usize,
    start: nat,
    size: nat,
    offsets: Seq<(Seq<char>, nat, nat)>,
) -> Seq<(Seq<char>, nat, nat)>
    decreases fields.len() - j,
{
    if j >= fields.len() {
        offsets
    } else if bit_key(fields[j as int]) == Some(key) {
        group_offsets(fields, j + 1, key, start, size, offsets.push((fields[j as int].name, start, size)))
    } else {
        group_offsets(fields, j + 1, key, start, size, offsets)
    }
}

/// The condition value of `#[if(c)]`: the own value of the first field named
/// `c`, else the binding of `c`.
pub open spec fn condition_value(fields: Seq<FieldV>, fv: Seq<(Seq<char>, ValueV)>, c: Seq<char>) -> Option<
    ValueV,
> {
    match find_field(fields, c) {
        Some(f) => match f.value {
            Some(v) => Some(v),
            None => binding(fv, c),
        },
        None => binding(fv, c),
    }
}

/// `st` with `bytes` appended as the encoding of the field named `name`.
pub open spec fn append_field(st: PassState, name: Seq<char>, bytes: Seq<u8>) -> PassState {
    PassState {
        buf: st.buf + bytes,
        offsets: st.offsets.push((name, st.buf.len(), bytes.len())),
        ..st
    }
}

/// `st` with `size` zero bytes reserved for the field named `name`.
pub open spec fn reserve_field(st: PassState, name: Seq<char>, size: nat) -> PassState {
    PassState {
        buf: st.buf + zeros(size),
        offsets: st.offsets.push((name, st.buf.len(), size)),
        ..st
    }
}

/// The outcome of an encoding that also reports the `#[auto]` fields it met.
pub type TrackedOutcome = Option<Result<(Seq<u8>, Seq<(nat, FieldV, StructDefV)>), ErrorView>>;

/// The encoding of a value, reporting the `#[auto]` fields of a struct value
/// (directly nested structs are encoded with their `#[auto]` fields tracked;
/// `base` is the absolute position of the value).
pub open spec fn spec_encode_value_tracked(
    v: ValueV,
    ty: TypeV,
    endian: Endianness,
    schema: SchemaV,
    base: nat,
    fuel: nat,
) -> TrackedOutcome
    decreases fuel, 0nat, v, 2nat, 0int,
{
    match (v, ty) {
        (ValueV::Struct(name, pairs), TypeV::Custom(tname)) => if name != tname {
            Some(
                Err(
                    err_named2(
                        "encode"@,
                        "struct name mismatch: expected "@,
                        tname,
                        ", got "@,
                        name,
                        ""@,
                    ),
                ),
            )
        } else {
            match schema.lookup(tname) {
                None => Some(
                    Err(err_named("encode"@, "struct '"@, tname, "' not found in schema"@)),
                ),
                Some(def) => if fuel == 0 {
                    None
                } else {
                    spec_encode_struct_tracked(def, pairs, endian, schema, base, (fuel - 1) as nat)
                },
            }
        },
        _ => match spec_encode_value(v, ty, endian, schema, fuel) {
            None => None,
            Some(Err(e)) => Some(Err(e)),
            Some(Ok(b)) => Some(Ok((b, Seq::empty()))),
        },
    }
}

/// The first pass over the fields of `def` from index `i` on: values are
/// encoded, and space is reserved for checksum, `#[auto]` and `#[len_ref]`
/// fields. With `tracking`, nested structs and `#[auto]` fields are tracked
/// at absolute positions from `base`.
pub open spec fn field_pass(
    def: StructDefV,
    fv: Seq<(Seq<char>, ValueV)>,
    endian: Endianness,
    schema: SchemaV,
    fuel: nat,
    tracking: bool,
    base: nat,
    i: nat,
    st: PassState,
) -> Option<Result<PassState, ErrorView>>
    decreases fuel, 1nat, ValueV::Bool(false), 1nat, def.fields.len() - i,
{
    if i >= def.fields.len() {
        Some(Ok(st))
    } else {
        match field_step(def, fv, endian, schema, fuel, tracking, base, i, st) {
            Some(Ok(t)) => field_pass(def, fv, endian, schema, fuel, tracking, base, i + 1, t),
            o => o,
        }
    }
}

/// One field of the first pass.
pub open spec fn field_step(
    def: StructDefV,
    fv: Seq<(Seq<char>, ValueV)>,
    endian: Endianness,
    schema: SchemaV,
    fuel: nat,
    tracking: bool,
    base: nat,
    i: nat,
    st: PassState,
) -> Option<Result<PassState, ErrorView>>
    decreases fuel, 1nat, ValueV::Bool(false), 0nat, 2int,
{
    if i >= def.fields.len() {
        Some(Ok(st))
    } else {
        let f = def.fields[i as int];
        let fe = field_endian(f.attributes, endian);
        if checksum_attr(f.attributes) is Some || has_auto(f.attributes)
            || len_ref_attr(f.attributes) is Some {
            match spec_type_size(f.ty, schema, fuel) {
                None => None,
                Some(Err(e)) => Some(Err(e)),
                Some(Ok(size)) => if st.buf.len() + size > usize::MAX || base + st.buf.len()
                    > usize::MAX {
                    None
                } else {
                    let r = reserve_field(st, f.name, size);
                    if checksum_attr(f.attributes) is Some {
                        Some(Ok(PassState { checksum_idx: Some(i), ..r }))
                    } else if has_auto(f.attributes) {
                        Some(Ok(PassState { autos: r.autos.push((base + st.buf.len(), f, def)), ..r }))
                    } else {
                        Some(Ok(r))
                    }
                },
            }
        } else if has_remaining(f.attributes) {
            Some(Ok(PassState { offsets: st.offsets.push((f.name, st.buf.len(), 0)), ..st }))
        } else if bit_key(f) is Some {
            let key = bit_key(f)->0;
            if st.groups.contains(key) {
                Some(Ok(st))
            } else {
                match group_word(def.fields, 0, key, fv, 0) {
                    None => None,
                    Some(c) => {
                        let size = (key / 8) as nat;
                        Some(
                            Ok(
                                PassState {
                                    buf: st.buf + int_bytes(c as nat, size, fe),
                                    offsets: group_offsets(
                                        def.fields,
                                        0,
                                        key,
                                        st.buf.len(),
                                        size,
                                        st.offsets,
                                    ),
                                    groups: st.groups.push(key),
                                    ..st
                                },
                            ),
                        )
                    },
                }
            }
        } else {
            match field_value(fv, f) {
                None => Some(Err(err_named("encode"@, "field '"@, f.name, "' has no value"@))),
                Some(v) => if if_attr(f.attributes) is Some {
                    let c = if_attr(f.attributes)->0;
                    match condition_value(def.fields, fv, c) {
                        Some(ValueV::Bool(true)) => encode_field(
                            v,
                            f,
                            fe,
                            schema,
                            fuel,
                            tracking,
                            base,
                            st,
                        ),
                        Some(ValueV::Bool(false)) => Some(Ok(st)),
                        Some(_) => Some(
                            Err(err_named("encode"@, "if condition field '"@, c, "' must be bool"@)),
                        ),
                        None => Some(
                            Err(
                                err_named(
                                    "encode"@,
                                    "if condition field '"@,
                                    c,
                                    "' not found or has no value"@,
                                ),
                            ),
                        ),
                    }
                } else {
                    encode_field(v, f, fe, schema, fuel, tracking, base, st)
                },
            }
        }
    }
}

/// Encodes the value `v` of field `f` and appends it.
pub open spec fn encode_field(
    v: ValueV,
    f: FieldV,
    fe: Endianness,
    schema: SchemaV,
    fuel: nat,
    tracking: bool,
    base: nat,
    st: PassState,
) -> Option<Result<PassState, ErrorView>>
    decreases fuel, 1nat, ValueV::Bool(false), 0nat, 1int,
{
    if tracking {
        if base + st.buf.len() > usize::MAX {
            None
        } else {
            encode_field_tracked(v, f, fe, schema, fuel, base, st)
        }
    } else {
        match spec_encode_value(v, f.ty, fe, schema, fuel) {
            None => None,
            Some(Err(e)) => Some(Err(e)),
            Some(Ok(b)) => Some(Ok(append_field(st, f.name, b))),
        }
    }
}

/// Encodes the value `v` of field `f` with nested `#[auto]` fields tracked,
/// and appends it.
pub open spec fn encode_field_tracked(
    v: ValueV,
    f: FieldV,
    fe: Endianness,
    schema: SchemaV,
    fuel: nat,
    base: nat,
    st: PassState,
) -> Option<Result<PassState, ErrorView>>
    decreases fuel, 1nat, ValueV::Bool(false), 0nat, 0int,
{
    {
        match spec_encode_value_tracked(v, f.ty, fe, schema, base + st.buf.len(), fuel) {
            None => None,
            Some(Err(e)) => Some(Err(e)),
            Some(Ok((b, autos))) => Some(
                Ok(PassState { autos: st.autos + autos, ..append_field(st, f.name, b) }),
            ),
        }
    }
}

/// The length a `#[len_ref]` field of a nested struct holds for the field it
/// references: the string bytes or bytes of a `#[remaining]` field, else the
/// number of items, bytes or string bytes of a `Vec`, `Bytes` or `String`
/// field, else one.
pub open spec fn ref_length(rf: FieldV, fv: Seq<(Seq<char>, ValueV)>) -> nat {
    let rv = field_value(fv, rf);
    if has_remaining(rf.attributes) {
        match rv {
            Some(ValueV::Bytes(b)) => b.len(),
            Some(ValueV::Str(s)) => utf8_len(s),
            _ => 0,
        }
    } else {
        match rf.ty {
            TypeV::Vec(_) => match rv {
                Some(ValueV::Array(a)) => a.len(),
                _ => 0,
            },
            TypeV::Bytes => match rv {
                Some(ValueV::Bytes(b)) => b.len(),
                _ => 0,
            },
            TypeV::Str => match rv {
                Some(ValueV::Str(s)) => utf8_len(s),
                _ => 0,
            },
            _ => 1,
        }
    }
}

/// The length pass of a nested struct, over the fields from index `j` on.
pub open spec fn def_len_pass(
    fields: Seq<FieldV>,
    fv: Seq<(Seq<char>, ValueV)>,
    endian: Endianness,
    offsets: Seq<(Seq<char>, nat, nat)>,
    j: nat,
    buf: Seq<u8>,
) -> Option<Result<Seq<u8>, ErrorView>>
    decreases fields.len() - j,
{
    if j >= fields.len() {
        Some(Ok(buf))
    } else {
        let f = fields[j as int];
        match (len_ref_attr(f.attributes), offset_of(offsets, f.name)) {
            (Some(r), Some((off, _))) => match find_field(fields, r) {
                None => Some(
                    Err(err_named("encode"@, "len_ref references unknown field '"@, r, "'"@)),
                ),
                Some(rf) => match uint_width(f.ty) {
                    None => Some(
                        Err(
                            err_named(
                                "encode"@,
                                "len_ref field '"@,
                                f.name,
                                "' must be an unsigned integer type"@,
                            ),
                        ),
                    ),
                    Some(w) => match write_at(
                        buf,
                        off,
                        w,
                        ref_length(rf, fv),
                        field_endian(f.attributes, endian),
                    ) {
                        None => None,
                        Some(b) => def_len_pass(fields, fv, endian, offsets, j + 1, b),
                    },
                },
            },
            _ => def_len_pass(fields, fv, endian, offsets, j + 1, buf),
        }
    }
}

/// The `#[remaining]` pass of a nested struct: the field's bytes are appended.
pub open spec fn def_remaining_pass(
    fields: Seq<FieldV>,
    fv: Seq<(Seq<char>, ValueV)>,
    offsets: Seq<(Seq<char>, nat, nat)>,
    j: nat,
    buf: Seq<u8>,
) -> Option<Result<Seq<u8>, ErrorView>>
    decreases fields.len() - j,
{
    if j >= fields.len() {
        Some(Ok(buf))
    } else {
        let f = fields[j as int];
        if has_remaining(f.attributes) && offset_of(offsets, f.name) is Some {
            let pos = offset_of(offsets, f.name)->0;
            let off = pos.0;
            match field_value(fv, f) {
                Some(ValueV::Bytes(b)) => if off != buf.len() {
                    Some(
                        Err(
                            err_named(
                                "encode"@,
                                "remaining field '"@,
                                f.name,
                                "' must be the last field"@,
                            ),
                        ),
                    )
                } else {
                    def_remaining_pass(fields, fv, offsets, j + 1, buf + b)
                },
                _ => Some(
                    Err(
                        err_named(
                            "encode"@,
                            "remaining field '"@,
                            f.name,
                            "' must be of Bytes type"@,
                        ),
                    ),
                ),
            }
        } else {
            def_remaining_pass(fields, fv, offsets, j + 1, buf)
        }
    }
}

/// The checksum pass of a nested struct: the checksum of the bytes before
/// the last checksum field is written into it.
pub open spec fn def_checksum_pass(
    def: StructDefV,
    endian: Endianness,
    checksum_idx: Option<nat>,
    offsets: Seq<(Seq<char>, nat, nat)>,
    buf: Seq<u8>,
) -> Option<Result<Seq<u8>, ErrorView>> {
    match checksum_idx {
        None => Some(Ok(buf)),
        Some(idx) => {
            let f = def.fields[idx as int];
            match (checksum_attr(f.attributes), offset_of(offsets, f.name)) {
                (Some(alg), Some((off, _))) => match uint_width(f.ty) {
                    None => Some(
                        Err(
                            err_named(
                                "encode"@,
                                "checksum field '"@,
                                f.name,
                                "' must be an unsigned integer type"@,
                            ),
                        ),
                    ),
                    Some(w) => if off > buf.len() {
                        None
                    } else {
                        match write_at(
                            buf,
                            off,
                            w,
                            spec_checksum(buf.subrange(0, off as int), alg) as nat,
                            field_endian(f.attributes, endian),
                        ) {
                            None => None,
                            Some(b) => Some(Ok(b)),
                        }
                    },
                },
                _ => Some(Ok(buf)),
            }
        },
    }
}

/// A struct nested in a value, encoded by its definition: the first pass,
/// then lengths, `#[remaining]` bytes, its `#[auto]` fields (the total being
/// its own size) and the checksum.
pub open spec fn spec_encode_struct_def(
    def: StructDefV,
    fv: Seq<(Seq<char>, ValueV)>,
    endian: Endianness,
    schema: SchemaV,
    fuel: nat,
) -> Option<Result<Seq<u8>, ErrorView>>
    decreases fuel, 2nat, ValueV::Bool(false), 0nat, 0int,
{
    match field_pass(def, fv, endian, schema, fuel, false, 0, 0, empty_pass()) {
        None => None,
        Some(Err(e)) => Some(Err(e)),
        Some(Ok(st)) => match def_len_pass(def.fields, fv, endian, st.offsets, 0, st.buf) {
            Some(Ok(b1)) => match def_remaining_pass(def.fields, fv, st.offsets, 0, b1) {
                Some(Ok(b2)) => match fill_autos(b2, st.autos, 0, endian, b2.len(), fv) {
                    Some(Ok(b3)) => def_checksum_pass(def, endian, st.checksum_idx, st.offsets, b3),
                    o => o,
                },
                o => o,
            },
            o => o,
        },
    }
}

/// The length a `#[len_ref]` field of a tracked struct holds: the length of
/// the binding of the referenced field, else of its own value, else zero.
pub open spec fn tracked_ref_length(
    fields: Seq<FieldV>,
    fv: Seq<(Seq<char>, ValueV)>,
    r: Seq<char>,
) -> nat {
    match binding(fv, r) {
        Some(v) => match value_length(v) {
            Some(n) => n,
            None => 0,
        },
        None => match find_field(fields, r) {
            Some(rf) => match rf.value {
                Some(v) => match value_length(v) {
                    Some(n) => n,
                    None => 0,
                },
                None => 0,
            },
            None => 0,
        },
    }
}

/// The length pass of a tracked struct; fields of other than unsigned types
/// are left as they are.
pub open spec fn tracked_len_pass(
    fields: Seq<FieldV>,
    fv: Seq<(Seq<char>, ValueV)>,
    endian: Endianness,
    offsets: Seq<(Seq<char>, nat, nat)>,
    j: nat,
    buf: Seq<u8>,
) -> Option<Seq<u8>>
    decreases fields.len() - j,
{
    if j >= fields.len() {
        Some(buf)
    } else {
        let f = fields[j as int];
        match (len_ref_attr(f.attributes), offset_of(offsets, f.name), uint_width(f.ty)) {
            (Some(r), Some((off, _)), Some(w)) => match write_at(
                buf,
                off,
                w,
                tracked_ref_length(fields, fv, r),
                field_endian(f.attributes, endian),
            ) {
                None => None,
                Some(b) => tracked_len_pass(fields, fv, endian, offsets, j + 1, b),
            },
            _ => tracked_len_pass(fields, fv, endian, offsets, j + 1, buf),
        }
    }
}

/// The checksum pass of a tracked struct: the checksum of the bytes before
/// the last checksum field is written into it, when it is an unsigned type.
pub open spec fn tracked_checksum_pass(
    def: StructDefV,
    endian: Endianness,
    checksum_idx: Option<nat>,
    offsets: Seq<(Seq<char>, nat, nat)>,
    buf: Seq<u8>,
) -> Option<Seq<u8>> {
    match checksum_idx {
        None => Some(buf),
        Some(idx) => {
            let f = def.fields[idx as int];
            match (offset_of(offsets, f.name), checksum_attr(f.attributes)) {
                (Some((off, _)), Some(alg)) => if off > buf.len() {
                    None
                } else {
                    let c = spec_checksum(buf.subrange(0, off as int), alg) as nat;
                    match f.ty {
                        TypeV::U8 => write_at(buf, off, 1, c, field_endian(f.attributes, endian)),
                        TypeV::U16 => write_at(buf, off, 2, c, field_endian(f.attributes, endian)),
                        TypeV::U32 => write_at(buf, off, 4, c, field_endian(f.attributes, endian)),
                        TypeV::U64 => write_at(buf, off, 8, c, field_endian(f.attributes, endian)),
                        _ => Some(buf),
                    }
                },
                _ => Some(buf),
            }
        },
    }
}

/// A struct encoded with its `#[auto]` fields tracked: the first pass, then
/// lengths and the checksum.
pub open spec fn spec_encode_struct_tracked(
    def: StructDefV,
    fv: Seq<(Seq<char>, ValueV)>,
    endian: Endianness,
    schema: SchemaV,
    base: nat,
    fuel: nat,
) -> TrackedOutcome
    decreases fuel, 2nat, ValueV::Bool(false), 0nat, 0int,
{
    match field_pass(def, fv, endian, schema, fuel, true, base, 0, empty_pass()) {
        None => None,
        Some(Err(e)) => Some(Err(e)),
        Some(Ok(st)) => match tracked_len_pass(def.fields, fv, endian, st.offsets, 0, st.buf) {
            None => None,
            Some(b1) => match tracked_checksum_pass(def, endian, st.checksum_idx, st.offsets, b1) {
                None => None,
                Some(b2) => Some(Ok((b2, st.autos))),
            },
        },
    }
}

/// The length an `#[auto(..)]` field takes from a value: items, bytes or
/// string bytes; the byte count of a hexadecimal integer given to a `Bytes`
/// field; else one.
pub open spec fn auto_value_length(v: ValueV, rf: Option<FieldV>) -> nat {
    match v {
        ValueV::Array(a) => a.len(),
        ValueV::Bytes(b) => b.len(),
        ValueV::Str(s) => utf8_len(s),
        ValueV::Integer(n) => if rf matches Some(f) && f.ty == TypeV::Bytes {
            spec_integer_to_byte_len(n) as nat
        } else {
            1
        },
        _ => 1,
    }
}

/// The value of an `#[auto]` field: the total size for `#[auto]`, the length
/// of the referenced field's value for `#[auto(field)]`.
pub open spec fn auto_length(
    target: Option<Seq<char>>,
    sdef: StructDefV,
    fv: Seq<(Seq<char>, ValueV)>,
    total: nat,
) -> nat {
    match target {
        None => total,
        Some(r) => {
            let rf = find_field(sdef.fields, r);
            match binding(fv, r) {
                Some(v) => auto_value_length(v, rf),
                None => match rf {
                    Some(f) => match f.value {
                        Some(v) => auto_value_length(v, rf),
                        None => 0,
                    },
                    None => 0,
                },
            }
        },
    }
}

/// Fills the `#[auto]` fields from index `k` on.
pub open spec fn fill_autos(
    buf: Seq<u8>,
    autos: Seq<(nat, FieldV, StructDefV)>,
    k: nat,
    endian: Endianness,
    total: nat,
    fv: Seq<(Seq<char>, ValueV)>,
) -> Option<Result<Seq<u8>, ErrorView>>
    decreases autos.len() - k,
{
    if k >= autos.len() {
        Some(Ok(buf))
    } else {
        let (off, f, sdef) = autos[k as int];
        match crate::attrs::auto_attr(f.attributes) {
            None => Some(Err(err_fixed("encode"@, "auto attribute not found"@))),
            Some(target) => match uint_width(f.ty) {
                None => Some(
                    Err(
                        err_named(
                            "encode"@,
                            "auto field '"@,
                            f.name,
                            "' must be an unsigned integer type"@,
                        ),
                    ),
                ),
                Some(w) => match write_at(
                    buf,
                    off,
                    w,
                    auto_length(target, sdef, fv, total),
                    field_endian(f.attributes, endian),
                ) {
                    None => None,
                    Some(b) => fill_autos(b, autos, k + 1, endian, total, fv),
                },
            },
        }
    }
}

/// Encoding a top-level struct: the first pass with `#[auto]` fields
/// tracked, the lengths, the `#[auto]` fields filled in, then the checksum
/// over the bytes as sent.
pub open spec fn spec_encode_top(
    def: StructDefV,
    fv: Seq<(Seq<char>, ValueV)>,
    endian: Endianness,
    schema: SchemaV,
    fuel: nat,
) -> Option<Result<Seq<u8>, ErrorView>> {
    match field_pass(def, fv, endian, schema, fuel, true, 0, 0, empty_pass()) {
        None => None,
        Some(Err(e)) => Some(Err(e)),
        Some(Ok(st)) => match tracked_len_pass(def.fields, fv, endian, st.offsets, 0, st.buf) {
            None => None,
            Some(b1) => match fill_autos(b1, st.autos, 0, endian, b1.len(), fv) {
                Some(Ok(b2)) => match tracked_checksum_pass(def, endian, st.checksum_idx, st.offsets, b2) {
                    None => None,
                    Some(b3) => Some(Ok(b3)),
                },
                o => o,
            },
        },
    }
}

/// Encoding the `#[send]` struct `def`: its fields with their own values, in
/// the struct's byte order (else `default_endian`), the `#[auto]` fields
/// filled in, then the checksum.
pub open spec fn spec_encode(
    def: StructDefV,
    schema: SchemaV,
    default_endian: Endianness,
    fuel: nat,
) -> Option<Result<Seq<u8>, ErrorView>> {
    if def.direction != Some(Direction::Send) {
        Some(Err(err_named("encode"@, "struct '"@, def.name, "' is not a send type"@)))
    } else {
        let fv = own_bindings(def.fields);
        let endian = match def.endian {
            Some(e) => e,
            None => default_endian,
        };
        spec_encode_top(def, fv, endian, schema, fuel)
    }
}

} // verus!

verus! {

/// The value bound to `name` by a list of bindings, the last binding winning.
pub fn lookup_binding<'a>(fv: &'a Vec<(String, Value)>, name: &str) -> (r: Option<&'a Value>)
    ensures
        match binding(named_values_view(fv@), name@) {
            Some(v) => r matches Some(x) && x@ == v,
            None => r is None,
        },
{
    let ghost nv = named_values_view(fv@);
    proof {
        lemma_named_values_view(fv@);
        assert(nv.take(nv.len() as int) == nv);
    }
    let mut i: usize = fv.len();
    while i > 0
        invariant
            i <= fv@.len(),
            nv == named_values_view(fv@),
            nv.len() == fv@.len(),
            forall|j: int| 0 <= j < fv@.len() ==> #[trigger] nv[j] == (fv@[j].0@, fv@[j].1@),
            binding(nv, name@) == binding(nv.take(i as int), name@),
        decreases i,
    {
        proof {
            assert(nv.take(i as int).drop_last() == nv.take(i - 1));
            assert(nv.take(i as int).last() == nv[i - 1]);
        }
        i = i - 1;
        if str_eq(fv[i].0.as_str(), name) {
            return Some(&fv[i].1);
        }
    }
    None
}

/// The value of field `f`: its binding, else its own value.
pub fn lookup_field_value<'a>(fv: &'a Vec<(String, Value)>, f: &'a Field) -> (r: Option<&'a Value>)
    ensures
        match field_value(named_values_view(fv@), f@) {
            Some(v) => r matches Some(x) && x@ == v,
            None => r is None,
        },
{
    match lookup_binding(fv, f.name.as_str()) {
        Some(v) => Some(v),
        None => match &f.value {
            Some(v) => Some(v),
            None => None,
        },
    }
}

/// The first field named `name`.
pub fn lookup_field<'a>(fields: &'a Vec<Field>, name: &str) -> (r: Option<&'a Field>)
    ensures
        match find_field(fields_view(fields@), name@) {
            Some(f) => r matches Some(x) && x@ == f,
            None => r is None,
        },
{
    let ghost fv = fields_view(fields@);
    proof {
        assert(fv.skip(0) == fv);
    }
    let mut i: usize = 0;
    while i < fields.len()
        invariant
            i <= fields@.len(),
            fv == fields_view(fields@),
            find_field(fv, name@) == find_field(fv.skip(i as int), name@),
        decreases fields@.len() - i,
    {
        proof {
            assert(fv.skip(i as int).drop_first() == fv.skip(i + 1));
            assert(fv.skip(i as int)[0] == fields@[i as int]@);
        }
        if str_eq(fields[i].name.as_str(), name) {
            return Some(&fields[i]);
        }
        i = i + 1;
    }
    None
}

/// The views of a table of field positions.
pub open spec fn offsets_view(t: Seq<(String, usize, usize)>) -> Seq<(Seq<char>, nat, nat)> {
    t.map_values(|e: (String, usize, usize)| (e.0@, e.1 as nat, e.2 as nat))
}

/// The position and size recorded last for `name`.
pub fn lookup_offset(t: &Vec<(String, usize, usize)>, name: &str) -> (r: Option<(usize, usize)>)
    ensures
        match offset_of(offsets_view(t@), name@) {
            Some((o, s)) => r matches Some((a, b)) && a as nat == o && b as nat == s,
            None => r is None,
        },
{
    let ghost ov = offsets_view(t@);
    proof {
        assert(ov.take(ov.len() as int) == ov);
    }
    let mut i: usize = t.len();
    while i > 0
        invariant
            i <= t@.len(),
            ov == offsets_view(t@),
            offset_of(ov, name@) == offset_of(ov.take(i as int), name@),
        decreases i,
    {
        proof {
            assert(ov.take(i as int).drop_last() == ov.take(i - 1));
            assert(ov.take(i as int).last() == ov[i - 1]);
        }
        i = i - 1;
        if str_eq(t[i].0.as_str(), name) {
            return Some((t[i].1, t[i].2));
        }
    }
    None
}

/// Whether `groups` holds `key`.
pub fn groups_contain(groups: &Vec<usize>, key: usize) -> (r: bool)
    ensures
        r == groups@.contains(key),
{
    let mut i: usize = 0;
    while i < groups.len()
        invariant
            i <= groups@.len(),
            forall|j: int| 0 <= j < i ==> groups@[j] != key,
        decreases groups@.len() - i,
    {
        if groups[i] == key {
            return true;
        }
        i = i + 1;
    }
    false
}

/// Writes the low `w` bytes of `x` at `off`.
pub fn write_at_exec(buf: &mut Vec<u8>, off: usize, w: usize, x: u128, endian: Endianness)
    requires
        w <= 16,
        off + w <= old(buf)@.len(),
    ensures
        write_at(old(buf)@, off as nat, w as nat, x as nat, endian) == Some(final(buf)@),
{
    let mut bytes: Vec<u8> = Vec::new();
    write_int(&mut bytes, x, w, endian);
    proof {
        lemma_int_bytes_len(x as nat, w as nat, endian);
    }
    let ghost target = splice(old(buf)@, off as nat, bytes@);
    let mut k: usize = 0;
    while k < w
        invariant
            k <= w,
            off + w <= buf@.len(),
            bytes@.len() == w,
            buf@.len() == old(buf)@.len(),
            target == splice(old(buf)@, off as nat, bytes@),
            forall|j: int| 0 <= j < off ==> buf@[j] == old(buf)@[j],
            forall|j: int| off + w <= j < buf@.len() ==> buf@[j] == old(buf)@[j],
            forall|j: int| off <= j < off + k ==> buf@[j] == bytes@[j - off],
        decreases w - k,
    {
        proof {
            assert(buf@.len() == buf.len());
        }
        buf.set(off + k, bytes[k]);
        k = k + 1;
    }
    proof {
        assert(buf@ =~= target);
    }
}

/// Byte width of an unsigned type that can hold a length or checksum.
pub fn uint_width_of(ty: &Type) -> (r: Option<usize>)
    ensures
        match uint_width(ty@) {
            Some(w) => r == Some(w as usize),
            None => r is None,
        },
{
    match ty {
        Type::U8 => Some(1),
        Type::U16 => Some(2),
        Type::U32 => Some(4),
        Type::U64 => Some(8),
        _ => None,
    }
}

/// Byte width of an integer type.
pub fn int_width_of(ty: &Type) -> (r: Option<usize>)
    ensures
        match int_width(ty@) {
            Some(w) => r == Some(w as usize),
            None => r is None,
        },
{
    match ty {
        Type::U8 | Type::I8 => Some(1),
        Type::U16 | Type::I16 => Some(2),
        Type::U32 | Type::I32 => Some(4),
        Type::U64 | Type::I64 => Some(8),
        Type::U128 | Type::I128 => Some(16),
        _ => None,
    }
}

/// The number of bytes a hexadecimal integer takes as a `Bytes` value.
pub fn integer_to_byte_len(n: i128) -> (r: u64)
    ensures
        r == spec_integer_to_byte_len(n),
{
    if n <= 0xff {
        1
    } else if n <= 0xffff {
        2
    } else if n <= 0xffff_ffff {
        4
    } else if n <= 0xffff_ffff_ffff_ffff {
        8
    } else {
        16
    }
}

} // verus!

verus! {

/// The text form of a type as a `String`.
pub fn type_text_string(ty: &Type) -> (s: String)
    ensures
        s@ == type_text(ty@),
{
    let mut buf: Vec<char> = Vec::new();
    push_type_text(&mut buf, ty);
    proof {
        assert(buf@ =~= type_text(ty@));
    }
    chars_to_string(buf.as_slice())
}

/// The text form of a value as a `String`.
pub fn value_text_string(v: &Value) -> (s: String)
    ensures
        s@ == value_text(v@),
{
    let mut buf: Vec<char> = Vec::new();
    push_value_text(&mut buf, v);
    proof {
        assert(buf@ =~= value_text(v@));
    }
    chars_to_string(buf.as_slice())
}

fn make_err_dynamic(ty: &Type) -> (e: CoreError)
    ensures
        e@ == err_dynamic(ty@),
{
    let t = type_text_string(ty);
    make_err_named("encode", "type ", &t, " has dynamic size")
}

fn make_err_mismatch(v: &Value, ty: &Type) -> (e: CoreError)
    ensures
        e@ == err_mismatch(v@, ty@),
{
    let a = value_text_string(v);
    let b = type_text_string(ty);
    make_err_named2("encode", "value ", &a, " does not match type ", &b, "")
}

/// The fixed byte size of a type.
pub fn type_size(ty: &Type, schema: &Schema, Ghost(fuel): Ghost<nat>) -> (r: Result<usize, CoreError>)
    requires
        spec_type_size(ty@, schema@, fuel) is Some,
    ensures
        spec_type_size(ty@, schema@, fuel) == Some(
            match r {
                Ok(n) => Ok::<nat, ErrorView>(n as nat),
                Err(e) => Err(e@),
            },
        ),
    decreases fuel, type_depth(ty@),
{
    match scalar_width(ty) {
        Some(w) => {
            return Ok(w);
        },
        None => {},
    }
    match ty {
        Type::Array(inner, n) => {
            match type_size(inner, schema, Ghost(fuel)) {
                Err(e) => Err(e),
                Ok(s) => {
                    proof {
                        assert(s * *n <= usize::MAX);
                    }
                    Ok(s * *n)
                },
            }
        },
        Type::Custom(name) => {
            match schema.get_struct(name.as_str()) {
                None => Err(make_err_named("encode", "struct '", name, "' not found in schema")),
                Some(def) => {
                    let ghost f = (fuel - 1) as nat;
                    let ghost fields = def@.fields;
                    let mut acc: usize = 0;
                    let mut i: usize = 0;
                    while i < def.fields.len()
                        invariant
                            fuel > 0,
                            f == fuel - 1,
                            fields == def@.fields,
                            fields.len() == def.fields@.len(),
                            i <= fields.len(),
                            spec_type_size(ty@, schema@, fuel) == sum_sizes(
                                fields,
                                0,
                                0,
                                schema@,
                                f,
                            ),
                            sum_sizes(fields, 0, 0, schema@, f) == sum_sizes(
                                fields,
                                i as nat,
                                acc as nat,
                                schema@,
                                f,
                            ),
                            sum_sizes(fields, 0, 0, schema@, f) is Some,
                        decreases fields.len() - i,
                    {
                        proof {
                            assert(fields[i as int] == def.fields@[i as int]@);
                        }
                        match type_size(&def.fields[i].ty, schema, Ghost(f)) {
                            Err(e) => {
                                return Err(e);
                            },
                            Ok(s) => {
                                acc = acc + s;
                            },
                        }
                        i = i + 1;
                    }
                    Ok(acc)
                },
            }
        },
        _ => Err(make_err_dynamic(ty)),
    }
}

} // verus!

verus! {

/// Progress of the first pass over a struct's fields.
pub struct PassProgress<'a> {
    pub buf: Vec<u8>,
    pub offsets: Vec<(String, usize, usize)>,
    pub checksum_idx: Option<usize>,
    pub groups: Vec<usize>,
    pub autos: Vec<(usize, &'a Field, &'a StructDef)>,
}

/// The views of a list of tracked `#[auto]` fields.
pub open spec fn autos_view(a: Seq<(usize, &Field, &StructDef)>) -> Seq<(nat, FieldV, StructDefV)> {
    a.map_values(|e: (usize, &Field, &StructDef)| (e.0 as nat, e.1@, e.2@))
}

impl<'a> View for PassProgress<'a> {
    type V = PassState;

    open spec fn view(&self) -> PassState {
        PassState {
            buf: self.buf@,
            offsets: offsets_view(self.offsets@),
            checksum_idx: match self.checksum_idx {
                Some(i) => Some(i as nat),
                None => None,
            },
            groups: self.groups@,
            autos: autos_view(self.autos@),
        }
    }
}

/// The outcome of a pass step, seen from its result and the progress after it.
pub open spec fn pass_view(r: Result<(), CoreError>, after: PassState) -> Result<PassState, ErrorView> {
    match r {
        Ok(()) => Ok(after),
        Err(e) => Err(e@),
    }
}

proof fn lemma_offsets_push(t: Seq<(String, usize, usize)>, e: (String, usize, usize))
    ensures
        offsets_view(t.push(e)) == offsets_view(t).push((e.0@, e.1 as nat, e.2 as nat)),
{
    assert(offsets_view(t.push(e)) =~= offsets_view(t).push((e.0@, e.1 as nat, e.2 as nat)));
}

proof fn lemma_autos_push<'a>(
    t: Seq<(usize, &'a Field, &'a StructDef)>,
    e: (usize, &'a Field, &'a StructDef),
)
    ensures
        autos_view(t.push(e)) == autos_view(t).push((e.0 as nat, e.1@, e.2@)),
{
    assert(autos_view(t.push(e)) =~= autos_view(t).push((e.0 as nat, e.1@, e.2@)));
}

proof fn lemma_autos_append<'a>(
    t: Seq<(usize, &'a Field, &'a StructDef)>,
    u: Seq<(usize, &'a Field, &'a StructDef)>,
)
    ensures
        autos_view(t + u) == autos_view(t) + autos_view(u),
{
    assert(autos_view(t + u) =~= autos_view(t) + autos_view(u));
}

/// Appends the bytes of `src` to `buf`.
pub fn append_bytes(buf: &mut Vec<u8>, src: &[u8])
    ensures
        final(buf)@ == old(buf)@ + src@,
{
    let mut i: usize = 0;
    while i < src.len()
        invariant
            i <= src@.len(),
            buf@ == old(buf)@ + src@.subrange(0, i as int),
        decreases src@.len() - i,
    {
        buf.push(src[i]);
        i = i + 1;
        proof {
            assert(src@.subrange(0, i as int) == src@.subrange(0, i - 1) + seq![src@[i - 1]]);
        }
    }
    proof {
        assert(src@.subrange(0, src@.len() as int) == src@);
    }
}

/// Appends the length prefix of `n` when prefixes are enabled.
fn push_length_prefix(buf: &mut Vec<u8>, schema: &Schema, n: usize)
    ensures
        final(buf)@ == old(buf)@ + length_prefix(schema@, n as nat),
{
    if schema.is_prefix_enabled() {
        write_int(buf, n as u128, 4, Endianness::Big);
    } else {
        proof {
            assert(old(buf)@ + length_prefix(schema@, n as nat) =~= old(buf)@);
        }
    }
}

/// Encoding `v` as `ty` writes items one by one (a list value for a `Vec`,
/// or for an array of its length), so that an item's error comes after
/// bytes were written; every other error comes before any.
pub open spec fn writes_items(v: ValueV, ty: TypeV) -> bool {
    match (v, ty) {
        (ValueV::Array(_), TypeV::Vec(_)) => true,
        (ValueV::Array(items), TypeV::Array(_, n)) => items.len() == n,
        _ => false,
    }
}

/// The view of an encoding result that appends to a buffer.
pub open spec fn appended(r: Result<(), CoreError>, before: Seq<u8>, after: Seq<u8>, o: Option<
    Result<Seq<u8>, ErrorView>,
>) -> bool {
    match o {
        Some(Ok(b)) => r is Ok && after == before + b,
        Some(Err(e)) => r matches Err(x) && x@ == e,
        None => false,
    }
}

} // verus!

verus! {

/// Appends `n` zero bytes.
fn push_zeros(buf: &mut Vec<u8>, n: usize)
    ensures
        final(buf)@ == old(buf)@ + zeros(n as nat),
{
    let mut k: usize = 0;
    while k < n
        invariant
            k <= n,
            buf@ == old(buf)@ + zeros(k as nat),
        decreases n - k,
    {
        buf.push(0u8);
        proof {
            assert(zeros((k + 1) as nat) == zeros(k as nat).push(0u8));
        }
        k = k + 1;
    }
}

/// The word holding the values of the bit-field group `key`.
fn group_word_exec(fields: &Vec<Field>, key: usize, fv: &Vec<(String, Value)>) -> (r: u64)
    requires
        group_word(fields_view(fields@), 0, key, named_values_view(fv@), 0) is Some,
    ensures
        group_word(fields_view(fields@), 0, key, named_values_view(fv@), 0) == Some(r),
{
    let ghost fs = fields_view(fields@);
    let ghost nv = named_values_view(fv@);
    let mut c: u64 = 0;
    let mut j: usize = 0;
    while j < fields.len()
        invariant
            j <= fields@.len(),
            fs == fields_view(fields@),
            nv == named_values_view(fv@),
            group_word(fs, 0, key, nv, 0) == group_word(fs, j as nat, key, nv, c),
            group_word(fs, 0, key, nv, 0) is Some,
        decreases fields@.len() - j,
    {
        let gf = &fields[j];
        proof {
            assert(fs[j as int] == gf@);
        }
        let member = match field_bit_key(gf) {
            Some(k) => k == key,
            None => false,
        };
        if member {
            match get_bits_attribute(&gf.attributes) {
                Some((s, e)) => {
                    match lookup_field_value(fv, gf) {
                        Some(Value::Integer(val)) => {
                            c = set_bits(c, *val as u64, s, e);
                        },
                        _ => {},
                    }
                },
                None => {
                    let p = get_bit_attribute(&gf.attributes).unwrap();
                    match lookup_field_value(fv, gf) {
                        Some(Value::Bool(b)) => {
                            c = set_bits(c, if *b { 1u64 } else { 0u64 }, p, p);
                        },
                        Some(Value::Integer(val)) => {
                            c = set_bits(c, *val as u64, p, p);
                        },
                        _ => {},
                    }
                },
            }
        }
        j = j + 1;
    }
    c
}

/// Records position `start` and size `size` for each member of group `key`.
fn push_group_offsets(
    fields: &Vec<Field>,
    key: usize,
    start: usize,
    size: usize,
    offsets: &mut Vec<(String, usize, usize)>,
)
    ensures
        offsets_view(final(offsets)@) == group_offsets(
            fields_view(fields@),
            0,
            key,
            start as nat,
            size as nat,
            offsets_view(old(offsets)@),
        ),
{
    let ghost fs = fields_view(fields@);
    let mut j: usize = 0;
    while j < fields.len()
        invariant
            j <= fields@.len(),
            fs == fields_view(fields@),
            group_offsets(fs, 0, key, start as nat, size as nat, offsets_view(old(offsets)@))
                == group_offsets(fs, j as nat, key, start as nat, size as nat, offsets_view(offsets@)),
        decreases fields@.len() - j,
    {
        let gf = &fields[j];
        proof {
            assert(fs[j as int] == gf@);
        }
        let member = match field_bit_key(gf) {
            Some(k) => k == key,
            None => false,
        };
        if member {
            proof {
                lemma_offsets_push(offsets@, (gf.name, start, size));
            }
            offsets.push((gf.name.clone(), start, size));
        }
        j = j + 1;
    }
}

/// The condition value of `#[if(c)]`.
fn lookup_condition<'a>(fields: &'a Vec<Field>, fv: &'a Vec<(String, Value)>, c: &str) -> (r: Option<
    &'a Value,
>)
    ensures
        match condition_value(fields_view(fields@), named_values_view(fv@), c@) {
            Some(v) => r matches Some(x) && x@ == v,
            None => r is None,
        },
{
    match lookup_field(fields, c) {
        Some(f) => match &f.value {
            Some(v) => Some(v),
            None => lookup_binding(fv, c),
        },
        None => lookup_binding(fv, c),
    }
}

/// The byte count of the text of a string.
fn string_byte_len(s: &String) -> (r: usize)
    ensures
        r == utf8_len(s@),
{
    s.as_str().as_bytes().len()
}

/// The length of a value for `#[auto]`/`#[len_ref]`, if it has one.
fn value_length_exec(v: &Value) -> (r: Option<usize>)
    ensures
        match value_length(v@) {
            Some(n) => r matches Some(x) && x as nat == n,
            None => r is None,
        },
{
    match v {
        Value::Array(a) => {
            proof {
                lemma_values_view(a@);
            }
            Some(a.len())
        },
        Value::Bytes(b) => Some(b.len()),
        Value::String(s) => Some(string_byte_len(s)),
        _ => None,
    }
}

/// The length a `#[len_ref]` field of a nested struct holds for `rf`.
fn ref_length_exec(rf: &Field, fv: &Vec<(String, Value)>) -> (r: usize)
    ensures
        r == ref_length(rf@, named_values_view(fv@)),
{
    let rv = lookup_field_value(fv, rf);
    if has_remaining_attribute(&rf.attributes) {
        match rv {
            Some(Value::Bytes(b)) => b.len(),
            Some(Value::String(s)) => string_byte_len(s),
            _ => 0,
        }
    } else {
        match &rf.ty {
            Type::Vec(_) => match rv {
                Some(Value::Array(a)) => {
                    proof {
                        lemma_values_view(a@);
                    }
                    a.len()
                },
                _ => 0,
            },
            Type::Bytes => match rv {
                Some(Value::Bytes(b)) => b.len(),
                _ => 0,
            },
            Type::String => match rv {
                Some(Value::String(s)) => string_byte_len(s),
                _ => 0,
            },
            _ => 1,
        }
    }
}

/// The length a `#[len_ref(r)]` field of a tracked struct holds.
fn tracked_ref_length_exec(fields: &Vec<Field>, fv: &Vec<(String, Value)>, r: &str) -> (n: usize)
    ensures
        n == tracked_ref_length(fields_view(fields@), named_values_view(fv@), r@),
{
    match lookup_binding(fv, r) {
        Some(v) => match value_length_exec(v) {
            Some(n) => n,
            None => 0,
        },
        None => match lookup_field(fields, r) {
            Some(rf) => match &rf.value {
                Some(v) => match value_length_exec(v) {
                    Some(n) => n,
                    None => 0,
                },
                None => 0,
            },
            None => 0,
        },
    }
}

} // verus!

verus! {

/// The view of a pass over a buffer.
pub open spec fn buf_view(r: Result<(), CoreError>, after: Seq<u8>) -> Result<Seq<u8>, ErrorView> {
    match r {
        Ok(()) => Ok(after),
        Err(e) => Err(e@),
    }
}

/// The length pass of a nested struct.
fn def_len_pass_exec(
    fields: &Vec<Field>,
    fv: &Vec<(String, Value)>,
    endian: Endianness,
    offsets: &Vec<(String, usize, usize)>,
    buf: &mut Vec<u8>,
) -> (r: Result<(), CoreError>)
    requires
        def_len_pass(
            fields_view(fields@),
            named_values_view(fv@),
            endian,
            offsets_view(offsets@),
            0,
            old(buf)@,
        ) is Some,
    ensures
        def_len_pass(
            fields_view(fields@),
            named_values_view(fv@),
            endian,
            offsets_view(offsets@),
            0,
            old(buf)@,
        ) == Some(buf_view(r, final(buf)@)),
{
    let ghost fs = fields_view(fields@);
    let ghost nv = named_values_view(fv@);
    let ghost ov = offsets_view(offsets@);
    let mut j: usize = 0;
    while j < fields.len()
        invariant
            j <= fields@.len(),
            fs == fields_view(fields@),
            nv == named_values_view(fv@),
            ov == offsets_view(offsets@),
            def_len_pass(fs, nv, endian, ov, 0, old(buf)@) == def_len_pass(
                fs,
                nv,
                endian,
                ov,
                j as nat,
                buf@,
            ),
            def_len_pass(fs, nv, endian, ov, 0, old(buf)@) is Some,
        decreases fields@.len() - j,
    {
        let f = &fields[j];
        proof {
            assert(fs[j as int] == f@);
        }
        match get_len_ref_attribute(&f.attributes) {
            Some(r) => match lookup_offset(offsets, f.name.as_str()) {
                Some((off, _size)) => {
                    let rf = match lookup_field(fields, r.as_str()) {
                        None => {
                            return Err(
                                make_err_named("encode", "len_ref references unknown field '", r, "'"),
                            );
                        },
                        Some(rf) => rf,
                    };
                    let w = match uint_width_of(&f.ty) {
                        None => {
                            return Err(
                                make_err_named(
                                    "encode",
                                    "len_ref field '",
                                    &f.name,
                                    "' must be an unsigned integer type",
                                ),
                            );
                        },
                        Some(w) => w,
                    };
                    let len = ref_length_exec(rf, fv);
                    let fe = get_field_endian(&f.attributes, endian);
                    write_at_exec(buf, off, w, len as u128, fe);
                },
                None => {},
            },
            None => {},
        }
        j = j + 1;
    }
    Ok(())
}

/// The `#[remaining]` pass of a nested struct.
fn def_remaining_pass_exec(
    fields: &Vec<Field>,
    fv: &Vec<(String, Value)>,
    offsets: &Vec<(String, usize, usize)>,
    buf: &mut Vec<u8>,
) -> (r: Result<(), CoreError>)
    requires
        def_remaining_pass(
            fields_view(fields@),
            named_values_view(fv@),
            offsets_view(offsets@),
            0,
            old(buf)@,
        ) is Some,
    ensures
        def_remaining_pass(
            fields_view(fields@),
            named_values_view(fv@),
            offsets_view(offsets@),
            0,
            old(buf)@,
        ) == Some(buf_view(r, final(buf)@)),
{
    let ghost fs = fields_view(fields@);
    let ghost nv = named_values_view(fv@);
    let ghost ov = offsets_view(offsets@);
    let mut j: usize = 0;
    while j < fields.len()
        invariant
            j <= fields@.len(),
            fs == fields_view(fields@),
            nv == named_values_view(fv@),
            ov == offsets_view(offsets@),
            def_remaining_pass(fs, nv, ov, 0, old(buf)@) == def_remaining_pass(
                fs,
                nv,
                ov,
                j as nat,
                buf@,
            ),
            def_remaining_pass(fs, nv, ov, 0, old(buf)@) is Some,
        decreases fields@.len() - j,
    {
        let f = &fields[j];
        proof {
            assert(fs[j as int] == f@);
        }
        if has_remaining_attribute(&f.attributes) {
            match lookup_offset(offsets, f.name.as_str()) {
                Some((off, _size)) => {
                    match lookup_field_value(fv, f) {
                        Some(Value::Bytes(b)) => {
                            if off != buf.len() {
                                return Err(
                                    make_err_named(
                                        "encode",
                                        "remaining field '",
                                        &f.name,
                                        "' must be the last field",
                                    ),
                                );
                            }
                            append_bytes(buf, b.as_slice());
                        },
                        _ => {
                            return Err(
                                make_err_named(
                                    "encode",
                                    "remaining field '",
                                    &f.name,
                                    "' must be of Bytes type",
                                ),
                            );
                        },
                    }
                },
                None => {},
            }
        }
        j = j + 1;
    }
    Ok(())
}

/// The checksum pass of a nested struct.
fn def_checksum_pass_exec(
    def: &StructDef,
    endian: Endianness,
    checksum_idx: Option<usize>,
    offsets: &Vec<(String, usize, usize)>,
    buf: &mut Vec<u8>,
) -> (r: Result<(), CoreError>)
    requires
        checksum_idx matches Some(i) ==> i < def.fields@.len(),
        def_checksum_pass(
            def@,
            endian,
            match checksum_idx {
                Some(i) => Some(i as nat),
                None => None,
            },
            offsets_view(offsets@),
            old(buf)@,
        ) is Some,
    ensures
        def_checksum_pass(
            def@,
            endian,
            match checksum_idx {
                Some(i) => Some(i as nat),
                None => None,
            },
            offsets_view(offsets@),
            old(buf)@,
        ) == Some(buf_view(r, final(buf)@)),
{
    match checksum_idx {
        None => Ok(()),
        Some(idx) => {
            let f = &def.fields[idx];
            proof {
                assert(def@.fields[idx as int] == f@);
            }
            match get_checksum_attribute(&f.attributes) {
                None => Ok(()),
                Some(alg) => {
                    match lookup_offset(offsets, f.name.as_str()) {
                        None => Ok(()),
                        Some((off, _size)) => match uint_width_of(&f.ty) {
                            None => Err(
                                make_err_named(
                                    "encode",
                                    "checksum field '",
                                    &f.name,
                                    "' must be an unsigned integer type",
                                ),
                            ),
                            Some(w) => {
                                let c = calculate_checksum(slice_subrange(buf.as_slice(), 0, off), alg);
                                let fe = get_field_endian(&f.attributes, endian);
                                write_at_exec(buf, off, w, c as u128, fe);
                                Ok(())
                            },
                        },
                    }
                },
            }
        },
    }
}

/// The length pass of a tracked struct.
fn tracked_len_pass_exec(
    fields: &Vec<Field>,
    fv: &Vec<(String, Value)>,
    endian: Endianness,
    offsets: &Vec<(String, usize, usize)>,
    buf: &mut Vec<u8>,
)
    requires
        tracked_len_pass(
            fields_view(fields@),
            named_values_view(fv@),
            endian,
            offsets_view(offsets@),
            0,
            old(buf)@,
        ) is Some,
    ensures
        tracked_len_pass(
            fields_view(fields@),
            named_values_view(fv@),
            endian,
            offsets_view(offsets@),
            0,
            old(buf)@,
        ) == Some(final(buf)@),
{
    let ghost fs = fields_view(fields@);
    let ghost nv = named_values_view(fv@);
    let ghost ov = offsets_view(offsets@);
    let mut j: usize = 0;
    while j < fields.len()
        invariant
            j <= fields@.len(),
            fs == fields_view(fields@),
            nv == named_values_view(fv@),
            ov == offsets_view(offsets@),
            tracked_len_pass(fs, nv, endian, ov, 0, old(buf)@) == tracked_len_pass(
                fs,
                nv,
                endian,
                ov,
                j as nat,
                buf@,
            ),
            tracked_len_pass(fs, nv, endian, ov, 0, old(buf)@) is Some,
        decreases fields@.len() - j,
    {
        let f = &fields[j];
        proof {
            assert(fs[j as int] == f@);
        }
        match get_len_ref_attribute(&f.attributes) {
            Some(r) => match lookup_offset(offsets, f.name.as_str()) {
                Some((off, _size)) => match uint_width_of(&f.ty) {
                    Some(w) => {
                        let len = tracked_ref_length_exec(fields, fv, r.as_str());
                        let fe = get_field_endian(&f.attributes, endian);
                        write_at_exec(buf, off, w, len as u128, fe);
                    },
                    None => {},
                },
                None => {},
            },
            None => {},
        }
        j = j + 1;
    }
}

/// The checksum pass of a tracked struct.
fn tracked_checksum_pass_exec(
    def: &StructDef,
    endian: Endianness,
    checksum_idx: Option<usize>,
    offsets: &Vec<(String, usize, usize)>,
    buf: &mut Vec<u8>,
)
    requires
        checksum_idx matches Some(i) ==> i < def.fields@.len(),
        tracked_checksum_pass(
            def@,
            endian,
            match checksum_idx {
                Some(i) => Some(i as nat),
                None => None,
            },
            offsets_view(offsets@),
            old(buf)@,
        ) is Some,
    ensures
        tracked_checksum_pass(
            def@,
            endian,
            match checksum_idx {
                Some(i) => Some(i as nat),
                None => None,
            },
            offsets_view(offsets@),
            old(buf)@,
        ) == Some(final(buf)@),
{
    match checksum_idx {
        None => {},
        Some(idx) => {
            let f = &def.fields[idx];
            proof {
                assert(def@.fields[idx as int] == f@);
            }
            match lookup_offset(offsets, f.name.as_str()) {
                None => {},
                Some((off, _size)) => match get_checksum_attribute(&f.attributes) {
                    None => {},
                    Some(alg) => {
                        let c = calculate_checksum(slice_subrange(buf.as_slice(), 0, off), alg);
                        let fe = get_field_endian(&f.attributes, endian);
                        match &f.ty {
                            Type::U8 => write_at_exec(buf, off, 1, c as u128, fe),
                            Type::U16 => write_at_exec(buf, off, 2, c as u128, fe),
                            Type::U32 => write_at_exec(buf, off, 4, c as u128, fe),
                            Type::U64 => write_at_exec(buf, off, 8, c as u128, fe),
                            _ => {},
                        }
                    },
                },
            }
        },
    }
}

} // verus!

verus! {

fn make_err_unresolved(literal: &String) -> (e: CoreError)
    ensures
        e@ == err_unresolved(literal@),
{
    make_err_named("encode", "float literal '", literal, "' has no resolved binary value")
}

/// Appends the encoding of a value that holds no other values.
fn encode_leaf_value(
    buf: &mut Vec<u8>,
    v: &Value,
    ty: &Type,
    endian: Endianness,
    schema: &Schema,
    Ghost(fuel): Ghost<nat>,
) -> (r: Result<(), CoreError>)
    requires
        !(v@ is Array),
        !(v@ is Struct),
    ensures
        appended(r, old(buf)@, final(buf)@, spec_encode_value(v@, ty@, endian, schema@, fuel)),
        r is Err ==> final(buf)@ == old(buf)@,
{
    match v {
        Value::Integer(n) => {
            match int_width_of(ty) {
                Some(w) => {
                    write_int(buf, *n as u128, w, endian);
                    proof {
                        assert(int_width(ty@) == Some(w as nat));
                        assert(spec_encode_value(v@, ty@, endian, schema@, fuel) == Some(
                            Ok::<Seq<u8>, ErrorView>(
                                int_bytes((*n as u128) as nat, w as nat, endian),
                            ),
                        ));
                    }
                    return Ok(());
                },
                None => {},
            }
            match ty {
                Type::Bytes => {
                    let w = integer_to_byte_len(*n) as usize;
                    push_length_prefix(buf, schema, w);
                    write_int(buf, *n as u128, w, endian);
                    proof {
                        assert(buf@ =~= old(buf)@ + (length_prefix(schema@, w as nat) + int_bytes(
                            (*n as u128) as nat,
                            w as nat,
                            endian,
                        )));
                        assert(int_width(ty@) is None);
                        assert(w as nat == spec_integer_to_byte_len(*n) as nat);
                        assert(spec_encode_value(v@, ty@, endian, schema@, fuel) == Some(
                            Ok::<Seq<u8>, ErrorView>(
                                length_prefix(schema@, w as nat) + int_bytes(
                                    (*n as u128) as nat,
                                    w as nat,
                                    endian,
                                ),
                            ),
                        ));
                    }
                    Ok(())
                },
                _ => {
                    proof {
                        assert(int_width(ty@) is None);
                        assert(spec_encode_value(v@, ty@, endian, schema@, fuel) == Some(
                            Err::<Seq<u8>, ErrorView>(err_mismatch(v@, ty@)),
                        ));
                    }
                    Err(make_err_mismatch(v, ty))
                },
            }
        },
        Value::Float(f) => match ty {
            Type::F32 => match f.bits {
                Some(b) => {
                    write_int(buf, b.f32_bits as u128, 4, endian);
                    Ok(())
                },
                None => Err(make_err_unresolved(&f.literal)),
            },
            Type::F64 => match f.bits {
                Some(b) => {
                    write_int(buf, b.f64_bits as u128, 8, endian);
                    Ok(())
                },
                None => Err(make_err_unresolved(&f.literal)),
            },
            _ => Err(make_err_mismatch(v, ty)),
        },
        Value::Bool(b) => match ty {
            Type::Bool => {
                let x: u8 = if *b { 1u8 } else { 0u8 };
                buf.push(x);
                proof {
                    assert(buf@ =~= old(buf)@ + seq![x]);
                }
                Ok(())
            },
            _ => Err(make_err_mismatch(v, ty)),
        },
        Value::String(s) => match ty {
            Type::String => {
                let bytes = s.as_str().as_bytes();
                push_length_prefix(buf, schema, bytes.len());
                append_bytes(buf, bytes);
                proof {
                    assert(buf@ =~= old(buf)@ + (length_prefix(schema@, utf8_len(s@)) + encode_utf8(
                        s@,
                    )));
                }
                Ok(())
            },
            _ => Err(make_err_mismatch(v, ty)),
        },
        Value::Bytes(b) => match ty {
            Type::Bytes => {
                push_length_prefix(buf, schema, b.len());
                append_bytes(buf, b.as_slice());
                proof {
                    assert(buf@ =~= old(buf)@ + (length_prefix(schema@, b@.len()) + b@));
                }
                Ok(())
            },
            _ => Err(make_err_mismatch(v, ty)),
        },
        _ => Err(make_err_mismatch(v, ty)),
    }
}

/// Appends the encoding of `v` as a value of type `ty`.
pub fn encode_value(
    buf: &mut Vec<u8>,
    v: &Value,
    ty: &Type,
    endian: Endianness,
    schema: &Schema,
    Ghost(fuel): Ghost<nat>,
) -> (r: Result<(), CoreError>)
    requires
        spec_encode_value(v@, ty@, endian, schema@, fuel) is Some,
    ensures
        appended(r, old(buf)@, final(buf)@, spec_encode_value(v@, ty@, endian, schema@, fuel)),
        r is Err && !writes_items(v@, ty@) ==> final(buf)@ == old(buf)@,
    decreases fuel, 0nat, v@, 1nat, 0int,
{
    match v {
        Value::Array(items) => {
            proof {
                lemma_values_view(items@);
            }
            match ty {
                Type::Vec(inner) => {
                    push_length_prefix(buf, schema, items.len());
                    let ghost mid = buf@;
                    let r = encode_items(buf, v, items, inner, endian, schema, Ghost(fuel));
                    proof {
                        let o = spec_encode_items(
                            v@,
                            inner@,
                            0,
                            Seq::empty(),
                            endian,
                            schema@,
                            fuel,
                        );
                        if r is Ok {
                            let b = match o {
                                Some(Ok(x)) => x,
                                _ => Seq::empty(),
                            };
                            assert(o == Some(Ok::<Seq<u8>, ErrorView>(b)));
                            assert(buf@ == mid + b);
                            assert(buf@ =~= old(buf)@ + (length_prefix(schema@, items@.len()) + b));
                        }
                    }
                    r
                },
                Type::Array(inner, n) => {
                    if items.len() != *n {
                        return Err(
                            make_err_numbers(
                                "encode",
                                "array size mismatch: expected ",
                                *n,
                                ", got ",
                                items.len(),
                                "",
                            ),
                        );
                    }
                    encode_items(buf, v, items, inner, endian, schema, Ghost(fuel))
                },
                _ => Err(make_err_mismatch(v, ty)),
            }
        },
        Value::Struct(name, pairs) => match ty {
            Type::Custom(tname) => {
                if !str_eq(name.as_str(), tname.as_str()) {
                    return Err(
                        make_err_named2(
                            "encode",
                            "struct name mismatch: expected ",
                            tname,
                            ", got ",
                            name,
                            "",
                        ),
                    );
                }
                match schema.get_struct(tname.as_str()) {
                    None => Err(make_err_named("encode", "struct '", tname, "' not found in schema")),
                    Some(def) => {
                        match encode_struct_def(
                            def,
                            pairs,
                            endian,
                            schema,
                            Ghost((fuel - 1) as nat),
                        ) {
                            Err(e) => Err(e),
                            Ok(bytes) => {
                                append_bytes(buf, bytes.as_slice());
                                Ok(())
                            },
                        }
                    },
                }
            },
            _ => Err(make_err_mismatch(v, ty)),
        },
        _ => encode_leaf_value(buf, v, ty, endian, schema, Ghost(fuel)),
    }
}

/// Appends the encodings of the items of the array value `parent`.
fn encode_items(
    buf: &mut Vec<u8>,
    parent: &Value,
    items: &Vec<Value>,
    inner: &Type,
    endian: Endianness,
    schema: &Schema,
    Ghost(fuel): Ghost<nat>,
) -> (r: Result<(), CoreError>)
    requires
        parent@ == ValueV::Array(values_view(items@)),
        spec_encode_items(parent@, inner@, 0, Seq::empty(), endian, schema@, fuel) is Some,
    ensures
        appended(
            r,
            old(buf)@,
            final(buf)@,
            spec_encode_items(parent@, inner@, 0, Seq::empty(), endian, schema@, fuel),
        ),
    decreases fuel, 0nat, parent@, 0nat, 0int,
{
    let ghost pv = parent@;
    proof {
        lemma_values_view(items@);
    }
    let ghost start = buf@;
    let ghost mut acc: Seq<u8> = Seq::empty();
    proof {
        assert(buf@ =~= start + acc);
    }
    let mut i: usize = 0;
    while i < items.len()
        invariant
            i <= items@.len(),
            pv == parent@,
            pv == ValueV::Array(values_view(items@)),
            values_view(items@).len() == items@.len(),
            forall|j: int| 0 <= j < items@.len() ==> #[trigger] values_view(items@)[j] == items@[j]@,
            start == old(buf)@,
            buf@ == start + acc,
            spec_encode_items(pv, inner@, 0, Seq::empty(), endian, schema@, fuel)
                == spec_encode_items(pv, inner@, i as nat, acc, endian, schema@, fuel),
            spec_encode_items(pv, inner@, 0, Seq::empty(), endian, schema@, fuel) is Some,
        decreases items@.len() - i,
    {
        proof {
            assert(decreases_to!(pv => values_view(items@)));
            assert(decreases_to!(values_view(items@) => values_view(items@)[i as int]));
            assert(values_view(items@)[i as int] == items@[i as int]@);
        }
        let ghost before = buf@;
        match encode_value(buf, &items[i], inner, endian, schema, Ghost(fuel)) {
            Err(e) => {
                return Err(e);
            },
            Ok(()) => {},
        }
        proof {
            let o = spec_encode_value(items@[i as int]@, inner@, endian, schema@, fuel);
            let b = match o {
                Some(Ok(x)) => x,
                _ => Seq::empty(),
            };
            assert(o == Some(Ok::<Seq<u8>, ErrorView>(b)));
            assert(buf@ == before + b);
            acc = acc + b;
            assert(buf@ =~= start + acc);
        }
        i = i + 1;
    }
    Ok(())
}

/// The view of a struct encoding result.
pub open spec fn bytes_result(r: Result<Vec<u8>, CoreError>, o: Option<Result<Seq<u8>, ErrorView>>) -> bool {
    match o {
        Some(Ok(b)) => r matches Ok(x) && x@ == b,
        Some(Err(e)) => r matches Err(x) && x@ == e,
        None => false,
    }
}

/// Encodes a struct nested in a value by its definition.
fn encode_struct_def<'a, 'b>(
    def: &'a StructDef,
    fv: &'b Vec<(String, Value)>,
    endian: Endianness,
    schema: &'a Schema,
    Ghost(fuel): Ghost<nat>,
) -> (r: Result<Vec<u8>, CoreError>)
    requires
        spec_encode_struct_def(def@, named_values_view(fv@), endian, schema@, fuel) is Some,
    ensures
        bytes_result(r, spec_encode_struct_def(def@, named_values_view(fv@), endian, schema@, fuel)),
    decreases fuel, 2nat, ValueV::Bool(false), 0nat, 0int,
{
    let mut st: PassProgress<'a> = PassProgress {
        buf: Vec::new(),
        offsets: Vec::new(),
        checksum_idx: None,
        groups: Vec::new(),
        autos: Vec::new(),
    };
    proof {
        assert(st@.buf =~= Seq::<u8>::empty());
        assert(st@.offsets =~= Seq::<(Seq<char>, nat, nat)>::empty());
        assert(st@.groups =~= Seq::<usize>::empty());
        assert(st@.autos =~= Seq::<(nat, FieldV, StructDefV)>::empty());
        assert(st@ == empty_pass());
    }
    match field_pass_exec(def, fv, endian, schema, false, 0, &mut st, Ghost(fuel)) {
        Err(e) => {
            return Err(e);
        },
        Ok(()) => {},
    }
    let PassProgress { buf: mut buf, offsets, checksum_idx, groups: _, autos } = st;
    match def_len_pass_exec(&def.fields, fv, endian, &offsets, &mut buf) {
        Err(e) => {
            return Err(e);
        },
        Ok(()) => {},
    }
    match def_remaining_pass_exec(&def.fields, fv, &offsets, &mut buf) {
        Err(e) => {
            return Err(e);
        },
        Ok(()) => {},
    }
    let total = buf.len();
    match fill_autos_exec(&mut buf, &autos, endian, total, fv) {
        Err(e) => {
            return Err(e);
        },
        Ok(()) => {},
    }
    match def_checksum_pass_exec(def, endian, checksum_idx, &offsets, &mut buf) {
        Err(e) => Err(e),
        Ok(()) => Ok(buf),
    }
}

} // verus!

verus! {

/// The first pass over all fields of `def`.
fn field_pass_exec<'a, 'b>(
    def: &'a StructDef,
    fv: &'b Vec<(String, Value)>,
    endian: Endianness,
    schema: &'a Schema,
    tracking: bool,
    base: usize,
    st: &mut PassProgress<'a>,
    Ghost(fuel): Ghost<nat>,
) -> (r: Result<(), CoreError>)
    requires
        old(st).checksum_idx matches Some(i) ==> i < def.fields@.len(),
        field_pass(def@, named_values_view(fv@), endian, schema@, fuel, tracking, base as nat, 0, old(st)@)
            is Some,
    ensures
        field_pass(def@, named_values_view(fv@), endian, schema@, fuel, tracking, base as nat, 0, old(st)@)
            == Some(pass_view(r, final(st)@)),
        final(st).checksum_idx matches Some(i) ==> i < def.fields@.len(),
    decreases fuel, 1nat, ValueV::Bool(false), 1nat, 0int,
{
    let ghost nv = named_values_view(fv@);
    let mut i: usize = 0;
    while i < def.fields.len()
        invariant
            i <= def.fields@.len(),
            def@.fields.len() == def.fields@.len(),
            nv == named_values_view(fv@),
            st.checksum_idx matches Some(k) ==> k < def.fields@.len(),
            field_pass(def@, nv, endian, schema@, fuel, tracking, base as nat, 0, old(st)@)
                == field_pass(def@, nv, endian, schema@, fuel, tracking, base as nat, i as nat, st@),
            field_pass(def@, nv, endian, schema@, fuel, tracking, base as nat, 0, old(st)@) is Some,
        decreases def.fields@.len() - i,
    {
        match field_step_exec(def, fv, endian, schema, tracking, base, i, st, Ghost(fuel)) {
            Err(e) => {
                return Err(e);
            },
            Ok(()) => {},
        }
        i = i + 1;
    }
    Ok(())
}

/// One field of the first pass.
fn field_step_exec<'a, 'b>(
    def: &'a StructDef,
    fv: &'b Vec<(String, Value)>,
    endian: Endianness,
    schema: &'a Schema,
    tracking: bool,
    base: usize,
    i: usize,
    st: &mut PassProgress<'a>,
    Ghost(fuel): Ghost<nat>,
) -> (r: Result<(), CoreError>)
    requires
        i < def.fields@.len(),
        old(st).checksum_idx matches Some(k) ==> k < def.fields@.len(),
        field_step(def@, named_values_view(fv@), endian, schema@, fuel, tracking, base as nat, i as nat, old(st)@)
            is Some,
    ensures
        field_step(def@, named_values_view(fv@), endian, schema@, fuel, tracking, base as nat, i as nat, old(st)@)
            == Some(pass_view(r, final(st)@)),
        final(st).checksum_idx matches Some(k) ==> k < def.fields@.len(),
    decreases fuel, 1nat, ValueV::Bool(false), 0nat, 2int,
{
    let f: &'a Field = &def.fields[i];
    proof {
        assert(def@.fields[i as int] == f@);
    }
    let fe = get_field_endian(&f.attributes, endian);
    let is_checksum = get_checksum_attribute(&f.attributes).is_some();
    let is_auto = has_auto_attribute(&f.attributes);
    if is_checksum || is_auto || get_len_ref_attribute(&f.attributes).is_some() {
        let size = match type_size(&f.ty, schema, Ghost(fuel)) {
            Err(e) => {
                return Err(e);
            },
            Ok(s) => s,
        };
        let start = st.buf.len();
        push_zeros(&mut st.buf, size);
        proof {
            lemma_offsets_push(st.offsets@, (f.name, start, size));
        }
        st.offsets.push((f.name.clone(), start, size));
        if is_checksum {
            st.checksum_idx = Some(i);
        } else if is_auto {
            let at = base + start;
            proof {
                lemma_autos_push(st.autos@, (at, f, def));
            }
            st.autos.push((at, f, def));
        }
        return Ok(());
    }
    if has_remaining_attribute(&f.attributes) {
        proof {
            lemma_offsets_push(st.offsets@, (f.name, st.buf.len(), 0));
        }
        st.offsets.push((f.name.clone(), st.buf.len(), 0));
        return Ok(());
    }
    match field_bit_key(f) {
        Some(key) => {
            if groups_contain(&st.groups, key) {
                return Ok(());
            }
            let c = group_word_exec(&def.fields, key, fv);
            let size = key / 8;
            let start = st.buf.len();
            write_int(&mut st.buf, c as u128, size, fe);
            push_group_offsets(&def.fields, key, start, size, &mut st.offsets);
            st.groups.push(key);
            return Ok(());
        },
        None => {},
    }
    let v = match lookup_field_value(fv, f) {
        None => {
            return Err(make_err_named("encode", "field '", &f.name, "' has no value"));
        },
        Some(v) => v,
    };
    match get_if_attribute(&f.attributes) {
        Some(c) => match lookup_condition(&def.fields, fv, c.as_str()) {
            Some(Value::Bool(true)) => encode_field_exec(
                v,
                f,
                fe,
                schema,
                tracking,
                base,
                st,
                Ghost(fuel),
            ),
            Some(Value::Bool(false)) => Ok(()),
            Some(_) => Err(make_err_named("encode", "if condition field '", c, "' must be bool")),
            None => Err(
                make_err_named("encode", "if condition field '", c, "' not found or has no value"),
            ),
        },
        None => encode_field_exec(v, f, fe, schema, tracking, base, st, Ghost(fuel)),
    }
}

/// Encodes the value of a field and appends it.
fn encode_field_exec<'a, 'b>(
    v: &'b Value,
    f: &'a Field,
    fe: Endianness,
    schema: &'a Schema,
    tracking: bool,
    base: usize,
    st: &mut PassProgress<'a>,
    Ghost(fuel): Ghost<nat>,
) -> (r: Result<(), CoreError>)
    requires
        encode_field(v@, f@, fe, schema@, fuel, tracking, base as nat, old(st)@) is Some,
    ensures
        encode_field(v@, f@, fe, schema@, fuel, tracking, base as nat, old(st)@) == Some(
            pass_view(r, final(st)@),
        ),
        final(st).checksum_idx == old(st).checksum_idx,
    decreases fuel, 1nat, ValueV::Bool(false), 0nat, 1int,
{
    let start = st.buf.len();
    if tracking {
        let at = base + start;
        let ghost autos0 = st.autos@;
        match encode_value_tracked(&mut st.buf, v, &f.ty, fe, schema, at, &mut st.autos, Ghost(fuel)) {
            Err(e) => {
                return Err(e);
            },
            Ok(()) => {},
        }
    } else {
        match encode_value(&mut st.buf, v, &f.ty, fe, schema, Ghost(fuel)) {
            Err(e) => {
                return Err(e);
            },
            Ok(()) => {},
        }
    }
    let size = st.buf.len() - start;
    proof {
        lemma_offsets_push(st.offsets@, (f.name, start, size));
    }
    st.offsets.push((f.name.clone(), start, size));
    Ok(())
}

/// The view of a tracked encoding that appends to a buffer and a list of
/// `#[auto]` fields.
pub open spec fn appended_tracked(
    r: Result<(), CoreError>,
    before: Seq<u8>,
    after: Seq<u8>,
    autos_before: Seq<(nat, FieldV, StructDefV)>,
    autos_after: Seq<(nat, FieldV, StructDefV)>,
    o: TrackedOutcome,
) -> bool {
    match o {
        Some(Ok((b, a))) => r is Ok && after == before + b && autos_after == autos_before + a,
        Some(Err(e)) => r matches Err(x) && x@ == e,
        None => false,
    }
}

/// Appends the encoding of `v`, tracking the `#[auto]` fields of struct values.
fn encode_value_tracked<'a, 'b>(
    buf: &mut Vec<u8>,
    v: &'b Value,
    ty: &Type,
    endian: Endianness,
    schema: &'a Schema,
    base: usize,
    autos: &mut Vec<(usize, &'a Field, &'a StructDef)>,
    Ghost(fuel): Ghost<nat>,
) -> (r: Result<(), CoreError>)
    requires
        spec_encode_value_tracked(v@, ty@, endian, schema@, base as nat, fuel) is Some,
    ensures
        appended_tracked(
            r,
            old(buf)@,
            final(buf)@,
            autos_view(old(autos)@),
            autos_view(final(autos)@),
            spec_encode_value_tracked(v@, ty@, endian, schema@, base as nat, fuel),
        ),
    decreases fuel, 0nat, v@, 2nat, 0int,
{
    match (v, ty) {
        (Value::Struct(name, pairs), Type::Custom(tname)) => {
            if !str_eq(name.as_str(), tname.as_str()) {
                return Err(
                    make_err_named2(
                        "encode",
                        "struct name mismatch: expected ",
                        tname,
                        ", got ",
                        name,
                        "",
                    ),
                );
            }
            match schema.get_struct(tname.as_str()) {
                None => Err(make_err_named("encode", "struct '", tname, "' not found in schema")),
                Some(def) => {
                    match encode_struct_tracked(
                        def,
                        pairs,
                        endian,
                        schema,
                        base,
                        Ghost((fuel - 1) as nat),
                    ) {
                        Err(e) => Err(e),
                        Ok((bytes, mut more)) => {
                            append_bytes(buf, bytes.as_slice());
                            proof {
                                lemma_autos_append(autos@, more@);
                            }
                            autos.append(&mut more);
                            Ok(())
                        },
                    }
                },
            }
        },
        _ => {
            let r = encode_value(buf, v, ty, endian, schema, Ghost(fuel));
            proof {
                assert(autos_view(autos@) == autos_view(autos@) + Seq::<(nat, FieldV, StructDefV)>::empty());
            }
            r
        },
    }
}

/// Encodes a struct, tracking its `#[auto]` fields at absolute positions from `base`.
/// Encodes a top-level struct: the first pass with `#[auto]` fields
/// tracked, the lengths, the `#[auto]` fields, then the checksum.
pub(crate) fn encode_top<'a, 'b>(
    def: &'a StructDef,
    fv: &'b Vec<(String, Value)>,
    endian: Endianness,
    schema: &'a Schema,
    Ghost(fuel): Ghost<nat>,
) -> (r: Result<Vec<u8>, CoreError>)
    requires
        spec_encode_top(def@, named_values_view(fv@), endian, schema@, fuel) is Some,
    ensures
        bytes_result(r, spec_encode_top(def@, named_values_view(fv@), endian, schema@, fuel)),
{
    let mut st: PassProgress<'a> = PassProgress {
        buf: Vec::new(),
        offsets: Vec::new(),
        checksum_idx: None,
        groups: Vec::new(),
        autos: Vec::new(),
    };
    proof {
        assert(st@.buf =~= Seq::<u8>::empty());
        assert(st@.offsets =~= Seq::<(Seq<char>, nat, nat)>::empty());
        assert(st@.groups =~= Seq::<usize>::empty());
        assert(st@.autos =~= Seq::<(nat, FieldV, StructDefV)>::empty());
        assert(st@ == empty_pass());
    }
    match field_pass_exec(def, fv, endian, schema, true, 0, &mut st, Ghost(fuel)) {
        Err(e) => {
            return Err(e);
        },
        Ok(()) => {},
    }
    let PassProgress { buf: mut buf, offsets, checksum_idx, groups: _, autos } = st;
    tracked_len_pass_exec(&def.fields, fv, endian, &offsets, &mut buf);
    let total = buf.len();
    match fill_autos_exec(&mut buf, &autos, endian, total, fv) {
        Err(e) => {
            return Err(e);
        },
        Ok(()) => {},
    }
    tracked_checksum_pass_exec(def, endian, checksum_idx, &offsets, &mut buf);
    Ok(buf)
}

pub(crate) fn encode_struct_tracked<'a, 'b>(
    def: &'a StructDef,
    fv: &'b Vec<(String, Value)>,
    endian: Endianness,
    schema: &'a Schema,
    base: usize,
    Ghost(fuel): Ghost<nat>,
) -> (r: Result<(Vec<u8>, Vec<(usize, &'a Field, &'a StructDef)>), CoreError>)
    requires
        spec_encode_struct_tracked(def@, named_values_view(fv@), endian, schema@, base as nat, fuel)
            is Some,
    ensures
        match spec_encode_struct_tracked(
            def@,
            named_values_view(fv@),
            endian,
            schema@,
            base as nat,
            fuel,
        ) {
            Some(Ok((b, a))) => r matches Ok((x, y)) && x@ == b && autos_view(y@) == a,
            Some(Err(e)) => r matches Err(x) && x@ == e,
            None => false,
        },
    decreases fuel, 2nat, ValueV::Bool(false), 0nat, 0int,
{
    let mut st: PassProgress<'a> = PassProgress {
        buf: Vec::new(),
        offsets: Vec::new(),
        checksum_idx: None,
        groups: Vec::new(),
        autos: Vec::new(),
    };
    proof {
        assert(st@.buf =~= Seq::<u8>::empty());
        assert(st@.offsets =~= Seq::<(Seq<char>, nat, nat)>::empty());
        assert(st@.groups =~= Seq::<usize>::empty());
        assert(st@.autos =~= Seq::<(nat, FieldV, StructDefV)>::empty());
        assert(st@ == empty_pass());
    }
    match field_pass_exec(def, fv, endian, schema, true, base, &mut st, Ghost(fuel)) {
        Err(e) => {
            return Err(e);
        },
        Ok(()) => {},
    }
    let PassProgress { buf: mut buf, offsets, checksum_idx, groups: _, autos } = st;
    tracked_len_pass_exec(&def.fields, fv, endian, &offsets, &mut buf);
    tracked_checksum_pass_exec(def, endian, checksum_idx, &offsets, &mut buf);
    Ok((buf, autos))
}

} // verus!

verus! {

/// The bindings a struct's own field values make, in field order.
pub fn own_bindings_exec(fields: &Vec<Field>) -> (r: Vec<(String, Value)>)
    ensures
        named_values_view(r@) == own_bindings(fields_view(fields@)),
{
    let ghost fs = fields_view(fields@);
    let mut r: Vec<(String, Value)> = Vec::new();
    let mut i: usize = 0;
    proof {
        lemma_named_values_view(r@);
        assert(fs.take(0) =~= Seq::<FieldV>::empty());
        assert(named_values_view(r@) =~= own_bindings(fs.take(0)));
    }
    while i < fields.len()
        invariant
            i <= fields@.len(),
            fs == fields_view(fields@),
            named_values_view(r@) == own_bindings(fs.take(i as int)),
        decreases fields@.len() - i,
    {
        let f = &fields[i];
        proof {
            assert(fs.take(i + 1).drop_last() == fs.take(i as int));
            assert(fs.take(i + 1).last() == f@);
            lemma_named_values_view(r@);
        }
        match &f.value {
            Some(v) => {
                let c = v.clone_value();
                let ghost before = r@;
                r.push((f.name.clone(), c));
                proof {
                    lemma_named_values_view(r@);
                    assert(named_values_view(r@) =~= named_values_view(before).push((f.name@, v@)));
                }
            },
            None => {},
        }
        i = i + 1;
    }
    proof {
        assert(fs.take(fields@.len() as int) == fs);
    }
    r
}

/// The length an `#[auto(..)]` field takes from a value.
fn auto_value_length_exec(v: &Value, rf: Option<&Field>) -> (r: usize)
    ensures
        r as nat == auto_value_length(
            v@,
            match rf {
                Some(f) => Some(f@),
                None => None,
            },
        ),
{
    match v {
        Value::Array(a) => {
            proof {
                lemma_values_view(a@);
            }
            a.len()
        },
        Value::Bytes(b) => b.len(),
        Value::String(s) => string_byte_len(s),
        Value::Integer(n) => {
            let is_bytes = match rf {
                Some(f) => match &f.ty {
                    Type::Bytes => true,
                    _ => false,
                },
                None => false,
            };
            if is_bytes {
                integer_to_byte_len(*n) as usize
            } else {
                1
            }
        },
        _ => 1,
    }
}

/// The value of an `#[auto]` field.
fn auto_length_exec(
    target: Option<&String>,
    sdef: &StructDef,
    fv: &Vec<(String, Value)>,
    total: usize,
) -> (r: usize)
    ensures
        r as nat == auto_length(
            match target {
                Some(t) => Some(t@),
                None => None,
            },
            sdef@,
            named_values_view(fv@),
            total as nat,
        ),
{
    match target {
        None => total,
        Some(r) => {
            let rf = lookup_field(&sdef.fields, r.as_str());
            match lookup_binding(fv, r.as_str()) {
                Some(v) => auto_value_length_exec(v, rf),
                None => match rf {
                    Some(f) => match &f.value {
                        Some(v) => auto_value_length_exec(v, rf),
                        None => 0,
                    },
                    None => 0,
                },
            }
        },
    }
}

/// Fills the `#[auto]` fields.
pub fn fill_autos_exec(
    buf: &mut Vec<u8>,
    autos: &Vec<(usize, &Field, &StructDef)>,
    endian: Endianness,
    total: usize,
    fv: &Vec<(String, Value)>,
) -> (r: Result<(), CoreError>)
    requires
        fill_autos(old(buf)@, autos_view(autos@), 0, endian, total as nat, named_values_view(fv@))
            is Some,
    ensures
        fill_autos(old(buf)@, autos_view(autos@), 0, endian, total as nat, named_values_view(fv@))
            == Some(buf_view(r, final(buf)@)),
{
    let ghost av = autos_view(autos@);
    let ghost nv = named_values_view(fv@);
    let mut k: usize = 0;
    while k < autos.len()
        invariant
            k <= autos@.len(),
            av == autos_view(autos@),
            nv == named_values_view(fv@),
            fill_autos(old(buf)@, av, 0, endian, total as nat, nv) == fill_autos(
                buf@,
                av,
                k as nat,
                endian,
                total as nat,
                nv,
            ),
            fill_autos(old(buf)@, av, 0, endian, total as nat, nv) is Some,
        decreases autos@.len() - k,
    {
        let (off, f, sdef) = autos[k];
        proof {
            assert(av[k as int] == (off as nat, f@, sdef@));
        }
        let target = match get_auto_attribute(&f.attributes) {
            None => {
                return Err(make_err_fixed("encode", "auto attribute not found"));
            },
            Some(t) => t,
        };
        let w = match uint_width_of(&f.ty) {
            None => {
                return Err(
                    make_err_named(
                        "encode",
                        "auto field '",
                        &f.name,
                        "' must be an unsigned integer type",
                    ),
                );
            },
            Some(w) => w,
        };
        let len = auto_length_exec(target, sdef, fv, total);
        let fe = get_field_endian(&f.attributes, endian);
        write_at_exec(buf, off, w, len as u128, fe);
        k = k + 1;
    }
    Ok(())
}

} // verus!
