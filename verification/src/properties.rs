//! Laws that relate encoding and decoding: what a field's bytes decode to.

use vstd::prelude::*;
use crate::ast::{Direction, Endianness, FieldV, SchemaV, StructDefV, TypeV, ValueV};
use crate::attrs::{auto_attr, bit_attr, bits_attr, checksum_attr, field_endian, has_remaining, if_attr, len_ref_attr};
use crate::decode::{prim_width, spec_decode_value};
use crate::decoded::{DecodedStructV, DecodedV};
use crate::encode::{
    auto_length, binding, condition_value, field_pass, field_value, fill_autos, int_width,
    length_prefix, own_bindings, splice, uint_width, zeros,
    spec_encode, spec_encode_value, spec_integer_to_byte_len, tracked_len_pass, utf8_len,
    PassState,
};
use vstd::utf8::{decode_utf8, encode_utf8, valid_utf8};
use crate::wire::{int_bytes, le_bytes, pow256};
use crate::bit_groups::{group_names, group_values, is_bit_field};
use crate::receive::struct_endian;

verus! {

/// The decoded form of a scalar value of type `ty`: an integer in the range
/// of an integer type, a boolean, or a floating-point literal whose bits are
/// resolved. `None` for anything else.
pub open spec fn scalar_decoded(v: ValueV, ty: TypeV) -> Option<DecodedV> {
    match (v, ty) {
        (ValueV::Integer(n), TypeV::U8) => if 0 <= n <= u8::MAX {
            Some(DecodedV::U8(n as u8))
        } else {
            None
        },
        (ValueV::Integer(n), TypeV::U16) => if 0 <= n <= u16::MAX {
            Some(DecodedV::U16(n as u16))
        } else {
            None
        },
        (ValueV::Integer(n), TypeV::U32) => if 0 <= n <= u32::MAX {
            Some(DecodedV::U32(n as u32))
        } else {
            None
        },
        (ValueV::Integer(n), TypeV::U64) => if 0 <= n <= u64::MAX {
            Some(DecodedV::U64(n as u64))
        } else {
            None
        },
        (ValueV::Integer(n), TypeV::U128) => if 0 <= n {
            Some(DecodedV::U128(n as u128))
        } else {
            None
        },
        (ValueV::Integer(n), TypeV::I8) => if i8::MIN <= n <= i8::MAX {
            Some(DecodedV::I8(n as i8))
        } else {
            None
        },
        (ValueV::Integer(n), TypeV::I16) => if i16::MIN <= n <= i16::MAX {
            Some(DecodedV::I16(n as i16))
        } else {
            None
        },
        (ValueV::Integer(n), TypeV::I32) => if i32::MIN <= n <= i32::MAX {
            Some(DecodedV::I32(n as i32))
        } else {
            None
        },
        (ValueV::Integer(n), TypeV::I64) => if i64::MIN <= n <= i64::MAX {
            Some(DecodedV::I64(n as i64))
        } else {
            None
        },
        (ValueV::Integer(n), TypeV::I128) => Some(DecodedV::I128(n)),
        (ValueV::Bool(b), TypeV::Bool) => Some(DecodedV::Bool(b)),
        (ValueV::Float(f), TypeV::F32) => match f.bits {
            Some(bits) => Some(DecodedV::F32(bits.f32_bits)),
            None => None,
        },
        (ValueV::Float(f), TypeV::F64) => match f.bits {
            Some(bits) => Some(DecodedV::F64(bits.f64_bits)),
            None => None,
        },
        _ => None,
    }
}

proof fn lemma_pow256_small()
    ensures
        pow256(1) == 0x100,
        pow256(2) == 0x1_0000,
        pow256(4) == 0x1_0000_0000,
        pow256(8) == 0x1_0000_0000_0000_0000,
        pow256(16) == 0x1_0000_0000_0000_0000_0000_0000_0000_0000,
{
    crate::wire::lemma_pow256_values();
}

/// The scalar decoded from the bytes of an integer of type `ty`.
proof fn lemma_integer_read(n: i128, ty: TypeV, b: Seq<u8>, endian: Endianness)
    requires
        int_width(ty) is Some,
        scalar_decoded(ValueV::Integer(n), ty) is Some,
        b == int_bytes((n as u128) as nat, int_width(ty)->0, endian),
    ensures
        b.len() == int_width(ty)->0,
        crate::decode::prim_value(ty, b, endian) == scalar_decoded(ValueV::Integer(n), ty)->0,
{
    let w = int_width(ty)->0;
    let x = (n as u128) as nat;
    crate::wire::lemma_bytes_value_mod(x, w, endian);
    lemma_pow256_small();
    let u = n as u128;
    match ty {
        TypeV::U8 => {
            crate::wire::lemma_bytes_value_mod(x, 1, Endianness::Little);
            assert(le_bytes(x, 1) =~= seq![(x % 256) as u8]);
            assert(le_bytes(x, 1).reverse() =~= seq![(x % 256) as u8]);
            assert(0 <= n <= 255 ==> ((n as u128) % 256) as u8 == n as u8) by (bit_vector);
        },
        TypeV::I8 => {
            crate::wire::lemma_bytes_value_mod(x, 1, Endianness::Little);
            assert(le_bytes(x, 1) =~= seq![(x % 256) as u8]);
            assert(le_bytes(x, 1).reverse() =~= seq![(x % 256) as u8]);
            assert(-128 <= n <= 127 ==> (((n as u128) % 256) as u8) as i8 == n as i8) by (bit_vector);
        },
        TypeV::U16 => {
            assert(0 <= n <= 0xffff ==> ((n as u128) % 0x1_0000) as u16 == n as u16) by (bit_vector);
        },
        TypeV::I16 => {
            assert(-0x8000 <= n <= 0x7fff ==> (((n as u128) % 0x1_0000) as u16) as i16 == n as i16)
                by (bit_vector);
        },
        TypeV::U32 => {
            assert(0 <= n <= 0xffff_ffff ==> ((n as u128) % 0x1_0000_0000) as u32 == n as u32)
                by (bit_vector);
        },
        TypeV::I32 => {
            assert(-0x8000_0000 <= n <= 0x7fff_ffff ==> (((n as u128) % 0x1_0000_0000) as u32) as i32
                == n as i32) by (bit_vector);
        },
        TypeV::U64 => {
            assert(0 <= n <= 0xffff_ffff_ffff_ffff ==> ((n as u128) % 0x1_0000_0000_0000_0000) as u64
                == n as u64) by (bit_vector);
        },
        TypeV::I64 => {
            assert(-0x8000_0000_0000_0000 <= n <= 0x7fff_ffff_ffff_ffff ==> (((n as u128)
                % 0x1_0000_0000_0000_0000) as u64) as i64 == n as i64) by (bit_vector);
        },
        TypeV::U128 => {
            assert(0 <= n ==> n as u128 == n) by (bit_vector);
            assert(x < pow256(16));
            vstd::arithmetic::div_mod::lemma_small_mod(x, pow256(16));
        },
        _ => {
            assert(((n as u128) as i128) == n) by (bit_vector);
            assert(x < pow256(16));
            vstd::arithmetic::div_mod::lemma_small_mod(x, pow256(16));
        },
    }
}

/// The bytes a scalar value is encoded to as type `ty`.
pub open spec fn scalar_bytes(v: ValueV, ty: TypeV, endian: Endianness) -> Seq<u8> {
    match v {
        ValueV::Integer(n) => int_bytes((n as u128) as nat, int_width(ty)->0, endian),
        ValueV::Bool(b) => seq![if b { 1u8 } else { 0u8 }],
        ValueV::Float(f) => match ty {
            TypeV::F32 => int_bytes(f.bits->0.f32_bits as nat, 4, endian),
            _ => int_bytes(f.bits->0.f64_bits as nat, 8, endian),
        },
        _ => Seq::empty(),
    }
}

/// The codec symmetry law for scalar fields: a scalar value (an integer in
/// the range of its integer type, a boolean, or a floating-point literal
/// with resolved bits) is encoded as its type to the type's width in bytes,
/// and those bytes, placed at any offset of any buffer, decode back to that
/// value, taking exactly the bytes written.
pub proof fn lemma_scalar_symmetry(
    v: ValueV,
    ty: TypeV,
    endian: Endianness,
    schema: SchemaV,
    fuel: nat,
    before: Seq<u8>,
    after: Seq<u8>,
)
    requires
        scalar_decoded(v, ty) is Some,
        before.len() + 16 <= usize::MAX,
    ensures
        spec_encode_value(v, ty, endian, schema, fuel) == Some(
            Ok::<Seq<u8>, crate::error::ErrorView>(scalar_bytes(v, ty, endian)),
        ),
        scalar_bytes(v, ty, endian).len() == prim_width(ty)->0,
        prim_width(ty)->0 <= 16,
        spec_decode_value(
            before + scalar_bytes(v, ty, endian) + after,
            before.len(),
            ty,
            schema,
            endian,
            fuel,
        ) == Some(
            Ok::<(DecodedV, nat), crate::error::ErrorView>(
                (scalar_decoded(v, ty)->0, scalar_bytes(v, ty, endian).len()),
            ),
        ),
{
    let b = scalar_bytes(v, ty, endian);
    match (v, ty) {
        (ValueV::Integer(n), _) => {
            lemma_integer_read(n, ty, b, endian);
        },
        (ValueV::Bool(x), _) => {},
        (ValueV::Float(f), TypeV::F32) => {
            lemma_pow256_small();
            crate::wire::lemma_int_roundtrip(f.bits->0.f32_bits as nat, 4, endian);
        },
        (ValueV::Float(f), _) => {
            lemma_pow256_small();
            crate::wire::lemma_int_roundtrip(f.bits->0.f64_bits as nat, 8, endian);
        },
        _ => {},
    }
    let data = before + b + after;
    let w = b.len();
    assert(data.subrange(before.len() as int, (before.len() + w) as int) =~= b);
}

/// The decoded form of a plain value of type `ty`, with structs nested at
/// most `depth` deep: a scalar (see `scalar_decoded`); where length prefixes
/// are enabled, a string or a byte array (given as bytes or as a hexadecimal
/// integer) whose length fits its 4-byte prefix, or a `Vec` of plain items
/// whose count fits its prefix; a fixed-size array of as many plain items as
/// its type says, at least one; or a value of a struct of the schema that has
/// fields, none with an attribute, each given a plain value by the
/// initializer or by its definition. `None` for anything else.
pub open spec fn plain_decoded(
    v: ValueV,
    ty: TypeV,
    schema: SchemaV,
    endian: Endianness,
    depth: nat,
) -> Option<DecodedV>
    decreases depth, v, 1nat, 0nat,
{
    match (v, ty) {
        (ValueV::Str(s), TypeV::Str) => if schema.is_prefix_enabled() && utf8_len(s) < pow256(4) {
            Some(DecodedV::Str(s))
        } else {
            None
        },
        (ValueV::Bytes(b), TypeV::Bytes) => if schema.is_prefix_enabled() && b.len() < pow256(4) {
            Some(DecodedV::Bytes(b))
        } else {
            None
        },
        (ValueV::Integer(n), TypeV::Bytes) => if schema.is_prefix_enabled() {
            Some(
                DecodedV::Bytes(
                    int_bytes((n as u128) as nat, spec_integer_to_byte_len(n) as nat, endian),
                ),
            )
        } else {
            None
        },
        (ValueV::Array(items), TypeV::Vec(inner)) => if schema.is_prefix_enabled() && items.len()
            < pow256(4) {
            match items_decoded(items, *inner, schema, endian, depth, 0) {
                Some(ds) => Some(DecodedV::List(ds)),
                None => None,
            }
        } else {
            None
        },
        (ValueV::Array(items), TypeV::Array(inner, n)) => if items.len() == n && n > 0 {
            match items_decoded(items, *inner, schema, endian, depth, 0) {
                Some(ds) => Some(DecodedV::List(ds)),
                None => None,
            }
        } else {
            None
        },
        (ValueV::Struct(name, pairs), TypeV::Custom(tname)) => if name == tname {
            match schema.lookup(tname) {
                Some(def) => if def.fields.len() > 0 && no_attributes(def.fields) {
                    match fields_decoded(def.fields, pairs, schema, endian, depth, 0) {
                        Some(ps) => Some(DecodedV::Struct(tname, ps)),
                        None => None,
                    }
                } else {
                    None
                },
                None => None,
            }
        } else {
            None
        },
        _ => scalar_decoded(v, ty),
    }
}

/// No field has an attribute.
pub open spec fn no_attributes(fields: Seq<FieldV>) -> bool {
    forall|j: int| 0 <= j < fields.len() ==> (#[trigger] fields[j]).attributes.len() == 0
}

/// The decoded forms of the items from index `i` on, when all are plain.
pub open spec fn items_decoded(
    items: Seq<ValueV>,
    inner: TypeV,
    schema: SchemaV,
    endian: Endianness,
    depth: nat,
    i: nat,
) -> Option<Seq<DecodedV>>
    decreases depth, items, 0nat, items.len() - i,
{
    if i >= items.len() {
        Some(Seq::empty())
    } else {
        match (
            plain_decoded(items[i as int], inner, schema, endian, depth),
            items_decoded(items, inner, schema, endian, depth, i + 1),
        ) {
            (Some(d), Some(ds)) => Some(seq![d] + ds),
            _ => None,
        }
    }
}

/// The decoded fields, from index `j` on, of a struct whose values `fv`
/// binds (a field without a binding has its own value), each in its byte
/// order, with structs nested less than `depth` deep; when all are plain.
pub open spec fn fields_decoded(
    fields: Seq<FieldV>,
    fv: Seq<(Seq<char>, ValueV)>,
    schema: SchemaV,
    endian: Endianness,
    depth: nat,
    j: nat,
) -> Option<Seq<(Seq<char>, DecodedV)>>
    decreases depth, fv, 0nat, fields.len() - j,
{
    if depth == 0 {
        None
    } else if j >= fields.len() {
        Some(Seq::empty())
    } else {
        match field_value(fv, fields[j as int]) {
            None => None,
            Some(v) => match (
                plain_decoded(
                    v,
                    fields[j as int].ty,
                    schema,
                    order_of(fields[j as int], endian),
                    (depth - 1) as nat,
                ),
                fields_decoded(fields, fv, schema, endian, depth, j + 1),
            ) {
                (Some(d), Some(ds)) => Some(seq![(fields[j as int].name, d)] + ds),
                _ => None,
            },
        }
    }
}

/// The bytes a plain value is encoded to as type `ty`.
pub open spec fn plain_bytes(
    v: ValueV,
    ty: TypeV,
    schema: SchemaV,
    endian: Endianness,
    depth: nat,
) -> Seq<u8>
    decreases depth, v, 1nat, 0nat,
{
    match (v, ty) {
        (ValueV::Str(s), TypeV::Str) => length_prefix(schema, utf8_len(s)) + encode_utf8(s),
        (ValueV::Bytes(b), TypeV::Bytes) => length_prefix(schema, b.len()) + b,
        (ValueV::Integer(n), TypeV::Bytes) => {
            let w = spec_integer_to_byte_len(n) as nat;
            length_prefix(schema, w) + int_bytes((n as u128) as nat, w, endian)
        },
        (ValueV::Array(items), TypeV::Vec(inner)) => length_prefix(schema, items.len())
            + items_bytes(items, *inner, schema, endian, depth, 0),
        (ValueV::Array(items), TypeV::Array(inner, _)) => items_bytes(
            items,
            *inner,
            schema,
            endian,
            depth,
            0,
        ),
        (ValueV::Struct(_, pairs), TypeV::Custom(tname)) => match schema.lookup(tname) {
            Some(def) => fields_bytes(def.fields, pairs, schema, endian, depth, 0),
            None => Seq::empty(),
        },
        _ => scalar_bytes(v, ty, endian),
    }
}

/// The bytes of the items from index `i` on, one after the other.
pub open spec fn items_bytes(
    items: Seq<ValueV>,
    inner: TypeV,
    schema: SchemaV,
    endian: Endianness,
    depth: nat,
    i: nat,
) -> Seq<u8>
    decreases depth, items, 0nat, items.len() - i,
{
    if i >= items.len() {
        Seq::empty()
    } else {
        plain_bytes(items[i as int], inner, schema, endian, depth) + items_bytes(
            items,
            inner,
            schema,
            endian,
            depth,
            i + 1,
        )
    }
}

/// The bytes of the values of the fields from index `j` on, one after the
/// other, each in its byte order.
pub open spec fn fields_bytes(
    fields: Seq<FieldV>,
    fv: Seq<(Seq<char>, ValueV)>,
    schema: SchemaV,
    endian: Endianness,
    depth: nat,
    j: nat,
) -> Seq<u8>
    decreases depth, fv, 0nat, fields.len() - j,
{
    if depth == 0 || j >= fields.len() {
        Seq::empty()
    } else {
        plain_bytes(
            field_value(fv, fields[j as int])->0,
            fields[j as int].ty,
            schema,
            order_of(fields[j as int], endian),
            (depth - 1) as nat,
        ) + fields_bytes(fields, fv, schema, endian, depth, j + 1)
    }
}

/// Every attribute is a byte-order attribute `#[endian(..)]`.
pub open spec fn endian_only(attrs: Seq<crate::ast::FieldAttributeV>) -> bool {
    forall|i: int| 0 <= i < attrs.len() ==> (#[trigger] attrs[i]) is Endian
}

/// The byte order of field `f` in a struct of byte order `endian`.
pub open spec fn order_of(f: FieldV, endian: Endianness) -> Endianness {
    field_endian(f.attributes, endian)
}

proof fn lemma_endian_attrs(attrs: Seq<crate::ast::FieldAttributeV>)
    requires
        endian_only(attrs),
    ensures
        auto_attr(attrs) is None,
        checksum_attr(attrs) is None,
        len_ref_attr(attrs) is None,
        !has_remaining(attrs),
        bits_attr(attrs) is None,
        bit_attr(attrs) is None,
        if_attr(attrs) is None,
    decreases attrs.len(),
{
    if attrs.len() > 0 {
        assert(attrs[0] is Endian);
        let rest = attrs.drop_first();
        assert forall|i: int| 0 <= i < rest.len() implies (#[trigger] rest[i]) is Endian by {
            assert(rest[i] == attrs[i + 1]);
        }
        lemma_endian_attrs(rest);
    }
}

proof fn lemma_no_attrs(f: FieldV)
    requires
        endian_only(f.attributes),
    ensures
        auto_attr(f.attributes) is None,
        checksum_attr(f.attributes) is None,
        len_ref_attr(f.attributes) is None,
        !has_remaining(f.attributes),
        bits_attr(f.attributes) is None,
        bit_attr(f.attributes) is None,
        if_attr(f.attributes) is None,
        crate::receive::bit_key(f) is None,
{
    lemma_endian_attrs(f.attributes);
}

/// Fields without attributes carry only byte-order attributes, and take the
/// struct's byte order.
proof fn lemma_bare_fields(fields: Seq<FieldV>, endian: Endianness)
    requires
        no_attributes(fields),
    ensures
        forall|j: int| 0 <= j < fields.len() ==> endian_only((#[trigger] fields[j]).attributes),
        forall|j: int| 0 <= j < fields.len() ==> order_of(#[trigger] fields[j], endian) == endian,
        forall|j: int|
            0 <= j < fields.len() ==> len_ref_attr((#[trigger] fields[j]).attributes) is None
                && !has_remaining(fields[j].attributes),
{
    assert forall|j: int| 0 <= j < fields.len() implies endian_only((#[trigger] fields[j]).attributes)
        && order_of(fields[j], endian) == endian && len_ref_attr(fields[j].attributes) is None
        && !has_remaining(fields[j].attributes) by {
        assert(fields[j].attributes.len() == 0);
        lemma_no_attrs(fields[j]);
    }
}

proof fn lemma_def_len_plain(
    fields: Seq<FieldV>,
    fv: Seq<(Seq<char>, ValueV)>,
    endian: Endianness,
    offsets: Seq<(Seq<char>, nat, nat)>,
    j: nat,
    buf: Seq<u8>,
)
    requires
        forall|i: int|
            0 <= i < fields.len() ==> len_ref_attr((#[trigger] fields[i]).attributes) is None
                && !has_remaining(fields[i].attributes),
    ensures
        crate::encode::def_len_pass(fields, fv, endian, offsets, j, buf) == Some(
            Ok::<Seq<u8>, crate::error::ErrorView>(buf),
        ),
        crate::encode::def_remaining_pass(fields, fv, offsets, j, buf) == Some(
            Ok::<Seq<u8>, crate::error::ErrorView>(buf),
        ),
        tracked_len_pass(fields, fv, endian, offsets, j, buf) == Some(buf),
    decreases fields.len() - j,
{
    if j < fields.len() {
        assert(len_ref_attr(fields[j as int].attributes) is None);
        lemma_def_len_plain(fields, fv, endian, offsets, j + 1, buf);
    }
}

/// The first encoding pass over struct fields that carry only byte-order
/// attributes appends the bytes of each value, from field `j` on.
#[verifier::rlimit(60)]
proof fn lemma_fields_pass(
    def: StructDefV,
    fv: Seq<(Seq<char>, ValueV)>,
    endian: Endianness,
    schema: SchemaV,
    fuel: nat,
    tracking: bool,
    base: nat,
    depth: nat,
    j: nat,
    st: PassState,
)
    requires
        forall|i: int| 0 <= i < def.fields.len() ==> endian_only((#[trigger] def.fields[i]).attributes),
        fields_decoded(def.fields, fv, schema, endian, depth, j) is Some,
        j <= def.fields.len(),
        st.checksum_idx is None,
        st.autos.len() == 0,
        tracking ==> base + st.buf.len() + fields_bytes(def.fields, fv, schema, endian, depth, j).len()
            + 16 <= usize::MAX,
    ensures
        field_pass(def, fv, endian, schema, fuel, tracking, base, j, st) is Some ==> (field_pass(
            def,
            fv,
            endian,
            schema,
            fuel,
            tracking,
            base,
            j,
            st,
        ) matches Some(Ok(t)) && t.buf == st.buf + fields_bytes(def.fields, fv, schema, endian, depth, j)
            && t.checksum_idx is None && t.autos.len() == 0),
        fuel + 1 >= depth ==> field_pass(def, fv, endian, schema, fuel, tracking, base, j, st) is Some,
        j < def.fields.len() ==> fields_bytes(def.fields, fv, schema, endian, depth, j).len() >= 1,
    decreases depth, fv, 0nat, def.fields.len() - j,
{
    if j < def.fields.len() {
        let f = def.fields[j as int];
        lemma_no_attrs(f);
        let v = field_value(fv, f)->0;
        let fe = order_of(f, endian);
        let d = (depth - 1) as nat;
        let b = plain_bytes(v, f.ty, schema, fe, d);
        let rest = fields_bytes(def.fields, fv, schema, endian, depth, j + 1);
        assert(fields_bytes(def.fields, fv, schema, endian, depth, j) == b + rest);
        lemma_value_encode(v, f.ty, fe, schema, fuel, d);
        if tracking {
            lemma_value_encode_tracked(v, f.ty, fe, schema, base + st.buf.len(), fuel, d);
        }
        let t = PassState {
            autos: st.autos + Seq::<(nat, FieldV, StructDefV)>::empty(),
            ..crate::encode::append_field(st, f.name, b)
        };
        let step = crate::encode::field_step(def, fv, endian, schema, fuel, tracking, base, j, st);
        if tracking {
            if crate::encode::spec_encode_value_tracked(v, f.ty, fe, schema, base + st.buf.len(), fuel)
                is Some {
                assert(step == Some(Ok::<PassState, crate::error::ErrorView>(t)));
            } else {
                assert(step is None);
            }
        } else {
            if spec_encode_value(v, f.ty, fe, schema, fuel) is Some {
                assert(step == Some(Ok::<PassState, crate::error::ErrorView>(PassState {
                    ..crate::encode::append_field(st, f.name, b)
                })));
                assert(t == crate::encode::append_field(st, f.name, b)) by {
                    assert(st.autos + Seq::<(nat, FieldV, StructDefV)>::empty() =~= st.autos);
                }
            } else {
                assert(step is None);
            }
        }
        assert(t.autos =~= Seq::<(nat, FieldV, StructDefV)>::empty());
        lemma_fields_pass(def, fv, endian, schema, fuel, tracking, base, depth, j + 1, t);
        assert(t.buf + rest =~= st.buf + (b + rest));
    } else {
        assert(st.buf + fields_bytes(def.fields, fv, schema, endian, depth, j) =~= st.buf);
    }
}

proof fn lemma_value_encode(
    v: ValueV,
    ty: TypeV,
    endian: Endianness,
    schema: SchemaV,
    fuel: nat,
    depth: nat,
)
    requires
        plain_decoded(v, ty, schema, endian, depth) is Some,
    ensures
        spec_encode_value(v, ty, endian, schema, fuel) is Some ==> spec_encode_value(
            v,
            ty,
            endian,
            schema,
            fuel,
        ) == Some(Ok::<Seq<u8>, crate::error::ErrorView>(plain_bytes(v, ty, schema, endian, depth))),
        fuel >= depth ==> spec_encode_value(v, ty, endian, schema, fuel) is Some,
        plain_bytes(v, ty, schema, endian, depth).len() >= 1,
    decreases depth, v, 1nat, 0nat,
{
    match (v, ty) {
        (ValueV::Str(s), TypeV::Str) => {
            crate::wire::lemma_int_bytes_len(utf8_len(s), 4, Endianness::Big);
        },
        (ValueV::Bytes(x), TypeV::Bytes) => {
            crate::wire::lemma_int_bytes_len(x.len(), 4, Endianness::Big);
        },
        (ValueV::Integer(n), TypeV::Bytes) => {
            crate::wire::lemma_int_bytes_len(spec_integer_to_byte_len(n) as nat, 4, Endianness::Big);
        },
        (ValueV::Array(items), TypeV::Vec(inner)) => {
            lemma_items_encode(items, *inner, endian, schema, fuel, depth, 0, Seq::empty());
            crate::wire::lemma_int_bytes_len(items.len(), 4, Endianness::Big);
            assert(Seq::<u8>::empty() + items_bytes(items, *inner, schema, endian, depth, 0)
                == items_bytes(items, *inner, schema, endian, depth, 0));
        },
        (ValueV::Array(items), TypeV::Array(inner, _)) => {
            lemma_items_encode(items, *inner, endian, schema, fuel, depth, 0, Seq::empty());
            assert(Seq::<u8>::empty() + items_bytes(items, *inner, schema, endian, depth, 0)
                == items_bytes(items, *inner, schema, endian, depth, 0));
        },
        (ValueV::Struct(name, pairs), TypeV::Custom(tname)) => {
            let def = schema.lookup(tname)->0;
            lemma_bare_fields(def.fields, endian);
            let bytes = fields_bytes(def.fields, pairs, schema, endian, depth, 0);
            if fuel > 0 {
                let f1 = (fuel - 1) as nat;
                let st = crate::encode::empty_pass();
                assert(st.buf + bytes =~= bytes);
                lemma_fields_pass(def, pairs, endian, schema, f1, false, 0, depth, 0, st);
                let fp = field_pass(def, pairs, endian, schema, f1, false, 0, 0, st);
                if fp is Some {
                    let t = fp->0->Ok_0;
                    lemma_def_len_plain(def.fields, pairs, endian, t.offsets, 0, t.buf);
                }
            } else {
                lemma_fields_pass(def, pairs, endian, schema, 0, false, 0, depth, 0, crate::encode::empty_pass());
            }
        },
        _ => {
            lemma_scalar_symmetry(v, ty, endian, schema, fuel, Seq::empty(), Seq::empty());
        },
    }
}

#[verifier::rlimit(50)]
proof fn lemma_value_encode_tracked(
    v: ValueV,
    ty: TypeV,
    endian: Endianness,
    schema: SchemaV,
    base: nat,
    fuel: nat,
    depth: nat,
)
    requires
        plain_decoded(v, ty, schema, endian, depth) is Some,
        base + plain_bytes(v, ty, schema, endian, depth).len() + 16 <= usize::MAX,
    ensures
        crate::encode::spec_encode_value_tracked(v, ty, endian, schema, base, fuel) is Some
            ==> crate::encode::spec_encode_value_tracked(v, ty, endian, schema, base, fuel) == Some(
            Ok::<(Seq<u8>, Seq<(nat, FieldV, StructDefV)>), crate::error::ErrorView>(
                (plain_bytes(v, ty, schema, endian, depth), Seq::empty()),
            ),
        ),
        fuel >= depth ==> crate::encode::spec_encode_value_tracked(v, ty, endian, schema, base, fuel)
            is Some,
    decreases depth, v, 2nat, 0nat,
{
    lemma_value_encode(v, ty, endian, schema, fuel, depth);
    match (v, ty) {
        (ValueV::Struct(name, pairs), TypeV::Custom(tname)) => {
            let def = schema.lookup(tname)->0;
            lemma_bare_fields(def.fields, endian);
            if fuel > 0 {
                let f1 = (fuel - 1) as nat;
                let st = crate::encode::empty_pass();
                assert(st.buf + fields_bytes(def.fields, pairs, schema, endian, depth, 0)
                    =~= fields_bytes(def.fields, pairs, schema, endian, depth, 0));
                lemma_fields_pass(def, pairs, endian, schema, f1, true, base, depth, 0, st);
                let fp = field_pass(def, pairs, endian, schema, f1, true, base, 0, st);
                if fp is Some {
                    let t = fp->0->Ok_0;
                    lemma_def_len_plain(def.fields, pairs, endian, t.offsets, 0, t.buf);
                    assert(t.autos =~= Seq::<(nat, FieldV, StructDefV)>::empty());
                    assert(t.buf =~= fields_bytes(def.fields, pairs, schema, endian, depth, 0));
                    assert(crate::encode::spec_encode_struct_tracked(def, pairs, endian, schema, base, f1)
                        == Some(
                        Ok::<(Seq<u8>, Seq<(nat, FieldV, StructDefV)>), crate::error::ErrorView>(
                            (t.buf, t.autos),
                        ),
                    ));
                }
            }
        },
        _ => {},
    }
}

proof fn lemma_items_encode(
    items: Seq<ValueV>,
    inner: TypeV,
    endian: Endianness,
    schema: SchemaV,
    fuel: nat,
    depth: nat,
    i: nat,
    acc: Seq<u8>,
)
    requires
        items_decoded(items, inner, schema, endian, depth, i) is Some,
    ensures
        crate::encode::spec_encode_items(ValueV::Array(items), inner, i, acc, endian, schema, fuel)
            is Some ==> crate::encode::spec_encode_items(
            ValueV::Array(items),
            inner,
            i,
            acc,
            endian,
            schema,
            fuel,
        ) == Some(
            Ok::<Seq<u8>, crate::error::ErrorView>(
                acc + items_bytes(items, inner, schema, endian, depth, i),
            ),
        ),
        fuel >= depth ==> crate::encode::spec_encode_items(
            ValueV::Array(items),
            inner,
            i,
            acc,
            endian,
            schema,
            fuel,
        ) is Some,
        i < items.len() ==> items_bytes(items, inner, schema, endian, depth, i).len() >= 1,
    decreases depth, items, 0nat, items.len() - i,
{
    if i < items.len() {
        lemma_value_encode(items[i as int], inner, endian, schema, fuel, depth);
        let b = plain_bytes(items[i as int], inner, schema, endian, depth);
        lemma_items_encode(items, inner, endian, schema, fuel, depth, i + 1, acc + b);
        assert(acc + b + items_bytes(items, inner, schema, endian, depth, i + 1) =~= acc
            + items_bytes(items, inner, schema, endian, depth, i));
    } else {
        assert(acc + items_bytes(items, inner, schema, endian, depth, i) =~= acc);
    }
}

#[verifier::rlimit(50)]
proof fn lemma_value_decode(
    v: ValueV,
    ty: TypeV,
    endian: Endianness,
    schema: SchemaV,
    fuel: nat,
    depth: nat,
    before: Seq<u8>,
    after: Seq<u8>,
)
    requires
        plain_decoded(v, ty, schema, endian, depth) is Some,
        before.len() + plain_bytes(v, ty, schema, endian, depth).len() + 16 <= usize::MAX,
    ensures
        spec_decode_value(
            before + plain_bytes(v, ty, schema, endian, depth) + after,
            before.len(),
            ty,
            schema,
            endian,
            fuel,
        ) is Some ==> spec_decode_value(
            before + plain_bytes(v, ty, schema, endian, depth) + after,
            before.len(),
            ty,
            schema,
            endian,
            fuel,
        ) == Some(
            Ok::<(DecodedV, nat), crate::error::ErrorView>(
                (
                    plain_decoded(v, ty, schema, endian, depth)->0,
                    plain_bytes(v, ty, schema, endian, depth).len(),
                ),
            ),
        ),
        fuel >= depth ==> spec_decode_value(
            before + plain_bytes(v, ty, schema, endian, depth) + after,
            before.len(),
            ty,
            schema,
            endian,
            fuel,
        ) is Some,
    decreases depth, v, 1nat, 0nat,
{
    let b = plain_bytes(v, ty, schema, endian, depth);
    let data = before + b + after;
    let o = before.len();
    lemma_value_encode(v, ty, endian, schema, fuel, depth);
    match (v, ty) {
        (ValueV::Str(s), TypeV::Str) => {
            let body = encode_utf8(s);
            crate::wire::lemma_int_bytes_len(body.len(), 4, Endianness::Big);
            lemma_prefixed(body, schema, before, after);
            vstd::utf8::encode_utf8_valid_utf8(s);
            vstd::utf8::encode_utf8_decode_utf8(s);
        },
        (ValueV::Bytes(x), TypeV::Bytes) => {
            crate::wire::lemma_int_bytes_len(x.len(), 4, Endianness::Big);
            lemma_prefixed(x, schema, before, after);
        },
        (ValueV::Integer(n), TypeV::Bytes) => {
            let w = spec_integer_to_byte_len(n) as nat;
            let body = int_bytes((n as u128) as nat, w, endian);
            crate::wire::lemma_int_bytes_len((n as u128) as nat, w, endian);
            crate::wire::lemma_int_bytes_len(w, 4, Endianness::Big);
            lemma_pow256_small();
            lemma_prefixed(body, schema, before, after);
        },
        (ValueV::Array(items), TypeV::Vec(inner)) => {
            let prefix = length_prefix(schema, items.len());
            let body = items_bytes(items, *inner, schema, endian, depth, 0);
            crate::wire::lemma_int_bytes_len(items.len(), 4, Endianness::Big);
            crate::wire::lemma_int_roundtrip(items.len(), 4, Endianness::Big);
            assert(data.subrange(o as int, (o + 4) as int) =~= prefix);
            let ds = items_decoded(items, *inner, schema, endian, depth, 0)->0;
            lemma_items_decode(
                items,
                *inner,
                endian,
                schema,
                fuel,
                depth,
                0,
                before + prefix,
                after,
                Seq::empty(),
            );
            assert(before + prefix + body + after =~= data);
            assert(Seq::<DecodedV>::empty() + ds =~= ds);
        },
        (ValueV::Array(items), TypeV::Array(inner, _)) => {
            let ds = items_decoded(items, *inner, schema, endian, depth, 0)->0;
            lemma_items_decode(items, *inner, endian, schema, fuel, depth, 0, before, after, Seq::empty());
            assert(Seq::<DecodedV>::empty() + ds =~= ds);
        },
        (ValueV::Struct(name, pairs), TypeV::Custom(tname)) => {
            let def = schema.lookup(tname)->0;
            let ps = fields_decoded(def.fields, pairs, schema, endian, depth, 0)->0;
            if fuel > 0 {
                lemma_fields_decode(
                    def,
                    pairs,
                    endian,
                    schema,
                    (fuel - 1) as nat,
                    depth,
                    0,
                    before,
                    after,
                    Seq::empty(),
                );
                assert(Seq::<(Seq<char>, DecodedV)>::empty() + ps =~= ps);
            }
        },
        _ => {
            lemma_scalar_symmetry(v, ty, endian, schema, fuel, before, after);
        },
    }
}

proof fn lemma_items_decode(
    items: Seq<ValueV>,
    inner: TypeV,
    endian: Endianness,
    schema: SchemaV,
    fuel: nat,
    depth: nat,
    i: nat,
    before: Seq<u8>,
    after: Seq<u8>,
    acc: Seq<DecodedV>,
)
    requires
        items_decoded(items, inner, schema, endian, depth, i) is Some,
        i <= items.len(),
        before.len() + items_bytes(items, inner, schema, endian, depth, i).len() + 16 <= usize::MAX,
    ensures
        crate::decode::spec_decode_items(
            before + items_bytes(items, inner, schema, endian, depth, i) + after,
            before.len(),
            inner,
            (items.len() - i) as nat,
            acc,
            schema,
            endian,
            fuel,
        ) is Some ==> crate::decode::spec_decode_items(
            before + items_bytes(items, inner, schema, endian, depth, i) + after,
            before.len(),
            inner,
            (items.len() - i) as nat,
            acc,
            schema,
            endian,
            fuel,
        ) == Some(
            Ok::<(Seq<DecodedV>, nat), crate::error::ErrorView>(
                (
                    acc + items_decoded(items, inner, schema, endian, depth, i)->0,
                    before.len() + items_bytes(items, inner, schema, endian, depth, i).len(),
                ),
            ),
        ),
        fuel >= depth ==> crate::decode::spec_decode_items(
            before + items_bytes(items, inner, schema, endian, depth, i) + after,
            before.len(),
            inner,
            (items.len() - i) as nat,
            acc,
            schema,
            endian,
            fuel,
        ) is Some,
    decreases depth, items, 0nat, items.len() - i,
{
    if i < items.len() {
        let v = items[i as int];
        let b = plain_bytes(v, inner, schema, endian, depth);
        let rest = items_bytes(items, inner, schema, endian, depth, i + 1);
        let data = before + items_bytes(items, inner, schema, endian, depth, i) + after;
        assert(data =~= before + b + (rest + after));
        lemma_value_decode(v, inner, endian, schema, fuel, depth, before, rest + after);
        let d = plain_decoded(v, inner, schema, endian, depth)->0;
        assert(data =~= (before + b) + rest + after);
        lemma_items_decode(items, inner, endian, schema, fuel, depth, i + 1, before + b, after, acc.push(d));
        let ds = items_decoded(items, inner, schema, endian, depth, i + 1)->0;
        assert(acc.push(d) + ds =~= acc + items_decoded(items, inner, schema, endian, depth, i)->0);
    } else {
        assert(acc + items_decoded(items, inner, schema, endian, depth, i)->0 =~= acc);
        assert(before + items_bytes(items, inner, schema, endian, depth, i) + after =~= before + after);
    }
}

proof fn lemma_fields_decode(
    def: StructDefV,
    fv: Seq<(Seq<char>, ValueV)>,
    endian: Endianness,
    schema: SchemaV,
    fuel: nat,
    depth: nat,
    j: nat,
    before: Seq<u8>,
    after: Seq<u8>,
    acc: Seq<(Seq<char>, DecodedV)>,
)
    requires
        no_attributes(def.fields),
        fields_decoded(def.fields, fv, schema, endian, depth, j) is Some,
        j <= def.fields.len(),
        before.len() + fields_bytes(def.fields, fv, schema, endian, depth, j).len() + 16 <= usize::MAX,
    ensures
        crate::decode::spec_decode_fields(
            before + fields_bytes(def.fields, fv, schema, endian, depth, j) + after,
            before.len(),
            def,
            j,
            acc,
            schema,
            endian,
            fuel,
        ) is Some ==> crate::decode::spec_decode_fields(
            before + fields_bytes(def.fields, fv, schema, endian, depth, j) + after,
            before.len(),
            def,
            j,
            acc,
            schema,
            endian,
            fuel,
        ) == Some(
            Ok::<(Seq<(Seq<char>, DecodedV)>, nat), crate::error::ErrorView>(
                (
                    acc + fields_decoded(def.fields, fv, schema, endian, depth, j)->0,
                    before.len() + fields_bytes(def.fields, fv, schema, endian, depth, j).len(),
                ),
            ),
        ),
        fuel + 1 >= depth ==> crate::decode::spec_decode_fields(
            before + fields_bytes(def.fields, fv, schema, endian, depth, j) + after,
            before.len(),
            def,
            j,
            acc,
            schema,
            endian,
            fuel,
        ) is Some,
    decreases depth, fv, 0nat, def.fields.len() - j,
{
    lemma_bare_fields(def.fields, endian);
    if j < def.fields.len() {
        let f = def.fields[j as int];
        let v = field_value(fv, f)->0;
        let dd = (depth - 1) as nat;
        assert(order_of(f, endian) == endian);
        let b = plain_bytes(v, f.ty, schema, endian, dd);
        let rest = fields_bytes(def.fields, fv, schema, endian, depth, j + 1);
        let data = before + fields_bytes(def.fields, fv, schema, endian, depth, j) + after;
        assert(data =~= before + b + (rest + after));
        lemma_value_decode(v, f.ty, endian, schema, fuel, dd, before, rest + after);
        let d = plain_decoded(v, f.ty, schema, endian, dd)->0;
        assert(data =~= (before + b) + rest + after);
        lemma_fields_decode(def, fv, endian, schema, fuel, depth, j + 1, before + b, after, acc.push((f.name, d)));
        let ds = fields_decoded(def.fields, fv, schema, endian, depth, j + 1)->0;
        assert(acc.push((f.name, d)) + ds =~= acc + fields_decoded(def.fields, fv, schema, endian, depth, j)->0);
    } else {
        assert(acc + fields_decoded(def.fields, fv, schema, endian, depth, j)->0 =~= acc);
        assert(before + fields_bytes(def.fields, fv, schema, endian, depth, j) + after =~= before + after);
    }
}

/// The codec symmetry law for plain values: a plain value with structs
/// nested at most `depth` deep is encoded as its type to `plain_bytes`
/// whenever encoding ends within the nesting budget `fuel`, which it does
/// when `fuel` is at least `depth`; and those bytes, placed at any offset of
/// any buffer that fits in memory, decode back to the value, taking exactly
/// the bytes written, likewise.
pub proof fn lemma_value_symmetry(
    v: ValueV,
    ty: TypeV,
    endian: Endianness,
    schema: SchemaV,
    fuel: nat,
    depth: nat,
    before: Seq<u8>,
    after: Seq<u8>,
)
    requires
        plain_decoded(v, ty, schema, endian, depth) is Some,
        before.len() + plain_bytes(v, ty, schema, endian, depth).len() + 16 <= usize::MAX,
    ensures
        spec_encode_value(v, ty, endian, schema, fuel) is Some ==> spec_encode_value(
            v,
            ty,
            endian,
            schema,
            fuel,
        ) == Some(Ok::<Seq<u8>, crate::error::ErrorView>(plain_bytes(v, ty, schema, endian, depth))),
        fuel >= depth ==> spec_encode_value(v, ty, endian, schema, fuel) is Some,
        spec_decode_value(
            before + plain_bytes(v, ty, schema, endian, depth) + after,
            before.len(),
            ty,
            schema,
            endian,
            fuel,
        ) is Some ==> spec_decode_value(
            before + plain_bytes(v, ty, schema, endian, depth) + after,
            before.len(),
            ty,
            schema,
            endian,
            fuel,
        ) == Some(
            Ok::<(DecodedV, nat), crate::error::ErrorView>(
                (
                    plain_decoded(v, ty, schema, endian, depth)->0,
                    plain_bytes(v, ty, schema, endian, depth).len(),
                ),
            ),
        ),
        fuel >= depth ==> spec_decode_value(
            before + plain_bytes(v, ty, schema, endian, depth) + after,
            before.len(),
            ty,
            schema,
            endian,
            fuel,
        ) is Some,
{
    lemma_value_encode(v, ty, endian, schema, fuel, depth);
    lemma_value_decode(v, ty, endian, schema, fuel, depth, before, after);
}

proof fn lemma_items_width(
    items: Seq<ValueV>,
    inner: TypeV,
    schema: SchemaV,
    endian: Endianness,
    depth: nat,
    i: nat,
)
    requires
        items_decoded(items, inner, schema, endian, depth, i) is Some,
        prim_width(inner) is Some,
        i <= items.len(),
    ensures
        items_bytes(items, inner, schema, endian, depth, i).len() == (items.len() - i) * prim_width(
            inner,
        )->0,
    decreases items.len() - i,
{
    let w = prim_width(inner)->0;
    if i < items.len() {
        lemma_items_width(items, inner, schema, endian, depth, i + 1);
        let v = items[i as int];
        assert(plain_decoded(v, inner, schema, endian, depth) is Some);
        assert(plain_decoded(v, inner, schema, endian, depth) == scalar_decoded(v, inner));
        assert(plain_bytes(v, inner, schema, endian, depth) == scalar_bytes(v, inner, endian));
        lemma_scalar_symmetry(v, inner, endian, schema, 0, Seq::empty(), Seq::empty());
        let k = items.len() - i;
        assert(items_bytes(items, inner, schema, endian, depth, i).len() == w + items_bytes(
            items,
            inner,
            schema,
            endian,
            depth,
            i + 1,
        ).len());
        assert(w + (k - 1) * w == k * w) by (nonlinear_arith);
    } else {
        assert((items.len() - i) * w == 0) by (nonlinear_arith)
            requires
                items.len() - i == 0,
        ;
    }
}

/// The layout of encoded plain values: a scalar takes its type's width; a
/// string is its UTF-8 byte count as four big-endian bytes, whatever the byte
/// order, then its UTF-8 bytes; a byte array likewise with its bytes; a
/// `Vec` starts with its item count as four big-endian bytes and, for items
/// of a fixed-width type, takes four bytes plus that width per item; a
/// fixed-size array of a fixed-width type takes that width per item.
pub proof fn lemma_encoded_layout(
    v: ValueV,
    ty: TypeV,
    schema: SchemaV,
    endian: Endianness,
    depth: nat,
)
    requires
        plain_decoded(v, ty, schema, endian, depth) is Some,
    ensures
        ({
            let b = plain_bytes(v, ty, schema, endian, depth);
            match (v, ty) {
                (ValueV::Str(s), TypeV::Str) => b == int_bytes(utf8_len(s), 4, Endianness::Big)
                    + encode_utf8(s) && b.len() == 4 + utf8_len(s),
                (ValueV::Bytes(x), TypeV::Bytes) => b == int_bytes(x.len(), 4, Endianness::Big) + x
                    && b.len() == 4 + x.len(),
                (ValueV::Array(items), TypeV::Vec(inner)) => b.subrange(0, 4) == int_bytes(
                    items.len(),
                    4,
                    Endianness::Big,
                ) && (prim_width(*inner) is Some ==> b.len() == 4 + items.len() * prim_width(
                    *inner,
                )->0),
                (ValueV::Array(items), TypeV::Array(inner, n)) => prim_width(*inner) is Some
                    ==> b.len() == n * prim_width(*inner)->0,
                _ => scalar_decoded(v, ty) is Some ==> b.len() == prim_width(ty)->0,
            }
        }),
{
    let b = plain_bytes(v, ty, schema, endian, depth);
    match (v, ty) {
        (ValueV::Str(s), TypeV::Str) => {
            crate::wire::lemma_int_bytes_len(utf8_len(s), 4, Endianness::Big);
        },
        (ValueV::Bytes(x), TypeV::Bytes) => {
            crate::wire::lemma_int_bytes_len(x.len(), 4, Endianness::Big);
        },
        (ValueV::Array(items), TypeV::Vec(inner)) => {
            crate::wire::lemma_int_bytes_len(items.len(), 4, Endianness::Big);
            let p = int_bytes(items.len(), 4, Endianness::Big);
            assert(b.subrange(0, 4) =~= p);
            if prim_width(*inner) is Some {
                lemma_items_width(items, *inner, schema, endian, depth, 0);
            }
        },
        (ValueV::Array(items), TypeV::Array(inner, n)) => {
            if prim_width(*inner) is Some {
                lemma_items_width(items, *inner, schema, endian, depth, 0);
            }
        },
        _ => {
            if scalar_decoded(v, ty) is Some {
                lemma_scalar_symmetry(v, ty, endian, schema, 0, Seq::empty(), Seq::empty());
            }
        },
    }
}

/// A length-prefixed run of bytes, placed in a buffer, reads back as its
/// length and content.
proof fn lemma_prefixed(body: Seq<u8>, schema: SchemaV, before: Seq<u8>, after: Seq<u8>)
    requires
        schema.is_prefix_enabled(),
        body.len() < pow256(4),
        before.len() + 4 + body.len() + 16 <= usize::MAX,
    ensures
        ({
            let data = before + (length_prefix(schema, body.len()) + body) + after;
            let o = before.len();
            &&& length_prefix(schema, body.len()).len() == 4
            &&& data.len() >= o + 4 + body.len()
            &&& crate::decode::spec_check(data.len(), o, 4) == Some(Ok::<(), crate::error::ErrorView>(()))
            &&& crate::wire::bytes_value(data.subrange(o as int, (o + 4) as int), Endianness::Big) == body.len()
            &&& crate::decode::spec_check(data.len(), o + 4, body.len()) == Some(Ok::<(), crate::error::ErrorView>(()))
            &&& data.subrange((o + 4) as int, (o + 4 + body.len()) as int) == body
        }),
{
    let prefix = length_prefix(schema, body.len());
    crate::wire::lemma_int_roundtrip(body.len(), 4, Endianness::Big);
    let data = before + (prefix + body) + after;
    let o = before.len();
    assert(data.subrange(o as int, (o + 4) as int) =~= prefix);
    assert(data.subrange((o + 4) as int, (o + 4 + body.len()) as int) =~= body);
}

/// Every attribute of a field gives its byte order or its condition.
pub open spec fn simple_attrs(attrs: Seq<crate::ast::FieldAttributeV>) -> bool {
    forall|i: int| 0 <= i < attrs.len() ==> (#[trigger] attrs[i]) is Endian || attrs[i] is If
}

proof fn lemma_simple_attrs(attrs: Seq<crate::ast::FieldAttributeV>)
    requires
        simple_attrs(attrs),
    ensures
        auto_attr(attrs) is None,
        checksum_attr(attrs) is None,
        len_ref_attr(attrs) is None,
        !has_remaining(attrs),
        bits_attr(attrs) is None,
        bit_attr(attrs) is None,
    decreases attrs.len(),
{
    if attrs.len() > 0 {
        assert(attrs[0] is Endian || attrs[0] is If);
        let rest = attrs.drop_first();
        assert forall|i: int| 0 <= i < rest.len() implies (#[trigger] rest[i]) is Endian
            || rest[i] is If by {
            assert(rest[i] == attrs[i + 1]);
        }
        lemma_simple_attrs(rest);
    }
}

proof fn lemma_simple_field(f: FieldV)
    requires
        simple_attrs(f.attributes),
    ensures
        auto_attr(f.attributes) is None,
        checksum_attr(f.attributes) is None,
        len_ref_attr(f.attributes) is None,
        !has_remaining(f.attributes),
        crate::receive::bit_key(f) is None,
{
    lemma_simple_attrs(f.attributes);
}

/// The attributes are `#[auto]` or `#[auto(field)]`, with at most byte
/// orders besides.
pub open spec fn auto_attrs(attrs: Seq<crate::ast::FieldAttributeV>) -> bool {
    &&& auto_attr(attrs) is Some
    &&& forall|i: int| 0 <= i < attrs.len() ==> (#[trigger] attrs[i]) is Auto || attrs[i] is Endian
}

/// A length field: `#[auto]` or `#[auto(field)]` (with at most a byte order
/// besides) on an unsigned type of at most 64 bits.
pub open spec fn is_auto_field(f: FieldV) -> bool {
    auto_attrs(f.attributes) && uint_width(f.ty) is Some
}

/// The attributes are `#[checksum(..)]`, with at most byte orders besides.
pub open spec fn checksum_attrs(attrs: Seq<crate::ast::FieldAttributeV>) -> bool {
    &&& checksum_attr(attrs) is Some
    &&& forall|i: int| 0 <= i < attrs.len() ==> (#[trigger] attrs[i]) is Checksum || attrs[i] is Endian
}

/// A checksum field: `#[checksum(..)]` (with at most a byte order besides)
/// on an unsigned type of at most 64 bits.
pub open spec fn is_checksum_field(f: FieldV) -> bool {
    checksum_attrs(f.attributes) && uint_width(f.ty) is Some
}

/// A field whose bytes the encoder computes: a length or checksum field.
pub open spec fn is_computed_field(f: FieldV) -> bool {
    is_auto_field(f) || is_checksum_field(f)
}

/// The attributes without the `#[auto(..)]` and `#[checksum(..)]` ones.
pub open spec fn without_computed(attrs: Seq<crate::ast::FieldAttributeV>) -> Seq<
    crate::ast::FieldAttributeV,
>
    decreases attrs.len(),
{
    if attrs.len() == 0 {
        Seq::empty()
    } else if attrs[0] is Auto || attrs[0] is Checksum {
        without_computed(attrs.drop_first())
    } else {
        seq![attrs[0]] + without_computed(attrs.drop_first())
    }
}

proof fn lemma_computed_attrs(attrs: Seq<crate::ast::FieldAttributeV>, e: Endianness)
    requires
        forall|i: int|
            0 <= i < attrs.len() ==> (#[trigger] attrs[i]) is Auto || attrs[i] is Checksum
                || attrs[i] is Endian,
    ensures
        len_ref_attr(attrs) is None,
        !has_remaining(attrs),
        bits_attr(attrs) is None,
        bit_attr(attrs) is None,
        if_attr(attrs) is None,
        (forall|i: int| 0 <= i < attrs.len() ==> !((#[trigger] attrs[i]) is Checksum)) ==> checksum_attr(
            attrs,
        ) is None,
        (forall|i: int| 0 <= i < attrs.len() ==> !((#[trigger] attrs[i]) is Auto)) ==> auto_attr(
            attrs,
        ) is None,
        simple_attrs(without_computed(attrs)),
        if_attr(without_computed(attrs)) is None,
        field_endian(without_computed(attrs), e) == field_endian(attrs, e),
    decreases attrs.len(),
{
    if attrs.len() > 0 {
        let rest = attrs.drop_first();
        assert forall|i: int| 0 <= i < rest.len() implies (#[trigger] rest[i]) is Auto
            || rest[i] is Checksum || rest[i] is Endian by {
            assert(rest[i] == attrs[i + 1]);
        }
        lemma_computed_attrs(rest, e);
        assert(attrs[0] is Auto || attrs[0] is Checksum || attrs[0] is Endian);
        if forall|i: int| 0 <= i < attrs.len() ==> !((#[trigger] attrs[i]) is Checksum) {
            assert forall|i: int| 0 <= i < rest.len() implies !((#[trigger] rest[i]) is Checksum) by {
                assert(rest[i] == attrs[i + 1]);
            }
        }
        if forall|i: int| 0 <= i < attrs.len() ==> !((#[trigger] attrs[i]) is Auto) {
            assert forall|i: int| 0 <= i < rest.len() implies !((#[trigger] rest[i]) is Auto) by {
                assert(rest[i] == attrs[i + 1]);
            }
        }
        let w = without_computed(attrs);
        let wr = without_computed(rest);
        if !(attrs[0] is Auto || attrs[0] is Checksum) {
            assert(w == seq![attrs[0]] + wr);
            assert(w.drop_first() =~= wr);
            assert forall|i: int| 0 <= i < w.len() implies (#[trigger] w[i]) is Endian
                || w[i] is If by {
                if i > 0 {
                    assert(w[i] == wr[i - 1]);
                }
            }
        }
    }
}

/// What the attributes of a computed field decide.
proof fn lemma_computed_field(f: FieldV, e: Endianness)
    requires
        is_computed_field(f),
    ensures
        is_auto_field(f) ==> checksum_attr(f.attributes) is None,
        is_checksum_field(f) ==> !crate::attrs::has_auto(f.attributes),
        len_ref_attr(f.attributes) is None,
        !has_remaining(f.attributes),
        crate::receive::bit_key(f) is None,
        if_attr(f.attributes) is None,
        simple_attrs(without_computed(f.attributes)),
        if_attr(without_computed(f.attributes)) is None,
        field_endian(without_computed(f.attributes), e) == field_endian(f.attributes, e),
{
    let a = f.attributes;
    if is_auto_field(f) {
        assert forall|i: int| 0 <= i < a.len() implies !((#[trigger] a[i]) is Checksum) by {
            assert(a[i] is Auto || a[i] is Endian);
        }
    } else {
        assert forall|i: int| 0 <= i < a.len() implies !((#[trigger] a[i]) is Auto) by {
            assert(a[i] is Checksum || a[i] is Endian);
        }
    }
    lemma_computed_attrs(a, e);
}

/// What the attributes of a bit field decide.
proof fn lemma_bit_field(f: FieldV)
    requires
        is_bit_field(f),
    ensures
        auto_attr(f.attributes) is None,
        checksum_attr(f.attributes) is None,
        len_ref_attr(f.attributes) is None,
        !has_remaining(f.attributes),
        if_attr(f.attributes) is None,
        !is_computed_field(f),
        !endian_only(f.attributes),
        !simple_attrs(f.attributes),
        crate::receive::bit_key(f) is Some,
{
    crate::bit_groups::lemma_bit_attrs(f.attributes);
    if endian_only(f.attributes) {
        lemma_endian_attrs(f.attributes);
    }
    if simple_attrs(f.attributes) {
        lemma_simple_attrs(f.attributes);
    }
}

/// The index of the first field named `name`.
pub open spec fn first_index(fields: Seq<FieldV>, name: Seq<char>) -> Option<nat>
    decreases fields.len(),
{
    if fields.len() == 0 {
        None
    } else if fields[0].name == name {
        Some(0)
    } else {
        match first_index(fields.drop_first(), name) {
            Some(k) => Some(k + 1),
            None => None,
        }
    }
}

proof fn lemma_first_index(fields: Seq<FieldV>, name: Seq<char>)
    ensures
        first_index(fields, name) matches Some(k) ==> k < fields.len() && fields[k as int].name
            == name && crate::encode::find_field(fields, name) == Some(fields[k as int]) && forall|m: int|
            0 <= m < k ==> (#[trigger] fields[m]).name != name,
    decreases fields.len(),
{
    if fields.len() > 0 && fields[0].name != name {
        let rest = fields.drop_first();
        lemma_first_index(rest, name);
        if first_index(rest, name) is Some {
            let k = first_index(rest, name)->0;
            assert(rest[k as int] == fields[(k + 1) as int]);
            assert forall|m: int| 0 <= m < k + 1 implies (#[trigger] fields[m]).name != name by {
                if m > 0 {
                    assert(rest[m - 1] == fields[m]);
                }
            }
        }
    }
}

/// Field `j` of `def` is written: it has no `#[if(..)]`, or its condition
/// is `true`.
pub open spec fn is_present(def: StructDefV, fv: Seq<(Seq<char>, ValueV)>, j: int) -> bool {
    match if_attr(def.fields[j].attributes) {
        None => true,
        Some(c) => condition_value(def.fields, fv, c) == Some(ValueV::Bool(true)),
    }
}

/// The condition of field `j`, if it has one, names an earlier field
/// without a condition and not a bit field, the first of that name, of type
/// `bool`, whose value is the condition's value.
pub open spec fn condition_ok(def: StructDefV, fv: Seq<(Seq<char>, ValueV)>, j: int) -> bool {
    match if_attr(def.fields[j].attributes) {
        None => true,
        Some(c) => match first_index(def.fields, c) {
            Some(k) => {
                &&& k < j
                &&& if_attr(def.fields[k as int].attributes) is None
                &&& !is_bit_field(def.fields[k as int])
                &&& def.fields[k as int].ty == TypeV::Bool
                &&& field_value(fv, def.fields[k as int]) matches Some(ValueV::Bool(_))
                &&& condition_value(def.fields, fv, c) == field_value(fv, def.fields[k as int])
            },
            None => false,
        },
    }
}

/// The decoded form of the value of a `String`, `Bytes` or `Vec` field
/// written without a length prefix: the text, the bytes, or the plain
/// items. `None` for anything else.
pub open spec fn raw_decoded(v: ValueV, ty: TypeV, schema: SchemaV, endian: Endianness, depth: nat) -> Option<
    DecodedV,
> {
    match (v, ty) {
        (ValueV::Str(s), TypeV::Str) => Some(DecodedV::Str(s)),
        (ValueV::Bytes(b), TypeV::Bytes) => Some(DecodedV::Bytes(b)),
        (ValueV::Integer(n), TypeV::Bytes) => Some(
            DecodedV::Bytes(int_bytes((n as u128) as nat, spec_integer_to_byte_len(n) as nat, endian)),
        ),
        (ValueV::Array(items), TypeV::Vec(inner)) => match items_decoded(items, *inner, schema, endian, depth, 0) {
            Some(ds) => Some(DecodedV::List(ds)),
            None => None,
        },
        _ => None,
    }
}

/// The length of a value as a count: text bytes, bytes, or items.
pub open spec fn raw_count(v: ValueV) -> nat {
    match v {
        ValueV::Str(s) => utf8_len(s),
        ValueV::Bytes(b) => b.len(),
        ValueV::Integer(n) => spec_integer_to_byte_len(n) as nat,
        ValueV::Array(items) => items.len(),
        _ => 0,
    }
}

/// Field `i` is written without a length prefix: length prefixes are off,
/// it carries at most a byte order, no other field has its name, and its
/// value is a text, bytes, or a `Vec` of plain items (see `raw_decoded`).
pub open spec fn is_raw_field(def: StructDefV, schema: SchemaV, endian: Endianness, depth: nat, i: int) -> bool {
    let f = def.fields[i];
    let fv = own_bindings(def.fields);
    &&& !schema.is_prefix_enabled()
    &&& endian_only(f.attributes)
    &&& forall|m: int| 0 <= m < def.fields.len() && m != i ==> def.fields[m].name != f.name
    &&& field_value(fv, f) is Some
    &&& raw_decoded(field_value(fv, f)->0, f.ty, schema, order_of(f, endian), depth) is Some
}

/// Field `i` of `send` is counted by the field named `c`: the first field
/// of that name is an earlier length field `#[auto(..)]` naming field `i`,
/// wide enough to hold its count.
pub open spec fn counted_by(send: StructDefV, i: int, c: Seq<char>) -> bool {
    match first_index(send.fields, c) {
        Some(k) => {
            &&& k < i
            &&& is_auto_field(send.fields[k as int])
            &&& auto_attr(send.fields[k as int].attributes) == Some(Some(send.fields[i].name))
            &&& raw_count(field_value(own_bindings(send.fields), send.fields[i])->0) < pow256(
                uint_width(send.fields[k as int].ty)->0,
            )
        },
        None => false,
    }
}

/// Field `r` receives field `i` of `send`, which carries at most a byte
/// order, with `#[len_ref(c)]` and the same byte order, where `c` counts
/// field `i` (see `counted_by`).
pub open spec fn received_counted(r: FieldV, send: StructDefV, i: int) -> bool {
    &&& endian_only(send.fields[i].attributes)
    &&& len_ref_attrs(r.attributes)
    &&& len_ref_attr(r.attributes) matches Some(c) && counted_by(send, i, c)
    &&& forall|e: Endianness| field_endian(r.attributes, e) == field_endian(send.fields[i].attributes, e)
}

/// The attributes are `#[len_ref(..)]` and byte orders.
pub open spec fn len_ref_attrs(attrs: Seq<crate::ast::FieldAttributeV>) -> bool {
    forall|i: int| 0 <= i < attrs.len() ==> (#[trigger] attrs[i]) is LenRef || attrs[i] is Endian
}

/// The index of the first bit field from index `j` on.
pub open spec fn first_bit_from(fields: Seq<FieldV>, j: nat) -> Option<nat>
    decreases fields.len() - j,
{
    if j >= fields.len() {
        None
    } else if is_bit_field(fields[j as int]) {
        Some(j)
    } else {
        first_bit_from(fields, j + 1)
    }
}

/// The index of the first bit field.
pub open spec fn first_bit(fields: Seq<FieldV>) -> Option<nat> {
    first_bit_from(fields, 0)
}

/// The storage width in bits of the struct's bit-field group (that of its
/// first bit field).
pub open spec fn bit_group_key(def: StructDefV) -> usize {
    crate::receive::bit_key(def.fields[first_bit(def.fields)->0 as int])->0
}

/// The storage word that the encoder builds for the bit-field group.
pub open spec fn bit_group_word(def: StructDefV) -> u64 {
    crate::encode::group_word(def.fields, 0, bit_group_key(def), own_bindings(def.fields), 0)->0
}

/// The bytes of the bit-field group: the low bytes of its word, as many as
/// its width has, in the byte order of its first field.
pub open spec fn bit_group_bytes(def: StructDefV, endian: Endianness) -> Seq<u8> {
    int_bytes(
        bit_group_word(def) as nat,
        (bit_group_key(def) / 8) as nat,
        order_of(def.fields[first_bit(def.fields)->0 as int], endian),
    )
}

/// The word that decoding reads back for the bit-field group.
pub open spec fn bit_group_raw(def: StructDefV) -> u64 {
    ((bit_group_word(def) as nat) % pow256((bit_group_key(def) / 8) as nat)) as u64
}

/// Field `i` is a bit field of the struct's one bit-field group, whose name
/// no other field carries.
pub open spec fn is_group_field(def: StructDefV, i: int) -> bool {
    &&& is_bit_field(def.fields[i])
    &&& forall|m: int|
        0 <= m < def.fields.len() && crate::receive::bit_key(#[trigger] def.fields[m]) is Some
            ==> crate::receive::bit_key(def.fields[m]) == crate::receive::bit_key(def.fields[i])
    &&& forall|m: int| 0 <= m < def.fields.len() && m != i ==> def.fields[m].name != def.fields[i].name
}

/// A `#[send]` struct of plain fields: each field is a length field (see
/// `is_auto_field`), a checksum field (see `is_checksum_field`) whose name
/// no other field carries, a field written without a length prefix (see
/// `is_raw_field`), a bit field of its one bit-field group (see
/// `is_group_field`), or carries no attribute but `#[endian(..)]` and
/// `#[if(..)]`, each condition naming an earlier `bool` field (see
/// `condition_ok`), has a value, and, where it is written, holds a plain
/// value (see `plain_decoded`) for its type in its byte order, with structs
/// nested at most `depth` deep.
pub open spec fn plain_send(def: StructDefV, schema: SchemaV, endian: Endianness, depth: nat) -> bool {
    let fv = own_bindings(def.fields);
    &&& def.direction == Some(Direction::Send)
    &&& forall|i: int|
        0 <= i < def.fields.len() ==> is_auto_field(#[trigger] def.fields[i]) || (is_checksum_field(
            def.fields[i],
        ) && forall|m: int| 0 <= m < def.fields.len() && m != i ==> def.fields[m].name != def.fields[i].name)
            || is_raw_field(def, schema, endian, depth, i) || is_group_field(def, i) || {
            &&& simple_attrs(def.fields[i].attributes)
            &&& condition_ok(def, fv, i)
            &&& field_value(fv, def.fields[i]) is Some
            &&& is_present(def, fv, i) ==> plain_decoded(
                field_value(fv, def.fields[i])->0,
                def.fields[i].ty,
                schema,
                order_of(def.fields[i], endian),
                depth,
            ) is Some
        }
}

/// A `#[receive]` struct with the names and types of the fields of `send`,
/// in the same order, and their attributes, except that: a length or
/// checksum field of `send` may be received without its `#[auto(..)]` or
/// `#[checksum(..)]`; a field of `send` with at most a byte order may be
/// received with `#[len_ref(c)]` and the same byte order, where it is
/// counted by `c` (see `counted_by`); and with length prefixes off, a
/// `String`, `Bytes` or `Vec` field is received so.
pub open spec fn receives_as(recv: StructDefV, send: StructDefV, schema: SchemaV) -> bool {
    &&& recv.direction == Some(Direction::Receive)
    &&& recv.fields.len() == send.fields.len()
    &&& forall|i: int|
        0 <= i < recv.fields.len() ==> {
            &&& (#[trigger] recv.fields[i]).name == send.fields[i].name
            &&& recv.fields[i].ty == send.fields[i].ty
            &&& ((recv.fields[i].attributes == send.fields[i].attributes && (schema.is_prefix_enabled()
                || !crate::receive::is_length_carrying(send.fields[i].ty))) || (is_computed_field(
                send.fields[i],
            ) && recv.fields[i].attributes == without_computed(send.fields[i].attributes))
                || received_counted(recv.fields[i], send, i))
        }
}

/// The bytes of the first encoding pass for field `j`: zeros in place of a
/// length or checksum field, the bit-field group's bytes at its first
/// field, else the bytes of its value where it is written.
pub open spec fn frame_part(def: StructDefV, schema: SchemaV, endian: Endianness, depth: nat, j: int) -> Seq<u8> {
    let f = def.fields[j];
    if is_computed_field(f) {
        zeros(uint_width(f.ty)->0)
    } else if is_bit_field(f) {
        if first_bit(def.fields) == Some(j as nat) {
            bit_group_bytes(def, endian)
        } else {
            Seq::empty()
        }
    } else if is_present(def, own_bindings(def.fields), j) {
        plain_bytes(field_value(own_bindings(def.fields), f)->0, f.ty, schema, order_of(f, endian), depth)
    } else {
        Seq::empty()
    }
}

/// The bytes of the first encoding pass over the first `k` fields.
pub open spec fn frame_upto(def: StructDefV, schema: SchemaV, endian: Endianness, depth: nat, k: nat) -> Seq<u8>
    decreases k,
{
    if k == 0 || k > def.fields.len() {
        Seq::empty()
    } else {
        frame_upto(def, schema, endian, depth, (k - 1) as nat) + frame_part(def, schema, endian, depth, k - 1)
    }
}

/// The number that length field `j` holds: the total size of the encoding
/// for `#[auto]`, the length of the named field's value for `#[auto(field)]`,
/// reduced to the field's width.
pub open spec fn length_word(def: StructDefV, schema: SchemaV, endian: Endianness, depth: nat, j: int) -> nat {
    let f = def.fields[j];
    let total = frame_upto(def, schema, endian, depth, def.fields.len()).len();
    auto_length(auto_attr(f.attributes)->0, def, own_bindings(def.fields), total) % pow256(
        uint_width(f.ty)->0,
    )
}

/// The index of the last field among the first `k` that carries
/// `#[checksum(..)]`.
pub open spec fn last_checksum(fields: Seq<FieldV>, k: nat) -> Option<nat>
    decreases k,
{
    if k == 0 || k > fields.len() {
        None
    } else if checksum_attr(fields[k - 1].attributes) is Some {
        Some((k - 1) as nat)
    } else {
        last_checksum(fields, (k - 1) as nat)
    }
}

/// Checksum field `j` is the one the checksum is written into: the last.
pub open spec fn checksum_written(def: StructDefV, j: int) -> bool {
    last_checksum(def.fields, def.fields.len()) == Some(j as nat)
}

/// The bytes of field `j` once the length fields are filled in: a length
/// field's length, else the bytes of the first pass.
pub open spec fn auto_filled_part(def: StructDefV, schema: SchemaV, endian: Endianness, depth: nat, j: int) -> Seq<u8> {
    let f = def.fields[j];
    if is_auto_field(f) {
        int_bytes(
            auto_length(
                auto_attr(f.attributes)->0,
                def,
                own_bindings(def.fields),
                frame_upto(def, schema, endian, depth, def.fields.len()).len(),
            ),
            uint_width(f.ty)->0,
            order_of(f, endian),
        )
    } else {
        frame_part(def, schema, endian, depth, j)
    }
}

/// The bytes of the first `k` fields once the length fields are filled in,
/// before the checksum is written.
pub open spec fn auto_filled_upto(def: StructDefV, schema: SchemaV, endian: Endianness, depth: nat, k: nat) -> Seq<u8>
    decreases k,
{
    if k == 0 || k > def.fields.len() {
        Seq::empty()
    } else {
        auto_filled_upto(def, schema, endian, depth, (k - 1) as nat) + auto_filled_part(def, schema, endian, depth, k - 1)
    }
}

/// The number that checksum field `j` holds: for the one written, the
/// checksum of the bytes before it, lengths filled in, reduced to its
/// width; zero for the others.
pub open spec fn checksum_word(def: StructDefV, schema: SchemaV, endian: Endianness, depth: nat, j: int) -> nat {
    let f = def.fields[j];
    if checksum_written(def, j) {
        (crate::wire::spec_checksum(
            auto_filled_upto(def, schema, endian, depth, j as nat),
            checksum_attr(f.attributes)->0,
        ) as nat) % pow256(uint_width(f.ty)->0)
    } else {
        0
    }
}

/// The value that field `j` is written with: its length for a length
/// field, its checksum for a checksum field, else its own value.
pub open spec fn sent_input(def: StructDefV, schema: SchemaV, endian: Endianness, depth: nat, j: int) -> ValueV {
    if is_auto_field(def.fields[j]) {
        ValueV::Integer(length_word(def, schema, endian, depth, j) as i128)
    } else if is_checksum_field(def.fields[j]) {
        ValueV::Integer(checksum_word(def, schema, endian, depth, j) as i128)
    } else {
        field_value(own_bindings(def.fields), def.fields[j])->0
    }
}

/// The decoded form of the value of field `j` of a send struct (read
/// without a length prefix where prefixes are off).
pub open spec fn sent_value(def: StructDefV, schema: SchemaV, endian: Endianness, depth: nat, j: int) -> DecodedV {
    let f = def.fields[j];
    if !schema.is_prefix_enabled() && crate::receive::is_length_carrying(f.ty) {
        raw_decoded(sent_input(def, schema, endian, depth, j), f.ty, schema, order_of(f, endian), depth)->0
    } else {
        plain_decoded(sent_input(def, schema, endian, depth, j), f.ty, schema, order_of(f, endian), depth)->0
    }
}

/// The bytes of the value of field `j` of a send struct.
pub open spec fn sent_field_bytes(def: StructDefV, schema: SchemaV, endian: Endianness, depth: nat, j: int) -> Seq<u8> {
    let f = def.fields[j];
    plain_bytes(sent_input(def, schema, endian, depth, j), f.ty, schema, order_of(f, endian), depth)
}

/// The decoded fields that field `j` of `send` gives: the whole bit-field
/// group at its first field, nothing at its other fields; else the field's
/// value where it is written.
pub open spec fn value_part(send: StructDefV, schema: SchemaV, endian: Endianness, depth: nat, j: int) -> Seq<
    (Seq<char>, DecodedV),
> {
    if is_bit_field(send.fields[j]) {
        if first_bit(send.fields) == Some(j as nat) {
            group_values(send.fields, 0, bit_group_key(send), bit_group_raw(send))
        } else {
            Seq::empty()
        }
    } else if is_present(send, own_bindings(send.fields), j) {
        seq![(send.fields[j].name, sent_value(send, schema, endian, depth, j))]
    } else {
        Seq::empty()
    }
}

/// The bytes that field `j` of `send` adds: the bit-field group's at its
/// first field, nothing at its other fields; else the field's where it is
/// written.
pub open spec fn sent_part(send: StructDefV, schema: SchemaV, endian: Endianness, depth: nat, j: int) -> Seq<u8> {
    if is_bit_field(send.fields[j]) {
        if first_bit(send.fields) == Some(j as nat) {
            bit_group_bytes(send, endian)
        } else {
            Seq::empty()
        }
    } else if is_present(send, own_bindings(send.fields), j) {
        sent_field_bytes(send, schema, endian, depth, j)
    } else {
        Seq::empty()
    }
}

/// The decoded fields that the first `k` fields of `send` give, in order.
pub open spec fn values_upto(send: StructDefV, schema: SchemaV, endian: Endianness, depth: nat, k: nat) -> Seq<
    (Seq<char>, DecodedV),
>
    decreases k,
{
    if k == 0 || k > send.fields.len() {
        Seq::empty()
    } else {
        values_upto(send, schema, endian, depth, (k - 1) as nat) + value_part(send, schema, endian, depth, k - 1)
    }
}

/// The bytes that the first `k` fields of `send` add, one after the other.
pub open spec fn bytes_upto(send: StructDefV, schema: SchemaV, endian: Endianness, depth: nat, k: nat) -> Seq<u8>
    decreases k,
{
    if k == 0 || k > send.fields.len() {
        Seq::empty()
    } else {
        bytes_upto(send, schema, endian, depth, (k - 1) as nat) + sent_part(send, schema, endian, depth, k - 1)
    }
}

/// The names of the fields that decoding has read ahead once the first `k`
/// fields of `send` are read: the members of the bit-field group, past its
/// first field.
pub open spec fn read_ahead(send: StructDefV, k: nat) -> Seq<Seq<char>> {
    if first_bit(send.fields) matches Some(b) && b < k {
        group_names(send.fields, 0, bit_group_key(send))
    } else {
        Seq::empty()
    }
}

/// The bit-field groups that the first encoding pass has written once the
/// first `k` fields of `send` are encoded.
pub open spec fn groups_upto(send: StructDefV, k: nat) -> Seq<usize> {
    if first_bit(send.fields) matches Some(b) && b < k {
        seq![bit_group_key(send)]
    } else {
        Seq::empty()
    }
}

/// The decoded fields that decoding the bytes of `send` gives back.
pub open spec fn sent_values(send: StructDefV, schema: SchemaV, endian: Endianness, depth: nat) -> Seq<
    (Seq<char>, DecodedV),
> {
    values_upto(send, schema, endian, depth, send.fields.len())
}

/// The bytes that encoding `send` gives.
pub open spec fn sent_bytes(send: StructDefV, schema: SchemaV, endian: Endianness, depth: nat) -> Seq<
    u8,
> {
    bytes_upto(send, schema, endian, depth, send.fields.len())
}

proof fn lemma_le_bytes_mod(x: nat, w: nat)
    ensures
        le_bytes(x % pow256(w), w) == le_bytes(x, w),
    decreases w,
{
    if w > 0 {
        let w1 = (w - 1) as nat;
        let p = pow256(w1);
        crate::wire::lemma_bytes_value_mod(x, w1, Endianness::Little);
        assert(pow256(w) == 256 * p);
        lemma_le_bytes_mod(x / 256, w1);
        vstd::arithmetic::div_mod::lemma_mod_breakdown(x as int, 256, p as int);
        let q = (x / 256) % p;
        let r = x % 256;
        let y = x % pow256(w);
        assert(y == 256 * q + r);
        assert((256 * q + r) % 256 == r && (256 * q + r) / 256 == q) by (nonlinear_arith)
            requires
                r < 256,
        ;
        assert(le_bytes(y, w) == seq![(y % 256) as u8] + le_bytes(y / 256, w1));
    }
}

proof fn lemma_zero_bytes(w: nat, e: Endianness)
    ensures
        int_bytes(0, w, e) == zeros(w),
    decreases w,
{
    if w > 0 {
        lemma_zero_bytes((w - 1) as nat, Endianness::Little);
        assert(le_bytes(0, w) =~= zeros(w));
    } else {
        assert(le_bytes(0, w) =~= zeros(w));
    }
    assert(zeros(w).reverse() =~= zeros(w));
}

/// What a length or checksum field is written with: its number reduced to
/// its width, a plain value of its type, whose bytes are those that the
/// fill or the checksum pass writes (zeros for a checksum field not
/// written).
proof fn lemma_computed_value(def: StructDefV, schema: SchemaV, endian: Endianness, depth: nat, j: int)
    requires
        0 <= j < def.fields.len(),
        is_computed_field(def.fields[j]),
    ensures
        is_present(def, own_bindings(def.fields), j),
        plain_decoded(
            sent_input(def, schema, endian, depth, j),
            def.fields[j].ty,
            schema,
            order_of(def.fields[j], endian),
            depth,
        ) is Some,
        is_auto_field(def.fields[j]) ==> sent_field_bytes(def, schema, endian, depth, j) == int_bytes(
            auto_length(
                auto_attr(def.fields[j].attributes)->0,
                def,
                own_bindings(def.fields),
                frame_upto(def, schema, endian, depth, def.fields.len()).len(),
            ),
            uint_width(def.fields[j].ty)->0,
            order_of(def.fields[j], endian),
        ),
        is_checksum_field(def.fields[j]) && checksum_written(def, j) ==> sent_field_bytes(
            def,
            schema,
            endian,
            depth,
            j,
        ) == int_bytes(
            crate::wire::spec_checksum(
                auto_filled_upto(def, schema, endian, depth, j as nat),
                checksum_attr(def.fields[j].attributes)->0,
            ) as nat,
            uint_width(def.fields[j].ty)->0,
            order_of(def.fields[j], endian),
        ),
        is_checksum_field(def.fields[j]) && !checksum_written(def, j) ==> sent_field_bytes(
            def,
            schema,
            endian,
            depth,
            j,
        ) == zeros(uint_width(def.fields[j].ty)->0),
        sent_field_bytes(def, schema, endian, depth, j).len() == uint_width(def.fields[j].ty)->0,
{
    let f = def.fields[j];
    lemma_computed_field(f, endian);
    let w = uint_width(f.ty)->0;
    let fe = order_of(f, endian);
    let x = if is_auto_field(f) {
        auto_length(
            auto_attr(f.attributes)->0,
            def,
            own_bindings(def.fields),
            frame_upto(def, schema, endian, depth, def.fields.len()).len(),
        )
    } else if checksum_written(def, j) {
        crate::wire::spec_checksum(
            auto_filled_upto(def, schema, endian, depth, j as nat),
            checksum_attr(f.attributes)->0,
        ) as nat
    } else {
        0
    };
    let word = if is_auto_field(f) {
        length_word(def, schema, endian, depth, j)
    } else {
        checksum_word(def, schema, endian, depth, j)
    };
    crate::wire::lemma_bytes_value_mod(x, w, Endianness::Little);
    lemma_pow256_small();
    if is_auto_field(f) || checksum_written(def, j) {
        assert(word == x % pow256(w));
    } else {
        assert(word == 0);
        lemma_zero_bytes(w, fe);
    }
    assert(word < pow256(w));
    assert(word < 0x1_0000_0000_0000_0000);
    let n = word as i128;
    assert(n == word);
    assert((n as u128) as nat == word);
    lemma_le_bytes_mod(x, w);
    crate::wire::lemma_int_bytes_len(x, w, fe);
    crate::wire::lemma_int_bytes_len(word, w, fe);
}

/// Where the last checksum field stands.
proof fn lemma_last_checksum(fields: Seq<FieldV>, k: nat)
    requires
        k <= fields.len(),
    ensures
        last_checksum(fields, k) matches Some(c) ==> c < k && checksum_attr(fields[c as int].attributes)
            is Some && forall|j: int| c < j < k ==> checksum_attr((#[trigger] fields[j]).attributes) is None,
        last_checksum(fields, k) is None ==> forall|j: int|
            0 <= j < k ==> checksum_attr((#[trigger] fields[j]).attributes) is None,
    decreases k,
{
    if k > 0 {
        lemma_last_checksum(fields, (k - 1) as nat);
    }
}

/// The bytes of the first `m` fields with the length fields before index
/// `a` and the checksum fields filled in.
spec fn filled_part(def: StructDefV, schema: SchemaV, endian: Endianness, depth: nat, j: int, a: nat) -> Seq<u8> {
    if is_auto_field(def.fields[j]) && j < a {
        sent_field_bytes(def, schema, endian, depth, j)
    } else {
        frame_part(def, schema, endian, depth, j)
    }
}

spec fn filled_upto(def: StructDefV, schema: SchemaV, endian: Endianness, depth: nat, m: nat, a: nat) -> Seq<u8>
    decreases m,
{
    if m == 0 || m > def.fields.len() {
        Seq::empty()
    } else {
        filled_upto(def, schema, endian, depth, (m - 1) as nat, a) + filled_part(def, schema, endian, depth, m - 1, a)
    }
}

/// The length fields met by the first pass over the first `k` fields, at
/// their positions.
spec fn autos_upto(def: StructDefV, schema: SchemaV, endian: Endianness, depth: nat, k: nat) -> Seq<
    (nat, FieldV, StructDefV),
>
    decreases k,
{
    if k == 0 || k > def.fields.len() {
        Seq::empty()
    } else {
        autos_upto(def, schema, endian, depth, (k - 1) as nat) + if is_auto_field(def.fields[k - 1]) {
            seq![(frame_upto(def, schema, endian, depth, (k - 1) as nat).len(), def.fields[k - 1], def)]
        } else {
            Seq::empty()
        }
    }
}

/// The filled bytes have the length of the first pass's bytes; with no
/// length field filled they are the first pass's bytes, and with every one
/// filled they are the bytes with the lengths filled in.
proof fn lemma_filled(def: StructDefV, schema: SchemaV, endian: Endianness, depth: nat, m: nat, a: nat)
    requires
        m <= def.fields.len(),
    ensures
        filled_upto(def, schema, endian, depth, m, a).len() == frame_upto(def, schema, endian, depth, m).len(),
        filled_upto(def, schema, endian, depth, m, 0) == frame_upto(def, schema, endian, depth, m),
        m <= a ==> filled_upto(def, schema, endian, depth, m, a) == auto_filled_upto(def, schema, endian, depth, m),
        auto_filled_upto(def, schema, endian, depth, m).len() == frame_upto(def, schema, endian, depth, m).len(),
        frame_upto(def, schema, endian, depth, m).len() == bytes_upto(def, schema, endian, depth, m).len(),
    decreases m,
{
    if m > 0 {
        let j = m - 1;
        lemma_filled(def, schema, endian, depth, (m - 1) as nat, a);
        lemma_filled(def, schema, endian, depth, (m - 1) as nat, m);
        if is_computed_field(def.fields[j]) {
            lemma_computed_value(def, schema, endian, depth, j);
            lemma_computed_field(def.fields[j], endian);
        }
        if is_bit_field(def.fields[j]) {
            lemma_bit_field(def.fields[j]);
        }
        assert(auto_filled_part(def, schema, endian, depth, j).len() == frame_part(def, schema, endian, depth, j).len());
    }
}

/// The bytes with the lengths filled in are a prefix of those of more
/// fields.
proof fn lemma_auto_filled_prefix(def: StructDefV, schema: SchemaV, endian: Endianness, depth: nat, k: nat, m: nat)
    requires
        k <= m <= def.fields.len(),
    ensures
        auto_filled_upto(def, schema, endian, depth, k).len() <= auto_filled_upto(def, schema, endian, depth, m).len(),
        auto_filled_upto(def, schema, endian, depth, m).subrange(
            0,
            auto_filled_upto(def, schema, endian, depth, k).len() as int,
        ) == auto_filled_upto(def, schema, endian, depth, k),
    decreases m,
{
    let fk = auto_filled_upto(def, schema, endian, depth, k);
    if m > k {
        lemma_auto_filled_prefix(def, schema, endian, depth, k, (m - 1) as nat);
        let prev = auto_filled_upto(def, schema, endian, depth, (m - 1) as nat);
        let cur = auto_filled_upto(def, schema, endian, depth, m);
        assert(cur.subrange(0, prev.len() as int) =~= prev);
        assert(cur.subrange(0, fk.len() as int) =~= prev.subrange(0, fk.len() as int));
    } else {
        assert(fk.subrange(0, fk.len() as int) =~= fk);
    }
}

/// The first pass's bytes are a prefix of those of more fields.
proof fn lemma_frame_upto(def: StructDefV, schema: SchemaV, endian: Endianness, depth: nat, k: nat, m: nat)
    requires
        k <= m <= def.fields.len(),
    ensures
        frame_upto(def, schema, endian, depth, k).len() <= frame_upto(def, schema, endian, depth, m).len(),
        frame_upto(def, schema, endian, depth, m).subrange(
            0,
            frame_upto(def, schema, endian, depth, k).len() as int,
        ) == frame_upto(def, schema, endian, depth, k),
    decreases m,
{
    let fk = frame_upto(def, schema, endian, depth, k);
    if m > k {
        lemma_frame_upto(def, schema, endian, depth, k, (m - 1) as nat);
        let prev = frame_upto(def, schema, endian, depth, (m - 1) as nat);
        let cur = frame_upto(def, schema, endian, depth, m);
        assert(cur.subrange(0, prev.len() as int) =~= prev);
        assert(cur.subrange(0, fk.len() as int) =~= prev.subrange(0, fk.len() as int));
    } else {
        assert(fk.subrange(0, fk.len() as int) =~= fk);
    }
}

/// In a plain send struct, a field with `#[checksum(..)]` is a checksum
/// field whose name no other field carries.
proof fn lemma_checksum_field(def: StructDefV, schema: SchemaV, endian: Endianness, depth: nat, k: int)
    requires
        plain_send(def, schema, endian, depth),
        0 <= k < def.fields.len(),
        checksum_attr(def.fields[k].attributes) is Some,
    ensures
        is_checksum_field(def.fields[k]),
        forall|m: int| 0 <= m < def.fields.len() && m != k ==> def.fields[m].name != def.fields[k].name,
{
    let f = def.fields[k];
    if is_auto_field(f) {
        lemma_computed_field(f, endian);
    }
    if simple_attrs(f.attributes) {
        lemma_simple_field(f);
    }
    if is_bit_field(f) {
        lemma_bit_field(f);
    }
}

/// The bytes of a plain send struct are those with the lengths filled in,
/// with the checksum written into the last checksum field.
#[verifier::spinoff_prover]
#[verifier::rlimit(60)]
proof fn lemma_last_filled(def: StructDefV, schema: SchemaV, endian: Endianness, depth: nat, m: nat)
    requires
        plain_send(def, schema, endian, depth),
        m <= def.fields.len(),
    ensures
        bytes_upto(def, schema, endian, depth, m) == match last_checksum(def.fields, def.fields.len()) {
            Some(k) => if m > k {
                splice(
                    auto_filled_upto(def, schema, endian, depth, m),
                    frame_upto(def, schema, endian, depth, k).len(),
                    sent_field_bytes(def, schema, endian, depth, k as int),
                )
            } else {
                auto_filled_upto(def, schema, endian, depth, m)
            },
            None => auto_filled_upto(def, schema, endian, depth, m),
        },
    decreases m,
{
    if m > 0 {
        let n = def.fields.len();
        let j = m - 1;
        lemma_last_filled(def, schema, endian, depth, (m - 1) as nat);
        lemma_last_checksum(def.fields, n);
        let f = def.fields[j];
        if is_computed_field(f) {
            lemma_computed_value(def, schema, endian, depth, j);
            lemma_computed_field(f, endian);
        }
        if is_bit_field(f) {
            lemma_bit_field(f);
        }
        if checksum_attr(f.attributes) is Some {
            lemma_checksum_field(def, schema, endian, depth, j);
        }
        match last_checksum(def.fields, n) {
            Some(k) => if m > k {
                lemma_checksum_field(def, schema, endian, depth, k as int);
                lemma_computed_value(def, schema, endian, depth, k as int);
                lemma_computed_field(def.fields[k as int], endian);
                lemma_filled(def, schema, endian, depth, k, k);
                lemma_filled(def, schema, endian, depth, (m - 1) as nat, m);
                if m - 1 >= k + 1 {
                    lemma_filled(def, schema, endian, depth, k + 1, k + 1);
                    lemma_auto_filled_prefix(def, schema, endian, depth, k + 1, (m - 1) as nat);
                    assert(!checksum_written(def, j));
                } else {
                    assert(checksum_written(def, j));
                }
                assert(bytes_upto(def, schema, endian, depth, m) =~= splice(
                    auto_filled_upto(def, schema, endian, depth, m),
                    frame_upto(def, schema, endian, depth, k).len(),
                    sent_field_bytes(def, schema, endian, depth, k as int),
                ));
            } else {
                assert(!checksum_written(def, j));
                assert(bytes_upto(def, schema, endian, depth, m) =~= auto_filled_upto(def, schema, endian, depth, m));
            },
            None => {
                assert(checksum_attr(f.attributes) is None);
                assert(bytes_upto(def, schema, endian, depth, m) =~= auto_filled_upto(def, schema, endian, depth, m));
            },
        }
    }
}

/// Filling length field `k` writes its bytes over its zeros.
#[verifier::rlimit(40)]
proof fn lemma_fill_one(def: StructDefV, schema: SchemaV, endian: Endianness, depth: nat, k: nat, m: nat)
    requires
        k < def.fields.len(),
        m <= def.fields.len(),
        is_auto_field(def.fields[k as int]),
    ensures
        m <= k ==> filled_upto(def, schema, endian, depth, m, k + 1) == filled_upto(def, schema, endian, depth, m, k),
        m > k ==> filled_upto(def, schema, endian, depth, m, k + 1) == splice(
            filled_upto(def, schema, endian, depth, m, k),
            frame_upto(def, schema, endian, depth, k).len(),
            sent_field_bytes(def, schema, endian, depth, k as int),
        ),
    decreases m,
{
    if m > 0 {
        let j = m - 1;
        lemma_fill_one(def, schema, endian, depth, k, (m - 1) as nat);
        lemma_computed_value(def, schema, endian, depth, k as int);
        lemma_computed_field(def.fields[k as int], endian);
        lemma_filled(def, schema, endian, depth, (m - 1) as nat, k);
        lemma_filled(def, schema, endian, depth, k, k);
        let b = sent_field_bytes(def, schema, endian, depth, k as int);
        let off = frame_upto(def, schema, endian, depth, k).len();
        if m == k + 1 {
            assert(filled_upto(def, schema, endian, depth, m, k + 1) =~= splice(
                filled_upto(def, schema, endian, depth, m, k),
                off,
                b,
            ));
        } else if m > k + 1 {
            lemma_filled(def, schema, endian, depth, k + 1, k);
            lemma_frame_upto(def, schema, endian, depth, k + 1, (m - 1) as nat);
            assert(filled_upto(def, schema, endian, depth, m, k + 1) =~= splice(
                filled_upto(def, schema, endian, depth, m, k),
                off,
                b,
            ));
        }
    }
}

/// Filling a field other than a length field changes nothing.
proof fn lemma_fill_none(def: StructDefV, schema: SchemaV, endian: Endianness, depth: nat, k: nat, m: nat)
    requires
        k < def.fields.len(),
        m <= def.fields.len(),
        !is_auto_field(def.fields[k as int]),
    ensures
        filled_upto(def, schema, endian, depth, m, k + 1) == filled_upto(def, schema, endian, depth, m, k),
    decreases m,
{
    if m > 0 {
        lemma_fill_none(def, schema, endian, depth, k, (m - 1) as nat);
    }
}

/// The length fields met over the first `k` fields come first among those
/// met over the first `m`.
proof fn lemma_autos_upto(def: StructDefV, schema: SchemaV, endian: Endianness, depth: nat, k: nat, m: nat)
    requires
        k <= m <= def.fields.len(),
    ensures
        autos_upto(def, schema, endian, depth, k).len() <= autos_upto(def, schema, endian, depth, m).len(),
        autos_upto(def, schema, endian, depth, m).subrange(
            0,
            autos_upto(def, schema, endian, depth, k).len() as int,
        ) == autos_upto(def, schema, endian, depth, k),
    decreases m,
{
    let ak = autos_upto(def, schema, endian, depth, k);
    if m > k {
        lemma_autos_upto(def, schema, endian, depth, k, (m - 1) as nat);
        let prev = autos_upto(def, schema, endian, depth, (m - 1) as nat);
        let cur = autos_upto(def, schema, endian, depth, m);
        assert(cur.subrange(0, prev.len() as int) =~= prev);
        assert(cur.subrange(0, ak.len() as int) =~= prev.subrange(0, ak.len() as int));
    } else {
        assert(ak.subrange(0, ak.len() as int) =~= ak);
    }
}

/// Filling the length fields from the one met at field `k` on turns the
/// bytes with the earlier ones filled into the bytes with all filled.
proof fn lemma_fill(def: StructDefV, schema: SchemaV, endian: Endianness, depth: nat, k: nat)
    requires
        k <= def.fields.len(),
    ensures
        fill_autos(
            filled_upto(def, schema, endian, depth, def.fields.len(), k),
            autos_upto(def, schema, endian, depth, def.fields.len()),
            autos_upto(def, schema, endian, depth, k).len(),
            endian,
            frame_upto(def, schema, endian, depth, def.fields.len()).len(),
            own_bindings(def.fields),
        ) == Some(Ok::<Seq<u8>, crate::error::ErrorView>(auto_filled_upto(def, schema, endian, depth, def.fields.len()))),
    decreases def.fields.len() - k,
{
    let n = def.fields.len();
    let autos = autos_upto(def, schema, endian, depth, n);
    let c = autos_upto(def, schema, endian, depth, k).len();
    if k == n {
        lemma_filled(def, schema, endian, depth, n, k);
    } else {
        lemma_fill(def, schema, endian, depth, k + 1);
        lemma_autos_upto(def, schema, endian, depth, k + 1, n);
        let buf = filled_upto(def, schema, endian, depth, n, k);
        let f = def.fields[k as int];
        if is_auto_field(f) {
            lemma_fill_one(def, schema, endian, depth, k, n);
            lemma_computed_value(def, schema, endian, depth, k as int);
            let prefix = autos_upto(def, schema, endian, depth, k + 1);
            assert(prefix[c as int] == autos[c as int]);
            let off = frame_upto(def, schema, endian, depth, k).len();
            assert(autos[c as int] == (off, f, def));
            let w = uint_width(f.ty)->0;
            lemma_filled(def, schema, endian, depth, n, k);
            lemma_frame_upto(def, schema, endian, depth, k + 1, n);
            assert(off + w <= buf.len());
        } else {
            lemma_fill_none(def, schema, endian, depth, k, n);
        }
    }
}

proof fn lemma_len_ref_attrs(attrs: Seq<crate::ast::FieldAttributeV>)
    requires
        len_ref_attrs(attrs),
    ensures
        auto_attr(attrs) is None,
        checksum_attr(attrs) is None,
        !has_remaining(attrs),
        bits_attr(attrs) is None,
        bit_attr(attrs) is None,
        if_attr(attrs) is None,
    decreases attrs.len(),
{
    if attrs.len() > 0 {
        assert(attrs[0] is LenRef || attrs[0] is Endian);
        let rest = attrs.drop_first();
        assert forall|i: int| 0 <= i < rest.len() implies (#[trigger] rest[i]) is LenRef
            || rest[i] is Endian by {
            assert(rest[i] == attrs[i + 1]);
        }
        lemma_len_ref_attrs(rest);
    }
}

/// Each plain item takes at least one byte.
proof fn lemma_items_count(items: Seq<ValueV>, inner: TypeV, schema: SchemaV, endian: Endianness, depth: nat, i: nat)
    requires
        items_decoded(items, inner, schema, endian, depth, i) is Some,
        i <= items.len(),
    ensures
        items_bytes(items, inner, schema, endian, depth, i).len() >= items.len() - i,
    decreases items.len() - i,
{
    if i < items.len() {
        lemma_items_count(items, inner, schema, endian, depth, i + 1);
        lemma_value_encode(items[i as int], inner, endian, schema, 0, depth);
    }
}

/// The first field of a name no other field carries is that field.
proof fn lemma_unique_find(fields: Seq<FieldV>, i: int)
    requires
        0 <= i < fields.len(),
        forall|m: int| 0 <= m < fields.len() && m != i ==> fields[m].name != fields[i].name,
    ensures
        crate::encode::find_field(fields, fields[i].name) == Some(fields[i]),
        first_index(fields, fields[i].name) == Some(i as nat),
    decreases fields.len(),
{
    if i > 0 {
        let rest = fields.drop_first();
        assert(fields[0].name != fields[i].name);
        assert(rest[i - 1] == fields[i]);
        assert forall|m: int| 0 <= m < rest.len() && m != i - 1 implies (#[trigger] rest[m]).name != rest[i - 1].name by {
            assert(rest[m] == fields[m + 1]);
        }
        lemma_unique_find(rest, i - 1);
    }
}

/// A value written without a length prefix is encoded to its bytes, which
/// are at least as many as its count.
proof fn lemma_raw_encode(
    v: ValueV,
    ty: TypeV,
    endian: Endianness,
    schema: SchemaV,
    base: nat,
    fuel: nat,
    depth: nat,
)
    requires
        !schema.is_prefix_enabled(),
        raw_decoded(v, ty, schema, endian, depth) is Some,
    ensures
        crate::encode::spec_encode_value_tracked(v, ty, endian, schema, base, fuel) is Some
            ==> crate::encode::spec_encode_value_tracked(v, ty, endian, schema, base, fuel) == Some(
            Ok::<(Seq<u8>, Seq<(nat, FieldV, StructDefV)>), crate::error::ErrorView>(
                (plain_bytes(v, ty, schema, endian, depth), Seq::empty()),
            ),
        ),
        fuel >= depth ==> crate::encode::spec_encode_value_tracked(v, ty, endian, schema, base, fuel)
            is Some,
        plain_bytes(v, ty, schema, endian, depth).len() >= raw_count(v),
        crate::receive::is_length_carrying(ty),
{
    match (v, ty) {
        (ValueV::Integer(n), TypeV::Bytes) => {
            crate::wire::lemma_int_bytes_len((n as u128) as nat, spec_integer_to_byte_len(n) as nat, endian);
        },
        (ValueV::Array(items), TypeV::Vec(inner)) => {
            lemma_items_encode(items, *inner, endian, schema, fuel, depth, 0, Seq::empty());
            lemma_items_count(items, *inner, schema, endian, depth, 0);
            assert(Seq::<u8>::empty() + items_bytes(items, *inner, schema, endian, depth, 0)
                == items_bytes(items, *inner, schema, endian, depth, 0));
        },
        _ => {},
    }
}

/// Reading a value written without a length prefix, given its count, gives
/// back its raw decoded form, taking exactly its bytes.
#[verifier::rlimit(40)]
proof fn lemma_raw_decode(
    v: ValueV,
    f: FieldV,
    c: Seq<char>,
    endian: Endianness,
    schema: SchemaV,
    fuel: nat,
    depth: nat,
    before: Seq<u8>,
    after: Seq<u8>,
    st: crate::receive::RecvState,
)
    requires
        !schema.is_prefix_enabled(),
        raw_decoded(v, f.ty, schema, endian, depth) is Some,
        st.cur == before.len(),
        crate::receive::decoded_count(st.acc, c) == Some(raw_count(v) as usize),
        raw_count(v) <= usize::MAX,
        before.len() + plain_bytes(v, f.ty, schema, endian, depth).len() + 16 <= usize::MAX,
    ensures
        ({
            let b = plain_bytes(v, f.ty, schema, endian, depth);
            let r = crate::receive::len_ref_field(before + b + after, f, c, schema, endian, fuel, st);
            &&& r is Some ==> r == Some(
                Ok::<crate::receive::RecvState, crate::error::ErrorView>(
                    crate::receive::with_field(
                        st,
                        f.name,
                        raw_decoded(v, f.ty, schema, endian, depth)->0,
                        st.cur + b.len(),
                    ),
                ),
            )
            &&& fuel >= depth ==> r is Some
        }),
{
    let b = plain_bytes(v, f.ty, schema, endian, depth);
    let data = before + b + after;
    let o = before.len();
    lemma_raw_encode(v, f.ty, endian, schema, 0, fuel, depth);
    match (v, f.ty) {
        (ValueV::Str(s), TypeV::Str) => {
            let body = encode_utf8(s);
            assert(b =~= body);
            assert(data.subrange(o as int, (o + body.len()) as int) =~= body);
            vstd::utf8::encode_utf8_valid_utf8(s);
            vstd::utf8::encode_utf8_decode_utf8(s);
        },
        (ValueV::Bytes(x), TypeV::Bytes) => {
            assert(b =~= x);
            assert(data.subrange(o as int, (o + x.len()) as int) =~= x);
        },
        (ValueV::Integer(n), TypeV::Bytes) => {
            let w = spec_integer_to_byte_len(n) as nat;
            let body = int_bytes((n as u128) as nat, w, endian);
            crate::wire::lemma_int_bytes_len((n as u128) as nat, w, endian);
            assert(b =~= body);
            assert(data.subrange(o as int, (o + w) as int) =~= body);
        },
        (ValueV::Array(items), TypeV::Vec(inner)) => {
            let body = items_bytes(items, *inner, schema, endian, depth, 0);
            assert(b =~= body);
            let ds = items_decoded(items, *inner, schema, endian, depth, 0)->0;
            lemma_items_decode(items, *inner, endian, schema, fuel, depth, 0, before, after, Seq::empty());
            assert(Seq::<DecodedV>::empty() + ds =~= ds);
        },
        _ => {},
    }
}

proof fn lemma_decoded_count_concat(
    s: Seq<(Seq<char>, DecodedV)>,
    t: Seq<(Seq<char>, DecodedV)>,
    c: Seq<char>,
)
    ensures
        crate::receive::decoded_count(s + t, c) == match crate::receive::decoded_count(s, c) {
            Some(d) => Some(d),
            None => crate::receive::decoded_count(t, c),
        },
    decreases s.len(),
{
    if s.len() > 0 {
        assert((s + t).drop_first() =~= s.drop_first() + t);
        assert((s + t)[0] == s[0]);
        lemma_decoded_count_concat(s.drop_first(), t, c);
    } else {
        assert(s + t =~= t);
    }
}

proof fn lemma_count_named(acc: Seq<(Seq<char>, DecodedV)>, c: Seq<char>)
    ensures
        crate::receive::decoded_named(acc, c) is None ==> crate::receive::decoded_count(acc, c) is None,
    decreases acc.len(),
{
    if acc.len() > 0 {
        lemma_count_named(acc.drop_first(), c);
    }
}

/// No member of a bit-field group is named `c`.
pub open spec fn not_member_name(fields: Seq<FieldV>, c: Seq<char>) -> bool {
    forall|m: int|
        0 <= m < fields.len() && crate::receive::bit_key(#[trigger] fields[m]) is Some ==> fields[m].name != c
}

proof fn lemma_group_values_named(fields: Seq<FieldV>, j: nat, key: usize, raw: u64, c: Seq<char>)
    requires
        not_member_name(fields, c),
    ensures
        crate::receive::decoded_named(group_values(fields, j, key, raw), c) is None,
    decreases fields.len() - j,
{
    if j < fields.len() {
        lemma_group_values_named(fields, j + 1, key, raw, c);
        let rest = group_values(fields, j + 1, key, raw);
        if crate::receive::bit_key(fields[j as int]) == Some(key) {
            let g = group_values(fields, j, key, raw);
            assert(g.drop_first() =~= rest);
            assert(g[0].0 == fields[j as int].name);
        }
    }
}

/// The count decoding finds for a length reference: that of the first field
/// of its name, when that field is written before index `j`.
proof fn lemma_values_count(
    def: StructDefV,
    schema: SchemaV,
    endian: Endianness,
    depth: nat,
    k: nat,
    j: nat,
)
    requires
        k < j <= def.fields.len(),
        is_present(def, own_bindings(def.fields), k as int),
        !is_bit_field(def.fields[k as int]),
        not_member_name(def.fields, def.fields[k as int].name),
        forall|m: int| 0 <= m < k ==> (#[trigger] def.fields[m]).name != def.fields[k as int].name,
        crate::receive::count_of(sent_value(def, schema, endian, depth, k as int)) is Some,
    ensures
        crate::receive::decoded_count(
            values_upto(def, schema, endian, depth, j),
            def.fields[k as int].name,
        ) == crate::receive::count_of(sent_value(def, schema, endian, depth, k as int)),
    decreases j,
{
    let c = def.fields[k as int].name;
    let prev = values_upto(def, schema, endian, depth, (j - 1) as nat);
    let tail = value_part(def, schema, endian, depth, j - 1);
    lemma_decoded_count_concat(prev, tail, c);
    if j - 1 > k {
        lemma_values_count(def, schema, endian, depth, k, (j - 1) as nat);
    } else {
        lemma_values_names(def, schema, endian, depth, k, c);
        lemma_count_named(prev, c);
        assert(tail.drop_first().len() == 0);
    }
}

/// The count of a length field's number, read back as its type.
proof fn lemma_word_count(word: nat, ty: TypeV)
    requires
        uint_width(ty) is Some,
        word < pow256(uint_width(ty)->0),
        word <= usize::MAX,
    ensures
        scalar_decoded(ValueV::Integer(word as i128), ty) is Some,
        crate::receive::count_of(scalar_decoded(ValueV::Integer(word as i128), ty)->0) == Some(word as usize),
{
    lemma_pow256_small();
    assert(word < 0x1_0000_0000_0000_0000);
    let n = word as i128;
    assert(n == word);
}

proof fn lemma_bytes_upto(
    def: StructDefV,
    schema: SchemaV,
    endian: Endianness,
    depth: nat,
    k: nat,
    m: nat,
)
    requires
        k <= m <= def.fields.len(),
    ensures
        bytes_upto(def, schema, endian, depth, k).len() <= bytes_upto(def, schema, endian, depth, m).len(),
        bytes_upto(def, schema, endian, depth, m).subrange(
            0,
            bytes_upto(def, schema, endian, depth, k).len() as int,
        ) == bytes_upto(def, schema, endian, depth, k),
    decreases m,
{
    let bk = bytes_upto(def, schema, endian, depth, k);
    if m > k {
        lemma_bytes_upto(def, schema, endian, depth, k, (m - 1) as nat);
        let prev = bytes_upto(def, schema, endian, depth, (m - 1) as nat);
        let cur = bytes_upto(def, schema, endian, depth, m);
        assert(cur.subrange(0, prev.len() as int) =~= prev);
        assert(cur.subrange(0, bk.len() as int) =~= prev.subrange(0, bk.len() as int));
    } else {
        assert(bk.subrange(0, bk.len() as int) =~= bk);
    }
}

proof fn lemma_decoded_named_concat(
    s: Seq<(Seq<char>, DecodedV)>,
    t: Seq<(Seq<char>, DecodedV)>,
    c: Seq<char>,
)
    ensures
        crate::receive::decoded_named(s + t, c) == match crate::receive::decoded_named(s, c) {
            Some(d) => Some(d),
            None => crate::receive::decoded_named(t, c),
        },
    decreases s.len(),
{
    if s.len() > 0 {
        assert((s + t).drop_first() =~= s.drop_first() + t);
        assert((s + t)[0] == s[0]);
        lemma_decoded_named_concat(s.drop_first(), t, c);
    } else {
        assert(s + t =~= t);
    }
}

/// The entries of `values_upto` carry the names of fields before `k` and of
/// members of the bit-field group.
proof fn lemma_values_names(
    def: StructDefV,
    schema: SchemaV,
    endian: Endianness,
    depth: nat,
    k: nat,
    c: Seq<char>,
)
    requires
        k <= def.fields.len(),
        forall|m: int| 0 <= m < k ==> (#[trigger] def.fields[m]).name != c,
        not_member_name(def.fields, c),
    ensures
        crate::receive::decoded_named(values_upto(def, schema, endian, depth, k), c) is None,
    decreases k,
{
    if k > 0 {
        lemma_values_names(def, schema, endian, depth, (k - 1) as nat, c);
        let prev = values_upto(def, schema, endian, depth, (k - 1) as nat);
        let tail = value_part(def, schema, endian, depth, k - 1);
        lemma_decoded_named_concat(prev, tail, c);
        assert(values_upto(def, schema, endian, depth, k) == prev + tail);
        assert(def.fields[k - 1].name != c);
        if is_bit_field(def.fields[k - 1]) {
            lemma_group_values_named(def.fields, 0, bit_group_key(def), bit_group_raw(def), c);
        } else if tail.len() > 0 {
            assert(tail[0].0 == def.fields[k - 1].name);
            assert(tail.drop_first() =~= Seq::<(Seq<char>, DecodedV)>::empty());
            assert(crate::receive::decoded_named(tail.drop_first(), c) is None);
        } else {
            assert(crate::receive::decoded_named(tail, c) is None);
        }
    }
}

/// The value decoding finds for a condition: that of the first field of its
/// name, when that field is written before index `j`.
proof fn lemma_values_condition(
    def: StructDefV,
    schema: SchemaV,
    endian: Endianness,
    depth: nat,
    k: nat,
    j: nat,
)
    requires
        k < j <= def.fields.len(),
        is_present(def, own_bindings(def.fields), k as int),
        !is_bit_field(def.fields[k as int]),
        not_member_name(def.fields, def.fields[k as int].name),
        forall|m: int| 0 <= m < k ==> (#[trigger] def.fields[m]).name != def.fields[k as int].name,
    ensures
        crate::receive::decoded_named(
            values_upto(def, schema, endian, depth, j),
            def.fields[k as int].name,
        ) == Some(sent_value(def, schema, endian, depth, k as int)),
    decreases j,
{
    let c = def.fields[k as int].name;
    let prev = values_upto(def, schema, endian, depth, (j - 1) as nat);
    let tail = value_part(def, schema, endian, depth, j - 1);
    lemma_decoded_named_concat(prev, tail, c);
    if j - 1 > k {
        lemma_values_condition(def, schema, endian, depth, k, (j - 1) as nat);
    } else {
        lemma_values_names(def, schema, endian, depth, k, c);
        assert(tail.drop_first().len() == 0);
    }
}

/// Where the first pass records the last checksum field met so far: at its
/// position in the first pass's bytes, with its width.
pub open spec fn checksum_recorded(
    def: StructDefV,
    schema: SchemaV,
    endian: Endianness,
    depth: nat,
    i: nat,
    offsets: Seq<(Seq<char>, nat, nat)>,
) -> bool {
    last_checksum(def.fields, i) matches Some(k) ==> crate::encode::offset_of(
        offsets,
        def.fields[k as int].name,
    ) == Some((frame_upto(def, schema, endian, depth, k).len(), uint_width(def.fields[k as int].ty)->0))
}

/// Where the first bit field stands.
proof fn lemma_first_bit(fields: Seq<FieldV>, j: nat)
    requires
        j <= fields.len(),
    ensures
        first_bit_from(fields, j) matches Some(b) ==> j <= b < fields.len() && is_bit_field(fields[b as int])
            && forall|x: int| j <= x < b ==> !is_bit_field(#[trigger] fields[x]),
        first_bit_from(fields, j) is None ==> forall|x: int| j <= x < fields.len() ==> !is_bit_field(
            #[trigger] fields[x],
        ),
    decreases fields.len() - j,
{
    if j < fields.len() {
        lemma_first_bit(fields, j + 1);
    }
}

/// In a plain send struct, a field of a bit-field group is a bit field of
/// the struct's one group, whose name no other field carries.
proof fn lemma_bit_key_group(def: StructDefV, schema: SchemaV, endian: Endianness, depth: nat, m: int)
    requires
        plain_send(def, schema, endian, depth),
        0 <= m < def.fields.len(),
        crate::receive::bit_key(def.fields[m]) is Some || is_bit_field(def.fields[m]),
    ensures
        is_group_field(def, m),
        first_bit(def.fields) matches Some(b) && b <= m && crate::receive::bit_key(def.fields[m]) == Some(
            bit_group_key(def),
        ),
{
    let f = def.fields[m];
    if is_computed_field(f) {
        lemma_computed_field(f, endian);
    }
    if endian_only(f.attributes) {
        lemma_no_attrs(f);
    }
    if simple_attrs(f.attributes) {
        lemma_simple_field(f);
    }
    if is_bit_field(f) {
        lemma_bit_field(f);
    }
    assert(is_group_field(def, m));
    lemma_first_bit(def.fields, 0);
    let b = first_bit(def.fields)->0;
    assert(is_bit_field(def.fields[b as int]));
    lemma_bit_field(def.fields[b as int]);
}

/// No member of the bit-field group of a plain send struct carries the name
/// of a field that is not a bit field.
proof fn lemma_not_member(def: StructDefV, schema: SchemaV, endian: Endianness, depth: nat, k: int)
    requires
        plain_send(def, schema, endian, depth),
        0 <= k < def.fields.len(),
        !is_bit_field(def.fields[k]),
    ensures
        not_member_name(def.fields, def.fields[k].name),
{
    assert forall|m: int|
        0 <= m < def.fields.len() && crate::receive::bit_key(#[trigger] def.fields[m]) is Some implies def.fields[m].name
        != def.fields[k].name by {
        lemma_bit_key_group(def, schema, endian, depth, m);
        assert(m != k);
    }
}

/// The group's offsets leave those of other names.
proof fn lemma_group_offsets(
    fields: Seq<FieldV>,
    j: nat,
    key: usize,
    start: nat,
    size: nat,
    offsets: Seq<(Seq<char>, nat, nat)>,
    c: Seq<char>,
)
    requires
        not_member_name(fields, c),
    ensures
        crate::encode::offset_of(crate::encode::group_offsets(fields, j, key, start, size, offsets), c)
            == crate::encode::offset_of(offsets, c),
    decreases fields.len() - j,
{
    if j < fields.len() {
        if crate::receive::bit_key(fields[j as int]) == Some(key) {
            let o2 = offsets.push((fields[j as int].name, start, size));
            assert(o2.drop_last() =~= offsets);
            lemma_group_offsets(fields, j + 1, key, start, size, o2, c);
        } else {
            lemma_group_offsets(fields, j + 1, key, start, size, offsets, c);
        }
    }
}

/// One field of the first encoding pass over a plain send struct: it
/// appends the bytes of a written field, zeros for a length or checksum
/// field, nothing for a field not written.
#[verifier::rlimit(80)]
proof fn lemma_send_step(
    def: StructDefV,
    endian: Endianness,
    schema: SchemaV,
    fuel: nat,
    depth: nat,
    i: nat,
    st: PassState,
)
    requires
        plain_send(def, schema, endian, depth),
        sent_bytes(def, schema, endian, depth).len() + 16 <= usize::MAX,
        i < def.fields.len(),
        st.buf == frame_upto(def, schema, endian, depth, i),
        st.checksum_idx == last_checksum(def.fields, i),
        checksum_recorded(def, schema, endian, depth, i, st.offsets),
        st.autos == autos_upto(def, schema, endian, depth, i),
        st.groups == groups_upto(def, i),
    ensures
        ({
            let r = crate::encode::field_step(def, own_bindings(def.fields), endian, schema, fuel, true, 0, i, st);
            &&& r is Some ==> (r matches Some(Ok(t)) && t.buf == frame_upto(def, schema, endian, depth, i + 1)
                && t.checksum_idx == last_checksum(def.fields, i + 1) && checksum_recorded(
                def,
                schema,
                endian,
                depth,
                i + 1,
                t.offsets,
            ) && t.autos == autos_upto(def, schema, endian, depth, i + 1) && t.groups == groups_upto(def, i + 1))
            &&& fuel >= depth ==> r is Some
        }),
{
    let fv = own_bindings(def.fields);
    let n = def.fields.len();
    let f = def.fields[i as int];
    lemma_bytes_upto(def, schema, endian, depth, i + 1, n);
    lemma_filled(def, schema, endian, depth, i + 1, 0);
    lemma_filled(def, schema, endian, depth, n, 0);
    let fe = order_of(f, endian);
    let step = crate::encode::field_step(def, fv, endian, schema, fuel, true, 0, i, st);
    match last_checksum(def.fields, i) {
        Some(k) => {
            lemma_last_checksum(def.fields, i);
            lemma_checksum_field(def, schema, endian, depth, k as int);
        },
        None => {},
    }
    lemma_first_bit(def.fields, 0);
    if !is_bit_field(f) {
        assert(groups_upto(def, i + 1) == groups_upto(def, i));
    }
    if is_bit_field(f) {
        lemma_bit_field(f);
        lemma_bit_key_group(def, schema, endian, depth, i as int);
        let key = bit_group_key(def);
        if first_bit(def.fields) == Some(i) {
            assert(st.groups =~= Seq::<usize>::empty());
            assert forall|m: int| 0 <= m < n && crate::receive::bit_key(#[trigger] def.fields[m]) == Some(key) implies is_bit_field(
                def.fields[m],
            ) by {
                lemma_bit_key_group(def, schema, endian, depth, m);
            }
            crate::bit_groups::lemma_group_word(def.fields, 0, key, fv, 0);
            let size = (key / 8) as nat;
            let t = PassState {
                buf: st.buf + int_bytes(bit_group_word(def) as nat, size, fe),
                offsets: crate::encode::group_offsets(def.fields, 0, key, st.buf.len(), size, st.offsets),
                groups: st.groups.push(key),
                ..st
            };
            assert(step == Some(Ok::<PassState, crate::error::ErrorView>(t)));
            assert(t.buf == frame_upto(def, schema, endian, depth, i + 1));
            assert(t.groups =~= groups_upto(def, i + 1));
            assert(t.autos =~= autos_upto(def, schema, endian, depth, i + 1));
            match last_checksum(def.fields, i) {
                Some(k) => {
                    lemma_not_member(def, schema, endian, depth, k as int);
                    lemma_group_offsets(def.fields, 0, key, st.buf.len(), size, st.offsets, def.fields[k as int].name);
                },
                None => {},
            }
        } else {
            assert(groups_upto(def, i) =~= seq![key]);
            assert(st.groups.contains(key)) by {
                assert(st.groups[0] == key);
            }
            assert(step == Some(Ok::<PassState, crate::error::ErrorView>(st)));
            assert(st.buf =~= frame_upto(def, schema, endian, depth, i + 1));
            assert(st.autos =~= autos_upto(def, schema, endian, depth, i + 1));
        }
    } else if is_computed_field(f) {
        lemma_computed_field(f, endian);
        let w = uint_width(f.ty)->0;
        assert(prim_width(f.ty) == Some(w));
        let r = crate::encode::reserve_field(st, f.name, w);
        assert(r.offsets.drop_last() =~= st.offsets);
        if is_auto_field(f) {
            let t = PassState { autos: r.autos.push((st.buf.len(), f, def)), ..r };
            assert(step == Some(Ok::<PassState, crate::error::ErrorView>(t)));
            assert(t.buf == frame_upto(def, schema, endian, depth, i + 1));
            assert(t.autos == autos_upto(def, schema, endian, depth, i + 1));
        } else {
            let t = PassState { checksum_idx: Some(i), ..r };
            assert(step == Some(Ok::<PassState, crate::error::ErrorView>(t)));
            assert(t.buf == frame_upto(def, schema, endian, depth, i + 1));
            assert(t.autos =~= autos_upto(def, schema, endian, depth, i + 1));
        }
    } else {
        let raw = is_raw_field(def, schema, endian, depth, i as int);
        if raw {
            lemma_no_attrs(f);
        } else {
            lemma_simple_field(f);
        }
        assert(crate::receive::bit_key(f) is None);
        let v = field_value(fv, f)->0;
        if is_present(def, fv, i as int) {
            let b = plain_bytes(v, f.ty, schema, fe, depth);
            assert(b == frame_part(def, schema, endian, depth, i as int));
            if raw {
                lemma_raw_encode(v, f.ty, fe, schema, st.buf.len(), fuel, depth);
            } else {
                lemma_value_encode_tracked(v, f.ty, fe, schema, st.buf.len(), fuel, depth);
            }
            let t = PassState {
                autos: st.autos + Seq::<(nat, FieldV, StructDefV)>::empty(),
                ..crate::encode::append_field(st, f.name, b)
            };
            assert(t.offsets.drop_last() =~= st.offsets);
            if crate::encode::spec_encode_value_tracked(v, f.ty, fe, schema, st.buf.len(), fuel) is Some {
                assert(step == Some(Ok::<PassState, crate::error::ErrorView>(t)));
            } else {
                assert(step is None);
            }
            assert(t.buf == frame_upto(def, schema, endian, depth, i + 1));
            assert(t.autos =~= autos_upto(def, schema, endian, depth, i + 1));
        } else {
            let c = if_attr(f.attributes)->0;
            lemma_first_index(def.fields, c);
            assert(step == Some(Ok::<PassState, crate::error::ErrorView>(st)));
            assert(st.buf =~= frame_upto(def, schema, endian, depth, i + 1));
            assert(st.autos =~= autos_upto(def, schema, endian, depth, i + 1));
        }
    }
}

/// The first encoding pass over a plain send struct, from field `i` on.
proof fn lemma_send_pass(
    def: StructDefV,
    endian: Endianness,
    schema: SchemaV,
    fuel: nat,
    depth: nat,
    i: nat,
    st: PassState,
)
    requires
        plain_send(def, schema, endian, depth),
        sent_bytes(def, schema, endian, depth).len() + 16 <= usize::MAX,
        i <= def.fields.len(),
        st.buf == frame_upto(def, schema, endian, depth, i),
        st.checksum_idx == last_checksum(def.fields, i),
        checksum_recorded(def, schema, endian, depth, i, st.offsets),
        st.autos == autos_upto(def, schema, endian, depth, i),
        st.groups == groups_upto(def, i),
    ensures
        field_pass(def, own_bindings(def.fields), endian, schema, fuel, true, 0, i, st) is Some ==> (
        field_pass(def, own_bindings(def.fields), endian, schema, fuel, true, 0, i, st) matches Some(
            Ok(t),
        ) && t.buf == frame_upto(def, schema, endian, depth, def.fields.len()) && t.checksum_idx
            == last_checksum(def.fields, def.fields.len()) && checksum_recorded(
            def,
            schema,
            endian,
            depth,
            def.fields.len(),
            t.offsets,
        ) && t.autos == autos_upto(def, schema, endian, depth, def.fields.len())),
        fuel >= depth ==> field_pass(def, own_bindings(def.fields), endian, schema, fuel, true, 0, i, st)
            is Some,
    decreases def.fields.len() - i,
{
    if i < def.fields.len() {
        lemma_send_step(def, endian, schema, fuel, depth, i, st);
        let r = crate::encode::field_step(def, own_bindings(def.fields), endian, schema, fuel, true, 0, i, st);
        if r is Some {
            let t = r->0->Ok_0;
            lemma_send_pass(def, endian, schema, fuel, depth, i + 1, t);
        }
    }
}

/// The checksum pass writes the checksum of the bytes before the last
/// checksum field, lengths filled in, into that field.
proof fn lemma_checksum_pass(
    def: StructDefV,
    schema: SchemaV,
    endian: Endianness,
    depth: nat,
    offsets: Seq<(Seq<char>, nat, nat)>,
)
    requires
        plain_send(def, schema, endian, depth),
        checksum_recorded(def, schema, endian, depth, def.fields.len(), offsets),
    ensures
        crate::encode::tracked_checksum_pass(
            def,
            endian,
            last_checksum(def.fields, def.fields.len()),
            offsets,
            auto_filled_upto(def, schema, endian, depth, def.fields.len()),
        ) == Some(bytes_upto(def, schema, endian, depth, def.fields.len())),
{
    let n = def.fields.len();
    lemma_last_filled(def, schema, endian, depth, n);
    lemma_last_checksum(def.fields, n);
    match last_checksum(def.fields, n) {
        Some(k) => {
            lemma_checksum_field(def, schema, endian, depth, k as int);
            lemma_computed_value(def, schema, endian, depth, k as int);
            lemma_computed_field(def.fields[k as int], endian);
            lemma_filled(def, schema, endian, depth, k, k);
            lemma_filled(def, schema, endian, depth, k + 1, k + 1);
            lemma_filled(def, schema, endian, depth, n, n);
            lemma_frame_upto(def, schema, endian, depth, k + 1, n);
            lemma_auto_filled_prefix(def, schema, endian, depth, k, n);
            assert(checksum_written(def, k as int));
        },
        None => {},
    }
}

/// Encoding a plain send struct gives the bytes of its written fields, one
/// after the other, with the length fields and the checksum filled in.
proof fn lemma_send_encoding(
    def: StructDefV,
    schema: SchemaV,
    endian: Endianness,
    fuel: nat,
    depth: nat,
)
    requires
        plain_send(def, schema, endian, depth),
        sent_bytes(def, schema, endian, depth).len() + 16 <= usize::MAX,
        match def.endian {
            Some(e) => e == endian,
            None => true,
        },
    ensures
        spec_encode(def, schema, endian, fuel) is Some ==> spec_encode(def, schema, endian, fuel)
            == Some(Ok::<Seq<u8>, crate::error::ErrorView>(sent_bytes(def, schema, endian, depth))),
        fuel >= depth ==> spec_encode(def, schema, endian, fuel) is Some,
{
    let fv = own_bindings(def.fields);
    let n = def.fields.len();
    let st = crate::encode::empty_pass();
    assert(st.buf == frame_upto(def, schema, endian, depth, 0));
    assert(st.autos == autos_upto(def, schema, endian, depth, 0));
    assert(st.groups =~= groups_upto(def, 0));
    lemma_send_pass(def, endian, schema, fuel, depth, 0, st);
    let fp = field_pass(def, fv, endian, schema, fuel, true, 0, 0, st);
    if fp is Some {
        let t = fp->0->Ok_0;
        assert forall|i: int| 0 <= i < def.fields.len() implies len_ref_attr(
            (#[trigger] def.fields[i]).attributes,
        ) is None && !has_remaining(def.fields[i].attributes) by {
            if is_computed_field(def.fields[i]) {
                lemma_computed_field(def.fields[i], endian);
            } else if is_raw_field(def, schema, endian, depth, i) {
                lemma_no_attrs(def.fields[i]);
            } else if is_bit_field(def.fields[i]) {
                lemma_bit_field(def.fields[i]);
            } else {
                lemma_simple_field(def.fields[i]);
            }
        }
        lemma_def_len_plain(def.fields, fv, endian, t.offsets, 0, t.buf);
        lemma_filled(def, schema, endian, depth, n, 0);
        lemma_fill(def, schema, endian, depth, 0);
        let b2 = auto_filled_upto(def, schema, endian, depth, n);
        assert(fill_autos(t.buf, t.autos, 0, endian, t.buf.len(), fv) == Some(
            Ok::<Seq<u8>, crate::error::ErrorView>(b2),
        ));
        lemma_checksum_pass(def, schema, endian, depth, t.offsets);
        assert(crate::encode::spec_encode_top(def, fv, endian, schema, fuel) == Some(
            Ok::<Seq<u8>, crate::error::ErrorView>(sent_bytes(def, schema, endian, depth)),
        ));
    }
}

/// What the attributes of field `i` of a matching receive struct decide: it
/// is no bit field or remaining field; with a length reference it reads a
/// field of `send` with at most a byte order, counted by that reference;
/// else its condition is that of the send field; its byte order is that of
/// the send field.
proof fn lemma_recv_attrs(recv: StructDefV, send: StructDefV, schema: SchemaV, endian: Endianness, depth: nat, i: int)
    requires
        plain_send(send, schema, endian, depth),
        receives_as(recv, send, schema),
        0 <= i < send.fields.len(),
    ensures
        !is_bit_field(send.fields[i]) ==> crate::receive::bit_key(recv.fields[i]) is None,
        is_bit_field(send.fields[i]) ==> recv.fields[i].attributes == send.fields[i].attributes
            && crate::receive::bit_key(recv.fields[i]) == crate::receive::bit_key(send.fields[i])
            && is_bit_field(recv.fields[i]),
        !has_remaining(recv.fields[i].attributes),
        field_endian(recv.fields[i].attributes, endian) == order_of(send.fields[i], endian),
        crate::attrs::has_auto(recv.fields[i].attributes) ==> if_attr(recv.fields[i].attributes) is None
            && len_ref_attr(recv.fields[i].attributes) is None,
        len_ref_attr(recv.fields[i].attributes) is Some ==> received_counted(recv.fields[i], send, i)
            && !crate::attrs::has_auto(recv.fields[i].attributes) && if_attr(send.fields[i].attributes) is None
            && if_attr(recv.fields[i].attributes) is None,
        len_ref_attr(recv.fields[i].attributes) is None ==> if_attr(recv.fields[i].attributes) == if_attr(
            send.fields[i].attributes,
        ),
        is_raw_field(send, schema, endian, depth, i) ==> len_ref_attr(recv.fields[i].attributes) is Some,
        is_computed_field(send.fields[i]) || is_raw_field(send, schema, endian, depth, i) ==> if_attr(
            send.fields[i].attributes,
        ) is None,
        !is_computed_field(send.fields[i]) && !is_raw_field(send, schema, endian, depth, i) && !is_bit_field(
            send.fields[i],
        ) ==> simple_attrs(send.fields[i].attributes) && condition_ok(send, own_bindings(send.fields), i)
            && field_value(
            own_bindings(send.fields),
            send.fields[i],
        ) is Some,
{
    let f = recv.fields[i];
    let g = send.fields[i];
    if is_computed_field(g) {
        lemma_computed_field(g, endian);
    }
    if endian_only(g.attributes) {
        lemma_no_attrs(g);
    }
    if is_bit_field(g) {
        lemma_bit_field(g);
    }
    if received_counted(f, send, i) {
        lemma_len_ref_attrs(f.attributes);
    } else if f.attributes == g.attributes {
        if is_computed_field(g) {
            lemma_computed_field(f, endian);
        } else if is_raw_field(send, schema, endian, depth, i) {
            lemma_no_attrs(f);
        } else if is_bit_field(g) {
            lemma_bit_field(f);
        } else {
            lemma_simple_field(f);
        }
    } else {
        lemma_simple_field(f);
    }
    if !is_bit_field(g) && !is_computed_field(g) && !is_raw_field(send, schema, endian, depth, i) {
        lemma_simple_field(g);
    }
}

proof fn lemma_names_not(fields: Seq<FieldV>, j: nat, key: usize, c: Seq<char>)
    requires
        not_member_name(fields, c),
    ensures
        !group_names(fields, j, key).contains(c),
    decreases fields.len() - j,
{
    if j < fields.len() {
        lemma_names_not(fields, j + 1, key, c);
        let rest = group_names(fields, j + 1, key);
        if crate::receive::bit_key(fields[j as int]) == Some(key) {
            let g = group_names(fields, j, key);
            assert(g =~= seq![fields[j as int].name] + rest);
            if g.contains(c) {
                let x = choose|x: int| 0 <= x < g.len() && g[x] == c;
                if x > 0 {
                    assert(rest[x - 1] == c);
                }
            }
        }
    }
}

/// Past a field that is not a bit field, decoding has read no more ahead,
/// and not that field.
proof fn lemma_read_ahead_other(send: StructDefV, schema: SchemaV, endian: Endianness, depth: nat, i: nat)
    requires
        plain_send(send, schema, endian, depth),
        i < send.fields.len(),
        !is_bit_field(send.fields[i as int]),
    ensures
        read_ahead(send, i + 1) == read_ahead(send, i),
        !read_ahead(send, i).contains(send.fields[i as int].name),
{
    lemma_first_bit(send.fields, 0);
    lemma_not_member(send, schema, endian, depth, i as int);
    if first_bit(send.fields) is Some {
        lemma_names_not(send.fields, 0, bit_group_key(send), send.fields[i as int].name);
    }
}

/// Fields with the same bit keys, and the same names and attributes where
/// they are members of group `key`, give the same group values and names.
proof fn lemma_same_members(a: Seq<FieldV>, b: Seq<FieldV>, j: nat, key: usize, raw: u64)
    requires
        a.len() == b.len(),
        forall|x: int| 0 <= x < a.len() ==> crate::receive::bit_key(#[trigger] a[x]) == crate::receive::bit_key(b[x]),
        forall|x: int|
            0 <= x < a.len() && crate::receive::bit_key(#[trigger] a[x]) == Some(key) ==> a[x].name == b[x].name
                && a[x].attributes == b[x].attributes,
    ensures
        group_values(a, j, key, raw) == group_values(b, j, key, raw),
        group_names(a, j, key) == group_names(b, j, key),
    decreases a.len() - j,
{
    if j < a.len() {
        assert(crate::receive::bit_key(a[j as int]) == crate::receive::bit_key(b[j as int]));
        lemma_same_members(a, b, j + 1, key, raw);
    }
}

/// At the first bit field, decoding reads the whole bit-field group from
/// the group's bytes.
#[verifier::rlimit(80)]
proof fn lemma_recv_group(
    recv: StructDefV,
    send: StructDefV,
    schema: SchemaV,
    endian: Endianness,
    depth: nat,
    i: nat,
    st: crate::receive::RecvState,
    tail: Seq<u8>,
)
    requires
        plain_send(send, schema, endian, depth),
        receives_as(recv, send, schema),
        sent_bytes(send, schema, endian, depth).len() + tail.len() + 16 <= usize::MAX,
        i < send.fields.len(),
        first_bit(send.fields) == Some(i),
        st.cur == bytes_upto(send, schema, endian, depth, i).len(),
    ensures
        crate::receive::decode_group(
            sent_bytes(send, schema, endian, depth) + tail,
            recv.fields,
            bit_group_key(send),
            field_endian(recv.fields[i as int].attributes, endian),
            st,
        ) == Some(
            Ok::<crate::receive::RecvState, crate::error::ErrorView>(
                crate::receive::RecvState {
                    cur: st.cur + (bit_group_key(send) / 8) as nat,
                    acc: st.acc + group_values(send.fields, 0, bit_group_key(send), bit_group_raw(send)),
                    processed: st.processed + group_names(send.fields, 0, bit_group_key(send)),
                },
            ),
        ),
{
    let n = send.fields.len();
    let sent = sent_bytes(send, schema, endian, depth);
    let data = sent + tail;
    let f = recv.fields[i as int];
    let g = send.fields[i as int];
    lemma_first_bit(send.fields, 0);
    lemma_recv_attrs(recv, send, schema, endian, depth, i as int);
    lemma_bit_key_group(send, schema, endian, depth, i as int);
    lemma_bit_field(g);
    let key = bit_group_key(send);
    let size = (key / 8) as nat;
    let fe = order_of(g, endian);
    let word = bit_group_word(send);
    let raw = bit_group_raw(send);
    assert(key == 8 || key == 16 || key == 32 || key == 64);
    lemma_bytes_upto(send, schema, endian, depth, i + 1, n);
    let before = bytes_upto(send, schema, endian, depth, i);
    let upto = bytes_upto(send, schema, endian, depth, i + 1);
    let gb = bit_group_bytes(send, endian);
    assert(upto == before + gb);
    crate::wire::lemma_bytes_value_mod(word as nat, size, fe);
    assert(gb.len() == size);
    assert(data.subrange(0, upto.len() as int) =~= sent.subrange(0, upto.len() as int));
    assert(data.subrange(0, upto.len() as int) == upto);
    assert(data.subrange(before.len() as int, (before.len() + size) as int) =~= upto.subrange(
        before.len() as int,
        upto.len() as int,
    ));
    assert(upto.subrange(before.len() as int, upto.len() as int) =~= gb);
    assert forall|x: int| 0 <= x < n implies crate::receive::bit_key(#[trigger] recv.fields[x])
        == crate::receive::bit_key(send.fields[x]) && (crate::receive::bit_key(recv.fields[x]) is Some
        ==> crate::receive::bit_key(recv.fields[x]) == Some(key) && is_bit_field(recv.fields[x])
        && recv.fields[x].name == send.fields[x].name && recv.fields[x].attributes
        == send.fields[x].attributes) by {
        lemma_recv_attrs(recv, send, schema, endian, depth, x);
        if is_bit_field(send.fields[x]) || crate::receive::bit_key(send.fields[x]) is Some {
            lemma_bit_key_group(send, schema, endian, depth, x);
        }
    }
    crate::bit_groups::lemma_push_group(recv.fields, 0, key, raw, st);
    lemma_same_members(recv.fields, send.fields, 0, key, raw);
    assert(crate::receive::has_group_member(recv.fields, key)) by {
        assert(crate::receive::bit_key(recv.fields[i as int]) == Some(key));
    }
}

/// Decoding a bit field of the bytes of a plain send struct: at the group's
/// first field, the whole group is read; at its other fields, nothing.
#[verifier::rlimit(80)]
proof fn lemma_recv_bits(
    recv: StructDefV,
    send: StructDefV,
    schema: SchemaV,
    endian: Endianness,
    fuel: nat,
    depth: nat,
    i: nat,
    st: crate::receive::RecvState,
    tail: Seq<u8>,
)
    requires
        plain_send(send, schema, endian, depth),
        receives_as(recv, send, schema),
        sent_bytes(send, schema, endian, depth).len() + tail.len() + 16 <= usize::MAX,
        i < send.fields.len(),
        is_bit_field(send.fields[i as int]),
        st.cur == bytes_upto(send, schema, endian, depth, i).len(),
        st.acc == values_upto(send, schema, endian, depth, i),
        st.processed == read_ahead(send, i),
    ensures
        crate::receive::field_step(
            sent_bytes(send, schema, endian, depth) + tail,
            recv,
            i as int,
            schema,
            endian,
            fuel,
            st,
        ) == Some(
            Ok::<crate::receive::RecvState, crate::error::ErrorView>(
                crate::receive::RecvState {
                    cur: bytes_upto(send, schema, endian, depth, i + 1).len(),
                    acc: values_upto(send, schema, endian, depth, i + 1),
                    processed: read_ahead(send, i + 1),
                },
            ),
        ),
{
    let n = send.fields.len();
    let sent = sent_bytes(send, schema, endian, depth);
    let data = sent + tail;
    let f = recv.fields[i as int];
    let g = send.fields[i as int];
    lemma_recv_attrs(recv, send, schema, endian, depth, i as int);
    lemma_bit_key_group(send, schema, endian, depth, i as int);
    lemma_bit_field(g);
    lemma_first_bit(send.fields, 0);
    let key = bit_group_key(send);
    let b = first_bit(send.fields)->0;
    if b < i {
        crate::bit_groups::lemma_group_names(send.fields, 0, key, i as int);
        assert(st.processed.contains(f.name));
        assert(values_upto(send, schema, endian, depth, i + 1) =~= values_upto(send, schema, endian, depth, i));
        assert(bytes_upto(send, schema, endian, depth, i + 1) =~= bytes_upto(send, schema, endian, depth, i));
    } else {
        assert(st.processed =~= Seq::<Seq<char>>::empty());
        crate::wire::lemma_int_bytes_len(bit_group_word(send) as nat, (key / 8) as nat, order_of(g, endian));
        assert(bytes_upto(send, schema, endian, depth, i + 1) == bytes_upto(send, schema, endian, depth, i)
            + bit_group_bytes(send, endian));
        assert(values_upto(send, schema, endian, depth, i + 1) == values_upto(send, schema, endian, depth, i)
            + group_values(send.fields, 0, key, bit_group_raw(send)));
        lemma_recv_group(recv, send, schema, endian, depth, i, st, tail);
        assert(st.processed + group_names(send.fields, 0, key) =~= group_names(send.fields, 0, key));
    }
}

/// Decoding a field of the bytes of a plain send struct that is written
/// without a length prefix, as a receive field with a length reference,
/// gives its value.
#[verifier::rlimit(60)]
proof fn lemma_recv_counted(
    recv: StructDefV,
    send: StructDefV,
    schema: SchemaV,
    endian: Endianness,
    fuel: nat,
    depth: nat,
    i: nat,
    st: crate::receive::RecvState,
    tail: Seq<u8>,
)
    requires
        plain_send(send, schema, endian, depth),
        receives_as(recv, send, schema),
        sent_bytes(send, schema, endian, depth).len() + tail.len() + 16 <= usize::MAX,
        i < send.fields.len(),
        is_raw_field(send, schema, endian, depth, i as int),
        st.cur == bytes_upto(send, schema, endian, depth, i).len(),
        st.acc == values_upto(send, schema, endian, depth, i),
    ensures
        ({
            let data = sent_bytes(send, schema, endian, depth) + tail;
            let r = crate::receive::len_ref_field(
                data,
                recv.fields[i as int],
                len_ref_attr(recv.fields[i as int].attributes)->0,
                schema,
                order_of(send.fields[i as int], endian),
                fuel,
                st,
            );
            let next = crate::receive::RecvState {
                cur: bytes_upto(send, schema, endian, depth, i + 1).len(),
                acc: values_upto(send, schema, endian, depth, i + 1),
                processed: st.processed,
            };
            &&& r is Some ==> r == Some(Ok::<crate::receive::RecvState, crate::error::ErrorView>(next))
            &&& fuel >= depth ==> r is Some
        }),
{
    let n = send.fields.len();
    let fv = own_bindings(send.fields);
    let data = sent_bytes(send, schema, endian, depth) + tail;
    let f = recv.fields[i as int];
    let g = send.fields[i as int];
    lemma_recv_attrs(recv, send, schema, endian, depth, i as int);
    lemma_no_attrs(g);
    let c = len_ref_attr(f.attributes)->0;
    let k = first_index(send.fields, c)->0;
    lemma_first_index(send.fields, c);
    let gk = send.fields[k as int];
    lemma_computed_value(send, schema, endian, depth, k as int);
    lemma_computed_field(gk, endian);
    lemma_not_member(send, schema, endian, depth, k as int);
    lemma_bytes_upto(send, schema, endian, depth, i, n);
    lemma_bytes_upto(send, schema, endian, depth, i + 1, n);
    let fe = order_of(g, endian);
    let v = field_value(fv, g)->0;
    let b = plain_bytes(v, g.ty, schema, fe, depth);
    let before = bytes_upto(send, schema, endian, depth, i);
    let upto = bytes_upto(send, schema, endian, depth, i + 1);
    let after = data.subrange(upto.len() as int, data.len() as int);
    assert(data.subrange(0, upto.len() as int) =~= sent_bytes(send, schema, endian, depth).subrange(
        0,
        upto.len() as int,
    ));
    assert(data.subrange(0, upto.len() as int) == upto);
    assert(sent_input(send, schema, endian, depth, i as int) == v);
    assert(upto == before + b);
    assert(data =~= before + b + after);
    lemma_raw_encode(v, g.ty, fe, schema, 0, fuel, depth);
    // the count field holds the count of the value
    lemma_unique_find(send.fields, i as int);
    let w = uint_width(gk.ty)->0;
    let count = raw_count(v);
    assert(crate::encode::auto_value_length(v, Some(g)) == count);
    assert(length_word(send, schema, endian, depth, k as int) == count % pow256(w));
    vstd::arithmetic::div_mod::lemma_small_mod(count, pow256(w));
    assert(count <= usize::MAX);
    lemma_word_count(count, gk.ty);
    assert(sent_value(send, schema, endian, depth, k as int) == scalar_decoded(
        ValueV::Integer(count as i128),
        gk.ty,
    )->0);
    lemma_values_count(send, schema, endian, depth, k, i);
    lemma_raw_decode(v, f, c, fe, schema, fuel, depth, before, after, st);
    assert(sent_value(send, schema, endian, depth, i as int) == raw_decoded(v, g.ty, schema, fe, depth)->0);
    let t = crate::receive::with_field(st, f.name, raw_decoded(v, g.ty, schema, fe, depth)->0, st.cur + b.len());
    assert(t.acc =~= values_upto(send, schema, endian, depth, i + 1));
}

/// Decoding field `i` of the bytes of a plain send struct as a matching
/// receive struct gives its written value, or skips it when it is not
/// written.
#[verifier::rlimit(60)]
proof fn lemma_recv_step(
    recv: StructDefV,
    send: StructDefV,
    schema: SchemaV,
    endian: Endianness,
    fuel: nat,
    depth: nat,
    i: nat,
    st: crate::receive::RecvState,
    tail: Seq<u8>,
)
    requires
        plain_send(send, schema, endian, depth),
        receives_as(recv, send, schema),
        sent_bytes(send, schema, endian, depth).len() + tail.len() + 16 <= usize::MAX,
        i < send.fields.len(),
        st.cur == bytes_upto(send, schema, endian, depth, i).len(),
        st.acc == values_upto(send, schema, endian, depth, i),
        st.processed == read_ahead(send, i),
    ensures
        ({
            let data = sent_bytes(send, schema, endian, depth) + tail;
            let r = crate::receive::field_step(data, recv, i as int, schema, endian, fuel, st);
            let next = crate::receive::RecvState {
                cur: bytes_upto(send, schema, endian, depth, i + 1).len(),
                acc: values_upto(send, schema, endian, depth, i + 1),
                processed: read_ahead(send, i + 1),
            };
            &&& r is Some ==> r == Some(Ok::<crate::receive::RecvState, crate::error::ErrorView>(next))
            &&& fuel >= depth ==> r is Some
        }),
{
    let n = send.fields.len();
    let fv = own_bindings(send.fields);
    let data = sent_bytes(send, schema, endian, depth) + tail;
    let f = recv.fields[i as int];
    let g = send.fields[i as int];
    lemma_recv_attrs(recv, send, schema, endian, depth, i as int);
    let step = crate::receive::field_step(data, recv, i as int, schema, endian, fuel, st);
    if is_bit_field(g) {
        lemma_recv_bits(recv, send, schema, endian, fuel, depth, i, st, tail);
        return;
    }
    lemma_read_ahead_other(send, schema, endian, depth, i);
    assert(!st.processed.contains(f.name));
    if is_raw_field(send, schema, endian, depth, i as int) {
        lemma_recv_counted(recv, send, schema, endian, fuel, depth, i, st, tail);
        assert(crate::receive::is_length_carrying(f.ty)) by {
            lemma_raw_encode(field_value(fv, g)->0, g.ty, order_of(g, endian), schema, 0, fuel, depth);
        }
    } else {
        lemma_recv_plain(recv, send, schema, endian, fuel, depth, i, st, tail);
    }
}

/// The condition of field `i` of a matching receive struct, when it has
/// one, is found decoded before it with the value it had when encoding.
proof fn lemma_recv_condition(
    recv: StructDefV,
    send: StructDefV,
    schema: SchemaV,
    endian: Endianness,
    depth: nat,
    i: nat,
)
    requires
        plain_send(send, schema, endian, depth),
        receives_as(recv, send, schema),
        i < send.fields.len(),
        if_attr(recv.fields[i as int].attributes) is Some,
    ensures
        ({
            let c = if_attr(recv.fields[i as int].attributes)->0;
            &&& if_attr(send.fields[i as int].attributes) == Some(c)
            &&& crate::receive::decoded_named(values_upto(send, schema, endian, depth, i), c) == Some(
                DecodedV::Bool(is_present(send, own_bindings(send.fields), i as int)),
            )
        }),
{
    let fv = own_bindings(send.fields);
    let f = recv.fields[i as int];
    let g = send.fields[i as int];
    lemma_recv_attrs(recv, send, schema, endian, depth, i as int);
    let c = if_attr(f.attributes)->0;
    assert(len_ref_attr(f.attributes) is None);
    assert(if_attr(g.attributes) == Some(c));
    assert(!is_computed_field(g) && !is_raw_field(send, schema, endian, depth, i as int));
    if is_bit_field(g) {
        lemma_bit_field(g);
    }
    assert(condition_ok(send, fv, i as int));
    let k = first_index(send.fields, c)->0;
    lemma_first_index(send.fields, c);
    lemma_recv_attrs(recv, send, schema, endian, depth, k as int);
    assert(is_present(send, fv, k as int));
    lemma_not_member(send, schema, endian, depth, k as int);
    lemma_values_condition(send, schema, endian, depth, k, i);
}

/// Decoding a field of the bytes of a plain send struct that is not written
/// without a length prefix gives its written value, or skips it when it is
/// not written.
#[verifier::rlimit(60)]
proof fn lemma_recv_plain(
    recv: StructDefV,
    send: StructDefV,
    schema: SchemaV,
    endian: Endianness,
    fuel: nat,
    depth: nat,
    i: nat,
    st: crate::receive::RecvState,
    tail: Seq<u8>,
)
    requires
        plain_send(send, schema, endian, depth),
        receives_as(recv, send, schema),
        sent_bytes(send, schema, endian, depth).len() + tail.len() + 16 <= usize::MAX,
        i < send.fields.len(),
        !is_raw_field(send, schema, endian, depth, i as int),
        !is_bit_field(send.fields[i as int]),
        st.cur == bytes_upto(send, schema, endian, depth, i).len(),
        st.acc == values_upto(send, schema, endian, depth, i),
        st.processed == read_ahead(send, i),
    ensures
        ({
            let data = sent_bytes(send, schema, endian, depth) + tail;
            let r = crate::receive::field_step(data, recv, i as int, schema, endian, fuel, st);
            let next = crate::receive::RecvState {
                cur: bytes_upto(send, schema, endian, depth, i + 1).len(),
                acc: values_upto(send, schema, endian, depth, i + 1),
                processed: st.processed,
            };
            &&& r is Some ==> r == Some(Ok::<crate::receive::RecvState, crate::error::ErrorView>(next))
            &&& fuel >= depth ==> r is Some
        }),
{
    let n = send.fields.len();
    let fv = own_bindings(send.fields);
    let data = sent_bytes(send, schema, endian, depth) + tail;
    let f = recv.fields[i as int];
    let g = send.fields[i as int];
    lemma_recv_attrs(recv, send, schema, endian, depth, i as int);
    lemma_bytes_upto(send, schema, endian, depth, i, n);
    lemma_bytes_upto(send, schema, endian, depth, i + 1, n);
    let fe = order_of(g, endian);
    let before = bytes_upto(send, schema, endian, depth, i);
    let upto = bytes_upto(send, schema, endian, depth, i + 1);
    let after = data.subrange(upto.len() as int, data.len() as int);
    assert(data.subrange(0, upto.len() as int) =~= sent_bytes(send, schema, endian, depth).subrange(
        0,
        upto.len() as int,
    ));
    assert(data.subrange(0, upto.len() as int) == upto);
    let step = crate::receive::field_step(data, recv, i as int, schema, endian, fuel, st);
    lemma_read_ahead_other(send, schema, endian, depth, i);
    assert(!st.processed.contains(f.name));
    if is_present(send, fv, i as int) {
        let v = sent_input(send, schema, endian, depth, i as int);
        if is_computed_field(g) {
            lemma_computed_value(send, schema, endian, depth, i as int);
        }
        assert(plain_decoded(v, g.ty, schema, fe, depth) is Some);
        let b = plain_bytes(v, g.ty, schema, fe, depth);
        assert(upto == before + b);
        assert(data =~= before + b + after);
        lemma_value_decode(v, g.ty, fe, schema, fuel, depth, before, after);
        let d = plain_decoded(v, g.ty, schema, fe, depth)->0;
        assert(!(!schema.is_prefix_enabled() && crate::receive::is_length_carrying(g.ty)));
        assert(sent_value(send, schema, endian, depth, i as int) == d);
        let t = crate::receive::with_field(st, f.name, d, st.cur + b.len());
        if if_attr(f.attributes) is Some {
            lemma_recv_condition(recv, send, schema, endian, depth, i);
        }
        if spec_decode_value(data, st.cur, g.ty, schema, fe, fuel) is Some {
            assert(step == Some(Ok::<crate::receive::RecvState, crate::error::ErrorView>(t)));
        } else {
            assert(step is None);
        }
        assert(t.acc =~= values_upto(send, schema, endian, depth, i + 1));
    } else {
        assert(if_attr(f.attributes) is Some);
        lemma_recv_condition(recv, send, schema, endian, depth, i);
        assert(step == Some(Ok::<crate::receive::RecvState, crate::error::ErrorView>(st)));
        assert(st.acc =~= values_upto(send, schema, endian, depth, i + 1));
    }
}

/// Decoding the bytes of a plain send struct as a matching receive struct
/// gives back the written values, from field `i` on.
proof fn lemma_recv_fields(
    recv: StructDefV,
    send: StructDefV,
    schema: SchemaV,
    endian: Endianness,
    fuel: nat,
    depth: nat,
    i: nat,
    st: crate::receive::RecvState,
    tail: Seq<u8>,
)
    requires
        plain_send(send, schema, endian, depth),
        receives_as(recv, send, schema),
        sent_bytes(send, schema, endian, depth).len() + tail.len() + 16 <= usize::MAX,
        i <= send.fields.len(),
        st.cur == bytes_upto(send, schema, endian, depth, i).len(),
        st.acc == values_upto(send, schema, endian, depth, i),
        st.processed == read_ahead(send, i),
    ensures
        ({
            let data = sent_bytes(send, schema, endian, depth) + tail;
            let r = crate::receive::decode_fields_from(data, recv, i, schema, endian, fuel, st);
            &&& r is Some ==> r == Some(
                Ok::<crate::receive::RecvState, crate::error::ErrorView>(
                    crate::receive::RecvState {
                        cur: sent_bytes(send, schema, endian, depth).len(),
                        acc: sent_values(send, schema, endian, depth),
                        processed: read_ahead(send, send.fields.len()),
                    },
                ),
            )
            &&& fuel >= depth ==> r is Some
        }),
    decreases send.fields.len() - i,
{
    if i < send.fields.len() {
        lemma_recv_step(recv, send, schema, endian, fuel, depth, i, st, tail);
        let next = crate::receive::RecvState {
            cur: bytes_upto(send, schema, endian, depth, i + 1).len(),
            acc: values_upto(send, schema, endian, depth, i + 1),
            processed: read_ahead(send, i + 1),
        };
        lemma_recv_fields(recv, send, schema, endian, fuel, depth, i + 1, next, tail);
    }
}

/// The codec symmetry law for structs: encoding a `#[send]` struct of plain
/// fields (scalars; strings, byte arrays and `Vec`s of plain items, with a
/// length prefix when prefixes are on, else bare and counted by an earlier
/// length field; fixed-size arrays of plain items; values of structs whose
/// fields have no attributes, nested at most `depth` deep; each field in its
/// own byte order where it has `#[endian(..)]`, else in the struct's, else
/// in `endian`, and written only when the earlier `bool` field its
/// `#[if(..)]` names is `true`), of length fields (`#[auto]`,
/// `#[auto(field)]`), of checksum fields and of bit fields of one storage
/// width gives the bytes of its written fields one after the other, each
/// length field holding its length and the last checksum field the checksum
/// of the bytes before it as sent (length fields filled in), each reduced
/// to its width, and the bit fields' word at the first bit field, whenever
/// it ends within the nesting budget `fuel`, which it does when `fuel` is
/// at least `depth`. Decoding those bytes as a `#[receive]` struct that
/// reads it field by field (see `receives_as`) and comes to the same byte
/// order gives back every written value, length and checksum, in field
/// order, with all bit fields, each holding its bits of the word, at the
/// first bit field, using every byte, likewise.
pub proof fn lemma_struct_symmetry(
    send: StructDefV,
    recv: StructDefV,
    schema: SchemaV,
    endian: Endianness,
    fuel: nat,
    depth: nat,
)
    requires
        plain_send(send, schema, struct_endian(send, endian), depth),
        receives_as(recv, send, schema),
        struct_endian(recv, endian) == struct_endian(send, endian),
        sent_bytes(send, schema, struct_endian(send, endian), depth).len() + 16 <= usize::MAX,
    ensures
        spec_encode(send, schema, endian, fuel) is Some ==> spec_encode(send, schema, endian, fuel)
            == Some(
            Ok::<Seq<u8>, crate::error::ErrorView>(sent_bytes(send, schema, struct_endian(send, endian), depth)),
        ),
        fuel >= depth ==> spec_encode(send, schema, endian, fuel) is Some,
        crate::receive::spec_decode_struct(
            sent_bytes(send, schema, struct_endian(send, endian), depth),
            recv,
            schema,
            endian,
            fuel,
        ) is Some ==> crate::receive::spec_decode_struct(
            sent_bytes(send, schema, struct_endian(send, endian), depth),
            recv,
            schema,
            endian,
            fuel,
        ) == Some(
            Ok::<DecodedStructV, crate::error::ErrorView>(
                DecodedStructV {
                    name: recv.name,
                    fields: sent_values(send, schema, struct_endian(send, endian), depth),
                },
            ),
        ),
        fuel >= depth ==> crate::receive::spec_decode_struct(
            sent_bytes(send, schema, struct_endian(send, endian), depth),
            recv,
            schema,
            endian,
            fuel,
        ) is Some,
{
    let e = struct_endian(send, endian);
    assert(spec_encode(send, schema, endian, fuel) == spec_encode(send, schema, e, fuel));
    lemma_send_encoding(send, schema, e, fuel, depth);
    let st = crate::receive::start_state();
    assert(st.acc =~= values_upto(send, schema, e, depth, 0));
    assert(st.processed =~= read_ahead(send, 0));
    lemma_recv_fields(recv, send, schema, e, fuel, depth, 0, st, Seq::empty());
    assert(sent_bytes(send, schema, e, depth) + Seq::<u8>::empty() =~= sent_bytes(send, schema, e, depth));
    assert(!crate::receive::any_remaining(recv.fields)) by {
        assert forall|j: int| 0 <= j < recv.fields.len() implies !has_remaining(
            #[trigger] recv.fields[j].attributes,
        ) by {
            lemma_recv_attrs(recv, send, schema, e, depth, j);
        }
    }
}

/// The codec symmetry law at the codec level: for a send codec of a struct
/// of plain, length and checksum fields, and a receive codec of a struct
/// that reads it field by field (see `receives_as`), over the same schema
/// and default byte order, both structs coming to the same byte order,
/// encoding succeeds with the written fields' bytes, and decoding those
/// bytes succeeds with every written value, length and checksum given back.
pub proof fn lemma_codec_symmetry(
    send: crate::codec::CodecV,
    recv: crate::codec::CodecV,
    depth: nat,
)
    requires
        send.schema == recv.schema,
        send.default_endian == recv.default_endian,
        struct_endian(recv.def, send.default_endian) == struct_endian(send.def, send.default_endian),
        plain_send(send.def, send.schema, struct_endian(send.def, send.default_endian), depth),
        receives_as(recv.def, send.def, send.schema),
        sent_bytes(send.def, send.schema, struct_endian(send.def, send.default_endian), depth).len() + 16
            <= usize::MAX,
    ensures
        send.encodable(),
        send.encoding() == Some(
            Ok::<Seq<u8>, crate::error::ErrorView>(
                sent_bytes(send.def, send.schema, struct_endian(send.def, send.default_endian), depth),
            ),
        ),
        recv.decodable(sent_bytes(send.def, send.schema, struct_endian(send.def, send.default_endian), depth)),
        recv.decoding(sent_bytes(send.def, send.schema, struct_endian(send.def, send.default_endian), depth))
            == Some(
            Ok::<DecodedStructV, crate::error::ErrorView>(
                DecodedStructV {
                    name: recv.def.name,
                    fields: sent_values(send.def, send.schema, struct_endian(send.def, send.default_endian), depth),
                },
            ),
        ),
{
    let d = send.default_endian;
    let e = struct_endian(send.def, d);
    let bytes = sent_bytes(send.def, send.schema, e, depth);
    lemma_struct_symmetry(send.def, recv.def, send.schema, d, depth, depth);
    assert(spec_encode(send.def, send.schema, d, depth) is Some);
    let f = choose|fuel: nat| spec_encode(send.def, send.schema, d, fuel) is Some;
    lemma_struct_symmetry(send.def, recv.def, send.schema, d, f, depth);
    assert(crate::receive::spec_decode_struct(bytes, recv.def, recv.schema, d, depth) is Some);
    let g = choose|fuel: nat| crate::receive::spec_decode_struct(bytes, recv.def, recv.schema, d, fuel) is Some;
    lemma_struct_symmetry(send.def, recv.def, send.schema, d, g, depth);
}

/// Every attribute of a field is `#[remaining]` or a byte order, and there
/// is a `#[remaining]`.
pub open spec fn remaining_attrs(attrs: Seq<crate::ast::FieldAttributeV>) -> bool {
    &&& has_remaining(attrs)
    &&& forall|i: int| 0 <= i < attrs.len() ==> (#[trigger] attrs[i]) is Remaining || attrs[i] is Endian
}

/// What a `#[remaining]` field of type `ty` holds when it takes `tail`: the
/// bytes, the text they encode, or the bytes as `u8` items. `None` for a
/// text that is not UTF-8, or another type.
pub open spec fn tail_value(ty: TypeV, tail: Seq<u8>) -> Option<DecodedV> {
    match ty {
        TypeV::Bytes => Some(DecodedV::Bytes(tail)),
        TypeV::Str => if valid_utf8(tail) {
            Some(DecodedV::Str(decode_utf8(tail)))
        } else {
            None
        },
        TypeV::Vec(inner) => if *inner == TypeV::U8 {
            Some(DecodedV::List(tail.map_values(|b: u8| DecodedV::U8(b))))
        } else {
            None
        },
        _ => None,
    }
}

proof fn lemma_remaining_attrs(attrs: Seq<crate::ast::FieldAttributeV>)
    requires
        forall|i: int| 0 <= i < attrs.len() ==> (#[trigger] attrs[i]) is Remaining || attrs[i] is Endian,
    ensures
        auto_attr(attrs) is None,
        len_ref_attr(attrs) is None,
        bits_attr(attrs) is None,
        bit_attr(attrs) is None,
    decreases attrs.len(),
{
    if attrs.len() > 0 {
        let rest = attrs.drop_first();
        assert forall|i: int| 0 <= i < rest.len() implies (#[trigger] rest[i]) is Remaining
            || rest[i] is Endian by {
            assert(rest[i] == attrs[i + 1]);
        }
        lemma_remaining_attrs(rest);
    }
}

/// Reading `u8` items from `cur` to the end gives the bytes there.
proof fn lemma_remaining_bytes(
    data: Seq<u8>,
    cur: nat,
    acc: Seq<DecodedV>,
    schema: SchemaV,
    endian: Endianness,
    fuel: nat,
)
    requires
        cur <= data.len(),
        data.len() + 16 <= usize::MAX,
    ensures
        crate::receive::remaining_items(data, cur, TypeV::U8, acc, schema, endian, fuel) == Some(
            Ok::<Seq<DecodedV>, crate::error::ErrorView>(
                acc + data.subrange(cur as int, data.len() as int).map_values(|b: u8| DecodedV::U8(b)),
            ),
        ),
    decreases data.len() - cur,
{
    let rest = data.subrange(cur as int, data.len() as int).map_values(|b: u8| DecodedV::U8(b));
    if cur < data.len() {
        assert(prim_width(TypeV::U8) == Some(1nat));
        assert(data.subrange(cur as int, (cur + 1) as int)[0] == data[cur as int]);
        lemma_remaining_bytes(data, cur + 1, acc.push(DecodedV::U8(data[cur as int])), schema, endian, fuel);
        assert(acc.push(DecodedV::U8(data[cur as int])) + data.subrange((cur + 1) as int, data.len() as int).map_values(
            |b: u8| DecodedV::U8(b),
        ) =~= acc + rest);
    } else {
        assert(acc + rest =~= acc);
    }
}

/// Adding a field that is no bit field changes no bit-field group.
proof fn lemma_push_group_ext(
    fields: Seq<FieldV>,
    x: FieldV,
    j: nat,
    key: usize,
    raw: u64,
    s: crate::receive::RecvState,
)
    requires
        j <= fields.len(),
        crate::receive::bit_key(x) is None,
    ensures
        crate::receive::push_group(fields.push(x), j, key, raw, s) == crate::receive::push_group(fields, j, key, raw, s),
    decreases fields.len() - j,
{
    let ext = fields.push(x);
    if j < fields.len() {
        assert(ext[j as int] == fields[j as int]);
        if crate::receive::bit_key(fields[j as int]) == Some(key) {
            match crate::receive::bit_field_value(fields[j as int], raw) {
                Some(v) => {
                    let t = crate::receive::RecvState {
                        cur: s.cur,
                        acc: s.acc.push((fields[j as int].name, v)),
                        processed: s.processed.push(fields[j as int].name),
                    };
                    lemma_push_group_ext(fields, x, j + 1, key, raw, t);
                    assert(crate::receive::push_group(ext, j, key, raw, s) == crate::receive::push_group(ext, j + 1, key, raw, t));
                    assert(crate::receive::push_group(fields, j, key, raw, s) == crate::receive::push_group(fields, j + 1, key, raw, t));
                },
                None => {},
            }
        } else {
            lemma_push_group_ext(fields, x, j + 1, key, raw, s);
            assert(crate::receive::push_group(ext, j, key, raw, s) == crate::receive::push_group(ext, j + 1, key, raw, s));
        }
    } else {
        assert(ext[j as int] == x);
        assert(crate::receive::push_group(ext, j + 1, key, raw, s) == Some(s));
        assert(crate::receive::push_group(ext, j, key, raw, s) == crate::receive::push_group(ext, j + 1, key, raw, s));
    }
}

/// Decoding a bit-field group does not see a field that is no bit field
/// added at the end.
proof fn lemma_bit_groups_ext(
    data: Seq<u8>,
    fields: Seq<FieldV>,
    x: FieldV,
    key: usize,
    endian: Endianness,
    s: crate::receive::RecvState,
)
    requires
        crate::receive::bit_key(x) is None,
    ensures
        crate::receive::decode_group(data, fields.push(x), key, endian, s) == crate::receive::decode_group(
            data,
            fields,
            key,
            endian,
            s,
        ),
{
    let ext = fields.push(x);
    assert(crate::receive::has_group_member(ext, key) == crate::receive::has_group_member(fields, key)) by {
        if crate::receive::has_group_member(ext, key) {
            let j = choose|j: int| 0 <= j < ext.len() && crate::receive::bit_key(#[trigger] ext[j]) == Some(key);
            assert(j < fields.len());
            assert(ext[j] == fields[j]);
        }
        if crate::receive::has_group_member(fields, key) {
            let j = choose|j: int| 0 <= j < fields.len() && crate::receive::bit_key(#[trigger] fields[j]) == Some(key);
            assert(ext[j] == fields[j]);
        }
    }
    assert forall|raw: u64, t: crate::receive::RecvState| crate::receive::push_group(ext, 0, key, raw, t)
        == crate::receive::push_group(fields, 0, key, raw, t) by {
        lemma_push_group_ext(fields, x, 0, key, raw, t);
    }
}

/// Decoding the fields of a receive struct that ends with one more field
/// than `base`, no bit field, is decoding those of `base`, then that field.
proof fn lemma_recv_ext(
    data: Seq<u8>,
    recv: StructDefV,
    base: StructDefV,
    schema: SchemaV,
    endian: Endianness,
    fuel: nat,
    i: nat,
    st: crate::receive::RecvState,
)
    requires
        recv.fields.len() == base.fields.len() + 1,
        i <= base.fields.len(),
        recv.fields == base.fields.push(recv.fields.last()),
        crate::receive::bit_key(recv.fields.last()) is None,
    ensures
        crate::receive::decode_fields_from(data, recv, i, schema, endian, fuel, st) == match crate::receive::decode_fields_from(
            data,
            base,
            i,
            schema,
            endian,
            fuel,
            st,
        ) {
            Some(Ok(t)) => crate::receive::decode_fields_from(
                data,
                recv,
                base.fields.len(),
                schema,
                endian,
                fuel,
                t,
            ),
            o => o,
        },
    decreases base.fields.len() - i,
{
    if i < base.fields.len() {
        assert(recv.fields[i as int] == base.fields[i as int]);
        let f = base.fields[i as int];
        if crate::receive::bit_key(f) is Some {
            lemma_bit_groups_ext(
                data,
                base.fields,
                recv.fields.last(),
                crate::receive::bit_key(f)->0,
                field_endian(f.attributes, endian),
                st,
            );
        }
        assert(crate::receive::field_step(data, recv, i as int, schema, endian, fuel, st)
            == crate::receive::field_step(data, base, i as int, schema, endian, fuel, st));
        match crate::receive::field_step(data, base, i as int, schema, endian, fuel, st) {
            Some(Ok(t)) => {
                lemma_recv_ext(data, recv, base, schema, endian, fuel, i + 1, t);
            },
            _ => {},
        }
    }
}

/// Decoding the last field, `#[remaining]`, of a receive struct takes the
/// rest of the data.
proof fn lemma_remaining_last(
    data: Seq<u8>,
    recv: StructDefV,
    schema: SchemaV,
    endian: Endianness,
    fuel: nat,
    t: crate::receive::RecvState,
    tail: Seq<u8>,
)
    requires
        recv.fields.len() > 0,
        remaining_attrs(recv.fields.last().attributes),
        tail_value(recv.fields.last().ty, tail) is Some,
        t.cur <= data.len(),
        data.subrange(t.cur as int, data.len() as int) == tail,
        data.len() + 16 <= usize::MAX,
        !t.processed.contains(recv.fields.last().name),
    ensures
        crate::receive::decode_fields_from(data, recv, (recv.fields.len() - 1) as nat, schema, endian, fuel, t)
            == Some(
            Ok::<crate::receive::RecvState, crate::error::ErrorView>(
                crate::receive::with_field(
                    t,
                    recv.fields.last().name,
                    tail_value(recv.fields.last().ty, tail)->0,
                    data.len(),
                ),
            ),
        ),
{
    let n = (recv.fields.len() - 1) as nat;
    let last = recv.fields.last();
    lemma_remaining_attrs(last.attributes);
    assert(recv.fields[n as int] == last);
    assert(!t.processed.contains(last.name));
    if last.ty is Vec {
        lemma_remaining_bytes(data, t.cur, Seq::empty(), schema, field_endian(last.attributes, endian), fuel);
        assert(Seq::<DecodedV>::empty() + tail.map_values(|b: u8| DecodedV::U8(b)) =~= tail.map_values(
            |b: u8| DecodedV::U8(b),
        ));
    }
    let u = crate::receive::with_field(t, last.name, tail_value(last.ty, tail)->0, data.len());
    assert(crate::receive::field_step(data, recv, n as int, schema, endian, fuel, t) == Some(
        Ok::<crate::receive::RecvState, crate::error::ErrorView>(u),
    ));
    assert(crate::receive::decode_fields_from(data, recv, n + 1, schema, endian, fuel, u) == Some(
        Ok::<crate::receive::RecvState, crate::error::ErrorView>(u),
    ));
}

/// The remaining-data law: encoding a `#[send]` struct of plain fields (as
/// in `lemma_struct_symmetry`) gives its bytes, and those bytes followed by
/// any `tail`, decoded as a `#[receive]` struct that comes to the same byte
/// order, reads the send struct field by field (see `receives_as`) and then
/// has one more field, `#[remaining]` (with at most a byte order besides,
/// and not named like a bit field), of type `Bytes`, `String` (the tail
/// being UTF-8) or `Vec<u8>`, give back every written value and then the
/// tail in that last field, whenever decoding ends within the nesting
/// budget `fuel`, which it does when `fuel` is at least `depth`.
pub proof fn lemma_remaining_symmetry(
    send: StructDefV,
    recv: StructDefV,
    schema: SchemaV,
    endian: Endianness,
    fuel: nat,
    depth: nat,
    tail: Seq<u8>,
)
    requires
        plain_send(send, schema, struct_endian(send, endian), depth),
        struct_endian(recv, endian) == struct_endian(send, endian),
        recv.fields.len() > 0,
        receives_as((StructDefV { fields: recv.fields.drop_last(), ..recv }), send, schema),
        remaining_attrs(recv.fields.last().attributes),
        tail_value(recv.fields.last().ty, tail) is Some,
        not_member_name(send.fields, recv.fields.last().name),
        sent_bytes(send, schema, struct_endian(send, endian), depth).len() + tail.len() + 16 <= usize::MAX,
    ensures
        spec_encode(send, schema, endian, fuel) is Some ==> spec_encode(send, schema, endian, fuel)
            == Some(
            Ok::<Seq<u8>, crate::error::ErrorView>(sent_bytes(send, schema, struct_endian(send, endian), depth)),
        ),
        fuel >= depth ==> spec_encode(send, schema, endian, fuel) is Some,
        crate::receive::spec_decode_struct(
            sent_bytes(send, schema, struct_endian(send, endian), depth) + tail,
            recv,
            schema,
            endian,
            fuel,
        ) is Some ==> crate::receive::spec_decode_struct(
            sent_bytes(send, schema, struct_endian(send, endian), depth) + tail,
            recv,
            schema,
            endian,
            fuel,
        ) == Some(
            Ok::<DecodedStructV, crate::error::ErrorView>(
                DecodedStructV {
                    name: recv.name,
                    fields: sent_values(send, schema, struct_endian(send, endian), depth).push(
                        (recv.fields.last().name, tail_value(recv.fields.last().ty, tail)->0),
                    ),
                },
            ),
        ),
        fuel >= depth ==> crate::receive::spec_decode_struct(
            sent_bytes(send, schema, struct_endian(send, endian), depth) + tail,
            recv,
            schema,
            endian,
            fuel,
        ) is Some,
{
    let e = struct_endian(send, endian);
    assert(spec_encode(send, schema, endian, fuel) == spec_encode(send, schema, e, fuel));
    lemma_send_encoding(send, schema, e, fuel, depth);
    let base = StructDefV { fields: recv.fields.drop_last(), ..recv };
    let n = base.fields.len();
    let sent = sent_bytes(send, schema, e, depth);
    let data = sent + tail;
    let last = recv.fields.last();
    let st = crate::receive::start_state();
    assert(st.acc =~= values_upto(send, schema, e, depth, 0));
    assert(st.processed =~= read_ahead(send, 0));
    lemma_recv_fields(base, send, schema, e, fuel, depth, 0, st, tail);
    lemma_remaining_attrs(last.attributes);
    assert(recv.fields =~= base.fields.push(last));
    lemma_recv_ext(data, recv, base, schema, e, fuel, 0, st);
    let t = crate::receive::RecvState { cur: sent.len(), acc: sent_values(send, schema, e, depth), processed: read_ahead(send, n) };
    lemma_first_bit(send.fields, 0);
    if first_bit(send.fields) is Some {
        lemma_names_not(send.fields, 0, bit_group_key(send), last.name);
    }
    assert(data.subrange(sent.len() as int, data.len() as int) =~= tail);
    lemma_remaining_last(data, recv, schema, e, fuel, t, tail);
    assert(crate::receive::any_remaining(recv.fields)) by {
        assert(has_remaining(recv.fields[n as int].attributes));
    }
    assert(base.direction == Some(Direction::Receive));
}

/// The remaining-data law at the codec level: for a send codec of a struct
/// of plain, length and checksum fields, and a receive codec of a struct
/// that reads it field by field and then has a last `#[remaining]` field
/// (as in `lemma_remaining_symmetry`), over the same schema and default
/// byte order, both structs coming to the same byte order, encoding
/// succeeds with the written fields' bytes, and decoding those bytes
/// followed by `tail` succeeds with every written value given back and
/// then the tail.
pub proof fn lemma_codec_remaining(
    send: crate::codec::CodecV,
    recv: crate::codec::CodecV,
    depth: nat,
    tail: Seq<u8>,
)
    requires
        send.schema == recv.schema,
        send.default_endian == recv.default_endian,
        struct_endian(recv.def, send.default_endian) == struct_endian(send.def, send.default_endian),
        plain_send(send.def, send.schema, struct_endian(send.def, send.default_endian), depth),
        recv.def.fields.len() > 0,
        receives_as((StructDefV { fields: recv.def.fields.drop_last(), ..recv.def }), send.def, send.schema),
        remaining_attrs(recv.def.fields.last().attributes),
        tail_value(recv.def.fields.last().ty, tail) is Some,
        not_member_name(send.def.fields, recv.def.fields.last().name),
        sent_bytes(send.def, send.schema, struct_endian(send.def, send.default_endian), depth).len()
            + tail.len() + 16 <= usize::MAX,
    ensures
        send.encodable(),
        send.encoding() == Some(
            Ok::<Seq<u8>, crate::error::ErrorView>(
                sent_bytes(send.def, send.schema, struct_endian(send.def, send.default_endian), depth),
            ),
        ),
        recv.decodable(
            sent_bytes(send.def, send.schema, struct_endian(send.def, send.default_endian), depth) + tail,
        ),
        recv.decoding(
            sent_bytes(send.def, send.schema, struct_endian(send.def, send.default_endian), depth) + tail,
        ) == Some(
            Ok::<DecodedStructV, crate::error::ErrorView>(
                DecodedStructV {
                    name: recv.def.name,
                    fields: sent_values(
                        send.def,
                        send.schema,
                        struct_endian(send.def, send.default_endian),
                        depth,
                    ).push((recv.def.fields.last().name, tail_value(recv.def.fields.last().ty, tail)->0)),
                },
            ),
        ),
{
    let d = send.default_endian;
    let e = struct_endian(send.def, d);
    let data = sent_bytes(send.def, send.schema, e, depth) + tail;
    lemma_remaining_symmetry(send.def, recv.def, send.schema, d, depth, depth, tail);
    assert(spec_encode(send.def, send.schema, d, depth) is Some);
    let f = choose|fuel: nat| spec_encode(send.def, send.schema, d, fuel) is Some;
    lemma_remaining_symmetry(send.def, recv.def, send.schema, d, f, depth, tail);
    assert(crate::receive::spec_decode_struct(data, recv.def, recv.schema, d, depth) is Some);
    let g = choose|fuel: nat| crate::receive::spec_decode_struct(data, recv.def, recv.schema, d, fuel) is Some;
    lemma_remaining_symmetry(send.def, recv.def, send.schema, d, g, depth, tail);
}

} // verus!
