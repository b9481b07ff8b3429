//! Decoding of single values from bytes, following their schema type.

use vstd::prelude::*;
use vstd::utf8::{decode_utf8, valid_utf8};
use crate::ast::{Endianness, Schema, SchemaV, StructDefV, Type, TypeV};
use crate::decoded::{
    decoded_list_view, decoded_pairs_view, lemma_decoded_list_push, lemma_decoded_pairs_push,
    DecodedV, DecodedValue,
};
use crate::error::{CoreError, ErrorView};
use crate::messages::{
    err_buffer_small, err_fixed, err_named, err_unexpected_end, make_err_buffer_small,
    make_err_fixed, make_err_named, make_err_unexpected_end,
};
use crate::wire::{bytes_value, le_value, lemma_le_value_bound, lemma_pow256_values, pow256, read_int};

verus! {

/// Decodes UTF-8 bytes into a `String`.
///
/// Calls `String::from_utf8`; the contract says it succeeds exactly on valid
/// UTF-8 and then holds the decoded characters.
#[verifier::external_body]
pub(crate) fn utf8_string(bytes: Vec<u8>) -> (r: Option<String>)
    ensures
        r is Some <==> valid_utf8(bytes@),
        r matches Some(s) ==> s@ == decode_utf8(bytes@),
{
    match String::from_utf8(bytes) {
        Ok(s) => Some(s),
        Err(_) => None,
    }
}

/// Copies a byte range into a new vector.
pub fn copy_range(data: &[u8], start: usize, end: usize) -> (r: Vec<u8>)
    requires
        start <= end <= data@.len(),
    ensures
        r@ == data@.subrange(start as int, end as int),
{
    let mut r: Vec<u8> = Vec::new();
    let mut i: usize = start;
    while i < end
        invariant
            start <= i <= end <= data@.len(),
            r@ == data@.subrange(start as int, i as int),
        decreases end - i,
    {
        r.push(data[i]);
        i = i + 1;
        proof {
            assert(data@.subrange(start as int, i as int) == data@.subrange(start as int, i - 1)
                + seq![data@[i - 1]]);
        }
    }
    r
}

/// The outcome of a buffer bound check: `None` when `offset + required`
/// overflows `usize`, an error when the data is too short.
pub open spec fn spec_check(len: nat, offset: nat, required: nat) -> Option<Result<(), ErrorView>> {
    if offset + required > usize::MAX {
        None
    } else if offset + required > len {
        Some(Err(err_buffer_small(required, offset, len)))
    } else {
        Some(Ok(()))
    }
}

/// Checks that `required` bytes are available at `offset`.
pub fn check_buffer_size(data: &[u8], offset: usize, required: usize) -> (r: Result<(), CoreError>)
    requires
        offset + required <= usize::MAX,
    ensures
        spec_check(data@.len(), offset as nat, required as nat) == Some(
            match r {
                Ok(()) => Ok::<(), ErrorView>(()),
                Err(e) => Err(e@),
            },
        ),
{
    if offset + required > data.len() {
        return Err(make_err_buffer_small(required, offset, data.len()));
    }
    Ok(())
}

/// Byte width of a fixed-size scalar type.
pub open spec fn prim_width(ty: TypeV) -> Option<nat> {
    match ty {
        TypeV::U8 | TypeV::I8 | TypeV::Bool => Some(1),
        TypeV::U16 | TypeV::I16 => Some(2),
        TypeV::U32 | TypeV::I32 | TypeV::F32 => Some(4),
        TypeV::U64 | TypeV::I64 | TypeV::F64 => Some(8),
        TypeV::U128 | TypeV::I128 => Some(16),
        _ => None,
    }
}

/// The scalar value that bytes `b` denote for a scalar type.
pub open spec fn prim_value(ty: TypeV, b: Seq<u8>, endian: Endianness) -> DecodedV {
    let x = bytes_value(b, endian);
    match ty {
        TypeV::U8 => DecodedV::U8(b[0]),
        TypeV::U16 => DecodedV::U16(x as u16),
        TypeV::U32 => DecodedV::U32(x as u32),
        TypeV::U64 => DecodedV::U64(x as u64),
        TypeV::U128 => DecodedV::U128(x as u128),
        TypeV::I8 => DecodedV::I8(b[0] as i8),
        TypeV::I16 => DecodedV::I16((x as u16) as i16),
        TypeV::I32 => DecodedV::I32((x as u32) as i32),
        TypeV::I64 => DecodedV::I64((x as u64) as i64),
        TypeV::I128 => DecodedV::I128((x as u128) as i128),
        TypeV::F32 => DecodedV::F32(x as u32),
        TypeV::F64 => DecodedV::F64(x as u64),
        _ => DecodedV::Bool(b[0] != 0),
    }
}

/// How deeply `Vec` and array types nest in `ty`.
pub open spec fn type_depth(ty: TypeV) -> nat
    decreases ty,
{
    match ty {
        TypeV::Vec(inner) => 1 + type_depth(*inner),
        TypeV::Array(inner, _) => 1 + type_depth(*inner),
        _ => 0,
    }
}

/// Decoding a value of type `ty` at `offset`: the value and the number of
/// bytes it takes.
pub open spec fn spec_decode_value(
    data: Seq<u8>,
    offset: nat,
    ty: TypeV,
    schema: SchemaV,
    endian: Endianness,
    fuel: nat,
) -> Option<Result<(DecodedV, nat), ErrorView>>
    decreases fuel, 1nat, type_depth(ty), 0nat,
{
    if offset >= data.len() {
        Some(Err(err_unexpected_end(offset)))
    } else {
        match prim_width(ty) {
            Some(w) => match spec_check(data.len(), offset, w) {
                None => None,
                Some(Err(e)) => Some(Err(e)),
                Some(Ok(())) => Some(
                    Ok((prim_value(ty, data.subrange(offset as int, (offset + w) as int), endian), w)),
                ),
            },
            None => match ty {
                TypeV::Str => spec_decode_prefixed(data, offset, schema, true),
                TypeV::Bytes => spec_decode_prefixed(data, offset, schema, false),
                TypeV::Vec(inner) => if !schema.is_prefix_enabled() {
                    Some(
                        Err(
                            err_fixed(
                                "decode"@,
                                "prefix disabled: Vec must use #[len_ref] or #[remaining]"@,
                            ),
                        ),
                    )
                } else {
                    match spec_check(data.len(), offset, 4) {
                        None => None,
                        Some(Err(e)) => Some(Err(e)),
                        Some(Ok(())) => {
                            let n = bytes_value(
                                data.subrange(offset as int, (offset + 4) as int),
                                Endianness::Big,
                            );
                            match spec_decode_items(
                                data,
                                offset + 4,
                                *inner,
                                n,
                                Seq::empty(),
                                schema,
                                endian,
                                fuel,
                            ) {
                                None => None,
                                Some(Err(e)) => Some(Err(e)),
                                Some(Ok((items, cur))) => Some(
                                    Ok((DecodedV::List(items), (cur - offset) as nat)),
                                ),
                            }
                        },
                    }
                },
                TypeV::Array(inner, n) => match spec_decode_items(
                    data,
                    offset,
                    *inner,
                    n as nat,
                    Seq::empty(),
                    schema,
                    endian,
                    fuel,
                ) {
                    None => None,
                    Some(Err(e)) => Some(Err(e)),
                    Some(Ok((items, cur))) => Some(
                        Ok((DecodedV::List(items), (cur - offset) as nat)),
                    ),
                },
                TypeV::Custom(name) => match schema.lookup(name) {
                    None => Some(
                        Err(err_named("decode"@, "struct '"@, name, "' not found in schema"@)),
                    ),
                    Some(def) => if fuel == 0 {
                        None
                    } else {
                        match spec_decode_fields(
                            data,
                            offset,
                            def,
                            0,
                            Seq::empty(),
                            schema,
                            endian,
                            (fuel - 1) as nat,
                        ) {
                            None => None,
                            Some(Err(e)) => Some(Err(e)),
                            Some(Ok((pairs, cur))) => Some(
                                Ok((DecodedV::Struct(name, pairs), (cur - offset) as nat)),
                            ),
                        }
                    },
                },
                _ => None,
            },
        }
    }
}

/// Decoding a length-prefixed string (`is_string`) or byte array.
pub open spec fn spec_decode_prefixed(data: Seq<u8>, offset: nat, schema: SchemaV, is_string: bool)
    -> Option<Result<(DecodedV, nat), ErrorView>> {
    if !schema.is_prefix_enabled() {
        Some(
            Err(
                if is_string {
                    err_fixed(
                        "decode"@,
                        "prefix disabled: String must use #[len_ref] or #[remaining]"@,
                    )
                } else {
                    err_fixed("decode"@, "prefix disabled: Bytes must use #[len_ref] or #[remaining]"@)
                },
            ),
        )
    } else {
        match spec_check(data.len(), offset, 4) {
            None => None,
            Some(Err(e)) => Some(Err(e)),
            Some(Ok(())) => {
                let n = bytes_value(data.subrange(offset as int, (offset + 4) as int), Endianness::Big);
                match spec_check(data.len(), offset + 4, n) {
                    None => None,
                    Some(Err(e)) => Some(Err(e)),
                    Some(Ok(())) => {
                        let b = data.subrange((offset + 4) as int, (offset + 4 + n) as int);
                        if is_string {
                            if valid_utf8(b) {
                                Some(Ok((DecodedV::Str(decode_utf8(b)), 4 + n)))
                            } else {
                                Some(Err(err_fixed("decode"@, "invalid UTF-8 string"@)))
                            }
                        } else {
                            Some(Ok((DecodedV::Bytes(b), 4 + n)))
                        }
                    },
                }
            },
        }
    }
}

/// Decoding `remaining` more values of type `inner` from `cur`, after `acc`:
/// all values and the position after the last one.
pub open spec fn spec_decode_items(
    data: Seq<u8>,
    cur: nat,
    inner: TypeV,
    remaining: nat,
    acc: Seq<DecodedV>,
    schema: SchemaV,
    endian: Endianness,
    fuel: nat,
) -> Option<Result<(Seq<DecodedV>, nat), ErrorView>>
    decreases fuel, 1nat, type_depth(inner), remaining + 1,
{
    if remaining == 0 {
        Some(Ok((acc, cur)))
    } else {
        match spec_decode_value(data, cur, inner, schema, endian, fuel) {
            None => None,
            Some(Err(e)) => Some(Err(e)),
            Some(Ok((v, c))) => spec_decode_items(
                data,
                cur + c,
                inner,
                (remaining - 1) as nat,
                acc.push(v),
                schema,
                endian,
                fuel,
            ),
        }
    }
}

/// Decoding the fields of `def` from index `i` on, each by its type alone.
pub open spec fn spec_decode_fields(
    data: Seq<u8>,
    cur: nat,
    def: StructDefV,
    i: nat,
    acc: Seq<(Seq<char>, DecodedV)>,
    schema: SchemaV,
    endian: Endianness,
    fuel: nat,
) -> Option<Result<(Seq<(Seq<char>, DecodedV)>, nat), ErrorView>>
    decreases fuel, 2nat, 0nat, def.fields.len() - i,
{
    if i >= def.fields.len() {
        Some(Ok((acc, cur)))
    } else {
        match spec_decode_value(data, cur, def.fields[i as int].ty, schema, endian, fuel) {
            None => None,
            Some(Err(e)) => Some(Err(e)),
            Some(Ok((v, c))) => spec_decode_fields(
                data,
                cur + c,
                def,
                i + 1,
                acc.push((def.fields[i as int].name, v)),
                schema,
                endian,
                fuel,
            ),
        }
    }
}

} // verus!

verus! {

/// Byte width of a fixed-size scalar type, `None` for the others.
pub fn scalar_width(ty: &Type) -> (r: Option<usize>)
    ensures
        match prim_width(ty@) {
            Some(w) => r == Some(w as usize),
            None => r is None,
        },
{
    match ty {
        Type::U8 | Type::I8 | Type::Bool => Some(1),
        Type::U16 | Type::I16 => Some(2),
        Type::U32 | Type::I32 | Type::F32 => Some(4),
        Type::U64 | Type::I64 | Type::F64 => Some(8),
        Type::U128 | Type::I128 => Some(16),
        _ => None,
    }
}

/// Decodes the scalar of type `ty` held by `data[offset..offset + w]`.
pub fn decode_scalar(data: &[u8], offset: usize, ty: &Type, w: usize, endian: Endianness) -> (r:
    DecodedValue)
    requires
        prim_width(ty@) == Some(w as nat),
        offset + w <= data@.len(),
    ensures
        r@ == prim_value(ty@, data@.subrange(offset as int, offset + w), endian),
{
    let x = read_int(data, offset, w, endian);
    let ghost b = data@.subrange(offset as int, offset + w);
    proof {
        lemma_pow256_values();
        lemma_le_value_bound(b);
        lemma_le_value_bound(b.reverse());
        assert(b[0] == data@[offset as int]);
    }
    match ty {
        Type::U8 => DecodedValue::U8(data[offset]),
        Type::I8 => DecodedValue::I8(data[offset] as i8),
        Type::Bool => DecodedValue::Bool(data[offset] != 0),
        Type::U16 => DecodedValue::U16(x as u16),
        Type::I16 => DecodedValue::I16((x as u16) as i16),
        Type::U32 => DecodedValue::U32(x as u32),
        Type::I32 => DecodedValue::I32((x as u32) as i32),
        Type::F32 => DecodedValue::F32(x as u32),
        Type::U64 => DecodedValue::U64(x as u64),
        Type::I64 => DecodedValue::I64((x as u64) as i64),
        Type::F64 => DecodedValue::F64(x as u64),
        Type::U128 => DecodedValue::U128(x),
        _ => DecodedValue::I128(x as i128),
    }
}

/// The view of a decoding result.
pub open spec fn decode_result_view(r: Result<(DecodedValue, usize), CoreError>) -> Result<
    (DecodedV, nat),
    ErrorView,
> {
    match r {
        Ok((v, c)) => Ok((v@, c as nat)),
        Err(e) => Err(e@),
    }
}

/// Decodes a length-prefixed string or byte array at `offset`.
fn decode_prefixed(data: &[u8], offset: usize, schema: &Schema, is_string: bool) -> (r: Result<
    (DecodedValue, usize),
    CoreError,
>)
    requires
        spec_decode_prefixed(data@, offset as nat, schema@, is_string) is Some,
    ensures
        spec_decode_prefixed(data@, offset as nat, schema@, is_string) == Some(
            decode_result_view(r),
        ),
        r matches Ok((v, c)) ==> offset + c <= data@.len(),
{
    if !schema.is_prefix_enabled() {
        if is_string {
            return Err(
                make_err_fixed(
                    "decode",
                    "prefix disabled: String must use #[len_ref] or #[remaining]",
                ),
            );
        } else {
            return Err(
                make_err_fixed("decode", "prefix disabled: Bytes must use #[len_ref] or #[remaining]"),
            );
        }
    }
    match check_buffer_size(data, offset, 4) {
        Err(e) => {
            return Err(e);
        },
        Ok(()) => {},
    }
    let n128 = read_int(data, offset, 4, Endianness::Big);
    proof {
        lemma_pow256_values();
        lemma_le_value_bound(data@.subrange(offset as int, offset + 4).reverse());
    }
    let n = n128 as usize;
    let start = offset + 4;
    match check_buffer_size(data, start, n) {
        Err(e) => {
            return Err(e);
        },
        Ok(()) => {},
    }
    let bytes = copy_range(data, start, start + n);
    if is_string {
        match utf8_string(bytes) {
            Some(s) => Ok((DecodedValue::String(s), 4 + n)),
            None => Err(make_err_fixed("decode", "invalid UTF-8 string")),
        }
    } else {
        Ok((DecodedValue::Bytes(bytes), 4 + n))
    }
}

} // verus!

verus! {

/// What decoding a struct value at `offset` gives, from what decoding its fields gave.
pub open spec fn struct_outcome(
    name: Seq<char>,
    offset: nat,
    fields: Option<Result<(Seq<(Seq<char>, DecodedV)>, nat), ErrorView>>,
) -> Option<Result<(DecodedV, nat), ErrorView>> {
    match fields {
        None => None,
        Some(Err(e)) => Some(Err(e)),
        Some(Ok((pairs, cur))) => Some(Ok((DecodedV::Struct(name, pairs), (cur - offset) as nat))),
    }
}

/// Decodes a value of type `ty` at `offset`, returning it with the number of
/// bytes it took.
pub fn decode_value(
    data: &[u8],
    offset: usize,
    ty: &Type,
    schema: &Schema,
    endian: Endianness,
    Ghost(fuel): Ghost<nat>,
) -> (r: Result<(DecodedValue, usize), CoreError>)
    requires
        spec_decode_value(data@, offset as nat, ty@, schema@, endian, fuel) is Some,
    ensures
        spec_decode_value(data@, offset as nat, ty@, schema@, endian, fuel) == Some(
            decode_result_view(r),
        ),
        r matches Ok((v, c)) ==> offset + c <= data@.len(),
    decreases fuel, type_depth(ty@), 0nat,
{
    if offset >= data.len() {
        return Err(make_err_unexpected_end(offset));
    }
    match scalar_width(ty) {
        Some(w) => {
            match check_buffer_size(data, offset, w) {
                Err(e) => {
                    return Err(e);
                },
                Ok(()) => {},
            }
            return Ok((decode_scalar(data, offset, ty, w, endian), w));
        },
        None => {},
    }
    match ty {
        Type::String => decode_prefixed(data, offset, schema, true),
        Type::Bytes => decode_prefixed(data, offset, schema, false),
        Type::Vec(inner) => {
            if !schema.is_prefix_enabled() {
                return Err(
                    make_err_fixed(
                        "decode",
                        "prefix disabled: Vec must use #[len_ref] or #[remaining]",
                    ),
                );
            }
            match check_buffer_size(data, offset, 4) {
                Err(e) => {
                    return Err(e);
                },
                Ok(()) => {},
            }
            let n128 = read_int(data, offset, 4, Endianness::Big);
            proof {
                lemma_pow256_values();
                lemma_le_value_bound(data@.subrange(offset as int, offset + 4).reverse());
            }
            let n = n128 as usize;
            decode_items(data, offset, offset + 4, inner, n, schema, endian, Ghost(fuel))
        },
        Type::Array(inner, n) => decode_items(
            data,
            offset,
            offset,
            inner,
            *n,
            schema,
            endian,
            Ghost(fuel),
        ),
        Type::Custom(name) => {
            match schema.get_struct(name.as_str()) {
                None => Err(
                    make_err_named("decode", "struct '", name, "' not found in schema"),
                ),
                Some(def) => {
                    let ghost f = (fuel - 1) as nat;
                    let mut pairs: Vec<(String, DecodedValue)> = Vec::new();
                    let mut cur: usize = offset;
                    let mut i: usize = 0;
                    while i < def.fields.len()
                        invariant
                            fuel > 0,
                            f == fuel - 1,
                            spec_decode_value(data@, offset as nat, ty@, schema@, endian, fuel)
                                == struct_outcome(
                                name@,
                                offset as nat,
                                spec_decode_fields(
                                    data@,
                                    offset as nat,
                                    def@,
                                    0,
                                    Seq::empty(),
                                    schema@,
                                    endian,
                                    f,
                                ),
                            ),
                            i <= def.fields@.len(),
                            offset <= cur <= data@.len(),
                            spec_decode_fields(
                                data@,
                                offset as nat,
                                def@,
                                0,
                                Seq::empty(),
                                schema@,
                                endian,
                                f,
                            ) == spec_decode_fields(
                                data@,
                                cur as nat,
                                def@,
                                i as nat,
                                decoded_pairs_view(pairs@),
                                schema@,
                                endian,
                                f,
                            ),
                            spec_decode_fields(
                                data@,
                                offset as nat,
                                def@,
                                0,
                                Seq::empty(),
                                schema@,
                                endian,
                                f,
                            ) is Some,
                        decreases def.fields@.len() - i,
                    {
                        let field = &def.fields[i];
                        proof {
                            assert(def@.fields[i as int] == field@);
                        }
                        match decode_value(data, cur, &field.ty, schema, endian, Ghost(f)) {
                            Err(e) => {
                                proof {
                                    assert(def@.fields.len() == def.fields@.len());
                                    assert(spec_decode_fields(
                                        data@,
                                        cur as nat,
                                        def@,
                                        i as nat,
                                        decoded_pairs_view(pairs@),
                                        schema@,
                                        endian,
                                        f,
                                    ) == Some(Err::<(Seq<(Seq<char>, DecodedV)>, nat), ErrorView>(e@)));
                                }
                                return Err(e);
                            },
                            Ok((v, c)) => {
                                proof {
                                    lemma_decoded_pairs_push(pairs@, (field.name, v));
                                    assert(cur + c <= data@.len());
                                    assert(data@.len() == data.len());
                                }
                                pairs.push((field.name.clone(), v));
                                cur = cur + c;
                            },
                        }
                        i = i + 1;
                    }
                    Ok((DecodedValue::Struct(name.clone(), pairs), cur - offset))
                },
            }
        },
        _ => {
            proof {
                assert(false);
            }
            Err(make_err_fixed("decode", "unsupported type"))
        },
    }
}

/// Decodes `n` values of type `inner` from `start` on, as the items of a
/// list that began at `offset`.
pub(crate) fn decode_items(
    data: &[u8],
    offset: usize,
    start: usize,
    inner: &Type,
    n: usize,
    schema: &Schema,
    endian: Endianness,
    Ghost(fuel): Ghost<nat>,
) -> (r: Result<(DecodedValue, usize), CoreError>)
    requires
        offset <= start <= data@.len(),
        spec_decode_items(data@, start as nat, inner@, n as nat, Seq::empty(), schema@, endian, fuel)
            is Some,
    ensures
        r matches Ok((v, c)) ==> offset + c <= data@.len(),
        match spec_decode_items(
            data@,
            start as nat,
            inner@,
            n as nat,
            Seq::empty(),
            schema@,
            endian,
            fuel,
        ) {
            Some(Ok((items, cur))) => r matches Ok((v, c)) && v@ == DecodedV::List(items) && c
                == cur - offset,
            Some(Err(e)) => r matches Err(x) && x@ == e,
            None => false,
        },
    decreases fuel, type_depth(inner@), 1nat,
{
    let mut values: Vec<DecodedValue> = Vec::new();
    let mut cur: usize = start;
    let mut k: usize = 0;
    while k < n
        invariant
            k <= n,
            offset <= start <= cur <= data@.len(),
            spec_decode_items(data@, start as nat, inner@, n as nat, Seq::empty(), schema@, endian, fuel)
                == spec_decode_items(
                data@,
                cur as nat,
                inner@,
                (n - k) as nat,
                decoded_list_view(values@),
                schema@,
                endian,
                fuel,
            ),
            spec_decode_items(data@, start as nat, inner@, n as nat, Seq::empty(), schema@, endian, fuel)
                is Some,
        decreases n - k,
    {
        match decode_value(data, cur, inner, schema, endian, Ghost(fuel)) {
            Err(e) => {
                return Err(e);
            },
            Ok((v, c)) => {
                proof {
                    lemma_decoded_list_push(values@, v);
                    assert(cur + c <= data@.len());
                    assert(data@.len() == data.len());
                }
                values.push(v);
                cur = cur + c;
            },
        }
        k = k + 1;
    }
    Ok((DecodedValue::Vec(values), cur - offset))
}

} // verus!
