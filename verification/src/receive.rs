//! What decoding a whole `#[receive]` struct means: bit-field groups,
//! length references, trailing `#[remaining]` data and conditional fields.

use vstd::prelude::*;
use vstd::utf8::{decode_utf8, valid_utf8};
use crate::ast::{
    fields_view, str_eq, Direction, Endianness, Field, FieldV, Schema, SchemaV, StructDef,
    StructDefV, Type, TypeV,
};
use crate::attrs::{
    bit_attr, bits_attr, field_endian, get_bit_attribute, get_bits_attribute, get_field_endian,
    get_if_attribute, get_len_ref_attribute, has_auto, has_auto_attribute, has_remaining,
    has_remaining_attribute, if_attr, len_ref_attr,
};
use crate::decode::{
    check_buffer_size, copy_range, decode_items, decode_value, spec_check, spec_decode_items,
    spec_decode_value, utf8_string,
};
use crate::decoded::{
    decoded_list_view, decoded_pairs_view, lemma_decoded_list_push, lemma_decoded_pairs_push,
    lemma_decoded_pairs_view, DecodedStruct, DecodedStructV, DecodedV, DecodedValue,
};
use crate::error::{CoreError, ErrorView};
use crate::messages::{err_named, err_trailing, make_err_named, make_err_trailing};
use crate::wire::{
    bit_range_ok, bytes_value, extract_bits, lemma_le_value_bound, lemma_pow256_mono,
    lemma_pow256_values, read_int, spec_extract_bits, storage_bits, storage_key,
};

verus! {

/// The decoding state after some fields: the read position, the fields
/// decoded so far, and the names of the bit fields already handled.
pub struct RecvState {
    pub cur: nat,
    pub acc: Seq<(Seq<char>, DecodedV)>,
    pub processed: Seq<Seq<char>>,
}

/// The outcome of a decoding step: `None` where decoding would panic or not
/// terminate.
pub type RecvOutcome = Option<Result<RecvState, ErrorView>>;

/// The storage width (8, 16, 32 or 64 bits) of the bit-field group a field
/// belongs to, if it is a bit field.
pub open spec fn bit_key(f: FieldV) -> Option<usize> {
    match bits_attr(f.attributes) {
        Some((_s, e)) => Some(storage_key(e)),
        None => match bit_attr(f.attributes) {
            Some(p) => Some(storage_key(p)),
            None => None,
        },
    }
}

/// The value of a bit field within the raw storage word.
pub open spec fn bit_field_value(f: FieldV, raw: u64) -> Option<DecodedV> {
    match bits_attr(f.attributes) {
        Some((s, e)) => if bit_range_ok(s, e) {
            Some(DecodedV::U64(spec_extract_bits(raw, s, e)))
        } else {
            None
        },
        None => match bit_attr(f.attributes) {
            Some(p) => if bit_range_ok(p, p) {
                Some(DecodedV::Bool(spec_extract_bits(raw, p, p) != 0))
            } else {
                None
            },
            None => None,
        },
    }
}

/// Some field of `fields` belongs to the group of storage width `key`.
pub open spec fn has_group_member(fields: Seq<FieldV>, key: usize) -> bool {
    exists|j: int| 0 <= j < fields.len() && bit_key(#[trigger] fields[j]) == Some(key)
}

/// Appends the members of group `key`, from index `j` on, with their values.
pub open spec fn push_group(fields: Seq<FieldV>, j: nat, key: usize, raw: u64, s: RecvState) -> Option<
    RecvState,
>
    decreases fields.len() - j,
{
    if j >= fields.len() {
        Some(s)
    } else if bit_key(fields[j as int]) == Some(key) {
        match bit_field_value(fields[j as int], raw) {
            None => None,
            Some(v) => push_group(
                fields,
                j + 1,
                key,
                raw,
                RecvState {
                    cur: s.cur,
                    acc: s.acc.push((fields[j as int].name, v)),
                    processed: s.processed.push(fields[j as int].name),
                },
            ),
        }
    } else {
        push_group(fields, j + 1, key, raw, s)
    }
}

/// Decodes the bit-field group of storage width `key`, if it has members.
pub open spec fn decode_group(
    data: Seq<u8>,
    fields: Seq<FieldV>,
    key: usize,
    endian: Endianness,
    s: RecvState,
) -> RecvOutcome {
    if !has_group_member(fields, key) {
        Some(Ok(s))
    } else {
        let base = (key / 8) as nat;
        match spec_check(data.len(), s.cur, base) {
            None => None,
            Some(Err(e)) => Some(Err(e)),
            Some(Ok(())) => {
                let raw = bytes_value(
                    data.subrange(s.cur as int, (s.cur + base) as int),
                    endian,
                ) as u64;
                match push_group(fields, 0, key, raw, s) {
                    None => None,
                    Some(t) => Some(Ok(RecvState { cur: s.cur + base, ..t })),
                }
            },
        }
    }
}

/// `String`, `Bytes` and `Vec` carry their length apart from their content.
pub open spec fn is_length_carrying(ty: TypeV) -> bool {
    match ty {
        TypeV::Vec(_) | TypeV::Str | TypeV::Bytes => true,
        _ => false,
    }
}

/// A decoded integer as a count, when it is unsigned or not negative.
pub open spec fn count_of(v: DecodedV) -> Option<usize> {
    match v {
        DecodedV::U8(x) => Some(x as usize),
        DecodedV::U16(x) => Some(x as usize),
        DecodedV::U32(x) => Some(x as usize),
        DecodedV::U64(x) => Some(x as usize),
        DecodedV::I8(x) => if x >= 0 {
            Some(x as usize)
        } else {
            None
        },
        DecodedV::I16(x) => if x >= 0 {
            Some(x as usize)
        } else {
            None
        },
        DecodedV::I32(x) => if x >= 0 {
            Some(x as usize)
        } else {
            None
        },
        DecodedV::I64(x) => if x >= 0 {
            Some(x as usize)
        } else {
            None
        },
        _ => None,
    }
}

/// The count held by the first decoded field named `name` that holds one.
pub open spec fn decoded_count(acc: Seq<(Seq<char>, DecodedV)>, name: Seq<char>) -> Option<usize>
    decreases acc.len(),
{
    if acc.len() == 0 {
        None
    } else if acc[0].0 == name && count_of(acc[0].1) is Some {
        count_of(acc[0].1)
    } else {
        decoded_count(acc.drop_first(), name)
    }
}

/// The value of the first decoded field named `name`.
pub open spec fn decoded_named(acc: Seq<(Seq<char>, DecodedV)>, name: Seq<char>) -> Option<DecodedV>
    decreases acc.len(),
{
    if acc.len() == 0 {
        None
    } else if acc[0].0 == name {
        Some(acc[0].1)
    } else {
        decoded_named(acc.drop_first(), name)
    }
}

/// The state after appending a decoded field that ends at `cur`.
pub open spec fn with_field(s: RecvState, name: Seq<char>, v: DecodedV, cur: nat) -> RecvState {
    RecvState { cur, acc: s.acc.push((name, v)), processed: s.processed }
}

/// Decodes field `f` by its type at the current position.
pub open spec fn plain_field(
    data: Seq<u8>,
    f: FieldV,
    schema: SchemaV,
    endian: Endianness,
    fuel: nat,
    s: RecvState,
) -> RecvOutcome {
    match spec_decode_value(data, s.cur, f.ty, schema, endian, fuel) {
        None => None,
        Some(Err(e)) => Some(Err(e)),
        Some(Ok((v, c))) => Some(Ok(with_field(s, f.name, v, s.cur + c))),
    }
}

/// Decodes a `String`, `Bytes` or `Vec` field whose length is the decoded
/// field `r` (length prefixes disabled).
pub open spec fn len_ref_field(
    data: Seq<u8>,
    f: FieldV,
    r: Seq<char>,
    schema: SchemaV,
    endian: Endianness,
    fuel: nat,
    s: RecvState,
) -> RecvOutcome {
    match decoded_count(s.acc, r) {
        None => Some(
            Err(
                err_named(
                    "decode"@,
                    "len_ref references field '"@,
                    r,
                    "' which is not yet decoded or not an integer"@,
                ),
            ),
        ),
        Some(count) => match f.ty {
            TypeV::Vec(inner) => match spec_decode_items(
                data,
                s.cur,
                *inner,
                count as nat,
                Seq::empty(),
                schema,
                endian,
                fuel,
            ) {
                None => None,
                Some(Err(e)) => Some(Err(e)),
                Some(Ok((items, cur))) => Some(Ok(with_field(s, f.name, DecodedV::List(items), cur))),
            },
            _ => match spec_check(data.len(), s.cur, count as nat) {
                None => None,
                Some(Err(e)) => Some(Err(e)),
                Some(Ok(())) => {
                    let b = data.subrange(s.cur as int, s.cur + count);
                    let end: nat = s.cur + (count as nat);
                    if f.ty is Bytes {
                        Some(Ok(with_field(s, f.name, DecodedV::Bytes(b), end)))
                    } else if valid_utf8(b) {
                        Some(Ok(with_field(s, f.name, DecodedV::Str(decode_utf8(b)), end)))
                    } else {
                        Some(
                            Err(
                                err_named(
                                    "decode"@,
                                    "len_ref field '"@,
                                    f.name,
                                    "' contains invalid UTF-8"@,
                                ),
                            ),
                        )
                    }
                },
            },
        },
    }
}

/// Decodes values of type `inner` from `cur` to the end of the data.
/// `None` when a value would take no bytes (the loop would not end); a value
/// never ends past the data.
pub open spec fn remaining_items(
    data: Seq<u8>,
    cur: nat,
    inner: TypeV,
    acc: Seq<DecodedV>,
    schema: SchemaV,
    endian: Endianness,
    fuel: nat,
) -> Option<Result<Seq<DecodedV>, ErrorView>>
    decreases data.len() - cur,
{
    if cur >= data.len() {
        Some(Ok(acc))
    } else {
        match spec_decode_value(data, cur, inner, schema, endian, fuel) {
            None => None,
            Some(Err(e)) => Some(Err(e)),
            Some(Ok((v, c))) => if c == 0 || cur + c > data.len() {
                None
            } else {
                remaining_items(data, cur + c, inner, acc.push(v), schema, endian, fuel)
            },
        }
    }
}

/// Decodes a `#[remaining]` field from the rest of the data.
pub open spec fn remaining_field(
    data: Seq<u8>,
    f: FieldV,
    schema: SchemaV,
    endian: Endianness,
    fuel: nat,
    s: RecvState,
) -> RecvOutcome {
    let rest = data.subrange(s.cur as int, data.len() as int);
    let end = data.len();
    match f.ty {
        TypeV::Bytes => Some(Ok(with_field(s, f.name, DecodedV::Bytes(rest), end))),
        TypeV::Str => if valid_utf8(rest) {
            Some(Ok(with_field(s, f.name, DecodedV::Str(decode_utf8(rest)), end)))
        } else {
            Some(
                Err(
                    err_named("decode"@, "remaining field '"@, f.name, "' contains invalid UTF-8"@),
                ),
            )
        },
        TypeV::Vec(inner) => match remaining_items(
            data,
            s.cur,
            *inner,
            Seq::empty(),
            schema,
            endian,
            fuel,
        ) {
            None => None,
            Some(Err(e)) => Some(Err(e)),
            Some(Ok(items)) => Some(Ok(with_field(s, f.name, DecodedV::List(items), end))),
        },
        _ => Some(
            Err(
                err_named(
                    "decode"@,
                    "remaining field '"@,
                    f.name,
                    "' must be Bytes, String, or Vec<T>"@,
                ),
            ),
        ),
    }
}

/// Decodes a field with `#[if(c)]`: present when the decoded field `c` is
/// `true`, absent when it is `false`.
pub open spec fn if_field(
    data: Seq<u8>,
    f: FieldV,
    c: Seq<char>,
    schema: SchemaV,
    endian: Endianness,
    fuel: nat,
    s: RecvState,
) -> RecvOutcome {
    match decoded_named(s.acc, c) {
        Some(DecodedV::Bool(true)) => plain_field(data, f, schema, endian, fuel, s),
        Some(DecodedV::Bool(false)) => Some(Ok(s)),
        Some(_) => Some(
            Err(err_named("decode"@, "if condition field '"@, c, "' must be bool"@)),
        ),
        None => Some(
            Err(
                err_named(
                    "decode"@,
                    "if condition field '"@,
                    c,
                    "' not found or not yet decoded"@,
                ),
            ),
        ),
    }
}

/// Decodes field `i` of `def` from state `s`.
pub open spec fn field_step(
    data: Seq<u8>,
    def: StructDefV,
    i: int,
    schema: SchemaV,
    default_endian: Endianness,
    fuel: nat,
    s: RecvState,
) -> RecvOutcome {
    let f = def.fields[i];
    let endian = field_endian(f.attributes, default_endian);
    if s.processed.contains(f.name) {
        Some(Ok(s))
    } else if bit_key(f) is Some {
        decode_group(data, def.fields, bit_key(f)->0, endian, s)
    } else if has_auto(f.attributes) {
        plain_field(data, f, schema, endian, fuel, s)
    } else if len_ref_attr(f.attributes) is Some {
        if !schema.is_prefix_enabled() && is_length_carrying(f.ty) {
            len_ref_field(data, f, len_ref_attr(f.attributes)->0, schema, endian, fuel, s)
        } else {
            plain_field(data, f, schema, endian, fuel, s)
        }
    } else if has_remaining(f.attributes) {
        remaining_field(data, f, schema, endian, fuel, s)
    } else if if_attr(f.attributes) is Some {
        if_field(data, f, if_attr(f.attributes)->0, schema, endian, fuel, s)
    } else {
        plain_field(data, f, schema, endian, fuel, s)
    }
}

/// Decodes the fields of `def` from index `i` on.
pub open spec fn decode_fields_from(
    data: Seq<u8>,
    def: StructDefV,
    i: nat,
    schema: SchemaV,
    default_endian: Endianness,
    fuel: nat,
    s: RecvState,
) -> RecvOutcome
    decreases def.fields.len() - i,
{
    if i >= def.fields.len() {
        Some(Ok(s))
    } else {
        match field_step(data, def, i as int, schema, default_endian, fuel, s) {
            Some(Ok(t)) => decode_fields_from(data, def, i + 1, schema, default_endian, fuel, t),
            o => o,
        }
    }
}

/// Some field of the struct is `#[remaining]`.
pub open spec fn any_remaining(fields: Seq<FieldV>) -> bool {
    exists|j: int| 0 <= j < fields.len() && has_remaining(#[trigger] fields[j].attributes)
}

/// The byte order of the fields of `def`: its own `#[endian(..)]`, else
/// `default_endian`.
pub open spec fn struct_endian(def: StructDefV, default_endian: Endianness) -> Endianness {
    match def.endian {
        Some(e) => e,
        None => default_endian,
    }
}

/// The state before the first field.
pub open spec fn start_state() -> RecvState {
    RecvState { cur: 0, acc: Seq::empty(), processed: Seq::empty() }
}

/// Decoding `data` as a `#[receive]` struct `def`, with nested struct
/// decoding bounded by `fuel`.
pub open spec fn spec_decode_struct(
    data: Seq<u8>,
    def: StructDefV,
    schema: SchemaV,
    default_endian: Endianness,
    fuel: nat,
) -> Option<Result<DecodedStructV, ErrorView>> {
    if def.direction != Some(Direction::Receive) {
        Some(Err(err_named("decode"@, "struct '"@, def.name, "' is not a receive type"@)))
    } else {
        match decode_fields_from(data, def, 0, schema, struct_endian(def, default_endian), fuel, start_state()) {
            None => None,
            Some(Err(e)) => Some(Err(e)),
            Some(Ok(s)) => if !any_remaining(def.fields) && s.cur < data.len() {
                Some(Err(err_trailing((data.len() - s.cur) as nat)))
            } else {
                Some(Ok(DecodedStructV { name: def.name, fields: s.acc }))
            },
        }
    }
}

} // verus!

verus! {

/// Decoding progress through a struct: the read position, the fields decoded
/// so far, and the names of the bit fields already handled.
pub struct RecvProgress {
    pub cur: usize,
    pub fields: Vec<(String, DecodedValue)>,
    pub processed: Vec<String>,
}

/// The views of a list of names.
pub open spec fn names_view(names: Seq<String>) -> Seq<Seq<char>> {
    names.map_values(|s: String| s@)
}

impl View for RecvProgress {
    type V = RecvState;

    open spec fn view(&self) -> RecvState {
        RecvState {
            cur: self.cur as nat,
            acc: decoded_pairs_view(self.fields@),
            processed: names_view(self.processed@),
        }
    }
}

/// The outcome of a step, seen from its result and the progress after it.
pub open spec fn step_view(r: Result<(), CoreError>, after: RecvState) -> Result<RecvState, ErrorView> {
    match r {
        Ok(()) => Ok(after),
        Err(e) => Err(e@),
    }
}

/// Whether `names` holds `name`.
pub fn names_contain(names: &Vec<String>, name: &String) -> (r: bool)
    ensures
        r == names_view(names@).contains(name@),
{
    let mut i: usize = 0;
    while i < names.len()
        invariant
            i <= names@.len(),
            forall|j: int| 0 <= j < i ==> names_view(names@)[j] != name@,
        decreases names@.len() - i,
    {
        if str_eq(names[i].as_str(), name.as_str()) {
            proof {
                assert(names_view(names@)[i as int] == name@);
            }
            return true;
        }
        i = i + 1;
    }
    false
}

/// The group key of a field, if it is a bit field.
pub fn field_bit_key(f: &Field) -> (r: Option<usize>)
    ensures
        r == bit_key(f@),
{
    match get_bits_attribute(&f.attributes) {
        Some((_s, e)) => Some(storage_bits(e)),
        None => match get_bit_attribute(&f.attributes) {
            Some(p) => Some(storage_bits(p)),
            None => None,
        },
    }
}

/// The value of a bit field within the raw storage word.
pub fn bit_field_decode(f: &Field, raw: u64) -> (r: DecodedValue)
    requires
        bit_field_value(f@, raw) is Some,
    ensures
        bit_field_value(f@, raw) == Some(r@),
{
    match get_bits_attribute(&f.attributes) {
        Some((s, e)) => DecodedValue::U64(extract_bits(raw, s, e)),
        None => {
            let p = get_bit_attribute(&f.attributes).unwrap();
            DecodedValue::Bool(extract_bits(raw, p, p) != 0)
        },
    }
}

/// Whether some field belongs to the group of storage width `key`.
pub fn group_has_member(fields: &Vec<Field>, key: usize) -> (r: bool)
    ensures
        r == has_group_member(fields_view(fields@), key),
{
    let mut j: usize = 0;
    while j < fields.len()
        invariant
            j <= fields@.len(),
            forall|k: int| 0 <= k < j ==> bit_key(#[trigger] fields_view(fields@)[k]) != Some(key),
        decreases fields@.len() - j,
    {
        match field_bit_key(&fields[j]) {
            Some(k) => {
                if k == key {
                    proof {
                        assert(fields_view(fields@)[j as int] == fields@[j as int]@);
                    }
                    return true;
                }
            },
            None => {},
        }
        proof {
            assert(fields_view(fields@)[j as int] == fields@[j as int]@);
        }
        j = j + 1;
    }
    false
}

proof fn lemma_names_push(names: Seq<String>, n: String)
    ensures
        names_view(names.push(n)) == names_view(names).push(n@),
{
    assert(names_view(names.push(n)) =~= names_view(names).push(n@));
}

/// Appends the members of group `key` with their values in the raw word.
fn push_group_exec(fields: &Vec<Field>, key: usize, raw: u64, st: &mut RecvProgress)
    requires
        push_group(fields_view(fields@), 0, key, raw, old(st)@) is Some,
    ensures
        push_group(fields_view(fields@), 0, key, raw, old(st)@) == Some(final(st)@),
        final(st).cur == old(st).cur,
{
    let ghost fv = fields_view(fields@);
    let mut j: usize = 0;
    while j < fields.len()
        invariant
            j <= fields@.len(),
            fv == fields_view(fields@),
            st.cur == old(st).cur,
            push_group(fv, 0, key, raw, old(st)@) == push_group(fv, j as nat, key, raw, st@),
            push_group(fv, 0, key, raw, old(st)@) is Some,
        decreases fields@.len() - j,
    {
        let f = &fields[j];
        proof {
            assert(fv[j as int] == f@);
        }
        let member = match field_bit_key(f) {
            Some(k) => k == key,
            None => false,
        };
        if member {
            let v = bit_field_decode(f, raw);
            proof {
                lemma_decoded_pairs_push(st.fields@, (f.name, v));
                lemma_names_push(st.processed@, f.name);
            }
            st.fields.push((f.name.clone(), v));
            st.processed.push(f.name.clone());
        }
        j = j + 1;
    }
}

/// Decodes the bit-field group of storage width `key`, if it has members.
fn decode_group_exec(
    data: &[u8],
    fields: &Vec<Field>,
    key: usize,
    endian: Endianness,
    st: &mut RecvProgress,
) -> (r: Result<(), CoreError>)
    requires
        key <= 64,
        old(st).cur <= data@.len(),
        decode_group(data@, fields_view(fields@), key, endian, old(st)@) is Some,
    ensures
        decode_group(data@, fields_view(fields@), key, endian, old(st)@) == Some(
            step_view(r, final(st)@),
        ),
        final(st).cur <= data@.len(),
{
    if !group_has_member(fields, key) {
        return Ok(());
    }
    let base = key / 8;
    match check_buffer_size(data, st.cur, base) {
        Err(e) => {
            return Err(e);
        },
        Ok(()) => {},
    }
    let raw = read_int(data, st.cur, base, endian);
    proof {
        lemma_pow256_values();
        lemma_pow256_mono(base as nat, 8);
        lemma_le_value_bound(data@.subrange(st.cur as int, st.cur + base));
        lemma_le_value_bound(data@.subrange(st.cur as int, st.cur + base).reverse());
    }
    let raw64 = raw as u64;
    let start = st.cur;
    push_group_exec(fields, key, raw64, st);
    st.cur = start + base;
    Ok(())
}

} // verus!

verus! {

/// A decoded integer as a count, when it is unsigned or not negative.
pub fn count_value(v: &DecodedValue) -> (r: Option<usize>)
    ensures
        r == count_of(v@),
{
    match v {
        DecodedValue::U8(x) => Some(*x as usize),
        DecodedValue::U16(x) => Some(*x as usize),
        DecodedValue::U32(x) => Some(*x as usize),
        DecodedValue::U64(x) => Some(*x as usize),
        DecodedValue::I8(x) => if *x >= 0 {
            Some(*x as usize)
        } else {
            None
        },
        DecodedValue::I16(x) => if *x >= 0 {
            Some(*x as usize)
        } else {
            None
        },
        DecodedValue::I32(x) => if *x >= 0 {
            Some(*x as usize)
        } else {
            None
        },
        DecodedValue::I64(x) => if *x >= 0 {
            Some(*x as usize)
        } else {
            None
        },
        _ => None,
    }
}

proof fn lemma_pairs_skip(s: Seq<(String, DecodedValue)>, i: int)
    requires
        0 <= i < s.len(),
    ensures
        decoded_pairs_view(s).skip(i).len() > 0,
        decoded_pairs_view(s).skip(i)[0] == (s[i].0@, s[i].1@),
        decoded_pairs_view(s).skip(i).drop_first() == decoded_pairs_view(s).skip(i + 1),
{
    lemma_decoded_pairs_view(s);
    assert(decoded_pairs_view(s).skip(i).drop_first() =~= decoded_pairs_view(s).skip(i + 1));
}

proof fn lemma_pairs_skip_ends(s: Seq<(String, DecodedValue)>)
    ensures
        decoded_pairs_view(s).skip(0) == decoded_pairs_view(s),
        decoded_pairs_view(s).skip(s.len() as int).len() == 0,
{
    lemma_decoded_pairs_view(s);
    assert(decoded_pairs_view(s).skip(0) =~= decoded_pairs_view(s));
}

/// The count held by the first decoded field named `name` that holds one.
pub fn get_decoded_field_value_as_usize(fields: &Vec<(String, DecodedValue)>, name: &str) -> (r:
    Option<usize>)
    ensures
        r == decoded_count(decoded_pairs_view(fields@), name@),
{
    let ghost v = decoded_pairs_view(fields@);
    proof {
        lemma_pairs_skip_ends(fields@);
    }
    let mut i: usize = 0;
    while i < fields.len()
        invariant
            i <= fields@.len(),
            v == decoded_pairs_view(fields@),
            decoded_count(v, name@) == decoded_count(v.skip(i as int), name@),
        decreases fields@.len() - i,
    {
        proof {
            lemma_pairs_skip(fields@, i as int);
        }
        if str_eq(fields[i].0.as_str(), name) {
            match count_value(&fields[i].1) {
                Some(n) => {
                    return Some(n);
                },
                None => {},
            }
        }
        i = i + 1;
    }
    None
}

/// The value of the first decoded field named `name`.
pub fn find_decoded<'a>(fields: &'a Vec<(String, DecodedValue)>, name: &str) -> (r: Option<
    &'a DecodedValue,
>)
    ensures
        match decoded_named(decoded_pairs_view(fields@), name@) {
            Some(d) => r matches Some(x) && x@ == d,
            None => r is None,
        },
{
    let ghost v = decoded_pairs_view(fields@);
    proof {
        lemma_pairs_skip_ends(fields@);
    }
    let mut i: usize = 0;
    while i < fields.len()
        invariant
            i <= fields@.len(),
            v == decoded_pairs_view(fields@),
            decoded_named(v, name@) == decoded_named(v.skip(i as int), name@),
        decreases fields@.len() - i,
    {
        proof {
            lemma_pairs_skip(fields@, i as int);
        }
        if str_eq(fields[i].0.as_str(), name) {
            return Some(&fields[i].1);
        }
        i = i + 1;
    }
    None
}

/// Decodes field `f` by its type at the current position.
fn plain_field_exec(
    data: &[u8],
    f: &Field,
    schema: &Schema,
    endian: Endianness,
    Ghost(fuel): Ghost<nat>,
    st: &mut RecvProgress,
) -> (r: Result<(), CoreError>)
    requires
        old(st).cur <= data@.len(),
        plain_field(data@, f@, schema@, endian, fuel, old(st)@) is Some,
    ensures
        plain_field(data@, f@, schema@, endian, fuel, old(st)@) == Some(step_view(r, final(st)@)),
        final(st).cur <= data@.len(),
{
    match decode_value(data, st.cur, &f.ty, schema, endian, Ghost(fuel)) {
        Err(e) => Err(e),
        Ok((v, c)) => {
            proof {
                lemma_decoded_pairs_push(st.fields@, (f.name, v));
                assert(data@.len() == data.len());
            }
            st.fields.push((f.name.clone(), v));
            st.cur = st.cur + c;
            Ok(())
        },
    }
}

} // verus!

verus! {

/// Decodes a `String`, `Bytes` or `Vec` field whose length is held by the
/// decoded field `r`.
fn len_ref_field_exec(
    data: &[u8],
    f: &Field,
    r: &String,
    schema: &Schema,
    endian: Endianness,
    Ghost(fuel): Ghost<nat>,
    st: &mut RecvProgress,
) -> (res: Result<(), CoreError>)
    requires
        old(st).cur <= data@.len(),
        is_length_carrying(f@.ty),
        len_ref_field(data@, f@, r@, schema@, endian, fuel, old(st)@) is Some,
    ensures
        len_ref_field(data@, f@, r@, schema@, endian, fuel, old(st)@) == Some(
            step_view(res, final(st)@),
        ),
        final(st).cur <= data@.len(),
{
    let count = match get_decoded_field_value_as_usize(&st.fields, r.as_str()) {
        None => {
            return Err(
                make_err_named(
                    "decode",
                    "len_ref references field '",
                    r,
                    "' which is not yet decoded or not an integer",
                ),
            );
        },
        Some(n) => n,
    };
    match &f.ty {
        Type::Vec(inner) => {
            match decode_items(data, st.cur, st.cur, inner, count, schema, endian, Ghost(fuel)) {
                Err(e) => Err(e),
                Ok((v, c)) => {
                    proof {
                        lemma_decoded_pairs_push(st.fields@, (f.name, v));
                        assert(data@.len() == data.len());
                    }
                    st.fields.push((f.name.clone(), v));
                    st.cur = st.cur + c;
                    Ok(())
                },
            }
        },
        _ => {
            match check_buffer_size(data, st.cur, count) {
                Err(e) => {
                    return Err(e);
                },
                Ok(()) => {},
            }
            let end = st.cur + count;
            let bytes = copy_range(data, st.cur, end);
            let v = match &f.ty {
                Type::Bytes => DecodedValue::Bytes(bytes),
                _ => match utf8_string(bytes) {
                    Some(s) => DecodedValue::String(s),
                    None => {
                        return Err(
                            make_err_named(
                                "decode",
                                "len_ref field '",
                                &f.name,
                                "' contains invalid UTF-8",
                            ),
                        );
                    },
                },
            };
            proof {
                lemma_decoded_pairs_push(st.fields@, (f.name, v));
            }
            st.fields.push((f.name.clone(), v));
            st.cur = end;
            Ok(())
        },
    }
}

/// Decodes values of type `inner` from `start` to the end of the data.
fn remaining_items_exec(
    data: &[u8],
    start: usize,
    inner: &Type,
    schema: &Schema,
    endian: Endianness,
    Ghost(fuel): Ghost<nat>,
) -> (r: Result<Vec<DecodedValue>, CoreError>)
    requires
        start <= data@.len(),
        remaining_items(data@, start as nat, inner@, Seq::empty(), schema@, endian, fuel) is Some,
    ensures
        remaining_items(data@, start as nat, inner@, Seq::empty(), schema@, endian, fuel) == Some(
            match r {
                Ok(items) => Ok(decoded_list_view(items@)),
                Err(e) => Err(e@),
            },
        ),
{
    let mut values: Vec<DecodedValue> = Vec::new();
    let mut cur: usize = start;
    while cur < data.len()
        invariant
            cur <= data@.len(),
            remaining_items(data@, start as nat, inner@, Seq::empty(), schema@, endian, fuel)
                == remaining_items(
                data@,
                cur as nat,
                inner@,
                decoded_list_view(values@),
                schema@,
                endian,
                fuel,
            ),
            remaining_items(data@, start as nat, inner@, Seq::empty(), schema@, endian, fuel)
                is Some,
        decreases data@.len() - cur,
    {
        match decode_value(data, cur, inner, schema, endian, Ghost(fuel)) {
            Err(e) => {
                return Err(e);
            },
            Ok((v, c)) => {
                proof {
                    lemma_decoded_list_push(values@, v);
                    assert(data@.len() == data.len());
                }
                values.push(v);
                cur = cur + c;
            },
        }
    }
    Ok(values)
}

/// Decodes a `#[remaining]` field from the rest of the data.
fn remaining_field_exec(
    data: &[u8],
    f: &Field,
    schema: &Schema,
    endian: Endianness,
    Ghost(fuel): Ghost<nat>,
    st: &mut RecvProgress,
) -> (r: Result<(), CoreError>)
    requires
        old(st).cur <= data@.len(),
        remaining_field(data@, f@, schema@, endian, fuel, old(st)@) is Some,
    ensures
        remaining_field(data@, f@, schema@, endian, fuel, old(st)@) == Some(
            step_view(r, final(st)@),
        ),
        final(st).cur <= data@.len(),
{
    let v = match &f.ty {
        Type::Bytes => DecodedValue::Bytes(copy_range(data, st.cur, data.len())),
        Type::String => {
            let bytes = copy_range(data, st.cur, data.len());
            match utf8_string(bytes) {
                Some(s) => DecodedValue::String(s),
                None => {
                    return Err(
                        make_err_named(
                            "decode",
                            "remaining field '",
                            &f.name,
                            "' contains invalid UTF-8",
                        ),
                    );
                },
            }
        },
        Type::Vec(inner) => {
            match remaining_items_exec(data, st.cur, inner, schema, endian, Ghost(fuel)) {
                Err(e) => {
                    return Err(e);
                },
                Ok(items) => DecodedValue::Vec(items),
            }
        },
        _ => {
            return Err(
                make_err_named(
                    "decode",
                    "remaining field '",
                    &f.name,
                    "' must be Bytes, String, or Vec<T>",
                ),
            );
        },
    };
    proof {
        lemma_decoded_pairs_push(st.fields@, (f.name, v));
    }
    st.fields.push((f.name.clone(), v));
    st.cur = data.len();
    Ok(())
}

/// Decodes a field with `#[if(c)]`.
fn if_field_exec(
    data: &[u8],
    f: &Field,
    c: &String,
    schema: &Schema,
    endian: Endianness,
    Ghost(fuel): Ghost<nat>,
    st: &mut RecvProgress,
) -> (r: Result<(), CoreError>)
    requires
        old(st).cur <= data@.len(),
        if_field(data@, f@, c@, schema@, endian, fuel, old(st)@) is Some,
    ensures
        if_field(data@, f@, c@, schema@, endian, fuel, old(st)@) == Some(
            step_view(r, final(st)@),
        ),
        final(st).cur <= data@.len(),
{
    let present = match find_decoded(&st.fields, c.as_str()) {
        Some(DecodedValue::Bool(b)) => *b,
        Some(_) => {
            return Err(make_err_named("decode", "if condition field '", c, "' must be bool"));
        },
        None => {
            return Err(
                make_err_named(
                    "decode",
                    "if condition field '",
                    c,
                    "' not found or not yet decoded",
                ),
            );
        },
    };
    if present {
        plain_field_exec(data, f, schema, endian, Ghost(fuel), st)
    } else {
        Ok(())
    }
}

} // verus!

verus! {

/// Decodes field `i` of `def`.
fn field_step_exec(
    data: &[u8],
    def: &StructDef,
    i: usize,
    schema: &Schema,
    default_endian: Endianness,
    Ghost(fuel): Ghost<nat>,
    st: &mut RecvProgress,
) -> (r: Result<(), CoreError>)
    requires
        i < def.fields@.len(),
        old(st).cur <= data@.len(),
        field_step(data@, def@, i as int, schema@, default_endian, fuel, old(st)@) is Some,
    ensures
        field_step(data@, def@, i as int, schema@, default_endian, fuel, old(st)@) == Some(
            step_view(r, final(st)@),
        ),
        final(st).cur <= data@.len(),
{
    let f = &def.fields[i];
    proof {
        assert(def@.fields[i as int] == f@);
    }
    if names_contain(&st.processed, &f.name) {
        return Ok(());
    }
    let endian = get_field_endian(&f.attributes, default_endian);
    match field_bit_key(f) {
        Some(key) => {
            return decode_group_exec(data, &def.fields, key, endian, st);
        },
        None => {},
    }
    if has_auto_attribute(&f.attributes) {
        return plain_field_exec(data, f, schema, endian, Ghost(fuel), st);
    }
    match get_len_ref_attribute(&f.attributes) {
        Some(r) => {
            let manual = !schema.is_prefix_enabled() && match &f.ty {
                Type::Vec(_) | Type::String | Type::Bytes => true,
                _ => false,
            };
            if manual {
                return len_ref_field_exec(data, f, r, schema, endian, Ghost(fuel), st);
            } else {
                return plain_field_exec(data, f, schema, endian, Ghost(fuel), st);
            }
        },
        None => {},
    }
    if has_remaining_attribute(&f.attributes) {
        return remaining_field_exec(data, f, schema, endian, Ghost(fuel), st);
    }
    match get_if_attribute(&f.attributes) {
        Some(c) => if_field_exec(data, f, c, schema, endian, Ghost(fuel), st),
        None => plain_field_exec(data, f, schema, endian, Ghost(fuel), st),
    }
}

/// Whether some field of the struct is `#[remaining]`.
pub fn has_remaining_field(fields: &Vec<Field>) -> (r: bool)
    ensures
        r == any_remaining(fields_view(fields@)),
{
    let mut j: usize = 0;
    while j < fields.len()
        invariant
            j <= fields@.len(),
            forall|k: int|
                0 <= k < j ==> !has_remaining(#[trigger] fields_view(fields@)[k].attributes),
        decreases fields@.len() - j,
    {
        proof {
            assert(fields_view(fields@)[j as int] == fields@[j as int]@);
        }
        if has_remaining_attribute(&fields[j].attributes) {
            proof {
                assert(has_remaining(fields_view(fields@)[j as int].attributes));
            }
            return true;
        }
        j = j + 1;
    }
    false
}

/// The view of a struct decoding result.
pub open spec fn struct_result_view(r: Result<DecodedStruct, CoreError>) -> Result<
    DecodedStructV,
    ErrorView,
> {
    match r {
        Ok(d) => Ok(d@),
        Err(e) => Err(e@),
    }
}

/// Decodes `data` as the `#[receive]` struct `def`.
pub fn decode_struct(
    data: &[u8],
    def: &StructDef,
    schema: &Schema,
    default_endian: Endianness,
    Ghost(fuel): Ghost<nat>,
) -> (r: Result<DecodedStruct, CoreError>)
    requires
        spec_decode_struct(data@, def@, schema@, default_endian, fuel) is Some,
    ensures
        spec_decode_struct(data@, def@, schema@, default_endian, fuel) == Some(
            struct_result_view(r),
        ),
{
    let is_receive = match def.direction {
        Some(Direction::Receive) => true,
        _ => false,
    };
    if !is_receive {
        return Err(make_err_named("decode", "struct '", &def.name, "' is not a receive type"));
    }
    let endian = match def.endian {
        Some(e) => e,
        None => default_endian,
    };
    let mut st = RecvProgress { cur: 0, fields: Vec::new(), processed: Vec::new() };
    proof {
        assert(st@.acc =~= Seq::<(Seq<char>, DecodedV)>::empty());
        assert(st@.processed =~= Seq::<Seq<char>>::empty());
        assert(st@ == start_state());
    }
    let mut i: usize = 0;
    while i < def.fields.len()
        invariant
            i <= def.fields@.len(),
            st.cur <= data@.len(),
            def@.fields.len() == def.fields@.len(),
            def@.direction == Some(Direction::Receive),
            endian == struct_endian(def@, default_endian),
            decode_fields_from(data@, def@, 0, schema@, endian, fuel, start_state())
                == decode_fields_from(data@, def@, i as nat, schema@, endian, fuel, st@),
            decode_fields_from(data@, def@, 0, schema@, endian, fuel, start_state())
                is Some,
        decreases def.fields@.len() - i,
    {
        match field_step_exec(data, def, i, schema, endian, Ghost(fuel), &mut st) {
            Err(e) => {
                return Err(e);
            },
            Ok(()) => {},
        }
        i = i + 1;
    }
    if !has_remaining_field(&def.fields) && st.cur < data.len() {
        return Err(make_err_trailing(data.len() - st.cur));
    }
    Ok(DecodedStruct { name: def.name.clone(), fields: st.fields })
}

} // verus!
