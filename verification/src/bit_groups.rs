//! The codec symmetry law for structs made of bit fields.

use vstd::prelude::*;
use crate::ast::{Direction, Endianness, FieldAttributeV, FieldV, SchemaV, StructDefV};
use crate::attrs::{auto_attr, bit_attr, bits_attr, checksum_attr, field_endian, has_remaining, if_attr, len_ref_attr};
use crate::decoded::{DecodedStructV, DecodedV};
use crate::encode::{field_pass, group_word, own_bindings, spec_encode, PassState};
use crate::receive::{bit_field_value, bit_key, decode_fields_from, push_group, RecvState, struct_endian};
use crate::wire::{bit_mask, bit_range_ok, int_bytes, pow256, spec_extract_bits, spec_set_bits};
use vstd::arithmetic::power2::pow2;

verus! {

/// The attributes are `#[bits(..)]`, `#[bit(..)]` and byte orders.
pub open spec fn bit_attrs(attrs: Seq<FieldAttributeV>) -> bool {
    forall|i: int|
        0 <= i < attrs.len() ==> (#[trigger] attrs[i]) is Bits || attrs[i] is Bit || attrs[i] is Endian
}

/// A bit field: `#[bits(start, end)]` or `#[bit(pos)]` (with at most byte
/// orders besides), whose bits lie in a 64-bit word.
pub open spec fn is_bit_field(f: FieldV) -> bool {
    &&& bit_attrs(f.attributes)
    &&& match bits_attr(f.attributes) {
        Some((s, e)) => bit_range_ok(s, e),
        None => match bit_attr(f.attributes) {
            Some(p) => bit_range_ok(p, p),
            None => false,
        },
    }
}

/// A `#[send]` struct of bit fields only, all of one storage width, with
/// distinct names.
pub open spec fn bit_send(def: StructDefV) -> bool {
    &&& def.direction == Some(Direction::Send)
    &&& def.fields.len() > 0
    &&& forall|i: int|
        0 <= i < def.fields.len() ==> is_bit_field(#[trigger] def.fields[i]) && bit_key(def.fields[i])
            == bit_key(def.fields[0])
    &&& forall|i: int, m: int|
        0 <= i < def.fields.len() && 0 <= m < def.fields.len() && i != m ==> (#[trigger] def.fields[i]).name
            != (#[trigger] def.fields[m]).name
}

/// A `#[receive]` struct with the names and attributes of the fields of
/// `send`, in the same order.
pub open spec fn bit_receives_as(recv: StructDefV, send: StructDefV) -> bool {
    &&& recv.direction == Some(Direction::Receive)
    &&& recv.fields.len() == send.fields.len()
    &&& forall|i: int|
        0 <= i < recv.fields.len() ==> (#[trigger] recv.fields[i]).name == send.fields[i].name
            && recv.fields[i].attributes == send.fields[i].attributes
}

/// The storage width in bits of the struct's bit-field group.
pub open spec fn group_key(def: StructDefV) -> usize {
    bit_key(def.fields[0])->0
}

/// The storage word that the encoder builds for the group.
pub open spec fn group_word_of(def: StructDefV) -> u64 {
    group_word(def.fields, 0, group_key(def), own_bindings(def.fields), 0)->0
}

/// The byte order of the group: that of its first field in a struct of byte
/// order `endian`.
pub open spec fn group_order(def: StructDefV, endian: Endianness) -> Endianness {
    field_endian(def.fields[0].attributes, endian)
}

/// The bytes of the group: the low bytes of its word, as many as its width
/// has.
pub open spec fn group_bytes(def: StructDefV, endian: Endianness) -> Seq<u8> {
    int_bytes(group_word_of(def) as nat, (group_key(def) / 8) as nat, group_order(def, endian))
}

/// The word that decoding reads back: the group's word reduced to its
/// width.
pub open spec fn group_raw(def: StructDefV) -> u64 {
    ((group_word_of(def) as nat) % pow256((group_key(def) / 8) as nat)) as u64
}

/// The members of group `key` from index `j` on, with their values in the
/// word `raw`.
pub open spec fn group_values(fields: Seq<FieldV>, j: nat, key: usize, raw: u64) -> Seq<
    (Seq<char>, DecodedV),
>
    decreases fields.len() - j,
{
    if j >= fields.len() {
        Seq::empty()
    } else if bit_key(fields[j as int]) == Some(key) {
        seq![(fields[j as int].name, bit_field_value(fields[j as int], raw)->0)] + group_values(
            fields,
            j + 1,
            key,
            raw,
        )
    } else {
        group_values(fields, j + 1, key, raw)
    }
}

/// The names of the members of group `key` from index `j` on.
pub open spec fn group_names(fields: Seq<FieldV>, j: nat, key: usize) -> Seq<Seq<char>>
    decreases fields.len() - j,
{
    if j >= fields.len() {
        Seq::empty()
    } else if bit_key(fields[j as int]) == Some(key) {
        seq![fields[j as int].name] + group_names(fields, j + 1, key)
    } else {
        group_names(fields, j + 1, key)
    }
}

pub(crate) proof fn lemma_bit_attrs(attrs: Seq<FieldAttributeV>)
    requires
        bit_attrs(attrs),
    ensures
        auto_attr(attrs) is None,
        checksum_attr(attrs) is None,
        len_ref_attr(attrs) is None,
        !has_remaining(attrs),
        if_attr(attrs) is None,
    decreases attrs.len(),
{
    if attrs.len() > 0 {
        let rest = attrs.drop_first();
        assert forall|i: int| 0 <= i < rest.len() implies (#[trigger] rest[i]) is Bits || rest[i] is Bit
            || rest[i] is Endian by {
            assert(rest[i] == attrs[i + 1]);
        }
        lemma_bit_attrs(rest);
    }
}

/// The encoder builds the group's word.
pub(crate) proof fn lemma_group_word(
    fields: Seq<FieldV>,
    j: nat,
    key: usize,
    fv: Seq<(Seq<char>, crate::ast::ValueV)>,
    c: u64,
)
    requires
        forall|m: int| 0 <= m < fields.len() && bit_key(#[trigger] fields[m]) == Some(key) ==> is_bit_field(fields[m]),
    ensures
        group_word(fields, j, key, fv, c) is Some,
    decreases fields.len() - j,
{
    if j < fields.len() {
        let f = fields[j as int];
        if bit_key(f) == Some(key) {
            assert(is_bit_field(f));
            match bits_attr(f.attributes) {
                Some((s, e)) => match crate::encode::field_value(fv, f) {
                    Some(crate::ast::ValueV::Integer(val)) => {
                        lemma_group_word(fields, j + 1, key, fv, crate::wire::spec_set_bits(c, val as u64, s, e));
                    },
                    _ => {
                        lemma_group_word(fields, j + 1, key, fv, c);
                    },
                },
                None => {
                    let p = bit_attr(f.attributes)->0;
                    match crate::encode::field_value(fv, f) {
                        Some(crate::ast::ValueV::Bool(b)) => {
                            lemma_group_word(
                                fields,
                                j + 1,
                                key,
                                fv,
                                crate::wire::spec_set_bits(c, if b { 1u64 } else { 0u64 }, p, p),
                            );
                        },
                        Some(crate::ast::ValueV::Integer(val)) => {
                            lemma_group_word(fields, j + 1, key, fv, crate::wire::spec_set_bits(c, val as u64, p, p));
                        },
                        _ => {
                            lemma_group_word(fields, j + 1, key, fv, c);
                        },
                    }
                },
            }
        } else {
            lemma_group_word(fields, j + 1, key, fv, c);
        }
    }
}

/// Every field of a struct of bit fields is of the group.
proof fn lemma_bit_key(def: StructDefV, i: int)
    requires
        bit_send(def),
        0 <= i < def.fields.len(),
    ensures
        bit_key(def.fields[i]) == Some(group_key(def)),
        is_bit_field(def.fields[i]),
        group_key(def) == 8 || group_key(def) == 16 || group_key(def) == 32 || group_key(def) == 64,
{
    assert(is_bit_field(def.fields[0]));
    assert(is_bit_field(def.fields[i]) && bit_key(def.fields[i]) == bit_key(def.fields[0]));
}

/// After the first field, the first encoding pass adds nothing: every other
/// field is of the group already written.
proof fn lemma_bit_pass(def: StructDefV, endian: Endianness, schema: SchemaV, fuel: nat, i: nat, st: PassState)
    requires
        bit_send(def),
        1 <= i <= def.fields.len(),
        st.groups == seq![group_key(def)],
    ensures
        field_pass(def, own_bindings(def.fields), endian, schema, fuel, true, 0, i, st) == Some(
            Ok::<PassState, crate::error::ErrorView>(st),
        ),
    decreases def.fields.len() - i,
{
    if i < def.fields.len() {
        let f = def.fields[i as int];
        lemma_bit_attrs(f.attributes);
        lemma_bit_key(def, i as int);
        assert(st.groups.contains(group_key(def))) by {
            assert(st.groups[0] == group_key(def));
        }
        assert(crate::encode::field_step(def, own_bindings(def.fields), endian, schema, fuel, true, 0, i, st)
            == Some(Ok::<PassState, crate::error::ErrorView>(st)));
        lemma_bit_pass(def, endian, schema, fuel, i + 1, st);
    }
}

/// Decoding the group appends its members with their values and marks them
/// as read.
pub(crate) proof fn lemma_push_group(fields: Seq<FieldV>, j: nat, key: usize, raw: u64, s: RecvState)
    requires
        forall|m: int| 0 <= m < fields.len() && bit_key(#[trigger] fields[m]) == Some(key) ==> is_bit_field(fields[m]),
    ensures
        push_group(fields, j, key, raw, s) == Some(
            RecvState {
                cur: s.cur,
                acc: s.acc + group_values(fields, j, key, raw),
                processed: s.processed + group_names(fields, j, key),
            },
        ),
    decreases fields.len() - j,
{
    if j < fields.len() {
        let f = fields[j as int];
        if bit_key(f) == Some(key) {
            assert(is_bit_field(f));
            let v = bit_field_value(f, raw)->0;
            let t = RecvState { cur: s.cur, acc: s.acc.push((f.name, v)), processed: s.processed.push(f.name) };
            lemma_push_group(fields, j + 1, key, raw, t);
            assert(t.acc + group_values(fields, j + 1, key, raw) =~= s.acc + group_values(fields, j, key, raw));
            assert(t.processed + group_names(fields, j + 1, key) =~= s.processed + group_names(fields, j, key));
        } else {
            lemma_push_group(fields, j + 1, key, raw, s);
        }
    } else {
        assert(s.acc + group_values(fields, j, key, raw) =~= s.acc);
        assert(s.processed + group_names(fields, j, key) =~= s.processed);
    }
}

/// Every member of the group from index `j` on is named in its names.
pub(crate) proof fn lemma_group_names(fields: Seq<FieldV>, j: nat, key: usize, m: int)
    requires
        j <= m < fields.len(),
        bit_key(fields[m]) == Some(key),
    ensures
        group_names(fields, j, key).contains(fields[m].name),
    decreases fields.len() - j,
{
    if j < m {
        lemma_group_names(fields, j + 1, key, m);
        let rest = group_names(fields, j + 1, key);
        let k = choose|k: int| 0 <= k < rest.len() && rest[k] == fields[m].name;
        if bit_key(fields[j as int]) == Some(key) {
            assert((seq![fields[j as int].name] + rest)[k + 1] == fields[m].name);
        }
    } else {
        assert(group_names(fields, j, key)[0] == fields[m].name);
    }
}

/// Fields whose names are all read already are skipped.
proof fn lemma_bit_rest(
    data: Seq<u8>,
    recv: StructDefV,
    schema: SchemaV,
    endian: Endianness,
    fuel: nat,
    i: nat,
    s: RecvState,
)
    requires
        i <= recv.fields.len(),
        forall|m: int| i <= m < recv.fields.len() ==> s.processed.contains(#[trigger] recv.fields[m].name),
    ensures
        decode_fields_from(data, recv, i, schema, endian, fuel, s) == Some(
            Ok::<RecvState, crate::error::ErrorView>(s),
        ),
    decreases recv.fields.len() - i,
{
    if i < recv.fields.len() {
        assert(s.processed.contains(recv.fields[i as int].name));
        lemma_bit_rest(data, recv, schema, endian, fuel, i + 1, s);
    }
}

/// Fields with the same names and attributes give the same group values.
proof fn lemma_same_group(a: Seq<FieldV>, b: Seq<FieldV>, j: nat, key: usize, raw: u64)
    requires
        a.len() == b.len(),
        forall|i: int| 0 <= i < a.len() ==> (#[trigger] a[i]).name == b[i].name && a[i].attributes == b[i].attributes,
    ensures
        group_values(a, j, key, raw) == group_values(b, j, key, raw),
        group_names(a, j, key) == group_names(b, j, key),
    decreases a.len() - j,
{
    if j < a.len() {
        assert(a[j as int].name == b[j as int].name && a[j as int].attributes == b[j as int].attributes);
        lemma_same_group(a, b, j + 1, key, raw);
    }
}

/// Encoding a struct of bit fields gives the group's bytes.
proof fn lemma_bit_encode(send: StructDefV, schema: SchemaV, endian: Endianness, fuel: nat)
    requires
        bit_send(send),
        match send.endian {
            Some(e) => e == endian,
            None => true,
        },
    ensures
        spec_encode(send, schema, endian, fuel) == Some(
            Ok::<Seq<u8>, crate::error::ErrorView>(group_bytes(send, endian)),
        ),
{
    let n = send.fields.len();
    let key = group_key(send);
    let fv = own_bindings(send.fields);
    let f0 = send.fields[0];
    let fe = group_order(send, endian);
    let size = (key / 8) as nat;
    let word = group_word_of(send);
    let bytes = group_bytes(send, endian);
    lemma_bit_key(send, 0);
    assert forall|m: int| 0 <= m < n && bit_key(#[trigger] send.fields[m]) == Some(key) implies is_bit_field(
        send.fields[m],
    ) by {
        lemma_bit_key(send, m);
    }
    lemma_bit_attrs(f0.attributes);
    lemma_group_word(send.fields, 0, key, fv, 0);
    let st0 = crate::encode::empty_pass();
    let st1 = PassState {
        buf: st0.buf + int_bytes(word as nat, size, fe),
        offsets: crate::encode::group_offsets(send.fields, 0, key, st0.buf.len(), size, st0.offsets),
        groups: st0.groups.push(key),
        ..st0
    };
    assert(crate::encode::field_step(send, fv, endian, schema, fuel, true, 0, 0, st0) == Some(
        Ok::<PassState, crate::error::ErrorView>(st1),
    ));
    assert(st1.groups =~= seq![key]);
    lemma_bit_pass(send, endian, schema, fuel, 1, st1);
    assert(st1.buf =~= bytes);
    assert forall|i: int| 0 <= i < n implies len_ref_attr((#[trigger] send.fields[i]).attributes) is None by {
        lemma_bit_key(send, i);
        lemma_bit_attrs(send.fields[i].attributes);
    }
    lemma_def_len(send.fields, fv, endian, st1.offsets, 0, st1.buf);
}

/// Decoding the group's bytes at the first field of a matching receive
/// struct reads every field of the group.
#[verifier::rlimit(40)]
proof fn lemma_bit_groups(send: StructDefV, recv: StructDefV, schema: SchemaV, endian: Endianness)
    requires
        bit_send(send),
        bit_receives_as(recv, send),
    ensures
        crate::receive::decode_group(
            group_bytes(send, endian),
            recv.fields,
            group_key(send),
            field_endian(recv.fields[0].attributes, endian),
            crate::receive::start_state(),
        ) == Some(
            Ok::<RecvState, crate::error::ErrorView>(
                RecvState {
                    cur: (group_key(send) / 8) as nat,
                    acc: group_values(send.fields, 0, group_key(send), group_raw(send)),
                    processed: group_names(send.fields, 0, group_key(send)),
                },
            ),
        ),
{
    let n = send.fields.len();
    let key = group_key(send);
    let fe = group_order(send, endian);
    let size = (key / 8) as nat;
    let word = group_word_of(send);
    let bytes = group_bytes(send, endian);
    let raw = group_raw(send);
    lemma_bit_key(send, 0);
    crate::wire::lemma_pow256_values();
    crate::wire::lemma_bytes_value_mod(word as nat, size, fe);
    assert(recv.fields[0].attributes == send.fields[0].attributes);
    lemma_same_group(recv.fields, send.fields, 0, key, raw);
    assert forall|m: int| 0 <= m < n implies bit_key(#[trigger] recv.fields[m]) == Some(key) && is_bit_field(
        recv.fields[m],
    ) by {
        assert(recv.fields[m].attributes == send.fields[m].attributes);
        lemma_bit_key(send, m);
    }
    let s0 = crate::receive::start_state();
    assert(bytes.subrange(0, size as int) =~= bytes);
    lemma_push_group(recv.fields, 0, key, raw, s0);
    assert(s0.acc + group_values(recv.fields, 0, key, raw) =~= group_values(recv.fields, 0, key, raw));
    assert(s0.processed + group_names(recv.fields, 0, key) =~= group_names(recv.fields, 0, key));
    assert(crate::receive::has_group_member(recv.fields, key)) by {
        assert(bit_key(recv.fields[0]) == Some(key));
    }
}

/// The codec symmetry law for structs of bit fields: encoding a `#[send]`
/// struct whose fields are all bit fields of one storage width, with
/// distinct names, gives the group's word (each field's value set into its
/// bits, in field order) as that width's bytes in the byte order of the
/// first field (else the struct's, else `endian`); decoding those bytes as
/// a `#[receive]` struct with the same names and attributes, coming to the
/// same byte order, gives each field, in order, its bits of that word: a
/// number for `#[bits(..)]`, a boolean for `#[bit(..)]`. Where the ranges
/// lie below bit 64 and do not overlap, and each value fits its range (see
/// `bits_fit`), those are the values written.
pub proof fn lemma_bit_symmetry(
    send: StructDefV,
    recv: StructDefV,
    schema: SchemaV,
    endian: Endianness,
    fuel: nat,
)
    requires
        bit_send(send),
        bit_receives_as(recv, send),
        struct_endian(recv, endian) == struct_endian(send, endian),
    ensures
        spec_encode(send, schema, endian, fuel) == Some(
            Ok::<Seq<u8>, crate::error::ErrorView>(group_bytes(send, struct_endian(send, endian))),
        ),
        crate::receive::spec_decode_struct(group_bytes(send, struct_endian(send, endian)), recv, schema, endian, fuel)
            == Some(
            Ok::<DecodedStructV, crate::error::ErrorView>(
                DecodedStructV {
                    name: recv.name,
                    fields: group_values(send.fields, 0, group_key(send), group_raw(send)),
                },
            ),
        ),
        bits_fit(send) ==> crate::receive::spec_decode_struct(
            group_bytes(send, struct_endian(send, endian)),
            recv,
            schema,
            endian,
            fuel,
        ) == Some(
            Ok::<DecodedStructV, crate::error::ErrorView>(
                DecodedStructV { name: recv.name, fields: bit_written(send.fields, own_bindings(send.fields), 0) },
            ),
        ),
{
    if bits_fit(send) {
        lemma_values_written(send, 0);
    }
    let e = struct_endian(send, endian);
    let n = send.fields.len();
    let key = group_key(send);
    let bytes = group_bytes(send, e);
    assert(spec_encode(send, schema, endian, fuel) == spec_encode(send, schema, e, fuel));
    lemma_bit_encode(send, schema, e, fuel);
    lemma_bit_groups(send, recv, schema, e);
    lemma_bit_key(send, 0);
    crate::wire::lemma_int_bytes_len(group_word_of(send) as nat, (key / 8) as nat, group_order(send, e));
    let s0 = crate::receive::start_state();
    let s1 = RecvState {
        cur: (key / 8) as nat,
        acc: group_values(send.fields, 0, key, group_raw(send)),
        processed: group_names(send.fields, 0, key),
    };
    assert(recv.fields[0].attributes == send.fields[0].attributes);
    assert(bit_key(recv.fields[0]) == Some(key));
    assert(crate::receive::field_step(bytes, recv, 0, schema, e, fuel, s0) == Some(
        Ok::<RecvState, crate::error::ErrorView>(s1),
    ));
    assert forall|m: int| 1 <= m < n implies s1.processed.contains(#[trigger] recv.fields[m].name) by {
        lemma_bit_key(send, m);
        lemma_group_names(send.fields, 0, key, m);
        assert(recv.fields[m].name == send.fields[m].name);
    }
    lemma_bit_rest(bytes, recv, schema, e, fuel, 1, s1);
    assert(!crate::receive::any_remaining(recv.fields)) by {
        assert forall|j: int| 0 <= j < n implies !has_remaining(#[trigger] recv.fields[j].attributes) by {
            lemma_bit_key(send, j);
            assert(recv.fields[j].attributes == send.fields[j].attributes);
            lemma_bit_attrs(send.fields[j].attributes);
        }
    }
}

/// The length and remaining passes leave fields without `#[len_ref(..)]`
/// and `#[remaining]` as they are.
proof fn lemma_def_len(
    fields: Seq<FieldV>,
    fv: Seq<(Seq<char>, crate::ast::ValueV)>,
    endian: Endianness,
    offsets: Seq<(Seq<char>, nat, nat)>,
    j: nat,
    buf: Seq<u8>,
)
    requires
        forall|i: int|
            0 <= i < fields.len() ==> len_ref_attr((#[trigger] fields[i]).attributes) is None,
    ensures
        crate::encode::tracked_len_pass(fields, fv, endian, offsets, j, buf) == Some(buf),
    decreases fields.len() - j,
{
    if j < fields.len() {
        assert(len_ref_attr(fields[j as int].attributes) is None);
        lemma_def_len(fields, fv, endian, offsets, j + 1, buf);
    }
}

/// The bit range of a bit field: `start..=end` for `#[bits(start, end)]`,
/// `pos..=pos` for `#[bit(pos)]`.
pub open spec fn bit_range(f: FieldV) -> (usize, usize) {
    match bits_attr(f.attributes) {
        Some((s, e)) => (s, e),
        None => (bit_attr(f.attributes)->0, bit_attr(f.attributes)->0),
    }
}

/// What field `f` gives back for value `v`: the number, for `#[bits(..)]`
/// with a number that fits its range; the boolean, for `#[bit(..)]` with a
/// boolean. `None` for anything else.
pub open spec fn bit_value(f: FieldV, v: crate::ast::ValueV) -> Option<DecodedV> {
    match bits_attr(f.attributes) {
        Some((s, e)) => match v {
            crate::ast::ValueV::Integer(n) => if 0 <= n < pow2((e - s + 1) as nat) {
                Some(DecodedV::U64(n as u64))
            } else {
                None
            },
            _ => None,
        },
        None => match v {
            crate::ast::ValueV::Bool(b) => Some(DecodedV::Bool(b)),
            _ => None,
        },
    }
}

/// The bit ranges of the fields lie below bit 64 and do not overlap, and
/// each field has a value that it gives back (see `bit_value`).
pub open spec fn bits_fit(def: StructDefV) -> bool {
    let fv = own_bindings(def.fields);
    &&& forall|i: int|
        0 <= i < def.fields.len() ==> (#[trigger] bit_range(def.fields[i])).1 < 64 && crate::encode::field_value(
            fv,
            def.fields[i],
        ) is Some && bit_value(def.fields[i], crate::encode::field_value(fv, def.fields[i])->0) is Some
    &&& forall|i: int, m: int|
        0 <= i < def.fields.len() && 0 <= m < def.fields.len() && i != m ==> (#[trigger] bit_range(
            def.fields[i],
        )).1 < (#[trigger] bit_range(def.fields[m])).0 || bit_range(def.fields[m]).1 < bit_range(
            def.fields[i],
        ).0
}

/// Each field from index `j` on with the value it gives back.
pub open spec fn bit_written(fields: Seq<FieldV>, fv: Seq<(Seq<char>, crate::ast::ValueV)>, j: nat) -> Seq<
    (Seq<char>, DecodedV),
>
    decreases fields.len() - j,
{
    if j >= fields.len() {
        Seq::empty()
    } else {
        seq![(fields[j as int].name, bit_value(fields[j as int], crate::encode::field_value(fv, fields[j as int])->0)->0)]
            + bit_written(fields, fv, j + 1)
    }
}

/// Setting the bits of one range leaves those of a range apart from it.
proof fn lemma_set_keeps(word: u64, v: u64, s1: usize, e1: usize, s2: usize, e2: usize)
    requires
        bit_range_ok(s1, e1),
        bit_range_ok(s2, e2),
        e1 < 64,
        e2 < 64,
        e1 < s2 || e2 < s1,
    ensures
        spec_extract_bits(spec_set_bits(word, v, s2, e2), s1, e1) == spec_extract_bits(word, s1, e1),
{
    let a = s1 as u64;
    let wa = (e1 - s1 + 1) as u64;
    let b = s2 as u64;
    let wb = (e2 - s2 + 1) as u64;
    assert(bit_mask(s1, e1) == ((((1u64 << wa) - 1) as u64) << a));
    assert(bit_mask(s2, e2) == ((((1u64 << wb) - 1) as u64) << b));
    assert((((word & !((((1u64 << wb) - 1) as u64) << b)) | ((v << b) & ((((1u64 << wb) - 1) as u64) << b)))
        & ((((1u64 << wa) - 1) as u64) << a)) >> a == (word & ((((1u64 << wa) - 1) as u64) << a)) >> a)
        by (bit_vector)
        requires
            a < 64,
            b < 64,
            1 <= wa < 64,
            1 <= wb < 64,
            a + wa <= 64,
            b + wb <= 64,
            a + wa <= b || b + wb <= a,
    ;
}

/// Setting a range to a number that fits it and reading it back gives the
/// number.
proof fn lemma_set_reads(word: u64, v: u64, s: usize, e: usize)
    requires
        bit_range_ok(s, e),
        e < 64,
        v < pow2((e - s + 1) as nat),
    ensures
        spec_extract_bits(spec_set_bits(word, v, s, e), s, e) == v,
{
    let w = (e - s + 1) as u64;
    crate::wire::lemma_set_then_extract(word, v, s, e);
    vstd::bits::lemma_u64_pow2_no_overflow(w as nat);
    vstd::bits::lemma_u64_shl_is_mul(1, w);
    assert(v & (((1u64 << w) - 1) as u64) == v) by (bit_vector)
        requires
            w < 64,
            v < (1u64 << w),
    ;
}

/// Reducing a word to the width of its group leaves the bits of a range
/// below that width.
proof fn lemma_raw_reads(word: u64, key: usize, s: usize, e: usize)
    requires
        key == 8 || key == 16 || key == 32 || key == 64,
        bit_range_ok(s, e),
        e < key,
    ensures
        spec_extract_bits((((word as nat) % pow256((key / 8) as nat)) as u64), s, e) == spec_extract_bits(word, s, e),
{
    crate::wire::lemma_pow256_values();
    let a = s as u64;
    let wa = (e - s + 1) as u64;
    assert(bit_mask(s, e) == ((((1u64 << wa) - 1) as u64) << a));
    let raw = (((word as nat) % pow256((key / 8) as nat)) as u64);
    if key == 8 {
        assert(raw == word % 0x100);
        assert((((word % 0x100) & ((((1u64 << wa) - 1) as u64) << a)) >> a) == ((word & ((((1u64 << wa) - 1)
            as u64) << a)) >> a)) by (bit_vector)
            requires
                a + wa <= 8,
                1 <= wa,
        ;
    } else if key == 16 {
        assert(raw == word % 0x1_0000);
        assert((((word % 0x1_0000) & ((((1u64 << wa) - 1) as u64) << a)) >> a) == ((word & ((((1u64 << wa)
            - 1) as u64) << a)) >> a)) by (bit_vector)
            requires
                a + wa <= 16,
                1 <= wa,
        ;
    } else if key == 32 {
        assert(raw == word % 0x1_0000_0000);
        assert((((word % 0x1_0000_0000) & ((((1u64 << wa) - 1) as u64) << a)) >> a) == ((word & ((((1u64
            << wa) - 1) as u64) << a)) >> a)) by (bit_vector)
            requires
                a + wa <= 32,
                1 <= wa,
        ;
    } else {
        assert(word < 0x1_0000_0000_0000_0000);
        vstd::arithmetic::div_mod::lemma_small_mod(word as nat, pow256(8));
        assert(raw == word);
    }
}

/// The number that the encoder sets into the bits of field `f` for value
/// `v`: the number for `#[bits(..)]`, one or zero for `#[bit(..)]`.
spec fn bit_bits(f: FieldV, v: crate::ast::ValueV) -> u64 {
    match v {
        crate::ast::ValueV::Integer(n) => n as u64,
        crate::ast::ValueV::Bool(b) => if b {
            1u64
        } else {
            0u64
        },
        _ => 0u64,
    }
}

/// One step of building the group's word: the field's number set into its
/// range.
proof fn lemma_word_step(def: StructDefV, j: nat, c: u64)
    requires
        bit_send(def),
        bits_fit(def),
        j < def.fields.len(),
    ensures
        ({
            let f = def.fields[j as int];
            let fv = own_bindings(def.fields);
            let v = crate::encode::field_value(fv, f)->0;
            let (s, e) = bit_range(f);
            &&& group_word(def.fields, j, group_key(def), fv, c) == group_word(
                def.fields,
                j + 1,
                group_key(def),
                fv,
                spec_set_bits(c, bit_bits(f, v), s, e),
            )
            &&& bit_range_ok(s, e)
            &&& e < 64
            &&& e < group_key(def)
            &&& bit_bits(f, v) < pow2((e - s + 1) as nat)
        }),
{
    let f = def.fields[j as int];
    let fv = own_bindings(def.fields);
    let v = crate::encode::field_value(fv, f)->0;
    lemma_bit_key(def, j as int);
    assert(bit_range(f).1 < 64 && bit_value(f, v) is Some);
    vstd::arithmetic::power2::lemma2_to64();
    match bits_attr(f.attributes) {
        Some((s, e)) => {
            let n = v->Integer_0;
            assert(0 <= n < pow2((e - s + 1) as nat));
            vstd::bits::lemma_u64_pow2_no_overflow((e - s + 1) as nat);
            assert(n as u64 == n);
        },
        None => {},
    }
}

/// Building the group's word from field `j` on leaves the bits of a range
/// apart from those fields' ranges.
proof fn lemma_word_keeps(def: StructDefV, j: nat, c: u64, s: usize, e: usize)
    requires
        bit_send(def),
        bits_fit(def),
        j <= def.fields.len(),
        bit_range_ok(s, e),
        e < 64,
        forall|m: int| j <= m < def.fields.len() ==> e < (#[trigger] bit_range(def.fields[m])).0 || bit_range(def.fields[m]).1 < s,
    ensures
        group_word(def.fields, j, group_key(def), own_bindings(def.fields), c) is Some,
        spec_extract_bits(group_word(def.fields, j, group_key(def), own_bindings(def.fields), c)->0, s, e)
            == spec_extract_bits(c, s, e),
    decreases def.fields.len() - j,
{
    if j < def.fields.len() {
        let f = def.fields[j as int];
        let v = crate::encode::field_value(own_bindings(def.fields), f)->0;
        let (s2, e2) = bit_range(f);
        lemma_word_step(def, j, c);
        let c2 = spec_set_bits(c, bit_bits(f, v), s2, e2);
        assert(e < bit_range(def.fields[j as int]).0 || bit_range(def.fields[j as int]).1 < s);
        lemma_set_keeps(c, bit_bits(f, v), s, e, s2, e2);
        lemma_word_keeps(def, j + 1, c2, s, e);
    }
}

/// Building the group's word from field `j` on sets the bits of each of
/// those fields to its number.
proof fn lemma_word_member(def: StructDefV, j: nat, c: u64, m: int)
    requires
        bit_send(def),
        bits_fit(def),
        j <= m < def.fields.len(),
    ensures
        ({
            let f = def.fields[m];
            let fv = own_bindings(def.fields);
            spec_extract_bits(group_word(def.fields, j, group_key(def), fv, c)->0, bit_range(f).0, bit_range(f).1)
                == bit_bits(f, crate::encode::field_value(fv, f)->0)
        }),
    decreases def.fields.len() - j,
{
    let f = def.fields[j as int];
    let v = crate::encode::field_value(own_bindings(def.fields), f)->0;
    let (s, e) = bit_range(f);
    lemma_word_step(def, j, c);
    let c2 = spec_set_bits(c, bit_bits(f, v), s, e);
    if j < m {
        lemma_word_member(def, j + 1, c2, m);
    } else {
        assert forall|k: int| j + 1 <= k < def.fields.len() implies e < (#[trigger] bit_range(def.fields[k])).0
            || bit_range(def.fields[k]).1 < s by {
            assert(k != j);
        }
        lemma_word_keeps(def, j + 1, c2, s, e);
        lemma_set_reads(c, bit_bits(f, v), s, e);
    }
}

/// Each field of the group reads back, from the word that decoding reads,
/// the value it was written with.
proof fn lemma_values_written(def: StructDefV, j: nat)
    requires
        bit_send(def),
        bits_fit(def),
        j <= def.fields.len(),
    ensures
        group_values(def.fields, j, group_key(def), group_raw(def)) == bit_written(def.fields, own_bindings(def.fields), j),
    decreases def.fields.len() - j,
{
    if j < def.fields.len() {
        lemma_values_written(def, j + 1);
        let f = def.fields[j as int];
        let fv = own_bindings(def.fields);
        let v = crate::encode::field_value(fv, f)->0;
        let (s, e) = bit_range(f);
        lemma_bit_key(def, j as int);
        lemma_word_step(def, j, 0);
        lemma_group_word(def.fields, 0, group_key(def), fv, 0);
        lemma_word_member(def, 0, 0, j as int);
        lemma_raw_reads(group_word_of(def), group_key(def), s, e);
        let x = spec_extract_bits(group_raw(def), s, e);
        assert(x == bit_bits(f, v));
        assert(crate::receive::bit_field_value(f, group_raw(def)) == bit_value(f, v));
    }
}

} // verus!
