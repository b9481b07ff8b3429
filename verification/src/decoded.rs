//! Values produced by decoding, with their mathematical views.

use vstd::prelude::*;

verus! {

/// A decoded value. Floating-point values are given by their IEEE 754 bit patterns.
#[derive(Debug)]
pub enum DecodedValue {
    /// 8-bit unsigned integer.
    U8(u8),
    /// 16-bit unsigned integer.
    U16(u16),
    /// 32-bit unsigned integer.
    U32(u32),
    /// 64-bit unsigned integer.
    U64(u64),
    /// 128-bit unsigned integer.
    U128(u128),
    /// 8-bit signed integer.
    I8(i8),
    /// 16-bit signed integer.
    I16(i16),
    /// 32-bit signed integer.
    I32(i32),
    /// 64-bit signed integer.
    I64(i64),
    /// 128-bit signed integer.
    I128(i128),
    /// 32-bit float, as its IEEE 754 bits.
    F32(u32),
    /// 64-bit float, as its IEEE 754 bits.
    F64(u64),
    /// Boolean.
    Bool(bool),
    /// UTF-8 string.
    String(String),
    /// Byte array.
    Bytes(Vec<u8>),
    /// Array of values.
    Vec(Vec<DecodedValue>),
    /// Nested struct: name and fields.
    Struct(String, Vec<(String, DecodedValue)>),
}

/// The mathematical content of a [`DecodedValue`].
pub enum DecodedV {
    U8(u8),
    U16(u16),
    U32(u32),
    U64(u64),
    U128(u128),
    I8(i8),
    I16(i16),
    I32(i32),
    I64(i64),
    I128(i128),
    F32(u32),
    F64(u64),
    Bool(bool),
    Str(Seq<char>),
    Bytes(Seq<u8>),
    List(Seq<DecodedV>),
    Struct(Seq<char>, Seq<(Seq<char>, DecodedV)>),
}

/// The mathematical content of a decoded value.
pub open spec fn decoded_view(v: DecodedValue) -> DecodedV
    decreases v, 1nat,
{
    match v {
        DecodedValue::U8(x) => DecodedV::U8(x),
        DecodedValue::U16(x) => DecodedV::U16(x),
        DecodedValue::U32(x) => DecodedV::U32(x),
        DecodedValue::U64(x) => DecodedV::U64(x),
        DecodedValue::U128(x) => DecodedV::U128(x),
        DecodedValue::I8(x) => DecodedV::I8(x),
        DecodedValue::I16(x) => DecodedV::I16(x),
        DecodedValue::I32(x) => DecodedV::I32(x),
        DecodedValue::I64(x) => DecodedV::I64(x),
        DecodedValue::I128(x) => DecodedV::I128(x),
        DecodedValue::F32(x) => DecodedV::F32(x),
        DecodedValue::F64(x) => DecodedV::F64(x),
        DecodedValue::Bool(x) => DecodedV::Bool(x),
        DecodedValue::String(s) => DecodedV::Str(s@),
        DecodedValue::Bytes(b) => DecodedV::Bytes(b@),
        DecodedValue::Vec(items) => DecodedV::List(decoded_list_view(items@)),
        DecodedValue::Struct(name, fields) => DecodedV::Struct(
            name@,
            decoded_pairs_view(fields@),
        ),
    }
}

/// The views of a sequence of decoded values.
pub open spec fn decoded_list_view(items: Seq<DecodedValue>) -> Seq<DecodedV>
    decreases items, 0nat,
{
    if items.len() == 0 {
        Seq::empty()
    } else {
        seq![decoded_view(items[0])] + decoded_list_view(items.drop_first())
    }
}

/// The views of a sequence of named decoded values.
pub open spec fn decoded_pairs_view(items: Seq<(String, DecodedValue)>) -> Seq<
    (Seq<char>, DecodedV),
>
    decreases items, 0nat,
{
    if items.len() == 0 {
        Seq::empty()
    } else {
        seq![(items[0].0@, decoded_view(items[0].1))] + decoded_pairs_view(items.drop_first())
    }
}

impl View for DecodedValue {
    type V = DecodedV;

    open spec fn view(&self) -> DecodedV {
        decoded_view(*self)
    }
}

/// The view of a sequence of decoded values has one view per value, in order.
pub proof fn lemma_decoded_list_view(s: Seq<DecodedValue>)
    ensures
        decoded_list_view(s).len() == s.len(),
        forall|i: int| 0 <= i < s.len() ==> #[trigger] decoded_list_view(s)[i] == s[i]@,
    decreases s.len(),
{
    if s.len() > 0 {
        lemma_decoded_list_view(s.drop_first());
        assert forall|i: int| 0 <= i < s.len() implies #[trigger] decoded_list_view(s)[i]
            == s[i]@ by {
            if i > 0 {
                assert(s.drop_first()[i - 1] == s[i]);
            }
        }
    }
}

/// The view of a sequence of named decoded values has one entry per pair, in order.
pub proof fn lemma_decoded_pairs_view(s: Seq<(String, DecodedValue)>)
    ensures
        decoded_pairs_view(s).len() == s.len(),
        forall|i: int|
            0 <= i < s.len() ==> #[trigger] decoded_pairs_view(s)[i] == (s[i].0@, s[i].1@),
    decreases s.len(),
{
    if s.len() > 0 {
        lemma_decoded_pairs_view(s.drop_first());
        assert forall|i: int| 0 <= i < s.len() implies #[trigger] decoded_pairs_view(s)[i] == (
        s[i].0@, s[i].1@) by {
            if i > 0 {
                assert(s.drop_first()[i - 1] == s[i]);
            }
        }
    }
}

/// Pushing one value extends the view by its view.
pub proof fn lemma_decoded_list_push(s: Seq<DecodedValue>, v: DecodedValue)
    ensures
        decoded_list_view(s.push(v)) == decoded_list_view(s).push(v@),
{
    lemma_decoded_list_view(s);
    lemma_decoded_list_view(s.push(v));
    assert(decoded_list_view(s.push(v)) =~= decoded_list_view(s).push(v@));
}

/// Pushing one pair extends the view by its view.
pub proof fn lemma_decoded_pairs_push(s: Seq<(String, DecodedValue)>, p: (String, DecodedValue))
    ensures
        decoded_pairs_view(s.push(p)) == decoded_pairs_view(s).push((p.0@, p.1@)),
{
    lemma_decoded_pairs_view(s);
    lemma_decoded_pairs_view(s.push(p));
    assert(decoded_pairs_view(s.push(p)) =~= decoded_pairs_view(s).push((p.0@, p.1@)));
}

fn clone_list(items: &Vec<DecodedValue>) -> (r: Vec<DecodedValue>)
    ensures
        decoded_list_view(r@) == decoded_list_view(items@),
    decreases items, 0nat,
{
    let mut r: Vec<DecodedValue> = Vec::new();
    let mut i: usize = 0;
    while i < items.len()
        invariant
            i <= items@.len(),
            decoded_list_view(r@) == decoded_list_view(items@.take(i as int)),
        decreases items@.len() - i,
    {
        proof {
            assert(decreases_to!(items => items@[i as int]));
        }
        let c = items[i].clone_value();
        proof {
            lemma_decoded_list_push(r@, c);
            lemma_decoded_list_push(items@.take(i as int), items@[i as int]);
            assert(items@.take(i + 1) == items@.take(i as int).push(items@[i as int]));
        }
        r.push(c);
        i = i + 1;
    }
    proof {
        assert(items@.take(i as int) == items@);
    }
    r
}

fn clone_pairs(items: &Vec<(String, DecodedValue)>) -> (r: Vec<(String, DecodedValue)>)
    ensures
        decoded_pairs_view(r@) == decoded_pairs_view(items@),
    decreases items, 0nat,
{
    let mut r: Vec<(String, DecodedValue)> = Vec::new();
    let mut i: usize = 0;
    while i < items.len()
        invariant
            i <= items@.len(),
            decoded_pairs_view(r@) == decoded_pairs_view(items@.take(i as int)),
        decreases items@.len() - i,
    {
        proof {
            assert(decreases_to!(items => items@[i as int]));
            assert(decreases_to!(items@[i as int] => items@[i as int].1));
        }
        let c = items[i].1.clone_value();
        let name = items[i].0.clone();
        proof {
            lemma_decoded_pairs_push(r@, (name, c));
            lemma_decoded_pairs_push(items@.take(i as int), items@[i as int]);
            assert(items@.take(i + 1) == items@.take(i as int).push(items@[i as int]));
        }
        r.push((name, c));
        i = i + 1;
    }
    proof {
        assert(items@.take(i as int) == items@);
    }
    r
}

impl DecodedValue {
    /// A copy of the value with the same view.
    pub fn clone_value(&self) -> (r: DecodedValue)
        ensures
            r@ == self@,
        decreases self, 1nat,
    {
        match self {
            DecodedValue::U8(x) => DecodedValue::U8(*x),
            DecodedValue::U16(x) => DecodedValue::U16(*x),
            DecodedValue::U32(x) => DecodedValue::U32(*x),
            DecodedValue::U64(x) => DecodedValue::U64(*x),
            DecodedValue::U128(x) => DecodedValue::U128(*x),
            DecodedValue::I8(x) => DecodedValue::I8(*x),
            DecodedValue::I16(x) => DecodedValue::I16(*x),
            DecodedValue::I32(x) => DecodedValue::I32(*x),
            DecodedValue::I64(x) => DecodedValue::I64(*x),
            DecodedValue::I128(x) => DecodedValue::I128(*x),
            DecodedValue::F32(x) => DecodedValue::F32(*x),
            DecodedValue::F64(x) => DecodedValue::F64(*x),
            DecodedValue::Bool(x) => DecodedValue::Bool(*x),
            DecodedValue::String(s) => DecodedValue::String(s.clone()),
            DecodedValue::Bytes(b) => {
                let c = b.clone();
                proof {
                    assert(c@ =~= b@);
                }
                DecodedValue::Bytes(c)
            },
            DecodedValue::Vec(items) => DecodedValue::Vec(clone_list(items)),
            DecodedValue::Struct(name, fields) => DecodedValue::Struct(
                name.clone(),
                clone_pairs(fields),
            ),
        }
    }
}

impl Clone for DecodedValue {
    fn clone(&self) -> (r: Self)
        ensures
            r@ == self@,
    {
        self.clone_value()
    }
}

/// A decoded struct: its name and its fields in decoding order.
#[derive(Debug, Clone)]
pub struct DecodedStruct {
    /// Struct name.
    pub name: String,
    /// Fields as (name, value) pairs.
    pub fields: Vec<(String, DecodedValue)>,
}

/// The mathematical content of a [`DecodedStruct`].
pub struct DecodedStructV {
    pub name: Seq<char>,
    pub fields: Seq<(Seq<char>, DecodedV)>,
}

impl View for DecodedStruct {
    type V = DecodedStructV;

    open spec fn view(&self) -> DecodedStructV {
        DecodedStructV { name: self.name@, fields: decoded_pairs_view(self.fields@) }
    }
}

fn eq_lists(a: &Vec<DecodedValue>, b: &Vec<DecodedValue>) -> (r: bool)
    ensures
        r == (decoded_list_view(a@) == decoded_list_view(b@)),
    decreases a, 0nat,
{
    proof {
        lemma_decoded_list_view(a@);
        lemma_decoded_list_view(b@);
    }
    if a.len() != b.len() {
        return false;
    }
    let mut i: usize = 0;
    while i < a.len()
        invariant
            i <= a@.len(),
            a@.len() == b@.len(),
            decoded_list_view(a@).len() == a@.len(),
            decoded_list_view(b@).len() == b@.len(),
            forall|j: int| 0 <= j < a@.len() ==> #[trigger] decoded_list_view(a@)[j] == a@[j]@,
            forall|j: int| 0 <= j < b@.len() ==> #[trigger] decoded_list_view(b@)[j] == b@[j]@,
            forall|j: int| 0 <= j < i ==> a@[j]@ == b@[j]@,
        decreases a@.len() - i,
    {
        proof {
            assert(decreases_to!(a => a@[i as int]));
        }
        if !a[i].eq_value(&b[i]) {
            proof {
                assert(decoded_list_view(a@)[i as int] != decoded_list_view(b@)[i as int]);
            }
            return false;
        }
        i = i + 1;
    }
    proof {
        assert(decoded_list_view(a@) =~= decoded_list_view(b@));
    }
    true
}

fn eq_pairs(a: &Vec<(String, DecodedValue)>, b: &Vec<(String, DecodedValue)>) -> (r: bool)
    ensures
        r == (decoded_pairs_view(a@) == decoded_pairs_view(b@)),
    decreases a, 0nat,
{
    proof {
        lemma_decoded_pairs_view(a@);
        lemma_decoded_pairs_view(b@);
    }
    if a.len() != b.len() {
        return false;
    }
    let mut i: usize = 0;
    while i < a.len()
        invariant
            i <= a@.len(),
            a@.len() == b@.len(),
            decoded_pairs_view(a@).len() == a@.len(),
            decoded_pairs_view(b@).len() == b@.len(),
            forall|j: int|
                0 <= j < a@.len() ==> #[trigger] decoded_pairs_view(a@)[j] == (a@[j].0@, a@[j].1@),
            forall|j: int|
                0 <= j < b@.len() ==> #[trigger] decoded_pairs_view(b@)[j] == (b@[j].0@, b@[j].1@),
            forall|j: int| 0 <= j < i ==> a@[j].0@ == b@[j].0@ && a@[j].1@ == b@[j].1@,
        decreases a@.len() - i,
    {
        proof {
            assert(decreases_to!(a => a@[i as int]));
            assert(decreases_to!(a@[i as int] => a@[i as int].1));
        }
        if !(a[i].0 == b[i].0) || !a[i].1.eq_value(&b[i].1) {
            proof {
                assert(decoded_pairs_view(a@)[i as int] != decoded_pairs_view(b@)[i as int]);
            }
            return false;
        }
        i = i + 1;
    }
    proof {
        assert(decoded_pairs_view(a@) =~= decoded_pairs_view(b@));
    }
    true
}

impl DecodedValue {
    /// Whether two decoded values have the same view.
    pub fn eq_value(&self, other: &DecodedValue) -> (r: bool)
        ensures
            r == (self@ == other@),
        decreases self, 1nat,
    {
        match (self, other) {
            (DecodedValue::U8(a), DecodedValue::U8(b)) => *a == *b,
            (DecodedValue::U16(a), DecodedValue::U16(b)) => *a == *b,
            (DecodedValue::U32(a), DecodedValue::U32(b)) => *a == *b,
            (DecodedValue::U64(a), DecodedValue::U64(b)) => *a == *b,
            (DecodedValue::U128(a), DecodedValue::U128(b)) => *a == *b,
            (DecodedValue::I8(a), DecodedValue::I8(b)) => *a == *b,
            (DecodedValue::I16(a), DecodedValue::I16(b)) => *a == *b,
            (DecodedValue::I32(a), DecodedValue::I32(b)) => *a == *b,
            (DecodedValue::I64(a), DecodedValue::I64(b)) => *a == *b,
            (DecodedValue::I128(a), DecodedValue::I128(b)) => *a == *b,
            (DecodedValue::F32(a), DecodedValue::F32(b)) => *a == *b,
            (DecodedValue::F64(a), DecodedValue::F64(b)) => *a == *b,
            (DecodedValue::Bool(a), DecodedValue::Bool(b)) => *a == *b,
            (DecodedValue::String(a), DecodedValue::String(b)) => *a == *b,
            (DecodedValue::Bytes(a), DecodedValue::Bytes(b)) => eq_bytes(a, b),
            (DecodedValue::Vec(a), DecodedValue::Vec(b)) => eq_lists(a, b),
            (DecodedValue::Struct(n, a), DecodedValue::Struct(m, b)) => *n == *m && eq_pairs(a, b),
            _ => false,
        }
    }
}

/// Whether two byte vectors hold the same bytes.
pub fn eq_bytes(a: &Vec<u8>, b: &Vec<u8>) -> (r: bool)
    ensures
        r == (a@ == b@),
{
    if a.len() != b.len() {
        return false;
    }
    let mut i: usize = 0;
    while i < a.len()
        invariant
            i <= a@.len(),
            a@.len() == b@.len(),
            forall|j: int| 0 <= j < i ==> a@[j] == b@[j],
        decreases a@.len() - i,
    {
        if a[i] != b[i] {
            return false;
        }
        i = i + 1;
    }
    proof {
        assert(a@ =~= b@);
    }
    true
}

impl PartialEq for DecodedValue {
    fn eq(&self, other: &Self) -> (r: bool) {
        self.eq_value(other)
    }
}

impl vstd::std_specs::cmp::PartialEqSpecImpl for DecodedValue {
    open spec fn obeys_eq_spec() -> bool {
        true
    }

    open spec fn eq_spec(&self, other: &DecodedValue) -> bool {
        self@ == other@
    }
}

impl PartialEq for DecodedStruct {
    fn eq(&self, other: &Self) -> (r: bool) {
        self.name == other.name && eq_pairs(&self.fields, &other.fields)
    }
}

impl vstd::std_specs::cmp::PartialEqSpecImpl for DecodedStruct {
    open spec fn obeys_eq_spec() -> bool {
        true
    }

    open spec fn eq_spec(&self, other: &DecodedStruct) -> bool {
        self@ == other@
    }
}

} // verus!
