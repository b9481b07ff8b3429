//! Queries on the attribute list of a field.

use vstd::prelude::*;
use crate::ast::{ChecksumAlgorithm, Endianness, FieldAttribute, FieldAttributeV};

verus! {

/// The first `#[auto]` attribute's target, if there is an `#[auto]` attribute.
pub open spec fn auto_attr(attrs: Seq<FieldAttributeV>) -> Option<Option<Seq<char>>>
    decreases attrs.len(),
{
    if attrs.len() == 0 {
        None
    } else {
        match attrs[0] {
            FieldAttributeV::Auto(t) => Some(t),
            _ => auto_attr(attrs.drop_first()),
        }
    }
}

/// The field carries `#[auto]` or `#[auto(..)]`.
pub open spec fn has_auto(attrs: Seq<FieldAttributeV>) -> bool {
    auto_attr(attrs) is Some
}

/// The field carries `#[remaining]`.
pub open spec fn has_remaining(attrs: Seq<FieldAttributeV>) -> bool
    decreases attrs.len(),
{
    if attrs.len() == 0 {
        false
    } else {
        attrs[0] is Remaining || has_remaining(attrs.drop_first())
    }
}

/// The field named by the first `#[len_ref(..)]`.
pub open spec fn len_ref_attr(attrs: Seq<FieldAttributeV>) -> Option<Seq<char>>
    decreases attrs.len(),
{
    if attrs.len() == 0 {
        None
    } else {
        match attrs[0] {
            FieldAttributeV::LenRef(t) => Some(t),
            _ => len_ref_attr(attrs.drop_first()),
        }
    }
}

/// The algorithm of the first `#[checksum(..)]`.
pub open spec fn checksum_attr(attrs: Seq<FieldAttributeV>) -> Option<ChecksumAlgorithm>
    decreases attrs.len(),
{
    if attrs.len() == 0 {
        None
    } else {
        match attrs[0] {
            FieldAttributeV::Checksum(a) => Some(a),
            _ => checksum_attr(attrs.drop_first()),
        }
    }
}

/// The range of the first `#[bits(start, end)]`.
pub open spec fn bits_attr(attrs: Seq<FieldAttributeV>) -> Option<(usize, usize)>
    decreases attrs.len(),
{
    if attrs.len() == 0 {
        None
    } else {
        match attrs[0] {
            FieldAttributeV::Bits(s, e) => Some((s, e)),
            _ => bits_attr(attrs.drop_first()),
        }
    }
}

/// The position of the first `#[bit(pos)]`.
pub open spec fn bit_attr(attrs: Seq<FieldAttributeV>) -> Option<usize>
    decreases attrs.len(),
{
    if attrs.len() == 0 {
        None
    } else {
        match attrs[0] {
            FieldAttributeV::Bit(p) => Some(p),
            _ => bit_attr(attrs.drop_first()),
        }
    }
}

/// The condition field of the first `#[if(..)]`.
pub open spec fn if_attr(attrs: Seq<FieldAttributeV>) -> Option<Seq<char>>
    decreases attrs.len(),
{
    if attrs.len() == 0 {
        None
    } else {
        match attrs[0] {
            FieldAttributeV::If(t) => Some(t),
            _ => if_attr(attrs.drop_first()),
        }
    }
}

/// The byte order of the first `#[endian(..)]`, or `default` when there is none.
pub open spec fn field_endian(attrs: Seq<FieldAttributeV>, default: Endianness) -> Endianness
    decreases attrs.len(),
{
    if attrs.len() == 0 {
        default
    } else {
        match attrs[0] {
            FieldAttributeV::Endian(e) => e,
            _ => field_endian(attrs.drop_first(), default),
        }
    }
}

/// The views of a list of attributes.
pub open spec fn attrs_view(attrs: Seq<FieldAttribute>) -> Seq<FieldAttributeV> {
    attrs.map_values(|a: FieldAttribute| a@)
}

proof fn lemma_attrs_skip(attrs: Seq<FieldAttribute>, i: int)
    requires
        0 <= i < attrs.len(),
    ensures
        attrs_view(attrs).skip(i)[0] == attrs[i]@,
        attrs_view(attrs).skip(i).drop_first() == attrs_view(attrs).skip(i + 1),
{
    assert(attrs_view(attrs).skip(i).drop_first() =~= attrs_view(attrs).skip(i + 1));
}

proof fn lemma_attrs_skip0(attrs: Seq<FieldAttribute>)
    ensures
        attrs_view(attrs).skip(0) == attrs_view(attrs),
        attrs_view(attrs).skip(attrs.len() as int).len() == 0,
{
    assert(attrs_view(attrs).skip(0) =~= attrs_view(attrs));
}

/// The first `#[auto]` attribute's target, if there is an `#[auto]` attribute.
pub fn get_auto_attribute(attrs: &Vec<FieldAttribute>) -> (r: Option<Option<&String>>)
    ensures
        match auto_attr(attrs_view(attrs@)) {
            Some(Some(t)) => r matches Some(Some(s)) && s@ == t,
            Some(None) => r == Some(None::<&String>),
            None => r is None,
        },
{
    let mut i: usize = 0;
    proof {
        lemma_attrs_skip0(attrs@);
    }
    while i < attrs.len()
        invariant
            i <= attrs@.len(),
            auto_attr(attrs_view(attrs@)) == auto_attr(attrs_view(attrs@).skip(i as int)),
        decreases attrs@.len() - i,
    {
        proof {
            lemma_attrs_skip(attrs@, i as int);
        }
        match &attrs[i] {
            FieldAttribute::Auto(Some(t)) => {
                return Some(Some(t));
            },
            FieldAttribute::Auto(None) => {
                return Some(None);
            },
            _ => {},
        }
        i = i + 1;
    }
    None
}

/// Whether the field carries `#[auto]` or `#[auto(..)]`.
pub fn has_auto_attribute(attrs: &Vec<FieldAttribute>) -> (r: bool)
    ensures
        r == has_auto(attrs_view(attrs@)),
{
    get_auto_attribute(attrs).is_some()
}

/// Whether the field carries `#[remaining]`.
pub fn has_remaining_attribute(attrs: &Vec<FieldAttribute>) -> (r: bool)
    ensures
        r == has_remaining(attrs_view(attrs@)),
{
    let mut i: usize = 0;
    proof {
        lemma_attrs_skip0(attrs@);
    }
    while i < attrs.len()
        invariant
            i <= attrs@.len(),
            has_remaining(attrs_view(attrs@)) == has_remaining(attrs_view(attrs@).skip(i as int)),
        decreases attrs@.len() - i,
    {
        proof {
            lemma_attrs_skip(attrs@, i as int);
        }
        match &attrs[i] {
            FieldAttribute::Remaining => {
                return true;
            },
            _ => {},
        }
        i = i + 1;
    }
    false
}

/// The field named by the first `#[len_ref(..)]`.
pub fn get_len_ref_attribute(attrs: &Vec<FieldAttribute>) -> (r: Option<&String>)
    ensures
        match len_ref_attr(attrs_view(attrs@)) {
            Some(t) => r matches Some(s) && s@ == t,
            None => r is None,
        },
{
    let mut i: usize = 0;
    proof {
        lemma_attrs_skip0(attrs@);
    }
    while i < attrs.len()
        invariant
            i <= attrs@.len(),
            len_ref_attr(attrs_view(attrs@)) == len_ref_attr(attrs_view(attrs@).skip(i as int)),
        decreases attrs@.len() - i,
    {
        proof {
            lemma_attrs_skip(attrs@, i as int);
        }
        match &attrs[i] {
            FieldAttribute::LenRef(t) => {
                return Some(t);
            },
            _ => {},
        }
        i = i + 1;
    }
    None
}

/// The algorithm of the first `#[checksum(..)]`.
pub fn get_checksum_attribute(attrs: &Vec<FieldAttribute>) -> (r: Option<ChecksumAlgorithm>)
    ensures
        r == checksum_attr(attrs_view(attrs@)),
{
    let mut i: usize = 0;
    proof {
        lemma_attrs_skip0(attrs@);
    }
    while i < attrs.len()
        invariant
            i <= attrs@.len(),
            checksum_attr(attrs_view(attrs@)) == checksum_attr(attrs_view(attrs@).skip(i as int)),
        decreases attrs@.len() - i,
    {
        proof {
            lemma_attrs_skip(attrs@, i as int);
        }
        match &attrs[i] {
            FieldAttribute::Checksum(a) => {
                return Some(*a);
            },
            _ => {},
        }
        i = i + 1;
    }
    None
}

/// The range of the first `#[bits(start, end)]`.
pub fn get_bits_attribute(attrs: &Vec<FieldAttribute>) -> (r: Option<(usize, usize)>)
    ensures
        r == bits_attr(attrs_view(attrs@)),
{
    let mut i: usize = 0;
    proof {
        lemma_attrs_skip0(attrs@);
    }
    while i < attrs.len()
        invariant
            i <= attrs@.len(),
            bits_attr(attrs_view(attrs@)) == bits_attr(attrs_view(attrs@).skip(i as int)),
        decreases attrs@.len() - i,
    {
        proof {
            lemma_attrs_skip(attrs@, i as int);
        }
        match &attrs[i] {
            FieldAttribute::Bits(s, e) => {
                return Some((*s, *e));
            },
            _ => {},
        }
        i = i + 1;
    }
    None
}

/// The position of the first `#[bit(pos)]`.
pub fn get_bit_attribute(attrs: &Vec<FieldAttribute>) -> (r: Option<usize>)
    ensures
        r == bit_attr(attrs_view(attrs@)),
{
    let mut i: usize = 0;
    proof {
        lemma_attrs_skip0(attrs@);
    }
    while i < attrs.len()
        invariant
            i <= attrs@.len(),
            bit_attr(attrs_view(attrs@)) == bit_attr(attrs_view(attrs@).skip(i as int)),
        decreases attrs@.len() - i,
    {
        proof {
            lemma_attrs_skip(attrs@, i as int);
        }
        match &attrs[i] {
            FieldAttribute::Bit(p) => {
                return Some(*p);
            },
            _ => {},
        }
        i = i + 1;
    }
    None
}

/// The condition field of the first `#[if(..)]`.
pub fn get_if_attribute(attrs: &Vec<FieldAttribute>) -> (r: Option<&String>)
    ensures
        match if_attr(attrs_view(attrs@)) {
            Some(t) => r matches Some(s) && s@ == t,
            None => r is None,
        },
{
    let mut i: usize = 0;
    proof {
        lemma_attrs_skip0(attrs@);
    }
    while i < attrs.len()
        invariant
            i <= attrs@.len(),
            if_attr(attrs_view(attrs@)) == if_attr(attrs_view(attrs@).skip(i as int)),
        decreases attrs@.len() - i,
    {
        proof {
            lemma_attrs_skip(attrs@, i as int);
        }
        match &attrs[i] {
            FieldAttribute::If(t) => {
                return Some(t);
            },
            _ => {},
        }
        i = i + 1;
    }
    None
}

/// The byte order of the first `#[endian(..)]`, or `default`.
pub fn get_field_endian(attrs: &Vec<FieldAttribute>, default: Endianness) -> (r: Endianness)
    ensures
        r == field_endian(attrs_view(attrs@), default),
{
    let mut i: usize = 0;
    proof {
        lemma_attrs_skip0(attrs@);
    }
    while i < attrs.len()
        invariant
            i <= attrs@.len(),
            field_endian(attrs_view(attrs@), default) == field_endian(
                attrs_view(attrs@).skip(i as int),
                default,
            ),
        decreases attrs@.len() - i,
    {
        proof {
            lemma_attrs_skip(attrs@, i as int);
        }
        match &attrs[i] {
            FieldAttribute::Endian(e) => {
                return *e;
            },
            _ => {},
        }
        i = i + 1;
    }
    default
}

} // verus!
