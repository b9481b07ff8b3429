//! The grammar of schema files, read from tokens by recursive descent.
//!
//! ```text
//! schema     := file_attr* import* struct* END
//! file_attr  := '#' '!' '[' ( version "(" STRING ")" | endian "(" big|little ")"
//!               | import_path "(" STRING ")" | doc "(" STRING ")" | prefix "(" disable ")" ) ']'
//! import     := DOC* 'import' '(' STRING ')'
//! struct     := DOC* struct_attr* 'struct' IDENT '{' field* '}'
//! struct_attr:= '#' '[' ( send | receive | endian '(' big|little ')' ) ']'
//! field      := DOC* field_attr* IDENT ':' type ( '=' value )? ','?
//! type       := primitive | IDENT | 'Vec' '<' type '>' | '[' type ';' INTEGER ']'
//! value      := INTEGER | FLOAT | 'true' | 'false' | STRING | HEX
//!             | '[' ( value ( ',' value )* ','? )? ']'
//!             | IDENT '{' ( IDENT ':' value ( ',' IDENT ':' value )* ','? )? '}'
//! ```

use vstd::prelude::*;
use crate::ast::{
    empty_schema, lemma_named_values_view, lemma_values_view, named_values_view, str_eq,
    values_view, ChecksumAlgorithm, Direction, Endianness, FieldAttributeV, FieldV, FileAttributeV,
    FloatValue, FloatValueV, ImportV, SchemaV, StructDefV, Type, TypeV, Value, ValueV, Field,
    FieldAttribute, StructAttribute, StructDef, fields_view, FileAttribute, Import, Schema,
    structs_view,
};
use crate::lexer::{Token, TokenV};
use crate::error::opt_str_view;
use crate::attrs::attrs_view;
use crate::text::{chars_to_string, push_string};

verus! {

/// Why a token sequence is not a schema: a token that does not fit the
/// grammar (its index and what was expected there), a rule broken at the
/// struct starting at a token, or a `#[checksum(..)]` naming no known
/// algorithm.
pub enum ParseErrorV {
    Syntax(nat, Seq<char>),
    Custom(nat, Seq<char>),
    UnknownChecksum,
}

/// The outcome of reading a part of the grammar: the part and the index after it.
pub type Parsed<T> = Result<(T, nat), ParseErrorV>;

/// Token `p` is the unit token `t`.
pub open spec fn is_at(ts: Seq<TokenV>, p: nat, t: TokenV) -> bool {
    p < ts.len() && ts[p as int] == t
}

/// The identifier at `p`, if token `p` is one.
pub open spec fn ident_at(ts: Seq<TokenV>, p: nat) -> Option<Seq<char>> {
    if p < ts.len() {
        match ts[p as int] {
            TokenV::Ident(s) => Some(s),
            _ => None,
        }
    } else {
        None
    }
}

/// Token `p` is the identifier `w`.
pub open spec fn is_word(ts: Seq<TokenV>, p: nat, w: Seq<char>) -> bool {
    ident_at(ts, p) == Some(w)
}

/// The primitive type a token names.
pub open spec fn primitive_type(t: TokenV) -> Option<TypeV> {
    match t {
        TokenV::U8 => Some(TypeV::U8),
        TokenV::U16 => Some(TypeV::U16),
        TokenV::U32 => Some(TypeV::U32),
        TokenV::U64 => Some(TypeV::U64),
        TokenV::U128 => Some(TypeV::U128),
        TokenV::I8 => Some(TypeV::I8),
        TokenV::I16 => Some(TypeV::I16),
        TokenV::I32 => Some(TypeV::I32),
        TokenV::I64 => Some(TypeV::I64),
        TokenV::I128 => Some(TypeV::I128),
        TokenV::F32 => Some(TypeV::F32),
        TokenV::F64 => Some(TypeV::F64),
        TokenV::Bool => Some(TypeV::Bool),
        TokenV::Str => Some(TypeV::Str),
        TokenV::Bytes => Some(TypeV::Bytes),
        _ => None,
    }
}

/// The integer of token `p`, if it is an integer that fits `i128`.
pub open spec fn integer_at(ts: Seq<TokenV>, p: nat) -> Option<i128> {
    if p < ts.len() {
        match ts[p as int] {
            TokenV::Integer(Some(n)) => Some(n),
            _ => None,
        }
    } else {
        None
    }
}

/// Reads a type at `p`.
pub open spec fn parse_type(ts: Seq<TokenV>, p: nat) -> Parsed<TypeV>
    decreases ts.len() - p,
{
    if p >= ts.len() {
        Err(ParseErrorV::Syntax(p, "a type"@))
    } else {
        let t = ts[p as int];
        match primitive_type(t) {
            Some(ty) => Ok((ty, p + 1)),
            None => match t {
                TokenV::Ident(name) => Ok((TypeV::Custom(name), p + 1)),
                TokenV::Vec => if !is_at(ts, p + 1, TokenV::LessThan) {
                    Err(ParseErrorV::Syntax(p + 1, "`LessThan`"@))
                } else {
                    match parse_type(ts, p + 2) {
                        Ok((inner, q)) => if is_at(ts, q, TokenV::GreaterThan) {
                            Ok((TypeV::Vec(Box::new(inner)), q + 1))
                        } else {
                            Err(ParseErrorV::Syntax(q, "`GreaterThan`"@))
                        },
                        Err(e) => Err(e),
                    }
                },
                TokenV::BracketOpen => match parse_type(ts, p + 1) {
                    Ok((inner, q)) => if !is_at(ts, q, TokenV::Semicolon) {
                        Err(ParseErrorV::Syntax(q, "`Semicolon`"@))
                    } else {
                        match integer_at(ts, q + 1) {
                            None => Err(ParseErrorV::Syntax(q + 1, "an integer"@)),
                            Some(n) => if is_at(ts, q + 2, TokenV::BracketClose) {
                                Ok((TypeV::Array(Box::new(inner), n as usize), q + 3))
                            } else {
                                Err(ParseErrorV::Syntax(q + 2, "`BracketClose`"@))
                            },
                        }
                    },
                    Err(e) => Err(e),
                },
                _ => Err(ParseErrorV::Syntax(p, "a type"@)),
            },
        }
    }
}

/// Reads a value at `p`.
pub open spec fn parse_value(ts: Seq<TokenV>, p: nat) -> Parsed<ValueV>
    decreases ts.len() - p, 0nat,
{
    if p >= ts.len() {
        Err(ParseErrorV::Syntax(p, "a value"@))
    } else {
        match ts[p as int] {
            TokenV::Integer(Some(n)) => Ok((ValueV::Integer(n), p + 1)),
            TokenV::Float(lit) => Ok(
                (ValueV::Float(FloatValueV { literal: lit, bits: None }), p + 1),
            ),
            TokenV::True => Ok((ValueV::Bool(true), p + 1)),
            TokenV::False => Ok((ValueV::Bool(false), p + 1)),
            TokenV::StringLiteral(s) => Ok((ValueV::Str(s), p + 1)),
            TokenV::HexNumber(Some(n)) => Ok((ValueV::Integer(n as i128), p + 1)),
            TokenV::BracketOpen => parse_list(ts, p + 1, Seq::empty()),
            TokenV::Ident(name) => if is_at(ts, p + 1, TokenV::BraceOpen) {
                parse_inits(ts, p + 2, name, Seq::empty())
            } else {
                Err(ParseErrorV::Syntax(p + 1, "`BraceOpen`"@))
            },
            _ => Err(ParseErrorV::Syntax(p, "a value"@)),
        }
    }
}

/// Reads the rest of a list value after `acc`, up to its `]`.
pub open spec fn parse_list(ts: Seq<TokenV>, p: nat, acc: Seq<ValueV>) -> Parsed<ValueV>
    decreases ts.len() - p, 1nat,
{
    if is_at(ts, p, TokenV::BracketClose) {
        Ok((ValueV::Array(acc), p + 1))
    } else {
        match parse_value(ts, p) {
            Ok((v, q)) => if q < p {
                Err(ParseErrorV::Syntax(p, "a value"@))
            } else if is_at(ts, q, TokenV::Comma) {
                parse_list(ts, q + 1, acc.push(v))
            } else if is_at(ts, q, TokenV::BracketClose) {
                Ok((ValueV::Array(acc.push(v)), q + 1))
            } else {
                Err(ParseErrorV::Syntax(q, "`Comma` or `BracketClose`"@))
            },
            Err(e) => Err(e),
        }
    }
}

/// Reads the rest of the field values of a struct value after `acc`, up to its `}`.
pub open spec fn parse_inits(
    ts: Seq<TokenV>,
    p: nat,
    name: Seq<char>,
    acc: Seq<(Seq<char>, ValueV)>,
) -> Parsed<ValueV>
    decreases ts.len() - p, 1nat,
{
    if is_at(ts, p, TokenV::BraceClose) {
        Ok((ValueV::Struct(name, acc), p + 1))
    } else {
        match ident_at(ts, p) {
            None => Err(ParseErrorV::Syntax(p, "an identifier"@)),
            Some(f) => if !is_at(ts, p + 1, TokenV::Colon) {
                Err(ParseErrorV::Syntax(p + 1, "`Colon`"@))
            } else {
                match parse_value(ts, p + 2) {
                    Ok((v, q)) => if q < p {
                        Err(ParseErrorV::Syntax(p, "a value"@))
                    } else if is_at(ts, q, TokenV::Comma) {
                        parse_inits(ts, q + 1, name, acc.push((f, v)))
                    } else if is_at(ts, q, TokenV::BraceClose) {
                        Ok((ValueV::Struct(name, acc.push((f, v))), q + 1))
                    } else {
                        Err(ParseErrorV::Syntax(q, "`Comma` or `BraceClose`"@))
                    },
                    Err(e) => Err(e),
                }
            },
        }
    }
}

/// The documentation comments from `p` on, and the index after them.
pub open spec fn parse_docs(ts: Seq<TokenV>, p: nat, acc: Seq<Seq<char>>) -> (Seq<Seq<char>>, nat)
    decreases ts.len() - p,
{
    if p < ts.len() && ts[p as int] is DocComment {
        parse_docs(ts, p + 1, acc.push(ts[p as int]->DocComment_0))
    } else {
        (acc, p)
    }
}

/// Lines joined with line feeds.
pub open spec fn join_lines(lines: Seq<Seq<char>>) -> Seq<char>
    decreases lines.len(),
{
    if lines.len() == 0 {
        Seq::empty()
    } else if lines.len() == 1 {
        lines[0]
    } else {
        join_lines(lines.drop_last()) + "\n"@ + lines.last()
    }
}

/// The documentation a list of comment lines gives: none, or the lines joined.
pub open spec fn doc_of(lines: Seq<Seq<char>>) -> Option<Seq<char>> {
    if lines.len() == 0 {
        None
    } else {
        Some(join_lines(lines))
    }
}

/// The byte order `big` or `little` at `p`.
pub open spec fn endian_at(ts: Seq<TokenV>, p: nat) -> Option<Endianness> {
    if is_word(ts, p, "big"@) {
        Some(Endianness::Big)
    } else if is_word(ts, p, "little"@) {
        Some(Endianness::Little)
    } else {
        None
    }
}

/// The checksum algorithm a name denotes.
pub open spec fn checksum_named(name: Seq<char>) -> Option<ChecksumAlgorithm> {
    if name == "crc8"@ {
        Some(ChecksumAlgorithm::Crc8)
    } else if name == "crc16"@ {
        Some(ChecksumAlgorithm::Crc16)
    } else if name == "crc32"@ {
        Some(ChecksumAlgorithm::Crc32)
    } else if name == "xor"@ {
        Some(ChecksumAlgorithm::Xor)
    } else if name == "sum"@ {
        Some(ChecksumAlgorithm::Sum)
    } else {
        None
    }
}

/// Reads `( IDENT )` at `p`: the identifier and the index after `)`.
pub open spec fn paren_ident(ts: Seq<TokenV>, p: nat) -> Parsed<Seq<char>> {
    if !is_at(ts, p, TokenV::ParenOpen) {
        Err(ParseErrorV::Syntax(p, "`ParenOpen`"@))
    } else {
        match ident_at(ts, p + 1) {
            None => Err(ParseErrorV::Syntax(p + 1, "an identifier"@)),
            Some(s) => if is_at(ts, p + 2, TokenV::ParenClose) {
                Ok((s, p + 3))
            } else {
                Err(ParseErrorV::Syntax(p + 2, "`ParenClose`"@))
            },
        }
    }
}

/// Reads `( big|little )` at `p`.
pub open spec fn paren_endian(ts: Seq<TokenV>, p: nat) -> Parsed<Endianness> {
    if !is_at(ts, p, TokenV::ParenOpen) {
        Err(ParseErrorV::Syntax(p, "`ParenOpen`"@))
    } else {
        match endian_at(ts, p + 1) {
            None => Err(ParseErrorV::Syntax(p + 1, "`big` or `little`"@)),
            Some(e) => if is_at(ts, p + 2, TokenV::ParenClose) {
                Ok((e, p + 3))
            } else {
                Err(ParseErrorV::Syntax(p + 2, "`ParenClose`"@))
            },
        }
    }
}

/// Reads `( INTEGER )` at `p`.
pub open spec fn paren_integer(ts: Seq<TokenV>, p: nat) -> Parsed<i128> {
    if !is_at(ts, p, TokenV::ParenOpen) {
        Err(ParseErrorV::Syntax(p, "`ParenOpen`"@))
    } else {
        match integer_at(ts, p + 1) {
            None => Err(ParseErrorV::Syntax(p + 1, "an integer"@)),
            Some(n) => if is_at(ts, p + 2, TokenV::ParenClose) {
                Ok((n, p + 3))
            } else {
                Err(ParseErrorV::Syntax(p + 2, "`ParenClose`"@))
            },
        }
    }
}

/// Reads `( STRING )` at `p`.
pub open spec fn paren_string(ts: Seq<TokenV>, p: nat) -> Parsed<Seq<char>> {
    if !is_at(ts, p, TokenV::ParenOpen) {
        Err(ParseErrorV::Syntax(p, "`ParenOpen`"@))
    } else if p + 1 < ts.len() && ts[p + 1 as int] is StringLiteral {
        if is_at(ts, p + 2, TokenV::ParenClose) {
            Ok((ts[p + 1 as int]->StringLiteral_0, p + 3))
        } else {
            Err(ParseErrorV::Syntax(p + 2, "`ParenClose`"@))
        }
    } else {
        Err(ParseErrorV::Syntax(p + 1, "a string"@))
    }
}

/// `x` followed by `]` at `q`.
pub open spec fn close_bracket<T>(ts: Seq<TokenV>, x: T, q: nat) -> Parsed<T> {
    if is_at(ts, q, TokenV::BracketClose) {
        Ok((x, q + 1))
    } else {
        Err(ParseErrorV::Syntax(q, "`BracketClose`"@))
    }
}

/// Reads the body of a field attribute, whose name is at `p`, up to its `]`.
pub open spec fn field_attr_body(ts: Seq<TokenV>, p: nat) -> Parsed<FieldAttributeV> {
    match ident_at(ts, p) {
        None => Err(ParseErrorV::Syntax(p, "a field attribute"@)),
        Some(w) => if w == "auto"@ {
            if is_at(ts, p + 1, TokenV::ParenOpen) {
                match paren_ident(ts, p + 1) {
                    Ok((t, q)) => close_bracket(ts, FieldAttributeV::Auto(Some(t)), q),
                    Err(e) => Err(e),
                }
            } else {
                close_bracket(ts, FieldAttributeV::Auto(None), p + 1)
            }
        } else if w == "remaining"@ {
            close_bracket(ts, FieldAttributeV::Remaining, p + 1)
        } else if w == "len_ref"@ {
            match paren_ident(ts, p + 1) {
                Ok((t, q)) => close_bracket(ts, FieldAttributeV::LenRef(t), q),
                Err(e) => Err(e),
            }
        } else if w == "if"@ {
            match paren_ident(ts, p + 1) {
                Ok((t, q)) => close_bracket(ts, FieldAttributeV::If(t), q),
                Err(e) => Err(e),
            }
        } else if w == "bits"@ {
            if !is_at(ts, p + 1, TokenV::ParenOpen) {
                Err(ParseErrorV::Syntax(p + 1, "`ParenOpen`"@))
            } else {
                match (integer_at(ts, p + 2), integer_at(ts, p + 4)) {
                    (None, _) => Err(ParseErrorV::Syntax(p + 2, "an integer"@)),
                    (Some(a), _) if !is_at(ts, p + 3, TokenV::Comma) => Err(
                        ParseErrorV::Syntax(p + 3, "`Comma`"@),
                    ),
                    (Some(_), None) => Err(ParseErrorV::Syntax(p + 4, "an integer"@)),
                    (Some(a), Some(b)) => if is_at(ts, p + 5, TokenV::ParenClose) {
                        close_bracket(ts, FieldAttributeV::Bits(a as usize, b as usize), p + 6)
                    } else {
                        Err(ParseErrorV::Syntax(p + 5, "`ParenClose`"@))
                    },
                }
            }
        } else if w == "bit"@ {
            match paren_integer(ts, p + 1) {
                Ok((n, q)) => close_bracket(ts, FieldAttributeV::Bit(n as usize), q),
                Err(e) => Err(e),
            }
        } else if w == "endian"@ {
            match paren_endian(ts, p + 1) {
                Ok((e, q)) => close_bracket(ts, FieldAttributeV::Endian(e), q),
                Err(e) => Err(e),
            }
        } else if w == "checksum"@ {
            match paren_ident(ts, p + 1) {
                Ok((a, q)) => match checksum_named(a) {
                    Some(alg) => close_bracket(ts, FieldAttributeV::Checksum(alg), q),
                    None => Err(ParseErrorV::UnknownChecksum),
                },
                Err(e) => Err(e),
            }
        } else {
            Err(ParseErrorV::Syntax(p, "a field attribute"@))
        },
    }
}

/// Reads a field attribute `#[..]` at `p`.
pub open spec fn parse_field_attr(ts: Seq<TokenV>, p: nat) -> Parsed<FieldAttributeV> {
    if !is_at(ts, p, TokenV::Hash) {
        Err(ParseErrorV::Syntax(p, "`Hash`"@))
    } else if !is_at(ts, p + 1, TokenV::BracketOpen) {
        Err(ParseErrorV::Syntax(p + 1, "`BracketOpen`"@))
    } else {
        field_attr_body(ts, p + 2)
    }
}

/// Reads the field attributes from `p` on, after `acc`.
pub open spec fn parse_field_attrs(ts: Seq<TokenV>, p: nat, acc: Seq<FieldAttributeV>) -> Parsed<
    Seq<FieldAttributeV>,
>
    decreases ts.len() - p,
{
    if !is_at(ts, p, TokenV::Hash) {
        Ok((acc, p))
    } else {
        match parse_field_attr(ts, p) {
            Ok((a, q)) => if q <= p {
                Ok((acc, p))
            } else {
                parse_field_attrs(ts, q, acc.push(a))
            },
            Err(e) => Err(e),
        }
    }
}

/// Reads a field at `p`.
pub open spec fn parse_field(ts: Seq<TokenV>, p: nat) -> Parsed<FieldV> {
    let (docs, q0) = parse_docs(ts, p, Seq::empty());
    match parse_field_attrs(ts, q0, Seq::empty()) {
        Err(e) => Err(e),
        Ok((attrs, q1)) => match ident_at(ts, q1) {
            None => Err(ParseErrorV::Syntax(q1, "an identifier"@)),
            Some(name) => if !is_at(ts, q1 + 1, TokenV::Colon) {
                Err(ParseErrorV::Syntax(q1 + 1, "`Colon`"@))
            } else {
                match parse_type(ts, q1 + 2) {
                    Err(e) => Err(e),
                    Ok((ty, q2)) => {
                        let value = if is_at(ts, q2, TokenV::Equals) {
                            match parse_value(ts, q2 + 1) {
                                Ok((v, q3)) => Ok((Some(v), q3)),
                                Err(e) => Err(e),
                            }
                        } else {
                            Ok((None, q2))
                        };
                        match value {
                            Err(e) => Err(e),
                            Ok((v, q3)) => {
                                let q4 = if is_at(ts, q3, TokenV::Comma) {
                                    q3 + 1
                                } else {
                                    q3
                                };
                                Ok(
                                    (
                                        FieldV {
                                            name,
                                            ty,
                                            value: v,
                                            attributes: attrs,
                                            doc: doc_of(docs),
                                        },
                                        q4,
                                    ),
                                )
                            },
                        }
                    },
                }
            },
        },
    }
}

/// Token `p` can start a field: a documentation comment, `#` or an identifier.
pub open spec fn starts_field(ts: Seq<TokenV>, p: nat) -> bool {
    p < ts.len() && (ts[p as int] is DocComment || ts[p as int] is Hash || ts[p as int] is Ident)
}

/// Reads the fields from `p` on, after `acc`.
pub open spec fn parse_fields(ts: Seq<TokenV>, p: nat, acc: Seq<FieldV>) -> Parsed<Seq<FieldV>>
    decreases ts.len() - p,
{
    if !starts_field(ts, p) {
        Ok((acc, p))
    } else {
        match parse_field(ts, p) {
            Ok((f, q)) => if q <= p || q > ts.len() {
                Ok((acc, p))
            } else {
                parse_fields(ts, q, acc.push(f))
            },
            Err(e) => Err(e),
        }
    }
}

/// A struct attribute.
pub enum StructAttrV {
    Send,
    Receive,
    Endian(Endianness),
}

/// Reads a struct attribute `#[..]` at `p`.
pub open spec fn parse_struct_attr(ts: Seq<TokenV>, p: nat) -> Parsed<StructAttrV> {
    if !is_at(ts, p, TokenV::Hash) {
        Err(ParseErrorV::Syntax(p, "`Hash`"@))
    } else if !is_at(ts, p + 1, TokenV::BracketOpen) {
        Err(ParseErrorV::Syntax(p + 1, "`BracketOpen`"@))
    } else if is_word(ts, p + 2, "send"@) {
        close_bracket(ts, StructAttrV::Send, p + 3)
    } else if is_word(ts, p + 2, "receive"@) {
        close_bracket(ts, StructAttrV::Receive, p + 3)
    } else if is_word(ts, p + 2, "endian"@) {
        match paren_endian(ts, p + 3) {
            Ok((e, q)) => close_bracket(ts, StructAttrV::Endian(e), q),
            Err(e) => Err(e),
        }
    } else {
        Err(ParseErrorV::Syntax(p + 2, "a struct attribute"@))
    }
}

/// Reads the struct attributes from `p` on, after `acc`.
pub open spec fn parse_struct_attrs(ts: Seq<TokenV>, p: nat, acc: Seq<StructAttrV>) -> Parsed<
    Seq<StructAttrV>,
>
    decreases ts.len() - p,
{
    if !is_at(ts, p, TokenV::Hash) {
        Ok((acc, p))
    } else {
        match parse_struct_attr(ts, p) {
            Ok((a, q)) => if q <= p {
                Ok((acc, p))
            } else {
                parse_struct_attrs(ts, q, acc.push(a))
            },
            Err(e) => Err(e),
        }
    }
}

/// The first byte order among struct attributes.
pub open spec fn attrs_endian(attrs: Seq<StructAttrV>) -> Option<Endianness>
    decreases attrs.len(),
{
    if attrs.len() == 0 {
        None
    } else {
        match attrs[0] {
            StructAttrV::Endian(e) => Some(e),
            _ => attrs_endian(attrs.drop_first()),
        }
    }
}

/// The direction struct attributes give: send, receive or none.
pub open spec fn attrs_direction(attrs: Seq<StructAttrV>) -> Option<Direction> {
    if attrs.contains(StructAttrV::Send) {
        Some(Direction::Send)
    } else if attrs.contains(StructAttrV::Receive) {
        Some(Direction::Receive)
    } else {
        None
    }
}

/// Reads a struct definition at `p`.
pub open spec fn parse_struct(ts: Seq<TokenV>, p: nat) -> Parsed<StructDefV> {
    let (docs, q0) = parse_docs(ts, p, Seq::empty());
    match parse_struct_attrs(ts, q0, Seq::empty()) {
        Err(e) => Err(e),
        Ok((attrs, q1)) => if !is_at(ts, q1, TokenV::Struct) {
            Err(ParseErrorV::Syntax(q1, "`Struct`"@))
        } else {
            match ident_at(ts, q1 + 1) {
                None => Err(ParseErrorV::Syntax(q1 + 1, "an identifier"@)),
                Some(name) => if !is_at(ts, q1 + 2, TokenV::BraceOpen) {
                    Err(ParseErrorV::Syntax(q1 + 2, "`BraceOpen`"@))
                } else {
                    match parse_fields(ts, q1 + 3, Seq::empty()) {
                        Err(e) => Err(e),
                        Ok((fields, q2)) => if !is_at(ts, q2, TokenV::BraceClose) {
                            Err(ParseErrorV::Syntax(q2, "`BraceClose`"@))
                        } else if attrs.contains(StructAttrV::Send) && attrs.contains(
                            StructAttrV::Receive,
                        ) {
                            Err(
                                ParseErrorV::Custom(
                                    p,
                                    "struct cannot have both #[send] and #[receive] attributes"@,
                                ),
                            )
                        } else {
                            Ok(
                                (
                                    StructDefV {
                                        name,
                                        direction: attrs_direction(attrs),
                                        fields,
                                        doc: doc_of(docs),
                                        endian: attrs_endian(attrs),
                                    },
                                    q2 + 1,
                                ),
                            )
                        },
                    }
                },
            }
        },
    }
}

/// Reads a file attribute `#![..]` at `p`.
pub open spec fn parse_file_attr(ts: Seq<TokenV>, p: nat) -> Parsed<FileAttributeV> {
    if !is_at(ts, p, TokenV::Hash) {
        Err(ParseErrorV::Syntax(p, "`Hash`"@))
    } else if !is_at(ts, p + 1, TokenV::Exclamation) {
        Err(ParseErrorV::Syntax(p + 1, "`Exclamation`"@))
    } else if !is_at(ts, p + 2, TokenV::BracketOpen) {
        Err(ParseErrorV::Syntax(p + 2, "`BracketOpen`"@))
    } else {
        let k = p + 3;
        if is_word(ts, k, "version"@) {
            match paren_string(ts, k + 1) {
                Ok((s, q)) => close_bracket(ts, FileAttributeV::Version(s), q),
                Err(e) => Err(e),
            }
        } else if is_word(ts, k, "endian"@) {
            match paren_endian(ts, k + 1) {
                Ok((e, q)) => close_bracket(ts, FileAttributeV::Endian(e), q),
                Err(e) => Err(e),
            }
        } else if is_word(ts, k, "import_path"@) {
            match paren_string(ts, k + 1) {
                Ok((s, q)) => close_bracket(ts, FileAttributeV::ImportPath(s), q),
                Err(e) => Err(e),
            }
        } else if is_word(ts, k, "doc"@) {
            match paren_string(ts, k + 1) {
                Ok((s, q)) => close_bracket(ts, FileAttributeV::Doc(s), q),
                Err(e) => Err(e),
            }
        } else if is_word(ts, k, "prefix"@) {
            match paren_ident(ts, k + 1) {
                Ok((w, q)) => if w == "disable"@ {
                    close_bracket(ts, FileAttributeV::PrefixDisabled, q)
                } else {
                    Err(ParseErrorV::Syntax(k + 2, "`disable`"@))
                },
                Err(e) => Err(e),
            }
        } else {
            Err(ParseErrorV::Syntax(k, "a file attribute"@))
        }
    }
}

/// Reads the file attributes from `p` on, after `acc`.
pub open spec fn parse_file_attrs(ts: Seq<TokenV>, p: nat, acc: Seq<FileAttributeV>) -> Parsed<
    Seq<FileAttributeV>,
>
    decreases ts.len() - p,
{
    if !(is_at(ts, p, TokenV::Hash) && is_at(ts, p + 1, TokenV::Exclamation)) {
        Ok((acc, p))
    } else {
        match parse_file_attr(ts, p) {
            Ok((a, q)) => if q <= p {
                Ok((acc, p))
            } else {
                parse_file_attrs(ts, q, acc.push(a))
            },
            Err(e) => Err(e),
        }
    }
}

/// Reads the imports from `p` on, after `acc`. An import is recognised by
/// `import` after its documentation comments.
pub open spec fn parse_imports(ts: Seq<TokenV>, p: nat, acc: Seq<ImportV>) -> Parsed<Seq<ImportV>>
    decreases ts.len() - p,
{
    let (docs, q) = parse_docs(ts, p, Seq::empty());
    if !is_at(ts, q, TokenV::Import) {
        Ok((acc, p))
    } else {
        match paren_string(ts, q + 1) {
            Ok((path, r)) => if r <= p {
                Ok((acc, p))
            } else {
                parse_imports(ts, r, acc.push(ImportV { path, doc: doc_of(docs) }))
            },
            Err(e) => Err(e),
        }
    }
}

/// Token `p` can start a struct definition.
pub open spec fn starts_struct(ts: Seq<TokenV>, p: nat) -> bool {
    p < ts.len() && (ts[p as int] is DocComment || ts[p as int] is Hash || ts[p as int] is Struct)
}

/// Reads the struct definitions from `p` on, after `acc`.
pub open spec fn parse_structs(ts: Seq<TokenV>, p: nat, acc: Seq<StructDefV>) -> Parsed<
    Seq<StructDefV>,
>
    decreases ts.len() - p,
{
    if !starts_struct(ts, p) {
        Ok((acc, p))
    } else {
        match parse_struct(ts, p) {
            Ok((d, q)) => if q <= p {
                Ok((acc, p))
            } else {
                parse_structs(ts, q, acc.push(d))
            },
            Err(e) => Err(e),
        }
    }
}

/// The schema holding these file attributes, imports and structs, in order.
pub open spec fn schema_from(
    attrs: Seq<FileAttributeV>,
    imports: Seq<ImportV>,
    structs: Seq<StructDefV>,
) -> SchemaV
    decreases structs.len(),
{
    if structs.len() == 0 {
        SchemaV { file_attributes: attrs, imports, ..empty_schema() }
    } else {
        schema_from(attrs, imports, structs.drop_last()).add_struct(structs.last())
    }
}

/// Reads a whole schema from its tokens.
pub open spec fn parse_tokens(ts: Seq<TokenV>) -> Result<SchemaV, ParseErrorV> {
    match parse_file_attrs(ts, 0, Seq::empty()) {
        Err(e) => Err(e),
        Ok((attrs, p1)) => tokens_after_attrs(ts, attrs, p1),
    }
}

/// The rest of a schema after its file attributes, which end at `p1`.
pub open spec fn tokens_after_attrs(ts: Seq<TokenV>, attrs: Seq<FileAttributeV>, p1: nat) -> Result<
    SchemaV,
    ParseErrorV,
> {
    match parse_imports(ts, p1, Seq::empty()) {
        Err(e) => Err(e),
        Ok((imports, p2)) => tokens_after_imports(ts, attrs, imports, p2),
    }
}

/// The rest of a schema after its imports, which end at `p2`.
pub open spec fn tokens_after_imports(
    ts: Seq<TokenV>,
    attrs: Seq<FileAttributeV>,
    imports: Seq<ImportV>,
    p2: nat,
) -> Result<SchemaV, ParseErrorV> {
    match parse_structs(ts, p2, Seq::empty()) {
        Err(e) => Err(e),
        Ok((structs, p3)) => if p3 < ts.len() {
            Err(ParseErrorV::Syntax(p3, "end of input"@))
        } else {
            Ok(schema_from(attrs, imports, structs))
        },
    }
}

} // verus!

verus! {

/// Why a token sequence is not a schema.
#[derive(Debug)]
pub enum ParseFailure {
    /// The token at this index does not fit the grammar; what was expected there.
    Syntax(usize, String),
    /// The struct starting at this token breaks a rule, with a message.
    Custom(usize, String),
    /// A `#[checksum(..)]` names no known algorithm.
    UnknownChecksum,
}

impl View for ParseFailure {
    type V = ParseErrorV;

    open spec fn view(&self) -> ParseErrorV {
        match self {
            ParseFailure::Syntax(p, s) => ParseErrorV::Syntax(*p as nat, s@),
            ParseFailure::Custom(p, s) => ParseErrorV::Custom(*p as nat, s@),
            ParseFailure::UnknownChecksum => ParseErrorV::UnknownChecksum,
        }
    }
}

/// The views of a list of tokens.
pub open spec fn tokens_view(ts: Seq<Token>) -> Seq<TokenV> {
    ts.map_values(|t: Token| t@)
}

fn syntax(p: usize, what: &str) -> (e: ParseFailure)
    ensures
        e@ == ParseErrorV::Syntax(p as nat, what@),
{
    ParseFailure::Syntax(p, String::from_str(what))
}

/// The identifier at `p`, if token `p` is one.
fn ident_at_exec<'a>(ts: &'a Vec<Token>, p: usize) -> (r: Option<&'a String>)
    ensures
        match ident_at(tokens_view(ts@), p as nat) {
            Some(s) => r matches Some(x) && x@ == s,
            None => r is None,
        },
{
    if p < ts.len() {
        match &ts[p] {
            Token::Ident(s) => Some(s),
            _ => None,
        }
    } else {
        None
    }
}

/// Whether token `p` is the identifier `w`.
fn is_word_exec(ts: &Vec<Token>, p: usize, w: &str) -> (r: bool)
    ensures
        r == is_word(tokens_view(ts@), p as nat, w@),
{
    match ident_at_exec(ts, p) {
        Some(s) => str_eq(s.as_str(), w),
        None => false,
    }
}

/// The integer of token `p`, if it is an integer that fits `i128`.
fn integer_at_exec(ts: &Vec<Token>, p: usize) -> (r: Option<i128>)
    ensures
        r == integer_at(tokens_view(ts@), p as nat),
{
    if p < ts.len() {
        match &ts[p] {
            Token::Integer(Some(n)) => Some(*n),
            _ => None,
        }
    } else {
        None
    }
}

fn at_less_than(ts: &Vec<Token>, p: usize) -> (r: bool)
    ensures
        r == is_at(tokens_view(ts@), p as nat, TokenV::LessThan),
{
    p < ts.len() && matches!(ts[p], Token::LessThan)
}

fn at_greater_than(ts: &Vec<Token>, p: usize) -> (r: bool)
    ensures
        r == is_at(tokens_view(ts@), p as nat, TokenV::GreaterThan),
{
    p < ts.len() && matches!(ts[p], Token::GreaterThan)
}

fn at_semicolon(ts: &Vec<Token>, p: usize) -> (r: bool)
    ensures
        r == is_at(tokens_view(ts@), p as nat, TokenV::Semicolon),
{
    p < ts.len() && matches!(ts[p], Token::Semicolon)
}

fn at_bracket_close(ts: &Vec<Token>, p: usize) -> (r: bool)
    ensures
        r == is_at(tokens_view(ts@), p as nat, TokenV::BracketClose),
{
    p < ts.len() && matches!(ts[p], Token::BracketClose)
}

fn at_brace_open(ts: &Vec<Token>, p: usize) -> (r: bool)
    ensures
        r == is_at(tokens_view(ts@), p as nat, TokenV::BraceOpen),
{
    p < ts.len() && matches!(ts[p], Token::BraceOpen)
}

fn at_brace_close(ts: &Vec<Token>, p: usize) -> (r: bool)
    ensures
        r == is_at(tokens_view(ts@), p as nat, TokenV::BraceClose),
{
    p < ts.len() && matches!(ts[p], Token::BraceClose)
}

fn at_comma(ts: &Vec<Token>, p: usize) -> (r: bool)
    ensures
        r == is_at(tokens_view(ts@), p as nat, TokenV::Comma),
{
    p < ts.len() && matches!(ts[p], Token::Comma)
}

fn at_colon(ts: &Vec<Token>, p: usize) -> (r: bool)
    ensures
        r == is_at(tokens_view(ts@), p as nat, TokenV::Colon),
{
    p < ts.len() && matches!(ts[p], Token::Colon)
}

fn at_hash(ts: &Vec<Token>, p: usize) -> (r: bool)
    ensures
        r == is_at(tokens_view(ts@), p as nat, TokenV::Hash),
{
    p < ts.len() && matches!(ts[p], Token::Hash)
}

fn at_bracket_open(ts: &Vec<Token>, p: usize) -> (r: bool)
    ensures
        r == is_at(tokens_view(ts@), p as nat, TokenV::BracketOpen),
{
    p < ts.len() && matches!(ts[p], Token::BracketOpen)
}

fn at_paren_open(ts: &Vec<Token>, p: usize) -> (r: bool)
    ensures
        r == is_at(tokens_view(ts@), p as nat, TokenV::ParenOpen),
{
    p < ts.len() && matches!(ts[p], Token::ParenOpen)
}

fn at_paren_close(ts: &Vec<Token>, p: usize) -> (r: bool)
    ensures
        r == is_at(tokens_view(ts@), p as nat, TokenV::ParenClose),
{
    p < ts.len() && matches!(ts[p], Token::ParenClose)
}

fn at_equals(ts: &Vec<Token>, p: usize) -> (r: bool)
    ensures
        r == is_at(tokens_view(ts@), p as nat, TokenV::Equals),
{
    p < ts.len() && matches!(ts[p], Token::Equals)
}

fn at_exclamation(ts: &Vec<Token>, p: usize) -> (r: bool)
    ensures
        r == is_at(tokens_view(ts@), p as nat, TokenV::Exclamation),
{
    p < ts.len() && matches!(ts[p], Token::Exclamation)
}

fn at_struct(ts: &Vec<Token>, p: usize) -> (r: bool)
    ensures
        r == is_at(tokens_view(ts@), p as nat, TokenV::Struct),
{
    p < ts.len() && matches!(ts[p], Token::Struct)
}

fn at_import(ts: &Vec<Token>, p: usize) -> (r: bool)
    ensures
        r == is_at(tokens_view(ts@), p as nat, TokenV::Import),
{
    p < ts.len() && matches!(ts[p], Token::Import)
}

/// The primitive type a token names.
fn primitive_type_exec(t: &Token) -> (r: Option<Type>)
    ensures
        match primitive_type(t@) {
            Some(ty) => r matches Some(x) && x@ == ty,
            None => r is None,
        },
{
    match t {
        Token::U8 => Some(Type::U8),
        Token::U16 => Some(Type::U16),
        Token::U32 => Some(Type::U32),
        Token::U64 => Some(Type::U64),
        Token::U128 => Some(Type::U128),
        Token::I8 => Some(Type::I8),
        Token::I16 => Some(Type::I16),
        Token::I32 => Some(Type::I32),
        Token::I64 => Some(Type::I64),
        Token::I128 => Some(Type::I128),
        Token::F32 => Some(Type::F32),
        Token::F64 => Some(Type::F64),
        Token::Bool => Some(Type::Bool),
        Token::String => Some(Type::String),
        Token::Bytes => Some(Type::Bytes),
        _ => None,
    }
}

/// Reads a type at `p`.
pub fn parse_type_exec(ts: &Vec<Token>, p: usize) -> (r: Result<(Type, usize), ParseFailure>)
    ensures
        match r {
            Ok((t, q)) => parse_type(tokens_view(ts@), p as nat) == Ok::<(TypeV, nat), ParseErrorV>(
                (t@, q as nat),
            ),
            Err(e) => parse_type(tokens_view(ts@), p as nat) == Err::<(TypeV, nat), ParseErrorV>(e@),
        },
        r matches Ok((_, q)) ==> p < q <= ts@.len(),
    decreases ts@.len() - p,
{
    if p >= ts.len() {
        return Err(syntax(p, "a type"));
    }
    let t = &ts[p];
    match primitive_type_exec(t) {
        Some(ty) => {
            return Ok((ty, p + 1));
        },
        None => {},
    }
    match t {
        Token::Ident(name) => Ok((Type::Custom(name.clone()), p + 1)),
        Token::Vec => {
            if !at_less_than(ts, p + 1) {
                return Err(syntax(p + 1, "`LessThan`"));
            }
            match parse_type_exec(ts, p + 2) {
                Ok((inner, q)) => {
                    if at_greater_than(ts, q) {
                        Ok((Type::Vec(Box::new(inner)), q + 1))
                    } else {
                        Err(syntax(q, "`GreaterThan`"))
                    }
                },
                Err(e) => Err(e),
            }
        },
        Token::BracketOpen => {
            match parse_type_exec(ts, p + 1) {
                Ok((inner, q)) => {
                    if !at_semicolon(ts, q) {
                        return Err(syntax(q, "`Semicolon`"));
                    }
                    match integer_at_exec(ts, q + 1) {
                        None => Err(syntax(q + 1, "an integer")),
                        Some(n) => {
                            if at_bracket_close(ts, q + 2) {
                                Ok((Type::Array(Box::new(inner), n as usize), q + 3))
                            } else {
                                Err(syntax(q + 2, "`BracketClose`"))
                            }
                        },
                    }
                },
                Err(e) => Err(e),
            }
        },
        _ => Err(syntax(p, "a type")),
    }
}

} // verus!

verus! {

/// Reads a value at `p`.
pub fn parse_value_exec(ts: &Vec<Token>, p: usize) -> (r: Result<(Value, usize), ParseFailure>)
    ensures
        match r {
            Ok((v, q)) => parse_value(tokens_view(ts@), p as nat) == Ok::<(ValueV, nat), ParseErrorV>(
                (v@, q as nat),
            ),
            Err(e) => parse_value(tokens_view(ts@), p as nat) == Err::<(ValueV, nat), ParseErrorV>(
                e@,
            ),
        },
        r matches Ok((_, q)) ==> p < q <= ts@.len(),
    decreases ts@.len() - p, 0nat,
{
    if p >= ts.len() {
        return Err(syntax(p, "a value"));
    }
    match &ts[p] {
        Token::Integer(Some(n)) => Ok((Value::Integer(*n), p + 1)),
        Token::Float(lit) => Ok(
            (Value::Float(FloatValue { literal: lit.clone(), bits: None }), p + 1),
        ),
        Token::True => Ok((Value::Bool(true), p + 1)),
        Token::False => Ok((Value::Bool(false), p + 1)),
        Token::StringLiteral(s) => Ok((Value::String(s.clone()), p + 1)),
        Token::HexNumber(Some(n)) => Ok((Value::Integer(*n as i128), p + 1)),
        Token::BracketOpen => {
            let items: Vec<Value> = Vec::new();
            proof {
                lemma_values_view(items@);
                assert(values_view(items@) =~= Seq::<ValueV>::empty());
            }
            parse_list_exec(ts, p + 1, items)
        },
        Token::Ident(name) => {
            if at_brace_open(ts, p + 1) {
                let inits: Vec<(String, Value)> = Vec::new();
                proof {
                    lemma_named_values_view(inits@);
                    assert(named_values_view(inits@) =~= Seq::<(Seq<char>, ValueV)>::empty());
                }
                parse_inits_exec(ts, p + 2, name, inits)
            } else {
                Err(syntax(p + 1, "`BraceOpen`"))
            }
        },
        _ => Err(syntax(p, "a value")),
    }
}

/// Reads the rest of a list value after `acc`, up to its `]`.
fn parse_list_exec(ts: &Vec<Token>, p: usize, acc: Vec<Value>) -> (r: Result<
    (Value, usize),
    ParseFailure,
>)
    requires
        p <= ts@.len(),
    ensures
        match r {
            Ok((v, q)) => parse_list(tokens_view(ts@), p as nat, values_view(acc@)) == Ok::<
                (ValueV, nat),
                ParseErrorV,
            >((v@, q as nat)),
            Err(e) => parse_list(tokens_view(ts@), p as nat, values_view(acc@)) == Err::<
                (ValueV, nat),
                ParseErrorV,
            >(e@),
        },
        r matches Ok((_, q)) ==> p < q <= ts@.len(),
    decreases ts@.len() - p, 1nat,
{
    let n = ts.len();
    proof {
        assert(tokens_view(ts@).len() == n);
    }
    if at_bracket_close(ts, p) {
        return Ok((Value::Array(acc), p + 1));
    }
    match parse_value_exec(ts, p) {
        Ok((v, q)) => {
            if q < p {
                return Err(syntax(p, "a value"));
            }
            let ghost av = values_view(acc@);
            let mut acc = acc;
            proof {
                lemma_values_view(acc@);
            }
            let ghost vv = v@;
            acc.push(v);
            proof {
                lemma_values_view(acc@);
                assert(values_view(acc@) =~= av.push(vv));
            }
            if at_comma(ts, q) {
                parse_list_exec(ts, q + 1, acc)
            } else if at_bracket_close(ts, q) {
                Ok((Value::Array(acc), q + 1))
            } else {
                Err(syntax(q, "`Comma` or `BracketClose`"))
            }
        },
        Err(e) => Err(e),
    }
}

/// Reads the rest of the field values of a struct value after `acc`, up to its `}`.
fn parse_inits_exec(ts: &Vec<Token>, p: usize, name: &String, acc: Vec<(String, Value)>) -> (r:
    Result<(Value, usize), ParseFailure>)
    requires
        p <= ts@.len(),
    ensures
        match r {
            Ok((v, q)) => parse_inits(
                tokens_view(ts@),
                p as nat,
                name@,
                named_values_view(acc@),
            ) == Ok::<(ValueV, nat), ParseErrorV>((v@, q as nat)),
            Err(e) => parse_inits(
                tokens_view(ts@),
                p as nat,
                name@,
                named_values_view(acc@),
            ) == Err::<(ValueV, nat), ParseErrorV>(e@),
        },
        r matches Ok((_, q)) ==> p < q <= ts@.len(),
    decreases ts@.len() - p, 1nat,
{
    let n = ts.len();
    proof {
        assert(tokens_view(ts@).len() == n);
    }
    if at_brace_close(ts, p) {
        return Ok((Value::Struct(name.clone(), acc), p + 1));
    }
    let f = match ident_at_exec(ts, p) {
        None => {
            return Err(syntax(p, "an identifier"));
        },
        Some(f) => f,
    };
    if !at_colon(ts, p + 1) {
        return Err(syntax(p + 1, "`Colon`"));
    }
    match parse_value_exec(ts, p + 2) {
        Ok((v, q)) => {
            if q < p {
                return Err(syntax(p, "a value"));
            }
            let ghost av = named_values_view(acc@);
            let mut acc = acc;
            proof {
                lemma_named_values_view(acc@);
            }
            let ghost vv = v@;
            acc.push((f.clone(), v));
            proof {
                lemma_named_values_view(acc@);
                assert(named_values_view(acc@) =~= av.push((f@, vv)));
            }
            if at_comma(ts, q) {
                parse_inits_exec(ts, q + 1, name, acc)
            } else if at_brace_close(ts, q) {
                Ok((Value::Struct(name.clone(), acc), q + 1))
            } else {
                Err(syntax(q, "`Comma` or `BraceClose`"))
            }
        },
        Err(e) => Err(e),
    }
}

} // verus!

verus! {

/// The views of a list of strings.
pub open spec fn strings_view(v: Seq<String>) -> Seq<Seq<char>> {
    v.map_values(|s: String| s@)
}

/// The documentation comments from `p` on, and the index after them.
fn parse_docs_exec(ts: &Vec<Token>, p: usize) -> (r: (Vec<String>, usize))
    requires
        p <= ts@.len(),
    ensures
        parse_docs(tokens_view(ts@), p as nat, Seq::empty()) == (strings_view(r.0@), r.1 as nat),
        p <= r.1 <= ts@.len(),
{
    let ghost tv = tokens_view(ts@);
    let mut docs: Vec<String> = Vec::new();
    let mut q = p;
    proof {
        assert(strings_view(docs@) =~= Seq::<Seq<char>>::empty());
    }
    while q < ts.len() && matches!(ts[q], Token::DocComment(_))
        invariant
            p <= q <= ts@.len(),
            tv == tokens_view(ts@),
            parse_docs(tv, p as nat, Seq::empty()) == parse_docs(tv, q as nat, strings_view(docs@)),
        decreases ts@.len() - q,
    {
        match &ts[q] {
            Token::DocComment(text) => {
                proof {
                    assert(strings_view(docs@.push(*text)) =~= strings_view(docs@).push(text@));
                }
                docs.push(text.clone());
            },
            _ => {},
        }
        q = q + 1;
    }
    (docs, q)
}

/// Lines joined with line feeds.
fn join_lines_exec(lines: &Vec<String>) -> (r: String)
    ensures
        r@ == join_lines(strings_view(lines@)),
{
    let ghost lv = strings_view(lines@);
    let mut buf: Vec<char> = Vec::new();
    let mut i: usize = 0;
    proof {
        assert(lv.take(0) =~= Seq::<Seq<char>>::empty());
    }
    while i < lines.len()
        invariant
            i <= lines@.len(),
            lv == strings_view(lines@),
            buf@ == join_lines(lv.take(i as int)),
        decreases lines@.len() - i,
    {
        proof {
            assert(lv.take(i + 1).drop_last() == lv.take(i as int));
            assert(lv.take(i + 1).last() == lines@[i as int]@);
        }
        if i > 0 {
            buf.push('\n');
            proof {
                assert(buf@ == join_lines(lv.take(i as int)) + "\n"@) by {
                    reveal_strlit("\n");
                }
            }
        } else {
            proof {
                assert(lv.take(1) =~= seq![lines@[0]@]);
            }
        }
        let ghost before = buf@;
        push_string(&mut buf, &lines[i]);
        proof {
            if i > 0 {
                assert(buf@ =~= join_lines(lv.take(i as int)) + "\n"@ + lines@[i as int]@);
            } else {
                assert(before =~= Seq::<char>::empty());
                assert(buf@ =~= lines@[i as int]@);
            }
        }
        i = i + 1;
    }
    proof {
        assert(lv.take(lines@.len() as int) == lv);
    }
    chars_to_string(buf.as_slice())
}

/// The documentation a list of comment lines gives.
fn doc_of_exec(lines: &Vec<String>) -> (r: Option<String>)
    ensures
        opt_str_view(r) == doc_of(strings_view(lines@)),
{
    if lines.len() == 0 {
        None
    } else {
        Some(join_lines_exec(lines))
    }
}

/// The byte order `big` or `little` at `p`.
fn endian_at_exec(ts: &Vec<Token>, p: usize) -> (r: Option<Endianness>)
    ensures
        r == endian_at(tokens_view(ts@), p as nat),
{
    if is_word_exec(ts, p, "big") {
        Some(Endianness::Big)
    } else if is_word_exec(ts, p, "little") {
        Some(Endianness::Little)
    } else {
        None
    }
}

/// The checksum algorithm a name denotes.
fn checksum_named_exec(name: &String) -> (r: Option<ChecksumAlgorithm>)
    ensures
        r == checksum_named(name@),
{
    let n = name.as_str();
    if str_eq(n, "crc8") {
        Some(ChecksumAlgorithm::Crc8)
    } else if str_eq(n, "crc16") {
        Some(ChecksumAlgorithm::Crc16)
    } else if str_eq(n, "crc32") {
        Some(ChecksumAlgorithm::Crc32)
    } else if str_eq(n, "xor") {
        Some(ChecksumAlgorithm::Xor)
    } else if str_eq(n, "sum") {
        Some(ChecksumAlgorithm::Sum)
    } else {
        None
    }
}

/// Reads `( IDENT )` at `p`.
fn paren_ident_exec(ts: &Vec<Token>, p: usize) -> (r: Result<(String, usize), ParseFailure>)
    requires
        p <= ts@.len(),
    ensures
        match r {
            Ok((s, q)) => paren_ident(tokens_view(ts@), p as nat) == Ok::<
                (Seq<char>, nat),
                ParseErrorV,
            >((s@, q as nat)) && q <= ts@.len(),
            Err(e) => paren_ident(tokens_view(ts@), p as nat) == Err::<(Seq<char>, nat), ParseErrorV>(
                e@,
            ),
        },
{
    let n = ts.len();
    proof {
        assert(tokens_view(ts@).len() == n);
    }
    if !at_paren_open(ts, p) {
        return Err(syntax(p, "`ParenOpen`"));
    }
    match ident_at_exec(ts, p + 1) {
        None => Err(syntax(p + 1, "an identifier")),
        Some(s) => {
            if at_paren_close(ts, p + 2) {
                Ok((s.clone(), p + 3))
            } else {
                Err(syntax(p + 2, "`ParenClose`"))
            }
        },
    }
}

/// Reads `( big|little )` at `p`.
fn paren_endian_exec(ts: &Vec<Token>, p: usize) -> (r: Result<(Endianness, usize), ParseFailure>)
    requires
        p <= ts@.len(),
    ensures
        match r {
            Ok((e, q)) => paren_endian(tokens_view(ts@), p as nat) == Ok::<
                (Endianness, nat),
                ParseErrorV,
            >((e, q as nat)) && q <= ts@.len(),
            Err(e) => paren_endian(tokens_view(ts@), p as nat) == Err::<(Endianness, nat), ParseErrorV>(
                e@,
            ),
        },
{
    let n = ts.len();
    proof {
        assert(tokens_view(ts@).len() == n);
    }
    if !at_paren_open(ts, p) {
        return Err(syntax(p, "`ParenOpen`"));
    }
    match endian_at_exec(ts, p + 1) {
        None => Err(syntax(p + 1, "`big` or `little`")),
        Some(e) => {
            if at_paren_close(ts, p + 2) {
                Ok((e, p + 3))
            } else {
                Err(syntax(p + 2, "`ParenClose`"))
            }
        },
    }
}

/// Reads `( INTEGER )` at `p`.
fn paren_integer_exec(ts: &Vec<Token>, p: usize) -> (r: Result<(i128, usize), ParseFailure>)
    requires
        p <= ts@.len(),
    ensures
        match r {
            Ok((v, q)) => paren_integer(tokens_view(ts@), p as nat) == Ok::<(i128, nat), ParseErrorV>(
                (v, q as nat),
            ) && q <= ts@.len(),
            Err(e) => paren_integer(tokens_view(ts@), p as nat) == Err::<(i128, nat), ParseErrorV>(
                e@,
            ),
        },
{
    let n = ts.len();
    proof {
        assert(tokens_view(ts@).len() == n);
    }
    if !at_paren_open(ts, p) {
        return Err(syntax(p, "`ParenOpen`"));
    }
    match integer_at_exec(ts, p + 1) {
        None => Err(syntax(p + 1, "an integer")),
        Some(v) => {
            if at_paren_close(ts, p + 2) {
                Ok((v, p + 3))
            } else {
                Err(syntax(p + 2, "`ParenClose`"))
            }
        },
    }
}

/// Reads `( STRING )` at `p`.
fn paren_string_exec(ts: &Vec<Token>, p: usize) -> (r: Result<(String, usize), ParseFailure>)
    requires
        p <= ts@.len(),
    ensures
        match r {
            Ok((s, q)) => paren_string(tokens_view(ts@), p as nat) == Ok::<
                (Seq<char>, nat),
                ParseErrorV,
            >((s@, q as nat)) && q <= ts@.len(),
            Err(e) => paren_string(tokens_view(ts@), p as nat) == Err::<(Seq<char>, nat), ParseErrorV>(
                e@,
            ),
        },
{
    let n = ts.len();
    proof {
        assert(tokens_view(ts@).len() == n);
    }
    if !at_paren_open(ts, p) {
        return Err(syntax(p, "`ParenOpen`"));
    }
    if p + 1 < ts.len() {
        match &ts[p + 1] {
            Token::StringLiteral(s) => {
                if at_paren_close(ts, p + 2) {
                    return Ok((s.clone(), p + 3));
                } else {
                    return Err(syntax(p + 2, "`ParenClose`"));
                }
            },
            _ => {},
        }
    }
    Err(syntax(p + 1, "a string"))
}

} // verus!

verus! {

/// `x` followed by `]` at `q`.
fn close_bracket_attr(ts: &Vec<Token>, x: FieldAttribute, q: usize) -> (r: Result<
    (FieldAttribute, usize),
    ParseFailure,
>)
    requires
        q <= ts@.len(),
    ensures
        match r {
            Ok((a, k)) => close_bracket(tokens_view(ts@), x@, q as nat) == Ok::<
                (FieldAttributeV, nat),
                ParseErrorV,
            >((a@, k as nat)) && k <= ts@.len(),
            Err(e) => close_bracket(tokens_view(ts@), x@, q as nat) == Err::<
                (FieldAttributeV, nat),
                ParseErrorV,
            >(e@),
        },
{
    let n = ts.len();
    proof {
        assert(tokens_view(ts@).len() == n);
    }
    if at_bracket_close(ts, q) {
        Ok((x, q + 1))
    } else {
        Err(syntax(q, "`BracketClose`"))
    }
}

/// The view of a field-attribute result.
pub open spec fn attr_result(r: Result<(FieldAttribute, usize), ParseFailure>) -> Parsed<
    FieldAttributeV,
> {
    match r {
        Ok((a, q)) => Ok((a@, q as nat)),
        Err(e) => Err(e@),
    }
}

/// Reads the body of a field attribute, whose name is at `p`, up to its `]`.
fn field_attr_body_exec(ts: &Vec<Token>, p: usize) -> (r: Result<(FieldAttribute, usize), ParseFailure>)
    requires
        p <= ts@.len(),
    ensures
        attr_result(r) == field_attr_body(tokens_view(ts@), p as nat),
        r matches Ok((_, q)) ==> q <= ts@.len(),
{
    let n = ts.len();
    proof {
        assert(tokens_view(ts@).len() == n);
    }
    let w = match ident_at_exec(ts, p) {
        None => {
            return Err(syntax(p, "a field attribute"));
        },
        Some(w) => w.as_str(),
    };
    if str_eq(w, "auto") {
        if at_paren_open(ts, p + 1) {
            match paren_ident_exec(ts, p + 1) {
                Ok((t, q)) => close_bracket_attr(ts, FieldAttribute::Auto(Some(t)), q),
                Err(e) => Err(e),
            }
        } else {
            close_bracket_attr(ts, FieldAttribute::Auto(None), p + 1)
        }
    } else if str_eq(w, "remaining") {
        close_bracket_attr(ts, FieldAttribute::Remaining, p + 1)
    } else if str_eq(w, "len_ref") {
        match paren_ident_exec(ts, p + 1) {
            Ok((t, q)) => close_bracket_attr(ts, FieldAttribute::LenRef(t), q),
            Err(e) => Err(e),
        }
    } else if str_eq(w, "if") {
        match paren_ident_exec(ts, p + 1) {
            Ok((t, q)) => close_bracket_attr(ts, FieldAttribute::If(t), q),
            Err(e) => Err(e),
        }
    } else if str_eq(w, "bits") {
        if !at_paren_open(ts, p + 1) {
            return Err(syntax(p + 1, "`ParenOpen`"));
        }
        let a = match integer_at_exec(ts, p + 2) {
            None => {
                return Err(syntax(p + 2, "an integer"));
            },
            Some(a) => a,
        };
        if !at_comma(ts, p + 3) {
            return Err(syntax(p + 3, "`Comma`"));
        }
        let b = match integer_at_exec(ts, p + 4) {
            None => {
                return Err(syntax(p + 4, "an integer"));
            },
            Some(b) => b,
        };
        if at_paren_close(ts, p + 5) {
            close_bracket_attr(ts, FieldAttribute::Bits(a as usize, b as usize), p + 6)
        } else {
            Err(syntax(p + 5, "`ParenClose`"))
        }
    } else if str_eq(w, "bit") {
        match paren_integer_exec(ts, p + 1) {
            Ok((v, q)) => close_bracket_attr(ts, FieldAttribute::Bit(v as usize), q),
            Err(e) => Err(e),
        }
    } else if str_eq(w, "endian") {
        match paren_endian_exec(ts, p + 1) {
            Ok((e, q)) => close_bracket_attr(ts, FieldAttribute::Endian(e), q),
            Err(e) => Err(e),
        }
    } else if str_eq(w, "checksum") {
        match paren_ident_exec(ts, p + 1) {
            Ok((a, q)) => match checksum_named_exec(&a) {
                Some(alg) => close_bracket_attr(ts, FieldAttribute::Checksum(alg), q),
                None => Err(ParseFailure::UnknownChecksum),
            },
            Err(e) => Err(e),
        }
    } else {
        Err(syntax(p, "a field attribute"))
    }
}

/// Reads the field attributes from `p` on.
fn parse_field_attrs_exec(ts: &Vec<Token>, p: usize) -> (r: Result<
    (Vec<FieldAttribute>, usize),
    ParseFailure,
>)
    requires
        p <= ts@.len(),
    ensures
        match r {
            Ok((v, q)) => parse_field_attrs(tokens_view(ts@), p as nat, Seq::empty()) == Ok::<
                (Seq<FieldAttributeV>, nat),
                ParseErrorV,
            >((attrs_view(v@), q as nat)) && p <= q <= ts@.len(),
            Err(e) => parse_field_attrs(tokens_view(ts@), p as nat, Seq::empty()) == Err::<
                (Seq<FieldAttributeV>, nat),
                ParseErrorV,
            >(e@),
        },
{
    let ghost tv = tokens_view(ts@);
    let n = ts.len();
    let mut attrs: Vec<FieldAttribute> = Vec::new();
    let mut q = p;
    proof {
        assert(tv.len() == n);
        assert(attrs_view(attrs@) =~= Seq::<FieldAttributeV>::empty());
    }
    while at_hash(ts, q)
        invariant
            p <= q <= ts@.len(),
            tv == tokens_view(ts@),
            tv.len() == n,
            n == ts@.len(),
            parse_field_attrs(tv, p as nat, Seq::empty()) == parse_field_attrs(
                tv,
                q as nat,
                attrs_view(attrs@),
            ),
        decreases ts@.len() - q,
    {
        if !at_bracket_open(ts, q + 1) {
            return Err(syntax(q + 1, "`BracketOpen`"));
        }
        match field_attr_body_exec(ts, q + 2) {
            Err(e) => {
                return Err(e);
            },
            Ok((a, k)) => {
                let ghost av = a@;
                proof {
                    assert(attrs_view(attrs@.push(a)) =~= attrs_view(attrs@).push(av));
                }
                attrs.push(a);
                q = k;
            },
        }
    }
    Ok((attrs, q))
}

/// The view of a field result.
pub open spec fn field_result(r: Result<(Field, usize), ParseFailure>) -> Parsed<FieldV> {
    match r {
        Ok((f, q)) => Ok((f@, q as nat)),
        Err(e) => Err(e@),
    }
}

/// Reads a field at `p`.
fn parse_field_exec(ts: &Vec<Token>, p: usize) -> (r: Result<(Field, usize), ParseFailure>)
    requires
        p <= ts@.len(),
    ensures
        field_result(r) == parse_field(tokens_view(ts@), p as nat),
        r matches Ok((_, q)) ==> p < q <= ts@.len(),
{
    let n = ts.len();
    proof {
        assert(tokens_view(ts@).len() == n);
    }
    let (docs, q0) = parse_docs_exec(ts, p);
    let (attrs, q1) = match parse_field_attrs_exec(ts, q0) {
        Err(e) => {
            return Err(e);
        },
        Ok(x) => x,
    };
    let name = match ident_at_exec(ts, q1) {
        None => {
            return Err(syntax(q1, "an identifier"));
        },
        Some(s) => s.clone(),
    };
    if !at_colon(ts, q1 + 1) {
        return Err(syntax(q1 + 1, "`Colon`"));
    }
    let (ty, q2) = match parse_type_exec(ts, q1 + 2) {
        Err(e) => {
            return Err(e);
        },
        Ok(x) => x,
    };
    let mut value: Option<Value> = None;
    let mut q3 = q2;
    if at_equals(ts, q2) {
        match parse_value_exec(ts, q2 + 1) {
            Err(e) => {
                return Err(e);
            },
            Ok((v, k)) => {
                value = Some(v);
                q3 = k;
            },
        }
    }
    let q4 = if at_comma(ts, q3) {
        q3 + 1
    } else {
        q3
    };
    let doc = doc_of_exec(&docs);
    let f = Field { name, ty, value, attributes: attrs, doc };
    proof {
        assert(f@.attributes == attrs_view(f.attributes@));
    }
    Ok((f, q4))
}

} // verus!

verus! {

/// The view of a struct attribute.
pub open spec fn struct_attr_view(a: StructAttribute) -> StructAttrV {
    match a {
        StructAttribute::Send => StructAttrV::Send,
        StructAttribute::Receive => StructAttrV::Receive,
        StructAttribute::Endian(e) => StructAttrV::Endian(e),
    }
}

/// The views of a list of struct attributes.
pub open spec fn struct_attrs_view(v: Seq<StructAttribute>) -> Seq<StructAttrV> {
    v.map_values(|a: StructAttribute| struct_attr_view(a))
}

/// Reads the struct attributes from `p` on.
fn parse_struct_attrs_exec(ts: &Vec<Token>, p: usize) -> (r: Result<
    (Vec<StructAttribute>, usize),
    ParseFailure,
>)
    requires
        p <= ts@.len(),
    ensures
        match r {
            Ok((v, q)) => parse_struct_attrs(tokens_view(ts@), p as nat, Seq::empty()) == Ok::<
                (Seq<StructAttrV>, nat),
                ParseErrorV,
            >((struct_attrs_view(v@), q as nat)) && p <= q <= ts@.len(),
            Err(e) => parse_struct_attrs(tokens_view(ts@), p as nat, Seq::empty()) == Err::<
                (Seq<StructAttrV>, nat),
                ParseErrorV,
            >(e@),
        },
{
    let ghost tv = tokens_view(ts@);
    let n = ts.len();
    let mut attrs: Vec<StructAttribute> = Vec::new();
    let mut q = p;
    proof {
        assert(tv.len() == n);
        assert(struct_attrs_view(attrs@) =~= Seq::<StructAttrV>::empty());
    }
    while at_hash(ts, q)
        invariant
            p <= q <= ts@.len(),
            tv == tokens_view(ts@),
            tv.len() == n,
            n == ts@.len(),
            parse_struct_attrs(tv, p as nat, Seq::empty()) == parse_struct_attrs(
                tv,
                q as nat,
                struct_attrs_view(attrs@),
            ),
        decreases ts@.len() - q,
    {
        if !at_bracket_open(ts, q + 1) {
            return Err(syntax(q + 1, "`BracketOpen`"));
        }
        let a: StructAttribute;
        let k: usize;
        if is_word_exec(ts, q + 2, "send") {
            a = StructAttribute::Send;
            k = q + 3;
        } else if is_word_exec(ts, q + 2, "receive") {
            a = StructAttribute::Receive;
            k = q + 3;
        } else if is_word_exec(ts, q + 2, "endian") {
            match paren_endian_exec(ts, q + 3) {
                Ok((e, j)) => {
                    a = StructAttribute::Endian(e);
                    k = j;
                },
                Err(e) => {
                    return Err(e);
                },
            }
        } else {
            return Err(syntax(q + 2, "a struct attribute"));
        }
        if !at_bracket_close(ts, k) {
            return Err(syntax(k, "`BracketClose`"));
        }
        proof {
            assert(struct_attrs_view(attrs@.push(a)) =~= struct_attrs_view(attrs@).push(
                struct_attr_view(a),
            ));
        }
        attrs.push(a);
        q = k + 1;
    }
    Ok((attrs, q))
}

/// The direction struct attributes give.
fn attrs_direction_exec(attrs: &Vec<StructAttribute>) -> (r: (Option<Direction>, bool))
    ensures
        r.0 == attrs_direction(struct_attrs_view(attrs@)),
        r.1 == (struct_attrs_view(attrs@).contains(StructAttrV::Send) && struct_attrs_view(
            attrs@,
        ).contains(StructAttrV::Receive)),
{
    let ghost av = struct_attrs_view(attrs@);
    let mut send = false;
    let mut receive = false;
    let mut i: usize = 0;
    while i < attrs.len()
        invariant
            i <= attrs@.len(),
            av == struct_attrs_view(attrs@),
            send == (exists|j: int| 0 <= j < i && #[trigger] av[j] == StructAttrV::Send),
            receive == (exists|j: int| 0 <= j < i && #[trigger] av[j] == StructAttrV::Receive),
        decreases attrs@.len() - i,
    {
        match attrs[i] {
            StructAttribute::Send => {
                proof {
                    assert(av[i as int] == StructAttrV::Send);
                }
                send = true;
            },
            StructAttribute::Receive => {
                proof {
                    assert(av[i as int] == StructAttrV::Receive);
                }
                receive = true;
            },
            _ => {
                proof {
                    assert(av[i as int] != StructAttrV::Send);
                    assert(av[i as int] != StructAttrV::Receive);
                }
            },
        }
        i = i + 1;
    }
    let dir = if send {
        Some(Direction::Send)
    } else if receive {
        Some(Direction::Receive)
    } else {
        None
    };
    (dir, send && receive)
}

/// The first byte order among struct attributes.
fn attrs_endian_exec(attrs: &Vec<StructAttribute>) -> (r: Option<Endianness>)
    ensures
        r == attrs_endian(struct_attrs_view(attrs@)),
{
    let ghost av = struct_attrs_view(attrs@);
    let mut i: usize = 0;
    proof {
        assert(av.skip(0) == av);
    }
    while i < attrs.len()
        invariant
            i <= attrs@.len(),
            av == struct_attrs_view(attrs@),
            attrs_endian(av) == attrs_endian(av.skip(i as int)),
        decreases attrs@.len() - i,
    {
        proof {
            assert(av.skip(i as int).drop_first() == av.skip(i + 1));
            assert(av.skip(i as int)[0] == struct_attr_view(attrs@[i as int]));
        }
        match attrs[i] {
            StructAttribute::Endian(e) => {
                return Some(e);
            },
            _ => {},
        }
        i = i + 1;
    }
    None
}

/// The view of a struct-definition result.
pub open spec fn struct_result(r: Result<(StructDef, usize), ParseFailure>) -> Parsed<StructDefV> {
    match r {
        Ok((d, q)) => Ok((d@, q as nat)),
        Err(e) => Err(e@),
    }
}

/// Reads a struct definition at `p`.
fn parse_struct_exec(ts: &Vec<Token>, p: usize) -> (r: Result<(StructDef, usize), ParseFailure>)
    requires
        p <= ts@.len(),
    ensures
        struct_result(r) == parse_struct(tokens_view(ts@), p as nat),
        r matches Ok((_, q)) ==> p < q <= ts@.len(),
{
    let ghost tv = tokens_view(ts@);
    let n = ts.len();
    proof {
        assert(tv.len() == n);
    }
    let (docs, q0) = parse_docs_exec(ts, p);
    let (attrs, q1) = match parse_struct_attrs_exec(ts, q0) {
        Err(e) => {
            return Err(e);
        },
        Ok(x) => x,
    };
    if !at_struct(ts, q1) {
        return Err(syntax(q1, "`Struct`"));
    }
    let name = match ident_at_exec(ts, q1 + 1) {
        None => {
            return Err(syntax(q1 + 1, "an identifier"));
        },
        Some(s) => s.clone(),
    };
    if !at_brace_open(ts, q1 + 2) {
        return Err(syntax(q1 + 2, "`BraceOpen`"));
    }
    let mut fields: Vec<Field> = Vec::new();
    let mut q = q1 + 3;
    proof {
        assert(fields_view(fields@) =~= Seq::<FieldV>::empty());
    }
    while q < ts.len() && (matches!(ts[q], Token::DocComment(_)) || matches!(ts[q], Token::Hash)
        || matches!(ts[q], Token::Ident(_)))
        invariant
            q1 + 3 <= q <= ts@.len(),
            tv == tokens_view(ts@),
            tv.len() == n,
            n == ts@.len(),
            parse_fields(tv, (q1 + 3) as nat, Seq::empty()) == parse_fields(
                tv,
                q as nat,
                fields_view(fields@),
            ),
            parse_fields(tv, (q1 + 3) as nat, Seq::empty()) matches Err(e) ==> parse_struct(
                tv,
                p as nat,
            ) == Err::<(StructDefV, nat), ParseErrorV>(e),
        decreases ts@.len() - q,
    {
        match parse_field_exec(ts, q) {
            Err(e) => {
                proof {
                    assert(starts_field(tv, q as nat));
                }
                return Err(e);
            },
            Ok((f, k)) => {
                proof {
                    assert(starts_field(tv, q as nat));
                }
                let ghost fv = f@;
                proof {
                    assert(fields_view(fields@.push(f)) =~= fields_view(fields@).push(fv));
                }
                fields.push(f);
                q = k;
            },
        }
    }
    proof {
        assert(parse_fields(tv, (q1 + 3) as nat, Seq::empty()) == Ok::<
            (Seq<FieldV>, nat),
            ParseErrorV,
        >((fields_view(fields@), q as nat)));
    }
    if !at_brace_close(ts, q) {
        return Err(syntax(q, "`BraceClose`"));
    }
    let (direction, both) = attrs_direction_exec(&attrs);
    if both {
        return Err(
            ParseFailure::Custom(
                p,
                String::from_str("struct cannot have both #[send] and #[receive] attributes"),
            ),
        );
    }
    let endian = attrs_endian_exec(&attrs);
    let doc = doc_of_exec(&docs);
    Ok((StructDef { name, direction, fields, doc, endian }, q + 1))
}

} // verus!

verus! {

/// The view of a file-attribute result.
pub open spec fn file_attr_result(r: Result<(FileAttribute, usize), ParseFailure>) -> Parsed<
    FileAttributeV,
> {
    match r {
        Ok((a, q)) => Ok((a@, q as nat)),
        Err(e) => Err(e@),
    }
}

fn close_bracket_file(ts: &Vec<Token>, x: FileAttribute, q: usize) -> (r: Result<
    (FileAttribute, usize),
    ParseFailure,
>)
    requires
        q <= ts@.len(),
    ensures
        file_attr_result(r) == close_bracket(tokens_view(ts@), x@, q as nat),
        r matches Ok((_, k)) ==> q < k <= ts@.len(),
{
    let n = ts.len();
    proof {
        assert(tokens_view(ts@).len() == n);
    }
    if at_bracket_close(ts, q) {
        Ok((x, q + 1))
    } else {
        Err(syntax(q, "`BracketClose`"))
    }
}

/// Reads a file attribute `#![..]` at `p`.
fn parse_file_attr_exec(ts: &Vec<Token>, p: usize) -> (r: Result<(FileAttribute, usize), ParseFailure>)
    requires
        p <= ts@.len(),
    ensures
        file_attr_result(r) == parse_file_attr(tokens_view(ts@), p as nat),
        r matches Ok((_, q)) ==> p < q <= ts@.len(),
{
    let n = ts.len();
    proof {
        assert(tokens_view(ts@).len() == n);
    }
    if !at_hash(ts, p) {
        return Err(syntax(p, "`Hash`"));
    }
    if !at_exclamation(ts, p + 1) {
        return Err(syntax(p + 1, "`Exclamation`"));
    }
    if !at_bracket_open(ts, p + 2) {
        return Err(syntax(p + 2, "`BracketOpen`"));
    }
    let k = p + 3;
    if is_word_exec(ts, k, "version") {
        match paren_string_exec(ts, k + 1) {
            Ok((s, q)) => close_bracket_file(ts, FileAttribute::Version(s), q),
            Err(e) => Err(e),
        }
    } else if is_word_exec(ts, k, "endian") {
        match paren_endian_exec(ts, k + 1) {
            Ok((e, q)) => close_bracket_file(ts, FileAttribute::Endian(e), q),
            Err(e) => Err(e),
        }
    } else if is_word_exec(ts, k, "import_path") {
        match paren_string_exec(ts, k + 1) {
            Ok((s, q)) => close_bracket_file(ts, FileAttribute::ImportPath(s), q),
            Err(e) => Err(e),
        }
    } else if is_word_exec(ts, k, "doc") {
        match paren_string_exec(ts, k + 1) {
            Ok((s, q)) => close_bracket_file(ts, FileAttribute::Doc(s), q),
            Err(e) => Err(e),
        }
    } else if is_word_exec(ts, k, "prefix") {
        match paren_ident_exec(ts, k + 1) {
            Ok((w, q)) => {
                if str_eq(w.as_str(), "disable") {
                    close_bracket_file(ts, FileAttribute::PrefixDisabled, q)
                } else {
                    Err(syntax(k + 2, "`disable`"))
                }
            },
            Err(e) => Err(e),
        }
    } else {
        Err(syntax(k, "a file attribute"))
    }
}

/// Reads a whole schema from its tokens.
pub fn parse_schema_tokens(ts: &Vec<Token>) -> (r: Result<Schema, ParseFailure>)
    ensures
        match parse_tokens(tokens_view(ts@)) {
            Ok(s) => r matches Ok(x) && x@ == s,
            Err(e) => r matches Err(x) && x@ == e,
        },
{
    let ghost tv = tokens_view(ts@);
    let n = ts.len();
    proof {
        assert(tv.len() == n);
    }
    let mut schema = Schema::new();
    let ghost mut av: Seq<FileAttributeV> = Seq::empty();
    let mut p: usize = 0;
    proof {
        assert(schema@ == schema_from(av, Seq::empty(), Seq::empty()));
    }
    while at_hash(ts, p) && at_exclamation(ts, p + 1)
        invariant
            p <= ts@.len(),
            tv == tokens_view(ts@),
            tv.len() == n,
            n == ts@.len(),
            parse_file_attrs(tv, 0, Seq::empty()) == parse_file_attrs(tv, p as nat, av),
            schema@ == schema_from(av, Seq::empty(), Seq::empty()),
        decreases ts@.len() - p,
    {
        match parse_file_attr_exec(ts, p) {
            Err(e) => {
                return Err(e);
            },
            Ok((a, q)) => {
                proof {
                    av = av.push(a@);
                }
                schema.add_file_attribute(a);
                p = q;
            },
        }
    }
    let p1 = p;
    let ghost mut iv: Seq<ImportV> = Seq::empty();
    loop
        invariant
            p1 <= p <= ts@.len(),
            tv == tokens_view(ts@),
            tv.len() == n,
            n == ts@.len(),
            parse_tokens(tv) == tokens_after_attrs(tv, av, p1 as nat),
            parse_imports(tv, p1 as nat, Seq::empty()) == parse_imports(tv, p as nat, iv),
            schema@ == schema_from(av, iv, Seq::empty()),
        ensures
            p1 <= p <= ts@.len(),
            parse_tokens(tv) == tokens_after_attrs(tv, av, p1 as nat),
            parse_imports(tv, p1 as nat, Seq::empty()) == Ok::<(Seq<ImportV>, nat), ParseErrorV>(
                (iv, p as nat),
            ),
            schema@ == schema_from(av, iv, Seq::empty()),
        decreases ts@.len() - p,
    {
        let (docs, q) = parse_docs_exec(ts, p);
        if !at_import(ts, q) {
            break;
        }
        match paren_string_exec(ts, q + 1) {
            Err(e) => {
                return Err(e);
            },
            Ok((path, r)) => {
                let doc = doc_of_exec(&docs);
                let imp = Import { path, doc };
                proof {
                    iv = iv.push(imp@);
                }
                schema.add_import(imp);
                p = r;
            },
        }
    }
    let p2 = p;
    let ghost mut sv: Seq<StructDefV> = Seq::empty();
    while p < ts.len() && (matches!(ts[p], Token::DocComment(_)) || matches!(ts[p], Token::Hash)
        || matches!(ts[p], Token::Struct))
        invariant
            p2 <= p <= ts@.len(),
            tv == tokens_view(ts@),
            tv.len() == n,
            n == ts@.len(),
            parse_tokens(tv) == tokens_after_imports(tv, av, iv, p2 as nat),
            parse_structs(tv, p2 as nat, Seq::empty()) == parse_structs(tv, p as nat, sv),
            schema@ == schema_from(av, iv, sv),
        decreases ts@.len() - p,
    {
        proof {
            assert(starts_struct(tv, p as nat));
        }
        match parse_struct_exec(ts, p) {
            Err(e) => {
                return Err(e);
            },
            Ok((d, q)) => {
                proof {
                    let s2 = sv.push(d@);
                    assert(s2.drop_last() == sv);
                    sv = s2;
                }
                schema.add_struct(d);
                p = q;
            },
        }
    }
    if p < ts.len() {
        return Err(syntax(p, "end of input"));
    }
    Ok(schema)
}

} // verus!
