//! The codec's error messages, as spec functions and as builders.

use vstd::prelude::*;
use crate::error::{codec_error, CoreError, ErrorView};
use crate::text::{chars_to_string, decimal, push_decimal, push_str, push_string};

verus! {

/// An encode-failed codec error whose message is held in a character buffer.
pub fn codec_err(context: &str, msg: &Vec<char>) -> (e: CoreError)
    ensures
        e@ == codec_error(context@, msg@),
{
    let m = chars_to_string(msg.as_slice());
    CoreError::Codec {
        kind: crate::error::CodecErrorKind::EncodeFailed,
        context: String::from_str(context),
        message: m,
    }
}

/// `unexpected end of data at offset N`.
pub open spec fn err_unexpected_end(offset: nat) -> ErrorView {
    codec_error("decode"@, "unexpected end of data at offset "@ + decimal(offset))
}

pub fn make_err_unexpected_end(offset: usize) -> (e: CoreError)
    ensures
        e@ == err_unexpected_end(offset as nat),
{
    let mut m: Vec<char> = Vec::new();
    push_str(&mut m, "unexpected end of data at offset ");
    push_decimal(&mut m, offset as u128);
    codec_err("decode", &m)
}

/// `buffer too small: need R bytes at offset O, have L`.
pub open spec fn err_buffer_small(required: nat, offset: nat, len: nat) -> ErrorView {
    codec_error(
        "decode"@,
        "buffer too small: need "@ + decimal(required) + " bytes at offset "@ + decimal(offset)
            + ", have "@ + decimal(len),
    )
}

pub fn make_err_buffer_small(required: usize, offset: usize, len: usize) -> (e: CoreError)
    ensures
        e@ == err_buffer_small(required as nat, offset as nat, len as nat),
{
    let mut m: Vec<char> = Vec::new();
    push_str(&mut m, "buffer too small: need ");
    push_decimal(&mut m, required as u128);
    push_str(&mut m, " bytes at offset ");
    push_decimal(&mut m, offset as u128);
    push_str(&mut m, ", have ");
    push_decimal(&mut m, len as u128);
    proof {
        assert(m@ == "buffer too small: need "@ + decimal(required as nat) + " bytes at offset "@
            + decimal(offset as nat) + ", have "@ + decimal(len as nat));
    }
    codec_err("decode", &m)
}

/// A message made of a fixed text.
pub open spec fn err_fixed(context: Seq<char>, text: Seq<char>) -> ErrorView {
    codec_error(context, text)
}

pub fn make_err_fixed(context: &str, text: &str) -> (e: CoreError)
    ensures
        e@ == err_fixed(context@, text@),
{
    CoreError::codec(context, text)
}

/// A message made of a text, a name, and a text.
pub open spec fn err_named(context: Seq<char>, pre: Seq<char>, name: Seq<char>, post: Seq<char>)
    -> ErrorView {
    codec_error(context, pre + name + post)
}

pub fn make_err_named(context: &str, pre: &str, name: &String, post: &str) -> (e: CoreError)
    ensures
        e@ == err_named(context@, pre@, name@, post@),
{
    let mut m: Vec<char> = Vec::new();
    push_str(&mut m, pre);
    push_string(&mut m, name);
    push_str(&mut m, post);
    proof {
        assert(m@ == pre@ + name@ + post@);
    }
    codec_err(context, &m)
}

/// A message made of a text, a name, a text, a name and a text.
pub open spec fn err_named2(
    context: Seq<char>,
    pre: Seq<char>,
    a: Seq<char>,
    mid: Seq<char>,
    b: Seq<char>,
    post: Seq<char>,
) -> ErrorView {
    codec_error(context, pre + a + mid + b + post)
}

pub fn make_err_named2(
    context: &str,
    pre: &str,
    a: &String,
    mid: &str,
    b: &String,
    post: &str,
) -> (e: CoreError)
    ensures
        e@ == err_named2(context@, pre@, a@, mid@, b@, post@),
{
    let mut m: Vec<char> = Vec::new();
    push_str(&mut m, pre);
    push_string(&mut m, a);
    push_str(&mut m, mid);
    push_string(&mut m, b);
    push_str(&mut m, post);
    proof {
        assert(m@ == pre@ + a@ + mid@ + b@ + post@);
    }
    codec_err(context, &m)
}

/// A message made of a text, a number, a text, a number and a text.
pub open spec fn err_numbers(
    context: Seq<char>,
    pre: Seq<char>,
    a: nat,
    mid: Seq<char>,
    b: nat,
    post: Seq<char>,
) -> ErrorView {
    codec_error(context, pre + decimal(a) + mid + decimal(b) + post)
}

pub fn make_err_numbers(context: &str, pre: &str, a: usize, mid: &str, b: usize, post: &str) -> (e:
    CoreError)
    ensures
        e@ == err_numbers(context@, pre@, a as nat, mid@, b as nat, post@),
{
    let mut m: Vec<char> = Vec::new();
    push_str(&mut m, pre);
    push_decimal(&mut m, a as u128);
    push_str(&mut m, mid);
    push_decimal(&mut m, b as u128);
    push_str(&mut m, post);
    proof {
        assert(m@ == pre@ + decimal(a as nat) + mid@ + decimal(b as nat) + post@);
    }
    codec_err(context, &m)
}

} // verus!

verus! {

/// `N bytes of trailing data after decoding`.
pub open spec fn err_trailing(n: nat) -> ErrorView {
    codec_error("decode"@, decimal(n) + " bytes of trailing data after decoding"@)
}

pub fn make_err_trailing(n: usize) -> (e: CoreError)
    ensures
        e@ == err_trailing(n as nat),
{
    let mut m: Vec<char> = Vec::new();
    push_decimal(&mut m, n as u128);
    push_str(&mut m, " bytes of trailing data after decoding");
    codec_err("decode", &m)
}

} // verus!
