//! Parsing schema text: lexing, parsing, and the line and column of an error.

use vstd::prelude::*;
use vstd::utf8::{encode_scalar, encode_utf8};
use crate::ast::{Schema, SchemaV};
use crate::error::{parse_error_at, CoreError, ErrorView};
use crate::lexer::{lemma_lex_bounds, lex, tokenize, Token, TokenV, spanned_view};
use crate::parser::{parse_schema_tokens, parse_tokens, tokens_view, ParseErrorV, ParseFailure};
use crate::text::{
    chars_to_string, decimal, push_decimal, push_signed_decimal, push_str, push_string,
    signed_decimal, str_to_chars,
};

verus! {

/// The number of bytes the UTF-8 encoding of the first `k` characters takes.
pub open spec fn byte_offset(s: Seq<char>, k: nat) -> nat {
    encode_utf8(s.take(k as int)).len()
}

/// The number of line feeds in `s`.
pub open spec fn newline_count(s: Seq<char>) -> nat
    decreases s.len(),
{
    if s.len() == 0 {
        0
    } else {
        newline_count(s.drop_last()) + if s.last() == '\n' {
            1nat
        } else {
            0nat
        }
    }
}

/// The index of the last line feed before index `k`.
pub open spec fn last_newline(s: Seq<char>, k: nat) -> Option<nat>
    decreases k,
{
    if k == 0 {
        None
    } else if s[k - 1] == '\n' {
        Some((k - 1) as nat)
    } else {
        last_newline(s, (k - 1) as nat)
    }
}

/// The line (counted from one) of the character at index `k`: one more
/// than the number of line feeds before it.
pub open spec fn line_at(s: Seq<char>, k: nat) -> nat {
    newline_count(s.take(k as int)) + 1
}

/// The column of the character at index `k`: its byte offset plus one on
/// the first line, else its byte distance from the last line feed.
pub open spec fn column_at(s: Seq<char>, k: nat) -> nat {
    match last_newline(s, k) {
        None => byte_offset(s, k) + 1,
        Some(j) => (byte_offset(s, k) - byte_offset(s, j)) as nat,
    }
}

/// A syntax error located at the character at index `k`.
pub open spec fn error_at(s: Seq<char>, k: nat, message: Seq<char>) -> ErrorView {
    parse_error_at(line_at(s, k) as usize, column_at(s, k) as usize, message)
}

/// The text form of a token, such as `Struct`, `Ident("x")` or `Integer(Some(5))`.
pub open spec fn token_text(t: TokenV) -> Seq<char> {
    match t {
        TokenV::DocComment(s) => "DocComment(\""@ + s + "\")"@,
        TokenV::Struct => "Struct"@,
        TokenV::Pub => "Pub"@,
        TokenV::Import => "Import"@,
        TokenV::True => "True"@,
        TokenV::False => "False"@,
        TokenV::U8 => "U8"@,
        TokenV::U16 => "U16"@,
        TokenV::U32 => "U32"@,
        TokenV::U64 => "U64"@,
        TokenV::U128 => "U128"@,
        TokenV::I8 => "I8"@,
        TokenV::I16 => "I16"@,
        TokenV::I32 => "I32"@,
        TokenV::I64 => "I64"@,
        TokenV::I128 => "I128"@,
        TokenV::F32 => "F32"@,
        TokenV::F64 => "F64"@,
        TokenV::Bool => "Bool"@,
        TokenV::Str => "String"@,
        TokenV::Bytes => "Bytes"@,
        TokenV::Vec => "Vec"@,
        TokenV::BraceOpen => "BraceOpen"@,
        TokenV::BraceClose => "BraceClose"@,
        TokenV::BracketOpen => "BracketOpen"@,
        TokenV::BracketClose => "BracketClose"@,
        TokenV::ParenOpen => "ParenOpen"@,
        TokenV::ParenClose => "ParenClose"@,
        TokenV::Colon => "Colon"@,
        TokenV::Semicolon => "Semicolon"@,
        TokenV::Comma => "Comma"@,
        TokenV::Equals => "Equals"@,
        TokenV::DoubleColon => "DoubleColon"@,
        TokenV::Dot => "Dot"@,
        TokenV::Hash => "Hash"@,
        TokenV::Exclamation => "Exclamation"@,
        TokenV::LessThan => "LessThan"@,
        TokenV::GreaterThan => "GreaterThan"@,
        TokenV::Ident(s) => "Ident(\""@ + s + "\")"@,
        TokenV::Integer(Some(n)) => "Integer(Some("@ + signed_decimal(n as int) + "))"@,
        TokenV::Integer(None) => "Integer(None)"@,
        TokenV::Float(lit) => "Float(Some("@ + lit + "))"@,
        TokenV::StringLiteral(s) => "StringLiteral(\""@ + s + "\")"@,
        TokenV::HexNumber(Some(n)) => "HexNumber(Some("@ + decimal(n as nat) + "))"@,
        TokenV::HexNumber(None) => "HexNumber(None)"@,
    }
}

/// The character index an error at token `q` is reported at: the token's
/// start, or the end of the last token when `q` is past them.
pub open spec fn error_position(toks: Seq<(TokenV, nat, nat)>, q: nat) -> nat {
    if q < toks.len() {
        toks[q as int].1
    } else if toks.len() > 0 {
        toks.last().2
    } else {
        0
    }
}

/// What was found at token `q`: the token, or the end of the input.
pub open spec fn found_text(toks: Seq<(TokenV, nat, nat)>, q: nat) -> Seq<char> {
    if q < toks.len() {
        "`"@ + token_text(toks[q as int].0) + "`"@
    } else {
        "end of input"@
    }
}

/// The tokens without their ranges.
pub open spec fn bare_tokens(toks: Seq<(TokenV, nat, nat)>) -> Seq<TokenV> {
    toks.map_values(|e: (TokenV, nat, nat)| e.0)
}

/// Parsing schema text: the schema, or a syntax error with its line and
/// column. `None` where a `#[checksum(..)]` names no known algorithm.
pub open spec fn spec_parse_schema(s: Seq<char>) -> Option<Result<SchemaV, ErrorView>> {
    match lex(s) {
        Err(i) => Some(Err(error_at(s, i, "invalid token"@))),
        Ok(toks) => match parse_tokens(bare_tokens(toks)) {
            Ok(schema) => Some(Ok(schema)),
            Err(ParseErrorV::UnknownChecksum) => None,
            Err(ParseErrorV::Syntax(q, expected)) => Some(
                Err(
                    error_at(
                        s,
                        error_position(toks, q),
                        "expected "@ + expected + ", but found "@ + found_text(toks, q),
                    ),
                ),
            ),
            Err(ParseErrorV::Custom(q, message)) => Some(
                Err(error_at(s, error_position(toks, q), message)),
            ),
        },
    }
}

} // verus!

verus! {

proof fn lemma_encode_append(a: Seq<char>, b: Seq<char>)
    ensures
        encode_utf8(a + b) == encode_utf8(a) + encode_utf8(b),
    decreases a.len(),
{
    if a.len() == 0 {
        assert(a + b == b);
        assert(encode_utf8(a) + encode_utf8(b) == encode_utf8(b));
    } else {
        assert((a + b).drop_first() == a.drop_first() + b);
        assert((a + b)[0] == a[0]);
        lemma_encode_append(a.drop_first(), b);
        assert(encode_utf8(a + b) == encode_scalar(a[0] as u32) + encode_utf8(a.drop_first() + b));
        assert(encode_utf8(a) == encode_scalar(a[0] as u32) + encode_utf8(a.drop_first()));
        assert(encode_scalar(a[0] as u32) + (encode_utf8(a.drop_first()) + encode_utf8(b))
            =~= (encode_scalar(a[0] as u32) + encode_utf8(a.drop_first())) + encode_utf8(b));
    }
}

proof fn lemma_byte_offset_step(s: Seq<char>, i: nat)
    requires
        i < s.len(),
    ensures
        byte_offset(s, i + 1) == byte_offset(s, i) + encode_scalar(s[i as int] as u32).len(),
        byte_offset(s, i) <= encode_utf8(s).len(),
        byte_offset(s, i + 1) <= encode_utf8(s).len(),
{
    let t = s.take(i as int);
    assert(s.take(i + 1 as int) == t + seq![s[i as int]]);
    lemma_encode_append(t, seq![s[i as int]]);
    let one = seq![s[i as int]];
    assert(one.drop_first() =~= Seq::<char>::empty());
    assert(encode_utf8(one) == encode_scalar(s[i as int] as u32) + encode_utf8(Seq::<char>::empty()));
    assert(encode_utf8(one) =~= encode_scalar(s[i as int] as u32));
    assert(s == s.take(i + 1 as int) + s.skip(i + 1 as int));
    lemma_encode_append(s.take(i + 1 as int), s.skip(i + 1 as int));
    assert(s.take(i + 1 as int) == t + one);
    lemma_encode_append(t, one);
}

/// The number of bytes the UTF-8 encoding of `c` takes.
fn char_width(c: char) -> (r: usize)
    ensures
        r == encode_scalar(c as u32).len(),
{
    proof {
        vstd::utf8::char_is_scalar(c);
    }
    let u = c as u32;
    if u <= 0x7f {
        1
    } else if u <= 0x7ff {
        2
    } else if u <= 0xffff {
        3
    } else {
        4
    }
}

/// The line and column of the character at index `k`.
pub fn line_col(s: &Vec<char>, k: usize) -> (r: (usize, usize))
    requires
        k <= s@.len(),
        encode_utf8(s@).len() < usize::MAX,
    ensures
        r.0 as nat == line_at(s@, k as nat),
        r.1 as nat == column_at(s@, k as nat),
{
    let mut newlines: usize = 0;
    let mut bytes: usize = 0;
    let mut last_nl: Option<usize> = None;
    let mut last_nl_bytes: usize = 0;
    let mut i: usize = 0;
    proof {
        assert(s@.take(0) =~= Seq::<char>::empty());
    }
    while i < k
        invariant
            i <= k <= s@.len(),
            encode_utf8(s@).len() < usize::MAX,
            newlines as nat == newline_count(s@.take(i as int)),
            newlines <= bytes,
            bytes as nat == byte_offset(s@, i as nat),
            bytes <= encode_utf8(s@).len(),
            match last_newline(s@, i as nat) {
                Some(j) => last_nl matches Some(x) && x as nat == j,
                None => last_nl is None,
            },
            last_nl matches Some(j) ==> j < i && last_nl_bytes as nat == byte_offset(s@, j as nat),
        decreases k - i,
    {
        proof {
            lemma_byte_offset_step(s@, i as nat);
            assert(s@.take(i + 1).drop_last() == s@.take(i as int));
            assert(s@.take(i + 1).last() == s@[i as int]);
        }
        if s[i] == '\n' {
            newlines = newlines + 1;
            last_nl = Some(i);
            last_nl_bytes = bytes;
        }
        bytes = bytes + char_width(s[i]);
        i = i + 1;
    }
    let line = newlines + 1;
    let col = match last_nl {
        None => bytes + 1,
        Some(j) => {
            proof {
                if j + 1 <= k {
                    lemma_offset_mono(s@, j as nat, k as nat);
                }
            }
            bytes - last_nl_bytes
        },
    };
    (line, col)
}

proof fn lemma_offset_mono(s: Seq<char>, a: nat, b: nat)
    requires
        a <= b <= s.len(),
    ensures
        byte_offset(s, a) <= byte_offset(s, b),
    decreases b - a,
{
    if a < b {
        lemma_offset_mono(s, a, (b - 1) as nat);
        lemma_byte_offset_step(s, (b - 1) as nat);
    }
}

/// Appends the text form of a token to `buf`.
fn push_token_text(buf: &mut Vec<char>, t: &Token)
    ensures
        final(buf)@ == old(buf)@ + token_text(t@),
{
    proof {
        reveal_strlit("\"");
        reveal_strlit("\")");
        reveal_strlit("))");
    }
    match t {
        Token::DocComment(s) => {
            push_str(buf, "DocComment(\"");
            push_string(buf, s);
            push_str(buf, "\")");
        },
        Token::Struct => push_str(buf, "Struct"),
        Token::Pub => push_str(buf, "Pub"),
        Token::Import => push_str(buf, "Import"),
        Token::True => push_str(buf, "True"),
        Token::False => push_str(buf, "False"),
        Token::U8 => push_str(buf, "U8"),
        Token::U16 => push_str(buf, "U16"),
        Token::U32 => push_str(buf, "U32"),
        Token::U64 => push_str(buf, "U64"),
        Token::U128 => push_str(buf, "U128"),
        Token::I8 => push_str(buf, "I8"),
        Token::I16 => push_str(buf, "I16"),
        Token::I32 => push_str(buf, "I32"),
        Token::I64 => push_str(buf, "I64"),
        Token::I128 => push_str(buf, "I128"),
        Token::F32 => push_str(buf, "F32"),
        Token::F64 => push_str(buf, "F64"),
        Token::Bool => push_str(buf, "Bool"),
        Token::String => push_str(buf, "String"),
        Token::Bytes => push_str(buf, "Bytes"),
        Token::Vec => push_str(buf, "Vec"),
        Token::BraceOpen => push_str(buf, "BraceOpen"),
        Token::BraceClose => push_str(buf, "BraceClose"),
        Token::BracketOpen => push_str(buf, "BracketOpen"),
        Token::BracketClose => push_str(buf, "BracketClose"),
        Token::ParenOpen => push_str(buf, "ParenOpen"),
        Token::ParenClose => push_str(buf, "ParenClose"),
        Token::Colon => push_str(buf, "Colon"),
        Token::Semicolon => push_str(buf, "Semicolon"),
        Token::Comma => push_str(buf, "Comma"),
        Token::Equals => push_str(buf, "Equals"),
        Token::DoubleColon => push_str(buf, "DoubleColon"),
        Token::Dot => push_str(buf, "Dot"),
        Token::Hash => push_str(buf, "Hash"),
        Token::Exclamation => push_str(buf, "Exclamation"),
        Token::LessThan => push_str(buf, "LessThan"),
        Token::GreaterThan => push_str(buf, "GreaterThan"),
        Token::Ident(s) => {
            push_str(buf, "Ident(\"");
            push_string(buf, s);
            push_str(buf, "\")");
        },
        Token::Integer(Some(n)) => {
            push_str(buf, "Integer(Some(");
            push_signed_decimal(buf, *n);
            push_str(buf, "))");
        },
        Token::Integer(None) => push_str(buf, "Integer(None)"),
        Token::Float(lit) => {
            push_str(buf, "Float(Some(");
            push_string(buf, lit);
            push_str(buf, "))");
        },
        Token::StringLiteral(s) => {
            push_str(buf, "StringLiteral(\"");
            push_string(buf, s);
            push_str(buf, "\")");
        },
        Token::HexNumber(Some(n)) => {
            push_str(buf, "HexNumber(Some(");
            push_decimal(buf, *n as u128);
            push_str(buf, "))");
        },
        Token::HexNumber(None) => push_str(buf, "HexNumber(None)"),
    }
}

/// The tokens of a list of tokens with their ranges.
fn bare_token_list(v: &Vec<(Token, usize, usize)>) -> (r: Vec<Token>)
    ensures
        tokens_view(r@) == bare_tokens(spanned_view(v@)),
{
    let mut r: Vec<Token> = Vec::new();
    let mut i: usize = 0;
    while i < v.len()
        invariant
            i <= v@.len(),
            r@.len() == i,
            forall|j: int| 0 <= j < i ==> #[trigger] r@[j]@ == v@[j].0@,
        decreases v@.len() - i,
    {
        r.push(v[i].0.duplicate());
        i = i + 1;
    }
    assert(tokens_view(r@) =~= bare_tokens(spanned_view(v@)));
    r
}

/// The character index of token `q` for error reports.
fn error_position_exec(v: &Vec<(Token, usize, usize)>, q: usize) -> (r: usize)
    ensures
        r as nat == error_position(spanned_view(v@), q as nat),
{
    if q < v.len() {
        v[q].1
    } else if v.len() > 0 {
        v[v.len() - 1].2
    } else {
        0
    }
}

/// The message of a syntax error at token `q`: what was expected and what was found.
fn syntax_message(v: &Vec<(Token, usize, usize)>, q: usize, expected: &String) -> (msg: Vec<char>)
    ensures
        msg@ == "expected "@ + expected@ + ", but found "@ + found_text(spanned_view(v@), q as nat),
{
    let mut msg: Vec<char> = Vec::new();
    push_str(&mut msg, "expected ");
    push_string(&mut msg, expected);
    push_str(&mut msg, ", but found ");
    let ghost head = msg@;
    if q < v.len() {
        push_str(&mut msg, "`");
        push_token_text(&mut msg, &v[q].0);
        push_str(&mut msg, "`");
        assert(msg@ =~= head + ("`"@ + token_text(v@[q as int].0@) + "`"@));
    } else {
        push_str(&mut msg, "end of input");
    }
    msg
}

/// A syntax error at the character at index `k`.
fn error_at_exec(s: &Vec<char>, k: usize, message: &Vec<char>) -> (e: CoreError)
    requires
        k <= s@.len(),
        encode_utf8(s@).len() < usize::MAX,
    ensures
        e@ == error_at(s@, k as nat, message@),
{
    let (line, col) = line_col(s, k);
    let text = chars_to_string(message.as_slice());
    CoreError::parse_at(line, col, text.as_str())
}

/// Parses schema text, or says that a `#[checksum(..)]` in it names no
/// known algorithm (`None`).
pub fn try_parse_schema(source: &str) -> (r: Option<Result<Schema, CoreError>>)
    requires
        encode_utf8(source@).len() < usize::MAX,
    ensures
        match spec_parse_schema(source@) {
            None => r is None,
            Some(Ok(s)) => r matches Some(Ok(x)) && x@ == s,
            Some(Err(e)) => r matches Some(Err(x)) && x@ == e,
        },
{
    let chars = str_to_chars(source);
    proof {
        lemma_lex_bounds(chars@);
    }
    match tokenize(&chars) {
        Err(i) => {
            let mut msg: Vec<char> = Vec::new();
            push_str(&mut msg, "invalid token");
            Some(Err(error_at_exec(&chars, i, &msg)))
        },
        Ok(spanned) => {
            let ghost toks = spanned_view(spanned@);
            proof {
                assert forall|j: int| 0 <= j < spanned@.len() implies #[trigger] spanned@[j].2 <= chars@.len() && spanned@[j].1 < chars@.len() by {
                    assert(toks[j].1 < toks[j].2 <= chars@.len());
                }
            }
            let tokens = bare_token_list(&spanned);
            match parse_schema_tokens(&tokens) {
                Ok(schema) => Some(Ok(schema)),
                Err(ParseFailure::UnknownChecksum) => None,
                Err(ParseFailure::Syntax(q, expected)) => {
                    let k = error_position_exec(&spanned, q);
                    let msg = syntax_message(&spanned, q, &expected);
                    Some(Err(error_at_exec(&chars, k, &msg)))
                },
                Err(ParseFailure::Custom(q, message)) => {
                    let k = error_position_exec(&spanned, q);
                    let mut msg: Vec<char> = Vec::new();
                    push_string(&mut msg, &message);
                    Some(Err(error_at_exec(&chars, k, &msg)))
                },
            }
        },
    }
}

/// Parses schema text into a schema, or reports the first syntax error with
/// its line and column; a `#[checksum(..)]` naming no known algorithm is a
/// syntax error too.
pub fn parse_schema(source: &str) -> (r: Result<Schema, CoreError>)
    requires
        encode_utf8(source@).len() < usize::MAX,
    ensures
        match spec_parse_schema(source@) {
            Some(Ok(s)) => r matches Ok(x) && x@ == s,
            Some(Err(e)) => r matches Err(x) && x@ == e,
            None => r matches Err(x) && x@ == crate::error::parse_error("unknown checksum algorithm"@),
        },
{
    match try_parse_schema(source) {
        Some(r) => r,
        None => Err(CoreError::parse("unknown checksum algorithm")),
    }
}

} // verus!
