//! The tokens of the schema language and the lexer that reads them from text.

use vstd::prelude::*;
use vstd::slice::slice_subrange;
use crate::ast::str_eq;
use crate::text::chars_to_string;

verus! {

/// A token of the schema language.
#[derive(Debug)]
pub enum Token {
    /// A documentation comment (`/// ...`), trimmed.
    DocComment(String),
    /// `struct`.
    Struct,
    /// `pub`.
    Pub,
    /// `import`.
    Import,
    /// `true`.
    True,
    /// `false`.
    False,
    /// `u8`.
    U8,
    /// `u16`.
    U16,
    /// `u32`.
    U32,
    /// `u64`.
    U64,
    /// `u128`.
    U128,
    /// `i8`.
    I8,
    /// `i16`.
    I16,
    /// `i32`.
    I32,
    /// `i64`.
    I64,
    /// `i128`.
    I128,
    /// `f32`.
    F32,
    /// `f64`.
    F64,
    /// `bool`.
    Bool,
    /// `String`.
    String,
    /// `Bytes`.
    Bytes,
    /// `Vec`.
    Vec,
    /// `{`.
    BraceOpen,
    /// `}`.
    BraceClose,
    /// `[`.
    BracketOpen,
    /// `]`.
    BracketClose,
    /// `(`.
    ParenOpen,
    /// `)`.
    ParenClose,
    /// `:`.
    Colon,
    /// `;`.
    Semicolon,
    /// `,`.
    Comma,
    /// `=`.
    Equals,
    /// `::`.
    DoubleColon,
    /// `.`.
    Dot,
    /// `#`.
    Hash,
    /// `!`.
    Exclamation,
    /// `<`.
    LessThan,
    /// `>`.
    GreaterThan,
    /// An identifier.
    Ident(String),
    /// A decimal integer; `None` when it does not fit in `i128`.
    Integer(Option<i128>),
    /// A decimal number with a fractional part, as written.
    Float(String),
    /// A string literal, without its quotes.
    StringLiteral(String),
    /// A hexadecimal number; `None` when it does not fit in `u64`.
    HexNumber(Option<u64>),
}

/// The mathematical content of a [`Token`].
pub enum TokenV {
    DocComment(Seq<char>),
    Struct,
    Pub,
    Import,
    True,
    False,
    U8,
    U16,
    U32,
    U64,
    U128,
    I8,
    I16,
    I32,
    I64,
    I128,
    F32,
    F64,
    Bool,
    Str,
    Bytes,
    Vec,
    BraceOpen,
    BraceClose,
    BracketOpen,
    BracketClose,
    ParenOpen,
    ParenClose,
    Colon,
    Semicolon,
    Comma,
    Equals,
    DoubleColon,
    Dot,
    Hash,
    Exclamation,
    LessThan,
    GreaterThan,
    Ident(Seq<char>),
    Integer(Option<i128>),
    Float(Seq<char>),
    StringLiteral(Seq<char>),
    HexNumber(Option<u64>),
}

impl View for Token {
    type V = TokenV;

    open spec fn view(&self) -> TokenV {
        match self {
            Token::DocComment(s) => TokenV::DocComment(s@),
            Token::Struct => TokenV::Struct,
            Token::Pub => TokenV::Pub,
            Token::Import => TokenV::Import,
            Token::True => TokenV::True,
            Token::False => TokenV::False,
            Token::U8 => TokenV::U8,
            Token::U16 => TokenV::U16,
            Token::U32 => TokenV::U32,
            Token::U64 => TokenV::U64,
            Token::U128 => TokenV::U128,
            Token::I8 => TokenV::I8,
            Token::I16 => TokenV::I16,
            Token::I32 => TokenV::I32,
            Token::I64 => TokenV::I64,
            Token::I128 => TokenV::I128,
            Token::F32 => TokenV::F32,
            Token::F64 => TokenV::F64,
            Token::Bool => TokenV::Bool,
            Token::String => TokenV::Str,
            Token::Bytes => TokenV::Bytes,
            Token::Vec => TokenV::Vec,
            Token::BraceOpen => TokenV::BraceOpen,
            Token::BraceClose => TokenV::BraceClose,
            Token::BracketOpen => TokenV::BracketOpen,
            Token::BracketClose => TokenV::BracketClose,
            Token::ParenOpen => TokenV::ParenOpen,
            Token::ParenClose => TokenV::ParenClose,
            Token::Colon => TokenV::Colon,
            Token::Semicolon => TokenV::Semicolon,
            Token::Comma => TokenV::Comma,
            Token::Equals => TokenV::Equals,
            Token::DoubleColon => TokenV::DoubleColon,
            Token::Dot => TokenV::Dot,
            Token::Hash => TokenV::Hash,
            Token::Exclamation => TokenV::Exclamation,
            Token::LessThan => TokenV::LessThan,
            Token::GreaterThan => TokenV::GreaterThan,
            Token::Ident(s) => TokenV::Ident(s@),
            Token::Integer(n) => TokenV::Integer(*n),
            Token::Float(s) => TokenV::Float(s@),
            Token::StringLiteral(s) => TokenV::StringLiteral(s@),
            Token::HexNumber(n) => TokenV::HexNumber(*n),
        }
    }
}

impl Token {
    /// A token equal to this one.
    pub fn duplicate(&self) -> (r: Token)
        ensures
            r@ == self@,
    {
        match self {
            Token::DocComment(s) => Token::DocComment(s.clone()),
            Token::Struct => Token::Struct,
            Token::Pub => Token::Pub,
            Token::Import => Token::Import,
            Token::True => Token::True,
            Token::False => Token::False,
            Token::U8 => Token::U8,
            Token::U16 => Token::U16,
            Token::U32 => Token::U32,
            Token::U64 => Token::U64,
            Token::U128 => Token::U128,
            Token::I8 => Token::I8,
            Token::I16 => Token::I16,
            Token::I32 => Token::I32,
            Token::I64 => Token::I64,
            Token::I128 => Token::I128,
            Token::F32 => Token::F32,
            Token::F64 => Token::F64,
            Token::Bool => Token::Bool,
            Token::String => Token::String,
            Token::Bytes => Token::Bytes,
            Token::Vec => Token::Vec,
            Token::BraceOpen => Token::BraceOpen,
            Token::BraceClose => Token::BraceClose,
            Token::BracketOpen => Token::BracketOpen,
            Token::BracketClose => Token::BracketClose,
            Token::ParenOpen => Token::ParenOpen,
            Token::ParenClose => Token::ParenClose,
            Token::Colon => Token::Colon,
            Token::Semicolon => Token::Semicolon,
            Token::Comma => Token::Comma,
            Token::Equals => Token::Equals,
            Token::DoubleColon => Token::DoubleColon,
            Token::Dot => Token::Dot,
            Token::Hash => Token::Hash,
            Token::Exclamation => Token::Exclamation,
            Token::LessThan => Token::LessThan,
            Token::GreaterThan => Token::GreaterThan,
            Token::Ident(s) => Token::Ident(s.clone()),
            Token::Integer(n) => Token::Integer(*n),
            Token::Float(s) => Token::Float(s.clone()),
            Token::StringLiteral(s) => Token::StringLiteral(s.clone()),
            Token::HexNumber(n) => Token::HexNumber(*n),
        }
    }
}

/// Whitespace that separates tokens: space, tab, line feed, carriage return, form feed.
pub open spec fn is_space(c: char) -> bool {
    c == ' ' || c == '\t' || c == '\n' || c == '\r' || c == '\x0C'
}

/// A letter or `_`, which can start an identifier.
pub open spec fn is_ident_start(c: char) -> bool {
    ('a' <= c && c <= 'z') || ('A' <= c && c <= 'Z') || c == '_'
}

/// A decimal digit.
pub open spec fn is_digit(c: char) -> bool {
    '0' <= c && c <= '9'
}

/// A character that can continue an identifier.
pub open spec fn is_ident_char(c: char) -> bool {
    is_ident_start(c) || is_digit(c)
}

/// A hexadecimal digit.
pub open spec fn is_hex_digit(c: char) -> bool {
    is_digit(c) || ('a' <= c && c <= 'f') || ('A' <= c && c <= 'F')
}

/// Unicode white space, as trimmed from documentation comments.
pub open spec fn is_unicode_white(c: char) -> bool {
    let u = c as u32;
    (0x09 <= u && u <= 0x0D) || u == 0x20 || u == 0x85 || u == 0xA0 || u == 0x1680 || (0x2000
        <= u && u <= 0x200A) || u == 0x2028 || u == 0x2029 || u == 0x202F || u == 0x205F || u
        == 0x3000
}

/// The end of the run of separating whitespace from `i` on.
pub open spec fn space_end(s: Seq<char>, i: nat) -> nat
    decreases s.len() - i,
{
    if i >= s.len() || !is_space(s[i as int]) {
        i
    } else {
        space_end(s, i + 1)
    }
}

/// The end of the run of identifier characters from `i` on.
pub open spec fn ident_end(s: Seq<char>, i: nat) -> nat
    decreases s.len() - i,
{
    if i >= s.len() || !is_ident_char(s[i as int]) {
        i
    } else {
        ident_end(s, i + 1)
    }
}

/// The end of the run of decimal digits from `i` on.
pub open spec fn digit_end(s: Seq<char>, i: nat) -> nat
    decreases s.len() - i,
{
    if i >= s.len() || !is_digit(s[i as int]) {
        i
    } else {
        digit_end(s, i + 1)
    }
}

/// The end of the run of hexadecimal digits from `i` on.
pub open spec fn hex_end(s: Seq<char>, i: nat) -> nat
    decreases s.len() - i,
{
    if i >= s.len() || !is_hex_digit(s[i as int]) {
        i
    } else {
        hex_end(s, i + 1)
    }
}

/// The index of the first `c` at or after `i`, if any.
pub open spec fn find_char(s: Seq<char>, i: nat, c: char) -> Option<nat>
    decreases s.len() - i,
{
    if i >= s.len() {
        None
    } else if s[i as int] == c {
        Some(i)
    } else {
        find_char(s, i + 1, c)
    }
}

/// The index of the first `*/` at or after `i`, if any.
pub open spec fn find_comment_close(s: Seq<char>, i: nat) -> Option<nat>
    decreases s.len() - i,
{
    if i + 1 >= s.len() {
        None
    } else if s[i as int] == '*' && s[i + 1 as int] == '/' {
        Some(i)
    } else {
        find_comment_close(s, i + 1)
    }
}

/// The keyword a word spells, if any.
pub open spec fn keyword(w: Seq<char>) -> Option<TokenV> {
    if w == "struct"@ {
        Some(TokenV::Struct)
    } else if w == "pub"@ {
        Some(TokenV::Pub)
    } else if w == "import"@ {
        Some(TokenV::Import)
    } else if w == "true"@ {
        Some(TokenV::True)
    } else if w == "false"@ {
        Some(TokenV::False)
    } else if w == "u8"@ {
        Some(TokenV::U8)
    } else if w == "u16"@ {
        Some(TokenV::U16)
    } else if w == "u32"@ {
        Some(TokenV::U32)
    } else if w == "u64"@ {
        Some(TokenV::U64)
    } else if w == "u128"@ {
        Some(TokenV::U128)
    } else if w == "i8"@ {
        Some(TokenV::I8)
    } else if w == "i16"@ {
        Some(TokenV::I16)
    } else if w == "i32"@ {
        Some(TokenV::I32)
    } else if w == "i64"@ {
        Some(TokenV::I64)
    } else if w == "i128"@ {
        Some(TokenV::I128)
    } else if w == "f32"@ {
        Some(TokenV::F32)
    } else if w == "f64"@ {
        Some(TokenV::F64)
    } else if w == "bool"@ {
        Some(TokenV::Bool)
    } else if w == "String"@ {
        Some(TokenV::Str)
    } else if w == "Bytes"@ {
        Some(TokenV::Bytes)
    } else if w == "Vec"@ {
        Some(TokenV::Vec)
    } else {
        None
    }
}

/// The value of a decimal digit.
pub open spec fn digit_value(c: char) -> nat {
    ((c as u32) - ('0' as u32)) as nat
}

/// The value of a hexadecimal digit.
pub open spec fn hex_value(c: char) -> nat {
    if is_digit(c) {
        digit_value(c)
    } else if 'a' <= c && c <= 'f' {
        ((c as u32) - ('a' as u32) + 10) as nat
    } else {
        ((c as u32) - ('A' as u32) + 10) as nat
    }
}

/// The number a run of decimal digits denotes.
pub open spec fn decimal_value(d: Seq<char>) -> nat
    decreases d.len(),
{
    if d.len() == 0 {
        0
    } else {
        decimal_value(d.drop_last()) * 10 + digit_value(d.last())
    }
}

/// The number a run of hexadecimal digits denotes.
pub open spec fn hexadecimal_value(d: Seq<char>) -> nat
    decreases d.len(),
{
    if d.len() == 0 {
        0
    } else {
        hexadecimal_value(d.drop_last()) * 16 + hex_value(d.last())
    }
}

/// The `i128` a decimal literal (with an optional leading `-`) denotes, if it fits.
pub open spec fn integer_literal(text: Seq<char>) -> Option<i128> {
    let neg = text.len() > 0 && text[0] == '-';
    let v: int = if neg {
        -(decimal_value(text.drop_first()) as int)
    } else {
        decimal_value(text) as int
    };
    if i128::MIN <= v && v <= i128::MAX {
        Some(v as i128)
    } else {
        None
    }
}

/// The `u64` a run of hexadecimal digits denotes, if it fits.
pub open spec fn hex_literal(digits: Seq<char>) -> Option<u64> {
    let v = hexadecimal_value(digits);
    if v <= u64::MAX {
        Some(v as u64)
    } else {
        None
    }
}

/// `s` without Unicode white space at either end.
pub open spec fn trim(s: Seq<char>) -> Seq<char>
    decreases s.len(),
{
    if s.len() == 0 {
        s
    } else if is_unicode_white(s[0]) {
        trim(s.drop_first())
    } else if is_unicode_white(s.last()) {
        trim(s.drop_last())
    } else {
        s
    }
}

/// What the lexer finds at index `i`: a token and where it ends, a skipped
/// run of space or comment and where it ends, or nothing it can read.
pub enum Lexeme {
    Tok(TokenV, nat),
    Skip(nat),
    Invalid,
}

/// The single-character punctuation tokens.
pub open spec fn punctuation(c: char) -> Option<TokenV> {
    if c == '{' {
        Some(TokenV::BraceOpen)
    } else if c == '}' {
        Some(TokenV::BraceClose)
    } else if c == '[' {
        Some(TokenV::BracketOpen)
    } else if c == ']' {
        Some(TokenV::BracketClose)
    } else if c == '(' {
        Some(TokenV::ParenOpen)
    } else if c == ')' {
        Some(TokenV::ParenClose)
    } else if c == ';' {
        Some(TokenV::Semicolon)
    } else if c == ',' {
        Some(TokenV::Comma)
    } else if c == '=' {
        Some(TokenV::Equals)
    } else if c == '.' {
        Some(TokenV::Dot)
    } else if c == '#' {
        Some(TokenV::Hash)
    } else if c == '!' {
        Some(TokenV::Exclamation)
    } else if c == '<' {
        Some(TokenV::LessThan)
    } else if c == '>' {
        Some(TokenV::GreaterThan)
    } else {
        None
    }
}

/// The longest lexeme starting at index `i < s.len()`.
pub open spec fn lexeme_at(s: Seq<char>, i: nat) -> Lexeme {
    let c = s[i as int];
    let n = s.len();
    if is_space(c) {
        Lexeme::Skip(space_end(s, i))
    } else if c == '/' {
        if i + 1 < n && s[i + 1 as int] == '/' {
            let e = match find_char(s, i, '\n') {
                Some(j) => j,
                None => n,
            };
            if i + 2 < n && s[i + 2 as int] == '/' {
                Lexeme::Tok(TokenV::DocComment(trim(s.subrange(i + 3 as int, e as int))), e)
            } else {
                Lexeme::Skip(e)
            }
        } else if i + 1 < n && s[i + 1 as int] == '*' {
            match find_comment_close(s, i + 2) {
                Some(j) => Lexeme::Skip(j + 2),
                None => Lexeme::Invalid,
            }
        } else {
            Lexeme::Invalid
        }
    } else if c == '"' {
        match find_char(s, i + 1, '"') {
            Some(j) => Lexeme::Tok(TokenV::StringLiteral(s.subrange(i + 1 as int, j as int)), j + 1),
            None => Lexeme::Invalid,
        }
    } else if is_ident_start(c) {
        let e = ident_end(s, i);
        let w = s.subrange(i as int, e as int);
        match keyword(w) {
            Some(t) => Lexeme::Tok(t, e),
            None => Lexeme::Tok(TokenV::Ident(w), e),
        }
    } else if is_digit(c) || (c == '-' && i + 1 < n && is_digit(s[i + 1 as int])) {
        let start = if c == '-' {
            i + 1
        } else {
            i
        };
        let d = digit_end(s, start);
        if c == '0' && i + 2 < n && s[i + 1 as int] == 'x' && is_hex_digit(s[i + 2 as int]) {
            let h = hex_end(s, i + 2);
            Lexeme::Tok(TokenV::HexNumber(hex_literal(s.subrange(i + 2 as int, h as int))), h)
        } else if d + 1 < n && s[d as int] == '.' && is_digit(s[d + 1 as int]) {
            let f = digit_end(s, d + 1);
            Lexeme::Tok(TokenV::Float(s.subrange(i as int, f as int)), f)
        } else {
            Lexeme::Tok(TokenV::Integer(integer_literal(s.subrange(i as int, d as int))), d)
        }
    } else if c == ':' {
        if i + 1 < n && s[i + 1 as int] == ':' {
            Lexeme::Tok(TokenV::DoubleColon, i + 2)
        } else {
            Lexeme::Tok(TokenV::Colon, i + 1)
        }
    } else {
        match punctuation(c) {
            Some(t) => Lexeme::Tok(t, i + 1),
            None => Lexeme::Invalid,
        }
    }
}

/// Reads the tokens of `s` from index `i` on, after `acc`: each token with
/// the character range it covers, or the index of the first character that
/// starts no token.
pub open spec fn lex_from(s: Seq<char>, i: nat, acc: Seq<(TokenV, nat, nat)>) -> Result<
    Seq<(TokenV, nat, nat)>,
    nat,
>
    decreases s.len() - i,
{
    if i >= s.len() {
        Ok(acc)
    } else {
        match lexeme_at(s, i) {
            Lexeme::Invalid => Err(i),
            Lexeme::Skip(e) => if e <= i || e > s.len() {
                Err(i)
            } else {
                lex_from(s, e, acc)
            },
            Lexeme::Tok(t, e) => if e <= i || e > s.len() {
                Err(i)
            } else {
                lex_from(s, e, acc.push((t, i, e)))
            },
        }
    }
}

/// The tokens of a text, or the index of the first character that starts no token.
pub open spec fn lex(s: Seq<char>) -> Result<Seq<(TokenV, nat, nat)>, nat> {
    lex_from(s, 0, Seq::empty())
}

} // verus!

verus! {

fn is_space_exec(c: char) -> (r: bool)
    ensures
        r == is_space(c),
{
    c == ' ' || c == '\t' || c == '\n' || c == '\r' || c == '\x0C'
}

fn is_ident_start_exec(c: char) -> (r: bool)
    ensures
        r == is_ident_start(c),
{
    ('a' <= c && c <= 'z') || ('A' <= c && c <= 'Z') || c == '_'
}

fn is_digit_exec(c: char) -> (r: bool)
    ensures
        r == is_digit(c),
{
    '0' <= c && c <= '9'
}

fn is_ident_char_exec(c: char) -> (r: bool)
    ensures
        r == is_ident_char(c),
{
    is_ident_start_exec(c) || is_digit_exec(c)
}

fn is_hex_digit_exec(c: char) -> (r: bool)
    ensures
        r == is_hex_digit(c),
{
    is_digit_exec(c) || ('a' <= c && c <= 'f') || ('A' <= c && c <= 'F')
}

fn is_unicode_white_exec(c: char) -> (r: bool)
    ensures
        r == is_unicode_white(c),
{
    let u = c as u32;
    (0x09 <= u && u <= 0x0D) || u == 0x20 || u == 0x85 || u == 0xA0 || u == 0x1680 || (0x2000
        <= u && u <= 0x200A) || u == 0x2028 || u == 0x2029 || u == 0x202F || u == 0x205F || u
        == 0x3000
}

fn space_end_exec(s: &Vec<char>, i: usize) -> (r: usize)
    requires
        i <= s@.len(),
    ensures
        r == space_end(s@, i as nat),
        i <= r <= s@.len(),
{
    let mut k = i;
    while k < s.len() && is_space_exec(s[k])
        invariant
            i <= k <= s@.len(),
            space_end(s@, i as nat) == space_end(s@, k as nat),
        decreases s@.len() - k,
    {
        k = k + 1;
    }
    k
}

fn ident_end_exec(s: &Vec<char>, i: usize) -> (r: usize)
    requires
        i <= s@.len(),
    ensures
        r == ident_end(s@, i as nat),
        i <= r <= s@.len(),
{
    let mut k = i;
    while k < s.len() && is_ident_char_exec(s[k])
        invariant
            i <= k <= s@.len(),
            ident_end(s@, i as nat) == ident_end(s@, k as nat),
        decreases s@.len() - k,
    {
        k = k + 1;
    }
    k
}

fn digit_end_exec(s: &Vec<char>, i: usize) -> (r: usize)
    requires
        i <= s@.len(),
    ensures
        r == digit_end(s@, i as nat),
        i <= r <= s@.len(),
{
    let mut k = i;
    while k < s.len() && is_digit_exec(s[k])
        invariant
            i <= k <= s@.len(),
            digit_end(s@, i as nat) == digit_end(s@, k as nat),
        decreases s@.len() - k,
    {
        k = k + 1;
    }
    k
}

fn hex_end_exec(s: &Vec<char>, i: usize) -> (r: usize)
    requires
        i <= s@.len(),
    ensures
        r == hex_end(s@, i as nat),
        i <= r <= s@.len(),
{
    let mut k = i;
    while k < s.len() && is_hex_digit_exec(s[k])
        invariant
            i <= k <= s@.len(),
            hex_end(s@, i as nat) == hex_end(s@, k as nat),
        decreases s@.len() - k,
    {
        k = k + 1;
    }
    k
}

fn find_char_exec(s: &Vec<char>, i: usize, c: char) -> (r: Option<usize>)
    requires
        i <= s@.len(),
    ensures
        match find_char(s@, i as nat, c) {
            Some(j) => r == Some(j as usize) && i <= j < s@.len(),
            None => r is None,
        },
{
    let mut k = i;
    while k < s.len()
        invariant
            i <= k <= s@.len(),
            find_char(s@, i as nat, c) == find_char(s@, k as nat, c),
        decreases s@.len() - k,
    {
        if s[k] == c {
            return Some(k);
        }
        k = k + 1;
    }
    None
}

fn find_comment_close_exec(s: &Vec<char>, i: usize) -> (r: Option<usize>)
    requires
        i <= s@.len(),
    ensures
        match find_comment_close(s@, i as nat) {
            Some(j) => r == Some(j as usize) && i <= j && j + 1 < s@.len(),
            None => r is None,
        },
{
    let mut k = i;
    while k < s.len() && k + 1 < s.len()
        invariant
            i <= k <= s@.len(),
            find_comment_close(s@, i as nat) == find_comment_close(s@, k as nat),
        decreases s@.len() - k,
    {
        if s[k] == '*' && s[k + 1] == '/' {
            return Some(k);
        }
        k = k + 1;
    }
    None
}

/// The characters `s[i..j]` as a `String`.
fn substring(s: &Vec<char>, i: usize, j: usize) -> (r: String)
    requires
        i <= j <= s@.len(),
    ensures
        r@ == s@.subrange(i as int, j as int),
{
    chars_to_string(slice_subrange(s.as_slice(), i, j))
}

/// The keyword a word spells, if any.
fn keyword_exec(w: &String) -> (r: Option<Token>)
    ensures
        match keyword(w@) {
            Some(t) => r matches Some(x) && x@ == t,
            None => r is None,
        },
{
    let ws = w.as_str();
    if str_eq(ws, "struct") {
        Some(Token::Struct)
    } else if str_eq(ws, "pub") {
        Some(Token::Pub)
    } else if str_eq(ws, "import") {
        Some(Token::Import)
    } else if str_eq(ws, "true") {
        Some(Token::True)
    } else if str_eq(ws, "false") {
        Some(Token::False)
    } else if str_eq(ws, "u8") {
        Some(Token::U8)
    } else if str_eq(ws, "u16") {
        Some(Token::U16)
    } else if str_eq(ws, "u32") {
        Some(Token::U32)
    } else if str_eq(ws, "u64") {
        Some(Token::U64)
    } else if str_eq(ws, "u128") {
        Some(Token::U128)
    } else if str_eq(ws, "i8") {
        Some(Token::I8)
    } else if str_eq(ws, "i16") {
        Some(Token::I16)
    } else if str_eq(ws, "i32") {
        Some(Token::I32)
    } else if str_eq(ws, "i64") {
        Some(Token::I64)
    } else if str_eq(ws, "i128") {
        Some(Token::I128)
    } else if str_eq(ws, "f32") {
        Some(Token::F32)
    } else if str_eq(ws, "f64") {
        Some(Token::F64)
    } else if str_eq(ws, "bool") {
        Some(Token::Bool)
    } else if str_eq(ws, "String") {
        Some(Token::String)
    } else if str_eq(ws, "Bytes") {
        Some(Token::Bytes)
    } else if str_eq(ws, "Vec") {
        Some(Token::Vec)
    } else {
        None
    }
}

proof fn lemma_decimal_grows(d: Seq<char>, k: int)
    requires
        0 <= k <= d.len(),
    ensures
        decimal_value(d.take(k)) <= decimal_value(d),
    decreases d.len() - k,
{
    if k < d.len() {
        lemma_decimal_grows(d, k + 1);
        assert(d.take(k + 1).drop_last() == d.take(k));
    } else {
        assert(d.take(k) == d);
    }
}

proof fn lemma_hex_grows(d: Seq<char>, k: int)
    requires
        0 <= k <= d.len(),
    ensures
        hexadecimal_value(d.take(k)) <= hexadecimal_value(d),
    decreases d.len() - k,
{
    if k < d.len() {
        lemma_hex_grows(d, k + 1);
        assert(d.take(k + 1).drop_last() == d.take(k));
    } else {
        assert(d.take(k) == d);
    }
}

/// The number denoted by the decimal digits `s[i..j]`, if it is at most `bound`.
fn decimal_exec(s: &Vec<char>, i: usize, j: usize, bound: u128) -> (r: Option<u128>)
    requires
        i <= j <= s@.len(),
        bound >= 16,
        forall|k: int| i <= k < j ==> is_digit(#[trigger] s@[k]),
    ensures
        match r {
            Some(v) => v as nat == decimal_value(s@.subrange(i as int, j as int)) && v <= bound,
            None => decimal_value(s@.subrange(i as int, j as int)) > bound,
        },
{
    let ghost d = s@.subrange(i as int, j as int);
    let mut v: u128 = 0;
    let mut k = i;
    proof {
        assert(d.take(0) =~= Seq::<char>::empty());
    }
    while k < j
        invariant
            i <= k <= j <= s@.len(),
            d == s@.subrange(i as int, j as int),
            forall|m: int| i <= m < j ==> is_digit(#[trigger] s@[m]),
            v as nat == decimal_value(d.take(k - i)),
            v <= bound,
            bound >= 16,
        decreases j - k,
    {
        proof {
            assert(d.take(k - i + 1).drop_last() == d.take(k - i));
            assert(d.take(k - i + 1).last() == s@[k as int]);
            assert(is_digit(s@[k as int]));
        }
        let dv = (s[k] as u32 - '0' as u32) as u128;
        if v > (bound - dv) / 10 {
            proof {
                assert(v * 10 + dv > bound) by (nonlinear_arith)
                    requires
                        v > (bound - dv) / 10,
                        dv <= 9,
                        bound >= 16,
                ;
                lemma_decimal_grows(d, k - i + 1);
            }
            return None;
        }
        proof {
            assert(v * 10 + dv <= bound) by (nonlinear_arith)
                requires
                    v <= (bound - dv) / 10,
                    dv <= 9,
                    bound >= 16,
            ;
        }
        v = v * 10 + dv;
        k = k + 1;
    }
    proof {
        assert(d.take(j - i) == d);
    }
    Some(v)
}

} // verus!

verus! {

fn hex_digit_exec(c: char) -> (r: u128)
    requires
        is_hex_digit(c),
    ensures
        r as nat == hex_value(c),
        r < 16,
{
    if is_digit_exec(c) {
        (c as u32 - '0' as u32) as u128
    } else if 'a' <= c && c <= 'f' {
        (c as u32 - 'a' as u32 + 10) as u128
    } else {
        (c as u32 - 'A' as u32 + 10) as u128
    }
}

/// The number denoted by the hexadecimal digits `s[i..j]`, if it fits in `u64`.
fn hex_exec(s: &Vec<char>, i: usize, j: usize) -> (r: Option<u64>)
    requires
        i <= j <= s@.len(),
        forall|k: int| i <= k < j ==> is_hex_digit(#[trigger] s@[k]),
    ensures
        r == hex_literal(s@.subrange(i as int, j as int)),
{
    let ghost d = s@.subrange(i as int, j as int);
    let bound: u128 = 0xffff_ffff_ffff_ffff;
    let mut v: u128 = 0;
    let mut k = i;
    proof {
        assert(d.take(0) =~= Seq::<char>::empty());
    }
    while k < j
        invariant
            i <= k <= j <= s@.len(),
            d == s@.subrange(i as int, j as int),
            forall|m: int| i <= m < j ==> is_hex_digit(#[trigger] s@[m]),
            v as nat == hexadecimal_value(d.take(k - i)),
            v <= bound,
            bound == 0xffff_ffff_ffff_ffff,
        decreases j - k,
    {
        proof {
            assert(d.take(k - i + 1).drop_last() == d.take(k - i));
            assert(d.take(k - i + 1).last() == s@[k as int]);
            assert(is_hex_digit(s@[k as int]));
        }
        let dv = hex_digit_exec(s[k]);
        if v > (bound - dv) / 16 {
            proof {
                assert(v * 16 + dv > bound) by (nonlinear_arith)
                    requires
                        v > (bound - dv) / 16,
                        dv < 16,
                        bound >= 16,
                ;
                lemma_hex_grows(d, k - i + 1);
            }
            return None;
        }
        proof {
            assert(v * 16 + dv <= bound) by (nonlinear_arith)
                requires
                    v <= (bound - dv) / 16,
                    dv < 16,
                    bound >= 16,
            ;
        }
        v = v * 16 + dv;
        k = k + 1;
    }
    proof {
        assert(d.take(j - i) == d);
    }
    Some(v as u64)
}

/// The `i128` the decimal literal `s[i..j]` denotes, if it fits.
fn integer_exec(s: &Vec<char>, i: usize, j: usize) -> (r: Option<i128>)
    requires
        i < j <= s@.len(),
        s@[i as int] == '-' ==> i + 1 <= j,
        forall|k: int| i < k < j ==> is_digit(#[trigger] s@[k]),
        s@[i as int] == '-' || is_digit(s@[i as int]),
    ensures
        r == integer_literal(s@.subrange(i as int, j as int)),
{
    let ghost text = s@.subrange(i as int, j as int);
    let max: u128 = 0x7fff_ffff_ffff_ffff_ffff_ffff_ffff_ffff;
    if s[i] == '-' {
        proof {
            assert(text.drop_first() == s@.subrange(i + 1, j as int));
        }
        match decimal_exec(s, i + 1, j, max + 1) {
            Some(v) => {
                if v == max + 1 {
                    Some(i128::MIN)
                } else {
                    Some(-(v as i128))
                }
            },
            None => None,
        }
    } else {
        match decimal_exec(s, i, j, max) {
            Some(v) => Some(v as i128),
            None => None,
        }
    }
}

/// `s[i..j]` without Unicode white space at either end.
fn trim_exec(s: &Vec<char>, i: usize, j: usize) -> (r: String)
    requires
        i <= j <= s@.len(),
    ensures
        r@ == trim(s@.subrange(i as int, j as int)),
{
    let mut lo = i;
    let mut hi = j;
    while lo < hi
        invariant
            i <= lo <= hi <= j <= s@.len(),
            trim(s@.subrange(i as int, j as int)) == trim(s@.subrange(lo as int, hi as int)),
        ensures
            i <= lo <= hi <= j,
            trim(s@.subrange(i as int, j as int)) == s@.subrange(lo as int, hi as int),
        decreases hi - lo,
    {
        let ghost sub = s@.subrange(lo as int, hi as int);
        proof {
            assert(s@.subrange(lo + 1, lo + 1) =~= Seq::<char>::empty());
        }
        if is_unicode_white_exec(s[lo]) {
            proof {
                assert(sub[0] == s@[lo as int]);
                assert(sub.drop_first() == s@.subrange(lo + 1, hi as int));
            }
            lo = lo + 1;
        } else if is_unicode_white_exec(s[hi - 1]) {
            proof {
                assert(sub[0] == s@[lo as int]);
                assert(sub.last() == s@[hi - 1]);
                assert(sub.drop_last() == s@.subrange(lo as int, hi - 1));
            }
            hi = hi - 1;
        } else {
            proof {
                assert(sub[0] == s@[lo as int]);
                assert(sub.last() == s@[hi - 1]);
            }
            break;
        }
    }
    substring(s, lo, hi)
}

} // verus!

verus! {

/// What the lexer finds at one position.
pub enum LexemeX {
    /// A token and the index after it.
    Tok(Token, usize),
    /// Skipped space or comment and the index after it.
    Skip(usize),
    /// A character that starts no token.
    Invalid,
}

/// The view of a lexeme.
pub open spec fn lexeme_view(l: LexemeX) -> Lexeme {
    match l {
        LexemeX::Tok(t, e) => Lexeme::Tok(t@, e as nat),
        LexemeX::Skip(e) => Lexeme::Skip(e as nat),
        LexemeX::Invalid => Lexeme::Invalid,
    }
}

fn punctuation_exec(c: char) -> (r: Option<Token>)
    ensures
        match punctuation(c) {
            Some(t) => r matches Some(x) && x@ == t,
            None => r is None,
        },
{
    if c == '{' {
        Some(Token::BraceOpen)
    } else if c == '}' {
        Some(Token::BraceClose)
    } else if c == '[' {
        Some(Token::BracketOpen)
    } else if c == ']' {
        Some(Token::BracketClose)
    } else if c == '(' {
        Some(Token::ParenOpen)
    } else if c == ')' {
        Some(Token::ParenClose)
    } else if c == ';' {
        Some(Token::Semicolon)
    } else if c == ',' {
        Some(Token::Comma)
    } else if c == '=' {
        Some(Token::Equals)
    } else if c == '.' {
        Some(Token::Dot)
    } else if c == '#' {
        Some(Token::Hash)
    } else if c == '!' {
        Some(Token::Exclamation)
    } else if c == '<' {
        Some(Token::LessThan)
    } else if c == '>' {
        Some(Token::GreaterThan)
    } else {
        None
    }
}

proof fn lemma_digit_run(s: Seq<char>, i: nat)
    ensures
        i <= s.len() ==> i <= digit_end(s, i) <= s.len(),
        forall|k: int| i <= k < digit_end(s, i) ==> is_digit(#[trigger] s[k]),
    decreases s.len() - i,
{
    if i < s.len() && is_digit(s[i as int]) {
        lemma_digit_run(s, i + 1);
    }
}

proof fn lemma_hex_run(s: Seq<char>, i: nat)
    ensures
        i <= s.len() ==> i <= hex_end(s, i) <= s.len(),
        forall|k: int| i <= k < hex_end(s, i) ==> is_hex_digit(#[trigger] s[k]),
    decreases s.len() - i,
{
    if i < s.len() && is_hex_digit(s[i as int]) {
        lemma_hex_run(s, i + 1);
    }
}

/// The longest lexeme starting at index `i`.
fn lexeme_exec(s: &Vec<char>, i: usize) -> (r: LexemeX)
    requires
        i < s@.len(),
    ensures
        lexeme_view(r) == lexeme_at(s@, i as nat),
        match r {
            LexemeX::Tok(_, e) => i < e <= s@.len(),
            LexemeX::Skip(e) => i < e <= s@.len(),
            LexemeX::Invalid => true,
        },
{
    let c = s[i];
    let n = s.len();
    if is_space_exec(c) {
        return LexemeX::Skip(space_end_exec(s, i + 1));
    }
    if c == '/' {
        if i + 1 < n && s[i + 1] == '/' {
            proof {
                assert(find_char(s@, i as nat, '\n') == find_char(s@, (i + 1) as nat, '\n'));
                assert(find_char(s@, (i + 1) as nat, '\n') == find_char(
                    s@,
                    (i + 2) as nat,
                    '\n',
                ));
            }
            if i + 2 < n && s[i + 2] == '/' {
                proof {
                    assert(find_char(s@, (i + 2) as nat, '\n') == find_char(
                        s@,
                        (i + 3) as nat,
                        '\n',
                    ));
                }
                let e = match find_char_exec(s, i + 3, '\n') {
                    Some(j) => j,
                    None => n,
                };
                let text = trim_exec(s, i + 3, e);
                return LexemeX::Tok(Token::DocComment(text), e);
            } else {
                let e = match find_char_exec(s, i + 2, '\n') {
                    Some(j) => j,
                    None => n,
                };
                return LexemeX::Skip(e);
            }
        } else if i + 1 < n && s[i + 1] == '*' {
            return match find_comment_close_exec(s, i + 2) {
                Some(j) => LexemeX::Skip(j + 2),
                None => LexemeX::Invalid,
            };
        } else {
            return LexemeX::Invalid;
        }
    }
    if c == '"' {
        return match find_char_exec(s, i + 1, '"') {
            Some(j) => LexemeX::Tok(Token::StringLiteral(substring(s, i + 1, j)), j + 1),
            None => LexemeX::Invalid,
        };
    }
    if is_ident_start_exec(c) {
        let e = ident_end_exec(s, i + 1);
        let w = substring(s, i, e);
        return match keyword_exec(&w) {
            Some(t) => LexemeX::Tok(t, e),
            None => LexemeX::Tok(Token::Ident(w), e),
        };
    }
    if is_digit_exec(c) || (c == '-' && i + 1 < n && is_digit_exec(s[i + 1])) {
        let start = if c == '-' {
            i + 1
        } else {
            i
        };
        let d = digit_end_exec(s, start + 1);
        proof {
            lemma_digit_run(s@, start as nat);
        }
        if c == '0' && i + 1 < n && i + 2 < n && s[i + 1] == 'x' && is_hex_digit_exec(s[i + 2]) {
            let h = hex_end_exec(s, i + 2);
            proof {
                lemma_hex_run(s@, (i + 2) as nat);
            }
            return LexemeX::Tok(Token::HexNumber(hex_exec(s, i + 2, h)), h);
        } else if d < n && d + 1 < n && s[d] == '.' && is_digit_exec(s[d + 1]) {
            let f = digit_end_exec(s, d + 1);
            return LexemeX::Tok(Token::Float(substring(s, i, f)), f);
        } else {
            return LexemeX::Tok(Token::Integer(integer_exec(s, i, d)), d);
        }
    }
    if c == ':' {
        if i + 1 < n && s[i + 1] == ':' {
            return LexemeX::Tok(Token::DoubleColon, i + 2);
        } else {
            return LexemeX::Tok(Token::Colon, i + 1);
        }
    }
    match punctuation_exec(c) {
        Some(t) => LexemeX::Tok(t, i + 1),
        None => LexemeX::Invalid,
    }
}

/// The views of a list of tokens with their ranges.
pub open spec fn spanned_view(v: Seq<(Token, usize, usize)>) -> Seq<(TokenV, nat, nat)> {
    v.map_values(|e: (Token, usize, usize)| (e.0@, e.1 as nat, e.2 as nat))
}

/// Reads the tokens of a text: each token with the range of characters it
/// covers, or the index of the first character that starts no token.
pub fn tokenize(s: &Vec<char>) -> (r: Result<Vec<(Token, usize, usize)>, usize>)
    ensures
        match lex(s@) {
            Ok(ts) => r matches Ok(v) && spanned_view(v@) == ts,
            Err(i) => r == Err::<Vec<(Token, usize, usize)>, usize>(i as usize),
        },
{
    let mut out: Vec<(Token, usize, usize)> = Vec::new();
    let mut i: usize = 0;
    proof {
        assert(spanned_view(out@) =~= Seq::<(TokenV, nat, nat)>::empty());
    }
    while i < s.len()
        invariant
            i <= s@.len(),
            lex(s@) == lex_from(s@, i as nat, spanned_view(out@)),
        decreases s@.len() - i,
    {
        match lexeme_exec(s, i) {
            LexemeX::Invalid => {
                return Err(i);
            },
            LexemeX::Skip(e) => {
                i = e;
            },
            LexemeX::Tok(t, e) => {
                let ghost tv = t@;
                proof {
                    assert(spanned_view(out@.push((t, i, e))) =~= spanned_view(out@).push(
                        (tv, i as nat, e as nat),
                    ));
                }
                out.push((t, i, e));
                i = e;
            },
        }
    }
    Ok(out)
}

/// Every token lies within the text, and an unreadable character is one of it.
pub proof fn lemma_lex_bounds(s: Seq<char>)
    ensures
        match lex(s) {
            Ok(t) => forall|j: int| 0 <= j < t.len() ==> #[trigger] t[j].1 < t[j].2 <= s.len(),
            Err(k) => k < s.len(),
        },
{
    lemma_lex_from_bounds(s, 0, Seq::empty());
}

proof fn lemma_lex_from_bounds(s: Seq<char>, i: nat, acc: Seq<(TokenV, nat, nat)>)
    requires
        i <= s.len(),
        forall|j: int| 0 <= j < acc.len() ==> #[trigger] acc[j].1 < acc[j].2 <= i,
    ensures
        match lex_from(s, i, acc) {
            Ok(t) => forall|j: int| 0 <= j < t.len() ==> #[trigger] t[j].1 < t[j].2 <= s.len(),
            Err(k) => k < s.len(),
        },
    decreases s.len() - i,
{
    if i < s.len() {
        let l = lexeme_at(s, i);
        match l {
            Lexeme::Invalid => {
                assert(lex_from(s, i, acc) == Err::<Seq<(TokenV, nat, nat)>, nat>(i));
            },
            Lexeme::Skip(e) => {
                if e > i && e <= s.len() {
                    assert(lex_from(s, i, acc) == lex_from(s, e, acc));
                    lemma_lex_from_bounds(s, e, acc);
                } else {
                    assert(lex_from(s, i, acc) == Err::<Seq<(TokenV, nat, nat)>, nat>(i));
                }
            },
            Lexeme::Tok(t, e) => {
                if e > i && e <= s.len() {
                    let a2 = acc.push((t, i, e));
                    assert forall|j: int| 0 <= j < a2.len() implies #[trigger] a2[j].1 < a2[j].2 <= e by {
                        if j < acc.len() {
                            assert(a2[j] == acc[j]);
                        }
                    }
                    assert(lex_from(s, i, acc) == lex_from(s, e, a2));
                    lemma_lex_from_bounds(s, e, a2);
                } else {
                    assert(lex_from(s, i, acc) == Err::<Seq<(TokenV, nat, nat)>, nat>(i));
                }
            },
        }
    } else {
        assert(lex_from(s, i, acc) == Ok::<Seq<(TokenV, nat, nat)>, nat>(acc));
    }
}

} // verus!
