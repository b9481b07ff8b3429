use packet_core::lexer::{tokenize, Token};

fn lexer(input: &str) -> std::vec::IntoIter<Token> {
    let chars: Vec<char> = input.chars().collect();
    tokenize(&chars)
        .expect("lexing failed")
        .into_iter()
        .map(|(token, _, _)| token)
        .collect::<Vec<Token>>()
        .into_iter()
}

#[test]
fn test_keywords() {
    let mut lex = lexer("struct pub true false");
    assert!(matches!(lex.next(), Some(Token::Struct)));
    assert!(matches!(lex.next(), Some(Token::Pub)));
    assert!(matches!(lex.next(), Some(Token::True)));
    assert!(matches!(lex.next(), Some(Token::False)));
}

#[test]
fn test_types() {
    let mut lex =
        lexer("u8 u16 u32 u64 u128 i8 i16 i32 i64 i128 f32 f64 bool String Bytes Vec");
    assert!(matches!(lex.next(), Some(Token::U8)));
    assert!(matches!(lex.next(), Some(Token::U16)));
    assert!(matches!(lex.next(), Some(Token::U32)));
    assert!(matches!(lex.next(), Some(Token::U64)));
    assert!(matches!(lex.next(), Some(Token::U128)));
    assert!(matches!(lex.next(), Some(Token::I8)));
    assert!(matches!(lex.next(), Some(Token::I16)));
    assert!(matches!(lex.next(), Some(Token::I32)));
    assert!(matches!(lex.next(), Some(Token::I64)));
    assert!(matches!(lex.next(), Some(Token::I128)));
    assert!(matches!(lex.next(), Some(Token::F32)));
    assert!(matches!(lex.next(), Some(Token::F64)));
    assert!(matches!(lex.next(), Some(Token::Bool)));
    assert!(matches!(lex.next(), Some(Token::String)));
    assert!(matches!(lex.next(), Some(Token::Bytes)));
    assert!(matches!(lex.next(), Some(Token::Vec)));
}

#[test]
fn test_punctuation() {
    let mut lex = lexer("{ } [ ] ( ) : ; , = :: . #");
    assert!(matches!(lex.next(), Some(Token::BraceOpen)));
    assert!(matches!(lex.next(), Some(Token::BraceClose)));
    assert!(matches!(lex.next(), Some(Token::BracketOpen)));
    assert!(matches!(lex.next(), Some(Token::BracketClose)));
    assert!(matches!(lex.next(), Some(Token::ParenOpen)));
    assert!(matches!(lex.next(), Some(Token::ParenClose)));
    assert!(matches!(lex.next(), Some(Token::Colon)));
    assert!(matches!(lex.next(), Some(Token::Semicolon)));
    assert!(matches!(lex.next(), Some(Token::Comma)));
    assert!(matches!(lex.next(), Some(Token::Equals)));
    assert!(matches!(lex.next(), Some(Token::DoubleColon)));
    assert!(matches!(lex.next(), Some(Token::Dot)));
    assert!(matches!(lex.next(), Some(Token::Hash)));
}

#[test]
fn test_identifiers() {
    let mut lex = lexer("foo _bar Baz123");
    assert!(matches!(lex.next(), Some(Token::Ident(s)) if s == "foo"));
    assert!(matches!(lex.next(), Some(Token::Ident(s)) if s == "_bar"));
    assert!(matches!(lex.next(), Some(Token::Ident(s)) if s == "Baz123"));
}

#[test]
fn test_numbers() {
    let mut lex = lexer("42 -10 3.14 -2.5 0xFF");
    assert!(matches!(lex.next(), Some(Token::Integer(Some(42)))));
    assert!(matches!(lex.next(), Some(Token::Integer(Some(-10)))));
    assert!(matches!(lex.next(), Some(Token::Float(s)) if s == "3.14"));
    assert!(matches!(lex.next(), Some(Token::Float(s)) if s == "-2.5"));
    assert!(matches!(lex.next(), Some(Token::HexNumber(Some(255)))));
}

#[test]
fn test_string() {
    let mut lex = lexer("\"hello world\"");
    assert!(matches!(lex.next(), Some(Token::StringLiteral(s)) if s == "hello world"));
}

#[test]
fn test_skip_whitespace() {
    let mut lex = lexer("  struct   pub  ");
    assert!(matches!(lex.next(), Some(Token::Struct)));
    assert!(matches!(lex.next(), Some(Token::Pub)));
    assert!(lex.next().is_none());
}

#[test]
fn test_skip_comment() {
    let mut lex = lexer("struct // this is a comment\npub");
    assert!(matches!(lex.next(), Some(Token::Struct)));
    assert!(matches!(lex.next(), Some(Token::Pub)));
}
