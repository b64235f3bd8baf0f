use pdc::scanner::Parser;
use pdc::token::TokenKind as K;
use pdc::token::{LexError, Token, TokenKind};

fn scan_all(src: &[u8]) -> Vec<Result<Token, LexError>> {
    let mut p = Parser::new(src);
    let mut out = Vec::new();
    loop {
        let r = p.next_token();
        out.push(r);
        match r {
            Ok(t) if t.kind == TokenKind::EndOfInput => break,
            Err(_) => break,
            _ => {}
        }
    }
    out
}

fn kinds(src: &[u8]) -> Vec<TokenKind> {
    scan_all(src).into_iter().map(|r| r.unwrap().kind).collect()
}

#[test]
fn arrow_is_one_token() {
    let r = scan_all(b"->");
    assert_eq!(r[0], Ok(Token { kind: TokenKind::Arrow, start: 0, end: 2 }));
    assert_eq!(kinds(b"->"), vec![TokenKind::Arrow, TokenKind::EndOfInput]);
    assert_eq!(kinds(b"-"), vec![TokenKind::Minus, TokenKind::EndOfInput]);
}

#[test]
fn ellipsis_is_one_token() {
    let r = scan_all(b"...");
    assert_eq!(r[0], Ok(Token { kind: TokenKind::Ellipsis, start: 0, end: 3 }));
    assert_eq!(r.len(), 2);
    assert_eq!(kinds(b"."), vec![TokenKind::Dot, TokenKind::EndOfInput]);
    assert_eq!(kinds(b".."), vec![TokenKind::Dot, TokenKind::Dot, TokenKind::EndOfInput]);
}

#[test]
fn keyword_and_identifier_boundary() {
    assert_eq!(kinds(b"fn"), vec![TokenKind::Fn, TokenKind::EndOfInput]);
    let r = scan_all(b"fnx");
    assert_eq!(r[0], Ok(Token { kind: TokenKind::Identifier, start: 0, end: 3 }));
    assert_eq!(kinds(b"fn_"), vec![TokenKind::Identifier, TokenKind::EndOfInput]);
    assert_eq!(
        kinds(b"let ret i8 i16 i32 i64 i65 Fn"),
        vec![
            TokenKind::Let,
            TokenKind::Ret,
            TokenKind::I8,
            TokenKind::I16,
            TokenKind::I32,
            TokenKind::I64,
            TokenKind::Identifier,
            TokenKind::Identifier,
            TokenKind::EndOfInput,
        ]
    );
}

#[test]
fn numbers_are_classified() {
    assert_eq!(scan_all(b"123")[0], Ok(Token { kind: TokenKind::Integer, start: 0, end: 3 }));
    assert_eq!(scan_all(b"123.45")[0], Ok(Token { kind: TokenKind::Float, start: 0, end: 6 }));
    assert_eq!(scan_all(b"123.")[0], Err(LexError::MalformedNumber { start_offset: 0 }));
    assert_eq!(scan_all(b"  7.x")[0], Err(LexError::MalformedNumber { start_offset: 2 }));
}

#[test]
fn strings_honour_escapes() {
    let src = b"\"ab\\\"c\"";
    assert_eq!(src.len(), 7);
    let r = scan_all(src);
    assert_eq!(r[0], Ok(Token { kind: TokenKind::String, start: 0, end: 7 }));
    assert_eq!(r.len(), 2);
    assert_eq!(scan_all(b"\"abc")[0], Err(LexError::UnterminatedString { start_offset: 0 }));
    assert_eq!(scan_all(b"x \"ab\\")[1], Err(LexError::UnterminatedString { start_offset: 2 }));
}

#[test]
fn whitespace_does_not_change_kinds() {
    let a = kinds(b"fn main(){let x:i32=-42;}");
    let b = kinds(b"fn  main ( ) {\n\tlet x : i32 = - 42 ;\r\n}  ");
    assert_eq!(a, b);
    let r = scan_all(b" \t\n x");
    assert_eq!(r[0], Ok(Token { kind: TokenKind::Identifier, start: 4, end: 5 }));
}

#[test]
fn end_to_end_program() {
    assert_eq!(
        kinds(b"fn main() { let x: i32 = -42; ret x; }"),
        vec![
            K::Fn, K::Identifier, K::Lparen, K::Rparen, K::Lbrace, K::Let, K::Identifier, K::Colon, K::I32, K::Eq, K::Minus, K::Integer,
            K::Semicolon, K::Ret, K::Identifier, K::Semicolon, K::Rbrace, K::EndOfInput,
        ]
    );
}

#[test]
fn spans_are_ordered_and_disjoint() {
    let src = b"fn f(a: i8, b: i16) -> i64 { ret a + b * 2.5; }";
    let toks: Vec<Token> = scan_all(src).into_iter().map(|r| r.unwrap()).collect();
    let mut last = 0;
    for t in &toks {
        assert!(last <= t.start && t.start <= t.end && t.end <= src.len());
        last = t.end;
    }
    assert_eq!(toks.last().unwrap().kind, TokenKind::EndOfInput);
}

#[test]
fn end_of_input_is_terminal() {
    let src = b"x  ";
    let mut p = Parser::new(src);
    assert_eq!(p.next_token(), Ok(Token { kind: TokenKind::Identifier, start: 0, end: 1 }));
    for _ in 0..3 {
        assert_eq!(p.next_token(), Ok(Token { kind: TokenKind::EndOfInput, start: 3, end: 3 }));
    }
    let mut e = Parser::new(b"");
    assert_eq!(e.next_token(), Ok(Token { kind: TokenKind::EndOfInput, start: 0, end: 0 }));
    assert_eq!(e.next_token(), Ok(Token { kind: TokenKind::EndOfInput, start: 0, end: 0 }));
}

#[test]
fn unrecognized_byte_and_recovery() {
    let mut p = Parser::new(b"a # b");
    assert_eq!(p.next_token(), Ok(Token { kind: TokenKind::Identifier, start: 0, end: 1 }));
    assert_eq!(p.next_token(), Err(LexError::UnrecognizedCharacter { offset: 2, byte: b'#' }));
    assert_eq!(p.end, 2);
    p.skip_byte();
    assert_eq!(p.next_token(), Ok(Token { kind: TokenKind::Identifier, start: 4, end: 5 }));
    assert_eq!(scan_all(b"- >")[1], Err(LexError::UnrecognizedCharacter { offset: 2, byte: b'>' }));
}

#[test]
fn punctuation_maps_one_to_one() {
    assert_eq!(
        kinds(b"(){}:,;+*=.-"),
        vec![K::Lparen, K::Rparen, K::Lbrace, K::Rbrace, K::Colon, K::Comma, K::Semicolon, K::Plus, K::Star, K::Eq, K::Dot, K::Minus, K::EndOfInput]
    );
}

#[test]
fn parse_token_fills_fields() {
    let mut p = Parser::new(b" let");
    assert_eq!(p.token, TokenKind::EndOfInput);
    assert_eq!(p.parse_token(), Ok(()));
    assert_eq!((p.token, p.start, p.end), (TokenKind::Let, 1, 4));
    let mut q = Parser::new(b"abc1 9.5");
    assert_eq!(q.parse_ident(), (TokenKind::Identifier, 4));
    q.end = 5;
    assert_eq!(q.parse_integer(), Ok((TokenKind::Float, 3)));
}
