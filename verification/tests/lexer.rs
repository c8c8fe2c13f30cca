//! Tokenizing straight through the lexer.

use intcode::error::Error;
use intcode::lex::{Token, Tokens};
use intcode::span::{Span, S};

fn tokenize(input: &str) -> Result<Vec<S<Token>>, Error> {
    let mut tokens = Tokens::new(input);
    let mut out = Vec::new();
    loop {
        match tokens.next() {
            Err(e) => return Err(e),
            Ok(S(Token::Eof, _)) => return Ok(out),
            Ok(t) => out.push(t),
        }
    }
}

fn s(t: Token, r: std::ops::Range<usize>) -> S<Token> {
    S(t, Span { m: r.start, n: r.end })
}

#[test]
fn tests_basic() {
    let tokens = tokenize("start:\nADD tmp, #19, rb+1 \t ; this is a comment\n").unwrap();
    assert_eq!(
        tokens,
        [
            s(Token::Ident, 0..5),
            s(Token::Colon, 5..6),
            s(Token::Newline, 6..7),
            s(Token::Ident, 7..10),
            s(Token::Whitespace, 10..11),
            s(Token::Ident, 11..14),
            s(Token::Comma, 14..15),
            s(Token::Whitespace, 15..16),
            s(Token::Hash, 16..17),
            s(Token::Number, 17..19),
            s(Token::Comma, 19..20),
            s(Token::Whitespace, 20..21),
            s(Token::Ident, 21..23),
            s(Token::Plus, 23..24),
            s(Token::Number, 24..25),
            s(Token::Whitespace, 25..28),
            s(Token::Comment, 28..47),
            s(Token::Newline, 47..48),
        ]
    );
}

#[test]
fn tests_numbers() {
    let tests = [
        "0b10011", "0o23", "19", "0x13", "0b1_0011", "0o_2_3_", "1_9_", "0x_13_",
    ];
    for input in tests {
        let tokens = tokenize(input).unwrap();
        assert!(matches!(&*tokens, &[S(Token::Number, _)]));
    }
}

#[test]
fn lex_numbers() {
    let tests = [
        "0b10011", "0o23", "19", "0x13", "0b1_0011", "0o_2_3_", "1_9_", "0x_13_",
    ];
    for input in tests {
        let tokens = tokenize(input).unwrap();
        assert!(matches!(&*tokens, &[S(Token::Number, _)]));
    }
}

#[test]
fn tests_strings() {
    let tests = [
        ("\"Hello World!\"", 0..14),
        ("\"Hello World!\\n\"", 0..16),
        ("\"\u{1F60E}\"", 0..6),
        ("\"\u{1F60E}\\t\"", 0..8),
    ];
    for (input, range) in tests {
        let tokens = tokenize(input).unwrap();
        assert_eq!(tokens, [s(Token::Str, range)]);
    }
}

#[test]
fn lex_strings() {
    let tests = [
        ("\"Hello World!\"", 0..14),
        ("\"Hello World!\\n\"", 0..16),
        ("\"\u{1F60E}\"", 0..6),
        ("\"\u{1F60E}\\t\"", 0..8),
    ];
    for (input, range) in tests {
        let tokens = tokenize(input).unwrap();
        assert_eq!(tokens, [s(Token::Str, range)]);
    }
}

#[test]
fn tests_error() {
    assert_eq!(
        tokenize("@").unwrap_err(),
        Error::new("unexpected character", Span { m: 0, n: 1 })
    );
}

#[test]
fn lex_error() {
    assert_eq!(
        tokenize("@").unwrap_err(),
        Error::new("unexpected character", Span { m: 0, n: 1 })
    );
}
