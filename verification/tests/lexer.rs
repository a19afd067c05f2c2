use sysyc::lexer::tokenize;
use sysyc::literal::parse_int_literal;
use sysyc::token::{IntegerFault, LexicalError, Span, Token};

fn kinds(src: &str) -> Vec<Token> {
    tokenize(src.as_bytes()).unwrap().into_iter().map(|p| p.0).collect()
}

#[test]
fn octal_literal_is_read_in_base_eight() {
    assert_eq!(parse_int_literal(b"017"), Ok(15));
    assert_eq!(parse_int_literal(b"010"), Ok(8));
    assert_eq!(kinds("010"), vec![Token::IntConst(8)]);
}

#[test]
fn bare_zero_is_zero() {
    assert_eq!(parse_int_literal(b"0"), Ok(0));
}

#[test]
fn hex_literal_is_read_in_base_sixteen() {
    assert_eq!(parse_int_literal(b"0x1F"), Ok(31));
    assert_eq!(parse_int_literal(b"0X1f"), Ok(31));
    assert_eq!(parse_int_literal(b"0x"), Err(LexicalError::InvalidInteger(IntegerFault::Empty)));
}

#[test]
fn decimal_literal_is_read_in_base_ten() {
    assert_eq!(parse_int_literal(b"10"), Ok(10));
    assert_eq!(parse_int_literal(b"9223372036854775807"), Ok(i64::MAX));
    assert_eq!(
        parse_int_literal(b"9223372036854775808"),
        Err(LexicalError::InvalidInteger(IntegerFault::PosOverflow))
    );
    assert_eq!(parse_int_literal(b""), Err(LexicalError::InvalidInteger(IntegerFault::Empty)));
}

#[test]
fn digit_outside_the_radix_is_rejected() {
    assert_eq!(
        parse_int_literal(b"08"),
        Err(LexicalError::InvalidInteger(IntegerFault::InvalidDigit))
    );
    assert_eq!(
        parse_int_literal(b"12a"),
        Err(LexicalError::InvalidInteger(IntegerFault::InvalidDigit))
    );
    assert_eq!(
        tokenize(b"x = 08;"),
        Err((LexicalError::InvalidInteger(IntegerFault::InvalidDigit), Span { start: 4, end: 6 }))
    );
}

#[test]
fn keywords_and_identifiers() {
    assert_eq!(
        kinds("int main iff if_ while"),
        vec![
            Token::Int,
            Token::Ident("main".to_string()),
            Token::Ident("iff".to_string()),
            Token::Ident("if_".to_string()),
            Token::While,
        ]
    );
}

#[test]
fn longest_operator_wins() {
    assert_eq!(
        kinds("a<=b<<c&&d&e...f..g.h"),
        vec![
            Token::Ident("a".to_string()),
            Token::Le,
            Token::Ident("b".to_string()),
            Token::ShiftL,
            Token::Ident("c".to_string()),
            Token::And,
            Token::Ident("d".to_string()),
            Token::BitAnd,
            Token::Ident("e".to_string()),
            Token::Dots,
            Token::Ident("f".to_string()),
            Token::Concat,
            Token::Ident("g".to_string()),
            Token::Dot,
            Token::Ident("h".to_string()),
        ]
    );
}

#[test]
fn comments_and_whitespace_are_dropped() {
    assert_eq!(
        kinds("a // b c\n /* d \n * e **/ f /**/ g"),
        vec![
            Token::Ident("a".to_string()),
            Token::Ident("f".to_string()),
            Token::Ident("g".to_string()),
        ]
    );
}

#[test]
fn unclosed_comment_is_a_division() {
    assert_eq!(kinds("/* a"), vec![Token::Div, Token::Mul, Token::Ident("a".to_string())]);
    assert_eq!(kinds("/*/"), vec![Token::Div, Token::Mul, Token::Div]);
}

#[test]
fn spans_cover_the_lexemes() {
    let toks = tokenize(b"ab  == 0x10").unwrap();
    assert_eq!(
        toks,
        vec![
            (Token::Ident("ab".to_string()), Span { start: 0, end: 2 }),
            (Token::Eq, Span { start: 4, end: 6 }),
            (Token::IntConst(16), Span { start: 7, end: 11 }),
        ]
    );
}

#[test]
fn stray_byte_is_an_invalid_token() {
    assert_eq!(
        tokenize(b"a @ b"),
        Err((LexicalError::InvalidToken, Span { start: 2, end: 3 }))
    );
    assert_eq!(
        tokenize("a \u{e9}".as_bytes()),
        Err((LexicalError::InvalidToken, Span { start: 2, end: 3 }))
    );
}

#[test]
fn empty_text_has_no_tokens() {
    assert_eq!(tokenize(b""), Ok(vec![]));
    assert_eq!(tokenize(b"  \n\t"), Ok(vec![]));
}

#[test]
fn first_fault_from_the_left_is_reported() {
    // The overflow comes before the byte that is no digit.
    assert_eq!(
        parse_int_literal(b"99999999999999999999z"),
        Err(LexicalError::InvalidInteger(IntegerFault::PosOverflow))
    );
    assert_eq!(
        parse_int_literal(b"9z9999999999999999999"),
        Err(LexicalError::InvalidInteger(IntegerFault::InvalidDigit))
    );
    assert_eq!(
        parse_int_literal(b"0xffffffffffffffffff"),
        Err(LexicalError::InvalidInteger(IntegerFault::PosOverflow))
    );
    assert_eq!(parse_int_literal(b"0x7fffffffffffffff"), Ok(i64::MAX));
}

#[test]
fn a_fault_becomes_a_lexical_error() {
    assert_eq!(
        LexicalError::from(IntegerFault::PosOverflow),
        LexicalError::InvalidInteger(IntegerFault::PosOverflow)
    );
    assert_eq!(
        LexicalError::from(IntegerFault::Empty),
        LexicalError::InvalidInteger(IntegerFault::Empty)
    );
    assert_eq!(LexicalError::default(), LexicalError::InvalidToken);
}
