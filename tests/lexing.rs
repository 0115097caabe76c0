use ioc2::lexer::{
    count_ident, count_int, count_whitespace, expect_else, expect_for, expect_ident, expect_if,
    expect_int, expect_operators, expect_return, expect_str, expect_whitespace, expect_while,
    is_ident_char, lexer, tokenize_ident, tokenize_int, tokenize_operator,
};
use ioc2::token::{Ident, Token, TokenError};

#[test]
fn tokenize_int_test() {
    let s1 = "123";
    let s2 = "12 abc";
    let s3 = "abc 123";

    assert_eq!(Ok((Token::Integer(123), 3)), tokenize_int(s1));
    assert_eq!(Ok((Token::Integer(12), 2)), tokenize_int(s2));
    assert_eq!(Err(TokenError::TokenizeError), tokenize_int(s3));
}

#[test]
fn tokenize_ident_test() {
    let s1 = "abc 123";
    let s2 = "abc_de 123";
    let s3 = "12345";

    assert_eq!(
        Ok((
            Token::Ident(Ident {
                name: "abc".to_owned()
            }),
            3
        )),
        tokenize_ident(s1)
    );
    assert_eq!(
        Ok((
            Token::Ident(Ident {
                name: "abc_de".to_owned()
            }),
            6
        )),
        tokenize_ident(s2)
    );
    assert_eq!(Err(TokenError::TokenizeError), tokenize_ident(s3));
}

#[test]
fn tokenize_operator_test() {
    let s1 = "==abc";
    let s2 = "=abc";
    let s3 = "abc";

    assert_eq!(Ok((Token::Equality, 2)), tokenize_operator(s1));
    assert_eq!(Ok((Token::Equal, 1)), tokenize_operator(s2));
    assert_eq!(Err(TokenError::TokenizeError), tokenize_operator(s3));
}

#[test]
fn count_int_test() {
    let s1 = "123abc";
    let s2 = "12345";
    let s3 = "abcde";

    assert_eq!(3, count_int(s1));
    assert_eq!(5, count_int(s2));
    assert_eq!(0, count_int(s3));
}

#[test]
fn count_ident_test() {
    let s1 = "abc 123";
    let s2 = "abc_de 123";
    let s3 = "12345";

    assert_eq!(3, count_ident(s1));
    assert_eq!(6, count_ident(s2));
    assert_eq!(0, count_ident(s3));
}

#[test]
fn count_whitespace_test() {
    let s1 = "   abc";
    let s2 = "abc";

    assert_eq!(3, count_whitespace(s1));
    assert_eq!(0, count_whitespace(s2));
}

#[test]
fn expect_str_test() {
    let s1 = "abcde";
    let s2 = "a1 b2";

    assert!(expect_str(s1, "abc"));
    assert!(!expect_str(s2, "a1b2"));
}

#[test]
fn expect_int_test() {
    let s1 = "123";
    let s2 = "abc";

    assert!(expect_int(s1));
    assert!(!expect_int(s2));
}

#[test]
fn expect_ident_test() {
    let s1 = "abc";
    let s2 = "123";

    assert!(expect_ident(s1));
    assert!(!expect_ident(s2));
}

#[test]
fn expect_operators_test() {
    let ops = vec![
        ";", "==", "=", "!=", "<=", "<", ">=", ">", "+", "-", "*", "/", "(", ")",
    ];

    for op in ops {
        assert_eq!(op, expect_operators(op));
    }
}

#[test]
fn expect_whitespace_test() {
    let s1 = " abc";
    let s2 = "abc ";

    assert!(expect_whitespace(s1));
    assert!(!expect_whitespace(s2));
}

#[test]
fn expect_return_test() {
    let s1 = "return abc";
    let s2 = "return2";
    let s3 = "returnabc";

    assert!(expect_return(s1));
    assert!(expect_return(s2));
    assert!(!expect_return(s3));
}

#[test]
fn expect_if_test() {
    let s1 = "if abc";
    let s2 = "if1";
    let s3 = "ifabc";

    assert!(expect_if(s1));
    assert!(expect_if(s2));
    assert!(!expect_if(s3));
}

#[test]
fn expect_else_test() {
    let s1 = "else abc";
    let s2 = "else1";
    let s3 = "elseabc";

    assert!(expect_else(s1));
    assert!(expect_else(s2));
    assert!(!expect_else(s3));
}

#[test]
fn expect_while_test() {
    let s1 = "while abc";
    let s2 = "while1";
    let s3 = "whileabc";

    assert!(expect_while(s1));
    assert!(expect_while(s2));
    assert!(!expect_while(s3));
}

#[test]
fn expect_for_test() {
    let s1 = "for abc";
    let s2 = "for1";
    let s3 = "forabc";

    assert!(expect_for(s1));
    assert!(expect_for(s2));
    assert!(!expect_for(s3));
}

#[test]
fn is_ident_char_test() {
    let c1 = 'a';
    let c2 = 'A';
    let c3 = '_';
    let c4 = '1';

    assert!(is_ident_char(c1));
    assert!(is_ident_char(c2));
    assert!(is_ident_char(c3));
    assert!(!is_ident_char(c4));
}

#[test]
fn one_integer() {
    let query1 = "0";
    let query2 = "1";
    let query3 = "32";

    assert_eq!(Ok(vec![Token::Integer(0)]), lexer(query1));
    assert_eq!(Ok(vec![Token::Integer(1)]), lexer(query2));
    assert_eq!(Ok(vec![Token::Integer(32)]), lexer(query3));
}

#[test]
fn add() {
    let query = "1 + 1";

    assert_eq!(
        Ok(vec![Token::Integer(1), Token::Add, Token::Integer(1)]),
        lexer(query)
    );
}

#[test]
fn sub() {
    let query = " 2 - 1";

    assert_eq!(
        Ok(vec![Token::Integer(2), Token::Sub, Token::Integer(1),]),
        lexer(query)
    );
}

#[test]
fn mul() {
    let query = "3 * 5";

    assert_eq!(
        Ok(vec![Token::Integer(3), Token::Mul, Token::Integer(5),]),
        lexer(query)
    );
}

#[test]
fn div() {
    let query = "6 / 2";

    assert_eq!(
        Ok(vec![Token::Integer(6), Token::Div, Token::Integer(2)]),
        lexer(query)
    );
}

#[test]
fn lexer_test() {
    let query1 = "1 + 10 - 123 * / == abc = d_ef != <= < >= > (); if else while for";
    let query2 = "abc$";

    assert_eq!(
        Ok(vec![
            Token::Integer(1),
            Token::Add,
            Token::Integer(10),
            Token::Sub,
            Token::Integer(123),
            Token::Mul,
            Token::Div,
            Token::Equality,
            Token::Ident(Ident {
                name: "abc".to_owned()
            }),
            Token::Equal,
            Token::Ident(Ident {
                name: "d_ef".to_owned()
            }),
            Token::Noneequality,
            Token::LessOrEqual,
            Token::Less,
            Token::GreaterOrEqual,
            Token::Greater,
            Token::LParen,
            Token::RParen,
            Token::Semicolon,
            Token::If,
            Token::Else,
            Token::While,
            Token::For,
        ]),
        lexer(query1)
    );
    assert_eq!(Err(TokenError::InvalidChar('$')), lexer(query2));
}

#[test]
fn lexer_braces_and_keyword_prefixes() {
    assert_eq!(
        Ok(vec![
            Token::OpenBrace,
            Token::Ident(Ident {
                name: "returnx".to_owned()
            }),
            Token::Return,
            Token::Integer(7),
            Token::CloseBrace,
        ]),
        lexer("{ returnx return7 }")
    );
}

#[test]
fn lexer_integer_overflow_is_tokenize_error() {
    assert_eq!(
        Err(TokenError::TokenizeError),
        lexer("99999999999999999999999999;")
    );
    assert_eq!(
        Ok(vec![Token::Integer(usize::MAX)]),
        lexer(&usize::MAX.to_string())
    );
}

#[test]
fn lexer_digits_end_identifiers() {
    assert_eq!(
        Ok(vec![
            Token::Ident(Ident {
                name: "a".to_owned()
            }),
            Token::Integer(1),
        ]),
        lexer("a1")
    );
}

#[test]
fn lexer_empty_and_blank_sources() {
    assert_eq!(Ok(vec![]), lexer(""));
    assert_eq!(Ok(vec![]), lexer(" \t\r\n\u{3000}"));
}
