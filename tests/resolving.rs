use ioc2::lexer::lexer;
use ioc2::token::{Ident, Token};
use ioc2::variable::{
    calc_offset, convert_tokens, deduplicate_variable, extract_ident, ident2var,
    variable_analysis,
};

fn ident(name: &str) -> Ident {
    Ident {
        name: name.to_owned(),
    }
}

#[test]
fn variable_analysis_test() {
    let query1 = vec![Token::Integer(0), Token::Ident(ident("a")), Token::Add];

    assert_eq!(
        Ok((
            vec![Token::Integer(0), Token::Variable { offset: 8 }, Token::Add],
            1
        )),
        variable_analysis(query1)
    );
}

#[test]
fn extract_variable_test() {
    let query = vec![Token::Integer(0), Token::Ident(ident("a")), Token::Add];

    assert_eq!(vec![ident("a")], extract_ident(&query));
}

#[test]
fn deduplicate_variable_test() {
    let query = vec![ident("a"), ident("b"), ident("b"), ident("c"), ident("c")];

    assert_eq!(
        vec![ident("a"), ident("b"), ident("c")],
        deduplicate_variable(query)
    );
}

#[test]
fn calc_offset_test() {
    let query = vec![ident("a"), ident("b"), ident("c")];

    assert_eq!(Some(8), calc_offset(ident("a"), &query));
    assert_eq!(Some(16), calc_offset(ident("b"), &query));
    assert_eq!(Some(24), calc_offset(ident("c"), &query));
    assert_eq!(None, calc_offset(ident("d"), &query));
}

#[test]
fn ident2var_test() {
    let ident0 = ident("a");
    let ident1 = ident("b");
    let ident2 = ident("c");
    let ident3 = ident("d");
    let idents = vec![ident0.clone(), ident1.clone(), ident2.clone()];

    assert_eq!(
        Ok(Token::Variable { offset: 8 }),
        ident2var(Token::Ident(ident0), &idents)
    );
    assert_eq!(
        Ok(Token::Variable { offset: 16 }),
        ident2var(Token::Ident(ident1), &idents)
    );
    assert_eq!(
        Ok(Token::Variable { offset: 24 }),
        ident2var(Token::Ident(ident2), &idents)
    );
    assert_eq!(
        Err("unexpected ident"),
        ident2var(Token::Ident(ident3), &idents)
    );
}

#[test]
fn convert_tokens_test() {
    let query = vec![
        Token::Integer(0),
        Token::Ident(ident("a")),
        Token::Ident(ident("b")),
        Token::Add,
        Token::Ident(ident("b")),
        Token::Ident(ident("c")),
        Token::Ident(ident("c")),
        Token::Add,
    ];

    assert_eq!(
        Ok((
            vec![
                Token::Integer(0),
                Token::Variable { offset: 8 },
                Token::Variable { offset: 16 },
                Token::Add,
                Token::Variable { offset: 16 },
                Token::Variable { offset: 24 },
                Token::Variable { offset: 24 },
                Token::Add,
            ],
            3
        )),
        convert_tokens(query)
    );
}

#[test]
fn resolution_leaves_no_identifiers() {
    let tokens = lexer("zeta = 1; alpha = zeta + mid; mid = alpha;").unwrap();
    let (resolved, count) = variable_analysis(tokens).unwrap();
    assert_eq!(3, count);
    assert!(!resolved.iter().any(|t| matches!(t, Token::Ident(_))));
}

#[test]
fn offsets_follow_sorted_names_not_encounter_order() {
    let (resolved, count) = variable_analysis(lexer("zeta alpha mid zeta").unwrap()).unwrap();
    assert_eq!(3, count);
    assert_eq!(
        vec![
            Token::Variable { offset: 24 },
            Token::Variable { offset: 8 },
            Token::Variable { offset: 16 },
            Token::Variable { offset: 24 },
        ],
        resolved
    );
}

#[test]
fn sorting_is_by_code_point() {
    let sorted = deduplicate_variable(vec![ident("b"), ident("B"), ident("ab"), ident("a")]);
    assert_eq!(vec![ident("B"), ident("a"), ident("ab"), ident("b")], sorted);
}

#[test]
fn no_identifiers_means_no_slots() {
    assert_eq!(
        Ok((vec![Token::Integer(1), Token::Semicolon], 0)),
        variable_analysis(vec![Token::Integer(1), Token::Semicolon])
    );
}
