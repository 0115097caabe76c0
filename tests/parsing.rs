use ioc2::lexer::lexer;
use ioc2::parser::parser;
use ioc2::tree::{NodeKind, Tree};
use ioc2::variable::variable_analysis;

fn parse_source(source: &str) -> Result<Vec<Tree>, String> {
    let (query, _ident_count) = variable_analysis(lexer(source).unwrap()).unwrap();
    parser(query)
}

#[test]
fn parser_test() {
    let (query, _ident_count) = variable_analysis(
        lexer(
            "
column = 5;
row = 40;
column * row;
",
        )
        .unwrap(),
    )
    .unwrap();

    assert_eq!(
        Ok(vec![
            Tree::new_tree(NodeKind::Assign, Tree::new_val(8), Tree::new_int(5)),
            Tree::new_tree(NodeKind::Assign, Tree::new_val(16), Tree::new_int(40)),
            Tree::new_tree(NodeKind::Mul, Tree::new_val(8), Tree::new_val(16))
        ]),
        parser(query)
    );
}

#[test]
fn one_int_test() {
    let (query, _ident_count) = variable_analysis(lexer("500;").unwrap()).unwrap();

    assert_eq!(Ok(vec![Tree::new_int(500)]), parser(query));
}

#[test]
fn add_test() {
    let (query, _ident_count) = variable_analysis(lexer("1 + 2;").unwrap()).unwrap();

    assert_eq!(
        Ok(vec![Tree::new_tree(
            NodeKind::Add,
            Tree::new_int(1),
            Tree::new_int(2)
        )]),
        parser(query)
    );
}

#[test]
fn sub_test() {
    let (query, _ident_count) = variable_analysis(lexer("2 - 1;").unwrap()).unwrap();

    assert_eq!(
        Ok(vec![Tree::new_tree(
            NodeKind::Sub,
            Tree::new_int(2),
            Tree::new_int(1)
        )]),
        parser(query)
    );
}

#[test]
fn mul_test() {
    let (query, _ident_count) = variable_analysis(lexer("4 * 5;").unwrap()).unwrap();

    assert_eq!(
        Ok(vec![Tree::new_tree(
            NodeKind::Mul,
            Tree::new_int(4),
            Tree::new_int(5)
        )]),
        parser(query)
    );
}

#[test]
fn div_test() {
    let (query, _ident_count) = variable_analysis(lexer("8 / 4;").unwrap()).unwrap();

    assert_eq!(
        Ok(vec![Tree::new_tree(
            NodeKind::Div,
            Tree::new_int(8),
            Tree::new_int(4)
        )]),
        parser(query)
    );
}

#[test]
fn unary_test() {
    let (query1, _ident_count) = variable_analysis(lexer("+1;").unwrap()).unwrap();
    let (query2, _ident_count) = variable_analysis(lexer("-1;").unwrap()).unwrap();

    assert_eq!(Ok(vec![Tree::new_int(1)]), parser(query1));
    assert_eq!(
        Ok(vec![Tree::new_tree(
            NodeKind::Sub,
            Tree::new_int(0),
            Tree::new_int(1)
        )]),
        parser(query2)
    );
}

#[test]
fn equality_test() {
    let (query, _ident_count) = variable_analysis(lexer("1 == 1;").unwrap()).unwrap();

    assert_eq!(
        Ok(vec![Tree::new_tree(
            NodeKind::Equality,
            Tree::new_int(1),
            Tree::new_int(1)
        )]),
        parser(query)
    );
}

#[test]
fn noneequality_test() {
    let (query, _ident_count) = variable_analysis(lexer("1 != 1;").unwrap()).unwrap();

    assert_eq!(
        Ok(vec![Tree::new_tree(
            NodeKind::Nonequality,
            Tree::new_int(1),
            Tree::new_int(1)
        )]),
        parser(query)
    );
}

#[test]
fn less_or_equal_test() {
    let (query, _ident_count) = variable_analysis(lexer("2 <= 1;").unwrap()).unwrap();

    assert_eq!(
        Ok(vec![Tree::new_tree(
            NodeKind::LessOrEqual,
            Tree::new_int(2),
            Tree::new_int(1)
        )]),
        parser(query)
    );
}

#[test]
fn less_test() {
    let (query, _ident_count) = variable_analysis(lexer("2 < 1;").unwrap()).unwrap();

    assert_eq!(
        Ok(vec![Tree::new_tree(
            NodeKind::Less,
            Tree::new_int(2),
            Tree::new_int(1)
        )]),
        parser(query)
    );
}

#[test]
fn greater_or_equal_test() {
    let (query, _ident_count) = variable_analysis(lexer("2 >= 1;").unwrap()).unwrap();

    assert_eq!(
        Ok(vec![Tree::new_tree(
            NodeKind::LessOrEqual,
            Tree::new_int(1),
            Tree::new_int(2)
        )]),
        parser(query)
    );
}

#[test]
fn greater_test() {
    let (query, _ident_count) = variable_analysis(lexer("2 > 1;").unwrap()).unwrap();

    assert_eq!(
        Ok(vec![Tree::new_tree(
            NodeKind::Less,
            Tree::new_int(1),
            Tree::new_int(2)
        )]),
        parser(query)
    );
}

#[test]
fn paren_test() {
    let (query, _ident_count) = variable_analysis(lexer("2 * (1 + 2);").unwrap()).unwrap();

    assert_eq!(
        Ok(vec![Tree::new_tree(
            NodeKind::Mul,
            Tree::new_int(2),
            Tree::new_tree(NodeKind::Add, Tree::new_int(1), Tree::new_int(2))
        )]),
        parser(query)
    );
}

#[test]
fn assign_test() {
    let (query, _ident_count) = variable_analysis(lexer("a = 123;").unwrap()).unwrap();

    assert_eq!(
        Ok(vec![Tree::new_tree(
            NodeKind::Assign,
            Tree::new_val(8),
            Tree::new_int(123)
        )]),
        parser(query)
    );
}

#[test]
fn statement_test() {
    let (query, _ident_count) = variable_analysis(lexer("1;2;").unwrap()).unwrap();

    assert_eq!(Ok(vec![Tree::new_int(1), Tree::new_int(2)]), parser(query));
}

#[test]
fn return_test() {
    let (query, _ident_count) = variable_analysis(lexer("return 0;").unwrap()).unwrap();

    assert_eq!(Ok(vec![Tree::new_return(Tree::new_int(0))]), parser(query));
}

#[test]
fn if_test() {
    let (query, _ident_count) = variable_analysis(lexer("if(0)return0;").unwrap()).unwrap();

    assert_eq!(
        Ok(vec![Tree::new_if(
            Tree::new_int(0),
            Tree::new_return(Tree::new_int(0))
        )]),
        parser(query)
    );
}

#[test]
fn if_else_test() {
    let (query, _ident_count) =
        variable_analysis(lexer("if(0)return0;else return1;").unwrap()).unwrap();

    assert_eq!(
        Ok(vec![Tree::new_if_else(
            Tree::new_int(0),
            Tree::new_return(Tree::new_int(0)),
            Tree::new_return(Tree::new_int(1))
        )]),
        parser(query)
    );
}

#[test]
fn while_test() {
    let (query, _ident_count) =
        variable_analysis(lexer("while (2 > 1) 1 + 1;").unwrap()).unwrap();

    assert_eq!(
        Ok(vec![Tree::new_while(
            Tree::new_tree(NodeKind::Less, Tree::new_int(1), Tree::new_int(2)),
            Tree::new_tree(NodeKind::Add, Tree::new_int(1), Tree::new_int(1))
        )]),
        parser(query)
    );
}

#[test]
fn for_test() {
    let (query, _ident_count) = variable_analysis(lexer("for(;;)0;").unwrap()).unwrap();

    assert_eq!(
        Ok(vec![Tree::new_for(
            Tree::Empty,
            Tree::Empty,
            Tree::Empty,
            Tree::new_int(0)
        )]),
        parser(query)
    );
}

#[test]
fn spaced_if_scenarios() {
    assert_eq!(
        Ok(vec![Tree::new_if(
            Tree::new_int(0),
            Tree::new_return(Tree::new_int(0))
        )]),
        parse_source("if(0) return 0;")
    );
    assert_eq!(
        Ok(vec![Tree::new_if_else(
            Tree::new_int(0),
            Tree::new_return(Tree::new_int(0)),
            Tree::new_return(Tree::new_int(1))
        )]),
        parse_source("if(0) return 0; else return 1;")
    );
}

#[test]
fn for_with_all_clauses() {
    assert_eq!(
        Ok(vec![Tree::new_for(
            Tree::new_tree(NodeKind::Assign, Tree::new_val(8), Tree::new_int(0)),
            Tree::new_tree(NodeKind::Less, Tree::new_val(8), Tree::new_int(3)),
            Tree::new_tree(
                NodeKind::Assign,
                Tree::new_val(8),
                Tree::new_tree(NodeKind::Add, Tree::new_val(8), Tree::new_int(1))
            ),
            Tree::new_int(0)
        )]),
        parse_source("for (i = 0; i < 3; i = i + 1) 0;")
    );
}

#[test]
fn blocks_wrap_their_statements() {
    assert_eq!(
        Ok(vec![Tree::new_block(vec![Tree::new_int(1), Tree::new_int(2)])]),
        parse_source("{ 1; 2; }")
    );
    assert_eq!(Ok(vec![Tree::new_block(vec![])]), parse_source("{ }"));
    assert_eq!(Ok(vec![]), parse_source(""));
}

#[test]
fn program_in_braces_is_one_block() {
    let plain = parse_source("a = 1; if (a) return a; else { a = 2; }").unwrap();
    let braced = parse_source("{ a = 1; if (a) return a; else { a = 2; } }").unwrap();
    assert_eq!(vec![Tree::new_block(plain)], braced);
}

#[test]
fn greater_is_swapped_less() {
    assert_eq!(parse_source("x > y + 1;"), parse_source("y + 1 < x;"));
    assert_eq!(parse_source("x >= 3;"), parse_source("3 <= x;"));
}

#[test]
fn assignment_is_right_associative_and_arithmetic_left() {
    assert_eq!(
        Ok(vec![Tree::new_tree(
            NodeKind::Assign,
            Tree::new_val(8),
            Tree::new_tree(NodeKind::Assign, Tree::new_val(16), Tree::new_int(1))
        )]),
        parse_source("a = b = 1;")
    );
    assert_eq!(
        Ok(vec![Tree::new_tree(
            NodeKind::Sub,
            Tree::new_tree(NodeKind::Sub, Tree::new_int(3), Tree::new_int(2)),
            Tree::new_int(1)
        )]),
        parse_source("3 - 2 - 1;")
    );
}

#[test]
fn parse_errors() {
    assert_eq!(
        Err("expected semicolon but disappear".to_owned()),
        parse_source("1 + 1")
    );
    assert_eq!(
        Err("expected '(' but disappear".to_owned()),
        parse_source("while 1) 2;")
    );
    assert_eq!(
        Err("expected ')' but disappear".to_owned()),
        parse_source("if (1 2;")
    );
    assert_eq!(
        Err("expected '}' but disappear".to_owned()),
        parse_source("{ 1;")
    );
    assert_eq!(
        Err("expect number or block but disappear".to_owned()),
        parse_source("1 + ;")
    );
}
