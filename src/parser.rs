use vstd::prelude::*;

use crate::grammar;
use crate::grammar::{message, Expected, Parsed};
use crate::token::Token;
use crate::tree::{model, models, NodeKind, Tree};

verus! {

pub type TreeError = String;

/// `r` is what the grammar rule gives at position `i`: the same tree and end position,
/// which lies past `i`; or the same error.
pub open spec fn parsed_as(
    rule: Parsed,
    r: Result<(Tree, usize), Expected>,
    i: int,
    len: int,
) -> bool {
    match r {
        Ok((t, j)) => rule == Parsed::Ok((model(t), j as int)) && i < j <= len,
        Err(e) => rule == Parsed::Err(e),
    }
}

/// The message of a parse error.
pub fn error_message(e: Expected) -> (r: TreeError)
    ensures
        r@ == message(e),
{
    match e {
        Expected::Semicolon => semicolon_error(),
        Expected::LParen => lparen_error(),
        Expected::RParen => rparen_error(),
        Expected::CloseBrace => closebrace_error(),
        Expected::Primary => String::from_str("expect number or block but disappear"),
    }
}

fn semicolon_error() -> (r: TreeError)
    ensures
        r@ == message(Expected::Semicolon),
{
    String::from_str("expected semicolon but disappear")
}

fn lparen_error() -> (r: TreeError)
    ensures
        r@ == message(Expected::LParen),
{
    String::from_str("expected '(' but disappear")
}

fn rparen_error() -> (r: TreeError)
    ensures
        r@ == message(Expected::RParen),
{
    String::from_str("expected ')' but disappear")
}

fn closebrace_error() -> (r: TreeError)
    ensures
        r@ == message(Expected::CloseBrace),
{
    String::from_str("expected '}' but disappear")
}

fn node(kind: NodeKind, lhs: Tree, rhs: Tree) -> (r: Tree)
    ensures
        model(r) == grammar::node(kind, model(lhs), model(rhs)),
{
    Tree::Node(kind, Box::new(lhs), Box::new(rhs))
}

fn primary(ts: &Vec<Token>, i: usize) -> (r: Result<(Tree, usize), Expected>)
    ensures
        parsed_as(grammar::primary(ts@, i as int), r, i as int, ts.len() as int),
    decreases ts.len() - i, 2nat,
{
    if i >= ts.len() {
        return Err(Expected::Primary);
    }
    match &ts[i] {
        Token::LParen => {
            let (e, j) = match expr(ts, i + 1) {
                Ok(x) => x,
                Err(x) => return Err(x),
            };
            if j < ts.len() {
                if let Token::RParen = &ts[j] {
                    return Ok((e, j + 1));
                }
            }
            Err(Expected::RParen)
        },
        Token::Integer(n) => Ok((Tree::Int(*n), i + 1)),
        Token::Variable { offset } => Ok((Tree::Val { offset: *offset }, i + 1)),
        _ => Err(Expected::Primary),
    }
}

fn unary(ts: &Vec<Token>, i: usize) -> (r: Result<(Tree, usize), Expected>)
    ensures
        parsed_as(grammar::unary(ts@, i as int), r, i as int, ts.len() as int),
    decreases ts.len() - i, 3nat,
{
    if i < ts.len() {
        match &ts[i] {
            Token::Add => return primary(ts, i + 1),
            Token::Sub => {
                let (e, j) = match primary(ts, i + 1) {
                    Ok(x) => x,
                    Err(x) => return Err(x),
                };
                return Ok((node(NodeKind::Sub, Tree::Int(0), e), j));
            },
            _ => {},
        }
    }
    primary(ts, i)
}

fn mul_expr(ts: &Vec<Token>, i: usize) -> (r: Result<(Tree, usize), Expected>)
    ensures
        parsed_as(grammar::mul_expr(ts@, i as int), r, i as int, ts.len() as int),
    decreases ts.len() - i, 5nat,
{
    let (mut lhs, mut j) = match unary(ts, i) {
        Ok(x) => x,
        Err(x) => return Err(x),
    };
    loop
        invariant
            i < j <= ts.len(),
            grammar::mul_expr(ts@, i as int) == grammar::mul_rest(ts@, model(lhs), j as int),
        decreases ts.len() - j,
    {
        if j >= ts.len() {
            return Ok((lhs, j));
        }
        let kind = match &ts[j] {
            Token::Mul => NodeKind::Mul,
            Token::Div => NodeKind::Div,
            _ => return Ok((lhs, j)),
        };
        let (rhs, k) = match unary(ts, j + 1) {
            Ok(x) => x,
            Err(x) => return Err(x),
        };
        lhs = node(kind, lhs, rhs);
        j = k;
    }
}

fn add_expr(ts: &Vec<Token>, i: usize) -> (r: Result<(Tree, usize), Expected>)
    ensures
        parsed_as(grammar::add_expr(ts@, i as int), r, i as int, ts.len() as int),
    decreases ts.len() - i, 7nat,
{
    let (mut lhs, mut j) = match mul_expr(ts, i) {
        Ok(x) => x,
        Err(x) => return Err(x),
    };
    loop
        invariant
            i < j <= ts.len(),
            grammar::add_expr(ts@, i as int) == grammar::add_rest(ts@, model(lhs), j as int),
        decreases ts.len() - j,
    {
        if j >= ts.len() {
            return Ok((lhs, j));
        }
        let kind = match &ts[j] {
            Token::Add => NodeKind::Add,
            Token::Sub => NodeKind::Sub,
            _ => return Ok((lhs, j)),
        };
        let (rhs, k) = match mul_expr(ts, j + 1) {
            Ok(x) => x,
            Err(x) => return Err(x),
        };
        lhs = node(kind, lhs, rhs);
        j = k;
    }
}

fn relational(ts: &Vec<Token>, i: usize) -> (r: Result<(Tree, usize), Expected>)
    ensures
        parsed_as(grammar::relational(ts@, i as int), r, i as int, ts.len() as int),
    decreases ts.len() - i, 9nat,
{
    let (mut lhs, mut j) = match add_expr(ts, i) {
        Ok(x) => x,
        Err(x) => return Err(x),
    };
    loop
        invariant
            i < j <= ts.len(),
            grammar::relational(ts@, i as int) == grammar::relational_rest(
                ts@,
                model(lhs),
                j as int,
            ),
        decreases ts.len() - j,
    {
        if j >= ts.len() {
            return Ok((lhs, j));
        }
        let (kind, swapped) = match &ts[j] {
            Token::LessOrEqual => (NodeKind::LessOrEqual, false),
            Token::Less => (NodeKind::Less, false),
            Token::GreaterOrEqual => (NodeKind::LessOrEqual, true),
            Token::Greater => (NodeKind::Less, true),
            _ => return Ok((lhs, j)),
        };
        let (rhs, k) = match add_expr(ts, j + 1) {
            Ok(x) => x,
            Err(x) => return Err(x),
        };
        lhs = if swapped {
            node(kind, rhs, lhs)
        } else {
            node(kind, lhs, rhs)
        };
        j = k;
    }
}

fn equality(ts: &Vec<Token>, i: usize) -> (r: Result<(Tree, usize), Expected>)
    ensures
        parsed_as(grammar::equality(ts@, i as int), r, i as int, ts.len() as int),
    decreases ts.len() - i, 11nat,
{
    let (mut lhs, mut j) = match relational(ts, i) {
        Ok(x) => x,
        Err(x) => return Err(x),
    };
    loop
        invariant
            i < j <= ts.len(),
            grammar::equality(ts@, i as int) == grammar::equality_rest(ts@, model(lhs), j as int),
        decreases ts.len() - j,
    {
        if j >= ts.len() {
            return Ok((lhs, j));
        }
        let kind = match &ts[j] {
            Token::Equality => NodeKind::Equality,
            Token::Noneequality => NodeKind::Nonequality,
            _ => return Ok((lhs, j)),
        };
        let (rhs, k) = match relational(ts, j + 1) {
            Ok(x) => x,
            Err(x) => return Err(x),
        };
        lhs = node(kind, lhs, rhs);
        j = k;
    }
}

fn assign(ts: &Vec<Token>, i: usize) -> (r: Result<(Tree, usize), Expected>)
    ensures
        parsed_as(grammar::assign(ts@, i as int), r, i as int, ts.len() as int),
    decreases ts.len() - i, 12nat,
{
    let (lhs, j) = match equality(ts, i) {
        Ok(x) => x,
        Err(x) => return Err(x),
    };
    if j < ts.len() {
        if let Token::Equal = &ts[j] {
            let (rhs, k) = match assign(ts, j + 1) {
                Ok(x) => x,
                Err(x) => return Err(x),
            };
            return Ok((node(NodeKind::Assign, lhs, rhs), k));
        }
    }
    Ok((lhs, j))
}

fn expr(ts: &Vec<Token>, i: usize) -> (r: Result<(Tree, usize), Expected>)
    ensures
        parsed_as(grammar::expr(ts@, i as int), r, i as int, ts.len() as int),
    decreases ts.len() - i, 13nat,
{
    assign(ts, i)
}

fn closes(t: &Token, semi: bool) -> (r: bool)
    ensures
        r == grammar::closes(*t, semi),
{
    match t {
        Token::Semicolon => semi,
        Token::RParen => !semi,
        _ => false,
    }
}

fn expr_then(ts: &Vec<Token>, i: usize, semi: bool) -> (r: Result<(Tree, usize), Expected>)
    ensures
        parsed_as(grammar::expr_then(ts@, i as int, semi), r, i as int, ts.len() as int),
    decreases ts.len() - i, 14nat,
{
    let (e, j) = match expr(ts, i) {
        Ok(x) => x,
        Err(x) => return Err(x),
    };
    if j < ts.len() && closes(&ts[j], semi) {
        Ok((e, j + 1))
    } else if semi {
        Err(Expected::Semicolon)
    } else {
        Err(Expected::RParen)
    }
}

fn parse_clause(ts: &Vec<Token>, i: usize, semi: bool) -> (r: Result<(Tree, usize), Expected>)
    ensures
        parsed_as(grammar::clause(ts@, i as int, semi), r, i as int, ts.len() as int),
    decreases ts.len() - i, 15nat,
{
    if i < ts.len() && closes(&ts[i], semi) {
        Ok((Tree::Empty, i + 1))
    } else {
        expr_then(ts, i, semi)
    }
}

fn parse_paren_expr(ts: &Vec<Token>, i: usize) -> (r: Result<(Tree, usize), Expected>)
    ensures
        parsed_as(grammar::paren_expr(ts@, i as int), r, i as int, ts.len() as int),
    decreases ts.len() - i, 15nat,
{
    if i < ts.len() {
        if let Token::LParen = &ts[i] {
            return expr_then(ts, i + 1, false);
        }
    }
    Err(Expected::LParen)
}

fn parse_return(ts: &Vec<Token>, i: usize) -> (r: Result<(Tree, usize), Expected>)
    requires
        i < ts.len(),
        ts@[i as int] is Return,
    ensures
        parsed_as(grammar::return_stmt(ts@, i as int), r, i as int, ts.len() as int),
    decreases ts.len() - i, 15nat,
{
    let (e, j) = match expr_then(ts, i + 1, true) {
        Ok(x) => x,
        Err(x) => return Err(x),
    };
    Ok((Tree::Return(Box::new(e)), j))
}

fn parse_if(ts: &Vec<Token>, i: usize) -> (r: Result<(Tree, usize), Expected>)
    requires
        i < ts.len(),
        ts@[i as int] is If,
    ensures
        parsed_as(grammar::if_stmt(ts@, i as int), r, i as int, ts.len() as int),
    decreases ts.len() - i, 15nat,
{
    let (cond, j) = match parse_paren_expr(ts, i + 1) {
        Ok(x) => x,
        Err(x) => return Err(x),
    };
    let (then_stmt, k) = match stmt(ts, j) {
        Ok(x) => x,
        Err(x) => return Err(x),
    };
    if k < ts.len() {
        if let Token::Else = &ts[k] {
            let (else_stmt, m) = match stmt(ts, k + 1) {
                Ok(x) => x,
                Err(x) => return Err(x),
            };
            return Ok((Tree::IfElse(Box::new(cond), Box::new(then_stmt), Box::new(else_stmt)), m));
        }
    }
    Ok((Tree::If(Box::new(cond), Box::new(then_stmt)), k))
}

fn parse_while(ts: &Vec<Token>, i: usize) -> (r: Result<(Tree, usize), Expected>)
    requires
        i < ts.len(),
        ts@[i as int] is While,
    ensures
        parsed_as(grammar::while_stmt(ts@, i as int), r, i as int, ts.len() as int),
    decreases ts.len() - i, 15nat,
{
    let (cond, j) = match parse_paren_expr(ts, i + 1) {
        Ok(x) => x,
        Err(x) => return Err(x),
    };
    let (body, k) = match stmt(ts, j) {
        Ok(x) => x,
        Err(x) => return Err(x),
    };
    Ok((Tree::While(Box::new(cond), Box::new(body)), k))
}

fn parse_for(ts: &Vec<Token>, i: usize) -> (r: Result<(Tree, usize), Expected>)
    requires
        i < ts.len(),
        ts@[i as int] is For,
    ensures
        parsed_as(grammar::for_stmt(ts@, i as int), r, i as int, ts.len() as int),
    decreases ts.len() - i, 16nat,
{
    let open = i + 1 < ts.len() && match &ts[i + 1] {
        Token::LParen => true,
        _ => false,
    };
    if !open {
        return Err(Expected::LParen);
    }
    let (init, j) = match parse_clause(ts, i + 2, true) {
        Ok(x) => x,
        Err(x) => return Err(x),
    };
    let (cond, k) = match parse_clause(ts, j, true) {
        Ok(x) => x,
        Err(x) => return Err(x),
    };
    let (step, m) = match parse_clause(ts, k, false) {
        Ok(x) => x,
        Err(x) => return Err(x),
    };
    parse_for_tree(ts, init, cond, step, m)
}

fn parse_for_tree(ts: &Vec<Token>, init: Tree, cond: Tree, step: Tree, i: usize) -> (r: Result<
    (Tree, usize),
    Expected,
>)
    ensures
        parsed_as(
            grammar::for_body(ts@, model(init), model(cond), model(step), i as int),
            r,
            i as int,
            ts.len() as int,
        ),
    decreases ts.len() - i, 21nat,
{
    let (body, p) = match stmt(ts, i) {
        Ok(x) => x,
        Err(x) => return Err(x),
    };
    Ok((Tree::For(Box::new(init), Box::new(cond), Box::new(step), Box::new(body)), p))
}

proof fn lemma_models_push(v: Seq<Tree>, t: Tree)
    ensures
        models(v.push(t)) == models(v).push(model(t)),
{
    assert(v.push(t).drop_last() =~= v);
}

fn parse_block(ts: &Vec<Token>, i: usize) -> (r: Result<(Tree, usize), Expected>)
    requires
        i < ts.len(),
        ts@[i as int] is OpenBrace,
    ensures
        parsed_as(grammar::block_stmt(ts@, i as int), r, i as int, ts.len() as int),
    decreases ts.len() - i, 19nat,
{
    let mut items: Vec<Tree> = Vec::new();
    let mut j: usize = i + 1;
    proof {
        assert(models(items@) =~= Seq::empty());
    }
    loop
        invariant
            i < j <= ts.len(),
            grammar::block_items(ts@, Seq::empty(), i + 1) == grammar::block_items(
                ts@,
                models(items@),
                j as int,
            ),
        decreases ts.len() - j,
    {
        if j >= ts.len() {
            return Err(Expected::CloseBrace);
        }
        if let Token::CloseBrace = &ts[j] {
            return Ok((Tree::Block(items), j + 1));
        }
        let (s, k) = match stmt(ts, j) {
            Ok(x) => x,
            Err(x) => return Err(x),
        };
        proof {
            lemma_models_push(items@, s);
        }
        items.push(s);
        j = k;
    }
}

fn stmt(ts: &Vec<Token>, i: usize) -> (r: Result<(Tree, usize), Expected>)
    ensures
        parsed_as(grammar::stmt(ts@, i as int), r, i as int, ts.len() as int),
    decreases ts.len() - i, 20nat,
{
    if i >= ts.len() {
        return Err(Expected::Semicolon);
    }
    match &ts[i] {
        Token::Return => parse_return(ts, i),
        Token::If => parse_if(ts, i),
        Token::While => parse_while(ts, i),
        Token::For => parse_for(ts, i),
        Token::OpenBrace => parse_block(ts, i),
        _ => expr_then(ts, i, true),
    }
}

/// Parses a whole token list into its statements.
pub fn parser(tokens: Vec<Token>) -> (r: Result<Vec<Tree>, TreeError>)
    ensures
        match r {
            Ok(trees) => grammar::parse(tokens@) == Ok::<Seq<crate::tree::Ast>, Expected>(
                models(trees@),
            ),
            Err(e) => exists|x: Expected|
                grammar::parse(tokens@) == Err::<Seq<crate::tree::Ast>, Expected>(x) && e@
                    == message(x),
        },
{
    let mut trees: Vec<Tree> = Vec::new();
    let mut i: usize = 0;
    proof {
        assert(models(trees@) =~= Seq::empty());
    }
    while i < tokens.len()
        invariant
            i <= tokens.len(),
            grammar::parse(tokens@) == grammar::program(tokens@, models(trees@), i as int),
        decreases tokens.len() - i,
    {
        let (s, j) = match stmt(&tokens, i) {
            Ok(x) => x,
            Err(x) => return Err(error_message(x)),
        };
        proof {
            lemma_models_push(trees@, s);
        }
        trees.push(s);
        i = j;
    }
    Ok(trees)
}

} // verus!
