use vstd::prelude::*;

use crate::token::Token;
use crate::tree::{Ast, NodeKind};

verus! {

/// What the parser expected where it stopped.
#[derive(Debug, Clone, Copy, PartialEq, Eq, Structural)]
pub enum Expected {
    Semicolon,
    LParen,
    RParen,
    CloseBrace,
    Primary,
}

/// The message reported for each kind of parse error.
pub open spec fn message(e: Expected) -> Seq<char> {
    match e {
        Expected::Semicolon => "expected semicolon but disappear"@,
        Expected::LParen => "expected '(' but disappear"@,
        Expected::RParen => "expected ')' but disappear"@,
        Expected::CloseBrace => "expected '}' but disappear"@,
        Expected::Primary => "expect number or block but disappear"@,
    }
}

/// A parsed tree and the position after it, or what was expected.
pub type Parsed = Result<(Ast, int), Expected>;

// Each rule below is a function of the token list and a position. Where a rule goes on
// after a sub-rule, it does so only when the position moved forward (`i < j <= ts.len()`):
// that makes termination evident. A successful rule always moves forward, which the
// parser proves as it goes, so these conditions never decide a result.

pub open spec fn node(k: NodeKind, l: Ast, r: Ast) -> Ast {
    Ast::Node(k, Box::new(l), Box::new(r))
}

pub open spec fn at(ts: Seq<Token>, i: int) -> bool {
    0 <= i < ts.len()
}

/// primary ::= "(" expr ")" | Integer | Variable
pub open spec fn primary(ts: Seq<Token>, i: int) -> Parsed
    decreases ts.len() - i, 2nat,
{
    if !at(ts, i) {
        Err(Expected::Primary)
    } else {
        match ts[i] {
            Token::LParen => if i + 1 <= ts.len() {
                match expr(ts, i + 1) {
                    Ok((e, j)) => if at(ts, j) && ts[j] is RParen {
                        Ok((e, j + 1))
                    } else {
                        Err(Expected::RParen)
                    },
                    Err(x) => Err(x),
                }
            } else {
                Err(Expected::Primary)
            },
            Token::Integer(n) => Ok((Ast::Int(n as nat), i + 1)),
            Token::Variable { offset } => Ok((Ast::Val { offset: offset as nat }, i + 1)),
            _ => Err(Expected::Primary),
        }
    }
}

/// unary ::= "+"? primary | "-" primary, where `-e` stands for `0 - e`
pub open spec fn unary(ts: Seq<Token>, i: int) -> Parsed
    decreases ts.len() - i, 3nat,
{
    if at(ts, i) && ts[i] is Add {
        primary(ts, i + 1)
    } else if at(ts, i) && ts[i] is Sub {
        match primary(ts, i + 1) {
            Ok((e, j)) => Ok((node(NodeKind::Sub, Ast::Int(0), e), j)),
            Err(x) => Err(x),
        }
    } else {
        primary(ts, i)
    }
}

/// The operator of `mul` at a token, if any.
pub open spec fn mul_op(t: Token) -> Option<NodeKind> {
    match t {
        Token::Mul => Some(NodeKind::Mul),
        Token::Div => Some(NodeKind::Div),
        _ => None,
    }
}

pub open spec fn add_op(t: Token) -> Option<NodeKind> {
    match t {
        Token::Add => Some(NodeKind::Add),
        Token::Sub => Some(NodeKind::Sub),
        _ => None,
    }
}

pub open spec fn equality_op(t: Token) -> Option<NodeKind> {
    match t {
        Token::Equality => Some(NodeKind::Equality),
        Token::Noneequality => Some(NodeKind::Nonequality),
        _ => None,
    }
}

/// The relational operator at a token, and whether its operands are swapped:
/// `a > b` is `b < a` and `a >= b` is `b <= a`.
pub open spec fn relational_op(t: Token) -> Option<(NodeKind, bool)> {
    match t {
        Token::LessOrEqual => Some((NodeKind::LessOrEqual, false)),
        Token::Less => Some((NodeKind::Less, false)),
        Token::GreaterOrEqual => Some((NodeKind::LessOrEqual, true)),
        Token::Greater => Some((NodeKind::Less, true)),
        _ => None,
    }
}

/// The rest of `mul` after its left operand `lhs`, from position `i`.
pub open spec fn mul_rest(ts: Seq<Token>, lhs: Ast, i: int) -> Parsed
    decreases ts.len() - i, 4nat,
{
    if at(ts, i) && mul_op(ts[i]) is Some {
        match unary(ts, i + 1) {
            Ok((r, j)) => if i < j <= ts.len() {
                mul_rest(ts, node(mul_op(ts[i])->0, lhs, r), j)
            } else {
                Ok((lhs, i))
            },
            Err(x) => Err(x),
        }
    } else {
        Ok((lhs, i))
    }
}

/// mul ::= unary (("*" | "/") unary)*
pub open spec fn mul_expr(ts: Seq<Token>, i: int) -> Parsed
    decreases ts.len() - i, 5nat,
{
    match unary(ts, i) {
        Ok((l, j)) => if i < j <= ts.len() {
            mul_rest(ts, l, j)
        } else {
            Ok((l, j))
        },
        Err(x) => Err(x),
    }
}

pub open spec fn add_rest(ts: Seq<Token>, lhs: Ast, i: int) -> Parsed
    decreases ts.len() - i, 6nat,
{
    if at(ts, i) && add_op(ts[i]) is Some {
        match mul_expr(ts, i + 1) {
            Ok((r, j)) => if i < j <= ts.len() {
                add_rest(ts, node(add_op(ts[i])->0, lhs, r), j)
            } else {
                Ok((lhs, i))
            },
            Err(x) => Err(x),
        }
    } else {
        Ok((lhs, i))
    }
}

/// add ::= mul (("+" | "-") mul)*
pub open spec fn add_expr(ts: Seq<Token>, i: int) -> Parsed
    decreases ts.len() - i, 7nat,
{
    match mul_expr(ts, i) {
        Ok((l, j)) => if i < j <= ts.len() {
            add_rest(ts, l, j)
        } else {
            Ok((l, j))
        },
        Err(x) => Err(x),
    }
}

pub open spec fn relational_rest(ts: Seq<Token>, lhs: Ast, i: int) -> Parsed
    decreases ts.len() - i, 8nat,
{
    if at(ts, i) && relational_op(ts[i]) is Some {
        let (k, swapped) = relational_op(ts[i])->0;
        match add_expr(ts, i + 1) {
            Ok((r, j)) => if i < j <= ts.len() {
                relational_rest(ts, if swapped { node(k, r, lhs) } else { node(k, lhs, r) }, j)
            } else {
                Ok((lhs, i))
            },
            Err(x) => Err(x),
        }
    } else {
        Ok((lhs, i))
    }
}

/// relational ::= add (("<=" | "<" | ">=" | ">") add)*
pub open spec fn relational(ts: Seq<Token>, i: int) -> Parsed
    decreases ts.len() - i, 9nat,
{
    match add_expr(ts, i) {
        Ok((l, j)) => if i < j <= ts.len() {
            relational_rest(ts, l, j)
        } else {
            Ok((l, j))
        },
        Err(x) => Err(x),
    }
}

pub open spec fn equality_rest(ts: Seq<Token>, lhs: Ast, i: int) -> Parsed
    decreases ts.len() - i, 10nat,
{
    if at(ts, i) && equality_op(ts[i]) is Some {
        match relational(ts, i + 1) {
            Ok((r, j)) => if i < j <= ts.len() {
                equality_rest(ts, node(equality_op(ts[i])->0, lhs, r), j)
            } else {
                Ok((lhs, i))
            },
            Err(x) => Err(x),
        }
    } else {
        Ok((lhs, i))
    }
}

/// equality ::= relational (("==" | "!=") relational)*
pub open spec fn equality(ts: Seq<Token>, i: int) -> Parsed
    decreases ts.len() - i, 11nat,
{
    match relational(ts, i) {
        Ok((l, j)) => if i < j <= ts.len() {
            equality_rest(ts, l, j)
        } else {
            Ok((l, j))
        },
        Err(x) => Err(x),
    }
}

/// assign ::= equality ("=" assign)?
pub open spec fn assign(ts: Seq<Token>, i: int) -> Parsed
    decreases ts.len() - i, 12nat,
{
    match equality(ts, i) {
        Ok((l, j)) => if i < j <= ts.len() && at(ts, j) && ts[j] is Equal {
            match assign(ts, j + 1) {
                Ok((r, k)) => Ok((node(NodeKind::Assign, l, r), k)),
                Err(x) => Err(x),
            }
        } else {
            Ok((l, j))
        },
        Err(x) => Err(x),
    }
}

/// expr ::= assign
pub open spec fn expr(ts: Seq<Token>, i: int) -> Parsed
    decreases ts.len() - i, 13nat,
{
    assign(ts, i)
}

/// The token that ends a clause: a semicolon, or else a closing parenthesis.
pub open spec fn closes(t: Token, semi: bool) -> bool {
    if semi {
        t is Semicolon
    } else {
        t is RParen
    }
}

pub open spec fn missing(semi: bool) -> Expected {
    if semi {
        Expected::Semicolon
    } else {
        Expected::RParen
    }
}

/// An expression followed by its closing token; it stands for the expression.
pub open spec fn expr_then(ts: Seq<Token>, i: int, semi: bool) -> Parsed
    decreases ts.len() - i, 14nat,
{
    match expr(ts, i) {
        Ok((e, j)) => if at(ts, j) && closes(ts[j], semi) {
            Ok((e, j + 1))
        } else {
            Err(missing(semi))
        },
        Err(x) => Err(x),
    }
}

/// An optional expression followed by its closing token; an absent one is `Empty`.
pub open spec fn clause(ts: Seq<Token>, i: int, semi: bool) -> Parsed
    decreases ts.len() - i, 15nat,
{
    if at(ts, i) && closes(ts[i], semi) {
        Ok((Ast::Empty, i + 1))
    } else {
        expr_then(ts, i, semi)
    }
}

/// "(" expr ")"
pub open spec fn paren_expr(ts: Seq<Token>, i: int) -> Parsed
    decreases ts.len() - i, 15nat,
{
    if at(ts, i) && ts[i] is LParen {
        expr_then(ts, i + 1, false)
    } else {
        Err(Expected::LParen)
    }
}

/// The statements of a block after "{" up to its "}", those so far being `acc`.
pub open spec fn block_items(ts: Seq<Token>, acc: Seq<Ast>, i: int) -> Result<
    (Seq<Ast>, int),
    Expected,
>
    decreases ts.len() - i, 21nat,
{
    if !at(ts, i) {
        Err(Expected::CloseBrace)
    } else if ts[i] is CloseBrace {
        Ok((acc, i + 1))
    } else {
        match stmt(ts, i) {
            Ok((s, j)) => if i < j <= ts.len() {
                block_items(ts, acc.push(s), j)
            } else {
                Ok((acc, i))
            },
            Err(x) => Err(x),
        }
    }
}

/// "return" expr ";"
pub open spec fn return_stmt(ts: Seq<Token>, i: int) -> Parsed
    decreases ts.len() - i, 15nat,
{
    match expr_then(ts, i + 1, true) {
        Ok((e, j)) => Ok((Ast::Return(Box::new(e)), j)),
        Err(x) => Err(x),
    }
}

/// "if" "(" expr ")" stmt ("else" stmt)?
pub open spec fn if_stmt(ts: Seq<Token>, i: int) -> Parsed
    decreases ts.len() - i, 15nat,
{
    match paren_expr(ts, i + 1) {
        Ok((c, j)) => if i < j <= ts.len() {
            match stmt(ts, j) {
                Ok((s, k)) => if i < k <= ts.len() && at(ts, k) && ts[k] is Else {
                    match stmt(ts, k + 1) {
                        Ok((e, m)) => Ok((Ast::IfElse(Box::new(c), Box::new(s), Box::new(e)), m)),
                        Err(x) => Err(x),
                    }
                } else {
                    Ok((Ast::If(Box::new(c), Box::new(s)), k))
                },
                Err(x) => Err(x),
            }
        } else {
            Err(Expected::LParen)
        },
        Err(x) => Err(x),
    }
}

/// "while" "(" expr ")" stmt
pub open spec fn while_stmt(ts: Seq<Token>, i: int) -> Parsed
    decreases ts.len() - i, 15nat,
{
    match paren_expr(ts, i + 1) {
        Ok((c, j)) => if i < j <= ts.len() {
            match stmt(ts, j) {
                Ok((s, k)) => Ok((Ast::While(Box::new(c), Box::new(s)), k)),
                Err(x) => Err(x),
            }
        } else {
            Err(Expected::LParen)
        },
        Err(x) => Err(x),
    }
}

/// The body of a `for` statement at `i`, after its three clauses.
pub open spec fn for_body(ts: Seq<Token>, init: Ast, cond: Ast, step: Ast, i: int) -> Parsed
    decreases ts.len() - i, 21nat,
{
    match stmt(ts, i) {
        Ok((body, p)) => Ok(
            (Ast::For(Box::new(init), Box::new(cond), Box::new(step), Box::new(body)), p),
        ),
        Err(x) => Err(x),
    }
}

/// "for" "(" expr? ";" expr? ";" expr? ")" stmt
pub open spec fn for_stmt(ts: Seq<Token>, i: int) -> Parsed
    decreases ts.len() - i, 16nat,
{
    if at(ts, i + 1) && ts[i + 1] is LParen {
        match clause(ts, i + 2, true) {
            Ok((init, j)) => if i < j <= ts.len() {
                match clause(ts, j, true) {
                    Ok((cond, k)) => if i < k <= ts.len() {
                        match clause(ts, k, false) {
                            Ok((step, m)) => if i < m <= ts.len() {
                                for_body(ts, init, cond, step, m)
                            } else {
                                Err(Expected::RParen)
                            },
                            Err(x) => Err(x),
                        }
                    } else {
                        Err(Expected::Semicolon)
                    },
                    Err(x) => Err(x),
                }
            } else {
                Err(Expected::Semicolon)
            },
            Err(x) => Err(x),
        }
    } else {
        Err(Expected::LParen)
    }
}

/// "{" stmt* "}"
pub open spec fn block_stmt(ts: Seq<Token>, i: int) -> Parsed
    decreases ts.len() - i, 19nat,
{
    if !at(ts, i) {
        Err(Expected::CloseBrace)
    } else {
        match block_items(ts, Seq::empty(), i + 1) {
            Ok((items, j)) => Ok((Ast::Block(items), j)),
            Err(x) => Err(x),
        }
    }
}

/// stmt ::= "return" expr ";" | "if" "(" expr ")" stmt ("else" stmt)?
///        | "while" "(" expr ")" stmt | "for" "(" expr? ";" expr? ";" expr? ")" stmt
///        | "{" stmt* "}" | expr ";"
pub open spec fn stmt(ts: Seq<Token>, i: int) -> Parsed
    decreases ts.len() - i, 20nat,
{
    if !at(ts, i) {
        Err(Expected::Semicolon)
    } else {
        match ts[i] {
            Token::Return => return_stmt(ts, i),
            Token::If => if_stmt(ts, i),
            Token::While => while_stmt(ts, i),
            Token::For => for_stmt(ts, i),
            Token::OpenBrace => block_stmt(ts, i),
            _ => expr_then(ts, i, true),
        }
    }
}

/// program ::= stmt*, the statements from position `i` appended to `acc`.
pub open spec fn program(ts: Seq<Token>, acc: Seq<Ast>, i: int) -> Result<Seq<Ast>, Expected>
    decreases ts.len() - i, 22nat,
{
    if !at(ts, i) {
        Ok(acc)
    } else {
        match stmt(ts, i) {
            Ok((s, j)) => if i < j <= ts.len() {
                program(ts, acc.push(s), j)
            } else {
                Ok(acc)
            },
            Err(x) => Err(x),
        }
    }
}

/// The statements of a whole token list.
pub open spec fn parse(ts: Seq<Token>) -> Result<Seq<Ast>, Expected> {
    program(ts, Seq::empty(), 0)
}

/// A single integer or variable token.
pub open spec fn is_operand(t: Token) -> bool {
    t is Integer || t is Variable
}

pub open spec fn operand(t: Token) -> Ast {
    match t {
        Token::Integer(n) => Ast::Int(n as nat),
        Token::Variable { offset } => Ast::Val { offset: offset as nat },
        _ => Ast::Empty,
    }
}

/// A relational operator or a semicolon: a token that ends a sum.
pub open spec fn ends_sum(t: Token) -> bool {
    t is Less || t is LessOrEqual || t is Greater || t is GreaterOrEqual || t is Semicolon
}

proof fn lemma_operand_sum(ts: Seq<Token>, i: int)
    requires
        0 <= i,
        i + 1 < ts.len(),
        is_operand(ts[i]),
        ends_sum(ts[i + 1]),
    ensures
        add_expr(ts, i) == Parsed::Ok((operand(ts[i]), i + 1)),
{
    assert(primary(ts, i) == Parsed::Ok((operand(ts[i]), i + 1)));
    assert(unary(ts, i) == Parsed::Ok((operand(ts[i]), i + 1)));
    assert(mul_rest(ts, operand(ts[i]), i + 1) == Parsed::Ok((operand(ts[i]), i + 1)));
    assert(mul_expr(ts, i) == Parsed::Ok((operand(ts[i]), i + 1)));
    assert(add_rest(ts, operand(ts[i]), i + 1) == Parsed::Ok((operand(ts[i]), i + 1)));
}

/// The statement `a op b ;` of two operands, parsed.
proof fn lemma_comparison_statement(ts: Seq<Token>, k: NodeKind, swapped: bool)
    requires
        ts.len() == 4,
        is_operand(ts[0]),
        is_operand(ts[2]),
        relational_op(ts[1]) == Some((k, swapped)),
        ts[3] is Semicolon,
    ensures
        parse(ts) == Ok::<Seq<Ast>, Expected>(
            seq![
                if swapped {
                    node(k, operand(ts[2]), operand(ts[0]))
                } else {
                    node(k, operand(ts[0]), operand(ts[2]))
                },
            ],
        ),
{
    let tree = if swapped {
        node(k, operand(ts[2]), operand(ts[0]))
    } else {
        node(k, operand(ts[0]), operand(ts[2]))
    };
    lemma_operand_sum(ts, 0);
    lemma_operand_sum(ts, 2);
    assert(relational_rest(ts, tree, 3) == Parsed::Ok((tree, 3)));
    assert(relational_rest(ts, operand(ts[0]), 1) == Parsed::Ok((tree, 3)));
    assert(relational(ts, 0) == Parsed::Ok((tree, 3)));
    assert(equality_rest(ts, tree, 3) == Parsed::Ok((tree, 3)));
    assert(equality(ts, 0) == Parsed::Ok((tree, 3)));
    assert(assign(ts, 0) == Parsed::Ok((tree, 3)));
    assert(expr(ts, 0) == Parsed::Ok((tree, 3)));
    assert(expr_then(ts, 0, true) == Parsed::Ok((tree, 4)));
    assert(stmt(ts, 0) == Parsed::Ok((tree, 4)));
    assert(program(ts, seq![tree], 4) == Ok::<Seq<Ast>, Expected>(seq![tree]));
    assert(Seq::<Ast>::empty().push(tree) =~= seq![tree]);
}

/// `a > b;` parses as `b < a;` does, and `a >= b;` as `b <= a;`, for any two operands.
#[verifier::spinoff_prover]
#[verifier::rlimit(60)]
pub proof fn lemma_greater_is_swapped_less(a: Token, b: Token)
    requires
        is_operand(a),
        is_operand(b),
    ensures
        parse(seq![a, Token::Greater, b, Token::Semicolon]) == parse(
            seq![b, Token::Less, a, Token::Semicolon],
        ),
        parse(seq![a, Token::GreaterOrEqual, b, Token::Semicolon]) == parse(
            seq![b, Token::LessOrEqual, a, Token::Semicolon],
        ),
{
    lemma_comparison_statement(seq![a, Token::Greater, b, Token::Semicolon], NodeKind::Less, true);
    lemma_comparison_statement(seq![b, Token::Less, a, Token::Semicolon], NodeKind::Less, false);
    lemma_comparison_statement(
        seq![a, Token::GreaterOrEqual, b, Token::Semicolon],
        NodeKind::LessOrEqual,
        true,
    );
    lemma_comparison_statement(
        seq![b, Token::LessOrEqual, a, Token::Semicolon],
        NodeKind::LessOrEqual,
        false,
    );
}

} // verus!
