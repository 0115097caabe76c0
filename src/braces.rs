use vstd::prelude::*;

use crate::grammar::{
    add_expr, add_op, add_rest, assign, at, block_items, block_stmt, clause, closes, equality,
    equality_op, equality_rest, expr, expr_then, for_body, for_stmt, if_stmt, mul_expr, mul_op,
    mul_rest, node, paren_expr, parse, primary, program, relational, relational_op,
    relational_rest, return_stmt, stmt, unary, while_stmt, Expected, Parsed,
};
use crate::token::Token;
use crate::tree::Ast;

verus! {

/// The tokens `ts` between braces.
pub open spec fn braced(ts: Seq<Token>) -> Seq<Token> {
    seq![Token::OpenBrace] + ts + seq![Token::CloseBrace]
}

/// A result with its end position moved one token on.
pub open spec fn shifted(r: Parsed) -> Parsed {
    match r {
        Ok((t, j)) => Ok((t, j + 1)),
        Err(e) => Err(e),
    }
}

/// The end position of a successful parse.
pub open spec fn end_of(r: Parsed) -> int {
    match r {
        Ok((_, j)) => j,
        Err(_) => 0,
    }
}

proof fn lemma_braced_index(ts: Seq<Token>)
    ensures
        braced(ts).len() == ts.len() + 2,
        braced(ts)[0] is OpenBrace,
        braced(ts)[ts.len() as int + 1] is CloseBrace,
        forall|k: int| 0 <= k < ts.len() ==> #[trigger] braced(ts)[k + 1] == ts[k],
{
}

proof fn embed_primary(ts: Seq<Token>, i: int)
    requires
        0 <= i <= ts.len(),
        primary(ts, i) is Ok,
    ensures
        primary(braced(ts), i + 1) == shifted(primary(ts, i)),
        end_of(primary(ts, i)) <= ts.len(),
        i < end_of(primary(ts, i)),
    decreases ts.len() - i, 2nat,
{
    lemma_braced_index(ts);
    if ts[i] is LParen {
        embed_expr(ts, i + 1);
    }
}

proof fn embed_unary(ts: Seq<Token>, i: int)
    requires
        0 <= i <= ts.len(),
        unary(ts, i) is Ok,
    ensures
        unary(braced(ts), i + 1) == shifted(unary(ts, i)),
        end_of(unary(ts, i)) <= ts.len(),
        i < end_of(unary(ts, i)),
    decreases ts.len() - i, 3nat,
{
    lemma_braced_index(ts);
    if at(ts, i) && (ts[i] is Add || ts[i] is Sub) {
        embed_primary(ts, i + 1);
    } else {
        embed_primary(ts, i);
    }
}

proof fn embed_mul_rest(ts: Seq<Token>, lhs: Ast, i: int)
    requires
        0 <= i <= ts.len(),
        mul_rest(ts, lhs, i) is Ok,
    ensures
        mul_rest(braced(ts), lhs, i + 1) == shifted(mul_rest(ts, lhs, i)),
        end_of(mul_rest(ts, lhs, i)) <= ts.len(),
        i <= end_of(mul_rest(ts, lhs, i)),
    decreases ts.len() - i, 4nat,
{
    lemma_braced_index(ts);
    let b = braced(ts);
    if i < ts.len() {
        assert(b[i + 1] == ts[i]);
    } else {
        assert(b[i + 1] is CloseBrace);
    }
    if at(ts, i) && mul_op(ts[i]) is Some {
        embed_unary(ts, i + 1);
        if let Ok((r, j)) = unary(ts, i + 1) {
            if i < j <= ts.len() {
                embed_mul_rest(ts, node(mul_op(ts[i])->0, lhs, r), j);
            }
        }
    }
}

proof fn embed_mul_expr(ts: Seq<Token>, i: int)
    requires
        0 <= i <= ts.len(),
        mul_expr(ts, i) is Ok,
    ensures
        mul_expr(braced(ts), i + 1) == shifted(mul_expr(ts, i)),
        end_of(mul_expr(ts, i)) <= ts.len(),
        i < end_of(mul_expr(ts, i)),
    decreases ts.len() - i, 5nat,
{
    embed_unary(ts, i);
    if let Ok((l, j)) = unary(ts, i) {
        if i < j <= ts.len() {
            embed_mul_rest(ts, l, j);
        }
    }
}

proof fn embed_add_rest(ts: Seq<Token>, lhs: Ast, i: int)
    requires
        0 <= i <= ts.len(),
        add_rest(ts, lhs, i) is Ok,
    ensures
        add_rest(braced(ts), lhs, i + 1) == shifted(add_rest(ts, lhs, i)),
        end_of(add_rest(ts, lhs, i)) <= ts.len(),
        i <= end_of(add_rest(ts, lhs, i)),
    decreases ts.len() - i, 6nat,
{
    lemma_braced_index(ts);
    let b = braced(ts);
    if i < ts.len() {
        assert(b[i + 1] == ts[i]);
    } else {
        assert(b[i + 1] is CloseBrace);
    }
    if at(ts, i) && add_op(ts[i]) is Some {
        embed_mul_expr(ts, i + 1);
        if let Ok((r, j)) = mul_expr(ts, i + 1) {
            if i < j <= ts.len() {
                embed_add_rest(ts, node(add_op(ts[i])->0, lhs, r), j);
            }
        }
    }
}

proof fn embed_add_expr(ts: Seq<Token>, i: int)
    requires
        0 <= i <= ts.len(),
        add_expr(ts, i) is Ok,
    ensures
        add_expr(braced(ts), i + 1) == shifted(add_expr(ts, i)),
        end_of(add_expr(ts, i)) <= ts.len(),
        i < end_of(add_expr(ts, i)),
    decreases ts.len() - i, 7nat,
{
    embed_mul_expr(ts, i);
    if let Ok((l, j)) = mul_expr(ts, i) {
        if i < j <= ts.len() {
            embed_add_rest(ts, l, j);
        }
    }
}

proof fn embed_relational_rest(ts: Seq<Token>, lhs: Ast, i: int)
    requires
        0 <= i <= ts.len(),
        relational_rest(ts, lhs, i) is Ok,
    ensures
        relational_rest(braced(ts), lhs, i + 1) == shifted(relational_rest(ts, lhs, i)),
        end_of(relational_rest(ts, lhs, i)) <= ts.len(),
        i <= end_of(relational_rest(ts, lhs, i)),
    decreases ts.len() - i, 8nat,
{
    lemma_braced_index(ts);
    let b = braced(ts);
    if i < ts.len() {
        assert(b[i + 1] == ts[i]);
    } else {
        assert(b[i + 1] is CloseBrace);
    }
    if at(ts, i) && relational_op(ts[i]) is Some {
        let (k, swapped) = relational_op(ts[i])->0;
        embed_add_expr(ts, i + 1);
        if let Ok((r, j)) = add_expr(ts, i + 1) {
            if i < j <= ts.len() {
                embed_relational_rest(
                    ts,
                    if swapped {
                        node(k, r, lhs)
                    } else {
                        node(k, lhs, r)
                    },
                    j,
                );
            }
        }
    }
}

proof fn embed_relational(ts: Seq<Token>, i: int)
    requires
        0 <= i <= ts.len(),
        relational(ts, i) is Ok,
    ensures
        relational(braced(ts), i + 1) == shifted(relational(ts, i)),
        end_of(relational(ts, i)) <= ts.len(),
        i < end_of(relational(ts, i)),
    decreases ts.len() - i, 9nat,
{
    embed_add_expr(ts, i);
    if let Ok((l, j)) = add_expr(ts, i) {
        if i < j <= ts.len() {
            embed_relational_rest(ts, l, j);
        }
    }
}

proof fn embed_equality_rest(ts: Seq<Token>, lhs: Ast, i: int)
    requires
        0 <= i <= ts.len(),
        equality_rest(ts, lhs, i) is Ok,
    ensures
        equality_rest(braced(ts), lhs, i + 1) == shifted(equality_rest(ts, lhs, i)),
        end_of(equality_rest(ts, lhs, i)) <= ts.len(),
        i <= end_of(equality_rest(ts, lhs, i)),
    decreases ts.len() - i, 10nat,
{
    lemma_braced_index(ts);
    let b = braced(ts);
    if i < ts.len() {
        assert(b[i + 1] == ts[i]);
    } else {
        assert(b[i + 1] is CloseBrace);
    }
    if at(ts, i) && equality_op(ts[i]) is Some {
        embed_relational(ts, i + 1);
        if let Ok((r, j)) = relational(ts, i + 1) {
            if i < j <= ts.len() {
                embed_equality_rest(ts, node(equality_op(ts[i])->0, lhs, r), j);
            }
        }
    }
}

proof fn embed_equality(ts: Seq<Token>, i: int)
    requires
        0 <= i <= ts.len(),
        equality(ts, i) is Ok,
    ensures
        equality(braced(ts), i + 1) == shifted(equality(ts, i)),
        end_of(equality(ts, i)) <= ts.len(),
        i < end_of(equality(ts, i)),
    decreases ts.len() - i, 11nat,
{
    embed_relational(ts, i);
    if let Ok((l, j)) = relational(ts, i) {
        if i < j <= ts.len() {
            embed_equality_rest(ts, l, j);
        }
    }
}

proof fn embed_assign(ts: Seq<Token>, i: int)
    requires
        0 <= i <= ts.len(),
        assign(ts, i) is Ok,
    ensures
        assign(braced(ts), i + 1) == shifted(assign(ts, i)),
        end_of(assign(ts, i)) <= ts.len(),
        i < end_of(assign(ts, i)),
    decreases ts.len() - i, 12nat,
{
    lemma_braced_index(ts);
    embed_equality(ts, i);
    if let Ok((l, j)) = equality(ts, i) {
        if i < j <= ts.len() && at(ts, j) && ts[j] is Equal {
            embed_assign(ts, j + 1);
        }
    }
}

proof fn embed_expr(ts: Seq<Token>, i: int)
    requires
        0 <= i <= ts.len(),
        expr(ts, i) is Ok,
    ensures
        expr(braced(ts), i + 1) == shifted(expr(ts, i)),
        end_of(expr(ts, i)) <= ts.len(),
        i < end_of(expr(ts, i)),
    decreases ts.len() - i, 13nat,
{
    embed_assign(ts, i);
}

proof fn embed_expr_then(ts: Seq<Token>, i: int, semi: bool)
    requires
        0 <= i <= ts.len(),
        expr_then(ts, i, semi) is Ok,
    ensures
        expr_then(braced(ts), i + 1, semi) == shifted(expr_then(ts, i, semi)),
        end_of(expr_then(ts, i, semi)) <= ts.len(),
        i < end_of(expr_then(ts, i, semi)),
    decreases ts.len() - i, 14nat,
{
    lemma_braced_index(ts);
    embed_expr(ts, i);
}

proof fn embed_clause(ts: Seq<Token>, i: int, semi: bool)
    requires
        0 <= i <= ts.len(),
        clause(ts, i, semi) is Ok,
    ensures
        clause(braced(ts), i + 1, semi) == shifted(clause(ts, i, semi)),
        end_of(clause(ts, i, semi)) <= ts.len(),
        i < end_of(clause(ts, i, semi)),
    decreases ts.len() - i, 15nat,
{
    lemma_braced_index(ts);
    if !(at(ts, i) && closes(ts[i], semi)) {
        embed_expr_then(ts, i, semi);
    }
}

proof fn embed_paren_expr(ts: Seq<Token>, i: int)
    requires
        0 <= i <= ts.len(),
        paren_expr(ts, i) is Ok,
    ensures
        paren_expr(braced(ts), i + 1) == shifted(paren_expr(ts, i)),
        end_of(paren_expr(ts, i)) <= ts.len(),
        i < end_of(paren_expr(ts, i)),
    decreases ts.len() - i, 15nat,
{
    lemma_braced_index(ts);
    embed_expr_then(ts, i + 1, false);
}

proof fn embed_return_stmt(ts: Seq<Token>, i: int)
    requires
        0 <= i < ts.len(),
        return_stmt(ts, i) is Ok,
    ensures
        return_stmt(braced(ts), i + 1) == shifted(return_stmt(ts, i)),
        end_of(return_stmt(ts, i)) <= ts.len(),
        i < end_of(return_stmt(ts, i)),
    decreases ts.len() - i, 15nat,
{
    embed_expr_then(ts, i + 1, true);
}

proof fn embed_if_stmt(ts: Seq<Token>, i: int)
    requires
        0 <= i < ts.len(),
        if_stmt(ts, i) is Ok,
    ensures
        if_stmt(braced(ts), i + 1) == shifted(if_stmt(ts, i)),
        end_of(if_stmt(ts, i)) <= ts.len(),
        i < end_of(if_stmt(ts, i)),
    decreases ts.len() - i, 15nat,
{
    lemma_braced_index(ts);
    embed_paren_expr(ts, i + 1);
    if let Ok((c, j)) = paren_expr(ts, i + 1) {
        if i < j <= ts.len() {
            embed_stmt(ts, j);
            if let Ok((s, k)) = stmt(ts, j) {
                if i < k <= ts.len() && at(ts, k) && ts[k] is Else {
                    embed_stmt(ts, k + 1);
                }
            }
        }
    }
}

proof fn embed_while_stmt(ts: Seq<Token>, i: int)
    requires
        0 <= i < ts.len(),
        while_stmt(ts, i) is Ok,
    ensures
        while_stmt(braced(ts), i + 1) == shifted(while_stmt(ts, i)),
        end_of(while_stmt(ts, i)) <= ts.len(),
        i < end_of(while_stmt(ts, i)),
    decreases ts.len() - i, 15nat,
{
    embed_paren_expr(ts, i + 1);
    if let Ok((c, j)) = paren_expr(ts, i + 1) {
        if i < j <= ts.len() {
            embed_stmt(ts, j);
        }
    }
}

proof fn embed_for_body(ts: Seq<Token>, init: Ast, cond: Ast, step: Ast, i: int)
    requires
        0 <= i <= ts.len(),
        for_body(ts, init, cond, step, i) is Ok,
    ensures
        for_body(braced(ts), init, cond, step, i + 1) == shifted(for_body(ts, init, cond, step, i)),
        end_of(for_body(ts, init, cond, step, i)) <= ts.len(),
        i < end_of(for_body(ts, init, cond, step, i)),
    decreases ts.len() - i, 24nat,
{
    embed_stmt(ts, i);
}

proof fn embed_for_stmt(ts: Seq<Token>, i: int)
    requires
        0 <= i < ts.len(),
        for_stmt(ts, i) is Ok,
    ensures
        for_stmt(braced(ts), i + 1) == shifted(for_stmt(ts, i)),
        end_of(for_stmt(ts, i)) <= ts.len(),
        i < end_of(for_stmt(ts, i)),
    decreases ts.len() - i, 16nat,
{
    lemma_braced_index(ts);
    embed_clause(ts, i + 2, true);
    if let Ok((init, j)) = clause(ts, i + 2, true) {
        if i < j <= ts.len() {
            embed_clause(ts, j, true);
            if let Ok((cond, k)) = clause(ts, j, true) {
                if i < k <= ts.len() {
                    embed_clause(ts, k, false);
                    if let Ok((step, m)) = clause(ts, k, false) {
                        if i < m <= ts.len() {
                            embed_for_body(ts, init, cond, step, m);
                        }
                    }
                }
            }
        }
    }
}

proof fn embed_block_stmt(ts: Seq<Token>, i: int)
    requires
        0 <= i < ts.len(),
        block_stmt(ts, i) is Ok,
    ensures
        block_stmt(braced(ts), i + 1) == shifted(block_stmt(ts, i)),
        end_of(block_stmt(ts, i)) <= ts.len(),
        i < end_of(block_stmt(ts, i)),
    decreases ts.len() - i, 22nat,
{
    embed_block_items(ts, Seq::empty(), i + 1);
}

proof fn embed_stmt(ts: Seq<Token>, i: int)
    requires
        0 <= i <= ts.len(),
        stmt(ts, i) is Ok,
    ensures
        stmt(braced(ts), i + 1) == shifted(stmt(ts, i)),
        end_of(stmt(ts, i)) <= ts.len(),
        i < end_of(stmt(ts, i)),
    decreases ts.len() - i, 23nat,
{
    lemma_braced_index(ts);
    match ts[i] {
        Token::Return => embed_return_stmt(ts, i),
        Token::If => embed_if_stmt(ts, i),
        Token::While => embed_while_stmt(ts, i),
        Token::For => embed_for_stmt(ts, i),
        Token::OpenBrace => embed_block_stmt(ts, i),
        _ => embed_expr_then(ts, i, true),
    }
}

proof fn lemma_close_brace_is_no_statement(ts: Seq<Token>, i: int)
    requires
        at(ts, i),
        ts[i] is CloseBrace,
    ensures
        stmt(ts, i) is Err,
{
    assert(primary(ts, i) is Err);
    assert(unary(ts, i) is Err);
    assert(mul_expr(ts, i) is Err);
    assert(add_expr(ts, i) is Err);
    assert(relational(ts, i) is Err);
    assert(equality(ts, i) is Err);
    assert(assign(ts, i) is Err);
    assert(expr_then(ts, i, true) is Err);
}

proof fn embed_block_items(ts: Seq<Token>, acc: Seq<Ast>, i: int)
    requires
        0 <= i <= ts.len(),
        block_items(ts, acc, i) is Ok,
    ensures
        block_items(braced(ts), acc, i + 1) == match block_items(ts, acc, i) {
            Ok((items, j)) => Ok::<(Seq<Ast>, int), Expected>((items, j + 1)),
            Err(e) => Err(e),
        },
        match block_items(ts, acc, i) {
            Ok((_, j)) => i < j <= ts.len(),
            Err(_) => true,
        },
    decreases ts.len() - i, 24nat,
{
    lemma_braced_index(ts);
    if i < ts.len() {
        assert(braced(ts)[i + 1] == ts[i]);
    }
    if at(ts, i) && !(ts[i] is CloseBrace) {
        embed_stmt(ts, i);
        if let Ok((s, j)) = stmt(ts, i) {
            if i < j <= ts.len() {
                embed_block_items(ts, acc.push(s), j);
            }
        }
    }
}

/// The statements from position `i` on, parsed inside braces, are those the program
/// parses from `i`, and the block ends after the closing brace.
#[verifier::rlimit(60)]
proof fn embed_program(ts: Seq<Token>, acc: Seq<Ast>, i: int)
    requires
        0 <= i <= ts.len(),
        program(ts, acc, i) is Ok,
    ensures
        block_items(braced(ts), acc, i + 1) == Ok::<(Seq<Ast>, int), Expected>(
            (program(ts, acc, i)->Ok_0, ts.len() as int + 2),
        ),
    decreases ts.len() - i,
{
    lemma_braced_index(ts);
    if !at(ts, i) {
        assert(block_items(braced(ts), acc, i + 1) == Ok::<(Seq<Ast>, int), Expected>(
            (acc, ts.len() as int + 2),
        ));
    } else {
        assert(braced(ts)[i + 1] == ts[i]);
        if ts[i] is CloseBrace {
            lemma_close_brace_is_no_statement(ts, i);
        }
        embed_stmt(ts, i);
        if let Ok((s, j)) = stmt(ts, i) {
            if i < j <= ts.len() {
                embed_program(ts, acc.push(s), j);
            }
        }
    }
}

/// A program and the same program between braces parse alike, but for one outer block.
pub proof fn lemma_braces_make_one_block(ts: Seq<Token>)
    requires
        parse(ts) is Ok,
    ensures
        parse(braced(ts)) == Ok::<Seq<Ast>, Expected>(seq![Ast::Block(parse(ts)->Ok_0)]),
{
    lemma_braced_index(ts);
    embed_program(ts, Seq::empty(), 0);
    let b = braced(ts);
    let stmts = parse(ts)->Ok_0;
    assert(block_stmt(b, 0) == Parsed::Ok((Ast::Block(stmts), ts.len() as int + 2)));
    assert(stmt(b, 0) == Parsed::Ok((Ast::Block(stmts), ts.len() as int + 2)));
    assert(program(b, seq![Ast::Block(stmts)], ts.len() as int + 2) == Ok::<Seq<Ast>, Expected>(
        seq![Ast::Block(stmts)],
    ));
    assert(Seq::<Ast>::empty().push(Ast::Block(stmts)) =~= seq![Ast::Block(stmts)]);
}

} // verus!
