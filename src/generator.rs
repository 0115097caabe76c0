use vstd::prelude::*;

use crate::architecture::{is_binary, render, stack_effect, Backend, Label, Op};
use crate::tree::{model, models, lemma_models, Ast, NodeKind, Tree};

verus! {

pub type GenerateError = String;

/// The number of control-flow sites (`if`, `if`-`else`, `while`, `for`) in a tree;
/// each takes one label number.
pub open spec fn flows(t: Ast) -> nat
    decreases t,
{
    match t {
        Ast::Return(e) => flows(*e),
        Ast::If(c, s) => flows(*c) + flows(*s) + 1,
        Ast::IfElse(c, s, e) => flows(*c) + flows(*s) + flows(*e) + 1,
        Ast::While(c, s) => flows(*c) + flows(*s) + 1,
        Ast::For(i, c, l, s) => flows(*i) + flows(*c) + flows(*l) + flows(*s) + 1,
        Ast::Block(v) => flows_seq(v),
        Ast::Node(_, l, r) => flows(*l) + flows(*r),
        _ => 0,
    }
}

pub open spec fn flows_seq(s: Seq<Ast>) -> nat
    decreases s,
{
    if s.len() == 0 {
        0
    } else {
        flows_seq(s.drop_last()) + flows(s.last())
    }
}

/// Every assignment in the tree assigns to a variable.
pub open spec fn lvalues_ok(t: Ast) -> bool
    decreases t,
{
    match t {
        Ast::Return(e) => lvalues_ok(*e),
        Ast::If(c, s) => lvalues_ok(*c) && lvalues_ok(*s),
        Ast::IfElse(c, s, e) => lvalues_ok(*c) && lvalues_ok(*s) && lvalues_ok(*e),
        Ast::While(c, s) => lvalues_ok(*c) && lvalues_ok(*s),
        Ast::For(i, c, l, s) => lvalues_ok(*i) && lvalues_ok(*c) && lvalues_ok(*l) && lvalues_ok(
            *s,
        ),
        Ast::Block(v) => lvalues_ok_seq(v),
        Ast::Node(k, l, r) => (k == NodeKind::Assign ==> (*l is Val)) && lvalues_ok(*l)
            && lvalues_ok(*r),
        _ => true,
    }
}

pub open spec fn lvalues_ok_seq(s: Seq<Ast>) -> bool
    decreases s,
{
    if s.len() == 0 {
        true
    } else {
        lvalues_ok_seq(s.drop_last()) && lvalues_ok(s.last())
    }
}

/// The label number of a control-flow site whose first label is `n` and whose children
/// hold `inner` sites: the children are numbered first.
pub open spec fn site(n: nat, inner: nat) -> usize {
    (n + inner + 1) as usize
}

/// The stack-machine code of a tree whose control-flow sites are numbered from `n + 1`.
pub open spec fn code(t: Ast, n: nat) -> Seq<Op>
    decreases t,
{
    match t {
        Ast::Empty => Seq::empty(),
        Ast::Int(k) => seq![Op::PushNum(k as usize)],
        Ast::Val { offset } => seq![Op::Address(offset as usize), Op::Load],
        Ast::Return(e) => code(*e, n).push(Op::Return),
        Ast::If(c, s) => {
            let m = site(n, flows(*c) + flows(*s));
            code(*c, n) + seq![Op::TestZero, Op::BranchIfZero(Label::End(m))] + code(
                *s,
                n + flows(*c),
            ) + seq![Op::Place(Label::End(m))]
        },
        Ast::IfElse(c, s, e) => {
            let m = site(n, flows(*c) + flows(*s) + flows(*e));
            code(*c, n) + seq![Op::TestZero, Op::BranchIfZero(Label::Else(m))] + code(
                *s,
                n + flows(*c),
            ) + seq![Op::Jump(Label::End(m)), Op::Place(Label::Else(m))] + code(
                *e,
                n + flows(*c) + flows(*s),
            ) + seq![Op::Place(Label::End(m))]
        },
        Ast::While(c, s) => {
            let m = site(n, flows(*c) + flows(*s));
            seq![Op::Place(Label::Begin(m))] + code(*c, n) + seq![
                Op::TestZero,
                Op::BranchIfZero(Label::End(m)),
            ] + code(*s, n + flows(*c)) + seq![
                Op::Jump(Label::Begin(m)),
                Op::Place(Label::End(m)),
            ]
        },
        Ast::For(i, c, l, s) => {
            let m = site(n, flows(*i) + flows(*c) + flows(*l) + flows(*s));
            let cond = code(*c, n + flows(*i));
            code(*i, n) + seq![Op::Place(Label::Begin(m))] + (if cond.len() == 0 {
                Seq::empty()
            } else {
                cond + seq![Op::TestZero, Op::BranchIfZero(Label::End(m))]
            }) + code(*s, n + flows(*i) + flows(*c) + flows(*l)) + code(
                *l,
                n + flows(*i) + flows(*c),
            ) + seq![Op::Jump(Label::Begin(m)), Op::Place(Label::End(m))]
        },
        Ast::Block(v) => code_seq(v, n),
        Ast::Node(k, l, r) => if k == NodeKind::Assign {
            match *l {
                Ast::Val { offset } => seq![Op::Address(offset as usize)] + code(*r, n).push(Op::Store),
                _ => Seq::empty(),
            }
        } else {
            code(*l, n) + code(*r, n + flows(*l)) + seq![Op::PopArgs, Op::Binary(k), Op::PushResult]
        },
    }
}

/// The code of statements one after the other, with no epilogue between them.
pub open spec fn code_seq(s: Seq<Ast>, n: nat) -> Seq<Op>
    decreases s,
{
    if s.len() == 0 {
        Seq::empty()
    } else {
        code_seq(s.drop_last(), n) + code(s.last(), n + flows_seq(s.drop_last()))
    }
}

/// The code of a program: each statement followed by the statement epilogue.
pub open spec fn program_code(s: Seq<Ast>) -> Seq<Op>
    decreases s.len(),
{
    if s.len() == 0 {
        Seq::empty()
    } else {
        program_code(s.drop_last()) + code(s.last(), flows_seq(s.drop_last())).push(Op::Discard)
    }
}

/// The assembly text of a program with `ident_count` variables.
pub open spec fn program_text<B: Backend>(trees: Seq<Ast>, ident_count: usize) -> Seq<char> {
    B::header_text((ident_count * 8) as usize) + render::<B>(program_code(trees)) + B::footer_text()
}

pub open spec fn assign_error() -> Seq<char> {
    "The left-hand side value of the assignment is not a variable"@
}

pub open spec fn label_overflow_error() -> Seq<char> {
    "too many control-flow sites"@
}

/// What emitting `t` with its sites numbered from `n + 1` gives: its code, and the next
/// free number; or the reason it cannot be emitted.
pub open spec fn emitted<B: Backend>(
    t: Tree,
    n: usize,
    r: Result<(String, usize), GenerateError>,
) -> bool {
    match r {
        Ok((s, m)) => lvalues_ok(model(t)) && n + flows(model(t)) <= usize::MAX && s@ == render::<B>(
            code(model(t), n as nat),
        ) && m == n + flows(model(t)),
        Err(e) => (!lvalues_ok(model(t)) && e@ == assign_error()) || (n + flows(model(t))
            > usize::MAX && e@ == label_overflow_error()),
    }
}

pub proof fn lemma_render_concat<B: Backend>(a: Seq<Op>, b: Seq<Op>)
    ensures
        render::<B>(a + b) == render::<B>(a) + render::<B>(b),
    decreases b.len(),
{
    if b.len() == 0 {
        assert(a + b =~= a);
        assert(render::<B>(b) =~= Seq::empty());
        assert(render::<B>(a) + render::<B>(b) =~= render::<B>(a));
    } else {
        lemma_render_concat::<B>(a, b.drop_last());
        assert((a + b).drop_last() =~= a + b.drop_last());
        assert((a + b).last() == b.last());
        assert(render::<B>(a + b) =~= render::<B>(a) + render::<B>(b));
    }
}

pub proof fn lemma_render_empty<B: Backend>(ops: Seq<Op>)
    ensures
        (render::<B>(ops).len() == 0) == (ops.len() == 0),
    decreases ops.len(),
{
    if ops.len() > 0 {
        B::lemma_op_text_nonempty(ops.last());
        lemma_render_empty::<B>(ops.drop_last());
    }
}

pub proof fn lemma_render_push<B: Backend>(a: Seq<Op>, op: Op)
    ensures
        render::<B>(a.push(op)) == render::<B>(a) + B::op_text(op),
{
    assert(a.push(op).drop_last() =~= a);
}

pub proof fn lemma_render_one<B: Backend>(op: Op)
    ensures
        render::<B>(seq![op]) == B::op_text(op),
{
    lemma_render_push::<B>(Seq::empty(), op);
    assert(Seq::<Op>::empty().push(op) =~= seq![op]);
    assert(render::<B>(Seq::<Op>::empty()) =~= Seq::empty());
    assert(Seq::<char>::empty() + B::op_text(op) =~= B::op_text(op));
}

pub proof fn lemma_render_two<B: Backend>(a: Op, b: Op)
    ensures
        render::<B>(seq![a, b]) == B::op_text(a) + B::op_text(b),
{
    lemma_render_one::<B>(a);
    lemma_render_push::<B>(seq![a], b);
    assert(seq![a].push(b) =~= seq![a, b]);
}

proof fn lemma_prefix_step<A>(s: Seq<A>, i: int)
    requires
        0 <= i < s.len(),
    ensures
        s.subrange(0, i + 1).drop_last() == s.subrange(0, i),
        s.subrange(0, i + 1).last() == s[i],
{
    assert(s.subrange(0, i + 1).drop_last() =~= s.subrange(0, i));
}

proof fn lemma_flows_prefix(s: Seq<Ast>, i: int)
    requires
        0 <= i <= s.len(),
    ensures
        flows_seq(s.subrange(0, i)) <= flows_seq(s),
    decreases s.len() - i,
{
    if i < s.len() {
        lemma_flows_prefix(s, i + 1);
        lemma_prefix_step(s, i);
    } else {
        assert(s.subrange(0, i) =~= s);
    }
}

proof fn lemma_lvalues_ok_seq(s: Seq<Ast>)
    ensures
        lvalues_ok_seq(s) == (forall|i: int| 0 <= i < s.len() ==> lvalues_ok(#[trigger] s[i])),
    decreases s.len(),
{
    if s.len() > 0 {
        lemma_lvalues_ok_seq(s.drop_last());
        if lvalues_ok_seq(s) {
            assert forall|i: int| 0 <= i < s.len() implies lvalues_ok(#[trigger] s[i]) by {
                if i < s.len() - 1 {
                    assert(s.drop_last()[i] == s[i]);
                }
            }
        }
        if forall|i: int| 0 <= i < s.len() ==> lvalues_ok(#[trigger] s[i]) {
            assert forall|i: int| 0 <= i < s.drop_last().len() implies lvalues_ok(
                #[trigger] s.drop_last()[i],
            ) by {
                assert(s.drop_last()[i] == s[i]);
            }
        }
    }
}

/// The models of the first `i + 1` trees: those of the first `i`, then that of tree `i`.
proof fn lemma_models_step(v: Seq<Tree>, i: int)
    requires
        0 <= i < v.len(),
    ensures
        models(v.subrange(0, i + 1)).drop_last() == models(v.subrange(0, i)),
        models(v.subrange(0, i + 1)).last() == model(v[i]),
        models(v.subrange(0, i + 1)) == models(v).subrange(0, i + 1),
        models(v)[i] == model(v[i]),
        models(v).len() == v.len(),
{
    lemma_prefix_step(v, i);
    lemma_models(v);
    lemma_models(v.subrange(0, i + 1));
    assert(models(v.subrange(0, i + 1)) =~= models(v).subrange(0, i + 1));
    assert(models(v.subrange(0, i + 1)).drop_last() =~= models(v.subrange(0, i)));
}

fn emit_block<B: Backend>(v: &Vec<Tree>, n: usize) -> (r: Result<(String, usize), GenerateError>)
    ensures
        match r {
            Ok((s, m)) => lvalues_ok_seq(models(v@)) && n + flows_seq(models(v@)) <= usize::MAX
                && s@ == render::<B>(code_seq(models(v@), n as nat)) && m == n + flows_seq(
                models(v@),
            ),
            Err(e) => (!lvalues_ok_seq(models(v@)) && e@ == assign_error()) || (n + flows_seq(
                models(v@),
            ) > usize::MAX && e@ == label_overflow_error()),
        },
    decreases v@, 0nat,
{
    let mut out = String::new();
    let mut m: usize = n;
    let mut i: usize = 0;
    proof {
        assert(v@.subrange(0, 0) =~= Seq::<Tree>::empty());
        assert(models(v@.subrange(0, 0)) =~= Seq::<Ast>::empty());
    }
    while i < v.len()
        invariant
            0 <= i <= v.len(),
            m == n + flows_seq(models(v@.subrange(0, i as int))),
            out@ == render::<B>(code_seq(models(v@.subrange(0, i as int)), n as nat)),
            lvalues_ok_seq(models(v@.subrange(0, i as int))),
        decreases v.len() - i,
    {
        proof {
            lemma_models_step(v@, i as int);
            lemma_flows_prefix(models(v@), i as int + 1);
        }
        match emit::<B>(&v[i], m) {
            Ok((t, m2)) => {
                proof {
                    lemma_render_concat::<B>(
                        code_seq(models(v@.subrange(0, i as int)), n as nat),
                        code(model(v@[i as int]), m as nat),
                    );
                }
                out.append(&t);
                m = m2;
                i = i + 1;
            },
            Err(e) => {
                proof {
                    lemma_lvalues_ok_seq(models(v@));
                    if n + flows_seq(models(v@)) <= usize::MAX {
                        assert(!lvalues_ok(model(v@[i as int])));
                    }
                }
                return Err(e);
            },
        }
    }
    proof {
        assert(v@.subrange(0, i as int) =~= v@);
    }
    Ok((out, m))
}

fn emit<B: Backend>(tree: &Tree, n: usize) -> (r: Result<(String, usize), GenerateError>)
    ensures
        emitted::<B>(*tree, n, r),
    decreases *tree, 1nat,
{
    match tree {
        Tree::Empty => Ok((String::new(), n)),
        Tree::Int(k) => {
            proof {
                lemma_render_one::<B>(Op::PushNum(*k));
            }
            Ok((B::push_num(*k), n))
        },
        Tree::Val { offset } => {
            let mut s = B::address(*offset);
            s.append(&B::load());
            proof {
                lemma_render_two::<B>(Op::Address(*offset), Op::Load);
            }
            Ok((s, n))
        },
        Tree::Return(e) => match emit::<B>(e, n) {
            Ok((mut s, m)) => {
                s.append(&B::ret());
                proof {
                    lemma_render_push::<B>(code(model(**e), n as nat), Op::Return);
                }
                Ok((s, m))
            },
            Err(err) => Err(err),
        },
        Tree::If(..) => emit_if::<B>(tree, n),
        Tree::IfElse(..) => emit_if_else::<B>(tree, n),
        Tree::While(..) => emit_while::<B>(tree, n),
        Tree::For(..) => emit_for::<B>(tree, n),
        Tree::Block(v) => emit_block::<B>(v, n),
        Tree::Node(..) => emit_node::<B>(tree, n),
    }
}

fn emit_if<B: Backend>(tree: &Tree, n: usize) -> (r: Result<(String, usize), GenerateError>)
    requires
        *tree is If,
    ensures
        emitted::<B>(*tree, n, r),
    decreases *tree, 0nat,
{
    match tree {
        Tree::If(c, body) => {
            let (cs, m1) = match emit::<B>(c, n) {
                Ok(x) => x,
                Err(err) => return Err(err),
            };
            let (bs, m2) = match emit::<B>(body, m1) {
                Ok(x) => x,
                Err(err) => return Err(err),
            };
            let k = match m2.checked_add(1) {
                Some(k) => k,
                None => return Err(String::from_str("too many control-flow sites")),
            };
            let s = B::gen_if(&cs, &bs, k);
            proof {
                let a = code(model(**c), n as nat);
                let b = seq![Op::TestZero, Op::BranchIfZero(Label::End(k))];
                let d = code(model(**body), m1 as nat);
                let e = seq![Op::Place(Label::End(k))];
                lemma_render_concat::<B>(a, b);
                lemma_render_concat::<B>(a + b, d);
                lemma_render_concat::<B>(a + b + d, e);
                lemma_render_two::<B>(Op::TestZero, Op::BranchIfZero(Label::End(k)));
                lemma_render_one::<B>(Op::Place(Label::End(k)));
                assert(s@ =~= render::<B>(code(model(*tree), n as nat)));
            }
            Ok((s, k))
        },
        _ => Err(String::new()),
    }
}

fn emit_if_else<B: Backend>(tree: &Tree, n: usize) -> (r: Result<(String, usize), GenerateError>)
    requires
        *tree is IfElse,
    ensures
        emitted::<B>(*tree, n, r),
    decreases *tree, 0nat,
{
    match tree {
        Tree::IfElse(c, body, other) => {
            let (cs, m1) = match emit::<B>(c, n) {
                Ok(x) => x,
                Err(err) => return Err(err),
            };
            let (bs, m2) = match emit::<B>(body, m1) {
                Ok(x) => x,
                Err(err) => return Err(err),
            };
            let (os, m3) = match emit::<B>(other, m2) {
                Ok(x) => x,
                Err(err) => return Err(err),
            };
            let k = match m3.checked_add(1) {
                Some(k) => k,
                None => return Err(String::from_str("too many control-flow sites")),
            };
            let s = B::gen_if_else(&cs, &bs, &os, k);
            proof {
                let a = code(model(**c), n as nat);
                let b = seq![Op::TestZero, Op::BranchIfZero(Label::Else(k))];
                let d = code(model(**body), m1 as nat);
                let e = seq![Op::Jump(Label::End(k)), Op::Place(Label::Else(k))];
                let f = code(model(**other), m2 as nat);
                let g = seq![Op::Place(Label::End(k))];
                lemma_render_concat::<B>(a, b);
                lemma_render_concat::<B>(a + b, d);
                lemma_render_concat::<B>(a + b + d, e);
                lemma_render_concat::<B>(a + b + d + e, f);
                lemma_render_concat::<B>(a + b + d + e + f, g);
                lemma_render_two::<B>(Op::TestZero, Op::BranchIfZero(Label::Else(k)));
                lemma_render_two::<B>(Op::Jump(Label::End(k)), Op::Place(Label::Else(k)));
                lemma_render_one::<B>(Op::Place(Label::End(k)));
                assert(s@ =~= render::<B>(code(model(*tree), n as nat)));
            }
            Ok((s, k))
        },
        _ => Err(String::new()),
    }
}

fn emit_while<B: Backend>(tree: &Tree, n: usize) -> (r: Result<(String, usize), GenerateError>)
    requires
        *tree is While,
    ensures
        emitted::<B>(*tree, n, r),
    decreases *tree, 0nat,
{
    match tree {
        Tree::While(c, body) => {
            let (cs, m1) = match emit::<B>(c, n) {
                Ok(x) => x,
                Err(err) => return Err(err),
            };
            let (bs, m2) = match emit::<B>(body, m1) {
                Ok(x) => x,
                Err(err) => return Err(err),
            };
            let k = match m2.checked_add(1) {
                Some(k) => k,
                None => return Err(String::from_str("too many control-flow sites")),
            };
            let s = B::gen_while(&cs, &bs, k);
            proof {
                let a = seq![Op::Place(Label::Begin(k))];
                let b = code(model(**c), n as nat);
                let d = seq![Op::TestZero, Op::BranchIfZero(Label::End(k))];
                let e = code(model(**body), m1 as nat);
                let f = seq![Op::Jump(Label::Begin(k)), Op::Place(Label::End(k))];
                lemma_render_concat::<B>(a, b);
                lemma_render_concat::<B>(a + b, d);
                lemma_render_concat::<B>(a + b + d, e);
                lemma_render_concat::<B>(a + b + d + e, f);
                lemma_render_one::<B>(Op::Place(Label::Begin(k)));
                lemma_render_two::<B>(Op::TestZero, Op::BranchIfZero(Label::End(k)));
                lemma_render_two::<B>(Op::Jump(Label::Begin(k)), Op::Place(Label::End(k)));
                assert(s@ =~= render::<B>(code(model(*tree), n as nat)));
            }
            Ok((s, k))
        },
        _ => Err(String::new()),
    }
}

#[verifier::rlimit(50)]
fn emit_for<B: Backend>(tree: &Tree, n: usize) -> (r: Result<(String, usize), GenerateError>)
    requires
        *tree is For,
    ensures
        emitted::<B>(*tree, n, r),
    decreases *tree, 0nat,
{
    match tree {
        Tree::For(init, c, step, body) => {
            let (is, m1) = match emit::<B>(init, n) {
                Ok(x) => x,
                Err(err) => return Err(err),
            };
            let (cs, m2) = match emit::<B>(c, m1) {
                Ok(x) => x,
                Err(err) => return Err(err),
            };
            let (ls, m3) = match emit::<B>(step, m2) {
                Ok(x) => x,
                Err(err) => return Err(err),
            };
            let (bs, m4) = match emit::<B>(body, m3) {
                Ok(x) => x,
                Err(err) => return Err(err),
            };
            let k = match m4.checked_add(1) {
                Some(k) => k,
                None => return Err(String::from_str("too many control-flow sites")),
            };
            let s = B::gen_for(&is, &cs, &ls, &bs, k);
            proof {
                let a = code(model(**init), n as nat);
                let p = seq![Op::Place(Label::Begin(k))];
                let cond = code(model(**c), m1 as nat);
                let t = seq![Op::TestZero, Op::BranchIfZero(Label::End(k))];
                let b = code(model(**body), m3 as nat);
                let l = code(model(**step), m2 as nat);
                let z = seq![Op::Jump(Label::Begin(k)), Op::Place(Label::End(k))];
                lemma_render_empty::<B>(cond);
                lemma_render_concat::<B>(cond, t);
                lemma_render_two::<B>(Op::TestZero, Op::BranchIfZero(Label::End(k)));
                let mid: Seq<Op> = if cond.len() == 0 {
                    Seq::empty()
                } else {
                    cond + t
                };
                assert(render::<B>(Seq::<Op>::empty()) =~= Seq::<char>::empty());
                lemma_render_concat::<B>(a, p);
                lemma_render_concat::<B>(a + p, mid);
                lemma_render_concat::<B>(a + p + mid, b);
                lemma_render_concat::<B>(a + p + mid + b, l);
                lemma_render_concat::<B>(a + p + mid + b + l, z);
                lemma_render_one::<B>(Op::Place(Label::Begin(k)));
                lemma_render_two::<B>(Op::Jump(Label::Begin(k)), Op::Place(Label::End(k)));
                assert(s@ =~= render::<B>(code(model(*tree), n as nat)));
            }
            Ok((s, k))
        },
        _ => Err(String::new()),
    }
}

fn emit_node<B: Backend>(tree: &Tree, n: usize) -> (r: Result<(String, usize), GenerateError>)
    requires
        *tree is Node,
    ensures
        emitted::<B>(*tree, n, r),
    decreases *tree, 0nat,
{
    match tree {
        Tree::Node(kind, lhs, rhs) => {
            if let NodeKind::Assign = kind {
                let offset = match &**lhs {
                    Tree::Val { offset } => *offset,
                    _ => {
                        return Err(
                            String::from_str(
                                "The left-hand side value of the assignment is not a variable",
                            ),
                        );
                    },
                };
                let mut s = B::address(offset);
                let (rs, m) = match emit::<B>(rhs, n) {
                    Ok(x) => x,
                    Err(err) => return Err(err),
                };
                s.append(&rs);
                s.append(&B::store());
                proof {
                    lemma_render_one::<B>(Op::Address(offset));
                    lemma_render_push::<B>(code(model(**rhs), n as nat), Op::Store);
                    lemma_render_concat::<B>(
                        seq![Op::Address(offset)],
                        code(model(**rhs), n as nat).push(Op::Store),
                    );
                    assert(model(**lhs) == Ast::Val { offset: offset as nat });
                    assert(flows(model(**lhs)) == 0);
                    assert(lvalues_ok(model(**lhs)));
                    assert(lvalues_ok(model(*tree)));
                    assert(code(model(*tree), n as nat) == seq![Op::Address(offset)] + code(
                        model(**rhs),
                        n as nat,
                    ).push(Op::Store));
                    assert(s@ =~= render::<B>(code(model(*tree), n as nat)));
                }
                return Ok((s, m));
            }
            let (mut s, m1) = match emit::<B>(lhs, n) {
                Ok(x) => x,
                Err(err) => return Err(err),
            };
            let (rs, m2) = match emit::<B>(rhs, m1) {
                Ok(x) => x,
                Err(err) => return Err(err),
            };
            s.append(&rs);
            s.append(&B::pop_args());
            s.append(&B::binary(*kind));
            s.append(&B::push_result());
            proof {
                let a = code(model(**lhs), n as nat);
                let b = code(model(**rhs), m1 as nat);
                let tail = seq![Op::PopArgs, Op::Binary(*kind), Op::PushResult];
                lemma_render_concat::<B>(a, b);
                lemma_render_concat::<B>(a + b, tail);
                lemma_render_two::<B>(Op::PopArgs, Op::Binary(*kind));
                lemma_render_push::<B>(seq![Op::PopArgs, Op::Binary(*kind)], Op::PushResult);
                assert(seq![Op::PopArgs, Op::Binary(*kind)].push(Op::PushResult) =~= tail);
                assert(s@ =~= render::<B>(code(model(*tree), n as nat)));
            }
            Ok((s, m2))
        },
        _ => Err(String::new()),
    }
}

pub open spec fn frame_overflow_error() -> Seq<char> {
    "too many variables"@
}

/// The assembly of one tree whose control-flow sites are numbered from `flow_count + 1`,
/// with the next free number.
pub fn generate_assembly<B: Backend>(tree: Tree, flow_count: usize) -> (r: Result<
    (String, usize),
    GenerateError,
>)
    ensures
        emitted::<B>(tree, flow_count, r),
{
    emit::<B>(&tree, flow_count)
}

/// The whole program: header and frame of `ident_count` slots, each statement followed
/// by the statement epilogue, and the footer.
pub fn generator<B: Backend>(trees: Vec<Tree>, ident_count: usize) -> (r: Result<
    String,
    GenerateError,
>)
    ensures
        generated::<B>(models(trees@), ident_count, r),
{
    let bytes = match ident_count.checked_mul(8) {
        Some(b) => b,
        None => return Err(String::from_str("too many variables")),
    };
    let mut out = B::header(bytes);
    let ghost head = out@;
    let mut flow_count: usize = 0;
    let mut i: usize = 0;
    proof {
        assert(trees@.subrange(0, 0) =~= Seq::<Tree>::empty());
        assert(models(trees@.subrange(0, 0)) =~= Seq::<Ast>::empty());
        assert(render::<B>(Seq::<Op>::empty()) =~= Seq::<char>::empty());
        assert(out@ =~= head + render::<B>(program_code(models(trees@.subrange(0, 0)))));
    }
    while i < trees.len()
        invariant
            0 <= i <= trees.len(),
            head == B::header_text(bytes),
            bytes == ident_count * 8,
            flow_count == flows_seq(models(trees@.subrange(0, i as int))),
            out@ == head + render::<B>(program_code(models(trees@.subrange(0, i as int)))),
            lvalues_ok_seq(models(trees@.subrange(0, i as int))),
        decreases trees.len() - i,
    {
        proof {
            lemma_models_step(trees@, i as int);
            lemma_flows_prefix(models(trees@), i as int + 1);
        }
        match emit::<B>(&trees[i], flow_count) {
            Ok((t, m)) => {
                proof {
                    let prefix = models(trees@.subrange(0, i as int));
                    let c = code(model(trees@[i as int]), flow_count as nat);
                    lemma_render_push::<B>(c, Op::Discard);
                    lemma_render_concat::<B>(program_code(prefix), c.push(Op::Discard));
                }
                out.append(&t);
                out.append(&B::discard());
                flow_count = m;
                i = i + 1;
            },
            Err(e) => {
                proof {
                    lemma_lvalues_ok_seq(models(trees@));
                    if flows_seq(models(trees@)) <= usize::MAX {
                        assert(!lvalues_ok(model(trees@[i as int])));
                    }
                }
                return Err(e);
            },
        }
    }
    proof {
        assert(trees@.subrange(0, i as int) =~= trees@);
    }
    out.append(&B::footer());
    Ok(out)
}

/// What generating a program of statements `asts` with `ident_count` variables gives:
/// its text, or the reason it cannot be generated.
pub open spec fn generated<B: Backend>(
    asts: Seq<Ast>,
    ident_count: usize,
    r: Result<String, GenerateError>,
) -> bool {
    match r {
        Ok(s) => ident_count * 8 <= usize::MAX && lvalues_ok_seq(asts) && flows_seq(asts)
            <= usize::MAX && s@ == program_text::<B>(asts, ident_count),
        Err(e) => (ident_count * 8 > usize::MAX && e@ == frame_overflow_error()) || (
        !lvalues_ok_seq(asts) && e@ == assign_error()) || (flows_seq(asts) > usize::MAX && e@
            == label_overflow_error()),
    }
}

/// How much a sequence of ops changes the depth of the working stack.
pub open spec fn net_effect(ops: Seq<Op>) -> int
    decreases ops.len(),
{
    if ops.len() == 0 {
        0
    } else {
        net_effect(ops.drop_last()) + stack_effect(ops.last())
    }
}

/// Running the ops in order, the depth never falls more than `floor` below where it began.
pub open spec fn stays_above(ops: Seq<Op>, floor: int) -> bool {
    forall|i: int| 0 <= i <= ops.len() ==> net_effect(#[trigger] ops.take(i)) >= floor
}

/// An expression: a literal, a variable, an operator on expressions, or an assignment of an
/// expression to a variable.
pub open spec fn is_expression(t: Ast) -> bool
    decreases t,
{
    match t {
        Ast::Int(_) => true,
        Ast::Val { .. } => true,
        Ast::Node(k, l, r) => if k == NodeKind::Assign {
            *l is Val && is_expression(*r)
        } else {
            is_expression(*l) && is_expression(*r)
        },
        _ => false,
    }
}

pub proof fn lemma_net_effect_concat(a: Seq<Op>, b: Seq<Op>)
    ensures
        net_effect(a + b) == net_effect(a) + net_effect(b),
    decreases b.len(),
{
    if b.len() == 0 {
        assert(a + b =~= a);
    } else {
        lemma_net_effect_concat(a, b.drop_last());
        assert((a + b).drop_last() =~= a + b.drop_last());
    }
}

pub proof fn lemma_stays_above_concat(a: Seq<Op>, b: Seq<Op>, floor: int)
    requires
        stays_above(a, floor),
        stays_above(b, floor - net_effect(a)),
    ensures
        stays_above(a + b, floor),
{
    assert forall|i: int| 0 <= i <= (a + b).len() implies net_effect(#[trigger] (a + b).take(i))
        >= floor by {
        if i <= a.len() {
            assert((a + b).take(i) =~= a.take(i));
        } else {
            assert((a + b).take(i) =~= a + b.take(i - a.len()));
            lemma_net_effect_concat(a, b.take(i - a.len()));
            assert(net_effect(b.take(i - a.len())) >= floor - net_effect(a));
        }
    }
}

proof fn lemma_one_op(op: Op)
    ensures
        net_effect(seq![op]) == stack_effect(op),
        stays_above(seq![op], if stack_effect(op) < 0 { stack_effect(op) } else { 0 }),
{
    assert(seq![op].drop_last() =~= Seq::<Op>::empty());
    assert(net_effect(Seq::<Op>::empty()) == 0);
    assert(net_effect(seq![op]) == stack_effect(op));
    assert forall|i: int| 0 <= i <= 1 implies net_effect(#[trigger] seq![op].take(i)) >= (if stack_effect(op) < 0 {
        stack_effect(op)
    } else {
        0
    }) by {
        if i == 0 {
            assert(seq![op].take(0) =~= Seq::<Op>::empty());
        } else {
            assert(seq![op].take(1) =~= seq![op]);
        }
    }
}

/// Each expression pushes exactly one word, and its code never takes from the stack
/// below the depth at which it began.
pub proof fn lemma_expression_balance(t: Ast, n: nat)
    requires
        is_expression(t),
    ensures
        net_effect(code(t, n)) == 1,
        stays_above(code(t, n), 0),
    decreases t,
{
    match t {
        Ast::Int(k) => {
            lemma_one_op(Op::PushNum(k as usize));
        },
        Ast::Val { offset } => {
            let a = seq![Op::Address(offset as usize)];
            let b = seq![Op::Load];
            lemma_one_op(Op::Address(offset as usize));
            lemma_one_op(Op::Load);
            lemma_net_effect_concat(a, b);
            lemma_stays_above_concat(a, b, 0);
            assert(a + b =~= code(t, n));
        },
        Ast::Node(k, l, r) => {
            if k == NodeKind::Assign {
                let offset = l->offset;
                let a = seq![Op::Address(offset as usize)];
                let c = code(*r, n);
                let d = seq![Op::Store];
                lemma_expression_balance(*r, n);
                lemma_one_op(Op::Address(offset as usize));
                lemma_one_op(Op::Store);
                lemma_net_effect_concat(a, c);
                lemma_stays_above_concat(a, c, 0);
                lemma_net_effect_concat(a + c, d);
                lemma_stays_above_concat(a + c, d, 0);
                assert(c.push(Op::Store) =~= c + d);
                assert(a + (c + d) =~= a + c + d);
            } else {
                let a = code(*l, n);
                let b = code(*r, n + flows(*l));
                let p = seq![Op::PopArgs];
                let q = seq![Op::Binary(k)];
                let u = seq![Op::PushResult];
                lemma_expression_balance(*l, n);
                lemma_expression_balance(*r, n + flows(*l));
                lemma_one_op(Op::PopArgs);
                lemma_one_op(Op::Binary(k));
                lemma_one_op(Op::PushResult);
                lemma_net_effect_concat(a, b);
                lemma_stays_above_concat(a, b, 0);
                lemma_net_effect_concat(a + b, p);
                lemma_stays_above_concat(a + b, p, 0);
                lemma_net_effect_concat(a + b + p, q);
                lemma_stays_above_concat(a + b + p, q, 0);
                lemma_net_effect_concat(a + b + p + q, u);
                lemma_stays_above_concat(a + b + p + q, u, 0);
                assert(seq![Op::PopArgs, Op::Binary(k), Op::PushResult] =~= p + q + u);
                assert(a + b + (p + q + u) =~= a + b + p + q + u);
            }
        },
        _ => {},
    }
}

/// An expression statement, followed by the statement epilogue, leaves the stack as deep
/// as it found it, and never takes from below that depth.
pub proof fn lemma_statement_balance(t: Ast, n: nat)
    requires
        is_expression(t),
    ensures
        net_effect(code(t, n).push(Op::Discard)) == 0,
        stays_above(code(t, n).push(Op::Discard), 0),
{
    lemma_expression_balance(t, n);
    lemma_one_op(Op::Discard);
    lemma_net_effect_concat(code(t, n), seq![Op::Discard]);
    lemma_stays_above_concat(code(t, n), seq![Op::Discard], 0);
    assert(code(t, n).push(Op::Discard) =~= code(t, n) + seq![Op::Discard]);
}

/// A `return` of an expression pops exactly the word its expression pushed.
pub proof fn lemma_return_balance(e: Ast, n: nat)
    requires
        is_expression(e),
    ensures
        net_effect(code(Ast::Return(Box::new(e)), n)) == 0,
        stays_above(code(Ast::Return(Box::new(e)), n), 0),
{
    lemma_expression_balance(e, n);
    lemma_one_op(Op::Return);
    lemma_net_effect_concat(code(e, n), seq![Op::Return]);
    lemma_stays_above_concat(code(e, n), seq![Op::Return], 0);
    assert(code(e, n).push(Op::Return) =~= code(e, n) + seq![Op::Return]);
}

/// The condition of an `if`, `if`-`else` or `while` is popped before the branch: the
/// code up to the branch leaves the stack as deep as it found it.
pub proof fn lemma_condition_balance(c: Ast, n: nat)
    requires
        is_expression(c),
    ensures
        net_effect(code(c, n).push(Op::TestZero)) == 0,
        stays_above(code(c, n).push(Op::TestZero), 0),
{
    lemma_expression_balance(c, n);
    lemma_one_op(Op::TestZero);
    lemma_net_effect_concat(code(c, n), seq![Op::TestZero]);
    lemma_stays_above_concat(code(c, n), seq![Op::TestZero], 0);
    assert(code(c, n).push(Op::TestZero) =~= code(c, n) + seq![Op::TestZero]);
}

} // verus!
