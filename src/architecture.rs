use vstd::prelude::*;

use crate::tree::NodeKind;

pub mod aarch64;
pub mod x86_64;

verus! {

/// A label of a control-flow site, by its number.
pub enum Label {
    Begin(usize),
    Else(usize),
    End(usize),
}

/// An abstract step of the stack machine; a backend writes each as assembly text.
pub enum Op {
    /// Push a literal.
    PushNum(usize),
    /// Push the address `frame_base - offset`.
    Address(usize),
    /// Replace the address on top of the stack by the value stored there.
    Load,
    /// Pop a value and an address, store the value there, push the value.
    Store,
    /// Pop the right operand, then the left one, into the operand registers.
    PopArgs,
    /// Combine the operand registers into the result register.
    Binary(NodeKind),
    /// Push the result register.
    PushResult,
    /// Pop the result register, leave the frame and return.
    Return,
    /// Pop and drop the value of a finished statement.
    Discard,
    /// Pop a condition and compare it with zero.
    TestZero,
    /// Jump to the label when the last comparison found zero.
    BranchIfZero(Label),
    /// Jump to the label.
    Jump(Label),
    /// Place the label here.
    Place(Label),
}

/// How many words an op leaves on the working stack, less what it takes.
pub open spec fn stack_effect(op: Op) -> int {
    match op {
        Op::PushNum(_) => 1,
        Op::Address(_) => 1,
        Op::Load => 0,
        Op::Store => -1,
        Op::PopArgs => -2,
        Op::Binary(_) => 0,
        Op::PushResult => 1,
        Op::Return => -1,
        Op::Discard => -1,
        Op::TestZero => -1,
        Op::BranchIfZero(_) => 0,
        Op::Jump(_) => 0,
        Op::Place(_) => 0,
    }
}

/// The operators that combine two values; assignment is not one of them.
pub open spec fn is_binary(k: NodeKind) -> bool {
    k != NodeKind::Assign
}

/// A target architecture: the assembly text of each step of the stack machine.
pub trait Backend {
    spec fn op_text(op: Op) -> Seq<char>;

    /// Directives, the entry label and the frame of `frame_bytes` bytes.
    spec fn header_text(frame_bytes: usize) -> Seq<char>;

    /// Leaves the frame and returns at the end of the program.
    spec fn footer_text() -> Seq<char>;

    /// Every op is written as at least one character.
    proof fn lemma_op_text_nonempty(op: Op)
        ensures
            Self::op_text(op).len() > 0,
    ;

    fn header(frame_bytes: usize) -> (r: String)
        ensures
            r@ == Self::header_text(frame_bytes),
    ;

    fn footer() -> (r: String)
        ensures
            r@ == Self::footer_text(),
    ;

    fn push_num(n: usize) -> (r: String)
        ensures
            r@ == Self::op_text(Op::PushNum(n)),
    ;

    fn address(offset: usize) -> (r: String)
        ensures
            r@ == Self::op_text(Op::Address(offset)),
    ;

    fn load() -> (r: String)
        ensures
            r@ == Self::op_text(Op::Load),
    ;

    fn store() -> (r: String)
        ensures
            r@ == Self::op_text(Op::Store),
    ;

    fn pop_args() -> (r: String)
        ensures
            r@ == Self::op_text(Op::PopArgs),
    ;

    fn binary(kind: NodeKind) -> (r: String)
        requires
            is_binary(kind),
        ensures
            r@ == Self::op_text(Op::Binary(kind)),
    ;

    fn push_result() -> (r: String)
        ensures
            r@ == Self::op_text(Op::PushResult),
    ;

    fn ret() -> (r: String)
        ensures
            r@ == Self::op_text(Op::Return),
    ;

    fn discard() -> (r: String)
        ensures
            r@ == Self::op_text(Op::Discard),
    ;

    fn gen_if(expr: &str, stmt: &str, n: usize) -> (r: String)
        ensures
            r@ == expr@ + Self::op_text(Op::TestZero) + Self::op_text(
                Op::BranchIfZero(Label::End(n)),
            ) + stmt@ + Self::op_text(Op::Place(Label::End(n))),
    ;

    fn gen_if_else(expr: &str, stmt: &str, stmt_else: &str, n: usize) -> (r: String)
        ensures
            r@ == expr@ + Self::op_text(Op::TestZero) + Self::op_text(
                Op::BranchIfZero(Label::Else(n)),
            ) + stmt@ + Self::op_text(Op::Jump(Label::End(n))) + Self::op_text(
                Op::Place(Label::Else(n)),
            ) + stmt_else@ + Self::op_text(Op::Place(Label::End(n))),
    ;

    fn gen_while(expr: &str, stmt: &str, n: usize) -> (r: String)
        ensures
            r@ == Self::op_text(Op::Place(Label::Begin(n))) + expr@ + Self::op_text(Op::TestZero)
                + Self::op_text(Op::BranchIfZero(Label::End(n))) + stmt@ + Self::op_text(
                Op::Jump(Label::Begin(n)),
            ) + Self::op_text(Op::Place(Label::End(n))),
    ;

    fn gen_for(init_expr: &str, cond_expr: &str, loop_expr: &str, stmt: &str, n: usize) -> (r:
        String)
        ensures
            r@ == init_expr@ + Self::op_text(Op::Place(Label::Begin(n))) + (if cond_expr@.len()
                == 0 {
                Seq::empty()
            } else {
                cond_expr@ + Self::op_text(Op::TestZero) + Self::op_text(
                    Op::BranchIfZero(Label::End(n)),
                )
            }) + stmt@ + loop_expr@ + Self::op_text(Op::Jump(Label::Begin(n))) + Self::op_text(
                Op::Place(Label::End(n)),
            ),
    ;
}

/// The text of a sequence of ops, one after the other.
pub open spec fn render<B: Backend>(ops: Seq<Op>) -> Seq<char>
    decreases ops.len(),
{
    if ops.len() == 0 {
        Seq::empty()
    } else {
        render::<B>(ops.drop_last()) + B::op_text(ops.last())
    }
}

/// The x86-64 target, in Intel syntax.
pub struct X86_64;

impl Backend for X86_64 {
    open spec fn op_text(op: Op) -> Seq<char> {
        match op {
            Op::PushNum(n) => x86_64::push_text(x86_64::Operand::Num(n)),
            Op::Address(o) => x86_64::gen_val_text(o),
            Op::Load => x86_64::pop_val_text(),
            Op::Store => x86_64::pop_lvar_text(),
            Op::PopArgs => x86_64::pop_arg_text(),
            Op::Binary(k) => match k {
                NodeKind::Equality => x86_64::compare_text("sete"@),
                NodeKind::Nonequality => x86_64::compare_text("setne"@),
                NodeKind::Less => x86_64::compare_text("setl"@),
                NodeKind::LessOrEqual => x86_64::compare_text("setle"@),
                NodeKind::Add => x86_64::add_arg_text(),
                NodeKind::Sub => x86_64::sub_arg_text(),
                NodeKind::Mul => x86_64::mul_arg_text(),
                _ => x86_64::div_arg_text(),
            },
            Op::PushResult => x86_64::push_text(x86_64::reg(x86_64::Register::R0)),
            Op::Return => x86_64::gen_ret_text(),
            Op::Discard => x86_64::pop_text(x86_64::reg(x86_64::Register::R0)),
            Op::TestZero => x86_64::test_zero_text(),
            Op::BranchIfZero(l) => x86_64::jump_text("je"@, l),
            Op::Jump(l) => x86_64::jump_text("jmp"@, l),
            Op::Place(l) => x86_64::place_text(l),
        }
    }

    open spec fn header_text(frame_bytes: usize) -> Seq<char> {
        ".intel_syntax noprefix\n"@ + ".globl main\nmain:\n"@ + x86_64::memory_allocate_text(
            frame_bytes,
        )
    }

    open spec fn footer_text() -> Seq<char> {
        x86_64::program_epilogue_text()
    }

    proof fn lemma_op_text_nonempty(op: Op) {
        reveal_strlit("\t");
        reveal_strlit(":\n");
    }

    fn header(frame_bytes: usize) -> (r: String) {
        let mut s = x86_64::program_prologue();
        s.append(&x86_64::main_func());
        s.append(&x86_64::memory_allocate(frame_bytes));
        s
    }

    fn footer() -> (r: String) {
        x86_64::program_epilogue()
    }

    fn push_num(n: usize) -> (r: String) {
        x86_64::push(x86_64::Operand::Num(n))
    }

    fn address(offset: usize) -> (r: String) {
        x86_64::gen_val(offset)
    }

    fn load() -> (r: String) {
        x86_64::pop_val()
    }

    fn store() -> (r: String) {
        x86_64::pop_lvar()
    }

    fn pop_args() -> (r: String) {
        x86_64::pop_arg()
    }

    fn binary(kind: NodeKind) -> (r: String) {
        match kind {
            NodeKind::Equality => x86_64::eq_arg(),
            NodeKind::Nonequality => x86_64::neq_arg(),
            NodeKind::Less => x86_64::less_arg(),
            NodeKind::LessOrEqual => x86_64::less_or_eq_arg(),
            NodeKind::Add => x86_64::add_arg(),
            NodeKind::Sub => x86_64::sub_arg(),
            NodeKind::Mul => x86_64::mul_arg(),
            _ => x86_64::div_arg(),
        }
    }

    fn push_result() -> (r: String) {
        x86_64::push(x86_64::Operand::Register(x86_64::Register::R0))
    }

    fn ret() -> (r: String) {
        x86_64::gen_ret()
    }

    fn discard() -> (r: String) {
        x86_64::stmt_epilogue()
    }

    fn gen_if(expr: &str, stmt: &str, n: usize) -> (r: String) {
        x86_64::gen_if(expr, stmt, n)
    }

    fn gen_if_else(expr: &str, stmt: &str, stmt_else: &str, n: usize) -> (r: String) {
        x86_64::gen_if_else(expr, stmt, stmt_else, n)
    }

    fn gen_while(expr: &str, stmt: &str, n: usize) -> (r: String) {
        x86_64::gen_while(expr, stmt, n)
    }

    fn gen_for(init_expr: &str, cond_expr: &str, loop_expr: &str, stmt: &str, n: usize) -> (r:
        String) {
        x86_64::gen_for(init_expr, cond_expr, loop_expr, stmt, n)
    }
}

/// The AArch64 target; x9 serves as the working stack pointer.
pub struct AArch64;

impl Backend for AArch64 {
    open spec fn op_text(op: Op) -> Seq<char> {
        match op {
            Op::PushNum(n) => aarch64::push_text(aarch64::Operand::Num(n)),
            Op::Address(o) => aarch64::gen_val_text(o),
            Op::Load => aarch64::pop_val_text(),
            Op::Store => aarch64::pop_lvar_text(),
            Op::PopArgs => aarch64::pop_arg_text(),
            Op::Binary(k) => match k {
                NodeKind::Equality => aarch64::compare_text("EQ"@),
                NodeKind::Nonequality => aarch64::compare_text("NE"@),
                NodeKind::Less => aarch64::compare_text("LT"@),
                NodeKind::LessOrEqual => aarch64::compare_text("LE"@),
                NodeKind::Add => aarch64::arith_text("add"@),
                NodeKind::Sub => aarch64::arith_text("sub"@),
                NodeKind::Mul => aarch64::arith_text("mul"@),
                _ => aarch64::arith_text("sdiv"@),
            },
            Op::PushResult => aarch64::push_text(aarch64::reg(aarch64::Register::R0)),
            Op::Return => aarch64::gen_ret_text(),
            Op::Discard => aarch64::stmt_epilogue_text(),
            Op::TestZero => aarch64::test_zero_text(),
            Op::BranchIfZero(l) => aarch64::branch_text("b.EQ"@, l),
            Op::Jump(l) => aarch64::branch_text("b"@, l),
            Op::Place(l) => aarch64::place_text(l),
        }
    }

    open spec fn header_text(frame_bytes: usize) -> Seq<char> {
        ".text\n"@ + ".globl _main\n_main:\n"@ + aarch64::memory_allocate_text(
            frame_bytes,
        )
    }

    open spec fn footer_text() -> Seq<char> {
        aarch64::program_epilogue_text()
    }

    proof fn lemma_op_text_nonempty(op: Op) {
        reveal_strlit("\t");
        reveal_strlit(":\n");
    }

    fn header(frame_bytes: usize) -> (r: String) {
        let mut s = aarch64::program_prologue();
        s.append(&aarch64::main_func());
        s.append(&aarch64::memory_allocate(frame_bytes));
        s
    }

    fn footer() -> (r: String) {
        aarch64::program_epilogue()
    }

    fn push_num(n: usize) -> (r: String) {
        aarch64::push(aarch64::Operand::Num(n))
    }

    fn address(offset: usize) -> (r: String) {
        aarch64::gen_val(offset)
    }

    fn load() -> (r: String) {
        aarch64::pop_val()
    }

    fn store() -> (r: String) {
        aarch64::pop_lvar()
    }

    fn pop_args() -> (r: String) {
        aarch64::pop_arg()
    }

    fn binary(kind: NodeKind) -> (r: String) {
        match kind {
            NodeKind::Equality => aarch64::eq_arg(),
            NodeKind::Nonequality => aarch64::neq_arg(),
            NodeKind::Less => aarch64::less_arg(),
            NodeKind::LessOrEqual => aarch64::less_or_eq_arg(),
            NodeKind::Add => aarch64::add_arg(),
            NodeKind::Sub => aarch64::sub_arg(),
            NodeKind::Mul => aarch64::mul_arg(),
            _ => aarch64::div_arg(),
        }
    }

    fn push_result() -> (r: String) {
        aarch64::push(aarch64::Operand::Register(aarch64::Register::R0))
    }

    fn ret() -> (r: String) {
        aarch64::gen_ret()
    }

    fn discard() -> (r: String) {
        aarch64::stmt_epilogue()
    }

    fn gen_if(expr: &str, stmt: &str, n: usize) -> (r: String) {
        aarch64::gen_if(expr, stmt, n)
    }

    fn gen_if_else(expr: &str, stmt: &str, stmt_else: &str, n: usize) -> (r: String) {
        aarch64::gen_if_else(expr, stmt, stmt_else, n)
    }

    fn gen_while(expr: &str, stmt: &str, n: usize) -> (r: String) {
        aarch64::gen_while(expr, stmt, n)
    }

    fn gen_for(init_expr: &str, cond_expr: &str, loop_expr: &str, stmt: &str, n: usize) -> (r:
        String) {
        aarch64::gen_for(init_expr, cond_expr, loop_expr, stmt, n)
    }
}

} // verus!
