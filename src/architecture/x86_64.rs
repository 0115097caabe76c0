use vstd::prelude::*;

use crate::text::{append_decimal, append_padded3, decimal, padded3};
use crate::tree::Int;
use super::Label;

verus! {

#[derive(Debug, Clone, Copy, PartialEq, Eq, Structural)]
pub enum Register {
    /// rax
    R0,
    /// rdi
    R1,
    /// rbp
    R5,
    /// rsp
    R6,
}

#[derive(Debug, Clone, Copy, PartialEq, Eq, Structural)]
pub enum Operand {
    Num(Int),
    Register(Register),
    Address(Register),
}

pub open spec fn register_text(r: Register) -> Seq<char> {
    match r {
        Register::R0 => "rax"@,
        Register::R1 => "rdi"@,
        Register::R5 => "rbp"@,
        Register::R6 => "rsp"@,
    }
}

pub open spec fn operand_text(o: Operand) -> Seq<char> {
    match o {
        Operand::Register(r) => register_text(r),
        Operand::Address(r) => "["@ + register_text(r) + "]"@,
        Operand::Num(n) => decimal(n as nat),
    }
}

impl Register {
    /// The assembler name of the register.
    pub fn name(&self) -> (r: &'static str)
        ensures
            r@ == register_text(*self),
    {
        match self {
            Register::R0 => "rax",
            Register::R1 => "rdi",
            Register::R5 => "rbp",
            Register::R6 => "rsp",
        }
    }
}

impl Operand {
    /// Appends the operand as written in Intel syntax.
    pub fn write_to(&self, out: &mut String)
        ensures
            final(out)@ == old(out)@ + operand_text(*self),
    {
        match self {
            Operand::Register(r) => out.append(r.name()),
            Operand::Address(r) => {
                let ghost before = out@;
                out.append("[");
                out.append(r.name());
                out.append("]");
                assert(out@ =~= before + operand_text(*self));
            },
            Operand::Num(n) => append_decimal(out, *n),
        }
    }

    /// The operand as written in Intel syntax.
    pub fn text(&self) -> (r: String)
        ensures
            r@ == operand_text(*self),
    {
        let mut s = String::new();
        self.write_to(&mut s);
        assert(s@ =~= operand_text(*self));
        s
    }
}

/// An instruction with one operand: tab, mnemonic, space, operand, newline.
pub open spec fn insn1_text(mnemonic: Seq<char>, a: Operand) -> Seq<char> {
    "\t"@ + mnemonic + " "@ + operand_text(a) + "\n"@
}

/// An instruction with two operands separated by a comma.
pub open spec fn insn2_text(mnemonic: Seq<char>, a: Operand, b: Operand) -> Seq<char> {
    "\t"@ + mnemonic + " "@ + operand_text(a) + ", "@ + operand_text(b) + "\n"@
}

fn insn1(mnemonic: &str, a: Operand) -> (r: String)
    ensures
        r@ == insn1_text(mnemonic@, a),
{
    let mut s = String::from_str("\t");
    s.append(mnemonic);
    s.append(" ");
    a.write_to(&mut s);
    s.append("\n");
    s
}

fn insn2(mnemonic: &str, a: Operand, b: Operand) -> (r: String)
    ensures
        r@ == insn2_text(mnemonic@, a, b),
{
    let mut s = String::from_str("\t");
    s.append(mnemonic);
    s.append(" ");
    a.write_to(&mut s);
    s.append(", ");
    b.write_to(&mut s);
    s.append("\n");
    s
}

pub open spec fn reg(r: Register) -> Operand {
    Operand::Register(r)
}

pub open spec fn push_text(o: Operand) -> Seq<char> {
    insn1_text("push"@, o)
}

pub open spec fn pop_text(o: Operand) -> Seq<char> {
    insn1_text("pop"@, o)
}

pub open spec fn mov_text(d: Operand, s: Operand) -> Seq<char> {
    insn2_text("mov"@, d, s)
}

pub open spec fn sub_text(d: Operand, s: Operand) -> Seq<char> {
    insn2_text("sub"@, d, s)
}

pub open spec fn ret_text() -> Seq<char> {
    "\tret\n"@
}

pub fn program_prologue() -> (r: String)
    ensures
        r@ == ".intel_syntax noprefix\n"@,
{
    String::from_str(".intel_syntax noprefix\n")
}

pub fn main_func() -> (r: String)
    ensures
        r@ == ".globl main\nmain:\n"@,
{
    String::from_str(".globl main\nmain:\n")
}

pub open spec fn memory_allocate_text(bytes: usize) -> Seq<char> {
    push_text(reg(Register::R5)) + mov_text(reg(Register::R5), reg(Register::R6))
        + sub_text(reg(Register::R6), Operand::Num(bytes))
}

/// push rbp; mov rbp, rsp; sub rsp, bytes
pub fn memory_allocate(bytes: usize) -> (r: String)
    ensures
        r@ == memory_allocate_text(bytes),
{
    let mut s = push(Operand::Register(Register::R5));
    s.append(&mov(Operand::Register(Register::R5), Operand::Register(Register::R6)));
    s.append(&sub_insn(Operand::Register(Register::R6), Operand::Num(bytes)));
    s
}

pub fn stmt_epilogue() -> (r: String)
    ensures
        r@ == pop_text(reg(Register::R0)),
{
    pop(Operand::Register(Register::R0))
}

pub open spec fn program_epilogue_text() -> Seq<char> {
    mov_text(reg(Register::R6), reg(Register::R5)) + pop_text(reg(Register::R5)) + ret_text()
}

/// mov rsp, rbp; pop rbp; ret
pub fn program_epilogue() -> (r: String)
    ensures
        r@ == program_epilogue_text(),
{
    let mut s = mov(Operand::Register(Register::R6), Operand::Register(Register::R5));
    s.append(&pop(Operand::Register(Register::R5)));
    s.append(&ret());
    s
}

pub open spec fn gen_val_text(offset: usize) -> Seq<char> {
    mov_text(reg(Register::R0), reg(Register::R5)) + sub_text(reg(Register::R0), Operand::Num(offset))
        + push_text(reg(Register::R0))
}

/// mov rax, rbp; sub rax, offset; push rax
pub fn gen_val(offset: usize) -> (r: String)
    ensures
        r@ == gen_val_text(offset),
{
    let mut s = mov(Operand::Register(Register::R0), Operand::Register(Register::R5));
    s.append(&sub_insn(Operand::Register(Register::R0), Operand::Num(offset)));
    s.append(&push(Operand::Register(Register::R0)));
    s
}

pub open spec fn pop_val_text() -> Seq<char> {
    pop_text(reg(Register::R0)) + mov_text(reg(Register::R0), Operand::Address(Register::R0))
        + push_text(reg(Register::R0))
}

/// pop rax; mov rax, [rax]; push rax
pub fn pop_val() -> (r: String)
    ensures
        r@ == pop_val_text(),
{
    let mut s = pop(Operand::Register(Register::R0));
    s.append(&mov(Operand::Register(Register::R0), Operand::Address(Register::R0)));
    s.append(&push(Operand::Register(Register::R0)));
    s
}

pub open spec fn pop_lvar_text() -> Seq<char> {
    pop_text(reg(Register::R1)) + pop_text(reg(Register::R0))
        + mov_text(Operand::Address(Register::R0), reg(Register::R1)) + push_text(reg(Register::R1))
}

/// pop rdi; pop rax; mov [rax], rdi; push rdi
pub fn pop_lvar() -> (r: String)
    ensures
        r@ == pop_lvar_text(),
{
    let mut s = pop(Operand::Register(Register::R1));
    s.append(&pop(Operand::Register(Register::R0)));
    s.append(&mov(Operand::Address(Register::R0), Operand::Register(Register::R1)));
    s.append(&push(Operand::Register(Register::R1)));
    s
}

pub open spec fn pop_arg_text() -> Seq<char> {
    pop_text(reg(Register::R1)) + pop_text(reg(Register::R0))
}

/// pop rdi; pop rax
pub fn pop_arg() -> (r: String)
    ensures
        r@ == pop_arg_text(),
{
    let mut s = pop(Operand::Register(Register::R1));
    s.append(&pop(Operand::Register(Register::R0)));
    s
}

/// push rd
pub fn push(rd: Operand) -> (r: String)
    ensures
        r@ == push_text(rd),
{
    insn1("push", rd)
}

/// pop rd
pub fn pop(rd: Operand) -> (r: String)
    ensures
        r@ == pop_text(rd),
{
    insn1("pop", rd)
}

fn mov(rd: Operand, src: Operand) -> (r: String)
    ensures
        r@ == mov_text(rd, src),
{
    insn2("mov", rd, src)
}

fn sub_insn(rd: Operand, rn: Operand) -> (r: String)
    ensures
        r@ == sub_text(rd, rn),
{
    insn2("sub", rd, rn)
}

fn ret() -> (r: String)
    ensures
        r@ == ret_text(),
{
    String::from_str("\tret\n")
}

pub open spec fn add_arg_text() -> Seq<char> {
    insn2_text("add"@, reg(Register::R0), reg(Register::R1))
}

pub open spec fn sub_arg_text() -> Seq<char> {
    sub_text(reg(Register::R0), reg(Register::R1))
}

pub open spec fn mul_arg_text() -> Seq<char> {
    insn2_text("imul"@, reg(Register::R0), reg(Register::R1))
}

pub open spec fn div_arg_text() -> Seq<char> {
    "\tcqo\n"@ + insn1_text("idiv"@, reg(Register::R1))
}

/// A comparison of rax with rdi whose flag `setcc` leaves 0 or 1 in rax.
pub open spec fn compare_text(setcc: Seq<char>) -> Seq<char> {
    insn2_text("cmp"@, reg(Register::R0), reg(Register::R1)) + "\t"@ + setcc + " al\n"@
        + "\tmovzb "@ + register_text(Register::R0) + ", al\n"@
}

fn compare(setcc: &str) -> (r: String)
    ensures
        r@ == compare_text(setcc@),
{
    let mut s = insn2("cmp", Operand::Register(Register::R0), Operand::Register(Register::R1));
    s.append("\t");
    s.append(setcc);
    s.append(" al\n");
    s.append("\tmovzb ");
    s.append(Register::R0.name());
    s.append(", al\n");
    s
}

/// add rax, rdi
pub fn add_arg() -> (r: String)
    ensures
        r@ == add_arg_text(),
{
    insn2("add", Operand::Register(Register::R0), Operand::Register(Register::R1))
}

/// sub rax, rdi
pub fn sub_arg() -> (r: String)
    ensures
        r@ == sub_arg_text(),
{
    sub_insn(Operand::Register(Register::R0), Operand::Register(Register::R1))
}

/// imul rax, rdi
pub fn mul_arg() -> (r: String)
    ensures
        r@ == mul_arg_text(),
{
    insn2("imul", Operand::Register(Register::R0), Operand::Register(Register::R1))
}

/// cqo; idiv rdi
pub fn div_arg() -> (r: String)
    ensures
        r@ == div_arg_text(),
{
    let mut s = String::from_str("\tcqo\n");
    s.append(&insn1("idiv", Operand::Register(Register::R1)));
    s
}

/// sete
pub fn eq_arg() -> (r: String)
    ensures
        r@ == compare_text("sete"@),
{
    compare("sete")
}

/// setne
pub fn neq_arg() -> (r: String)
    ensures
        r@ == compare_text("setne"@),
{
    compare("setne")
}

/// setl
pub fn less_arg() -> (r: String)
    ensures
        r@ == compare_text("setl"@),
{
    compare("setl")
}

/// setle
pub fn less_or_eq_arg() -> (r: String)
    ensures
        r@ == compare_text("setle"@),
{
    compare("setle")
}

pub open spec fn gen_ret_text() -> Seq<char> {
    pop_text(reg(Register::R0)) + program_epilogue_text()
}

/// pop rax, then leave the frame and return
pub fn gen_ret() -> (r: String)
    ensures
        r@ == gen_ret_text(),
{
    let mut s = pop(Operand::Register(Register::R0));
    s.append(&program_epilogue());
    s
}

pub open spec fn label_name(l: Label) -> Seq<char> {
    match l {
        Label::Begin(n) => ".Lbegin"@ + padded3(n as nat),
        Label::Else(n) => ".Lelse"@ + padded3(n as nat),
        Label::End(n) => ".Lend"@ + padded3(n as nat),
    }
}

/// The line that places label `l`.
pub open spec fn place_text(l: Label) -> Seq<char> {
    label_name(l) + ":\n"@
}

/// A jump instruction `mnemonic` to label `l`.
pub open spec fn jump_text(mnemonic: Seq<char>, l: Label) -> Seq<char> {
    "\t"@ + mnemonic + " "@ + label_name(l) + "\n"@
}

/// Pops the condition into rax and compares it with zero.
pub open spec fn test_zero_text() -> Seq<char> {
    pop_text(reg(Register::R0)) + insn2_text("cmp"@, reg(Register::R0), Operand::Num(0))
}

fn label(prefix: &str, n: usize) -> (r: String)
    ensures
        r@ == prefix@ + padded3(n as nat),
{
    let mut s = String::from_str(prefix);
    append_padded3(&mut s, n);
    s
}

pub fn lbegin(n: usize) -> (r: String)
    ensures
        r@ == label_name(Label::Begin(n)),
{
    label(".Lbegin", n)
}

pub fn lelse(n: usize) -> (r: String)
    ensures
        r@ == label_name(Label::Else(n)),
{
    label(".Lelse", n)
}

pub fn lend(n: usize) -> (r: String)
    ensures
        r@ == label_name(Label::End(n)),
{
    label(".Lend", n)
}

fn place(name: String) -> (r: String)
    ensures
        r@ == name@ + ":\n"@,
{
    let mut s = name;
    s.append(":\n");
    s
}

fn jump(mnemonic: &str, name: String) -> (r: String)
    ensures
        r@ == "\t"@ + mnemonic@ + " "@ + name@ + "\n"@,
{
    let mut s = String::from_str("\t");
    s.append(mnemonic);
    s.append(" ");
    s.append(&name);
    s.append("\n");
    s
}

fn test_zero() -> (r: String)
    ensures
        r@ == test_zero_text(),
{
    let mut s = pop(Operand::Register(Register::R0));
    s.append(&insn2("cmp", Operand::Register(Register::R0), Operand::Num(0)));
    s
}

pub fn gen_if(expr: &str, stmt: &str, n: usize) -> (r: String)
    ensures
        r@ == expr@ + test_zero_text() + jump_text("je"@, Label::End(n)) + stmt@
            + place_text(Label::End(n)),
{
    let mut s = String::from_str(expr);
    s.append(&test_zero());
    s.append(&jump("je", lend(n)));
    s.append(stmt);
    s.append(&place(lend(n)));
    s
}

pub fn gen_if_else(expr: &str, stmt: &str, stmt_else: &str, n: usize) -> (r: String)
    ensures
        r@ == expr@ + test_zero_text() + jump_text("je"@, Label::Else(n)) + stmt@
            + jump_text("jmp"@, Label::End(n)) + place_text(Label::Else(n)) + stmt_else@
            + place_text(Label::End(n)),
{
    let mut s = String::from_str(expr);
    s.append(&test_zero());
    s.append(&jump("je", lelse(n)));
    s.append(stmt);
    s.append(&jump("jmp", lend(n)));
    s.append(&place(lelse(n)));
    s.append(stmt_else);
    s.append(&place(lend(n)));
    s
}

pub fn gen_while(expr: &str, stmt: &str, n: usize) -> (r: String)
    ensures
        r@ == place_text(Label::Begin(n)) + expr@ + test_zero_text() + jump_text(
            "je"@,
            Label::End(n),
        ) + stmt@ + jump_text("jmp"@, Label::Begin(n)) + place_text(Label::End(n)),
{
    let mut s = place(lbegin(n));
    s.append(expr);
    s.append(&test_zero());
    s.append(&jump("je", lend(n)));
    s.append(stmt);
    s.append(&jump("jmp", lbegin(n)));
    s.append(&place(lend(n)));
    s
}

/// A `for` loop; an empty condition gives a loop that only a `return` leaves.
pub fn gen_for(init_expr: &str, cond_expr: &str, loop_expr: &str, stmt: &str, n: usize) -> (r: String)
    ensures
        r@ == init_expr@ + place_text(Label::Begin(n)) + (if cond_expr@.len() == 0 {
            Seq::empty()
        } else {
            cond_expr@ + test_zero_text() + jump_text("je"@, Label::End(n))
        }) + stmt@ + loop_expr@ + jump_text("jmp"@, Label::Begin(n)) + place_text(Label::End(n)),
{
    let mut s = String::from_str(init_expr);
    s.append(&place(lbegin(n)));
    if !cond_expr.is_empty() {
        s.append(cond_expr);
        s.append(&test_zero());
        s.append(&jump("je", lend(n)));
    }
    s.append(stmt);
    s.append(loop_expr);
    s.append(&jump("jmp", lbegin(n)));
    s.append(&place(lend(n)));
    s
}

} // verus!
