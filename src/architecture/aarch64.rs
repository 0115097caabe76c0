use vstd::prelude::*;

use crate::text::{append_decimal, append_padded3, decimal, padded3};
use crate::tree::Int;
use super::Label;

verus! {

#[derive(Debug, Clone, Copy, PartialEq, Eq, Structural)]
pub enum Register {
    /// x0
    R0,
    /// x1
    R1,
    /// x8, the frame base
    R8,
    /// x9, the working stack pointer
    R9,
    /// sp
    R13,
    /// x29, the frame pointer
    R29,
    /// x30, the link register
    R30,
}

#[derive(Debug, Clone, Copy, PartialEq, Eq, Structural)]
pub enum Operand {
    Num(Int),
    Register(Register),
    Address(Register),
}

pub open spec fn register_text(r: Register) -> Seq<char> {
    match r {
        Register::R0 => "x0"@,
        Register::R1 => "x1"@,
        Register::R8 => "x8"@,
        Register::R9 => "x9"@,
        Register::R13 => "sp"@,
        Register::R29 => "x29"@,
        Register::R30 => "x30"@,
    }
}

pub open spec fn operand_text(o: Operand) -> Seq<char> {
    match o {
        Operand::Register(r) => register_text(r),
        Operand::Address(r) => "["@ + register_text(r) + "]"@,
        Operand::Num(n) => "#"@ + decimal(n as nat),
    }
}

impl Register {
    /// The assembler name of the register.
    pub fn name(&self) -> (r: &'static str)
        ensures
            r@ == register_text(*self),
    {
        match self {
            Register::R0 => "x0",
            Register::R1 => "x1",
            Register::R8 => "x8",
            Register::R9 => "x9",
            Register::R13 => "sp",
            Register::R29 => "x29",
            Register::R30 => "x30",
        }
    }
}

impl Operand {
    /// Appends the operand as the assembler writes it.
    pub fn write_to(&self, out: &mut String)
        ensures
            final(out)@ == old(out)@ + operand_text(*self),
    {
        let ghost before = out@;
        match self {
            Operand::Register(r) => out.append(r.name()),
            Operand::Address(r) => {
                out.append("[");
                out.append(r.name());
                out.append("]");
            },
            Operand::Num(n) => {
                out.append("#");
                append_decimal(out, *n);
            },
        }
        assert(out@ =~= before + operand_text(*self));
    }

    /// The operand as the assembler writes it.
    pub fn text(&self) -> (r: String)
        ensures
            r@ == operand_text(*self),
    {
        let mut s = String::new();
        self.write_to(&mut s);
        assert(s@ =~= operand_text(*self));
        s
    }
}

pub open spec fn reg(r: Register) -> Operand {
    Operand::Register(r)
}

/// An instruction with two operands.
pub open spec fn insn2_text(mnemonic: Seq<char>, a: Operand, b: Operand) -> Seq<char> {
    "\t"@ + mnemonic + " "@ + operand_text(a) + ", "@ + operand_text(b) + "\n"@
}

/// An instruction whose destination is also its first source.
pub open spec fn insn3_text(mnemonic: Seq<char>, d: Operand, n: Operand) -> Seq<char> {
    "\t"@ + mnemonic + " "@ + operand_text(d) + ", "@ + operand_text(d) + ", "@ + operand_text(n)
        + "\n"@
}

fn insn2(mnemonic: &str, a: Operand, b: Operand) -> (r: String)
    ensures
        r@ == insn2_text(mnemonic@, a, b),
{
    let mut s = String::from_str("\t");
    s.append(mnemonic);
    s.append(" ");
    a.write_to(&mut s);
    s.append(", ");
    b.write_to(&mut s);
    s.append("\n");
    s
}

fn insn3(mnemonic: &str, d: Operand, n: Operand) -> (r: String)
    ensures
        r@ == insn3_text(mnemonic@, d, n),
{
    let mut s = String::from_str("\t");
    s.append(mnemonic);
    s.append(" ");
    d.write_to(&mut s);
    s.append(", ");
    d.write_to(&mut s);
    s.append(", ");
    n.write_to(&mut s);
    s.append("\n");
    s
}

pub open spec fn push_text(o: Operand) -> Seq<char> {
    "; push\n"@ + insn3_text("sub"@, reg(Register::R9), Operand::Num(8)) + insn2_text(
        "mov"@,
        reg(Register::R1),
        o,
    ) + insn2_text("str"@, reg(Register::R1), Operand::Address(Register::R9))
}

pub open spec fn pop_text(o: Operand) -> Seq<char> {
    "; pop\n"@ + insn2_text("ldr"@, o, Operand::Address(Register::R9)) + insn3_text(
        "add"@,
        reg(Register::R9),
        Operand::Num(8),
    )
}

pub fn program_prologue() -> (r: String)
    ensures
        r@ == ".text\n"@,
{
    String::from_str(".text\n")
}

pub fn main_func() -> (r: String)
    ensures
        r@ == ".globl _main\n_main:\n"@,
{
    String::from_str(".globl _main\n_main:\n")
}

pub open spec fn memory_allocate_text(bytes: usize) -> Seq<char> {
    "; memory allocate\n"@ + insn2_text("mov"@, reg(Register::R8), reg(Register::R13))
        + insn2_text("mov"@, reg(Register::R9), reg(Register::R13)) + push_text(reg(Register::R9))
        + insn3_text("sub"@, reg(Register::R9), Operand::Num(bytes))
}

/// mov x8, sp; mov x9, sp; push x9; sub x9, x9, #bytes
pub fn memory_allocate(bytes: usize) -> (r: String)
    ensures
        r@ == memory_allocate_text(bytes),
{
    let mut s = String::from_str("; memory allocate\n");
    s.append(&mov(Operand::Register(Register::R8), Operand::Register(Register::R13)));
    s.append(&mov(Operand::Register(Register::R9), Operand::Register(Register::R13)));
    s.append(&push(Operand::Register(Register::R9)));
    s.append(&insn3("sub", Operand::Register(Register::R9), Operand::Num(bytes)));
    s
}

fn ldr(rd: Operand, rn: Operand) -> (r: String)
    ensures
        r@ == insn2_text("ldr"@, rd, rn),
{
    insn2("ldr", rd, rn)
}

fn str(rd: Operand, rn: Operand) -> (r: String)
    ensures
        r@ == insn2_text("str"@, rd, rn),
{
    insn2("str", rd, rn)
}

fn mov(rd: Operand, src: Operand) -> (r: String)
    ensures
        r@ == insn2_text("mov"@, rd, src),
{
    insn2("mov", rd, src)
}

pub open spec fn stmt_epilogue_text() -> Seq<char> {
    "; statement epilogue\n"@ + pop_text(reg(Register::R0))
}

pub fn stmt_epilogue() -> (r: String)
    ensures
        r@ == stmt_epilogue_text(),
{
    let mut s = String::from_str("; statement epilogue\n");
    s.append(&pop(Operand::Register(Register::R0)));
    s
}

/// mov x9, x8; pop x8; ret
pub open spec fn leave_text() -> Seq<char> {
    insn2_text("mov"@, reg(Register::R9), reg(Register::R8)) + pop_text(reg(Register::R8))
        + "\tret\n"@
}

fn leave() -> (r: String)
    ensures
        r@ == leave_text(),
{
    let mut s = mov(Operand::Register(Register::R9), Operand::Register(Register::R8));
    s.append(&pop(Operand::Register(Register::R8)));
    s.append("\tret\n");
    s
}

pub open spec fn program_epilogue_text() -> Seq<char> {
    "; program epilogue\n"@ + leave_text()
}

pub fn program_epilogue() -> (r: String)
    ensures
        r@ == program_epilogue_text(),
{
    let mut s = String::from_str("; program epilogue\n");
    s.append(&leave());
    s
}

pub open spec fn gen_val_text(offset: usize) -> Seq<char> {
    "; value\n"@ + insn2_text("mov"@, reg(Register::R0), reg(Register::R8)) + insn3_text(
        "sub"@,
        reg(Register::R0),
        Operand::Num(offset),
    ) + push_text(reg(Register::R0))
}

/// mov x0, x8; sub x0, x0, #offset; push x0
pub fn gen_val(offset: usize) -> (r: String)
    ensures
        r@ == gen_val_text(offset),
{
    let mut s = String::from_str("; value\n");
    s.append(&mov(Operand::Register(Register::R0), Operand::Register(Register::R8)));
    s.append(&insn3("sub", Operand::Register(Register::R0), Operand::Num(offset)));
    s.append(&push(Operand::Register(Register::R0)));
    s
}

pub open spec fn pop_val_text() -> Seq<char> {
    "; pop value\n"@ + pop_text(reg(Register::R0)) + insn2_text(
        "ldr"@,
        reg(Register::R0),
        Operand::Address(Register::R0),
    ) + push_text(reg(Register::R0))
}

/// pop x0; ldr x0, [x0]; push x0
pub fn pop_val() -> (r: String)
    ensures
        r@ == pop_val_text(),
{
    let mut s = String::from_str("; pop value\n");
    s.append(&pop(Operand::Register(Register::R0)));
    s.append(&ldr(Operand::Register(Register::R0), Operand::Address(Register::R0)));
    s.append(&push(Operand::Register(Register::R0)));
    s
}

pub open spec fn pop_lvar_text() -> Seq<char> {
    "; pop lvar\n"@ + pop_text(reg(Register::R1)) + pop_text(reg(Register::R0)) + insn2_text(
        "str"@,
        reg(Register::R1),
        Operand::Address(Register::R0),
    ) + push_text(reg(Register::R1))
}

/// pop x1; pop x0; str x1, [x0]; push x1
pub fn pop_lvar() -> (r: String)
    ensures
        r@ == pop_lvar_text(),
{
    let mut s = String::from_str("; pop lvar\n");
    s.append(&pop(Operand::Register(Register::R1)));
    s.append(&pop(Operand::Register(Register::R0)));
    s.append(&str(Operand::Register(Register::R1), Operand::Address(Register::R0)));
    s.append(&push(Operand::Register(Register::R1)));
    s
}

pub open spec fn pop_arg_text() -> Seq<char> {
    "; pop arg\n"@ + pop_text(reg(Register::R1)) + pop_text(reg(Register::R0))
}

/// pop x1; pop x0
pub fn pop_arg() -> (r: String)
    ensures
        r@ == pop_arg_text(),
{
    let mut s = String::from_str("; pop arg\n");
    s.append(&pop(Operand::Register(Register::R1)));
    s.append(&pop(Operand::Register(Register::R0)));
    s
}

/// sub x9, x9, #8; mov x1, rd; str x1, [x9]
pub fn push(rd: Operand) -> (r: String)
    ensures
        r@ == push_text(rd),
{
    let mut s = String::from_str("; push\n");
    s.append(&insn3("sub", Operand::Register(Register::R9), Operand::Num(8)));
    s.append(&mov(Operand::Register(Register::R1), rd));
    s.append(&str(Operand::Register(Register::R1), Operand::Address(Register::R9)));
    s
}

/// ldr rd, [x9]; add x9, x9, #8
pub fn pop(rd: Operand) -> (r: String)
    ensures
        r@ == pop_text(rd),
{
    let mut s = String::from_str("; pop\n");
    s.append(&ldr(rd, Operand::Address(Register::R9)));
    s.append(&insn3("add", Operand::Register(Register::R9), Operand::Num(8)));
    s
}

/// An arithmetic instruction on x0 and x1 that leaves its result in x0.
pub open spec fn arith_text(mnemonic: Seq<char>) -> Seq<char> {
    insn3_text(mnemonic, reg(Register::R0), reg(Register::R1))
}

pub fn add_arg() -> (r: String)
    ensures
        r@ == arith_text("add"@),
{
    insn3("add", Operand::Register(Register::R0), Operand::Register(Register::R1))
}

pub fn sub_arg() -> (r: String)
    ensures
        r@ == arith_text("sub"@),
{
    insn3("sub", Operand::Register(Register::R0), Operand::Register(Register::R1))
}

pub fn mul_arg() -> (r: String)
    ensures
        r@ == arith_text("mul"@),
{
    insn3("mul", Operand::Register(Register::R0), Operand::Register(Register::R1))
}

/// Signed division.
pub fn div_arg() -> (r: String)
    ensures
        r@ == arith_text("sdiv"@),
{
    insn3("sdiv", Operand::Register(Register::R0), Operand::Register(Register::R1))
}

/// Compares x0 with x1 and sets x0 to 1 where `cond` holds, else to 0.
pub open spec fn compare_text(cond: Seq<char>) -> Seq<char> {
    insn2_text("cmp"@, reg(Register::R0), reg(Register::R1)) + "\tcset "@ + register_text(
        Register::R0,
    ) + ", "@ + cond + "\n"@
}

fn compare(cond: &str) -> (r: String)
    ensures
        r@ == compare_text(cond@),
{
    let mut s = insn2("cmp", Operand::Register(Register::R0), Operand::Register(Register::R1));
    s.append("\tcset ");
    s.append(Register::R0.name());
    s.append(", ");
    s.append(cond);
    s.append("\n");
    s
}

pub fn eq_arg() -> (r: String)
    ensures
        r@ == compare_text("EQ"@),
{
    compare("EQ")
}

pub fn neq_arg() -> (r: String)
    ensures
        r@ == compare_text("NE"@),
{
    compare("NE")
}

pub fn less_arg() -> (r: String)
    ensures
        r@ == compare_text("LT"@),
{
    compare("LT")
}

pub fn less_or_eq_arg() -> (r: String)
    ensures
        r@ == compare_text("LE"@),
{
    compare("LE")
}

pub open spec fn gen_ret_text() -> Seq<char> {
    "; return\n"@ + pop_text(reg(Register::R0)) + leave_text()
}

/// pop x0, then leave the frame and return
pub fn gen_ret() -> (r: String)
    ensures
        r@ == gen_ret_text(),
{
    let mut s = String::from_str("; return\n");
    s.append(&pop(Operand::Register(Register::R0)));
    s.append(&leave());
    s
}

pub open spec fn label_name(l: Label) -> Seq<char> {
    match l {
        Label::Begin(n) => "Lbegin"@ + padded3(n as nat),
        Label::Else(n) => "Lelse"@ + padded3(n as nat),
        Label::End(n) => "Lend"@ + padded3(n as nat),
    }
}

/// The line that places label `l`.
pub open spec fn place_text(l: Label) -> Seq<char> {
    label_name(l) + ":\n"@
}

/// A branch `mnemonic` to label `l`.
pub open spec fn branch_text(mnemonic: Seq<char>, l: Label) -> Seq<char> {
    "\t"@ + mnemonic + " "@ + label_name(l) + "\n"@
}

/// Pops the condition into x0 and compares it with zero.
pub open spec fn test_zero_text() -> Seq<char> {
    pop_text(reg(Register::R0)) + insn2_text("cmp"@, reg(Register::R0), Operand::Num(0))
}

fn label(prefix: &str, n: usize) -> (r: String)
    ensures
        r@ == prefix@ + padded3(n as nat),
{
    let mut s = String::from_str(prefix);
    append_padded3(&mut s, n);
    s
}

pub fn lbegin(n: usize) -> (r: String)
    ensures
        r@ == label_name(Label::Begin(n)),
{
    label("Lbegin", n)
}

pub fn lelse(n: usize) -> (r: String)
    ensures
        r@ == label_name(Label::Else(n)),
{
    label("Lelse", n)
}

pub fn lend(n: usize) -> (r: String)
    ensures
        r@ == label_name(Label::End(n)),
{
    label("Lend", n)
}

fn place(name: String) -> (r: String)
    ensures
        r@ == name@ + ":\n"@,
{
    let mut s = name;
    s.append(":\n");
    s
}

fn branch(mnemonic: &str, name: String) -> (r: String)
    ensures
        r@ == "\t"@ + mnemonic@ + " "@ + name@ + "\n"@,
{
    let mut s = String::from_str("\t");
    s.append(mnemonic);
    s.append(" ");
    s.append(&name);
    s.append("\n");
    s
}

fn test_zero() -> (r: String)
    ensures
        r@ == test_zero_text(),
{
    let mut s = pop(Operand::Register(Register::R0));
    s.append(&insn2("cmp", Operand::Register(Register::R0), Operand::Num(0)));
    s
}

pub fn gen_if(expr: &str, stmt: &str, n: usize) -> (r: String)
    ensures
        r@ == expr@ + test_zero_text() + branch_text("b.EQ"@, Label::End(n)) + stmt@
            + place_text(Label::End(n)),
{
    let mut s = String::from_str(expr);
    s.append(&test_zero());
    s.append(&branch("b.EQ", lend(n)));
    s.append(stmt);
    s.append(&place(lend(n)));
    s
}

pub fn gen_if_else(expr: &str, stmt: &str, stmt_else: &str, n: usize) -> (r: String)
    ensures
        r@ == expr@ + test_zero_text() + branch_text("b.EQ"@, Label::Else(n)) + stmt@
            + branch_text("b"@, Label::End(n)) + place_text(Label::Else(n)) + stmt_else@
            + place_text(Label::End(n)),
{
    let mut s = String::from_str(expr);
    s.append(&test_zero());
    s.append(&branch("b.EQ", lelse(n)));
    s.append(stmt);
    s.append(&branch("b", lend(n)));
    s.append(&place(lelse(n)));
    s.append(stmt_else);
    s.append(&place(lend(n)));
    s
}

pub fn gen_while(expr: &str, stmt: &str, n: usize) -> (r: String)
    ensures
        r@ == place_text(Label::Begin(n)) + expr@ + test_zero_text() + branch_text(
            "b.EQ"@,
            Label::End(n),
        ) + stmt@ + branch_text("b"@, Label::Begin(n)) + place_text(Label::End(n)),
{
    let mut s = place(lbegin(n));
    s.append(expr);
    s.append(&test_zero());
    s.append(&branch("b.EQ", lend(n)));
    s.append(stmt);
    s.append(&branch("b", lbegin(n)));
    s.append(&place(lend(n)));
    s
}

/// A `for` loop; an empty condition gives a loop that only a `return` leaves.
pub fn gen_for(init_expr: &str, cond_expr: &str, loop_expr: &str, stmt: &str, n: usize) -> (r: String)
    ensures
        r@ == init_expr@ + place_text(Label::Begin(n)) + (if cond_expr@.len() == 0 {
            Seq::empty()
        } else {
            cond_expr@ + test_zero_text() + branch_text("b.EQ"@, Label::End(n))
        }) + stmt@ + loop_expr@ + branch_text("b"@, Label::Begin(n)) + place_text(Label::End(n)),
{
    let mut s = String::from_str(init_expr);
    s.append(&place(lbegin(n)));
    if !cond_expr.is_empty() {
        s.append(cond_expr);
        s.append(&test_zero());
        s.append(&branch("b.EQ", lend(n)));
    }
    s.append(stmt);
    s.append(loop_expr);
    s.append(&branch("b", lbegin(n)));
    s.append(&place(lend(n)));
    s
}

} // verus!
