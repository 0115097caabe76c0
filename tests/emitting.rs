use ioc2::architecture::x86_64::lbegin;
use ioc2::architecture::{AArch64, X86_64};
use ioc2::compile;
use ioc2::error::invalid_char_error;
use ioc2::generator::{generate_assembly, generator};
use ioc2::tree::{NodeKind, Tree};

#[test]
fn lbegin_test() {
    assert_eq!(".Lbegin001", lbegin(1));
    assert_eq!(".Lbegin010", lbegin(10));
    assert_eq!(".Lbegin100", lbegin(100));
}

#[test]
fn label_numbers_grow_past_three_digits() {
    assert_eq!(".Lbegin1234", lbegin(1234));
    assert_eq!("Lbegin007", ioc2::architecture::aarch64::lbegin(7));
}

#[test]
fn invalid_char_error_test() {
    let s = "int main() {\n\tint a = 2;\n\tint b = 3;\n\treturn a * b:\n}";
    let c = ':';

    assert_eq!(
        "--> 3:13\n\treturn a * b:\n             ^ invalid char",
        invalid_char_error(s, c)
    );
}

#[test]
fn invalid_char_report_of_short_source() {
    assert_eq!("--> 0:3\nabc$\n   ^ invalid char", invalid_char_error("abc$", '$'));
    assert_eq!("--> 0:0\n\n^ invalid char", invalid_char_error("abc", '$'));
    assert_eq!("--> 1:2\né$\n  ^ invalid char", invalid_char_error("x\né$", '$'));
}

#[test]
fn x86_smoke_42() {
    let out = compile::<X86_64>("42;").unwrap();
    assert_eq!(
        ".intel_syntax noprefix\n.globl main\nmain:\n\tpush rbp\n\tmov rbp, rsp\n\tsub rsp, 0\n\tpush 42\n\tpop rax\n\tmov rsp, rbp\n\tpop rbp\n\tret\n",
        out
    );
}

#[test]
fn aarch64_smoke_42() {
    let out = compile::<AArch64>("42;").unwrap();
    assert!(out.starts_with(".text\n.globl _main\n_main:\n"));
    assert!(out.contains("\tsub x9, x9, #0\n"));
    assert!(out.contains("\tmov x1, #42\n"));
    assert!(out.ends_with("\tret\n"));
}

#[test]
fn x86_smoke_assign_and_return() {
    let out = compile::<X86_64>("a = 1; return a;").unwrap();
    assert_eq!(1, out.matches("\tsub rsp, 8\n").count());
    assert!(out.contains(
        "\tmov rax, rbp\n\tsub rax, 8\n\tpush rax\n\tpush 1\n\tpop rdi\n\tpop rax\n\tmov [rax], rdi\n\tpush rdi\n\tpop rax\n"
    ));
    assert!(out.contains(
        "\tpop rax\n\tmov rax, [rax]\n\tpush rax\n\tpop rax\n\tmov rsp, rbp\n\tpop rbp\n\tret\n"
    ));
}

#[test]
fn aarch64_smoke_assign_and_return() {
    let out = compile::<AArch64>("a = 1; return a;").unwrap();
    assert_eq!(1, out.matches("\tsub x9, x9, #8\n\tmov x1, x9\n").count());
    assert!(out.contains("\tsub x0, x0, #8\n"));
    assert!(out.contains("\tstr x1, [x0]\n"));
}

#[test]
fn binary_operators_on_each_target() {
    let x86 = compile::<X86_64>("6 / 2 <= 1 * 3 - 4;").unwrap();
    assert!(x86.contains("\tcqo\n\tidiv rdi\n"));
    assert!(x86.contains("\timul rax, rdi\n"));
    assert!(x86.contains("\tsub rax, rdi\n"));
    assert!(x86.contains("\tcmp rax, rdi\n\tsetle al\n\tmovzb rax, al\n"));
    let arm = compile::<AArch64>("6 / 2 == 1 != 3 < 4;").unwrap();
    assert!(arm.contains("\tsdiv x0, x0, x1\n"));
    assert!(arm.contains("\tcset x0, EQ\n"));
    assert!(arm.contains("\tcset x0, NE\n"));
    assert!(arm.contains("\tcset x0, LT\n"));
}

#[test]
fn control_flow_labels() {
    let out = compile::<X86_64>("if (1) if (2) 3; while (0) 1; for (;;) return 0;").unwrap();
    assert!(out.contains("\tje .Lend001\n"));
    assert!(out.contains(".Lend001:\n"));
    assert!(out.contains(".Lend002:\n"));
    assert!(out.contains(".Lbegin003:\n\tpush 0\n\tpop rax\n\tcmp rax, 0\n\tje .Lend003\n"));
    assert!(out.contains(".Lbegin004:\n\tpush 0\n\tpop rax\n\tmov rsp, rbp\n"));
    assert!(out.contains("\tjmp .Lbegin004\n.Lend004:\n"));
    let arm = compile::<AArch64>("if (1) 2; else 3;").unwrap();
    assert!(arm.contains("\tb.EQ Lelse001\n"));
    assert!(arm.contains("\tb Lend001\nLelse001:\n"));
}

#[test]
fn compile_errors() {
    assert_eq!(
        Err("tokenize error\n--> 0:3\nabc$\n   ^ invalid char".to_owned()),
        compile::<X86_64>("abc$")
    );
    assert_eq!(
        Err("tokenize error".to_owned()),
        compile::<X86_64>("99999999999999999999999;")
    );
    assert_eq!(
        Err("parse error: expected semicolon but disappear".to_owned()),
        compile::<X86_64>("1 + 1")
    );
    assert_eq!(
        Err("generate error: The left-hand side value of the assignment is not a variable"
            .to_owned()),
        compile::<AArch64>("1 = 2;")
    );
}

#[test]
fn compiling_twice_gives_the_same_text() {
    let source = "x = 3; while (x > 0) x = x - 1; return x;";
    assert_eq!(compile::<X86_64>(source), compile::<X86_64>(source));
    assert_eq!(compile::<AArch64>(source), compile::<AArch64>(source));
}

#[test]
fn generate_assembly_counts_labels() {
    let tree = Tree::new_if(Tree::new_int(1), Tree::new_while(Tree::new_int(0), Tree::Empty));
    let (text, next) = generate_assembly::<X86_64>(tree, 4).unwrap();
    assert_eq!(6, next);
    assert!(text.contains(".Lbegin005:\n"));
    assert!(text.contains(".Lend006:\n"));
    let bad = Tree::new_tree(NodeKind::Assign, Tree::new_int(1), Tree::new_int(2));
    assert_eq!(
        Err("The left-hand side value of the assignment is not a variable".to_owned()),
        generate_assembly::<AArch64>(bad, 0)
    );
}

#[test]
fn generator_frame_and_statement_epilogues() {
    let out = generator::<X86_64>(vec![Tree::new_int(7), Tree::new_int(8)], 2).unwrap();
    assert!(out.contains("\tsub rsp, 16\n\tpush 7\n\tpop rax\n\tpush 8\n\tpop rax\n"));
    assert_eq!(
        Err("too many variables".to_owned()),
        generator::<X86_64>(vec![], usize::MAX)
    );
}

#[test]
fn expression_statements_keep_the_stack_balanced() {
    let out = compile::<X86_64>("a = 1 + 2 * 3; a - 4 / 2 == 1; b = a = 5;").unwrap();
    let pushes = out.matches("\tpush ").count();
    let pops = out.matches("\tpop ").count();
    assert_eq!(pushes, pops);
}
