use instant_backend::common::{i64_to_dec, u64_to_dec, LineCol};
use instant_backend::compiler::Compiler;
use instant_backend::jvm::{JVMCompiler, NodeData};
use instant_backend::llvm::LLVMCompiler;
use instant_backend::parser::{parse, BinaryOp, Expr, Literal, Program, Stmt};

const INIT_BLOCK: &str = "\
.method public <init>()V
\taload_0
\tinvokespecial java/lang/Object/<init>()V
\treturn
.end method";

const PRINT_INT_DEF: &str = "\
@dnl = internal constant [4 x i8] c\"%d\\0A\\00\"
declare i32 @printf(i8*, ...)
define void @printInt(i32 %x) {
\t%t0 = getelementptr [4 x i8], [4 x i8]* @dnl, i32 0, i32 0
\tcall i32 (i8*, ...) @printf(i8* %t0, i32 %x)
\tret void
}";

fn jvm_compile(src: &str) -> String {
    let program = parse::<NodeData>(src).expect("parse failed");
    let mut compiler = JVMCompiler::new();
    compiler.compile("test.lat", program)
}

fn llvm_compile(src: &str) -> String {
    let program = parse::<()>(src).expect("parse failed");
    let mut compiler = LLVMCompiler::new();
    compiler.compile("test.lat", program)
}

fn jvm_expected(stack: u32, locals: u32, body: &[&str]) -> String {
    let mut chunks: Vec<String> = vec![
        ".class public test".to_string(),
        ".super java/lang/Object\n".to_string(),
        INIT_BLOCK.to_string(),
        "\n.method public static main([Ljava/lang/String;)V".to_string(),
        format!(".limit stack {stack}\n.limit locals {locals}"),
    ];
    for line in body {
        chunks.push(line.to_string());
    }
    chunks.push("\treturn\n.end method".to_string());
    chunks.join("\n")
}

#[test]
fn scenario_add_two_literals_jvm() {
    let src = "Prog Nothing [SExp (Just (1,1)) (ExpAdd (Just (1,1)) (ExpLit (Just (1,1)) 2) (ExpLit (Just (1,1)) 3))]";
    let out = jvm_compile(src);
    let expected = jvm_expected(
        2,
        1,
        &[
            "\ticonst_2",
            "\ticonst_3",
            "\tiadd",
            "\tgetstatic java/lang/System/out Ljava/io/PrintStream;",
            "\tswap",
            "\tinvokevirtual java/io/PrintStream/println(I)V",
        ],
    );
    assert_eq!(out, expected);
}

#[test]
fn scenario_add_two_literals_llvm() {
    let src = "Prog Nothing [SExp (Just (1,1)) (ExpAdd (Just (1,1)) (ExpLit (Just (1,1)) 2) (ExpLit (Just (1,1)) 3))]";
    let out = llvm_compile(src);
    let expected = [
        PRINT_INT_DEF,
        "define i32 @main() {",
        "\t%t1 = add i32 2, 3",
        "\tcall void @printInt(i32 %t1)",
        "\tret i32 0\n}",
    ]
    .join("\n");
    assert_eq!(out, expected);
}

#[test]
fn parse_accepts_program_position() {
    let src = "Prog (Just (7,8)) [SExp (Just (1,1)) (ExpLit (Just (1,1)) 0)]";
    let program = parse::<()>(src).expect("parse failed");
    let Program::Stmts(stmts) = program;
    assert_eq!(stmts.len(), 1);
}

#[test]
fn parse_structure_matches_input() {
    let src = "Prog Nothing [SAss (Just (1,1)) (Ident \"x\") (ExpLit (Just (1,2)) 4), SExp (Just (2,1)) (ExpVar (Just (2,2)) (Ident \"x\"))]";
    let program = parse::<()>(src).expect("parse failed");
    let Program::Stmts(stmts) = program;
    assert_eq!(stmts.len(), 2);
    match &stmts[0].0 {
        Stmt::Assign(name, expr) => {
            assert_eq!(name, "x");
            match &expr.0 {
                Expr::Literal(Literal::Num(n)) => assert_eq!(*n, 4),
                _ => panic!("expected a literal"),
            }
        }
        _ => panic!("expected an assignment"),
    }
    match &stmts[1].0 {
        Stmt::Expr(expr) => match &expr.0 {
            Expr::Ident(name) => assert_eq!(name, "x"),
            _ => panic!("expected a variable reference"),
        },
        _ => panic!("expected an expression statement"),
    }
    assert_eq!(stmts[0].1.line, 1);
    assert_eq!(stmts[0].1.col, 1);
    assert_eq!(stmts[1].1.line, 2);
}

#[test]
fn parse_is_deterministic() {
    let src = "Prog Nothing [SExp (Just (1,1)) (ExpMul (Just (1,1)) (ExpLit (Just (1,1)) 6) (ExpLit (Just (1,1)) 7))]";
    let a = jvm_compile(src);
    let b = jvm_compile(src);
    assert_eq!(a, b);
}

#[test]
fn parse_ignores_whitespace() {
    let compact = "Prog Nothing [SExp (Just (1,1)) (ExpLit (Just (1,1)) 9)]";
    let spread = "Prog  Nothing \n [ SExp ( Just ( 1 , 1 ) ) ( ExpLit ( Just ( 1 , 1 ) ) 9 ) ]\n";
    assert_eq!(jvm_compile(compact), jvm_compile(spread));
}

#[test]
fn parse_rejects_malformed_input() {
    let err = parse::<()>("Prog Nothing [SExp").expect_err("should fail");
    assert!(err.pos.line >= 1);
    assert!(err.pos.col >= 1);
    assert_eq!(err.msg, "syntax error");
}

#[test]
fn parse_rejects_missing_inner_position() {
    // A missing position is tolerated only at the program level.
    let err = parse::<()>("Prog Nothing [SExp Nothing (ExpLit (Just (1,1)) 1)]")
        .expect_err("should fail");
    assert!(err.pos.line >= 1);
}

#[test]
fn parse_rejects_oversized_number() {
    let err = parse::<()>(
        "Prog Nothing [SExp (Just (1,1)) (ExpLit (Just (1,1)) 99999999999999999999)]",
    )
    .expect_err("should fail");
    assert!(err.pos.line >= 1);
}

#[test]
fn parse_empty_statement_list() {
    let out = llvm_compile("Prog Nothing []");
    let expected = ["define i32 @main() {", "\tret i32 0\n}"].join("\n");
    assert_eq!(out, expected);
}

#[test]
fn depth_left_chain_stays_flat() {
    // ((1 + 2) + 3) + 4: a left-deep chain keeps the stack limit at 2.
    let src = "Prog Nothing [SExp (Just (1,1)) (ExpAdd (Just (1,1)) (ExpAdd (Just (1,1)) (ExpAdd (Just (1,1)) (ExpLit (Just (1,1)) 1) (ExpLit (Just (1,1)) 2)) (ExpLit (Just (1,1)) 3)) (ExpLit (Just (1,1)) 4))]";
    let mut program = parse::<NodeData>(src).expect("parse failed");
    let limit = JVMCompiler::compute_stack_size(&mut program);
    assert_eq!(limit, 2);
}

#[test]
fn depth_balanced_tree_grows() {
    // (1 + 2) + (3 + 4): both operands need 2 cells, so the root needs 3.
    let src = "Prog Nothing [SAss (Just (1,1)) (Ident \"x\") (ExpAdd (Just (1,1)) (ExpAdd (Just (1,1)) (ExpLit (Just (1,1)) 1) (ExpLit (Just (1,1)) 2)) (ExpAdd (Just (1,1)) (ExpLit (Just (1,1)) 3) (ExpLit (Just (1,1)) 4)))]";
    let mut program = parse::<NodeData>(src).expect("parse failed");
    let limit = JVMCompiler::compute_stack_size(&mut program);
    assert_eq!(limit, 3);
}

#[test]
fn commutative_never_swaps() {
    // Addition with the deeper operand on the right: evaluation is
    // reordered but no swap instruction is emitted.
    let src = "Prog Nothing [SAss (Just (1,1)) (Ident \"x\") (ExpAdd (Just (1,1)) (ExpLit (Just (1,1)) 1) (ExpAdd (Just (1,1)) (ExpLit (Just (1,1)) 2) (ExpLit (Just (1,1)) 3)))]";
    let out = jvm_compile(src);
    let expected = jvm_expected(
        2,
        2,
        &["\ticonst_2", "\ticonst_3", "\tiadd", "\ticonst_1", "\tiadd", "\tistore_1"],
    );
    assert_eq!(out, expected);
}

#[test]
fn subtraction_swaps_when_deeper_operand_is_right() {
    let src = "Prog Nothing [SAss (Just (1,1)) (Ident \"x\") (ExpSub (Just (1,1)) (ExpLit (Just (1,1)) 1) (ExpSub (Just (1,1)) (ExpLit (Just (1,1)) 2) (ExpLit (Just (1,1)) 3)))]";
    let out = jvm_compile(src);
    let expected = jvm_expected(
        2,
        2,
        &["\ticonst_2", "\ticonst_3", "\tisub", "\ticonst_1", "swap", "\tisub", "\tistore_1"],
    );
    assert_eq!(out, expected);
}

#[test]
fn subtraction_does_not_swap_when_deeper_operand_is_left() {
    let src = "Prog Nothing [SAss (Just (1,1)) (Ident \"x\") (ExpSub (Just (1,1)) (ExpSub (Just (1,1)) (ExpLit (Just (1,1)) 2) (ExpLit (Just (1,1)) 3)) (ExpLit (Just (1,1)) 1))]";
    let out = jvm_compile(src);
    let expected = jvm_expected(
        2,
        2,
        &["\ticonst_2", "\ticonst_3", "\tisub", "\ticonst_1", "\tisub", "\tistore_1"],
    );
    assert_eq!(out, expected);
}

#[test]
fn slots_in_first_write_order() {
    let src = "Prog Nothing [SAss (Just (1,1)) (Ident \"a\") (ExpLit (Just (1,1)) 1), SAss (Just (2,1)) (Ident \"b\") (ExpLit (Just (2,1)) 2), SAss (Just (3,1)) (Ident \"a\") (ExpLit (Just (3,1)) 3), SExp (Just (4,1)) (ExpVar (Just (4,1)) (Ident \"b\"))]";
    let out = jvm_compile(src);
    let expected = jvm_expected(
        2,
        3,
        &[
            "\ticonst_1",
            "\tistore_1",
            "\ticonst_2",
            "\tistore_2",
            "\ticonst_3",
            "\tistore_1",
            "\tiload_2",
            "\tgetstatic java/lang/System/out Ljava/io/PrintStream;",
            "\tswap",
            "\tinvokevirtual java/io/PrintStream/println(I)V",
        ],
    );
    assert_eq!(out, expected);
}

#[test]
fn push_forms_follow_value_size() {
    let src = "Prog Nothing [SAss (Just (1,1)) (Ident \"a\") (ExpLit (Just (1,1)) 5), SAss (Just (2,1)) (Ident \"b\") (ExpLit (Just (2,1)) 100), SAss (Just (3,1)) (Ident \"c\") (ExpLit (Just (3,1)) 30000), SAss (Just (4,1)) (Ident \"d\") (ExpLit (Just (4,1)) 70000)]";
    let out = jvm_compile(src);
    let expected = jvm_expected(
        1,
        5,
        &[
            "\ticonst_5",
            "\tistore_1",
            "\tbipush 100",
            "\tistore_2",
            "\tsipush 30000",
            "\tistore_3",
            "\tldc 70000",
            "\tistore 4",
        ],
    );
    assert_eq!(out, expected);
}

#[test]
fn undefined_variable_reads_zero_jvm() {
    let src = "Prog Nothing [SExp (Just (1,1)) (ExpVar (Just (1,1)) (Ident \"nope\"))]";
    let out = jvm_compile(src);
    let expected = jvm_expected(
        2,
        1,
        &[
            "\ticonst_0",
            "\tgetstatic java/lang/System/out Ljava/io/PrintStream;",
            "\tswap",
            "\tinvokevirtual java/io/PrintStream/println(I)V",
        ],
    );
    assert_eq!(out, expected);
}

#[test]
fn undefined_variable_reads_zero_llvm() {
    let src = "Prog Nothing [SExp (Just (1,1)) (ExpVar (Just (1,1)) (Ident \"nope\"))]";
    let out = llvm_compile(src);
    let expected = [
        PRINT_INT_DEF,
        "define i32 @main() {",
        "\tcall void @printInt(i32 0)",
        "\tret i32 0\n}",
    ]
    .join("\n");
    assert_eq!(out, expected);
}

#[test]
fn print_helper_omitted_without_prints() {
    let src = "Prog Nothing [SAss (Just (1,1)) (Ident \"x\") (ExpLit (Just (1,1)) 5)]";
    let out = llvm_compile(src);
    let expected = ["define i32 @main() {", "\t%t1 = add i32 0, 5", "\tret i32 0\n}"].join("\n");
    assert_eq!(out, expected);
    assert!(!out.contains("@dnl"));
}

#[test]
fn print_helper_emitted_once_for_many_prints() {
    let src = "Prog Nothing [SExp (Just (1,1)) (ExpLit (Just (1,1)) 1), SExp (Just (2,1)) (ExpLit (Just (2,1)) 2), SExp (Just (3,1)) (ExpLit (Just (3,1)) 3)]";
    let out = llvm_compile(src);
    assert_eq!(out.matches("@dnl = internal constant").count(), 1);
    assert_eq!(out.matches("define void @printInt").count(), 1);
    assert_eq!(out.matches("\tcall void @printInt").count(), 3);
}

#[test]
fn llvm_variables_resolve_to_registers() {
    let src = "Prog Nothing [SAss (Just (1,1)) (Ident \"x\") (ExpLit (Just (1,1)) 7), SAss (Just (2,1)) (Ident \"y\") (ExpAdd (Just (2,1)) (ExpVar (Just (2,1)) (Ident \"x\")) (ExpLit (Just (2,1)) 1)), SExp (Just (3,1)) (ExpVar (Just (3,1)) (Ident \"y\"))]";
    let out = llvm_compile(src);
    let expected = [
        PRINT_INT_DEF,
        "define i32 @main() {",
        "\t%t1 = add i32 0, 7",
        "\t%t2 = add i32 %t1, 1",
        "\tcall void @printInt(i32 %t2)",
        "\tret i32 0\n}",
    ]
    .join("\n");
    assert_eq!(out, expected);
}

#[test]
fn llvm_division_uses_sdiv() {
    let src = "Prog Nothing [SExp (Just (1,1)) (ExpDiv (Just (1,1)) (ExpLit (Just (1,1)) 8) (ExpLit (Just (1,1)) 2))]";
    let out = llvm_compile(src);
    assert!(out.contains("\t%t1 = sdiv i32 8, 2"));
}

#[test]
fn classname_strips_extension_only() {
    let src = "Prog Nothing []";
    let program = parse::<NodeData>(src).expect("parse failed");
    let mut compiler = JVMCompiler::new();
    let out = compiler.compile("dir/sample.lat", program);
    assert!(out.starts_with(".class public dir/sample\n"));
}

#[test]
fn depth_analysis_annotates_in_place() {
    let pos = LineCol { line: 1, col: 1 };
    let leaf = |n: i64| {
        (
            Expr::Literal(Literal::Num(n)),
            pos,
            NodeData { stack_size: 0 },
        )
    };
    let mut expr = (
        Expr::Binary(BinaryOp::Add, Box::new(leaf(1)), Box::new(leaf(2))),
        pos,
        NodeData { stack_size: 0 },
    );
    let depth = JVMCompiler::compute_stack_size_for_expr(&mut expr);
    assert_eq!(depth, 2);
    assert_eq!(expr.2.stack_size, 2);
    match &expr.0 {
        Expr::Binary(_, l, r) => {
            assert_eq!(l.2.stack_size, 1);
            assert_eq!(r.2.stack_size, 1);
        }
        _ => panic!("expected a binary node"),
    }
}

#[test]
fn identifiers_may_hold_any_character_but_a_quote() {
    let src = "Prog Nothing [SAss (Just (1,1)) (Ident \"zażółć gęślą\") (ExpLit (Just (1,1)) 1), SExp (Just (2,1)) (ExpVar (Just (2,1)) (Ident \"zażółć gęślą\"))]";
    let out = jvm_compile(src);
    assert!(out.contains("\tistore_1"));
    assert!(out.contains("\tiload_1"));
}

#[test]
fn empty_identifier_is_a_name_of_its_own() {
    let src = "Prog Nothing [SAss (Just (1,1)) (Ident \"\") (ExpLit (Just (1,1)) 3), SExp (Just (2,1)) (ExpVar (Just (2,1)) (Ident \"\"))]";
    let out = jvm_compile(src);
    assert!(out.contains("\tiload_1"));
}

#[test]
fn parse_rejects_trailing_text() {
    let err = parse::<()>("Prog Nothing [] trailing").expect_err("should fail");
    assert_eq!(err.pos.line, 1);
    assert_eq!(err.pos.col, 17);
}

#[test]
fn error_position_counts_lines() {
    let err = parse::<()>("Prog Nothing\n[SExp]").expect_err("should fail");
    assert_eq!(err.pos.line, 2);
}

#[test]
fn size_checks_accept_ordinary_programs() {
    let src = "Prog Nothing [SExp (Just (1,1)) (ExpAdd (Just (1,1)) (ExpLit (Just (1,1)) 2) (ExpLit (Just (1,1)) 3))]";
    let jvm_program = parse::<NodeData>(src).expect("parse failed");
    assert!(JVMCompiler::program_fits(&jvm_program));
    let llvm_program = parse::<()>(src).expect("parse failed");
    assert!(instant_backend::llvm::LLVMCompiler::program_fits(&llvm_program));
}

#[test]
fn decimal_rendering() {
    assert_eq!(u64_to_dec(0), "0");
    assert_eq!(u64_to_dec(42), "42");
    assert_eq!(u64_to_dec(9007199254740993), "9007199254740993");
    assert_eq!(i64_to_dec(-45), "-45");
    assert_eq!(i64_to_dec(i64::MIN), "-9223372036854775808");
    assert_eq!(i64_to_dec(i64::MAX), "9223372036854775807");
}
