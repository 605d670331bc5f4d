//! Register-style IR back end.
//!
//! Expressions evaluate to either an immediate value or a freshly
//! numbered virtual register; both are used directly as textual
//! operands, so literals cost no instruction.  A variable is bound to
//! the register holding its value (an immediate is first materialised
//! through an add-with-zero), and reading an unbound name yields the
//! immediate zero.  The runtime print-helper declaration block is
//! prepended once, and only if some statement prints.

use vstd::prelude::*;

use crate::common::dec_int;
use crate::common::dec_nat;
use crate::common::i64_to_dec;
use crate::common::join_lines;
use crate::common::join_newlines;
use crate::common::str_eq;
use crate::common::u64_to_dec;
use crate::common::Enriched;
use crate::compiler::Compiler;
use crate::parser::expr_view;
use crate::parser::program_view;
use crate::parser::stmt_view;
use crate::parser::stmts_views;
use crate::parser::BinaryOp;
use crate::parser::Expr;
use crate::parser::ExprView;
use crate::parser::Literal;
use crate::parser::Program;
use crate::parser::Stmt;
use crate::parser::StmtView;

verus! {

/// The variable environment's shape: newest binding first.
pub type EnvView = Seq<(Seq<char>, Seq<char>)>;

/// What evaluating an expression yields: a virtual register holding
/// its value, or an immediate value usable directly as an operand.
enum ExprResult {
    Register(String),
    Value(i64),
}

/// The shape of an expression's evaluation result.
pub enum ExprResultView {
    Reg(Seq<char>),
    Val(int),
}

/// The shape of an evaluation result.
spec fn expr_result_view(r: ExprResult) -> ExprResultView {
    match r {
        ExprResult::Register(s) => ExprResultView::Reg(s@),
        ExprResult::Value(v) => ExprResultView::Val(v as int),
    }
}

/// The text an operand contributes to an instruction.
pub open spec fn operand_text(r: ExprResultView) -> Seq<char> {
    match r {
        ExprResultView::Reg(s) => s,
        ExprResultView::Val(v) => dec_int(v),
    }
}

/// The name of the `k`-th virtual register.
pub open spec fn reg_name(k: int) -> Seq<char> {
    "%t"@ + dec_nat(k)
}

/// The register a name is bound to, if any: the newest binding wins.
pub open spec fn env_lookup(env: EnvView, name: Seq<char>) -> Option<Seq<char>>
    decreases env.len(),
{
    if env.len() == 0 {
        None
    } else if env[0].0 == name {
        Some(env[0].1)
    } else {
        env_lookup(env.drop_first(), name)
    }
}

/// Bind a name to a register, shadowing any earlier binding.
pub open spec fn env_update(env: EnvView, name: Seq<char>, reg: Seq<char>) -> EnvView {
    seq![(name, reg)] + env
}

/// The instruction name for an operator.
pub open spec fn llvm_op_name(op: BinaryOp) -> Seq<char> {
    match op {
        BinaryOp::Add => "add"@,
        BinaryOp::Sub => "sub"@,
        BinaryOp::Mul => "mul"@,
        BinaryOp::Div => "sdiv"@,
    }
}

/// A three-address combining instruction.
pub open spec fn instr_line(op: BinaryOp, reg: Seq<char>, l: Seq<char>, r: Seq<char>) -> Seq<
    char,
> {
    "\t"@ + reg + " = "@ + llvm_op_name(op) + " i32 "@ + l + ", "@ + r
}

/// A call of the runtime print helper on an operand.
pub open spec fn call_print_line(v: Seq<char>) -> Seq<char> {
    "\tcall void @printInt(i32 "@ + v + ")"@
}

/// The print-helper declaration block.
pub open spec fn print_int_def() -> Seq<char> {
    "@dnl = internal constant [4 x i8] c\"%d\\0A\\00\"\ndeclare i32 @printf(i8*, ...)\ndefine void @printInt(i32 %x) {\n\t%t0 = getelementptr [4 x i8], [4 x i8]* @dnl, i32 0, i32 0\n\tcall i32 (i8*, ...) @printf(i8* %t0, i32 %x)\n\tret void\n}"@
}

/// How many registers evaluating an expression allocates: one per
/// binary node.
pub open spec fn expr_regs(v: ExprView) -> nat
    decreases v,
{
    match v {
        ExprView::Ident(_, _) => 0,
        ExprView::Lit(_, _) => 0,
        ExprView::Binary(_, _, l, r) => expr_regs(*l) + expr_regs(*r) + 1,
    }
}

/// How many registers a statement may allocate.
pub open spec fn stmt_regs(v: StmtView) -> nat {
    match v {
        StmtView::Expr(_, e) => expr_regs(e),
        StmtView::Assign(_, _, e) => expr_regs(e) + 1,
    }
}

/// How many registers a program may allocate.
pub open spec fn program_regs(p: Seq<StmtView>) -> nat
    decreases p.len(),
{
    if p.len() == 0 {
        0
    } else {
        stmt_regs(p[0]) + program_regs(p.drop_first())
    }
}

/// The lines, result and new register counter from evaluating an
/// expression: a literal is an immediate; a bound name is its
/// register and an unbound one the immediate zero; a binary node
/// evaluates both operands in source order and combines them into a
/// fresh register.
pub open spec fn expr_gen(v: ExprView, env: EnvView, counter: int) -> (
    Seq<Seq<char>>,
    ExprResultView,
    int,
)
    decreases v,
{
    match v {
        ExprView::Lit(_, n) => (Seq::empty(), ExprResultView::Val(n), counter),
        ExprView::Ident(_, name) => match env_lookup(env, name) {
            Some(reg) => (Seq::empty(), ExprResultView::Reg(reg), counter),
            None => (Seq::empty(), ExprResultView::Val(0), counter),
        },
        ExprView::Binary(_, op, l, r) => {
            let (lc, lres, c1) = expr_gen(*l, env, counter);
            let (rc, rres, c2) = expr_gen(*r, env, c1);
            let reg = reg_name(c2 + 1);
            (
                lc + rc + seq![instr_line(op, reg, operand_text(lres), operand_text(rres))],
                ExprResultView::Reg(reg),
                c2 + 1,
            )
        },
    }
}

/// Evaluating an expression advances the register counter by exactly
/// its register count.
proof fn lemma_expr_gen_counter(v: ExprView, env: EnvView, counter: int)
    ensures
        expr_gen(v, env, counter).2 == counter + expr_regs(v),
    decreases v,
{
    match v {
        ExprView::Binary(_, _, l, r) => {
            lemma_expr_gen_counter(*l, env, counter);
            lemma_expr_gen_counter(*r, env, expr_gen(*l, env, counter).2);
        },
        _ => {},
    }
}

/// The lines, environment and counter from one statement: a bare
/// expression's result is printed; an assignment binds the name to a
/// register, materialising an immediate through an add with zero.
pub open spec fn stmt_gen(v: StmtView, env: EnvView, counter: int) -> (
    Seq<Seq<char>>,
    EnvView,
    int,
) {
    match v {
        StmtView::Expr(_, e) => {
            let (code, res, c1) = expr_gen(e, env, counter);
            (code + seq![call_print_line(operand_text(res))], env, c1)
        },
        StmtView::Assign(_, name, e) => {
            let (code, res, c1) = expr_gen(e, env, counter);
            match res {
                ExprResultView::Val(v) => {
                    let reg = reg_name(c1 + 1);
                    (
                        code + seq![instr_line(BinaryOp::Add, reg, "0"@, dec_int(v))],
                        env_update(env, name, reg),
                        c1 + 1,
                    )
                },
                ExprResultView::Reg(r) => (code, env_update(env, name, r), c1),
            }
        },
    }
}

/// A statement advances the register counter by at most its register
/// count.
proof fn lemma_stmt_gen_counter(v: StmtView, env: EnvView, counter: int)
    ensures
        counter <= stmt_gen(v, env, counter).2 <= counter + stmt_regs(v),
{
    match v {
        StmtView::Expr(_, e) => {
            lemma_expr_gen_counter(e, env, counter);
        },
        StmtView::Assign(_, _, e) => {
            lemma_expr_gen_counter(e, env, counter);
        },
    }
}

/// The lines, environment and counter from a statement sequence.
pub open spec fn stmts_gen(p: Seq<StmtView>, env: EnvView, counter: int) -> (
    Seq<Seq<char>>,
    EnvView,
    int,
)
    decreases p.len(),
{
    if p.len() == 0 {
        (Seq::empty(), env, counter)
    } else {
        let (code, env1, c1) = stmt_gen(p[0], env, counter);
        let (rest, env2, c2) = stmts_gen(p.drop_first(), env1, c1);
        (code + rest, env2, c2)
    }
}

/// Appending a statement appends its lines, generated in the
/// environment and at the counter the earlier statements produce.
proof fn lemma_stmts_gen_push(p: Seq<StmtView>, x: StmtView, env: EnvView, counter: int)
    ensures
        ({
            let (code, env1, c1) = stmts_gen(p, env, counter);
            let (xc, env2, c2) = stmt_gen(x, env1, c1);
            stmts_gen(p.push(x), env, counter) == (code + xc, env2, c2)
        }),
    decreases p.len(),
{
    reveal_with_fuel(stmts_gen, 3);
    if p.len() == 0 {
        assert(p.push(x)[0] == x);
        assert(p.push(x).drop_first() =~= Seq::<StmtView>::empty());
        let (code, env1, c1) = stmts_gen(p, env, counter);
        let (xc, env2, c2) = stmt_gen(x, env1, c1);
        assert(stmts_gen(p.push(x), env, counter).0 =~= code + xc);
    } else {
        assert(p.push(x)[0] == p[0]);
        assert(p.push(x).drop_first() =~= p.drop_first().push(x));
        let (c0, env1, c1) = stmt_gen(p[0], env, counter);
        lemma_stmts_gen_push(p.drop_first(), x, env1, c1);
        let (code, enva, ca) = stmts_gen(p, env, counter);
        let (xc, env2, c2) = stmt_gen(x, enva, ca);
        assert(stmts_gen(p.push(x), env, counter).0 =~= code + xc);
    }
}

/// Does some statement print?
pub open spec fn has_print(p: Seq<StmtView>) -> bool {
    exists|i: int| 0 <= i < p.len() && #[trigger] p[i] is Expr
}

/// The text chunks of a program's output: the print-helper
/// declaration block exactly when some statement prints, the
/// entry-point header, the statements' instructions, and the trailing
/// return.
pub open spec fn llvm_chunks(p: Seq<StmtView>) -> Seq<Seq<char>> {
    (if has_print(p) {
        seq![print_int_def()]
    } else {
        Seq::<Seq<char>>::empty()
    }) + seq!["define i32 @main() {"@] + stmts_gen(p, Seq::empty(), 0).0 + seq!["\tret i32 0\n}"@]
}

/// The whole target text for a program.
pub open spec fn llvm_output(p: Seq<StmtView>) -> Seq<char> {
    join_lines(llvm_chunks(p))
}

/// Every line an expression emits begins with a tab.
proof fn lemma_expr_lines_tab(v: ExprView, env: EnvView, counter: int)
    ensures
        forall|k: int|
            0 <= k < expr_gen(v, env, counter).0.len() ==> (#[trigger] expr_gen(
                v,
                env,
                counter,
            ).0[k]).len() > 0 && expr_gen(v, env, counter).0[k][0] == '\t',
    decreases v,
{
    reveal_strlit("\t");
    match v {
        ExprView::Binary(_, op, l, r) => {
            lemma_expr_lines_tab(*l, env, counter);
            lemma_expr_lines_tab(*r, env, expr_gen(*l, env, counter).2);
            let lc = expr_gen(*l, env, counter).0;
            let c1 = expr_gen(*l, env, counter).2;
            let rc = expr_gen(*r, env, c1).0;
            let all = expr_gen(v, env, counter).0;
            assert forall|k: int| 0 <= k < all.len() implies (#[trigger] all[k]).len() > 0
                && all[k][0] == '\t' by {
                if k < lc.len() {
                    assert(all[k] == lc[k]);
                } else if k < lc.len() + rc.len() {
                    assert(all[k] == rc[k - lc.len()]);
                } else {
                    assert(all[k][0] == "\t"@[0]);
                }
            }
        },
        _ => {},
    }
}

/// Every line a statement emits begins with a tab.
proof fn lemma_stmt_lines_tab(v: StmtView, env: EnvView, counter: int)
    ensures
        forall|k: int|
            0 <= k < stmt_gen(v, env, counter).0.len() ==> (#[trigger] stmt_gen(
                v,
                env,
                counter,
            ).0[k]).len() > 0 && stmt_gen(v, env, counter).0[k][0] == '\t',
{
    reveal_strlit("\t");
    reveal_strlit("\tcall void @printInt(i32 ");
    match v {
        StmtView::Expr(_, e) => {
            lemma_expr_lines_tab(e, env, counter);
            let code = expr_gen(e, env, counter).0;
            let all = stmt_gen(v, env, counter).0;
            assert forall|k: int| 0 <= k < all.len() implies (#[trigger] all[k]).len() > 0
                && all[k][0] == '\t' by {
                if k < code.len() {
                    assert(all[k] == code[k]);
                } else {
                    assert(all[k][0] == "\tcall void @printInt(i32 "@[0]);
                }
            }
        },
        StmtView::Assign(_, _, e) => {
            lemma_expr_lines_tab(e, env, counter);
            let code = expr_gen(e, env, counter).0;
            let all = stmt_gen(v, env, counter).0;
            assert forall|k: int| 0 <= k < all.len() implies (#[trigger] all[k]).len() > 0
                && all[k][0] == '\t' by {
                if k < code.len() {
                    assert(all[k] == code[k]);
                } else {
                    assert(all[k][0] == "\t"@[0]);
                }
            }
        },
    }
}

/// Every line the statements emit begins with a tab.
proof fn lemma_stmts_lines_tab(p: Seq<StmtView>, env: EnvView, counter: int)
    ensures
        forall|k: int|
            0 <= k < stmts_gen(p, env, counter).0.len() ==> (#[trigger] stmts_gen(
                p,
                env,
                counter,
            ).0[k]).len() > 0 && stmts_gen(p, env, counter).0[k][0] == '\t',
    decreases p.len(),
{
    if p.len() > 0 {
        let (code, env1, c1) = stmt_gen(p[0], env, counter);
        lemma_stmt_lines_tab(p[0], env, counter);
        lemma_stmts_lines_tab(p.drop_first(), env1, c1);
        let rest = stmts_gen(p.drop_first(), env1, c1).0;
        let all = stmts_gen(p, env, counter).0;
        assert forall|k: int| 0 <= k < all.len() implies (#[trigger] all[k]).len() > 0
            && all[k][0] == '\t' by {
            if k < code.len() {
                assert(all[k] == code[k]);
            } else {
                assert(all[k] == rest[k - code.len()]);
            }
        }
    }
}

/// The print-helper declaration block stands in the output exactly
/// when some statement prints, and then exactly once, however many
/// print calls occur: it is the first chunk, and no other chunk
/// equals it.
pub proof fn lemma_print_helper_once(p: Seq<StmtView>)
    ensures
        has_print(p) ==> llvm_chunks(p)[0] == print_int_def() && (forall|k: int|
            1 <= k < llvm_chunks(p).len() ==> llvm_chunks(p)[k] != print_int_def()),
        !has_print(p) ==> (forall|k: int|
            0 <= k < llvm_chunks(p).len() ==> llvm_chunks(p)[k] != print_int_def()),
{
    reveal_strlit("define i32 @main() {");
    reveal_strlit("\tret i32 0\n}");
    reveal_strlit(
        "@dnl = internal constant [4 x i8] c\"%d\\0A\\00\"\ndeclare i32 @printf(i8*, ...)\ndefine void @printInt(i32 %x) {\n\t%t0 = getelementptr [4 x i8], [4 x i8]* @dnl, i32 0, i32 0\n\tcall i32 (i8*, ...) @printf(i8* %t0, i32 %x)\n\tret void\n}",
    );
    lemma_stmts_lines_tab(p, Seq::empty(), 0);
    let chunks = llvm_chunks(p);
    let body = stmts_gen(p, Seq::<(Seq<char>, Seq<char>)>::empty(), 0).0;
    assert(print_int_def()[0] == '@');
    assert("define i32 @main() {"@[0] == 'd');
    assert("\tret i32 0\n}"@[0] == '\t');
    if has_print(p) {
        assert(chunks[0] == print_int_def());
        assert forall|k: int| 1 <= k < chunks.len() implies chunks[k] != print_int_def() by {
            if k == 1 {
                assert(chunks[k] == "define i32 @main() {"@);
            } else if k < 2 + body.len() {
                assert(chunks[k] == body[k - 2]);
            } else {
                assert(chunks[k] == "\tret i32 0\n}"@);
            }
        }
    } else {
        assert forall|k: int| 0 <= k < chunks.len() implies chunks[k] != print_int_def() by {
            if k == 0 {
                assert(chunks[k] == "define i32 @main() {"@);
            } else if k < 1 + body.len() {
                assert(chunks[k] == body[k - 1]);
            } else {
                assert(chunks[k] == "\tret i32 0\n}"@);
            }
        }
    }
}

/// Reading a name that was never bound evaluates to the immediate
/// zero, without error and without emitting an instruction.
pub proof fn lemma_undefined_var_zero(
    pos: crate::common::LineCol,
    name: Seq<char>,
    env: EnvView,
    counter: int,
)
    requires
        env_lookup(env, name) is None,
    ensures
        expr_gen(ExprView::Ident(pos, name), env, counter) == (
            Seq::<Seq<char>>::empty(),
            ExprResultView::Val(0),
            counter,
        ),
{
}

/// The registers an expression allocates, or nothing where the count
/// exceeds the register counter's type.
fn expr_regs_checked<D>(e: &Enriched<Expr<D>, D>) -> (r: Option<i64>)
    ensures
        match r {
            Some(n) => n as int == expr_regs(expr_view(*e)) && n >= 0,
            None => expr_regs(expr_view(*e)) > i64::MAX,
        },
    decreases *e,
{
    match &e.0 {
        Expr::Ident(_) => Some(0),
        Expr::Literal(_) => Some(0),
        Expr::Binary(_, l, r) => {
            let ghost v = expr_view(*e);
            proof {
                assert(v is Binary);
                assert(*v->Binary_2 == expr_view(**l));
                assert(*v->Binary_3 == expr_view(**r));
                assert(expr_regs(v) >= expr_regs(expr_view(**l)));
                assert(expr_regs(v) >= expr_regs(expr_view(**r)));
            }
            match expr_regs_checked(&**l) {
                None => None,
                Some(a) => match expr_regs_checked(&**r) {
                    None => None,
                    Some(b) => {
                        if a > i64::MAX - b - 1 {
                            None
                        } else {
                            Some(a + b + 1)
                        }
                    },
                },
            }
        },
    }
}

/// The registers a statement may allocate, or nothing where the count
/// exceeds the register counter's type.
fn stmt_regs_checked(s: &Enriched<Stmt<()>, ()>) -> (r: Option<i64>)
    ensures
        match r {
            Some(n) => n as int == stmt_regs(stmt_view(*s)) && n >= 0,
            None => stmt_regs(stmt_view(*s)) > i64::MAX,
        },
{
    match &s.0 {
        Stmt::Expr(e) => expr_regs_checked(&**e),
        Stmt::Assign(_, e) => match expr_regs_checked(&**e) {
            None => None,
            Some(n) => {
                if n == i64::MAX {
                    None
                } else {
                    Some(n + 1)
                }
            },
        },
    }
}

// ========================== the code generator =========================

impl ExprResult {
    /// The result's spelling as an instruction operand.
    fn render(&self) -> (r: String)
        ensures
            r@ == operand_text(expr_result_view(*self)),
    {
        match self {
            ExprResult::Register(s) => s.clone(),
            ExprResult::Value(v) => i64_to_dec(*v),
        }
    }
}

/// The register-target code generator: an append-only buffer of
/// emitted lines, the variable-to-register binding environment, the
/// register counter, and whether a print was emitted.
pub struct LLVMCompiler {
    chunks: Vec<String>,
    env: Vec<(String, String)>,
    register_counter: i64,
    print_int_required: bool,
}

impl LLVMCompiler {
    /// The lines emitted so far.
    pub closed spec fn lines(&self) -> Seq<Seq<char>> {
        self.chunks.deep_view()
    }

    /// The binding environment's shape, newest binding first.
    pub closed spec fn env_view(&self) -> EnvView {
        self.env@.map(|i: int, p: (String, String)| (p.0@, p.1@))
    }

    /// The register counter.
    pub closed spec fn counter(&self) -> int {
        self.register_counter as int
    }

    /// Whether a print-helper call was emitted.
    pub closed spec fn print_required(&self) -> bool {
        self.print_int_required
    }

    pub fn new() -> (r: Self)
        ensures
            r.lines() == Seq::<Seq<char>>::empty(),
            r.env_view() == Seq::<(Seq<char>, Seq<char>)>::empty(),
            r.counter() == 0,
            !r.print_required(),
    {
        let r = LLVMCompiler {
            chunks: Vec::new(),
            env: Vec::new(),
            register_counter: 0,
            print_int_required: false,
        };
        proof {
            assert(r.lines() =~= Seq::<Seq<char>>::empty());
            assert(r.env_view() =~= Seq::<(Seq<char>, Seq<char>)>::empty());
        }
        r
    }

    /// Clear all generator state for a fresh compilation.
    fn reset(&mut self)
        ensures
            final(self).lines() == Seq::<Seq<char>>::empty(),
            final(self).env_view() == Seq::<(Seq<char>, Seq<char>)>::empty(),
            final(self).counter() == 0,
            !final(self).print_required(),
    {
        self.chunks = Vec::new();
        self.env = Vec::new();
        self.register_counter = 0;
        self.print_int_required = false;
        proof {
            assert(self.lines() =~= Seq::<Seq<char>>::empty());
            assert(self.env_view() =~= Seq::<(Seq<char>, Seq<char>)>::empty());
        }
    }

    /// Append one emitted line.
    fn emit(&mut self, line: String)
        ensures
            final(self).lines() == old(self).lines().push(line@),
            final(self).env_view() == old(self).env_view(),
            final(self).counter() == old(self).counter(),
            final(self).print_required() == old(self).print_required(),
    {
        self.chunks.push(line);
        proof {
            assert(self.lines() =~= old(self).lines().push(line@));
        }
    }

    /// Allocate the next virtual register and return its name.
    fn next_register(&mut self) -> (r: String)
        requires
            0 <= old(self).counter() < i64::MAX,
        ensures
            final(self).counter() == old(self).counter() + 1,
            r@ == reg_name(final(self).counter()),
            final(self).lines() == old(self).lines(),
            final(self).env_view() == old(self).env_view(),
            final(self).print_required() == old(self).print_required(),
    {
        self.register_counter = self.register_counter + 1;
        String::from_str("%t").concat(u64_to_dec(self.register_counter as u64).as_str())
    }

    /// The instruction name for an operator.
    fn binary_op_to_instr_name(op: &BinaryOp) -> (r: String)
        ensures
            r@ == llvm_op_name(*op),
    {
        match op {
            BinaryOp::Add => String::from_str("add"),
            BinaryOp::Sub => String::from_str("sub"),
            BinaryOp::Mul => String::from_str("mul"),
            BinaryOp::Div => String::from_str("sdiv"),
        }
    }

    /// Emit a combining instruction into a fresh register and return
    /// that register's name.
    fn gen_instr(&mut self, op: &BinaryOp, l: &str, r: &str) -> (reg: String)
        requires
            0 <= old(self).counter() < i64::MAX,
        ensures
            final(self).counter() == old(self).counter() + 1,
            reg@ == reg_name(final(self).counter()),
            final(self).lines() == old(self).lines().push(
                instr_line(*op, reg_name(final(self).counter()), l@, r@),
            ),
            final(self).env_view() == old(self).env_view(),
            final(self).print_required() == old(self).print_required(),
    {
        let reg = self.next_register();
        let instr_name = LLVMCompiler::binary_op_to_instr_name(op);
        let line = String::from_str("\t").concat(reg.as_str()).concat(" = ").concat(
            instr_name.as_str(),
        ).concat(" i32 ").concat(l).concat(", ").concat(r);
        self.emit(line);
        reg
    }

    /// Emit a call of the runtime print helper, marking the helper's
    /// declaration as required.
    fn gen_instr_call_print_int(&mut self, v: &str)
        ensures
            final(self).lines() == old(self).lines().push(call_print_line(v@)),
            final(self).env_view() == old(self).env_view(),
            final(self).counter() == old(self).counter(),
            final(self).print_required(),
    {
        self.print_int_required = true;
        let line = String::from_str("\tcall void @printInt(i32 ").concat(v).concat(")");
        self.emit(line);
    }

    /// Evaluate one expression, emitting the instructions it needs and
    /// returning its operand.
    fn gen_expr(&mut self, expr: &Enriched<Expr<()>, ()>) -> (res: ExprResult)
        requires
            0 <= old(self).counter(),
            old(self).counter() + expr_regs(expr_view(*expr)) <= i64::MAX,
        ensures
            final(self).lines() == old(self).lines() + expr_gen(
                expr_view(*expr),
                old(self).env_view(),
                old(self).counter(),
            ).0,
            expr_result_view(res) == expr_gen(
                expr_view(*expr),
                old(self).env_view(),
                old(self).counter(),
            ).1,
            final(self).counter() == expr_gen(
                expr_view(*expr),
                old(self).env_view(),
                old(self).counter(),
            ).2,
            final(self).env_view() == old(self).env_view(),
            final(self).print_required() == old(self).print_required(),
        decreases *expr,
    {
        match &expr.0 {
            Expr::Literal(value) => {
                match value {
                    Literal::Num(v) => {
                        let res = ExprResult::Value(*v);
                        proof {
                            assert(self.lines() =~= old(self).lines() + expr_gen(
                                expr_view(*expr),
                                old(self).env_view(),
                                old(self).counter(),
                            ).0);
                        }
                        res
                    },
                }
            },
            Expr::Ident(name) => {
                proof {
                    assert(expr_view(*expr) is Ident);
                    assert(expr_view(*expr)->Ident_1 == name@);
                }
                let loc = self.lookup(name.as_str());
                let res = match loc {
                    Some(reg) => ExprResult::Register(reg),
                    None => ExprResult::Value(0),
                };
                proof {
                    assert(self.lines() =~= old(self).lines() + expr_gen(
                        expr_view(*expr),
                        old(self).env_view(),
                        old(self).counter(),
                    ).0);
                }
                res
            },
            Expr::Binary(op, lhs, rhs) => {
                let ghost v = expr_view(*expr);
                let ghost lv = expr_view(**lhs);
                let ghost rv = expr_view(**rhs);
                proof {
                    assert(v is Binary);
                    assert(v->Binary_1 == *op);
                    assert(*v->Binary_2 == lv);
                    assert(*v->Binary_3 == rv);
                    lemma_expr_gen_counter(lv, old(self).env_view(), old(self).counter());
                    lemma_expr_gen_counter(
                        rv,
                        old(self).env_view(),
                        old(self).counter() + expr_regs(lv),
                    );
                }
                let lhs_res = self.gen_expr(&**lhs);
                let lhs_val = lhs_res.render();
                let rhs_res = self.gen_expr(&**rhs);
                let rhs_val = rhs_res.render();
                let reg = self.gen_instr(op, lhs_val.as_str(), rhs_val.as_str());
                let res = ExprResult::Register(reg);
                proof {
                    assert(self.lines() =~= old(self).lines() + expr_gen(
                        v,
                        old(self).env_view(),
                        old(self).counter(),
                    ).0);
                }
                res
            },
        }
    }

    /// The register a name is bound to, if any.
    fn lookup(&self, name: &str) -> (r: Option<String>)
        ensures
            match r {
                Some(reg) => env_lookup(self.env_view(), name@) == Some(reg@),
                None => env_lookup(self.env_view(), name@) is None,
            },
    {
        let ghost ev = self.env_view();
        proof {
            assert(ev.skip(0) =~= ev);
        }
        let mut i: usize = 0;
        while i < self.env.len()
            invariant
                i <= self.env@.len(),
                ev == self.env_view(),
                env_lookup(ev, name@) == env_lookup(ev.skip(i as int), name@),
            decreases self.env@.len() - i,
        {
            proof {
                assert(ev.skip(i as int)[0] == ev[i as int]);
                assert(ev.skip(i as int).drop_first() =~= ev.skip(i + 1));
            }
            if str_eq(self.env[i].0.as_str(), name) {
                return Some(self.env[i].1.clone());
            }
            i = i + 1;
        }
        proof {
            assert(ev.skip(ev.len() as int).len() == 0);
        }
        None
    }

    /// Bind a name to a register, shadowing any earlier binding.
    fn bind(&mut self, name: &str, reg: String)
        ensures
            final(self).env_view() == env_update(old(self).env_view(), name@, reg@),
            final(self).lines() == old(self).lines(),
            final(self).counter() == old(self).counter(),
            final(self).print_required() == old(self).print_required(),
    {
        self.env.insert(0, (String::from_str(name), reg));
        proof {
            assert(self.env_view() =~= env_update(old(self).env_view(), name@, reg@));
        }
    }

    /// Emit the code of one statement: a bare expression's value is
    /// printed; an assignment binds the name to a register holding the
    /// value.
    fn gen_stmt(&mut self, stmt: &Enriched<Stmt<()>, ()>)
        requires
            0 <= old(self).counter(),
            old(self).counter() + stmt_regs(stmt_view(*stmt)) <= i64::MAX,
        ensures
            final(self).lines() == old(self).lines() + stmt_gen(
                stmt_view(*stmt),
                old(self).env_view(),
                old(self).counter(),
            ).0,
            final(self).env_view() == stmt_gen(
                stmt_view(*stmt),
                old(self).env_view(),
                old(self).counter(),
            ).1,
            final(self).counter() == stmt_gen(
                stmt_view(*stmt),
                old(self).env_view(),
                old(self).counter(),
            ).2,
            final(self).print_required() == (old(self).print_required() || stmt_view(
                *stmt,
            ) is Expr),
    {
        match &stmt.0 {
            Stmt::Expr(expr) => {
                let result = self.gen_expr(&**expr);
                let text = result.render();
                self.gen_instr_call_print_int(text.as_str());
                proof {
                    assert(self.lines() =~= old(self).lines() + stmt_gen(
                        stmt_view(*stmt),
                        old(self).env_view(),
                        old(self).counter(),
                    ).0);
                }
            },
            Stmt::Assign(name, expr) => {
                proof {
                    lemma_expr_gen_counter(
                        expr_view(**expr),
                        old(self).env_view(),
                        old(self).counter(),
                    );
                }
                let rvalue = self.gen_expr(&**expr);
                match rvalue {
                    ExprResult::Value(value) => {
                        let text = i64_to_dec(value);
                        let reg = self.gen_instr(&BinaryOp::Add, "0", text.as_str());
                        self.bind(name.as_str(), reg);
                    },
                    ExprResult::Register(reg) => {
                        self.bind(name.as_str(), reg);
                    },
                }
                proof {
                    reveal_strlit("0");
                    assert(self.lines() =~= old(self).lines() + stmt_gen(
                        stmt_view(*stmt),
                        old(self).env_view(),
                        old(self).counter(),
                    ).0);
                }
            },
        }
    }

    /// Does the program fit this generator's size limit: can the
    /// registers it may allocate be numbered by the counter?  A `true`
    /// answer establishes what `gen_program` requires of the input's
    /// size.
    pub fn program_fits(program: &Program<()>) -> (r: bool)
        ensures
            r == (program_regs(program_view(*program)) <= i64::MAX),
    {
        let ghost pv = program_view(*program);
        match program {
            Program::Stmts(stms) => {
                proof {
                    assert(pv == stmts_views(stms@));
                    assert(pv.len() == stms@.len());
                    assert(pv.skip(0) =~= pv);
                }
                let mut total: i64 = 0;
                let mut i: usize = 0;
                while i < stms.len()
                    invariant
                        pv == program_view(*program),
                        pv == stmts_views(stms@),
                        i <= stms@.len(),
                        0 <= total,
                        total + program_regs(pv.skip(i as int)) == program_regs(pv),
                    decreases stms@.len() - i,
                {
                    proof {
                        assert(stmt_view(stms@[i as int]) == pv[i as int]);
                        assert(pv.skip(i as int)[0] == pv[i as int]);
                        assert(pv.skip(i as int).drop_first() =~= pv.skip(i + 1));
                        assert(program_regs(pv.skip(i as int)) == stmt_regs(pv[i as int])
                            + program_regs(pv.skip(i + 1)));
                    }
                    match stmt_regs_checked(&stms[i]) {
                        None => {
                            return false;
                        },
                        Some(n) => {
                            if n > i64::MAX - total {
                                return false;
                            }
                            total = total + n;
                        },
                    }
                    i = i + 1;
                }
                proof {
                    assert(pv.skip(stms@.len() as int).len() == 0);
                }
                true
            },
        }
    }

    /// Emit the whole target text for a program, prepending the
    /// print-helper declaration block exactly when some statement
    /// prints.
    pub fn gen_program(&mut self, program: &Program<()>) -> (out: String)
        requires
            program_regs(program_view(*program)) <= i64::MAX,
        ensures
            out@ == llvm_output(program_view(*program)),
    {
        self.reset();
        let ghost pv = program_view(*program);
        self.emit(String::from_str("define i32 @main() {"));
        let ghost header = self.lines();

        match program {
            Program::Stmts(stms) => {
                proof {
                    assert(pv == stmts_views(stms@));
                    assert(pv.take(0) =~= Seq::<StmtView>::empty());
                    assert(pv.skip(0) =~= pv);
                    assert(self.lines() =~= header + stmts_gen(
                        pv.take(0),
                        Seq::empty(),
                        0,
                    ).0);
                }
                let mut i: usize = 0;
                while i < stms.len()
                    invariant
                        i <= stms@.len(),
                        pv == stmts_views(stms@),
                        self.lines() == header + stmts_gen(
                            pv.take(i as int),
                            Seq::<(Seq<char>, Seq<char>)>::empty(),
                            0,
                        ).0,
                        self.env_view() == stmts_gen(
                            pv.take(i as int),
                            Seq::<(Seq<char>, Seq<char>)>::empty(),
                            0,
                        ).1,
                        self.counter() == stmts_gen(
                            pv.take(i as int),
                            Seq::<(Seq<char>, Seq<char>)>::empty(),
                            0,
                        ).2,
                        self.counter() + program_regs(pv.skip(i as int)) <= i64::MAX,
                        0 <= self.counter(),
                        self.print_required() == has_print(pv.take(i as int)),
                    decreases stms@.len() - i,
                {
                    proof {
                        assert(stmt_view(stms@[i as int]) == pv[i as int]);
                        assert(pv.skip(i as int)[0] == pv[i as int]);
                        assert(pv.skip(i as int).drop_first() =~= pv.skip(i + 1));
                        lemma_stmts_gen_push(
                            pv.take(i as int),
                            pv[i as int],
                            Seq::<(Seq<char>, Seq<char>)>::empty(),
                            0,
                        );
                        assert(pv.take(i + 1) =~= pv.take(i as int).push(pv[i as int]));
                        lemma_stmt_gen_counter(pv[i as int], self.env_view(), self.counter());
                    }
                    let ghost printed_before = self.print_required();
                    self.gen_stmt(&stms[i]);
                    proof {
                        if pv[i as int] is Expr {
                            assert(pv.take(i + 1)[i as int] is Expr);
                            assert(has_print(pv.take(i + 1)));
                        } else if printed_before {
                            let k = choose|k: int|
                                0 <= k < pv.take(i as int).len() && #[trigger] pv.take(
                                    i as int,
                                )[k] is Expr;
                            assert(pv.take(i + 1)[k] is Expr);
                            assert(has_print(pv.take(i + 1)));
                        } else {
                            assert(forall|k: int|
                                0 <= k < pv.take(i + 1).len() ==> (#[trigger] pv.take(i + 1)[k]
                                    == if k < i as int {
                                    pv.take(i as int)[k]
                                } else {
                                    pv[i as int]
                                }));
                            assert(!has_print(pv.take(i + 1)));
                        }
                    }
                    i = i + 1;
                }
                proof {
                    assert(pv.take(stms@.len() as int) =~= pv);
                }
            },
        }

        if self.print_int_required {
            let ghost lines_before = self.lines();
            let def = String::from_str(
                "@dnl = internal constant [4 x i8] c\"%d\\0A\\00\"\ndeclare i32 @printf(i8*, ...)\ndefine void @printInt(i32 %x) {\n\t%t0 = getelementptr [4 x i8], [4 x i8]* @dnl, i32 0, i32 0\n\tcall i32 (i8*, ...) @printf(i8* %t0, i32 %x)\n\tret void\n}",
            );
            self.chunks.insert(0, def);
            proof {
                assert(self.lines() =~= lines_before.insert(0, print_int_def()));
            }
        }
        self.emit(String::from_str("\tret i32 0\n}"));
        let out = join_newlines(&self.chunks);
        proof {
            let body = stmts_gen(pv, Seq::<(Seq<char>, Seq<char>)>::empty(), 0).0;
            if has_print(pv) {
                assert(self.lines() =~= seq![print_int_def()] + seq!["define i32 @main() {"@]
                    + body + seq!["\tret i32 0\n}"@]);
            } else {
                assert(self.lines() =~= Seq::<Seq<char>>::empty() + seq![
                    "define i32 @main() {"@,
                ] + body + seq!["\tret i32 0\n}"@]);
            }
        }
        out
    }
}

impl Compiler for LLVMCompiler {
    type ExtendedData = ();

    open spec fn input_ok(p: Seq<StmtView>) -> bool {
        program_regs(p) <= i64::MAX
    }

    open spec fn output_spec(filename: Seq<char>, p: Seq<StmtView>) -> Seq<char> {
        llvm_output(p)
    }

    fn compile(&mut self, _filename: &str, program: Program<Self::ExtendedData>) -> (out: String) {
        self.gen_program(&program)
    }
}

} // verus!
