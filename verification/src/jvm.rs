//! Stack-machine bytecode back end.
//!
//! A first pass computes, for every expression and statement node, the
//! minimum operand-stack depth needed to evaluate it (a Sethi-Ullman
//! style analysis), caching it in the node's annotation slot.  The
//! generator then emits the deeper operand subtree first, swapping the
//! operands afterwards when a non-commutative operator's evaluation
//! order was flipped, and allocates local-variable slots in first-write
//! order starting at slot 1 (slot 0 is the runtime entry argument).

use vstd::prelude::*;

use crate::common::dec_nat;
use crate::common::join_lines;
use crate::common::join_newlines;
use crate::common::str_eq;
use crate::common::u64_to_dec;
use crate::common::Annot;
use crate::common::Enriched;
use crate::common::LineCol;
use crate::compiler::Compiler;
use crate::parser::expr_lits_nonneg;
use crate::parser::expr_view;
use crate::parser::program_lits_nonneg;
use crate::parser::program_view;
use crate::parser::stmt_lits_nonneg;
use crate::parser::stmt_view;
use crate::parser::stmts_views;
use crate::parser::str_to_chars;
use crate::parser::BinaryOp;
use crate::parser::Expr;
use crate::parser::ExprView;
use crate::parser::Literal;
use crate::parser::Program;
use crate::parser::Stmt;
use crate::parser::StmtView;

verus! {

/// The per-node annotation of this backend: the computed minimum
/// evaluation-stack depth of the node.
#[derive(Default, Debug)]
pub struct NodeData {
    pub stack_size: i64,
}

impl Annot for NodeData {
    open spec fn empty_spec() -> Self {
        NodeData { stack_size: 0 }
    }

    fn empty() -> (r: Self) {
        NodeData { stack_size: 0 }
    }
}

// ========================= stack-depth analysis =========================

/// The minimum operand-stack depth needed to evaluate an expression:
/// one cell for a leaf; for a binary node, one more than the operand
/// depth when the operands are equally deep (one result must be held
/// aside), else the larger operand depth (the deeper side is evaluated
/// first and its result rides along as slack).
pub open spec fn expr_depth(v: ExprView) -> int
    decreases v,
{
    match v {
        ExprView::Ident(_, _) => 1,
        ExprView::Lit(_, _) => 1,
        ExprView::Binary(_, _, l, r) => {
            let lh = expr_depth(*l);
            let rh = expr_depth(*r);
            if lh == rh {
                lh + 1
            } else if lh < rh {
                rh
            } else {
                lh
            }
        },
    }
}

/// The stack depth a statement needs: a bare expression statement
/// needs room for the print-call receiver as well, so it has a floor
/// of two cells; an assignment has no floor.
pub open spec fn stmt_depth(v: StmtView) -> int {
    match v {
        StmtView::Expr(_, e) => {
            let d = expr_depth(e);
            if d < 2 {
                2
            } else {
                d
            }
        },
        StmtView::Assign(_, _, e) => {
            let d = expr_depth(e);
            if d < 0 {
                0
            } else {
                d
            }
        },
    }
}

/// The stack limit of a program: the largest statement depth, or zero
/// for an empty program.
pub open spec fn program_stack_limit(p: Seq<StmtView>) -> int
    decreases p.len(),
{
    if p.len() == 0 {
        0
    } else {
        let rest = program_stack_limit(p.drop_last());
        let d = stmt_depth(p.last());
        if rest < d {
            d
        } else {
            rest
        }
    }
}

/// Every statement depth in the program fits the annotation type.
pub open spec fn program_depths_ok(p: Seq<StmtView>) -> bool {
    forall|i: int| 0 <= i < p.len() ==> stmt_depth(#[trigger] p[i]) <= i64::MAX
}

/// Every node's annotation slot caches that node's computed depth.
pub open spec fn expr_annotated(e: Enriched<Expr<NodeData>, NodeData>) -> bool
    decreases e,
{
    &&& e.2.stack_size == expr_depth(expr_view(e))
    &&& match e.0 {
        Expr::Binary(_, l, r) => expr_annotated(*l) && expr_annotated(*r),
        _ => true,
    }
}

/// The statement's annotation slot caches its depth, and its
/// expression is annotated throughout.
pub open spec fn stmt_annotated(s: Enriched<Stmt<NodeData>, NodeData>) -> bool {
    &&& s.2.stack_size == stmt_depth(stmt_view(s))
    &&& match s.0 {
        Stmt::Expr(e) => expr_annotated(*e),
        Stmt::Assign(_, e) => expr_annotated(*e),
    }
}

/// Every statement of the program is annotated throughout.
pub open spec fn program_annotated(p: Program<NodeData>) -> bool {
    match p {
        Program::Stmts(v) => forall|i: int| 0 <= i < v@.len() ==> stmt_annotated(#[trigger] v@[i]),
    }
}

/// Adding a statement to a program takes the stack limit to the larger
/// of the old limit and the statement's own depth.
proof fn lemma_stack_limit_push(p: Seq<StmtView>, x: StmtView)
    ensures
        program_stack_limit(p.push(x)) == if program_stack_limit(p) < stmt_depth(x) {
            stmt_depth(x)
        } else {
            program_stack_limit(p)
        },
{
    assert(p.push(x).drop_last() =~= p);
    assert(p.push(x).last() == x);
}

/// The number of leaves of an expression tree.
pub open spec fn expr_leaves(v: ExprView) -> int
    decreases v,
{
    match v {
        ExprView::Ident(_, _) => 1,
        ExprView::Lit(_, _) => 1,
        ExprView::Binary(_, _, l, r) => expr_leaves(*l) + expr_leaves(*r),
    }
}

/// The computed depth of an expression is at least one and never
/// exceeds its number of leaves.
pub proof fn lemma_depth_le_leaves(v: ExprView)
    ensures
        1 <= expr_depth(v) <= expr_leaves(v),
    decreases v,
{
    match v {
        ExprView::Binary(_, _, l, r) => {
            lemma_depth_le_leaves(*l);
            lemma_depth_le_leaves(*r);
        },
        _ => {},
    }
}

/// A binary expression over two leaves needs exactly two stack cells.
pub proof fn lemma_two_leaf_depth(v: ExprView)
    requires
        v is Binary,
        !(*v->Binary_2 is Binary),
        !(*v->Binary_3 is Binary),
    ensures
        expr_depth(v) == 2,
{
    let l = *v->Binary_2;
    let r = *v->Binary_3;
    assert(expr_depth(l) == 1) by {
        if l is Ident {
        } else {
            assert(l is Lit);
        }
    }
    assert(expr_depth(r) == 1) by {
        if r is Ident {
        } else {
            assert(r is Lit);
        }
    }
}

/// A left-deep chain of additions whose right operands are leaves.
pub open spec fn is_left_add_chain(v: ExprView) -> bool
    decreases v,
{
    match v {
        ExprView::Binary(_, op, l, r) => op == BinaryOp::Add && !(*r is Binary)
            && is_left_add_chain(*l),
        _ => true,
    }
}

/// A left-deep chain of additions needs exactly two stack cells, no
/// matter how long it is: the stack never grows with the chain.
pub proof fn lemma_left_chain_depth(v: ExprView)
    requires
        is_left_add_chain(v),
        v is Binary,
    ensures
        expr_depth(v) == 2,
    decreases v,
{
    let l = *v->Binary_2;
    let r = *v->Binary_3;
    assert(expr_depth(r) == 1) by {
        if r is Ident {
        } else {
            assert(r is Lit);
        }
    }
    if l is Binary {
        lemma_left_chain_depth(l);
    } else {
        assert(expr_depth(l) == 1) by {
            if l is Ident {
            } else {
                assert(l is Lit);
            }
        }
    }
}

// ======================== emitted line shapes ==========================

/// The push instruction for a non-negative value, in its smallest
/// form: a dedicated constant opcode up to five, a signed-byte
/// immediate, a signed-16-bit immediate, or a constant-pool load.
pub open spec fn push_line(v: int) -> Seq<char> {
    if v <= 5 {
        "\ticonst_"@ + dec_nat(v)
    } else if v <= 127 {
        "\tbipush "@ + dec_nat(v)
    } else if v <= 32767 {
        "\tsipush "@ + dec_nat(v)
    } else {
        "\tldc "@ + dec_nat(v)
    }
}

/// The load instruction for a slot: a dedicated form for slots up to
/// three, an indexed form above.
pub open spec fn load_line(slot: int) -> Seq<char> {
    if slot <= 3 {
        "\tiload_"@ + dec_nat(slot)
    } else {
        "\tiload "@ + dec_nat(slot)
    }
}

/// The store instruction for a slot.
pub open spec fn store_line(slot: int) -> Seq<char> {
    if slot <= 3 {
        "\tistore_"@ + dec_nat(slot)
    } else {
        "\tistore "@ + dec_nat(slot)
    }
}

/// The combining instruction's name for an operator.
pub open spec fn op_name(op: BinaryOp) -> Seq<char> {
    match op {
        BinaryOp::Add => "iadd"@,
        BinaryOp::Sub => "isub"@,
        BinaryOp::Mul => "imul"@,
        BinaryOp::Div => "idiv"@,
    }
}

/// The constructor boilerplate block.
pub open spec fn init_text() -> Seq<char> {
    ".method public <init>()V\n\taload_0\n\tinvokespecial java/lang/Object/<init>()V\n\treturn\n.end method"@
}

/// The slot bound to a name: names get slots in first-write order
/// starting at one.
pub open spec fn slot_of(names: Seq<Seq<char>>, name: Seq<char>) -> Option<int>
    decreases names.len(),
{
    if names.len() == 0 {
        None
    } else if names[0] == name {
        Some(1)
    } else {
        match slot_of(names.drop_first(), name) {
            Some(k) => Some(k + 1),
            None => None,
        }
    }
}

/// A name that occurs first at index `i` has slot `i + 1`.
proof fn lemma_slot_of_first(names: Seq<Seq<char>>, name: Seq<char>, i: int)
    requires
        0 <= i < names.len(),
        names[i] == name,
        forall|t: int| 0 <= t < i ==> names[t] != name,
    ensures
        slot_of(names, name) == Some(i + 1),
    decreases i,
{
    if i > 0 {
        lemma_slot_of_first(names.drop_first(), name, i - 1);
    }
}

/// A name that occurs nowhere has no slot.
proof fn lemma_slot_of_none(names: Seq<Seq<char>>, name: Seq<char>)
    requires
        forall|t: int| 0 <= t < names.len() ==> names[t] != name,
    ensures
        slot_of(names, name) is None,
    decreases names.len(),
{
    if names.len() > 0 {
        lemma_slot_of_none(names.drop_first(), name);
    }
}

/// The lines emitted for an expression under a slot table: a push for
/// a literal; a load for a bound name and a push of zero for an
/// unbound one; for a binary node the deeper operand first, then an
/// operand swap when a non-commutative operator's order was flipped,
/// then the combining instruction.
pub open spec fn expr_code(v: ExprView, slots: Seq<Seq<char>>) -> Seq<Seq<char>>
    decreases v,
{
    match v {
        ExprView::Lit(_, n) => seq![push_line(n)],
        ExprView::Ident(_, name) => match slot_of(slots, name) {
            Some(s) => seq![load_line(s)],
            None => seq![push_line(0)],
        },
        ExprView::Binary(_, op, l, r) => {
            let lh = expr_depth(*l);
            let rh = expr_depth(*r);
            let operands = if lh < rh {
                expr_code(*r, slots) + expr_code(*l, slots) + if op == BinaryOp::Sub || op
                    == BinaryOp::Div {
                    seq!["swap"@]
                } else {
                    Seq::empty()
                }
            } else {
                expr_code(*l, slots) + expr_code(*r, slots)
            };
            operands + seq!["\t"@ + op_name(op)]
        },
    }
}

/// The slot table after a statement: an assignment to a new name
/// appends it; everything else leaves the table unchanged.
pub open spec fn slots_after_stmt(slots: Seq<Seq<char>>, v: StmtView) -> Seq<Seq<char>> {
    match v {
        StmtView::Expr(_, _) => slots,
        StmtView::Assign(_, name, _) => if slot_of(slots, name) is Some {
            slots
        } else {
            slots.push(name)
        },
    }
}

/// The lines emitted for a statement: a bare expression is evaluated
/// and printed; an assignment is evaluated and stored to the name's
/// slot, allocating the next slot on first write.
pub open spec fn stmt_code(v: StmtView, slots: Seq<Seq<char>>) -> Seq<Seq<char>> {
    match v {
        StmtView::Expr(_, e) => expr_code(e, slots) + seq![
            "\tgetstatic java/lang/System/out Ljava/io/PrintStream;"@,
            "\tswap"@,
            "\tinvokevirtual java/io/PrintStream/println(I)V"@,
        ],
        StmtView::Assign(_, name, e) => {
            let slot = match slot_of(slots, name) {
                Some(s) => s,
                None => slots.len() as int + 1,
            };
            expr_code(e, slots) + seq![store_line(slot)]
        },
    }
}

/// The lines emitted for a statement sequence, threading the slot
/// table through in program order.
pub open spec fn stmts_code(p: Seq<StmtView>, slots: Seq<Seq<char>>) -> Seq<Seq<char>>
    decreases p.len(),
{
    if p.len() == 0 {
        Seq::empty()
    } else {
        stmt_code(p[0], slots) + stmts_code(p.drop_first(), slots_after_stmt(slots, p[0]))
    }
}

/// The slot table after a statement sequence.
pub open spec fn slots_after_stmts(p: Seq<StmtView>, slots: Seq<Seq<char>>) -> Seq<Seq<char>>
    decreases p.len(),
{
    if p.len() == 0 {
        slots
    } else {
        slots_after_stmts(p.drop_first(), slots_after_stmt(slots, p[0]))
    }
}

/// Appending a statement appends its lines, emitted under the slot
/// table the earlier statements produce.
proof fn lemma_stmts_code_push(p: Seq<StmtView>, x: StmtView, slots: Seq<Seq<char>>)
    ensures
        stmts_code(p.push(x), slots) == stmts_code(p, slots) + stmt_code(
            x,
            slots_after_stmts(p, slots),
        ),
        slots_after_stmts(p.push(x), slots) == slots_after_stmt(slots_after_stmts(p, slots), x),
    decreases p.len(),
{
    reveal_with_fuel(stmts_code, 3);
    reveal_with_fuel(slots_after_stmts, 3);
    if p.len() == 0 {
        assert(p.push(x)[0] == x);
        assert(p.push(x).drop_first() =~= Seq::<StmtView>::empty());
        assert(stmts_code(p.push(x), slots) =~= stmts_code(p, slots) + stmt_code(
            x,
            slots_after_stmts(p, slots),
        ));
        assert(slots_after_stmts(p.push(x), slots) =~= slots_after_stmt(
            slots_after_stmts(p, slots),
            x,
        ));
    } else {
        assert(p.push(x).drop_first() =~= p.drop_first().push(x));
        assert(p.push(x)[0] == p[0]);
        lemma_stmts_code_push(p.drop_first(), x, slots_after_stmt(slots, p[0]));
        assert(stmts_code(p.push(x), slots) =~= stmts_code(p, slots) + stmt_code(
            x,
            slots_after_stmts(p, slots),
        ));
        assert(slots_after_stmts(p.push(x), slots) =~= slots_after_stmt(
            slots_after_stmts(p, slots),
            x,
        ));
    }
}

/// For a commutative operator the emitted code never swaps the
/// operands, whichever is deeper; for a non-commutative one a swap is
/// emitted exactly when the deeper operand stands on the right-hand
/// source position, since only then the evaluation order was flipped.
pub proof fn lemma_operand_order(v: ExprView, slots: Seq<Seq<char>>)
    requires
        v is Binary,
    ensures
        ({
            let op = v->Binary_1;
            let l = *v->Binary_2;
            let r = *v->Binary_3;
            let line = seq!["\t"@ + op_name(op)];
            &&& (op == BinaryOp::Add || op == BinaryOp::Mul) ==> expr_code(v, slots) == if expr_depth(l)
                < expr_depth(r) {
                expr_code(r, slots) + expr_code(l, slots) + line
            } else {
                expr_code(l, slots) + expr_code(r, slots) + line
            }
            &&& ((op == BinaryOp::Sub || op == BinaryOp::Div) && expr_depth(l) >= expr_depth(r))
                ==> expr_code(v, slots) == expr_code(l, slots) + expr_code(r, slots) + line
            &&& ((op == BinaryOp::Sub || op == BinaryOp::Div) && expr_depth(l) < expr_depth(r))
                ==> expr_code(v, slots) == expr_code(r, slots) + expr_code(l, slots) + seq![
                "swap"@,
            ] + line
        }),
{
    let op = v->Binary_1;
    let l = *v->Binary_2;
    let r = *v->Binary_3;
    let line = seq!["\t"@ + op_name(op)];
    if expr_depth(l) < expr_depth(r) {
        if op == BinaryOp::Sub || op == BinaryOp::Div {
            assert(expr_code(v, slots) =~= expr_code(r, slots) + expr_code(l, slots) + seq![
                "swap"@,
            ] + line);
        } else {
            assert(expr_code(v, slots) =~= expr_code(r, slots) + expr_code(l, slots) + line);
        }
    } else {
        assert(expr_code(v, slots) =~= expr_code(l, slots) + expr_code(r, slots) + line);
    }
}

/// Reading a name that was never assigned pushes the immediate zero,
/// without error.
pub proof fn lemma_undefined_var_zero(pos: LineCol, name: Seq<char>, slots: Seq<Seq<char>>)
    requires
        slot_of(slots, name) is None,
    ensures
        expr_code(ExprView::Ident(pos, name), slots) == seq![push_line(0)],
{
}

/// No name occurs twice in a slot table.
pub open spec fn names_distinct(names: Seq<Seq<char>>) -> bool {
    forall|i: int, j: int| 0 <= i < j < names.len() ==> names[i] != names[j]
}

/// A name without a slot occurs nowhere in the table.
proof fn lemma_no_slot_means_absent(names: Seq<Seq<char>>, name: Seq<char>)
    requires
        slot_of(names, name) is None,
    ensures
        forall|t: int| 0 <= t < names.len() ==> names[t] != name,
    decreases names.len(),
{
    if names.len() > 0 {
        lemma_no_slot_means_absent(names.drop_first(), name);
        assert forall|t: int| 0 <= t < names.len() implies names[t] != name by {
            if t >= 1 {
                assert(names.drop_first()[t - 1] == names[t]);
            }
        }
    }
}

/// A statement keeps the slot table free of repeated names.
pub proof fn lemma_slots_after_stmt_distinct(slots: Seq<Seq<char>>, v: StmtView)
    requires
        names_distinct(slots),
    ensures
        names_distinct(slots_after_stmt(slots, v)),
{
    match v {
        StmtView::Assign(_, name, _) => {
            if slot_of(slots, name) is None {
                lemma_no_slot_means_absent(slots, name);
            }
        },
        _ => {},
    }
}

/// A whole program keeps the slot table free of repeated names.
pub proof fn lemma_slots_after_stmts_distinct(p: Seq<StmtView>, slots: Seq<Seq<char>>)
    requires
        names_distinct(slots),
    ensures
        names_distinct(slots_after_stmts(p, slots)),
    decreases p.len(),
{
    if p.len() > 0 {
        lemma_slots_after_stmt_distinct(slots, p[0]);
        lemma_slots_after_stmts_distinct(p.drop_first(), slots_after_stmt(slots, p[0]));
    }
}

/// Slots are handed out in strict first-write order starting at one:
/// the name at index `i` of the slot table owns slot `i + 1`.
pub proof fn lemma_slot_numbers(names: Seq<Seq<char>>, i: int)
    requires
        names_distinct(names),
        0 <= i < names.len(),
    ensures
        slot_of(names, names[i]) == Some(i + 1),
{
    lemma_slot_of_first(names, names[i], i);
}

/// Re-assigning a name that already has a slot allocates nothing: the
/// slot table is unchanged.
pub proof fn lemma_reassign_allocates_nothing(slots: Seq<Seq<char>>, v: StmtView)
    requires
        v is Assign,
        slot_of(slots, v->Assign_1) is Some,
    ensures
        slots_after_stmt(slots, v) == slots,
{
}

/// The index of the last occurrence of `c` in `s`, or minus one.
pub open spec fn last_index_of(s: Seq<char>, c: char) -> int
    decreases s.len(),
{
    if s.len() == 0 {
        -1
    } else if s.last() == c {
        s.len() - 1
    } else {
        last_index_of(s.drop_last(), c)
    }
}

/// The filename with its extension stripped: everything before the
/// last dot, provided that dot lies inside the final path component
/// and is not its leading character.
pub open spec fn strip_extension(s: Seq<char>) -> Seq<char> {
    let start = last_index_of(s, '/') + 1;
    let dot = last_index_of(s, '.');
    if dot > start {
        s.subrange(0, dot)
    } else {
        s
    }
}

/// The whole target text for a program: header, boilerplate
/// constructor, the main method with its stack/locals limits (computed
/// from the statements, spliced in ahead of their code), the
/// statements' code, and the trailing return.
pub open spec fn jvm_output(filename: Seq<char>, p: Seq<StmtView>) -> Seq<char> {
    let body = stmts_code(p, Seq::empty());
    let nslots = slots_after_stmts(p, Seq::empty()).len();
    let chunks = seq![
        ".class public "@ + strip_extension(filename),
        ".super java/lang/Object\n"@,
        init_text(),
        "\n.method public static main([Ljava/lang/String;)V"@,
        ".limit stack "@ + dec_nat(program_stack_limit(p)) + "\n.limit locals "@ + dec_nat(
            nslots as int + 1,
        ),
    ] + body + seq!["\treturn\n.end method"@];
    join_lines(chunks)
}

// ========================== the code generator =========================

/// The stack-machine code generator: an append-only buffer of emitted
/// lines, and the variable-to-slot table in first-write order (the
/// name at index `i` owns slot `i + 1`).
pub struct JVMCompiler {
    chunks: Vec<String>,
    slot: Vec<String>,
}

impl JVMCompiler {
    /// The lines emitted so far.
    pub closed spec fn lines(&self) -> Seq<Seq<char>> {
        self.chunks.deep_view()
    }

    /// The slot table: names in first-write order.
    pub closed spec fn slot_names(&self) -> Seq<Seq<char>> {
        self.slot.deep_view()
    }

    pub fn new() -> (r: Self)
        ensures
            r.lines() == Seq::<Seq<char>>::empty(),
            r.slot_names() == Seq::<Seq<char>>::empty(),
    {
        let r = JVMCompiler { chunks: Vec::new(), slot: Vec::new() };
        proof {
            assert(r.lines() =~= Seq::<Seq<char>>::empty());
            assert(r.slot_names() =~= Seq::<Seq<char>>::empty());
        }
        r
    }

    /// Clear all generator state for a fresh compilation.
    fn reset(&mut self)
        ensures
            final(self).lines() == Seq::<Seq<char>>::empty(),
            final(self).slot_names() == Seq::<Seq<char>>::empty(),
    {
        self.chunks = Vec::new();
        self.slot = Vec::new();
        proof {
            assert(self.lines() =~= Seq::<Seq<char>>::empty());
            assert(self.slot_names() =~= Seq::<Seq<char>>::empty());
        }
    }

    /// Append one emitted line.
    fn emit(&mut self, line: String)
        ensures
            final(self).lines() == old(self).lines().push(line@),
            final(self).slot_names() == old(self).slot_names(),
    {
        self.chunks.push(line);
        proof {
            assert(self.lines() =~= old(self).lines().push(line@));
        }
    }

    /// The slot bound to a name, if any.
    fn get_slot(&self, name: &str) -> (r: Option<usize>)
        ensures
            match r {
                Some(s) => slot_of(self.slot_names(), name@) == Some(s as int) && 1 <= s
                    <= self.slot_names().len(),
                None => slot_of(self.slot_names(), name@) is None,
            },
    {
        let mut i: usize = 0;
        while i < self.slot.len()
            invariant
                i <= self.slot@.len(),
                forall|t: int| 0 <= t < i ==> self.slot_names()[t] != name@,
            decreases self.slot@.len() - i,
        {
            if str_eq(self.slot[i].as_str(), name) {
                proof {
                    lemma_slot_of_first(self.slot_names(), name@, i as int);
                }
                return Some(i + 1);
            }
            i = i + 1;
        }
        proof {
            lemma_slot_of_none(self.slot_names(), name@);
        }
        None
    }

    /// The slot bound to a name, allocating the next slot on the
    /// name's first write.
    fn get_slot_or_create(&mut self, name: &str) -> (s: usize)
        requires
            old(self).slot_names().len() < usize::MAX,
        ensures
            final(self).lines() == old(self).lines(),
            match slot_of(old(self).slot_names(), name@) {
                Some(k) => s as int == k && final(self).slot_names() == old(self).slot_names(),
                None => s as int == old(self).slot_names().len() + 1 && final(self).slot_names() == old(
                    self,
                ).slot_names().push(name@),
            },
            1 <= s <= final(self).slot_names().len(),
    {
        let existing = self.get_slot(name);
        match existing {
            Some(s) => s,
            None => {
                self.slot.push(String::from_str(name));
                proof {
                    assert(self.slot_names() =~= old(self).slot_names().push(name@));
                }
                self.slot.len()
            },
        }
    }

    /// Emit the push instruction for a non-negative value, in its
    /// smallest form.
    fn gen_instr_push(&mut self, val: i64)
        requires
            val >= 0,
        ensures
            final(self).lines() == old(self).lines().push(push_line(val as int)),
            final(self).slot_names() == old(self).slot_names(),
    {
        if val <= 5 {
            let line = String::from_str("\ticonst_").concat(u64_to_dec(val as u64).as_str());
            self.emit(line);
        } else if val >= i8::MIN as i64 && val <= i8::MAX as i64 {
            let line = String::from_str("\tbipush ").concat(u64_to_dec(val as u64).as_str());
            self.emit(line);
        } else if val >= i16::MIN as i64 && val <= i16::MAX as i64 {
            let line = String::from_str("\tsipush ").concat(u64_to_dec(val as u64).as_str());
            self.emit(line);
        } else {
            let line = String::from_str("\tldc ").concat(u64_to_dec(val as u64).as_str());
            self.emit(line);
        }
    }

    /// Emit the load instruction for a slot.
    fn gen_instr_load(&mut self, slot: usize)
        requires
            slot >= 1,
        ensures
            final(self).lines() == old(self).lines().push(load_line(slot as int)),
            final(self).slot_names() == old(self).slot_names(),
    {
        if slot <= 3 {
            let line = String::from_str("\tiload_").concat(u64_to_dec(slot as u64).as_str());
            self.emit(line);
        } else {
            let line = String::from_str("\tiload ").concat(u64_to_dec(slot as u64).as_str());
            self.emit(line);
        }
    }

    /// Emit the store instruction for a slot.
    fn gen_instr_store(&mut self, slot: usize)
        requires
            slot >= 1,
        ensures
            final(self).lines() == old(self).lines().push(store_line(slot as int)),
            final(self).slot_names() == old(self).slot_names(),
    {
        if slot <= 3 {
            let line = String::from_str("\tistore_").concat(u64_to_dec(slot as u64).as_str());
            self.emit(line);
        } else {
            let line = String::from_str("\tistore ").concat(u64_to_dec(slot as u64).as_str());
            self.emit(line);
        }
    }

    /// The combining instruction's name for an operator.
    fn binary_op_to_instr_name(op: &BinaryOp) -> (r: String)
        ensures
            r@ == op_name(*op),
    {
        match op {
            BinaryOp::Add => String::from_str("iadd"),
            BinaryOp::Sub => String::from_str("isub"),
            BinaryOp::Mul => String::from_str("imul"),
            BinaryOp::Div => String::from_str("idiv"),
        }
    }

    /// Emit the code of one expression.  Reads the depths the analysis
    /// pass cached in the annotation slots; never touches the slot
    /// table.
    pub fn gen_expr(&mut self, expr: &Enriched<Expr<NodeData>, NodeData>)
        requires
            expr_annotated(*expr),
            expr_lits_nonneg(expr_view(*expr)),
        ensures
            final(self).slot_names() == old(self).slot_names(),
            final(self).lines() == old(self).lines() + expr_code(expr_view(*expr), final(self).slot_names()),
        decreases *expr,
    {
        match &expr.0 {
            Expr::Literal(value) => {
                match value {
                    Literal::Num(v) => {
                        self.gen_instr_push(*v);
                        proof {
                            assert(self.lines() =~= old(self).lines() + expr_code(
                                expr_view(*expr),
                                self.slot_names(),
                            ));
                        }
                    },
                }
            },
            Expr::Ident(name) => {
                proof {
                    assert(expr_view(*expr) is Ident);
                    assert(expr_view(*expr)->Ident_1 == name@);
                }
                let slot = self.get_slot(name.as_str());
                match slot {
                    Some(slot) => {
                        self.gen_instr_load(slot);
                        proof {
                            assert(slot_of(self.slot_names(), name@) == Some(slot as int));
                            assert(expr_code(expr_view(*expr), self.slot_names()) =~= seq![
                                load_line(slot as int),
                            ]);
                        }
                    },
                    None => {
                        self.gen_instr_push(0);
                        proof {
                            assert(slot_of(self.slot_names(), name@) is None);
                            assert(expr_code(expr_view(*expr), self.slot_names()) =~= seq![
                                push_line(0),
                            ]);
                        }
                    },
                }
                proof {
                    assert(self.lines() =~= old(self).lines() + expr_code(
                        expr_view(*expr),
                        self.slot_names(),
                    ));
                }
            },
            Expr::Binary(op, lhs, rhs) => {
                let ghost v = expr_view(*expr);
                let ghost lv = expr_view(**lhs);
                let ghost rv = expr_view(**rhs);
                proof {
                    assert(v is Binary);
                    assert(v->Binary_1 == *op);
                    assert(*v->Binary_2 == lv);
                    assert(*v->Binary_3 == rv);
                }
                let l_h = lhs.2.stack_size;
                let r_h = rhs.2.stack_size;
                proof {
                    assert(expr_annotated(**lhs) && expr_annotated(**rhs));
                    assert(l_h == expr_depth(lv));
                    assert(r_h == expr_depth(rv));
                }
                if l_h < r_h {
                    self.gen_expr(&**rhs);
                    self.gen_expr(&**lhs);
                    if *op == BinaryOp::Sub || *op == BinaryOp::Div {
                        self.emit(String::from_str("swap"));
                        proof {
                            reveal_strlit("swap");
                        }
                    }
                } else {
                    self.gen_expr(&**lhs);
                    self.gen_expr(&**rhs);
                }
                let instr = JVMCompiler::binary_op_to_instr_name(op);
                let line = String::from_str("\t").concat(instr.as_str());
                self.emit(line);
                proof {
                    assert(line@ == "\t"@ + op_name(*op));
                    assert(self.lines() =~= old(self).lines() + expr_code(
                        v,
                        self.slot_names(),
                    ));
                }
            },
        }
    }

    /// Emit the code of one statement: a bare expression's value is
    /// printed; an assignment's value is stored to the name's slot,
    /// allocated on first write.
    pub fn gen_stmt(&mut self, stmt: &Enriched<Stmt<NodeData>, NodeData>)
        requires
            stmt_annotated(*stmt),
            stmt_lits_nonneg(stmt_view(*stmt)),
            old(self).slot_names().len() < usize::MAX,
        ensures
            final(self).lines() == old(self).lines() + stmt_code(
                stmt_view(*stmt),
                old(self).slot_names(),
            ),
            final(self).slot_names() == slots_after_stmt(old(self).slot_names(), stmt_view(*stmt)),
    {
        match &stmt.0 {
            Stmt::Expr(expr) => {
                self.gen_expr(&**expr);
                self.emit(String::from_str("\tgetstatic java/lang/System/out Ljava/io/PrintStream;"));
                self.emit(String::from_str("\tswap"));
                self.emit(String::from_str("\tinvokevirtual java/io/PrintStream/println(I)V"));
                proof {
                    assert(self.lines() =~= old(self).lines() + stmt_code(
                        stmt_view(*stmt),
                        old(self).slot_names(),
                    ));
                }
            },
            Stmt::Assign(name, expr) => {
                self.gen_expr(&**expr);
                let slot = self.get_slot_or_create(name.as_str());
                self.gen_instr_store(slot);
                proof {
                    assert(self.lines() =~= old(self).lines() + stmt_code(
                        stmt_view(*stmt),
                        old(self).slot_names(),
                    ));
                }
            },
        }
    }
}

/// The depth of an expression, or nothing where it exceeds what the
/// annotation type can hold.
fn expr_depth_checked<D>(e: &Enriched<Expr<D>, D>) -> (r: Option<i64>)
    ensures
        match r {
            Some(d) => d as int == expr_depth(expr_view(*e)) && d >= 1,
            None => expr_depth(expr_view(*e)) > i64::MAX,
        },
    decreases *e,
{
    match &e.0 {
        Expr::Ident(_) => Some(1),
        Expr::Literal(_) => Some(1),
        Expr::Binary(_, l, r) => {
            let ghost v = expr_view(*e);
            proof {
                assert(v is Binary);
                assert(*v->Binary_2 == expr_view(**l));
                assert(*v->Binary_3 == expr_view(**r));
                assert(expr_depth(v) >= expr_depth(expr_view(**l)));
                assert(expr_depth(v) >= expr_depth(expr_view(**r)));
            }
            match expr_depth_checked(&**l) {
                None => None,
                Some(lh) => match expr_depth_checked(&**r) {
                    None => None,
                    Some(rh) => {
                        if lh == rh {
                            if lh == i64::MAX {
                                None
                            } else {
                                Some(lh + 1)
                            }
                        } else if lh < rh {
                            Some(rh)
                        } else {
                            Some(lh)
                        }
                    },
                },
            }
        },
    }
}

/// Does the statement's stack depth fit the annotation type?
fn stmt_depth_fits(s: &Enriched<Stmt<NodeData>, NodeData>) -> (r: bool)
    ensures
        r == (stmt_depth(stmt_view(*s)) <= i64::MAX),
{
    match &s.0 {
        Stmt::Expr(e) => expr_depth_checked(&**e).is_some(),
        Stmt::Assign(_, e) => expr_depth_checked(&**e).is_some(),
    }
}

/// The index of the last occurrence of `c`, if any, as the executable
/// scan finds it.
fn last_index_of_exec(chars: &Vec<char>, c: char) -> (r: Option<usize>)
    ensures
        match r {
            Some(d) => last_index_of(chars@, c) == d as int && d < chars@.len(),
            None => last_index_of(chars@, c) == -1,
        },
{
    let ghost s = chars@;
    let mut found: Option<usize> = None;
    let mut t: usize = 0;
    while t < chars.len()
        invariant
            t <= s.len(),
            s == chars@,
            match found {
                Some(d) => last_index_of(s.take(t as int), c) == d as int && d < t,
                None => last_index_of(s.take(t as int), c) == -1,
            },
        decreases s.len() - t,
    {
        proof {
            assert(s.take(t + 1).drop_last() =~= s.take(t as int));
            assert(s.take(t + 1).last() == s[t as int]);
        }
        if chars[t] == c {
            found = Some(t);
        }
        t = t + 1;
    }
    proof {
        assert(s.take(s.len() as int) =~= s);
    }
    found
}

/// The filename with its extension stripped.
pub fn strip_extension_exec(filename: &str) -> (r: String)
    ensures
        r@ == strip_extension(filename@),
{
    let chars = str_to_chars(filename);
    let n = chars.len();
    let slash = last_index_of_exec(&chars, '/');
    let dot = last_index_of_exec(&chars, '.');
    let start: usize = match slash {
        Some(k) => {
            assert(k < n);
            k + 1
        },
        None => 0,
    };
    match dot {
        Some(d) => {
            if d > start {
                let sub = filename.substring_char(0, d);
                String::from_str(sub)
            } else {
                String::from_str(filename)
            }
        },
        None => String::from_str(filename),
    }
}

impl JVMCompiler {
    /// Does the program fit this generator's size limits: every
    /// statement's stack depth representable, and the statement count
    /// within the address space?  A `true` answer establishes what
    /// `gen_program` requires of the input's size.
    pub fn program_fits(program: &Program<NodeData>) -> (r: bool)
        ensures
            r == (program_depths_ok(program_view(*program)) && program_view(*program).len()
                < usize::MAX),
    {
        let ghost pv = program_view(*program);
        match program {
            Program::Stmts(stms) => {
                proof {
                    assert(pv == stmts_views(stms@));
                    assert(pv.len() == stms@.len());
                }
                if stms.len() >= usize::MAX {
                    return false;
                }
                let mut i: usize = 0;
                while i < stms.len()
                    invariant
                        pv == program_view(*program),
                        pv == stmts_views(stms@),
                        i <= stms@.len(),
                        forall|t: int| 0 <= t < i ==> stmt_depth(#[trigger] pv[t]) <= i64::MAX,
                    decreases stms@.len() - i,
                {
                    proof {
                        assert(stmt_view(stms@[i as int]) == pv[i as int]);
                    }
                    if !stmt_depth_fits(&stms[i]) {
                        proof {
                            assert(stmt_depth(pv[i as int]) > i64::MAX);
                            assert(!program_depths_ok(pv));
                        }
                        return false;
                    }
                    i = i + 1;
                }
                true
            },
        }
    }

    /// Annotate one expression with the depths of all its nodes,
    /// returning its own depth.
    fn annotate_expr(e: Enriched<Expr<NodeData>, NodeData>) -> (r: (
        Enriched<Expr<NodeData>, NodeData>,
        i64,
    ))
        requires
            expr_depth(expr_view(e)) <= i64::MAX,
        ensures
            expr_view(r.0) == expr_view(e),
            expr_annotated(r.0),
            r.1 == expr_depth(expr_view(e)),
            1 <= r.1,
        decreases e,
    {
        let pos = e.1;
        match e.0 {
            Expr::Ident(name) => {
                let node = (Expr::Ident(name), pos, NodeData { stack_size: 1 });
                proof {
                    assert(expr_view(node) == expr_view(e));
                }
                (node, 1)
            },
            Expr::Literal(value) => {
                let node = (Expr::Literal(value), pos, NodeData { stack_size: 1 });
                proof {
                    assert(expr_view(node) == expr_view(e));
                }
                (node, 1)
            },
            Expr::Binary(op, l, r) => {
                proof {
                    assert(expr_depth(expr_view(*l)) <= expr_depth(expr_view(e)));
                    assert(expr_depth(expr_view(*r)) <= expr_depth(expr_view(e)));
                }
                let (l2, lh) = Self::annotate_expr(*l);
                let (r2, rh) = Self::annotate_expr(*r);
                let h = if lh == rh {
                    lh + 1
                } else if lh < rh {
                    rh
                } else {
                    lh
                };
                let node = (
                    Expr::Binary(op, Box::new(l2), Box::new(r2)),
                    pos,
                    NodeData { stack_size: h },
                );
                proof {
                    assert(expr_view(node) == expr_view(e));
                }
                (node, h)
            },
        }
    }

    /// Annotate one statement, returning the stack depth it needs: a
    /// bare expression statement needs two cells for the print call as
    /// well; an assignment needs only its expression's depth.
    fn annotate_stmt(s: Enriched<Stmt<NodeData>, NodeData>) -> (r: (
        Enriched<Stmt<NodeData>, NodeData>,
        i64,
    ))
        requires
            stmt_depth(stmt_view(s)) <= i64::MAX,
        ensures
            stmt_view(r.0) == stmt_view(s),
            stmt_annotated(r.0),
            r.1 == stmt_depth(stmt_view(s)),
            0 <= r.1,
    {
        let pos = s.1;
        match s.0 {
            Stmt::Expr(e) => {
                let (e2, d) = Self::annotate_expr(*e);
                let h = if d < 2 {
                    2
                } else {
                    d
                };
                let node = (Stmt::Expr(Box::new(e2)), pos, NodeData { stack_size: h });
                proof {
                    assert(stmt_view(node) == stmt_view(s));
                }
                (node, h)
            },
            Stmt::Assign(name, e) => {
                let (e2, d) = Self::annotate_expr(*e);
                let node = (Stmt::Assign(name, Box::new(e2)), pos, NodeData { stack_size: d });
                proof {
                    assert(stmt_view(node) == stmt_view(s));
                }
                (node, d)
            },
        }
    }

    /// Annotate one expression tree in place, returning its depth.
    pub fn compute_stack_size_for_expr(expr: &mut Enriched<Expr<NodeData>, NodeData>) -> (h: i64)
        requires
            expr_depth(expr_view(*old(expr))) <= i64::MAX,
        ensures
            expr_view(*final(expr)) == expr_view(*old(expr)),
            expr_annotated(*final(expr)),
            h == expr_depth(expr_view(*old(expr))),
    {
        let mut tmp: Enriched<Expr<NodeData>, NodeData> = (
            Expr::Literal(Literal::Num(0)),
            LineCol { line: 0, col: 0 },
            NodeData { stack_size: 0 },
        );
        core::mem::swap(expr, &mut tmp);
        let (e2, h) = Self::annotate_expr(tmp);
        *expr = e2;
        h
    }

    /// Annotate every node of the program in place with its stack
    /// depth and return the program's stack limit: the largest
    /// statement depth, or zero for an empty program.
    pub fn compute_stack_size(program: &mut Program<NodeData>) -> (limit: i64)
        requires
            program_depths_ok(program_view(*old(program))),
        ensures
            program_view(*final(program)) == program_view(*old(program)),
            program_annotated(*final(program)),
            limit == program_stack_limit(program_view(*old(program))),
            0 <= limit,
    {
        let mut tmp: Program<NodeData> = Program::Stmts(Box::new(Vec::new()));
        core::mem::swap(program, &mut tmp);
        let ghost pv = program_view(tmp);
        let mut stms: Vec<Enriched<Stmt<NodeData>, NodeData>> = match tmp {
            Program::Stmts(b) => *b,
        };
        let mut out: Vec<Enriched<Stmt<NodeData>, NodeData>> = Vec::new();
        let mut limit: i64 = 0;
        proof {
            assert(stmts_views(out@) =~= Seq::<StmtView>::empty());
            assert(program_stack_limit(stmts_views(out@)) == 0);
        }
        while stms.len() > 0
            invariant
                pv == stmts_views(out@) + stmts_views(stms@),
                program_depths_ok(pv),
                forall|t: int| 0 <= t < out@.len() ==> stmt_annotated(#[trigger] out@[t]),
                limit == program_stack_limit(stmts_views(out@)),
                0 <= limit <= i64::MAX,
            decreases stms@.len(),
        {
            let ghost stms_snap = stms@;
            let ghost out_snap = out@;
            let st = stms.remove(0);
            proof {
                assert(stmts_views(stms_snap) =~= seq![stmt_view(st)] + stmts_views(stms@));
                assert(stmt_view(st) == stmts_views(stms_snap)[0]);
                assert(stmt_view(st) == pv[out_snap.len() as int]);
                assert(stmt_depth(stmt_view(st)) <= i64::MAX);
            }
            let (st2, d) = Self::annotate_stmt(st);
            if d > limit {
                limit = d;
            }
            out.push(st2);
            proof {
                assert(stmts_views(out@) =~= stmts_views(out_snap).push(stmt_view(st)));
                lemma_stack_limit_push(stmts_views(out_snap), stmt_view(st));
                assert(pv =~= stmts_views(out@) + stmts_views(stms@));
            }
        }
        proof {
            assert(stmts_views(stms@) =~= Seq::<StmtView>::empty());
            assert(pv =~= stmts_views(out@));
        }
        *program = Program::Stmts(Box::new(out));
        limit
    }

    /// Emit the whole target text for a program: header, constructor
    /// boilerplate, the main method with its stack/locals limits
    /// spliced in ahead of the statements' code, and the trailing
    /// return.  The statements are annotated in place first.
    pub fn gen_program(&mut self, filename: &str, program: &mut Program<NodeData>) -> (out: String)
        requires
            program_depths_ok(program_view(*old(program))),
            program_lits_nonneg(program_view(*old(program))),
            program_view(*old(program)).len() < usize::MAX,
        ensures
            out@ == jvm_output(filename@, program_view(*old(program))),
            program_view(*final(program)) == program_view(*old(program)),
    {
        self.reset();
        let stack_limit = Self::compute_stack_size(program);
        let ghost pv = program_view(*program);

        let classname = strip_extension_exec(filename);
        self.emit(String::from_str(".class public ").concat(classname.as_str()));
        self.emit(String::from_str(".super java/lang/Object\n"));
        self.emit(
            String::from_str(
                ".method public <init>()V\n\taload_0\n\tinvokespecial java/lang/Object/<init>()V\n\treturn\n.end method",
            ),
        );
        self.emit(String::from_str("\n.method public static main([Ljava/lang/String;)V"));
        let ghost header = self.lines();
        let limits_idx = self.chunks.len();

        match &*program {
            Program::Stmts(stms) => {
                proof {
                    assert(pv == stmts_views(stms@));
                    assert(pv.take(0) =~= Seq::<StmtView>::empty());
                    assert(self.lines() =~= header + stmts_code(pv.take(0), Seq::empty()));
                    assert(self.slot_names() =~= slots_after_stmts(pv.take(0), Seq::empty()));
                }
                let mut i: usize = 0;
                while i < stms.len()
                    invariant
                        i <= stms@.len(),
                        stms@.len() < usize::MAX,
                        pv == stmts_views(stms@),
                        program_lits_nonneg(pv),
                        forall|t: int| 0 <= t < stms@.len() ==> stmt_annotated(
                            #[trigger] stms@[t],
                        ),
                        self.lines() == header + stmts_code(
                            pv.take(i as int),
                            Seq::<Seq<char>>::empty(),
                        ),
                        self.slot_names() == slots_after_stmts(
                            pv.take(i as int),
                            Seq::<Seq<char>>::empty(),
                        ),
                        self.slot_names().len() <= i,
                    decreases stms@.len() - i,
                {
                    proof {
                        assert(stmt_view(stms@[i as int]) == pv[i as int]);
                        assert(stmt_lits_nonneg(pv[i as int]));
                        lemma_stmts_code_push(
                            pv.take(i as int),
                            pv[i as int],
                            Seq::<Seq<char>>::empty(),
                        );
                        assert(pv.take(i + 1) =~= pv.take(i as int).push(pv[i as int]));
                    }
                    self.gen_stmt(&stms[i]);
                    i = i + 1;
                }
                proof {
                    assert(pv.take(stms@.len() as int) =~= pv);
                }
            },
        }

        let locals_limit = self.slot.len() + 1;
        let limits_line = String::from_str(".limit stack ").concat(
            u64_to_dec(stack_limit as u64).as_str(),
        ).concat("\n.limit locals ").concat(u64_to_dec(locals_limit as u64).as_str());
        let ghost limits_chunk = limits_line@;
        let ghost lines_before = self.lines();
        self.chunks.insert(limits_idx, limits_line);
        proof {
            assert(self.lines() =~= lines_before.insert(limits_idx as int, limits_chunk));
        }
        self.emit(String::from_str("\treturn\n.end method"));

        let out = join_newlines(&self.chunks);
        proof {
            let body = stmts_code(pv, Seq::<Seq<char>>::empty());
            let nslots = slots_after_stmts(pv, Seq::<Seq<char>>::empty()).len();
            assert(limits_chunk == ".limit stack "@ + dec_nat(program_stack_limit(pv))
                + "\n.limit locals "@ + dec_nat(nslots as int + 1));
            assert(self.lines() =~= seq![
                ".class public "@ + strip_extension(filename@),
                ".super java/lang/Object\n"@,
                init_text(),
                "\n.method public static main([Ljava/lang/String;)V"@,
                limits_chunk,
            ] + body + seq!["\treturn\n.end method"@]);
        }
        out
    }
}

impl Compiler for JVMCompiler {
    type ExtendedData = NodeData;

    open spec fn input_ok(p: Seq<StmtView>) -> bool {
        program_depths_ok(p) && program_lits_nonneg(p) && p.len() < usize::MAX
    }

    open spec fn output_spec(filename: Seq<char>, p: Seq<StmtView>) -> Seq<char> {
        jvm_output(filename, p)
    }

    fn compile(&mut self, filename: &str, program: Program<Self::ExtendedData>) -> (out: String) {
        let mut program = program;
        self.gen_program(filename, &mut program)
    }
}

} // verus!
