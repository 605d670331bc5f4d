//! Parser for the textual intermediate AST form produced by the front
//! end.  The grammar, with insignificant whitespace between tokens:
//!
//! ```text
//! Program  := "Prog" PositionOrNothing "[" Stmt,* "]"
//! Stmt     := "SAss" "(" Position ")" "(" Ident ")" "(" Expr ")"
//!           | "SExp" "(" Position ")" "(" Expr ")"
//! Expr     := "ExpLit" "(" Position ")" Number
//!           | "ExpVar" "(" Position ")" "(" Ident ")"
//!           | ("ExpAdd"|"ExpSub"|"ExpMul"|"ExpDiv")
//!                 "(" Position ")" "(" Expr ")" "(" Expr ")"
//! Position := "Just" "(" Number "," Number ")"
//! Ident    := "Ident" StringLiteral
//! ```
//!
//! The specification-level grammar is given by the `spec_parse_*`
//! functions below; the executable parser is proved to return exactly
//! what they describe, so parsing is deterministic by construction.

use vstd::prelude::*;

use crate::common::Annot;
use crate::common::Enriched;
use crate::common::LineCol;
use crate::error::Error;

verus! {

broadcast use vstd::string::group_string_axioms;

/// An integer literal.
#[derive(Clone, Copy, Debug, PartialEq, Eq, Structural)]
pub enum Literal {
    Num(i64),
}

/// A binary arithmetic operator.  `Add` and `Mul` are commutative;
/// `Sub` and `Div` are order-sensitive.
#[derive(Clone, Copy, Debug, PartialEq, Eq, Structural)]
pub enum BinaryOp {
    Add,
    Sub,
    Mul,
    Div,
}

/// An expression, generic over the per-backend annotation payload `D`.
#[derive(Debug)]
pub enum Expr<D> {
    Ident(String),
    Literal(Literal),
    Binary(BinaryOp, Box<Enriched<Expr<D>, D>>, Box<Enriched<Expr<D>, D>>),
}

/// A statement: a bare expression (evaluated and printed) or an
/// assignment binding a variable to an expression's value.
#[derive(Debug)]
pub enum Stmt<D> {
    Expr(Box<Enriched<Expr<D>, D>>),
    Assign(String, Box<Enriched<Expr<D>, D>>),
}

/// A program: an ordered sequence of statements.
#[derive(Debug)]
pub enum Program<D> {
    Stmts(Box<Vec<Enriched<Stmt<D>, D>>>),
}

/// The annotation-free mathematical shape of an expression node.
pub enum ExprView {
    Ident(LineCol, Seq<char>),
    Lit(LineCol, int),
    Binary(LineCol, BinaryOp, Box<ExprView>, Box<ExprView>),
}

/// The annotation-free mathematical shape of a statement node.
pub enum StmtView {
    Expr(LineCol, ExprView),
    Assign(LineCol, Seq<char>, ExprView),
}

/// The shape of an expression node, with annotations erased.
pub open spec fn expr_view<D>(e: Enriched<Expr<D>, D>) -> ExprView
    decreases e,
{
    match e.0 {
        Expr::Ident(name) => ExprView::Ident(e.1, name@),
        Expr::Literal(Literal::Num(v)) => ExprView::Lit(e.1, v as int),
        Expr::Binary(op, l, r) => ExprView::Binary(
            e.1,
            op,
            Box::new(expr_view(*l)),
            Box::new(expr_view(*r)),
        ),
    }
}

/// The shape of a statement node, with annotations erased.
pub open spec fn stmt_view<D>(s: Enriched<Stmt<D>, D>) -> StmtView {
    match s.0 {
        Stmt::Expr(e) => StmtView::Expr(s.1, expr_view(*e)),
        Stmt::Assign(n, e) => StmtView::Assign(s.1, n@, expr_view(*e)),
    }
}

/// The shape of a program: the sequence of its statement shapes, in
/// program order.
pub open spec fn program_view<D>(p: Program<D>) -> Seq<StmtView> {
    match p {
        Program::Stmts(v) => stmts_views(v@),
    }
}

/// Every annotation slot in the expression holds the empty value.
pub open spec fn expr_annots_empty<D: Annot>(e: Enriched<Expr<D>, D>) -> bool
    decreases e,
{
    &&& e.2 == D::empty_spec()
    &&& match e.0 {
        Expr::Binary(_, l, r) => expr_annots_empty(*l) && expr_annots_empty(*r),
        _ => true,
    }
}

/// Every annotation slot in the statement holds the empty value.
pub open spec fn stmt_annots_empty<D: Annot>(s: Enriched<Stmt<D>, D>) -> bool {
    &&& s.2 == D::empty_spec()
    &&& match s.0 {
        Stmt::Expr(e) => expr_annots_empty(*e),
        Stmt::Assign(_, e) => expr_annots_empty(*e),
    }
}

/// Every annotation slot in the program holds the empty value.
pub open spec fn program_annots_empty<D: Annot>(p: Program<D>) -> bool {
    match p {
        Program::Stmts(v) => forall|i: int| 0 <= i < v@.len() ==> stmt_annots_empty(#[trigger] v@[i]),
    }
}

/// Every literal in the expression is non-negative, as the front end
/// guarantees of the programs it emits.
pub open spec fn expr_lits_nonneg(v: ExprView) -> bool
    decreases v,
{
    match v {
        ExprView::Ident(_, _) => true,
        ExprView::Lit(_, n) => n >= 0,
        ExprView::Binary(_, _, l, r) => expr_lits_nonneg(*l) && expr_lits_nonneg(*r),
    }
}

/// Every literal in the statement is non-negative.
pub open spec fn stmt_lits_nonneg(v: StmtView) -> bool {
    match v {
        StmtView::Expr(_, e) => expr_lits_nonneg(e),
        StmtView::Assign(_, _, e) => expr_lits_nonneg(e),
    }
}

/// Every literal in the program is non-negative.
pub open spec fn program_lits_nonneg(p: Seq<StmtView>) -> bool {
    forall|i: int| 0 <= i < p.len() ==> stmt_lits_nonneg(#[trigger] p[i])
}

// ===================== specification-level grammar =====================

/// Whitespace is a space or a newline.
pub open spec fn is_ws(c: char) -> bool {
    c == ' ' || c == '\n'
}

/// A decimal digit.
pub open spec fn is_digit(c: char) -> bool {
    '0' <= c && c <= '9'
}

/// The numeric value of a decimal digit.
pub open spec fn digit_val(c: char) -> int {
    c as int - '0' as int
}

/// The number of consecutive whitespace characters starting at `i`.
pub open spec fn ws_count(s: Seq<char>, i: int) -> nat
    decreases s.len() - i,
{
    if 0 <= i < s.len() && is_ws(s[i]) {
        1 + ws_count(s, i + 1)
    } else {
        0
    }
}

/// The first non-whitespace index at or after `i`.
pub open spec fn skip_ws(s: Seq<char>, i: int) -> int {
    i + ws_count(s, i)
}

/// The number of consecutive decimal digits starting at `i`.
pub open spec fn digit_count(s: Seq<char>, i: int) -> nat
    decreases s.len() - i,
{
    if 0 <= i < s.len() && is_digit(s[i]) {
        1 + digit_count(s, i + 1)
    } else {
        0
    }
}

/// The value of the digit string `s[i..j]`, read in base ten.
pub open spec fn digits_val(s: Seq<char>, i: int, j: int) -> int
    decreases j - i,
{
    if i < j {
        digits_val(s, i, j - 1) * 10 + digit_val(s[j - 1])
    } else {
        0
    }
}

/// The number of consecutive non-quote characters starting at `i`.
pub open spec fn non_quote_count(s: Seq<char>, i: int) -> nat
    decreases s.len() - i,
{
    if 0 <= i < s.len() && s[i] != '"' {
        1 + non_quote_count(s, i + 1)
    } else {
        0
    }
}

/// The keyword `kw` occurs in `s` at position `i`.
pub open spec fn match_keyword(s: Seq<char>, i: int, kw: Seq<char>) -> bool {
    &&& 0 <= i
    &&& i + kw.len() <= s.len()
    &&& forall|k: int| 0 <= k < kw.len() ==> s[i + k] == kw[k]
}

pub open spec fn kw_prog() -> Seq<char> {
    seq!['P', 'r', 'o', 'g']
}

pub open spec fn kw_nothing() -> Seq<char> {
    seq!['N', 'o', 't', 'h', 'i', 'n', 'g']
}

pub open spec fn kw_just() -> Seq<char> {
    seq!['J', 'u', 's', 't']
}

pub open spec fn kw_ident() -> Seq<char> {
    seq!['I', 'd', 'e', 'n', 't']
}

pub open spec fn kw_sass() -> Seq<char> {
    seq!['S', 'A', 's', 's']
}

pub open spec fn kw_sexp() -> Seq<char> {
    seq!['S', 'E', 'x', 'p']
}

pub open spec fn kw_explit() -> Seq<char> {
    seq!['E', 'x', 'p', 'L', 'i', 't']
}

pub open spec fn kw_expvar() -> Seq<char> {
    seq!['E', 'x', 'p', 'V', 'a', 'r']
}

pub open spec fn kw_expadd() -> Seq<char> {
    seq!['E', 'x', 'p', 'A', 'd', 'd']
}

pub open spec fn kw_expsub() -> Seq<char> {
    seq!['E', 'x', 'p', 'S', 'u', 'b']
}

pub open spec fn kw_expmul() -> Seq<char> {
    seq!['E', 'x', 'p', 'M', 'u', 'l']
}

pub open spec fn kw_expdiv() -> Seq<char> {
    seq!['E', 'x', 'p', 'D', 'i', 'v']
}

/// A number: one or more digits whose value fits a 64-bit signed
/// integer.  Returns the value and the index just past the digits.
pub open spec fn spec_parse_number(s: Seq<char>, i: int) -> Option<(int, int)> {
    if 0 <= i < s.len() && is_digit(s[i]) {
        let j = i + digit_count(s, i);
        let v = digits_val(s, i, j);
        if v <= i64::MAX {
            Some((v, j))
        } else {
            None
        }
    } else {
        None
    }
}

/// A string literal: a double quote, any characters but a double
/// quote, and a closing double quote.  Returns the contents.
pub open spec fn spec_parse_stringlit(s: Seq<char>, i: int) -> Option<(Seq<char>, int)> {
    if 0 <= i < s.len() && s[i] == '"' {
        let j = i + 1 + non_quote_count(s, i + 1);
        if j < s.len() {
            Some((s.subrange(i + 1, j), j + 1))
        } else {
            None
        }
    } else {
        None
    }
}

/// An identifier: the keyword `Ident` followed by a string literal.
pub open spec fn spec_parse_ident(s: Seq<char>, i: int) -> Option<(Seq<char>, int)> {
    if match_keyword(s, i, kw_ident()) {
        spec_parse_stringlit(s, skip_ws(s, i + 5))
    } else {
        None
    }
}

/// A position: `Just` `(` line `,` column `)`.
pub open spec fn spec_parse_position(s: Seq<char>, i: int) -> Option<(LineCol, int)> {
    if match_keyword(s, i, kw_just()) {
        let i1 = skip_ws(s, i + 4);
        if i1 < s.len() && s[i1] == '(' {
            match spec_parse_number(s, skip_ws(s, i1 + 1)) {
                Some((l, i2)) => {
                    let i3 = skip_ws(s, i2);
                    if i3 < s.len() && s[i3] == ',' {
                        match spec_parse_number(s, skip_ws(s, i3 + 1)) {
                            Some((c, i4)) => {
                                let i5 = skip_ws(s, i4);
                                if i5 < s.len() && s[i5] == ')' {
                                    Some((LineCol { line: l as i64, col: c as i64 }, i5 + 1))
                                } else {
                                    None
                                }
                            },
                            None => None,
                        }
                    } else {
                        None
                    }
                },
                None => None,
            }
        } else {
            None
        }
    } else {
        None
    }
}

/// A parenthesised position: `(` Position `)`.  Returns the position
/// and the index just past the closing parenthesis.
pub open spec fn spec_parse_paren_position(s: Seq<char>, i: int) -> Option<(LineCol, int)> {
    if 0 <= i < s.len() && s[i] == '(' {
        match spec_parse_position(s, skip_ws(s, i + 1)) {
            Some((pos, j)) => {
                let k = skip_ws(s, j);
                if k < s.len() && s[k] == ')' {
                    Some((pos, k + 1))
                } else {
                    None
                }
            },
            None => None,
        }
    } else {
        None
    }
}

/// The tail of a binary expression, after its keyword: a parenthesised
/// position and two parenthesised operand expressions.
pub open spec fn spec_parse_binary_tail(s: Seq<char>, i: int, op: BinaryOp) -> Option<
    (ExprView, int),
>
    decreases s.len() - i, 1int,
{
    match spec_parse_paren_position(s, skip_ws(s, i)) {
        Some((pos, j0)) => {
            let j1 = skip_ws(s, j0);
            if j1 < s.len() && s[j1] == '(' {
                let j2 = skip_ws(s, j1 + 1);
                if i < j2 <= s.len() {
                    match spec_parse_expr(s, j2) {
                        Some((lhs, j3)) => {
                            let j4 = skip_ws(s, j3);
                            if j4 < s.len() && s[j4] == ')' {
                                let j5 = skip_ws(s, j4 + 1);
                                if j5 < s.len() && s[j5] == '(' {
                                    let j6 = skip_ws(s, j5 + 1);
                                    if i < j6 <= s.len() {
                                        match spec_parse_expr(s, j6) {
                                            Some((rhs, j7)) => {
                                                let j8 = skip_ws(s, j7);
                                                if j8 < s.len() && s[j8] == ')' {
                                                    Some(
                                                        (
                                                            ExprView::Binary(
                                                                pos,
                                                                op,
                                                                Box::new(lhs),
                                                                Box::new(rhs),
                                                            ),
                                                            j8 + 1,
                                                        ),
                                                    )
                                                } else {
                                                    None
                                                }
                                            },
                                            None => None,
                                        }
                                    } else {
                                        None
                                    }
                                } else {
                                    None
                                }
                            } else {
                                None
                            }
                        },
                        None => None,
                    }
                } else {
                    None
                }
            } else {
                None
            }
        },
        None => None,
    }
}

/// An expression, dispatched on its leading keyword.
pub open spec fn spec_parse_expr(s: Seq<char>, i: int) -> Option<(ExprView, int)>
    decreases s.len() - i, 0int,
{
    if match_keyword(s, i, kw_explit()) {
        match spec_parse_paren_position(s, skip_ws(s, i + 6)) {
            Some((pos, j)) => {
                match spec_parse_number(s, skip_ws(s, j)) {
                    Some((n, j1)) => Some((ExprView::Lit(pos, n), j1)),
                    None => None,
                }
            },
            None => None,
        }
    } else if match_keyword(s, i, kw_expvar()) {
        match spec_parse_paren_position(s, skip_ws(s, i + 6)) {
            Some((pos, j)) => {
                let j1 = skip_ws(s, j);
                if j1 < s.len() && s[j1] == '(' {
                    match spec_parse_ident(s, skip_ws(s, j1 + 1)) {
                        Some((name, j2)) => {
                            let j3 = skip_ws(s, j2);
                            if j3 < s.len() && s[j3] == ')' {
                                Some((ExprView::Ident(pos, name), j3 + 1))
                            } else {
                                None
                            }
                        },
                        None => None,
                    }
                } else {
                    None
                }
            },
            None => None,
        }
    } else if match_keyword(s, i, kw_expadd()) {
        spec_parse_binary_tail(s, i + 6, BinaryOp::Add)
    } else if match_keyword(s, i, kw_expsub()) {
        spec_parse_binary_tail(s, i + 6, BinaryOp::Sub)
    } else if match_keyword(s, i, kw_expmul()) {
        spec_parse_binary_tail(s, i + 6, BinaryOp::Mul)
    } else if match_keyword(s, i, kw_expdiv()) {
        spec_parse_binary_tail(s, i + 6, BinaryOp::Div)
    } else {
        None
    }
}

/// A statement: `SAss` with a position, an identifier and an
/// expression, or `SExp` with a position and an expression, each part
/// parenthesised.
pub open spec fn spec_parse_stmt(s: Seq<char>, i: int) -> Option<(StmtView, int)>
    decreases s.len() - i,
{
    if match_keyword(s, i, kw_sass()) {
        match spec_parse_paren_position(s, skip_ws(s, i + 4)) {
            Some((pos, j)) => {
                let j1 = skip_ws(s, j);
                if j1 < s.len() && s[j1] == '(' {
                    match spec_parse_ident(s, skip_ws(s, j1 + 1)) {
                        Some((name, j2)) => {
                            let j3 = skip_ws(s, j2);
                            if j3 < s.len() && s[j3] == ')' {
                                let j4 = skip_ws(s, j3 + 1);
                                if j4 < s.len() && s[j4] == '(' {
                                    let j5 = skip_ws(s, j4 + 1);
                                    if i < j5 <= s.len() {
                                        match spec_parse_expr(s, j5) {
                                            Some((e, j6)) => {
                                                let j7 = skip_ws(s, j6);
                                                if j7 < s.len() && s[j7] == ')' {
                                                    Some((StmtView::Assign(pos, name, e), j7 + 1))
                                                } else {
                                                    None
                                                }
                                            },
                                            None => None,
                                        }
                                    } else {
                                        None
                                    }
                                } else {
                                    None
                                }
                            } else {
                                None
                            }
                        },
                        None => None,
                    }
                } else {
                    None
                }
            },
            None => None,
        }
    } else if match_keyword(s, i, kw_sexp()) {
        match spec_parse_paren_position(s, skip_ws(s, i + 4)) {
            Some((pos, j)) => {
                let j1 = skip_ws(s, j);
                if j1 < s.len() && s[j1] == '(' {
                    let j2 = skip_ws(s, j1 + 1);
                    if i < j2 <= s.len() {
                        match spec_parse_expr(s, j2) {
                            Some((e, j3)) => {
                                let j4 = skip_ws(s, j3);
                                if j4 < s.len() && s[j4] == ')' {
                                    Some((StmtView::Expr(pos, e), j4 + 1))
                                } else {
                                    None
                                }
                            },
                            None => None,
                        }
                    } else {
                        None
                    }
                } else {
                    None
                }
            },
            None => None,
        }
    } else {
        None
    }
}

/// One or more comma-separated statements followed by a closing
/// bracket, starting at the first statement.
pub open spec fn spec_parse_stmt_list_rest(s: Seq<char>, i: int) -> Option<(Seq<StmtView>, int)>
    decreases s.len() - i,
{
    match spec_parse_stmt(s, i) {
        Some((st, j)) => {
            let k = skip_ws(s, j);
            if k < s.len() && s[k] == ',' {
                let m = skip_ws(s, k + 1);
                if i < m <= s.len() {
                    match spec_parse_stmt_list_rest(s, m) {
                        Some((rest, e)) => Some((seq![st] + rest, e)),
                        None => None,
                    }
                } else {
                    None
                }
            } else if k < s.len() && s[k] == ']' {
                Some((seq![st], k + 1))
            } else {
                None
            }
        },
        None => None,
    }
}

/// A bracketed, comma-separated, possibly empty statement list.
pub open spec fn spec_parse_stmt_list(s: Seq<char>, i: int) -> Option<(Seq<StmtView>, int)> {
    if 0 <= i < s.len() && s[i] == '[' {
        let j = skip_ws(s, i + 1);
        if j < s.len() && s[j] == ']' {
            Some((Seq::empty(), j + 1))
        } else {
            spec_parse_stmt_list_rest(s, j)
        }
    } else {
        None
    }
}

/// The statement list of a program, followed by trailing whitespace
/// and the end of the input.
pub open spec fn spec_finish_program(s: Seq<char>, i: int) -> Option<Seq<StmtView>> {
    match spec_parse_stmt_list(s, i) {
        Some((stmts, j)) => {
            if skip_ws(s, j) == s.len() {
                Some(stmts)
            } else {
                None
            }
        },
        None => None,
    }
}

/// A whole program: `Prog`, then either a parenthesised position
/// (whose value is discarded) or `Nothing`, then the bracketed
/// statement list, then the end of the input.
pub open spec fn spec_parse_program(s: Seq<char>) -> Option<Seq<StmtView>> {
    let i0 = skip_ws(s, 0);
    if match_keyword(s, i0, kw_prog()) {
        let i1 = skip_ws(s, i0 + 4);
        if i1 < s.len() && s[i1] == '(' {
            match spec_parse_position(s, skip_ws(s, i1 + 1)) {
                Some((_pos, i2)) => {
                    let i3 = skip_ws(s, i2);
                    if i3 < s.len() && s[i3] == ')' {
                        spec_finish_program(s, skip_ws(s, i3 + 1))
                    } else {
                        None
                    }
                },
                None => None,
            }
        } else if match_keyword(s, i1, kw_nothing()) {
            spec_finish_program(s, skip_ws(s, i1 + 7))
        } else {
            None
        }
    } else {
        None
    }
}

/// The 1-based line number of offset `k` in `s`: one more than the
/// number of newlines before `k`.
pub open spec fn line_at(s: Seq<char>, k: int) -> int
    decreases k,
{
    if k <= 0 {
        1
    } else {
        line_at(s, k - 1) + if s[k - 1] == '\n' {
            1int
        } else {
            0int
        }
    }
}

/// The 1-based column number of offset `k` in `s`: the distance to
/// the last newline before `k`, plus one.
pub open spec fn col_at(s: Seq<char>, k: int) -> int
    decreases k,
{
    if k <= 0 {
        1
    } else if s[k - 1] == '\n' {
        1
    } else {
        col_at(s, k - 1) + 1
    }
}

/// The line/column position of offset `k` in `s`.
pub open spec fn line_col_at(s: Seq<char>, k: int) -> LineCol {
    LineCol { line: line_at(s, k) as i64, col: col_at(s, k) as i64 }
}

// ========================== executable parser ==========================

/// A run of digits lies within the input and consists of digits.
proof fn lemma_digit_run(s: Seq<char>, i: int)
    requires
        0 <= i <= s.len(),
    ensures
        i + digit_count(s, i) <= s.len(),
        forall|t: int| i <= t < i + digit_count(s, i) ==> is_digit(#[trigger] s[t]),
    decreases s.len() - i,
{
    if i < s.len() && is_digit(s[i]) {
        lemma_digit_run(s, i + 1);
    }
}

/// Appending digits to a non-negative digit string never shrinks its
/// value.
proof fn lemma_digits_val_mono(s: Seq<char>, i: int, k: int, m: int)
    requires
        i <= k <= m,
        digits_val(s, i, k) >= 0,
        forall|t: int| k <= t < m ==> is_digit(#[trigger] s[t]),
    ensures
        digits_val(s, i, m) >= digits_val(s, i, k),
    decreases m - k,
{
    if k < m {
        lemma_digits_val_mono(s, i, k, m - 1);
        assert(is_digit(s[m - 1]));
        assert(digit_val(s[m - 1]) >= 0);
        let a = digits_val(s, i, m - 1);
        assert(a * 10 >= a);
    }
}

/// The characters of a string, as a vector.
pub fn str_to_chars(s: &str) -> (r: Vec<char>)
    ensures
        r@ == s@,
{
    let n = s.unicode_len();
    let mut v: Vec<char> = Vec::new();
    let mut i: usize = 0;
    while i < n
        invariant
            n == s@.len(),
            i <= n,
            v@ == s@.subrange(0, i as int),
        decreases n - i,
    {
        let c = s.get_char(i);
        v.push(c);
        proof {
            assert(v@ =~= s@.subrange(0, i + 1));
        }
        i = i + 1;
    }
    proof {
        assert(v@ =~= s@);
    }
    v
}

/// Advance past spaces and newlines.
fn skip_ws_exec(chars: &Vec<char>, i: usize) -> (j: usize)
    requires
        i <= chars@.len(),
    ensures
        j as int == skip_ws(chars@, i as int),
        i <= j <= chars@.len(),
{
    let ghost s = chars@;
    let mut k = i;
    loop
        invariant
            i <= k <= s.len(),
            s == chars@,
            ws_count(s, i as int) == k - i + ws_count(s, k as int),
        decreases s.len() - k,
    {
        if k == chars.len() {
            return k;
        }
        let c = chars[k];
        if c != ' ' && c != '\n' {
            return k;
        }
        k = k + 1;
    }
}

/// Does the keyword occur at position `i`?
fn match_kw_exec(chars: &Vec<char>, i: usize, kw: &str) -> (b: bool)
    requires
        i <= chars@.len(),
    ensures
        b == match_keyword(chars@, i as int, kw@),
        chars@.len() <= usize::MAX,
{
    let n = kw.unicode_len();
    let clen = chars.len();
    if n > clen - i {
        return false;
    }
    let mut k: usize = 0;
    while k < n
        invariant
            clen == chars@.len(),
            i + n <= clen,
            n == kw@.len(),
            k <= n,
            forall|t: int| 0 <= t < k ==> chars@[i + t] == kw@[t],
        decreases n - k,
    {
        if chars[i + k] != kw.get_char(k) {
            return false;
        }
        k = k + 1;
    }
    true
}

/// The numeric value of a decimal digit character.
fn digit_of(c: char) -> (d: i64)
    requires
        is_digit(c),
    ensures
        d == digit_val(c),
        0 <= d <= 9,
{
    match c {
        '0' => 0,
        '1' => 1,
        '2' => 2,
        '3' => 3,
        '4' => 4,
        '5' => 5,
        '6' => 6,
        '7' => 7,
        '8' => 8,
        _ => 9,
    }
}

/// Parse a decimal number that fits a 64-bit signed integer.
fn parse_number(chars: &Vec<char>, i: usize) -> (r: Result<(i64, usize), usize>)
    requires
        i <= chars@.len(),
    ensures
        match r {
            Ok((v, j)) => {
                &&& spec_parse_number(chars@, i as int) == Some((v as int, j as int))
                &&& v >= 0
                &&& i < j <= chars@.len()
            },
            Err(k) => {
                &&& spec_parse_number(chars@, i as int) is None
                &&& i <= k <= chars@.len()
            },
        },
{
    let ghost s = chars@;
    if i == chars.len() {
        return Err(i);
    }
    let c0 = chars[i];
    if c0 < '0' || c0 > '9' {
        return Err(i);
    }
    let mut k = i;
    let mut acc: i64 = 0;
    loop
        invariant
            i <= k <= s.len(),
            s == chars@,
            i < s.len() && is_digit(s[i as int]),
            digit_count(s, i as int) == k - i + digit_count(s, k as int),
            acc == digits_val(s, i as int, k as int),
            0 <= acc <= i64::MAX,
        decreases s.len() - k,
    {
        if k == chars.len() {
            assert(digit_count(s, k as int) == 0);
            return Ok((acc, k));
        }
        let c = chars[k];
        if c < '0' || c > '9' {
            assert(digit_count(s, k as int) == 0);
            return Ok((acc, k));
        }
        let d = digit_of(c);
        if acc > (i64::MAX - d) / 10 {
            proof {
                let b = i64::MAX - d;
                let q = b / 10;
                assert(b == q * 10 + b % 10 && 0 <= b % 10 < 10) by (nonlinear_arith)
                    requires
                        b >= 0,
                        q == b / 10,
                ;
                assert(acc * 10 >= (q + 1) * 10) by (nonlinear_arith)
                    requires
                        acc >= q + 1,
                ;
                assert(acc * 10 + d > i64::MAX);
                assert(digits_val(s, i as int, k + 1) == acc * 10 + d);
                lemma_digit_run(s, i as int);
                assert(digit_count(s, k as int) >= 1);
                let jf = i + digit_count(s, i as int);
                assert(k + 1 <= jf);
                lemma_digits_val_mono(s, i as int, k + 1, jf);
                assert(digits_val(s, i as int, jf) > i64::MAX);
            }
            return Err(k);
        }
        proof {
            let b = i64::MAX - d;
            let q = b / 10;
            assert(b == q * 10 + b % 10 && 0 <= b % 10 < 10) by (nonlinear_arith)
                requires
                    b >= 0,
                    q == b / 10,
            ;
            assert(acc * 10 <= q * 10) by (nonlinear_arith)
                requires
                    0 <= acc <= q,
            ;
            assert(acc * 10 + d <= i64::MAX);
        }
        acc = acc * 10 + d;
        k = k + 1;
    }
}

/// Parse a double-quoted string literal without escape processing.
fn parse_stringlit(chars: &Vec<char>, src: &str, i: usize) -> (r: Result<(String, usize), usize>)
    requires
        chars@ == src@,
        i <= chars@.len(),
    ensures
        match r {
            Ok((t, j)) => {
                &&& spec_parse_stringlit(chars@, i as int) == Some((t@, j as int))
                &&& i < j <= chars@.len()
            },
            Err(k) => {
                &&& spec_parse_stringlit(chars@, i as int) is None
                &&& i <= k <= chars@.len()
            },
        },
{
    let ghost s = chars@;
    if i == chars.len() {
        return Err(i);
    }
    if chars[i] != '"' {
        return Err(i);
    }
    let mut k = i + 1;
    loop
        invariant
            i + 1 <= k <= s.len(),
            s == chars@,
            s == src@,
            i < s.len() && s[i as int] == '"',
            non_quote_count(s, i + 1) == k - (i + 1) + non_quote_count(s, k as int),
        decreases s.len() - k,
    {
        if k == chars.len() {
            assert(non_quote_count(s, k as int) == 0);
            return Err(k);
        }
        if chars[k] == '"' {
            assert(non_quote_count(s, k as int) == 0);
            let sub = src.substring_char(i + 1, k);
            let t = String::from_str(sub);
            return Ok((t, k + 1));
        }
        k = k + 1;
    }
}

/// Parse `Ident` followed by a string literal.
fn parse_ident(chars: &Vec<char>, src: &str, i: usize) -> (r: Result<(String, usize), usize>)
    requires
        chars@ == src@,
        i <= chars@.len(),
    ensures
        match r {
            Ok((t, j)) => {
                &&& spec_parse_ident(chars@, i as int) == Some((t@, j as int))
                &&& i < j <= chars@.len()
            },
            Err(k) => {
                &&& spec_parse_ident(chars@, i as int) is None
                &&& i <= k <= chars@.len()
            },
        },
{
    proof {
        reveal_strlit("Ident");
        assert(kw_ident() =~= "Ident"@);
    }
    if !match_kw_exec(chars, i, "Ident") {
        return Err(i);
    }
    let j = skip_ws_exec(chars, i + 5);
    parse_stringlit(chars, src, j)
}

/// Parse `Just ( line , column )`.
fn parse_position(chars: &Vec<char>, i: usize) -> (r: Result<(LineCol, usize), usize>)
    requires
        i <= chars@.len(),
    ensures
        match r {
            Ok((p, j)) => {
                &&& spec_parse_position(chars@, i as int) == Some((p, j as int))
                &&& i < j <= chars@.len()
            },
            Err(k) => {
                &&& spec_parse_position(chars@, i as int) is None
                &&& i <= k <= chars@.len()
            },
        },
{
    proof {
        reveal_strlit("Just");
        assert(kw_just() =~= "Just"@);
    }
    if !match_kw_exec(chars, i, "Just") {
        return Err(i);
    }
    let i1 = skip_ws_exec(chars, i + 4);
    if i1 == chars.len() {
        return Err(i1);
    }
    if chars[i1] != '(' {
        return Err(i1);
    }
    let i1b = skip_ws_exec(chars, i1 + 1);
    let (l, i2) = match parse_number(chars, i1b) {
        Ok(x) => x,
        Err(k) => {
            return Err(k);
        },
    };
    let i3 = skip_ws_exec(chars, i2);
    if i3 == chars.len() {
        return Err(i3);
    }
    if chars[i3] != ',' {
        return Err(i3);
    }
    let i3b = skip_ws_exec(chars, i3 + 1);
    let (c, i4) = match parse_number(chars, i3b) {
        Ok(x) => x,
        Err(k) => {
            return Err(k);
        },
    };
    let i5 = skip_ws_exec(chars, i4);
    if i5 == chars.len() {
        return Err(i5);
    }
    if chars[i5] != ')' {
        return Err(i5);
    }
    Ok((LineCol { line: l, col: c }, i5 + 1))
}

/// Parse `(` Position `)`.
fn parse_paren_position(chars: &Vec<char>, i: usize) -> (r: Result<(LineCol, usize), usize>)
    requires
        i <= chars@.len(),
    ensures
        match r {
            Ok((p, j)) => {
                &&& spec_parse_paren_position(chars@, i as int) == Some((p, j as int))
                &&& i < j <= chars@.len()
            },
            Err(k) => {
                &&& spec_parse_paren_position(chars@, i as int) is None
                &&& i <= k <= chars@.len()
            },
        },
{
    if i == chars.len() {
        return Err(i);
    }
    if chars[i] != '(' {
        return Err(i);
    }
    let j0 = skip_ws_exec(chars, i + 1);
    let (pos, j) = match parse_position(chars, j0) {
        Ok(x) => x,
        Err(k) => {
            return Err(k);
        },
    };
    let k = skip_ws_exec(chars, j);
    if k == chars.len() {
        return Err(k);
    }
    if chars[k] != ')' {
        return Err(k);
    }
    Ok((pos, k + 1))
}

/// Parse the tail of a binary expression, after its keyword.
fn parse_binary_tail<D: Annot>(chars: &Vec<char>, src: &str, i: usize, op: BinaryOp) -> (r: Result<
    (Enriched<Expr<D>, D>, usize),
    usize,
>)
    requires
        chars@ == src@,
        i <= chars@.len(),
    ensures
        match r {
            Ok((e, j)) => {
                &&& spec_parse_binary_tail(chars@, i as int, op) == Some(
                    (expr_view(e), j as int),
                )
                &&& expr_annots_empty(e)
                &&& i <= j <= chars@.len()
            },
            Err(k) => {
                &&& spec_parse_binary_tail(chars@, i as int, op) is None
                &&& i <= k <= chars@.len()
            },
        },
    decreases chars@.len() - i, 1int,
{
    let i0 = skip_ws_exec(chars, i);
    let (pos, j0) = match parse_paren_position(chars, i0) {
        Ok(x) => x,
        Err(k) => {
            return Err(k);
        },
    };
    let j1 = skip_ws_exec(chars, j0);
    if j1 == chars.len() {
        return Err(j1);
    }
    if chars[j1] != '(' {
        return Err(j1);
    }
    let j2 = skip_ws_exec(chars, j1 + 1);
    let (lhs, j3) = match parse_expr(chars, src, j2) {
        Ok(x) => x,
        Err(k) => {
            return Err(k);
        },
    };
    let j4 = skip_ws_exec(chars, j3);
    if j4 == chars.len() {
        return Err(j4);
    }
    if chars[j4] != ')' {
        return Err(j4);
    }
    let j5 = skip_ws_exec(chars, j4 + 1);
    if j5 == chars.len() {
        return Err(j5);
    }
    if chars[j5] != '(' {
        return Err(j5);
    }
    let j6 = skip_ws_exec(chars, j5 + 1);
    let (rhs, j7) = match parse_expr(chars, src, j6) {
        Ok(x) => x,
        Err(k) => {
            return Err(k);
        },
    };
    let j8 = skip_ws_exec(chars, j7);
    if j8 == chars.len() {
        return Err(j8);
    }
    if chars[j8] != ')' {
        return Err(j8);
    }
    let e = (Expr::Binary(op, Box::new(lhs), Box::new(rhs)), pos, D::empty());
    Ok((e, j8 + 1))
}

/// Parse an expression, dispatching on its leading keyword.
fn parse_expr<D: Annot>(chars: &Vec<char>, src: &str, i: usize) -> (r: Result<
    (Enriched<Expr<D>, D>, usize),
    usize,
>)
    requires
        chars@ == src@,
        i <= chars@.len(),
    ensures
        match r {
            Ok((e, j)) => {
                &&& spec_parse_expr(chars@, i as int) == Some((expr_view(e), j as int))
                &&& expr_annots_empty(e)
                &&& i < j <= chars@.len()
            },
            Err(k) => {
                &&& spec_parse_expr(chars@, i as int) is None
                &&& i <= k <= chars@.len()
            },
        },
    decreases chars@.len() - i, 0int,
{
    proof {
        reveal_strlit("ExpLit");
        reveal_strlit("ExpVar");
        reveal_strlit("ExpAdd");
        reveal_strlit("ExpSub");
        reveal_strlit("ExpMul");
        reveal_strlit("ExpDiv");
        assert(kw_explit() =~= "ExpLit"@);
        assert(kw_expvar() =~= "ExpVar"@);
        assert(kw_expadd() =~= "ExpAdd"@);
        assert(kw_expsub() =~= "ExpSub"@);
        assert(kw_expmul() =~= "ExpMul"@);
        assert(kw_expdiv() =~= "ExpDiv"@);
    }
    if match_kw_exec(chars, i, "ExpLit") {
        let j0 = skip_ws_exec(chars, i + 6);
        let (pos, j) = match parse_paren_position(chars, j0) {
            Ok(x) => x,
            Err(k) => {
                return Err(k);
            },
        };
        let j1 = skip_ws_exec(chars, j);
        let (n, j2) = match parse_number(chars, j1) {
            Ok(x) => x,
            Err(k) => {
                return Err(k);
            },
        };
        let e = (Expr::Literal(Literal::Num(n)), pos, D::empty());
        Ok((e, j2))
    } else if match_kw_exec(chars, i, "ExpVar") {
        let j0 = skip_ws_exec(chars, i + 6);
        let (pos, j) = match parse_paren_position(chars, j0) {
            Ok(x) => x,
            Err(k) => {
                return Err(k);
            },
        };
        let j1 = skip_ws_exec(chars, j);
        if j1 == chars.len() {
            return Err(j1);
        }
        if chars[j1] != '(' {
            return Err(j1);
        }
        let (name, j2) = match parse_ident(chars, src, skip_ws_exec(chars, j1 + 1)) {
            Ok(x) => x,
            Err(k) => {
                return Err(k);
            },
        };
        let j3 = skip_ws_exec(chars, j2);
        if j3 == chars.len() {
            return Err(j3);
        }
        if chars[j3] != ')' {
            return Err(j3);
        }
        let e = (Expr::Ident(name), pos, D::empty());
        Ok((e, j3 + 1))
    } else if match_kw_exec(chars, i, "ExpAdd") {
        parse_binary_tail(chars, src, i + 6, BinaryOp::Add)
    } else if match_kw_exec(chars, i, "ExpSub") {
        parse_binary_tail(chars, src, i + 6, BinaryOp::Sub)
    } else if match_kw_exec(chars, i, "ExpMul") {
        parse_binary_tail(chars, src, i + 6, BinaryOp::Mul)
    } else if match_kw_exec(chars, i, "ExpDiv") {
        parse_binary_tail(chars, src, i + 6, BinaryOp::Div)
    } else {
        Err(i)
    }
}

/// Parse a statement, dispatching on its leading keyword.
fn parse_stmt<D: Annot>(chars: &Vec<char>, src: &str, i: usize) -> (r: Result<
    (Enriched<Stmt<D>, D>, usize),
    usize,
>)
    requires
        chars@ == src@,
        i <= chars@.len(),
    ensures
        match r {
            Ok((st, j)) => {
                &&& spec_parse_stmt(chars@, i as int) == Some((stmt_view(st), j as int))
                &&& stmt_annots_empty(st)
                &&& i < j <= chars@.len()
            },
            Err(k) => {
                &&& spec_parse_stmt(chars@, i as int) is None
                &&& i <= k <= chars@.len()
            },
        },
{
    proof {
        reveal_strlit("SAss");
        reveal_strlit("SExp");
        assert(kw_sass() =~= "SAss"@);
        assert(kw_sexp() =~= "SExp"@);
    }
    if match_kw_exec(chars, i, "SAss") {
        let j0 = skip_ws_exec(chars, i + 4);
        let (pos, j) = match parse_paren_position(chars, j0) {
            Ok(x) => x,
            Err(k) => {
                return Err(k);
            },
        };
        let j1 = skip_ws_exec(chars, j);
        if j1 == chars.len() {
            return Err(j1);
        }
        if chars[j1] != '(' {
            return Err(j1);
        }
        let (name, j2) = match parse_ident(chars, src, skip_ws_exec(chars, j1 + 1)) {
            Ok(x) => x,
            Err(k) => {
                return Err(k);
            },
        };
        let j3 = skip_ws_exec(chars, j2);
        if j3 == chars.len() {
            return Err(j3);
        }
        if chars[j3] != ')' {
            return Err(j3);
        }
        let j4 = skip_ws_exec(chars, j3 + 1);
        if j4 == chars.len() {
            return Err(j4);
        }
        if chars[j4] != '(' {
            return Err(j4);
        }
        let j5 = skip_ws_exec(chars, j4 + 1);
        let (e, j6) = match parse_expr(chars, src, j5) {
            Ok(x) => x,
            Err(k) => {
                return Err(k);
            },
        };
        let j7 = skip_ws_exec(chars, j6);
        if j7 == chars.len() {
            return Err(j7);
        }
        if chars[j7] != ')' {
            return Err(j7);
        }
        let st = (Stmt::Assign(name, Box::new(e)), pos, D::empty());
        Ok((st, j7 + 1))
    } else if match_kw_exec(chars, i, "SExp") {
        let j0 = skip_ws_exec(chars, i + 4);
        let (pos, j) = match parse_paren_position(chars, j0) {
            Ok(x) => x,
            Err(k) => {
                return Err(k);
            },
        };
        let j1 = skip_ws_exec(chars, j);
        if j1 == chars.len() {
            return Err(j1);
        }
        if chars[j1] != '(' {
            return Err(j1);
        }
        let j2 = skip_ws_exec(chars, j1 + 1);
        let (e, j3) = match parse_expr(chars, src, j2) {
            Ok(x) => x,
            Err(k) => {
                return Err(k);
            },
        };
        let j4 = skip_ws_exec(chars, j3);
        if j4 == chars.len() {
            return Err(j4);
        }
        if chars[j4] != ')' {
            return Err(j4);
        }
        let st = (Stmt::Expr(Box::new(e)), pos, D::empty());
        Ok((st, j4 + 1))
    } else {
        Err(i)
    }
}

/// The statement shapes of a sequence of statement nodes.
pub open spec fn stmts_views<D>(v: Seq<Enriched<Stmt<D>, D>>) -> Seq<StmtView> {
    v.map(|t: int, s: Enriched<Stmt<D>, D>| stmt_view(s))
}

/// Parse one or more comma-separated statements and the closing
/// bracket.
fn parse_stmt_list_rest<D: Annot>(chars: &Vec<char>, src: &str, i: usize) -> (r: Result<
    (Vec<Enriched<Stmt<D>, D>>, usize),
    usize,
>)
    requires
        chars@ == src@,
        i <= chars@.len(),
    ensures
        match r {
            Ok((v, j)) => {
                &&& spec_parse_stmt_list_rest(chars@, i as int) == Some(
                    (stmts_views(v@), j as int),
                )
                &&& forall|t: int| 0 <= t < v@.len() ==> stmt_annots_empty(#[trigger] v@[t])
                &&& i < j <= chars@.len()
            },
            Err(k) => {
                &&& spec_parse_stmt_list_rest(chars@, i as int) is None
                &&& i <= k <= chars@.len()
            },
        },
    decreases chars@.len() - i,
{
    let (st, j) = match parse_stmt(chars, src, i) {
        Ok(x) => x,
        Err(k) => {
            return Err(k);
        },
    };
    let k = skip_ws_exec(chars, j);
    if k < chars.len() && chars[k] == ',' {
        let m = skip_ws_exec(chars, k + 1);
        let (rest, e) = match parse_stmt_list_rest(chars, src, m) {
            Ok(x) => x,
            Err(k2) => {
                return Err(k2);
            },
        };
        let mut v = rest;
        let ghost rest_snap = v@;
        v.insert(0, st);
        proof {
            assert(stmts_views(v@) =~= seq![stmt_view(st)] + stmts_views(rest_snap));
        }
        Ok((v, e))
    } else if k < chars.len() && chars[k] == ']' {
        let mut v: Vec<Enriched<Stmt<D>, D>> = Vec::new();
        v.push(st);
        proof {
            assert(stmts_views(v@) =~= seq![stmt_view(st)]);
        }
        Ok((v, k + 1))
    } else {
        Err(k)
    }
}

/// Parse a bracketed, comma-separated, possibly empty statement list.
fn parse_stmt_list<D: Annot>(chars: &Vec<char>, src: &str, i: usize) -> (r: Result<
    (Vec<Enriched<Stmt<D>, D>>, usize),
    usize,
>)
    requires
        chars@ == src@,
        i <= chars@.len(),
    ensures
        match r {
            Ok((v, j)) => {
                &&& spec_parse_stmt_list(chars@, i as int) == Some((stmts_views(v@), j as int))
                &&& forall|t: int| 0 <= t < v@.len() ==> stmt_annots_empty(#[trigger] v@[t])
                &&& i < j <= chars@.len()
            },
            Err(k) => {
                &&& spec_parse_stmt_list(chars@, i as int) is None
                &&& i <= k <= chars@.len()
            },
        },
{
    if i == chars.len() {
        return Err(i);
    }
    if chars[i] != '[' {
        return Err(i);
    }
    let j = skip_ws_exec(chars, i + 1);
    if j < chars.len() && chars[j] == ']' {
        let v: Vec<Enriched<Stmt<D>, D>> = Vec::new();
        proof {
            assert(stmts_views(v@) =~= Seq::<StmtView>::empty());
        }
        Ok((v, j + 1))
    } else {
        parse_stmt_list_rest(chars, src, j)
    }
}

/// Compute the line/column position of offset `k`.
fn line_col_exec(chars: &Vec<char>, k: usize) -> (p: LineCol)
    requires
        k <= chars@.len(),
        chars@.len() < i64::MAX,
    ensures
        p == line_col_at(chars@, k as int),
{
    let mut line: i64 = 1;
    let mut col: i64 = 1;
    let mut t: usize = 0;
    while t < k
        invariant
            t <= k <= chars@.len() < i64::MAX,
            line == line_at(chars@, t as int),
            col == col_at(chars@, t as int),
            1 <= line <= t + 1,
            1 <= col <= t + 1,
        decreases k - t,
    {
        if chars[t] == '\n' {
            line = line + 1;
            col = 1;
        } else {
            col = col + 1;
        }
        t = t + 1;
    }
    LineCol { line, col }
}

/// A syntax error at offset `k`.
fn syntax_error(chars: &Vec<char>, k: usize) -> (e: Error)
    requires
        k <= chars@.len(),
        chars@.len() < i64::MAX,
    ensures
        e.pos == line_col_at(chars@, k as int),
{
    Error { msg: String::from_str("syntax error"), pos: line_col_exec(chars, k) }
}

/// Parse a whole program from its textual intermediate form.
///
/// Succeeds exactly on the inputs that the grammar
/// (`spec_parse_program`) accepts, and then returns the abstract
/// syntax tree that the grammar describes, every annotation slot
/// filled with the empty annotation.  On failure the error carries
/// the line/column of a position within the input.
pub fn parse<D: Annot>(source: &str) -> (r: Result<Program<D>, Error>)
    requires
        source@.len() < i64::MAX,
    ensures
        match r {
            Ok(p) => {
                &&& spec_parse_program(source@) == Some(program_view(p))
                &&& program_annots_empty(p)
                &&& program_lits_nonneg(program_view(p))
            },
            Err(e) => {
                &&& spec_parse_program(source@) is None
                &&& exists|k: int|
                    0 <= k <= source@.len() && e.pos == line_col_at(source@, k)
            },
        },
{
    proof {
        reveal_strlit("Prog");
        reveal_strlit("Nothing");
        assert(kw_prog() =~= "Prog"@);
        assert(kw_nothing() =~= "Nothing"@);
        lemma_parsed_program_lits_nonneg(source@);
    }
    let chars = str_to_chars(source);
    let i0 = skip_ws_exec(&chars, 0);
    if !match_kw_exec(&chars, i0, "Prog") {
        return Err(syntax_error(&chars, i0));
    }
    let i1 = skip_ws_exec(&chars, i0 + 4);
    let i5: usize;
    if i1 < chars.len() && chars[i1] == '(' {
        let i1b = skip_ws_exec(&chars, i1 + 1);
        let i2 = match parse_position(&chars, i1b) {
            Ok((_pos, x)) => x,
            Err(k) => {
                return Err(syntax_error(&chars, k));
            },
        };
        let i3 = skip_ws_exec(&chars, i2);
        if i3 == chars.len() {
            return Err(syntax_error(&chars, i3));
        }
        if chars[i3] != ')' {
            return Err(syntax_error(&chars, i3));
        }
        i5 = skip_ws_exec(&chars, i3 + 1);
    } else if match_kw_exec(&chars, i1, "Nothing") {
        i5 = skip_ws_exec(&chars, i1 + 7);
    } else {
        return Err(syntax_error(&chars, i1));
    }
    let (stmts, j) = match parse_stmt_list(&chars, source, i5) {
        Ok(x) => x,
        Err(k) => {
            return Err(syntax_error(&chars, k));
        },
    };
    let k2 = skip_ws_exec(&chars, j);
    if k2 != chars.len() {
        return Err(syntax_error(&chars, k2));
    }
    let p = Program::Stmts(Box::new(stmts));
    Ok(p)
}

/// A number the grammar accepts is non-negative.
proof fn lemma_parsed_number_nonneg(s: Seq<char>, i: int)
    ensures
        spec_parse_number(s, i) matches Some(r) ==> r.0 >= 0,
{
    if 0 <= i < s.len() && is_digit(s[i]) {
        lemma_digit_run(s, i);
        lemma_digits_val_mono(s, i, i, i + digit_count(s, i));
    }
}

/// Every literal in an expression the grammar accepts is
/// non-negative: literals are plain digit strings.
pub proof fn lemma_parsed_expr_lits_nonneg(s: Seq<char>, i: int)
    ensures
        spec_parse_expr(s, i) matches Some(r) ==> expr_lits_nonneg(r.0),
    decreases s.len() - i, 0int,
{
    if match_keyword(s, i, kw_explit()) {
        match spec_parse_paren_position(s, skip_ws(s, i + 6)) {
            Some((_pos, j)) => {
                lemma_parsed_number_nonneg(s, skip_ws(s, j));
            },
            None => {},
        }
    } else if match_keyword(s, i, kw_expvar()) {
    } else if match_keyword(s, i, kw_expadd()) {
        lemma_parsed_binary_tail_lits_nonneg(s, i + 6, BinaryOp::Add);
    } else if match_keyword(s, i, kw_expsub()) {
        lemma_parsed_binary_tail_lits_nonneg(s, i + 6, BinaryOp::Sub);
    } else if match_keyword(s, i, kw_expmul()) {
        lemma_parsed_binary_tail_lits_nonneg(s, i + 6, BinaryOp::Mul);
    } else if match_keyword(s, i, kw_expdiv()) {
        lemma_parsed_binary_tail_lits_nonneg(s, i + 6, BinaryOp::Div);
    }
}

/// Every literal in an accepted binary expression's operands is
/// non-negative.
proof fn lemma_parsed_binary_tail_lits_nonneg(s: Seq<char>, i: int, op: BinaryOp)
    ensures
        spec_parse_binary_tail(s, i, op) matches Some(r) ==> expr_lits_nonneg(r.0),
    decreases s.len() - i, 1int,
{
    match spec_parse_paren_position(s, skip_ws(s, i)) {
        Some((_pos, j0)) => {
            let j1 = skip_ws(s, j0);
            if j1 < s.len() && s[j1] == '(' {
                let j2 = skip_ws(s, j1 + 1);
                if i < j2 <= s.len() {
                    lemma_parsed_expr_lits_nonneg(s, j2);
                    match spec_parse_expr(s, j2) {
                        Some((_lhs, j3)) => {
                            let j4 = skip_ws(s, j3);
                            if j4 < s.len() && s[j4] == ')' {
                                let j5 = skip_ws(s, j4 + 1);
                                if j5 < s.len() && s[j5] == '(' {
                                    let j6 = skip_ws(s, j5 + 1);
                                    if i < j6 <= s.len() {
                                        lemma_parsed_expr_lits_nonneg(s, j6);
                                    }
                                }
                            }
                        },
                        None => {},
                    }
                }
            }
        },
        None => {},
    }
}

/// Every literal in a statement the grammar accepts is non-negative.
pub proof fn lemma_parsed_stmt_lits_nonneg(s: Seq<char>, i: int)
    ensures
        spec_parse_stmt(s, i) matches Some(r) ==> stmt_lits_nonneg(r.0),
{
    if match_keyword(s, i, kw_sass()) {
        match spec_parse_paren_position(s, skip_ws(s, i + 4)) {
            Some((_pos, j)) => {
                let j1 = skip_ws(s, j);
                if j1 < s.len() && s[j1] == '(' {
                    match spec_parse_ident(s, skip_ws(s, j1 + 1)) {
                        Some((_name, j2)) => {
                            let j3 = skip_ws(s, j2);
                            if j3 < s.len() && s[j3] == ')' {
                                let j4 = skip_ws(s, j3 + 1);
                                if j4 < s.len() && s[j4] == '(' {
                                    let j5 = skip_ws(s, j4 + 1);
                                    if i < j5 <= s.len() {
                                        lemma_parsed_expr_lits_nonneg(s, j5);
                                    }
                                }
                            }
                        },
                        None => {},
                    }
                }
            },
            None => {},
        }
    } else if match_keyword(s, i, kw_sexp()) {
        match spec_parse_paren_position(s, skip_ws(s, i + 4)) {
            Some((_pos, j)) => {
                let j1 = skip_ws(s, j);
                if j1 < s.len() && s[j1] == '(' {
                    let j2 = skip_ws(s, j1 + 1);
                    if i < j2 <= s.len() {
                        lemma_parsed_expr_lits_nonneg(s, j2);
                    }
                }
            },
            None => {},
        }
    }
}

/// Every literal in an accepted statement list is non-negative.
proof fn lemma_parsed_stmt_list_rest_lits_nonneg(s: Seq<char>, i: int)
    ensures
        spec_parse_stmt_list_rest(s, i) matches Some(r) ==> program_lits_nonneg(r.0),
    decreases s.len() - i,
{
    lemma_parsed_stmt_lits_nonneg(s, i);
    match spec_parse_stmt(s, i) {
        Some((st, j)) => {
            let k = skip_ws(s, j);
            if k < s.len() && s[k] == ',' {
                let m = skip_ws(s, k + 1);
                if i < m <= s.len() {
                    lemma_parsed_stmt_list_rest_lits_nonneg(s, m);
                    match spec_parse_stmt_list_rest(s, m) {
                        Some((rest, _e)) => {
                            let whole = seq![st] + rest;
                            assert forall|t: int|
                                0 <= t < whole.len() implies stmt_lits_nonneg(
                                #[trigger] whole[t],
                            ) by {
                                if t > 0 {
                                    assert(whole[t] == rest[t - 1]);
                                }
                            }
                        },
                        None => {},
                    }
                }
            } else if k < s.len() && s[k] == ']' {
                let whole = seq![st];
                assert(whole[0] == st);
            }
        },
        None => {},
    }
}

/// Every literal in a program the grammar accepts is non-negative.
pub proof fn lemma_parsed_program_lits_nonneg(s: Seq<char>)
    ensures
        spec_parse_program(s) matches Some(p) ==> program_lits_nonneg(p),
{
    let i0 = skip_ws(s, 0);
    if match_keyword(s, i0, kw_prog()) {
        let i1 = skip_ws(s, i0 + 4);
        if i1 < s.len() && s[i1] == '(' {
            match spec_parse_position(s, skip_ws(s, i1 + 1)) {
                Some((_pos, i2)) => {
                    let i3 = skip_ws(s, i2);
                    if i3 < s.len() && s[i3] == ')' {
                        lemma_parsed_finish_program_lits_nonneg(s, skip_ws(s, i3 + 1));
                    }
                },
                None => {},
            }
        } else if match_keyword(s, i1, kw_nothing()) {
            lemma_parsed_finish_program_lits_nonneg(s, skip_ws(s, i1 + 7));
        }
    }
}

/// Every literal in an accepted bracketed statement list is
/// non-negative.
proof fn lemma_parsed_finish_program_lits_nonneg(s: Seq<char>, i: int)
    ensures
        spec_finish_program(s, i) matches Some(p) ==> program_lits_nonneg(p),
{
    if 0 <= i < s.len() && s[i] == '[' {
        let j = skip_ws(s, i + 1);
        if j < s.len() && s[j] == ']' {
        } else {
            lemma_parsed_stmt_list_rest_lits_nonneg(s, j);
        }
    }
}

} // verus!
