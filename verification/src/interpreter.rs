//! The evaluator: walks the tree, dispatching on node kind, mutating the
//! scope chain and the output, and producing a value.
//!
//! The spec functions `eval_*_v` are the big-step semantics over the tree's
//! views and a state of scope-chain and output views; every executable
//! evaluator method is proved to agree with them exactly. Frames are pushed
//! on block entry and popped on every exit, the early-return path included,
//! so the chain's depth is an invariant of successful evaluation.
use crate::builtins::{
    apply_to_bool, builtins_map, print_fold, s_print, s_to_bool, spec_to_bool, to_bool,
};
use crate::object::{
    binop_mismatch, binop_mismatch_text, coerce_mismatch_text, kind_of, kind_text, objs_view, ErrV,
    EvalError, NativeFn, Object, Val,
};
use crate::parser::{
    dup_stmt, dup_strings, lemma_view_conds_index, lemma_view_stmts_index, lemma_view_terms_index,
    lemma_view_factors_index, view_conds, view_stmts, view_terms, view_factors, view_stmt,
    Expr, ExprOp, ExprV, Factor, FactorV, Program, Statement, StmtV, Term, TermOp, TermV,
};
use crate::scope::{
    define_v, lemma_reassign_v_len, lemma_scope_at_least_one, lookup_v, reassign_v, Scope,
};
use vstd::prelude::*;
use vstd::string::StringExecFns;

verus! {

/// The evaluator's mathematical state: the scope chain's maps and the output
/// lines emitted so far.
pub struct StateV {
    pub scopes: Seq<Map<Seq<char>, Val>>,
    pub out: Seq<Seq<char>>,
}

/// Discard the innermost frame.
pub open spec fn pop_frame(sc: Seq<Map<Seq<char>, Val>>) -> Seq<Map<Seq<char>, Val>> {
    if sc.len() > 0 {
        sc.drop_last()
    } else {
        sc
    }
}

pub open spec fn abs_int(a: int) -> int {
    if a < 0 {
        -a
    } else {
        a
    }
}

/// Signed division truncating toward zero.
pub open spec fn div_trunc(a: int, b: int) -> int
    recommends
        b != 0,
{
    if (a < 0) == (b < 0) {
        abs_int(a) / abs_int(b)
    } else {
        -(abs_int(a) / abs_int(b))
    }
}

/// `s` repeated `n` times.
pub open spec fn repeat_seq(s: Seq<char>, n: nat) -> Seq<char>
    decreases n,
{
    if n == 0 {
        Seq::empty()
    } else {
        repeat_seq(s, (n - 1) as nat) + s
    }
}

/// The operator's text, as the error messages name it.
pub open spec fn exprop_text(op: ExprOp) -> Seq<char> {
    if op == ExprOp::Add {
        "+"@
    } else {
        "-"@
    }
}

pub open spec fn termop_text(op: TermOp) -> Seq<char> {
    if op == TermOp::Mul {
        "*"@
    } else {
        "/"@
    }
}

/// Additive operators: 32-bit signed arithmetic (a result out of range is an
/// arithmetic error), or string concatenation under `+`.
pub open spec fn spec_exprop(op: ExprOp, l: Val, r: Val) -> Result<Val, ErrV> {
    match (l, r) {
        (Val::Integer(a), Val::Integer(b)) => {
            let v = if op == ExprOp::Add {
                a as int + b as int
            } else {
                a as int - b as int
            };
            if i32::MIN <= v <= i32::MAX {
                Ok(Val::Integer(v as i32))
            } else {
                Err(ErrV::Arithmetic { detail: "arithmetic result out of the 32-bit range"@ })
            }
        },
        (Val::String(x), Val::String(y)) => if op == ExprOp::Add {
            Ok(Val::String(x + y))
        } else {
            Err(
                ErrV::TypeMismatch {
                    detail: binop_mismatch_text(exprop_text(op), Val::String(x), Val::String(y)),
                },
            )
        },
        _ => Err(ErrV::TypeMismatch { detail: binop_mismatch_text(exprop_text(op), l, r) }),
    }
}

/// Multiplicative operators: 32-bit signed arithmetic with division
/// truncating toward zero (division by zero and out-of-range results are
/// arithmetic errors), or string repetition under `*` (a negative count is an
/// arithmetic error).
pub open spec fn spec_termop(op: TermOp, l: Val, r: Val) -> Result<Val, ErrV> {
    match (l, r) {
        (Val::Integer(a), Val::Integer(b)) => if op == TermOp::Div {
            if b == 0 {
                Err(ErrV::Arithmetic { detail: "division by zero"@ })
            } else {
                let q = div_trunc(a as int, b as int);
                if i32::MIN <= q <= i32::MAX {
                    Ok(Val::Integer(q as i32))
                } else {
                    Err(ErrV::Arithmetic { detail: "arithmetic result out of the 32-bit range"@ })
                }
            }
        } else {
            let p = (a as int) * (b as int);
            if i32::MIN <= p <= i32::MAX {
                Ok(Val::Integer(p as i32))
            } else {
                Err(ErrV::Arithmetic { detail: "arithmetic result out of the 32-bit range"@ })
            }
        },
        (Val::String(s), Val::Integer(n)) => if op == TermOp::Mul {
            if n < 0 {
                Err(
                    ErrV::Arithmetic {
                        detail: "cannot repeat a string a negative number of times"@,
                    },
                )
            } else {
                Ok(Val::String(repeat_seq(s, n as nat)))
            }
        } else {
            Err(
                ErrV::TypeMismatch {
                    detail: binop_mismatch_text(termop_text(op), Val::String(s), Val::Integer(n)),
                },
            )
        },
        _ => Err(ErrV::TypeMismatch { detail: binop_mismatch_text(termop_text(op), l, r) }),
    }
}

/// Apply a native procedure to already-evaluated arguments.
pub open spec fn apply_native_v(st: StateV, f: NativeFn, vals: Seq<Val>) -> (
    StateV,
    Result<Val, ErrV>,
) {
    match f {
        NativeFn::Print => {
            let folded = print_fold(st.out, vals, 0);
            (StateV { scopes: st.scopes, out: folded.0 }, folded.1)
        },
        NativeFn::ToBool => (st, apply_to_bool(vals)),
    }
}

/// Big-step evaluation of one statement.
pub open spec fn eval_stmt_v(st: StateV, s: StmtV) -> (StateV, Result<Val, ErrV>)
    decreases s, 0int, 0int,
{
    match s {
        StmtV::BlockStatement { statements } => eval_stmts_v(
            StateV { scopes: st.scopes.push(Map::empty()), out: st.out },
            statements,
            0,
        ),
        StmtV::Assign { ident, expr, change } => {
            let (st1, r) = eval_expr_v(st, expr);
            match r {
                Err(e) => (st1, Err(e)),
                Ok(v) => if change {
                    match reassign_v(st1.scopes, ident, v) {
                        Some(sc) => (StateV { scopes: sc, out: st1.out }, Ok(Val::Null)),
                        None => (st1, Err(ErrV::ReassignUndefined { name: ident })),
                    }
                } else {
                    (
                        StateV { scopes: define_v(st1.scopes, ident, v), out: st1.out },
                        Ok(Val::Null),
                    )
                },
            }
        },
        StmtV::Expr { expr } => eval_expr_v(st, expr),
        StmtV::Return { statement } => eval_stmt_v(st, *statement),
        StmtV::FunctionDec { params, body } => (st, Ok(Val::Function(params, *body))),
        StmtV::FunctionCall { func, args } => {
            let (st1, r) = eval_stmt_v(st, *func);
            match r {
                Err(e) => (st1, Err(e)),
                Ok(fv) => match fv {
                    Val::RustFunction(nf) => {
                        let (st2, ar) = eval_args_v(st1, args, 0, Seq::empty());
                        match ar {
                            Err(e) => (st2, Err(e)),
                            Ok(vals) => apply_native_v(st2, nf, vals),
                        }
                    },
                    _ => (st1, Err(ErrV::NotCallable { callee: kind_text(fv) })),
                },
            }
        },
        StmtV::If { conditions } => eval_conds_v(st, conditions, 0),
    }
}

/// A block's body from statement `k` on. The caller has pushed a fresh frame;
/// it is popped exactly once on every exit — the fall-through path and the
/// early-return path alike.
pub open spec fn eval_stmts_v(st: StateV, ss: Seq<StmtV>, k: int) -> (StateV, Result<Val, ErrV>)
    decreases ss, ss.len() - k, 0int,
{
    if !(0 <= k < ss.len()) {
        (StateV { scopes: pop_frame(st.scopes), out: st.out }, Ok(Val::Null))
    } else {
        match ss[k] {
            StmtV::Return { statement } => {
                let (st1, r) = eval_stmt_v(st, *statement);
                match r {
                    Err(e) => (st1, Err(e)),
                    Ok(v) => (StateV { scopes: pop_frame(st1.scopes), out: st1.out }, Ok(v)),
                }
            },
            _ => {
                let (st1, r) = eval_stmt_v(st, ss[k]);
                match r {
                    Err(e) => (st1, Err(e)),
                    Ok(_v) => eval_stmts_v(st1, ss, k + 1),
                }
            },
        }
    }
}

/// An `if`-chain from entry `k` on: the first entry whose condition is absent
/// or coerces to true decides; a chain nothing decides yields null.
pub open spec fn eval_conds_v(st: StateV, cs: Seq<(Option<StmtV>, StmtV)>, k: int) -> (
    StateV,
    Result<Val, ErrV>,
)
    decreases cs, cs.len() - k, 0int,
{
    if !(0 <= k < cs.len()) {
        (st, Ok(Val::Null))
    } else {
        match cs[k].0 {
            Some(cond) => {
                let (st1, r) = eval_stmt_v(st, cond);
                match r {
                    Err(e) => (st1, Err(e)),
                    Ok(v) => match spec_to_bool(v) {
                        None => (st1, Err(ErrV::TypeMismatch { detail: coerce_mismatch_text(v) })),
                        Some(true) => eval_stmt_v(st1, cs[k].1),
                        Some(false) => eval_conds_v(st1, cs, k + 1),
                    },
                }
            },
            None => eval_stmt_v(st, cs[k].1),
        }
    }
}

/// An additive chain: the first term, then a strict left fold.
pub open spec fn eval_expr_v(st: StateV, e: ExprV) -> (StateV, Result<Val, ErrV>)
    decreases e, 0int, 0int,
{
    if e.terms.len() == 0 {
        (st, Ok(Val::Null))
    } else {
        let (st1, r) = eval_term_v(st, e.terms[0]);
        match r {
            Err(err) => (st1, Err(err)),
            Ok(acc) => eval_terms_fold_v(st1, e.terms, e.ops, 1, acc),
        }
    }
}

/// Left fold of the additive chain from term `k` on. An operator list shorter
/// than the operand list is a malformed tree, reported as a type mismatch.
pub open spec fn eval_terms_fold_v(
    st: StateV,
    terms: Seq<TermV>,
    ops: Seq<ExprOp>,
    k: int,
    acc: Val,
) -> (StateV, Result<Val, ErrV>)
    decreases terms, terms.len() - k, 0int,
{
    if !(0 <= k < terms.len()) {
        (st, Ok(acc))
    } else {
        let (st1, r) = eval_term_v(st, terms[k]);
        match r {
            Err(e) => (st1, Err(e)),
            Ok(right) => if !(0 <= k - 1 < ops.len()) {
                (st1, Err(ErrV::TypeMismatch { detail: "operator list shorter than operand list"@ }))
            } else {
                match spec_exprop(ops[k - 1], acc, right) {
                    Err(e) => (st1, Err(e)),
                    Ok(acc2) => eval_terms_fold_v(st1, terms, ops, k + 1, acc2),
                }
            },
        }
    }
}

/// A multiplicative chain: the first factor, then a strict left fold.
pub open spec fn eval_term_v(st: StateV, t: TermV) -> (StateV, Result<Val, ErrV>)
    decreases t, 0int, 0int,
{
    if t.factors.len() == 0 {
        (st, Ok(Val::Null))
    } else {
        let (st1, r) = eval_factor_v(st, t.factors[0]);
        match r {
            Err(err) => (st1, Err(err)),
            Ok(acc) => eval_factors_fold_v(st1, t.factors, t.ops, 1, acc),
        }
    }
}

/// Left fold of the multiplicative chain from factor `k` on.
pub open spec fn eval_factors_fold_v(
    st: StateV,
    factors: Seq<FactorV>,
    ops: Seq<TermOp>,
    k: int,
    acc: Val,
) -> (StateV, Result<Val, ErrV>)
    decreases factors, factors.len() - k, 0int,
{
    if !(0 <= k < factors.len()) {
        (st, Ok(acc))
    } else {
        let (st1, r) = eval_factor_v(st, factors[k]);
        match r {
            Err(e) => (st1, Err(e)),
            Ok(right) => if !(0 <= k - 1 < ops.len()) {
                (st1, Err(ErrV::TypeMismatch { detail: "operator list shorter than operand list"@ }))
            } else {
                match spec_termop(ops[k - 1], acc, right) {
                    Err(e) => (st1, Err(e)),
                    Ok(acc2) => eval_factors_fold_v(st1, factors, ops, k + 1, acc2),
                }
            },
        }
    }
}

/// A factor: a literal is itself, an identifier is looked up innermost to
/// outermost, a nested statement is evaluated.
pub open spec fn eval_factor_v(st: StateV, f: FactorV) -> (StateV, Result<Val, ErrV>)
    decreases f, 0int, 0int,
{
    match f {
        FactorV::IntFactor(n) => (st, Ok(Val::Integer(n))),
        FactorV::StringFactor(s) => (st, Ok(Val::String(s))),
        FactorV::BoolFactor(b) => (st, Ok(Val::Boolean(b))),
        FactorV::IdentFactor(id) => match lookup_v(st.scopes, id) {
            Some(v) => (st, Ok(v)),
            None => (st, Err(ErrV::Unresolved { name: id })),
        },
        FactorV::StmtFactor(b) => eval_stmt_v(st, *b),
    }
}

/// Call arguments evaluated left to right; the first error stops evaluation.
pub open spec fn eval_args_v(st: StateV, args: Seq<StmtV>, k: int, acc: Seq<Val>) -> (
    StateV,
    Result<Seq<Val>, ErrV>,
)
    decreases args, args.len() - k, 0int,
{
    if !(0 <= k < args.len()) {
        (st, Ok(acc))
    } else {
        let (st1, r) = eval_stmt_v(st, args[k]);
        match r {
            Err(e) => (st1, Err(e)),
            Ok(v) => eval_args_v(st1, args, k + 1, acc.push(v)),
        }
    }
}

} // verus!

verus! {

// ---------------------------------------------------------------------------
// Frame balance: a successfully evaluated statement leaves the scope chain
// exactly as deep as it found it — pushes and pops pair up on every path, so
// a frame and its bindings never leak out of their block.
// ---------------------------------------------------------------------------

/// Frame balance for one statement.
pub proof fn lemma_eval_stmt_depth(st: StateV, s: StmtV)
    requires
        st.scopes.len() >= 1,
    ensures
        ({
            let (st2, r) = eval_stmt_v(st, s);
            r is Ok ==> st2.scopes.len() == st.scopes.len()
        }),
    decreases s, 0int, 1int,
{
    match s {
        StmtV::BlockStatement { statements } => {
            lemma_eval_stmts_depth(
                StateV { scopes: st.scopes.push(Map::empty()), out: st.out },
                statements,
                0,
            );
        },
        StmtV::Assign { ident, expr, change } => {
            lemma_eval_expr_depth(st, expr);
            let (st1, r) = eval_expr_v(st, expr);
            if r is Ok && change {
                lemma_reassign_v_len(st1.scopes, ident, r->Ok_0);
            }
        },
        StmtV::Expr { expr } => {
            lemma_eval_expr_depth(st, expr);
        },
        StmtV::Return { statement } => {
            lemma_eval_stmt_depth(st, *statement);
        },
        StmtV::FunctionDec { .. } => {},
        StmtV::FunctionCall { func, args } => {
            lemma_eval_stmt_depth(st, *func);
            let (st1, r) = eval_stmt_v(st, *func);
            if r is Ok {
                lemma_eval_args_depth(st1, args, 0, Seq::empty());
            }
        },
        StmtV::If { conditions } => {
            lemma_eval_conds_depth(st, conditions, 0);
        },
    }
}

proof fn lemma_eval_stmts_depth(st: StateV, ss: Seq<StmtV>, k: int)
    requires
        st.scopes.len() >= 1,
    ensures
        ({
            let (st2, r) = eval_stmts_v(st, ss, k);
            r is Ok ==> st2.scopes.len() == st.scopes.len() - 1
        }),
    decreases ss, ss.len() - k, 1int,
{
    if 0 <= k < ss.len() {
        match ss[k] {
            StmtV::Return { statement } => {
                lemma_eval_stmt_depth(st, *statement);
            },
            _ => {
                lemma_eval_stmt_depth(st, ss[k]);
                let (st1, r) = eval_stmt_v(st, ss[k]);
                if r is Ok {
                    lemma_eval_stmts_depth(st1, ss, k + 1);
                }
            },
        }
    }
}

proof fn lemma_eval_conds_depth(st: StateV, cs: Seq<(Option<StmtV>, StmtV)>, k: int)
    requires
        st.scopes.len() >= 1,
    ensures
        ({
            let (st2, r) = eval_conds_v(st, cs, k);
            r is Ok ==> st2.scopes.len() == st.scopes.len()
        }),
    decreases cs, cs.len() - k, 1int,
{
    if 0 <= k < cs.len() {
        match cs[k].0 {
            Some(cond) => {
                lemma_eval_stmt_depth(st, cond);
                let (st1, r) = eval_stmt_v(st, cond);
                if r is Ok {
                    match spec_to_bool(r->Ok_0) {
                        Some(true) => {
                            lemma_eval_stmt_depth(st1, cs[k].1);
                        },
                        Some(false) => {
                            lemma_eval_conds_depth(st1, cs, k + 1);
                        },
                        None => {},
                    }
                }
            },
            None => {
                lemma_eval_stmt_depth(st, cs[k].1);
            },
        }
    }
}

proof fn lemma_eval_expr_depth(st: StateV, e: ExprV)
    requires
        st.scopes.len() >= 1,
    ensures
        ({
            let (st2, r) = eval_expr_v(st, e);
            r is Ok ==> st2.scopes.len() == st.scopes.len()
        }),
    decreases e, 0int, 1int,
{
    if e.terms.len() > 0 {
        lemma_eval_term_depth(st, e.terms[0]);
        let (st1, r) = eval_term_v(st, e.terms[0]);
        if r is Ok {
            lemma_eval_terms_fold_depth(st1, e.terms, e.ops, 1, r->Ok_0);
        }
    }
}

proof fn lemma_eval_terms_fold_depth(st: StateV, terms: Seq<TermV>, ops: Seq<ExprOp>, k: int, acc: Val)
    requires
        st.scopes.len() >= 1,
    ensures
        ({
            let (st2, r) = eval_terms_fold_v(st, terms, ops, k, acc);
            r is Ok ==> st2.scopes.len() == st.scopes.len()
        }),
    decreases terms, terms.len() - k, 1int,
{
    if 0 <= k < terms.len() {
        lemma_eval_term_depth(st, terms[k]);
        let (st1, r) = eval_term_v(st, terms[k]);
        if r is Ok && 0 <= k - 1 < ops.len() {
            match spec_exprop(ops[k - 1], acc, r->Ok_0) {
                Ok(acc2) => {
                    lemma_eval_terms_fold_depth(st1, terms, ops, k + 1, acc2);
                },
                Err(_e) => {},
            }
        }
    }
}

proof fn lemma_eval_term_depth(st: StateV, t: TermV)
    requires
        st.scopes.len() >= 1,
    ensures
        ({
            let (st2, r) = eval_term_v(st, t);
            r is Ok ==> st2.scopes.len() == st.scopes.len()
        }),
    decreases t, 0int, 1int,
{
    if t.factors.len() > 0 {
        lemma_eval_factor_depth(st, t.factors[0]);
        let (st1, r) = eval_factor_v(st, t.factors[0]);
        if r is Ok {
            lemma_eval_factors_fold_depth(st1, t.factors, t.ops, 1, r->Ok_0);
        }
    }
}

proof fn lemma_eval_factors_fold_depth(
    st: StateV,
    factors: Seq<FactorV>,
    ops: Seq<TermOp>,
    k: int,
    acc: Val,
)
    requires
        st.scopes.len() >= 1,
    ensures
        ({
            let (st2, r) = eval_factors_fold_v(st, factors, ops, k, acc);
            r is Ok ==> st2.scopes.len() == st.scopes.len()
        }),
    decreases factors, factors.len() - k, 1int,
{
    if 0 <= k < factors.len() {
        lemma_eval_factor_depth(st, factors[k]);
        let (st1, r) = eval_factor_v(st, factors[k]);
        if r is Ok && 0 <= k - 1 < ops.len() {
            match spec_termop(ops[k - 1], acc, r->Ok_0) {
                Ok(acc2) => {
                    lemma_eval_factors_fold_depth(st1, factors, ops, k + 1, acc2);
                },
                Err(_e) => {},
            }
        }
    }
}

proof fn lemma_eval_factor_depth(st: StateV, f: FactorV)
    requires
        st.scopes.len() >= 1,
    ensures
        ({
            let (st2, r) = eval_factor_v(st, f);
            r is Ok ==> st2.scopes.len() == st.scopes.len()
        }),
    decreases f, 0int, 1int,
{
    match f {
        FactorV::StmtFactor(b) => {
            lemma_eval_stmt_depth(st, *b);
        },
        _ => {},
    }
}

proof fn lemma_eval_args_depth(st: StateV, args: Seq<StmtV>, k: int, acc: Seq<Val>)
    requires
        st.scopes.len() >= 1,
    ensures
        ({
            let (st2, r) = eval_args_v(st, args, k, acc);
            r is Ok ==> st2.scopes.len() == st.scopes.len()
        }),
    decreases args, args.len() - k, 1int,
{
    if 0 <= k < args.len() {
        lemma_eval_stmt_depth(st, args[k]);
        let (st1, r) = eval_stmt_v(st, args[k]);
        if r is Ok {
            lemma_eval_args_depth(st1, args, k + 1, acc.push(r->Ok_0));
        }
    }
}

} // verus!

verus! {

/// The tree-walking evaluator: the current scope chain and the output lines
/// emitted so far. The host prints the lines; on an error it still has every
/// line emitted before the failure.
pub struct Interpreter {
    current_scope: Scope,
    output: Vec<String>,
}

impl View for Interpreter {
    type V = StateV;

    closed spec fn view(&self) -> StateV {
        StateV { scopes: self.current_scope@, out: self.output.deep_view() }
    }
}

/// The evaluator's chain always holds at least the root frame, so the depth
/// law applies to every reachable state.
pub proof fn lemma_interpreter_chain_nonempty(it: &Interpreter)
    ensures
        it@.scopes.len() >= 1,
{
    lemma_scope_at_least_one(&it.current_scope);
}

impl Interpreter {
    /// A fresh evaluator: the root frame seeded with the natives, no output.
    pub fn new() -> (it: Interpreter)
        ensures
            it@.scopes == seq![builtins_map()],
            it@.out == Seq::<Seq<char>>::empty(),
    {
        let it = Interpreter { current_scope: Scope::new_root(), output: Vec::new() };
        proof {
            assert(it@.out =~= Seq::<Seq<char>>::empty());
        }
        it
    }

    /// The lines `print` has emitted so far, in order.
    pub fn output(&self) -> (r: &Vec<String>)
        ensures
            r.deep_view() == self@.out,
    {
        &self.output
    }

    /// Evaluate a whole program: its top-level statement.
    pub fn eval_program(&mut self, program: &Program) -> (r: Result<Object, EvalError>)
        ensures
            ({
                let (st2, rv) = eval_stmt_v(old(self)@, program@.body);
                final(self)@ == st2 && (match r {
                    Ok(o) => rv == Ok::<Val, ErrV>(o@),
                    Err(e) => rv == Err::<Val, ErrV>(e@),
                })
            }),
    {
        self.eval_statement(&program.body)
    }

    /// Enter a new innermost frame.
    pub fn extend_scope(&mut self)
        ensures
            final(self)@.scopes == old(self)@.scopes.push(Map::<Seq<char>, Val>::empty()),
            final(self)@.out == old(self)@.out,
    {
        let mut tmp = Scope::new_empty();
        core::mem::swap(&mut tmp, &mut self.current_scope);
        self.current_scope = tmp.extend();
    }

    /// Discard the innermost frame and return to its parent.
    pub fn retrieve_scope(&mut self)
        requires
            old(self)@.scopes.len() >= 2,
        ensures
            final(self)@.scopes == old(self)@.scopes.drop_last(),
            final(self)@.out == old(self)@.out,
    {
        let mut tmp = Scope::new_empty();
        core::mem::swap(&mut tmp, &mut self.current_scope);
        self.current_scope = tmp.retrieve();
    }

    /// Evaluate a block's statements in a fresh frame, popped on every exit.
    pub fn eval_block_vec(&mut self, statements: &Vec<Statement>) -> (r: Result<Object, EvalError>)
        ensures
            ({
                let (st2, rv) = eval_stmts_v(
                    StateV {
                        scopes: old(self)@.scopes.push(Map::<Seq<char>, Val>::empty()),
                        out: old(self)@.out,
                    },
                    view_stmts(statements@),
                    0,
                );
                final(self)@ == st2 && (match r {
                    Ok(o) => rv == Ok::<Val, ErrV>(o@),
                    Err(e) => rv == Err::<Val, ErrV>(e@),
                })
            }),
        decreases statements, statements@.len() + 1, 0int,
    {
        proof {
            lemma_scope_at_least_one(&self.current_scope);
        }
        self.extend_scope();
        self.eval_stmts(statements, 0)
    }

    /// The block body from statement `k` on; pops the innermost frame on both
    /// the fall-through and the early-return exit.
    fn eval_stmts(&mut self, statements: &Vec<Statement>, k: usize) -> (r: Result<
        Object,
        EvalError,
    >)
        requires
            old(self)@.scopes.len() >= 2,
        ensures
            ({
                let (st2, rv) = eval_stmts_v(old(self)@, view_stmts(statements@), k as int);
                final(self)@ == st2 && (match r {
                    Ok(o) => rv == Ok::<Val, ErrV>(o@),
                    Err(e) => rv == Err::<Val, ErrV>(e@),
                })
            }),
        decreases statements, statements@.len() - k, 0int,
    {
        proof {
            lemma_view_stmts_index(statements@);
        }
        if k >= statements.len() {
            self.retrieve_scope();
            return Ok(Object::Null);
        }
        match &statements[k] {
            Statement::Return { statement } => {
                let v = self.eval_statement(&**statement)?;
                proof {
                    lemma_eval_stmt_depth(old(self)@, *view_stmt(statements@[k as int])->Return_statement);
                }
                self.retrieve_scope();
                Ok(v)
            },
            _ => {
                let _ = self.eval_statement(&statements[k])?;
                proof {
                    lemma_eval_stmt_depth(old(self)@, view_stmt(statements@[k as int]));
                }
                self.eval_stmts(statements, k + 1)
            },
        }
    }

    /// Evaluate one statement against the current chain and output.
    pub fn eval_statement(&mut self, statement: &Statement) -> (r: Result<Object, EvalError>)
        ensures
            ({
                let (st2, rv) = eval_stmt_v(old(self)@, statement@);
                final(self)@ == st2 && (match r {
                    Ok(o) => rv == Ok::<Val, ErrV>(o@),
                    Err(e) => rv == Err::<Val, ErrV>(e@),
                })
            }),
        decreases statement, 0int, 1int,
    {
        match statement {
            Statement::BlockStatement { statements } => self.eval_block_vec(statements),
            Statement::Assign { ident, expr, change } => {
                let val = self.eval_expr(expr)?;
                if *change {
                    if !self.current_scope.reassign(ident.as_str(), &val) {
                        return Err(EvalError::ReassignUndefined { name: ident.clone() });
                    }
                } else {
                    self.current_scope.set(ident.as_str(), &val);
                }
                Ok(Object::Null)
            },
            Statement::Expr { expr } => self.eval_expr(expr),
            Statement::Return { statement: inner } => self.eval_statement(&**inner),
            Statement::FunctionDec { params, body } => Ok(
                Object::Function(dup_strings(params), dup_stmt(body)),
            ),
            Statement::FunctionCall { func, args } => {
                let fv = self.eval_statement(&**func)?;
                match fv {
                    Object::RustFunction(nf) => {
                        let mut vals: Vec<Object> = Vec::new();
                        proof {
                            assert(objs_view(vals@) =~= Seq::<Val>::empty());
                        }
                        self.eval_args(args, 0, &mut vals)?;
                        self.call_native(nf, &vals)
                    },
                    other => Err(EvalError::NotCallable { callee: kind_of(&other) }),
                }
            },
            Statement::If { conditions } => self.eval_if_conds(conditions, 0),
        }
    }

    /// The `if`-chain from entry `k` on.
    fn eval_if_conds(
        &mut self,
        conditions: &Vec<(Option<Statement>, Statement)>,
        k: usize,
    ) -> (r: Result<Object, EvalError>)
        ensures
            ({
                let (st2, rv) = eval_conds_v(old(self)@, view_conds(conditions@), k as int);
                final(self)@ == st2 && (match r {
                    Ok(o) => rv == Ok::<Val, ErrV>(o@),
                    Err(e) => rv == Err::<Val, ErrV>(e@),
                })
            }),
        decreases conditions, conditions@.len() - k, 0int,
    {
        proof {
            lemma_view_conds_index(conditions@);
        }
        if k >= conditions.len() {
            return Ok(Object::Null);
        }
        let c = &conditions[k];
        match &c.0 {
            Some(cond) => {
                let v = self.eval_statement(cond)?;
                match to_bool(&v) {
                    Err(e) => Err(e),
                    Ok(true) => self.eval_statement(&c.1),
                    Ok(false) => self.eval_if_conds(conditions, k + 1),
                }
            },
            None => self.eval_statement(&c.1),
        }
    }

    /// Evaluate call arguments left to right into `vals`.
    fn eval_args(
        &mut self,
        args: &Vec<Statement>,
        k: usize,
        vals: &mut Vec<Object>,
    ) -> (r: Result<(), EvalError>)
        ensures
            ({
                let (st2, rv) = eval_args_v(
                    old(self)@,
                    view_stmts(args@),
                    k as int,
                    objs_view(old(vals)@),
                );
                final(self)@ == st2 && (match r {
                    Ok(()) => rv == Ok::<Seq<Val>, ErrV>(objs_view(final(vals)@)),
                    Err(e) => rv == Err::<Seq<Val>, ErrV>(e@),
                })
            }),
        decreases args, args@.len() - k, 0int,
    {
        proof {
            lemma_view_stmts_index(args@);
        }
        if k >= args.len() {
            return Ok(());
        }
        let v = self.eval_statement(&args[k])?;
        proof {
            crate::object::lemma_objs_view_push(vals@, v);
        }
        vals.push(v);
        self.eval_args(args, k + 1, vals)
    }

    /// Dispatch a native procedure on already-evaluated arguments.
    fn call_native(&mut self, f: NativeFn, args: &Vec<Object>) -> (r: Result<Object, EvalError>)
        ensures
            ({
                let (st2, rv) = apply_native_v(old(self)@, f, objs_view(args@));
                final(self)@ == st2 && (match r {
                    Ok(o) => rv == Ok::<Val, ErrV>(o@),
                    Err(e) => rv == Err::<Val, ErrV>(e@),
                })
            }),
    {
        match f {
            NativeFn::Print => s_print(&mut self.output, args),
            NativeFn::ToBool => s_to_bool(args),
        }
    }

    /// Evaluate an additive chain: empty is null, else a strict left fold.
    pub fn eval_expr(&mut self, expr: &Expr) -> (r: Result<Object, EvalError>)
        ensures
            ({
                let (st2, rv) = eval_expr_v(old(self)@, expr@);
                final(self)@ == st2 && (match r {
                    Ok(o) => rv == Ok::<Val, ErrV>(o@),
                    Err(e) => rv == Err::<Val, ErrV>(e@),
                })
            }),
        decreases expr, 0int, 1int,
    {
        proof {
            lemma_view_terms_index(expr.terms@);
        }
        if expr.terms.len() == 0 {
            return Ok(Object::Null);
        }
        let first = self.eval_term(&expr.terms[0])?;
        self.eval_terms_fold(&expr.terms, &expr.ops, 1, first)
    }

    /// The additive fold from term `k` on, with `acc` the value so far.
    fn eval_terms_fold(
        &mut self,
        terms: &Vec<Term>,
        ops: &Vec<ExprOp>,
        k: usize,
        acc: Object,
    ) -> (r: Result<Object, EvalError>)
        ensures
            ({
                let (st2, rv) = eval_terms_fold_v(
                    old(self)@,
                    view_terms(terms@),
                    ops@,
                    k as int,
                    acc@,
                );
                final(self)@ == st2 && (match r {
                    Ok(o) => rv == Ok::<Val, ErrV>(o@),
                    Err(e) => rv == Err::<Val, ErrV>(e@),
                })
            }),
        decreases terms, terms@.len() - k, 0int,
    {
        proof {
            lemma_view_terms_index(terms@);
        }
        if k >= terms.len() {
            return Ok(acc);
        }
        let right = self.eval_term(&terms[k])?;
        if k < 1 || k - 1 >= ops.len() {
            return Err(
                EvalError::TypeMismatch {
                    detail: "operator list shorter than operand list".to_owned(),
                },
            );
        }
        let acc2 = self.eval_exprop(&ops[k - 1], acc, right)?;
        self.eval_terms_fold(terms, ops, k + 1, acc2)
    }

    /// Evaluate a multiplicative chain: empty is null, else a strict left fold.
    pub fn eval_term(&mut self, term: &Term) -> (r: Result<Object, EvalError>)
        ensures
            ({
                let (st2, rv) = eval_term_v(old(self)@, term@);
                final(self)@ == st2 && (match r {
                    Ok(o) => rv == Ok::<Val, ErrV>(o@),
                    Err(e) => rv == Err::<Val, ErrV>(e@),
                })
            }),
        decreases term, 0int, 1int,
    {
        proof {
            lemma_view_factors_index(term.factors@);
        }
        if term.factors.len() == 0 {
            return Ok(Object::Null);
        }
        let first = self.eval_factor(&term.factors[0])?;
        self.eval_factors_fold(&term.factors, &term.ops, 1, first)
    }

    /// The multiplicative fold from factor `k` on.
    fn eval_factors_fold(
        &mut self,
        factors: &Vec<Factor>,
        ops: &Vec<TermOp>,
        k: usize,
        acc: Object,
    ) -> (r: Result<Object, EvalError>)
        ensures
            ({
                let (st2, rv) = eval_factors_fold_v(
                    old(self)@,
                    view_factors(factors@),
                    ops@,
                    k as int,
                    acc@,
                );
                final(self)@ == st2 && (match r {
                    Ok(o) => rv == Ok::<Val, ErrV>(o@),
                    Err(e) => rv == Err::<Val, ErrV>(e@),
                })
            }),
        decreases factors, factors@.len() - k, 0int,
    {
        proof {
            lemma_view_factors_index(factors@);
        }
        if k >= factors.len() {
            return Ok(acc);
        }
        let right = self.eval_factor(&factors[k])?;
        if k < 1 || k - 1 >= ops.len() {
            return Err(
                EvalError::TypeMismatch {
                    detail: "operator list shorter than operand list".to_owned(),
                },
            );
        }
        let acc2 = self.eval_termop(&ops[k - 1], acc, right)?;
        self.eval_factors_fold(factors, ops, k + 1, acc2)
    }

    /// Evaluate one factor.
    pub fn eval_factor(&mut self, factor: &Factor) -> (r: Result<Object, EvalError>)
        ensures
            ({
                let (st2, rv) = eval_factor_v(old(self)@, factor@);
                final(self)@ == st2 && (match r {
                    Ok(o) => rv == Ok::<Val, ErrV>(o@),
                    Err(e) => rv == Err::<Val, ErrV>(e@),
                })
            }),
        decreases factor, 0int, 1int,
    {
        match factor {
            Factor::IdentFactor(ident) => match self.current_scope.get(ident.as_str()) {
                Some(o) => Ok(o),
                None => Err(EvalError::Unresolved { name: ident.clone() }),
            },
            Factor::StringFactor(s) => Ok(Object::String(s.clone())),
            Factor::BoolFactor(b) => Ok(Object::Boolean(*b)),
            Factor::IntFactor(n) => Ok(Object::Integer(*n)),
            Factor::StmtFactor(st) => self.eval_statement(&**st),
        }
    }

    /// One multiplicative step: integer `*`/`/` (division truncates toward
    /// zero), or string repetition.
    pub fn eval_termop(&self, op: &TermOp, left: Object, right: Object) -> (r: Result<
        Object,
        EvalError,
    >)
        ensures
            (match r {
                Ok(o) => spec_termop(*op, left@, right@) == Ok::<Val, ErrV>(o@),
                Err(e) => spec_termop(*op, left@, right@) == Err::<Val, ErrV>(e@),
            }),
    {
        let o = *op;
        let op_str: &str = if o == TermOp::Mul {
            "*"
        } else {
            "/"
        };
        match (left, right) {
            (Object::Integer(a), Object::Integer(b)) => {
                if o == TermOp::Div {
                    if b == 0 {
                        return Err(EvalError::Arithmetic { detail: "division by zero".to_owned() });
                    }
                    let an: u64 = if a < 0 {
                        (-(a as i64)) as u64
                    } else {
                        a as u64
                    };
                    let bn: u64 = if b < 0 {
                        (-(b as i64)) as u64
                    } else {
                        b as u64
                    };
                    let q = an / bn;
                    assert(an as int == abs_int(a as int));
                    assert(bn as int == abs_int(b as int));
                    if (a < 0) != (b < 0) {
                        if q > 2147483648u64 {
                            Err(
                                EvalError::Arithmetic {
                                    detail: "arithmetic result out of the 32-bit range".to_owned(),
                                },
                            )
                        } else {
                            Ok(Object::Integer((-(q as i64)) as i32))
                        }
                    } else {
                        if q > 2147483647u64 {
                            Err(
                                EvalError::Arithmetic {
                                    detail: "arithmetic result out of the 32-bit range".to_owned(),
                                },
                            )
                        } else {
                            Ok(Object::Integer(q as i32))
                        }
                    }
                } else {
                    proof {
                        assert((a as int) * (b as int) <= 0x4000_0000_0000_0000 && (a as int) * (
                        b as int) >= -0x4000_0000_0000_0000) by (nonlinear_arith)
                            requires
                                -0x8000_0000 <= a as int <= 0x7fff_ffff,
                                -0x8000_0000 <= b as int <= 0x7fff_ffff,
                        ;
                    }
                    let p: i64 = (a as i64) * (b as i64);
                    if p < -2147483648i64 || p > 2147483647i64 {
                        Err(
                            EvalError::Arithmetic {
                                detail: "arithmetic result out of the 32-bit range".to_owned(),
                            },
                        )
                    } else {
                        Ok(Object::Integer(p as i32))
                    }
                }
            },
            (Object::String(s), Object::Integer(n)) => {
                if o == TermOp::Mul {
                    if n < 0 {
                        Err(
                            EvalError::Arithmetic {
                                detail: "cannot repeat a string a negative number of times"
                                    .to_owned(),
                            },
                        )
                    } else {
                        Ok(Object::String(repeat_string(&s, n)))
                    }
                } else {
                    let l = Object::String(s);
                    let r = Object::Integer(n);
                    Err(binop_mismatch(op_str, &l, &r))
                }
            },
            (l, r) => Err(binop_mismatch(op_str, &l, &r)),
        }
    }

    /// One additive step: integer `+`/`-`, or string concatenation.
    pub fn eval_exprop(&self, op: &ExprOp, left: Object, right: Object) -> (r: Result<
        Object,
        EvalError,
    >)
        ensures
            (match r {
                Ok(o) => spec_exprop(*op, left@, right@) == Ok::<Val, ErrV>(o@),
                Err(e) => spec_exprop(*op, left@, right@) == Err::<Val, ErrV>(e@),
            }),
    {
        let o = *op;
        let op_str: &str = if o == ExprOp::Add {
            "+"
        } else {
            "-"
        };
        match (left, right) {
            (Object::Integer(a), Object::Integer(b)) => {
                let v: i64 = if o == ExprOp::Add {
                    a as i64 + b as i64
                } else {
                    a as i64 - b as i64
                };
                if v < -2147483648i64 || v > 2147483647i64 {
                    Err(
                        EvalError::Arithmetic {
                            detail: "arithmetic result out of the 32-bit range".to_owned(),
                        },
                    )
                } else {
                    Ok(Object::Integer(v as i32))
                }
            },
            (Object::String(x), Object::String(y)) => {
                if o == ExprOp::Add {
                    let mut s = x;
                    s.append(y.as_str());
                    Ok(Object::String(s))
                } else {
                    let l = Object::String(x);
                    let r = Object::String(y);
                    Err(binop_mismatch(op_str, &l, &r))
                }
            },
            (l, r) => Err(binop_mismatch(op_str, &l, &r)),
        }
    }
}

/// `s` repeated `n` times.
fn repeat_string(s: &String, n: i32) -> (r: String)
    requires
        n >= 0,
    ensures
        r@ == repeat_seq(s@, n as nat),
{
    let mut r = String::new();
    let mut k: i32 = 0;
    while k < n
        invariant
            0 <= k <= n,
            r@ == repeat_seq(s@, k as nat),
        decreases n - k,
    {
        r.append(s.as_str());
        k = k + 1;
    }
    r
}

} // verus!

verus! {

/// A multiplicative chain holding one integer literal.
pub open spec fn int_term(n: i32) -> TermV {
    TermV { factors: seq![FactorV::IntFactor(n)], ops: Seq::empty() }
}

/// Left-associativity of the additive fold: the chain `a - b - c` is
/// evaluated as `(a - b) - c`, never as `a - (b - c)`, whenever both
/// differences stay in the 32-bit range; the state is untouched.
pub proof fn lemma_subtraction_left_associative(st: StateV, a: i32, b: i32, c: i32)
    requires
        i32::MIN <= a as int - b as int <= i32::MAX,
        i32::MIN <= a as int - b as int - c as int <= i32::MAX,
    ensures
        eval_expr_v(
            st,
            ExprV {
                terms: seq![int_term(a), int_term(b), int_term(c)],
                ops: seq![ExprOp::Sub, ExprOp::Sub],
            },
        ) == (st, Ok::<Val, ErrV>(Val::Integer((a as int - b as int - c as int) as i32))),
{
    let e = ExprV {
        terms: seq![int_term(a), int_term(b), int_term(c)],
        ops: seq![ExprOp::Sub, ExprOp::Sub],
    };
    let ab = (a as int - b as int) as i32;
    let abc = (a as int - b as int - c as int) as i32;
    assert(eval_term_v(st, int_term(a)) == (st, Ok::<Val, ErrV>(Val::Integer(a))));
    assert(eval_term_v(st, int_term(b)) == (st, Ok::<Val, ErrV>(Val::Integer(b))));
    assert(eval_term_v(st, int_term(c)) == (st, Ok::<Val, ErrV>(Val::Integer(c))));
    assert(spec_exprop(ExprOp::Sub, Val::Integer(a), Val::Integer(b)) == Ok::<Val, ErrV>(
        Val::Integer(ab),
    ));
    assert(spec_exprop(ExprOp::Sub, Val::Integer(ab), Val::Integer(c)) == Ok::<Val, ErrV>(
        Val::Integer(abc),
    ));
    assert(e.terms.len() == 3 && e.terms[0] == int_term(a) && e.terms[1] == int_term(b)
        && e.terms[2] == int_term(c));
    assert(e.ops.len() == 2 && e.ops[0] == ExprOp::Sub && e.ops[1] == ExprOp::Sub);
    assert(eval_terms_fold_v(st, e.terms, e.ops, 3, Val::Integer(abc)) == (st, Ok::<Val, ErrV>(
        Val::Integer(abc),
    )));
    assert(eval_terms_fold_v(st, e.terms, e.ops, 2, Val::Integer(ab)) == (st, Ok::<Val, ErrV>(
        Val::Integer(abc),
    )));
    assert(eval_terms_fold_v(st, e.terms, e.ops, 1, Val::Integer(a)) == (st, Ok::<Val, ErrV>(
        Val::Integer(abc),
    )));
}

} // verus!

