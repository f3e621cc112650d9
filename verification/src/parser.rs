//! The abstract syntax tree and the recursive-descent parser.
//!
//! One parse function per grammar production; binary chains (`Expr`, `Term`)
//! are flat operand/operator lists, folded left-to-right by the evaluator.
//! Each parse function is proved to return exactly the result of its spec
//! mirror (`spec_parse_*`), a recursive function over token views.
use crate::token::{Token, TokenV, Type, tokens_view};
use vstd::prelude::*;

verus! {

/// Multiplicative operators.
#[derive(Debug, PartialEq, Eq, Structural, Clone, Copy)]
pub enum TermOp {
    Mul,
    Div,
}

/// Additive operators.
#[derive(Debug, PartialEq, Eq, Structural, Clone, Copy)]
pub enum ExprOp {
    Add,
    Sub,
}

/// The root of a parsed program: one top-level statement.
#[derive(Debug)]
pub struct Program {
    pub body: Statement,
}

/// A statement. Assignment and reassignment share one shape, told apart by
/// `change`; existence of the name is checked at evaluation time.
#[derive(Debug, PartialEq)]
pub enum Statement {
    Assign { ident: String, expr: Expr, change: bool },
    FunctionDec { params: Vec<String>, body: Box<Statement> },
    Return { statement: Box<Statement> },
    Expr { expr: Expr },
    BlockStatement { statements: Vec<Statement> },
    If { conditions: Vec<(Option<Statement>, Statement)> },
    FunctionCall { func: Box<Statement>, args: Vec<Statement> },
}

/// An additive chain: `ops.len()` is one less than `terms.len()` when parsed.
#[derive(Debug, PartialEq)]
pub struct Expr {
    pub terms: Vec<Term>,
    pub ops: Vec<ExprOp>,
}

/// A multiplicative chain, as `Expr`.
#[derive(Debug, PartialEq)]
pub struct Term {
    pub factors: Vec<Factor>,
    pub ops: Vec<TermOp>,
}

/// The smallest expression unit: a literal, an identifier, or a nested
/// statement (parenthesized statement, block, or call).
#[derive(Debug, PartialEq)]
pub enum Factor {
    IntFactor(i32),
    StringFactor(String),
    BoolFactor(bool),
    StmtFactor(Box<Statement>),
    IdentFactor(String),
}

// ---------------------------------------------------------------------------
// Mathematical views of the tree: the same shapes over `Seq`.
// ---------------------------------------------------------------------------

pub enum StmtV {
    Assign { ident: Seq<char>, expr: ExprV, change: bool },
    FunctionDec { params: Seq<Seq<char>>, body: Box<StmtV> },
    Return { statement: Box<StmtV> },
    Expr { expr: ExprV },
    BlockStatement { statements: Seq<StmtV> },
    If { conditions: Seq<(Option<StmtV>, StmtV)> },
    FunctionCall { func: Box<StmtV>, args: Seq<StmtV> },
}

pub struct ExprV {
    pub terms: Seq<TermV>,
    pub ops: Seq<ExprOp>,
}

pub struct TermV {
    pub factors: Seq<FactorV>,
    pub ops: Seq<TermOp>,
}

pub enum FactorV {
    IntFactor(i32),
    StringFactor(Seq<char>),
    BoolFactor(bool),
    StmtFactor(Box<StmtV>),
    IdentFactor(Seq<char>),
}

pub struct ProgramV {
    pub body: StmtV,
}

pub open spec fn view_stmt(s: Statement) -> StmtV
    decreases s,
{
    match s {
        Statement::Assign { ident, expr, change } => StmtV::Assign {
            ident: ident@,
            expr: view_expr(expr),
            change,
        },
        Statement::FunctionDec { params, body } => StmtV::FunctionDec {
            params: params.deep_view(),
            body: Box::new(view_stmt(*body)),
        },
        Statement::Return { statement } => StmtV::Return { statement: Box::new(view_stmt(*statement)) },
        Statement::Expr { expr } => StmtV::Expr { expr: view_expr(expr) },
        Statement::BlockStatement { statements } => StmtV::BlockStatement {
            statements: view_stmts(statements@),
        },
        Statement::If { conditions } => StmtV::If { conditions: view_conds(conditions@) },
        Statement::FunctionCall { func, args } => StmtV::FunctionCall {
            func: Box::new(view_stmt(*func)),
            args: view_stmts(args@),
        },
    }
}

pub open spec fn view_stmts(ss: Seq<Statement>) -> Seq<StmtV>
    decreases ss,
{
    if ss.len() == 0 {
        Seq::empty()
    } else {
        view_stmts(ss.drop_last()).push(view_stmt(ss.last()))
    }
}

pub open spec fn view_conds(cs: Seq<(Option<Statement>, Statement)>) -> Seq<
    (Option<StmtV>, StmtV),
>
    decreases cs,
{
    if cs.len() == 0 {
        Seq::empty()
    } else {
        view_conds(cs.drop_last()).push(
            (
                match cs.last().0 {
                    Some(c) => Some(view_stmt(c)),
                    None => None,
                },
                view_stmt(cs.last().1),
            ),
        )
    }
}

pub open spec fn view_expr(e: Expr) -> ExprV
    decreases e,
{
    ExprV { terms: view_terms(e.terms@), ops: e.ops@ }
}

pub open spec fn view_terms(ts: Seq<Term>) -> Seq<TermV>
    decreases ts,
{
    if ts.len() == 0 {
        Seq::empty()
    } else {
        view_terms(ts.drop_last()).push(view_term(ts.last()))
    }
}

pub open spec fn view_term(t: Term) -> TermV
    decreases t,
{
    TermV { factors: view_factors(t.factors@), ops: t.ops@ }
}

pub open spec fn view_factors(fs: Seq<Factor>) -> Seq<FactorV>
    decreases fs,
{
    if fs.len() == 0 {
        Seq::empty()
    } else {
        view_factors(fs.drop_last()).push(view_factor(fs.last()))
    }
}

pub open spec fn view_factor(f: Factor) -> FactorV
    decreases f,
{
    match f {
        Factor::IntFactor(n) => FactorV::IntFactor(n),
        Factor::StringFactor(s) => FactorV::StringFactor(s@),
        Factor::BoolFactor(b) => FactorV::BoolFactor(b),
        Factor::StmtFactor(s) => FactorV::StmtFactor(Box::new(view_stmt(*s))),
        Factor::IdentFactor(s) => FactorV::IdentFactor(s@),
    }
}

impl View for Statement {
    type V = StmtV;

    open spec fn view(&self) -> StmtV {
        view_stmt(*self)
    }
}

impl View for Expr {
    type V = ExprV;

    open spec fn view(&self) -> ExprV {
        view_expr(*self)
    }
}

impl View for Term {
    type V = TermV;

    open spec fn view(&self) -> TermV {
        view_term(*self)
    }
}

impl View for Factor {
    type V = FactorV;

    open spec fn view(&self) -> FactorV {
        view_factor(*self)
    }
}

impl View for Program {
    type V = ProgramV;

    open spec fn view(&self) -> ProgramV {
        ProgramV { body: view_stmt(self.body) }
    }
}

pub proof fn lemma_view_stmts_index(ss: Seq<Statement>)
    ensures
        view_stmts(ss).len() == ss.len(),
        forall|k: int| 0 <= k < ss.len() ==> view_stmts(ss)[k] == view_stmt(ss[k]),
    decreases ss.len(),
{
    if ss.len() > 0 {
        lemma_view_stmts_index(ss.drop_last());
    }
}

pub proof fn lemma_view_conds_index(cs: Seq<(Option<Statement>, Statement)>)
    ensures
        view_conds(cs).len() == cs.len(),
        forall|k: int|
            0 <= k < cs.len() ==> view_conds(cs)[k] == (
            (match cs[k].0 {
                Some(c) => Some(view_stmt(c)),
                None => None,
            }),
            view_stmt(cs[k].1),
            ),
    decreases cs.len(),
{
    if cs.len() > 0 {
        lemma_view_conds_index(cs.drop_last());
    }
}

pub proof fn lemma_view_terms_index(ts: Seq<Term>)
    ensures
        view_terms(ts).len() == ts.len(),
        forall|k: int| 0 <= k < ts.len() ==> view_terms(ts)[k] == view_term(ts[k]),
    decreases ts.len(),
{
    if ts.len() > 0 {
        lemma_view_terms_index(ts.drop_last());
    }
}

pub proof fn lemma_view_factors_index(fs: Seq<Factor>)
    ensures
        view_factors(fs).len() == fs.len(),
        forall|k: int| 0 <= k < fs.len() ==> view_factors(fs)[k] == view_factor(fs[k]),
    decreases fs.len(),
{
    if fs.len() > 0 {
        lemma_view_factors_index(fs.drop_last());
    }
}

pub proof fn lemma_view_stmts_push(ss: Seq<Statement>, s: Statement)
    ensures
        view_stmts(ss.push(s)) == view_stmts(ss).push(view_stmt(s)),
{
    assert(ss.push(s).drop_last() =~= ss);
    assert(ss.push(s).last() == s);
}

pub proof fn lemma_view_terms_push(ts: Seq<Term>, t: Term)
    ensures
        view_terms(ts.push(t)) == view_terms(ts).push(view_term(t)),
{
    assert(ts.push(t).drop_last() =~= ts);
}

pub proof fn lemma_view_factors_push(fs: Seq<Factor>, f: Factor)
    ensures
        view_factors(fs.push(f)) == view_factors(fs).push(view_factor(f)),
{
    assert(fs.push(f).drop_last() =~= fs);
}

pub proof fn lemma_view_conds_push(cs: Seq<(Option<Statement>, Statement)>, c: (
    Option<Statement>,
    Statement,
))
    ensures
        view_conds(cs.push(c)) == view_conds(cs).push(
            (
                (match c.0 {
                    Some(x) => Some(view_stmt(x)),
                    None => None,
                }),
                view_stmt(c.1),
            ),
        ),
{
    assert(cs.push(c).drop_last() =~= cs);
}

} // verus!

verus! {

/// View of one `if`-chain entry.
pub open spec fn view_cond(c: (Option<Statement>, Statement)) -> (Option<StmtV>, StmtV) {
    (
        match c.0 {
            Some(x) => Some(view_stmt(x)),
            None => None,
        },
        view_stmt(c.1),
    )
}

// ---------------------------------------------------------------------------
// Parse errors.
// ---------------------------------------------------------------------------

/// A grammar-level error: the token met does not fit the production.
#[derive(Debug, PartialEq)]
pub enum ParseError {
    /// The token stream ended while a production still wanted a token.
    OutOfTokens,
    /// A specific token kind was demanded and another was found.
    Mismatch { expected: Type, got: Token },
    /// No factor production starts with this token.
    BadFactor { got: Token },
    /// An `if`-chain entry starts with neither `if` nor `else`.
    BadCondition { got: Token },
    /// An integer token whose text is not a decimal number a 32-bit signed
    /// integer can hold.
    BadInt { got: Token },
}

pub enum PErrV {
    OutOfTokens,
    Mismatch { expected: Type, got: TokenV },
    BadFactor { got: TokenV },
    BadCondition { got: TokenV },
    BadInt { got: TokenV },
}

impl View for ParseError {
    type V = PErrV;

    open spec fn view(&self) -> PErrV {
        match self {
            ParseError::OutOfTokens => PErrV::OutOfTokens,
            ParseError::Mismatch { expected, got } => PErrV::Mismatch {
                expected: *expected,
                got: got@,
            },
            ParseError::BadFactor { got } => PErrV::BadFactor { got: got@ },
            ParseError::BadCondition { got } => PErrV::BadCondition { got: got@ },
            ParseError::BadInt { got } => PErrV::BadInt { got: got@ },
        }
    }
}

// ---------------------------------------------------------------------------
// The spec mirror of the parser.
// ---------------------------------------------------------------------------

/// The token at position `i`, if any.
pub open spec fn spec_cur(ts: Seq<TokenV>, i: int) -> Option<TokenV> {
    if 0 <= i < ts.len() {
        Some(ts[i])
    } else {
        None
    }
}

/// Demand a token of kind `ty` at `i` and step past it.
pub open spec fn spec_expect(ts: Seq<TokenV>, i: int, ty: Type) -> Result<(TokenV, int), PErrV> {
    match spec_cur(ts, i) {
        None => Err(PErrV::OutOfTokens),
        Some(t) => if t.token_type == ty {
            Ok((t, i + 1))
        } else {
            Err(PErrV::Mismatch { expected: ty, got: t })
        },
    }
}

pub open spec fn all_digits(text: Seq<char>) -> bool {
    forall|k: int| 0 <= k < text.len() ==> crate::token::is_digit(text[k])
}

/// The decimal value of a digit string.
pub open spec fn dec_val(text: Seq<char>) -> int
    decreases text.len(),
{
    if text.len() == 0 {
        0
    } else {
        dec_val(text.drop_last()) * 10 + (text.last() as u32 - '0' as u32)
    }
}

pub proof fn lemma_dec_val_nonneg(text: Seq<char>)
    requires
        all_digits(text),
    ensures
        dec_val(text) >= 0,
    decreases text.len(),
{
    if text.len() > 0 {
        assert(all_digits(text.drop_last()));
        lemma_dec_val_nonneg(text.drop_last());
    }
}

/// A digit string is worth at least any of its prefixes.
pub proof fn lemma_dec_val_prefix(text: Seq<char>, k: int)
    requires
        all_digits(text),
        0 <= k <= text.len(),
    ensures
        dec_val(text.subrange(0, k)) <= dec_val(text),
    decreases text.len() - k,
{
    if k == text.len() {
        assert(text.subrange(0, k) =~= text);
    } else {
        lemma_dec_val_prefix(text, k + 1);
        let p = text.subrange(0, k + 1);
        assert(p.drop_last() =~= text.subrange(0, k));
        assert(all_digits(text.subrange(0, k)));
        lemma_dec_val_nonneg(text.subrange(0, k));
        assert(dec_val(text.subrange(0, k)) <= dec_val(p));
    }
}

/// Statement: `set`/`change` assignment, `return`, block, `if`-chain, or a
/// bare expression.
pub open spec fn spec_parse_statement(ts: Seq<TokenV>, i: int) -> Result<(StmtV, int), PErrV>
    decreases ts.len() - i, 4int,
{
    match spec_cur(ts, i) {
        None => Err(PErrV::OutOfTokens),
        Some(t) => {
            if t.token_type == Type::Assignment || t.token_type == Type::Change {
                match spec_expect(ts, i + 1, Type::Ident) {
                    Err(e) => Err(e),
                    Ok((id, j)) => match spec_expect(ts, j, Type::AssignmentOp) {
                        Err(e) => Err(e),
                        Ok((_a, j2)) => match spec_parse_expr(ts, j2) {
                            Err(e) => Err(e),
                            Ok((e, j3)) => Ok(
                                (
                                    StmtV::Assign {
                                        ident: id.text,
                                        expr: e,
                                        change: t.token_type == Type::Change,
                                    },
                                    j3,
                                ),
                            ),
                        },
                    },
                }
            } else if t.token_type == Type::Return {
                match spec_parse_statement(ts, i + 1) {
                    Err(e) => Err(e),
                    Ok((s, j)) => Ok((StmtV::Return { statement: Box::new(s) }, j)),
                }
            } else if t.token_type == Type::BlockStart {
                spec_parse_block(ts, i)
            } else if t.token_type == Type::If {
                match spec_parse_condition_tuple(ts, i) {
                    Err(e) => Err(e),
                    Ok((c, j)) => if j <= i || j > ts.len() {
                        // never taken: a parsed item consumes tokens and stays
                        // inside the stream; keeps the measure decreasing
                        Err(PErrV::OutOfTokens)
                    } else {
                        spec_parse_if_conds(ts, j, seq![c])
                    },
                }
            } else {
                match spec_parse_expr(ts, i) {
                    Err(e) => Err(e),
                    Ok((e, j)) => Ok((StmtV::Expr { expr: e }, j)),
                }
            }
        },
    }
}

/// One `(condition, consequent)` entry of an `if`-chain.
pub open spec fn spec_parse_condition_tuple(ts: Seq<TokenV>, i: int) -> Result<
    ((Option<StmtV>, StmtV), int),
    PErrV,
>
    decreases ts.len() - i, 3int,
{
    match spec_cur(ts, i) {
        None => Err(PErrV::OutOfTokens),
        Some(t) => {
            if t.token_type == Type::If {
                match spec_parse_statement(ts, i + 1) {
                    Err(e) => Err(e),
                    Ok((cond, j)) => match spec_expect(ts, j, Type::Then) {
                        Err(e) => Err(e),
                        Ok((_th, j2)) => if j2 <= i {
                            // never taken: a parsed item consumes tokens
                            Err(PErrV::OutOfTokens)
                        } else {
                            match spec_parse_statement(ts, j2) {
                                Err(e) => Err(e),
                                Ok((cons, j3)) => Ok(((Some(cond), cons), j3)),
                            }
                        },
                    },
                }
            } else if t.token_type == Type::Else {
                match spec_cur(ts, i + 1) {
                    None => Err(PErrV::OutOfTokens),
                    Some(t2) => if t2.token_type == Type::If {
                        spec_parse_condition_tuple(ts, i + 1)
                    } else {
                        match spec_parse_statement(ts, i + 1) {
                            Err(e) => Err(e),
                            Ok((cons, j)) => Ok(((None, cons), j)),
                        }
                    },
                }
            } else {
                Err(PErrV::BadCondition { got: t })
            }
        },
    }
}

/// The `else`/`else if` continuations after the first entry of an `if`-chain.
/// A bare `else` (an entry with no condition) closes the chain: the grammar
/// allows at most one, and only in final position, so nothing after it is
/// consumed and a further `else` is a fatal parse error at the caller.
pub open spec fn spec_parse_if_conds(
    ts: Seq<TokenV>,
    i: int,
    acc: Seq<(Option<StmtV>, StmtV)>,
) -> Result<(StmtV, int), PErrV>
    decreases ts.len() - i, 4int,
{
    if acc.len() > 0 && acc.last().0 is None {
        Ok((StmtV::If { conditions: acc }, i))
    } else {
        match spec_cur(ts, i) {
        None => Err(PErrV::OutOfTokens),
        Some(t) => if t.token_type == Type::Else {
            match spec_parse_condition_tuple(ts, i) {
                Err(e) => Err(e),
                Ok((c, j)) => if j <= i || j > ts.len() {
                    // never taken: a parsed item consumes tokens and stays
                    // inside the stream
                    Err(PErrV::OutOfTokens)
                } else {
                    spec_parse_if_conds(ts, j, acc.push(c))
                },
            }
        } else {
            Ok((StmtV::If { conditions: acc }, i))
        },
        }
    }
}

/// At most the final entry of an `if`-chain lacks a condition.
pub open spec fn conds_only_final_bare(cs: Seq<(Option<StmtV>, StmtV)>) -> bool {
    forall|k: int| 0 <= k < cs.len() - 1 ==> (#[trigger] cs[k]).0 is Some
}

proof fn lemma_if_conds_only_final_bare(ts: Seq<TokenV>, i: int, acc: Seq<(Option<StmtV>, StmtV)>)
    requires
        conds_only_final_bare(acc),
    ensures
        (match spec_parse_if_conds(ts, i, acc) {
            Ok(p) => p.0 matches StmtV::If { conditions } ==> conds_only_final_bare(conditions),
            Err(_e) => true,
        }),
    decreases ts.len() - i,
{
    if !(acc.len() > 0 && acc.last().0 is None) {
        match spec_cur(ts, i) {
            None => {},
            Some(t) => {
                if t.token_type == Type::Else {
                    match spec_parse_condition_tuple(ts, i) {
                        Err(_e) => {},
                        Ok((c, j)) => {
                            if !(j <= i || j > ts.len()) {
                                assert(conds_only_final_bare(acc.push(c))) by {
                                    assert(forall|k: int|
                                        0 <= k < acc.push(c).len() - 1 ==> (#[trigger] acc.push(
                                            c,
                                        )[k]).0 is Some);
                                };
                                lemma_if_conds_only_final_bare(ts, j, acc.push(c));
                            }
                        },
                    }
                }
            },
        }
    }
}

/// The grammar's shape of a parsed `if`-chain: only its final entry may be a
/// bare `else` (carry no condition).
pub proof fn lemma_parsed_if_only_final_bare(ts: Seq<TokenV>, i: int)
    ensures
        (match spec_parse_statement(ts, i) {
            Ok(p) => p.0 matches StmtV::If { conditions } ==> conds_only_final_bare(conditions),
            Err(_e) => true,
        }),
{
    match spec_cur(ts, i) {
        None => {},
        Some(t) => {
            if t.token_type == Type::If {
                match spec_parse_condition_tuple(ts, i) {
                    Err(_e) => {},
                    Ok((c, j)) => {
                        if !(j <= i || j > ts.len()) {
                            assert(conds_only_final_bare(seq![c]));
                            lemma_if_conds_only_final_bare(ts, j, seq![c]);
                        }
                    },
                }
            } else if t.token_type == Type::BlockStart {
                assert(match spec_parse_block(ts, i) {
                    Ok(p) => p.0 is BlockStatement,
                    Err(_e) => true,
                });
            }
        },
    }
}

/// Block: `{` then `;`-terminated statements until `}`.
pub open spec fn spec_parse_block(ts: Seq<TokenV>, i: int) -> Result<(StmtV, int), PErrV>
    decreases ts.len() - i, 0int,
{
    match spec_expect(ts, i, Type::BlockStart) {
        Err(e) => Err(e),
        Ok((_b, j)) => match spec_parse_block_items(ts, j, Seq::empty()) {
            Err(e) => Err(e),
            Ok((ss, j2)) => Ok((StmtV::BlockStatement { statements: ss }, j2)),
        },
    }
}

pub open spec fn spec_parse_block_items(ts: Seq<TokenV>, i: int, acc: Seq<StmtV>) -> Result<
    (Seq<StmtV>, int),
    PErrV,
>
    decreases ts.len() - i, 6int,
{
    match spec_cur(ts, i) {
        None => Err(PErrV::OutOfTokens),
        Some(t) => if t.token_type == Type::BlockEnd {
            Ok((acc, i + 1))
        } else {
            match spec_parse_line(ts, i) {
                Err(e) => Err(e),
                Ok((s, j)) => if j <= i || j > ts.len() {
                    // never taken: a parsed item consumes tokens and stays
                    // inside the stream
                    Err(PErrV::OutOfTokens)
                } else {
                    spec_parse_block_items(ts, j, acc.push(s))
                },
            }
        },
    }
}

/// A statement followed by its `;` terminator.
pub open spec fn spec_parse_line(ts: Seq<TokenV>, i: int) -> Result<(StmtV, int), PErrV>
    decreases ts.len() - i, 5int,
{
    match spec_parse_statement(ts, i) {
        Err(e) => Err(e),
        Ok((s, j)) => match spec_expect(ts, j, Type::Terminator) {
            Err(e) => Err(e),
            Ok((_t, j2)) => Ok((s, j2)),
        },
    }
}

/// Additive chain: a term, then `(+|-) term` while operators follow.
pub open spec fn spec_parse_expr(ts: Seq<TokenV>, i: int) -> Result<(ExprV, int), PErrV>
    decreases ts.len() - i, 3int,
{
    match spec_parse_term(ts, i) {
        Err(e) => Err(e),
        Ok((t, j)) => if j <= i || j > ts.len() {
            // never taken: a parsed item consumes tokens and stays inside the
            // stream
            Err(PErrV::OutOfTokens)
        } else {
            spec_parse_expr_more(ts, j, seq![t], Seq::empty())
        },
    }
}

pub open spec fn spec_parse_expr_more(
    ts: Seq<TokenV>,
    i: int,
    terms: Seq<TermV>,
    ops: Seq<ExprOp>,
) -> Result<(ExprV, int), PErrV>
    decreases ts.len() - i, 3int,
{
    match spec_cur(ts, i) {
        None => Err(PErrV::OutOfTokens),
        Some(t) => if t.token_type == Type::Add || t.token_type == Type::Sub {
            match spec_parse_term(ts, i + 1) {
                Err(e) => Err(e),
                Ok((t2, j2)) => if j2 <= i + 1 || j2 > ts.len() {
                    // never taken: a parsed item consumes tokens and stays
                    // inside the stream
                    Err(PErrV::OutOfTokens)
                } else {
                    spec_parse_expr_more(
                        ts,
                        j2,
                        terms.push(t2),
                        ops.push(
                            if t.token_type == Type::Add {
                                ExprOp::Add
                            } else {
                                ExprOp::Sub
                            },
                        ),
                    )
                },
            }
        } else {
            Ok((ExprV { terms, ops }, i))
        },
    }
}

/// Multiplicative chain: a factor, then `(*|/) factor` while operators follow.
pub open spec fn spec_parse_term(ts: Seq<TokenV>, i: int) -> Result<(TermV, int), PErrV>
    decreases ts.len() - i, 2int,
{
    match spec_parse_factor(ts, i) {
        Err(e) => Err(e),
        Ok((f, j)) => if j <= i || j > ts.len() {
            // never taken: a parsed item consumes tokens and stays inside the
            // stream
            Err(PErrV::OutOfTokens)
        } else {
            spec_parse_term_more(ts, j, seq![f], Seq::empty())
        },
    }
}

pub open spec fn spec_parse_term_more(
    ts: Seq<TokenV>,
    i: int,
    factors: Seq<FactorV>,
    ops: Seq<TermOp>,
) -> Result<(TermV, int), PErrV>
    decreases ts.len() - i, 2int,
{
    match spec_cur(ts, i) {
        None => Err(PErrV::OutOfTokens),
        Some(t) => if t.token_type == Type::Mul || t.token_type == Type::Div {
            match spec_parse_factor(ts, i + 1) {
                Err(e) => Err(e),
                Ok((f2, j2)) => if j2 <= i + 1 || j2 > ts.len() {
                    // never taken: a parsed item consumes tokens and stays
                    // inside the stream
                    Err(PErrV::OutOfTokens)
                } else {
                    spec_parse_term_more(
                        ts,
                        j2,
                        factors.push(f2),
                        ops.push(
                            if t.token_type == Type::Mul {
                                TermOp::Mul
                            } else {
                                TermOp::Div
                            },
                        ),
                    )
                },
            }
        } else {
            Ok((TermV { factors, ops }, i))
        },
    }
}

/// Factor: literal, identifier, parenthesized statement, block, or call.
pub open spec fn spec_parse_factor(ts: Seq<TokenV>, i: int) -> Result<(FactorV, int), PErrV>
    decreases ts.len() - i, 1int,
{
    match spec_cur(ts, i) {
        None => Err(PErrV::OutOfTokens),
        Some(t) => {
            if t.token_type == Type::Integer {
                if t.text.len() >= 1 && all_digits(t.text) && dec_val(t.text) <= i32::MAX {
                    Ok((FactorV::IntFactor(dec_val(t.text) as i32), i + 1))
                } else {
                    Err(PErrV::BadInt { got: t })
                }
            } else if t.token_type == Type::String {
                if t.text.len() >= 2 {
                    Ok(
                        (
                            FactorV::StringFactor(t.text.subrange(1, t.text.len() - 1)),
                            i + 1,
                        ),
                    )
                } else {
                    Err(PErrV::BadFactor { got: t })
                }
            } else if t.token_type == Type::True {
                Ok((FactorV::BoolFactor(true), i + 1))
            } else if t.token_type == Type::False {
                Ok((FactorV::BoolFactor(false), i + 1))
            } else if t.token_type == Type::Ident {
                Ok((FactorV::IdentFactor(t.text), i + 1))
            } else if t.token_type == Type::OpenGrouper {
                match spec_parse_statement(ts, i + 1) {
                    Err(e) => Err(e),
                    Ok((s, j)) => match spec_expect(ts, j, Type::CloseGrouper) {
                        Err(e) => Err(e),
                        Ok((_c, j2)) => Ok((FactorV::StmtFactor(Box::new(s)), j2)),
                    },
                }
            } else if t.token_type == Type::BlockStart {
                match spec_parse_block(ts, i) {
                    Err(e) => Err(e),
                    Ok((b, j)) => Ok((FactorV::StmtFactor(Box::new(b)), j)),
                }
            } else if t.token_type == Type::FunctionCall {
                match spec_parse_statement(ts, i + 1) {
                    Err(e) => Err(e),
                    Ok((f, j)) => match spec_cur(ts, j) {
                        None => Err(PErrV::OutOfTokens),
                        Some(t2) => if t2.token_type == Type::ParameterList {
                            match spec_expect(ts, j + 1, Type::OpenGrouper) {
                                Err(e) => Err(e),
                                Ok((_o, j2)) => if j2 <= i {
                                    // never taken: a parsed item consumes tokens
                                    Err(PErrV::OutOfTokens)
                                } else {
                                    match spec_parse_args(ts, j2, Seq::empty()) {
                                    Err(e) => Err(e),
                                    Ok((args, j3)) => Ok(
                                        (
                                            FactorV::StmtFactor(
                                                Box::new(
                                                    StmtV::FunctionCall {
                                                        func: Box::new(f),
                                                        args,
                                                    },
                                                ),
                                            ),
                                            j3,
                                        ),
                                    ),
                                    }
                                },
                            }
                        } else {
                            Ok(
                                (
                                    FactorV::StmtFactor(
                                        Box::new(
                                            StmtV::FunctionCall {
                                                func: Box::new(f),
                                                args: Seq::empty(),
                                            },
                                        ),
                                    ),
                                    j,
                                ),
                            )
                        },
                    },
                }
            } else {
                Err(PErrV::BadFactor { got: t })
            }
        },
    }
}

/// Call arguments: statements separated by `,`, closed by `)`.
pub open spec fn spec_parse_args(ts: Seq<TokenV>, i: int, acc: Seq<StmtV>) -> Result<
    (Seq<StmtV>, int),
    PErrV,
>
    decreases ts.len() - i, 5int,
{
    match spec_parse_statement(ts, i) {
        Err(e) => Err(e),
        Ok((s, j)) => if j <= i {
            // never taken: a parsed item consumes tokens
            Err(PErrV::OutOfTokens)
        } else {
            match spec_cur(ts, j) {
                None => Err(PErrV::OutOfTokens),
                Some(t) => if t.token_type == Type::Separator {
                    spec_parse_args(ts, j + 1, acc.push(s))
                } else {
                    match spec_expect(ts, j, Type::CloseGrouper) {
                        Err(e) => Err(e),
                        Ok((_c, j2)) => Ok((acc.push(s), j2)),
                    }
                },
            }
        },
    }
}

/// The whole program: one statement, then the end-of-input token.
pub open spec fn spec_parse_program(ts: Seq<TokenV>, i: int) -> Result<(ProgramV, int), PErrV>
    decreases ts.len() - i, 7int,
{
    match spec_parse_statement(ts, i) {
        Err(e) => Err(e),
        Ok((s, j)) => match spec_expect(ts, j, Type::EOF) {
            Err(e) => Err(e),
            Ok((_t, j2)) => Ok((ProgramV { body: s }, j2)),
        },
    }
}

} // verus!

verus! {

/// The executable view of a parser: its token views and its cursor.
pub struct ParserV {
    pub tokens: Seq<TokenV>,
    pub index: int,
}

/// The recursive-descent parser: a token list and a cursor into it.
pub struct Parser {
    tokens: Vec<Token>,
    index: usize,
}

impl View for Parser {
    type V = ParserV;

    closed spec fn view(&self) -> ParserV {
        ParserV { tokens: tokens_view(self.tokens@), index: self.index as int }
    }
}

/// Read an integer token's text as a 32-bit value, exactly when the text is a
/// nonempty digit string whose value fits.
fn parse_int_text(t: &Token) -> (r: Result<i32, ParseError>)
    ensures
        (match r {
            Ok(v) => t@.text.len() >= 1 && all_digits(t@.text) && dec_val(t@.text) <= i32::MAX
                && v as int == dec_val(t@.text),
            Err(e) => !(t@.text.len() >= 1 && all_digits(t@.text) && dec_val(t@.text) <= i32::MAX)
                && e@ == (PErrV::BadInt { got: t@ }),
        }),
{
    let chars = crate::token::chars_of(t.str.as_str());
    if chars.len() == 0 {
        return Err(ParseError::BadInt { got: t.dup() });
    }
    let mut acc: u64 = 0;
    let mut k: usize = 0;
    while k < chars.len()
        invariant
            chars@ == t@.text,
            0 <= k <= chars@.len(),
            forall|m: int| 0 <= m < k ==> crate::token::is_digit(chars@[m]),
            acc as int == dec_val(chars@.subrange(0, k as int)),
            acc <= 2147483647,
        decreases chars@.len() - k,
    {
        let c = chars[k];
        if !crate::token::ex_is_digit(c) {
            assert(!all_digits(t@.text));
            return Err(ParseError::BadInt { got: t.dup() });
        }
        let d: u32 = (c as u32) - 48;
        acc = acc * 10 + (d as u64);
        k = k + 1;
        proof {
            assert(chars@.subrange(0, k as int).drop_last() =~= chars@.subrange(0, k - 1));
            assert(chars@.subrange(0, k as int).last() == chars@[k - 1]);
        }
        if acc > 2147483647 {
            proof {
                if all_digits(t@.text) {
                    lemma_dec_val_prefix(t@.text, k as int);
                }
            }
            return Err(ParseError::BadInt { got: t.dup() });
        }
    }
    proof {
        assert(chars@.subrange(0, chars@.len() as int) =~= chars@);
    }
    Ok(acc as i32)
}

impl Parser {
    /// A parser over `tokens`, cursor at the start.
    pub fn new(tokens: Vec<Token>) -> (p: Parser)
        ensures
            p@.tokens == tokens_view(tokens@),
            p@.index == 0,
    {
        Parser { tokens, index: 0 }
    }

    /// Parse the whole program from the cursor. On success the cursor rests
    /// just past the end-of-input token.
    pub fn parse(&mut self) -> (r: Result<Program, ParseError>)
        ensures
            final(self)@.tokens == old(self)@.tokens,
            (match r {
                Ok(p) => spec_parse_program(old(self)@.tokens, old(self)@.index) == Ok::<
                    (ProgramV, int),
                    PErrV,
                >((p@, final(self)@.index)),
                Err(e) => spec_parse_program(old(self)@.tokens, old(self)@.index) == Err::<
                    (ProgramV, int),
                    PErrV,
                >(e@) && final(self)@.index == old(self)@.index,
            }),
    {
        match self.parse_program(self.index) {
            Ok((p, j)) => {
                self.index = j;
                Ok(p)
            },
            Err(e) => Err(e),
        }
    }

    fn current(&self, i: usize) -> (r: Option<&Token>)
        ensures
            self@.tokens.len() <= usize::MAX,
            (match r {
                Some(t) => spec_cur(self@.tokens, i as int) == Some(t@) && i < self@.tokens.len(),
                None => spec_cur(self@.tokens, i as int) is None,
            }),
    {
        let n = self.tokens.len();
        assert(self@.tokens.len() == n as int);
        if i < n {
            Some(&self.tokens[i])
        } else {
            None
        }
    }

    fn expect_consume(&self, i: usize, expected: Type) -> (r: Result<(Token, usize), ParseError>)
        ensures
            (match r {
                Ok((t, j)) => spec_expect(self@.tokens, i as int, expected) == Ok::<
                    (TokenV, int),
                    PErrV,
                >((t@, j as int)) && j == i + 1 && i < self@.tokens.len(),
                Err(e) => spec_expect(self@.tokens, i as int, expected) == Err::<
                    (TokenV, int),
                    PErrV,
                >(e@),
            }),
    {
        match self.current(i) {
            None => Err(ParseError::OutOfTokens),
            Some(t) => {
                if t.token_type == expected {
                    Ok((t.dup(), i + 1))
                } else {
                    Err(ParseError::Mismatch { expected, got: t.dup() })
                }
            },
        }
    }

    fn parse_program(&self, i: usize) -> (r: Result<(Program, usize), ParseError>)
        ensures
            (match r {
                Ok((p, j)) => spec_parse_program(self@.tokens, i as int) == Ok::<
                    (ProgramV, int),
                    PErrV,
                >((p@, j as int)) && i < j <= self@.tokens.len(),
                Err(e) => spec_parse_program(self@.tokens, i as int) == Err::<
                    (ProgramV, int),
                    PErrV,
                >(e@),
            }),
        decreases self.tokens@.len() - i, 7int,
    {
        let (s, j) = self.parse_statement(i)?;
        let (_e, j2) = self.expect_consume(j, Type::EOF)?;
        Ok((Program { body: s }, j2))
    }

    fn parse_statement(&self, i: usize) -> (r: Result<(Statement, usize), ParseError>)
        ensures
            (match r {
                Ok((s, j)) => spec_parse_statement(self@.tokens, i as int) == Ok::<
                    (StmtV, int),
                    PErrV,
                >((s@, j as int)) && i < j <= self@.tokens.len(),
                Err(e) => spec_parse_statement(self@.tokens, i as int) == Err::<
                    (StmtV, int),
                    PErrV,
                >(e@),
            }),
        decreases self.tokens@.len() - i, 4int,
    {
        let tt = match self.current(i) {
            None => {
                return Err(ParseError::OutOfTokens);
            },
            Some(t) => t.token_type,
        };
        if tt == Type::Assignment || tt == Type::Change {
            let (id, j) = self.expect_consume(i + 1, Type::Ident)?;
            let (_a, j2) = self.expect_consume(j, Type::AssignmentOp)?;
            let (e, j3) = self.parse_expr(j2)?;
            Ok((Statement::Assign { ident: id.str, expr: e, change: tt == Type::Change }, j3))
        } else if tt == Type::Return {
            let (s, j) = self.parse_statement(i + 1)?;
            Ok((Statement::Return { statement: Box::new(s) }, j))
        } else if tt == Type::BlockStart {
            self.parse_block(i)
        } else if tt == Type::If {
            let (c, j) = self.parse_condition_tuple(i)?;
            let mut conds: Vec<(Option<Statement>, Statement)> = Vec::new();
            proof {
                assert(view_conds(conds@) =~= Seq::<(Option<StmtV>, StmtV)>::empty());
                lemma_view_conds_push(conds@, c);
                assert(Seq::<(Option<StmtV>, StmtV)>::empty().push(view_cond(c)) =~= seq![
                    view_cond(c),
                ]);
            }
            conds.push(c);
            let j2 = self.parse_if_conds(j, &mut conds)?;
            Ok((Statement::If { conditions: conds }, j2))
        } else {
            let (e, j) = self.parse_expr(i)?;
            Ok((Statement::Expr { expr: e }, j))
        }
    }

    fn parse_condition_tuple(&self, i: usize) -> (r: Result<
        ((Option<Statement>, Statement), usize),
        ParseError,
    >)
        ensures
            (match r {
                Ok((c, j)) => spec_parse_condition_tuple(self@.tokens, i as int) == Ok::<
                    ((Option<StmtV>, StmtV), int),
                    PErrV,
                >((view_cond(c), j as int)) && i < j <= self@.tokens.len(),
                Err(e) => spec_parse_condition_tuple(self@.tokens, i as int) == Err::<
                    ((Option<StmtV>, StmtV), int),
                    PErrV,
                >(e@),
            }),
        decreases self.tokens@.len() - i, 3int,
    {
        let tt = match self.current(i) {
            None => {
                return Err(ParseError::OutOfTokens);
            },
            Some(t) => t.token_type,
        };
        if tt == Type::If {
            let (cond, j) = self.parse_statement(i + 1)?;
            let (_th, j2) = self.expect_consume(j, Type::Then)?;
            let (cons, j3) = self.parse_statement(j2)?;
            Ok(((Some(cond), cons), j3))
        } else if tt == Type::Else {
            let t2 = match self.current(i + 1) {
                None => {
                    return Err(ParseError::OutOfTokens);
                },
                Some(t2) => t2.token_type,
            };
            if t2 == Type::If {
                self.parse_condition_tuple(i + 1)
            } else {
                let (cons, j) = self.parse_statement(i + 1)?;
                Ok(((None, cons), j))
            }
        } else {
            match self.current(i) {
                Some(t) => Err(ParseError::BadCondition { got: t.dup() }),
                None => Err(ParseError::OutOfTokens),
            }
        }
    }

    fn parse_if_conds(
        &self,
        i: usize,
        conds: &mut Vec<(Option<Statement>, Statement)>,
    ) -> (r: Result<usize, ParseError>)
        requires
            i <= self@.tokens.len(),
        ensures
            (match r {
                Ok(j) => spec_parse_if_conds(
                    self@.tokens,
                    i as int,
                    view_conds(old(conds)@),
                ) == Ok::<(StmtV, int), PErrV>(
                    (StmtV::If { conditions: view_conds(final(conds)@) }, j as int),
                ) && i <= j <= self@.tokens.len(),
                Err(e) => spec_parse_if_conds(self@.tokens, i as int, view_conds(old(conds)@))
                    == Err::<(StmtV, int), PErrV>(e@),
            }),
        decreases self.tokens@.len() - i, 4int,
    {
        proof {
            lemma_view_conds_index(conds@);
        }
        let n = conds.len();
        if n > 0 && conds[n - 1].0.is_none() {
            return Ok(i);
        }
        let tt = match self.current(i) {
            None => {
                return Err(ParseError::OutOfTokens);
            },
            Some(t) => t.token_type,
        };
        if tt == Type::Else {
            let (c, j) = self.parse_condition_tuple(i)?;
            proof {
                lemma_view_conds_push(conds@, c);
            }
            conds.push(c);
            self.parse_if_conds(j, conds)
        } else {
            Ok(i)
        }
    }

    fn parse_block(&self, i: usize) -> (r: Result<(Statement, usize), ParseError>)
        ensures
            (match r {
                Ok((s, j)) => spec_parse_block(self@.tokens, i as int) == Ok::<
                    (StmtV, int),
                    PErrV,
                >((s@, j as int)) && i < j <= self@.tokens.len(),
                Err(e) => spec_parse_block(self@.tokens, i as int) == Err::<(StmtV, int), PErrV>(
                    e@,
                ),
            }),
        decreases self.tokens@.len() - i, 0int,
    {
        let (_b, j) = self.expect_consume(i, Type::BlockStart)?;
        let mut stmts: Vec<Statement> = Vec::new();
        proof {
            assert(view_stmts(stmts@) =~= Seq::<StmtV>::empty());
        }
        let j2 = self.parse_block_items(j, &mut stmts)?;
        Ok((Statement::BlockStatement { statements: stmts }, j2))
    }

    fn parse_block_items(&self, i: usize, stmts: &mut Vec<Statement>) -> (r: Result<
        usize,
        ParseError,
    >)
        ensures
            (match r {
                Ok(j) => spec_parse_block_items(
                    self@.tokens,
                    i as int,
                    view_stmts(old(stmts)@),
                ) == Ok::<(Seq<StmtV>, int), PErrV>((view_stmts(final(stmts)@), j as int)) && i < j
                    <= self@.tokens.len(),
                Err(e) => spec_parse_block_items(self@.tokens, i as int, view_stmts(old(stmts)@))
                    == Err::<(Seq<StmtV>, int), PErrV>(e@),
            }),
        decreases self.tokens@.len() - i, 6int,
    {
        let tt = match self.current(i) {
            None => {
                return Err(ParseError::OutOfTokens);
            },
            Some(t) => t.token_type,
        };
        if tt == Type::BlockEnd {
            Ok(i + 1)
        } else {
            let (s, j) = self.parse_line(i)?;
            proof {
                lemma_view_stmts_push(stmts@, s);
            }
            stmts.push(s);
            self.parse_block_items(j, stmts)
        }
    }

    fn parse_line(&self, i: usize) -> (r: Result<(Statement, usize), ParseError>)
        ensures
            (match r {
                Ok((s, j)) => spec_parse_line(self@.tokens, i as int) == Ok::<
                    (StmtV, int),
                    PErrV,
                >((s@, j as int)) && i < j <= self@.tokens.len(),
                Err(e) => spec_parse_line(self@.tokens, i as int) == Err::<(StmtV, int), PErrV>(
                    e@,
                ),
            }),
        decreases self.tokens@.len() - i, 5int,
    {
        let (s, j) = self.parse_statement(i)?;
        let (_t, j2) = self.expect_consume(j, Type::Terminator)?;
        Ok((s, j2))
    }

    fn parse_expr(&self, i: usize) -> (r: Result<(Expr, usize), ParseError>)
        ensures
            (match r {
                Ok((e, j)) => spec_parse_expr(self@.tokens, i as int) == Ok::<
                    (ExprV, int),
                    PErrV,
                >((e@, j as int)) && i < j <= self@.tokens.len(),
                Err(e) => spec_parse_expr(self@.tokens, i as int) == Err::<(ExprV, int), PErrV>(
                    e@,
                ),
            }),
        decreases self.tokens@.len() - i, 3int,
    {
        let (t, j) = self.parse_term(i)?;
        let mut terms: Vec<Term> = Vec::new();
        let mut ops: Vec<ExprOp> = Vec::new();
        proof {
            assert(view_terms(terms@) =~= Seq::<TermV>::empty());
            lemma_view_terms_push(terms@, t);
            assert(Seq::<TermV>::empty().push(view_term(t)) =~= seq![view_term(t)]);
        }
        terms.push(t);
        let j2 = self.parse_expr_more(j, &mut terms, &mut ops)?;
        Ok((Expr { terms, ops }, j2))
    }

    fn parse_expr_more(&self, i: usize, terms: &mut Vec<Term>, ops: &mut Vec<ExprOp>) -> (r:
        Result<usize, ParseError>)
        ensures
            (match r {
                Ok(j) => spec_parse_expr_more(
                    self@.tokens,
                    i as int,
                    view_terms(old(terms)@),
                    old(ops)@,
                ) == Ok::<(ExprV, int), PErrV>(
                    (ExprV { terms: view_terms(final(terms)@), ops: final(ops)@ }, j as int),
                ) && i <= j <= self@.tokens.len(),
                Err(e) => spec_parse_expr_more(
                    self@.tokens,
                    i as int,
                    view_terms(old(terms)@),
                    old(ops)@,
                ) == Err::<(ExprV, int), PErrV>(e@),
            }),
        decreases self.tokens@.len() - i, 3int,
    {
        let tt = match self.current(i) {
            None => {
                return Err(ParseError::OutOfTokens);
            },
            Some(t) => t.token_type,
        };
        if tt == Type::Add || tt == Type::Sub {
            let op = if tt == Type::Add {
                ExprOp::Add
            } else {
                ExprOp::Sub
            };
            let (t2, j2) = self.parse_term(i + 1)?;
            proof {
                lemma_view_terms_push(terms@, t2);
            }
            terms.push(t2);
            ops.push(op);
            self.parse_expr_more(j2, terms, ops)
        } else {
            Ok(i)
        }
    }

    fn parse_term(&self, i: usize) -> (r: Result<(Term, usize), ParseError>)
        ensures
            (match r {
                Ok((t, j)) => spec_parse_term(self@.tokens, i as int) == Ok::<
                    (TermV, int),
                    PErrV,
                >((t@, j as int)) && i < j <= self@.tokens.len(),
                Err(e) => spec_parse_term(self@.tokens, i as int) == Err::<(TermV, int), PErrV>(
                    e@,
                ),
            }),
        decreases self.tokens@.len() - i, 2int,
    {
        let (f, j) = self.parse_factor(i)?;
        let mut factors: Vec<Factor> = Vec::new();
        let mut ops: Vec<TermOp> = Vec::new();
        proof {
            assert(view_factors(factors@) =~= Seq::<FactorV>::empty());
            lemma_view_factors_push(factors@, f);
            assert(Seq::<FactorV>::empty().push(view_factor(f)) =~= seq![view_factor(f)]);
        }
        factors.push(f);
        let j2 = self.parse_term_more(j, &mut factors, &mut ops)?;
        Ok((Term { factors, ops }, j2))
    }

    fn parse_term_more(&self, i: usize, factors: &mut Vec<Factor>, ops: &mut Vec<TermOp>) -> (r:
        Result<usize, ParseError>)
        ensures
            (match r {
                Ok(j) => spec_parse_term_more(
                    self@.tokens,
                    i as int,
                    view_factors(old(factors)@),
                    old(ops)@,
                ) == Ok::<(TermV, int), PErrV>(
                    (TermV { factors: view_factors(final(factors)@), ops: final(ops)@ }, j as int),
                ) && i <= j <= self@.tokens.len(),
                Err(e) => spec_parse_term_more(
                    self@.tokens,
                    i as int,
                    view_factors(old(factors)@),
                    old(ops)@,
                ) == Err::<(TermV, int), PErrV>(e@),
            }),
        decreases self.tokens@.len() - i, 2int,
    {
        let tt = match self.current(i) {
            None => {
                return Err(ParseError::OutOfTokens);
            },
            Some(t) => t.token_type,
        };
        if tt == Type::Mul || tt == Type::Div {
            let op = if tt == Type::Mul {
                TermOp::Mul
            } else {
                TermOp::Div
            };
            let (f2, j2) = self.parse_factor(i + 1)?;
            proof {
                lemma_view_factors_push(factors@, f2);
            }
            factors.push(f2);
            ops.push(op);
            self.parse_term_more(j2, factors, ops)
        } else {
            Ok(i)
        }
    }

    fn parse_factor(&self, i: usize) -> (r: Result<(Factor, usize), ParseError>)
        ensures
            (match r {
                Ok((f, j)) => spec_parse_factor(self@.tokens, i as int) == Ok::<
                    (FactorV, int),
                    PErrV,
                >((f@, j as int)) && i < j <= self@.tokens.len(),
                Err(e) => spec_parse_factor(self@.tokens, i as int) == Err::<
                    (FactorV, int),
                    PErrV,
                >(e@),
            }),
        decreases self.tokens@.len() - i, 1int,
    {
        let t = match self.current(i) {
            None => {
                return Err(ParseError::OutOfTokens);
            },
            Some(t) => t,
        };
        let tt = t.token_type;
        if tt == Type::Integer {
            let v = parse_int_text(t)?;
            Ok((Factor::IntFactor(v), i + 1))
        } else if tt == Type::String {
            let chars = crate::token::chars_of(t.str.as_str());
            if chars.len() < 2 {
                Err(ParseError::BadFactor { got: t.dup() })
            } else {
                let inner = crate::token::subvec(&chars, 1, chars.len() - 1);
                Ok((Factor::StringFactor(crate::token::string_of_chars(&inner)), i + 1))
            }
        } else if tt == Type::True {
            Ok((Factor::BoolFactor(true), i + 1))
        } else if tt == Type::False {
            Ok((Factor::BoolFactor(false), i + 1))
        } else if tt == Type::Ident {
            Ok((Factor::IdentFactor(t.str.clone()), i + 1))
        } else if tt == Type::OpenGrouper {
            let (s, j) = self.parse_statement(i + 1)?;
            let (_c, j2) = self.expect_consume(j, Type::CloseGrouper)?;
            Ok((Factor::StmtFactor(Box::new(s)), j2))
        } else if tt == Type::BlockStart {
            let (b, j) = self.parse_block(i)?;
            Ok((Factor::StmtFactor(Box::new(b)), j))
        } else if tt == Type::FunctionCall {
            let (f, j) = self.parse_statement(i + 1)?;
            let t2 = match self.current(j) {
                None => {
                    return Err(ParseError::OutOfTokens);
                },
                Some(t2) => t2.token_type,
            };
            if t2 == Type::ParameterList {
                let (_o, j2) = self.expect_consume(j + 1, Type::OpenGrouper)?;
                let mut args: Vec<Statement> = Vec::new();
                proof {
                    assert(view_stmts(args@) =~= Seq::<StmtV>::empty());
                }
                let j3 = self.parse_args(j2, &mut args)?;
                Ok(
                    (
                        Factor::StmtFactor(
                            Box::new(Statement::FunctionCall { func: Box::new(f), args }),
                        ),
                        j3,
                    ),
                )
            } else {
                let args: Vec<Statement> = Vec::new();
                proof {
                    assert(view_stmts(args@) =~= Seq::<StmtV>::empty());
                }
                Ok(
                    (
                        Factor::StmtFactor(
                            Box::new(Statement::FunctionCall { func: Box::new(f), args }),
                        ),
                        j,
                    ),
                )
            }
        } else {
            Err(ParseError::BadFactor { got: t.dup() })
        }
    }

    fn parse_args(&self, i: usize, args: &mut Vec<Statement>) -> (r: Result<usize, ParseError>)
        ensures
            (match r {
                Ok(j) => spec_parse_args(self@.tokens, i as int, view_stmts(old(args)@)) == Ok::<
                    (Seq<StmtV>, int),
                    PErrV,
                >((view_stmts(final(args)@), j as int)) && i < j <= self@.tokens.len(),
                Err(e) => spec_parse_args(self@.tokens, i as int, view_stmts(old(args)@)) == Err::<
                    (Seq<StmtV>, int),
                    PErrV,
                >(e@),
            }),
        decreases self.tokens@.len() - i, 5int,
    {
        let (s, j) = self.parse_statement(i)?;
        proof {
            lemma_view_stmts_push(args@, s);
        }
        args.push(s);
        let tt = match self.current(j) {
            None => {
                return Err(ParseError::OutOfTokens);
            },
            Some(t) => t.token_type,
        };
        if tt == Type::Separator {
            self.parse_args(j + 1, args)
        } else {
            let (_c, j2) = self.expect_consume(j, Type::CloseGrouper)?;
            Ok(j2)
        }
    }
}

} // verus!

verus! {

// ---------------------------------------------------------------------------
// Deep copies of the tree, proved to keep the view. The evaluator stores
// statements inside runtime values, so it needs copies whose mathematical
// content is known; a derived clone would say nothing.
// ---------------------------------------------------------------------------

pub fn dup_strings(v: &Vec<String>) -> (r: Vec<String>)
    ensures
        r.deep_view() == v.deep_view(),
{
    let mut r: Vec<String> = Vec::new();
    let mut k: usize = 0;
    while k < v.len()
        invariant
            0 <= k <= v@.len(),
            r@.len() == k,
            forall|m: int| 0 <= m < k ==> r@[m]@ == v@[m]@,
        decreases v@.len() - k,
    {
        r.push(v[k].clone());
        k = k + 1;
    }
    assert(r.deep_view() =~= v.deep_view());
    r
}

pub fn dup_stmt(s: &Statement) -> (r: Statement)
    ensures
        view_stmt(r) == view_stmt(*s),
    decreases s, 1int,
{
    match s {
        Statement::Assign { ident, expr, change } => Statement::Assign {
            ident: ident.clone(),
            expr: dup_expr(expr),
            change: *change,
        },
        Statement::FunctionDec { params, body } => Statement::FunctionDec {
            params: dup_strings(params),
            body: Box::new(dup_stmt(body)),
        },
        Statement::Return { statement } => Statement::Return {
            statement: Box::new(dup_stmt(statement)),
        },
        Statement::Expr { expr } => Statement::Expr { expr: dup_expr(expr) },
        Statement::BlockStatement { statements } => Statement::BlockStatement {
            statements: dup_stmts(statements),
        },
        Statement::If { conditions } => Statement::If { conditions: dup_conds(conditions) },
        Statement::FunctionCall { func, args } => Statement::FunctionCall {
            func: Box::new(dup_stmt(func)),
            args: dup_stmts(args),
        },
    }
}

pub fn dup_stmts(ss: &Vec<Statement>) -> (r: Vec<Statement>)
    ensures
        view_stmts(r@) == view_stmts(ss@),
    decreases ss, 2int,
{
    let mut r: Vec<Statement> = Vec::new();
    let mut k: usize = 0;
    while k < ss.len()
        invariant
            0 <= k <= ss@.len(),
            r@.len() == k,
            forall|m: int| 0 <= m < k ==> view_stmt(r@[m]) == view_stmt(ss@[m]),
        decreases ss@.len() - k,
    {
        r.push(dup_stmt(&ss[k]));
        k = k + 1;
    }
    proof {
        lemma_view_stmts_index(r@);
        lemma_view_stmts_index(ss@);
        assert(view_stmts(r@) =~= view_stmts(ss@));
    }
    r
}

pub fn dup_conds(cs: &Vec<(Option<Statement>, Statement)>) -> (r: Vec<
    (Option<Statement>, Statement),
>)
    ensures
        view_conds(r@) == view_conds(cs@),
    decreases cs, 2int,
{
    let mut r: Vec<(Option<Statement>, Statement)> = Vec::new();
    let mut k: usize = 0;
    while k < cs.len()
        invariant
            0 <= k <= cs@.len(),
            r@.len() == k,
            forall|m: int| 0 <= m < k ==> view_cond(r@[m]) == view_cond(cs@[m]),
        decreases cs@.len() - k,
    {
        let c = &cs[k];
        let cond = match &c.0 {
            Some(x) => Some(dup_stmt(x)),
            None => None,
        };
        r.push((cond, dup_stmt(&c.1)));
        k = k + 1;
    }
    proof {
        lemma_view_conds_index(r@);
        lemma_view_conds_index(cs@);
        assert(view_conds(r@) =~= view_conds(cs@));
    }
    r
}

pub fn dup_expr(e: &Expr) -> (r: Expr)
    ensures
        view_expr(r) == view_expr(*e),
    decreases e, 1int,
{
    let mut ops: Vec<ExprOp> = Vec::new();
    let mut k: usize = 0;
    while k < e.ops.len()
        invariant
            0 <= k <= e.ops@.len(),
            ops@ == e.ops@.subrange(0, k as int),
        decreases e.ops@.len() - k,
    {
        ops.push(e.ops[k]);
        assert(e.ops@.subrange(0, k + 1) =~= e.ops@.subrange(0, k as int).push(e.ops@[k as int]));
        k = k + 1;
    }
    assert(ops@ =~= e.ops@);
    Expr { terms: dup_terms(&e.terms), ops }
}

pub fn dup_terms(ts: &Vec<Term>) -> (r: Vec<Term>)
    ensures
        view_terms(r@) == view_terms(ts@),
    decreases ts, 2int,
{
    let mut r: Vec<Term> = Vec::new();
    let mut k: usize = 0;
    while k < ts.len()
        invariant
            0 <= k <= ts@.len(),
            r@.len() == k,
            forall|m: int| 0 <= m < k ==> view_term(r@[m]) == view_term(ts@[m]),
        decreases ts@.len() - k,
    {
        r.push(dup_term(&ts[k]));
        k = k + 1;
    }
    proof {
        lemma_view_terms_index(r@);
        lemma_view_terms_index(ts@);
        assert(view_terms(r@) =~= view_terms(ts@));
    }
    r
}

pub fn dup_term(t: &Term) -> (r: Term)
    ensures
        view_term(r) == view_term(*t),
    decreases t, 1int,
{
    let mut ops: Vec<TermOp> = Vec::new();
    let mut k: usize = 0;
    while k < t.ops.len()
        invariant
            0 <= k <= t.ops@.len(),
            ops@ == t.ops@.subrange(0, k as int),
        decreases t.ops@.len() - k,
    {
        ops.push(t.ops[k]);
        assert(t.ops@.subrange(0, k + 1) =~= t.ops@.subrange(0, k as int).push(t.ops@[k as int]));
        k = k + 1;
    }
    assert(ops@ =~= t.ops@);
    Term { factors: dup_factors(&t.factors), ops }
}

pub fn dup_factors(fs: &Vec<Factor>) -> (r: Vec<Factor>)
    ensures
        view_factors(r@) == view_factors(fs@),
    decreases fs, 2int,
{
    let mut r: Vec<Factor> = Vec::new();
    let mut k: usize = 0;
    while k < fs.len()
        invariant
            0 <= k <= fs@.len(),
            r@.len() == k,
            forall|m: int| 0 <= m < k ==> view_factor(r@[m]) == view_factor(fs@[m]),
        decreases fs@.len() - k,
    {
        r.push(dup_factor(&fs[k]));
        k = k + 1;
    }
    proof {
        lemma_view_factors_index(r@);
        lemma_view_factors_index(fs@);
        assert(view_factors(r@) =~= view_factors(fs@));
    }
    r
}

pub fn dup_factor(f: &Factor) -> (r: Factor)
    ensures
        view_factor(r) == view_factor(*f),
    decreases f, 1int,
{
    match f {
        Factor::IntFactor(n) => Factor::IntFactor(*n),
        Factor::StringFactor(s) => Factor::StringFactor(s.clone()),
        Factor::BoolFactor(b) => Factor::BoolFactor(*b),
        Factor::StmtFactor(s) => Factor::StmtFactor(Box::new(dup_stmt(s))),
        Factor::IdentFactor(s) => Factor::IdentFactor(s.clone()),
    }
}

} // verus!
