//! The runtime value model: what evaluation produces.
use crate::parser::{view_stmt, Statement, StmtV};
use vstd::prelude::*;
use vstd::string::StringExecFns;

verus! {

/// The native procedures the interpreter ships with: a closed set, so that
/// calling one is ordinary verified dispatch. A new native is added by
/// extending this enum and the tables built over it.
#[derive(Clone, Copy, Debug, PartialEq, Eq, Structural)]
pub enum NativeFn {
    Print,
    ToBool,
}

/// A runtime value: integer, text, boolean, a native procedure, a
/// user-declared function (parameter names and body, no captured
/// environment), or null.
#[derive(Debug, PartialEq)]
pub enum Object {
    String(String),
    Integer(i32),
    Boolean(bool),
    RustFunction(NativeFn),
    Function(Vec<String>, Statement),
    Null,
}

/// The mathematical view of a runtime value.
pub enum Val {
    String(Seq<char>),
    Integer(i32),
    Boolean(bool),
    RustFunction(NativeFn),
    Function(Seq<Seq<char>>, StmtV),
    Null,
}

impl View for Object {
    type V = Val;

    open spec fn view(&self) -> Val {
        match self {
            Object::String(s) => Val::String(s@),
            Object::Integer(n) => Val::Integer(*n),
            Object::Boolean(b) => Val::Boolean(*b),
            Object::RustFunction(f) => Val::RustFunction(*f),
            Object::Function(params, body) => Val::Function(params.deep_view(), view_stmt(*body)),
            Object::Null => Val::Null,
        }
    }
}

/// The views of a value sequence, in order.
pub open spec fn objs_view(s: Seq<Object>) -> Seq<Val> {
    s.map_values(|o: Object| o@)
}

pub proof fn lemma_objs_view_push(s: Seq<Object>, o: Object)
    ensures
        objs_view(s.push(o)) == objs_view(s).push(o@),
{
    assert(objs_view(s.push(o)) =~= objs_view(s).push(o@));
}

/// A copy with the same view.
pub fn dup_obj(o: &Object) -> (r: Object)
    ensures
        r@ == o@,
{
    match o {
        Object::String(s) => Object::String(s.clone()),
        Object::Integer(n) => Object::Integer(*n),
        Object::Boolean(b) => Object::Boolean(*b),
        Object::RustFunction(f) => Object::RustFunction(*f),
        Object::Function(params, body) => Object::Function(
            crate::parser::dup_strings(params),
            crate::parser::dup_stmt(body),
        ),
        Object::Null => Object::Null,
    }
}

/// A fatal evaluation error, by kind, each identifying its offender.
#[derive(Debug, PartialEq)]
pub enum EvalError {
    /// An identifier no frame up to the root defines.
    Unresolved { name: String },
    /// `change` on a name no enclosing frame defines.
    ReassignUndefined { name: String },
    /// An operator or native procedure applied to value kinds it does not
    /// take, or a boolean coercion of a non-coercible kind; the text names
    /// the operation and the offending kinds.
    TypeMismatch { detail: String },
    /// Division by zero, a negative string-repeat count, or a result outside
    /// the 32-bit signed range; the text names which.
    Arithmetic { detail: String },
    /// A call whose target is not a native procedure; names the target's kind.
    NotCallable { callee: String },
}

pub enum ErrV {
    Unresolved { name: Seq<char> },
    ReassignUndefined { name: Seq<char> },
    TypeMismatch { detail: Seq<char> },
    Arithmetic { detail: Seq<char> },
    NotCallable { callee: Seq<char> },
}

impl View for EvalError {
    type V = ErrV;

    open spec fn view(&self) -> ErrV {
        match self {
            EvalError::Unresolved { name } => ErrV::Unresolved { name: name@ },
            EvalError::ReassignUndefined { name } => ErrV::ReassignUndefined { name: name@ },
            EvalError::TypeMismatch { detail } => ErrV::TypeMismatch { detail: detail@ },
            EvalError::Arithmetic { detail } => ErrV::Arithmetic { detail: detail@ },
            EvalError::NotCallable { callee } => ErrV::NotCallable { callee: callee@ },
        }
    }
}

// ---------------------------------------------------------------------------
// The texts the errors identify their offenders with.
// ---------------------------------------------------------------------------

/// The kind name of a value, as the error texts use it.
pub open spec fn kind_text(v: Val) -> Seq<char> {
    match v {
        Val::String(_s) => "String"@,
        Val::Integer(_n) => "Integer"@,
        Val::Boolean(_b) => "Boolean"@,
        Val::RustFunction(_f) => "RustFunction"@,
        Val::Function(_p, _b) => "Function"@,
        Val::Null => "Null"@,
    }
}

/// Text of an operator applied to operand kinds it does not take.
pub open spec fn binop_mismatch_text(op: Seq<char>, l: Val, r: Val) -> Seq<char> {
    "unsupported operation "@ + op + " for "@ + kind_text(l) + " and "@ + kind_text(r)
}

/// Text of a boolean coercion of a non-coercible kind.
pub open spec fn coerce_mismatch_text(v: Val) -> Seq<char> {
    "cannot convert "@ + kind_text(v) + " to boolean"@
}

/// Text of a `print` argument of a kind without a printed form.
pub open spec fn print_arg_text(v: Val) -> Seq<char> {
    "invalid argument for print: "@ + kind_text(v)
}

/// The kind name of a value.
pub fn kind_of(o: &Object) -> (r: String)
    ensures
        r@ == kind_text(o@),
{
    match o {
        Object::String(_s) => "String".to_owned(),
        Object::Integer(_n) => "Integer".to_owned(),
        Object::Boolean(_b) => "Boolean".to_owned(),
        Object::RustFunction(_f) => "RustFunction".to_owned(),
        Object::Function(_p, _b) => "Function".to_owned(),
        Object::Null => "Null".to_owned(),
    }
}

/// The unsupported-operation error, naming operator and operand kinds.
pub fn binop_mismatch(op: &str, left: &Object, right: &Object) -> (e: EvalError)
    ensures
        e@ == (ErrV::TypeMismatch { detail: binop_mismatch_text(op@, left@, right@) }),
{
    let mut s = "unsupported operation ".to_owned();
    s.append(op);
    s.append(" for ");
    let lk = kind_of(left);
    s.append(lk.as_str());
    s.append(" and ");
    let rk = kind_of(right);
    s.append(rk.as_str());
    EvalError::TypeMismatch { detail: s }
}

/// The coercion error, naming the non-coercible value's kind.
pub fn coerce_mismatch(value: &Object) -> (e: EvalError)
    ensures
        e@ == (ErrV::TypeMismatch { detail: coerce_mismatch_text(value@) }),
{
    let mut s = "cannot convert ".to_owned();
    let k = kind_of(value);
    s.append(k.as_str());
    s.append(" to boolean");
    EvalError::TypeMismatch { detail: s }
}

/// The bad-`print`-argument error, naming the unprintable value's kind.
pub fn print_arg_mismatch(value: &Object) -> (e: EvalError)
    ensures
        e@ == (ErrV::TypeMismatch { detail: print_arg_text(value@) }),
{
    let mut s = "invalid argument for print: ".to_owned();
    let k = kind_of(value);
    s.append(k.as_str());
    EvalError::TypeMismatch { detail: s }
}

} // verus!
