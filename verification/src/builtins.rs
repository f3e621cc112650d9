//! The native procedures seeded into the root frame: `print` and `to_bool`,
//! with the boolean-coercion rule and the textual form of printable values.
use crate::object::{
    coerce_mismatch, coerce_mismatch_text, dup_obj, objs_view, print_arg_mismatch, print_arg_text,
    ErrV, EvalError, NativeFn, Object, Val,
};
use crate::scope::frame_map;
use crate::token::string_of_chars;
use vstd::prelude::*;

verus! {

/// The native-function table as a map: exactly `print` and `to_bool`.
pub open spec fn builtins_map() -> Map<Seq<char>, Val> {
    Map::empty().insert("print"@, Val::RustFunction(NativeFn::Print)).insert(
        "to_bool"@,
        Val::RustFunction(NativeFn::ToBool),
    )
}

/// Boolean coercion: booleans pass through, an integer is true iff nonzero, a
/// string is true iff nonempty; nothing else is coercible.
pub open spec fn spec_to_bool(v: Val) -> Option<bool> {
    match v {
        Val::Boolean(b) => Some(b),
        Val::Integer(n) => Some(n != 0),
        Val::String(s) => Some(s.len() != 0),
        _ => None,
    }
}

pub open spec fn digit_char(d: nat) -> char {
    if d == 0 {
        '0'
    } else if d == 1 {
        '1'
    } else if d == 2 {
        '2'
    } else if d == 3 {
        '3'
    } else if d == 4 {
        '4'
    } else if d == 5 {
        '5'
    } else if d == 6 {
        '6'
    } else if d == 7 {
        '7'
    } else if d == 8 {
        '8'
    } else {
        '9'
    }
}

/// The decimal digits of `m`, most significant first.
pub open spec fn dec_digits(m: nat) -> Seq<char>
    decreases m,
{
    if m < 10 {
        seq![digit_char(m)]
    } else {
        dec_digits(m / 10).push(digit_char(m % 10))
    }
}

/// The decimal text of a 32-bit integer, with a leading minus when negative.
pub open spec fn int_text(n: i32) -> Seq<char> {
    if n >= 0 {
        dec_digits(n as nat)
    } else {
        seq!['-'] + dec_digits((-(n as int)) as nat)
    }
}

/// The textual form `print` gives a value: a string as its raw text, an
/// integer as decimal, a boolean as `true`/`false`; other kinds have none.
pub open spec fn text_of(v: Val) -> Option<Seq<char>> {
    match v {
        Val::String(s) => Some(s),
        Val::Integer(n) => Some(int_text(n)),
        Val::Boolean(b) => Some(
            if b {
                "true"@
            } else {
                "false"@
            },
        ),
        _ => None,
    }
}

/// What `print` does from argument `k` on: each printable argument appends
/// its text as one output line, in order; the first non-printable argument
/// stops it with a type mismatch, keeping the lines already emitted.
pub open spec fn print_fold(out: Seq<Seq<char>>, vals: Seq<Val>, k: int) -> (
    Seq<Seq<char>>,
    Result<Val, ErrV>,
)
    decreases vals.len() - k,
{
    if !(0 <= k < vals.len()) {
        (out, Ok(Val::Null))
    } else {
        match text_of(vals[k]) {
            Some(t) => print_fold(out.push(t), vals, k + 1),
            None => (out, Err(ErrV::TypeMismatch { detail: print_arg_text(vals[k]) })),
        }
    }
}

/// What `to_bool` does: exactly one coercible argument gives its coercion;
/// anything else is a type mismatch.
pub open spec fn apply_to_bool(vals: Seq<Val>) -> Result<Val, ErrV> {
    if vals.len() != 1 {
        Err(ErrV::TypeMismatch { detail: "to_bool takes exactly one argument"@ })
    } else {
        match spec_to_bool(vals[0]) {
            Some(b) => Ok(Val::Boolean(b)),
            None => Err(ErrV::TypeMismatch { detail: coerce_mismatch_text(vals[0]) }),
        }
    }
}

/// The texts of a sequence of printable values.
pub open spec fn texts_of(vals: Seq<Val>) -> Seq<Seq<char>> {
    vals.map_values(|v: Val| text_of(v).unwrap())
}

proof fn lemma_print_fold_suffix(out: Seq<Seq<char>>, vals: Seq<Val>, k: int)
    requires
        0 <= k <= vals.len(),
        forall|m: int| 0 <= m < vals.len() ==> text_of(#[trigger] vals[m]) is Some,
    ensures
        print_fold(out, vals, k) == (out + texts_of(vals).skip(k), Ok::<Val, ErrV>(Val::Null)),
    decreases vals.len() - k,
{
    if k == vals.len() {
        assert(out + texts_of(vals).skip(k) =~= out);
    } else {
        let t = text_of(vals[k]).unwrap();
        lemma_print_fold_suffix(out.push(t), vals, k + 1);
        assert(out.push(t) + texts_of(vals).skip(k + 1) =~= out + texts_of(vals).skip(k));
    }
}

///`print` emits one line per argument, the arguments' texts in argument
/// order, and yields null — for every list of printable values.
pub proof fn lemma_print_emits_in_order(out: Seq<Seq<char>>, vals: Seq<Val>)
    requires
        forall|m: int| 0 <= m < vals.len() ==> text_of(#[trigger] vals[m]) is Some,
    ensures
        print_fold(out, vals, 0) == (out + texts_of(vals), Ok::<Val, ErrV>(Val::Null)),
{
    lemma_print_fold_suffix(out, vals, 0);
    assert(out + texts_of(vals).skip(0) =~= out + texts_of(vals));
}

// ---------------------------------------------------------------------------
// Executable natives.
// ---------------------------------------------------------------------------

fn digit_char_exec(d: u32) -> (c: char)
    requires
        d < 10,
    ensures
        c == digit_char(d as nat),
{
    if d == 0 {
        '0'
    } else if d == 1 {
        '1'
    } else if d == 2 {
        '2'
    } else if d == 3 {
        '3'
    } else if d == 4 {
        '4'
    } else if d == 5 {
        '5'
    } else if d == 6 {
        '6'
    } else if d == 7 {
        '7'
    } else if d == 8 {
        '8'
    } else {
        '9'
    }
}

fn dec_digits_exec(n: u32) -> (v: Vec<char>)
    ensures
        v@ == dec_digits(n as nat),
    decreases n,
{
    if n < 10 {
        let mut v: Vec<char> = Vec::new();
        v.push(digit_char_exec(n));
        assert(v@ =~= seq![digit_char(n as nat)]);
        v
    } else {
        let mut v = dec_digits_exec(n / 10);
        v.push(digit_char_exec(n % 10));
        v
    }
}

/// The printed form of a value, exactly when `text_of` gives one.
pub fn obj_text(o: &Object) -> (r: Result<String, EvalError>)
    ensures
        (match r {
            Ok(s) => text_of(o@) == Some(s@),
            Err(e) => text_of(o@) is None && e@ == (ErrV::TypeMismatch {
                detail: print_arg_text(o@),
            }),
        }),
{
    match o {
        Object::String(s) => Ok(s.clone()),
        Object::Integer(n) => {
            if *n >= 0 {
                let d = dec_digits_exec(*n as u32);
                Ok(string_of_chars(&d))
            } else {
                let mag: u32 = (-(*n as i64)) as u32;
                let mut v: Vec<char> = Vec::new();
                v.push('-');
                let mut d = dec_digits_exec(mag);
                v.append(&mut d);
                assert(v@ =~= seq!['-'] + dec_digits(mag as nat));
                Ok(string_of_chars(&v))
            }
        },
        Object::Boolean(b) => {
            if *b {
                Ok("true".to_owned())
            } else {
                Ok("false".to_owned())
            }
        },
        other => Err(print_arg_mismatch(other)),
    }
}

/// Boolean coercion of one value; a non-coercible kind is a type mismatch
/// naming the value's kind.
pub fn to_bool(arg: &Object) -> (r: Result<bool, EvalError>)
    ensures
        (match r {
            Ok(b) => spec_to_bool(arg@) == Some(b),
            Err(e) => spec_to_bool(arg@) is None && e@ == (ErrV::TypeMismatch {
                detail: coerce_mismatch_text(arg@),
            }),
        }),
{
    match arg {
        Object::Boolean(v) => Ok(*v),
        Object::Integer(n) => Ok(*n != 0),
        Object::String(s) => Ok(!s.as_str().is_empty()),
        other => Err(coerce_mismatch(other)),
    }
}

/// The `to_bool` native: exactly one coercible argument.
pub fn s_to_bool(args: &Vec<Object>) -> (r: Result<Object, EvalError>)
    ensures
        (match r {
            Ok(o) => apply_to_bool(objs_view(args@)) == Ok::<Val, ErrV>(o@),
            Err(e) => apply_to_bool(objs_view(args@)) == Err::<Val, ErrV>(e@),
        }),
{
    if args.len() != 1 {
        return Err(EvalError::TypeMismatch { detail: "to_bool takes exactly one argument".to_owned() });
    }
    assert(objs_view(args@)[0] == args@[0]@);
    match to_bool(&args[0]) {
        Ok(b) => Ok(Object::Boolean(b)),
        Err(e) => Err(e),
    }
}

/// The `print` native: append each argument's text to the output, one line
/// per argument, in order; stop at the first non-printable argument.
pub fn s_print(out: &mut Vec<String>, args: &Vec<Object>) -> (r: Result<Object, EvalError>)
    ensures
        ({
            let folded = print_fold(old(out).deep_view(), objs_view(args@), 0);
            final(out).deep_view() == folded.0 && (match r {
                Ok(o) => folded.1 == Ok::<Val, ErrV>(o@),
                Err(e) => folded.1 == Err::<Val, ErrV>(e@),
            })
        }),
{
    let ghost vals = objs_view(args@);
    let ghost out0 = old(out).deep_view();
    let mut k: usize = 0;
    while k < args.len()
        invariant
            0 <= k <= args@.len(),
            vals == objs_view(args@),
            vals.len() == args@.len(),
            out0 == old(out).deep_view(),
            print_fold(out0, vals, 0) == print_fold(out.deep_view(), vals, k as int),
        decreases args@.len() - k,
    {
        assert(vals[k as int] == args@[k as int]@);
        match obj_text(&args[k]) {
            Ok(t) => {
                let ghost prev = out.deep_view();
                out.push(t);
                proof {
                    assert(out.deep_view() =~= prev.push(t@));
                }
            },
            Err(e) => {
                return Err(e);
            },
        }
        k = k + 1;
    }
    Ok(Object::Null)
}

/// One `(name, native)` table entry.
fn get_builtin(name: &str, func: NativeFn) -> (r: (String, Object))
    ensures
        r.0@ == name@,
        r.1@ == Val::RustFunction(func),
{
    (name.to_owned(), Object::RustFunction(func))
}

/// The native-function table as `(name, value)` pairs, in table order.
pub fn get_builtins() -> (r: Vec<(String, Object)>)
    ensures
        r@.len() == 2,
        r@[0].0@ == "print"@ && r@[0].1@ == Val::RustFunction(NativeFn::Print),
        r@[1].0@ == "to_bool"@ && r@[1].1@ == Val::RustFunction(NativeFn::ToBool),
{
    let mut v: Vec<(String, Object)> = Vec::new();
    v.push(get_builtin("print", NativeFn::Print));
    v.push(get_builtin("to_bool", NativeFn::ToBool));
    v
}

/// Insert every native into a frame's entry list.
pub fn fill_with_builtins(map: &mut Vec<(String, Object)>)
    ensures
        frame_map(final(map)@) == frame_map(old(map)@).insert(
            "print"@,
            Val::RustFunction(NativeFn::Print),
        ).insert("to_bool"@, Val::RustFunction(NativeFn::ToBool)),
{
    let bs = get_builtins();
    let mut k: usize = 0;
    while k < bs.len()
        invariant
            0 <= k <= bs@.len(),
            bs@.len() == 2,
            bs@[0].0@ == "print"@ && bs@[0].1@ == Val::RustFunction(NativeFn::Print),
            bs@[1].0@ == "to_bool"@ && bs@[1].1@ == Val::RustFunction(NativeFn::ToBool),
            frame_map(map@) == (if k == 0 {
                frame_map(old(map)@)
            } else if k == 1 {
                frame_map(old(map)@).insert("print"@, Val::RustFunction(NativeFn::Print))
            } else {
                frame_map(old(map)@).insert("print"@, Val::RustFunction(NativeFn::Print)).insert(
                    "to_bool"@,
                    Val::RustFunction(NativeFn::ToBool),
                )
            }),
        decreases bs@.len() - k,
    {
        let pair = &bs[k];
        let entry = (pair.0.clone(), dup_obj(&pair.1));
        let ghost prev = map@;
        map.push(entry);
        proof {
            assert(map@.drop_last() =~= prev);
            assert(frame_map(map@) == frame_map(prev).insert(map@.last().0@, map@.last().1@));
        }
        k = k + 1;
    }
}

} // verus!
