use suro::interpreter::Interpreter;
use suro::object::{EvalError, NativeFn, Object};
use suro::parser::Parser;
use suro::token::tokenize;

fn run(src: &str) -> (Result<Object, EvalError>, Vec<String>) {
    let tokens = tokenize(src).expect("lexing failed");
    let program = Parser::new(tokens).parse().expect("parsing failed");
    let mut interp = Interpreter::new();
    let result = interp.eval_program(&program);
    (result, interp.output().clone())
}

fn value_of(src: &str) -> Object {
    run(src).0.expect("evaluation failed")
}

fn error_of(src: &str) -> EvalError {
    run(src).0.expect_err("evaluation unexpectedly succeeded")
}

#[test]
fn precedence_multiplication_before_addition() {
    assert_eq!(value_of("{ set x to 2 + 3 * 4; return x; }"), Object::Integer(14));
}

#[test]
fn subtraction_is_left_associative() {
    assert_eq!(value_of("{ return 10 - 3 - 2; }"), Object::Integer(5));
}

#[test]
fn string_repetition() {
    assert_eq!(value_of("{ return \"ab\" * 3; }"), Object::String("ababab".to_string()));
}

#[test]
fn string_repetition_zero_gives_empty() {
    assert_eq!(value_of("{ return \"ab\" * 0; }"), Object::String(String::new()));
}

#[test]
fn negative_repeat_count_is_arithmetic_error() {
    assert_eq!(
        error_of("{ return \"x\" * (0 - 1); }"),
        EvalError::Arithmetic {
            detail: "cannot repeat a string a negative number of times".to_string()
        }
    );
}

#[test]
fn inner_set_shadows_and_does_not_leak() {
    assert_eq!(value_of("{ set x to 1; { set x to 2; }; return x; }"), Object::Integer(1));
}

#[test]
fn change_reaches_the_outer_frame() {
    assert_eq!(value_of("{ set x to 1; { change x to 2; }; return x; }"), Object::Integer(2));
}

#[test]
fn change_without_prior_set_fails() {
    assert_eq!(
        error_of("{ change y to 5; }"),
        EvalError::ReassignUndefined { name: "y".to_string() }
    );
}

#[test]
fn conditional_chain_picks_second_branch() {
    let src = "{ set x to 0; return if x then 1 else if (call to_bool with (1)) then 2 else 3; }";
    assert_eq!(value_of(src), Object::Integer(2));
}

#[test]
fn conditional_chain_falls_to_final_else() {
    let src = "{ return if 0 then 1 else if false then 2 else 3; }";
    assert_eq!(value_of(src), Object::Integer(3));
}

#[test]
fn if_without_matching_branch_yields_null() {
    assert_eq!(value_of("{ return if 0 then 1; }"), Object::Null);
}

#[test]
fn return_inside_if_is_the_value_of_the_if() {
    // A `return` nested inside an `if` yields the if's value; only a `return`
    // directly in the block's statement list leaves the block early.
    let src = "{ set x to 1; if x then return 9 else return 8; return x; }";
    assert_eq!(value_of(src), Object::Integer(1));
}

#[test]
fn print_emits_arguments_in_order() {
    let (result, output) = run("{ call print with (\"a\", \"b\"); }");
    assert_eq!(result, Ok(Object::Null));
    assert_eq!(output, vec!["a".to_string(), "b".to_string()]);
}

#[test]
fn print_renders_integers_and_booleans() {
    let (result, output) = run("{ call print with (0 - 42, true, \"s\"); }");
    assert_eq!(result, Ok(Object::Null));
    assert_eq!(output, vec!["-42".to_string(), "true".to_string(), "s".to_string()]);
}

#[test]
fn print_of_null_is_type_mismatch_but_keeps_earlier_lines() {
    let (result, output) = run("{ call print with (\"a\", {}); }");
    assert_eq!(
        result,
        Err(EvalError::TypeMismatch { detail: "invalid argument for print: Null".to_string() })
    );
    assert_eq!(output, vec!["a".to_string()]);
}

#[test]
fn to_bool_native_coerces() {
    assert_eq!(value_of("{ return call to_bool with (3); }"), Object::Boolean(true));
    assert_eq!(value_of("{ return call to_bool with (\"\"); }"), Object::Boolean(false));
    assert_eq!(value_of("{ return call to_bool with (\"x\"); }"), Object::Boolean(true));
}

#[test]
fn null_condition_is_type_mismatch() {
    assert_eq!(
        error_of("{ return if (call print) then 1 else 2; }"),
        EvalError::TypeMismatch { detail: "cannot convert Null to boolean".to_string() }
    );
}

#[test]
fn division_by_zero_is_arithmetic_error() {
    assert_eq!(
        error_of("{ return 1 / 0; }"),
        EvalError::Arithmetic { detail: "division by zero".to_string() }
    );
}

#[test]
fn division_truncates_toward_zero() {
    assert_eq!(value_of("{ return (0 - 10) / 3; }"), Object::Integer(-3));
    assert_eq!(value_of("{ return 10 / 3; }"), Object::Integer(3));
    assert_eq!(value_of("{ return (0 - 10) / (0 - 3); }"), Object::Integer(3));
}

#[test]
fn addition_overflow_is_arithmetic_error() {
    assert_eq!(
        error_of("{ return 2147483647 + 1; }"),
        EvalError::Arithmetic { detail: "arithmetic result out of the 32-bit range".to_string() }
    );
}

#[test]
fn string_concatenation() {
    assert_eq!(value_of("{ return \"foo\" + \"bar\"; }"), Object::String("foobar".to_string()));
}

#[test]
fn mixed_operands_are_type_mismatch() {
    assert_eq!(
        error_of("{ return 1 + \"a\"; }"),
        EvalError::TypeMismatch {
            detail: "unsupported operation + for Integer and String".to_string()
        }
    );
}

#[test]
fn unresolved_identifier_fails() {
    assert_eq!(error_of("{ return nope; }"), EvalError::Unresolved { name: "nope".to_string() });
}

#[test]
fn calling_a_non_native_fails() {
    assert_eq!(
        error_of("{ call 5; }"),
        EvalError::NotCallable { callee: "Integer".to_string() }
    );
}

#[test]
fn empty_block_yields_null() {
    assert_eq!(value_of("{}"), Object::Null);
}

#[test]
fn builtins_are_seeded_into_the_root_frame() {
    let scope = suro::scope::Scope::new_root();
    assert_eq!(scope.get("print"), Some(Object::RustFunction(NativeFn::Print)));
    assert_eq!(scope.get("to_bool"), Some(Object::RustFunction(NativeFn::ToBool)));
    assert_eq!(scope.get("absent"), None);
}

#[test]
fn scope_set_get_extend_retrieve() {
    let mut scope = suro::scope::Scope::new_root();
    scope.set("x", &Object::Integer(1));
    assert_eq!(scope.get("x"), Some(Object::Integer(1)));
    let mut inner = scope.extend();
    assert_eq!(inner.get("x"), Some(Object::Integer(1)));
    inner.set("x", &Object::Integer(2));
    assert_eq!(inner.get("x"), Some(Object::Integer(2)));
    let outer = inner.retrieve();
    assert_eq!(outer.get("x"), Some(Object::Integer(1)));
}

#[test]
fn scope_reassign_walks_outward() {
    let scope = suro::scope::Scope::new_root();
    let mut inner = scope.extend();
    assert!(!inner.reassign("x", &Object::Integer(9)));
    inner.set("x", &Object::Integer(1));
    assert!(inner.reassign("x", &Object::Integer(9)));
    assert_eq!(inner.get("x"), Some(Object::Integer(9)));
}

#[test]
fn function_declaration_is_not_callable() {
    // The evaluator recognizes only native procedures as call targets; a
    // value produced by a function declaration is a "not callable" error.
    let declaration = suro::parser::Statement::FunctionDec {
        params: vec!["a".to_string()],
        body: Box::new(suro::parser::Statement::BlockStatement { statements: vec![] }),
    };
    let call = suro::parser::Statement::FunctionCall { func: Box::new(declaration), args: vec![] };
    let mut interp = Interpreter::new();
    assert_eq!(
        interp.eval_statement(&call),
        Err(EvalError::NotCallable { callee: "Function".to_string() })
    );
}

#[test]
fn full_pipeline_with_comment_and_natives() {
    let src = "{ set greeting to 'hello'; set n to 3; -- say it thrice\n call print with (greeting * n); return 0; }";
    let (result, output) = run(src);
    assert_eq!(result, Ok(Object::Integer(0)));
    assert_eq!(output, vec!["hellohellohello".to_string()]);
}

#[test]
fn to_bool_native_takes_exactly_one_argument() {
    assert_eq!(
        error_of("{ return call to_bool with (1, 2); }"),
        EvalError::TypeMismatch { detail: "to_bool takes exactly one argument".to_string() }
    );
}

#[test]
fn multiplication_of_unsupported_kinds_names_them() {
    assert_eq!(
        error_of("{ return 2 * true; }"),
        EvalError::TypeMismatch {
            detail: "unsupported operation * for Integer and Boolean".to_string()
        }
    );
}
