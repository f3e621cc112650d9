use suro::parser::{ExprOp, Factor, ParseError, Parser, Statement, TermOp};
use suro::token::{tokenize, Type};

fn parse(src: &str) -> Result<suro::parser::Program, ParseError> {
    Parser::new(tokenize(src).expect("lexing failed")).parse()
}

#[test]
fn parses_assignment_shape() {
    let program = parse("set x to 1").expect("parsing failed");
    match program.body {
        Statement::Assign { ident, expr, change } => {
            assert_eq!(ident, "x");
            assert!(!change);
            assert_eq!(expr.terms.len(), 1);
            assert_eq!(expr.ops.len(), 0);
        },
        other => panic!("unexpected statement: {:?}", other),
    }
}

#[test]
fn parses_change_flag() {
    let program = parse("change x to 1").expect("parsing failed");
    assert!(matches!(program.body, Statement::Assign { change: true, .. }));
}

#[test]
fn flat_operator_chains() {
    let program = parse("1 + 2 * 3 - 4").expect("parsing failed");
    match program.body {
        Statement::Expr { expr } => {
            assert_eq!(expr.terms.len(), 3);
            assert_eq!(expr.ops, vec![ExprOp::Add, ExprOp::Sub]);
            assert_eq!(expr.terms[1].factors.len(), 2);
            assert_eq!(expr.terms[1].ops, vec![TermOp::Mul]);
        },
        other => panic!("unexpected statement: {:?}", other),
    }
}

#[test]
fn string_factor_loses_its_quotes() {
    let program = parse("'hi'").expect("parsing failed");
    match program.body {
        Statement::Expr { expr } => {
            assert_eq!(expr.terms[0].factors[0], Factor::StringFactor("hi".to_string()));
        },
        other => panic!("unexpected statement: {:?}", other),
    }
}

#[test]
fn missing_terminator_is_a_mismatch() {
    let err = parse("{ return 1 }").expect_err("parsing unexpectedly succeeded");
    assert!(matches!(err, ParseError::Mismatch { expected: Type::Terminator, .. }));
}

#[test]
fn trailing_tokens_are_a_mismatch_on_end_of_input() {
    let err = parse("set x to 1 5").expect_err("parsing unexpectedly succeeded");
    assert!(matches!(err, ParseError::Mismatch { expected: Type::EOF, .. }));
}

#[test]
fn integer_literal_too_large_is_rejected() {
    let err = parse("{ return 2147483648; }").expect_err("parsing unexpectedly succeeded");
    assert!(matches!(err, ParseError::BadInt { .. }));
}

#[test]
fn largest_integer_literal_is_accepted() {
    let program = parse("2147483647").expect("parsing failed");
    match program.body {
        Statement::Expr { expr } => {
            assert_eq!(expr.terms[0].factors[0], Factor::IntFactor(2147483647));
        },
        other => panic!("unexpected statement: {:?}", other),
    }
}

#[test]
fn leading_minus_is_a_parse_error() {
    // `Factor` has no unary form, so a leading minus cannot start a factor.
    let err = parse("{ return \"x\" * -1; }").expect_err("parsing unexpectedly succeeded");
    assert!(matches!(err, ParseError::BadFactor { .. }));
}

#[test]
fn call_without_parameter_list_has_no_args() {
    let program = parse("call foo").expect("parsing failed");
    match program.body {
        Statement::Expr { expr } => match &expr.terms[0].factors[0] {
            Factor::StmtFactor(inner) => match &**inner {
                Statement::FunctionCall { args, .. } => assert_eq!(args.len(), 0),
                other => panic!("unexpected callee shape: {:?}", other),
            },
            other => panic!("unexpected factor: {:?}", other),
        },
        other => panic!("unexpected statement: {:?}", other),
    }
}

#[test]
fn call_arguments_are_comma_separated() {
    let program = parse("call foo with (1, 2, 3)").expect("parsing failed");
    match program.body {
        Statement::Expr { expr } => match &expr.terms[0].factors[0] {
            Factor::StmtFactor(inner) => match &**inner {
                Statement::FunctionCall { args, .. } => assert_eq!(args.len(), 3),
                other => panic!("unexpected callee shape: {:?}", other),
            },
            other => panic!("unexpected factor: {:?}", other),
        },
        other => panic!("unexpected statement: {:?}", other),
    }
}

#[test]
fn if_chain_collects_all_branches() {
    let program = parse("if 1 then 2 else if 3 then 4 else 5").expect("parsing failed");
    match program.body {
        Statement::If { conditions } => {
            assert_eq!(conditions.len(), 3);
            assert!(conditions[0].0.is_some());
            assert!(conditions[1].0.is_some());
            assert!(conditions[2].0.is_none());
        },
        other => panic!("unexpected statement: {:?}", other),
    }
}

#[test]
fn missing_assignment_marker_is_reported() {
    let err = parse("set x").expect_err("parsing unexpectedly succeeded");
    assert!(matches!(err, ParseError::Mismatch { expected: Type::AssignmentOp, .. }));
}

#[test]
fn exhausted_token_list_is_out_of_tokens() {
    // A list without the end-of-input sentinel runs dry after the statement.
    let tokens = vec![suro::token::Token { token_type: Type::Integer, str: "1".to_string() }];
    let err = Parser::new(tokens).parse().expect_err("parsing unexpectedly succeeded");
    assert_eq!(err, ParseError::OutOfTokens);
}

#[test]
fn empty_token_list_is_out_of_tokens() {
    let err = Parser::new(vec![]).parse().expect_err("parsing unexpectedly succeeded");
    assert_eq!(err, ParseError::OutOfTokens);
}

#[test]
fn second_bare_else_is_a_parse_error() {
    // The grammar allows at most one trailing bare `else`; the chain closes
    // after it, so a second `else` cannot be consumed.
    let err = parse("{ return if 1 then 2 else 3 else 4; }").expect_err(
        "parsing unexpectedly succeeded",
    );
    assert!(matches!(err, ParseError::Mismatch { expected: Type::Terminator, .. }));
}

#[test]
fn else_if_chain_after_bare_else_is_rejected() {
    let err = parse("if 1 then 2 else 3 else if 4 then 5").expect_err(
        "parsing unexpectedly succeeded",
    );
    assert!(matches!(err, ParseError::Mismatch { expected: Type::EOF, .. }));
}
