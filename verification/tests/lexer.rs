use suro::token::{tokenize, Token, Type};

fn kinds(tokens: &[Token]) -> Vec<Type> {
    tokens.iter().map(|t| t.token_type).collect()
}

#[test]
fn lexes_the_statement_alphabet() {
    let toks = tokenize("set x to 1 + 2; { } ( ) , * /").expect("lexing failed");
    assert_eq!(
        kinds(&toks),
        vec![
            Type::Assignment,
            Type::Ident,
            Type::AssignmentOp,
            Type::Integer,
            Type::Add,
            Type::Integer,
            Type::Terminator,
            Type::BlockStart,
            Type::BlockEnd,
            Type::OpenGrouper,
            Type::CloseGrouper,
            Type::Separator,
            Type::Mul,
            Type::Div,
            Type::EOF,
        ]
    );
}

#[test]
fn keyword_at_end_of_source_is_an_identifier() {
    // A keyword rule demands a following non-identifier character; with no
    // character after it, the identifier rule matches instead.
    let toks = tokenize("return").expect("lexing failed");
    assert_eq!(kinds(&toks), vec![Type::Ident, Type::EOF]);
    assert_eq!(toks[0].str, "return");
}

#[test]
fn keyword_prefix_of_identifier_is_an_identifier() {
    let toks = tokenize("settle ").expect("lexing failed");
    assert_eq!(kinds(&toks), vec![Type::Ident, Type::EOF]);
    assert_eq!(toks[0].str, "settle");
}

#[test]
fn comment_runs_to_end_of_line() {
    let toks = tokenize("1 -- note\n2").expect("lexing failed");
    assert_eq!(kinds(&toks), vec![Type::Integer, Type::Integer, Type::EOF]);
}

#[test]
fn comment_without_newline_falls_to_subtraction() {
    // The comment rule needs a newline to close; without one, each dash
    // matches the subtraction rule.
    let toks = tokenize("--x").expect("lexing failed");
    assert_eq!(kinds(&toks), vec![Type::Sub, Type::Sub, Type::Ident, Type::EOF]);
}

#[test]
fn string_token_keeps_its_quotes() {
    let toks = tokenize("'hi'").expect("lexing failed");
    assert_eq!(kinds(&toks), vec![Type::String, Type::EOF]);
    assert_eq!(toks[0].str, "'hi'");
}

#[test]
fn double_quoted_string_is_lazy() {
    let toks = tokenize("\"a\" + \"b\"").expect("lexing failed");
    assert_eq!(kinds(&toks), vec![Type::String, Type::Add, Type::String, Type::EOF]);
    assert_eq!(toks[0].str, "\"a\"");
}

#[test]
fn unterminated_string_is_a_lexical_error() {
    assert_eq!(tokenize("\"ab"), Err(0));
}

#[test]
fn unmatched_character_reports_its_position() {
    assert_eq!(tokenize("set @"), Err(4));
}

#[test]
fn hyphen_continues_an_identifier() {
    let toks = tokenize("a-b ").expect("lexing failed");
    assert_eq!(kinds(&toks), vec![Type::Ident, Type::EOF]);
    assert_eq!(toks[0].str, "a-b");
}

#[test]
fn spaced_minus_is_subtraction() {
    let toks = tokenize("1 - 2").expect("lexing failed");
    assert_eq!(kinds(&toks), vec![Type::Integer, Type::Sub, Type::Integer, Type::EOF]);
}

#[test]
fn underscore_keeps_keyword_as_identifier() {
    let toks = tokenize("to_bool ").expect("lexing failed");
    assert_eq!(kinds(&toks), vec![Type::Ident, Type::EOF]);
    assert_eq!(toks[0].str, "to_bool");
}

#[test]
fn empty_source_is_just_end_of_input() {
    let toks = tokenize("").expect("lexing failed");
    assert_eq!(kinds(&toks), vec![Type::EOF]);
    assert_eq!(toks[0].str, "");
}
