//! The lexer: turns source text into a sequence of typed tokens.
//!
//! At each position an ordered, fixed list of pattern rules is tried and the
//! first rule that matches wins (rule order is part of the grammar: keyword
//! rules come before the generic identifier rule, and the comment rule before
//! the subtraction operator). Keyword rules demand a non-identifier character
//! right after the keyword, so a keyword that ends the source is tokenized as
//! a plain identifier instead. Comment and whitespace matches advance the
//! cursor but emit no token. The spec function `spec_tokenize` is the
//! mathematical statement of this process; `tokenize` is proved to return
//! exactly its result.
use vstd::prelude::*;

verus! {

/// The kind of a token.
#[derive(Clone, Copy, PartialEq, Eq, Structural, Debug)]
pub enum Type {
    EOF,
    Whitespace,
    Comment,
    FunctionCall,
    ParameterList,
    Ident,
    String,
    Assignment,
    OpenGrouper,
    CloseGrouper,
    Separator,
    Terminator,
    Integer,
    Add,
    Sub,
    Mul,
    Div,
    AssignmentOp,
    Return,
    BlockStart,
    BlockEnd,
    If,
    True,
    False,
    FuncDec,
    FuncParams,
    Then,
    Else,
    Change,
}

/// A token: its kind and the literal text it matched. String literals keep
/// their surrounding quote characters; the parser strips them.
#[derive(Clone, Debug, PartialEq)]
pub struct Token {
    pub token_type: Type,
    pub str: String,
}

/// The mathematical view of a token: its kind and its text as a `Seq<char>`.
pub struct TokenV {
    pub token_type: Type,
    pub text: Seq<char>,
}

impl View for Token {
    type V = TokenV;

    open spec fn view(&self) -> TokenV {
        TokenV { token_type: self.token_type, text: self.str@ }
    }
}

impl Token {
    /// A copy with the same view.
    pub fn dup(&self) -> (t: Token)
        ensures
            t@ == self@,
    {
        Token { token_type: self.token_type, str: self.str.clone() }
    }
}

/// The views of a token sequence, in order.
pub open spec fn tokens_view(ts: Seq<Token>) -> Seq<TokenV> {
    ts.map_values(|t: Token| t@)
}

pub proof fn lemma_tokens_view_push(ts: Seq<Token>, t: Token)
    ensures
        tokens_view(ts.push(t)) == tokens_view(ts).push(t@),
{
    assert(tokens_view(ts.push(t)) =~= tokens_view(ts).push(t@));
}

// ---------------------------------------------------------------------------
// Character classes of the pattern alphabet.
// ---------------------------------------------------------------------------

pub open spec fn is_digit(c: char) -> bool {
    ('0' as u32) <= (c as u32) && (c as u32) <= ('9' as u32)
}

pub open spec fn is_alpha(c: char) -> bool {
    (('a' as u32) <= (c as u32) && (c as u32) <= ('z' as u32)) || (('A' as u32) <= (c as u32)
        && (c as u32) <= ('Z' as u32))
}

/// Characters that may start an identifier.
pub open spec fn is_ident_start(c: char) -> bool {
    is_alpha(c) || c == '_'
}

/// Characters that may continue an identifier (also the class a keyword must
/// not be followed by).
pub open spec fn is_ident_char(c: char) -> bool {
    is_alpha(c) || is_digit(c) || c == '_' || c == '-'
}

pub open spec fn is_space(c: char) -> bool {
    c == ' ' || c == '\n' || c == '\t'
}

// ---------------------------------------------------------------------------
// Scans used by the rules: maximal runs and closing-delimiter searches.
// ---------------------------------------------------------------------------

/// End of the maximal digit run starting at `i`.
pub open spec fn digit_run_end(s: Seq<char>, i: int) -> int
    recommends
        0 <= i <= s.len(),
    decreases s.len() - i,
{
    if i < s.len() && is_digit(s[i]) {
        digit_run_end(s, i + 1)
    } else {
        i
    }
}

/// End of the maximal identifier-character run starting at `i`.
pub open spec fn ident_run_end(s: Seq<char>, i: int) -> int
    recommends
        0 <= i <= s.len(),
    decreases s.len() - i,
{
    if i < s.len() && is_ident_char(s[i]) {
        ident_run_end(s, i + 1)
    } else {
        i
    }
}

/// End of the maximal whitespace run starting at `i`.
pub open spec fn space_run_end(s: Seq<char>, i: int) -> int
    recommends
        0 <= i <= s.len(),
    decreases s.len() - i,
{
    if i < s.len() && is_space(s[i]) {
        space_run_end(s, i + 1)
    } else {
        i
    }
}

/// Position of the first newline at or after `i`, if any.
pub open spec fn line_end(s: Seq<char>, i: int) -> Option<int>
    recommends
        0 <= i <= s.len(),
    decreases s.len() - i,
{
    if i >= s.len() {
        None
    } else if s[i] == '\n' {
        Some(i)
    } else {
        line_end(s, i + 1)
    }
}

/// Position of the closing quote `q` at or after `i`. A string literal cannot
/// cross a newline, so a newline found first means no match.
pub open spec fn str_close(s: Seq<char>, i: int, q: char) -> Option<int>
    recommends
        0 <= i <= s.len(),
    decreases s.len() - i,
{
    if i >= s.len() {
        None
    } else if s[i] == q {
        Some(i)
    } else if s[i] == '\n' {
        None
    } else {
        str_close(s, i + 1, q)
    }
}

pub proof fn lemma_digit_run_bounds(s: Seq<char>, i: int)
    requires
        0 <= i <= s.len(),
    ensures
        i <= digit_run_end(s, i) <= s.len(),
    decreases s.len() - i,
{
    if i < s.len() && is_digit(s[i]) {
        lemma_digit_run_bounds(s, i + 1);
    }
}

pub proof fn lemma_ident_run_bounds(s: Seq<char>, i: int)
    requires
        0 <= i <= s.len(),
    ensures
        i <= ident_run_end(s, i) <= s.len(),
    decreases s.len() - i,
{
    if i < s.len() && is_ident_char(s[i]) {
        lemma_ident_run_bounds(s, i + 1);
    }
}

pub proof fn lemma_space_run_bounds(s: Seq<char>, i: int)
    requires
        0 <= i <= s.len(),
    ensures
        i <= space_run_end(s, i) <= s.len(),
    decreases s.len() - i,
{
    if i < s.len() && is_space(s[i]) {
        lemma_space_run_bounds(s, i + 1);
    }
}

pub proof fn lemma_line_end_bounds(s: Seq<char>, i: int)
    requires
        0 <= i <= s.len(),
    ensures
        line_end(s, i) is Some ==> i <= line_end(s, i).unwrap() < s.len(),
    decreases s.len() - i,
{
    if i < s.len() && s[i] != '\n' {
        lemma_line_end_bounds(s, i + 1);
    }
}

pub proof fn lemma_str_close_bounds(s: Seq<char>, i: int, q: char)
    requires
        0 <= i <= s.len(),
    ensures
        str_close(s, i, q) is Some ==> i <= str_close(s, i, q).unwrap() < s.len(),
    decreases s.len() - i,
{
    if i < s.len() && s[i] != q && s[i] != '\n' {
        lemma_str_close_bounds(s, i + 1, q);
    }
}

// ---------------------------------------------------------------------------
// Keyword rules: the keyword's characters followed by a non-identifier
// character. The following character must exist, so a keyword that ends the
// source does not match (the identifier rule takes it instead).
// ---------------------------------------------------------------------------

pub open spec fn kw2_at(s: Seq<char>, i: int, a: char, b: char) -> bool {
    i + 2 < s.len() && s[i] == a && s[i + 1] == b && !is_ident_char(s[i + 2])
}

pub open spec fn kw3_at(s: Seq<char>, i: int, a: char, b: char, c: char) -> bool {
    i + 3 < s.len() && s[i] == a && s[i + 1] == b && s[i + 2] == c && !is_ident_char(s[i + 3])
}

pub open spec fn kw4_at(s: Seq<char>, i: int, a: char, b: char, c: char, d: char) -> bool {
    i + 4 < s.len() && s[i] == a && s[i + 1] == b && s[i + 2] == c && s[i + 3] == d && !is_ident_char(
        s[i + 4],
    )
}

pub open spec fn kw5_at(s: Seq<char>, i: int, a: char, b: char, c: char, d: char, e: char) -> bool {
    i + 5 < s.len() && s[i] == a && s[i + 1] == b && s[i + 2] == c && s[i + 3] == d && s[i + 4] == e
        && !is_ident_char(s[i + 5])
}

pub open spec fn kw6_at(
    s: Seq<char>,
    i: int,
    a: char,
    b: char,
    c: char,
    d: char,
    e: char,
    f: char,
) -> bool {
    i + 6 < s.len() && s[i] == a && s[i + 1] == b && s[i + 2] == c && s[i + 3] == d && s[i + 4] == e
        && s[i + 5] == f && !is_ident_char(s[i + 6])
}

// ---------------------------------------------------------------------------
// The ordered rule list: the first matching rule decides the token kind and
// how many characters the cursor advances. The emitted text is always the
// matched slice `s.subrange(i, i + n)`.
// ---------------------------------------------------------------------------

pub open spec fn lex_rule_at(s: Seq<char>, i: int) -> Option<(Type, int)>
    recommends
        0 <= i < s.len(),
{
    if i + 1 < s.len() && s[i] == '-' && s[i + 1] == '-' && line_end(s, i + 2) is Some {
        Some((Type::Comment, line_end(s, i + 2).unwrap() + 1 - i))
    } else if s[i] == '"' && str_close(s, i + 1, '"') is Some {
        Some((Type::String, str_close(s, i + 1, '"').unwrap() + 1 - i))
    } else if s[i] == '\'' && str_close(s, i + 1, '\'') is Some {
        Some((Type::String, str_close(s, i + 1, '\'').unwrap() + 1 - i))
    } else if is_digit(s[i]) {
        Some((Type::Integer, digit_run_end(s, i) - i))
    } else if s[i] == ';' {
        Some((Type::Terminator, 1))
    } else if kw4_at(s, i, 'c', 'a', 'l', 'l') {
        Some((Type::FunctionCall, 4))
    } else if kw3_at(s, i, 's', 'e', 't') {
        Some((Type::Assignment, 3))
    } else if kw6_at(s, i, 'c', 'h', 'a', 'n', 'g', 'e') {
        Some((Type::Change, 6))
    } else if kw6_at(s, i, 'r', 'e', 't', 'u', 'r', 'n') {
        Some((Type::Return, 6))
    } else if kw2_at(s, i, 't', 'o') {
        Some((Type::AssignmentOp, 2))
    } else if kw4_at(s, i, 'w', 'i', 't', 'h') {
        Some((Type::ParameterList, 4))
    } else if kw2_at(s, i, 'i', 'f') {
        Some((Type::If, 2))
    } else if kw4_at(s, i, 't', 'h', 'e', 'n') {
        Some((Type::Then, 4))
    } else if kw4_at(s, i, 'e', 'l', 's', 'e') {
        Some((Type::Else, 4))
    } else if kw4_at(s, i, 't', 'r', 'u', 'e') {
        Some((Type::True, 4))
    } else if kw5_at(s, i, 'f', 'a', 'l', 's', 'e') {
        Some((Type::False, 5))
    } else if kw4_at(s, i, 'f', 'u', 'n', 'c') {
        Some((Type::FuncDec, 4))
    } else if kw5_at(s, i, 't', 'a', 'k', 'e', 's') {
        Some((Type::FuncParams, 5))
    } else if s[i] == '(' {
        Some((Type::OpenGrouper, 1))
    } else if s[i] == ')' {
        Some((Type::CloseGrouper, 1))
    } else if s[i] == '{' {
        Some((Type::BlockStart, 1))
    } else if s[i] == '}' {
        Some((Type::BlockEnd, 1))
    } else if s[i] == ',' {
        Some((Type::Separator, 1))
    } else if s[i] == '+' {
        Some((Type::Add, 1))
    } else if s[i] == '-' {
        Some((Type::Sub, 1))
    } else if s[i] == '*' {
        Some((Type::Mul, 1))
    } else if s[i] == '/' {
        Some((Type::Div, 1))
    } else if is_ident_start(s[i]) {
        Some((Type::Ident, ident_run_end(s, i) - i))
    } else if is_space(s[i]) {
        Some((Type::Whitespace, space_run_end(s, i) - i))
    } else {
        None
    }
}

/// Every matching rule consumes at least one character and stays inside the
/// input: the ground for the lexer's termination.
pub proof fn lemma_rule_at_bounds(s: Seq<char>, i: int)
    requires
        0 <= i < s.len(),
    ensures
        lex_rule_at(s, i) matches Some(r) ==> 1 <= r.1 && i + r.1 <= s.len(),
{
    if i + 2 <= s.len() {
        lemma_line_end_bounds(s, i + 2);
    }
    lemma_str_close_bounds(s, i + 1, '"');
    lemma_str_close_bounds(s, i + 1, '\'');
    if is_digit(s[i]) {
        lemma_digit_run_bounds(s, i + 1);
    }
    if is_ident_start(s[i]) {
        lemma_ident_run_bounds(s, i + 1);
    }
    if is_space(s[i]) {
        lemma_space_run_bounds(s, i + 1);
    }
}

/// The whole lexing process: from position `i` with tokens `acc` already
/// emitted, the final token sequence (ending in the end-of-input token), or
/// the position of the first character no rule matches.
pub open spec fn spec_tokenize(s: Seq<char>, i: int, acc: Seq<TokenV>) -> Result<Seq<TokenV>, int>
    recommends
        0 <= i <= s.len(),
    decreases s.len() - i,
        via spec_tokenize_decreases
{
    if !(0 <= i < s.len()) {
        Ok(acc.push(TokenV { token_type: Type::EOF, text: Seq::empty() }))
    } else {
        match lex_rule_at(s, i) {
            None => Err(i),
            Some((ty, n)) => {
                if ty is Comment || ty is Whitespace {
                    spec_tokenize(s, i + n, acc)
                } else {
                    spec_tokenize(
                        s,
                        i + n,
                        acc.push(TokenV { token_type: ty, text: s.subrange(i, i + n) }),
                    )
                }
            },
        }
    }
}

#[via_fn]
proof fn spec_tokenize_decreases(s: Seq<char>, i: int, acc: Seq<TokenV>) {
    if 0 <= i < s.len() {
        lemma_rule_at_bounds(s, i);
    }
}


pub(crate) fn ex_is_digit(c: char) -> (r: bool)
    ensures
        r == is_digit(c),
{
    ('0' as u32) <= (c as u32) && (c as u32) <= ('9' as u32)
}

fn ex_is_alpha(c: char) -> (r: bool)
    ensures
        r == is_alpha(c),
{
    (('a' as u32) <= (c as u32) && (c as u32) <= ('z' as u32)) || (('A' as u32) <= (c as u32) && (c
        as u32) <= ('Z' as u32))
}

fn ex_is_ident_start(c: char) -> (r: bool)
    ensures
        r == is_ident_start(c),
{
    ex_is_alpha(c) || c == '_'
}

fn ex_is_ident_char(c: char) -> (r: bool)
    ensures
        r == is_ident_char(c),
{
    ex_is_alpha(c) || ex_is_digit(c) || c == '_' || c == '-'
}

fn ex_is_space(c: char) -> (r: bool)
    ensures
        r == is_space(c),
{
    c == ' ' || c == '\n' || c == '\t'
}

// ---------------------------------------------------------------------------
// Bridges between `str`/`String` and their character sequences.
// ---------------------------------------------------------------------------

/// Relies on str::chars: it yields exactly the string's characters, in order
/// (the view of a `str` is that character sequence).
#[verifier::external_body]
pub(crate) fn chars_of(s: &str) -> (r: Vec<char>)
    ensures
        r@ == s@,
{
    s.chars().collect()
}

/// Relies on String's FromIterator: collecting characters builds the string
/// of exactly those characters, in order.
#[verifier::external_body]
pub(crate) fn string_of_chars(v: &Vec<char>) -> (r: String)
    ensures
        r@ == v@,
{
    v.iter().collect()
}

/// Copy of `chars[a..b]`.
pub(crate) fn subvec(chars: &Vec<char>, a: usize, b: usize) -> (r: Vec<char>)
    requires
        a <= b <= chars@.len(),
    ensures
        r@ == chars@.subrange(a as int, b as int),
{
    let mut r: Vec<char> = Vec::new();
    let mut j = a;
    while j < b
        invariant
            a <= j <= b <= chars@.len(),
            r@ == chars@.subrange(a as int, j as int),
        decreases b - j,
    {
        r.push(chars[j]);
        assert(chars@.subrange(a as int, j + 1) =~= chars@.subrange(a as int, j as int).push(
            chars@[j as int],
        ));
        j = j + 1;
    }
    r
}

// ---------------------------------------------------------------------------
// Executable scans, proved equal to the spec scans.
// ---------------------------------------------------------------------------

fn digit_run(chars: &Vec<char>, i: usize) -> (r: usize)
    requires
        i <= chars@.len(),
    ensures
        r == digit_run_end(chars@, i as int),
        i <= r <= chars@.len(),
{
    let mut j = i;
    loop
        invariant
            i <= j <= chars@.len(),
            digit_run_end(chars@, i as int) == digit_run_end(chars@, j as int),
        ensures
            i <= j <= chars@.len(),
            digit_run_end(chars@, i as int) == j,
        decreases chars@.len() - j,
    {
        if j >= chars.len() {
            break ;
        }
        if !ex_is_digit(chars[j]) {
            break ;
        }
        j = j + 1;
    }
    j
}

fn ident_run(chars: &Vec<char>, i: usize) -> (r: usize)
    requires
        i <= chars@.len(),
    ensures
        r == ident_run_end(chars@, i as int),
        i <= r <= chars@.len(),
{
    let mut j = i;
    loop
        invariant
            i <= j <= chars@.len(),
            ident_run_end(chars@, i as int) == ident_run_end(chars@, j as int),
        ensures
            i <= j <= chars@.len(),
            ident_run_end(chars@, i as int) == j,
        decreases chars@.len() - j,
    {
        if j >= chars.len() {
            break ;
        }
        if !ex_is_ident_char(chars[j]) {
            break ;
        }
        j = j + 1;
    }
    j
}

fn space_run(chars: &Vec<char>, i: usize) -> (r: usize)
    requires
        i <= chars@.len(),
    ensures
        r == space_run_end(chars@, i as int),
        i <= r <= chars@.len(),
{
    let mut j = i;
    loop
        invariant
            i <= j <= chars@.len(),
            space_run_end(chars@, i as int) == space_run_end(chars@, j as int),
        ensures
            i <= j <= chars@.len(),
            space_run_end(chars@, i as int) == j,
        decreases chars@.len() - j,
    {
        if j >= chars.len() {
            break ;
        }
        if !ex_is_space(chars[j]) {
            break ;
        }
        j = j + 1;
    }
    j
}

fn find_line_end(chars: &Vec<char>, i: usize) -> (r: Option<usize>)
    requires
        i <= chars@.len(),
    ensures
        (match r {
            Some(j) => line_end(chars@, i as int) == Some(j as int) && i <= j < chars@.len(),
            None => line_end(chars@, i as int) is None,
        }),
{
    let mut j = i;
    loop
        invariant
            i <= j <= chars@.len(),
            line_end(chars@, i as int) == line_end(chars@, j as int),
        ensures
            i <= j <= chars@.len(),
            line_end(chars@, i as int) == (if j < chars@.len() {
                Some(j as int)
            } else {
                None::<int>
            }),
        decreases chars@.len() - j,
    {
        if j >= chars.len() {
            break ;
        }
        if chars[j] == '\n' {
            break ;
        }
        j = j + 1;
    }
    if j < chars.len() {
        Some(j)
    } else {
        None
    }
}

fn find_str_close(chars: &Vec<char>, i: usize, q: char) -> (r: Option<usize>)
    requires
        i <= chars@.len(),
    ensures
        (match r {
            Some(j) => str_close(chars@, i as int, q) == Some(j as int) && i <= j < chars@.len(),
            None => str_close(chars@, i as int, q) is None,
        }),
{
    let mut j = i;
    loop
        invariant
            i <= j <= chars@.len(),
            str_close(chars@, i as int, q) == str_close(chars@, j as int, q),
        ensures
            i <= j <= chars@.len(),
            str_close(chars@, i as int, q) == str_close(chars@, j as int, q),
            j == chars@.len() || chars@[j as int] == q || chars@[j as int] == '\n',
        decreases chars@.len() - j,
    {
        if j >= chars.len() {
            break ;
        }
        let cj = chars[j];
        if cj == q || cj == '\n' {
            break ;
        }
        j = j + 1;
    }
    if j < chars.len() && chars[j] == q {
        Some(j)
    } else {
        None
    }
}

// ---------------------------------------------------------------------------
// Executable keyword checks.
// ---------------------------------------------------------------------------

fn kw2(chars: &Vec<char>, i: usize, a: char, b: char) -> (r: bool)
    requires
        i < chars@.len(),
    ensures
        r == kw2_at(chars@, i as int, a, b),
{
    chars.len() - i > 2 && chars[i] == a && chars[i + 1] == b && !ex_is_ident_char(chars[i + 2])
}

fn kw3(chars: &Vec<char>, i: usize, a: char, b: char, c: char) -> (r: bool)
    requires
        i < chars@.len(),
    ensures
        r == kw3_at(chars@, i as int, a, b, c),
{
    chars.len() - i > 3 && chars[i] == a && chars[i + 1] == b && chars[i + 2] == c
        && !ex_is_ident_char(chars[i + 3])
}

fn kw4(chars: &Vec<char>, i: usize, a: char, b: char, c: char, d: char) -> (r: bool)
    requires
        i < chars@.len(),
    ensures
        r == kw4_at(chars@, i as int, a, b, c, d),
{
    chars.len() - i > 4 && chars[i] == a && chars[i + 1] == b && chars[i + 2] == c && chars[i + 3]
        == d && !ex_is_ident_char(chars[i + 4])
}

fn kw5(chars: &Vec<char>, i: usize, a: char, b: char, c: char, d: char, e: char) -> (r: bool)
    requires
        i < chars@.len(),
    ensures
        r == kw5_at(chars@, i as int, a, b, c, d, e),
{
    chars.len() - i > 5 && chars[i] == a && chars[i + 1] == b && chars[i + 2] == c && chars[i + 3]
        == d && chars[i + 4] == e && !ex_is_ident_char(chars[i + 5])
}

fn kw6(chars: &Vec<char>, i: usize, a: char, b: char, c: char, d: char, e: char, f: char) -> (r:
    bool)
    requires
        i < chars@.len(),
    ensures
        r == kw6_at(chars@, i as int, a, b, c, d, e, f),
{
    chars.len() - i > 6 && chars[i] == a && chars[i + 1] == b && chars[i + 2] == c && chars[i + 3]
        == d && chars[i + 4] == e && chars[i + 5] == f && !ex_is_ident_char(chars[i + 6])
}

/// Try the ordered rule list at position `i`.
fn next_token(chars: &Vec<char>, i: usize) -> (r: Option<(Type, usize)>)
    requires
        i < chars@.len(),
    ensures
        (match r {
            Some((ty, n)) => lex_rule_at(chars@, i as int) == Some((ty, n as int)) && 1 <= n && i
                + n <= chars@.len(),
            None => lex_rule_at(chars@, i as int) is None,
        }),
{
    let c = chars[i];
    if chars.len() - i > 1 && c == '-' && chars[i + 1] == '-' {
        if let Some(j) = find_line_end(chars, i + 2) {
            return Some((Type::Comment, j + 1 - i));
        }
    }
    if c == '"' {
        if let Some(j) = find_str_close(chars, i + 1, '"') {
            return Some((Type::String, j + 1 - i));
        }
        return None;
    }
    if c == '\'' {
        if let Some(j) = find_str_close(chars, i + 1, '\'') {
            return Some((Type::String, j + 1 - i));
        }
        return None;
    }
    if ex_is_digit(c) {
        let e = digit_run(chars, i);
        proof {
            lemma_digit_run_bounds(chars@, i + 1);
        }
        assert(e > i);
        return Some((Type::Integer, e - i));
    }
    if c == ';' {
        return Some((Type::Terminator, 1));
    }
    if kw4(chars, i, 'c', 'a', 'l', 'l') {
        return Some((Type::FunctionCall, 4));
    }
    if kw3(chars, i, 's', 'e', 't') {
        return Some((Type::Assignment, 3));
    }
    if kw6(chars, i, 'c', 'h', 'a', 'n', 'g', 'e') {
        return Some((Type::Change, 6));
    }
    if kw6(chars, i, 'r', 'e', 't', 'u', 'r', 'n') {
        return Some((Type::Return, 6));
    }
    if kw2(chars, i, 't', 'o') {
        return Some((Type::AssignmentOp, 2));
    }
    if kw4(chars, i, 'w', 'i', 't', 'h') {
        return Some((Type::ParameterList, 4));
    }
    if kw2(chars, i, 'i', 'f') {
        return Some((Type::If, 2));
    }
    if kw4(chars, i, 't', 'h', 'e', 'n') {
        return Some((Type::Then, 4));
    }
    if kw4(chars, i, 'e', 'l', 's', 'e') {
        return Some((Type::Else, 4));
    }
    if kw4(chars, i, 't', 'r', 'u', 'e') {
        return Some((Type::True, 4));
    }
    if kw5(chars, i, 'f', 'a', 'l', 's', 'e') {
        return Some((Type::False, 5));
    }
    if kw4(chars, i, 'f', 'u', 'n', 'c') {
        return Some((Type::FuncDec, 4));
    }
    if kw5(chars, i, 't', 'a', 'k', 'e', 's') {
        return Some((Type::FuncParams, 5));
    }
    if c == '(' {
        return Some((Type::OpenGrouper, 1));
    }
    if c == ')' {
        return Some((Type::CloseGrouper, 1));
    }
    if c == '{' {
        return Some((Type::BlockStart, 1));
    }
    if c == '}' {
        return Some((Type::BlockEnd, 1));
    }
    if c == ',' {
        return Some((Type::Separator, 1));
    }
    if c == '+' {
        return Some((Type::Add, 1));
    }
    if c == '-' {
        return Some((Type::Sub, 1));
    }
    if c == '*' {
        return Some((Type::Mul, 1));
    }
    if c == '/' {
        return Some((Type::Div, 1));
    }
    if ex_is_ident_start(c) {
        let e = ident_run(chars, i);
        proof {
            lemma_ident_run_bounds(chars@, i + 1);
        }
        assert(e > i);
        return Some((Type::Ident, e - i));
    }
    if ex_is_space(c) {
        let e = space_run(chars, i);
        proof {
            lemma_space_run_bounds(chars@, i + 1);
        }
        assert(e > i);
        return Some((Type::Whitespace, e - i));
    }
    None
}

/// Lex the whole source. Always terminates; on success the result is the
/// emitted tokens followed by the end-of-input token, on failure the
/// character position no rule matches.
pub fn tokenize(program_string: &str) -> (r: Result<Vec<Token>, usize>)
    ensures
        (match r {
            Ok(v) => spec_tokenize(program_string@, 0, Seq::empty()) == Ok::<Seq<TokenV>, int>(
                tokens_view(v@),
            ),
            Err(p) => spec_tokenize(program_string@, 0, Seq::empty()) == Err::<Seq<TokenV>, int>(
                p as int,
            ),
        }),
{
    let chars = chars_of(program_string);
    let ghost s = program_string@;
    let mut toks: Vec<Token> = Vec::new();
    let mut i: usize = 0;
    proof {
        assert(tokens_view(toks@) =~= Seq::<TokenV>::empty());
    }
    while i < chars.len()
        invariant
            chars@ == s,
            s == program_string@,
            i <= chars@.len(),
            spec_tokenize(s, 0, Seq::empty()) == spec_tokenize(s, i as int, tokens_view(toks@)),
        decreases chars@.len() - i,
    {
        match next_token(&chars, i) {
            None => {
                return Err(i);
            },
            Some((ty, n)) => {
                if !(matches!(ty, Type::Comment) || matches!(ty, Type::Whitespace)) {
                    let text = subvec(&chars, i, i + n);
                    let tok = Token { token_type: ty, str: string_of_chars(&text) };
                    proof {
                        lemma_tokens_view_push(toks@, tok);
                    }
                    toks.push(tok);
                }
                i = i + n;
            },
        }
    }
    let eof = Token { token_type: Type::EOF, str: String::new() };
    proof {
        lemma_tokens_view_push(toks@, eof);
    }
    toks.push(eof);
    Ok(toks)
}

} // verus!
