//! A small imperative scripting language: a lexer driven by an ordered list
//! of pattern rules, a recursive-descent parser building an abstract syntax
//! tree, and a tree-walking evaluator over a chain of lexical scopes.
//!
//! Every component is specified against a mathematical model: the lexer and
//! parser against recursive spec functions over `Seq<char>` and token views,
//! the evaluator against a big-step semantics over scope-chain and output
//! views. The executable code is proved to agree with those models exactly.
pub mod builtins;
pub mod interpreter;
pub mod object;
pub mod parser;
pub mod scope;
pub mod token;
