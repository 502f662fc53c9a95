//! Arithmetic expressions, from text to syntax tree.
//!
//! An expression is written with the binary operators `+ - * / ^`,
//! parentheses, decimal numerals, the constant `pi` and the two-argument
//! functions `min` and `max`. The [`tokenizer`] turns its text into
//! [`tokens`], the [`shunting_yard_parser`] turns the tokens into a tree
//! ([`ast`]), and [`expression`] does both in one call. What can go wrong is
//! a value of [`errors`].
//!
//! What the two stages compute is defined apart from the code that computes
//! it: [`lexical`] says what the tokens of a text are, [`machine`] what the
//! tree of a token sequence is, and every function of the library is proved
//! to return just that. The laws that follow from the definitions are proved
//! in [`lexical_laws`], [`parser_laws`], [`rendering`] and
//! [`expression_laws`].
//!
//! A numeral is kept as text ([`literal`]); the library computes with no
//! number that a numeral stands for. Taken on trust are three functions of
//! the standard library: `char::is_numeric` and `char::is_alphabetic`
//! ([`characters`]), and `String::push` ([`tokenizer`]).

pub mod ast;
pub mod characters;
pub mod errors;
pub mod expression;
pub mod expression_laws;
pub mod lexical;
pub mod lexical_laws;
pub mod literal;
pub mod machine;
pub mod parser_laws;
pub mod rendering;
pub mod shunting_yard_parser;
pub mod tokenizer;
pub mod tokens;
