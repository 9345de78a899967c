//! A calculator for single-line expressions of single-digit operands and the
//! four binary operators `+ - * /`.
//!
//! [`parser::Parser::parse`] turns the characters of an expression into a
//! postfix token sequence; [`calculator::Calculator::calculate`] runs such a
//! sequence on a stack. Both are verified against the models beside them, and
//! [`theorems`] states what holds of the two together.
pub mod calculator;
pub mod parser;
pub mod theorems;
