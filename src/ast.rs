//! Pieces of the syntax tree that the parser builds from tokens.
use vstd::prelude::*;

verus! {

/// The arithmetic operators of expressions.
#[derive(Debug, Clone, Copy, PartialEq, Eq, Structural)]
pub enum Operator {
    Add,
    Sub,
    Mul,
    Div,
    Mod,
}

} // verus!
