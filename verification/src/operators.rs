//! The binary operators of the source language.

use vstd::prelude::*;

verus! {

/// The binary operators of the source language.
#[derive(Debug, Copy, Clone, PartialEq, Eq, Structural)]
pub enum BinaryOperator {
    Plus,
    Minus,
    Multiply,
    Divide,
    DoubleEquals,
}

} // verus!
