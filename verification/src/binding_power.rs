//! The binding powers by which the parser groups the operands of an
//! expression.

use crate::operators::BinaryOperator;
use crate::tokens::{Token, TokenView};
use vstd::prelude::*;

verus! {

/// How strongly a token binds the expressions beside it; 0 binds nothing.
#[derive(Debug, Copy, Clone, PartialEq, Eq, Structural)]
pub struct BindingPower(pub u8);

impl BindingPower {
    /// The power of the unary minus: 100, above every binary operator.
    pub fn negation() -> (power: BindingPower)
        ensures
            power == BindingPower(100),
    {
        BindingPower(100)
    }

    /// The power as a number.
    pub fn value(self) -> (value: u8)
        ensures
            value == self.0,
    {
        self.0
    }
}

impl Default for BindingPower {
    /// The power of a token that is no operator: 0.
    fn default() -> (power: BindingPower)
        ensures
            power == BindingPower(0),
    {
        BindingPower(0)
    }
}

/// The binding power of a binary operator: 50 for `+` and `-`, 60 for `*` and
/// `/`, 90 for `==`.
pub open spec fn operator_power(operator: BinaryOperator) -> u8 {
    match operator {
        BinaryOperator::Plus | BinaryOperator::Minus => 50,
        BinaryOperator::Multiply | BinaryOperator::Divide => 60,
        BinaryOperator::DoubleEquals => 90,
    }
}

/// The binding power of a token: that of its operator, 0 for any other token.
pub open spec fn token_power(token: TokenView) -> u8 {
    match token {
        TokenView::BinOp(operator) => operator_power(operator),
        _ => 0,
    }
}

/// A token that has a binding power in an expression.
pub trait ExpressionToken {
    /// The power that `binding_power` returns.
    spec fn power(&self) -> BindingPower;

    fn binding_power(&self) -> (power: BindingPower)
        ensures
            power == self.power(),
    ;
}

impl ExpressionToken for BinaryOperator {
    open spec fn power(&self) -> BindingPower {
        BindingPower(operator_power(*self))
    }

    fn binding_power(&self) -> (power: BindingPower) {
        let p: u8 = match self {
            BinaryOperator::Plus | BinaryOperator::Minus => 50,
            BinaryOperator::Multiply | BinaryOperator::Divide => 60,
            BinaryOperator::DoubleEquals => 90,
        };
        BindingPower(p)
    }
}

impl ExpressionToken for Token {
    open spec fn power(&self) -> BindingPower {
        BindingPower(token_power(self@))
    }

    fn binding_power(&self) -> (power: BindingPower) {
        match self {
            Token::BinOp(operator) => operator.binding_power(),
            _ => BindingPower(0),
        }
    }
}

} // verus!
