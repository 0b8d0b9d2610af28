//! The tokens of the source language.

use crate::keywords::Keyword;
use crate::operators::BinaryOperator;
use vstd::prelude::*;

verus! {

/// A literal of the source language. A string literal holds the text between
/// its quotes; a floating-point literal holds its digits as they were written,
/// with their one `.`.
#[derive(Debug)]
pub enum Constant {
    Str(String),
    Float(String),
    Int(i64),
}

/// What a `Constant` holds, as a mathematical value.
pub enum ConstantView {
    Str(Seq<char>),
    Float(Seq<char>),
    Int(i64),
}

impl View for Constant {
    type V = ConstantView;

    open spec fn view(&self) -> ConstantView {
        match self {
            Constant::Str(s) => ConstantView::Str(s@),
            Constant::Float(digits) => ConstantView::Float(digits@),
            Constant::Int(value) => ConstantView::Int(*value),
        }
    }
}

impl Clone for Constant {
    fn clone(&self) -> (copy: Constant)
        ensures
            copy@ == self@,
    {
        match self {
            Constant::Str(s) => Constant::Str(s.clone()),
            Constant::Float(digits) => Constant::Float(digits.clone()),
            Constant::Int(value) => Constant::Int(*value),
        }
    }
}

/// A token of the source language. `IndentIncr` and `IndentDecr` stand for no
/// character: they mark a change of the indentation.
#[derive(Debug)]
pub enum Token {
    Equals,
    Pipe,
    Comma,
    Colon,
    FatRightArrow,
    OpenParen,
    CloseParen,
    IndentIncr,
    IndentDecr,
    Name(String),
    Keyword(Keyword),
    BinOp(BinaryOperator),
    Constant(Constant),
}

/// What a `Token` holds, as a mathematical value.
pub enum TokenView {
    Equals,
    Pipe,
    Comma,
    Colon,
    FatRightArrow,
    OpenParen,
    CloseParen,
    IndentIncr,
    IndentDecr,
    Name(Seq<char>),
    Keyword(Keyword),
    BinOp(BinaryOperator),
    Constant(ConstantView),
}

impl View for Token {
    type V = TokenView;

    open spec fn view(&self) -> TokenView {
        match self {
            Token::Equals => TokenView::Equals,
            Token::Pipe => TokenView::Pipe,
            Token::Comma => TokenView::Comma,
            Token::Colon => TokenView::Colon,
            Token::FatRightArrow => TokenView::FatRightArrow,
            Token::OpenParen => TokenView::OpenParen,
            Token::CloseParen => TokenView::CloseParen,
            Token::IndentIncr => TokenView::IndentIncr,
            Token::IndentDecr => TokenView::IndentDecr,
            Token::Name(name) => TokenView::Name(name@),
            Token::Keyword(keyword) => TokenView::Keyword(*keyword),
            Token::BinOp(operator) => TokenView::BinOp(*operator),
            Token::Constant(constant) => TokenView::Constant(constant@),
        }
    }
}

impl Clone for Token {
    fn clone(&self) -> (copy: Token)
        ensures
            copy@ == self@,
    {
        match self {
            Token::Equals => Token::Equals,
            Token::Pipe => Token::Pipe,
            Token::Comma => Token::Comma,
            Token::Colon => Token::Colon,
            Token::FatRightArrow => Token::FatRightArrow,
            Token::OpenParen => Token::OpenParen,
            Token::CloseParen => Token::CloseParen,
            Token::IndentIncr => Token::IndentIncr,
            Token::IndentDecr => Token::IndentDecr,
            Token::Name(name) => Token::Name(name.clone()),
            Token::Keyword(keyword) => Token::Keyword(*keyword),
            Token::BinOp(operator) => Token::BinOp(*operator),
            Token::Constant(constant) => Token::Constant(constant.clone()),
        }
    }
}

} // verus!
