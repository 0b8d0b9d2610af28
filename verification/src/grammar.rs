//! The grammar of the source language, as functions from a sequence of lexical
//! elements to what is parsed from its front and the elements that are left.

use crate::ast::{DeclarationView, ExpressionView, IfCaseView, StatementView, TopLevelView};
use crate::binding_power::{operator_power, token_power};
use crate::keywords::Keyword;
use crate::operators::BinaryOperator;
use crate::tokeniser::{lex, LexItem, TokeniserError};
use crate::tokens::TokenView;
use vstd::prelude::*;

verus! {

/// A `ParseError` as a mathematical value.
pub enum ParseErrorView {
    TokeniserError(TokeniserError),
    UnexpectedToken(TokenView, Seq<char>),
    UnexpectedEndOfInput,
    FunctionParseError,
    ErrorParsingFunctionArgs,
    IndentExpectedError,
}

/// What a rule gives: the value it parsed, or the error that ended the
/// parse; with either, the elements that were not taken.
pub type Parsed<T> = Result<(T, Seq<LexItem>), (ParseErrorView, Seq<LexItem>)>;

/// The next token without taking it: `None` at the end, and the tokeniser's
/// error where the next element is one.
pub open spec fn peek(items: Seq<LexItem>) -> Result<Option<TokenView>, ParseErrorView> {
    if items.len() == 0 {
        Ok(None)
    } else {
        match items[0] {
            Ok(token) => Ok(Some(token)),
            Err(error) => Err(ParseErrorView::TokeniserError(error)),
        }
    }
}

/// Takes the next element: a token, or the tokeniser's error, which ends the
/// parse. At the end nothing is taken.
pub open spec fn step(items: Seq<LexItem>) -> Parsed<Option<TokenView>> {
    match peek(items) {
        Ok(Some(token)) => Ok((Some(token), items.drop_first())),
        Ok(None) => Ok((None, items)),
        Err(error) => Err((error, items.drop_first())),
    }
}

/// The binding power of the next token; 0 at the end and before an error.
pub open spec fn next_power(items: Seq<LexItem>) -> u8 {
    match peek(items) {
        Ok(Some(token)) => token_power(token),
        _ => 0,
    }
}

/// The elements after an optional comma.
pub open spec fn after_comma(items: Seq<LexItem>) -> Seq<LexItem> {
    if peek(items) == Ok::<Option<TokenView>, ParseErrorView>(Some(TokenView::Comma)) {
        items.drop_first()
    } else {
        items
    }
}

/// What a rule gives where a rule that it uses hands back more elements than
/// it was given. No rule does (`grammar_laws` shows it of each), so this is
/// never the result of a parse; it stands where the rules would otherwise not
/// be well founded.
pub open spec fn stalled<T>(items: Seq<LexItem>) -> Parsed<T> {
    Err((stall_error(), items))
}

/// The error of a rule that is stalled.
pub open spec fn stall_error() -> ParseErrorView {
    ParseErrorView::UnexpectedEndOfInput
}

/// An expression: an operand, then every operator that binds more strongly
/// than `power`, each with its right operand. `first` is the operand's first
/// token where the caller has taken it already.
pub open spec fn expression(items: Seq<LexItem>, power: u8, first: Option<TokenView>) -> Parsed<
    ExpressionView,
>
    decreases items.len() + (if first is Some {
            1int
        } else {
            0int
        }),
        2int,
{
    let start: Parsed<TokenView> = match first {
        Some(token) => Ok((token, items)),
        None => match step(items) {
            Ok((Some(token), rest)) => Ok((token, rest)),
            Ok((None, rest)) => Err((ParseErrorView::UnexpectedEndOfInput, rest)),
            Err(failure) => Err(failure),
        },
    };
    match start {
        Ok((token, rest)) => match null_denotation(rest, token) {
            Ok((left, after)) => if after.len() <= rest.len() {
                operators(after, power, left)
            } else {
                stalled(after)
            },
            Err(failure) => Err(failure),
        },
        Err(failure) => Err(failure),
    }
}

/// The operators after the operand `left`, as long as the next one binds
/// more strongly than `power`; each takes what is parsed so far as its left
/// operand, so operators of equal power group to the left.
pub open spec fn operators(items: Seq<LexItem>, power: u8, left: ExpressionView) -> Parsed<
    ExpressionView,
>
    decreases items.len(), 3int,
{
    if power < next_power(items) {
        match left_denotation(items.drop_first(), items[0]->Ok_0, left) {
            Ok((combined, after)) => if after.len() < items.len() {
                operators(after, power, combined)
            } else {
                stalled(after)
            },
            Err(failure) => Err(failure),
        }
    } else {
        Ok((left, items))
    }
}

/// What a token makes of the expression on its left: a binary operator takes
/// a right operand made of everything that binds more strongly than itself.
pub open spec fn left_denotation(items: Seq<LexItem>, token: TokenView, left: ExpressionView)
    -> Parsed<ExpressionView>
    decreases items.len() + 1, 0int,
{
    match token {
        TokenView::BinOp(operator) => match expression(items, operator_power(operator), None) {
            Ok((right, after)) => Ok(
                (
                    ExpressionView::BinaryOp {
                        left: Box::new(left),
                        operator,
                        right: Box::new(right),
                    },
                    after,
                ),
            ),
            Err(failure) => Err(failure),
        },
        _ => Ok((left, items)),
    }
}

/// What a token makes at the start of an expression: a constant, a variable
/// or a call, a negation, or an expression in brackets.
pub open spec fn null_denotation(items: Seq<LexItem>, token: TokenView) -> Parsed<ExpressionView>
    decreases items.len() + 1, 1int,
{
    match token {
        TokenView::Constant(constant) => Ok((ExpressionView::Constant(constant), items)),
        TokenView::Name(name) => match peek(items) {
            Ok(Some(TokenView::OpenParen)) => function_call(items.drop_first(), name, Seq::empty()),
            Ok(_) => Ok((ExpressionView::Variable(name), items)),
            Err(error) => Err((error, items)),
        },
        TokenView::BinOp(BinaryOperator::Minus) => match expression(items, 100, None) {
            Ok((operand, after)) => Ok((ExpressionView::Negation(Box::new(operand)), after)),
            Err(failure) => Err(failure),
        },
        TokenView::OpenParen => match expression(items, 0, None) {
            Ok((inner, after)) => match step(after) {
                Ok((Some(TokenView::CloseParen), rest)) => Ok((inner, rest)),
                Ok((Some(other), rest)) => Err(
                    (
                        ParseErrorView::UnexpectedToken(other, "parsing expression in brackets"@),
                        rest,
                    ),
                ),
                Ok((None, rest)) => Err((ParseErrorView::UnexpectedEndOfInput, rest)),
                Err(failure) => Err(failure),
            },
            Err(failure) => Err(failure),
        },
        _ => Err(
            (
                ParseErrorView::UnexpectedToken(token, "null denotation of expression token"@),
                items,
            ),
        ),
    }
}

/// The arguments of a call after its `(`, up to its `)`: expressions, each
/// with an optional comma after it. `args` are those parsed so far.
pub open spec fn function_call(items: Seq<LexItem>, name: Seq<char>, args: Seq<ExpressionView>)
    -> Parsed<ExpressionView>
    decreases items.len(), 3int,
{
    match step(items) {
        Ok((Some(TokenView::CloseParen), rest)) => Ok(
            (ExpressionView::FunctionCall { name, args }, rest),
        ),
        Ok((Some(token), rest)) => match expression(rest, 0, Some(token)) {
            Ok((argument, after)) => match peek(after) {
                Ok(_) => if after_comma(after).len() < items.len() {
                    function_call(after_comma(after), name, args.push(argument))
                } else {
                    stalled(after_comma(after))
                },
                Err(error) => Err((error, after)),
            },
            Err(failure) => Err(failure),
        },
        Ok((None, rest)) => Err((ParseErrorView::UnexpectedEndOfInput, rest)),
        Err(failure) => Err(failure),
    }
}

/// A statement that starts with a name, the name being taken already: with
/// `=` after the name an assignment, else an expression that the name starts.
pub open spec fn named_statement(items: Seq<LexItem>, name: Seq<char>) -> Parsed<StatementView> {
    match peek(items) {
        Ok(Some(TokenView::Equals)) => match expression(items.drop_first(), 0, None) {
            Ok((expr, after)) => Ok(
                (StatementView::Declaration(DeclarationView::Assignment { name, expr }), after),
            ),
            Err(failure) => Err(failure),
        },
        Ok(_) => match expression(items, 0, Some(TokenView::Name(name))) {
            Ok((expr, after)) => Ok((StatementView::BareExpression(expr), after)),
            Err(failure) => Err(failure),
        },
        Err(error) => Err((error, items)),
    }
}

/// A top-level assignment after its name: `=` and an expression.
pub open spec fn declaration(items: Seq<LexItem>, name: Seq<char>) -> Parsed<DeclarationView> {
    match step(items) {
        Ok((Some(TokenView::Equals), rest)) => match expression(rest, 0, None) {
            Ok((expr, after)) => Ok((DeclarationView::Assignment { name, expr }, after)),
            Err(failure) => Err(failure),
        },
        Ok((Some(token), rest)) => Err(
            (ParseErrorView::UnexpectedToken(token, "top level assignment"@), rest),
        ),
        Ok((None, rest)) => Err((ParseErrorView::UnexpectedEndOfInput, rest)),
        Err(failure) => Err(failure),
    }
}

/// The argument names of a function declaration after their `(`, up to the
/// `)`: names, each with an optional comma after it.
pub open spec fn argument_names(items: Seq<LexItem>, names: Seq<Seq<char>>) -> Parsed<
    Seq<Seq<char>>,
>
    decreases items.len(),
{
    match step(items) {
        Ok((Some(TokenView::Name(name)), rest)) => match peek(rest) {
            Ok(_) => argument_names(after_comma(rest), names.push(name)),
            Err(error) => Err((error, rest)),
        },
        Ok((Some(TokenView::CloseParen), rest)) => Ok((names, rest)),
        Ok((_, rest)) => Err((ParseErrorView::ErrorParsingFunctionArgs, rest)),
        Err(failure) => Err(failure),
    }
}

/// The argument list of a function declaration, in brackets.
pub open spec fn function_arguments(items: Seq<LexItem>) -> Parsed<Seq<Seq<char>>> {
    match step(items) {
        Ok((Some(TokenView::OpenParen), rest)) => argument_names(rest, Seq::empty()),
        Ok((_, rest)) => Err((ParseErrorView::ErrorParsingFunctionArgs, rest)),
        Err(failure) => Err(failure),
    }
}

/// A function declaration after its `fn`: a name, the argument list and an
/// indented block.
pub open spec fn function(items: Seq<LexItem>) -> Parsed<DeclarationView>
    decreases items.len(), 7int,
{
    match step(items) {
        Ok((Some(TokenView::Name(name)), rest)) => match function_arguments(rest) {
            Ok((arguments, after)) => if after.len() <= rest.len() {
                match function_body(after) {
                    Ok((body, end)) => Ok(
                        (DeclarationView::FunctionDecl { name, arguments, body }, end),
                    ),
                    Err(failure) => Err(failure),
                }
            } else {
                stalled(after)
            },
            Err(failure) => Err(failure),
        },
        Ok((_, rest)) => Err((ParseErrorView::FunctionParseError, rest)),
        Err(failure) => Err(failure),
    }
}

/// An indented block: `IndentIncr`, statements, `IndentDecr`.
pub open spec fn function_body(items: Seq<LexItem>) -> Parsed<Seq<StatementView>>
    decreases items.len(), 6int,
{
    match step(items) {
        Ok((Some(TokenView::IndentIncr), rest)) => block_statements(rest, Seq::empty()),
        Ok((_, rest)) => Err((ParseErrorView::IndentExpectedError, rest)),
        Err(failure) => Err(failure),
    }
}

/// The statements of a block up to its `IndentDecr`; `statements` are those
/// parsed so far.
pub open spec fn block_statements(items: Seq<LexItem>, statements: Seq<StatementView>) -> Parsed<
    Seq<StatementView>,
>
    decreases items.len(), 6int,
{
    match peek(items) {
        Ok(Some(TokenView::IndentDecr)) => Ok((statements, items.drop_first())),
        Ok(Some(_)) => match func_body_statement(items) {
            Ok((statement, after)) => if after.len() < items.len() {
                block_statements(after, statements.push(statement))
            } else {
                stalled(after)
            },
            Err(failure) => Err(failure),
        },
        Ok(None) => Err((ParseErrorView::UnexpectedEndOfInput, items)),
        Err(error) => Err((error, items)),
    }
}

/// One statement of a block: an assignment or an expression that starts
/// with a name, a nested function declaration, an `if`, or an expression that
/// starts with a constant or a bracket.
pub open spec fn func_body_statement(items: Seq<LexItem>) -> Parsed<StatementView>
    decreases items.len(), 4int,
{
    match step(items) {
        Ok((Some(token), rest)) => match token {
            TokenView::Name(name) => named_statement(rest, name),
            TokenView::Keyword(Keyword::Function) => match function(rest) {
                Ok((decl, after)) => Ok((StatementView::Declaration(decl), after)),
                Err(failure) => Err(failure),
            },
            TokenView::Keyword(Keyword::If) => if_statement(rest),
            TokenView::Constant(_) | TokenView::OpenParen => match expression(
                rest,
                0,
                Some(token),
            ) {
                Ok((expr, after)) => Ok((StatementView::BareExpression(expr), after)),
                Err(failure) => Err(failure),
            },
            _ => Err((ParseErrorView::UnexpectedToken(token, "function body"@), rest)),
        },
        Ok((None, rest)) => Err((ParseErrorView::UnexpectedEndOfInput, rest)),
        Err(failure) => Err(failure),
    }
}

/// A condition and the indented block that it guards.
pub open spec fn if_case(items: Seq<LexItem>) -> Parsed<IfCaseView>
    decreases items.len(), 7int,
{
    match expression(items, 0, None) {
        Ok((condition, after)) => if after.len() <= items.len() {
            match function_body(after) {
                Ok((block, end)) => Ok((IfCaseView { condition, block }, end)),
                Err(failure) => Err(failure),
            }
        } else {
            stalled(after)
        },
        Err(failure) => Err(failure),
    }
}

/// An `if` statement after its `if`: a first case, then the `else if` cases
/// and the `else` block, if there are any.
pub open spec fn if_statement(items: Seq<LexItem>) -> Parsed<StatementView>
    decreases items.len(), 8int,
{
    match if_case(items) {
        Ok((case, after)) => if after.len() < items.len() {
            else_cases(after, seq![case])
        } else {
            stalled(after)
        },
        Err(failure) => Err(failure),
    }
}

/// What follows the cases parsed so far: `else if` and a further case, or
/// `else` and the last block, or nothing.
pub open spec fn else_cases(items: Seq<LexItem>, cases: Seq<IfCaseView>) -> Parsed<StatementView>
    decreases items.len(), 8int,
{
    match peek(items) {
        Ok(Some(TokenView::Keyword(Keyword::Else))) => match peek(items.drop_first()) {
            Ok(Some(TokenView::Keyword(Keyword::If))) => match if_case(
                items.drop_first().drop_first(),
            ) {
                Ok((case, after)) => if after.len() < items.len() {
                    else_cases(after, cases.push(case))
                } else {
                    stalled(after)
                },
                Err(failure) => Err(failure),
            },
            Ok(_) => match function_body(items.drop_first()) {
                Ok((block, end)) => Ok(
                    (StatementView::IfStatement { cases, else_case: Some(block) }, end),
                ),
                Err(failure) => Err(failure),
            },
            Err(error) => Err((error, items.drop_first())),
        },
        Ok(_) => Ok((StatementView::IfStatement { cases, else_case: None }, items)),
        Err(error) => Err((error, items)),
    }
}

/// One top-level statement, or `None` at the end of the input: an assignment
/// or a function declaration, with `export` before it or not. `is_export`
/// says that `export` was read already.
pub open spec fn top_level_statement(items: Seq<LexItem>, is_export: bool) -> Parsed<
    Option<TopLevelView>,
>
    decreases items.len(),
{
    match step(items) {
        Ok((Some(token), rest)) => match token {
            TokenView::Name(name) => match declaration(rest, name) {
                Ok((decl, after)) => Ok((Some(TopLevelView { decl, exported: is_export }), after)),
                Err(failure) => Err(failure),
            },
            TokenView::Keyword(Keyword::Function) => match function(rest) {
                Ok((decl, after)) => Ok((Some(TopLevelView { decl, exported: is_export }), after)),
                Err(failure) => Err(failure),
            },
            TokenView::Keyword(Keyword::Export) => if is_export {
                Err((ParseErrorView::UnexpectedToken(token, "export specified twice"@), rest))
            } else {
                top_level_statement(rest, true)
            },
            _ => Err((ParseErrorView::UnexpectedToken(token, "top level statement"@), rest)),
        },
        Ok((None, rest)) => Ok((None, rest)),
        Err(failure) => Err(failure),
    }
}

/// The top-level statements up to the end of the input, or the first error;
/// `statements` are those parsed so far.
pub open spec fn program(items: Seq<LexItem>, statements: Seq<TopLevelView>) -> Result<
    Seq<TopLevelView>,
    ParseErrorView,
>
    decreases items.len(),
{
    match top_level_statement(items, false) {
        Ok((Some(statement), after)) => if after.len() < items.len() {
            program(after, statements.push(statement))
        } else {
            Err(stall_error())
        },
        Ok((None, _)) => Ok(statements),
        Err((error, _)) => Err(error),
    }
}

/// The program that a source text is parsed to.
pub open spec fn parse_source(src: Seq<char>) -> Result<Seq<TopLevelView>, ParseErrorView> {
    program(lex(src), Seq::empty())
}

} // verus!
