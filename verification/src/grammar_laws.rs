//! What holds of everything that is parsed by the grammar.

use crate::ast::{DeclarationView, ExpressionView, IfCaseView, StatementView, TopLevelView};
use crate::binding_power::operator_power;
use crate::grammar::{
    after_comma, argument_names, block_statements, else_cases, expression,
    func_body_statement, function, function_arguments, function_body, function_call, if_case,
    if_statement, left_denotation, next_power, null_denotation, operators, peek,
    program, step, top_level_statement, ParseErrorView, Parsed,
};
use crate::keywords::Keyword;
use crate::operators::BinaryOperator;
use crate::tokeniser::LexItem;
use crate::tokens::TokenView;
use vstd::prelude::*;

verus! {

/// An expression takes at least one element, unless its first token was
/// taken already, and hands back no more than it was given.
pub proof fn lemma_expression_consumes(items: Seq<LexItem>, power: u8, first: Option<TokenView>)
    ensures
        expression(items, power, first) matches Ok((_, rest)) ==> rest.len() <= items.len() && (
        first is None ==> rest.len() < items.len()),
    decreases items.len() + (if first is Some {
            1int
        } else {
            0int
        }),
        2int,
{
    let start: Parsed<TokenView> = match first {
        Some(token) => Ok((token, items)),
        None => match step(items) {
            Ok((Some(token), rest)) => Ok((token, rest)),
            Ok((None, rest)) => Err((ParseErrorView::UnexpectedEndOfInput, rest)),
            Err(failure) => Err(failure),
        },
    };
    match start {
        Ok((token, rest)) => {
            lemma_null_denotation_consumes(rest, token);
            match null_denotation(rest, token) {
                Ok((left, after)) => {
                    lemma_operators_consume(after, power, left);
                },
                Err(_) => {},
            }
        },
        Err(_) => {},
    }
}

/// The operators after an operand hand back no more than they were given.
pub proof fn lemma_operators_consume(items: Seq<LexItem>, power: u8, left: ExpressionView)
    ensures
        operators(items, power, left) matches Ok((_, rest)) ==> rest.len() <= items.len(),
    decreases items.len(), 3int,
{
    if power < next_power(items) {
        lemma_left_denotation_consumes(items.drop_first(), items[0]->Ok_0, left);
        match left_denotation(items.drop_first(), items[0]->Ok_0, left) {
            Ok((combined, after)) => {
                if after.len() < items.len() {
                    lemma_operators_consume(after, power, combined);
                }
            },
            Err(_) => {},
        }
    }
}

/// A left denotation hands back no more than it was given.
pub proof fn lemma_left_denotation_consumes(
    items: Seq<LexItem>,
    token: TokenView,
    left: ExpressionView,
)
    ensures
        left_denotation(items, token, left) matches Ok((_, rest)) ==> rest.len() <= items.len(),
    decreases items.len() + 1, 0int,
{
    match token {
        TokenView::BinOp(operator) => {
            lemma_expression_consumes(items, operator_power(operator), None);
        },
        _ => {},
    }
}

/// A null denotation hands back no more than it was given.
pub proof fn lemma_null_denotation_consumes(items: Seq<LexItem>, token: TokenView)
    ensures
        null_denotation(items, token) matches Ok((_, rest)) ==> rest.len() <= items.len(),
    decreases items.len() + 1, 1int,
{
    match token {
        TokenView::Name(name) => {
            if peek(items) == Ok::<Option<TokenView>, ParseErrorView>(Some(TokenView::OpenParen)) {
                lemma_function_call_consumes(items.drop_first(), name, Seq::empty());
            }
        },
        TokenView::BinOp(BinaryOperator::Minus) => {
            lemma_expression_consumes(items, 100, None);
        },
        TokenView::OpenParen => {
            lemma_expression_consumes(items, 0, None);
        },
        _ => {},
    }
}

/// The arguments of a call take at least their closing bracket.
pub proof fn lemma_function_call_consumes(
    items: Seq<LexItem>,
    name: Seq<char>,
    args: Seq<ExpressionView>,
)
    ensures
        function_call(items, name, args) matches Ok((_, rest)) ==> rest.len() < items.len(),
    decreases items.len(), 3int,
{
    match step(items) {
        Ok((Some(TokenView::CloseParen), _)) => {},
        Ok((Some(token), rest)) => {
            lemma_expression_consumes(rest, 0, Some(token));
            match expression(rest, 0, Some(token)) {
                Ok((argument, after)) => {
                    if peek(after) is Ok && after_comma(after).len() < items.len() {
                        lemma_function_call_consumes(after_comma(after), name, args.push(argument));
                    }
                },
                Err(_) => {},
            }
        },
        _ => {},
    }
}

/// The argument names of a declaration take at least their closing bracket.
pub proof fn lemma_argument_names_consume(items: Seq<LexItem>, names: Seq<Seq<char>>)
    ensures
        argument_names(items, names) matches Ok((_, rest)) ==> rest.len() < items.len(),
    decreases items.len(),
{
    match step(items) {
        Ok((Some(TokenView::Name(name)), rest)) => {
            if peek(rest) is Ok {
                lemma_argument_names_consume(after_comma(rest), names.push(name));
            }
        },
        _ => {},
    }
}

/// A function declaration takes at least one element.
pub proof fn lemma_function_consumes(items: Seq<LexItem>)
    ensures
        function(items) matches Ok((_, rest)) ==> rest.len() < items.len(),
    decreases items.len(), 7int,
{
    match step(items) {
        Ok((Some(TokenView::Name(name)), rest)) => {
            match step(rest) {
                Ok((Some(TokenView::OpenParen), inner)) => {
                    lemma_argument_names_consume(inner, Seq::empty());
                },
                _ => {},
            }
            match function_arguments(rest) {
                Ok((_, after)) => {
                    lemma_function_body_consumes(after);
                },
                Err(_) => {},
            }
        },
        _ => {},
    }
}

/// An indented block takes at least one element.
pub proof fn lemma_function_body_consumes(items: Seq<LexItem>)
    ensures
        function_body(items) matches Ok((_, rest)) ==> rest.len() < items.len(),
    decreases items.len(), 6int,
{
    match step(items) {
        Ok((Some(TokenView::IndentIncr), rest)) => {
            lemma_block_statements_consume(rest, Seq::empty());
        },
        _ => {},
    }
}

/// The statements of a block take at least the `IndentDecr` that ends it.
pub proof fn lemma_block_statements_consume(items: Seq<LexItem>, statements: Seq<StatementView>)
    ensures
        block_statements(items, statements) matches Ok((_, rest)) ==> rest.len() < items.len(),
    decreases items.len(), 5int,
{
    match peek(items) {
        Ok(Some(TokenView::IndentDecr)) => {},
        Ok(Some(_)) => {
            lemma_func_body_statement_consumes(items);
            match func_body_statement(items) {
                Ok((statement, after)) => {
                    if after.len() < items.len() {
                        lemma_block_statements_consume(after, statements.push(statement));
                    }
                },
                Err(_) => {},
            }
        },
        _ => {},
    }
}

/// A statement of a block takes at least one element.
pub proof fn lemma_func_body_statement_consumes(items: Seq<LexItem>)
    ensures
        func_body_statement(items) matches Ok((_, rest)) ==> rest.len() < items.len(),
    decreases items.len(), 4int,
{
    match step(items) {
        Ok((Some(token), rest)) => match token {
            TokenView::Name(name) => {
                lemma_expression_consumes(rest.drop_first(), 0, None);
                lemma_expression_consumes(rest, 0, Some(TokenView::Name(name)));
            },
            TokenView::Keyword(Keyword::Function) => {
                lemma_function_consumes(rest);
            },
            TokenView::Keyword(Keyword::If) => {
                lemma_if_statement_consumes(rest);
            },
            TokenView::Constant(_) | TokenView::OpenParen => {
                lemma_expression_consumes(rest, 0, Some(token));
            },
            _ => {},
        },
        _ => {},
    }
}

/// A case of an `if` takes at least one element.
pub proof fn lemma_if_case_consumes(items: Seq<LexItem>)
    ensures
        if_case(items) matches Ok((_, rest)) ==> rest.len() < items.len(),
    decreases items.len(), 7int,
{
    lemma_expression_consumes(items, 0, None);
    match expression(items, 0, None) {
        Ok((_, after)) => {
            lemma_function_body_consumes(after);
        },
        Err(_) => {},
    }
}

/// An `if` statement takes at least one element.
pub proof fn lemma_if_statement_consumes(items: Seq<LexItem>)
    ensures
        if_statement(items) matches Ok((_, rest)) ==> rest.len() < items.len(),
    decreases items.len(), 8int,
{
    lemma_if_case_consumes(items);
    match if_case(items) {
        Ok((case, after)) => {
            lemma_else_cases_consume(after, seq![case]);
        },
        Err(_) => {},
    }
}

/// What follows the cases of an `if` hands back no more than it was given.
pub proof fn lemma_else_cases_consume(items: Seq<LexItem>, cases: Seq<IfCaseView>)
    ensures
        else_cases(items, cases) matches Ok((_, rest)) ==> rest.len() <= items.len(),
    decreases items.len(), 8int,
{
    match peek(items) {
        Ok(Some(TokenView::Keyword(Keyword::Else))) => match peek(items.drop_first()) {
            Ok(Some(TokenView::Keyword(Keyword::If))) => {
                lemma_if_case_consumes(items.drop_first().drop_first());
                match if_case(items.drop_first().drop_first()) {
                    Ok((case, after)) => {
                        lemma_else_cases_consume(after, cases.push(case));
                    },
                    Err(_) => {},
                }
            },
            Ok(_) => {
                lemma_function_body_consumes(items.drop_first());
            },
            Err(_) => {},
        },
        _ => {},
    }
}

/// A top-level statement takes at least one element.
pub proof fn lemma_top_level_statement_consumes(items: Seq<LexItem>, is_export: bool)
    ensures
        top_level_statement(items, is_export) matches Ok((Some(_), rest)) ==> rest.len()
            < items.len(),
    decreases items.len(),
{
    match step(items) {
        Ok((Some(token), rest)) => match token {
            TokenView::Name(name) => {
                lemma_expression_consumes(rest.drop_first(), 0, None);
            },
            TokenView::Keyword(Keyword::Function) => {
                lemma_function_consumes(rest);
            },
            TokenView::Keyword(Keyword::Export) => {
                if !is_export {
                    lemma_top_level_statement_consumes(rest, true);
                }
            },
            _ => {},
        },
        _ => {},
    }
}

/// A statement in which every `if`, however deep, has at least one case.
pub open spec fn statement_well_formed(statement: StatementView) -> bool
    decreases statement,
{
    match statement {
        StatementView::Declaration(decl) => declaration_well_formed(decl),
        StatementView::BareExpression(_) => true,
        StatementView::IfStatement { cases, else_case } => {
            &&& cases.len() >= 1
            &&& forall|i: int| 0 <= i < cases.len() ==> block_well_formed((#[trigger] cases[i]).block)
            &&& else_case matches Some(block) ==> block_well_formed(block)
        },
    }
}

/// A declaration in whose body every `if` has at least one case.
pub open spec fn declaration_well_formed(decl: DeclarationView) -> bool
    decreases decl,
{
    match decl {
        DeclarationView::Assignment { .. } => true,
        DeclarationView::FunctionDecl { body, .. } => block_well_formed(body),
    }
}

/// A block of well-formed statements.
pub open spec fn block_well_formed(block: Seq<StatementView>) -> bool
    decreases block,
{
    forall|i: int| 0 <= i < block.len() ==> statement_well_formed(#[trigger] block[i])
}

/// A program of well-formed declarations.
pub open spec fn program_well_formed(program: Seq<TopLevelView>) -> bool {
    forall|i: int| 0 <= i < program.len() ==> declaration_well_formed((#[trigger] program[i]).decl)
}

proof fn lemma_function_well_formed(items: Seq<LexItem>)
    ensures
        function(items) matches Ok((decl, _)) ==> declaration_well_formed(decl),
    decreases items.len(), 7int,
{
    match step(items) {
        Ok((Some(TokenView::Name(name)), rest)) => {
            match function_arguments(rest) {
                Ok((_, after)) => {
                    if after.len() <= rest.len() {
                        lemma_function_body_well_formed(after);
                    }
                },
                Err(_) => {},
            }
        },
        _ => {},
    }
}

proof fn lemma_function_body_well_formed(items: Seq<LexItem>)
    ensures
        function_body(items) matches Ok((block, _)) ==> block_well_formed(block),
    decreases items.len(), 6int,
{
    match step(items) {
        Ok((Some(TokenView::IndentIncr), rest)) => {
            lemma_block_statements_well_formed(rest, Seq::empty());
        },
        _ => {},
    }
}

proof fn lemma_block_statements_well_formed(items: Seq<LexItem>, statements: Seq<StatementView>)
    requires
        block_well_formed(statements),
    ensures
        block_statements(items, statements) matches Ok((block, _)) ==> block_well_formed(block),
    decreases items.len(), 5int,
{
    match peek(items) {
        Ok(Some(TokenView::IndentDecr)) => {},
        Ok(Some(_)) => {
            lemma_func_body_statement_well_formed(items);
            match func_body_statement(items) {
                Ok((statement, after)) => {
                    if after.len() < items.len() {
                        let longer = statements.push(statement);
                        assert forall|i: int| 0 <= i < longer.len() implies statement_well_formed(
                            #[trigger] longer[i],
                        ) by {
                            if i < statements.len() {
                                assert(longer[i] == statements[i]);
                            }
                        }
                        lemma_block_statements_well_formed(after, longer);
                    }
                },
                Err(_) => {},
            }
        },
        _ => {},
    }
}

proof fn lemma_func_body_statement_well_formed(items: Seq<LexItem>)
    ensures
        func_body_statement(items) matches Ok((statement, _)) ==> statement_well_formed(statement),
    decreases items.len(), 4int,
{
    match step(items) {
        Ok((Some(token), rest)) => match token {
            TokenView::Keyword(Keyword::Function) => {
                lemma_function_well_formed(rest);
            },
            TokenView::Keyword(Keyword::If) => {
                lemma_if_statement_well_formed(rest);
            },
            _ => {},
        },
        _ => {},
    }
}

proof fn lemma_if_case_well_formed(items: Seq<LexItem>)
    ensures
        if_case(items) matches Ok((case, _)) ==> block_well_formed(case.block),
    decreases items.len(), 7int,
{
    match expression(items, 0, None) {
        Ok((_, after)) => {
            if after.len() <= items.len() {
                lemma_function_body_well_formed(after);
            }
        },
        Err(_) => {},
    }
}

proof fn lemma_if_statement_well_formed(items: Seq<LexItem>)
    ensures
        if_statement(items) matches Ok((statement, _)) ==> statement_well_formed(statement),
    decreases items.len(), 8int,
{
    lemma_if_case_well_formed(items);
    match if_case(items) {
        Ok((case, after)) => {
            if after.len() < items.len() {
                lemma_else_cases_well_formed(after, seq![case]);
            }
        },
        Err(_) => {},
    }
}

proof fn lemma_else_cases_well_formed(items: Seq<LexItem>, cases: Seq<IfCaseView>)
    requires
        cases.len() >= 1,
        forall|i: int| 0 <= i < cases.len() ==> block_well_formed((#[trigger] cases[i]).block),
    ensures
        else_cases(items, cases) matches Ok((statement, _)) ==> statement_well_formed(statement),
    decreases items.len(), 8int,
{
    match peek(items) {
        Ok(Some(TokenView::Keyword(Keyword::Else))) => match peek(items.drop_first()) {
            Ok(Some(TokenView::Keyword(Keyword::If))) => {
                lemma_if_case_well_formed(items.drop_first().drop_first());
                match if_case(items.drop_first().drop_first()) {
                    Ok((case, after)) => {
                        if after.len() < items.len() {
                            let longer = cases.push(case);
                            assert forall|i: int| 0 <= i < longer.len() implies block_well_formed(
                                (#[trigger] longer[i]).block,
                            ) by {
                                if i < cases.len() {
                                    assert(longer[i] == cases[i]);
                                }
                            }
                            lemma_else_cases_well_formed(after, longer);
                        }
                    },
                    Err(_) => {},
                }
            },
            Ok(_) => {
                lemma_function_body_well_formed(items.drop_first());
            },
            Err(_) => {},
        },
        _ => {},
    }
}

proof fn lemma_top_level_statement_well_formed(items: Seq<LexItem>, is_export: bool)
    ensures
        top_level_statement(items, is_export) matches Ok((Some(statement), _))
            ==> declaration_well_formed(statement.decl),
    decreases items.len(),
{
    match step(items) {
        Ok((Some(token), rest)) => match token {
            TokenView::Keyword(Keyword::Function) => {
                lemma_function_well_formed(rest);
            },
            TokenView::Keyword(Keyword::Export) => {
                if !is_export {
                    lemma_top_level_statement_well_formed(rest, true);
                }
            },
            _ => {},
        },
        _ => {},
    }
}

/// In every program that is parsed, every `if` has at least one case.
pub proof fn lemma_program_well_formed(items: Seq<LexItem>, statements: Seq<TopLevelView>)
    requires
        program_well_formed(statements),
    ensures
        program(items, statements) matches Ok(parsed) ==> program_well_formed(parsed),
    decreases items.len(),
{
    lemma_top_level_statement_well_formed(items, false);
    match top_level_statement(items, false) {
        Ok((Some(statement), after)) => {
            if after.len() < items.len() {
                let longer = statements.push(statement);
                assert forall|i: int| 0 <= i < longer.len() implies declaration_well_formed(
                    (#[trigger] longer[i]).decl,
                ) by {
                    if i < statements.len() {
                        assert(longer[i] == statements[i]);
                    }
                }
                lemma_program_well_formed(after, longer);
            }
        },
        _ => {},
    }
}

} // verus!
