//! The parser: it pulls tokens from the tokeniser, one ahead of what it has
//! taken, and builds the syntax tree that the grammar gives.

use crate::ast::{
    block_view, cases_view, expressions_view, Ast, CodeBlockStatement, Declaration, Expression,
    ExpressionView, FunctionArg, FunctionArgsList, IfStatementCase, StatementView, TopLevelStatement,
    TopLevelView, DeclarationView, IfCaseView,
};
use crate::binding_power::{BindingPower, ExpressionToken};
use crate::grammar;
use crate::grammar::{ParseErrorView, Parsed};
use crate::grammar_laws::{lemma_program_well_formed, program_well_formed};
use crate::keywords::Keyword;
use crate::operators::BinaryOperator;
use crate::tokeniser::{item_view, lex, tokenise, LexItem, Tokeniser, TokeniserError};
use crate::tokens::{Token, TokenView};
use vstd::prelude::*;

verus! {

/// Why a token sequence is no program. Every error ends the parse.
#[derive(Debug)]
pub enum ParseError {
    /// The tokeniser gave an error where a token was asked for.
    TokeniserError(TokeniserError),
    /// A token that cannot stand where it stands; the text says in which
    /// rule.
    UnexpectedToken(Token, &'static str),
    UnexpectedEndOfInput,
    /// No name after `fn`.
    FunctionParseError,
    /// An argument list that is not names in brackets.
    ErrorParsingFunctionArgs,
    /// No indented block where one has to stand.
    IndentExpectedError,
}

impl View for ParseError {
    type V = ParseErrorView;

    open spec fn view(&self) -> ParseErrorView {
        match self {
            ParseError::TokeniserError(error) => ParseErrorView::TokeniserError(*error),
            ParseError::UnexpectedToken(token, context) => ParseErrorView::UnexpectedToken(
                token@,
                context@,
            ),
            ParseError::UnexpectedEndOfInput => ParseErrorView::UnexpectedEndOfInput,
            ParseError::FunctionParseError => ParseErrorView::FunctionParseError,
            ParseError::ErrorParsingFunctionArgs => ParseErrorView::ErrorParsingFunctionArgs,
            ParseError::IndentExpectedError => ParseErrorView::IndentExpectedError,
        }
    }
}

impl From<TokeniserError> for ParseError {
    /// A tokeniser's error as the parse error that it causes.
    fn from(error: TokeniserError) -> (lifted: ParseError) {
        ParseError::TokeniserError(error)
    }
}

impl vstd::std_specs::convert::FromSpecImpl<TokeniserError> for ParseError {
    open spec fn obeys_from_spec() -> bool {
        true
    }

    open spec fn from_spec(error: TokeniserError) -> ParseError {
        ParseError::TokeniserError(error)
    }
}

/// What a pull of a token gave, as a mathematical value.
pub open spec fn token_outcome(r: Result<Option<Token>, ParseError>) -> Result<
    Option<TokenView>,
    ParseErrorView,
> {
    match r {
        Ok(Some(token)) => Ok(Some(token@)),
        Ok(None) => Ok(None),
        Err(error) => Err(error@),
    }
}

/// What parsing an expression gave, as a mathematical value.
pub open spec fn expression_outcome(r: Result<Expression, ParseError>) -> Result<
    ExpressionView,
    ParseErrorView,
> {
    match r {
        Ok(expr) => Ok(expr.view()),
        Err(error) => Err(error@),
    }
}

/// What parsing a statement gave, as a mathematical value.
pub open spec fn statement_outcome(r: Result<CodeBlockStatement, ParseError>) -> Result<
    StatementView,
    ParseErrorView,
> {
    match r {
        Ok(statement) => Ok(statement.view()),
        Err(error) => Err(error@),
    }
}

/// What parsing a declaration gave, as a mathematical value.
pub open spec fn declaration_outcome(r: Result<Declaration, ParseError>) -> Result<
    DeclarationView,
    ParseErrorView,
> {
    match r {
        Ok(decl) => Ok(decl.view()),
        Err(error) => Err(error@),
    }
}

/// What parsing a block gave, as a mathematical value.
pub open spec fn block_outcome(r: Result<Vec<CodeBlockStatement>, ParseError>) -> Result<
    Seq<StatementView>,
    ParseErrorView,
> {
    match r {
        Ok(block) => Ok(block_view(block@)),
        Err(error) => Err(error@),
    }
}

/// What parsing an argument list gave, as a mathematical value.
pub open spec fn arguments_outcome(r: Result<FunctionArgsList, ParseError>) -> Result<
    Seq<Seq<char>>,
    ParseErrorView,
> {
    match r {
        Ok(arguments) => Ok(arguments.view()),
        Err(error) => Err(error@),
    }
}

/// What parsing a top-level statement gave, as a mathematical value.
pub open spec fn top_level_outcome(r: Result<Option<TopLevelStatement>, ParseError>) -> Result<
    Option<TopLevelView>,
    ParseErrorView,
> {
    match r {
        Ok(Some(statement)) => Ok(Some(statement.view())),
        Ok(None) => Ok(None),
        Err(error) => Err(error@),
    }
}

/// What parsing a program gave, as a mathematical value.
pub open spec fn ast_outcome(r: Result<Ast, ParseError>) -> Result<
    Seq<TopLevelView>,
    ParseErrorView,
> {
    match r {
        Ok(ast) => Ok(ast@),
        Err(error) => Err(error@),
    }
}

/// Whether an outcome and the elements left after it are what a rule of the
/// grammar gives.
pub open spec fn agrees<V>(
    outcome: Result<V, ParseErrorView>,
    rest: Seq<LexItem>,
    parsed: Parsed<V>,
) -> bool {
    match parsed {
        Ok((value, after)) => outcome == Ok::<V, ParseErrorView>(value) && rest == after,
        Err((error, after)) => outcome == Err::<V, ParseErrorView>(error) && rest == after,
    }
}

/// The binding power that an optional power stands for: 0 where none is
/// given.
pub open spec fn power_or_default(power: Option<BindingPower>) -> u8 {
    match power {
        Some(power) => power.0,
        None => 0,
    }
}

/// The view of a token that may be missing.
pub open spec fn option_token_view(token: Option<Token>) -> Option<TokenView> {
    match token {
        Some(token) => Some(token@),
        None => None,
    }
}

/// Parses a source text to a program. In the program every `if` has at
/// least one case.
pub fn parse(source: &str) -> (r: Result<Ast, ParseError>)
    ensures
        ast_outcome(r) == grammar::parse_source(source@),
        r matches Ok(ast) ==> program_well_formed(ast@),
{
    proof {
        lemma_program_well_formed(lex(source@), Seq::empty());
    }
    Parser::of(tokenise(source)).parse()
}

/// A parser over a source text, from which the top-level statements are
/// pulled one by one.
pub fn parse_iter(source: &str) -> (parser: Parser)
    ensures
        parser.remaining() == lex(source@),
{
    Parser::of(tokenise(source))
}

/// A parser over a token sequence, with one element of lookahead.
pub struct Parser {
    tokens: Tokeniser,
    peeked: Option<Result<Token, TokeniserError>>,
}

impl Parser {
    /// The lexical elements that the parser has not taken yet.
    pub closed spec fn remaining(&self) -> Seq<LexItem> {
        match self.peeked {
            Some(item) => seq![item_view(item)] + self.tokens.remaining(),
            None => self.tokens.remaining(),
        }
    }

    /// The next top-level statement, or `None` at the end of the input. After
    /// an error the parser stands behind the last element that it took.
    pub fn next(&mut self) -> (r: Option<Result<TopLevelStatement, ParseError>>)
        ensures
            agrees(
                top_level_outcome(
                    match r {
                        Some(Ok(statement)) => Ok(Some(statement)),
                        Some(Err(error)) => Err(error),
                        None => Ok(None),
                    },
                ),
                final(self).remaining(),
                grammar::top_level_statement(old(self).remaining(), false),
            ),
    {
        match self.top_level_statement(false) {
            Ok(Some(statement)) => Some(Ok(statement)),
            Ok(None) => None,
            Err(error) => Some(Err(error)),
        }
    }

    fn of(tokens: Tokeniser) -> (parser: Parser)
        ensures
            parser.remaining() == tokens.remaining(),
    {
        Parser { tokens, peeked: None }
    }

    fn step(&mut self) -> (r: Result<Option<Token>, ParseError>)
        ensures
            agrees(token_outcome(r), final(self).remaining(), grammar::step(old(self).remaining())),
            r is Ok ==> final(self).remaining().len() <= old(self).remaining().len(),
            r matches Ok(Some(_)) ==> final(self).remaining().len() + 1 == old(self).remaining().len(),
    {
        let item = match self.peeked.take() {
            Some(item) => Some(item),
            None => self.tokens.next(),
        };
        proof {
            assert(old(self).remaining().len() > 0 ==> old(self).remaining().drop_first()
                =~= self.remaining());
        }
        match item {
            Some(Ok(token)) => Ok(Some(token)),
            Some(Err(error)) => Err(ParseError::TokeniserError(error)),
            None => Ok(None),
        }
    }

    fn peek_next_token(&mut self) -> (r: Result<Option<Token>, ParseError>)
        ensures
            final(self).remaining() == old(self).remaining(),
            token_outcome(r) == grammar::peek(old(self).remaining()),
    {
        if self.peeked.is_none() {
            self.peeked = self.tokens.next();
        }
        match &self.peeked {
            Some(Ok(token)) => Ok(Some(token.clone())),
            Some(Err(error)) => Err(ParseError::TokeniserError(*error)),
            None => Ok(None),
        }
    }

    fn parse(&mut self) -> (r: Result<Ast, ParseError>)
        ensures
            ast_outcome(r) == grammar::program(old(self).remaining(), Seq::empty()),
    {
        let mut ast = Ast::default();
        let ghost target = grammar::program(self.remaining(), Seq::empty());
        loop
            invariant
                target == grammar::program(old(self).remaining(), Seq::empty()),
                grammar::program(self.remaining(), ast@) == target,
            decreases self.remaining().len(),
        {
            let statement = self.top_level_statement(false)?;
            match statement {
                Some(s) => ast.append_statement(s),
                None => {
                    return Ok(ast);
                },
            }
        }
    }

    fn top_level_statement(&mut self, is_export: bool) -> (r: Result<
        Option<TopLevelStatement>,
        ParseError,
    >)
        ensures
            agrees(
                top_level_outcome(r),
                final(self).remaining(),
                grammar::top_level_statement(old(self).remaining(), is_export),
            ),
            r matches Ok(Some(_)) ==> final(self).remaining().len() < old(self).remaining().len(),
        decreases old(self).remaining().len(),
    {
        match self.step()? {
            Some(token) => match token {
                Token::Name(name) => Ok(
                    Some(
                        TopLevelStatement::Declaration {
                            decl: self.declaration(name)?,
                            exported: is_export,
                        },
                    ),
                ),
                Token::Keyword(Keyword::Function) => Ok(
                    Some(
                        TopLevelStatement::Declaration { decl: self.function()?, exported: is_export },
                    ),
                ),
                Token::Keyword(Keyword::Export) => {
                    if is_export {
                        Err(ParseError::UnexpectedToken(token, "export specified twice"))
                    } else {
                        self.top_level_statement(true)
                    }
                },
                token => Err(ParseError::UnexpectedToken(token, "top level statement")),
            },
            None => Ok(None),
        }
    }

    fn func_body_statement(&mut self) -> (r: Result<CodeBlockStatement, ParseError>)
        ensures
            agrees(
                statement_outcome(r),
                final(self).remaining(),
                grammar::func_body_statement(old(self).remaining()),
            ),
            r is Ok ==> final(self).remaining().len() < old(self).remaining().len(),
        decreases old(self).remaining().len(), 4int,
    {
        match self.step()? {
            Some(token) => match token {
                Token::Name(name) => self.named_statement(name),
                Token::Keyword(Keyword::Function) => Ok(
                    CodeBlockStatement::Declaration(self.function()?),
                ),
                Token::Keyword(Keyword::If) => self.if_statement(),
                Token::Constant(_) | Token::OpenParen => Ok(
                    CodeBlockStatement::BareExpression(self.expression(None, Some(token))?),
                ),
                token => Err(ParseError::UnexpectedToken(token, "function body")),
            },
            None => Err(ParseError::UnexpectedEndOfInput),
        }
    }

    fn declaration(&mut self, name: String) -> (r: Result<Declaration, ParseError>)
        ensures
            agrees(
                declaration_outcome(r),
                final(self).remaining(),
                grammar::declaration(old(self).remaining(), name@),
            ),
            r is Ok ==> final(self).remaining().len() < old(self).remaining().len(),
    {
        match self.step()? {
            Some(Token::Equals) => Ok(
                Declaration::Assignment { name, expr: self.expression(None, None)? },
            ),
            Some(t) => Err(ParseError::UnexpectedToken(t, "top level assignment")),
            None => Err(ParseError::UnexpectedEndOfInput),
        }
    }

    fn named_statement(&mut self, name: String) -> (r: Result<CodeBlockStatement, ParseError>)
        ensures
            agrees(
                statement_outcome(r),
                final(self).remaining(),
                grammar::named_statement(old(self).remaining(), name@),
            ),
            r is Ok ==> final(self).remaining().len() <= old(self).remaining().len(),
    {
        if let Some(Token::Equals) = self.peek_next_token()? {
            self.step()?;
            Ok(
                CodeBlockStatement::Declaration(
                    Declaration::Assignment { name, expr: self.expression(None, None)? },
                ),
            )
        } else {
            Ok(
                CodeBlockStatement::BareExpression(
                    self.expression(None, Some(Token::Name(name)))?,
                ),
            )
        }
    }

    fn function_call(&mut self, name: String) -> (r: Result<Expression, ParseError>)
        ensures
            agrees(
                expression_outcome(r),
                final(self).remaining(),
                grammar::function_call(old(self).remaining(), name@, Seq::empty()),
            ),
            r is Ok ==> final(self).remaining().len() < old(self).remaining().len(),
        decreases old(self).remaining().len(), 3int,
    {
        let mut args: Vec<Expression> = Vec::new();
        let ghost target = grammar::function_call(self.remaining(), name@, Seq::empty());
        loop
            invariant
                target == grammar::function_call(old(self).remaining(), name@, Seq::empty()),
                grammar::function_call(self.remaining(), name@, expressions_view(args@)) == target,
                self.remaining().len() <= old(self).remaining().len(),
            decreases self.remaining().len(),
        {
            match self.step()? {
                Some(Token::CloseParen) => {
                    return Ok(Expression::FunctionCall { name, args });
                },
                Some(token) => {
                    let argument = self.expression(None, Some(token))?;
                    proof {
                        assert(args@.push(argument).drop_last() =~= args@);
                    }
                    args.push(argument);
                    if let Some(Token::Comma) = self.peek_next_token()? {
                        self.step()?;
                    }
                },
                None => {
                    return Err(ParseError::UnexpectedEndOfInput);
                },
            }
        }
    }

    fn function(&mut self) -> (r: Result<Declaration, ParseError>)
        ensures
            agrees(
                declaration_outcome(r),
                final(self).remaining(),
                grammar::function(old(self).remaining()),
            ),
            r is Ok ==> final(self).remaining().len() < old(self).remaining().len(),
        decreases old(self).remaining().len(), 7int,
    {
        match self.step()? {
            Some(Token::Name(name)) => {
                let arguments = self.function_arguments_list()?;
                let body = self.function_body()?;
                Ok(Declaration::FunctionDecl { name, arguments, body })
            },
            _ => Err(ParseError::FunctionParseError),
        }
    }

    fn function_arguments_list(&mut self) -> (r: Result<FunctionArgsList, ParseError>)
        ensures
            agrees(
                arguments_outcome(r),
                final(self).remaining(),
                grammar::function_arguments(old(self).remaining()),
            ),
            r is Ok ==> final(self).remaining().len() < old(self).remaining().len(),
    {
        match self.step()? {
            Some(Token::OpenParen) => {
                let mut args: Vec<FunctionArg> = Vec::new();
                let ghost target = grammar::argument_names(self.remaining(), Seq::empty());
                proof {
                    assert(args@.map_values(|arg: FunctionArg| arg.name@) =~= Seq::<
                        Seq<char>,
                    >::empty());
                }
                loop
                    invariant
                        target == grammar::function_arguments(old(self).remaining()),
                        grammar::argument_names(
                            self.remaining(),
                            args@.map_values(|arg: FunctionArg| arg.name@),
                        ) == target,
                        self.remaining().len() < old(self).remaining().len(),
                    decreases self.remaining().len(),
                {
                    match self.step()? {
                        Some(Token::Name(name)) => {
                            let arg = self.func_arg(name)?;
                            proof {
                                assert(args@.push(arg).map_values(|arg: FunctionArg| arg.name@)
                                    =~= args@.map_values(|arg: FunctionArg| arg.name@).push(
                                    arg.name@,
                                ));
                            }
                            args.push(arg);
                        },
                        Some(Token::CloseParen) => {
                            return Ok(FunctionArgsList { args });
                        },
                        _ => {
                            return Err(ParseError::ErrorParsingFunctionArgs);
                        },
                    }
                }
            },
            _ => Err(ParseError::ErrorParsingFunctionArgs),
        }
    }

    fn func_arg(&mut self, name: String) -> (r: Result<FunctionArg, ParseError>)
        ensures
            match grammar::peek(old(self).remaining()) {
                Ok(_) => r matches Ok(arg) && arg.name@ == name@ && final(self).remaining()
                    == grammar::after_comma(old(self).remaining()),
                Err(error) => r matches Err(e) && e@ == error && final(self).remaining() == old(
                    self,
                ).remaining(),
            },
            final(self).remaining().len() <= old(self).remaining().len(),
    {
        if let Some(Token::Comma) = self.peek_next_token()? {
            self.step()?;
        }
        Ok(FunctionArg { name })
    }

    fn function_body(&mut self) -> (r: Result<Vec<CodeBlockStatement>, ParseError>)
        ensures
            agrees(
                block_outcome(r),
                final(self).remaining(),
                grammar::function_body(old(self).remaining()),
            ),
            r is Ok ==> final(self).remaining().len() < old(self).remaining().len(),
        decreases old(self).remaining().len(), 6int,
    {
        let mut statements: Vec<CodeBlockStatement> = Vec::new();
        match self.step()? {
            Some(Token::IndentIncr) => {},
            _ => {
                return Err(ParseError::IndentExpectedError);
            },
        }
        let ghost target = grammar::block_statements(self.remaining(), Seq::empty());
        loop
            invariant
                target == grammar::function_body(old(self).remaining()),
                grammar::block_statements(self.remaining(), block_view(statements@)) == target,
                self.remaining().len() < old(self).remaining().len(),
            decreases self.remaining().len(),
        {
            match self.peek_next_token()? {
                Some(Token::IndentDecr) => {
                    self.step()?;
                    return Ok(statements);
                },
                Some(_) => {
                    let statement = self.func_body_statement()?;
                    proof {
                        assert(statements@.push(statement).drop_last() =~= statements@);
                    }
                    statements.push(statement);
                },
                None => {
                    return Err(ParseError::UnexpectedEndOfInput);
                },
            }
        }
    }

    /// A condition and its block.
    fn if_case(&mut self) -> (r: Result<IfStatementCase, ParseError>)
        ensures
            agrees(
                match r {
                    Ok(case) => Ok(case.view()),
                    Err(error) => Err(error@),
                },
                final(self).remaining(),
                grammar::if_case(old(self).remaining()),
            ),
            r is Ok ==> final(self).remaining().len() < old(self).remaining().len(),
        decreases old(self).remaining().len(), 7int,
    {
        let condition = self.expression(None, None)?;
        let block = self.function_body()?;
        Ok(IfStatementCase { condition, block })
    }

    fn if_statement(&mut self) -> (r: Result<CodeBlockStatement, ParseError>)
        ensures
            agrees(
                statement_outcome(r),
                final(self).remaining(),
                grammar::if_statement(old(self).remaining()),
            ),
            r is Ok ==> final(self).remaining().len() < old(self).remaining().len(),
        decreases old(self).remaining().len(), 8int,
    {
        let first = self.if_case()?;
        let ghost first_case = first.view();
        let mut cases: Vec<IfStatementCase> = Vec::new();
        cases.push(first);
        let ghost target = grammar::else_cases(self.remaining(), cases_view(cases@));
        proof {
            assert(cases@.drop_last() =~= Seq::<IfStatementCase>::empty());
            assert(cases_view(cases@.drop_last()) =~= Seq::<IfCaseView>::empty());
            assert(cases@.last().view() == first_case);
            assert(cases_view(cases@) =~= seq![first_case]);
        }
        loop
            invariant
                target == grammar::if_statement(old(self).remaining()),
                grammar::else_cases(self.remaining(), cases_view(cases@)) == target,
                self.remaining().len() < old(self).remaining().len(),
            decreases self.remaining().len(),
        {
            match self.peek_next_token()? {
                Some(Token::Keyword(Keyword::Else)) => {
                    self.step()?;
                    match self.peek_next_token()? {
                        Some(Token::Keyword(Keyword::If)) => {
                            self.step()?;
                            let case = self.if_case()?;
                            proof {
                                assert(cases@.push(case).drop_last() =~= cases@);
                            }
                            cases.push(case);
                        },
                        _ => {
                            let block = self.function_body()?;
                            return Ok(
                                CodeBlockStatement::IfStatement {
                                    cases,
                                    else_case: Some(Box::new(block)),
                                },
                            );
                        },
                    }
                },
                _ => {
                    return Ok(CodeBlockStatement::IfStatement { cases, else_case: None });
                },
            }
        }
    }

    fn expression(
        &mut self,
        right_binding_power: Option<BindingPower>,
        first_token: Option<Token>,
    ) -> (r: Result<Expression, ParseError>)
        ensures
            agrees(
                expression_outcome(r),
                final(self).remaining(),
                grammar::expression(
                    old(self).remaining(),
                    power_or_default(right_binding_power),
                    option_token_view(first_token),
                ),
            ),
            r is Ok ==> final(self).remaining().len() <= old(self).remaining().len(),
            r is Ok && first_token is None ==> final(self).remaining().len() < old(
                self,
            ).remaining().len(),
        decreases
                old(self).remaining().len() + (if first_token is Some {
                    1int
                } else {
                    0int
                }),
                2int,
    {
        let power = match right_binding_power {
            Some(power) => power.value(),
            None => 0,
        };
        let ghost first = option_token_view(first_token);
        let current_token = match first_token {
            Some(t) => t,
            None => match self.step()? {
                Some(t) => t,
                None => {
                    return Err(ParseError::UnexpectedEndOfInput);
                },
            },
        };
        let ghost rest = self.remaining();
        let mut left = self.null_denotation(current_token)?;
        let ghost target = grammar::operators(self.remaining(), power, left.view());
        loop
            invariant
                power == power_or_default(right_binding_power),
                first == option_token_view(first_token),
                target == grammar::expression(old(self).remaining(), power, first),
                grammar::operators(self.remaining(), power, left.view()) == target,
                self.remaining().len() <= rest.len(),
                rest.len() <= old(self).remaining().len(),
                first is None ==> rest.len() < old(self).remaining().len(),
            decreases self.remaining().len(),
        {
            if !(power < self.next_token_binding_power().value()) {
                return Ok(left);
            }
            let current_token = match self.step()? {
                Some(t) => t,
                None => {
                    return Err(ParseError::UnexpectedEndOfInput);
                },
            };
            left = self.left_denotation(current_token, left)?;
        }
    }

    fn next_token_binding_power(&mut self) -> (power: BindingPower)
        ensures
            final(self).remaining() == old(self).remaining(),
            power.0 == grammar::next_power(old(self).remaining()),
    {
        match self.peek_next_token() {
            Ok(Some(token)) => token.binding_power(),
            _ => BindingPower::default(),
        }
    }

    fn left_denotation(&mut self, token: Token, left: Expression) -> (r: Result<
        Expression,
        ParseError,
    >)
        ensures
            agrees(
                expression_outcome(r),
                final(self).remaining(),
                grammar::left_denotation(old(self).remaining(), token@, left.view()),
            ),
            r is Ok ==> final(self).remaining().len() <= old(self).remaining().len(),
        decreases old(self).remaining().len() + 1, 0int,
    {
        match token {
            Token::BinOp(operator) => {
                let right = self.expression(Some(operator.binding_power()), None)?;
                Ok(Expression::BinaryOp { operator, left: Box::new(left), right: Box::new(right) })
            },
            _ => Ok(left),
        }
    }

    fn null_denotation(&mut self, token: Token) -> (r: Result<Expression, ParseError>)
        ensures
            agrees(
                expression_outcome(r),
                final(self).remaining(),
                grammar::null_denotation(old(self).remaining(), token@),
            ),
            r is Ok ==> final(self).remaining().len() <= old(self).remaining().len(),
        decreases old(self).remaining().len() + 1, 1int,
    {
        match token {
            Token::Constant(c) => Ok(Expression::Constant(c)),
            Token::Name(name) => {
                if let Some(Token::OpenParen) = self.peek_next_token()? {
                    self.step()?;
                    self.function_call(name)
                } else {
                    Ok(Expression::Variable(name))
                }
            },
            Token::BinOp(BinaryOperator::Minus) => Ok(
                Expression::Negation(
                    Box::new(self.expression(Some(BindingPower::negation()), None)?),
                ),
            ),
            Token::OpenParen => {
                let expr = self.expression(Some(token.binding_power()), None)?;
                match self.step()? {
                    Some(Token::CloseParen) => Ok(expr),
                    Some(token) => Err(
                        ParseError::UnexpectedToken(token, "parsing expression in brackets"),
                    ),
                    None => Err(ParseError::UnexpectedEndOfInput),
                }
            },
            _ => Err(ParseError::UnexpectedToken(token, "null denotation of expression token")),
        }
    }
}

} // verus!
