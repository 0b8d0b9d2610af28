//! The syntax tree of a program.

use crate::operators::BinaryOperator;
use crate::tokens::{Constant, ConstantView};
use vstd::prelude::*;

verus! {

/// A whole program: its top-level statements in source order.
#[derive(Debug)]
pub struct Ast {
    pub statements: Vec<TopLevelStatement>,
}

/// What binds a name: an assignment of an expression, or a function with its
/// arguments and its body.
#[derive(Debug)]
pub enum Declaration {
    Assignment { name: String, expr: Expression },
    FunctionDecl { name: String, arguments: FunctionArgsList, body: Vec<CodeBlockStatement> },
}

/// A statement at the top level of a program: a declaration, exported or not.
#[derive(Debug)]
pub enum TopLevelStatement {
    Declaration { decl: Declaration, exported: bool },
}

/// The statements of an indented block, in order.
pub type CodeBlock = Vec<CodeBlockStatement>;

/// A statement of a block. An `if` has its cases in order, each with its
/// condition, and the block of its `else` where it has one.
#[derive(Debug)]
pub enum CodeBlockStatement {
    Declaration(Declaration),
    BareExpression(Expression),
    IfStatement { cases: Vec<IfStatementCase>, else_case: Option<Box<CodeBlock>> },
}

/// A condition and the block that is run where it holds.
#[derive(Debug)]
pub struct IfStatementCase {
    pub condition: Expression,
    pub block: CodeBlock,
}

/// The arguments of a function declaration, in order.
#[derive(Debug)]
pub struct FunctionArgsList {
    pub args: Vec<FunctionArg>,
}

/// An argument of a function declaration.
#[derive(Debug)]
pub struct FunctionArg {
    pub name: String,
}

/// An expression.
#[derive(Debug)]
pub enum Expression {
    Variable(String),
    Constant(Constant),
    FunctionCall { name: String, args: Vec<Expression> },
    BinaryOp { left: Box<Expression>, operator: BinaryOperator, right: Box<Expression> },
    Negation(Box<Expression>),
}

/// An `Expression` as a mathematical value.
pub enum ExpressionView {
    Variable(Seq<char>),
    Constant(ConstantView),
    FunctionCall { name: Seq<char>, args: Seq<ExpressionView> },
    BinaryOp { left: Box<ExpressionView>, operator: BinaryOperator, right: Box<ExpressionView> },
    Negation(Box<ExpressionView>),
}

/// A `Declaration` as a mathematical value; a function's arguments are their
/// names.
pub enum DeclarationView {
    Assignment { name: Seq<char>, expr: ExpressionView },
    FunctionDecl { name: Seq<char>, arguments: Seq<Seq<char>>, body: Seq<StatementView> },
}

/// A `CodeBlockStatement` as a mathematical value.
pub enum StatementView {
    Declaration(DeclarationView),
    BareExpression(ExpressionView),
    IfStatement { cases: Seq<IfCaseView>, else_case: Option<Seq<StatementView>> },
}

/// An `IfStatementCase` as a mathematical value.
pub struct IfCaseView {
    pub condition: ExpressionView,
    pub block: Seq<StatementView>,
}

/// A `TopLevelStatement` as a mathematical value.
pub struct TopLevelView {
    pub decl: DeclarationView,
    pub exported: bool,
}

impl Expression {
    /// The expression as a mathematical value.
    pub open spec fn view(&self) -> ExpressionView
        decreases self,
    {
        match self {
            Expression::Variable(name) => ExpressionView::Variable(name@),
            Expression::Constant(constant) => ExpressionView::Constant(constant@),
            Expression::FunctionCall { name, args } => ExpressionView::FunctionCall {
                name: name@,
                args: expressions_view(args@),
            },
            Expression::BinaryOp { left, operator, right } => ExpressionView::BinaryOp {
                left: Box::new(left.view()),
                operator: *operator,
                right: Box::new(right.view()),
            },
            Expression::Negation(operand) => ExpressionView::Negation(Box::new(operand.view())),
        }
    }
}

/// The views of a sequence of expressions, in order.
pub open spec fn expressions_view(expressions: Seq<Expression>) -> Seq<ExpressionView>
    decreases expressions,
{
    if expressions.len() == 0 {
        Seq::empty()
    } else {
        expressions_view(expressions.drop_last()).push(expressions.last().view())
    }
}

impl FunctionArgsList {
    /// The names of the arguments, in order.
    pub open spec fn view(&self) -> Seq<Seq<char>> {
        self.args@.map_values(|arg: FunctionArg| arg.name@)
    }
}

impl Declaration {
    /// The declaration as a mathematical value.
    pub open spec fn view(&self) -> DeclarationView
        decreases self,
    {
        match self {
            Declaration::Assignment { name, expr } => DeclarationView::Assignment {
                name: name@,
                expr: expr.view(),
            },
            Declaration::FunctionDecl { name, arguments, body } => DeclarationView::FunctionDecl {
                name: name@,
                arguments: arguments.view(),
                body: block_view(body@),
            },
        }
    }

    /// The name that the declaration binds.
    pub fn name(&self) -> (name: &String)
        ensures
            name@ == self.view().name(),
    {
        match self {
            Declaration::Assignment { name, expr: _ } => name,
            Declaration::FunctionDecl { name, arguments: _, body: _ } => name,
        }
    }
}

impl DeclarationView {
    /// The name that the declaration binds.
    pub open spec fn name(self) -> Seq<char> {
        match self {
            DeclarationView::Assignment { name, .. } => name,
            DeclarationView::FunctionDecl { name, .. } => name,
        }
    }
}

impl CodeBlockStatement {
    /// The statement as a mathematical value.
    pub open spec fn view(&self) -> StatementView
        decreases self,
    {
        match self {
            CodeBlockStatement::Declaration(decl) => StatementView::Declaration(decl.view()),
            CodeBlockStatement::BareExpression(expr) => StatementView::BareExpression(expr.view()),
            CodeBlockStatement::IfStatement { cases, else_case } => StatementView::IfStatement {
                cases: cases_view(cases@),
                else_case: match else_case {
                    Some(block) => Some(block_view(block@)),
                    None => None,
                },
            },
        }
    }
}

impl IfStatementCase {
    /// The case as a mathematical value.
    pub open spec fn view(&self) -> IfCaseView
        decreases self,
    {
        IfCaseView { condition: self.condition.view(), block: block_view(self.block@) }
    }
}

/// The views of the statements of a block, in order.
pub open spec fn block_view(block: Seq<CodeBlockStatement>) -> Seq<StatementView>
    decreases block,
{
    if block.len() == 0 {
        Seq::empty()
    } else {
        block_view(block.drop_last()).push(block.last().view())
    }
}

/// The views of the cases of an `if`, in order.
pub open spec fn cases_view(cases: Seq<IfStatementCase>) -> Seq<IfCaseView>
    decreases cases,
{
    if cases.len() == 0 {
        Seq::empty()
    } else {
        cases_view(cases.drop_last()).push(cases.last().view())
    }
}

impl TopLevelStatement {
    /// The statement as a mathematical value.
    pub open spec fn view(&self) -> TopLevelView {
        match self {
            TopLevelStatement::Declaration { decl, exported } => TopLevelView {
                decl: decl.view(),
                exported: *exported,
            },
        }
    }
}

impl Ast {
    /// The program as a mathematical value: the views of its statements.
    pub open spec fn view(&self) -> Seq<TopLevelView> {
        self.statements@.map_values(|statement: TopLevelStatement| statement.view())
    }

    /// A program with no statement.
    pub fn new() -> (ast: Ast)
        ensures
            ast@ == Seq::<TopLevelView>::empty(),
    {
        Ast { statements: Vec::new() }
    }

    /// Adds a statement at the end of the program.
    pub fn append_statement(&mut self, statement: TopLevelStatement)
        ensures
            final(self)@ == old(self)@.push(statement.view()),
    {
        self.statements.push(statement);
    }
}

impl Default for Ast {
    fn default() -> (ast: Ast)
        ensures
            ast@ == Seq::<TopLevelView>::empty(),
    {
        Ast::new()
    }
}

/// The view of a sequence of expressions has the views of its elements at
/// their places.
pub proof fn lemma_expressions_view(expressions: Seq<Expression>)
    ensures
        expressions_view(expressions).len() == expressions.len(),
        forall|i: int|
            0 <= i < expressions.len() ==> #[trigger] expressions_view(expressions)[i]
                == expressions[i].view(),
    decreases expressions.len(),
{
    if expressions.len() > 0 {
        lemma_expressions_view(expressions.drop_last());
    }
}

/// The view of a block has the views of its statements at their places.
pub proof fn lemma_block_view(block: Seq<CodeBlockStatement>)
    ensures
        block_view(block).len() == block.len(),
        forall|i: int| 0 <= i < block.len() ==> #[trigger] block_view(block)[i] == block[i].view(),
    decreases block.len(),
{
    if block.len() > 0 {
        lemma_block_view(block.drop_last());
    }
}

/// The view of the cases of an `if` has the views of the cases at their
/// places.
pub proof fn lemma_cases_view(cases: Seq<IfStatementCase>)
    ensures
        cases_view(cases).len() == cases.len(),
        forall|i: int| 0 <= i < cases.len() ==> #[trigger] cases_view(cases)[i] == cases[i].view(),
    decreases cases.len(),
{
    if cases.len() > 0 {
        lemma_cases_view(cases.drop_last());
    }
}

} // verus!
