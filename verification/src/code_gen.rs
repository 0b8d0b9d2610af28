//! The lowering pass: from the syntax tree of a program to a module of
//! functions and instructions.

use crate::ast::{
    block_view, cases_view, expressions_view, lemma_block_view, lemma_cases_view,
    lemma_expressions_view, Ast, CodeBlock, CodeBlockStatement, Declaration, DeclarationView,
    Expression, ExpressionView, FunctionArgsList, IfCaseView, StatementView, TopLevelStatement, TopLevelView,
};
use crate::code_gen_laws::{lemma_lowering_total, program_supported};
use crate::name_set::{with_name, with_names, NameSet};
use crate::operators::BinaryOperator;
use crate::tokens::{Constant, ConstantView};
use crate::wasm::{
    instructions_view, lemma_instructions_view_concat, with_function, WasmFunction,
    WasmFunctionView, WasmInstr, WasmInstrView, WasmModule, WasmModuleView, WasmType,
};
use vstd::prelude::*;

verus! {

/// What the lowering pass cannot lower.
#[derive(Debug, Copy, Clone, PartialEq, Eq, Structural)]
pub enum CodeGenError {
    TopLevelAssignmentNotYetSupported,
    ClosuresNotSupportedYet,
    StringsNotSupportedYet,
}

/// The instructions of a block and the local variables that they set, in
/// ascending order.
pub struct LoweredBlock {
    pub instructions: Seq<WasmInstrView>,
    pub locals: Seq<Seq<char>>,
}

/// No instruction and no local variable.
pub open spec fn no_code() -> LoweredBlock {
    LoweredBlock { instructions: Seq::empty(), locals: Seq::empty() }
}

/// The instruction of a binary operator.
pub open spec fn operator_instruction(operator: BinaryOperator) -> WasmInstrView {
    match operator {
        BinaryOperator::Plus => WasmInstrView::AddI32,
        BinaryOperator::Minus => WasmInstrView::MinusI32,
        BinaryOperator::Multiply => WasmInstrView::MultiplyI32,
        BinaryOperator::Divide => WasmInstrView::SignedDivideI32,
        BinaryOperator::DoubleEquals => WasmInstrView::EqualI32,
    }
}

/// The instructions that leave the value of an expression on the stack:
/// operands before their operator, the left one first, and arguments before
/// their call, in their order. A whole number is cut to 32 bits; a negation
/// multiplies by -1; a string is not lowered.
pub open spec fn lower_expression(expr: ExpressionView) -> Result<Seq<WasmInstrView>, CodeGenError>
    decreases expr,
{
    match expr {
        ExpressionView::Constant(ConstantView::Int(value)) => Ok(
            seq![WasmInstrView::ConstI32(value as i32)],
        ),
        ExpressionView::Constant(ConstantView::Float(digits)) => Ok(
            seq![WasmInstrView::ConstF32(digits)],
        ),
        ExpressionView::Constant(ConstantView::Str(_)) => Err(CodeGenError::StringsNotSupportedYet),
        ExpressionView::Variable(name) => Ok(seq![WasmInstrView::GetLocal(name)]),
        ExpressionView::Negation(operand) => match lower_expression(*operand) {
            Ok(instructions) => Ok(
                instructions + seq![WasmInstrView::ConstI32(-1i32), WasmInstrView::MultiplyI32],
            ),
            Err(error) => Err(error),
        },
        ExpressionView::BinaryOp { left, operator, right } => match lower_expression(*left) {
            Ok(left) => match lower_expression(*right) {
                Ok(right) => Ok(left + right + seq![operator_instruction(operator)]),
                Err(error) => Err(error),
            },
            Err(error) => Err(error),
        },
        ExpressionView::FunctionCall { name, args } => match lower_arguments(args) {
            Ok(instructions) => Ok(instructions + seq![WasmInstrView::Call(name)]),
            Err(error) => Err(error),
        },
    }
}

/// The instructions of the arguments of a call, the first argument first;
/// the first argument that cannot be lowered gives the error.
pub open spec fn lower_arguments(args: Seq<ExpressionView>) -> Result<
    Seq<WasmInstrView>,
    CodeGenError,
>
    decreases args,
{
    if args.len() == 0 {
        Ok(Seq::empty())
    } else {
        match lower_expression(args[0]) {
            Ok(first) => match lower_arguments(args.drop_first()) {
                Ok(rest) => Ok(first + rest),
                Err(error) => Err(error),
            },
            Err(error) => Err(error),
        }
    }
}

/// The instructions made so far with those of one more statement, and the
/// local variables with those that the statement sets. An assignment sets a
/// local variable; a nested function declaration is not lowered; an `if` is
/// lowered to one instruction, in which each later case stands in the `else`
/// of the case before it, and its local variables are those of all its
/// branches.
pub open spec fn lower_statement(statement: StatementView, code: LoweredBlock) -> Result<
    LoweredBlock,
    CodeGenError,
>
    decreases statement,
{
    match statement {
        StatementView::BareExpression(expr) => match lower_expression(expr) {
            Ok(instructions) => Ok(
                LoweredBlock { instructions: code.instructions + instructions, ..code },
            ),
            Err(error) => Err(error),
        },
        StatementView::Declaration(DeclarationView::Assignment { name, expr }) => match lower_expression(
            expr,
        ) {
            Ok(instructions) => Ok(
                LoweredBlock {
                    instructions: code.instructions + instructions + seq![
                        WasmInstrView::SetLocal(name),
                    ],
                    locals: with_name(code.locals, name),
                },
            ),
            Err(error) => Err(error),
        },
        StatementView::Declaration(DeclarationView::FunctionDecl { .. }) => Err(
            CodeGenError::ClosuresNotSupportedYet,
        ),
        StatementView::IfStatement { cases, else_case } => {
            let last: Result<LoweredBlock, CodeGenError> = match else_case {
                Some(block) => lower_statements(block, no_code()),
                None => Ok(no_code()),
            };
            match last {
                Ok(last) => match lower_cases(
                    cases,
                    if else_case is Some {
                        Some(last.instructions)
                    } else {
                        None
                    },
                    with_names(code.locals, last.locals),
                ) {
                    Ok((chain, locals)) => Ok(
                        LoweredBlock {
                            instructions: code.instructions + (match chain {
                                Some(instructions) => instructions,
                                None => Seq::empty(),
                            }),
                            locals,
                        },
                    ),
                    Err(error) => Err(error),
                },
                Err(error) => Err(error),
            }
        },
    }
}

/// The cases of an `if`, lowered from the last to the first: each becomes an
/// `if` instruction with what was made of the cases after it as its `else`.
/// `fallback` is what was made so far, `locals` the local variables so far.
pub open spec fn lower_cases(
    cases: Seq<IfCaseView>,
    fallback: Option<Seq<WasmInstrView>>,
    locals: Seq<Seq<char>>,
) -> Result<(Option<Seq<WasmInstrView>>, Seq<Seq<char>>), CodeGenError>
    decreases cases,
{
    if cases.len() == 0 {
        Ok((fallback, locals))
    } else {
        match lower_expression(cases.last().condition) {
            Ok(condition) => match lower_statements(cases.last().block, no_code()) {
                Ok(then) => lower_cases(
                    cases.drop_last(),
                    Some(
                        seq![
                            WasmInstrView::If {
                                result_type: WasmType::I32,
                                condition,
                                then: then.instructions,
                                else_: fallback,
                            },
                        ],
                    ),
                    with_names(locals, then.locals),
                ),
                Err(error) => Err(error),
            },
            Err(error) => Err(error),
        }
    }
}

/// The instructions made so far with those of the statements, the first
/// statement first.
pub open spec fn lower_statements(statements: Seq<StatementView>, code: LoweredBlock) -> Result<
    LoweredBlock,
    CodeGenError,
>
    decreases statements,
{
    if statements.len() == 0 {
        Ok(code)
    } else {
        match lower_statement(statements[0], code) {
            Ok(code) => lower_statements(statements.drop_first(), code),
            Err(error) => Err(error),
        }
    }
}

/// The instructions and local variables of a block.
pub open spec fn lower_block(block: Seq<StatementView>) -> Result<LoweredBlock, CodeGenError> {
    lower_statements(block, no_code())
}

/// The module made so far with the functions of the statements, the first
/// statement first. A function declaration becomes a function with its
/// arguments as parameters and one `i32` result, exported where the
/// declaration is; a top-level assignment is not lowered.
pub open spec fn lower_top_level(statements: Seq<TopLevelView>, module: WasmModuleView) -> Result<
    WasmModuleView,
    CodeGenError,
>
    decreases statements.len(),
{
    if statements.len() == 0 {
        Ok(module)
    } else {
        match statements[0].decl {
            DeclarationView::FunctionDecl { name, arguments, body } => match lower_block(body) {
                Ok(code) => lower_top_level(
                    statements.drop_first(),
                    with_function(
                        module,
                        WasmFunctionView {
                            name,
                            params: arguments,
                            local_variables: code.locals,
                            return_type: Some(WasmType::I32),
                            body: code.instructions,
                        },
                        statements[0].exported,
                    ),
                ),
                Err(error) => Err(error),
            },
            DeclarationView::Assignment { .. } => Err(
                CodeGenError::TopLevelAssignmentNotYetSupported,
            ),
        }
    }
}

/// The module that a program is lowered to.
pub open spec fn lower_program(program: Seq<TopLevelView>) -> Result<WasmModuleView, CodeGenError> {
    lower_top_level(program, WasmModuleView { functions: Seq::empty(), exports: Seq::empty() })
}

/// Lowers a program to a module. Lowering succeeds on exactly the programs
/// without a top-level assignment, a string constant or a nested function
/// declaration.
pub fn ast_to_wasm(ast: &Ast) -> (r: Result<WasmModule, CodeGenError>)
    ensures
        match lower_program(ast@) {
            Ok(lowered) => r matches Ok(module) && module@ == lowered,
            Err(error) => r matches Err(e) && e == error,
        },
        r is Ok <==> program_supported(ast@),
{
    proof {
        lemma_lowering_total(ast@);
    }
    let mut module = WasmModule::default();
    let ghost program = ast@;
    let mut i: usize = 0;
    proof {
        assert(program.subrange(0, program.len() as int) =~= program);
    }
    while i < ast.statements.len()
        invariant
            i <= ast.statements.len(),
            program == ast@,
            lower_program(program) is Ok <==> program_supported(program),
            lower_top_level(program.subrange(i as int, program.len() as int), module@)
                == lower_program(program),
        decreases ast.statements.len() - i,
    {
        let ghost pending = program.subrange(i as int, program.len() as int);
        proof {
            assert(pending[0] == ast.statements[i as int].view());
            assert(pending.drop_first() =~= program.subrange(i + 1, program.len() as int));
        }
        match &ast.statements[i] {
            TopLevelStatement::Declaration { decl, exported } => match decl {
                Declaration::FunctionDecl { name, arguments, body } => {
                    let wasm_args = argument_names(arguments);
                    let code = compile_code_block(body)?;
                    module.add_function(
                        WasmFunction::new(
                            name.clone(),
                            wasm_args,
                            code.1,
                            Some(WasmType::I32),
                            code.0,
                        ),
                        *exported,
                    );
                },
                Declaration::Assignment { name: _, expr: _ } => {
                    return Err(CodeGenError::TopLevelAssignmentNotYetSupported);
                },
            },
        }
        i += 1;
    }
    Ok(module)
}

/// The names of the arguments of a function declaration.
fn argument_names(arguments: &FunctionArgsList) -> (names: Vec<String>)
    ensures
        names@.map_values(|name: String| name@) == arguments.view(),
{
    let mut names: Vec<String> = Vec::new();
    let mut i: usize = 0;
    while i < arguments.args.len()
        invariant
            i <= arguments.args.len(),
            names.len() == i,
            forall|j: int| 0 <= j < i ==> (#[trigger] names[j])@ == arguments.args[j].name@,
        decreases arguments.args.len() - i,
    {
        names.push(arguments.args[i].name.clone());
        i += 1;
    }
    proof {
        assert(names@.map_values(|name: String| name@) =~= arguments.view());
    }
    names
}

/// The instructions and local variables of a block.
fn compile_code_block(block: &CodeBlock) -> (r: Result<(Vec<WasmInstr>, NameSet), CodeGenError>)
    ensures
        match lower_block(block_view(block@)) {
            Ok(code) => r matches Ok((instructions, locals)) && instructions_view(instructions@)
                == code.instructions && locals@ == code.locals,
            Err(error) => r matches Err(e) && e == error,
        },
    decreases block,
{
    let mut instr: Vec<WasmInstr> = Vec::new();
    let mut locals = NameSet::new();
    let ghost statements = block_view(block@);
    let mut i: usize = 0;
    proof {
        lemma_block_view(block@);
        assert(statements.subrange(0, statements.len() as int) =~= statements);
    }
    while i < block.len()
        invariant
            i <= block.len(),
            statements == block_view(block@),
            statements.len() == block.len(),
            forall|j: int| 0 <= j < block.len() ==> #[trigger] statements[j] == block[j].view(),
            lower_statements(
                statements.subrange(i as int, statements.len() as int),
                LoweredBlock { instructions: instructions_view(instr@), locals: locals@ },
            ) == lower_block(statements),
        decreases block.len() - i,
    {
        let ghost pending = statements.subrange(i as int, statements.len() as int);
        proof {
            assert(pending[0] == block[i as int].view());
            assert(pending.drop_first() =~= statements.subrange(i + 1, statements.len() as int));
        }
        compile_func_body_statement(&block[i], &mut instr, &mut locals)?;
        i += 1;
    }
    Ok((instr, locals))
}

/// Adds the instructions of a statement to `instructions` and the local
/// variables that it sets to `locals`. A nested function declaration is
/// refused with both as they were.
fn compile_func_body_statement(
    statement: &CodeBlockStatement,
    instructions: &mut Vec<WasmInstr>,
    locals: &mut NameSet,
) -> (r: Result<(), CodeGenError>)
    ensures
        match lower_statement(
            statement.view(),
            LoweredBlock {
                instructions: instructions_view(old(instructions)@),
                locals: old(locals)@,
            },
        ) {
            Ok(code) => r is Ok && instructions_view(final(instructions)@) == code.instructions
                && final(locals)@ == code.locals,
            Err(error) => r matches Err(e) && e == error,
        },
        statement matches CodeBlockStatement::Declaration(Declaration::FunctionDecl { .. })
            ==> final(instructions)@ == old(instructions)@ && final(locals)@ == old(locals)@,
    decreases statement,
{
    match statement {
        CodeBlockStatement::BareExpression(expr) => {
            compile_expression(expr, instructions)?;
        },
        CodeBlockStatement::Declaration(Declaration::Assignment { name, expr }) => {
            compile_expression(expr, instructions)?;
            locals.insert(name.clone());
            push_instruction(instructions, WasmInstr::SetLocal(name.clone()));
        },
        CodeBlockStatement::Declaration(Declaration::FunctionDecl { .. }) => {
            return Err(CodeGenError::ClosuresNotSupportedYet);
        },
        CodeBlockStatement::IfStatement { cases, else_case } => {
            let ghost all = cases_view(cases@);
            let ghost before = instructions_view(instructions@);
            let ghost goal = lower_statement(
                statement.view(),
                LoweredBlock { instructions: before, locals: locals@ },
            );
            let mut fallback: Option<Vec<WasmInstr>> = match else_case {
                Some(block) => {
                    let code = compile_code_block(block)?;
                    locals.extend(code.1);
                    Some(code.0)
                },
                None => {
                    proof {
                        assert(with_names(locals@, Seq::empty()) == locals@);
                    }
                    None
                },
            };
            let ghost target = lower_cases(all, block_option_view(fallback), locals@);
            let mut i: usize = cases.len();
            proof {
                lemma_cases_view(cases@);
                assert(all.subrange(0, i as int) =~= all);
            }
            while i > 0
                invariant
                    i <= cases.len(),
                    all == cases_view(cases@),
                    all.len() == cases.len(),
                    forall|j: int| 0 <= j < cases.len() ==> #[trigger] all[j] == cases[j].view(),
                    lower_cases(all.subrange(0, i as int), block_option_view(fallback), locals@)
                        == target,
                    instructions_view(instructions@) == before,
                    goal == lower_statement(
                        statement.view(),
                        LoweredBlock {
                            instructions: instructions_view(old(instructions)@),
                            locals: old(locals)@,
                        },
                    ),
                    goal == (match target {
                        Ok((chain, locals)) => Ok::<LoweredBlock, CodeGenError>(
                            LoweredBlock {
                                instructions: before + (match chain {
                                    Some(instructions) => instructions,
                                    None => Seq::empty(),
                                }),
                                locals,
                            },
                        ),
                        Err(error) => Err::<LoweredBlock, CodeGenError>(error),
                    }),
                    statement is IfStatement,
                    statement->cases == cases,
                decreases i,
            {
                let ghost pending = all.subrange(0, i as int);
                proof {
                    assert(pending.last() == cases[i - 1].view());
                    assert(pending.drop_last() =~= all.subrange(0, i - 1));
                }
                i -= 1;
                let case = &cases[i];
                let mut wasm_cond: Vec<WasmInstr> = Vec::new();
                compile_expression(&case.condition, &mut wasm_cond)?;
                let code = compile_code_block(&case.block)?;
                locals.extend(code.1);
                let instr = WasmInstr::If {
                    result_type: WasmType::I32,
                    condition: wasm_cond,
                    then: code.0,
                    else_: fallback,
                };
                let mut chain: Vec<WasmInstr> = Vec::new();
                push_instruction(&mut chain, instr);
                proof {
                    assert(instructions_view(chain@) =~= seq![instr.view()]);
                }
                fallback = Some(chain);
            }
            if let Some(mut last_if) = fallback {
                proof {
                    lemma_instructions_view_concat(instructions@, last_if@);
                }
                instructions.append(&mut last_if);
            } else {
                proof {
                    assert(instructions_view(instructions@) + Seq::<WasmInstrView>::empty()
                        =~= instructions_view(instructions@));
                }
            }
        },
    };
    Ok(())
}

/// The view of an optional block of instructions.
pub open spec fn block_option_view(block: Option<Vec<WasmInstr>>) -> Option<Seq<WasmInstrView>> {
    match block {
        Some(instructions) => Some(instructions_view(instructions@)),
        None => None,
    }
}

/// Adds an instruction at the end.
fn push_instruction(instructions: &mut Vec<WasmInstr>, instruction: WasmInstr)
    ensures
        instructions_view(final(instructions)@) == instructions_view(old(instructions)@).push(
            instruction.view(),
        ),
        instructions_view(final(instructions)@) == instructions_view(old(instructions)@) + seq![
            instruction.view(),
        ],
{
    instructions.push(instruction);
    assert(instructions@.drop_last() =~= old(instructions)@);
    assert(instructions_view(old(instructions)@).push(instruction.view()) =~= instructions_view(
        old(instructions)@,
    ) + seq![instruction.view()]);
}

/// Adds the instructions of an expression to `instr`.
fn compile_expression(expr: &Expression, instr: &mut Vec<WasmInstr>) -> (r: Result<
    (),
    CodeGenError,
>)
    ensures
        match lower_expression(expr.view()) {
            Ok(instructions) => r is Ok && instructions_view(final(instr)@) == instructions_view(
                old(instr)@,
            ) + instructions,
            Err(error) => r matches Err(e) && e == error,
        },
    decreases expr,
{
    let ghost before = instructions_view(instr@);
    match expr {
        Expression::Constant(Constant::Int(value)) => {
            push_instruction(instr, WasmInstr::ConstI32(*value as i32));
        },
        Expression::Constant(Constant::Float(digits)) => {
            push_instruction(instr, WasmInstr::ConstF32(digits.clone()));
        },
        Expression::Constant(Constant::Str(_)) => {
            return Err(CodeGenError::StringsNotSupportedYet);
        },
        Expression::Variable(name) => {
            push_instruction(instr, WasmInstr::GetLocal(name.clone()));
        },
        Expression::Negation(operand) => {
            compile_expression(operand, instr)?;
            let ghost lowered = instructions_view(instr@);
            push_instruction(instr, WasmInstr::ConstI32(-1));
            push_instruction(instr, WasmInstr::MultiplyI32);
            proof {
                assert(instructions_view(instr@) =~= lowered + seq![
                    WasmInstrView::ConstI32(-1i32),
                    WasmInstrView::MultiplyI32,
                ]);
                let operand_code = lower_expression(operand.view())->Ok_0;
                assert(before + operand_code + seq![
                    WasmInstrView::ConstI32(-1i32),
                    WasmInstrView::MultiplyI32,
                ] =~= before + (operand_code + seq![
                    WasmInstrView::ConstI32(-1i32),
                    WasmInstrView::MultiplyI32,
                ]));
            }
        },
        Expression::BinaryOp { operator, left, right } => {
            compile_expression(left, instr)?;
            compile_expression(right, instr)?;
            push_instruction(instr, binary_op_to_wasm_instruction(*operator));
            proof {
                let left_code = lower_expression(left.view())->Ok_0;
                let right_code = lower_expression(right.view())->Ok_0;
                assert(before + left_code + right_code + seq![operator_instruction(*operator)]
                    =~= before + (left_code + right_code + seq![operator_instruction(*operator)]));
            }
        },
        Expression::FunctionCall { name, args } => {
            let ghost all = expressions_view(args@);
            let mut i: usize = 0;
            proof {
                lemma_expressions_view(args@);
                assert(all.subrange(0, all.len() as int) =~= all);
                assert(before + Seq::<WasmInstrView>::empty() =~= before);
            }
            while i < args.len()
                invariant
                    i <= args.len(),
                    all == expressions_view(args@),
                    all.len() == args.len(),
                    forall|j: int| 0 <= j < args.len() ==> #[trigger] all[j] == args[j].view(),
                    expr is FunctionCall,
                    expr->args == args,
                    match lower_arguments(all) {
                        Ok(instructions) => lower_arguments(
                            all.subrange(i as int, all.len() as int),
                        ) matches Ok(rest) && instructions_view(instr@) + rest == before
                            + instructions,
                        Err(error) => lower_arguments(all.subrange(i as int, all.len() as int))
                            == Err::<Seq<WasmInstrView>, CodeGenError>(error),
                    },
                decreases args.len() - i,
            {
                let ghost pending = all.subrange(i as int, all.len() as int);
                let ghost written = instructions_view(instr@);
                proof {
                    assert(pending[0] == args[i as int].view());
                    assert(pending.drop_first() =~= all.subrange(i + 1, all.len() as int));
                }
                compile_expression(&args[i], instr)?;
                proof {
                    if lower_arguments(all) is Ok {
                        let first = lower_expression(pending[0])->Ok_0;
                        let rest = lower_arguments(pending.drop_first())->Ok_0;
                        assert(written + first + rest =~= written + (first + rest));
                    }
                }
                i += 1;
            }
            let ghost lowered = instructions_view(instr@);
            push_instruction(instr, WasmInstr::Call(name.clone()));
            proof {
                let arguments = lower_arguments(all)->Ok_0;
                assert(lowered + Seq::<WasmInstrView>::empty() =~= lowered);
                assert(before + arguments + seq![WasmInstrView::Call(name@)] =~= before + (arguments
                    + seq![WasmInstrView::Call(name@)]));
            }
        },
    };
    Ok(())
}

/// The instruction of a binary operator.
pub fn binary_op_to_wasm_instruction(op: BinaryOperator) -> (instruction: WasmInstr)
    ensures
        instruction.view() == operator_instruction(op),
{
    match op {
        BinaryOperator::Plus => WasmInstr::AddI32,
        BinaryOperator::Minus => WasmInstr::MinusI32,
        BinaryOperator::Multiply => WasmInstr::MultiplyI32,
        BinaryOperator::Divide => WasmInstr::SignedDivideI32,
        BinaryOperator::DoubleEquals => WasmInstr::EqualI32,
    }
}

} // verus!
