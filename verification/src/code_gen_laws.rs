//! What holds of every program that the lowering pass is given.

use crate::ast::{DeclarationView, ExpressionView, IfCaseView, StatementView, TopLevelView};
use crate::code_gen::{
    lower_arguments, lower_cases, lower_expression, lower_program, lower_statement,
    lower_statements, lower_top_level, no_code, LoweredBlock,
};
use crate::tokens::ConstantView;
use crate::wasm::{with_function, WasmExportView, WasmFunctionView, WasmInstrView, WasmModuleView};
use vstd::prelude::*;

verus! {

/// An expression without a string constant.
pub open spec fn expression_supported(expr: ExpressionView) -> bool
    decreases expr,
{
    match expr {
        ExpressionView::Constant(ConstantView::Str(_)) => false,
        ExpressionView::Constant(_) => true,
        ExpressionView::Variable(_) => true,
        ExpressionView::Negation(operand) => expression_supported(*operand),
        ExpressionView::BinaryOp { left, right, .. } => expression_supported(*left)
            && expression_supported(*right),
        ExpressionView::FunctionCall { args, .. } => forall|i: int|
            0 <= i < args.len() ==> expression_supported(#[trigger] args[i]),
    }
}

/// A statement without a string constant and without a nested function
/// declaration.
pub open spec fn statement_supported(statement: StatementView) -> bool
    decreases statement,
{
    match statement {
        StatementView::BareExpression(expr) => expression_supported(expr),
        StatementView::Declaration(DeclarationView::Assignment { expr, .. }) => expression_supported(
            expr,
        ),
        StatementView::Declaration(DeclarationView::FunctionDecl { .. }) => false,
        StatementView::IfStatement { cases, else_case } => {
            &&& forall|i: int|
                0 <= i < cases.len() ==> expression_supported((#[trigger] cases[i]).condition)
                    && block_supported(cases[i].block)
            &&& else_case matches Some(block) ==> block_supported(block)
        },
    }
}

/// A block of which every statement is supported.
pub open spec fn block_supported(block: Seq<StatementView>) -> bool
    decreases block,
{
    forall|i: int| 0 <= i < block.len() ==> statement_supported(#[trigger] block[i])
}

/// A program of function declarations without a string constant and without
/// a nested function declaration.
pub open spec fn program_supported(program: Seq<TopLevelView>) -> bool {
    forall|i: int|
        0 <= i < program.len() ==> (#[trigger] program[i]).decl is FunctionDecl && block_supported(
            program[i].decl->body,
        )
}

/// An expression is lowered exactly when it holds no string constant.
pub proof fn lemma_expression_lowered(expr: ExpressionView)
    ensures
        lower_expression(expr) is Ok <==> expression_supported(expr),
    decreases expr,
{
    match expr {
        ExpressionView::Negation(operand) => {
            lemma_expression_lowered(*operand);
        },
        ExpressionView::BinaryOp { left, right, .. } => {
            lemma_expression_lowered(*left);
            lemma_expression_lowered(*right);
        },
        ExpressionView::FunctionCall { args, .. } => {
            lemma_arguments_lowered(args);
        },
        _ => {},
    }
}

/// The arguments of a call are lowered exactly when each of them is.
pub proof fn lemma_arguments_lowered(args: Seq<ExpressionView>)
    ensures
        lower_arguments(args) is Ok <==> forall|i: int|
            0 <= i < args.len() ==> expression_supported(#[trigger] args[i]),
    decreases args,
{
    if args.len() > 0 {
        lemma_expression_lowered(args[0]);
        lemma_arguments_lowered(args.drop_first());
        let rest = args.drop_first();
        if lower_arguments(args) is Ok {
            assert forall|i: int| 0 <= i < args.len() implies expression_supported(
                #[trigger] args[i],
            ) by {
                if i > 0 {
                    assert(rest[i - 1] == args[i]);
                }
            }
        }
        if forall|i: int| 0 <= i < args.len() ==> expression_supported(#[trigger] args[i]) {
            assert forall|i: int| 0 <= i < rest.len() implies expression_supported(
                #[trigger] rest[i],
            ) by {
                assert(rest[i] == args[i + 1]);
            }
        }
    }
}

/// A statement is lowered exactly when it is supported, whatever was lowered
/// before it.
pub proof fn lemma_statement_lowered(statement: StatementView, code: LoweredBlock)
    ensures
        lower_statement(statement, code) is Ok <==> statement_supported(statement),
    decreases statement,
{
    match statement {
        StatementView::BareExpression(expr) => {
            lemma_expression_lowered(expr);
        },
        StatementView::Declaration(DeclarationView::Assignment { expr, .. }) => {
            lemma_expression_lowered(expr);
        },
        StatementView::Declaration(DeclarationView::FunctionDecl { .. }) => {},
        StatementView::IfStatement { cases, else_case } => {
            match else_case {
                Some(block) => {
                    lemma_statements_lowered(block, no_code());
                    match lower_statements(block, no_code()) {
                        Ok(last) => {
                            lemma_cases_lowered(
                                cases,
                                Some(last.instructions),
                                crate::name_set::with_names(code.locals, last.locals),
                            );
                        },
                        Err(_) => {},
                    }
                },
                None => {
                    lemma_cases_lowered(
                        cases,
                        None,
                        crate::name_set::with_names(code.locals, no_code().locals),
                    );
                },
            }
        },
    }
}

/// The cases of an `if` are lowered exactly when the condition and the block
/// of each are supported.
pub proof fn lemma_cases_lowered(
    cases: Seq<IfCaseView>,
    fallback: Option<Seq<WasmInstrView>>,
    locals: Seq<Seq<char>>,
)
    ensures
        lower_cases(cases, fallback, locals) is Ok <==> forall|i: int|
            0 <= i < cases.len() ==> expression_supported((#[trigger] cases[i]).condition)
                && block_supported(cases[i].block),
    decreases cases,
{
    if cases.len() > 0 {
        let last = cases.last();
        let rest = cases.drop_last();
        lemma_expression_lowered(last.condition);
        lemma_statements_lowered(last.block, no_code());
        match (lower_expression(last.condition), lower_statements(last.block, no_code())) {
            (Ok(condition), Ok(then)) => {
                let chain = Some(
                    seq![
                        WasmInstrView::If {
                            result_type: crate::wasm::WasmType::I32,
                            condition,
                            then: then.instructions,
                            else_: fallback,
                        },
                    ],
                );
                let merged = crate::name_set::with_names(locals, then.locals);
                lemma_cases_lowered(rest, chain, merged);
                if lower_cases(cases, fallback, locals) is Ok {
                    assert forall|i: int| 0 <= i < cases.len() implies expression_supported(
                        (#[trigger] cases[i]).condition,
                    ) && block_supported(cases[i].block) by {
                        if i < rest.len() {
                            assert(rest[i] == cases[i]);
                        }
                    }
                }
                if forall|i: int|
                    0 <= i < cases.len() ==> expression_supported((#[trigger] cases[i]).condition)
                        && block_supported(cases[i].block) {
                    assert forall|i: int| 0 <= i < rest.len() implies expression_supported(
                        (#[trigger] rest[i]).condition,
                    ) && block_supported(rest[i].block) by {
                        assert(rest[i] == cases[i]);
                    }
                }
            },
            _ => {
                assert(cases[cases.len() - 1] == last);
            },
        }
    }
}

/// Statements are lowered exactly when each of them is supported.
pub proof fn lemma_statements_lowered(statements: Seq<StatementView>, code: LoweredBlock)
    ensures
        lower_statements(statements, code) is Ok <==> block_supported(statements),
    decreases statements,
{
    if statements.len() > 0 {
        let rest = statements.drop_first();
        lemma_statement_lowered(statements[0], code);
        match lower_statement(statements[0], code) {
            Ok(next) => {
                lemma_statements_lowered(rest, next);
                if lower_statements(statements, code) is Ok {
                    assert forall|i: int| 0 <= i < statements.len() implies statement_supported(
                        #[trigger] statements[i],
                    ) by {
                        if i > 0 {
                            assert(rest[i - 1] == statements[i]);
                        }
                    }
                }
                if block_supported(statements) {
                    assert forall|i: int| 0 <= i < rest.len() implies statement_supported(
                        #[trigger] rest[i],
                    ) by {
                        assert(rest[i] == statements[i + 1]);
                    }
                }
            },
            Err(_) => {},
        }
    }
}

proof fn lemma_top_level_lowered(statements: Seq<TopLevelView>, module: WasmModuleView)
    ensures
        lower_top_level(statements, module) is Ok <==> program_supported(statements),
    decreases statements.len(),
{
    if statements.len() > 0 {
        let rest = statements.drop_first();
        match statements[0].decl {
            DeclarationView::FunctionDecl { name, arguments, body } => {
                lemma_statements_lowered(body, no_code());
                match lower_statements(body, no_code()) {
                    Ok(code) => {
                        let next = with_function(
                            module,
                            WasmFunctionView {
                                name,
                                params: arguments,
                                local_variables: code.locals,
                                return_type: Some(crate::wasm::WasmType::I32),
                                body: code.instructions,
                            },
                            statements[0].exported,
                        );
                        lemma_top_level_lowered(rest, next);
                        if lower_top_level(statements, module) is Ok {
                            assert forall|i: int| 0 <= i < statements.len() implies (
                            #[trigger] statements[i]).decl is FunctionDecl && block_supported(
                                statements[i].decl->body,
                            ) by {
                                if i > 0 {
                                    assert(rest[i - 1] == statements[i]);
                                }
                            }
                        }
                        if program_supported(statements) {
                            assert forall|i: int| 0 <= i < rest.len() implies (
                            #[trigger] rest[i]).decl is FunctionDecl && block_supported(
                                rest[i].decl->body,
                            ) by {
                                assert(rest[i] == statements[i + 1]);
                            }
                        }
                    },
                    Err(_) => {},
                }
            },
            DeclarationView::Assignment { .. } => {},
        }
    }
}

/// Lowering succeeds on exactly the programs without a top-level assignment,
/// a string constant or a nested function declaration.
pub proof fn lemma_lowering_total(program: Seq<TopLevelView>)
    ensures
        lower_program(program) is Ok <==> program_supported(program),
{
    lemma_top_level_lowered(
        program,
        WasmModuleView { functions: Seq::empty(), exports: Seq::empty() },
    );
}

/// The function that a function declaration is lowered to.
pub open spec fn function_of(decl: DeclarationView) -> WasmFunctionView
    recommends
        decl is FunctionDecl,
        lower_statements(decl->body, no_code()) is Ok,
{
    WasmFunctionView {
        name: decl.name(),
        params: decl->arguments,
        local_variables: lower_statements(decl->body, no_code())->Ok_0.locals,
        return_type: Some(crate::wasm::WasmType::I32),
        body: lower_statements(decl->body, no_code())->Ok_0.instructions,
    }
}

/// The exports of the exported declarations among `statements`, in their
/// order.
pub open spec fn exports_of(statements: Seq<TopLevelView>) -> Seq<WasmExportView>
    decreases statements.len(),
{
    if statements.len() == 0 {
        Seq::empty()
    } else if statements.last().exported {
        exports_of(statements.drop_last()).push(
            WasmExportView::Function {
                wasm_name: statements.last().decl.name(),
                exported_name: statements.last().decl.name(),
            },
        )
    } else {
        exports_of(statements.drop_last())
    }
}

proof fn lemma_exports_of_first(statements: Seq<TopLevelView>)
    requires
        statements.len() > 0,
    ensures
        exports_of(statements) == (if statements[0].exported {
            seq![
                WasmExportView::Function {
                    wasm_name: statements[0].decl.name(),
                    exported_name: statements[0].decl.name(),
                },
            ]
        } else {
            Seq::empty()
        }) + exports_of(statements.drop_first()),
    decreases statements.len(),
{
    let first = if statements[0].exported {
        seq![
            WasmExportView::Function {
                wasm_name: statements[0].decl.name(),
                exported_name: statements[0].decl.name(),
            },
        ]
    } else {
        Seq::empty()
    };
    if statements.len() == 1 {
        assert(statements.drop_last() =~= Seq::<TopLevelView>::empty());
        assert(statements.drop_first() =~= Seq::<TopLevelView>::empty());
        assert(exports_of(statements) =~= first + exports_of(statements.drop_first()));
    } else {
        lemma_exports_of_first(statements.drop_last());
        assert(statements.drop_last().drop_first() =~= statements.drop_first().drop_last());
        assert(statements.drop_first().last() == statements.last());
        assert(exports_of(statements) =~= first + exports_of(statements.drop_first()));
    }
}

proof fn lemma_top_level_order(statements: Seq<TopLevelView>, module: WasmModuleView)
    requires
        lower_top_level(statements, module) is Ok,
    ensures
        ({
            let lowered = lower_top_level(statements, module)->Ok_0;
            &&& lowered.functions.len() == module.functions.len() + statements.len()
            &&& forall|i: int|
                0 <= i < module.functions.len() ==> #[trigger] lowered.functions[i]
                    == module.functions[i]
            &&& forall|i: int|
                0 <= i < statements.len() ==> statements[i].decl is FunctionDecl
                    && lower_statements(statements[i].decl->body, no_code()) is Ok
                    && #[trigger] lowered.functions[module.functions.len() + i] == function_of(
                    statements[i].decl,
                )
            &&& lowered.exports == module.exports + exports_of(statements)
        }),
    decreases statements.len(),
{
    if statements.len() == 0 {
        assert(module.exports + exports_of(statements) =~= module.exports);
    } else {
        let rest = statements.drop_first();
        match statements[0].decl {
            DeclarationView::FunctionDecl { name, arguments, body } => {
                let code = lower_statements(body, no_code())->Ok_0;
                let function = WasmFunctionView {
                    name,
                    params: arguments,
                    local_variables: code.locals,
                    return_type: Some(crate::wasm::WasmType::I32),
                    body: code.instructions,
                };
                let next = with_function(module, function, statements[0].exported);
                lemma_top_level_order(rest, next);
                lemma_exports_of_first(statements);
                let lowered = lower_top_level(statements, module)->Ok_0;
                assert forall|i: int| 0 <= i < module.functions.len() implies
                    #[trigger] lowered.functions[i] == module.functions[i] by {
                    assert(next.functions[i] == module.functions[i]);
                }
                assert forall|i: int| 0 <= i < statements.len() implies statements[i].decl is FunctionDecl
                    && lower_statements(statements[i].decl->body, no_code()) is Ok
                    && #[trigger] lowered.functions[module.functions.len() + i] == function_of(
                    statements[i].decl,
                ) by {
                    if i == 0 {
                        assert(lowered.functions[module.functions.len() as int]
                            == next.functions[module.functions.len() as int]);
                    } else {
                        assert(rest[i - 1] == statements[i]);
                        assert(lowered.functions[next.functions.len() + (i - 1)] == function_of(
                            rest[i - 1].decl,
                        ));
                    }
                }
                assert(lowered.exports =~= module.exports + exports_of(statements));
            },
            DeclarationView::Assignment { .. } => {},
        }
    }
}

/// The functions of the lowered module are those of the program's
/// declarations, in the order of the source: each is what its declaration is
/// lowered to, with the declaration's name and arguments. The exports are
/// those of the exported declarations, in the order of the source, each under
/// its function's name.
pub proof fn lemma_source_order_preserved(program: Seq<TopLevelView>)
    requires
        lower_program(program) is Ok,
    ensures
        ({
            let module = lower_program(program)->Ok_0;
            &&& module.functions.len() == program.len()
            &&& forall|i: int|
                0 <= i < program.len() ==> program[i].decl is FunctionDecl && lower_statements(
                    program[i].decl->body,
                    no_code(),
                ) is Ok && #[trigger] module.functions[i] == function_of(program[i].decl)
            &&& module.exports == exports_of(program)
        }),
{
    let empty = WasmModuleView { functions: Seq::empty(), exports: Seq::empty() };
    lemma_top_level_order(program, empty);
    let module = lower_program(program)->Ok_0;
    assert forall|i: int| 0 <= i < program.len() implies program[i].decl is FunctionDecl
        && lower_statements(program[i].decl->body, no_code()) is Ok
        && #[trigger] module.functions[i] == function_of(program[i].decl) by {
        assert(module.functions[empty.functions.len() + i] == function_of(program[i].decl));
    }
    assert(empty.exports + exports_of(program) =~= exports_of(program));
}

/// Whether every `local.get` of an instruction names a variable of
/// `readable`, every `local.set` one of `writable`, and every `call` a
/// function of `callable`, in all its branches.
pub open spec fn instruction_refers(
    instruction: WasmInstrView,
    readable: Set<Seq<char>>,
    writable: Set<Seq<char>>,
    callable: Set<Seq<char>>,
) -> bool
    decreases instruction,
{
    match instruction {
        WasmInstrView::GetLocal(name) => readable.contains(name),
        WasmInstrView::SetLocal(name) => writable.contains(name),
        WasmInstrView::Call(name) => callable.contains(name),
        WasmInstrView::If { condition, then, else_, .. } => {
            &&& block_refers(condition, readable, writable, callable)
            &&& block_refers(then, readable, writable, callable)
            &&& else_ matches Some(block) ==> block_refers(block, readable, writable, callable)
        },
        _ => true,
    }
}

/// Whether each instruction of a sequence refers within the three sets.
pub open spec fn block_refers(
    instructions: Seq<WasmInstrView>,
    readable: Set<Seq<char>>,
    writable: Set<Seq<char>>,
    callable: Set<Seq<char>>,
) -> bool
    decreases instructions,
{
    forall|i: int|
        0 <= i < instructions.len() ==> instruction_refers(
            #[trigger] instructions[i],
            readable,
            writable,
            callable,
        )
}

/// Whether every variable that an expression reads is in `variables` and
/// every function that it calls is in `functions`.
pub open spec fn expression_scoped(
    expr: ExpressionView,
    variables: Set<Seq<char>>,
    functions: Set<Seq<char>>,
) -> bool
    decreases expr,
{
    match expr {
        ExpressionView::Variable(name) => variables.contains(name),
        ExpressionView::Constant(_) => true,
        ExpressionView::Negation(operand) => expression_scoped(*operand, variables, functions),
        ExpressionView::BinaryOp { left, right, .. } => expression_scoped(
            *left,
            variables,
            functions,
        ) && expression_scoped(*right, variables, functions),
        ExpressionView::FunctionCall { name, args } => functions.contains(name) && forall|i: int|
            0 <= i < args.len() ==> expression_scoped(#[trigger] args[i], variables, functions),
    }
}

/// Whether the expressions of a statement, in all its branches, read
/// variables of `variables` and call functions of `functions` only.
pub open spec fn statement_scoped(
    statement: StatementView,
    variables: Set<Seq<char>>,
    functions: Set<Seq<char>>,
) -> bool
    decreases statement,
{
    match statement {
        StatementView::BareExpression(expr) => expression_scoped(expr, variables, functions),
        StatementView::Declaration(DeclarationView::Assignment { expr, .. }) => expression_scoped(
            expr,
            variables,
            functions,
        ),
        StatementView::Declaration(DeclarationView::FunctionDecl { .. }) => true,
        StatementView::IfStatement { cases, else_case } => {
            &&& forall|i: int|
                0 <= i < cases.len() ==> expression_scoped(
                    (#[trigger] cases[i]).condition,
                    variables,
                    functions,
                ) && block_scoped(cases[i].block, variables, functions)
            &&& else_case matches Some(block) ==> block_scoped(block, variables, functions)
        },
    }
}

/// Whether each statement of a block is scoped.
pub open spec fn block_scoped(
    block: Seq<StatementView>,
    variables: Set<Seq<char>>,
    functions: Set<Seq<char>>,
) -> bool
    decreases block,
{
    forall|i: int|
        0 <= i < block.len() ==> statement_scoped(#[trigger] block[i], variables, functions)
}

/// The names of a sequence, as a set.
pub open spec fn names_of(names: Seq<Seq<char>>) -> Set<Seq<char>> {
    Set::new(|name: Seq<char>| names.contains(name))
}

/// The parameters and the local variables of a function.
pub open spec fn variables_of(function: WasmFunctionView) -> Set<Seq<char>> {
    Set::new(
        |name: Seq<char>|
            function.params.contains(name) || function.local_variables.contains(name),
    )
}

/// The names of the functions of a module.
pub open spec fn functions_of(module: WasmModuleView) -> Set<Seq<char>> {
    Set::new(
        |name: Seq<char>|
            exists|i: int| 0 <= i < module.functions.len() && (#[trigger] module.functions[i]).name
                == name,
    )
}

/// With every name readable and callable, every expression is scoped.
proof fn lemma_expression_scoped_in_full(expr: ExpressionView)
    ensures
        expression_scoped(expr, Set::full(), Set::full()),
    decreases expr,
{
    match expr {
        ExpressionView::Negation(operand) => {
            lemma_expression_scoped_in_full(*operand);
        },
        ExpressionView::BinaryOp { left, right, .. } => {
            lemma_expression_scoped_in_full(*left);
            lemma_expression_scoped_in_full(*right);
        },
        ExpressionView::FunctionCall { args, .. } => {
            assert forall|i: int| 0 <= i < args.len() implies expression_scoped(
                #[trigger] args[i],
                Set::full(),
                Set::full(),
            ) by {
                lemma_expression_scoped_in_full(args[i]);
            }
        },
        _ => {},
    }
}

/// With every name readable and callable, every statement is scoped.
proof fn lemma_statement_scoped_in_full(statement: StatementView)
    ensures
        statement_scoped(statement, Set::full(), Set::full()),
    decreases statement,
{
    match statement {
        StatementView::BareExpression(expr) => {
            lemma_expression_scoped_in_full(expr);
        },
        StatementView::Declaration(DeclarationView::Assignment { expr, .. }) => {
            lemma_expression_scoped_in_full(expr);
        },
        StatementView::Declaration(DeclarationView::FunctionDecl { .. }) => {},
        StatementView::IfStatement { cases, else_case } => {
            assert forall|i: int| 0 <= i < cases.len() implies expression_scoped(
                (#[trigger] cases[i]).condition,
                Set::full(),
                Set::full(),
            ) && block_scoped(cases[i].block, Set::full(), Set::full()) by {
                lemma_expression_scoped_in_full(cases[i].condition);
                lemma_block_scoped_in_full(cases[i].block);
            }
            match else_case {
                Some(block) => {
                    lemma_block_scoped_in_full(block);
                },
                None => {},
            }
        },
    }
}

/// With every name readable and callable, every block is scoped.
proof fn lemma_block_scoped_in_full(block: Seq<StatementView>)
    ensures
        block_scoped(block, Set::full(), Set::full()),
    decreases block,
{
    assert forall|i: int| 0 <= i < block.len() implies statement_scoped(
        #[trigger] block[i],
        Set::full(),
        Set::full(),
    ) by {
        lemma_statement_scoped_in_full(block[i]);
    }
}

/// The instructions of a scoped expression read and call within the sets,
/// and set no variable.
proof fn lemma_expression_refers(
    expr: ExpressionView,
    readable: Set<Seq<char>>,
    writable: Set<Seq<char>>,
    callable: Set<Seq<char>>,
)
    requires
        lower_expression(expr) is Ok,
        expression_scoped(expr, readable, callable),
    ensures
        block_refers(lower_expression(expr)->Ok_0, readable, writable, callable),
    decreases expr,
{
    match expr {
        ExpressionView::Negation(operand) => {
            lemma_expression_refers(*operand, readable, writable, callable);
        },
        ExpressionView::BinaryOp { left, right, .. } => {
            lemma_expression_refers(*left, readable, writable, callable);
            lemma_expression_refers(*right, readable, writable, callable);
        },
        ExpressionView::FunctionCall { args, .. } => {
            lemma_arguments_refer(args, readable, writable, callable);
        },
        _ => {},
    }
}

proof fn lemma_arguments_refer(
    args: Seq<ExpressionView>,
    readable: Set<Seq<char>>,
    writable: Set<Seq<char>>,
    callable: Set<Seq<char>>,
)
    requires
        lower_arguments(args) is Ok,
        forall|i: int| 0 <= i < args.len() ==> expression_scoped(#[trigger] args[i], readable, callable),
    ensures
        block_refers(lower_arguments(args)->Ok_0, readable, writable, callable),
    decreases args,
{
    if args.len() > 0 {
        let rest = args.drop_first();
        lemma_expression_refers(args[0], readable, writable, callable);
        assert forall|i: int| 0 <= i < rest.len() implies expression_scoped(
            #[trigger] rest[i],
            readable,
            callable,
        ) by {
            assert(rest[i] == args[i + 1]);
        }
        lemma_arguments_refer(rest, readable, writable, callable);
    }
}

/// Lowering the cases of an `if` keeps the local variables that were there.
proof fn lemma_cases_keep_locals(
    cases: Seq<IfCaseView>,
    fallback: Option<Seq<WasmInstrView>>,
    locals: Seq<Seq<char>>,
    name: Seq<char>,
)
    requires
        lower_cases(cases, fallback, locals) is Ok,
        locals.contains(name),
    ensures
        lower_cases(cases, fallback, locals)->Ok_0.1.contains(name),
    decreases cases,
{
    if cases.len() > 0 {
        let condition = lower_expression(cases.last().condition)->Ok_0;
        let then = lower_statements(cases.last().block, no_code())->Ok_0;
        let merged = crate::name_set::with_names(locals, then.locals);
        crate::name_set::lemma_with_names_contains(locals, then.locals, name);
        lemma_cases_keep_locals(
            cases.drop_last(),
            Some(
                seq![
                    WasmInstrView::If {
                        result_type: crate::wasm::WasmType::I32,
                        condition,
                        then: then.instructions,
                        else_: fallback,
                    },
                ],
            ),
            merged,
            name,
        );
    }
}

/// Lowering a statement keeps the local variables that were there.
proof fn lemma_statement_keeps_locals(statement: StatementView, code: LoweredBlock, name: Seq<char>)
    requires
        lower_statement(statement, code) is Ok,
        code.locals.contains(name),
    ensures
        lower_statement(statement, code)->Ok_0.locals.contains(name),
{
    match statement {
        StatementView::Declaration(DeclarationView::Assignment { name: assigned, .. }) => {
            crate::name_set::lemma_with_name_contains(code.locals, assigned, name);
        },
        StatementView::IfStatement { cases, else_case } => {
            let last = match else_case {
                Some(block) => lower_statements(block, no_code())->Ok_0,
                None => no_code(),
            };
            let merged = crate::name_set::with_names(code.locals, last.locals);
            crate::name_set::lemma_with_names_contains(code.locals, last.locals, name);
            lemma_cases_keep_locals(
                cases,
                if else_case is Some {
                    Some(last.instructions)
                } else {
                    None
                },
                merged,
                name,
            );
        },
        _ => {},
    }
}

/// Lowering statements keeps the local variables that were there.
proof fn lemma_statements_keep_locals(
    statements: Seq<StatementView>,
    code: LoweredBlock,
    name: Seq<char>,
)
    requires
        lower_statements(statements, code) is Ok,
        code.locals.contains(name),
    ensures
        lower_statements(statements, code)->Ok_0.locals.contains(name),
    decreases statements.len(),
{
    if statements.len() > 0 {
        lemma_statement_keeps_locals(statements[0], code, name);
        lemma_statements_keep_locals(
            statements.drop_first(),
            lower_statement(statements[0], code)->Ok_0,
            name,
        );
    }
}

/// The instructions of a scoped statement refer within the sets, where the
/// writable set holds the local variables after the statement.
proof fn lemma_statement_refers(
    statement: StatementView,
    code: LoweredBlock,
    readable: Set<Seq<char>>,
    writable: Set<Seq<char>>,
    callable: Set<Seq<char>>,
)
    requires
        lower_statement(statement, code) is Ok,
        statement_scoped(statement, readable, callable),
        block_refers(code.instructions, readable, writable, callable),
        forall|name: Seq<char>|
            lower_statement(statement, code)->Ok_0.locals.contains(name) ==> writable.contains(
                name,
            ),
    ensures
        block_refers(lower_statement(statement, code)->Ok_0.instructions, readable, writable, callable),
    decreases statement,
{
    let lowered = lower_statement(statement, code)->Ok_0;
    match statement {
        StatementView::BareExpression(expr) => {
            lemma_expression_refers(expr, readable, writable, callable);
        },
        StatementView::Declaration(DeclarationView::Assignment { name, expr }) => {
            lemma_expression_refers(expr, readable, writable, callable);
            crate::name_set::lemma_with_name_contains(code.locals, name, name);
        },
        StatementView::Declaration(DeclarationView::FunctionDecl { .. }) => {},
        StatementView::IfStatement { cases, else_case } => {
            let last = match else_case {
                Some(block) => lower_statements(block, no_code())->Ok_0,
                None => no_code(),
            };
            let fallback = if else_case is Some {
                Some(last.instructions)
            } else {
                None
            };
            let merged = crate::name_set::with_names(code.locals, last.locals);
            assert forall|name: Seq<char>| merged.contains(name) implies writable.contains(
                name,
            ) by {
                lemma_cases_keep_locals(cases, fallback, merged, name);
            }
            match else_case {
                Some(block) => {
                    assert forall|name: Seq<char>| last.locals.contains(name) implies writable.contains(
                        name,
                    ) by {
                        crate::name_set::lemma_with_names_contains(code.locals, last.locals, name);
                    }
                    lemma_statements_refer(block, no_code(), readable, writable, callable);
                },
                None => {},
            }
            lemma_cases_refer(cases, fallback, merged, readable, writable, callable);
        },
    }
}

/// The `if` instruction made of scoped cases refers within the sets, where
/// the writable set holds the local variables after the cases.
proof fn lemma_cases_refer(
    cases: Seq<IfCaseView>,
    fallback: Option<Seq<WasmInstrView>>,
    locals: Seq<Seq<char>>,
    readable: Set<Seq<char>>,
    writable: Set<Seq<char>>,
    callable: Set<Seq<char>>,
)
    requires
        lower_cases(cases, fallback, locals) is Ok,
        forall|i: int|
            0 <= i < cases.len() ==> expression_scoped(
                (#[trigger] cases[i]).condition,
                readable,
                callable,
            ) && block_scoped(cases[i].block, readable, callable),
        fallback matches Some(block) ==> block_refers(block, readable, writable, callable),
        forall|name: Seq<char>|
            lower_cases(cases, fallback, locals)->Ok_0.1.contains(name) ==> writable.contains(name),
    ensures
        lower_cases(cases, fallback, locals)->Ok_0.0 matches Some(chain) ==> block_refers(
            chain,
            readable,
            writable,
            callable,
        ),
    decreases cases,
{
    if cases.len() > 0 {
        let rest = cases.drop_last();
        let condition = lower_expression(cases.last().condition)->Ok_0;
        let then = lower_statements(cases.last().block, no_code())->Ok_0;
        let merged = crate::name_set::with_names(locals, then.locals);
        let chain = seq![
            WasmInstrView::If {
                result_type: crate::wasm::WasmType::I32,
                condition,
                then: then.instructions,
                else_: fallback,
            },
        ];
        assert(cases[cases.len() - 1] == cases.last());
        lemma_expression_refers(cases.last().condition, readable, writable, callable);
        assert forall|name: Seq<char>| then.locals.contains(name) implies writable.contains(
            name,
        ) by {
            crate::name_set::lemma_with_names_contains(locals, then.locals, name);
            lemma_cases_keep_locals(rest, Some(chain), merged, name);
        }
        lemma_statements_refer(cases.last().block, no_code(), readable, writable, callable);
        assert forall|i: int| 0 <= i < rest.len() implies expression_scoped(
            (#[trigger] rest[i]).condition,
            readable,
            callable,
        ) && block_scoped(rest[i].block, readable, callable) by {
            assert(rest[i] == cases[i]);
        }
        lemma_cases_refer(rest, Some(chain), merged, readable, writable, callable);
    }
}

/// The instructions of scoped statements refer within the sets, where the
/// writable set holds the local variables after the statements.
proof fn lemma_statements_refer(
    statements: Seq<StatementView>,
    code: LoweredBlock,
    readable: Set<Seq<char>>,
    writable: Set<Seq<char>>,
    callable: Set<Seq<char>>,
)
    requires
        lower_statements(statements, code) is Ok,
        block_scoped(statements, readable, callable),
        block_refers(code.instructions, readable, writable, callable),
        forall|name: Seq<char>|
            lower_statements(statements, code)->Ok_0.locals.contains(name) ==> writable.contains(
                name,
            ),
    ensures
        block_refers(
            lower_statements(statements, code)->Ok_0.instructions,
            readable,
            writable,
            callable,
        ),
    decreases statements,
{
    if statements.len() > 0 {
        let rest = statements.drop_first();
        let next = lower_statement(statements[0], code)->Ok_0;
        assert forall|name: Seq<char>| next.locals.contains(name) implies writable.contains(
            name,
        ) by {
            lemma_statements_keep_locals(rest, next, name);
        }
        lemma_statement_refers(statements[0], code, readable, writable, callable);
        assert forall|i: int| 0 <= i < rest.len() implies statement_scoped(
            #[trigger] rest[i],
            readable,
            callable,
        ) by {
            assert(rest[i] == statements[i + 1]);
        }
        lemma_statements_refer(rest, next, readable, writable, callable);
    }
}

/// Whether a statement assigns to a name, in any of its branches.
pub open spec fn statement_assigns(statement: StatementView, name: Seq<char>) -> bool
    decreases statement,
{
    match statement {
        StatementView::Declaration(DeclarationView::Assignment { name: assigned, .. }) => assigned
            == name,
        StatementView::IfStatement { cases, else_case } => {
            ||| cases_assign(cases, name)
            ||| else_case matches Some(block) && block_assigns(block, name)
        },
        _ => false,
    }
}

/// Whether a statement of a block assigns to a name.
pub open spec fn block_assigns(block: Seq<StatementView>, name: Seq<char>) -> bool
    decreases block,
{
    exists|i: int| 0 <= i < block.len() && statement_assigns(#[trigger] block[i], name)
}

/// Whether the block of a case assigns to a name.
pub open spec fn cases_assign(cases: Seq<IfCaseView>, name: Seq<char>) -> bool
    decreases cases,
{
    exists|i: int| 0 <= i < cases.len() && block_assigns((#[trigger] cases[i]).block, name)
}

/// The local variables after a statement are those before it and the names
/// that it assigns to.
proof fn lemma_statement_locals(statement: StatementView, code: LoweredBlock, name: Seq<char>)
    requires
        lower_statement(statement, code) is Ok,
    ensures
        lower_statement(statement, code)->Ok_0.locals.contains(name) <==> code.locals.contains(name)
            || statement_assigns(statement, name),
    decreases statement,
{
    match statement {
        StatementView::Declaration(DeclarationView::Assignment { name: assigned, .. }) => {
            crate::name_set::lemma_with_name_contains(code.locals, assigned, name);
        },
        StatementView::IfStatement { cases, else_case } => {
            let last = match else_case {
                Some(block) => lower_statements(block, no_code())->Ok_0,
                None => no_code(),
            };
            let fallback = if else_case is Some {
                Some(last.instructions)
            } else {
                None
            };
            let merged = crate::name_set::with_names(code.locals, last.locals);
            match else_case {
                Some(block) => {
                    lemma_statements_locals(block, no_code(), name);
                },
                None => {},
            }
            crate::name_set::lemma_with_names_contains(code.locals, last.locals, name);
            lemma_cases_locals(cases, fallback, merged, name);
        },
        _ => {},
    }
}

/// The local variables after the cases of an `if` are those before them and
/// the names that their blocks assign to.
proof fn lemma_cases_locals(
    cases: Seq<IfCaseView>,
    fallback: Option<Seq<WasmInstrView>>,
    locals: Seq<Seq<char>>,
    name: Seq<char>,
)
    requires
        lower_cases(cases, fallback, locals) is Ok,
    ensures
        lower_cases(cases, fallback, locals)->Ok_0.1.contains(name) <==> locals.contains(name)
            || cases_assign(cases, name),
    decreases cases,
{
    if cases.len() > 0 {
        let front = cases.drop_last();
        let then = lower_statements(cases.last().block, no_code())->Ok_0;
        let merged = crate::name_set::with_names(locals, then.locals);
        let inner = Some(seq![case_instruction(cases.last(), fallback)]);
        lemma_statements_locals(cases.last().block, no_code(), name);
        crate::name_set::lemma_with_names_contains(locals, then.locals, name);
        lemma_cases_locals(front, inner, merged, name);
        if cases_assign(front, name) {
            let i = choose|i: int|
                0 <= i < front.len() && block_assigns((#[trigger] front[i]).block, name);
            assert(cases[i] == front[i]);
        }
        if block_assigns(cases.last().block, name) {
            assert(cases[cases.len() - 1] == cases.last());
        }
        if cases_assign(cases, name) {
            let i = choose|i: int|
                0 <= i < cases.len() && block_assigns((#[trigger] cases[i]).block, name);
            if i < front.len() {
                assert(front[i] == cases[i]);
            }
        }
    }
}

/// The local variables after statements are those before them and the names
/// that the statements assign to.
proof fn lemma_statements_locals(statements: Seq<StatementView>, code: LoweredBlock, name: Seq<char>)
    requires
        lower_statements(statements, code) is Ok,
    ensures
        lower_statements(statements, code)->Ok_0.locals.contains(name) <==> code.locals.contains(
            name,
        ) || block_assigns(statements, name),
    decreases statements,
{
    if statements.len() > 0 {
        let rest = statements.drop_first();
        let next = lower_statement(statements[0], code)->Ok_0;
        lemma_statement_locals(statements[0], code, name);
        lemma_statements_locals(rest, next, name);
        if block_assigns(rest, name) {
            let i = choose|i: int| 0 <= i < rest.len() && statement_assigns(#[trigger] rest[i], name);
            assert(statements[i + 1] == rest[i]);
        }
        if block_assigns(statements, name) {
            let i = choose|i: int|
                0 <= i < statements.len() && statement_assigns(#[trigger] statements[i], name);
            if i > 0 {
                assert(rest[i - 1] == statements[i]);
            }
        }
    }
}

/// The local variables of a lowered function are exactly the names that the
/// statements of its declaration assign to, in any branch.
pub proof fn lemma_locals_are_assigned_names(program: Seq<TopLevelView>, i: int, name: Seq<char>)
    requires
        lower_program(program) is Ok,
        0 <= i < program.len(),
    ensures
        lower_program(program)->Ok_0.functions[i].local_variables.contains(name) <==> block_assigns(
            program[i].decl->body,
            name,
        ),
{
    lemma_source_order_preserved(program);
    let module = lower_program(program)->Ok_0;
    assert(module.functions[i] == function_of(program[i].decl));
    lemma_statements_locals(program[i].decl->body, no_code(), name);
}

/// Every `local.set` of a lowered function names one of the function's local
/// variables, whatever the program holds.
pub proof fn lemma_set_locals_are_declared(program: Seq<TopLevelView>, i: int)
    requires
        lower_program(program) is Ok,
        0 <= i < program.len(),
    ensures
        block_refers(
            lower_program(program)->Ok_0.functions[i].body,
            Set::full(),
            names_of(lower_program(program)->Ok_0.functions[i].local_variables),
            Set::full(),
        ),
{
    lemma_source_order_preserved(program);
    let module = lower_program(program)->Ok_0;
    let function = module.functions[i];
    assert(function == function_of(program[i].decl));
    lemma_block_scoped_in_full(program[i].decl->body);
    lemma_statements_refer(
        program[i].decl->body,
        no_code(),
        Set::full(),
        names_of(function.local_variables),
        Set::full(),
    );
}

/// The variables that a function declaration can read: its arguments and the
/// names that its statements assign to.
pub open spec fn variables_in_scope(decl: DeclarationView) -> Set<Seq<char>>
    recommends
        decl is FunctionDecl,
{
    Set::new(|name: Seq<char>| decl->arguments.contains(name) || block_assigns(decl->body, name))
}

/// The names that the declarations of a program bind.
pub open spec fn declared_in(program: Seq<TopLevelView>) -> Set<Seq<char>> {
    Set::new(
        |name: Seq<char>|
            exists|i: int| 0 <= i < program.len() && (#[trigger] program[i]).decl.name() == name,
    )
}

/// Where a function declaration reads no variable but its arguments and the
/// names that it assigns to, and calls no function but those that the
/// program declares, every `local.get` and `local.set` of the lowered
/// function names a parameter or a local variable of it, and every `call` a
/// function of the module.
pub proof fn lemma_references_resolve(program: Seq<TopLevelView>, i: int)
    requires
        lower_program(program) is Ok,
        0 <= i < program.len(),
        block_scoped(
            program[i].decl->body,
            variables_in_scope(program[i].decl),
            declared_in(program),
        ),
    ensures
        block_refers(
            lower_program(program)->Ok_0.functions[i].body,
            variables_of(lower_program(program)->Ok_0.functions[i]),
            variables_of(lower_program(program)->Ok_0.functions[i]),
            functions_of(lower_program(program)->Ok_0),
        ),
{
    lemma_source_order_preserved(program);
    let module = lower_program(program)->Ok_0;
    let function = module.functions[i];
    assert(function == function_of(program[i].decl));
    assert forall|name: Seq<char>|
        variables_of(function).contains(name) == variables_in_scope(program[i].decl).contains(
            name,
        ) by {
        lemma_locals_are_assigned_names(program, i, name);
    }
    assert(variables_of(function) =~= variables_in_scope(program[i].decl));
    assert forall|name: Seq<char>|
        functions_of(module).contains(name) == declared_in(program).contains(name) by {
        if functions_of(module).contains(name) {
            let j = choose|j: int|
                0 <= j < module.functions.len() && (#[trigger] module.functions[j]).name == name;
            assert(module.functions[j] == function_of(program[j].decl));
            assert(program[j].decl.name() == name);
        }
        if declared_in(program).contains(name) {
            let j = choose|j: int|
                0 <= j < program.len() && (#[trigger] program[j]).decl.name() == name;
            assert(module.functions[j] == function_of(program[j].decl));
            assert(module.functions[j].name == name);
        }
    }
    assert(functions_of(module) =~= declared_in(program));
    lemma_statements_refer(
        program[i].decl->body,
        no_code(),
        variables_of(function),
        variables_of(function),
        functions_of(module),
    );
}

/// The `if` instruction of one case, with what stands in its `else`.
pub open spec fn case_instruction(case: IfCaseView, else_: Option<Seq<WasmInstrView>>)
    -> WasmInstrView {
    WasmInstrView::If {
        result_type: crate::wasm::WasmType::I32,
        condition: lower_expression(case.condition)->Ok_0,
        then: lower_statements(case.block, no_code())->Ok_0.instructions,
        else_,
    }
}

/// The `if` instruction of the cases of an `if` statement: that of the first
/// case, with the instruction of the cases after it as the only instruction
/// of its `else`; the last case has `last` as its `else`.
pub open spec fn if_chain(cases: Seq<IfCaseView>, last: Option<Seq<WasmInstrView>>) -> WasmInstrView
    recommends
        cases.len() >= 1,
    decreases cases.len(),
{
    if cases.len() <= 1 {
        case_instruction(cases[0], last)
    } else {
        case_instruction(cases[0], Some(seq![if_chain(cases.drop_first(), last)]))
    }
}

proof fn lemma_if_chain_last(cases: Seq<IfCaseView>, last: Option<Seq<WasmInstrView>>)
    requires
        cases.len() >= 2,
    ensures
        if_chain(cases, last) == if_chain(
            cases.drop_last(),
            Some(seq![case_instruction(cases.last(), last)]),
        ),
    decreases cases.len(),
{
    let front = cases.drop_last();
    let inner = Some(seq![case_instruction(cases.last(), last)]);
    assert(front[0] == cases[0]);
    if cases.len() == 2 {
        assert(cases.drop_first()[0] == cases.last());
    } else {
        lemma_if_chain_last(cases.drop_first(), last);
        assert(cases.drop_first().drop_last() =~= front.drop_first());
        assert(cases.drop_first().last() == cases.last());
    }
}

/// The cases of an `if`, lowered from the last to the first, make the one
/// instruction in which each case stands in the `else` of the case before it.
pub proof fn lemma_cases_make_chain(
    cases: Seq<IfCaseView>,
    fallback: Option<Seq<WasmInstrView>>,
    locals: Seq<Seq<char>>,
)
    requires
        cases.len() >= 1,
        lower_cases(cases, fallback, locals) is Ok,
    ensures
        lower_cases(cases, fallback, locals)->Ok_0.0 == Some(seq![if_chain(cases, fallback)]),
    decreases cases.len(),
{
    let front = cases.drop_last();
    let then = lower_statements(cases.last().block, no_code())->Ok_0;
    let inner = Some(seq![case_instruction(cases.last(), fallback)]);
    let merged = crate::name_set::with_names(locals, then.locals);
    if cases.len() == 1 {
        assert(cases[0] == cases.last());
    } else {
        lemma_cases_make_chain(front, inner, merged);
        lemma_if_chain_last(cases, fallback);
    }
}

/// An `if` statement with at least one case is lowered to exactly one
/// instruction, whatever the number of its cases: the chain of its cases,
/// with the instructions of its `else` block, where it has one, in the `else`
/// of the last case.
pub proof fn lemma_if_is_one_instruction(
    cases: Seq<IfCaseView>,
    else_case: Option<Seq<StatementView>>,
    code: LoweredBlock,
)
    requires
        cases.len() >= 1,
        lower_statement(StatementView::IfStatement { cases, else_case }, code) is Ok,
    ensures
        lower_statement(StatementView::IfStatement { cases, else_case }, code)->Ok_0.instructions
            == code.instructions.push(
            if_chain(
                cases,
                match else_case {
                    Some(block) => Some(lower_statements(block, no_code())->Ok_0.instructions),
                    None => None,
                },
            ),
        ),
{
    let last = match else_case {
        Some(block) => lower_statements(block, no_code())->Ok_0,
        None => no_code(),
    };
    let fallback = if else_case is Some {
        Some(last.instructions)
    } else {
        None
    };
    let merged = crate::name_set::with_names(code.locals, last.locals);
    lemma_cases_make_chain(cases, fallback, merged);
    let chain = if_chain(cases, fallback);
    assert(code.instructions + seq![chain] =~= code.instructions.push(chain));
}

/// An `if` statement with two cases and an `else` is lowered to one `if`
/// instruction, whose `else` holds exactly one instruction: the `if` of the
/// second case, whose `else` holds the instructions of the `else` block.
pub proof fn lemma_two_cases_and_else(
    first: IfCaseView,
    second: IfCaseView,
    else_block: Seq<StatementView>,
    code: LoweredBlock,
)
    requires
        lower_statement(
            StatementView::IfStatement { cases: seq![first, second], else_case: Some(else_block) },
            code,
        ) is Ok,
    ensures
        lower_statement(
            StatementView::IfStatement { cases: seq![first, second], else_case: Some(else_block) },
            code,
        )->Ok_0.instructions == code.instructions.push(
            WasmInstrView::If {
                result_type: crate::wasm::WasmType::I32,
                condition: lower_expression(first.condition)->Ok_0,
                then: lower_statements(first.block, no_code())->Ok_0.instructions,
                else_: Some(
                    seq![
                        WasmInstrView::If {
                            result_type: crate::wasm::WasmType::I32,
                            condition: lower_expression(second.condition)->Ok_0,
                            then: lower_statements(second.block, no_code())->Ok_0.instructions,
                            else_: Some(
                                lower_statements(else_block, no_code())->Ok_0.instructions,
                            ),
                        },
                    ],
                ),
            },
        ),
{
    let cases = seq![first, second];
    let last = Some(lower_statements(else_block, no_code())->Ok_0.instructions);
    lemma_if_is_one_instruction(cases, Some(else_block), code);
    assert(cases.drop_first() =~= seq![second]);
    assert(if_chain(seq![second], last) == case_instruction(second, last));
    assert(if_chain(cases, last) == case_instruction(
        first,
        Some(seq![if_chain(cases.drop_first(), last)]),
    ));
}

} // verus!
