use compiler_core::ast::{Ast, Declaration, Expression, FunctionArgsList, TopLevelStatement};
use compiler_core::code_gen::{ast_to_wasm, binary_op_to_wasm_instruction, CodeGenError};
use compiler_core::operators::BinaryOperator;
use compiler_core::parser::{parse, ParseError};
use compiler_core::tokeniser::TokeniserError;
use compiler_core::tokens::{Constant, Token};
use compiler_core::wasm::{WasmExport, WasmFunction, WasmInstr, WasmModule, WasmType};
use compiler_core::{compile, CompileError};

const FIBONACCI: &str = "export fn main(n)\n  if n == 0\n    0\n  else if n == 1\n    1\n  else\n    main(n - 1) + main(n - 2)\n";

fn compiled(source: &str) -> String {
    match compile(source) {
        Ok(text) => text,
        Err(error) => panic!("{:?}", error),
    }
}

fn squeeze(text: &str) -> String {
    text.split_whitespace().collect::<Vec<&str>>().join(" ").replace("( ", "(").replace(" )", ")")
}

fn lowered(source: &str) -> WasmModule {
    let ast = match parse(source) {
        Ok(ast) => ast,
        Err(error) => panic!("{:?}", error),
    };
    match ast_to_wasm(&ast) {
        Ok(module) => module,
        Err(error) => panic!("{:?}", error),
    }
}

fn mnemonics(body: &[WasmInstr]) -> Vec<String> {
    body.iter()
        .map(|instruction| match instruction {
            WasmInstr::GetLocal(name) => format!("local.get ${}", name),
            WasmInstr::SetLocal(name) => format!("local.set ${}", name),
            WasmInstr::ConstI32(value) => format!("i32.const {}", value),
            WasmInstr::ConstI64(value) => format!("i64.const {}", value),
            WasmInstr::ConstF32(digits) => format!("f32.const {}", digits),
            WasmInstr::AddI32 => "i32.add".to_string(),
            WasmInstr::AddI64 => "i64.add".to_string(),
            WasmInstr::MinusI32 => "i32.sub".to_string(),
            WasmInstr::MultiplyI32 => "i32.mul".to_string(),
            WasmInstr::SignedDivideI32 => "i32.div_s".to_string(),
            WasmInstr::EqualI32 => "i32.eq".to_string(),
            WasmInstr::Call(name) => format!("call ${}", name),
            WasmInstr::If { .. } => "if".to_string(),
        })
        .collect()
}

fn run_block(module: &WasmModule, body: &[WasmInstr], locals: &mut Vec<(String, i32)>, stack: &mut Vec<i32>) {
    for instruction in body {
        match instruction {
            WasmInstr::GetLocal(name) => {
                let value = locals.iter().find(|(local, _)| local == name).unwrap().1;
                stack.push(value);
            }
            WasmInstr::SetLocal(name) => {
                let value = stack.pop().unwrap();
                locals.iter_mut().find(|(local, _)| local == name).unwrap().1 = value;
            }
            WasmInstr::ConstI32(value) => stack.push(*value),
            WasmInstr::AddI32 | WasmInstr::MinusI32 | WasmInstr::MultiplyI32
            | WasmInstr::SignedDivideI32 | WasmInstr::EqualI32 => {
                let right = stack.pop().unwrap();
                let left = stack.pop().unwrap();
                stack.push(match instruction {
                    WasmInstr::AddI32 => left.wrapping_add(right),
                    WasmInstr::MinusI32 => left.wrapping_sub(right),
                    WasmInstr::MultiplyI32 => left.wrapping_mul(right),
                    WasmInstr::SignedDivideI32 => left.wrapping_div(right),
                    _ => (left == right) as i32,
                });
            }
            WasmInstr::Call(name) => {
                let function =
                    module.functions().iter().find(|function| function.name() == name).unwrap();
                let mut args = Vec::new();
                for _ in 0..function.params().len() {
                    args.push(stack.pop().unwrap());
                }
                args.reverse();
                stack.push(run(module, function, &args));
            }
            WasmInstr::If { condition, then, else_, .. } => {
                run_block(module, condition, locals, stack);
                if stack.pop().unwrap() != 0 {
                    run_block(module, then, locals, stack);
                } else if let Some(block) = else_ {
                    run_block(module, block, locals, stack);
                }
            }
            other => panic!("{:?}", other),
        }
    }
}

fn run(module: &WasmModule, function: &WasmFunction, args: &[i32]) -> i32 {
    let mut locals: Vec<(String, i32)> = Vec::new();
    for (param, value) in function.params().iter().zip(args) {
        locals.push((param.clone(), *value));
    }
    for local in function.local_variables().names() {
        locals.push((local.clone(), 0));
    }
    let mut stack = Vec::new();
    run_block(module, function.body(), &mut locals, &mut stack);
    stack.pop().unwrap()
}

fn run_main(source: &str, args: &[i32]) -> i32 {
    let module = lowered(source);
    let exported = module.exports().iter().any(|export| match export {
        WasmExport::Function { exported_name, .. } => exported_name == "main",
    });
    assert!(exported, "`main` was not an exported function");
    let main = module.functions().iter().find(|function| function.name() == "main").unwrap();
    run(&module, main, args)
}

#[test]
fn empty_source_compiles_to_empty_module() {
    assert_eq!(compiled(""), "(module)");
    assert_eq!(compiled("\n  \n"), "(module)");
}

#[test]
fn identity_export() {
    let text = compiled("export fn main()\n  42\n");
    assert_eq!(
        text,
        "(module\n  (func $main (result i32)\n    i32.const 42)\n  (export \"main\" (func $main)))"
    );
    let flat = squeeze(&text);
    assert!(flat.contains("(func $main (result i32) i32.const 42)"), "{}", flat);
    assert!(flat.contains("(export \"main\" (func $main))"), "{}", flat);
}

#[test]
fn compile_reports_unterminated_string() {
    match compile("\"abc") {
        Err(CompileError::ParseError(ParseError::TokeniserError(
            TokeniserError::UnterminatedString,
        ))) => {}
        other => panic!("{:?}", other),
    }
}

#[test]
fn duplicate_export_is_a_parse_error() {
    match compile("export export fn f()\n  1\n") {
        Err(CompileError::ParseError(ParseError::UnexpectedToken(token, context))) => {
            assert!(matches!(token, Token::Keyword(_)));
            assert_eq!(context, "export specified twice");
        }
        other => panic!("{:?}", other),
    }
}

#[test]
fn integer_expression_follows_precedence() {
    let module = lowered("fn f()\n  x = 1 + 2 * 3\n");
    assert_eq!(
        mnemonics(module.functions()[0].body()),
        vec!["i32.const 1", "i32.const 2", "i32.const 3", "i32.mul", "i32.add", "local.set $x"]
    );
    assert_eq!(
        compiled("fn f()\n  x = 1 + 2 * 3\n"),
        "(module\n  (func $f (result i32) (local $x i32)\n    i32.const 1\n    i32.const 2\n    i32.const 3\n    i32.mul\n    i32.add\n    local.set $x))"
    );
}

#[test]
fn arithmetic_precedence() {
    let module = lowered("fn f()\n  x = 1 - 2 * 3\n");
    assert_eq!(
        mnemonics(module.functions()[0].body()),
        vec!["i32.const 1", "i32.const 2", "i32.const 3", "i32.mul", "i32.sub", "local.set $x"]
    );
    assert_eq!(run_main("export fn main()\n  x = 1 - 2 * 3\n  x\n", &[]), -5);
}

#[test]
fn unary_negation_binds_tighter_than_multiply() {
    let module = lowered("fn f()\n  y = -3 * 4\n");
    assert_eq!(
        mnemonics(module.functions()[0].body()),
        vec![
            "i32.const 3",
            "i32.const -1",
            "i32.mul",
            "i32.const 4",
            "i32.mul",
            "local.set $y"
        ]
    );
    assert_eq!(run_main("export fn main()\n  y = -3 * 4\n  y\n", &[]), -12);
}

#[test]
fn fibonacci_runs() {
    assert_eq!(run_main(FIBONACCI, &[0]), 0);
    assert_eq!(run_main(FIBONACCI, &[1]), 1);
    assert_eq!(run_main(FIBONACCI, &[10]), 55);
    assert_eq!(run_main(FIBONACCI, &[12]), 144);
}

#[test]
fn fibonacci_text() {
    assert_eq!(
        compiled(FIBONACCI),
        "(module\n  (func $main (param $n i32) (result i32)\n    \n    local.get $n\n    i32.const 0\n    i32.eq\n     (if (result i32)\n      (then\n        i32.const 0\n      )\n      (else\n        \n        local.get $n\n        i32.const 1\n        i32.eq\n         (if (result i32)\n          (then\n            i32.const 1\n          )\n          (else\n            local.get $n\n            i32.const 1\n            i32.sub\n            call $main\n            local.get $n\n            i32.const 2\n            i32.sub\n            call $main\n            i32.add\n          ))\n      )))\n  (export \"main\" (func $main)))"
    );
}

#[test]
fn nested_if_lowering() {
    let module = lowered(FIBONACCI);
    let body = module.functions()[0].body();
    assert_eq!(body.len(), 1);
    match &body[0] {
        WasmInstr::If { result_type, condition, then, else_ } => {
            assert_eq!(*result_type, WasmType::I32);
            assert_eq!(mnemonics(condition), vec!["local.get $n", "i32.const 0", "i32.eq"]);
            assert_eq!(mnemonics(then), vec!["i32.const 0"]);
            let else_ = else_.as_ref().unwrap();
            assert_eq!(else_.len(), 1);
            match &else_[0] {
                WasmInstr::If { condition, then, else_, .. } => {
                    assert_eq!(mnemonics(condition), vec!["local.get $n", "i32.const 1", "i32.eq"]);
                    assert_eq!(mnemonics(then), vec!["i32.const 1"]);
                    let last = else_.as_ref().unwrap();
                    assert!(last.iter().all(|instruction| !matches!(instruction, WasmInstr::If { .. })));
                    assert_eq!(last.len(), 9);
                }
                other => panic!("{:?}", other),
            }
        }
        other => panic!("{:?}", other),
    }
    let text = compiled(FIBONACCI);
    assert_eq!(text.matches("(if (result i32)").count(), 2);
}

#[test]
fn if_without_else_has_no_else_branch() {
    let module = lowered("fn f(a)\n  if a\n    1\n");
    match &module.functions()[0].body()[0] {
        WasmInstr::If { else_, .. } => assert!(else_.is_none()),
        other => panic!("{:?}", other),
    }
}

#[test]
fn locals_of_all_branches_are_declared_once_in_order() {
    let source = "fn f(a)\n  z = 1\n  if a\n    m = 2\n  else if a == 2\n    b = 3\n    z = 4\n  else\n    y = 5\n  z\n";
    let module = lowered(source);
    let function = &module.functions()[0];
    let locals: Vec<&str> =
        function.local_variables().names().iter().map(|name| name.as_str()).collect();
    assert_eq!(locals, vec!["b", "m", "y", "z"]);
    assert!(compiled(source).starts_with(
        "(module\n  (func $f (param $a i32) (result i32) (local $b i32) (local $m i32) (local $y i32) (local $z i32)\n"
    ));
}

#[test]
fn declarations_keep_source_order() {
    let source = "fn zeta()\n  1\nexport fn alpha()\n  2\nfn mid()\n  3\nexport fn beta()\n  4\n";
    let module = lowered(source);
    let names: Vec<&str> = module.functions().iter().map(|function| function.name().as_str()).collect();
    assert_eq!(names, vec!["zeta", "alpha", "mid", "beta"]);
    let exports: Vec<String> = module
        .exports()
        .iter()
        .map(|export| match export {
            WasmExport::Function { wasm_name, exported_name } => {
                format!("{}:{}", exported_name, wasm_name)
            }
        })
        .collect();
    assert_eq!(exports, vec!["alpha:alpha", "beta:beta"]);
    let text = compiled(source);
    let places: Vec<usize> = ["$zeta", "$alpha", "$mid", "$beta", "(export \"alpha\"", "(export \"beta\""]
        .iter()
        .map(|needle| text.find(needle).unwrap())
        .collect();
    assert!(places.windows(2).all(|pair| pair[0] < pair[1]));
}

#[test]
fn compiling_twice_gives_the_same_text() {
    for source in [FIBONACCI, "", "fn f()\n  x = 1\n  y = 2\n  x + y\n", "x = 1"] {
        assert_eq!(format!("{:?}", compile(source)), format!("{:?}", compile(source)));
    }
    assert_eq!(compiled(FIBONACCI), compiled(FIBONACCI));
}

#[test]
fn every_reference_of_fibonacci_resolves() {
    fn check(module: &WasmModule, function: &WasmFunction, body: &[WasmInstr]) {
        for instruction in body {
            match instruction {
                WasmInstr::GetLocal(name) | WasmInstr::SetLocal(name) => {
                    assert!(
                        function.params().contains(name)
                            || function.local_variables().names().contains(name)
                    );
                }
                WasmInstr::Call(name) => {
                    assert!(module.functions().iter().any(|other| other.name() == name));
                }
                WasmInstr::If { condition, then, else_, .. } => {
                    check(module, function, condition);
                    check(module, function, then);
                    if let Some(block) = else_ {
                        check(module, function, block);
                    }
                }
                _ => {}
            }
        }
    }
    let source = "fn helper(a)\n  t = a * 2\n  t\nexport fn main(n)\n  if n == 0\n    r = helper(n)\n  else\n    r = main(n - 1)\n  r\n";
    let module = lowered(source);
    for function in module.functions() {
        check(&module, function, function.body());
    }
}

#[test]
fn top_level_assignment_is_not_lowered() {
    assert!(matches!(
        compile("x = 1"),
        Err(CompileError::CodeGenError(CodeGenError::TopLevelAssignmentNotYetSupported))
    ));
    assert!(matches!(
        compile("fn f()\n  1\nx = 1"),
        Err(CompileError::CodeGenError(CodeGenError::TopLevelAssignmentNotYetSupported))
    ));
}

#[test]
fn strings_and_closures_are_not_lowered() {
    assert!(matches!(
        compile("fn f()\n  x = \"abc\"\n"),
        Err(CompileError::CodeGenError(CodeGenError::StringsNotSupportedYet))
    ));
    assert!(matches!(
        compile("fn f()\n  g(1, \"abc\")\n"),
        Err(CompileError::CodeGenError(CodeGenError::StringsNotSupportedYet))
    ));
    assert!(matches!(
        compile("fn f()\n  fn g()\n    1\n  2\n"),
        Err(CompileError::CodeGenError(CodeGenError::ClosuresNotSupportedYet))
    ));
    assert!(matches!(
        compile("fn f(a)\n  if a\n    1\n  else\n    fn g()\n      1\n"),
        Err(CompileError::CodeGenError(CodeGenError::ClosuresNotSupportedYet))
    ));
}

#[test]
fn the_else_block_is_lowered_before_the_cases() {
    let source = "fn f(a)\n  if \"s\"\n    1\n  else\n    fn g()\n      1\n";
    assert!(matches!(
        compile(source),
        Err(CompileError::CodeGenError(CodeGenError::ClosuresNotSupportedYet))
    ));
    let source = "fn f(a)\n  if \"s\"\n    1\n  else if a\n    fn g()\n      1\n";
    assert!(matches!(
        compile(source),
        Err(CompileError::CodeGenError(CodeGenError::ClosuresNotSupportedYet))
    ));
}

#[test]
fn whole_numbers_are_cut_to_32_bits() {
    let module = lowered("fn f()\n  4294967297\n  2147483648\n");
    assert_eq!(mnemonics(module.functions()[0].body()), vec!["i32.const 1", "i32.const -2147483648"]);
}

#[test]
fn float_constants_keep_their_digits() {
    let module = lowered("fn f()\n  1.5\n");
    assert_eq!(mnemonics(module.functions()[0].body()), vec!["f32.const 1.5"]);
    assert!(compiled("fn f()\n  1.5\n").contains("\n    f32.const 1.5)"));
}

#[test]
fn calls_evaluate_arguments_left_to_right() {
    let module = lowered("fn f(a, b)\n  g(a, b + 1, h())\n");
    assert_eq!(
        mnemonics(module.functions()[0].body()),
        vec!["local.get $a", "local.get $b", "i32.const 1", "i32.add", "call $h", "call $g"]
    );
}

#[test]
fn operators_map_to_instructions() {
    assert!(matches!(binary_op_to_wasm_instruction(BinaryOperator::Plus), WasmInstr::AddI32));
    assert!(matches!(binary_op_to_wasm_instruction(BinaryOperator::Minus), WasmInstr::MinusI32));
    assert!(matches!(
        binary_op_to_wasm_instruction(BinaryOperator::Multiply),
        WasmInstr::MultiplyI32
    ));
    assert!(matches!(
        binary_op_to_wasm_instruction(BinaryOperator::Divide),
        WasmInstr::SignedDivideI32
    ));
    assert!(matches!(
        binary_op_to_wasm_instruction(BinaryOperator::DoubleEquals),
        WasmInstr::EqualI32
    ));
}

#[test]
fn lowering_a_built_program() {
    let mut ast = Ast::new();
    ast.append_statement(TopLevelStatement::Declaration {
        decl: Declaration::FunctionDecl {
            name: "one".to_string(),
            arguments: FunctionArgsList { args: vec![] },
            body: vec![compiler_core::ast::CodeBlockStatement::BareExpression(
                Expression::Constant(Constant::Int(1)),
            )],
        },
        exported: true,
    });
    let module = ast_to_wasm(&ast).unwrap();
    assert_eq!(module.functions().len(), 1);
    assert_eq!(module.functions()[0].return_type(), Some(WasmType::I32));
    assert_eq!(mnemonics(module.functions()[0].body()), vec!["i32.const 1"]);
}
