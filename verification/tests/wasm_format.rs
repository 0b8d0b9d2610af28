use compiler_core::name_set::NameSet;
use compiler_core::text::{chars_of, decimal_string, string_of};
use compiler_core::wasm::{
    Wasm, WasmExport, WasmFunction, WasmIndentation, WasmInstr, WasmModule, WasmType,
};

fn text_of<Input: Wasm>(wasm: &Input) -> String {
    let mut out = String::new();
    let format = WasmIndentation::default();
    assert!(wasm.fits(format));
    wasm.write_text(&mut out, format);
    out
}

fn assert_wasm_output_matches<Input: Wasm>(wasm: Input, expected: &str) {
    assert_eq!(text_of(&wasm), expected);
}

fn names(list: &[&str]) -> Vec<String> {
    list.iter().map(|name| name.to_string()).collect()
}

#[test]
fn wasm_formats_empty_module() {
    assert_wasm_output_matches(WasmModule::new(), "(module)");
}

#[test]
fn wasm_formats_empty_function() {
    assert_wasm_output_matches(
        WasmFunction::new("f".to_string(), vec![], NameSet::new(), None, vec![]),
        "(func $f)",
    );
}

#[test]
fn wasm_formats_single_arg_function() {
    let func = WasmFunction::new(
        "my_func".to_string(),
        names(&["arg_1", "arg_2"]),
        NameSet::new(),
        Some(WasmType::I64),
        vec![],
    );

    assert_wasm_output_matches(
        func,
        "(func $my_func (param $arg_1 i32) (param $arg_2 i32) (result i64))",
    );
}

#[test]
fn wasm_formats_module_with_functions() {
    let mut module = WasmModule::new();

    module.add_function(
        WasmFunction::new(
            "get_magic_number".to_string(),
            vec![],
            NameSet::new(),
            Some(WasmType::I64),
            vec![WasmInstr::ConstI64(10), WasmInstr::ConstI64(5), WasmInstr::AddI64],
        ),
        false,
    );

    module.add_function(
        WasmFunction::new(
            "add".to_string(),
            names(&["arg_1", "arg_2"]),
            NameSet::new(),
            Some(WasmType::I64),
            vec![
                WasmInstr::GetLocal("arg_1".to_string()),
                WasmInstr::GetLocal("arg_2".to_string()),
                WasmInstr::AddI64,
            ],
        ),
        true,
    );

    assert_wasm_output_matches(
        module,
        "(module\n  (func $get_magic_number (result i64)\n    i64.const 10\n    i64.const 5\n    i64.add)\n  (func $add (param $arg_1 i32) (param $arg_2 i32) (result i64)\n    local.get $arg_1\n    local.get $arg_2\n    i64.add)\n  (export \"add\" (func $add)))",
    );
}

#[test]
fn wasm_formats_simple_export() {
    assert_wasm_output_matches(
        WasmExport::Function { exported_name: "add".to_string(), wasm_name: "add_em".to_string() },
        "(export \"add\" (func $add_em))",
    );
}

#[test]
fn mod_formats_empty_function() {
    assert_wasm_output_matches(
        WasmFunction::new("f".to_string(), vec![], NameSet::new(), None, vec![]),
        "(func $f)",
    );
}

#[test]
fn mod_formats_single_arg_function() {
    let func = WasmFunction::new(
        "my_func".to_string(),
        names(&["arg_1", "arg_2"]),
        NameSet::new(),
        Some(WasmType::I32),
        vec![],
    );

    assert_wasm_output_matches(
        func,
        "(func $my_func (param $arg_1 i32) (param $arg_2 i32) (result i32))",
    );
}

#[test]
fn mod_formats_module_with_functions() {
    let mut module = WasmModule::default();

    module.add_function(
        WasmFunction::new(
            "get_magic_number".to_string(),
            vec![],
            NameSet::new(),
            Some(WasmType::I32),
            vec![WasmInstr::ConstI32(10), WasmInstr::ConstI32(5), WasmInstr::AddI32],
        ),
        false,
    );

    module.add_function(
        WasmFunction::new(
            "add".to_string(),
            names(&["arg_1", "arg_2"]),
            NameSet::new(),
            Some(WasmType::I32),
            vec![
                WasmInstr::GetLocal("arg_1".to_string()),
                WasmInstr::GetLocal("arg_2".to_string()),
                WasmInstr::AddI32,
            ],
        ),
        true,
    );

    assert_wasm_output_matches(
        module,
        "(module\n  (func $get_magic_number (result i32)\n    i32.const 10\n    i32.const 5\n    i32.add)\n  (func $add (param $arg_1 i32) (param $arg_2 i32) (result i32)\n    local.get $arg_1\n    local.get $arg_2\n    i32.add)\n  (export \"add\" (func $add)))",
    );
}

#[test]
fn mod_formats_simple_export() {
    assert_wasm_output_matches(
        WasmExport::Function { exported_name: "add".to_string(), wasm_name: "add_em".to_string() },
        "(export \"add\" (func $add_em))",
    );
}

#[test]
fn formats_each_instruction() {
    let cases: Vec<(WasmInstr, &str)> = vec![
        (WasmInstr::GetLocal("n".to_string()), "local.get $n"),
        (WasmInstr::SetLocal("n".to_string()), "local.set $n"),
        (WasmInstr::ConstI32(0), "i32.const 0"),
        (WasmInstr::ConstI32(-1), "i32.const -1"),
        (WasmInstr::ConstI32(i32::MAX), "i32.const 2147483647"),
        (WasmInstr::ConstI32(i32::MIN), "i32.const -2147483648"),
        (WasmInstr::ConstI64(i64::MIN), "i64.const -9223372036854775808"),
        (WasmInstr::ConstI64(1000), "i64.const 1000"),
        (WasmInstr::ConstF32(format!("{}", 1.5f32)), "f32.const 1.5"),
        (WasmInstr::AddI32, "i32.add"),
        (WasmInstr::AddI64, "i64.add"),
        (WasmInstr::MinusI32, "i32.sub"),
        (WasmInstr::MultiplyI32, "i32.mul"),
        (WasmInstr::SignedDivideI32, "i32.div_s"),
        (WasmInstr::EqualI32, "i32.eq"),
        (WasmInstr::Call("f".to_string()), "call $f"),
    ];
    for (instruction, expected) in cases {
        assert_eq!(text_of(&instruction), expected);
    }
}

#[test]
fn formats_if_with_and_without_else() {
    let without = WasmInstr::If {
        result_type: WasmType::I32,
        condition: vec![WasmInstr::GetLocal("n".to_string())],
        then: vec![WasmInstr::ConstI32(1)],
        else_: None,
    };
    let mut out = String::new();
    let format = WasmIndentation::default().increase_indent();
    assert!(without.fits(format));
    without.write_text(&mut out, format);
    assert_eq!(
        out,
        "\n  \n  local.get $n\n   (if (result i32)\n    (then\n      i32.const 1\n    ))"
    );

    let with = WasmInstr::If {
        result_type: WasmType::I32,
        condition: vec![],
        then: vec![],
        else_: Some(vec![WasmInstr::ConstI32(2)]),
    };
    assert_eq!(
        text_of(&with),
        " (if (result i32)\n  (then\n  )\n  (else\n    i32.const 2\n  ))"
    );
}

#[test]
fn writes_locals_in_ascending_order_once_each() {
    let mut locals = NameSet::new();
    locals.insert("b".to_string());
    locals.insert("a".to_string());
    locals.insert("ab".to_string());
    locals.insert("a".to_string());
    locals.insert("B".to_string());
    let mut func = WasmFunction::new("f".to_string(), vec![], locals, Some(WasmType::I32), vec![]);
    func.add_local_variable("aa".to_string());
    assert_wasm_output_matches(
        func,
        "(func $f (result i32) (local $B i32) (local $a i32) (local $aa i32) (local $ab i32) (local $b i32))",
    );
}

#[test]
fn name_set_extend_adds_all_names() {
    let mut first = NameSet::new();
    first.insert("x".to_string());
    first.insert("m".to_string());
    let mut second = NameSet::new();
    second.insert("z".to_string());
    second.insert("a".to_string());
    second.insert("m".to_string());
    first.extend(second);
    assert_eq!(first.len(), 4);
    let all: Vec<&str> = (0..first.len()).map(|i| first.get(i).as_str()).collect();
    assert_eq!(all, vec!["a", "m", "x", "z"]);
    assert_eq!(first.names().len(), 4);
}

#[test]
fn indentation_grows_by_two_and_writes_newline() {
    let format = WasmIndentation::default();
    assert_eq!(format.spaces(), 0);
    let mut out = String::from("x");
    format.new_line_with_indent(&mut out);
    assert_eq!(out, "x");
    let deeper = format.increase_indent().increase_indent();
    assert_eq!(deeper.spaces(), 4);
    deeper.new_line_with_indent(&mut out);
    assert_eq!(out, "x\n    ");
}

#[test]
fn wasm_type_text() {
    assert_eq!(WasmType::I32.to_wasm_text(), "i32");
    assert_eq!(WasmType::I64.to_wasm_text(), "i64");
}

#[test]
fn deep_nesting_is_measured() {
    let mut instruction = WasmInstr::ConstI32(0);
    for _ in 0..3 {
        instruction = WasmInstr::If {
            result_type: WasmType::I32,
            condition: vec![],
            then: vec![instruction],
            else_: None,
        };
    }
    assert!(instruction.fits(WasmIndentation::default()));
    let module = WasmModule::new();
    assert!(module.fits(WasmIndentation::default()));
    let export =
        WasmExport::Function { exported_name: "a".to_string(), wasm_name: "b".to_string() };
    assert!(export.fits(WasmIndentation::default()));
}

#[test]
fn decimal_strings() {
    assert_eq!(decimal_string(0), "0");
    assert_eq!(decimal_string(7), "7");
    assert_eq!(decimal_string(10), "10");
    assert_eq!(decimal_string(-10), "-10");
    assert_eq!(decimal_string(1234567890), "1234567890");
    assert_eq!(decimal_string(i64::MAX), "9223372036854775807");
    assert_eq!(decimal_string(i64::MIN), "-9223372036854775808");
}

#[test]
fn characters_and_strings() {
    let chars = chars_of("héllo");
    assert_eq!(chars, vec!['h', 'é', 'l', 'l', 'o']);
    assert_eq!(string_of(&chars, 1, 4), "éll");
    assert_eq!(string_of(&chars, 2, 2), "");
}
