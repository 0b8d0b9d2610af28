//! Where the functions and exports of a module stand in its text: in the
//! order of the declarations of the source.

use crate::code_gen::lower_program;
use crate::code_gen_laws::{exports_of, function_of, lemma_source_order_preserved};
use crate::compile_text;
use crate::grammar::parse_source;
use crate::wasm::{
    block_text, export_text, exports_text, function_text, functions_text, module_text, names_text,
    new_line, result_text, WasmExportView, WasmFunctionView, WasmModuleView,
};
use vstd::prelude::*;

verus! {

/// Whether `part` stands in `text` at the place `place`.
pub open spec fn occurs_at(text: Seq<char>, part: Seq<char>, place: int) -> bool {
    &&& 0 <= place
    &&& place + part.len() <= text.len()
    &&& text.subrange(place, place + part.len()) == part
}

/// How a function starts in the text: `(func $` and its name.
pub open spec fn function_head(function: WasmFunctionView) -> Seq<char> {
    "(func $"@ + function.name
}

/// How an export starts in the text: `(export "` and the name under which
/// the function is exported.
pub open spec fn export_head(export: WasmExportView) -> Seq<char> {
    match export {
        WasmExportView::Function { exported_name, .. } => "(export \""@ + exported_name,
    }
}

/// The place in the text of a module at which its function `k` starts,
/// behind the newline and the indentation before it.
pub open spec fn function_place(module: WasmModuleView, indent: nat, k: int) -> int {
    ("(module"@.len() + functions_text(module.functions.subrange(0, k), indent + 2).len()
        + new_line(indent + 2).len()) as int
}

/// The place in the text of a module at which its export `k` starts, behind
/// the newline and the indentation before it.
pub open spec fn export_place(module: WasmModuleView, indent: nat, k: int) -> int {
    ("(module"@.len() + functions_text(module.functions, indent + 2).len() + exports_text(
        module.exports.subrange(0, k),
        indent + 2,
    ).len() + new_line(indent + 2).len()) as int
}

/// A part between two others stands behind the first.
proof fn lemma_occurs_between(before: Seq<char>, part: Seq<char>, after: Seq<char>)
    ensures
        occurs_at(before + part + after, part, before.len() as int),
{
    assert((before + part + after).subrange(
        before.len() as int,
        (before.len() + part.len()) as int,
    ) =~= part);
}

/// The text of functions is the text of the first `k` and the text of the
/// others.
proof fn lemma_functions_text_split(functions: Seq<WasmFunctionView>, indent: nat, k: int)
    requires
        0 <= k <= functions.len(),
    ensures
        functions_text(functions, indent) == functions_text(functions.subrange(0, k), indent)
            + functions_text(functions.subrange(k, functions.len() as int), indent),
    decreases functions.len(),
{
    let len = functions.len() as int;
    if k == len {
        assert(functions.subrange(0, k) =~= functions);
        assert(functions.subrange(k, len) =~= Seq::<WasmFunctionView>::empty());
        assert(functions_text(functions, indent) + Seq::<char>::empty() =~= functions_text(
            functions,
            indent,
        ));
    } else {
        let front = functions.drop_last();
        lemma_functions_text_split(front, indent, k);
        assert(front.subrange(0, k) =~= functions.subrange(0, k));
        assert(functions.subrange(k, len).drop_last() =~= front.subrange(k, len - 1));
        assert(functions.subrange(k, len).last() == functions.last());
        assert(functions_text(functions.subrange(0, k), indent) + (functions_text(
            front.subrange(k, len - 1),
            indent,
        ) + function_text(functions.last(), indent)) =~= functions_text(
            functions.subrange(0, k),
            indent,
        ) + functions_text(front.subrange(k, len - 1), indent) + function_text(
            functions.last(),
            indent,
        ));
    }
}

/// The text of exports is the text of the first `k` and the text of the
/// others.
proof fn lemma_exports_text_split(exports: Seq<WasmExportView>, indent: nat, k: int)
    requires
        0 <= k <= exports.len(),
    ensures
        exports_text(exports, indent) == exports_text(exports.subrange(0, k), indent)
            + exports_text(exports.subrange(k, exports.len() as int), indent),
    decreases exports.len(),
{
    let len = exports.len() as int;
    if k == len {
        assert(exports.subrange(0, k) =~= exports);
        assert(exports.subrange(k, len) =~= Seq::<WasmExportView>::empty());
        assert(exports_text(exports, indent) + Seq::<char>::empty() =~= exports_text(
            exports,
            indent,
        ));
    } else {
        let front = exports.drop_last();
        lemma_exports_text_split(front, indent, k);
        assert(front.subrange(0, k) =~= exports.subrange(0, k));
        assert(exports.subrange(k, len).drop_last() =~= front.subrange(k, len - 1));
        assert(exports.subrange(k, len).last() == exports.last());
        assert(exports_text(exports.subrange(0, k), indent) + (exports_text(
            front.subrange(k, len - 1),
            indent,
        ) + export_text(exports.last(), indent)) =~= exports_text(exports.subrange(0, k), indent)
            + exports_text(front.subrange(k, len - 1), indent) + export_text(
            exports.last(),
            indent,
        ));
    }
}

/// The text of one function, as the newline before it, its head and the
/// rest.
proof fn lemma_function_text_parts(function: WasmFunctionView, indent: nat) -> (rest: Seq<char>)
    ensures
        function_text(function, indent) == new_line(indent) + function_head(function) + rest,
{
    let rest = names_text(" (param $"@, function.params, " i32)"@) + result_text(
        function.return_type,
    ) + names_text(" (local $"@, function.local_variables, " i32)"@) + block_text(
        function.body,
        indent + 2,
    ) + ")"@;
    assert(function_text(function, indent) =~= new_line(indent) + function_head(function) + rest);
    rest
}

/// The text of one export, as the newline before it, its head and the rest.
proof fn lemma_export_text_parts(export: WasmExportView, indent: nat) -> (rest: Seq<char>)
    ensures
        export_text(export, indent) == new_line(indent) + export_head(export) + rest,
{
    let rest = "\" (func $"@ + export->wasm_name + "))"@;
    assert(export_text(export, indent) =~= new_line(indent) + export_head(export) + rest);
    rest
}

/// The text of functions is the text of those before function `k`, the text
/// of function `k`, and the text of those after it.
proof fn lemma_functions_text_around(functions: Seq<WasmFunctionView>, indent: nat, k: int)
    requires
        0 <= k < functions.len(),
    ensures
        functions_text(functions, indent) == functions_text(functions.subrange(0, k), indent)
            + function_text(functions[k], indent) + functions_text(
            functions.subrange(k + 1, functions.len() as int),
            indent,
        ),
        functions_text(functions.subrange(0, k + 1), indent) == functions_text(
            functions.subrange(0, k),
            indent,
        ) + function_text(functions[k], indent),
{
    let len = functions.len() as int;
    let upto = functions.subrange(0, k + 1);
    lemma_functions_text_split(functions, indent, k + 1);
    assert(upto.drop_last() =~= functions.subrange(0, k));
    assert(upto.last() == functions[k]);
}

/// The text of exports is the text of those before export `k`, the text of
/// export `k`, and the text of those after it.
proof fn lemma_exports_text_around(exports: Seq<WasmExportView>, indent: nat, k: int)
    requires
        0 <= k < exports.len(),
    ensures
        exports_text(exports, indent) == exports_text(exports.subrange(0, k), indent)
            + export_text(exports[k], indent) + exports_text(
            exports.subrange(k + 1, exports.len() as int),
            indent,
        ),
        exports_text(exports.subrange(0, k + 1), indent) == exports_text(
            exports.subrange(0, k),
            indent,
        ) + export_text(exports[k], indent),
{
    let upto = exports.subrange(0, k + 1);
    lemma_exports_text_split(exports, indent, k + 1);
    assert(upto.drop_last() =~= exports.subrange(0, k));
    assert(upto.last() == exports[k]);
}

/// A head that stands in a part behind `lead` stands in the whole text at
/// the place behind what is before the part and `lead`.
proof fn lemma_occurs_within(
    before: Seq<char>,
    lead: Seq<char>,
    head: Seq<char>,
    rest: Seq<char>,
    after: Seq<char>,
)
    ensures
        occurs_at(
            before + (lead + head + rest) + after,
            head,
            (before.len() + lead.len()) as int,
        ),
{
    assert(before + (lead + head + rest) + after =~= (before + lead) + head + (rest + after));
    lemma_occurs_between(before + lead, head, rest + after);
}

/// In the text of a module each function starts at its place, and a later
/// function starts at a later place.
pub proof fn lemma_function_places(module: WasmModuleView, indent: nat, k: int)
    requires
        0 <= k < module.functions.len(),
    ensures
        occurs_at(
            module_text(module, indent),
            function_head(module.functions[k]),
            function_place(module, indent, k),
        ),
        function_place(module, indent, k) + function_head(module.functions[k]).len()
            <= function_place(module, indent, k + 1),
        function_place(module, indent, k + 1) <= export_place(module, indent, 0),
{
    let functions = module.functions;
    let len = functions.len() as int;
    let inner = indent + 2;
    let earlier = functions_text(functions.subrange(0, k), inner);
    let later = functions_text(functions.subrange(k + 1, len), inner);
    let this = function_text(functions[k], inner);
    let head = function_head(functions[k]);
    lemma_functions_text_around(functions, inner, k);
    let rest = lemma_function_text_parts(functions[k], inner);
    let before = "(module"@ + earlier;
    let after = later + exports_text(module.exports, inner) + ")"@;
    assert(module_text(module, indent) =~= before + this + after);
    lemma_occurs_within(before, new_line(inner), head, rest, after);
    lemma_functions_text_split(functions, inner, k + 1);
    assert(module.exports.subrange(0, 0) =~= Seq::<WasmExportView>::empty());
}

/// In the text of a module each export starts at its place, behind every
/// function, and a later export starts at a later place.
pub proof fn lemma_export_places(module: WasmModuleView, indent: nat, k: int)
    requires
        0 <= k < module.exports.len(),
    ensures
        occurs_at(
            module_text(module, indent),
            export_head(module.exports[k]),
            export_place(module, indent, k),
        ),
        export_place(module, indent, 0) <= export_place(module, indent, k),
        export_place(module, indent, k) + export_head(module.exports[k]).len() <= export_place(
            module,
            indent,
            k + 1,
        ),
{
    let exports = module.exports;
    let len = exports.len() as int;
    let inner = indent + 2;
    let earlier = exports_text(exports.subrange(0, k), inner);
    let later = exports_text(exports.subrange(k + 1, len), inner);
    let this = export_text(exports[k], inner);
    let head = export_head(exports[k]);
    lemma_exports_text_around(exports, inner, k);
    let rest = lemma_export_text_parts(exports[k], inner);
    let before = "(module"@ + functions_text(module.functions, inner) + earlier;
    let after = later + ")"@;
    assert(module_text(module, indent) =~= before + this + after);
    lemma_occurs_within(before, new_line(inner), head, rest, after);
    assert(exports.subrange(0, 0) =~= Seq::<WasmExportView>::empty());
}

/// The declarations of a source text stand in the text that it compiles to in
/// the order of the source: the function of declaration `k` starts, with
/// `(func $` and the declaration's name, at a place behind the whole head of
/// the function of every earlier declaration, and before every export.
pub proof fn lemma_declarations_in_source_order(src: Seq<char>, k: int)
    requires
        compile_text(src) is Ok,
        0 <= k < parse_source(src)->Ok_0.len(),
    ensures
        ({
            let program = parse_source(src)->Ok_0;
            let module = lower_program(program)->Ok_0;
            let text = compile_text(src)->Ok_0;
            &&& occurs_at(
                text,
                "(func $"@ + program[k].decl.name(),
                function_place(module, 0, k),
            )
            &&& function_place(module, 0, k) + ("(func $"@ + program[k].decl.name()).len()
                <= function_place(module, 0, k + 1)
            &&& function_place(module, 0, k + 1) <= export_place(module, 0, 0)
        }),
{
    let program = parse_source(src)->Ok_0;
    let module = lower_program(program)->Ok_0;
    lemma_source_order_preserved(program);
    assert(module.functions[k] == function_of(program[k].decl));
    lemma_function_places(module, 0, k);
}

/// The exports stand in the text that a source text compiles to in the order
/// of the exported declarations of the source, behind every function: export
/// `k` starts, with `(export "` and the name of the exported declaration `k`,
/// at a place behind the whole head of every earlier export.
pub proof fn lemma_exports_in_source_order(src: Seq<char>, k: int)
    requires
        compile_text(src) is Ok,
        0 <= k < exports_of(parse_source(src)->Ok_0).len(),
    ensures
        ({
            let program = parse_source(src)->Ok_0;
            let module = lower_program(program)->Ok_0;
            let text = compile_text(src)->Ok_0;
            &&& module.exports == exports_of(program)
            &&& occurs_at(text, export_head(exports_of(program)[k]), export_place(module, 0, k))
            &&& export_place(module, 0, 0) <= export_place(module, 0, k)
            &&& export_place(module, 0, k) + export_head(exports_of(program)[k]).len()
                <= export_place(module, 0, k + 1)
        }),
{
    let program = parse_source(src)->Ok_0;
    let module = lower_program(program)->Ok_0;
    lemma_source_order_preserved(program);
    lemma_export_places(module, 0, k);
}

} // verus!
