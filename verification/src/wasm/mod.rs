//! Modules, functions and exports, and their text.

mod format;
mod instruction;

pub use format::{new_line, Wasm, WasmIndentation};
pub use instruction::{
    block_reach, block_text, block_within, branch_text, if_head, instruction_reach,
    instruction_text, instruction_within, instructions_view, larger, lemma_block_reach,
    lemma_instructions_view, lemma_instructions_view_concat, write_block, write_instruction,
    WasmBlock, WasmInstr, WasmInstrView, WasmType,
};

use crate::name_set::NameSet;

use vstd::prelude::*;

verus! {

/// A function of a module.
#[derive(Debug)]
pub struct WasmFunction {
    name: String,
    params: Vec<String>,
    local_variables: NameSet,
    return_type: Option<WasmType>,
    body: WasmBlock,
}

/// A `WasmFunction` as a mathematical value; its local variables are in
/// ascending order.
pub struct WasmFunctionView {
    pub name: Seq<char>,
    pub params: Seq<Seq<char>>,
    pub local_variables: Seq<Seq<char>>,
    pub return_type: Option<WasmType>,
    pub body: Seq<WasmInstrView>,
}

/// What a module hands to its host.
#[derive(Debug)]
pub enum WasmExport {
    Function { wasm_name: String, exported_name: String },
}

/// A `WasmExport` as a mathematical value.
pub enum WasmExportView {
    Function { wasm_name: Seq<char>, exported_name: Seq<char> },
}

/// A module: its functions and its exports, each in the order in which they
/// were added.
#[derive(Debug)]
pub struct WasmModule {
    functions: Vec<WasmFunction>,
    exports: Vec<WasmExport>,
}

/// A `WasmModule` as a mathematical value.
pub struct WasmModuleView {
    pub functions: Seq<WasmFunctionView>,
    pub exports: Seq<WasmExportView>,
}

/// The texts `before`, name, `after` for each name, one after the other.
pub open spec fn names_text(before: Seq<char>, names: Seq<Seq<char>>, after: Seq<char>) -> Seq<
    char,
>
    decreases names.len(),
{
    if names.len() == 0 {
        Seq::empty()
    } else {
        names_text(before, names.drop_last(), after) + (before + names.last() + after)
    }
}

/// The result clause of a function, if it has a result.
pub open spec fn result_text(return_type: Option<WasmType>) -> Seq<char> {
    match return_type {
        Some(wasm_type) => " (result "@ + wasm_type.text() + ")"@,
        None => Seq::empty(),
    }
}

/// The text of a function: its name, its parameters, its result, its local
/// variables in ascending order, then its instructions one level deeper.
/// Parameters and local variables are all `i32`.
pub open spec fn function_text(function: WasmFunctionView, indent: nat) -> Seq<char> {
    new_line(indent) + "(func $"@ + function.name + names_text(
        " (param $"@,
        function.params,
        " i32)"@,
    ) + result_text(function.return_type) + names_text(
        " (local $"@,
        function.local_variables,
        " i32)"@,
    ) + block_text(function.body, indent + 2) + ")"@
}

/// The text of an export.
pub open spec fn export_text(export: WasmExportView, indent: nat) -> Seq<char> {
    match export {
        WasmExportView::Function { wasm_name, exported_name } => new_line(indent)
            + "(export \""@ + exported_name + "\" (func $"@ + wasm_name + "))"@,
    }
}

/// The texts of functions, one after the other.
pub open spec fn functions_text(functions: Seq<WasmFunctionView>, indent: nat) -> Seq<char>
    decreases functions.len(),
{
    if functions.len() == 0 {
        Seq::empty()
    } else {
        functions_text(functions.drop_last(), indent) + function_text(functions.last(), indent)
    }
}

/// The texts of exports, one after the other.
pub open spec fn exports_text(exports: Seq<WasmExportView>, indent: nat) -> Seq<char>
    decreases exports.len(),
{
    if exports.len() == 0 {
        Seq::empty()
    } else {
        exports_text(exports.drop_last(), indent) + export_text(exports.last(), indent)
    }
}

/// The text of a module: its functions, then its exports, each one level
/// deeper than the module.
pub open spec fn module_text(module: WasmModuleView, indent: nat) -> Seq<char> {
    "(module"@ + functions_text(module.functions, indent + 2) + exports_text(
        module.exports,
        indent + 2,
    ) + ")"@
}

/// How deep a function indents: its instructions stand one level deeper.
pub open spec fn function_reach(function: WasmFunctionView) -> nat {
    2 + block_reach(function.body)
}

/// The deepest reach of the functions.
pub open spec fn functions_reach(functions: Seq<WasmFunctionView>) -> nat
    decreases functions.len(),
{
    if functions.len() == 0 {
        0
    } else {
        larger(functions_reach(functions.drop_last()), function_reach(functions.last()))
    }
}

/// How deep a module indents: its functions and exports stand one level
/// deeper.
pub open spec fn module_reach(module: WasmModuleView) -> nat {
    2 + functions_reach(module.functions)
}

/// The module with one more function, which is exported under its own name
/// where `exported` says so.
pub open spec fn with_function(module: WasmModuleView, function: WasmFunctionView, exported: bool)
    -> WasmModuleView {
    WasmModuleView {
        functions: module.functions.push(function),
        exports: if exported {
            module.exports.push(
                WasmExportView::Function {
                    wasm_name: function.name,
                    exported_name: function.name,
                },
            )
        } else {
            module.exports
        },
    }
}

impl View for WasmExport {
    type V = WasmExportView;

    open spec fn view(&self) -> WasmExportView {
        match self {
            WasmExport::Function { wasm_name, exported_name } => WasmExportView::Function {
                wasm_name: wasm_name@,
                exported_name: exported_name@,
            },
        }
    }
}

impl View for WasmFunction {
    type V = WasmFunctionView;

    closed spec fn view(&self) -> WasmFunctionView {
        WasmFunctionView {
            name: self.name@,
            params: self.params@.map_values(|param: String| param@),
            local_variables: self.local_variables@,
            return_type: self.return_type,
            body: instructions_view(self.body@),
        }
    }
}

impl View for WasmModule {
    type V = WasmModuleView;

    closed spec fn view(&self) -> WasmModuleView {
        WasmModuleView {
            functions: self.functions@.map_values(|function: WasmFunction| function@),
            exports: self.exports@.map_values(|export: WasmExport| export@),
        }
    }
}

impl WasmFunction {
    /// A function of the given parts.
    pub fn new(
        name: String,
        params: Vec<String>,
        local_variables: NameSet,
        return_type: Option<WasmType>,
        body: WasmBlock,
    ) -> (function: WasmFunction)
        ensures
            function@ == (WasmFunctionView {
                name: name@,
                params: params@.map_values(|param: String| param@),
                local_variables: local_variables@,
                return_type,
                body: instructions_view(body@),
            }),
    {
        WasmFunction { name, params, local_variables, return_type, body }
    }

    /// The name of the function.
    pub fn name(&self) -> (name: &String)
        ensures
            name@ == self@.name,
    {
        &self.name
    }

    /// The parameters of the function, in order.
    pub fn params(&self) -> (params: &Vec<String>)
        ensures
            params@.map_values(|param: String| param@) == self@.params,
    {
        &self.params
    }

    /// The local variables of the function.
    pub fn local_variables(&self) -> (locals: &NameSet)
        ensures
            locals@ == self@.local_variables,
    {
        &self.local_variables
    }

    /// The type of the function's result, if it has one.
    pub fn return_type(&self) -> (return_type: Option<WasmType>)
        ensures
            return_type == self@.return_type,
    {
        self.return_type
    }

    /// The instructions of the function.
    pub fn body(&self) -> (body: &WasmBlock)
        ensures
            instructions_view(body@) == self@.body,
    {
        &self.body
    }

    /// Adds a local variable, unless the function has it already.
    pub fn add_local_variable(&mut self, name: String)
        ensures
            final(self)@ == (WasmFunctionView {
                local_variables: crate::name_set::with_name(old(self)@.local_variables, name@),
                ..old(self)@
            }),
    {
        self.local_variables.insert(name);
    }
}

impl WasmModule {
    /// A module with no function.
    pub fn new() -> (module: WasmModule)
        ensures
            module@ == (WasmModuleView { functions: Seq::empty(), exports: Seq::empty() }),
    {
        let module = WasmModule { functions: Vec::new(), exports: Vec::new() };
        assert(module@.functions =~= Seq::empty());
        assert(module@.exports =~= Seq::empty());
        module
    }

    /// The functions of the module, in the order in which they were added.
    pub fn functions(&self) -> (functions: &Vec<WasmFunction>)
        ensures
            functions@.map_values(|function: WasmFunction| function@) == self@.functions,
    {
        &self.functions
    }

    /// The exports of the module, in the order in which they were added.
    pub fn exports(&self) -> (exports: &Vec<WasmExport>)
        ensures
            exports@.map_values(|export: WasmExport| export@) == self@.exports,
    {
        &self.exports
    }

    /// Adds a function at the end of the module, and with `exported` an
    /// export of it under its own name at the end of the exports.
    pub fn add_function(&mut self, func: WasmFunction, exported: bool)
        ensures
            final(self)@ == with_function(old(self)@, func@, exported),
    {
        let name = func.name.clone();
        self.functions.push(func);
        if exported {
            let exported_name = name.clone();
            self.exports.push(WasmExport::Function { wasm_name: name, exported_name });
        }
        assert(self@.functions =~= with_function(old(self)@, func@, exported).functions);
        assert(self@.exports =~= with_function(old(self)@, func@, exported).exports);
    }
}

impl Default for WasmModule {
    fn default() -> (module: WasmModule)
        ensures
            module@ == (WasmModuleView { functions: Seq::empty(), exports: Seq::empty() }),
    {
        WasmModule::new()
    }
}

/// Appends `before`, name, `after` for each name.
fn write_names(writer: &mut String, before: &str, names: &Vec<String>, after: &str)
    ensures
        final(writer)@ == old(writer)@ + names_text(
            before@,
            names@.map_values(|name: String| name@),
            after@,
        ),
{
    let ghost all = names@.map_values(|name: String| name@);
    let mut i: usize = 0;
    proof {
        assert(all.subrange(0, 0) =~= Seq::<Seq<char>>::empty());
        assert(writer@ =~= old(writer)@ + names_text(before@, all.subrange(0, 0), after@));
    }
    while i < names.len()
        invariant
            i <= names.len(),
            all == names@.map_values(|name: String| name@),
            writer@ == old(writer)@ + names_text(before@, all.subrange(0, i as int), after@),
        decreases names.len() - i,
    {
        let ghost written = writer@;
        writer.append(before);
        writer.append(names[i].as_str());
        writer.append(after);
        proof {
            assert(all.subrange(0, i + 1).drop_last() =~= all.subrange(0, i as int));
            assert(all.subrange(0, i + 1).last() == names[i as int]@);
            assert(writer@ =~= written + (before@ + names[i as int]@ + after@));
        }
        i += 1;
        assert(writer@ =~= old(writer)@ + names_text(before@, all.subrange(0, i as int), after@));
    }
    proof {
        assert(all.subrange(0, i as int) =~= all);
    }
}

/// Appends the result clause of a function.
fn write_result(writer: &mut String, return_type: Option<WasmType>)
    ensures
        final(writer)@ == old(writer)@ + result_text(return_type),
{
    match return_type {
        Some(wasm_type) => {
            writer.append(" (result ");
            writer.append(wasm_type.to_wasm_text());
            writer.append(")");
            assert(writer@ =~= old(writer)@ + result_text(return_type));
        },
        None => {
            assert(writer@ =~= old(writer)@ + result_text(return_type));
        },
    }
}

impl WasmFunction {
    /// Appends the text up to the instructions.
    fn write_head(&self, writer: &mut String, format: WasmIndentation)
        ensures
            final(writer)@ == old(writer)@ + (new_line(format.width()) + "(func $"@ + self@.name
                + names_text(" (param $"@, self@.params, " i32)"@) + result_text(
                self@.return_type,
            ) + names_text(" (local $"@, self@.local_variables, " i32)"@)),
    {
        let ghost start = writer@;
        format.new_line_with_indent(writer);
        writer.append("(func $");
        writer.append(self.name.as_str());
        let ghost named = writer@;
        assert(named =~= start + (new_line(format.width()) + "(func $"@ + self@.name));
        write_names(writer, " (param $", &self.params, " i32)");
        write_result(writer, self.return_type);
        write_names(writer, " (local $", self.local_variables.names(), " i32)");
        assert(writer@ =~= start + (new_line(format.width()) + "(func $"@ + self@.name
            + names_text(" (param $"@, self@.params, " i32)"@) + result_text(self@.return_type)
            + names_text(" (local $"@, self@.local_variables, " i32)"@)));
    }
}

impl Wasm for WasmFunction {
    open spec fn text(&self, indent: nat) -> Seq<char> {
        function_text(self@, indent)
    }

    open spec fn reach(&self) -> nat {
        function_reach(self@)
    }

    fn fits(&self, format: WasmIndentation) -> (ok: bool) {
        format.spaces() <= u32::MAX - 2 && block_within(&self.body, u32::MAX - 2 - format.spaces())
    }

    fn write_text(&self, writer: &mut String, format: WasmIndentation) {
        let ghost start = writer@;
        self.write_head(writer, format);
        let ghost headed = writer@;
        let body_format = format.increase_indent();
        write_block(&self.body, writer, body_format);
        writer.append(")");
        assert(writer@ =~= start + function_text(self@, format.width()));
    }
}

impl Wasm for WasmExport {
    open spec fn text(&self, indent: nat) -> Seq<char> {
        export_text(self@, indent)
    }

    open spec fn reach(&self) -> nat {
        0
    }

    fn fits(&self, format: WasmIndentation) -> (ok: bool) {
        proof {
            format.lemma_width_fits();
        }
        true
    }

    fn write_text(&self, writer: &mut String, format: WasmIndentation) {
        format.new_line_with_indent(writer);
        match self {
            WasmExport::Function { wasm_name, exported_name } => {
                writer.append("(export \"");
                writer.append(exported_name.as_str());
                writer.append("\" (func $");
                writer.append(wasm_name.as_str());
                writer.append("))");
            },
        }
        assert(writer@ =~= old(writer)@ + export_text(self@, format.width()));
    }
}

/// The reach of functions is at least that of each of them.
pub proof fn lemma_functions_reach(functions: Seq<WasmFunctionView>, i: int)
    requires
        0 <= i < functions.len(),
    ensures
        function_reach(functions[i]) <= functions_reach(functions),
        functions_reach(functions.subrange(0, i)) <= functions_reach(functions),
    decreases functions.len(),
{
    if i < functions.len() - 1 {
        lemma_functions_reach(functions.drop_last(), i);
        assert(functions.drop_last().subrange(0, i) =~= functions.subrange(0, i));
    } else {
        assert(functions.drop_last() =~= functions.subrange(0, i));
    }
}

impl WasmModule {
    /// Appends the texts of the functions.
    fn write_functions(&self, writer: &mut String, format: WasmIndentation)
        requires
            format.width() + functions_reach(self@.functions) <= u32::MAX,
        ensures
            final(writer)@ == old(writer)@ + functions_text(self@.functions, format.width()),
    {
        let ghost all = self@.functions;
        let mut i: usize = 0;
        proof {
            assert(all.subrange(0, 0) =~= Seq::<WasmFunctionView>::empty());
            assert(writer@ =~= old(writer)@ + functions_text(all.subrange(0, 0), format.width()));
        }
        while i < self.functions.len()
            invariant
                i <= self.functions.len(),
                all == self@.functions,
                format.width() + functions_reach(all) <= u32::MAX,
                writer@ == old(writer)@ + functions_text(all.subrange(0, i as int), format.width()),
            decreases self.functions.len() - i,
        {
            proof {
                lemma_functions_reach(all, i as int);
                assert(all.subrange(0, i + 1).drop_last() =~= all.subrange(0, i as int));
                assert(all.subrange(0, i + 1).last() == self.functions[i as int]@);
            }
            self.functions[i].write_text(writer, format);
            i += 1;
            assert(writer@ =~= old(writer)@ + functions_text(
                all.subrange(0, i as int),
                format.width(),
            ));
        }
        proof {
            assert(all.subrange(0, i as int) =~= all);
        }
    }

    /// Appends the texts of the exports.
    fn write_exports(&self, writer: &mut String, format: WasmIndentation)
        ensures
            final(writer)@ == old(writer)@ + exports_text(self@.exports, format.width()),
    {
        let ghost all = self@.exports;
        let mut i: usize = 0;
        proof {
            format.lemma_width_fits();
            assert(all.subrange(0, 0) =~= Seq::<WasmExportView>::empty());
            assert(writer@ =~= old(writer)@ + exports_text(all.subrange(0, 0), format.width()));
        }
        while i < self.exports.len()
            invariant
                i <= self.exports.len(),
                all == self@.exports,
                format.width() <= u32::MAX,
                writer@ == old(writer)@ + exports_text(all.subrange(0, i as int), format.width()),
            decreases self.exports.len() - i,
        {
            proof {
                assert(all.subrange(0, i + 1).drop_last() =~= all.subrange(0, i as int));
                assert(all.subrange(0, i + 1).last() == self.exports[i as int]@);
            }
            self.exports[i].write_text(writer, format);
            i += 1;
            assert(writer@ =~= old(writer)@ + exports_text(
                all.subrange(0, i as int),
                format.width(),
            ));
        }
        proof {
            assert(all.subrange(0, i as int) =~= all);
        }
    }

    /// Whether no function reaches deeper than `limit`.
    fn functions_within(&self, limit: u32) -> (ok: bool)
        ensures
            ok == (functions_reach(self@.functions) <= limit),
    {
        let ghost all = self@.functions;
        let mut i: usize = 0;
        proof {
            assert(all.subrange(0, 0) =~= Seq::<WasmFunctionView>::empty());
        }
        while i < self.functions.len()
            invariant
                i <= self.functions.len(),
                all == self@.functions,
                functions_reach(all.subrange(0, i as int)) <= limit,
            decreases self.functions.len() - i,
        {
            proof {
                lemma_functions_reach(all, i as int);
                assert(all.subrange(0, i + 1).drop_last() =~= all.subrange(0, i as int));
                assert(all.subrange(0, i + 1).last() == self.functions[i as int]@);
            }
            if limit < 2 || !block_within(&self.functions[i].body, limit - 2) {
                return false;
            }
            i += 1;
        }
        proof {
            assert(all.subrange(0, i as int) =~= all);
        }
        true
    }
}

impl Wasm for WasmModule {
    open spec fn text(&self, indent: nat) -> Seq<char> {
        module_text(self@, indent)
    }

    open spec fn reach(&self) -> nat {
        module_reach(self@)
    }

    fn fits(&self, format: WasmIndentation) -> (ok: bool) {
        format.spaces() <= u32::MAX - 2 && self.functions_within(u32::MAX - 2 - format.spaces())
    }

    fn write_text(&self, writer: &mut String, format: WasmIndentation) {
        writer.append("(module");
        let body_format = format.increase_indent();
        self.write_functions(writer, body_format);
        self.write_exports(writer, body_format);
        writer.append(")");
        assert(writer@ =~= old(writer)@ + module_text(self@, format.width()));
    }
}

} // verus!
