//! A compiler from a small indentation-sensitive language to the WebAssembly
//! text format: tokeniser, Pratt parser, lowering pass and text emitter.

pub mod analyser;
pub mod ast;
pub mod binding_power;
pub mod code_gen;
pub mod code_gen_laws;
pub mod grammar;
pub mod grammar_laws;
pub mod indent_stack;
pub mod keywords;
pub mod name_set;
pub mod operators;
pub mod order;
pub mod parser;
pub mod text;
pub mod tokeniser;
pub mod tokens;
pub mod wasm;

use crate::code_gen::{ast_to_wasm, lower_program, CodeGenError};
use crate::grammar::{parse_source, ParseErrorView};
use crate::parser::{parse, ParseError};
use crate::ast::TopLevelView;
use crate::tokeniser::lex;
use crate::wasm::{module_reach, module_text, Wasm, WasmIndentation, WasmModuleView};
use vstd::prelude::*;

verus! {

/// Why a source text was not compiled.
#[derive(Debug)]
pub enum CompileError {
    ParseError(ParseError),
    CodeGenError(CodeGenError),
    /// The module cannot be written: it nests so deep that its indentation
    /// does not fit in a `u32`.
    FmtError,
}

/// A `CompileError` as a mathematical value.
pub enum CompileErrorView {
    ParseError(ParseErrorView),
    CodeGenError(CodeGenError),
    FmtError,
}

impl View for CompileError {
    type V = CompileErrorView;

    open spec fn view(&self) -> CompileErrorView {
        match self {
            CompileError::ParseError(error) => CompileErrorView::ParseError(error@),
            CompileError::CodeGenError(error) => CompileErrorView::CodeGenError(*error),
            CompileError::FmtError => CompileErrorView::FmtError,
        }
    }
}

impl From<ParseError> for CompileError {
    fn from(error: ParseError) -> (lifted: CompileError) {
        CompileError::ParseError(error)
    }
}

impl vstd::std_specs::convert::FromSpecImpl<ParseError> for CompileError {
    open spec fn obeys_from_spec() -> bool {
        true
    }

    open spec fn from_spec(error: ParseError) -> CompileError {
        CompileError::ParseError(error)
    }
}

impl From<CodeGenError> for CompileError {
    fn from(error: CodeGenError) -> (lifted: CompileError) {
        CompileError::CodeGenError(error)
    }
}

impl vstd::std_specs::convert::FromSpecImpl<CodeGenError> for CompileError {
    open spec fn obeys_from_spec() -> bool {
        true
    }

    open spec fn from_spec(error: CodeGenError) -> CompileError {
        CompileError::CodeGenError(error)
    }
}

/// What a source text compiles to: the text of the module that its program
/// is lowered to, or the first error of parsing, of lowering, or of writing.
pub open spec fn compile_text(src: Seq<char>) -> Result<Seq<char>, CompileErrorView> {
    match parse_source(src) {
        Ok(program) => match lower_program(program) {
            Ok(module) => if module_reach(module) <= u32::MAX {
                Ok(module_text(module, 0))
            } else {
                Err(CompileErrorView::FmtError)
            },
            Err(error) => Err(CompileErrorView::CodeGenError(error)),
        },
        Err(error) => Err(CompileErrorView::ParseError(error)),
    }
}

/// What a compilation gave, as a mathematical value.
pub open spec fn outcome(r: Result<String, CompileError>) -> Result<Seq<char>, CompileErrorView> {
    match r {
        Ok(text) => Ok(text@),
        Err(error) => Err(error@),
    }
}

/// Compiles a source text to a module in the WebAssembly text format.
pub fn compile(source: &str) -> (r: Result<String, CompileError>)
    ensures
        outcome(r) == compile_text(source@),
{
    let mut out = String::new();
    let ast = match parse(source) {
        Ok(ast) => ast,
        Err(error) => {
            return Err(CompileError::ParseError(error));
        },
    };
    let wasm = match ast_to_wasm(&ast) {
        Ok(wasm) => wasm,
        Err(error) => {
            return Err(CompileError::CodeGenError(error));
        },
    };
    let format = WasmIndentation::default();
    if !wasm.fits(format) {
        return Err(CompileError::FmtError);
    }
    wasm.write_text(&mut out, format);
    proof {
        assert(out@ =~= module_text(wasm@, 0));
    }
    Ok(out)
}

/// Compiling is deterministic: two compilations of source texts that hold
/// the same characters give the same text, or the same error.
pub proof fn lemma_compile_deterministic(
    first: Result<String, CompileError>,
    second: Result<String, CompileError>,
    first_source: Seq<char>,
    second_source: Seq<char>,
)
    requires
        outcome(first) == compile_text(first_source),
        outcome(second) == compile_text(second_source),
        first_source == second_source,
    ensures
        outcome(first) == outcome(second),
{
}

/// The empty source text compiles to the module without functions.
pub proof fn lemma_empty_source()
    ensures
        compile_text(Seq::empty()) == Ok::<Seq<char>, CompileErrorView>("(module)"@),
{
    let src = Seq::<char>::empty();
    assert(lex(src) =~= Seq::empty());
    let module = WasmModuleView { functions: Seq::empty(), exports: Seq::empty() };
    assert(parse_source(src) == Ok::<Seq<TopLevelView>, ParseErrorView>(Seq::empty()));
    assert(lower_program(Seq::empty()) == Ok::<WasmModuleView, CodeGenError>(module));
    reveal_strlit("(module");
    reveal_strlit(")");
    reveal_strlit("(module)");
    assert(module_text(module, 0) =~= "(module)"@);
}

} // verus!
