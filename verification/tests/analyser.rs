use compiler_core::analyser::{analyse, analyse_source, AnalyserError};
use compiler_core::code_gen::CodeGenError;
use compiler_core::parser::{parse, ParseError};
use compiler_core::tokeniser::TokeniserError;
use compiler_core::CompileError;

#[test]
fn duplicate_top_level_name() {
    match analyse_source("fn foo()\n  1\nfn foo()\n  2\n") {
        Err(AnalyserError::DuplicateVariable(name)) => assert_eq!(name, "foo"),
        other => panic!("{:?}", other),
    }
    match analyse_source("fn main()\n  1\na = 1\nb = 2\nb = 3\na = 4\n") {
        Err(AnalyserError::DuplicateVariable(name)) => assert_eq!(name, "b"),
        other => panic!("{:?}", other),
    }
}

#[test]
fn a_program_needs_a_main_function() {
    assert!(matches!(analyse_source(""), Err(AnalyserError::NoMain)));
    assert!(matches!(analyse_source("fn f()\n  1\n"), Err(AnalyserError::NoMain)));
    assert!(matches!(analyse_source("main = 1"), Err(AnalyserError::MainIsNotAFunction)));
    assert!(analyse_source("x = 1\nexport fn main(a, b)\n  a\n").is_ok());
}

#[test]
fn duplicate_parameter_of_main() {
    match analyse_source("fn main(a, b, a)\n  1\n") {
        Err(AnalyserError::DuplicateVariable(name)) => assert_eq!(name, "a"),
        other => panic!("{:?}", other),
    }
    match analyse_source("fn main(a, b, c, c, b)\n  1\n") {
        Err(AnalyserError::DuplicateVariable(name)) => assert_eq!(name, "c"),
        other => panic!("{:?}", other),
    }
}

#[test]
fn duplicate_declaration_is_reported_before_a_missing_main() {
    match analyse_source("x = 1\nx = 2\n") {
        Err(AnalyserError::DuplicateVariable(name)) => assert_eq!(name, "x"),
        other => panic!("{:?}", other),
    }
}

#[test]
fn parse_errors_are_lifted() {
    assert!(matches!(
        analyse_source("fn"),
        Err(AnalyserError::ParseError(ParseError::FunctionParseError))
    ));
}

#[test]
fn analysing_a_parsed_program() {
    let ast = parse("fn main()\n  1\n").unwrap();
    assert!(analyse(&ast).is_ok());
}

#[test]
fn errors_are_lifted_by_from() {
    assert!(matches!(
        ParseError::from(TokeniserError::UnterminatedString),
        ParseError::TokeniserError(TokeniserError::UnterminatedString)
    ));
    assert!(matches!(
        CompileError::from(ParseError::IndentExpectedError),
        CompileError::ParseError(ParseError::IndentExpectedError)
    ));
    assert!(matches!(
        CompileError::from(CodeGenError::StringsNotSupportedYet),
        CompileError::CodeGenError(CodeGenError::StringsNotSupportedYet)
    ));
    assert!(matches!(
        AnalyserError::from(ParseError::UnexpectedEndOfInput),
        AnalyserError::ParseError(ParseError::UnexpectedEndOfInput)
    ));
}
