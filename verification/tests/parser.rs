use compiler_core::ast::{
    Ast, CodeBlockStatement, Declaration, Expression, TopLevelStatement,
};
use compiler_core::binding_power::{BindingPower, ExpressionToken};
use compiler_core::keywords::Keyword;
use compiler_core::operators::BinaryOperator;
use compiler_core::parser::{parse, parse_iter, ParseError};
use compiler_core::tokeniser::TokeniserError;
use compiler_core::tokens::{Constant, Token};

fn show(expr: &Expression) -> String {
    match expr {
        Expression::Variable(name) => name.clone(),
        Expression::Constant(Constant::Int(value)) => format!("{}", value),
        Expression::Constant(Constant::Float(digits)) => digits.clone(),
        Expression::Constant(Constant::Str(text)) => format!("{:?}", text),
        Expression::FunctionCall { name, args } => {
            let args: Vec<String> = args.iter().map(show).collect();
            format!("{}({})", name, args.join(", "))
        }
        Expression::BinaryOp { left, operator, right } => {
            format!("({} {:?} {})", show(left), operator, show(right))
        }
        Expression::Negation(operand) => format!("(neg {})", show(operand)),
    }
}

fn show_block(block: &[CodeBlockStatement]) -> String {
    let statements: Vec<String> = block.iter().map(show_statement).collect();
    format!("{{{}}}", statements.join("; "))
}

fn show_statement(statement: &CodeBlockStatement) -> String {
    match statement {
        CodeBlockStatement::Declaration(decl) => show_declaration(decl),
        CodeBlockStatement::BareExpression(expr) => show(expr),
        CodeBlockStatement::IfStatement { cases, else_case } => {
            let mut out = String::new();
            for case in cases {
                out.push_str(&format!("if {} {} ", show(&case.condition), show_block(&case.block)));
            }
            if let Some(block) = else_case {
                out.push_str(&format!("else {}", show_block(block)));
            }
            out.trim_end().to_string()
        }
    }
}

fn show_declaration(decl: &Declaration) -> String {
    match decl {
        Declaration::Assignment { name, expr } => format!("{} = {}", name, show(expr)),
        Declaration::FunctionDecl { name, arguments, body } => {
            let args: Vec<&str> = arguments.args.iter().map(|arg| arg.name.as_str()).collect();
            format!("fn {}({}) {}", name, args.join(", "), show_block(body))
        }
    }
}

fn show_ast(ast: &Ast) -> Vec<String> {
    ast.statements
        .iter()
        .map(|statement| match statement {
            TopLevelStatement::Declaration { decl, exported } => {
                format!("{}{}", if *exported { "export " } else { "" }, show_declaration(decl))
            }
        })
        .collect()
}

fn parsed(source: &str) -> Vec<String> {
    match parse(source) {
        Ok(ast) => show_ast(&ast),
        Err(error) => panic!("{:?}", error),
    }
}

fn error_of(source: &str) -> ParseError {
    match parse(source) {
        Ok(ast) => panic!("parsed to {:?}", show_ast(&ast)),
        Err(error) => error,
    }
}

#[test]
fn empty_source_is_an_empty_program() {
    assert_eq!(parsed(""), Vec::<String>::new());
    assert_eq!(parsed("\n\n"), Vec::<String>::new());
}

#[test]
fn multiplication_binds_tighter_than_addition() {
    assert_eq!(parsed("x = 1 + 2 * 3"), vec!["x = (1 Plus (2 Multiply 3))"]);
    assert_eq!(parsed("x = 1 * 2 + 3"), vec!["x = ((1 Multiply 2) Plus 3)"]);
    assert_eq!(parsed("x = 1 - 2 * 3"), vec!["x = (1 Minus (2 Multiply 3))"]);
    assert_eq!(parsed("x = 8 / 2 - 1"), vec!["x = ((8 Divide 2) Minus 1)"]);
}

#[test]
fn operators_of_equal_power_group_to_the_left() {
    assert_eq!(parsed("x = 1 - 2 - 3"), vec!["x = ((1 Minus 2) Minus 3)"]);
    assert_eq!(parsed("x = 8 / 4 * 2"), vec!["x = ((8 Divide 4) Multiply 2)"]);
    assert_eq!(parsed("x = 1 + 2 - 3 + 4"), vec!["x = (((1 Plus 2) Minus 3) Plus 4)"]);
}

#[test]
fn double_equals_binds_tightest_of_the_binary_operators() {
    assert_eq!(parsed("x = a + b == c * d"), vec!["x = (a Plus ((b DoubleEquals c) Multiply d))"]);
    assert_eq!(parsed("x = n == 0"), vec!["x = (n DoubleEquals 0)"]);
}

#[test]
fn negation_binds_tighter_than_multiplication() {
    assert_eq!(parsed("y = -3 * 4"), vec!["y = ((neg 3) Multiply 4)"]);
    assert_eq!(parsed("y = - a == b"), vec!["y = ((neg a) DoubleEquals b)"]);
    assert_eq!(parsed("y = 2 - -3"), vec!["y = (2 Minus (neg 3))"]);
}

#[test]
fn brackets_group() {
    assert_eq!(parsed("x = (1 + 2) * 3"), vec!["x = ((1 Plus 2) Multiply 3)"]);
    assert_eq!(parsed("x = ((a))"), vec!["x = a"]);
}

#[test]
fn function_calls() {
    assert_eq!(parsed("x = f()"), vec!["x = f()"]);
    assert_eq!(parsed("x = f(1, a + 2, g(b))"), vec!["x = f(1, (a Plus 2), g(b))"]);
    assert_eq!(parsed("x = f(1 2)"), vec!["x = f(1, 2)"]);
    assert_eq!(parsed("x = f(a) + 1"), vec!["x = (f(a) Plus 1)"]);
}

#[test]
fn constants() {
    assert_eq!(parsed("x = \"hi\""), vec!["x = \"hi\""]);
    assert_eq!(parsed("x = 1.5"), vec!["x = 1.5"]);
}

#[test]
fn function_declarations() {
    assert_eq!(parsed("fn f()\n  1\n"), vec!["fn f() {1}"]);
    assert_eq!(parsed("fn add(a, b)\n  a + b"), vec!["fn add(a, b) {(a Plus b)}"]);
    assert_eq!(parsed("fn add(a b,)\n  a"), vec!["fn add(a, b) {a}"]);
    assert_eq!(
        parsed("export fn main()\n  x = 1\n  (x)\nfn g()\n  2\n"),
        vec!["export fn main() {x = 1; x}", "fn g() {2}"]
    );
    assert_eq!(parsed("export x = 1"), vec!["export x = 1"]);
}

#[test]
fn nested_function_declarations_are_parsed() {
    assert_eq!(parsed("fn f()\n  fn g()\n    1\n  g()\n"), vec!["fn f() {fn g() {1}; g()}"]);
}

#[test]
fn if_statements() {
    assert_eq!(parsed("fn f(n)\n  if n\n    1\n"), vec!["fn f(n) {if n {1}}"]);
    assert_eq!(
        parsed("fn f(n)\n  if n\n    1\n  else\n    2\n"),
        vec!["fn f(n) {if n {1} else {2}}"]
    );
    assert_eq!(
        parsed("fn f(n)\n  if n == 0\n    0\n  else if n == 1\n    1\n  else\n    2\n  3\n"),
        vec!["fn f(n) {if (n DoubleEquals 0) {0} if (n DoubleEquals 1) {1} else {2}; 3}"]
    );
    assert_eq!(
        parsed("fn f(n)\n  if a\n    1\n  else if b\n    2\n  else if c\n    3\n"),
        vec!["fn f(n) {if a {1} if b {2} if c {3}}"]
    );
}

#[test]
fn fibonacci_is_parsed() {
    let source = "export fn main(n)\n  if n == 0\n    0\n  else if n == 1\n    1\n  else\n    main(n - 1) + main(n - 2)\n";
    assert_eq!(
        parsed(source),
        vec![
            "export fn main(n) {if (n DoubleEquals 0) {0} if (n DoubleEquals 1) {1} else {(main((n Minus 1)) Plus main((n Minus 2)))}}"
        ]
    );
}

#[test]
fn export_twice_is_an_error() {
    match error_of("export export fn f()\n  1\n") {
        ParseError::UnexpectedToken(Token::Keyword(Keyword::Export), context) => {
            assert_eq!(context, "export specified twice")
        }
        other => panic!("{:?}", other),
    }
}

#[test]
fn unexpected_tokens_name_their_rule() {
    match error_of("+") {
        ParseError::UnexpectedToken(Token::BinOp(BinaryOperator::Plus), context) => {
            assert_eq!(context, "top level statement")
        }
        other => panic!("{:?}", other),
    }
    match error_of("if x\n  1\n") {
        ParseError::UnexpectedToken(Token::Keyword(Keyword::If), context) => {
            assert_eq!(context, "top level statement")
        }
        other => panic!("{:?}", other),
    }
    match error_of("x 1") {
        ParseError::UnexpectedToken(Token::Constant(Constant::Int(1)), context) => {
            assert_eq!(context, "top level assignment")
        }
        other => panic!("{:?}", other),
    }
    match error_of("fn f()\n  -3\n") {
        ParseError::UnexpectedToken(Token::BinOp(BinaryOperator::Minus), context) => {
            assert_eq!(context, "function body")
        }
        other => panic!("{:?}", other),
    }
    match error_of("x = (1 2") {
        ParseError::UnexpectedToken(Token::Constant(Constant::Int(2)), context) => {
            assert_eq!(context, "parsing expression in brackets")
        }
        other => panic!("{:?}", other),
    }
    match error_of("x = *") {
        ParseError::UnexpectedToken(Token::BinOp(BinaryOperator::Multiply), context) => {
            assert_eq!(context, "null denotation of expression token")
        }
        other => panic!("{:?}", other),
    }
}

#[test]
fn end_of_input_errors() {
    assert!(matches!(error_of("x"), ParseError::UnexpectedEndOfInput));
    assert!(matches!(error_of("x ="), ParseError::UnexpectedEndOfInput));
    assert!(matches!(error_of("x = 1 +"), ParseError::UnexpectedEndOfInput));
    assert!(matches!(error_of("x = (1"), ParseError::UnexpectedEndOfInput));
    assert!(matches!(error_of("x = f(1"), ParseError::UnexpectedEndOfInput));
}

#[test]
fn function_errors() {
    assert!(matches!(error_of("fn"), ParseError::FunctionParseError));
    assert!(matches!(error_of("fn 1"), ParseError::FunctionParseError));
    assert!(matches!(error_of("fn f"), ParseError::ErrorParsingFunctionArgs));
    assert!(matches!(error_of("fn f 1"), ParseError::ErrorParsingFunctionArgs));
    assert!(matches!(error_of("fn f(1)"), ParseError::ErrorParsingFunctionArgs));
    assert!(matches!(error_of("fn f(a"), ParseError::ErrorParsingFunctionArgs));
    assert!(matches!(error_of("fn f()"), ParseError::IndentExpectedError));
    assert!(matches!(error_of("fn f() 1"), ParseError::IndentExpectedError));
    assert!(matches!(error_of("fn f()\n  if x 1\n"), ParseError::IndentExpectedError));
}

#[test]
fn tokeniser_errors_are_lifted() {
    assert!(matches!(
        error_of("x = \"abc"),
        ParseError::TokeniserError(TokeniserError::UnterminatedString)
    ));
    assert!(matches!(
        error_of("x = 1 \"abc"),
        ParseError::TokeniserError(TokeniserError::UnterminatedString)
    ));
    assert!(matches!(
        error_of("x = #"),
        ParseError::TokeniserError(TokeniserError::UnexpectedCharacter('#'))
    ));
    assert!(matches!(
        error_of("x = 99999999999999999999"),
        ParseError::TokeniserError(TokeniserError::InvalidNumber)
    ));
}

#[test]
fn earlier_parse_error_wins_over_later_lexical_error() {
    assert!(matches!(error_of("fn 1 \"abc"), ParseError::FunctionParseError));
}

#[test]
fn statements_are_pulled_one_by_one() {
    let mut parser = parse_iter("x = 1\nexport fn f()\n  2\ny = 3\n");
    let mut seen = Vec::new();
    while let Some(statement) = parser.next() {
        match statement {
            Ok(TopLevelStatement::Declaration { decl, exported }) => {
                seen.push(format!("{} {}", exported, show_declaration(&decl)))
            }
            Err(error) => panic!("{:?}", error),
        }
    }
    assert_eq!(seen, vec!["false x = 1", "true fn f() {2}", "false y = 3"]);
    assert!(parser.next().is_none());

    let collected = parsed("x = 1\nexport fn f()\n  2\ny = 3\n");
    assert_eq!(collected, vec!["x = 1", "export fn f() {2}", "y = 3"]);
}

#[test]
fn binding_powers() {
    assert_eq!(BindingPower::negation(), BindingPower(100));
    assert_eq!(BindingPower::negation().value(), 100);
    assert_eq!(BindingPower::default(), BindingPower(0));
    assert_eq!(BinaryOperator::Plus.binding_power(), BindingPower(50));
    assert_eq!(BinaryOperator::Minus.binding_power(), BindingPower(50));
    assert_eq!(BinaryOperator::Multiply.binding_power(), BindingPower(60));
    assert_eq!(BinaryOperator::Divide.binding_power(), BindingPower(60));
    assert_eq!(BinaryOperator::DoubleEquals.binding_power(), BindingPower(90));
    assert_eq!(Token::BinOp(BinaryOperator::Divide).binding_power(), BindingPower(60));
    assert_eq!(Token::OpenParen.binding_power(), BindingPower(0));
    assert_eq!(Token::Name("x".to_string()).binding_power(), BindingPower(0));
}

#[test]
fn ast_is_built_by_appending() {
    let mut ast = Ast::new();
    assert_eq!(ast.statements.len(), 0);
    ast.append_statement(TopLevelStatement::Declaration {
        decl: Declaration::Assignment {
            name: "x".to_string(),
            expr: Expression::Constant(Constant::Int(1)),
        },
        exported: true,
    });
    assert_eq!(show_ast(&ast), vec!["export x = 1"]);
    match &ast.statements[0] {
        TopLevelStatement::Declaration { decl, .. } => assert_eq!(decl.name(), "x"),
    }
    assert_eq!(Ast::default().statements.len(), 0);
}

#[test]
fn parser_stands_behind_what_it_took_after_an_error() {
    let mut parser = parse_iter("+ x = 1\n");
    assert!(matches!(
        parser.next(),
        Some(Err(ParseError::UnexpectedToken(Token::BinOp(BinaryOperator::Plus), _)))
    ));
    match parser.next() {
        Some(Ok(TopLevelStatement::Declaration { decl, .. })) => {
            assert_eq!(show_declaration(&decl), "x = 1")
        }
        other => panic!("{:?}", other),
    }
    assert!(parser.next().is_none());
}
