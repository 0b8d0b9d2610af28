use compiler_core::keywords::{get_matching_keyword, Keyword};
use compiler_core::operators::BinaryOperator;
use compiler_core::tokeniser::{classify, symbol, tokenise, CharClass, TokeniserError};
use compiler_core::tokens::{Constant, Token};

fn lex(source: &str) -> Vec<String> {
    let mut tokeniser = tokenise(source);
    let mut items = Vec::new();
    while let Some(item) = tokeniser.next() {
        items.push(match item {
            Ok(token) => format!("{:?}", token),
            Err(error) => format!("!{:?}", error),
        });
        assert!(items.len() < 10_000);
    }
    assert!(tokeniser.next().is_none());
    items
}

fn count(items: &[String], what: &str) -> usize {
    items.iter().filter(|item| item.as_str() == what).count()
}

#[test]
fn empty_source_has_no_tokens() {
    assert_eq!(lex(""), Vec::<String>::new());
    assert_eq!(lex("   "), Vec::<String>::new());
    assert_eq!(lex("\n\n  \n"), Vec::<String>::new());
}

#[test]
fn single_character_tokens() {
    assert_eq!(
        lex("( ) : | , + * - /"),
        vec![
            "OpenParen",
            "CloseParen",
            "Colon",
            "Pipe",
            "Comma",
            "BinOp(Plus)",
            "BinOp(Multiply)",
            "BinOp(Minus)",
            "BinOp(Divide)"
        ]
    );
}

#[test]
fn equals_is_disambiguated() {
    assert_eq!(lex("= => == ="), vec!["Equals", "FatRightArrow", "BinOp(DoubleEquals)", "Equals"]);
    assert_eq!(lex("==="), vec!["BinOp(DoubleEquals)", "Equals"]);
}

#[test]
fn names_and_keywords() {
    assert_eq!(
        lex("import export type fn if else iff my_name x"),
        vec![
            "Keyword(Import)",
            "Keyword(Export)",
            "Keyword(Type)",
            "Keyword(Function)",
            "Keyword(If)",
            "Keyword(Else)",
            "Name(\"iff\")",
            "Name(\"my_name\")",
            "Name(\"x\")"
        ]
    );
}

#[test]
fn name_at_end_of_input_is_whole() {
    assert_eq!(lex("abc"), vec!["Name(\"abc\")"]);
    assert_eq!(lex("é"), vec!["Name(\"é\")"]);
    assert_eq!(lex("123"), vec!["Constant(Int(123))"]);
}

#[test]
fn numbers() {
    assert_eq!(
        lex("0 42 007 9223372036854775807 1.5 3. 1.2.3"),
        vec![
            "Constant(Int(0))",
            "Constant(Int(42))",
            "Constant(Int(7))",
            "Constant(Int(9223372036854775807))",
            "Constant(Float(\"1.5\"))",
            "Constant(Float(\"3.\"))",
            "Constant(Float(\"1.2\"))",
            "!UnexpectedCharacter('.')"
        ]
    );
}

#[test]
fn numbers_that_are_no_literals() {
    assert_eq!(lex("9223372036854775808"), vec!["!InvalidNumber"]);
    assert_eq!(lex("99999999999999999999999999"), vec!["!InvalidNumber"]);
    assert_eq!(lex("٣"), vec!["!InvalidNumber"]);
    assert_eq!(lex("1.٣"), vec!["!InvalidNumber"]);
}

#[test]
fn unexpected_characters() {
    assert_eq!(lex("#"), vec!["!UnexpectedCharacter('#')"]);
    assert_eq!(lex("a\tb"), vec!["Name(\"a\")", "!UnexpectedCharacter('\\t')"]);
    assert_eq!(lex("_x"), vec!["!UnexpectedCharacter('_')"]);
}

#[test]
fn string_constants() {
    assert_eq!(lex("\"hello world\""), vec!["Constant(Str(\"hello world\"))"]);
    assert_eq!(lex("\"\" \"a\\n\""), vec!["Constant(Str(\"\"))", "Constant(Str(\"a\\\\n\"))"]);
}

#[test]
fn unterminated_string_is_a_lexical_error() {
    assert_eq!(lex("\"abc"), vec!["!UnterminatedString"]);
    let mut tokeniser = tokenise("\"abc");
    match tokeniser.next() {
        Some(Err(TokeniserError::UnterminatedString)) => {}
        other => panic!("unexpected {:?}", other),
    }
    assert!(tokeniser.next().is_none());
}

#[test]
fn indentation_becomes_tokens() {
    assert_eq!(
        lex("fn f()\n  1\n  2\n"),
        vec![
            "Keyword(Function)",
            "Name(\"f\")",
            "OpenParen",
            "CloseParen",
            "IndentIncr",
            "Constant(Int(1))",
            "Constant(Int(2))",
            "IndentDecr"
        ]
    );
}

#[test]
fn nested_indentation_closes_level_by_level() {
    assert_eq!(
        lex("a\n  b\n    c\nd"),
        vec![
            "Name(\"a\")",
            "IndentIncr",
            "Name(\"b\")",
            "IndentIncr",
            "Name(\"c\")",
            "IndentDecr",
            "IndentDecr",
            "Name(\"d\")"
        ]
    );
}

#[test]
fn blank_lines_do_not_change_the_level() {
    assert_eq!(
        lex("a\n  b\n\n      \n  c\r\n  d"),
        vec!["Name(\"a\")", "IndentIncr", "Name(\"b\")", "Name(\"c\")", "Name(\"d\")", "IndentDecr"]
    );
}

#[test]
fn partial_dedent_closes_one_level() {
    assert_eq!(
        lex("a\n  b\n      c\n    d"),
        vec![
            "Name(\"a\")",
            "IndentIncr",
            "Name(\"b\")",
            "IndentIncr",
            "Name(\"c\")",
            "IndentDecr",
            "Name(\"d\")",
            "IndentDecr"
        ]
    );
}

#[test]
fn open_levels_are_closed_at_end_of_input() {
    assert_eq!(
        lex("a\n  b\n    c"),
        vec![
            "Name(\"a\")",
            "IndentIncr",
            "Name(\"b\")",
            "IndentIncr",
            "Name(\"c\")",
            "IndentDecr",
            "IndentDecr"
        ]
    );
}

#[test]
fn increments_and_decrements_balance() {
    let sources = [
        "",
        "a",
        "a\n  b",
        "a\n  b\n    c\n  d\ne",
        "a\n    b\n  c\n      d\n\n",
        "fn f()\n  if a\n    1\n  else\n    2\n",
        "  a\n b\n   c",
    ];
    for source in sources {
        let items = lex(source);
        assert_eq!(count(&items, "IndentIncr"), count(&items, "IndentDecr"), "{:?}", source);
    }
}

#[test]
fn fibonacci_tokens() {
    let source = "export fn main(n)\n  if n == 0\n    0\n  else if n == 1\n    1\n  else\n    main(n - 1) + main(n - 2)\n";
    let items = lex(source);
    assert_eq!(items.len(), 39);
    assert_eq!(items[0], "Keyword(Export)");
    assert_eq!(items[6], "IndentIncr");
    assert_eq!(items[7], "Keyword(If)");
    assert_eq!(items[9], "BinOp(DoubleEquals)");
    assert_eq!(items[11], "IndentIncr");
    assert_eq!(items[13], "IndentDecr");
    assert_eq!(items[14], "Keyword(Else)");
    assert_eq!(&items[36..], ["CloseParen", "IndentDecr", "IndentDecr"]);
}

#[test]
fn keyword_lookup() {
    assert_eq!(get_matching_keyword("import"), Some(Keyword::Import));
    assert_eq!(get_matching_keyword("export"), Some(Keyword::Export));
    assert_eq!(get_matching_keyword("type"), Some(Keyword::Type));
    assert_eq!(get_matching_keyword("fn"), Some(Keyword::Function));
    assert_eq!(get_matching_keyword("if"), Some(Keyword::If));
    assert_eq!(get_matching_keyword("else"), Some(Keyword::Else));
    assert_eq!(get_matching_keyword("elsee"), None);
    assert_eq!(get_matching_keyword(""), None);
    assert_eq!(get_matching_keyword("Fn"), None);
    for keyword in [
        Keyword::Import,
        Keyword::Export,
        Keyword::Type,
        Keyword::Function,
        Keyword::If,
        Keyword::Else,
    ] {
        assert_eq!(get_matching_keyword(keyword.as_str()), Some(keyword));
    }
}

#[test]
fn tokens_are_cloned_with_their_text() {
    let token = Token::Name("abc".to_string());
    match token.clone() {
        Token::Name(name) => assert_eq!(name, "abc"),
        other => panic!("unexpected {:?}", other),
    }
    let constant = Token::Constant(Constant::Float("1.5".to_string()));
    match constant.clone() {
        Token::Constant(Constant::Float(digits)) => assert_eq!(digits, "1.5"),
        other => panic!("unexpected {:?}", other),
    }
    match Token::BinOp(BinaryOperator::Divide).clone() {
        Token::BinOp(BinaryOperator::Divide) => {}
        other => panic!("unexpected {:?}", other),
    }
}

#[test]
fn a_lexical_error_halts_the_stream() {
    assert_eq!(
        lex("fn f()\n  \"abc"),
        vec![
            "Keyword(Function)",
            "Name(\"f\")",
            "OpenParen",
            "CloseParen",
            "IndentIncr",
            "!UnterminatedString"
        ]
    );
    assert_eq!(lex("(\n  \"abc"), vec!["OpenParen", "IndentIncr", "!UnterminatedString"]);
    assert_eq!(lex("a\n  #\n    b\nc"), vec!["Name(\"a\")", "IndentIncr", "!UnexpectedCharacter('#')"]);
    assert_eq!(lex("a\n  99999999999999999999 b"), vec!["Name(\"a\")", "IndentIncr", "!InvalidNumber"]);

    let mut tokeniser = tokenise("(\n  \"abc");
    assert!(matches!(tokeniser.next(), Some(Ok(Token::OpenParen))));
    assert!(matches!(tokeniser.next(), Some(Ok(Token::IndentIncr))));
    assert!(matches!(tokeniser.next(), Some(Err(TokeniserError::UnterminatedString))));
    for _ in 0..5 {
        assert!(tokeniser.next().is_none());
    }
}

#[test]
fn equal_indentation_gives_no_token() {
    assert_eq!(
        lex("a\n  (\n  (\n\n  b"),
        vec!["Name(\"a\")", "IndentIncr", "OpenParen", "OpenParen", "Name(\"b\")", "IndentDecr"]
    );
    assert_eq!(lex("(\n(\n   \n"), vec!["OpenParen", "OpenParen"]);
}

#[test]
fn characters_are_classified() {
    for c in ['(', ')', ':', '|', '+', '*', '-', '/', ','] {
        assert_eq!(classify(c, false, false), CharClass::Symbol);
        assert_eq!(classify(c, true, true), CharClass::Symbol);
        assert!(symbol(c).is_some());
    }
    assert!(matches!(symbol('('), Some(Token::OpenParen)));
    assert!(matches!(symbol(')'), Some(Token::CloseParen)));
    assert!(matches!(symbol(':'), Some(Token::Colon)));
    assert!(matches!(symbol('|'), Some(Token::Pipe)));
    assert!(matches!(symbol(','), Some(Token::Comma)));
    assert!(matches!(symbol('+'), Some(Token::BinOp(BinaryOperator::Plus))));
    assert!(matches!(symbol('*'), Some(Token::BinOp(BinaryOperator::Multiply))));
    assert!(matches!(symbol('-'), Some(Token::BinOp(BinaryOperator::Minus))));
    assert!(matches!(symbol('/'), Some(Token::BinOp(BinaryOperator::Divide))));
    assert!(symbol('=').is_none());
    assert!(symbol('a').is_none());
    assert_eq!(classify('"', true, true), CharClass::Quote);
    assert_eq!(classify('=', true, true), CharClass::Equals);
    assert_eq!(classify('x', true, false), CharClass::Word);
    assert_eq!(classify('x', true, true), CharClass::Word);
    assert_eq!(classify('7', false, true), CharClass::Number);
    assert_eq!(classify('#', false, false), CharClass::Unexpected);
}
