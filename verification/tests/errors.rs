use elo::errors::{parse_error, semantic_error, type_error, ParseErrorCase, SemanticErrorCase, TypeErrorCase};
use elo::span::{FileSpan, InputFile, Span};

fn filespan() -> FileSpan<'static> {
    FileSpan { input_file: InputFile::new("main.elo", "fn main() {}\n"), line: 1, start: 3, end: 7 }
}

#[test]
fn unexpected_token_report() {
    let d = parse_error(ParseErrorCase::UnexpectedToken { got: "Newline".to_string(), expected: "identifier".to_string() });
    assert_eq!(d.title, "Parse Error");
    assert_eq!(d.message, "unexpected token: expected identifier but got Newline");
    assert!(d.help.is_none());
    assert!(d.submessage.is_none());
}

#[test]
fn invalid_character_literal_report() {
    let d = parse_error(ParseErrorCase::InvalidCharacterLiteral);
    assert_eq!(d.message, "invalid token found");
    assert_eq!(d.help.as_deref(), Some("if you meant to use str/string, use ' or \" instead of `"));
    assert_eq!(d.submessage.as_deref(), Some("invalid character literal"));
    let d = parse_error(ParseErrorCase::ExpectedStatement);
    assert_eq!(d.message, "expected statement after '=>', but found nothing");
}

#[test]
fn type_error_reports() {
    let d = type_error(TypeErrorCase::UnmatchedArguments { name: "f".to_string(), got: 3, expected: 12, too_much: true });
    assert_eq!(d.title, "Type Check Error");
    assert_eq!(d.message, "too much arguments to function f");
    assert_eq!(d.submessage.as_deref(), Some("function f accepts 12 argument(s) but got 3"));
    let d = type_error(TypeErrorCase::UnmatchedArguments { name: "f".to_string(), got: 0, expected: 1, too_much: false });
    assert_eq!(d.message, "too few arguments to function f");
    let d = type_error(TypeErrorCase::MisplacedReturn);
    assert_eq!(d.message, "attempt to use return statement outside of function block");
}

#[test]
fn semantic_error_reports() {
    let fs = filespan();
    let d = semantic_error(SemanticErrorCase::NameRedefinition { name: "f".to_string(), defined: Span { line: 7, start: 10, end: 12 } }, &fs);
    assert_eq!(d.title, "Semantic Error");
    assert_eq!(d.message, "attempt to redefine name f");
    assert_eq!(d.submessage.as_deref(), Some("note: defined originally at main.elo:7:10"));
    let d = semantic_error(SemanticErrorCase::UnmatchedArguments { function: "g".to_string(), got: 1, expected: 2, too_much: false }, &fs);
    assert_eq!(d.message, "too few arguments to g");
    assert_eq!(d.submessage.as_deref(), Some("g accepts 2 argument(s) but got 1"));
    let d = semantic_error(SemanticErrorCase::UnmatchedArguments { function: "g".to_string(), got: 3, expected: 2, too_much: true }, &fs);
    assert_eq!(d.submessage.as_deref(), Some("function accepts 2 argument(s) but got 3"));
    let d = semantic_error(SemanticErrorCase::InvalidTupleMember { member: 5, tuple: "(int, bool)".to_string(), member_count: 2 }, &fs);
    assert_eq!(d.message, "attempt to acess tuple member 5 on (int, bool)");
    assert_eq!(d.submessage.as_deref(), Some("this tuple only contains only 2 member(s) but used 5"));
    let d = semantic_error(SemanticErrorCase::UseExternFnAsExpr { name: "puts".to_string() }, &fs);
    assert_eq!(d.help.as_deref(), Some("if you want to use puts as a first-class citizen, create a wrapper function"));
}

#[test]
fn framed_reports_of_type_errors() {
    let d = elo::framed::type_error(elo::framed::TypeErrorCase::UnmatchedArguments { name: "f".to_string(), got: 3, expected: 12 });
    assert_eq!(d.title, "Type Error");
    assert_eq!(d.message, "arguments to function f: expected 12 argument(s) but got 3 argument(s) in the function call.");
    assert!(d.help.is_none() && d.submessage.is_none());
    let d = elo::framed::type_error(elo::framed::TypeErrorCase::InvalidExpression { what: "1".to_string(), should: "a place".to_string() });
    assert_eq!(d.message, "invalid expression: expression 1. Expected to be a place.");
    let d = elo::framed::parse_error(elo::framed::ParseErrorCase::UnexpectedToken { got: "}".to_string(), expected: "identifier".to_string() });
    assert_eq!(d.title, "Parse Error");
    assert_eq!(d.message, "unexpected token while parsing: expected identifier but got }");
}
