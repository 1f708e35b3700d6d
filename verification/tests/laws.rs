use elo::ast::{BinaryOperation, UnaryOperation};
use elo::cir::{Primitive, Typing, typing_eq};
use elo::keyword::Keyword;
use elo::lexer::Lexer;
use elo::parser::Parser;
use elo::semcheck::Validator;
use elo::span::InputFile;
use elo::parser::{binop_precedence, toint, unop_precedence};
use elo::span::Span;
use elo::text::decimal;
use elo::token::Token;

#[test]
fn decimal_numerals_read_back() {
    for n in [0usize, 7, 10, 99, 100, 4096, 123456789] {
        assert_eq!(toint(&decimal(n), 10), Some(n as i128));
    }
}

#[test]
fn keywords_read_back_from_their_text() {
    let all = [
        Keyword::Var,
        Keyword::Let,
        Keyword::Const,
        Keyword::Fn,
        Keyword::Struct,
        Keyword::Enum,
        Keyword::If,
        Keyword::Else,
        Keyword::While,
        Keyword::Return,
        Keyword::Extern,
        Keyword::True,
        Keyword::False,
        Keyword::Mut,
        Keyword::As,
    ];
    for k in all {
        assert_eq!(Keyword::from_str(k.text()), Some(k));
    }
}

#[test]
fn merging_spans_is_associative() {
    let a = Span { line: 1, start: 2, end: 3 };
    let b = Span { line: 4, start: 5, end: 6 };
    let c = Span { line: 7, start: 8, end: 9 };
    assert_eq!(a.merge(b).merge(c), a.merge(b.merge(c)));
    assert_eq!(a.merge(a), a);
}

#[test]
fn token_and_operator_precedences_agree() {
    for (first, second) in [('+', None), ('*', None), ('=', Some('=')), ('<', Some('<')), ('&', Some('&')), ('|', None)] {
        let t = Token::Op(first, second);
        let op = BinaryOperation::from_token(&t).unwrap();
        assert_eq!(binop_precedence(&t) as usize, op.precedence() as usize);
    }
    for first in ['!', '-', '~', '&'] {
        let t = Token::Op(first, None);
        let op = UnaryOperation::from_token(&t).unwrap();
        assert_eq!(unop_precedence(&t) as usize, op.precedence() as usize);
    }
}

#[test]
fn a_type_is_the_same_as_itself() {
    let t = Typing::Pointer { mutable: true, typ: Box::new(Typing::Primitive(Primitive::U8)) };
    assert!(typing_eq(&t, &t));
    assert!(!typing_eq(&t, &Typing::Primitive(Primitive::U8)));
}

fn parse_text(src: &str) -> Result<elo::ast::Program, elo::errors::ParseError> {
    Parser::new(Lexer::new(InputFile::new("law.elo", src))).parse()
}

#[test]
fn a_text_of_blank_lines_is_an_empty_program() {
    assert!(parse_text("").unwrap().nodes.is_empty());
    assert!(parse_text("\n\n\n").unwrap().nodes.is_empty());
    let p = Validator::new().go(Vec::new()).ok().unwrap();
    assert!(p.nodes.is_empty());
}

#[test]
fn statements_outside_blocks_must_be_declarations() {
    assert!(parse_text("let x = 1\n").is_err());
    assert!(parse_text("\nvar y = 2\n").is_err());
    assert!(parse_text("return\n").is_err());
    assert!(parse_text("while true {\n}\n").is_err());
}

#[test]
fn a_name_declared_twice_is_refused() {
    for src in [
        "enum E { A }\nenum E { B }\n",
        "struct S { x: int }\nfn S() {\n}\n",
        "fn f() {\n}\nextern fn f()\n",
    ] {
        let nodes = parse_text(src).unwrap().nodes;
        assert!(Validator::new().go(nodes).is_err(), "{}", src);
    }
}

#[test]
fn declarations_of_plain_types_under_their_own_names_are_accepted() {
    let src = "enum Color { Red, Green }\nstruct P { x: int, y: *u8, z: {u8; 4} }\nextern fn printf(fmt: str, ...): int\n";
    let nodes = parse_text(src).unwrap().nodes;
    let p = Validator::new().go(nodes).ok().unwrap();
    assert_eq!(p.nodes.len(), 3);
}

#[test]
fn a_main_function_that_binds_literals_is_accepted() {
    let src = "enum E { A }\nfn main() {\n  let x = 1;\n  var y = true && false;\n  let z = 'c'\n}\n";
    let nodes = parse_text(src).unwrap().nodes;
    let p = Validator::new().go(nodes).ok().unwrap();
    assert_eq!(p.nodes.len(), 2);
}

#[test]
fn a_main_function_that_binds_one_name_twice_is_refused() {
    let src = "fn main() {\n  let x = 1;\n  let x = 2\n}\n";
    let nodes = parse_text(src).unwrap().nodes;
    assert!(Validator::new().go(nodes).is_err());
}

#[test]
fn a_text_of_bare_declarations_parses() {
    let p = parse_text("enum A { X, Y }\nstruct S {}\n\nenum B { Z };\nfn main() {\n}\n").unwrap();
    assert_eq!(p.nodes.len(), 4);
    assert!(matches!(p.nodes[0].stmt, elo::ast::Statement::EnumStatement(_)));
    assert!(matches!(p.nodes[1].stmt, elo::ast::Statement::StructStatement(_)));
    assert!(matches!(p.nodes[2].stmt, elo::ast::Statement::EnumStatement(_)));
    assert!(matches!(&p.nodes[3].stmt, elo::ast::Statement::FnStatement(f) if f.block.content.is_empty()));
}

#[test]
fn every_redeclared_name_is_reported_in_order() {
    let src = "enum E { A }\nenum E { B }\nstruct E {}\nstruct S {}\nextern fn S()\n";
    let nodes = parse_text(src).unwrap().nodes;
    let es = Validator::new().go(nodes).err().unwrap();
    assert_eq!(es.len(), 3);
    let lines: Vec<usize> = es
        .iter()
        .map(|e| match e {
            elo::semcheck::ValidationError::SemanticChecker(s) => {
                assert!(matches!(s.case, elo::errors::SemanticErrorCase::NameRedefinition { .. }));
                s.span.line
            }
        })
        .collect();
    assert_eq!(lines, vec![2, 3, 5]);
}
