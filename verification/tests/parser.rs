use elo::ast::{BinaryOperation, ExpressionData, Statement, Typing};
use elo::errors::{ParseError, ParseErrorCase};
use elo::lexer::Lexer;
use elo::parser::{binop_precedence, toint, unop_precedence, Parser};
use elo::span::InputFile;
use elo::keyword::Keyword;
use elo::token::{debug_text, Token};

fn parse(src: &str) -> Result<elo::ast::Program, ParseError> {
    let lx = Lexer::new(InputFile::new("test.elo", src));
    let mut p = Parser::new(lx);
    p.parse()
}

fn unexpected(e: &ParseError) -> (String, String) {
    match &e.case {
        ParseErrorCase::UnexpectedToken { got, expected } => (got.clone(), expected.clone()),
        other => panic!("not an unexpected token: {:?}", other),
    }
}

#[test]
fn parses_main_with_call() {
    let program = parse("fn main() {\n  print('Elo, world!')\n}\n").unwrap();
    assert_eq!(program.filename, "test.elo");
    assert_eq!(program.nodes.len(), 1);
    match &program.nodes[0].stmt {
        Statement::FnStatement(f) => {
            assert_eq!(f.name, "main");
            assert!(f.ret.is_none());
            assert!(f.arguments.is_empty());
            assert_eq!(f.block.content.len(), 1);
            match &f.block.content[0].stmt {
                Statement::ExpressionStatement(e) => match &e.data {
                    ExpressionData::FunctionCall { function, arguments } => {
                        assert!(matches!(&function.data, ExpressionData::Identifier { name } if name == "print"));
                        assert_eq!(arguments.len(), 1);
                        assert!(matches!(&arguments[0].data, ExpressionData::StrLiteral { value } if value == "Elo, world!"));
                    }
                    other => panic!("not a call: {:?}", other),
                },
                other => panic!("not an expression: {:?}", other),
            }
        }
        other => panic!("not a function: {:?}", other),
    }
}

#[test]
fn multiplication_binds_tighter_than_addition() {
    let program = parse("fn f() {\n  1 + 2 * 3\n}").unwrap();
    let Statement::FnStatement(f) = &program.nodes[0].stmt else { panic!() };
    let Statement::ExpressionStatement(e) = &f.block.content[0].stmt else { panic!() };
    match &e.data {
        ExpressionData::BinaryOperation { operator, left, right } => {
            assert_eq!(*operator, BinaryOperation::Add);
            assert!(matches!(left.data, ExpressionData::IntegerLiteral { value: 1 }));
            assert!(matches!(right.data, ExpressionData::BinaryOperation { operator: BinaryOperation::Mul, .. }));
        }
        other => panic!("{:?}", other),
    }
}

#[test]
fn operators_of_equal_precedence_group_to_the_right() {
    let program = parse("fn f() {\n  a - b - c\n}").unwrap();
    let Statement::FnStatement(f) = &program.nodes[0].stmt else { panic!() };
    let Statement::ExpressionStatement(e) = &f.block.content[0].stmt else { panic!() };
    match &e.data {
        ExpressionData::BinaryOperation { operator, left, right } => {
            assert_eq!(*operator, BinaryOperation::Sub);
            assert!(matches!(&left.data, ExpressionData::Identifier { name } if name == "a"));
            assert!(matches!(right.data, ExpressionData::BinaryOperation { operator: BinaryOperation::Sub, .. }));
        }
        other => panic!("{:?}", other),
    }
}

#[test]
fn parses_declarations() {
    let program = parse("struct Point { x: int, y: *int }\nenum Color { Red, Green }\nconst n: {u8; 4} = 1;\nextern fn printf(fmt: str, ...): int\n").unwrap();
    assert_eq!(program.nodes.len(), 4);
    match &program.nodes[0].stmt {
        Statement::StructStatement(s) => {
            assert_eq!(s.name, "Point");
            assert_eq!(s.fields.len(), 2);
            assert!(matches!(&s.fields[1].typing.typing, Typing::Pointer { mutable: false, .. }));
        }
        other => panic!("{:?}", other),
    }
    match &program.nodes[1].stmt {
        Statement::EnumStatement(e) => assert_eq!(e.variants, vec!["Red".to_string(), "Green".to_string()]),
        other => panic!("{:?}", other),
    }
    match &program.nodes[2].stmt {
        Statement::ConstStatement(c) => assert!(matches!(c.typing.typing, Typing::Array { amount: 4, .. })),
        other => panic!("{:?}", other),
    }
    match &program.nodes[3].stmt {
        Statement::ExternFnStatement(e) => {
            assert_eq!(e.name, "printf");
            assert!(e.variadic);
            assert_eq!(e.arguments.len(), 1);
            assert!(e.ret.is_some());
        }
        other => panic!("{:?}", other),
    }
}

#[test]
fn parses_control_flow() {
    let program = parse("fn f(x: int): int {\n  if x > 1 { return x } else { return 0 };\n  while true => x = x - 1\n}\n").unwrap();
    let Statement::FnStatement(f) = &program.nodes[0].stmt else { panic!() };
    assert!(matches!(&f.block.content[0].stmt, Statement::IfStatement(i) if i.block_false.is_some() && i.block_true.content.len() == 1));
    assert!(matches!(&f.block.content[1].stmt, Statement::WhileStatement(_)));
}

#[test]
fn let_outside_a_block_is_refused() {
    let e = parse("let").unwrap_err();
    assert_eq!(unexpected(&e), ("Let".to_string(), "valid statement".to_string()));
    let e = parse("let x = 1").unwrap_err();
    assert_eq!(unexpected(&e), ("Identifier(\"x\")".to_string(), "end of statement".to_string()));
}

#[test]
fn end_of_input_is_reported() {
    let e = parse("fn main(").unwrap_err();
    assert!(e.span.is_none());
    assert_eq!(unexpected(&e).0, "EOF");
}

#[test]
fn character_literal_must_hold_one_character() {
    let e = parse("`ab`").unwrap_err();
    assert!(matches!(e.case, ParseErrorCase::InvalidCharacterLiteral), "{:?}", e);
    let e = parse("fn f() {\n  `ab`\n}").unwrap_err();
    assert_eq!(unexpected(&e), ("CharLiteral(\"ab\")".to_string(), "end of statement".to_string()));
    let ok = parse("fn f() {\n  `a`\n}").unwrap();
    let Statement::FnStatement(f) = &ok.nodes[0].stmt else { panic!() };
    let Statement::ExpressionStatement(e) = &f.block.content[0].stmt else { panic!() };
    assert!(matches!(e.data, ExpressionData::CharacterLiteral { value: 'a' }));
}

#[test]
fn float_literals_keep_their_digits() {
    let program = parse("fn f() {\n  6.25\n}").unwrap();
    let Statement::FnStatement(f) = &program.nodes[0].stmt else { panic!() };
    let Statement::ExpressionStatement(e) = &f.block.content[0].stmt else { panic!() };
    assert!(matches!(&e.data, ExpressionData::FloatLiteral { whole, fraction } if whole == "6" && fraction == "25"));
}

#[test]
fn expected_token_error_names_both_tokens() {
    let mut p = Parser::new(Lexer::new(InputFile::new("test.elo", "\n\n) {}")));
    assert!(p.test_token(Token::Delimiter('('), true).is_none());
    let e = p.expect_token(Token::Delimiter('(')).unwrap_err();
    let (got, expected) = unexpected(&e);
    assert_eq!(e.span.map(|s| s.line), Some(3));
    assert_eq!(got, format!("{:?}", Token::Delimiter(')')));
    assert_eq!(expected, format!("{:?}", Token::Delimiter('(')));
}

#[test]
fn integer_literals_read_in_their_base() {
    assert_eq!(toint("ff", 16), Some(255));
    assert_eq!(toint("0101", 2), Some(5));
    assert_eq!(toint("170141183460469231731687303715884105727", 10), Some(i128::MAX));
    assert_eq!(toint("170141183460469231731687303715884105728", 10), None);
    assert_eq!(toint("", 10), None);
    assert_eq!(toint("12a", 10), None);
    assert_eq!(toint("1_000", 10), None);
}

#[test]
fn too_large_integer_literal_is_refused() {
    let e = parse("fn f() {\n  999999999999999999999999999999999999999999\n}").unwrap_err();
    assert_eq!(unexpected(&e).1, "integer literal");
}

#[test]
fn precedences_of_operator_tokens() {
    assert_eq!(binop_precedence(&Token::Op('=', None)), 1);
    assert_eq!(binop_precedence(&Token::Op('=', Some('='))), 2);
    assert_eq!(binop_precedence(&Token::Op('&', Some('&'))), 4);
    assert_eq!(binop_precedence(&Token::Op('*', None)), 7);
    assert_eq!(binop_precedence(&Token::Op('<', Some('<'))), 8);
    assert_eq!(binop_precedence(&Token::Op('+', Some('='))), 0);
    assert_eq!(unop_precedence(&Token::Op('!', None)), 9);
    assert_eq!(unop_precedence(&Token::Op('+', None)), 0);
}

#[test]
fn binary_operators_from_tokens() {
    assert_eq!(BinaryOperation::from_token(&Token::Op('<', Some('='))), Some(BinaryOperation::Le));
    assert_eq!(BinaryOperation::from_token(&Token::Op('^', Some('='))), Some(BinaryOperation::AssignBXor));
    assert_eq!(BinaryOperation::from_token(&Token::Op('!', None)), None);
    assert_eq!(BinaryOperation::Mul.precedence(), 7);
    assert_eq!(BinaryOperation::AssignAdd.precedence(), 1);
    assert_eq!(elo::ast::UnaryOperation::from_token(&Token::Op('~', None)), Some(elo::ast::UnaryOperation::BNot));
    assert_eq!(elo::ast::UnaryOperation::from_token(&Token::Delimiter('(')), None);
}

#[test]
fn expect_token_passes_newlines() {
    let mut p = Parser::new(Lexer::new(InputFile::new("test.elo", "\n\n(x")));
    assert_eq!(p.expect_token(Token::Delimiter('(')).unwrap(), Token::Delimiter('('));
    assert!(p.test_token(Token::Identifier("x".to_string()), false).is_some());
    assert!(p.expect_token(Token::Delimiter(')')).unwrap_err().span.is_none());
}

#[test]
fn enum_variants_are_names_separated_by_commas() {
    let program = parse("enum E {\n  A,\n  B\n}\n").unwrap();
    match &program.nodes[0].stmt {
        Statement::EnumStatement(e) => {
            assert_eq!(e.name, "E");
            assert_eq!(e.variants, vec![String::from("A"), String::from("B")]);
        }
        other => panic!("not an enum: {:?}", other),
    }
    assert!(parse("enum E { A, }\n").is_err());
    let program = parse("enum E { }\n").unwrap();
    assert!(matches!(&program.nodes[0].stmt, Statement::EnumStatement(e) if e.variants.is_empty()));
}

#[test]
fn a_declaration_starts_with_its_name() {
    assert!(parse("struct { x: int }\n").is_err());
    let e = parse("fn f {\n}\n").unwrap_err();
    assert!(matches!(e.case, ParseErrorCase::UnexpectedToken { .. }));
}

#[test]
fn a_lazy_test_for_a_newline_skips_the_newlines_and_finds_nothing() {
    let mut p = Parser::new(Lexer::new(InputFile::new("t", "\n\nx")));
    assert!(p.test_token(Token::Newline, true).is_none());
    assert!(p.test_token(Token::Identifier(String::from("x")), false).is_some());
    let mut q = Parser::new(Lexer::new(InputFile::new("t", "\nx")));
    assert!(q.test_token(Token::Newline, false).is_some());
}

#[test]
fn token_debug_text_is_what_debug_prints() {
    let tokens = vec![
        Token::Keyword(Keyword::While),
        Token::Identifier(String::from("x\"y")),
        Token::Numeric(String::from("1_0"), 16),
        Token::Newline,
        Token::Op('=', Some('=')),
        Token::Op('\'', None),
        Token::Delimiter('('),
        Token::StrLiteral(String::from("a\nb")),
        Token::StringLiteral(String::from("s")),
        Token::CStrLiteral(String::from("c")),
        Token::CharLiteral(String::from("\u{e9}")),
        Token::Variadic,
        Token::Unknown('\u{7}'),
    ];
    for t in tokens {
        assert_eq!(debug_text(&t), format!("{:?}", t));
    }
}

#[test]
fn calls_groups_arrays_and_unary_operations_are_primary_expressions() {
    let program = parse("fn main() {\n  f();\n  g(1);\n  (2);\n  !true;\n  let a = {3};\n}\n").unwrap();
    let Statement::FnStatement(f) = &program.nodes[0].stmt else { panic!() };
    assert_eq!(f.block.content.len(), 5);
}

#[test]
fn a_number_is_read_with_its_value() {
    let program = parse("fn f() {\n  4096 + 7\n}").unwrap();
    let Statement::FnStatement(f) = &program.nodes[0].stmt else { panic!() };
    let Statement::ExpressionStatement(e) = &f.block.content[0].stmt else { panic!() };
    match &e.data {
        ExpressionData::BinaryOperation { left, right, .. } => {
            assert!(matches!(left.data, ExpressionData::IntegerLiteral { value: 4096 }));
            assert!(matches!(right.data, ExpressionData::IntegerLiteral { value: 7 }));
        }
        other => panic!("{:?}", other),
    }
}

#[test]
fn binary_operands_keep_their_order() {
    let program = parse("fn f() {\n  true == false\n}").unwrap();
    let Statement::FnStatement(f) = &program.nodes[0].stmt else { panic!() };
    let Statement::ExpressionStatement(e) = &f.block.content[0].stmt else { panic!() };
    match &e.data {
        ExpressionData::BinaryOperation { operator, left, right } => {
            assert_eq!(*operator, BinaryOperation::Eq);
            assert!(matches!(left.data, ExpressionData::BooleanLiteral { value: true }));
            assert!(matches!(right.data, ExpressionData::BooleanLiteral { value: false }));
        }
        other => panic!("{:?}", other),
    }
}

#[test]
fn three_operands_are_grouped_by_precedence() {
    let program = parse("fn f() {\n  true == false && true;\n  true && false == true\n}").unwrap();
    let Statement::FnStatement(f) = &program.nodes[0].stmt else { panic!() };
    let Statement::ExpressionStatement(e) = &f.block.content[0].stmt else { panic!() };
    match &e.data {
        ExpressionData::BinaryOperation { operator, left, right } => {
            assert_eq!(*operator, BinaryOperation::Eq);
            assert!(matches!(left.data, ExpressionData::BooleanLiteral { value: true }));
            assert!(matches!(right.data, ExpressionData::BinaryOperation { operator: BinaryOperation::And, .. }));
        }
        other => panic!("{:?}", other),
    }
    let Statement::ExpressionStatement(e) = &f.block.content[1].stmt else { panic!() };
    match &e.data {
        ExpressionData::BinaryOperation { operator, left, right } => {
            assert_eq!(*operator, BinaryOperation::Eq);
            assert!(matches!(left.data, ExpressionData::BinaryOperation { operator: BinaryOperation::And, .. }));
            assert!(matches!(right.data, ExpressionData::BooleanLiteral { value: true }));
        }
        other => panic!("{:?}", other),
    }
}
