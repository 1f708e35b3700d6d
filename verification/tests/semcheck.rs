use elo::ast::{Expression, ExpressionData, Node, ReturnStatement, Statement, Type};
use elo::cir::{StatementKind, Typing};
use elo::errors::SemanticErrorCase;
use elo::lexer::Lexer;
use elo::parser::Parser;
use elo::semcheck::{SemanticChecker, ValidationError, Validator};
use elo::span::InputFile;

fn nodes(src: &str) -> Vec<elo::ast::Node> {
    let lx = Lexer::new(InputFile::new("test.elo", src));
    Parser::new(lx).parse().unwrap().nodes
}

fn check(src: &str) -> Result<elo::cir::Program, Vec<SemanticErrorCase>> {
    match Validator::new().go(nodes(src)) {
        Ok(p) => Ok(p),
        Err(es) => Err(es
            .into_iter()
            .map(|e| match e {
                ValidationError::SemanticChecker(s) => s.case,
            })
            .collect()),
    }
}

#[test]
fn accepts_hello_world() {
    let p = check("fn main() {\n  print('Elo, world!')\n}\n").unwrap();
    assert_eq!(p.nodes.len(), 1);
    assert!(matches!(p.nodes[0].kind, StatementKind::FnStatement(_)));
}

#[test]
fn variables_take_the_type_of_their_value() {
    let p = check("fn main() {\n  let x = 1;\n  var b = true;\n  b = x > 0\n}\n").unwrap();
    let StatementKind::FnStatement(f) = &p.nodes[0].kind else { panic!() };
    assert!(matches!(&f.block[0].kind, StatementKind::Variable { typing: Typing::Primitive(elo::cir::Primitive::UInt), .. }));
    assert!(matches!(&f.block[1].kind, StatementKind::Variable { typing: Typing::Primitive(elo::cir::Primitive::Bool), .. }));
}

#[test]
fn assignment_to_a_let_binding_is_refused() {
    let es = check("fn main() {\n  let x = 1;\n  x = 2\n}\n").unwrap_err();
    assert!(matches!(&es[0], SemanticErrorCase::AssignImmutable { expression } if expression == "x"));
}

#[test]
fn constant_of_the_wrong_type_is_refused() {
    let es = check("const c: bool = 1\n").unwrap_err();
    assert!(matches!(&es[0], SemanticErrorCase::TypeMismatch { got, expected } if got == "uint" && expected == "bool"));
}

#[test]
fn main_must_take_and_return_nothing() {
    let es = check("fn main(x: bool) {\n}\n").unwrap_err();
    assert_eq!(es.len(), 1);
    assert!(matches!(&es[0], SemanticErrorCase::InvalidMainSignature { should_be } if should_be == "fn main()"));
}

#[test]
fn unknown_names_are_refused() {
    let es = check("fn main() {\n  y\n}\n").unwrap_err();
    assert!(matches!(&es[0], SemanticErrorCase::UnresolvedName { name } if name == "y"));
}

#[test]
fn functions_that_return_values_must_return() {
    let es = check("fn f(): int {\n  let x = 1\n}\n").unwrap_err();
    assert!(matches!(&es[0], SemanticErrorCase::NoReturn { function, return_type } if function == "f" && return_type == "int"));
    assert!(check("fn f(x: bool): bool {\n  if x {\n    return x\n  } else {\n    return true\n  }\n}\n").is_ok());
}

#[test]
fn names_cannot_be_defined_twice() {
    let es = check("fn f() {\n}\nenum f { A }\n").unwrap_err();
    assert!(matches!(&es[0], SemanticErrorCase::NameRedefinition { name, defined } if name == "f" && defined.line == 1));
}

#[test]
fn extern_functions_can_only_be_called() {
    let es = check("extern fn puts(s: str): int\nfn main() {\n  let f = puts\n}\n").unwrap_err();
    assert!(matches!(&es[0], SemanticErrorCase::UseExternFnAsExpr { name } if name == "puts"));
    assert!(check("extern fn puts(s: str): int\nfn main() {\n  puts('hi')\n}\n").is_ok());
}

#[test]
fn arguments_are_counted() {
    let es = check("fn f(a: int) {\n}\nfn main() {\n  f(1, 2)\n}\n").unwrap_err();
    assert!(matches!(&es[0], SemanticErrorCase::UnmatchedArguments { function, got: 2, expected: 1, too_much: true } if function == "f"));
}

#[test]
fn conditions_must_be_booleans() {
    let es = check("fn main() {\n  if 1 {\n  }\n}\n").unwrap_err();
    assert!(matches!(&es[0], SemanticErrorCase::TypeMismatch { got, expected } if got == "uint" && expected == "bool"));
}

#[test]
fn struct_fields_and_enum_variants_are_resolved() {
    assert!(check("struct P { x: uint }\nenum C { Red }\nfn main() {\n  let p = P { x: 1 };\n  let c = C.Red;\n  let y = p.x\n}\n").is_ok());
    let es = check("enum C { Red }\nfn main() {\n  let c = C.Blue\n}\n").unwrap_err();
    assert!(matches!(&es[0], SemanticErrorCase::UnknownEnumVariant { enumeration, variant } if enumeration == "C" && variant == "Blue"));
    let es = check("struct P { x: uint }\nfn main() {\n  let p = P { x: 1 };\n  let y = p.z\n}\n").unwrap_err();
    assert!(matches!(&es[0], SemanticErrorCase::UnresolvedField { name, from } if name == "z" && from == "struct P"));
}

#[test]
fn each_refused_statement_is_reported_once() {
    let es = check("fn a(): int {\n}\nfn b(): int {\n}\n").unwrap_err();
    assert_eq!(es.len(), 2);
}

#[test]
fn checker_starts_empty() {
    let c = SemanticChecker::new();
    assert!(c.errors.is_empty());
}

#[test]
fn an_unsigned_literal_does_not_become_a_signed_value_of_its_size() {
    let es = check("fn f(): int {\n  return 1\n}\n").unwrap_err();
    assert!(matches!(&es[0], SemanticErrorCase::MismatchedReturnType { function, got, expected } if function == "f" && got == "uint" && expected == "int"));
    assert!(check("fn f(): i64 {\n  return 1\n}\n").is_ok());
}

#[test]
fn a_newline_after_an_expression_does_not_end_the_statement() {
    let lx = Lexer::new(InputFile::new("test.elo", "fn main() {\n  let x = 1\n  let y = 2\n}\n"));
    assert!(Parser::new(lx).parse().is_err());
}

#[test]
fn empty_array_literals_cannot_be_checked() {
    let span = elo::span::Span { line: 1, start: 0, end: 2 };
    let empty = Expression { span, data: ExpressionData::Array { exprs: vec![], amount: 0 } };
    let ns = vec![Node { span, stmt: Statement::ExpressionStatement(empty) }];
    assert!(!elo::semcheck::checkable(&ns));
    let ns = nodes("fn main() {\n  let x = {1, 2};\n}\n");
    assert!(elo::semcheck::checkable(&ns));
}

fn checked_nodes(ns: Vec<Node>) -> Vec<SemanticErrorCase> {
    match Validator::new().go(ns) {
        Ok(_) => vec![],
        Err(es) => es
            .into_iter()
            .map(|e| match e {
                ValidationError::SemanticChecker(s) => s.case,
            })
            .collect(),
    }
}

fn at(data: ExpressionData) -> Expression {
    Expression { span: elo::span::Span { line: 1, start: 0, end: 1 }, data }
}

fn named_type(name: &str) -> Type {
    Type { span: elo::span::Span { line: 1, start: 0, end: 1 }, typing: elo::ast::Typing::Named { name: String::from(name), generic: None } }
}

#[test]
fn a_void_function_returns_no_value() {
    let es = check("fn f() {\n  return 1\n}\n").unwrap_err();
    assert!(matches!(&es[0], SemanticErrorCase::ReturnValueOnVoidFunction { function } if function == "f"));
}

#[test]
fn only_functions_can_be_called() {
    let es = check("fn main() {\n  let x = 1;\n  x()\n}\n").unwrap_err();
    assert!(matches!(&es[0], SemanticErrorCase::CallNonFunction { typ } if typ == "uint"));
}

#[test]
fn only_structures_have_fields() {
    let es = check("fn main() {\n  let x = 1;\n  x.y\n}\n").unwrap_err();
    assert!(matches!(&es[0], SemanticErrorCase::NonAggregateFieldAccess { typ, field } if typ == "uint" && field == "y"));
}

#[test]
fn a_variable_is_declared_once_in_a_scope() {
    let es = check("fn main() {\n  let x = 1;\n  let x = 2;\n}\n").unwrap_err();
    assert!(matches!(&es[0], SemanticErrorCase::VariableRedefinition { name } if name == "x"));
}

#[test]
fn a_literal_is_no_place() {
    let es = check("fn main() {\n  1 = 2\n}\n").unwrap_err();
    assert!(matches!(&es[0], SemanticErrorCase::InvalidExpression { should, .. } if should == "valid left-hand-side operand"));
    let es = check("fn main() {\n  let p = &1;\n}\n").unwrap_err();
    assert!(matches!(&es[0], SemanticErrorCase::InvalidExpression { should, .. } if should == "valid value to reference"));
}

#[test]
fn a_return_outside_a_function_is_misplaced() {
    let ret = Statement::ReturnStatement(ReturnStatement { expr: Some(at(ExpressionData::IntegerLiteral { value: 1 })) });
    let es = checked_nodes(vec![Node { span: elo::span::Span { line: 1, start: 0, end: 6 }, stmt: ret }]);
    assert!(matches!(&es[0], SemanticErrorCase::MisplacedReturn));
}

#[test]
fn casts_between_unrelated_types_are_refused() {
    let cast = at(ExpressionData::Cast { expr: Box::new(at(ExpressionData::BooleanLiteral { value: true })), typ: named_type("str") });
    let es = checked_nodes(vec![Node { span: elo::span::Span { line: 1, start: 0, end: 1 }, stmt: Statement::ExpressionStatement(cast) }]);
    assert!(matches!(&es[0], SemanticErrorCase::InvalidCast { from, into } if from == "bool" && into == "str"));
}

#[test]
fn only_arrays_are_indexed_and_only_tuples_have_members() {
    let index = at(ExpressionData::Subscript {
        origin: Box::new(at(ExpressionData::BooleanLiteral { value: true })),
        inner: Box::new(at(ExpressionData::IntegerLiteral { value: 0 })),
    });
    let es = checked_nodes(vec![Node { span: elo::span::Span { line: 1, start: 0, end: 1 }, stmt: Statement::ExpressionStatement(index) }]);
    assert!(matches!(&es[0], SemanticErrorCase::IndexNonIndexable { got, .. } if got == "bool"));
    let member = at(ExpressionData::TupleAccess { origin: Box::new(at(ExpressionData::BooleanLiteral { value: true })), field: 0 });
    let es = checked_nodes(vec![Node { span: elo::span::Span { line: 1, start: 0, end: 1 }, stmt: Statement::ExpressionStatement(member) }]);
    assert!(matches!(&es[0], SemanticErrorCase::NonTupleMemberAccess { typ, .. } if typ == "bool"));
}

#[test]
fn a_tuple_has_as_many_members_as_it_was_made_with() {
    let sp = |s, e| elo::span::Span { line: 1, start: s, end: e };
    let a = Expression { span: sp(1, 2), data: ExpressionData::IntegerLiteral { value: 1 } };
    let b = Expression { span: sp(4, 5), data: ExpressionData::IntegerLiteral { value: 2 } };
    let x = Expression { span: sp(0, 6), data: ExpressionData::Tuple { exprs: vec![a, b] } };
    let e = Expression { span: sp(0, 8), data: ExpressionData::TupleAccess { origin: Box::new(x), field: 2 } };
    let es = checked_nodes(vec![Node { span: sp(0, 8), stmt: Statement::ExpressionStatement(e) }]);
    assert!(matches!(&es[0], SemanticErrorCase::InvalidTupleMember { member, tuple, member_count }
        if *member == 2 && tuple == "(uint, uint)" && *member_count == 2));
}

#[test]
fn a_call_without_arguments_takes_the_result_type() {
    let p = check("fn one(): uint {\n  return 1\n}\nfn main() {\n  let x = one()\n}\n");
    assert!(p.is_ok(), "{:?}", p.err());
}

#[test]
fn a_call_with_too_few_or_too_many_arguments_is_refused() {
    let es = check("fn two(a: int, b: int): int {\n  return a\n}\nfn main() {\n  two(1);\n  two(1, 2, 3)\n}\n").unwrap_err();
    assert!(matches!(&es[0], SemanticErrorCase::UnmatchedArguments { got: 1, expected: 2, too_much: false, .. }));
}

#[test]
fn a_variable_compared_with_a_literal_gives_a_bool() {
    let p = check("fn main() {\n  var x = 1;\n  var b = true;\n  b = x > 2;\n  x = x + 1\n}\n");
    assert!(p.is_ok(), "{:?}", p.err());
}

#[test]
fn a_field_access_takes_the_type_of_the_named_field() {
    assert!(check("struct P { x: uint, b: bool }\nfn main() {\n  let p = P { x: 1, b: true };\n  var c = p.b;\n  c = false\n}\n").is_ok());
    let es = check("struct P { x: uint, b: bool }\nfn main() {\n  let p = P { x: 1, b: true };\n  var c = p.b;\n  c = 2\n}\n").unwrap_err();
    assert!(matches!(&es[0], SemanticErrorCase::TypeMismatch { got, expected } if got == "uint" && expected == "bool"));
}

#[test]
fn an_argument_of_another_type_is_refused() {
    let es = check("fn g(a: bool) {\n}\nfn main() {\n  g(1)\n}\n").unwrap_err();
    assert!(matches!(&es[0], SemanticErrorCase::TypeMismatch { got, expected } if got == "uint" && expected == "bool"));
}

#[test]
fn a_structure_literal_with_a_value_of_another_type_is_refused() {
    let es = check("struct P { x: uint, b: bool }\nfn main() {\n  let p = P { x: 1, b: 2 }\n}\n").unwrap_err();
    assert!(matches!(&es[0], SemanticErrorCase::TypeMismatch { got, expected } if got == "uint" && expected == "bool"));
    let es = check("struct P { x: uint }\nfn main() {\n  let p = P { y: 1 }\n}\n").unwrap_err();
    assert!(matches!(&es[0], SemanticErrorCase::UnresolvedField { .. }));
}

#[test]
fn a_return_of_another_type_and_a_constant_of_another_type_are_refused() {
    let es = check("fn f(): bool {\n  return 1\n}\n").unwrap_err();
    assert!(matches!(&es[0], SemanticErrorCase::MismatchedReturnType { .. }));
    let es = check("const N: bool = 1\n").unwrap_err();
    assert!(matches!(&es[0], SemanticErrorCase::TypeMismatch { .. }));
    let es = check("fn f(): uint {\n}\n").unwrap_err();
    assert!(matches!(&es[0], SemanticErrorCase::NoReturn { .. }));
}
