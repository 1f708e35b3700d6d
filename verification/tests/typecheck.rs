use elo::cir::{Primitive, StatementKind, Typing};
use elo::errors::TypeErrorCase;
use elo::lexer::Lexer;
use elo::parser::Parser;
use elo::span::InputFile;
use elo::typecheck::TypeChecker;

fn nodes(src: &str) -> Vec<elo::ast::Node> {
    let lx = Lexer::new(InputFile::new("test.elo", src));
    Parser::new(lx).parse().unwrap().nodes
}

fn typecheck(src: &str) -> (elo::cir::Program, Vec<TypeErrorCase>) {
    let mut checker = TypeChecker::new();
    let program = checker.go(nodes(src));
    let errors = checker.errors.into_iter().map(|e| e.case).collect();
    (program, errors)
}

#[test]
fn type_checker_accepts_a_returning_function() {
    let (p, es) = typecheck("fn answer(): int {\n  return 42\n}\n");
    assert!(es.is_empty());
    assert_eq!(p.nodes.len(), 1);
    let StatementKind::FnStatement(f) = &p.nodes[0].kind else { panic!() };
    assert!(matches!(f.head.ret, Typing::Primitive(Primitive::Int)));
}

#[test]
fn type_checker_gives_integer_literals_the_type_int() {
    let (p, es) = typecheck("fn f() {\n  let x = 7;\n}\n");
    assert!(es.is_empty());
    let StatementKind::FnStatement(f) = &p.nodes[0].kind else { panic!() };
    assert!(matches!(&f.block[0].kind, StatementKind::Variable { typing: Typing::Primitive(Primitive::Int), .. }));
}

#[test]
fn type_checker_wants_both_operands_of_one_type() {
    let (p, es) = typecheck("fn f() {\n  let x = 1 + true;\n}\n");
    assert!(p.nodes.is_empty());
    assert_eq!(es.len(), 1);
    assert!(matches!(&es[0], TypeErrorCase::TypeMismatch { got, expected } if got == "bool" && expected == "int"));
}

#[test]
fn type_checker_refuses_assignment_to_a_let_binding() {
    let (_, es) = typecheck("fn f() {\n  let x = 1;\n  x = 2\n}\n");
    assert!(matches!(&es[0], TypeErrorCase::AssignImmutable { expression } if expression == "x"));
}

#[test]
fn type_checker_accepts_assignment_to_a_var_binding() {
    let (p, es) = typecheck("fn f() {\n  var x = 1;\n  x = 2\n}\n");
    assert!(es.is_empty());
    assert_eq!(p.nodes.len(), 1);
}

#[test]
fn type_checker_finds_a_function_without_return() {
    let (_, es) = typecheck("fn f(): bool {\n  let x = true;\n}\n");
    assert!(matches!(&es[0], TypeErrorCase::NoReturn { function, return_type } if function == "f" && return_type == "bool"));
}

#[test]
fn type_checker_compares_a_constant_with_its_annotation() {
    let (_, es) = typecheck("const c: bool = 1\n");
    assert!(matches!(&es[0], TypeErrorCase::TypeMismatch { got, expected } if got == "int" && expected == "bool"));
}

#[test]
fn type_checker_refuses_unknown_names() {
    let (_, es) = typecheck("fn f() {\n  let x = y;\n}\n");
    assert!(matches!(&es[0], TypeErrorCase::UnresolvedName { name } if name == "y"));
}

#[test]
fn type_checker_reads_struct_fields() {
    let (p, es) = typecheck("struct A { a: int }\nfn f() {\n  let s = A { a: 1 };\n  let y = s.a;\n}\n");
    assert!(es.is_empty());
    let StatementKind::FnStatement(f) = &p.nodes[1].kind else { panic!() };
    assert!(matches!(&f.block[1].kind, StatementKind::Variable { typing: Typing::Primitive(Primitive::Int), .. }));
}

#[test]
fn type_checker_refuses_members_of_a_scalar() {
    let (_, es) = typecheck("fn f() {\n  let x = 1;\n  let y = x.a;\n}\n");
    assert!(matches!(&es[0], TypeErrorCase::NonAggregateMemberAccess { typ, member } if typ == "int" && member == "a"));
}

#[test]
fn type_checker_counts_arguments() {
    let (_, es) = typecheck("fn g(a: int) {\n}\nfn f() {\n  g()\n}\n");
    assert!(matches!(&es[0], TypeErrorCase::UnmatchedArguments { name, got: 0, expected: 1, too_much: false } if name == "g"));
}

#[test]
fn type_checker_reports_each_refused_statement() {
    let (p, es) = typecheck("const a: bool = 1;\nconst b: int = true;\nconst c: int = 3\n");
    assert_eq!(p.nodes.len() + es.len(), 3);
    assert_eq!(es.len(), 2);
}

#[test]
fn type_checker_refuses_a_value_returned_from_a_void_function() {
    let (_, es) = typecheck("fn f() {\n  return 1\n}\n");
    assert!(matches!(&es[0], TypeErrorCase::ReturnValueOnVoidFunction { function } if function == "f"));
}

#[test]
fn type_checker_refuses_a_value_of_another_type_than_the_result() {
    let (_, es) = typecheck("fn f(): bool {\n  return 1\n}\n");
    assert!(matches!(&es[0], TypeErrorCase::MismatchedReturnType { function, got, expected }
        if function == "f" && got == "int" && expected == "bool"));
}

#[test]
fn type_checker_refuses_unknown_members() {
    let (_, es) = typecheck("struct P { x: int }\nfn f(p: P) {\n  p.y\n}\n");
    assert!(matches!(&es[0], TypeErrorCase::UnresolvedMember { name, .. } if name == "y"));
}

#[test]
fn type_checker_accepts_declarations_of_simple_types() {
    let (p, es) = typecheck("enum Color { Red }\nstruct P { x: int, y: *u8 }\nextern fn puts(s: str): int\n");
    assert!(es.is_empty());
    assert_eq!(p.nodes.len(), 3);
}

#[test]
fn type_checker_accepts_a_function_that_binds_literals() {
    let (p, es) = typecheck("fn main() {\n  let x = 1;\n  var y = 2 + 3;\n  let x = 'c'\n}\n");
    assert!(es.is_empty());
    assert_eq!(p.nodes.len(), 1);
    let StatementKind::FnStatement(f) = &p.nodes[0].kind else { panic!() };
    assert_eq!(f.block.len(), 3);
    assert!(matches!(f.head.ret, Typing::Void));
}

#[test]
fn type_checker_counts_the_arguments_of_a_call() {
    let (_, es) = typecheck("fn two(a: int, b: int): int {\n  return a\n}\nfn main() {\n  two(1)\n}\n");
    assert_eq!(es.len(), 1);
    assert!(matches!(&es[0], TypeErrorCase::UnmatchedArguments { got: 1, expected: 2, too_much: false, .. }));
    let (_, es) = typecheck("fn one(): int {\n  return 1\n}\nfn main() {\n  let x = one()\n}\n");
    assert!(es.is_empty());
}

#[test]
fn type_checker_refuses_a_value_of_another_type_for_a_variable() {
    let (_, es) = typecheck("fn f() {\n  var x = 1;\n  x = true\n}\n");
    assert!(matches!(&es[0], TypeErrorCase::TypeMismatch { got, expected } if got == "bool" && expected == "int"));
}

#[test]
fn type_checker_gives_a_field_access_the_type_of_the_named_field() {
    let (_, es) = typecheck("struct A { a: int, b: bool }\nfn f() {\n  let s = A { a: 1, b: true };\n  var y = s.b;\n  y = false\n}\n");
    assert!(es.is_empty());
    let (_, es) = typecheck("struct A { a: int, b: bool }\nfn f() {\n  let s = A { a: 1, b: true };\n  var y = s.b;\n  y = 2\n}\n");
    assert!(matches!(&es[0], TypeErrorCase::TypeMismatch { got, expected } if got == "int" && expected == "bool"));
}

#[test]
fn type_checker_refuses_an_argument_of_another_type() {
    let (_, es) = typecheck("fn g(a: bool) {\n}\nfn main() {\n  g(1)\n}\n");
    assert!(matches!(&es[0], TypeErrorCase::TypeMismatch { got, expected } if got == "int" && expected == "bool"));
}

#[test]
fn type_checker_refuses_a_structure_field_of_another_type() {
    let (_, es) = typecheck("struct A { a: int, b: bool }\nfn f() {\n  let s = A { a: 1, b: 2 };\n}\n");
    assert!(matches!(&es[0], TypeErrorCase::TypeMismatch { got, expected } if got == "int" && expected == "bool"));
}

#[test]
fn type_checker_reports_every_function_that_never_returns_its_value() {
    let (p, es) = typecheck("fn a(): int {\n}\nenum E { A }\nfn b(): bool {\n}\n");
    assert_eq!(es.len(), 2);
    assert_eq!(p.nodes.len(), 1);
    assert!(matches!(&es[0], TypeErrorCase::NoReturn { function, .. } if function == "a"));
    assert!(matches!(&es[1], TypeErrorCase::NoReturn { function, .. } if function == "b"));
}
