use elo::cir::{Primitive, Typing};
use elo::lexer::Lexer;
use elo::lowering::{Arith, BlockLabel, Instr, LlvmType, Lowering, choose_type};
use elo::parser::Parser;
use elo::semcheck::Validator;
use elo::span::InputFile;

fn program(src: &str) -> elo::cir::Program {
    let lx = Lexer::new(InputFile::new("test.elo", src));
    let nodes = Parser::new(lx).parse().unwrap().nodes;
    Validator::new().go(nodes).unwrap()
}

fn i32t() -> LlvmType {
    LlvmType::Int { bits: 32 }
}

#[test]
fn lowering_emits_each_step_in_order() {
    let p = program(
        "extern fn puts(s: str): i32;\nfn add(a: uint, b: uint): uint {\n  return a + b\n}\nfn main() {\n  let x = add(1, 2);\n  puts('hi')\n}\n",
    );
    let l = Lowering::generate_checked(&p).unwrap();
    let s = |x: &str| String::from(x);
    let expected = vec![
        Instr::DeclareFunction {
            name: s("puts"),
            parameters: vec![LlvmType::Pointer(Box::new(LlvmType::Int { bits: 8 }))],
            ret: Some(i32t()),
            variadic: false,
        },
        Instr::DeclareFunction { name: s("add"), parameters: vec![i32t(), i32t()], ret: Some(i32t()), variadic: false },
        Instr::AppendBlock { function: 1, label: BlockLabel::Entry },
        Instr::PositionAtEnd { block: 2 },
        Instr::Parameter { function: 1, index: 0, name: s("a") },
        Instr::Parameter { function: 1, index: 1, name: s("b") },
        Instr::Load { variable: 4, name: s("a") },
        Instr::Load { variable: 5, name: s("b") },
        Instr::Arith { operator: Arith::Add, left: 6, right: 7 },
        Instr::Return { value: Some(8) },
        Instr::DeclareFunction { name: s("main"), parameters: vec![], ret: None, variadic: false },
        Instr::AppendBlock { function: 10, label: BlockLabel::Entry },
        Instr::PositionAtEnd { block: 11 },
        Instr::Alloca { typing: i32t(), name: s("x") },
        Instr::ConstInt { bits: 32, value: 1 },
        Instr::ConstInt { bits: 32, value: 2 },
        Instr::Call { function: s("add"), arguments: vec![14, 15] },
        Instr::Store { slot: 13, value: 16 },
        Instr::StringPointer { value: s("hi") },
        Instr::Call { function: s("puts"), arguments: vec![18] },
    ];
    assert_eq!(l.code, expected);
}

#[test]
fn lowering_branches_to_three_blocks() {
    let p = program("fn f(c: bool) {\n  if c {\n    return\n  } else {\n    return\n  }\n}\n");
    let l = Lowering::generate_checked(&p).unwrap();
    let tail = &l.code[4..];
    assert_eq!(tail[0], Instr::AppendBlock { function: 0, label: BlockLabel::Branch });
    assert_eq!(tail[1], Instr::AppendBlock { function: 0, label: BlockLabel::Other });
    assert_eq!(tail[2], Instr::AppendBlock { function: 0, label: BlockLabel::Escape });
    assert_eq!(tail[3], Instr::Load { variable: 3, name: String::from("c") });
    assert_eq!(tail[4], Instr::CondBranch { condition: 7, then_block: 4, else_block: 5 });
    assert_eq!(tail[5], Instr::PositionAtEnd { block: 4 });
    assert_eq!(tail[6], Instr::Return { value: None });
    assert_eq!(tail[7], Instr::Branch { target: 6 });
    assert_eq!(tail[8], Instr::PositionAtEnd { block: 5 });
    assert_eq!(tail[9], Instr::Return { value: None });
    assert_eq!(tail[10], Instr::Branch { target: 6 });
    assert_eq!(tail[11], Instr::PositionAtEnd { block: 6 });
    assert_eq!(tail.len(), 12);
}

#[test]
fn lowering_makes_each_value_before_its_use() {
    let p = program("fn g(): uint {\n  return 3\n}\nfn main() {\n  var y = g() * 2;\n  y = 4\n}\n");
    let l = Lowering::generate_checked(&p);
    // assignment is not lowered
    assert!(l.is_none());
    let p = program("fn g(): uint {\n  return 3\n}\nfn main() {\n  let y = g() * 2;\n  let z = &y\n}\n");
    let l = Lowering::generate_checked(&p).unwrap();
    for (k, i) in l.code.iter().enumerate() {
        let refs: Vec<usize> = match i {
            Instr::Neg { operand } | Instr::Not { operand } | Instr::AddressOf { operand } => vec![*operand],
            Instr::Arith { left, right, .. } => vec![*left, *right],
            Instr::Call { arguments, .. } => arguments.clone(),
            Instr::Load { variable, .. } => vec![*variable],
            Instr::Store { slot, value } => vec![*slot, *value],
            Instr::Return { value: Some(v) } => vec![*v],
            Instr::AppendBlock { function, .. } | Instr::Parameter { function, .. } => vec![*function],
            Instr::PositionAtEnd { block } => vec![*block],
            _ => vec![],
        };
        assert!(refs.iter().all(|r| *r < k));
    }
}

#[test]
fn lowering_gives_global_constants() {
    let p = program("const a: uint = 5;\nconst s: str = 'hey'\n");
    let l = Lowering::generate_checked(&p).unwrap();
    assert_eq!(
        l.code,
        vec![
            Instr::GlobalInt { name: String::from("a"), value: 5 },
            Instr::GlobalString { name: String::from("s"), value: String::from("hey") },
        ]
    );
}

#[test]
fn lowering_refuses_loops() {
    let p = program("fn main() {\n  while true {\n  }\n}\n");
    assert!(Lowering::generate_checked(&p).is_none());
}

#[test]
fn lowering_chooses_llvm_types() {
    assert_eq!(choose_type(&Typing::Primitive(Primitive::Bool)), Some(LlvmType::Int { bits: 1 }));
    assert_eq!(choose_type(&Typing::Primitive(Primitive::Float)), Some(LlvmType::F64));
    assert_eq!(choose_type(&Typing::Primitive(Primitive::U64)), Some(LlvmType::Int { bits: 64 }));
    assert_eq!(choose_type(&Typing::Void), None);
    let p = Typing::Pointer { mutable: false, typ: Box::new(Typing::Primitive(Primitive::Str)) };
    assert_eq!(
        choose_type(&p),
        Some(LlvmType::Pointer(Box::new(LlvmType::Pointer(Box::new(LlvmType::Int { bits: 8 })))))
    );
}
