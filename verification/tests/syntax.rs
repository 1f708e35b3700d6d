use elo::evaluated::Primitive;
use elo::ir;
use elo::syntax::{BinaryOperation, UnaryOperation};

#[test]
fn syntax_operators_are_read_from_their_characters() {
    assert_eq!(BinaryOperation::from_op('+', None), Some(BinaryOperation::Add));
    assert_eq!(BinaryOperation::from_op('=', Some('=')), Some(BinaryOperation::Eq));
    assert_eq!(BinaryOperation::from_op('>', Some('>')), Some(BinaryOperation::RShift));
    assert_eq!(BinaryOperation::from_op('=', None), Some(BinaryOperation::Assign));
    assert_eq!(BinaryOperation::from_op('+', Some('=')), None);
    assert_eq!(BinaryOperation::from_op('!', None), None);
    assert_eq!(UnaryOperation::from_op('!', None), Some(UnaryOperation::Not));
    assert_eq!(UnaryOperation::from_op('&', None), Some(UnaryOperation::Addr));
    assert_eq!(UnaryOperation::from_op('-', Some('=')), None);
    assert_eq!(UnaryOperation::from_op('+', None), None);
}

#[test]
fn evaluated_primitives_are_read_from_their_names() {
    assert_eq!(Primitive::from_string(String::from("i128")), Some(Primitive::I128));
    assert_eq!(Primitive::from_string(String::from("uint")), Some(Primitive::Uint));
    assert_eq!(Primitive::from_string(String::from("f32")), Some(Primitive::F32));
    assert_eq!(Primitive::from_string(String::from("str")), Some(Primitive::Str));
    assert_eq!(Primitive::from_string(String::from("float")), None);
    assert_eq!(Primitive::from_string(String::from("I64")), None);
    assert_eq!(Primitive::from_string(String::new()), None);
}

#[test]
fn ir_primitives_are_read_from_their_names() {
    assert_eq!(ir::Primitive::from_str("float"), Some(ir::Primitive::Float));
    assert_eq!(ir::Primitive::from_str("u128"), Some(ir::Primitive::U128));
    assert_eq!(ir::Primitive::from_str("char"), Some(ir::Primitive::Char));
    assert_eq!(ir::Primitive::from_str("Int"), None);
    assert_eq!(ir::Primitive::from_str(""), None);
}
