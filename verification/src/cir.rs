use vstd::prelude::*;
use crate::ast;
use crate::span::Span;
use crate::text::{decimal, decimal_text, signed_decimal, signed_decimal_text, str_eq};

verus! {

/// The binary operators of the checked program.
#[derive(Debug, Eq, PartialEq, Clone, Copy, Structural)]
pub enum BinaryOperation {
    Add,
    Sub,
    Mul,
    Div,
    Mod,
    Eq,
    Ne,
    Lt,
    Le,
    Gt,
    Ge,
    And,
    Or,
    BAnd,
    BOr,
    BXor,
    LShift,
    RShift,
    Assign,
    AssignAdd,
    AssignSub,
    AssignMul,
    AssignDiv,
    AssignMod,
    AssignBAnd,
    AssignBOr,
    AssignBXor,
}

/// The checked operator that an operator of the syntax stands for: the one of the same name.
pub open spec fn binop_from_ast(x: ast::BinaryOperation) -> BinaryOperation {
    match x {
        ast::BinaryOperation::Add => BinaryOperation::Add,
        ast::BinaryOperation::Sub => BinaryOperation::Sub,
        ast::BinaryOperation::Mul => BinaryOperation::Mul,
        ast::BinaryOperation::Div => BinaryOperation::Div,
        ast::BinaryOperation::Mod => BinaryOperation::Mod,
        ast::BinaryOperation::Eq => BinaryOperation::Eq,
        ast::BinaryOperation::Ne => BinaryOperation::Ne,
        ast::BinaryOperation::Lt => BinaryOperation::Lt,
        ast::BinaryOperation::Le => BinaryOperation::Le,
        ast::BinaryOperation::Gt => BinaryOperation::Gt,
        ast::BinaryOperation::Ge => BinaryOperation::Ge,
        ast::BinaryOperation::And => BinaryOperation::And,
        ast::BinaryOperation::Or => BinaryOperation::Or,
        ast::BinaryOperation::BAnd => BinaryOperation::BAnd,
        ast::BinaryOperation::BOr => BinaryOperation::BOr,
        ast::BinaryOperation::BXor => BinaryOperation::BXor,
        ast::BinaryOperation::LShift => BinaryOperation::LShift,
        ast::BinaryOperation::RShift => BinaryOperation::RShift,
        ast::BinaryOperation::Assign => BinaryOperation::Assign,
        ast::BinaryOperation::AssignAdd => BinaryOperation::AssignAdd,
        ast::BinaryOperation::AssignSub => BinaryOperation::AssignSub,
        ast::BinaryOperation::AssignMul => BinaryOperation::AssignMul,
        ast::BinaryOperation::AssignDiv => BinaryOperation::AssignDiv,
        ast::BinaryOperation::AssignMod => BinaryOperation::AssignMod,
        ast::BinaryOperation::AssignBAnd => BinaryOperation::AssignBAnd,
        ast::BinaryOperation::AssignBOr => BinaryOperation::AssignBOr,
        ast::BinaryOperation::AssignBXor => BinaryOperation::AssignBXor,
    }
}

/// How a checked binary operator is written.
pub open spec fn binop_symbol(x: BinaryOperation) -> Seq<char> {
    match x {
        BinaryOperation::Add => "+"@,
        BinaryOperation::Sub => "-"@,
        BinaryOperation::Mul => "*"@,
        BinaryOperation::Div => "/"@,
        BinaryOperation::Mod => "%"@,
        BinaryOperation::Eq => "=="@,
        BinaryOperation::Ne => "!="@,
        BinaryOperation::Lt => "<"@,
        BinaryOperation::Le => "<="@,
        BinaryOperation::Gt => ">"@,
        BinaryOperation::Ge => ">="@,
        BinaryOperation::And => "&&"@,
        BinaryOperation::Or => "||"@,
        BinaryOperation::BAnd => "&"@,
        BinaryOperation::BOr => "|"@,
        BinaryOperation::BXor => "^"@,
        BinaryOperation::LShift => "<<"@,
        BinaryOperation::RShift => ">>"@,
        BinaryOperation::Assign => "="@,
        BinaryOperation::AssignAdd => "+="@,
        BinaryOperation::AssignSub => "-="@,
        BinaryOperation::AssignMul => "*="@,
        BinaryOperation::AssignDiv => "/="@,
        BinaryOperation::AssignMod => "%="@,
        BinaryOperation::AssignBAnd => "&="@,
        BinaryOperation::AssignBOr => "|="@,
        BinaryOperation::AssignBXor => "^="@,
    }
}

impl BinaryOperation {
    /// The operator of the same name.
    pub fn from_ast(x: &ast::BinaryOperation) -> (r: Self)
        ensures
            r == binop_from_ast(*x),
    {
        match x {
            ast::BinaryOperation::Add => BinaryOperation::Add,
            ast::BinaryOperation::Sub => BinaryOperation::Sub,
            ast::BinaryOperation::Mul => BinaryOperation::Mul,
            ast::BinaryOperation::Div => BinaryOperation::Div,
            ast::BinaryOperation::Mod => BinaryOperation::Mod,
            ast::BinaryOperation::Eq => BinaryOperation::Eq,
            ast::BinaryOperation::Ne => BinaryOperation::Ne,
            ast::BinaryOperation::Lt => BinaryOperation::Lt,
            ast::BinaryOperation::Le => BinaryOperation::Le,
            ast::BinaryOperation::Gt => BinaryOperation::Gt,
            ast::BinaryOperation::Ge => BinaryOperation::Ge,
            ast::BinaryOperation::And => BinaryOperation::And,
            ast::BinaryOperation::Or => BinaryOperation::Or,
            ast::BinaryOperation::BAnd => BinaryOperation::BAnd,
            ast::BinaryOperation::BOr => BinaryOperation::BOr,
            ast::BinaryOperation::BXor => BinaryOperation::BXor,
            ast::BinaryOperation::LShift => BinaryOperation::LShift,
            ast::BinaryOperation::RShift => BinaryOperation::RShift,
            ast::BinaryOperation::Assign => BinaryOperation::Assign,
            ast::BinaryOperation::AssignAdd => BinaryOperation::AssignAdd,
            ast::BinaryOperation::AssignSub => BinaryOperation::AssignSub,
            ast::BinaryOperation::AssignMul => BinaryOperation::AssignMul,
            ast::BinaryOperation::AssignDiv => BinaryOperation::AssignDiv,
            ast::BinaryOperation::AssignMod => BinaryOperation::AssignMod,
            ast::BinaryOperation::AssignBAnd => BinaryOperation::AssignBAnd,
            ast::BinaryOperation::AssignBOr => BinaryOperation::AssignBOr,
            ast::BinaryOperation::AssignBXor => BinaryOperation::AssignBXor,
        }
    }

    /// How the operator is written.
    pub fn symbol(&self) -> (r: &'static str)
        ensures
            r@ == binop_symbol(*self),
    {
        match self {
            BinaryOperation::Add => "+",
            BinaryOperation::Sub => "-",
            BinaryOperation::Mul => "*",
            BinaryOperation::Div => "/",
            BinaryOperation::Mod => "%",
            BinaryOperation::Eq => "==",
            BinaryOperation::Ne => "!=",
            BinaryOperation::Lt => "<",
            BinaryOperation::Le => "<=",
            BinaryOperation::Gt => ">",
            BinaryOperation::Ge => ">=",
            BinaryOperation::And => "&&",
            BinaryOperation::Or => "||",
            BinaryOperation::BAnd => "&",
            BinaryOperation::BOr => "|",
            BinaryOperation::BXor => "^",
            BinaryOperation::LShift => "<<",
            BinaryOperation::RShift => ">>",
            BinaryOperation::Assign => "=",
            BinaryOperation::AssignAdd => "+=",
            BinaryOperation::AssignSub => "-=",
            BinaryOperation::AssignMul => "*=",
            BinaryOperation::AssignDiv => "/=",
            BinaryOperation::AssignMod => "%=",
            BinaryOperation::AssignBAnd => "&=",
            BinaryOperation::AssignBOr => "|=",
            BinaryOperation::AssignBXor => "^=",
        }
    }
}

/// The unary operators of the checked program.
#[derive(Debug, Eq, PartialEq, Clone, Copy, Structural)]
pub enum UnaryOperation {
    Neg,
    Not,
    BNot,
    Addr,
    Deref,
}

/// The checked operator that an operator of the syntax stands for: the one of the same name.
pub open spec fn unop_from_ast(x: ast::UnaryOperation) -> UnaryOperation {
    match x {
        ast::UnaryOperation::Neg => UnaryOperation::Neg,
        ast::UnaryOperation::Not => UnaryOperation::Not,
        ast::UnaryOperation::BNot => UnaryOperation::BNot,
        ast::UnaryOperation::Addr => UnaryOperation::Addr,
        ast::UnaryOperation::Deref => UnaryOperation::Deref,
    }
}

/// How a checked unary operator is written.
pub open spec fn unop_symbol(x: UnaryOperation) -> Seq<char> {
    match x {
        UnaryOperation::Neg => "-"@,
        UnaryOperation::Not => "!"@,
        UnaryOperation::BNot => "~"@,
        UnaryOperation::Addr => "&"@,
        UnaryOperation::Deref => "*"@,
    }
}

impl UnaryOperation {
    /// The operator of the same name.
    pub fn from_ast(x: &ast::UnaryOperation) -> (r: Self)
        ensures
            r == unop_from_ast(*x),
    {
        match x {
            ast::UnaryOperation::Neg => UnaryOperation::Neg,
            ast::UnaryOperation::Not => UnaryOperation::Not,
            ast::UnaryOperation::BNot => UnaryOperation::BNot,
            ast::UnaryOperation::Addr => UnaryOperation::Addr,
            ast::UnaryOperation::Deref => UnaryOperation::Deref,
        }
    }

    /// How the operator is written.
    pub fn symbol(&self) -> (r: &'static str)
        ensures
            r@ == unop_symbol(*self),
    {
        match self {
            UnaryOperation::Neg => "-",
            UnaryOperation::Not => "!",
            UnaryOperation::BNot => "~",
            UnaryOperation::Addr => "&",
            UnaryOperation::Deref => "*",
        }
    }
}

/// The primitive types of Elo.
#[derive(Debug, Eq, PartialEq, Clone, Copy, Structural)]
pub enum Primitive {
    I64,
    I32,
    I16,
    I8,
    U64,
    U32,
    U16,
    U8,
    Int,
    UInt,
    Float,
    F32,
    F64,
    Bool,
    Str,
    Char,
}

/// The primitive type a name denotes, if any.
pub open spec fn primitive_of(s: Seq<char>) -> Option<Primitive> {
    if s == "i64"@ {
        Some(Primitive::I64)
    } else if s == "i32"@ {
        Some(Primitive::I32)
    } else if s == "i16"@ {
        Some(Primitive::I16)
    } else if s == "i8"@ {
        Some(Primitive::I8)
    } else if s == "u64"@ {
        Some(Primitive::U64)
    } else if s == "u32"@ {
        Some(Primitive::U32)
    } else if s == "u16"@ {
        Some(Primitive::U16)
    } else if s == "u8"@ {
        Some(Primitive::U8)
    } else if s == "int"@ {
        Some(Primitive::Int)
    } else if s == "uint"@ {
        Some(Primitive::UInt)
    } else if s == "float"@ {
        Some(Primitive::Float)
    } else if s == "f32"@ {
        Some(Primitive::F32)
    } else if s == "f64"@ {
        Some(Primitive::F64)
    } else if s == "bool"@ {
        Some(Primitive::Bool)
    } else if s == "str"@ {
        Some(Primitive::Str)
    } else if s == "char"@ {
        Some(Primitive::Char)
    } else {
        None
    }
}

/// The name of a primitive type.
pub open spec fn primitive_name(p: Primitive) -> Seq<char> {
    match p {
        Primitive::I64 => "i64"@,
        Primitive::I32 => "i32"@,
        Primitive::I16 => "i16"@,
        Primitive::I8 => "i8"@,
        Primitive::U64 => "u64"@,
        Primitive::U32 => "u32"@,
        Primitive::U16 => "u16"@,
        Primitive::U8 => "u8"@,
        Primitive::Int => "int"@,
        Primitive::UInt => "uint"@,
        Primitive::Float => "float"@,
        Primitive::F32 => "f32"@,
        Primitive::F64 => "f64"@,
        Primitive::Bool => "bool"@,
        Primitive::Str => "str"@,
        Primitive::Char => "char"@,
    }
}

/// The size of a primitive type in bytes: `int` and `uint` are 32 bits wide, `float` 64, and a
/// `str` is a pointer.
pub open spec fn primitive_size(p: Primitive) -> usize {
    match p {
        Primitive::I64 => 8,
        Primitive::I32 => 4,
        Primitive::I16 => 2,
        Primitive::I8 => 1,
        Primitive::U64 => 8,
        Primitive::U32 => 4,
        Primitive::U16 => 2,
        Primitive::U8 => 1,
        Primitive::Int => 4,
        Primitive::UInt => 4,
        Primitive::Float => 8,
        Primitive::F32 => 4,
        Primitive::F64 => 8,
        Primitive::Bool => 1,
        Primitive::Str => 8,
        Primitive::Char => 4,
    }
}

impl Primitive {
    /// The primitive type named `s`, if any.
    pub fn from_str(s: &str) -> (r: Option<Primitive>)
        ensures
            r == primitive_of(s@),
    {
        if str_eq(s, "i64") {
            Some(Primitive::I64)
        } else if str_eq(s, "i32") {
            Some(Primitive::I32)
        } else if str_eq(s, "i16") {
            Some(Primitive::I16)
        } else if str_eq(s, "i8") {
            Some(Primitive::I8)
        } else if str_eq(s, "u64") {
            Some(Primitive::U64)
        } else if str_eq(s, "u32") {
            Some(Primitive::U32)
        } else if str_eq(s, "u16") {
            Some(Primitive::U16)
        } else if str_eq(s, "u8") {
            Some(Primitive::U8)
        } else if str_eq(s, "int") {
            Some(Primitive::Int)
        } else if str_eq(s, "uint") {
            Some(Primitive::UInt)
        } else if str_eq(s, "float") {
            Some(Primitive::Float)
        } else if str_eq(s, "f32") {
            Some(Primitive::F32)
        } else if str_eq(s, "f64") {
            Some(Primitive::F64)
        } else if str_eq(s, "bool") {
            Some(Primitive::Bool)
        } else if str_eq(s, "str") {
            Some(Primitive::Str)
        } else if str_eq(s, "char") {
            Some(Primitive::Char)
        } else {
            None
        }
    }

    /// The name of the type.
    pub fn name(&self) -> (r: &'static str)
        ensures
            r@ == primitive_name(*self),
    {
        match self {
            Primitive::I64 => "i64",
            Primitive::I32 => "i32",
            Primitive::I16 => "i16",
            Primitive::I8 => "i8",
            Primitive::U64 => "u64",
            Primitive::U32 => "u32",
            Primitive::U16 => "u16",
            Primitive::U8 => "u8",
            Primitive::Int => "int",
            Primitive::UInt => "uint",
            Primitive::Float => "float",
            Primitive::F32 => "f32",
            Primitive::F64 => "f64",
            Primitive::Bool => "bool",
            Primitive::Str => "str",
            Primitive::Char => "char",
        }
    }
}

/// What kind of value an expression is: a place in memory that may or may not be
/// assigned, an immediate value, or a function (extern or not).
#[derive(Debug, Eq, PartialEq, Clone, Copy, Structural)]
pub enum ExpressionIdentity {
    Locatable(bool),
    Immediate,
    Function(bool),
}

/// The functions that the compiler provides itself.
#[derive(Debug, Eq, PartialEq, Clone, Copy, Structural)]
pub enum Intrinsic {
    Print,
}

/// The intrinsic function a name denotes, if any.
pub open spec fn intrinsic_of(s: Seq<char>) -> Option<Intrinsic> {
    if s == "print"@ {
        Some(Intrinsic::Print)
    } else {
        None
    }
}

/// The name of an intrinsic function.
pub open spec fn intrinsic_name(i: Intrinsic) -> Seq<char> {
    match i {
        Intrinsic::Print => "print"@,
    }
}

impl Intrinsic {
    /// The intrinsic function named `s`, if any.
    pub fn from_str(s: &str) -> (r: Option<Intrinsic>)
        ensures
            r == intrinsic_of(s@),
    {
        if str_eq(s, "print") {
            Some(Intrinsic::Print)
        } else {
            None
        }
    }

    /// The name of the function.
    pub fn name(&self) -> (r: &'static str)
        ensures
            r@ == intrinsic_name(*self),
    {
        match self {
            Intrinsic::Print => "print",
        }
    }
}

/// A checked expression, where it stands, and what kind of value it is.
#[derive(Debug)]
pub struct Expression {
    pub span: Span,
    pub data: ExpressionData,
    pub identity: ExpressionIdentity,
}

#[derive(Debug)]
pub enum ExpressionData {
    BinaryOperation { operator: BinaryOperation, left: Box<Expression>, right: Box<Expression> },
    UnaryOperation { operator: UnaryOperation, operand: Box<Expression> },
    StringLiteral { value: String },
    ArrayLiteral { exprs: Vec<Expression>, typ: Typing },
    ArraySubscript { origin: Box<Expression>, index: Box<Expression> },
    FieldAccess { origin: Box<Expression>, field: String },
    EnumVariant { origin: String, variant: String },
    TupleAccess { origin: Box<Expression>, field: usize },
    FunctionCall { function: Box<Expression>, arguments: Vec<Expression> },
    IntrinsicCall { intrinsic: Intrinsic, arguments: Vec<Expression> },
    StructInit { origin: Struct, fields: Vec<Field> },
    Tuple { exprs: Vec<Expression>, types: Vec<Typing> },
    Integer { value: i128 },
    /// A decimal number `whole.fraction`, the digits as written.
    Float { whole: String, fraction: String },
    Bool { value: bool },
    Identifier { name: String },
    Cast { expr: Box<Expression>, typ: Typing },
}

/// A checked program: its statements.
#[derive(Debug)]
pub struct Program {
    pub nodes: Vec<Statement>,
}

#[derive(Debug)]
pub struct Function {
    pub head: FunctionHead,
    pub block: Vec<Statement>,
}

/// What callers know of a function.
#[derive(Debug)]
pub struct FunctionHead {
    pub name: String,
    pub ret: Typing,
    pub arguments: Vec<TypedField>,
    pub variadic: bool,
    pub extrn: bool,
}

/// A structure type: its name and its fields, in the order they were declared; a name
/// declared twice keeps the type it was given last.
#[derive(Debug)]
pub struct Struct {
    pub name: String,
    pub fields: Vec<TypedField>,
}

#[derive(Debug)]
pub struct Enum {
    pub name: String,
    pub variants: Vec<String>,
}

/// The types of the checked program.
#[derive(Debug)]
pub enum Typing {
    Void,
    Primitive(Primitive),
    Struct(Struct),
    Enum(Enum),
    Array { typ: Box<Typing>, amount: usize },
    Tuple { types: Vec<Typing> },
    Pointer { mutable: bool, typ: Box<Typing> },
    Function { ret: Box<Typing>, arguments: Vec<Typing>, variadic: bool, extrn: bool },
    Intrinsic(Intrinsic),
}

/// A name and its type.
#[derive(Debug)]
pub struct TypedField {
    pub name: String,
    pub typing: Typing,
}

/// A name and its value.
#[derive(Debug)]
pub struct Field {
    pub name: String,
    pub value: Expression,
}

/// A checked statement and where it stands.
#[derive(Debug)]
pub struct Statement {
    pub span: Span,
    pub kind: StatementKind,
}

#[derive(Debug)]
pub enum StatementKind {
    Variable { binding: String, assignment: Expression, typing: Typing },
    Constant { binding: String, value: Expression, typing: Typing },
    ReturnStatement { value: Option<Expression>, typing: Typing },
    IfStatement { condition: Expression, block_true: Vec<Statement>, block_false: Vec<Statement> },
    WhileStatement { condition: Expression, block: Vec<Statement> },
    FnStatement(Function),
    ExternFnStatement(FunctionHead),
    StructStatement(Struct),
    EnumStatement(Enum),
    ExpressionStatement(Expression),
}

/// Whether a type is one of the primitive types in `ps`.
pub open spec fn is_primitive_among(t: Typing, ps: Set<Primitive>) -> bool {
    t matches Typing::Primitive(p) && ps.contains(p)
}

/// The integer primitive types.
pub open spec fn integer_primitives() -> Set<Primitive> {
    set![Primitive::I64, Primitive::I32, Primitive::I16, Primitive::I8, Primitive::U64, Primitive::U32, Primitive::U16, Primitive::U8, Primitive::Int, Primitive::UInt]
}

/// The signed integer primitive types.
pub open spec fn signed_primitives() -> Set<Primitive> {
    set![Primitive::I64, Primitive::I32, Primitive::I16, Primitive::I8, Primitive::Int]
}

/// The unsigned integer primitive types.
pub open spec fn unsigned_primitives() -> Set<Primitive> {
    set![Primitive::U64, Primitive::U32, Primitive::U16, Primitive::U8, Primitive::UInt]
}

/// The floating-point primitive types.
pub open spec fn float_primitives() -> Set<Primitive> {
    set![Primitive::Float, Primitive::F32, Primitive::F64]
}

/// The size of a type in bytes, where it is a primitive type; 0 for any other type.
pub open spec fn typing_size(t: Typing) -> usize {
    match t {
        Typing::Primitive(p) => primitive_size(p),
        _ => 0,
    }
}

/// The signed integer type of the size of an unsigned one.
pub open spec fn signed_counterpart(p: Primitive) -> Option<Primitive> {
    match p {
        Primitive::U64 => Some(Primitive::I64),
        Primitive::U32 => Some(Primitive::I32),
        Primitive::U16 => Some(Primitive::I16),
        Primitive::U8 => Some(Primitive::I8),
        Primitive::UInt => Some(Primitive::Int),
        _ => None,
    }
}

impl Typing {
    pub fn is_integer(&self) -> (r: bool)
        ensures
            r == is_primitive_among(*self, integer_primitives()),
    {
        match self {
            Typing::Primitive(p) => match p {
                Primitive::I64 => true,
                Primitive::I32 => true,
                Primitive::I16 => true,
                Primitive::I8 => true,
                Primitive::U64 => true,
                Primitive::U32 => true,
                Primitive::U16 => true,
                Primitive::U8 => true,
                Primitive::Int => true,
                Primitive::UInt => true,
                _ => false,
            },
            _ => false,
        }
    }

    pub fn is_bool(&self) -> (r: bool)
        ensures
            r == (*self matches Typing::Primitive(Primitive::Bool)),
    {
        match self {
            Typing::Primitive(Primitive::Bool) => true,
            _ => false,
        }
    }

    pub fn is_float(&self) -> (r: bool)
        ensures
            r == is_primitive_among(*self, float_primitives()),
    {
        match self {
            Typing::Primitive(p) => match p {
                Primitive::Float => true,
                Primitive::F32 => true,
                Primitive::F64 => true,
                _ => false,
            },
            _ => false,
        }
    }

    pub fn is_signed(&self) -> (r: bool)
        ensures
            r == is_primitive_among(*self, signed_primitives()),
    {
        match self {
            Typing::Primitive(p) => match p {
                Primitive::I64 => true,
                Primitive::I32 => true,
                Primitive::I16 => true,
                Primitive::I8 => true,
                Primitive::Int => true,
                _ => false,
            },
            _ => false,
        }
    }

    pub fn is_unsigned(&self) -> (r: bool)
        ensures
            r == is_primitive_among(*self, unsigned_primitives()),
    {
        match self {
            Typing::Primitive(p) => match p {
                Primitive::U64 => true,
                Primitive::U32 => true,
                Primitive::U16 => true,
                Primitive::U8 => true,
                Primitive::UInt => true,
                _ => false,
            },
            _ => false,
        }
    }

    /// The size of the type in bytes; 0 for a type that is no primitive type.
    pub fn get_size(&self) -> (r: usize)
        ensures
            r == typing_size(*self),
    {
        match self {
            Typing::Primitive(p) => match p {
                Primitive::I64 => 8,
                Primitive::I32 => 4,
                Primitive::I16 => 2,
                Primitive::I8 => 1,
                Primitive::U64 => 8,
                Primitive::U32 => 4,
                Primitive::U16 => 2,
                Primitive::U8 => 1,
                Primitive::Int => 4,
                Primitive::UInt => 4,
                Primitive::Float => 8,
                Primitive::F32 => 4,
                Primitive::F64 => 8,
                Primitive::Bool => 1,
                Primitive::Str => 8,
                Primitive::Char => 4,
            },
            _ => 0,
        }
    }

    /// The signed integer type of the size of this unsigned one.
    pub fn get_signed(&self) -> (r: Option<Typing>)
        ensures
            match *self {
                Typing::Primitive(p) => match signed_counterpart(p) {
                    Some(q) => r matches Some(Typing::Primitive(x)) && x == q,
                    None => r is None,
                },
                _ => r is None,
            },
    {
        match self {
            Typing::Primitive(p) => match p {
                Primitive::U64 => Some(Typing::Primitive(Primitive::I64)),
                Primitive::U32 => Some(Typing::Primitive(Primitive::I32)),
                Primitive::U16 => Some(Typing::Primitive(Primitive::I16)),
                Primitive::U8 => Some(Typing::Primitive(Primitive::I8)),
                Primitive::UInt => Some(Typing::Primitive(Primitive::Int)),
                _ => None,
            },
            _ => None,
        }
    }
}

/// Whether two types are the same type: equal in every part, names by their text.
pub open spec fn typing_same(a: Typing, b: Typing) -> bool
    decreases a,
{
    match a {
        Typing::Void => b is Void,
        Typing::Primitive(p) => b matches Typing::Primitive(q) && p == q,
        Typing::Struct(s) => b matches Typing::Struct(t) && s.name@ == t.name@ && fields_same(
            s.fields@,
            t.fields@,
        ),
        Typing::Enum(e) => b matches Typing::Enum(f) && e.name@ == f.name@ && names_same(
            e.variants@,
            f.variants@,
        ),
        Typing::Array { typ, amount } => b matches Typing::Array { typ: t2, amount: n2 } && amount
            == n2 && typing_same(*typ, *t2),
        Typing::Tuple { types } => b matches Typing::Tuple { types: t2 } && typings_same(
            types@,
            t2@,
        ),
        Typing::Pointer { mutable, typ } => b matches Typing::Pointer { mutable: m2, typ: t2 }
            && mutable == m2 && typing_same(*typ, *t2),
        Typing::Function { ret, arguments, variadic, extrn } => b matches Typing::Function {
            ret: r2,
            arguments: a2,
            variadic: v2,
            extrn: e2,
        } && variadic == v2 && extrn == e2 && typing_same(*ret, *r2) && typings_same(
            arguments@,
            a2@,
        ),
        Typing::Intrinsic(i) => b matches Typing::Intrinsic(j) && i == j,
    }
}

/// Whether two lists of types are the same, element by element.
pub open spec fn typings_same(a: Seq<Typing>, b: Seq<Typing>) -> bool
    decreases a,
{
    if a.len() != b.len() {
        false
    } else if a.len() == 0 {
        true
    } else {
        typing_same(a[a.len() - 1], b[b.len() - 1]) && typings_same(
            a.subrange(0, a.len() - 1),
            b.subrange(0, b.len() - 1),
        )
    }
}

/// Whether two lists of named types are the same, element by element.
pub open spec fn fields_same(a: Seq<TypedField>, b: Seq<TypedField>) -> bool
    decreases a,
{
    if a.len() != b.len() {
        false
    } else if a.len() == 0 {
        true
    } else {
        a[a.len() - 1].name@ == b[b.len() - 1].name@ && typing_same(
            a[a.len() - 1].typing,
            b[b.len() - 1].typing,
        ) && fields_same(a.subrange(0, a.len() - 1), b.subrange(0, b.len() - 1))
    }
}

/// Whether two lists of names hold the same texts.
pub open spec fn names_same(a: Seq<String>, b: Seq<String>) -> bool {
    a.len() == b.len() && forall|i: int| 0 <= i < a.len() ==> #[trigger] a[i]@ == b[i]@
}

fn names_eq(a: &Vec<String>, b: &Vec<String>) -> (r: bool)
    ensures
        r == names_same(a@, b@),
{
    if a.len() != b.len() {
        return false;
    }
    let mut i: usize = 0;
    while i < a.len()
        invariant
            a@.len() == b@.len(),
            i <= a@.len(),
            forall|k: int| 0 <= k < i ==> #[trigger] a@[k]@ == b@[k]@,
        decreases a@.len() - i,
    {
        if !str_eq(a[i].as_str(), b[i].as_str()) {
            return false;
        }
        i = i + 1;
    }
    true
}

/// Whether two types are the same type.
pub fn typing_eq(a: &Typing, b: &Typing) -> (r: bool)
    ensures
        r == typing_same(*a, *b),
    decreases *a,
{
    match (a, b) {
        (Typing::Void, Typing::Void) => true,
        (Typing::Primitive(p), Typing::Primitive(q)) => *p == *q,
        (Typing::Struct(s), Typing::Struct(t)) => str_eq(s.name.as_str(), t.name.as_str())
            && fields_eq(&s.fields, &t.fields),
        (Typing::Enum(e), Typing::Enum(f)) => str_eq(e.name.as_str(), f.name.as_str()) && names_eq(
            &e.variants,
            &f.variants,
        ),
        (Typing::Array { typ, amount }, Typing::Array { typ: t2, amount: n2 }) => *amount == *n2
            && typing_eq(typ, t2),
        (Typing::Tuple { types }, Typing::Tuple { types: t2 }) => typings_eq(types, t2),
        (Typing::Pointer { mutable, typ }, Typing::Pointer { mutable: m2, typ: t2 }) => *mutable
            == *m2 && typing_eq(typ, t2),
        (
            Typing::Function { ret, arguments, variadic, extrn },
            Typing::Function { ret: r2, arguments: a2, variadic: v2, extrn: e2 },
        ) => *variadic == *v2 && *extrn == *e2 && typing_eq(ret, r2) && typings_eq(arguments, a2),
        (Typing::Intrinsic(i), Typing::Intrinsic(j)) => *i == *j,
        _ => false,
    }
}

/// Whether two lists of types are the same.
pub fn typings_eq(a: &Vec<Typing>, b: &Vec<Typing>) -> (r: bool)
    ensures
        r == typings_same(a@, b@),
    decreases a@,
{
    if a.len() != b.len() {
        return false;
    }
    let mut i: usize = 0;
    while i < a.len()
        invariant
            a@.len() == b@.len(),
            i <= a@.len(),
            typings_same(a@.subrange(0, i as int), b@.subrange(0, i as int)),
        decreases a@.len() - i,
    {
        proof {
            assert(decreases_to!(a@ => a@[i as int]));
        }
        if !typing_eq(&a[i], &b[i]) {
            proof {
                if typings_same(a@, b@) {
                    lemma_typings_same_prefix(a@, b@, (i + 1) as int);
                    let pa = a@.subrange(0, i + 1);
                    let pb = b@.subrange(0, i + 1);
                    assert(pa[pa.len() - 1] == a@[i as int]);
                    assert(pb[pb.len() - 1] == b@[i as int]);
                }
            }
            return false;
        }
        let ghost pa = a@.subrange(0, i + 1);
        let ghost pb = b@.subrange(0, i + 1);
        assert(pa.subrange(0, pa.len() - 1) =~= a@.subrange(0, i as int));
        assert(pb.subrange(0, pb.len() - 1) =~= b@.subrange(0, i as int));
        i = i + 1;
    }
    assert(a@.subrange(0, a@.len() as int) =~= a@);
    assert(b@.subrange(0, b@.len() as int) =~= b@);
    true
}

/// Lists of types that are the same have the same prefixes.
proof fn lemma_typings_same_prefix(a: Seq<Typing>, b: Seq<Typing>, k: int)
    requires
        typings_same(a, b),
        0 <= k <= a.len(),
    ensures
        typings_same(a.subrange(0, k), b.subrange(0, k)),
    decreases a.len() - k,
{
    if k < a.len() {
        assert(a.subrange(0, a.len() - 1).len() == a.len() - 1);
        lemma_typings_same_prefix(a.subrange(0, a.len() - 1), b.subrange(0, b.len() - 1), k);
        assert(a.subrange(0, a.len() - 1).subrange(0, k) =~= a.subrange(0, k));
        assert(b.subrange(0, b.len() - 1).subrange(0, k) =~= b.subrange(0, k));
    } else {
        assert(a.subrange(0, k) =~= a);
        assert(b.subrange(0, k) =~= b);
    }
}

/// Lists of named types that are the same have the same prefixes.
proof fn lemma_fields_same_prefix(a: Seq<TypedField>, b: Seq<TypedField>, k: int)
    requires
        fields_same(a, b),
        0 <= k <= a.len(),
    ensures
        fields_same(a.subrange(0, k), b.subrange(0, k)),
    decreases a.len() - k,
{
    if k < a.len() {
        lemma_fields_same_prefix(a.subrange(0, a.len() - 1), b.subrange(0, b.len() - 1), k);
        assert(a.subrange(0, a.len() - 1).subrange(0, k) =~= a.subrange(0, k));
        assert(b.subrange(0, b.len() - 1).subrange(0, k) =~= b.subrange(0, k));
    } else {
        assert(a.subrange(0, k) =~= a);
        assert(b.subrange(0, k) =~= b);
    }
}

/// Whether two lists of named types are the same.
fn fields_eq(a: &Vec<TypedField>, b: &Vec<TypedField>) -> (r: bool)
    ensures
        r == fields_same(a@, b@),
    decreases a@,
{
    if a.len() != b.len() {
        return false;
    }
    let mut i: usize = 0;
    while i < a.len()
        invariant
            a@.len() == b@.len(),
            i <= a@.len(),
            fields_same(a@.subrange(0, i as int), b@.subrange(0, i as int)),
        decreases a@.len() - i,
    {
        proof {
            assert(decreases_to!(a@ => a@[i as int]));
            assert(decreases_to!(a@[i as int] => a@[i as int].typing));
        }
        if !(str_eq(a[i].name.as_str(), b[i].name.as_str()) && typing_eq(&a[i].typing, &b[i].typing)) {
            proof {
                if fields_same(a@, b@) {
                    lemma_fields_same_prefix(a@, b@, (i + 1) as int);
                    let pa = a@.subrange(0, i + 1);
                    let pb = b@.subrange(0, i + 1);
                    assert(pa[pa.len() - 1] == a@[i as int]);
                    assert(pb[pb.len() - 1] == b@[i as int]);
                }
            }
            return false;
        }
        let ghost pa = a@.subrange(0, i + 1);
        let ghost pb = b@.subrange(0, i + 1);
        assert(pa.subrange(0, pa.len() - 1) =~= a@.subrange(0, i as int));
        assert(pb.subrange(0, pb.len() - 1) =~= b@.subrange(0, i as int));
        i = i + 1;
    }
    assert(a@.subrange(0, a@.len() as int) =~= a@);
    assert(b@.subrange(0, b@.len() as int) =~= b@);
    true
}

/// A copy of a list of names.
pub fn copy_names(v: &Vec<String>) -> (r: Vec<String>)
    ensures
        names_same(v@, r@),
{
    let mut r: Vec<String> = Vec::new();
    let mut i: usize = 0;
    while i < v.len()
        invariant
            i <= v@.len(),
            r@.len() == i,
            forall|k: int| 0 <= k < i ==> #[trigger] v@[k]@ == r@[k]@,
        decreases v@.len() - i,
    {
        r.push(v[i].clone());
        i = i + 1;
    }
    r
}

impl Typing {
    /// The same type, separately owned.
    pub fn copy(&self) -> (r: Typing)
        ensures
            typing_same(*self, r),
        decreases *self,
    {
        match self {
            Typing::Void => Typing::Void,
            Typing::Primitive(p) => Typing::Primitive(*p),
            Typing::Struct(s) => Typing::Struct(s.copy()),
            Typing::Enum(e) => Typing::Enum(e.copy()),
            Typing::Array { typ, amount } => Typing::Array { typ: Box::new(typ.copy()), amount: *amount },
            Typing::Tuple { types } => Typing::Tuple { types: copy_typings(types) },
            Typing::Pointer { mutable, typ } => Typing::Pointer { mutable: *mutable, typ: Box::new(typ.copy()) },
            Typing::Function { ret, arguments, variadic, extrn } => Typing::Function {
                ret: Box::new(ret.copy()),
                arguments: copy_typings(arguments),
                variadic: *variadic,
                extrn: *extrn,
            },
            Typing::Intrinsic(i) => Typing::Intrinsic(*i),
        }
    }
}

/// A copy of a list of types.
pub fn copy_typings(v: &Vec<Typing>) -> (r: Vec<Typing>)
    ensures
        typings_same(v@, r@),
    decreases v@,
{
    let mut r: Vec<Typing> = Vec::new();
    let mut i: usize = 0;
    while i < v.len()
        invariant
            i <= v@.len(),
            r@.len() == i,
            typings_same(v@.subrange(0, i as int), r@),
        decreases v@.len() - i,
    {
        proof {
            assert(decreases_to!(v@ => v@[i as int]));
        }
        let t = v[i].copy();
        let ghost old_r = r@;
        r.push(t);
        proof {
            let pa = v@.subrange(0, i + 1);
            assert(pa.subrange(0, pa.len() - 1) =~= v@.subrange(0, i as int));
            assert(r@.subrange(0, r@.len() - 1) =~= old_r);
        }
        i = i + 1;
    }
    assert(v@.subrange(0, v@.len() as int) =~= v@);
    r
}

/// A copy of a list of named types.
pub fn copy_fields(v: &Vec<TypedField>) -> (r: Vec<TypedField>)
    ensures
        fields_same(v@, r@),
    decreases v@,
{
    let mut r: Vec<TypedField> = Vec::new();
    let mut i: usize = 0;
    while i < v.len()
        invariant
            i <= v@.len(),
            r@.len() == i,
            fields_same(v@.subrange(0, i as int), r@),
        decreases v@.len() - i,
    {
        proof {
            assert(decreases_to!(v@ => v@[i as int]));
            assert(decreases_to!(v@[i as int] => v@[i as int].typing));
        }
        let f = TypedField { name: v[i].name.clone(), typing: v[i].typing.copy() };
        let ghost old_r = r@;
        r.push(f);
        proof {
            let pa = v@.subrange(0, i + 1);
            assert(pa.subrange(0, pa.len() - 1) =~= v@.subrange(0, i as int));
            assert(r@.subrange(0, r@.len() - 1) =~= old_r);
        }
        i = i + 1;
    }
    assert(v@.subrange(0, v@.len() as int) =~= v@);
    r
}

impl Struct {
    /// The same structure type, separately owned.
    pub fn copy(&self) -> (r: Struct)
        ensures
            r.name@ == self.name@,
            fields_same(self.fields@, r.fields@),
        decreases *self,
    {
        Struct { name: self.name.clone(), fields: copy_fields(&self.fields) }
    }
}

impl Enum {
    /// The same enumeration type, separately owned.
    pub fn copy(&self) -> (r: Enum)
        ensures
            r.name@ == self.name@,
            names_same(self.variants@, r.variants@),
    {
        Enum { name: self.name.clone(), variants: copy_names(&self.variants) }
    }
}

impl FunctionHead {
    /// The same head, separately owned.
    pub fn copy(&self) -> (r: FunctionHead)
        ensures
            r.name@ == self.name@,
            typing_same(self.ret, r.ret),
            fields_same(self.arguments@, r.arguments@),
            r.variadic == self.variadic,
            r.extrn == self.extrn,
    {
        FunctionHead {
            name: self.name.clone(),
            ret: self.ret.copy(),
            arguments: copy_fields(&self.arguments),
            variadic: self.variadic,
            extrn: self.extrn,
        }
    }
}

/// How a type is displayed in messages. (`void` is shown as `void`.)
pub open spec fn typing_display(t: Typing) -> Seq<char>
    decreases t,
{
    match t {
        Typing::Void => "void"@,
        Typing::Primitive(p) => primitive_name(p),
        Typing::Struct(s) => "struct "@ + s.name@,
        Typing::Enum(e) => "enum "@ + e.name@,
        Typing::Array { typ, amount } => "{"@ + typing_display(*typ) + "; "@ + decimal_text(
            amount as nat,
        ) + "}"@,
        Typing::Tuple { types } => "("@ + typings_display(types@) + ")"@,
        Typing::Pointer { mutable, typ } => "*"@ + (if mutable {
            "mut "@
        } else {
            Seq::<char>::empty()
        }) + typing_display(*typ),
        Typing::Function { ret, arguments, variadic, extrn: _ } => "fn ("@ + typings_display(
            arguments@,
        ) + (if variadic {
            ", ..."@
        } else {
            Seq::<char>::empty()
        }) + ")"@ + (if *ret is Void {
            Seq::<char>::empty()
        } else {
            ": "@ + typing_display(*ret)
        }),
        Typing::Intrinsic(i) => intrinsic_name(i),
    }
}

/// How a list of types is displayed: separated by `, `.
pub open spec fn typings_display(s: Seq<Typing>) -> Seq<char>
    decreases s,
{
    if s.len() == 0 {
        Seq::empty()
    } else if s.len() == 1 {
        typing_display(s[0])
    } else {
        typings_display(s.subrange(0, s.len() - 1)) + ", "@ + typing_display(s[s.len() - 1])
    }
}

/// How a list of types is displayed.
fn typings_text(v: &Vec<Typing>) -> (r: String)
    ensures
        r@ == typings_display(v@),
    decreases v@,
{
    let mut r = String::new();
    let mut i: usize = 0;
    while i < v.len()
        invariant
            i <= v@.len(),
            r@ == typings_display(v@.subrange(0, i as int)),
        decreases v@.len() - i,
    {
        proof {
            assert(decreases_to!(v@ => v@[i as int]));
        }
        let t = typing_text(&v[i]);
        let ghost pa = v@.subrange(0, i + 1);
        assert(pa.subrange(0, pa.len() - 1) =~= v@.subrange(0, i as int));
        if i == 0 {
            assert(r@ =~= Seq::<char>::empty());
            r = t;
        } else {
            r.append(", ");
            r.append(t.as_str());
        }
        i = i + 1;
    }
    assert(v@.subrange(0, v@.len() as int) =~= v@);
    r
}

/// How a type is displayed in messages.
pub fn typing_text(t: &Typing) -> (r: String)
    ensures
        r@ == typing_display(*t),
    decreases *t,
{
    match t {
        Typing::Void => String::from_str("void"),
        Typing::Primitive(p) => String::from_str(p.name()),
        Typing::Struct(s) => {
            let mut r = String::from_str("struct ");
            r.append(s.name.as_str());
            r
        },
        Typing::Enum(e) => {
            let mut r = String::from_str("enum ");
            r.append(e.name.as_str());
            r
        },
        Typing::Array { typ, amount } => {
            let mut r = String::from_str("{");
            r.append(typing_text(typ).as_str());
            r.append("; ");
            r.append(decimal(*amount).as_str());
            r.append("}");
            r
        },
        Typing::Tuple { types } => {
            let mut r = String::from_str("(");
            r.append(typings_text(types).as_str());
            r.append(")");
            r
        },
        Typing::Pointer { mutable, typ } => {
            let mut r = String::from_str("*");
            let ghost star = r@;
            if *mutable {
                r.append("mut ");
            } else {
                assert(star + Seq::<char>::empty() =~= star);
            }
            r.append(typing_text(typ).as_str());
            r
        },
        Typing::Function { ret, arguments, variadic, extrn: _ } => {
            let mut r = String::from_str("fn (");
            r.append(typings_text(arguments).as_str());
            let ghost before = r@;
            if *variadic {
                r.append(", ...");
            } else {
                assert(before + Seq::<char>::empty() =~= before);
            }
            r.append(")");
            let ghost closed = r@;
            match **ret {
                Typing::Void => {
                    assert(closed + Seq::<char>::empty() =~= closed);
                },
                _ => {
                    let rt = typing_text(ret);
                    let mut tail = String::from_str(": ");
                    tail.append(rt.as_str());
                    r.append(tail.as_str());
                },
            }
            r
        },
        Typing::Intrinsic(i) => String::from_str(i.name()),
    }
}

/// How the first of a list of arguments is shown, with `, ...` after it where more follow.
pub open spec fn first_shown(s: Seq<Expression>) -> Seq<char>
    decreases s,
{
    if s.len() == 1 {
        expr_display(s[0])
    } else if s.len() >= 2 {
        expr_display(s[0]) + ", ..."@
    } else {
        Seq::empty()
    }
}

/// How a checked expression is displayed in messages.
pub open spec fn expr_display(e: Expression) -> Seq<char>
    decreases e,
{
    match e.data {
        ExpressionData::BinaryOperation { operator, left, right } => expr_display(*left) + " "@
            + binop_symbol(operator) + " "@ + expr_display(*right),
        ExpressionData::UnaryOperation { operator, operand } => unop_symbol(operator) + expr_display(
            *operand,
        ),
        ExpressionData::StringLiteral { value } => "\""@ + value@ + "\""@,
        ExpressionData::ArraySubscript { origin, index } => "\""@ + expr_display(*origin) + "["@
            + expr_display(*index) + "]\""@,
        ExpressionData::ArrayLiteral { exprs, typ: _ } => "{"@ + (if exprs@.len() > 0 {
            expr_display(exprs@[0])
        } else {
            Seq::<char>::empty()
        }) + (if exprs@.len() > 1 {
            "..."@
        } else {
            Seq::<char>::empty()
        }) + "}"@,
        ExpressionData::FieldAccess { origin, field } => expr_display(*origin) + "."@ + field@,
        ExpressionData::TupleAccess { origin, field } => expr_display(*origin) + "."@
            + decimal_text(field as nat),
        ExpressionData::EnumVariant { origin, variant } => origin@ + "."@ + variant@,
        ExpressionData::FunctionCall { function, arguments } => expr_display(*function) + "("@
            + first_shown(arguments@) + ")"@,
        ExpressionData::IntrinsicCall { intrinsic, arguments } => intrinsic_name(intrinsic) + "("@
            + first_shown(arguments@) + ")"@,
        ExpressionData::StructInit { origin, fields } => origin.name@ + " {"@ + (if fields@.len()
            >= 1 {
            fields@[0].name@ + ": "@ + expr_display(fields@[0].value) + (if fields@.len() >= 2 {
                ", ..."@
            } else {
                Seq::<char>::empty()
            })
        } else {
            Seq::<char>::empty()
        }) + " }"@,
        ExpressionData::Tuple { exprs, types: _ } => "("@ + (if exprs@.len() == 1 {
            expr_display(exprs@[0])
        } else if exprs@.len() >= 2 {
            expr_display(exprs@[0]) + ", ... "@ + decimal_text((exprs@.len() - 1) as nat)
                + " more"@
        } else {
            Seq::<char>::empty()
        }) + ")"@,
        ExpressionData::Cast { expr, typ } => expr_display(*expr) + " as "@ + typing_display(typ),
        ExpressionData::Integer { value } => signed_decimal_text(value as int),
        ExpressionData::Float { whole, fraction } => whole@ + "."@ + fraction@,
        ExpressionData::Bool { value } => if value {
            "true"@
        } else {
            "false"@
        },
        ExpressionData::Identifier { name } => name@,
    }
}

/// How the first of a list of arguments is shown.
fn first_text(v: &Vec<Expression>) -> (r: String)
    ensures
        r@ == first_shown(v@),
    decreases v@,
{
    if v.len() == 0 {
        return String::new();
    }
    proof {
        assert(decreases_to!(v@ => v@[0]));
    }
    let mut r = expr_text(&v[0]);
    if v.len() >= 2 {
        r.append(", ...");
    }
    r
}

/// How a checked expression is displayed in messages.
pub fn expr_text(e: &Expression) -> (r: String)
    ensures
        r@ == expr_display(*e),
    decreases *e,
{
    let ghost empty = Seq::<char>::empty();
    match &e.data {
        ExpressionData::BinaryOperation { operator, left, right } => {
            let mut r = expr_text(left);
            r.append(" ");
            r.append(operator.symbol());
            r.append(" ");
            r.append(expr_text(right).as_str());
            r
        },
        ExpressionData::UnaryOperation { operator, operand } => {
            let mut r = String::from_str(operator.symbol());
            r.append(expr_text(operand).as_str());
            r
        },
        ExpressionData::StringLiteral { value } => {
            let mut r = String::from_str("\"");
            r.append(value.as_str());
            r.append("\"");
            r
        },
        ExpressionData::ArraySubscript { origin, index } => {
            let mut r = String::from_str("\"");
            r.append(expr_text(origin).as_str());
            r.append("[");
            r.append(expr_text(index).as_str());
            r.append("]\"");
            r
        },
        ExpressionData::ArrayLiteral { exprs, typ: _ } => {
            let mut r = String::from_str("{");
            let ghost a = r@;
            if exprs.len() > 0 {
                proof {
                    assert(decreases_to!(exprs@ => exprs@[0]));
                }
                r.append(expr_text(&exprs[0]).as_str());
            } else {
                assert(a + empty =~= a);
            }
            let ghost b = r@;
            if exprs.len() > 1 {
                r.append("...");
            } else {
                assert(b + empty =~= b);
            }
            r.append("}");
            r
        },
        ExpressionData::FieldAccess { origin, field } => {
            let mut r = expr_text(origin);
            r.append(".");
            r.append(field.as_str());
            r
        },
        ExpressionData::TupleAccess { origin, field } => {
            let mut r = expr_text(origin);
            r.append(".");
            r.append(decimal(*field).as_str());
            r
        },
        ExpressionData::EnumVariant { origin, variant } => {
            let mut r = origin.clone();
            r.append(".");
            r.append(variant.as_str());
            r
        },
        ExpressionData::FunctionCall { function, arguments } => {
            let mut r = expr_text(function);
            r.append("(");
            r.append(first_text(arguments).as_str());
            r.append(")");
            r
        },
        ExpressionData::IntrinsicCall { intrinsic, arguments } => {
            let mut r = String::from_str(intrinsic.name());
            r.append("(");
            r.append(first_text(arguments).as_str());
            r.append(")");
            r
        },
        ExpressionData::StructInit { origin, fields } => {
            let mut r = origin.name.clone();
            r.append(" {");
            let ghost a = r@;
            if fields.len() >= 1 {
                proof {
                    assert(decreases_to!(fields@ => fields@[0]));
                    assert(decreases_to!(fields@[0] => fields@[0].value));
                }
                let mut inner = fields[0].name.clone();
                inner.append(": ");
                inner.append(expr_text(&fields[0].value).as_str());
                let ghost c = inner@;
                if fields.len() >= 2 {
                    inner.append(", ...");
                } else {
                    assert(c + empty =~= c);
                }
                r.append(inner.as_str());
            } else {
                assert(a + empty =~= a);
            }
            r.append(" }");
            r
        },
        ExpressionData::Tuple { exprs, types: _ } => {
            let mut r = String::from_str("(");
            let ghost a = r@;
            if exprs.len() == 1 {
                proof {
                    assert(decreases_to!(exprs@ => exprs@[0]));
                }
                r.append(expr_text(&exprs[0]).as_str());
            } else if exprs.len() >= 2 {
                proof {
                    assert(decreases_to!(exprs@ => exprs@[0]));
                }
                let mut inner = expr_text(&exprs[0]);
                inner.append(", ... ");
                inner.append(decimal(exprs.len() - 1).as_str());
                inner.append(" more");
                r.append(inner.as_str());
            } else {
                assert(a + empty =~= a);
            }
            r.append(")");
            r
        },
        ExpressionData::Cast { expr, typ } => {
            let mut r = expr_text(expr);
            r.append(" as ");
            r.append(typing_text(typ).as_str());
            r
        },
        ExpressionData::Integer { value } => signed_decimal(*value),
        ExpressionData::Float { whole, fraction } => {
            let mut r = whole.clone();
            r.append(".");
            r.append(fraction.as_str());
            r
        },
        ExpressionData::Bool { value } => if *value {
            String::from_str("true")
        } else {
            String::from_str("false")
        },
        ExpressionData::Identifier { name } => name.clone(),
    }
}

/// The type of the last field of a list that has that name, if one has it.
pub open spec fn field_typing(fields: Seq<TypedField>, name: Seq<char>) -> Option<Typing>
    decreases fields.len(),
{
    if fields.len() == 0 {
        None
    } else if fields[fields.len() - 1].name@ == name {
        Some(fields[fields.len() - 1].typing)
    } else {
        field_typing(fields.subrange(0, fields.len() - 1), name)
    }
}

/// Being the same type is transitive.
pub proof fn lemma_typing_same_transitive(a: Typing, b: Typing, c: Typing)
    requires
        typing_same(a, b),
        typing_same(b, c),
    ensures
        typing_same(a, c),
    decreases a,
{
    match (a, b, c) {
        (Typing::Struct(s), Typing::Struct(t), Typing::Struct(u)) => {
            lemma_fields_same_transitive(s.fields@, t.fields@, u.fields@);
        },
        (Typing::Array { typ, .. }, Typing::Array { typ: t, .. }, Typing::Array { typ: u, .. }) => {
            lemma_typing_same_transitive(*typ, *t, *u);
        },
        (Typing::Tuple { types }, Typing::Tuple { types: t }, Typing::Tuple { types: u }) => {
            lemma_typings_same_transitive(types@, t@, u@);
        },
        (Typing::Pointer { typ, .. }, Typing::Pointer { typ: t, .. }, Typing::Pointer { typ: u, .. }) => {
            lemma_typing_same_transitive(*typ, *t, *u);
        },
        (Typing::Function { ret, arguments, .. }, Typing::Function { ret: r2, arguments: a2, .. }, Typing::Function { ret: r3, arguments: a3, .. }) => {
            lemma_typing_same_transitive(*ret, *r2, *r3);
            lemma_typings_same_transitive(arguments@, a2@, a3@);
        },
        _ => {},
    }
}

/// Being the same list of types is transitive.
pub proof fn lemma_typings_same_transitive(a: Seq<Typing>, b: Seq<Typing>, c: Seq<Typing>)
    requires
        typings_same(a, b),
        typings_same(b, c),
    ensures
        typings_same(a, c),
    decreases a,
{
    if a.len() > 0 {
        lemma_typing_same_transitive(a[a.len() - 1], b[b.len() - 1], c[c.len() - 1]);
        lemma_typings_same_transitive(a.subrange(0, a.len() - 1), b.subrange(0, b.len() - 1), c.subrange(0, c.len() - 1));
    }
}

/// Being the same list of named types is transitive.
pub proof fn lemma_fields_same_transitive(a: Seq<TypedField>, b: Seq<TypedField>, c: Seq<TypedField>)
    requires
        fields_same(a, b),
        fields_same(b, c),
    ensures
        fields_same(a, c),
    decreases a,
{
    if a.len() > 0 {
        lemma_typing_same_transitive(a[a.len() - 1].typing, b[b.len() - 1].typing, c[c.len() - 1].typing);
        lemma_fields_same_transitive(a.subrange(0, a.len() - 1), b.subrange(0, b.len() - 1), c.subrange(0, c.len() - 1));
    }
}

/// Lists of named types that are the same give a name the same type.
pub proof fn lemma_field_typing_same(a: Seq<TypedField>, b: Seq<TypedField>, name: Seq<char>)
    requires
        fields_same(a, b),
    ensures
        match field_typing(a, name) {
            Some(ta) => field_typing(b, name) matches Some(tb) && typing_same(ta, tb),
            None => field_typing(b, name) is None,
        },
    decreases a.len(),
{
    if a.len() > 0 {
        lemma_field_typing_same(a.subrange(0, a.len() - 1), b.subrange(0, b.len() - 1), name);
    }
}

/// Being the same type is symmetric.
pub proof fn lemma_typing_same_symmetric(a: Typing, b: Typing)
    requires
        typing_same(a, b),
    ensures
        typing_same(b, a),
    decreases a,
{
    match (a, b) {
        (Typing::Struct(s), Typing::Struct(t)) => {
            lemma_fields_same_symmetric(s.fields@, t.fields@);
        },
        (Typing::Array { typ, .. }, Typing::Array { typ: t, .. }) => {
            lemma_typing_same_symmetric(*typ, *t);
        },
        (Typing::Tuple { types }, Typing::Tuple { types: t }) => {
            lemma_typings_same_symmetric(types@, t@);
        },
        (Typing::Pointer { typ, .. }, Typing::Pointer { typ: t, .. }) => {
            lemma_typing_same_symmetric(*typ, *t);
        },
        (Typing::Function { ret, arguments, .. }, Typing::Function { ret: r2, arguments: a2, .. }) => {
            lemma_typing_same_symmetric(*ret, *r2);
            lemma_typings_same_symmetric(arguments@, a2@);
        },
        _ => {},
    }
}

/// Being the same list of types is symmetric.
pub proof fn lemma_typings_same_symmetric(a: Seq<Typing>, b: Seq<Typing>)
    requires
        typings_same(a, b),
    ensures
        typings_same(b, a),
    decreases a,
{
    if a.len() > 0 {
        lemma_typing_same_symmetric(a[a.len() - 1], b[b.len() - 1]);
        lemma_typings_same_symmetric(a.subrange(0, a.len() - 1), b.subrange(0, b.len() - 1));
    }
}

/// Being the same list of named types is symmetric.
pub proof fn lemma_fields_same_symmetric(a: Seq<TypedField>, b: Seq<TypedField>)
    requires
        fields_same(a, b),
    ensures
        fields_same(b, a),
    decreases a,
{
    if a.len() > 0 {
        lemma_typing_same_symmetric(a[a.len() - 1].typing, b[b.len() - 1].typing);
        lemma_fields_same_symmetric(a.subrange(0, a.len() - 1), b.subrange(0, b.len() - 1));
    }
}

/// Lists of types that are the same have the same type at each place.
pub proof fn lemma_typings_same_index(a: Seq<Typing>, b: Seq<Typing>, i: int)
    requires
        typings_same(a, b),
        0 <= i < a.len(),
    ensures
        b.len() == a.len(),
        typing_same(a[i], b[i]),
    decreases a.len(),
{
    if i < a.len() - 1 {
        lemma_typings_same_index(a.subrange(0, a.len() - 1), b.subrange(0, b.len() - 1), i);
    }
}

/// Each operator of the syntax stands for the checked operator written the same way, so
/// that `<` stays `<` and never turns into `>`.
pub proof fn law_binop_from_ast_keeps_symbol(op: ast::BinaryOperation)
    ensures
        binop_symbol(binop_from_ast(op)) == ast::binop_text(op),
        ast::binop_of_text(binop_symbol(binop_from_ast(op))) == Some(op),
{
    reveal_strlit("+");
    reveal_strlit("-");
    reveal_strlit("*");
    reveal_strlit("/");
    reveal_strlit("%");
    reveal_strlit("==");
    reveal_strlit("!=");
    reveal_strlit("<");
    reveal_strlit("<=");
    reveal_strlit(">");
    reveal_strlit(">=");
    reveal_strlit("&&");
    reveal_strlit("||");
    reveal_strlit("&");
    reveal_strlit("|");
    reveal_strlit("^");
    reveal_strlit("<<");
    reveal_strlit(">>");
    reveal_strlit("=");
    reveal_strlit("+=");
    reveal_strlit("-=");
    reveal_strlit("*=");
    reveal_strlit("/=");
    reveal_strlit("%=");
    reveal_strlit("&=");
    reveal_strlit("|=");
    reveal_strlit("^=");
    assert(binop_symbol(binop_from_ast(op)) =~= ast::binop_text(op));
    ast::lemma_binop_text_round_trip(op);
}

/// Each unary operator of the syntax stands for the checked operator written the same way.
pub proof fn law_unop_from_ast_keeps_symbol(op: ast::UnaryOperation)
    ensures
        ast::unop_of_text(unop_symbol(unop_from_ast(op))) == Some(op),
{
    reveal_strlit("-");
    reveal_strlit("!");
    reveal_strlit("~");
    reveal_strlit("&");
    reveal_strlit("*");
}

/// Every primitive type is read back from its name, and no two are named alike.
pub proof fn law_primitive_names(p: Primitive, q: Primitive)
    ensures
        primitive_of(primitive_name(p)) == Some(p),
        primitive_name(p) == primitive_name(q) ==> p == q,
{
    reveal_strlit("i64");
    reveal_strlit("i32");
    reveal_strlit("i16");
    reveal_strlit("i8");
    reveal_strlit("u64");
    reveal_strlit("u32");
    reveal_strlit("u16");
    reveal_strlit("u8");
    reveal_strlit("int");
    reveal_strlit("uint");
    reveal_strlit("float");
    reveal_strlit("f32");
    reveal_strlit("f64");
    reveal_strlit("bool");
    reveal_strlit("str");
    reveal_strlit("char");
    assert("i64"@.len() == 3 && "i64"@[0] == 'i' && "i64"@[1] == '6' && "i64"@[2] == '4');
    assert("i32"@.len() == 3 && "i32"@[0] == 'i' && "i32"@[1] == '3' && "i32"@[2] == '2');
    assert("i16"@.len() == 3 && "i16"@[0] == 'i' && "i16"@[1] == '1' && "i16"@[2] == '6');
    assert("i8"@.len() == 2 && "i8"@[0] == 'i' && "i8"@[1] == '8');
    assert("u64"@.len() == 3 && "u64"@[0] == 'u' && "u64"@[1] == '6' && "u64"@[2] == '4');
    assert("u32"@.len() == 3 && "u32"@[0] == 'u' && "u32"@[1] == '3' && "u32"@[2] == '2');
    assert("u16"@.len() == 3 && "u16"@[0] == 'u' && "u16"@[1] == '1' && "u16"@[2] == '6');
    assert("u8"@.len() == 2 && "u8"@[0] == 'u' && "u8"@[1] == '8');
    assert("int"@.len() == 3 && "int"@[0] == 'i' && "int"@[1] == 'n' && "int"@[2] == 't');
    assert("uint"@.len() == 4 && "uint"@[0] == 'u' && "uint"@[1] == 'i' && "uint"@[2] == 'n' && "uint"@[3] == 't');
    assert("float"@.len() == 5 && "float"@[0] == 'f' && "float"@[1] == 'l' && "float"@[2] == 'o' && "float"@[3] == 'a' && "float"@[4] == 't');
    assert("f32"@.len() == 3 && "f32"@[0] == 'f' && "f32"@[1] == '3' && "f32"@[2] == '2');
    assert("f64"@.len() == 3 && "f64"@[0] == 'f' && "f64"@[1] == '6' && "f64"@[2] == '4');
    assert("bool"@.len() == 4 && "bool"@[0] == 'b' && "bool"@[1] == 'o' && "bool"@[2] == 'o' && "bool"@[3] == 'l');
    assert("str"@.len() == 3 && "str"@[0] == 's' && "str"@[1] == 't' && "str"@[2] == 'r');
    assert("char"@.len() == 4 && "char"@[0] == 'c' && "char"@[1] == 'h' && "char"@[2] == 'a' && "char"@[3] == 'r');
}

/// The size of a primitive type in bytes is the number of bits its name ends with over 8;
/// `int` and `uint` are as large as `i32` and `u32`, and `float` as `f64`.
pub proof fn law_primitive_sizes(p: Primitive)
    ensures
        primitive_name(p).len() == 3 && primitive_name(p)[1] == '6' && primitive_name(p)[2] == '4' ==> primitive_size(p) == 8,
        primitive_name(p).len() == 3 && primitive_name(p)[1] == '3' && primitive_name(p)[2] == '2' ==> primitive_size(p) == 4,
        primitive_name(p).len() == 3 && primitive_name(p)[1] == '1' && primitive_name(p)[2] == '6' ==> primitive_size(p) == 2,
        primitive_name(p).len() == 2 && primitive_name(p)[1] == '8' ==> primitive_size(p) == 1,
        primitive_size(Primitive::Int) == primitive_size(Primitive::I32),
        primitive_size(Primitive::UInt) == primitive_size(Primitive::U32),
        primitive_size(Primitive::Float) == primitive_size(Primitive::F64),
        signed_counterpart(p) matches Some(q) ==> primitive_size(q) == primitive_size(p) && unsigned_primitives().contains(p)
            && signed_primitives().contains(q) && (primitive_name(q) == primitive_name(p).drop_first()
            || primitive_name(q) == seq!['i'] + primitive_name(p).drop_first()),
{
    reveal_strlit("i64");
    reveal_strlit("i32");
    reveal_strlit("i16");
    reveal_strlit("i8");
    reveal_strlit("u64");
    reveal_strlit("u32");
    reveal_strlit("u16");
    reveal_strlit("u8");
    reveal_strlit("int");
    reveal_strlit("uint");
    reveal_strlit("float");
    reveal_strlit("f32");
    reveal_strlit("f64");
    reveal_strlit("bool");
    reveal_strlit("str");
    reveal_strlit("char");
    assert("i64"@ =~= seq!['i'] + "u64"@.drop_first());
    assert("i32"@ =~= seq!['i'] + "u32"@.drop_first());
    assert("i16"@ =~= seq!['i'] + "u16"@.drop_first());
    assert("i8"@ =~= seq!['i'] + "u8"@.drop_first());
    assert("int"@ =~= "uint"@.drop_first());
}

/// Every intrinsic function is read back from its name.
pub proof fn law_intrinsic_names(i: Intrinsic)
    ensures
        intrinsic_of(intrinsic_name(i)) == Some(i),
{
}

/// Every type is the same type as itself.
pub proof fn lemma_typing_same_reflexive(t: Typing)
    ensures
        typing_same(t, t),
    decreases t,
{
    match t {
        Typing::Struct(s) => {
            lemma_fields_same_reflexive(s.fields@);
        },
        Typing::Enum(e) => {},
        Typing::Array { typ, amount: _ } => {
            lemma_typing_same_reflexive(*typ);
        },
        Typing::Tuple { types } => {
            lemma_typings_same_reflexive(types@);
        },
        Typing::Pointer { mutable: _, typ } => {
            lemma_typing_same_reflexive(*typ);
        },
        Typing::Function { ret, arguments, variadic: _, extrn: _ } => {
            lemma_typing_same_reflexive(*ret);
            lemma_typings_same_reflexive(arguments@);
        },
        _ => {},
    }
}

/// Every list of types is the same as itself.
pub proof fn lemma_typings_same_reflexive(s: Seq<Typing>)
    ensures
        typings_same(s, s),
    decreases s,
{
    if s.len() > 0 {
        lemma_typing_same_reflexive(s[s.len() - 1]);
        lemma_typings_same_reflexive(s.subrange(0, s.len() - 1));
    }
}

/// Every list of named types is the same as itself.
pub proof fn lemma_fields_same_reflexive(s: Seq<TypedField>)
    ensures
        fields_same(s, s),
    decreases s,
{
    if s.len() > 0 {
        lemma_typing_same_reflexive(s[s.len() - 1].typing);
        lemma_fields_same_reflexive(s.subrange(0, s.len() - 1));
    }
}

} // verus!
