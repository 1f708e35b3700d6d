use vstd::prelude::*;
use crate::span::Span;
use crate::text::chars_of;
use crate::token::{Token, TokenV, token_text};

verus! {

/// A parsed Elo program.
#[derive(Debug)]
pub struct Program {
    pub filename: String,
    pub nodes: Vec<Node>,
}

/// How strongly an operator binds; larger binds tighter.
pub type OperatorPrecedence = usize;

/// The binary operators of Elo source.
#[derive(Debug, Copy, Clone, PartialEq, Eq, Structural)]
pub enum BinaryOperation {
    Add,
    Sub,
    Mul,
    Div,
    Mod,
    Eq,
    Ne,
    Lt,
    Le,
    Gt,
    Ge,
    And,
    Or,
    BAnd,
    BOr,
    BXor,
    LShift,
    RShift,
    Assign,
    AssignAdd,
    AssignSub,
    AssignMul,
    AssignDiv,
    AssignMod,
    AssignBAnd,
    AssignBOr,
    AssignBXor,
}

/// The binary operator written as the single character `c`, if any.
pub open spec fn binop_of_char(c: char) -> Option<BinaryOperation> {
    match c {
        '+' => Some(BinaryOperation::Add),
        '-' => Some(BinaryOperation::Sub),
        '*' => Some(BinaryOperation::Mul),
        '/' => Some(BinaryOperation::Div),
        '%' => Some(BinaryOperation::Mod),
        '<' => Some(BinaryOperation::Lt),
        '>' => Some(BinaryOperation::Gt),
        '&' => Some(BinaryOperation::BAnd),
        '|' => Some(BinaryOperation::BOr),
        '^' => Some(BinaryOperation::BXor),
        '=' => Some(BinaryOperation::Assign),
        _ => None,
    }
}

/// The binary operator written as the two characters `a` and `b`, if any.
pub open spec fn binop_of_pair(a: char, b: char) -> Option<BinaryOperation> {
    if b == '=' {
        match a {
            '=' => Some(BinaryOperation::Eq),
            '!' => Some(BinaryOperation::Ne),
            '<' => Some(BinaryOperation::Le),
            '>' => Some(BinaryOperation::Ge),
            '+' => Some(BinaryOperation::AssignAdd),
            '-' => Some(BinaryOperation::AssignSub),
            '*' => Some(BinaryOperation::AssignMul),
            '/' => Some(BinaryOperation::AssignDiv),
            '%' => Some(BinaryOperation::AssignMod),
            '&' => Some(BinaryOperation::AssignBAnd),
            '|' => Some(BinaryOperation::AssignBOr),
            '^' => Some(BinaryOperation::AssignBXor),
            _ => None,
        }
    } else if a == b {
        match a {
            '&' => Some(BinaryOperation::And),
            '|' => Some(BinaryOperation::Or),
            '<' => Some(BinaryOperation::LShift),
            '>' => Some(BinaryOperation::RShift),
            _ => None,
        }
    } else {
        None
    }
}

/// The binary operator written as `t`, if any.
pub open spec fn binop_of_text(t: Seq<char>) -> Option<BinaryOperation> {
    if t.len() == 1 {
        binop_of_char(t[0])
    } else if t.len() == 2 {
        binop_of_pair(t[0], t[1])
    } else {
        None
    }
}

/// How a binary operator is written.
pub open spec fn binop_text(op: BinaryOperation) -> Seq<char> {
    match op {
        BinaryOperation::Add => seq!['+'],
        BinaryOperation::Sub => seq!['-'],
        BinaryOperation::Mul => seq!['*'],
        BinaryOperation::Div => seq!['/'],
        BinaryOperation::Mod => seq!['%'],
        BinaryOperation::Eq => seq!['=', '='],
        BinaryOperation::Ne => seq!['!', '='],
        BinaryOperation::Lt => seq!['<'],
        BinaryOperation::Le => seq!['<', '='],
        BinaryOperation::Gt => seq!['>'],
        BinaryOperation::Ge => seq!['>', '='],
        BinaryOperation::And => seq!['&', '&'],
        BinaryOperation::Or => seq!['|', '|'],
        BinaryOperation::BAnd => seq!['&'],
        BinaryOperation::BOr => seq!['|'],
        BinaryOperation::BXor => seq!['^'],
        BinaryOperation::LShift => seq!['<', '<'],
        BinaryOperation::RShift => seq!['>', '>'],
        BinaryOperation::Assign => seq!['='],
        BinaryOperation::AssignAdd => seq!['+', '='],
        BinaryOperation::AssignSub => seq!['-', '='],
        BinaryOperation::AssignMul => seq!['*', '='],
        BinaryOperation::AssignDiv => seq!['/', '='],
        BinaryOperation::AssignMod => seq!['%', '='],
        BinaryOperation::AssignBAnd => seq!['&', '='],
        BinaryOperation::AssignBOr => seq!['|', '='],
        BinaryOperation::AssignBXor => seq!['^', '='],
    }
}


/// How strongly a binary operator binds.
pub open spec fn binop_precedence_of(op: BinaryOperation) -> usize {
    match op {
        BinaryOperation::Add => 6,
        BinaryOperation::Sub => 6,
        BinaryOperation::Mul => 7,
        BinaryOperation::Div => 7,
        BinaryOperation::Mod => 7,
        BinaryOperation::Eq => 2,
        BinaryOperation::Ne => 2,
        BinaryOperation::Lt => 3,
        BinaryOperation::Le => 3,
        BinaryOperation::Gt => 3,
        BinaryOperation::Ge => 3,
        BinaryOperation::And => 4,
        BinaryOperation::Or => 4,
        BinaryOperation::BAnd => 5,
        BinaryOperation::BOr => 5,
        BinaryOperation::BXor => 5,
        BinaryOperation::LShift => 8,
        BinaryOperation::RShift => 8,
        BinaryOperation::Assign => 1,
        BinaryOperation::AssignAdd => 1,
        BinaryOperation::AssignSub => 1,
        BinaryOperation::AssignMul => 1,
        BinaryOperation::AssignDiv => 1,
        BinaryOperation::AssignMod => 1,
        BinaryOperation::AssignBAnd => 1,
        BinaryOperation::AssignBOr => 1,
        BinaryOperation::AssignBXor => 1,
    }
}

impl BinaryOperation {
    /// The binary operator that a token is written as, if any.
    pub fn from_token(token: &Token) -> (r: Option<Self>)
        ensures
            r == binop_of_text(token_text(token@)),
    {
        let t = token.text();
        let cs = chars_of(t.as_str());
        if cs.len() == 1 {
            Self::from_char(cs[0])
        } else if cs.len() == 2 {
            Self::from_pair(cs[0], cs[1])
        } else {
            None
        }
    }

    fn from_char(c: char) -> (r: Option<Self>)
        ensures
            r == binop_of_char(c),
    {
        match c {
            '+' => Some(BinaryOperation::Add),
            '-' => Some(BinaryOperation::Sub),
            '*' => Some(BinaryOperation::Mul),
            '/' => Some(BinaryOperation::Div),
            '%' => Some(BinaryOperation::Mod),
            '<' => Some(BinaryOperation::Lt),
            '>' => Some(BinaryOperation::Gt),
            '&' => Some(BinaryOperation::BAnd),
            '|' => Some(BinaryOperation::BOr),
            '^' => Some(BinaryOperation::BXor),
            '=' => Some(BinaryOperation::Assign),
            _ => None,
        }
    }

    fn from_pair(a: char, b: char) -> (r: Option<Self>)
        ensures
            r == binop_of_pair(a, b),
    {
        if b == '=' {
            match a {
                '=' => Some(BinaryOperation::Eq),
                '!' => Some(BinaryOperation::Ne),
                '<' => Some(BinaryOperation::Le),
                '>' => Some(BinaryOperation::Ge),
                '+' => Some(BinaryOperation::AssignAdd),
                '-' => Some(BinaryOperation::AssignSub),
                '*' => Some(BinaryOperation::AssignMul),
                '/' => Some(BinaryOperation::AssignDiv),
                '%' => Some(BinaryOperation::AssignMod),
                '&' => Some(BinaryOperation::AssignBAnd),
                '|' => Some(BinaryOperation::AssignBOr),
                '^' => Some(BinaryOperation::AssignBXor),
                _ => None,
            }
        } else if a == b {
            match a {
                '&' => Some(BinaryOperation::And),
                '|' => Some(BinaryOperation::Or),
                '<' => Some(BinaryOperation::LShift),
                '>' => Some(BinaryOperation::RShift),
                _ => None,
            }
        } else {
            None
        }
    }

    /// How strongly the operator binds.
    pub fn precedence(&self) -> (r: OperatorPrecedence)
        ensures
            r == binop_precedence_of(*self),
    {
        match self {
            BinaryOperation::Add => 6,
            BinaryOperation::Sub => 6,
            BinaryOperation::Mul => 7,
            BinaryOperation::Div => 7,
            BinaryOperation::Mod => 7,
            BinaryOperation::Eq => 2,
            BinaryOperation::Ne => 2,
            BinaryOperation::Lt => 3,
            BinaryOperation::Le => 3,
            BinaryOperation::Gt => 3,
            BinaryOperation::Ge => 3,
            BinaryOperation::And => 4,
            BinaryOperation::Or => 4,
            BinaryOperation::BAnd => 5,
            BinaryOperation::BOr => 5,
            BinaryOperation::BXor => 5,
            BinaryOperation::LShift => 8,
            BinaryOperation::RShift => 8,
            BinaryOperation::Assign => 1,
            BinaryOperation::AssignAdd => 1,
            BinaryOperation::AssignSub => 1,
            BinaryOperation::AssignMul => 1,
            BinaryOperation::AssignDiv => 1,
            BinaryOperation::AssignMod => 1,
            BinaryOperation::AssignBAnd => 1,
            BinaryOperation::AssignBOr => 1,
            BinaryOperation::AssignBXor => 1,
        }
    }
}

/// The group of a binary operator by how it is written, from the loosest: assignments (0),
/// `==` and `!=` (1), comparisons (2), `&&` and `||` (3), `&`, `|` and `^` (4), `+` and `-`
/// (5), `*`, `/` and `%` (6), shifts (7).
pub open spec fn binop_group(t: Seq<char>) -> int {
    if t.len() == 1 {
        if t[0] == '*' || t[0] == '/' || t[0] == '%' {
            6
        } else if t[0] == '+' || t[0] == '-' {
            5
        } else if t[0] == '&' || t[0] == '|' || t[0] == '^' {
            4
        } else if t[0] == '<' || t[0] == '>' {
            2
        } else {
            0
        }
    } else if t.len() == 2 {
        if t[1] == t[0] && (t[0] == '<' || t[0] == '>') {
            7
        } else if t[1] == t[0] && (t[0] == '&' || t[0] == '|') {
            3
        } else if t[1] == '=' && (t[0] == '<' || t[0] == '>') {
            2
        } else if t[1] == '=' && (t[0] == '=' || t[0] == '!') {
            1
        } else {
            0
        }
    } else {
        0
    }
}

/// Operators of one group bind equally, and a group binds more strongly than every group
/// listed before it in `binop_group`: `%` binds as `*` and `/`, more strongly than `+`.
pub proof fn law_binop_precedence_follows_groups(a: BinaryOperation, b: BinaryOperation)
    ensures
        binop_precedence_of(a) < binop_precedence_of(b) <==> binop_group(binop_text(a)) < binop_group(binop_text(b)),
        binop_precedence_of(a) == binop_precedence_of(b) <==> binop_group(binop_text(a)) == binop_group(binop_text(b)),
        binop_precedence_of(a) >= 1,
{
}

/// No two binary operators are written alike.
pub proof fn law_binop_text_distinct(a: BinaryOperation, b: BinaryOperation)
    ensures
        binop_text(a) == binop_text(b) ==> a == b,
{
    lemma_binop_text_round_trip(a);
    lemma_binop_text_round_trip(b);
}

/// Every binary operator is read back from its own text.
pub proof fn lemma_binop_text_round_trip(op: BinaryOperation)
    ensures
        binop_of_text(binop_text(op)) == Some(op),
{
}

/// The unary operators of Elo source.
#[derive(Debug, Copy, Clone, PartialEq, Eq, Structural)]
pub enum UnaryOperation {
    Neg,
    Not,
    BNot,
    Addr,
    Deref,
}

/// The unary operator written as the single character `c`, if any.
pub open spec fn unop_of_char(c: char) -> Option<UnaryOperation> {
    match c {
        '!' => Some(UnaryOperation::Not),
        '~' => Some(UnaryOperation::BNot),
        '-' => Some(UnaryOperation::Neg),
        '&' => Some(UnaryOperation::Addr),
        '*' => Some(UnaryOperation::Deref),
        _ => None,
    }
}

/// The unary operator written as `t`, if any.
pub open spec fn unop_of_text(t: Seq<char>) -> Option<UnaryOperation> {
    if t.len() == 1 {
        unop_of_char(t[0])
    } else {
        None
    }
}

impl UnaryOperation {
    /// The unary operator that a token is written as, if any.
    pub fn from_token(token: &Token) -> (r: Option<Self>)
        ensures
            r == unop_of_text(token_text(token@)),
    {
        let t = token.text();
        let cs = chars_of(t.as_str());
        if cs.len() == 1 {
            match cs[0] {
                '!' => Some(UnaryOperation::Not),
                '~' => Some(UnaryOperation::BNot),
                '-' => Some(UnaryOperation::Neg),
                '&' => Some(UnaryOperation::Addr),
                '*' => Some(UnaryOperation::Deref),
                _ => None,
            }
        } else {
            None
        }
    }

    /// How strongly the operator binds: tighter than any binary operator.
    pub fn precedence(&self) -> (r: OperatorPrecedence)
        ensures
            r == 9,
    {
        match self {
            UnaryOperation::Not => 9,
            UnaryOperation::BNot => 9,
            UnaryOperation::Neg => 9,
            UnaryOperation::Addr => 9,
            UnaryOperation::Deref => 9,
        }
    }
}

/// An expression and where it stands.
#[derive(Debug)]
pub struct Expression {
    pub span: Span,
    pub data: ExpressionData,
}

#[derive(Debug)]
pub enum ExpressionData {
    BinaryOperation { operator: BinaryOperation, left: Box<Expression>, right: Box<Expression> },
    UnaryOperation { operator: UnaryOperation, operand: Box<Expression> },
    StrLiteral { value: String },
    StringLiteral { value: String },
    CStrLiteral { value: String },
    CharacterLiteral { value: char },
    Subscript { origin: Box<Expression>, inner: Box<Expression> },
    Cast { expr: Box<Expression>, typ: Type },
    FieldAccess { origin: Box<Expression>, field: String },
    Tuple { exprs: Vec<Expression> },
    TupleAccess { origin: Box<Expression>, field: usize },
    Array { exprs: Vec<Expression>, amount: usize },
    FunctionCall { function: Box<Expression>, arguments: Vec<Expression> },
    StructInit { name: String, fields: Vec<Field> },
    IntegerLiteral { value: i128 },
    /// A decimal literal `whole.fraction`, the digits as written.
    FloatLiteral { whole: String, fraction: String },
    BooleanLiteral { value: bool },
    Identifier { name: String },
}

#[derive(Debug)]
pub struct LetStatement {
    pub binding: String,
    pub assignment: Expression,
}

#[derive(Debug)]
pub struct VarStatement {
    pub binding: String,
    pub assignment: Expression,
}

#[derive(Debug)]
pub struct ConstStatement {
    pub binding: String,
    pub assignment: Expression,
    pub typing: Type,
}

#[derive(Debug)]
pub struct Block {
    pub content: Vec<Node>,
}

/// A statement and where it stands.
#[derive(Debug)]
pub struct Node {
    pub span: Span,
    pub stmt: Statement,
}

#[derive(Debug)]
pub struct FnStatement {
    pub name: String,
    pub block: Block,
    pub ret: Option<Type>,
    pub arguments: Vec<TypedField>,
}

#[derive(Debug)]
pub struct ExternFnStatement {
    pub name: String,
    pub ret: Option<Type>,
    pub arguments: Vec<TypedField>,
    pub variadic: bool,
}

#[derive(Debug)]
pub struct StructStatement {
    pub name: String,
    pub fields: Vec<TypedField>,
}

#[derive(Debug)]
pub struct EnumStatement {
    pub name: String,
    pub variants: Vec<String>,
}

#[derive(Debug)]
pub struct IfStatement {
    pub condition: Expression,
    pub block_true: Block,
    pub block_false: Option<Block>,
}

#[derive(Debug)]
pub struct WhileStatement {
    pub condition: Expression,
    pub block: Block,
}

#[derive(Debug)]
pub struct ReturnStatement {
    pub expr: Option<Expression>,
}

/// A written type and where it stands.
#[derive(Debug)]
pub struct Type {
    pub span: Span,
    pub typing: Typing,
}

#[derive(Debug)]
pub enum Typing {
    Named { name: String, generic: Option<Box<Type>> },
    Array { typ: Box<Type>, amount: usize },
    Slice { typ: Box<Type> },
    Tuple { types: Vec<Type> },
    Pointer { mutable: bool, typ: Box<Type> },
    Function { args: Vec<Type>, ret: Option<Box<Type>> },
}

#[derive(Debug)]
pub struct TypedField {
    pub name: String,
    pub typing: Type,
}

#[derive(Debug)]
pub struct Field {
    pub name: String,
    pub value: Expression,
}

#[derive(Debug)]
pub enum Statement {
    LetStatement(LetStatement),
    VarStatement(VarStatement),
    ConstStatement(ConstStatement),
    FnStatement(FnStatement),
    ExternFnStatement(ExternFnStatement),
    StructStatement(StructStatement),
    EnumStatement(EnumStatement),
    IfStatement(IfStatement),
    WhileStatement(WhileStatement),
    ExpressionStatement(Expression),
    ReturnStatement(ReturnStatement),
}

/// Whether every array literal in an expression has an element: the type of an array is
/// that of its first element.
pub open spec fn arrays_filled(e: Expression) -> bool
    decreases e,
{
    match e.data {
        ExpressionData::BinaryOperation { operator: _, left, right } => arrays_filled(*left) && arrays_filled(*right),
        ExpressionData::UnaryOperation { operator: _, operand } => arrays_filled(*operand),
        ExpressionData::Subscript { origin, inner } => arrays_filled(*origin) && arrays_filled(*inner),
        ExpressionData::Cast { expr, typ: _ } => arrays_filled(*expr),
        ExpressionData::FieldAccess { origin, field: _ } => arrays_filled(*origin),
        ExpressionData::Tuple { exprs } => all_arrays_filled(exprs@),
        ExpressionData::TupleAccess { origin, field: _ } => arrays_filled(*origin),
        ExpressionData::Array { exprs, amount: _ } => exprs@.len() > 0 && all_arrays_filled(exprs@),
        ExpressionData::FunctionCall { function, arguments } => arrays_filled(*function) && all_arrays_filled(arguments@),
        ExpressionData::StructInit { name: _, fields } => all_field_arrays_filled(fields@),
        _ => true,
    }
}

/// Whether every array literal in a list of expressions has an element.
pub open spec fn all_arrays_filled(s: Seq<Expression>) -> bool
    decreases s,
{
    if s.len() == 0 {
        true
    } else {
        arrays_filled(s[s.len() - 1]) && all_arrays_filled(s.subrange(0, s.len() - 1))
    }
}

/// Whether every array literal in the values of a list of fields has an element.
pub open spec fn all_field_arrays_filled(s: Seq<Field>) -> bool
    decreases s,
{
    if s.len() == 0 {
        true
    } else {
        arrays_filled(s[s.len() - 1].value) && all_field_arrays_filled(s.subrange(0, s.len() - 1))
    }
}

/// Whether every array literal in a statement, and in the statements it holds, has an element.
pub open spec fn node_arrays_filled(n: Node) -> bool
    decreases n,
{
    match n.stmt {
        Statement::LetStatement(st) => arrays_filled(st.assignment),
        Statement::VarStatement(st) => arrays_filled(st.assignment),
        Statement::ConstStatement(st) => arrays_filled(st.assignment),
        Statement::FnStatement(st) => nodes_arrays_filled(st.block.content@),
        Statement::IfStatement(st) => arrays_filled(st.condition) && nodes_arrays_filled(
            st.block_true.content@,
        ) && match st.block_false {
            Some(b) => nodes_arrays_filled(b.content@),
            None => true,
        },
        Statement::WhileStatement(st) => arrays_filled(st.condition) && nodes_arrays_filled(
            st.block.content@,
        ),
        Statement::ExpressionStatement(e) => arrays_filled(e),
        Statement::ReturnStatement(st) => match st.expr {
            Some(e) => arrays_filled(e),
            None => true,
        },
        _ => true,
    }
}

/// Whether every array literal in a list of statements has an element.
pub open spec fn nodes_arrays_filled(s: Seq<Node>) -> bool
    decreases s,
{
    if s.len() == 0 {
        true
    } else {
        node_arrays_filled(s[s.len() - 1]) && nodes_arrays_filled(s.subrange(0, s.len() - 1))
    }
}

pub proof fn lemma_all_arrays_filled_push(s: Seq<Expression>, e: Expression)
    ensures
        all_arrays_filled(s.push(e)) == (all_arrays_filled(s) && arrays_filled(e)),
{
    assert(s.push(e).subrange(0, s.len() as int) =~= s);
}

pub proof fn lemma_all_arrays_filled_concat(a: Seq<Expression>, b: Seq<Expression>)
    ensures
        all_arrays_filled(a + b) == (all_arrays_filled(a) && all_arrays_filled(b)),
    decreases b.len(),
{
    if b.len() == 0 {
        assert(a + b =~= a);
    } else {
        let bl = b.subrange(0, b.len() - 1);
        lemma_all_arrays_filled_concat(a, bl);
        assert((a + b).subrange(0, (a + b).len() - 1) =~= a + bl);
        assert((a + b)[(a + b).len() - 1] == b[b.len() - 1]);
    }
}

pub proof fn lemma_all_field_arrays_filled_push(s: Seq<Field>, f: Field)
    ensures
        all_field_arrays_filled(s.push(f)) == (all_field_arrays_filled(s) && arrays_filled(f.value)),
{
    assert(s.push(f).subrange(0, s.len() as int) =~= s);
}

pub proof fn lemma_nodes_arrays_filled_push(s: Seq<Node>, n: Node)
    ensures
        nodes_arrays_filled(s.push(n)) == (nodes_arrays_filled(s) && node_arrays_filled(n)),
{
    assert(s.push(n).subrange(0, s.len() as int) =~= s);
}

} // verus!
