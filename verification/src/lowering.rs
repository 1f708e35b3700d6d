use vstd::prelude::*;
use crate::cir::{
    BinaryOperation, Expression, ExpressionData, Primitive, Program, Statement, StatementKind, TypedField, Typing,
    UnaryOperation,
};
use crate::text::str_eq;

verus! {

/// A type of the LLVM code that a program is lowered to.
#[derive(Debug, PartialEq, Eq)]
pub enum LlvmType {
    /// An integer of the given number of bits; a boolean is one bit.
    Int { bits: u32 },
    F32,
    F64,
    /// A pointer to a value of the type.
    Pointer(Box<LlvmType>),
}

/// Whether the lowering can give a type an LLVM type, or none for `void`: a primitive
/// other than `char`, or a pointer to such a type.
pub open spec fn type_lowerable(t: Typing) -> bool
    decreases t,
{
    match t {
        Typing::Void => true,
        Typing::Primitive(p) => p != Primitive::Char,
        Typing::Pointer { mutable: _, typ } => !(*typ is Void) && type_lowerable(*typ),
        _ => false,
    }
}

/// The LLVM type of a primitive type: `int` and `uint` take 32 bits, `float` 64, and a
/// string is a pointer to bytes.
pub open spec fn llvm_primitive(p: Primitive) -> LlvmType {
    match p {
        Primitive::I64 | Primitive::U64 => LlvmType::Int { bits: 64 },
        Primitive::I32 | Primitive::U32 | Primitive::Int | Primitive::UInt | Primitive::Char => LlvmType::Int { bits: 32 },
        Primitive::I16 | Primitive::U16 => LlvmType::Int { bits: 16 },
        Primitive::I8 | Primitive::U8 => LlvmType::Int { bits: 8 },
        Primitive::Bool => LlvmType::Int { bits: 1 },
        Primitive::F32 => LlvmType::F32,
        Primitive::F64 | Primitive::Float => LlvmType::F64,
        Primitive::Str => LlvmType::Pointer(Box::new(LlvmType::Int { bits: 8 })),
    }
}

/// The LLVM type of a type, none for `void`.
pub open spec fn llvm_type_of(t: Typing) -> Option<LlvmType>
    decreases t,
{
    match t {
        Typing::Primitive(p) => Some(llvm_primitive(p)),
        Typing::Pointer { mutable: _, typ } => match llvm_type_of(*typ) {
            Some(inner) => Some(LlvmType::Pointer(Box::new(inner))),
            None => None,
        },
        _ => None,
    }
}

fn lower_primitive(p: Primitive) -> (r: LlvmType)
    ensures
        r == llvm_primitive(p),
{
    match p {
        Primitive::I64 | Primitive::U64 => LlvmType::Int { bits: 64 },
        Primitive::I32 | Primitive::U32 | Primitive::Int | Primitive::UInt | Primitive::Char => LlvmType::Int { bits: 32 },
        Primitive::I16 | Primitive::U16 => LlvmType::Int { bits: 16 },
        Primitive::I8 | Primitive::U8 => LlvmType::Int { bits: 8 },
        Primitive::Bool => LlvmType::Int { bits: 1 },
        Primitive::F32 => LlvmType::F32,
        Primitive::F64 | Primitive::Float => LlvmType::F64,
        Primitive::Str => LlvmType::Pointer(Box::new(LlvmType::Int { bits: 8 })),
    }
}

proof fn lemma_lowerable_has_type(t: Typing)
    requires
        type_lowerable(t),
        !(t is Void),
    ensures
        llvm_type_of(t) is Some,
    decreases t,
{
    if let Typing::Pointer { mutable: _, typ } = t {
        lemma_lowerable_has_type(*typ);
    }
}

/// The LLVM type of a type, none for `void`.
pub fn choose_type(t: &Typing) -> (r: Option<LlvmType>)
    requires
        type_lowerable(*t),
    ensures
        r == llvm_type_of(*t),
    decreases t,
{
    match t {
        Typing::Primitive(p) => Some(lower_primitive(*p)),
        Typing::Pointer { mutable: _, typ } => match choose_type(typ) {
            Some(inner) => Some(LlvmType::Pointer(Box::new(inner))),
            None => None,
        },
        _ => None,
    }
}

/// The arithmetic that the lowering emits, on integers; division is signed.
#[derive(Debug, Eq, PartialEq, Clone, Copy, Structural)]
pub enum Arith {
    Add,
    Sub,
    Mul,
    SignedDiv,
}

/// The name of a basic block that the lowering appends.
#[derive(Debug, Eq, PartialEq, Clone, Copy, Structural)]
pub enum BlockLabel {
    Entry,
    Branch,
    Other,
    Escape,
}

/// One step of building LLVM code. Each step is known by its index in the list of steps;
/// a step that makes a value, a function or a block refers to it by that index.
#[derive(Debug, PartialEq, Eq)]
pub enum Instr {
    /// An integer constant of the given bits.
    ConstInt { bits: u32, value: u64 },
    /// A 64-bit float constant `whole.fraction`.
    ConstFloat { whole: String, fraction: String },
    /// A global constant holding the bytes of the text and a zero, and a pointer to its
    /// first byte.
    StringPointer { value: String },
    /// The negation of an integer.
    Neg { operand: usize },
    /// The bitwise complement of an integer.
    Not { operand: usize },
    /// A stack slot of the value's type, which the value is stored into; its address.
    AddressOf { operand: usize },
    /// Arithmetic on two integers.
    Arith { operator: Arith, left: usize, right: usize },
    /// A call of the function of that name; a value unless the function returns nothing.
    Call { function: String, arguments: Vec<usize> },
    /// The value that the stack slot of a variable holds.
    Load { variable: usize, name: String },
    /// A global 32-bit integer constant.
    GlobalInt { name: String, value: u64 },
    /// A global 32-bit float constant `whole.fraction`.
    GlobalFloat { name: String, whole: String, fraction: String },
    /// A global constant holding the bytes of the text.
    GlobalString { name: String, value: String },
    /// A function of the module, with the types of its parameters and of its result.
    DeclareFunction { name: String, parameters: Vec<LlvmType>, ret: Option<LlvmType>, variadic: bool },
    /// A basic block appended to a function.
    AppendBlock { function: usize, label: BlockLabel },
    /// Further steps go to the end of the block.
    PositionAtEnd { block: usize },
    /// A stack slot, named as the parameter, that the parameter of that index is stored
    /// into; its address.
    Parameter { function: usize, index: usize, name: String },
    /// A stack slot of the type, named as the variable; its address.
    Alloca { typing: LlvmType, name: String },
    /// The value stored into the stack slot.
    Store { slot: usize, value: usize },
    /// A return, with a value or none.
    Return { value: Option<usize> },
    /// A branch on a boolean.
    CondBranch { condition: usize, then_block: usize, else_block: usize },
    /// A branch to a block.
    Branch { target: usize },
}

/// The mathematical value of a step.
pub ghost enum InstrV {
    ConstInt { bits: u32, value: u64 },
    ConstFloat { whole: Seq<char>, fraction: Seq<char> },
    StringPointer { value: Seq<char> },
    Neg { operand: usize },
    Not { operand: usize },
    AddressOf { operand: usize },
    Arith { operator: Arith, left: usize, right: usize },
    Call { function: Seq<char>, arguments: Seq<usize> },
    Load { variable: usize, name: Seq<char> },
    GlobalInt { name: Seq<char>, value: u64 },
    GlobalFloat { name: Seq<char>, whole: Seq<char>, fraction: Seq<char> },
    GlobalString { name: Seq<char>, value: Seq<char> },
    DeclareFunction { name: Seq<char>, parameters: Seq<LlvmType>, ret: Option<LlvmType>, variadic: bool },
    AppendBlock { function: usize, label: BlockLabel },
    PositionAtEnd { block: usize },
    Parameter { function: usize, index: usize, name: Seq<char> },
    Alloca { typing: LlvmType, name: Seq<char> },
    Store { slot: usize, value: usize },
    Return { value: Option<usize> },
    CondBranch { condition: usize, then_block: usize, else_block: usize },
    Branch { target: usize },
}

impl View for Instr {
    type V = InstrV;

    open spec fn view(&self) -> InstrV {
        match self {
            Instr::ConstInt { bits, value } => InstrV::ConstInt { bits: *bits, value: *value },
            Instr::ConstFloat { whole, fraction } => InstrV::ConstFloat { whole: whole@, fraction: fraction@ },
            Instr::StringPointer { value } => InstrV::StringPointer { value: value@ },
            Instr::Neg { operand } => InstrV::Neg { operand: *operand },
            Instr::Not { operand } => InstrV::Not { operand: *operand },
            Instr::AddressOf { operand } => InstrV::AddressOf { operand: *operand },
            Instr::Arith { operator, left, right } => InstrV::Arith { operator: *operator, left: *left, right: *right },
            Instr::Call { function, arguments } => InstrV::Call { function: function@, arguments: arguments@ },
            Instr::Load { variable, name } => InstrV::Load { variable: *variable, name: name@ },
            Instr::GlobalInt { name, value } => InstrV::GlobalInt { name: name@, value: *value },
            Instr::GlobalFloat { name, whole, fraction } => InstrV::GlobalFloat { name: name@, whole: whole@, fraction: fraction@ },
            Instr::GlobalString { name, value } => InstrV::GlobalString { name: name@, value: value@ },
            Instr::DeclareFunction { name, parameters, ret, variadic } => InstrV::DeclareFunction {
                name: name@,
                parameters: parameters@,
                ret: *ret,
                variadic: *variadic,
            },
            Instr::AppendBlock { function, label } => InstrV::AppendBlock { function: *function, label: *label },
            Instr::PositionAtEnd { block } => InstrV::PositionAtEnd { block: *block },
            Instr::Parameter { function, index, name } => InstrV::Parameter { function: *function, index: *index, name: name@ },
            Instr::Alloca { typing, name } => InstrV::Alloca { typing: *typing, name: name@ },
            Instr::Store { slot, value } => InstrV::Store { slot: *slot, value: *value },
            Instr::Return { value } => InstrV::Return { value: *value },
            Instr::CondBranch { condition, then_block, else_block } => InstrV::CondBranch {
                condition: *condition,
                then_block: *then_block,
                else_block: *else_block,
            },
            Instr::Branch { target } => InstrV::Branch { target: *target },
        }
    }
}

/// The values of a list of steps.
pub open spec fn code_view(code: Seq<Instr>) -> Seq<InstrV> {
    code.map_values(|i: Instr| i@)
}

/// Whether a step refers only to steps before index `k`.
pub open spec fn refs_before(i: InstrV, k: int) -> bool {
    match i {
        InstrV::Neg { operand } | InstrV::Not { operand } | InstrV::AddressOf { operand } => operand < k,
        InstrV::Arith { operator: _, left, right } => left < k && right < k,
        InstrV::Call { function: _, arguments } => forall|j: int| 0 <= j < arguments.len() ==> #[trigger] arguments[j] < k,
        InstrV::Load { variable, name: _ } => variable < k,
        InstrV::AppendBlock { function, label: _ } => function < k,
        InstrV::PositionAtEnd { block } => block < k,
        InstrV::Parameter { function, index: _, name: _ } => function < k,
        InstrV::Store { slot, value } => slot < k && value < k,
        InstrV::Return { value } => value matches Some(v) ==> v < k,
        InstrV::CondBranch { condition, then_block, else_block } => condition < k && then_block < k && else_block < k,
        InstrV::Branch { target } => target < k,
        _ => true,
    }
}

/// Whether every step refers only to steps before it: each value, slot, function and block
/// is made before it is used.
pub open spec fn code_wf(c: Seq<InstrV>) -> bool {
    forall|k: int| 0 <= k < c.len() ==> refs_before(#[trigger] c[k], k)
}

/// The step a name was bound to last, if any.
pub open spec fn latest<T>(s: Seq<(String, T)>, name: Seq<char>) -> Option<T>
    decreases s.len(),
{
    if s.len() == 0 {
        None
    } else if s.last().0@ == name {
        Some(s.last().1)
    } else {
        latest(s.drop_last(), name)
    }
}

/// The names that a list of bindings binds.
pub open spec fn var_names(v: Seq<(String, usize)>) -> Set<Seq<char>> {
    Set::new(|n: Seq<char>| latest(v, n) is Some)
}

/// The functions that a list of declarations declares, each with whether it returns a value.
pub open spec fn fn_map(f: Seq<(String, bool)>) -> Map<Seq<char>, bool> {
    Map::new(|n: Seq<char>| latest(f, n) is Some, |n: Seq<char>| latest(f, n).unwrap())
}

proof fn lemma_latest_push<T>(s: Seq<(String, T)>, x: (String, T), n: Seq<char>)
    ensures
        latest(s.push(x), n) == (if x.0@ == n { Some(x.1) } else { latest(s, n) }),
{
    assert(s.push(x).drop_last() =~= s);
}

proof fn lemma_var_names_push(v: Seq<(String, usize)>, x: (String, usize))
    ensures
        var_names(v.push(x)) == var_names(v).insert(x.0@),
{
    assert forall|n: Seq<char>| var_names(v.push(x)).contains(n) == var_names(v).insert(x.0@).contains(n) by {
        lemma_latest_push(v, x, n);
    }
    assert(var_names(v.push(x)) =~= var_names(v).insert(x.0@));
}

proof fn lemma_fn_map_push(f: Seq<(String, bool)>, x: (String, bool))
    requires
        !fn_map(f).contains_key(x.0@),
    ensures
        fn_map(f.push(x)) == fn_map(f).insert(x.0@, x.1),
{
    assert forall|n: Seq<char>| #[trigger] fn_map(f.push(x)).contains_key(n) == fn_map(f).insert(x.0@, x.1).contains_key(n) by {
        lemma_latest_push(f, x, n);
    }
    assert forall|n: Seq<char>| fn_map(f.push(x)).contains_key(n) implies #[trigger] fn_map(f.push(x))[n] == fn_map(f).insert(x.0@, x.1)[n] by {
        lemma_latest_push(f, x, n);
    }
    assert(fn_map(f.push(x)) =~= fn_map(f).insert(x.0@, x.1));
}

proof fn lemma_latest_below(s: Seq<(String, usize)>, n: Seq<char>, bound: int)
    requires
        forall|i: int| 0 <= i < s.len() ==> #[trigger] s[i].1 < bound,
    ensures
        latest(s, n) matches Some(v) ==> v < bound,
    decreases s.len(),
{
    if s.len() > 0 && s.last().0@ != n {
        lemma_latest_below(s.drop_last(), n, bound);
    }
}

fn find_latest<T: Copy>(s: &Vec<(String, T)>, name: &str) -> (r: Option<T>)
    ensures
        r == latest(s@, name@),
{
    let mut i = s.len();
    assert(s@.subrange(0, i as int) =~= s@);
    while i > 0
        invariant
            i <= s@.len(),
            latest(s@.subrange(0, i as int), name@) == latest(s@, name@),
        decreases i,
    {
        assert(s@.subrange(0, i as int).drop_last() =~= s@.subrange(0, i - 1));
        if str_eq(s[i - 1].0.as_str(), name) {
            return Some(s[i - 1].1);
        }
        i = i - 1;
    }
    None
}

/// The integer arithmetic of an operator: `+ - * /`.
pub open spec fn arith_of(op: BinaryOperation) -> Option<Arith> {
    match op {
        BinaryOperation::Add => Some(Arith::Add),
        BinaryOperation::Sub => Some(Arith::Sub),
        BinaryOperation::Mul => Some(Arith::Mul),
        BinaryOperation::Div => Some(Arith::SignedDiv),
        _ => None,
    }
}

/// Whether an expression makes a value: all do but a call of a function that returns nothing.
pub open spec fn yields(e: Expression, functions: Map<Seq<char>, bool>) -> bool {
    match e.data {
        ExpressionData::FunctionCall { function, arguments: _ } => match function.data {
            ExpressionData::Identifier { name } => functions.contains_key(name@) && functions[name@],
            _ => false,
        },
        _ => true,
    }
}

/// Whether an expression can be lowered: a literal whose integer is within `u64`, an
/// operator `+ - * /`, a negation, a complement, an address, a call of a declared function
/// by name, or a bound variable; every operand makes a value.
pub open spec fn expr_lowerable(e: Expression, variables: Set<Seq<char>>, functions: Map<Seq<char>, bool>) -> bool
    decreases e, 0nat,
{
    match e.data {
        ExpressionData::Integer { value } => 0 <= value <= u64::MAX,
        ExpressionData::Float { .. } | ExpressionData::StringLiteral { .. } | ExpressionData::Bool { .. } => true,
        ExpressionData::UnaryOperation { operator, operand } => operator != UnaryOperation::Deref
            && expr_lowerable(*operand, variables, functions) && yields(*operand, functions),
        ExpressionData::BinaryOperation { operator, left, right } => arith_of(operator) is Some
            && expr_lowerable(*left, variables, functions) && yields(*left, functions)
            && expr_lowerable(*right, variables, functions) && yields(*right, functions),
        ExpressionData::FunctionCall { function, arguments } => (function.data matches ExpressionData::Identifier { name }
            && functions.contains_key(name@)) && args_lowerable(arguments@, variables, functions),
        ExpressionData::Identifier { name } => variables.contains(name@),
        _ => false,
    }
}

/// Whether every argument of a call can be lowered and makes a value.
pub open spec fn args_lowerable(s: Seq<Expression>, variables: Set<Seq<char>>, functions: Map<Seq<char>, bool>) -> bool
    decreases s, 1nat,
{
    if s.len() == 0 {
        true
    } else {
        expr_lowerable(s[s.len() - 1], variables, functions) && yields(s[s.len() - 1], functions)
            && args_lowerable(s.subrange(0, s.len() - 1), variables, functions)
    }
}

/// The steps that lower an expression, the first of them at index `base`; its value, if
/// any, is that of the last step.
pub open spec fn expr_code(e: Expression, base: int, variables: Seq<(String, usize)>) -> Seq<InstrV>
    decreases e, 0nat,
{
    match e.data {
        ExpressionData::Integer { value } => seq![InstrV::ConstInt { bits: 32, value: value as u64 }],
        ExpressionData::Float { whole, fraction } => seq![InstrV::ConstFloat { whole: whole@, fraction: fraction@ }],
        ExpressionData::StringLiteral { value } => seq![InstrV::StringPointer { value: value@ }],
        ExpressionData::Bool { value } => seq![InstrV::ConstInt { bits: 1, value: if value { 1 } else { 0 } }],
        ExpressionData::UnaryOperation { operator, operand } => {
            let c = expr_code(*operand, base, variables);
            let id = (base + c.len() - 1) as usize;
            c.push(
                match operator {
                    UnaryOperation::Neg => InstrV::Neg { operand: id },
                    UnaryOperation::Addr => InstrV::AddressOf { operand: id },
                    _ => InstrV::Not { operand: id },
                },
            )
        },
        ExpressionData::BinaryOperation { operator, left, right } => {
            let cl = expr_code(*left, base, variables);
            let cr = expr_code(*right, base + cl.len(), variables);
            (cl + cr).push(
                InstrV::Arith {
                    operator: arith_of(operator).unwrap(),
                    left: (base + cl.len() - 1) as usize,
                    right: (base + cl.len() + cr.len() - 1) as usize,
                },
            )
        },
        ExpressionData::FunctionCall { function, arguments } => match function.data {
            ExpressionData::Identifier { name } => args_code(arguments@, base, variables).push(
                InstrV::Call { function: name@, arguments: args_ids(arguments@, base, variables) },
            ),
            _ => seq![],
        },
        ExpressionData::Identifier { name } => seq![InstrV::Load { variable: latest(variables, name@).unwrap(), name: name@ }],
        _ => seq![],
    }
}

/// The steps that lower the arguments of a call, one after the other.
pub open spec fn args_code(s: Seq<Expression>, base: int, variables: Seq<(String, usize)>) -> Seq<InstrV>
    decreases s, 1nat,
{
    if s.len() == 0 {
        seq![]
    } else {
        let before = args_code(s.subrange(0, s.len() - 1), base, variables);
        before + expr_code(s[s.len() - 1], base + before.len(), variables)
    }
}

/// The indices of the steps that make the values of the arguments of a call.
pub open spec fn args_ids(s: Seq<Expression>, base: int, variables: Seq<(String, usize)>) -> Seq<usize>
    decreases s, 2nat,
{
    if s.len() == 0 {
        seq![]
    } else {
        args_ids(s.subrange(0, s.len() - 1), base, variables).push(
            (base + args_code(s, base, variables).len() - 1) as usize,
        )
    }
}

proof fn lemma_args_lowerable(s: Seq<Expression>, i: int, variables: Set<Seq<char>>, functions: Map<Seq<char>, bool>)
    requires
        args_lowerable(s, variables, functions),
        0 <= i < s.len(),
    ensures
        expr_lowerable(s[i], variables, functions),
        yields(s[i], functions),
    decreases s.len(),
{
    if i < s.len() - 1 {
        lemma_args_lowerable(s.subrange(0, s.len() - 1), i, variables, functions);
    }
}


/// Whether the lowering can give every parameter a type other than void.
pub open spec fn params_lowerable(args: Seq<TypedField>) -> bool {
    forall|i: int| 0 <= i < args.len() ==> type_lowerable(#[trigger] args[i].typing) && !(args[i].typing is Void)
}

/// The LLVM types of the parameters.
pub open spec fn param_types(args: Seq<TypedField>) -> Seq<LlvmType> {
    args.map_values(|a: TypedField| llvm_type_of(a.typing).unwrap())
}

/// The names bound once the parameters are.
pub open spec fn params_bound(args: Seq<TypedField>, vars: Set<Seq<char>>) -> Set<Seq<char>>
    decreases args.len(),
{
    if args.len() == 0 {
        vars
    } else {
        params_bound(args.drop_last(), vars).insert(args.last().name@)
    }
}

/// The functions known once a function is declared: a name declared before keeps its first
/// declaration.
pub open spec fn declare(fns: Map<Seq<char>, bool>, name: Seq<char>, has_value: bool) -> Map<Seq<char>, bool> {
    if fns.contains_key(name) {
        fns
    } else {
        fns.insert(name, has_value)
    }
}

/// The variable names bound once a statement is lowered; a binding outlives its block.
pub open spec fn stmt_vars(s: Statement, vars: Set<Seq<char>>) -> Set<Seq<char>>
    decreases s, 0nat,
{
    match s.kind {
        StatementKind::Variable { binding, .. } => vars.insert(binding@),
        StatementKind::FnStatement(f) => block_vars(f.block@, params_bound(f.head.arguments@, vars)),
        StatementKind::IfStatement { condition: _, block_true, block_false } => block_vars(block_false@, block_vars(block_true@, vars)),
        _ => vars,
    }
}

/// The variable names bound once the statements of a block are lowered.
pub open spec fn block_vars(b: Seq<Statement>, vars: Set<Seq<char>>) -> Set<Seq<char>>
    decreases b, 1nat,
{
    if b.len() == 0 {
        vars
    } else {
        stmt_vars(b[b.len() - 1], block_vars(b.subrange(0, b.len() - 1), vars))
    }
}

/// The functions known once a statement is lowered.
pub open spec fn stmt_fns(s: Statement, fns: Map<Seq<char>, bool>) -> Map<Seq<char>, bool>
    decreases s, 0nat,
{
    match s.kind {
        StatementKind::FnStatement(f) => block_fns(f.block@, declare(fns, f.head.name@, llvm_type_of(f.head.ret) is Some)),
        StatementKind::ExternFnStatement(h) => declare(fns, h.name@, llvm_type_of(h.ret) is Some),
        StatementKind::IfStatement { condition: _, block_true, block_false } => block_fns(block_false@, block_fns(block_true@, fns)),
        _ => fns,
    }
}

/// The functions known once the statements of a block are lowered.
pub open spec fn block_fns(b: Seq<Statement>, fns: Map<Seq<char>, bool>) -> Map<Seq<char>, bool>
    decreases b, 1nat,
{
    if b.len() == 0 {
        fns
    } else {
        stmt_fns(b[b.len() - 1], block_fns(b.subrange(0, b.len() - 1), fns))
    }
}

/// Whether a statement can be lowered: a constant of an integer within `u64`, a float or a
/// string; a function whose types the lowering can give; a variable or a return inside a
/// function; an expression; or a condition inside a function. Loops, structures and
/// enumerations are not lowered.
pub open spec fn stmt_lowerable(s: Statement, toplevel: bool, in_function: bool, vars: Set<Seq<char>>, fns: Map<Seq<char>, bool>) -> bool
    decreases s, 0nat,
{
    match s.kind {
        StatementKind::Constant { binding: _, value, typing: _ } => match value.data {
            ExpressionData::Integer { value: v } => 0 <= v <= u64::MAX,
            ExpressionData::Float { .. } | ExpressionData::StringLiteral { .. } => true,
            _ => false,
        },
        StatementKind::FnStatement(f) => params_lowerable(f.head.arguments@) && type_lowerable(f.head.ret)
            && block_lowerable(
                f.block@,
                false,
                true,
                params_bound(f.head.arguments@, vars),
                declare(fns, f.head.name@, llvm_type_of(f.head.ret) is Some),
            ),
        StatementKind::ExternFnStatement(h) => params_lowerable(h.arguments@) && type_lowerable(h.ret),
        StatementKind::Variable { binding: _, assignment, typing } => !toplevel && type_lowerable(typing) && !(typing is Void)
            && expr_lowerable(assignment, vars, fns) && yields(assignment, fns),
        StatementKind::ExpressionStatement(e) => expr_lowerable(e, vars, fns),
        StatementKind::ReturnStatement { value, typing: _ } => !toplevel && match value {
            Some(v) => expr_lowerable(v, vars, fns) && yields(v, fns),
            None => true,
        },
        StatementKind::IfStatement { condition, block_true, block_false } => in_function
            && expr_lowerable(condition, vars, fns) && yields(condition, fns)
            && block_lowerable(block_true@, false, true, vars, fns)
            && block_lowerable(block_false@, false, true, block_vars(block_true@, vars), block_fns(block_true@, fns)),
        _ => false,
    }
}

/// Whether the statements of a block can be lowered one after the other.
pub open spec fn block_lowerable(b: Seq<Statement>, toplevel: bool, in_function: bool, vars: Set<Seq<char>>, fns: Map<Seq<char>, bool>) -> bool
    decreases b, 1nat,
{
    if b.len() == 0 {
        true
    } else {
        let prefix = b.subrange(0, b.len() - 1);
        block_lowerable(prefix, toplevel, in_function, vars, fns)
            && stmt_lowerable(b[b.len() - 1], toplevel, in_function, block_vars(prefix, vars), block_fns(prefix, fns))
    }
}

/// The steps that a statement starts with, the first of them at index `base`: all of its
/// steps but for a function, whose body follows, and a condition, whose blocks follow.
pub open spec fn stmt_head(s: Statement, function: Option<usize>, base: int, variables: Seq<(String, usize)>) -> Seq<InstrV> {
    match s.kind {
        StatementKind::Constant { binding, value, typing: _ } => match value.data {
            ExpressionData::Integer { value: v } => seq![InstrV::GlobalInt { name: binding@, value: v as u64 }],
            ExpressionData::Float { whole, fraction } => seq![InstrV::GlobalFloat { name: binding@, whole: whole@, fraction: fraction@ }],
            ExpressionData::StringLiteral { value: v } => seq![InstrV::GlobalString { name: binding@, value: v@ }],
            _ => seq![],
        },
        StatementKind::ExternFnStatement(h) => seq![
            InstrV::DeclareFunction { name: h.name@, parameters: param_types(h.arguments@), ret: llvm_type_of(h.ret), variadic: h.variadic },
        ],
        StatementKind::Variable { binding, assignment, typing } => {
            let c = expr_code(assignment, base + 1, variables);
            seq![InstrV::Alloca { typing: llvm_type_of(typing).unwrap(), name: binding@ }] + c
                + seq![InstrV::Store { slot: base as usize, value: (base + c.len()) as usize }]
        },
        StatementKind::ExpressionStatement(e) => expr_code(e, base, variables),
        StatementKind::ReturnStatement { value, typing: _ } => match value {
            Some(v) => {
                let c = expr_code(v, base, variables);
                c.push(InstrV::Return { value: Some((base + c.len() - 1) as usize) })
            },
            None => seq![InstrV::Return { value: None }],
        },
        StatementKind::FnStatement(f) => seq![
            InstrV::DeclareFunction {
                name: f.head.name@,
                parameters: param_types(f.head.arguments@),
                ret: llvm_type_of(f.head.ret),
                variadic: false,
            },
            InstrV::AppendBlock { function: base as usize, label: BlockLabel::Entry },
            InstrV::PositionAtEnd { block: (base + 1) as usize },
        ] + Seq::new(
            f.head.arguments@.len(),
            |i: int| InstrV::Parameter { function: base as usize, index: i as usize, name: f.head.arguments@[i].name@ },
        ),
        StatementKind::IfStatement { condition, block_true: _, block_false: _ } => {
            let f = function.unwrap();
            let c = expr_code(condition, base + 3, variables);
            seq![
                InstrV::AppendBlock { function: f, label: BlockLabel::Branch },
                InstrV::AppendBlock { function: f, label: BlockLabel::Other },
                InstrV::AppendBlock { function: f, label: BlockLabel::Escape },
            ] + c + seq![
                InstrV::CondBranch { condition: (base + 3 + c.len() - 1) as usize, then_block: base as usize, else_block: (base + 1) as usize },
                InstrV::PositionAtEnd { block: base as usize },
            ]
        },
        _ => seq![],
    }
}

/// The variables known once the arguments of a function that starts at `base` are bound,
/// each to the step that reads it.
pub open spec fn params_pushed(args: Seq<TypedField>, base: int, variables: Seq<(String, usize)>) -> Seq<(String, usize)> {
    variables + Seq::new(args.len(), |i: int| (args[i].name, (base + 3 + i) as usize))
}

/// All the steps that lower a statement, the first of them at index `base`, and the
/// variables known after them: a function's body follows its head; a condition's head is
/// followed by the first block, a branch to the block after both, the second block, a
/// branch again, and that last block.
pub open spec fn stmt_lowered(s: Statement, function: Option<usize>, base: int, variables: Seq<(String, usize)>) -> (Seq<InstrV>, Seq<(String, usize)>)
    decreases s, 0nat,
{
    let head = stmt_head(s, function, base, variables);
    match s.kind {
        StatementKind::Variable { binding, .. } => (head, variables.push((binding, base as usize))),
        StatementKind::FnStatement(f) => {
            let body = block_lowered(f.block@, Some(base as usize), base + head.len(), params_pushed(f.head.arguments@, base, variables));
            (head + body.0, body.1)
        },
        StatementKind::IfStatement { condition: _, block_true, block_false } => {
            let t = block_lowered(block_true@, function, base + head.len(), variables);
            let e = block_lowered(block_false@, function, base + head.len() + t.0.len() + 2, t.1);
            (
                head + t.0 + seq![InstrV::Branch { target: (base + 2) as usize }, InstrV::PositionAtEnd { block: (base + 1) as usize }] + e.0
                    + seq![InstrV::Branch { target: (base + 2) as usize }, InstrV::PositionAtEnd { block: (base + 2) as usize }],
                e.1,
            )
        },
        _ => (head, variables),
    }
}

/// All the steps that lower the statements of a block, the first of them at index `base`,
/// and the variables known after them.
pub open spec fn block_lowered(b: Seq<Statement>, function: Option<usize>, base: int, variables: Seq<(String, usize)>) -> (Seq<InstrV>, Seq<(String, usize)>)
    decreases b, 1nat,
{
    if b.len() == 0 {
        (Seq::empty(), variables)
    } else {
        let p = block_lowered(b.subrange(0, b.len() - 1), function, base, variables);
        let l = stmt_lowered(b[b.len() - 1], function, base + p.0.len(), p.1);
        (p.0 + l.0, l.1)
    }
}

proof fn lemma_block_lowerable(b: Seq<Statement>, i: int, toplevel: bool, in_function: bool, vars: Set<Seq<char>>, fns: Map<Seq<char>, bool>)
    requires
        block_lowerable(b, toplevel, in_function, vars, fns),
        0 <= i < b.len(),
    ensures
        stmt_lowerable(b[i], toplevel, in_function, block_vars(b.subrange(0, i), vars), block_fns(b.subrange(0, i), fns)),
    decreases b.len(),
{
    let prefix = b.subrange(0, b.len() - 1);
    if i < b.len() - 1 {
        lemma_block_lowerable(prefix, i, toplevel, in_function, vars, fns);
        assert(prefix.subrange(0, i) =~= b.subrange(0, i));
    } else {
        assert(prefix =~= b.subrange(0, i));
    }
}

proof fn lemma_prefix_trans(x: Seq<InstrV>, y: Seq<InstrV>, z: Seq<InstrV>)
    requires
        x.is_prefix_of(y),
        y.is_prefix_of(z),
    ensures
        x.is_prefix_of(z),
{
    assert(z.subrange(0, x.len() as int) =~= y.subrange(0, x.len() as int));
}

proof fn lemma_prefix_subrange(x: Seq<InstrV>, y: Seq<InstrV>, a: int, b: int)
    requires
        x.is_prefix_of(y),
        0 <= a <= b <= x.len(),
    ensures
        y.subrange(a, b) == x.subrange(a, b),
{
    assert(y.subrange(a, b) =~= x.subrange(a, b));
}


proof fn lemma_block_lowerable_prefix(b: Seq<Statement>, j: int, toplevel: bool, in_function: bool, vars: Set<Seq<char>>, fns: Map<Seq<char>, bool>)
    requires
        block_lowerable(b, toplevel, in_function, vars, fns),
        0 <= j <= b.len(),
    ensures
        block_lowerable(b.subrange(0, j), toplevel, in_function, vars, fns),
    decreases b.len(),
{
    if j < b.len() {
        let prefix = b.subrange(0, b.len() - 1);
        lemma_block_lowerable_prefix(prefix, j, toplevel, in_function, vars, fns);
        assert(prefix.subrange(0, j) =~= b.subrange(0, j));
    } else {
        assert(b.subrange(0, j) =~= b);
    }
}

/// Whether the lowering can give a type an LLVM type or none.
pub fn type_ok(t: &Typing) -> (r: bool)
    ensures
        r == type_lowerable(*t),
    decreases t,
{
    match t {
        Typing::Void => true,
        Typing::Primitive(p) => !matches!(p, Primitive::Char),
        Typing::Pointer { mutable: _, typ } => !matches!(**typ, Typing::Void) && type_ok(typ),
        _ => false,
    }
}

fn params_ok(args: &Vec<TypedField>) -> (r: bool)
    ensures
        r == params_lowerable(args@),
{
    let mut i: usize = 0;
    while i < args.len()
        invariant
            i <= args@.len(),
            forall|j: int| 0 <= j < i ==> type_lowerable(#[trigger] args@[j].typing) && !(args@[j].typing is Void),
        decreases args@.len() - i,
    {
        if matches!(args[i].typing, Typing::Void) || !type_ok(&args[i].typing) {
            return false;
        }
        i = i + 1;
    }
    true
}

fn yields_ok(fns: &Vec<(String, bool)>, e: &Expression) -> (r: bool)
    ensures
        r == yields(*e, fn_map(fns@)),
{
    match &e.data {
        ExpressionData::FunctionCall { function, arguments: _ } => match &function.data {
            ExpressionData::Identifier { name } => match find_latest(fns, name.as_str()) {
                Some(b) => b,
                None => false,
            },
            _ => false,
        },
        _ => true,
    }
}

/// Whether an expression can be lowered with the variables and functions known.
pub fn expr_ok(vars: &Vec<(String, usize)>, fns: &Vec<(String, bool)>, e: &Expression) -> (r: bool)
    ensures
        r == expr_lowerable(*e, var_names(vars@), fn_map(fns@)),
    decreases e,
{
    match &e.data {
        ExpressionData::Integer { value } => 0 <= *value && *value <= 18446744073709551615i128,
        ExpressionData::Float { .. } | ExpressionData::StringLiteral { .. } | ExpressionData::Bool { .. } => true,
        ExpressionData::UnaryOperation { operator, operand } => !matches!(operator, UnaryOperation::Deref)
            && expr_ok(vars, fns, operand) && yields_ok(fns, operand),
        ExpressionData::BinaryOperation { operator, left, right } => matches!(
            operator,
            BinaryOperation::Add | BinaryOperation::Sub | BinaryOperation::Mul | BinaryOperation::Div
        ) && expr_ok(vars, fns, left) && yields_ok(fns, left) && expr_ok(vars, fns, right) && yields_ok(fns, right),
        ExpressionData::FunctionCall { function, arguments } => {
            let known = match &function.data {
                ExpressionData::Identifier { name } => find_latest(fns, name.as_str()).is_some(),
                _ => false,
            };
            if !known {
                return false;
            }
            let mut i: usize = 0;
            proof {
                assert(arguments@.subrange(0, 0).len() == 0);
            }
            while i < arguments.len()
                invariant
                    i <= arguments@.len(),
                    e.data == (ExpressionData::FunctionCall { function: *function, arguments: *arguments }),
                    args_lowerable(arguments@.subrange(0, i as int), var_names(vars@), fn_map(fns@)),
                decreases arguments@.len() - i,
            {
                proof {
                    assert(decreases_to!(*e => e.data));
                    assert(decreases_to!(e.data => e.data->FunctionCall_arguments));
                    assert(decreases_to!(*arguments => arguments@));
                    assert(decreases_to!(arguments@ => arguments@[i as int]));
                }
                let ok = expr_ok(vars, fns, &arguments[i]) && yields_ok(fns, &arguments[i]);
                proof {
                    let s = arguments@.subrange(0, i + 1);
                    assert(s.subrange(0, s.len() - 1) =~= arguments@.subrange(0, i as int));
                    assert(s[s.len() - 1] == arguments@[i as int]);
                }
                if !ok {
                    proof {
                        lemma_args_prefix(arguments@, i + 1, var_names(vars@), fn_map(fns@));
                    }
                    return false;
                }
                i = i + 1;
            }
            proof {
                assert(arguments@.subrange(0, arguments@.len() as int) =~= arguments@);
            }
            true
        },
        ExpressionData::Identifier { name } => find_latest(vars, name.as_str()).is_some(),
        _ => false,
    }
}

proof fn lemma_args_prefix(s: Seq<Expression>, j: int, variables: Set<Seq<char>>, functions: Map<Seq<char>, bool>)
    requires
        0 <= j <= s.len(),
        !args_lowerable(s.subrange(0, j), variables, functions),
    ensures
        !args_lowerable(s, variables, functions),
    decreases s.len(),
{
    if j < s.len() {
        let prefix = s.subrange(0, s.len() - 1);
        assert(prefix.subrange(0, j) =~= s.subrange(0, j));
        lemma_args_prefix(prefix, j, variables, functions);
    } else {
        assert(s.subrange(0, j) =~= s);
    }
}

fn bind_name(vars: &mut Vec<(String, usize)>, name: &String)
    ensures
        var_names(final(vars)@) == var_names(old(vars)@).insert(name@),
{
    let entry = (name.clone(), 0usize);
    proof {
        lemma_var_names_push(vars@, entry);
    }
    vars.push(entry);
}

fn declare_name(fns: &mut Vec<(String, bool)>, name: &String, has_value: bool)
    ensures
        fn_map(final(fns)@) == declare(fn_map(old(fns)@), name@, has_value),
{
    if find_latest(fns, name.as_str()).is_none() {
        let entry = (name.clone(), has_value);
        proof {
            lemma_fn_map_push(fns@, entry);
        }
        fns.push(entry);
    }
}

/// Whether a statement can be lowered with the variables and functions known; where it can,
/// they become those known after it.
pub fn stmt_ok(vars: &mut Vec<(String, usize)>, fns: &mut Vec<(String, bool)>, s: &Statement, toplevel: bool, in_function: bool) -> (r: bool)
    ensures
        r == stmt_lowerable(*s, toplevel, in_function, var_names(old(vars)@), fn_map(old(fns)@)),
        r ==> var_names(final(vars)@) == stmt_vars(*s, var_names(old(vars)@)),
        r ==> fn_map(final(fns)@) == stmt_fns(*s, fn_map(old(fns)@)),
    decreases s, 0nat,
{
    match &s.kind {
        StatementKind::Constant { binding: _, value, typing: _ } => match &value.data {
            ExpressionData::Integer { value: v } => 0 <= *v && *v <= 18446744073709551615i128,
            ExpressionData::Float { .. } | ExpressionData::StringLiteral { .. } => true,
            _ => false,
        },
        StatementKind::FnStatement(f) => {
            if !params_ok(&f.head.arguments) || !type_ok(&f.head.ret) {
                return false;
            }
            let args = &f.head.arguments;
            let ghost vars0 = var_names(vars@);
            let mut i: usize = 0;
            proof {
                assert(args@.subrange(0, 0).len() == 0);
            }
            while i < args.len()
                invariant
                    i <= args@.len(),
                    var_names(vars@) == params_bound(args@.subrange(0, i as int), vars0),
                    fns@ == old(fns)@,
                decreases args@.len() - i,
            {
                bind_name(vars, &args[i].name);
                proof {
                    let t = args@.subrange(0, i + 1);
                    assert(t.drop_last() =~= args@.subrange(0, i as int));
                }
                i = i + 1;
            }
            proof {
                assert(args@.subrange(0, args@.len() as int) =~= args@);
            }
            let has_value = choose_type_is_some(&f.head.ret);
            declare_name(fns, &f.head.name, has_value);
            proof {
                assert(decreases_to!(*s => s.kind));
                assert(decreases_to!(s.kind => s.kind->FnStatement_0));
            }
            block_ok(vars, fns, &f.block, false, true)
        },
        StatementKind::ExternFnStatement(h) => {
            if !params_ok(&h.arguments) || !type_ok(&h.ret) {
                return false;
            }
            let has_value = choose_type_is_some(&h.ret);
            declare_name(fns, &h.name, has_value);
            true
        },
        StatementKind::Variable { binding, assignment, typing } => {
            let ok = !toplevel && type_ok(typing) && !matches!(typing, Typing::Void) && expr_ok(vars, fns, assignment)
                && yields_ok(fns, assignment);
            if ok {
                bind_name(vars, binding);
            }
            ok
        },
        StatementKind::ExpressionStatement(e) => expr_ok(vars, fns, e),
        StatementKind::ReturnStatement { value, typing: _ } => !toplevel && match value {
            Some(v) => expr_ok(vars, fns, v) && yields_ok(fns, v),
            None => true,
        },
        StatementKind::IfStatement { condition, block_true, block_false } => {
            if !(in_function && expr_ok(vars, fns, condition) && yields_ok(fns, condition)) {
                return false;
            }
            proof {
                assert(decreases_to!(*s => s.kind));
                assert(decreases_to!(s.kind => s.kind->IfStatement_block_true));
                assert(decreases_to!(s.kind => s.kind->IfStatement_block_false));
            }
            if !block_ok(vars, fns, block_true, false, true) {
                return false;
            }
            block_ok(vars, fns, block_false, false, true)
        },
        _ => false,
    }
}

fn choose_type_is_some(t: &Typing) -> (r: bool)
    requires
        type_lowerable(*t),
    ensures
        r == (llvm_type_of(*t) is Some),
{
    choose_type(t).is_some()
}

/// Whether the statements of a block can be lowered one after the other; where they can, the
/// variables and functions known become those known after them.
pub fn block_ok(vars: &mut Vec<(String, usize)>, fns: &mut Vec<(String, bool)>, b: &Vec<Statement>, toplevel: bool, in_function: bool) -> (r: bool)
    ensures
        r == block_lowerable(b@, toplevel, in_function, var_names(old(vars)@), fn_map(old(fns)@)),
        r ==> var_names(final(vars)@) == block_vars(b@, var_names(old(vars)@)),
        r ==> fn_map(final(fns)@) == block_fns(b@, fn_map(old(fns)@)),
    decreases b@, 1nat,
{
    let ghost vars0 = var_names(vars@);
    let ghost fns0 = fn_map(fns@);
    let mut i: usize = 0;
    proof {
        assert(b@.subrange(0, 0).len() == 0);
    }
    while i < b.len()
        invariant
            i <= b@.len(),
            block_lowerable(b@.subrange(0, i as int), toplevel, in_function, vars0, fns0),
            vars0 == var_names(old(vars)@),
            fns0 == fn_map(old(fns)@),
            var_names(vars@) == block_vars(b@.subrange(0, i as int), vars0),
            fn_map(fns@) == block_fns(b@.subrange(0, i as int), fns0),
        decreases b@.len() - i,
    {
        proof {
            assert(decreases_to!(b@ => b@[i as int]));
        }
        let ghost vi = var_names(vars@);
        let ghost fi = fn_map(fns@);
        let ok = stmt_ok(vars, fns, &b[i], toplevel, in_function);
        proof {
            let t = b@.subrange(0, i + 1);
            assert(t.subrange(0, t.len() - 1) =~= b@.subrange(0, i as int));
            assert(t[t.len() - 1] == b@[i as int]);
            assert(block_lowerable(t, toplevel, in_function, vars0, fns0) == ok);
        }
        if !ok {
            proof {
                if block_lowerable(b@, toplevel, in_function, vars0, fns0) {
                    lemma_block_lowerable_prefix(b@, i + 1, toplevel, in_function, vars0, fns0);
                    assert(false);
                }
            }
            return false;
        }
        i = i + 1;
    }
    proof {
        assert(b@.subrange(0, b@.len() as int) =~= b@);
    }
    true
}

/// The state of lowering a program: the steps so far, the stack slots of the variables and
/// the functions declared, each with whether it returns a value.
pub struct Lowering {
    pub code: Vec<Instr>,
    pub variables: Vec<(String, usize)>,
    pub functions: Vec<(String, bool)>,
}

impl Lowering {
    /// The steps refer only to earlier steps, and every variable to a step made.
    pub open spec fn valid(&self) -> bool {
        &&& code_wf(code_view(self.code@))
        &&& forall|i: int| 0 <= i < self.variables@.len() ==> #[trigger] self.variables@[i].1 < self.code@.len()
    }

    /// A lowering that has emitted no step.
    pub fn new() -> (r: Self)
        ensures
            r.valid(),
            r.code@.len() == 0,
            r.variables@.len() == 0,
            r.functions@.len() == 0,
    {
        Lowering { code: Vec::new(), variables: Vec::new(), functions: Vec::new() }
    }

    fn emit(&mut self, i: Instr) -> (r: usize)
        requires
            old(self).valid(),
            refs_before(i@, old(self).code@.len() as int),
        ensures
            final(self).valid(),
            r == old(self).code@.len(),
            final(self).code@.len() == old(self).code@.len() + 1,
            code_view(final(self).code@) == code_view(old(self).code@).push(i@),
            code_view(old(self).code@).is_prefix_of(code_view(final(self).code@)),
            final(self).variables == old(self).variables,
            final(self).functions == old(self).functions,
    {
        let r = self.code.len();
        self.code.push(i);
        proof {
            assert(code_view(self.code@) =~= code_view(old(self).code@).push(i@));
            assert(code_view(self.code@).subrange(0, r as int) =~= code_view(old(self).code@));
            assert forall|k: int| 0 <= k < code_view(self.code@).len() implies refs_before(#[trigger] code_view(self.code@)[k], k) by {
                if k < r {
                    assert(code_view(self.code@)[k] == code_view(old(self).code@)[k]);
                }
            }
        }
        r
    }

    fn declare_function(&mut self, name: &String, has_value: bool)
        ensures
            fn_map(final(self).functions@) == declare(fn_map(old(self).functions@), name@, has_value),
            final(self).code == old(self).code,
            final(self).variables == old(self).variables,
    {
        if find_latest(&self.functions, name.as_str()).is_none() {
            let entry = (name.clone(), has_value);
            proof {
                lemma_fn_map_push(self.functions@, entry);
            }
            self.functions.push(entry);
        }
    }

    fn bind_variable(&mut self, name: &String, slot: usize)
        requires
            old(self).valid(),
            slot < old(self).code@.len(),
        ensures
            final(self).valid(),
            var_names(final(self).variables@) == var_names(old(self).variables@).insert(name@),
            latest(final(self).variables@, name@) == Some(slot),
            final(self).variables@ == old(self).variables@.push((*name, slot)),
            final(self).code == old(self).code,
            final(self).functions == old(self).functions,
    {
        let entry = (name.clone(), slot);
        proof {
            lemma_var_names_push(self.variables@, entry);
            lemma_latest_push(self.variables@, entry, name@);
        }
        self.variables.push(entry);
    }

    fn parameter_types(args: &Vec<TypedField>) -> (r: Vec<LlvmType>)
        requires
            params_lowerable(args@),
        ensures
            r@ == param_types(args@),
    {
        let mut r: Vec<LlvmType> = Vec::new();
        let mut i: usize = 0;
        while i < args.len()
            invariant
                i <= args@.len(),
                params_lowerable(args@),
                r@ == param_types(args@.subrange(0, i as int)),
            decreases args@.len() - i,
        {
            proof {
                lemma_lowerable_has_type(args@[i as int].typing);
            }
            let t = choose_type(&args[i].typing).unwrap();
            r.push(t);
            proof {
                assert(param_types(args@.subrange(0, i + 1)) =~= param_types(args@.subrange(0, i as int)).push(t));
            }
            i = i + 1;
        }
        proof {
            assert(args@.subrange(0, args@.len() as int) =~= args@);
        }
        r
    }

    /// Emits the steps that lower a statement. `function` is the function whose body holds
    /// it, if any, and `toplevel` whether it stands outside every function.
    pub fn generate_from_node(&mut self, function: Option<usize>, node: &Statement, toplevel: bool)
        requires
            old(self).valid(),
            stmt_lowerable(*node, toplevel, function is Some, var_names(old(self).variables@), fn_map(old(self).functions@)),
            function matches Some(f) ==> f < old(self).code@.len(),
        ensures
            final(self).valid(),
            var_names(final(self).variables@) == stmt_vars(*node, var_names(old(self).variables@)),
            fn_map(final(self).functions@) == stmt_fns(*node, fn_map(old(self).functions@)),
            code_view(old(self).code@).is_prefix_of(code_view(final(self).code@)),
            ({
                let base = old(self).code@.len() as int;
                let head = stmt_head(*node, function, base, old(self).variables@);
                &&& base + head.len() <= final(self).code@.len()
                &&& code_view(final(self).code@).subrange(base, base + head.len()) == head
                &&& !(node.kind is FnStatement || node.kind is IfStatement) ==> final(self).code@.len() == base + head.len()
                &&& node.kind is IfStatement ==> code_view(final(self).code@).last() == (InstrV::PositionAtEnd { block: (base + 2) as usize })
            }),
            node.kind matches StatementKind::Variable { binding, .. } ==> latest(final(self).variables@, binding@) == Some(old(self).code@.len() as usize),
            code_view(final(self).code@) == code_view(old(self).code@) + stmt_lowered(*node, function, old(self).code@.len() as int, old(self).variables@).0,
            final(self).variables@ == stmt_lowered(*node, function, old(self).code@.len() as int, old(self).variables@).1,
        decreases node, 2nat,
    {
        let ghost base = self.code@.len() as int;
        let ghost before = code_view(self.code@);
        let ghost vars0 = self.variables@;
        match &node.kind {
            StatementKind::Constant { binding, value, typing: _ } => {
                match &value.data {
                    ExpressionData::Integer { value: v } => {
                        let x: u64 = *v as u64;
                        self.emit(Instr::GlobalInt { name: binding.clone(), value: x });
                    },
                    ExpressionData::Float { whole, fraction } => {
                        self.emit(Instr::GlobalFloat { name: binding.clone(), whole: whole.clone(), fraction: fraction.clone() });
                    },
                    ExpressionData::StringLiteral { value: v } => {
                        self.emit(Instr::GlobalString { name: binding.clone(), value: v.clone() });
                    },
                    _ => {
                        proof {
                            assert(false);
                        }
                    },
                }
                proof {
                    assert(code_view(self.code@).subrange(base, base + 1) =~= stmt_head(*node, function, base, vars0));
                    assert(code_view(self.code@).subrange(0, base) =~= before);
                }
            },
            StatementKind::ExternFnStatement(h) => {
                let params = Self::parameter_types(&h.arguments);
                let ret = choose_type(&h.ret);
                let has_value = ret.is_some();
                self.emit(Instr::DeclareFunction { name: h.name.clone(), parameters: params, ret, variadic: h.variadic });
                self.declare_function(&h.name, has_value);
                proof {
                    assert(code_view(self.code@).subrange(base, base + 1) =~= stmt_head(*node, function, base, vars0));
                    assert(code_view(self.code@).subrange(0, base) =~= before);
                }
            },
            StatementKind::Variable { binding, assignment, typing } => {
                proof {
                    lemma_lowerable_has_type(*typing);
                }
                let t = choose_type(typing).unwrap();
                let slot = self.emit(Instr::Alloca { typing: t, name: binding.clone() });
                let v = self.generate_expression(assignment).unwrap();
                self.emit(Instr::Store { slot, value: v });
                self.bind_variable(binding, slot);
                proof {
                    let head = stmt_head(*node, function, base, vars0);
                    assert(code_view(self.code@) =~= before + head);
                    assert(code_view(self.code@).subrange(base, base + head.len()) =~= head);
                    assert(code_view(self.code@).subrange(0, base) =~= before);
                }
            },
            StatementKind::ExpressionStatement(e) => {
                self.generate_expression(e);
                proof {
                    let head = stmt_head(*node, function, base, vars0);
                    assert(code_view(self.code@).subrange(base, base + head.len()) =~= head);
                    assert(code_view(self.code@).subrange(0, base) =~= before);
                }
            },
            StatementKind::ReturnStatement { value, typing: _ } => {
                match value {
                    Some(v) => {
                        let x = self.generate_expression(v).unwrap();
                        self.emit(Instr::Return { value: Some(x) });
                    },
                    None => {
                        self.emit(Instr::Return { value: None });
                    },
                }
                proof {
                    let head = stmt_head(*node, function, base, vars0);
                    assert(code_view(self.code@) =~= before + head);
                    assert(code_view(self.code@).subrange(base, base + head.len()) =~= head);
                    assert(code_view(self.code@).subrange(0, base) =~= before);
                }
            },
            StatementKind::FnStatement(_) => {
                self.generate_function(node);
            },
            StatementKind::IfStatement { .. } => {
                self.generate_if(function, node);
            },
            _ => {
                proof {
                    assert(false);
                }
            },
        }
    }

    fn generate_function(&mut self, node: &Statement)
        requires
            old(self).valid(),
            node.kind is FnStatement,
            stmt_lowerable(*node, false, false, var_names(old(self).variables@), fn_map(old(self).functions@)),
        ensures
            final(self).valid(),
            var_names(final(self).variables@) == stmt_vars(*node, var_names(old(self).variables@)),
            fn_map(final(self).functions@) == stmt_fns(*node, fn_map(old(self).functions@)),
            code_view(old(self).code@).is_prefix_of(code_view(final(self).code@)),
            ({
                let base = old(self).code@.len() as int;
                let head = stmt_head(*node, None, base, old(self).variables@);
                &&& base + head.len() <= final(self).code@.len()
                &&& code_view(final(self).code@).subrange(base, base + head.len()) == head
                &&& node.kind is IfStatement ==> code_view(final(self).code@).last() == (InstrV::PositionAtEnd { block: (base + 2) as usize })
            }),
            code_view(final(self).code@) == code_view(old(self).code@) + stmt_lowered(*node, None, old(self).code@.len() as int, old(self).variables@).0,
            final(self).variables@ == stmt_lowered(*node, None, old(self).code@.len() as int, old(self).variables@).1,
        decreases node, 1nat,
    {
        let ghost base = self.code@.len() as int;
        let ghost before = code_view(self.code@);
        let ghost vars0 = self.variables@;
        let ghost function: Option<usize> = None;
        match &node.kind {
            StatementKind::FnStatement(f) => {
                let params = Self::parameter_types(&f.head.arguments);
                let ret = choose_type(&f.head.ret);
                let has_value = ret.is_some();
                let fid = self.emit(Instr::DeclareFunction { name: f.head.name.clone(), parameters: params, ret, variadic: false });
                self.declare_function(&f.head.name, has_value);
                let entry = self.emit(Instr::AppendBlock { function: fid, label: BlockLabel::Entry });
                self.emit(Instr::PositionAtEnd { block: entry });
                let ghost head3 = code_view(self.code@).subrange(base, base + 3);
                let ghost vars1 = var_names(self.variables@);
                let ghost fns1 = fn_map(self.functions@);
                let args = &f.head.arguments;
                let mut i: usize = 0;
                proof {
                    assert(code_view(self.code@) =~= before + head3 + Seq::new(0, |j: int| InstrV::Parameter { function: base as usize, index: j as usize, name: args@[j].name@ }));
                    assert(args@.subrange(0, 0).len() == 0);
                    assert(params_bound(args@.subrange(0, 0), var_names(vars0)) == var_names(vars0));
                }
                while i < args.len()
                    invariant
                        i <= args@.len(),
                        fid == base,
                        self.valid(),
                        self.code@.len() == base + 3 + i,
                        fns1 == fn_map(self.functions@),
                        vars1 == var_names(vars0),
                        var_names(self.variables@) == params_bound(args@.subrange(0, i as int), vars1),
                        code_view(self.code@) == before + head3 + Seq::new(i as nat, |j: int| InstrV::Parameter { function: base as usize, index: j as usize, name: args@[j].name@ }),
                        self.variables@ == vars0 + Seq::new(i as nat, |j: int| (args@[j].name, (base + 3 + j) as usize)),
                    decreases args@.len() - i,
                {
                    let slot = self.emit(Instr::Parameter { function: fid, index: i, name: args[i].name.clone() });
                    self.bind_variable(&args[i].name, slot);
                    proof {
                        let s = args@.subrange(0, i + 1);
                        assert(s.drop_last() =~= args@.subrange(0, i as int));
                        assert(code_view(self.code@) =~= before + head3 + Seq::new((i + 1) as nat, |j: int| InstrV::Parameter { function: base as usize, index: j as usize, name: args@[j].name@ }));
                        assert(self.variables@ =~= vars0 + Seq::new((i + 1) as nat, |j: int| (args@[j].name, (base + 3 + j) as usize)));
                    }
                    i = i + 1;
                }
                proof {
                    assert(args@.subrange(0, args@.len() as int) =~= args@);
                    let head = stmt_head(*node, function, base, vars0);
                    assert(code_view(self.code@) =~= before + head);
                    assert(decreases_to!(*node => node.kind));
                    assert(decreases_to!(node.kind => node.kind->FnStatement_0));
                }
                let ghost mid = code_view(self.code@);
                proof {
                    assert(self.variables@ =~= params_pushed(args@, base, vars0));
                }
                self.generate_block(Some(fid), &f.block, false);
                proof {
                    let head = stmt_head(*node, function, base, vars0);
                    assert(code_view(self.code@) =~= before + stmt_lowered(*node, None, base, vars0).0);
                    lemma_prefix_subrange(mid, code_view(self.code@), base, base + head.len());
                    lemma_prefix_subrange(mid, code_view(self.code@), 0, base);
                    assert(mid.subrange(base, base + head.len()) =~= head);
                    assert(mid.subrange(0, base) =~= before);
                }
            },
            _ => {},
        }
    }

    #[verifier::rlimit(30)]
    fn generate_if(&mut self, function: Option<usize>, node: &Statement)
        requires
            old(self).valid(),
            node.kind is IfStatement,
            stmt_lowerable(*node, false, function is Some, var_names(old(self).variables@), fn_map(old(self).functions@)),
            function matches Some(f) ==> f < old(self).code@.len(),
        ensures
            final(self).valid(),
            var_names(final(self).variables@) == stmt_vars(*node, var_names(old(self).variables@)),
            fn_map(final(self).functions@) == stmt_fns(*node, fn_map(old(self).functions@)),
            code_view(old(self).code@).is_prefix_of(code_view(final(self).code@)),
            ({
                let base = old(self).code@.len() as int;
                let head = stmt_head(*node, function, base, old(self).variables@);
                &&& base + head.len() <= final(self).code@.len()
                &&& code_view(final(self).code@).subrange(base, base + head.len()) == head
                &&& node.kind is IfStatement ==> code_view(final(self).code@).last() == (InstrV::PositionAtEnd { block: (base + 2) as usize })
            }),
            code_view(final(self).code@) == code_view(old(self).code@) + stmt_lowered(*node, function, old(self).code@.len() as int, old(self).variables@).0,
            final(self).variables@ == stmt_lowered(*node, function, old(self).code@.len() as int, old(self).variables@).1,
        decreases node, 1nat,
    {
        let ghost base = self.code@.len() as int;
        let ghost before = code_view(self.code@);
        let ghost vars0 = self.variables@;
        match &node.kind {
            StatementKind::IfStatement { condition, block_true, block_false } => {
                let f = function.unwrap();
                let branch = self.emit(Instr::AppendBlock { function: f, label: BlockLabel::Branch });
                let other = self.emit(Instr::AppendBlock { function: f, label: BlockLabel::Other });
                let escape = self.emit(Instr::AppendBlock { function: f, label: BlockLabel::Escape });
                let c = self.generate_expression(condition).unwrap();
                self.emit(Instr::CondBranch { condition: c, then_block: branch, else_block: other });
                self.emit(Instr::PositionAtEnd { block: branch });
                let ghost mid = code_view(self.code@);
                proof {
                    let head = stmt_head(*node, function, base, vars0);
                    assert(mid =~= before + head);
                    assert(decreases_to!(*node => node.kind));
                    assert(decreases_to!(node.kind => node.kind->IfStatement_block_true));
                    assert(decreases_to!(node.kind => node.kind->IfStatement_block_false));
                }
                self.generate_block(Some(f), block_true, false);
                let ghost m1 = code_view(self.code@);
                self.emit(Instr::Branch { target: escape });
                let ghost m2 = code_view(self.code@);
                self.emit(Instr::PositionAtEnd { block: other });
                let ghost m3 = code_view(self.code@);
                self.generate_block(Some(f), block_false, false);
                let ghost m4 = code_view(self.code@);
                self.emit(Instr::Branch { target: escape });
                let ghost m5 = code_view(self.code@);
                self.emit(Instr::PositionAtEnd { block: escape });
                proof {
                    let head = stmt_head(*node, function, base, vars0);
                    let t = block_lowered(block_true@, function, base + head.len(), vars0);
                    let e = block_lowered(block_false@, function, base + head.len() + t.0.len() + 2, t.1);
                    assert(m1 =~= mid + t.0);
                    assert(m3 =~= m1 + seq![InstrV::Branch { target: (base + 2) as usize }, InstrV::PositionAtEnd { block: (base + 1) as usize }]);
                    assert(m4 =~= m3 + e.0);
                    let fin = code_view(self.code@);
                    assert(fin =~= before + stmt_lowered(*node, function, base, vars0).0);
                    assert(fin.subrange(base, base + head.len()) =~= head);
                    assert(fin.subrange(0, base) =~= before);
                }
            },
            _ => {},
        }
    }

    /// Emits the steps that lower the statements of a block, one after the other.
    pub fn generate_block(&mut self, function: Option<usize>, block: &Vec<Statement>, toplevel: bool)
        requires
            old(self).valid(),
            block_lowerable(block@, toplevel, function is Some, var_names(old(self).variables@), fn_map(old(self).functions@)),
            function matches Some(f) ==> f < old(self).code@.len(),
        ensures
            final(self).valid(),
            var_names(final(self).variables@) == block_vars(block@, var_names(old(self).variables@)),
            fn_map(final(self).functions@) == block_fns(block@, fn_map(old(self).functions@)),
            code_view(old(self).code@).is_prefix_of(code_view(final(self).code@)),
            code_view(final(self).code@) == code_view(old(self).code@) + block_lowered(block@, function, old(self).code@.len() as int, old(self).variables@).0,
            final(self).variables@ == block_lowered(block@, function, old(self).code@.len() as int, old(self).variables@).1,
        decreases block@, 0nat,
    {
        let ghost vars0 = var_names(self.variables@);
        let ghost fns0 = fn_map(self.functions@);
        let ghost code0 = code_view(self.code@);
        let mut i: usize = 0;
        proof {
            assert(block@.subrange(0, 0).len() == 0);
            assert(code0.subrange(0, code0.len() as int) =~= code0);
        }
        while i < block.len()
            invariant
                i <= block@.len(),
                self.valid(),
                block_lowerable(block@, toplevel, function is Some, vars0, fns0),
                function matches Some(f) ==> f < self.code@.len(),
                var_names(self.variables@) == block_vars(block@.subrange(0, i as int), vars0),
                fn_map(self.functions@) == block_fns(block@.subrange(0, i as int), fns0),
                code0.is_prefix_of(code_view(self.code@)),
                code0.len() == old(self).code@.len(),
                code_view(self.code@) == code0 + block_lowered(block@.subrange(0, i as int), function, code0.len() as int, old(self).variables@).0,
                self.variables@ == block_lowered(block@.subrange(0, i as int), function, code0.len() as int, old(self).variables@).1,
            decreases block@.len() - i,
        {
            proof {
                lemma_block_lowerable(block@, i as int, toplevel, function is Some, vars0, fns0);
                assert(decreases_to!(block@ => block@[i as int]));
            }
            let ghost mid = code_view(self.code@);
            self.generate_from_node(function, &block[i], toplevel);
            proof {
                let s = block@.subrange(0, i + 1);
                assert(s.subrange(0, s.len() - 1) =~= block@.subrange(0, i as int));
                assert(s[s.len() - 1] == block@[i as int]);
                lemma_prefix_subrange(mid, code_view(self.code@), 0, code0.len() as int);
                assert(code_view(self.code@).subrange(0, code0.len() as int) =~= code0);
            }
            i = i + 1;
        }
        proof {
            assert(block@.subrange(0, block@.len() as int) =~= block@);
        }
    }

    /// Lowers a program: each of its statements stands outside every function.
    pub fn generate(program: &Program) -> (r: Lowering)
        requires
            block_lowerable(program.nodes@, true, false, Set::empty(), Map::empty()),
        ensures
            r.valid(),
            var_names(r.variables@) == block_vars(program.nodes@, Set::empty()),
            fn_map(r.functions@) == block_fns(program.nodes@, Map::empty()),
            code_view(r.code@) == block_lowered(program.nodes@, None, 0, Seq::empty()).0,
    {
        let mut lowering = Lowering::new();
        proof {
            assert(lowering.variables@ =~= Seq::<(String, usize)>::empty());
            assert(code_view(lowering.code@) =~= Seq::<InstrV>::empty());
            assert(var_names(lowering.variables@) =~= Set::<Seq<char>>::empty());
            assert(fn_map(lowering.functions@) =~= Map::<Seq<char>, bool>::empty());
        }
        lowering.generate_block(None, &program.nodes, true);
        lowering
    }

    /// Lowers a program where it can be lowered; none where it holds what is not lowered.
    pub fn generate_checked(program: &Program) -> (r: Option<Lowering>)
        ensures
            r is Some <==> block_lowerable(program.nodes@, true, false, Set::empty(), Map::empty()),
            r matches Some(l) ==> l.valid() && var_names(l.variables@) == block_vars(program.nodes@, Set::empty())
                && fn_map(l.functions@) == block_fns(program.nodes@, Map::empty())
                && code_view(l.code@) == block_lowered(program.nodes@, None, 0, Seq::empty()).0,
    {
        let mut vars: Vec<(String, usize)> = Vec::new();
        let mut fns: Vec<(String, bool)> = Vec::new();
        proof {
            assert(var_names(vars@) =~= Set::<Seq<char>>::empty());
            assert(fn_map(fns@) =~= Map::<Seq<char>, bool>::empty());
        }
        if block_ok(&mut vars, &mut fns, &program.nodes, true, false) {
            Some(Lowering::generate(program))
        } else {
            None
        }
    }

    /// Emits the steps that lower an expression, and gives the index of the step that makes
    /// its value, if it makes one.
    pub fn generate_expression(&mut self, e: &Expression) -> (r: Option<usize>)
        requires
            old(self).valid(),
            expr_lowerable(*e, var_names(old(self).variables@), fn_map(old(self).functions@)),
        ensures
            final(self).valid(),
            final(self).code@.len() > old(self).code@.len(),
            final(self).variables == old(self).variables,
            final(self).functions == old(self).functions,
            code_view(final(self).code@) == code_view(old(self).code@) + expr_code(*e, old(self).code@.len() as int, old(self).variables@),
            r == (if yields(*e, fn_map(old(self).functions@)) { Some((final(self).code@.len() - 1) as usize) } else { None }),
        decreases e,
    {
        let ghost base = self.code@.len() as int;
        let ghost before = code_view(self.code@);
        match &e.data {
            ExpressionData::Integer { value } => {
                let v: u64 = *value as u64;
                Some(self.emit(Instr::ConstInt { bits: 32, value: v }))
            },
            ExpressionData::Float { whole, fraction } => {
                Some(self.emit(Instr::ConstFloat { whole: whole.clone(), fraction: fraction.clone() }))
            },
            ExpressionData::StringLiteral { value } => Some(self.emit(Instr::StringPointer { value: value.clone() })),
            ExpressionData::Bool { value } => {
                let v: u64 = if *value { 1 } else { 0 };
                Some(self.emit(Instr::ConstInt { bits: 1, value: v }))
            },
            ExpressionData::UnaryOperation { operator, operand } => {
                let op = self.generate_expression(operand).unwrap();
                let i = match operator {
                    UnaryOperation::Neg => Instr::Neg { operand: op },
                    UnaryOperation::Addr => Instr::AddressOf { operand: op },
                    _ => Instr::Not { operand: op },
                };
                let r = self.emit(i);
                proof {
                    assert(code_view(self.code@) =~= before + expr_code(*e, base, old(self).variables@));
                }
                Some(r)
            },
            ExpressionData::BinaryOperation { operator, left, right } => {
                let l = self.generate_expression(left).unwrap();
                let rv = self.generate_expression(right).unwrap();
                let a = match operator {
                    BinaryOperation::Add => Arith::Add,
                    BinaryOperation::Sub => Arith::Sub,
                    BinaryOperation::Mul => Arith::Mul,
                    _ => Arith::SignedDiv,
                };
                let r = self.emit(Instr::Arith { operator: a, left: l, right: rv });
                proof {
                    assert(code_view(self.code@) =~= before + expr_code(*e, base, old(self).variables@));
                }
                Some(r)
            },
            ExpressionData::FunctionCall { function, arguments } => {
                let name = match &function.data {
                    ExpressionData::Identifier { name } => name,
                    _ => {
                        proof {
                            assert(false);
                        }
                        return None;
                    },
                };
                let mut ids: Vec<usize> = Vec::new();
                let mut i: usize = 0;
                proof {
                    assert(arguments@.subrange(0, 0) =~= Seq::<Expression>::empty());
                    assert(code_view(self.code@) =~= before + args_code(arguments@.subrange(0, 0), base, old(self).variables@));
                }
                while i < arguments.len()
                    invariant
                        i <= arguments@.len(),
                        self.variables == old(self).variables,
                        self.functions == old(self).functions,
                        self.valid(),
                        self.code@.len() >= base,
                        forall|j: int| 0 <= j < ids@.len() ==> #[trigger] ids@[j] < self.code@.len(),
                        base == old(self).code@.len(),
                        before == code_view(old(self).code@),
                        args_lowerable(arguments@, var_names(self.variables@), fn_map(self.functions@)),
                        e.data == (ExpressionData::FunctionCall { function: *function, arguments: *arguments }),
                        code_view(self.code@) == before + args_code(arguments@.subrange(0, i as int), base, self.variables@),
                        ids@ == args_ids(arguments@.subrange(0, i as int), base, self.variables@),
                    decreases arguments@.len() - i,
                {
                    proof {
                        lemma_args_lowerable(arguments@, i as int, var_names(self.variables@), fn_map(self.functions@));
                        assert(decreases_to!(*e => e.data));
                        assert(decreases_to!(e.data => e.data->FunctionCall_arguments));
                        assert(decreases_to!(*arguments => arguments@));
                        assert(decreases_to!(arguments@ => arguments@[i as int]));
                    }
                    let v = self.generate_expression(&arguments[i]).unwrap();
                    ids.push(v);
                    proof {
                        let s = arguments@.subrange(0, i + 1);
                        assert(s.subrange(0, s.len() - 1) =~= arguments@.subrange(0, i as int));
                        assert(s[s.len() - 1] == arguments@[i as int]);
                        assert(code_view(self.code@) =~= before + args_code(s, base, self.variables@));
                    }
                    i = i + 1;
                }
                proof {
                    assert(arguments@.subrange(0, arguments@.len() as int) =~= arguments@);
                }
                let r = self.emit(Instr::Call { function: name.clone(), arguments: ids });
                proof {
                    assert(code_view(self.code@) =~= before + expr_code(*e, base, old(self).variables@));
                }
                match find_latest(&self.functions, name.as_str()) {
                    Some(true) => Some(r),
                    _ => None,
                }
            },
            ExpressionData::Identifier { name } => {
                let slot = find_latest(&self.variables, name.as_str()).unwrap();
                proof {
                    lemma_latest_below(self.variables@, name@, self.code@.len() as int);
                }
                Some(self.emit(Instr::Load { variable: slot, name: name.clone() }))
            },
            _ => {
                proof {
                    assert(false);
                }
                None
            },
        }
    }
}

} // verus!
