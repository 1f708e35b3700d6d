use vstd::prelude::*;
use crate::ast;
use crate::cir::{
    BinaryOperation, Enum, Expression, ExpressionData, ExpressionIdentity, FunctionHead, Primitive,
    Struct, Typing, binop_from_ast, expr_display, expr_text, field_typing, primitive_name, primitive_of, typing_display,
    typing_same, typing_text,
};
use crate::errors::{TypeError, TypeErrorCase};
use crate::semcheck::{binop_result_kind, block_returns, checked_as, checked_shape, find, insert, lemma_with_binding_at, lookup, names_unique, statement_returns, with_binding};
use crate::span::Span;
use crate::text::str_eq;

verus! {

/// A local variable: its name, whether it may be assigned, and its type.
#[derive(Debug)]
pub struct Variable {
    pub name: String,
    pub mutable: bool,
    pub typing: Typing,
}

/// The local variables of one block.
#[derive(Debug)]
pub struct Scope {
    pub content: Vec<(String, Variable)>,
}

/// The names that a program has defined, with the scopes of the blocks being checked,
/// innermost last.
#[derive(Debug)]
pub struct Namespace {
    pub name: Option<String>,
    pub constants: Vec<(String, Span, Typing)>,
    pub structs: Vec<(String, Span, Struct)>,
    pub enums: Vec<(String, Span, Enum)>,
    pub functions: Vec<(String, Span, FunctionHead)>,
    pub locals: Vec<Scope>,
}

/// Whether the type checker can check a written type: a name, a pointer or a tuple of such.
pub open spec fn type_supported(t: ast::Type) -> bool
    decreases t,
{
    match t.typing {
        ast::Typing::Named { .. } => true,
        ast::Typing::Pointer { mutable: _, typ } => type_supported(*typ),
        ast::Typing::Tuple { types } => types_supported(types@),
        _ => false,
    }
}

/// Whether the type checker can check every type of a list.
pub open spec fn types_supported(s: Seq<ast::Type>) -> bool
    decreases s,
{
    if s.len() == 0 {
        true
    } else {
        type_supported(s[s.len() - 1]) && types_supported(s.subrange(0, s.len() - 1))
    }
}

/// Whether the type checker can check an expression: it calls functions by name only,
/// its array literals have elements, and it uses neither casts, subscripts, tuple members
/// nor other string literals than `'...'`.
pub open spec fn expr_supported(e: ast::Expression) -> bool
    decreases e,
{
    match e.data {
        ast::ExpressionData::BinaryOperation { operator: _, left, right } => expr_supported(*left) && expr_supported(*right),
        ast::ExpressionData::UnaryOperation { operator: _, operand } => expr_supported(*operand),
        ast::ExpressionData::FieldAccess { origin, field: _ } => expr_supported(*origin),
        ast::ExpressionData::Tuple { exprs } => exprs_supported(exprs@),
        ast::ExpressionData::Array { exprs, amount: _ } => exprs@.len() > 0 && exprs_supported(exprs@),
        ast::ExpressionData::FunctionCall { function, arguments } => function.data is Identifier && exprs_supported(arguments@),
        ast::ExpressionData::StructInit { name: _, fields } => fields_supported(fields@),
        ast::ExpressionData::Subscript { .. } | ast::ExpressionData::Cast { .. } | ast::ExpressionData::TupleAccess { .. }
        | ast::ExpressionData::StringLiteral { .. } | ast::ExpressionData::CStrLiteral { .. } => false,
        _ => true,
    }
}

/// Whether the type checker can check every expression of a list.
pub open spec fn exprs_supported(s: Seq<ast::Expression>) -> bool
    decreases s,
{
    if s.len() == 0 {
        true
    } else {
        expr_supported(s[s.len() - 1]) && exprs_supported(s.subrange(0, s.len() - 1))
    }
}

/// Whether the type checker can check the value of every field of a list.
pub open spec fn fields_supported(s: Seq<ast::Field>) -> bool
    decreases s,
{
    if s.len() == 0 {
        true
    } else {
        expr_supported(s[s.len() - 1].value) && fields_supported(s.subrange(0, s.len() - 1))
    }
}

/// Whether the type checker can check every type of a list of named types.
pub open spec fn typed_fields_supported(s: Seq<ast::TypedField>) -> bool
    decreases s,
{
    if s.len() == 0 {
        true
    } else {
        type_supported(s[s.len() - 1].typing) && typed_fields_supported(s.subrange(0, s.len() - 1))
    }
}

/// Whether the type checker can check a statement and every statement it holds.
pub open spec fn node_supported(n: ast::Node) -> bool
    decreases n,
{
    match n.stmt {
        ast::Statement::LetStatement(st) => expr_supported(st.assignment),
        ast::Statement::VarStatement(st) => expr_supported(st.assignment),
        ast::Statement::ConstStatement(st) => expr_supported(st.assignment) && type_supported(st.typing),
        ast::Statement::FnStatement(st) => typed_fields_supported(st.arguments@) && (match st.ret {
            Some(t) => type_supported(t),
            None => true,
        }) && nodes_supported(st.block.content@),
        ast::Statement::ExternFnStatement(st) => typed_fields_supported(st.arguments@) && match st.ret {
            Some(t) => type_supported(t),
            None => true,
        },
        ast::Statement::StructStatement(st) => typed_fields_supported(st.fields@),
        ast::Statement::IfStatement(st) => expr_supported(st.condition) && nodes_supported(st.block_true.content@) && match st.block_false {
            Some(b) => nodes_supported(b.content@),
            None => true,
        },
        ast::Statement::WhileStatement(st) => expr_supported(st.condition) && nodes_supported(st.block.content@),
        ast::Statement::ExpressionStatement(e) => expr_supported(e),
        ast::Statement::ReturnStatement(st) => match st.expr {
            Some(e) => expr_supported(e),
            None => true,
        },
        _ => true,
    }
}

/// Whether the type checker can check every statement of a list.
pub open spec fn nodes_supported(s: Seq<ast::Node>) -> bool
    decreases s,
{
    if s.len() == 0 {
        true
    } else {
        node_supported(s[s.len() - 1]) && nodes_supported(s.subrange(0, s.len() - 1))
    }
}

proof fn lemma_types_supported(s: Seq<ast::Type>, i: int)
    requires
        types_supported(s),
        0 <= i < s.len(),
    ensures
        type_supported(s[i]),
    decreases s.len(),
{
    if i < s.len() - 1 {
        lemma_types_supported(s.subrange(0, s.len() - 1), i);
    }
}

proof fn lemma_exprs_supported(s: Seq<ast::Expression>, i: int)
    requires
        exprs_supported(s),
        0 <= i < s.len(),
    ensures
        expr_supported(s[i]),
    decreases s.len(),
{
    if i < s.len() - 1 {
        lemma_exprs_supported(s.subrange(0, s.len() - 1), i);
    }
}

proof fn lemma_fields_supported(s: Seq<ast::Field>, i: int)
    requires
        fields_supported(s),
        0 <= i < s.len(),
    ensures
        expr_supported(s[i].value),
    decreases s.len(),
{
    if i < s.len() - 1 {
        lemma_fields_supported(s.subrange(0, s.len() - 1), i);
    }
}

/// The primitive type that the type checker gives an expression made of integer, boolean,
/// character and float literals joined by binary operations on operands of one type: `None`
/// for any other expression, and where an operation is refused.
pub open spec fn strict_literal_prim(e: ast::Expression) -> Option<Primitive>
    decreases e,
{
    match e.data {
        ast::ExpressionData::IntegerLiteral { .. } => Some(Primitive::Int),
        ast::ExpressionData::BooleanLiteral { .. } => Some(Primitive::Bool),
        ast::ExpressionData::CharacterLiteral { .. } => Some(Primitive::Char),
        ast::ExpressionData::FloatLiteral { .. } => Some(Primitive::Float),
        ast::ExpressionData::BinaryOperation { operator, left, right } => match (strict_literal_prim(*left), strict_literal_prim(*right)) {
            (Some(pl), Some(pr)) => if pl != pr {
                None
            } else if binop_result_kind(binop_from_ast(operator)) == 0 {
                Some(pl)
            } else if binop_result_kind(binop_from_ast(operator)) == 1 {
                Some(Primitive::Bool)
            } else {
                None
            },
            _ => None,
        },
        _ => None,
    }
}

/// Where `name` is bound in the scopes, looked for from the innermost scope out: the scope
/// and an index of the binding in it.
pub open spec fn find_scoped(scopes: Seq<Scope>, name: Seq<char>) -> Option<(int, int)>
    decreases scopes.len(),
{
    if scopes.len() == 0 {
        None
    } else {
        let last = scopes[scopes.len() - 1].content@;
        if exists|k: int| 0 <= k < last.len() && #[trigger] last[k].0@ == name {
            Some(((scopes.len() - 1) as int, choose|k: int| 0 <= k < last.len() && #[trigger] last[k].0@ == name))
        } else {
            find_scoped(scopes.subrange(0, scopes.len() - 1), name)
        }
    }
}

/// Whether a written type is a primitive type or a pointer to one, through any number of
/// pointers.
pub open spec fn simple_type(t: ast::Type) -> bool
    decreases t,
{
    match t.typing {
        ast::Typing::Named { name, generic: _ } => primitive_of(name@) is Some,
        ast::Typing::Pointer { mutable: _, typ } => simple_type(*typ),
        _ => false,
    }
}

/// Whether every field of a list has a simple type.
pub open spec fn simple_fields(fields: Seq<ast::TypedField>) -> bool {
    forall|i: int| 0 <= i < fields.len() ==> #[trigger] simple_type(fields[i].typing)
}

/// Whether a statement declares an enumeration, a structure whose fields have simple
/// types, or an extern function whose arguments and result have simple types.
pub open spec fn simple_declaration(st: ast::Statement) -> bool {
    match st {
        ast::Statement::EnumStatement(_) => true,
        ast::Statement::StructStatement(s) => simple_fields(s.fields@),
        ast::Statement::ExternFnStatement(s) => simple_fields(s.arguments@) && (s.ret matches Some(t) ==> simple_type(t)),
        _ => false,
    }
}

/// The variable that `name` denotes in the scopes: the first binding of that name in the
/// innermost scope that binds it.
pub open spec fn scoped_variable(scopes: Seq<Scope>, name: Seq<char>) -> Option<Variable> {
    match find_scoped(scopes, name) {
        Some((a, _)) => {
            let c = scopes[a].content@;
            Some(c[choose|k: int| 0 <= k < c.len() && #[trigger] c[k].0@ == name && forall|m: int| 0 <= m < k ==> c[m].0@ != name].1)
        },
        None => None,
    }
}

/// The primitive type and the kind of value of an operand that `strict_literal_prim` types,
/// or of a name that denotes a local variable of a primitive type (where no constant or
/// function has that name).
pub open spec fn strict_operand(e: ast::Expression, ns: Namespace) -> Option<(Primitive, ExpressionIdentity)> {
    match e.data {
        ast::ExpressionData::Identifier { name } => if find(ns.constants@, name@) is None && find(ns.functions@, name@) is None {
            match scoped_variable(ns.locals@, name@) {
                Some(v) => match v.typing {
                    Typing::Primitive(p) => Some((p, ExpressionIdentity::Locatable(v.mutable))),
                    _ => None,
                },
                None => None,
            }
        } else {
            None
        },
        _ => match strict_literal_prim(e) {
            Some(p) => Some((p, ExpressionIdentity::Immediate)),
            None => None,
        },
    }
}

/// The type that the type checker gives an expression that it accepts, as the types of its
/// parts decide it: `None` for a tuple, and where a name, a member or a pointer is missing.
pub open spec fn strict_typing(e: ast::Expression, ns: Namespace) -> Option<Typing>
    decreases e,
{
    match e.data {
        ast::ExpressionData::IntegerLiteral { .. } => Some(Typing::Primitive(Primitive::Int)),
        ast::ExpressionData::BooleanLiteral { .. } => Some(Typing::Primitive(Primitive::Bool)),
        ast::ExpressionData::CharacterLiteral { .. } => Some(Typing::Primitive(Primitive::Char)),
        ast::ExpressionData::FloatLiteral { .. } => Some(Typing::Primitive(Primitive::Float)),
        ast::ExpressionData::StrLiteral { .. } => Some(Typing::Pointer { mutable: false, typ: Box::new(Typing::Primitive(Primitive::U8)) }),
        ast::ExpressionData::Identifier { name } => match find(ns.constants@, name@) {
            Some(i) => Some(ns.constants@[i].2),
            None => match find(ns.functions@, name@) {
                Some(i) => Some(ns.functions@[i].2.ret),
                None => match scoped_variable(ns.locals@, name@) {
                    Some(v) => Some(v.typing),
                    None => None,
                },
            },
        },
        ast::ExpressionData::BinaryOperation { operator, left, right: _ } => if binop_result_kind(binop_from_ast(operator)) == 0 {
            strict_typing(*left, ns)
        } else if binop_result_kind(binop_from_ast(operator)) == 1 {
            Some(Typing::Primitive(Primitive::Bool))
        } else {
            Some(Typing::Void)
        },
        ast::ExpressionData::UnaryOperation { operator, operand } => match crate::cir::unop_from_ast(operator) {
            crate::cir::UnaryOperation::Addr => match strict_typing(*operand, ns) {
                Some(t) => Some(Typing::Pointer { mutable: false, typ: Box::new(t) }),
                None => None,
            },
            crate::cir::UnaryOperation::Deref => match strict_typing(*operand, ns) {
                Some(Typing::Pointer { typ, .. }) => Some(*typ),
                _ => None,
            },
            _ => strict_typing(*operand, ns),
        },
        ast::ExpressionData::Array { exprs, amount } => if exprs@.len() > 0 {
            match strict_typing(exprs@[0], ns) {
                Some(t) => Some(Typing::Array { typ: Box::new(t), amount }),
                None => None,
            }
        } else {
            None
        },
        ast::ExpressionData::FieldAccess { origin, field } => match strict_typing(*origin, ns) {
            Some(Typing::Struct(st)) => field_typing(st.fields@, field@),
            _ => None,
        },
        ast::ExpressionData::FunctionCall { function, arguments: _ } => match function.data {
            ast::ExpressionData::Identifier { name } => match find(ns.functions@, name@) {
                Some(i) => Some(ns.functions@[i].2.ret),
                None => None,
            },
            _ => None,
        },
        ast::ExpressionData::StructInit { name, fields: _ } => match find(ns.structs@, name@) {
            Some(i) => Some(Typing::Struct(ns.structs@[i].2)),
            None => None,
        },
        _ => None,
    }
}

/// Whether `after` is `before` with `name` bound to a variable of that mutability and of
/// the same type as `typing`.
pub open spec fn binds_in(before: Seq<(String, Variable)>, after: Seq<(String, Variable)>, name: String, mutable: bool, typing: Typing) -> bool {
    exists|v: Variable| v.name == name && v.mutable == mutable && typing_same(typing, v.typing) && #[trigger] with_binding(before, name, v) == after
}

/// What the type checker gives a binary operation, from the types of its operands and the
/// kind of value of its left operand: a mismatch where the operands' types differ; the
/// operands' type for arithmetic and bitwise operations; `bool` for comparisons and logical
/// operations; for an assignment, `void` where the left operand may be assigned, and a
/// refusal where it is immutable or no place at all.
pub open spec fn strict_binop_outcome(op: BinaryOperation, lt: Typing, lid: ExpressionIdentity, rt: Typing, span: Span, r: Result<ExpressionMetadata, TypeError>) -> bool {
    if !typing_same(rt, lt) {
        r matches Err(e) && e.span == span && (e.case matches TypeErrorCase::TypeMismatch { got, expected }
            && got@ == typing_display(rt) && expected@ == typing_display(lt))
    } else if binop_result_kind(op) == 0 {
        r matches Ok(t) && typing_same(lt, t.1) && t.2 == ExpressionIdentity::Immediate
    } else if binop_result_kind(op) == 1 {
        r matches Ok(t) && (t.1 matches Typing::Primitive(Primitive::Bool)) && t.2 == ExpressionIdentity::Immediate
    } else {
        match lid {
            ExpressionIdentity::Locatable(false) => r matches Err(e) && e.span == span && e.case is AssignImmutable,
            ExpressionIdentity::Immediate => r matches Err(e) && e.span == span && e.case is InvalidExpression,
            _ => r matches Ok(t) && t.1 is Void && t.2 == ExpressionIdentity::Immediate,
        }
    }
}

/// Whether an argument whose type the type checker knows has another type than its
/// parameter.
pub open spec fn strict_bad_argument(arg: ast::Expression, param: Typing, ns: Namespace) -> bool {
    strict_typing(arg, ns) matches Some(t) && !typing_same(t, param)
}

/// Whether some argument of a call to the function `name` has another type than its
/// parameter.
pub open spec fn strict_some_bad_argument(functions: Seq<(String, Span, FunctionHead)>, name: Seq<char>, args: Seq<ast::Expression>, ns: Namespace) -> bool {
    find(functions, name) matches Some(i) && exists|k: int| 0 <= k < args.len() && k < functions[i].2.arguments@.len()
        && #[trigger] strict_bad_argument(args[k], functions[i].2.arguments@[k].typing, ns)
}

/// Whether the value of a field of a structure literal has a known type other than that of
/// the field it names.
pub open spec fn strict_bad_field(declared_fields: Seq<crate::cir::TypedField>, f: ast::Field, ns: Namespace) -> bool {
    field_typing(declared_fields, f.name@) matches Some(ft) && strict_bad_argument(f.value, ft, ns)
}

/// What the type checker gives a structure literal: a refusal where the structure is
/// unknown, where a field is not one of the structure's, or where a value has another type
/// than its field.
pub open spec fn strict_struct_init_result(init: ast::Expression, ns: Namespace, r: Result<ExpressionMetadata, TypeError>) -> bool {
    match init.data {
        ast::ExpressionData::StructInit { name, fields } => match find(ns.structs@, name@) {
            None => r matches Err(e) && e.span == init.span && (e.case matches TypeErrorCase::UnresolvedName { name: n } && n@ == name@),
            Some(i) => {
                let declared_fields = ns.structs@[i].2.fields@;
                &&& (exists|k: int| 0 <= k < fields@.len() && #[trigger] field_typing(declared_fields, fields@[k].name@) is None) ==> r is Err
                &&& (exists|k: int| 0 <= k < fields@.len() && #[trigger] strict_bad_field(declared_fields, fields@[k], ns)) ==> r is Err
            },
        },
        _ => true,
    }
}

/// What a call of the function `name` with `given` arguments gives, as far as the number of
/// arguments decides it: a refusal where too few are given, or too many to a function that
/// is not variadic; the function's result type where it takes none and none is given.
pub open spec fn call_outcome(functions: Seq<(String, Span, FunctionHead)>, name: Seq<char>, given: nat, span: Span, r: Result<ExpressionMetadata, TypeError>) -> bool {
    match find(functions, name) {
        Some(i) => {
            let f = functions[i].2;
            &&& given < f.arguments@.len() ==> (r matches Err(e) && e.span == span
                && (e.case matches TypeErrorCase::UnmatchedArguments { name: n, got, expected, too_much }
                && n@ == name && got == given && expected == f.arguments@.len() && !too_much))
            &&& given > f.arguments@.len() && !f.variadic ==> (r matches Err(e) && e.span == span
                && (e.case matches TypeErrorCase::UnmatchedArguments { name: n, got, expected, too_much }
                && n@ == name && got == given && expected == f.arguments@.len() && too_much))
            &&& given == 0 && f.arguments@.len() == 0 ==> (r matches Ok(t) && typing_same(f.ret, t.1))
        },
        None => true,
    }
}

/// Whether a statement binds, by `let` or `var`, a value that `strict_literal_prim` types.
pub open spec fn strict_let(st: ast::Statement) -> bool {
    match st {
        ast::Statement::LetStatement(s) => strict_literal_prim(s.assignment) is Some,
        ast::Statement::VarStatement(s) => strict_literal_prim(s.assignment) is Some,
        _ => false,
    }
}

/// Whether a statement declares a function without a result, whose arguments have simple
/// types and whose body binds values that `strict_literal_prim` types.
pub open spec fn strict_function(st: ast::Statement) -> bool {
    match st {
        ast::Statement::FnStatement(s) => simple_fields(s.arguments@) && s.ret is None
            && forall|i: int| 0 <= i < s.block.content@.len() ==> #[trigger] strict_let(s.block.content@[i].stmt),
        _ => false,
    }
}

/// Whether a statement declares a function with simple argument types and a simple result
/// type, whose body is empty, so that it never returns its value.
pub open spec fn empty_typed_function(st: ast::Statement) -> bool {
    match st {
        ast::Statement::FnStatement(s) => simple_fields(s.arguments@) && (s.ret matches Some(t) && simple_type(t))
            && s.block.content@.len() == 0,
        _ => false,
    }
}

/// The spans of the statements that declare such functions, in order.
pub open spec fn missing_return_spans(nodes: Seq<ast::Node>) -> Seq<Span>
    decreases nodes.len(),
{
    if nodes.len() == 0 {
        Seq::empty()
    } else if empty_typed_function(nodes[nodes.len() - 1].stmt) {
        missing_return_spans(nodes.subrange(0, nodes.len() - 1)).push(nodes[nodes.len() - 1].span)
    } else {
        missing_return_spans(nodes.subrange(0, nodes.len() - 1))
    }
}

/// Whether the type checker accepts a statement whatever came before it (a `let` or `var`
/// inside a block).
pub open spec fn strict_accepted(st: ast::Statement) -> bool {
    simple_declaration(st) || strict_let(st) || strict_function(st)
}

proof fn lemma_typed_fields_supported(s: Seq<ast::TypedField>, i: int)
    requires
        typed_fields_supported(s),
        0 <= i < s.len(),
    ensures
        type_supported(s[i].typing),
    decreases s.len(),
{
    if i < s.len() - 1 {
        lemma_typed_fields_supported(s.subrange(0, s.len() - 1), i);
    }
}

proof fn lemma_nodes_supported(s: Seq<ast::Node>, i: int)
    requires
        nodes_supported(s),
        0 <= i < s.len(),
    ensures
        node_supported(s[i]),
    decreases s.len(),
{
    if i < s.len() - 1 {
        lemma_nodes_supported(s.subrange(0, s.len() - 1), i);
    }
}

/// How the kind of value an expression is is displayed: `mutable locatable`,
/// `immutable locatable` or `immediate`.
pub open spec fn identity_display(id: ExpressionIdentity) -> Seq<char> {
    match id {
        ExpressionIdentity::Locatable(true) => "mutable locatable"@,
        ExpressionIdentity::Locatable(false) => "immutable locatable"@,
        _ => "immediate"@,
    }
}

fn identity_text(id: ExpressionIdentity) -> (r: &'static str)
    ensures
        r@ == identity_display(id),
{
    match id {
        ExpressionIdentity::Locatable(true) => "mutable locatable",
        ExpressionIdentity::Locatable(false) => "immutable locatable",
        _ => "immediate",
    }
}

/// A checked expression, its type, and what kind of value it is.
pub type ExpressionMetadata = (Expression, Typing, ExpressionIdentity);

/// Checks the types of a program, and turns it into checked statements: a strict checker,
/// in which a value must have exactly the type expected and nothing is inferred.
pub struct TypeChecker {
    namespace: Namespace,
    current_function: String,
    pub errors: Vec<TypeError>,
}

impl TypeChecker {
    /// The errors found so far.
    pub closed spec fn found(&self) -> Seq<TypeError> {
        self.errors@
    }

    /// The checker is well formed: each table names everything once.
    pub closed spec fn wf(&self) -> bool {
        &&& names_unique(self.namespace.constants@)
        &&& names_unique(self.namespace.structs@)
        &&& names_unique(self.namespace.enums@)
        &&& names_unique(self.namespace.functions@)
    }

    /// The scopes of the blocks being checked.
    pub closed spec fn scopes(&self) -> Seq<Scope> {
        self.namespace.locals@
    }

    /// A checker that knows no names and has found no errors.
    pub fn new() -> (r: Self)
        ensures
            r.wf(),
            r.found().len() == 0,
            r.scopes().len() == 0,
    {
        TypeChecker {
            errors: Vec::new(),
            current_function: String::new(),
            namespace: Namespace {
                name: None,
                structs: Vec::new(),
                enums: Vec::new(),
                constants: Vec::new(),
                functions: Vec::new(),
                locals: Vec::new(),
            },
        }
    }

    /// The type that a written name, pointer or tuple type denotes.
    #[verifier::loop_isolation(false)]
    fn check_type(&self, typ: &ast::Type) -> (r: Result<Typing, TypeError>)
        requires
            self.wf(),
            type_supported(*typ),
        ensures
            match typ.typing {
                ast::Typing::Named { name, generic: _ } => match primitive_of(name@) {
                    Some(p) => r matches Ok(Typing::Primitive(q)) && q == p,
                    None => match find(self.namespace.enums@, name@) {
                        Some(_) => r matches Ok(Typing::Enum(_)),
                        None => match find(self.namespace.structs@, name@) {
                            Some(_) => r matches Ok(Typing::Struct(_)),
                            None => r matches Err(e) && e.span == typ.span && (e.case matches TypeErrorCase::UnresolvedName { name: n } && n@ == name@),
                        },
                    },
                },
                ast::Typing::Pointer { .. } => r is Ok ==> (r->Ok_0 matches Typing::Pointer { mutable: false, .. }),
                ast::Typing::Tuple { types } => r is Ok ==> (r->Ok_0 matches Typing::Tuple { types: t } && t@.len() == types@.len()),
                _ => false,
            },
            simple_type(*typ) ==> r is Ok,
        decreases typ,
    {
        match &typ.typing {
            ast::Typing::Named { name, generic: _ } => {
                if let Some(t) = Primitive::from_str(name.as_str()) {
                    return Ok(Typing::Primitive(t));
                }
                if let Some(i) = lookup(&self.namespace.enums, name.as_str()) {
                    return Ok(Typing::Enum(self.namespace.enums[i].2.copy()));
                }
                if let Some(i) = lookup(&self.namespace.structs, name.as_str()) {
                    return Ok(Typing::Struct(self.namespace.structs[i].2.copy()));
                }
                Err(TypeError { span: typ.span, case: TypeErrorCase::UnresolvedName { name: name.clone() } })
            },
            ast::Typing::Pointer { typ: inner, mutable: _ } => {
                let inner_typing = self.check_type(inner)?;
                Ok(Typing::Pointer { mutable: false, typ: Box::new(inner_typing) })
            },
            ast::Typing::Tuple { types } => {
                let mut checked_types: Vec<Typing> = Vec::new();
                let mut i: usize = 0;
                while i < types.len()
                    invariant
                        i <= types@.len(),
                        checked_types@.len() == i,
                    decreases types@.len() - i,
                {
                    proof {
                        lemma_types_supported(types@, i as int);
                        assert(decreases_to!(types@ => types@[i as int]));
                    }
                    let t = self.check_type(&types[i])?;
                    checked_types.push(t);
                    i = i + 1;
                }
                Ok(Typing::Tuple { types: checked_types })
            },
            _ => {
                proof {
                    assert(false);
                }
                Err(TypeError { span: typ.span, case: TypeErrorCase::InvalidType { what: String::new() } })
            },
        }
    }

    /// Checks a binary operation on checked operands: both must have the same type, and
    /// the left operand of an assignment must be a mutable place.
    fn typecheck_binop(&self, lhs: &ExpressionMetadata, rhs: &ExpressionMetadata, binop: &ast::BinaryOperation, span: Span) -> (r: Result<(BinaryOperation, Typing, ExpressionIdentity), TypeError>)
        ensures
            ({
                let op = binop_from_ast(*binop);
                if !typing_same(rhs.1, lhs.1) {
                    r matches Err(e) && e.span == span && (e.case matches TypeErrorCase::TypeMismatch { got, expected }
                        && got@ == typing_display(rhs.1) && expected@ == typing_display(lhs.1))
                } else if binop_result_kind(op) == 0 {
                    r matches Ok(t) && t.0 == op && typing_same(lhs.1, t.1) && t.2 == ExpressionIdentity::Immediate
                } else if binop_result_kind(op) == 1 {
                    r matches Ok(t) && t.0 == op && (t.1 matches Typing::Primitive(Primitive::Bool)) && t.2 == ExpressionIdentity::Immediate
                } else {
                    match lhs.2 {
                        ExpressionIdentity::Locatable(false) => r matches Err(e) && e.span == span
                            && (e.case matches TypeErrorCase::AssignImmutable { expression } && expression@ == expr_display(lhs.0)),
                        ExpressionIdentity::Immediate => r matches Err(e) && e.span == span
                            && e.case matches TypeErrorCase::InvalidExpression { .. },
                        _ => r matches Ok(t) && t.0 == op && t.1 is Void && t.2 == ExpressionIdentity::Immediate,
                    }
                }
            }),
    {
        let ir_binop = BinaryOperation::from_ast(binop);
        if !crate::cir::typing_eq(&rhs.1, &lhs.1) {
            return Err(
                TypeError {
                    span,
                    case: TypeErrorCase::TypeMismatch { got: typing_text(&rhs.1), expected: typing_text(&lhs.1) },
                },
            );
        }
        let typing = match ir_binop {
            BinaryOperation::Add | BinaryOperation::Sub | BinaryOperation::Mul | BinaryOperation::Div
            | BinaryOperation::Mod | BinaryOperation::BAnd | BinaryOperation::BOr
            | BinaryOperation::BXor | BinaryOperation::LShift | BinaryOperation::RShift => lhs.1.copy(),
            BinaryOperation::Eq | BinaryOperation::Ne | BinaryOperation::Lt | BinaryOperation::Le
            | BinaryOperation::Gt | BinaryOperation::Ge | BinaryOperation::And | BinaryOperation::Or => Typing::Primitive(Primitive::Bool),
            _ => {
                match lhs.2 {
                    ExpressionIdentity::Locatable(false) => {
                        return Err(TypeError { span, case: TypeErrorCase::AssignImmutable { expression: expr_text(&lhs.0) } });
                    },
                    ExpressionIdentity::Immediate => {
                        return Err(
                            TypeError {
                                span,
                                case: TypeErrorCase::InvalidExpression {
                                    what: expr_text(&lhs.0),
                                    should: String::from_str("valid left-hand-side operand"),
                                },
                            },
                        );
                    },
                    _ => {},
                }
                Typing::Void
            },
        };
        Ok((ir_binop, typing, ExpressionIdentity::Immediate))
    }

    /// Checks a call of the function named `name`: the arguments must have exactly the
    /// types of the parameters; a variadic function takes more arguments.
    #[verifier::loop_isolation(false)]
    fn typecheck_function_call(&self, name: &String, arguments: &Vec<ast::Expression>, span: Span) -> (r: Result<ExpressionMetadata, TypeError>)
        requires
            self.wf(),
            exprs_supported(arguments@),
        ensures
            find(self.namespace.functions@, name@) is None ==> (r matches Err(e) && e.span == span
                && (e.case matches TypeErrorCase::UnresolvedName { name: n } && n@ == name@)),
            r matches Ok(t) ==> t.2 == ExpressionIdentity::Immediate,
            r matches Ok(t) ==> (t.0.data matches ExpressionData::FunctionCall { arguments: a, .. } && a@.len() == arguments@.len()),
            call_outcome(self.namespace.functions@, name@, arguments@.len(), span, r),
            r matches Ok(t) ==> (find(self.namespace.functions@, name@) matches Some(i) && typing_same(self.namespace.functions@[i].2.ret, t.1)),
            strict_some_bad_argument(self.namespace.functions@, name@, arguments@, self.namespace) ==> r is Err,
        decreases arguments@, 0nat,
    {
        let k = match lookup(&self.namespace.functions, name.as_str()) {
            Some(k) => k,
            None => {
                return Err(TypeError { span, case: TypeErrorCase::UnresolvedName { name: name.clone() } });
            },
        };
        let function = &self.namespace.functions[k].2;
        let passed_length = arguments.len();
        let expected_len = function.arguments.len();
        if passed_length < expected_len {
            return Err(
                TypeError {
                    span,
                    case: TypeErrorCase::UnmatchedArguments { name: name.clone(), got: passed_length, expected: expected_len, too_much: false },
                },
            );
        } else if passed_length > expected_len && !function.variadic {
            return Err(
                TypeError {
                    span,
                    case: TypeErrorCase::UnmatchedArguments { name: name.clone(), got: passed_length, expected: expected_len, too_much: true },
                },
            );
        }
        let mut checked_arguments: Vec<Expression> = Vec::new();
        let mut i: usize = 0;
        while i < passed_length
            invariant
                i <= passed_length,
                passed_length == arguments@.len(),
                checked_arguments@.len() == i,
                forall|j: int| 0 <= j < i && j < function.arguments@.len() ==> !#[trigger] strict_bad_argument(arguments@[j], function.arguments@[j].typing, self.namespace),
            decreases passed_length - i,
        {
            proof {
                lemma_exprs_supported(arguments@, i as int);
                assert(decreases_to!(arguments@ => arguments@[i as int]));
            }
            let expression = &arguments[i];
            let (checked, got_type, _) = self.typecheck_expr(expression)?;
            proof {
                if i < expected_len {
                    if let Some(t) = strict_typing(arguments@[i as int], self.namespace) {
                        if typing_same(got_type, function.arguments@[i as int].typing) {
                            crate::cir::lemma_typing_same_transitive(t, got_type, function.arguments@[i as int].typing);
                        }
                    }
                }
            }
            if i < expected_len && !crate::cir::typing_eq(&got_type, &function.arguments[i].typing) {
                return Err(
                    TypeError {
                        span: expression.span,
                        case: TypeErrorCase::TypeMismatch { got: typing_text(&got_type), expected: typing_text(&function.arguments[i].typing) },
                    },
                );
            }
            checked_arguments.push(checked);
            i = i + 1;
        }
        let callee = Expression { span, data: ExpressionData::Identifier { name: name.clone() }, identity: ExpressionIdentity::Immediate };
        Ok((
            Expression {
                span,
                data: ExpressionData::FunctionCall { function: Box::new(callee), arguments: checked_arguments },
                identity: ExpressionIdentity::Immediate,
            },
            function.ret.copy(),
            ExpressionIdentity::Immediate,
        ))
    }

    /// Finds the innermost declaration of a local variable.
    #[verifier::loop_isolation(false)]
    fn lookup_local(&self, name: &str) -> (r: Option<(usize, usize)>)
        ensures
            match r {
                Some((a, b)) => a < self.namespace.locals@.len() && b < self.namespace.locals@[a as int].content@.len()
                    && self.namespace.locals@[a as int].content@[b as int].0@ == name@
                    && (find_scoped(self.namespace.locals@, name@) matches Some((x, _)) && x == a)
                    && scoped_variable(self.namespace.locals@, name@) == Some(self.namespace.locals@[a as int].content@[b as int].1),
                None => find_scoped(self.namespace.locals@, name@) is None,
            },
    {
        let mut i: usize = self.namespace.locals.len();
        assert(self.namespace.locals@.subrange(0, i as int) =~= self.namespace.locals@);
        while i > 0
            invariant
                i <= self.namespace.locals@.len(),
                find_scoped(self.namespace.locals@.subrange(0, i as int), name@) == find_scoped(self.namespace.locals@, name@),
            decreases i,
        {
            let scope = &self.namespace.locals[i - 1];
            let mut k: usize = 0;
            while k < scope.content.len()
                invariant
                    k <= scope.content@.len(),
                    forall|m: int| 0 <= m < k ==> #[trigger] scope.content@[m].0@ != name@,
                decreases scope.content@.len() - k,
            {
                if str_eq(scope.content[k].0.as_str(), name) {
                    proof {
                        let pre = self.namespace.locals@.subrange(0, i as int);
                        assert(pre[pre.len() - 1] == *scope);
                        assert(pre[pre.len() - 1].content@[k as int].0@ == name@);
                        let c = scope.content@;
                        assert(pre[pre.len() - 1].content@ == c);
                        assert(exists|j: int| 0 <= j < c.len() && #[trigger] c[j].0@ == name@);
                        assert((find_scoped(pre, name@)->0).0 == i - 1);
                        assert(self.namespace.locals@[i - 1] == *scope);
                        let f = choose|f: int| 0 <= f < c.len() && #[trigger] c[f].0@ == name@ && forall|m: int| 0 <= m < f ==> c[m].0@ != name@;
                        assert(0 <= k < c.len() && c[k as int].0@ == name@ && forall|m: int| 0 <= m < k ==> c[m].0@ != name@);
                        if f < k {
                            assert(c[f].0@ != name@);
                        } else if f > k {
                            assert(c[k as int].0@ != name@);
                        }
                    }
                    return Some((i - 1, k));
                }
                k = k + 1;
            }
            proof {
                let pre = self.namespace.locals@.subrange(0, i as int);
                assert(pre[pre.len() - 1] == *scope);
                assert(pre.subrange(0, pre.len() - 1) =~= self.namespace.locals@.subrange(0, i - 1));
            }
            i = i - 1;
        }
        proof {
            assert(self.namespace.locals@.subrange(0, 0).len() == 0);
        }
        None
    }

    /// Checks a structure literal: each field must be one of the structure's, and its value
    /// must have the field's type.
    #[verifier::loop_isolation(false)]
    fn typecheck_struct_init(&self, expr: &ast::Expression) -> (r: Result<ExpressionMetadata, TypeError>)
        requires
            self.wf(),
            expr_supported(*expr),
            expr.data is StructInit,
        ensures
            r matches Ok(t) ==> checked_shape(*expr, t.0, t.1),
            r matches Ok(t) ==> (strict_typing(*expr, self.namespace) matches Some(ty) ==> typing_same(ty, t.1)),
            strict_struct_init_result(*expr, self.namespace, r),
        decreases *expr, 0nat,
    {
        let span = expr.span;
        match &expr.data {
            ast::ExpressionData::StructInit { name, fields } => {
                let k = match lookup(&self.namespace.structs, name.as_str()) {
                    Some(k) => k,
                    None => {
                        return Err(TypeError { span, case: TypeErrorCase::UnresolvedName { name: name.clone() } });
                    },
                };
                let strukt = self.namespace.structs[k].2.copy();
                let ghost decl_fields = self.namespace.structs@[k as int].2.fields@;
                let mut checked_fields: Vec<crate::cir::Field> = Vec::new();
                let mut i: usize = 0;
                while i < fields.len()
                    invariant
                        i <= fields@.len(),
                        checked_fields@.len() == i,
                        forall|j: int| 0 <= j < i ==> #[trigger] field_typing(decl_fields, fields@[j].name@) is Some
                            && !strict_bad_field(decl_fields, fields@[j], self.namespace),
                    decreases fields@.len() - i,
                {
                    let field = &fields[i];
                    let mut expected: Option<usize> = None;
                    let mut f: usize = 0;
                    assert(strukt.fields@.subrange(0, 0).len() == 0);
                    while f < strukt.fields.len()
                        invariant
                            f <= strukt.fields@.len(),
                            expected matches Some(x) ==> x < strukt.fields@.len() && field_typing(strukt.fields@.subrange(0, f as int), field.name@) == Some(strukt.fields@[x as int].typing),
                            expected is None ==> field_typing(strukt.fields@.subrange(0, f as int), field.name@) is None,
                        decreases strukt.fields@.len() - f,
                    {
                        assert(strukt.fields@.subrange(0, f + 1).subrange(0, f as int) =~= strukt.fields@.subrange(0, f as int));
                        if str_eq(strukt.fields[f].name.as_str(), field.name.as_str()) {
                            expected = Some(f);
                        }
                        f = f + 1;
                    }
                    assert(strukt.fields@.subrange(0, strukt.fields@.len() as int) =~= strukt.fields@);
                    proof {
                        crate::cir::lemma_field_typing_same(decl_fields, strukt.fields@, field.name@);
                    }
                    let x = match expected {
                        Some(x) => x,
                        None => {
                            let mut from = String::from_str("struct ");
                            from.append(strukt.name.as_str());
                            return Err(TypeError { span, case: TypeErrorCase::UnresolvedMember { name: field.name.clone(), from } });
                        },
                    };
                    proof {
                        lemma_fields_supported(fields@, i as int);
                        assert(decreases_to!(fields@ => fields@[i as int]));
                        assert(decreases_to!(fields@[i as int] => fields@[i as int].value));
                    }
                    let value_span = field.value.span;
                    let (value, typing, _) = self.typecheck_expr(&field.value)?;
                    proof {
                        let ft = field_typing(decl_fields, field.name@)->0;
                        if let Some(t) = strict_typing(field.value, self.namespace) {
                            if typing_same(typing, strukt.fields@[x as int].typing) {
                                crate::cir::lemma_typing_same_transitive(t, typing, strukt.fields@[x as int].typing);
                                crate::cir::lemma_typing_same_symmetric(ft, strukt.fields@[x as int].typing);
                                crate::cir::lemma_typing_same_transitive(t, strukt.fields@[x as int].typing, ft);
                            }
                        }
                    }
                    if !crate::cir::typing_eq(&typing, &strukt.fields[x].typing) {
                        return Err(
                            TypeError {
                                span: value_span,
                                case: TypeErrorCase::TypeMismatch { got: typing_text(&typing), expected: typing_text(&strukt.fields[x].typing) },
                            },
                        );
                    }
                    checked_fields.push(crate::cir::Field { name: field.name.clone(), value });
                    i = i + 1;
                }
                let origin = strukt.copy();
                Ok((
                    Expression { span, data: ExpressionData::StructInit { origin, fields: checked_fields }, identity: ExpressionIdentity::Immediate },
                    Typing::Struct(strukt),
                    ExpressionIdentity::Immediate,
                ))
            },
            _ => {
                proof {
                    assert(false);
                }
                Err(TypeError { span, case: TypeErrorCase::MisplacedReturn })
            },
        }
    }

    /// Checks an expression: its type, and what kind of value it is. A name is looked for
    /// among the constants, then the functions (whose return type it takes), then the local
    /// variables from the innermost scope out.
    #[verifier::loop_isolation(false)]
    #[verifier::rlimit(100)]
    fn typecheck_expr(&self, expr: &ast::Expression) -> (r: Result<ExpressionMetadata, TypeError>)
        requires
            self.wf(),
            expr_supported(*expr),
        ensures
            match expr.data {
                ast::ExpressionData::IntegerLiteral { value } => r matches Ok(t) && t.1 matches Typing::Primitive(Primitive::Int)
                    && t.0.data == (ExpressionData::Integer { value }) && t.2 == ExpressionIdentity::Immediate,
                ast::ExpressionData::BooleanLiteral { value } => r matches Ok(t) && t.1 matches Typing::Primitive(Primitive::Bool)
                    && t.0.data == (ExpressionData::Bool { value }) && t.2 == ExpressionIdentity::Immediate,
                ast::ExpressionData::CharacterLiteral { value } => r matches Ok(t) && t.1 matches Typing::Primitive(Primitive::Char)
                    && (t.0.data matches ExpressionData::StringLiteral { value: v } && v@ == seq![value]),
                ast::ExpressionData::StrLiteral { value } => r matches Ok(t) && (t.1 matches Typing::Pointer { mutable: false, typ }
                    && *typ matches Typing::Primitive(Primitive::U8)) && (t.0.data matches ExpressionData::StringLiteral { value: v } && v@ == value@),
                ast::ExpressionData::FloatLiteral { .. } => r matches Ok(t) && t.1 matches Typing::Primitive(Primitive::Float),
                ast::ExpressionData::Identifier { name } => match find(self.namespace.constants@, name@) {
                    Some(i) => r matches Ok(t) && typing_same(self.namespace.constants@[i].2, t.1) && t.2 == ExpressionIdentity::Immediate,
                    None => match find(self.namespace.functions@, name@) {
                        Some(i) => r matches Ok(t) && typing_same(self.namespace.functions@[i].2.ret, t.1) && t.2 == ExpressionIdentity::Immediate,
                        None => match scoped_variable(self.namespace.locals@, name@) {
                            Some(v) => r matches Ok(t) && t.2 == ExpressionIdentity::Locatable(v.mutable) && typing_same(v.typing, t.1),
                            None => r matches Err(e) && e.span == expr.span && (e.case matches TypeErrorCase::UnresolvedName { name: n } && n@ == name@),
                        },
                    },
                },
                ast::ExpressionData::BinaryOperation { operator, .. } => r matches Ok(t) ==> (t.0.data matches ExpressionData::BinaryOperation { operator: o, .. } && o == binop_from_ast(operator)),
                _ => true,
            },
            r matches Ok(t) ==> checked_shape(*expr, t.0, t.1),
            strict_literal_prim(*expr) matches Some(p) ==> r matches Ok(t) && t.1 == Typing::Primitive(p) && t.2 == ExpressionIdentity::Immediate,
            match expr.data {
                ast::ExpressionData::BinaryOperation { operator, left, right } => match (strict_operand(*left, self.namespace), strict_operand(*right, self.namespace)) {
                    (Some((pl, il)), Some((pr, _))) => strict_binop_outcome(binop_from_ast(operator), Typing::Primitive(pl), il, Typing::Primitive(pr), expr.span, r),
                    _ => true,
                },
                ast::ExpressionData::FunctionCall { function, arguments } => match function.data {
                    ast::ExpressionData::Identifier { name } => call_outcome(self.namespace.functions@, name@, arguments@.len(), function.span, r)
                        && (strict_some_bad_argument(self.namespace.functions@, name@, arguments@, self.namespace) ==> r is Err),
                    _ => true,
                },
                ast::ExpressionData::StructInit { .. } => strict_struct_init_result(*expr, self.namespace, r),
                ast::ExpressionData::Tuple { exprs } => r matches Ok(t) ==> (t.1 matches Typing::Tuple { types } && types@.len() == exprs@.len()
                    && forall|i: int| 0 <= i < exprs@.len() ==> (strict_typing(#[trigger] exprs@[i], self.namespace) matches Some(ti) ==> typing_same(ti, types@[i]))),
                _ => true,
            },
            r matches Ok(t) ==> (strict_typing(*expr, self.namespace) matches Some(ty) ==> typing_same(ty, t.1)),
        decreases *expr, 1nat,
    {
        let span = expr.span;
        match &expr.data {
            ast::ExpressionData::BinaryOperation { operator, left, right } => {
                let lhs = self.typecheck_expr(left)?;
                let rhs = self.typecheck_expr(right)?;
                proof {
                    if let (Some(pl), Some(pr)) = (strict_literal_prim(**left), strict_literal_prim(**right)) {
                        assert(typing_display(lhs.1) == primitive_name(pl));
                        assert(typing_display(rhs.1) == primitive_name(pr));
                    }
                    if let (Some((pl, il)), Some((pr, _))) = (strict_operand(**left, self.namespace), strict_operand(**right, self.namespace)) {
                        assert(lhs.1 == Typing::Primitive(pl) && lhs.2 == il);
                        assert(rhs.1 == Typing::Primitive(pr));
                    }
                }
                let ghost kind = binop_result_kind(binop_from_ast(*operator));
                let (operator, typing, op_id) = self.typecheck_binop(&lhs, &rhs, operator, span)?;
                proof {
                    if kind == 0 {
                        if let Some(lt) = strict_typing(**left, self.namespace) {
                            crate::cir::lemma_typing_same_transitive(lt, lhs.1, typing);
                        }
                    }
                }
                Ok((
                    Expression {
                        span,
                        data: ExpressionData::BinaryOperation { operator, left: Box::new(lhs.0), right: Box::new(rhs.0) },
                        identity: op_id,
                    },
                    typing,
                    op_id,
                ))
            },
            ast::ExpressionData::UnaryOperation { operator, operand } => {
                let operator = crate::cir::UnaryOperation::from_ast(operator);
                let (operand, operand_type, operand_id) = self.typecheck_expr(operand)?;
                let (operation_type, id) = match operator {
                    crate::cir::UnaryOperation::Addr => {
                        if let ExpressionIdentity::Immediate = operand_id {
                            return Err(
                                TypeError {
                                    span,
                                    case: TypeErrorCase::InvalidExpression {
                                        what: expr_text(&operand),
                                        should: String::from_str("valid value to reference"),
                                    },
                                },
                            );
                        }
                        (Typing::Pointer { mutable: false, typ: Box::new(operand_type) }, ExpressionIdentity::Immediate)
                    },
                    crate::cir::UnaryOperation::Neg | crate::cir::UnaryOperation::Not | crate::cir::UnaryOperation::BNot => (operand_type, ExpressionIdentity::Immediate),
                    crate::cir::UnaryOperation::Deref => {
                        if let ExpressionIdentity::Immediate = operand_id {
                            return Err(
                                TypeError {
                                    span,
                                    case: TypeErrorCase::InvalidExpression {
                                        what: expr_text(&operand),
                                        should: String::from_str("valid value to dereference"),
                                    },
                                },
                            );
                        }
                        match operand_type {
                            Typing::Pointer { typ, .. } => (*typ, operand_id),
                            other => {
                                return Err(
                                    TypeError {
                                        span,
                                        case: TypeErrorCase::TypeMismatch { got: typing_text(&other), expected: String::from_str("pointer") },
                                    },
                                );
                            },
                        }
                    },
                };
                Ok((Expression { span, data: ExpressionData::UnaryOperation { operator, operand: Box::new(operand) }, identity: id }, operation_type, id))
            },
            ast::ExpressionData::CharacterLiteral { value } => {
                let mut text = String::new();
                crate::text::push_char(&mut text, *value);
                assert(text@ =~= seq![*value]);
                Ok((
                    Expression { span, data: ExpressionData::StringLiteral { value: text }, identity: ExpressionIdentity::Immediate },
                    Typing::Primitive(Primitive::Char),
                    ExpressionIdentity::Immediate,
                ))
            },
            ast::ExpressionData::StrLiteral { value } => {
                proof {
                    crate::cir::lemma_typing_same_reflexive(Typing::Pointer { mutable: false, typ: Box::new(Typing::Primitive(Primitive::U8)) });
                }
                Ok((
                    Expression { span, data: ExpressionData::StringLiteral { value: value.clone() }, identity: ExpressionIdentity::Immediate },
                    Typing::Pointer { mutable: false, typ: Box::new(Typing::Primitive(Primitive::U8)) },
                    ExpressionIdentity::Immediate,
                ))
            },
            ast::ExpressionData::Tuple { exprs } => {
                let mut validated_exprs: Vec<Expression> = Vec::new();
                let mut types: Vec<Typing> = Vec::new();
                let mut i: usize = 0;
                while i < exprs.len()
                    invariant
                        i <= exprs@.len(),
                        validated_exprs@.len() == i,
                        types@.len() == i,
                        forall|j: int| 0 <= j < i ==> (strict_typing(#[trigger] exprs@[j], self.namespace) matches Some(tj) ==> typing_same(tj, types@[j])),
                    decreases exprs@.len() - i,
                {
                    proof {
                        lemma_exprs_supported(exprs@, i as int);
                        assert(decreases_to!(exprs@ => exprs@[i as int]));
                    }
                    let (e, t, _) = self.typecheck_expr(&exprs[i])?;
                    validated_exprs.push(e);
                    types.push(t);
                    i = i + 1;
                }
                let copies = crate::cir::copy_typings(&types);
                Ok((
                    Expression { span, data: ExpressionData::Tuple { exprs: validated_exprs, types: copies }, identity: ExpressionIdentity::Immediate },
                    Typing::Tuple { types },
                    ExpressionIdentity::Immediate,
                ))
            },
            ast::ExpressionData::Array { exprs, amount } => {
                let mut checked_exprs: Vec<Expression> = Vec::new();
                proof {
                    lemma_exprs_supported(exprs@, 0);
                    assert(decreases_to!(exprs@ => exprs@[0]));
                }
                let (first, element_type, _) = self.typecheck_expr(&exprs[0])?;
                checked_exprs.push(first);
                let mut i: usize = 1;
                while i < exprs.len()
                    invariant
                        1 <= i <= exprs@.len(),
                        checked_exprs@.len() == i,
                    decreases exprs@.len() - i,
                {
                    proof {
                        lemma_exprs_supported(exprs@, i as int);
                        assert(decreases_to!(exprs@ => exprs@[i as int]));
                    }
                    let (e, t, _) = self.typecheck_expr(&exprs[i])?;
                    let element_span = exprs[i].span;
                    checked_exprs.push(e);
                    if !crate::cir::typing_eq(&element_type, &t) {
                        return Err(
                            TypeError {
                                span: element_span,
                                case: TypeErrorCase::TypeMismatch { got: typing_text(&t), expected: typing_text(&element_type) },
                            },
                        );
                    }
                    i = i + 1;
                }
                let literal_type = element_type.copy();
                Ok((
                    Expression { span, data: ExpressionData::ArrayLiteral { exprs: checked_exprs, typ: literal_type }, identity: ExpressionIdentity::Immediate },
                    Typing::Array { typ: Box::new(element_type), amount: *amount },
                    ExpressionIdentity::Immediate,
                ))
            },
            ast::ExpressionData::FieldAccess { origin, field } => {
                let (expression, typing, id) = self.typecheck_expr(origin)?;
                match id {
                    ExpressionIdentity::Locatable(_) => {},
                    _ => {
                        let mut what = String::from_str(identity_text(id));
                        what.append(" expression");
                        return Err(
                            TypeError {
                                span: origin.span,
                                case: TypeErrorCase::InvalidExpression { what, should: String::from_str("locatable expression") },
                            },
                        );
                    },
                }
                match &typing {
                    Typing::Struct(st) => {
                        let mut found: Option<usize> = None;
                        let mut f: usize = 0;
                        assert(st.fields@.subrange(0, 0).len() == 0);
                        while f < st.fields.len()
                            invariant
                                f <= st.fields@.len(),
                                found matches Some(x) ==> x < st.fields@.len() && field_typing(st.fields@.subrange(0, f as int), field@) == Some(st.fields@[x as int].typing),
                                found is None ==> field_typing(st.fields@.subrange(0, f as int), field@) is None,
                            decreases st.fields@.len() - f,
                        {
                            assert(st.fields@.subrange(0, f + 1).subrange(0, f as int) =~= st.fields@.subrange(0, f as int));
                            if str_eq(st.fields[f].name.as_str(), field.as_str()) {
                                found = Some(f);
                            }
                            f = f + 1;
                        }
                        assert(st.fields@.subrange(0, st.fields@.len() as int) =~= st.fields@);
                        proof {
                            if let Some(Typing::Struct(s0)) = strict_typing(**origin, self.namespace) {
                                crate::cir::lemma_field_typing_same(s0.fields@, st.fields@, field@);
                            }
                        }
                        match found {
                            Some(x) => {
                                let t = st.fields[x].typing.copy();
                                proof {
                                    if let Some(Typing::Struct(s0)) = strict_typing(**origin, self.namespace) {
                                        crate::cir::lemma_typing_same_transitive(field_typing(s0.fields@, field@)->0, st.fields@[x as int].typing, t);
                                    }
                                }
                                Ok((Expression { span, data: ExpressionData::FieldAccess { origin: Box::new(expression), field: field.clone() }, identity: id }, t, id))
                            },
                            None => {
                                let mut from = String::from_str("struct ");
                                from.append(st.name.as_str());
                                Err(TypeError { span, case: TypeErrorCase::UnresolvedMember { name: field.clone(), from } })
                            },
                        }
                    },
                    _ => Err(
                        TypeError {
                            span: origin.span,
                            case: TypeErrorCase::NonAggregateMemberAccess { typ: typing_text(&typing), member: field.clone() },
                        },
                    ),
                }
            },
            ast::ExpressionData::FunctionCall { function, arguments } => {
                proof {
                    assert(decreases_to!(*expr => arguments@));
                }
                match &function.data {
                    ast::ExpressionData::Identifier { name } => self.typecheck_function_call(name, arguments, function.span),
                    _ => {
                        proof {
                            assert(false);
                        }
                        Err(TypeError { span, case: TypeErrorCase::MisplacedReturn })
                    },
                }
            },
            ast::ExpressionData::StructInit { .. } => self.typecheck_struct_init(expr),
            ast::ExpressionData::IntegerLiteral { value } => Ok((
                Expression { span, data: ExpressionData::Integer { value: *value }, identity: ExpressionIdentity::Immediate },
                Typing::Primitive(Primitive::Int),
                ExpressionIdentity::Immediate,
            )),
            ast::ExpressionData::FloatLiteral { whole, fraction } => Ok((
                Expression { span, data: ExpressionData::Float { whole: whole.clone(), fraction: fraction.clone() }, identity: ExpressionIdentity::Immediate },
                Typing::Primitive(Primitive::Float),
                ExpressionIdentity::Immediate,
            )),
            ast::ExpressionData::BooleanLiteral { value } => Ok((
                Expression { span, data: ExpressionData::Bool { value: *value }, identity: ExpressionIdentity::Immediate },
                Typing::Primitive(Primitive::Bool),
                ExpressionIdentity::Immediate,
            )),
            ast::ExpressionData::Identifier { name } => {
                if let Some(k) = lookup(&self.namespace.constants, name.as_str()) {
                    let t = self.namespace.constants[k].2.copy();
                    return Ok((Expression { span, data: ExpressionData::Identifier { name: name.clone() }, identity: ExpressionIdentity::Immediate }, t, ExpressionIdentity::Immediate));
                }
                if let Some(k) = lookup(&self.namespace.functions, name.as_str()) {
                    let t = self.namespace.functions[k].2.ret.copy();
                    return Ok((Expression { span, data: ExpressionData::Identifier { name: name.clone() }, identity: ExpressionIdentity::Immediate }, t, ExpressionIdentity::Immediate));
                }
                match self.lookup_local(name.as_str()) {
                    Some((a, b)) => {
                        let var = &self.namespace.locals[a].content[b].1;
                        let id = ExpressionIdentity::Locatable(var.mutable);
                        Ok((Expression { span, data: ExpressionData::Identifier { name: name.clone() }, identity: id }, var.typing.copy(), id))
                    },
                    None => Err(TypeError { span, case: TypeErrorCase::UnresolvedName { name: name.clone() } }),
                }
            },
            _ => {
                proof {
                    assert(false);
                }
                Err(TypeError { span, case: TypeErrorCase::MisplacedReturn })
            },
        }
    }

    /// Declares a local variable in the innermost scope, replacing one of the same name.
    fn declare_local(&mut self, name: String, mutable: bool, typing: Typing)
        requires
            old(self).wf(),
            old(self).namespace.locals@.len() > 0,
        ensures
            final(self).wf(),
            final(self).namespace.locals@.len() == old(self).namespace.locals@.len(),
            final(self).errors@ == old(self).errors@,
            forall|i: int| 0 <= i < old(self).namespace.locals@.len() - 1 ==> #[trigger] final(self).namespace.locals@[i] == old(self).namespace.locals@[i],
            final(self).namespace.locals@.last().content@ == with_binding(
                old(self).namespace.locals@.last().content@,
                name,
                Variable { name, mutable, typing },
            ),
            final(self).namespace.constants == old(self).namespace.constants,
            final(self).namespace.structs == old(self).namespace.structs,
            final(self).namespace.enums == old(self).namespace.enums,
            final(self).namespace.functions == old(self).namespace.functions,
    {
        let ghost nm = name;
        let ghost vv = Variable { name, mutable, typing };
        let mut scope = self.namespace.locals.pop().unwrap();
        let ghost s0 = scope.content@;
        let var = Variable { name: name.clone(), mutable, typing };
        let mut k: usize = 0;
        let mut replaced = false;
        while k < scope.content.len()
            invariant_except_break
                !replaced,
            invariant
                k <= scope.content@.len(),
                scope.content@ == s0,
                forall|m: int| 0 <= m < k ==> s0[m].0@ != nm@,
                replaced ==> k < s0.len() && s0[k as int].0@ == nm@,
                nm == name,
                vv == var,
            ensures
                !replaced ==> k == s0.len(),
            decreases scope.content@.len() - k,
        {
            if str_eq(scope.content[k].0.as_str(), name.as_str()) {
                replaced = true;
                break;
            }
            k = k + 1;
        }
        if replaced {
            proof {
                lemma_with_binding_at(s0, nm, vv, k as int);
            }
            scope.content.set(k, (name, var));
        } else {
            proof {
                assert(!(exists|j: int| 0 <= j < s0.len() && #[trigger] s0[j].0@ == nm@ && forall|m: int| 0 <= m < j ==> s0[m].0@ != nm@));
            }
            scope.content.push((name, var));
        }
        self.namespace.locals.push(scope);
    }

    /// Checks the statements of a block, in the scope that is innermost.
    #[verifier::loop_isolation(false)]
    fn typecheck_generic_block(&mut self, block: Vec<ast::Node>, expects_return: Option<&Typing>) -> (r: Result<Vec<crate::cir::Statement>, TypeError>)
        requires
            old(self).wf(),
            nodes_supported(block@),
            old(self).namespace.locals@.len() > 0,
        ensures
            final(self).wf(),
            final(self).errors@ == old(self).errors@,
            final(self).namespace.locals@.len() >= old(self).namespace.locals@.len(),
            r is Ok ==> final(self).namespace.locals@.len() == old(self).namespace.locals@.len(),
            r matches Ok(b) ==> b@.len() == block@.len(),
            r matches Ok(b) ==> forall|i: int| 0 <= i < block@.len() ==> checked_as(block@[i], #[trigger] b@[i]),
            (forall|i: int| 0 <= i < block@.len() ==> #[trigger] strict_accepted(block@[i].stmt)) ==> r is Ok,
        decreases block@, 0nat,
    {
        let ghost entry = block@;
        let ghost all_simple = forall|i: int| 0 <= i < entry.len() ==> #[trigger] strict_accepted(entry[i].stmt);
        let mut block = block;
        let mut blk: Vec<crate::cir::Statement> = Vec::new();
        let n = block.len();
        let mut k: usize = 0;
        assert(block@ =~= entry.subrange(0, entry.len() as int));
        while k < n
            invariant
                self.wf(),
                self.errors@ == old(self).errors@,
                n == entry.len(),
                k <= n,
                block@ == entry.subrange(k as int, n as int),
                blk@.len() == k,
                self.namespace.locals@.len() == old(self).namespace.locals@.len(),
                forall|i: int| 0 <= i < k ==> checked_as(entry[i], #[trigger] blk@[i]),
                all_simple == (forall|i: int| 0 <= i < entry.len() ==> #[trigger] strict_accepted(entry[i].stmt)),
            decreases n - k,
        {
            let node = block.remove(0);
            assert(node == entry[k as int]);
            proof {
                lemma_nodes_supported(entry, k as int);
                assert(decreases_to!(entry => entry[k as int]));
                assert(decreases_to!(entry, 0nat => node, 1nat));
            }
            assert(block@ =~= entry.subrange(k + 1, n as int));
            let x = self.typecheck_node(node, expects_return)?;
            let ghost before = blk@;
            blk.push(x);
            proof {
                assert forall|i: int| 0 <= i < k + 1 implies checked_as(entry[i], #[trigger] blk@[i]) by {
                    if i < k {
                        assert(blk@[i] == before[i]);
                    }
                }
            }
            k = k + 1;
        }
        Ok(blk)
    }

    /// Whether a checked block returns on every path; at the top of a function that
    /// returns a value, a block that may end without returning is an error.
    #[verifier::loop_isolation(false)]
    fn typecheck_inner_function_block(&self, span: Span, block: &Vec<crate::cir::Statement>, is_top_level: bool, function_name: &str, return_type: &Typing) -> (r: Result<(bool, Span), TypeError>)
        ensures
            r matches Ok(x) ==> x.0 == block_returns(block@),
            r is Err <==> (is_top_level && !(*return_type is Void) && !block_returns(block@)),
            r matches Err(e) ==> (e.case matches TypeErrorCase::NoReturn { function, return_type: t }
                && function@ == function_name@ && t@ == typing_display(*return_type)),
            block@.len() == 0 && r is Err ==> r->Err_0.span == span,
        decreases block@,
    {
        let mut last_span = span;
        let mut i: usize = 0;
        assert(block@.subrange(0, 0).len() == 0);
        while i < block.len()
            invariant
                i <= block@.len(),
                !block_returns(block@.subrange(0, i as int)),
                i == 0 ==> last_span == span,
            decreases block@.len() - i,
        {
            let statement = &block[i];
            last_span = statement.span;
            let ghost next = block@.subrange(0, i + 1);
            assert(next.subrange(0, next.len() - 1) =~= block@.subrange(0, i as int));
            assert(next[next.len() - 1] == *statement);
            match &statement.kind {
                crate::cir::StatementKind::ReturnStatement { .. } => {
                    proof {
                        assert(statement_returns(*statement));
                        assert(block_returns(next));
                        crate::semcheck::lemma_block_returns_extends(block@, i + 1);
                    }
                    return Ok((true, statement.span));
                },
                crate::cir::StatementKind::IfStatement { block_true, block_false, .. } => {
                    proof {
                        assert(decreases_to!(block@ => block@[i as int]));
                    }
                    let (a, s1) = self.typecheck_inner_function_block(span, block_true, false, function_name, return_type)?;
                    let (b, s2) = self.typecheck_inner_function_block(span, block_false, false, function_name, return_type)?;
                    if a && b {
                        proof {
                            assert(statement_returns(*statement));
                            assert(block_returns(next));
                            crate::semcheck::lemma_block_returns_extends(block@, i + 1);
                        }
                        return Ok((true, s2));
                    }
                    last_span = if a {
                        s2
                    } else {
                        s1
                    };
                    assert(!statement_returns(*statement));
                },
                _ => {
                    assert(!statement_returns(*statement));
                },
            }
            i = i + 1;
        }
        assert(block@.subrange(0, block@.len() as int) =~= block@);
        let is_void = match return_type {
            Typing::Void => true,
            _ => false,
        };
        if is_top_level && !is_void {
            let mut function = String::new();
            function.append(function_name);
            return Err(TypeError { span: last_span, case: TypeErrorCase::NoReturn { function, return_type: typing_text(return_type) } });
        }
        Ok((false, last_span))
    }

    /// Checks the statements of a function body, and that a function that returns a value
    /// returns one on every path.
    fn typecheck_function_block(&mut self, span: Span, block: Vec<ast::Node>, function_name: &str, return_type: &Typing) -> (r: Result<Vec<crate::cir::Statement>, TypeError>)
        requires
            old(self).wf(),
            nodes_supported(block@),
            old(self).namespace.locals@.len() > 0,
        ensures
            final(self).wf(),
            final(self).errors@ == old(self).errors@,
            final(self).namespace.locals@.len() >= old(self).namespace.locals@.len(),
            r is Ok ==> final(self).namespace.locals@.len() == old(self).namespace.locals@.len(),
            r matches Ok(b) ==> !(*return_type is Void) ==> block_returns(b@),
            r matches Ok(b) ==> b@.len() == block@.len(),
            r matches Ok(b) ==> forall|i: int| 0 <= i < block@.len() ==> checked_as(block@[i], #[trigger] b@[i]),
            (forall|i: int| 0 <= i < block@.len() ==> #[trigger] strict_accepted(block@[i].stmt)) && *return_type is Void ==> r is Ok,
            block@.len() == 0 && !(*return_type is Void) ==> (r matches Err(e) && e.span == span && e.case is NoReturn),
        decreases block@, 1nat,
    {
        let mut name = String::new();
        name.append(function_name);
        self.current_function = name;
        let blk = self.typecheck_generic_block(block, Some(return_type))?;
        self.typecheck_inner_function_block(span, &blk, true, function_name, return_type)?;
        Ok(blk)
    }

    /// The arguments of a function as checked names and types.
    fn check_arguments(&self, arguments: &Vec<ast::TypedField>) -> (r: Result<Vec<crate::cir::TypedField>, TypeError>)
        requires
            self.wf(),
            typed_fields_supported(arguments@),
        ensures
            r matches Ok(v) ==> v@.len() == arguments@.len(),
            simple_fields(arguments@) ==> r is Ok,
    {
        let mut validated: Vec<crate::cir::TypedField> = Vec::new();
        let mut i: usize = 0;
        while i < arguments.len()
            invariant
                self.wf(),
                typed_fields_supported(arguments@),
                i <= arguments@.len(),
                validated@.len() == i,
            decreases arguments@.len() - i,
        {
            proof {
                lemma_typed_fields_supported(arguments@, i as int);
                if simple_fields(arguments@) {
                    assert(simple_type(arguments@[i as int].typing));
                }
            }
            let typing = self.check_type(&arguments[i].typing)?;
            validated.push(crate::cir::TypedField { name: arguments[i].name.clone(), typing });
            i = i + 1;
        }
        Ok(validated)
    }

    /// Checks a statement and turns it into a checked one. Declarations add their names to
    /// the namespace; variables are declared in the innermost scope.
    #[verifier::loop_isolation(false)]
    fn typecheck_node(&mut self, node: ast::Node, expects_return: Option<&Typing>) -> (r: Result<crate::cir::Statement, TypeError>)
        requires
            old(self).wf(),
            node_supported(node),
            (node.stmt is LetStatement || node.stmt is VarStatement) ==> old(self).namespace.locals@.len() > 0,
        ensures
            final(self).wf(),
            final(self).errors@ == old(self).errors@,
            final(self).namespace.locals@.len() >= old(self).namespace.locals@.len(),
            r is Ok ==> final(self).namespace.locals@.len() == old(self).namespace.locals@.len(),
            r matches Ok(st) ==> st.span == node.span,
            r matches Ok(st) ==> checked_as(node, st),
            strict_accepted(node.stmt) ==> r is Ok,
            empty_typed_function(node.stmt) ==> (r matches Err(e) && e.span == node.span && e.case is NoReturn),
            match node.stmt {
                ast::Statement::LetStatement(st) => strict_literal_prim(st.assignment) is Some
                    ==> (r matches Ok(s) && (s.kind matches crate::cir::StatementKind::Variable { binding, typing, .. }
                        && binding@ == st.binding@ && typing == Typing::Primitive(strict_literal_prim(st.assignment)->0)))
                    && final(self).namespace.locals@.last().content@ == with_binding(old(self).namespace.locals@.last().content@, st.binding,
                        Variable { name: st.binding, mutable: false, typing: Typing::Primitive(strict_literal_prim(st.assignment)->0) }),
                ast::Statement::VarStatement(st) => strict_literal_prim(st.assignment) is Some
                    ==> (r matches Ok(s) && (s.kind matches crate::cir::StatementKind::Variable { binding, typing, .. }
                        && binding@ == st.binding@ && typing == Typing::Primitive(strict_literal_prim(st.assignment)->0)))
                    && final(self).namespace.locals@.last().content@ == with_binding(old(self).namespace.locals@.last().content@, st.binding,
                        Variable { name: st.binding, mutable: true, typing: Typing::Primitive(strict_literal_prim(st.assignment)->0) }),
                _ => true,
            },
            match node.stmt {
                ast::Statement::ReturnStatement(st) => expects_return is None && st.expr is Some ==> (r matches Err(e)
                    && e.span == node.span && e.case matches TypeErrorCase::MisplacedReturn),
                ast::Statement::LetStatement(st) => r matches Ok(s) ==> (s.kind matches crate::cir::StatementKind::Variable { binding, typing, .. }
                    && binding@ == st.binding@ && (strict_typing(st.assignment, old(self).namespace) matches Some(ty) ==> typing_same(ty, typing))
                    && binds_in(old(self).namespace.locals@.last().content@, final(self).namespace.locals@.last().content@, st.binding, false, typing)),
                ast::Statement::VarStatement(st) => r matches Ok(s) ==> (s.kind matches crate::cir::StatementKind::Variable { binding, typing, .. }
                    && binding@ == st.binding@ && (strict_typing(st.assignment, old(self).namespace) matches Some(ty) ==> typing_same(ty, typing))
                    && binds_in(old(self).namespace.locals@.last().content@, final(self).namespace.locals@.last().content@, st.binding, true, typing)),
                ast::Statement::IfStatement(st) => strict_typing(st.condition, old(self).namespace) matches Some(ct)
                    && !(ct matches Typing::Primitive(Primitive::Bool)) ==> r is Err,
                ast::Statement::ReturnStatement(st) => match (expects_return, st.expr) {
                    (Some(rt), Some(e)) => strict_typing(e, old(self).namespace) matches Some(t) && !typing_same(t, *rt) ==> (r matches Err(err)
                        && (strict_literal_prim(e) is Some ==> err.span == node.span
                            && (if *rt is Void { err.case is ReturnValueOnVoidFunction } else { err.case is MismatchedReturnType }))),
                    _ => true,
                },
                ast::Statement::ConstStatement(st) => match st.typing.typing {
                    ast::Typing::Named { name, generic: _ } => strict_typing(st.assignment, old(self).namespace) matches Some(t)
                        && primitive_of(name@) matches Some(q) && !typing_same(t, Typing::Primitive(q))
                        ==> (r matches Err(err) && (strict_literal_prim(st.assignment) is Some ==> err.span == st.typing.span
                            && err.case is TypeMismatch)),
                    _ => true,
                },
                ast::Statement::FnStatement(_) => r matches Ok(s) ==> (s.kind matches crate::cir::StatementKind::FnStatement(f)
                    && (f.head.ret is Void || block_returns(f.block@))),
                ast::Statement::WhileStatement(st) => strict_typing(st.condition, old(self).namespace) matches Some(ct)
                    && !(ct matches Typing::Primitive(Primitive::Bool)) ==> r is Err,
                _ => true,
            },
        decreases node, 1nat,
    {
        let span = node.span;
        match node.stmt {
            ast::Statement::LetStatement(stmt) => {
                let (expr, typ, _) = self.typecheck_expr(&stmt.assignment)?;
                let ghost before = self.namespace.locals@.last().content@;
                let copied = typ.copy();
                let ghost v = Variable { name: stmt.binding, mutable: false, typing: copied };
                self.declare_local(stmt.binding.clone(), false, copied);
                assert(with_binding(before, stmt.binding, v) == self.namespace.locals@.last().content@);
                Ok(crate::cir::Statement { span, kind: crate::cir::StatementKind::Variable { assignment: expr, binding: stmt.binding, typing: typ } })
            },
            ast::Statement::VarStatement(stmt) => {
                let (expr, typ, _) = self.typecheck_expr(&stmt.assignment)?;
                let ghost before = self.namespace.locals@.last().content@;
                let copied = typ.copy();
                let ghost v = Variable { name: stmt.binding, mutable: true, typing: copied };
                self.declare_local(stmt.binding.clone(), true, copied);
                assert(with_binding(before, stmt.binding, v) == self.namespace.locals@.last().content@);
                Ok(crate::cir::Statement { span, kind: crate::cir::StatementKind::Variable { assignment: expr, binding: stmt.binding, typing: typ } })
            },
            ast::Statement::ConstStatement(stmt) => {
                let (expr, typ, _) = self.typecheck_expr(&stmt.assignment)?;
                let annotated = self.check_type(&stmt.typing)?;
                if !crate::cir::typing_eq(&annotated, &typ) {
                    return Err(
                        TypeError {
                            span: stmt.typing.span,
                            case: TypeErrorCase::TypeMismatch { got: typing_text(&typ), expected: typing_text(&annotated) },
                        },
                    );
                }
                insert(&mut self.namespace.constants, stmt.binding.clone(), span, typ.copy());
                Ok(crate::cir::Statement { span, kind: crate::cir::StatementKind::Constant { value: expr, binding: stmt.binding, typing: typ } })
            },
            ast::Statement::ReturnStatement(stmt) => {
                if expects_return.is_none() && stmt.expr.is_some() {
                    return Err(TypeError { span, case: TypeErrorCase::MisplacedReturn });
                }
                match stmt.expr {
                    Some(e) => {
                        let (expr, typ, _) = self.typecheck_expr(&e)?;
                        let expected_return = expects_return.unwrap();
                        if !crate::cir::typing_eq(&typ, expected_return) {
                            let is_void = match expected_return {
                                Typing::Void => true,
                                _ => false,
                            };
                            if is_void {
                                return Err(TypeError { span, case: TypeErrorCase::ReturnValueOnVoidFunction { function: self.current_function.clone() } });
                            }
                            return Err(
                                TypeError {
                                    span,
                                    case: TypeErrorCase::MismatchedReturnType {
                                        function: self.current_function.clone(),
                                        got: typing_text(&typ),
                                        expected: typing_text(expected_return),
                                    },
                                },
                            );
                        }
                        Ok(crate::cir::Statement { span, kind: crate::cir::StatementKind::ReturnStatement { value: Some(expr), typing: typ } })
                    },
                    None => Ok(crate::cir::Statement { span, kind: crate::cir::StatementKind::ReturnStatement { value: None, typing: Typing::Void } }),
                }
            },
            ast::Statement::FnStatement(stmt) => {
                let validated_args = self.check_arguments(&stmt.arguments)?;
                let validated_ret_type = match &stmt.ret {
                    Some(ret_type) => self.check_type(ret_type)?,
                    None => Typing::Void,
                };
                self.namespace.locals.push(Scope { content: Vec::new() });
                let mut i: usize = 0;
                while i < validated_args.len()
                    invariant
                        self.wf(),
                        self.errors@ == old(self).errors@,
                        self.namespace.locals@.len() == old(self).namespace.locals@.len() + 1,
                        i <= validated_args@.len(),
                    decreases validated_args@.len() - i,
                {
                    self.declare_local(validated_args[i].name.clone(), false, validated_args[i].typing.copy());
                    i = i + 1;
                }
                let head = FunctionHead {
                    name: stmt.name.clone(),
                    ret: validated_ret_type.copy(),
                    arguments: validated_args,
                    variadic: false,
                    extrn: false,
                };
                insert(&mut self.namespace.functions, stmt.name.clone(), span, head.copy());
                proof {
                    assert(decreases_to!(node => stmt.block.content@));
                    if strict_function(node.stmt) {
                        assert forall|i: int| 0 <= i < stmt.block.content@.len() implies #[trigger] strict_accepted(stmt.block.content@[i].stmt) by {
                            assert(strict_let(stmt.block.content@[i].stmt));
                        }
                    }
                }
                let validated_block = self.typecheck_function_block(span, stmt.block.content, stmt.name.as_str(), &validated_ret_type)?;
                self.namespace.locals.pop();
                Ok(crate::cir::Statement { span, kind: crate::cir::StatementKind::FnStatement(crate::cir::Function { head, block: validated_block }) })
            },
            ast::Statement::ExternFnStatement(stmt) => {
                let validated_args = self.check_arguments(&stmt.arguments)?;
                let validated_ret_type = match &stmt.ret {
                    Some(ret_type) => self.check_type(ret_type)?,
                    None => Typing::Void,
                };
                let head = FunctionHead { name: stmt.name.clone(), ret: validated_ret_type, arguments: validated_args, variadic: stmt.variadic, extrn: true };
                insert(&mut self.namespace.functions, stmt.name.clone(), span, head.copy());
                Ok(crate::cir::Statement { span, kind: crate::cir::StatementKind::ExternFnStatement(head) })
            },
            ast::Statement::StructStatement(stmt) => {
                let mut fields: Vec<crate::cir::TypedField> = Vec::new();
                let mut i: usize = 0;
                while i < stmt.fields.len()
                    invariant
                        self.wf(),
                        i <= stmt.fields@.len(),
                    decreases stmt.fields@.len() - i,
                {
                    proof {
                        lemma_typed_fields_supported(stmt.fields@, i as int);
                    }
                    let checked_type = self.check_type(&stmt.fields[i].typing)?;
                    let mut k: usize = 0;
                    let mut found: usize = fields.len();
                    while k < fields.len()
                        invariant
                            k <= fields@.len(),
                            found <= fields@.len(),
                        decreases fields@.len() - k,
                    {
                        if found == fields.len() && str_eq(fields[k].name.as_str(), stmt.fields[i].name.as_str()) {
                            found = k;
                        }
                        k = k + 1;
                    }
                    if found < fields.len() {
                        fields.set(found, crate::cir::TypedField { name: stmt.fields[i].name.clone(), typing: checked_type });
                    } else {
                        fields.push(crate::cir::TypedField { name: stmt.fields[i].name.clone(), typing: checked_type });
                    }
                    i = i + 1;
                }
                let e = Struct { name: stmt.name, fields };
                insert(&mut self.namespace.structs, e.name.clone(), span, e.copy());
                Ok(crate::cir::Statement { span, kind: crate::cir::StatementKind::StructStatement(e) })
            },
            ast::Statement::EnumStatement(stmt) => {
                let e = Enum { name: stmt.name, variants: stmt.variants };
                insert(&mut self.namespace.enums, e.name.clone(), span, e.copy());
                Ok(crate::cir::Statement { span, kind: crate::cir::StatementKind::EnumStatement(e) })
            },
            ast::Statement::IfStatement(stmt) => {
                let condition_span = stmt.condition.span;
                let (condition, typing, _) = self.typecheck_expr(&stmt.condition)?;
                if !typing.is_bool() {
                    return Err(
                        TypeError {
                            span: condition_span,
                            case: TypeErrorCase::TypeMismatch { got: typing_text(&typing), expected: String::from_str("bool") },
                        },
                    );
                }
                proof {
                    assert(decreases_to!(node => stmt.block_true.content@));
                }
                self.namespace.locals.push(Scope { content: Vec::new() });
                let block_true = self.typecheck_generic_block(stmt.block_true.content, expects_return)?;
                self.namespace.locals.pop();
                self.namespace.locals.push(Scope { content: Vec::new() });
                let block_false = match stmt.block_false {
                    Some(b) => {
                        proof {
                            assert(decreases_to!(node => b.content@));
                        }
                        self.typecheck_generic_block(b.content, expects_return)?
                    },
                    None => Vec::new(),
                };
                self.namespace.locals.pop();
                Ok(crate::cir::Statement { span, kind: crate::cir::StatementKind::IfStatement { condition, block_true, block_false } })
            },
            ast::Statement::WhileStatement(stmt) => {
                let condition_span = stmt.condition.span;
                let (condition, typing, _) = self.typecheck_expr(&stmt.condition)?;
                if !typing.is_bool() {
                    return Err(
                        TypeError {
                            span: condition_span,
                            case: TypeErrorCase::TypeMismatch { got: typing_text(&typing), expected: String::from_str("bool") },
                        },
                    );
                }
                proof {
                    assert(decreases_to!(node => stmt.block.content@));
                }
                self.namespace.locals.push(Scope { content: Vec::new() });
                let block = self.typecheck_generic_block(stmt.block.content, expects_return)?;
                self.namespace.locals.pop();
                Ok(crate::cir::Statement { span, kind: crate::cir::StatementKind::WhileStatement { condition, block } })
            },
            ast::Statement::ExpressionStatement(stmt) => {
                let (expr, _, _) = self.typecheck_expr(&stmt)?;
                Ok(crate::cir::Statement { span, kind: crate::cir::StatementKind::ExpressionStatement(expr) })
            },
        }
    }

    /// Checks the types of the statements of a program, and turns them into checked
    /// statements; each statement that is refused adds its error to `errors`.
    pub fn go(&mut self, input: Vec<ast::Node>) -> (r: crate::cir::Program)
        requires
            old(self).wf(),
            forall|i: int| 0 <= i < input@.len() ==> #[trigger] node_supported(input@[i]),
            forall|i: int| 0 <= i < input@.len() ==> !(#[trigger] input@[i].stmt is LetStatement || input@[i].stmt is VarStatement),
        ensures
            final(self).wf(),
            final(self).found().len() >= old(self).found().len(),
            r.nodes@.len() + (final(self).found().len() - old(self).found().len()) == input@.len(),
            final(self).found().len() == old(self).found().len() ==> forall|i: int| 0 <= i < r.nodes@.len() ==> checked_as(input@[i], #[trigger] r.nodes@[i]),
            (forall|i: int| 0 <= i < input@.len() ==> #[trigger] strict_accepted(input@[i].stmt))
                ==> final(self).found().len() == old(self).found().len() && r.nodes@.len() == input@.len(),
            final(self).found().subrange(0, old(self).found().len() as int) == old(self).found(),
            (forall|i: int| 0 <= i < input@.len() ==> #[trigger] strict_accepted(input@[i].stmt) || empty_typed_function(input@[i].stmt))
                ==> final(self).found().len() == old(self).found().len() + missing_return_spans(input@).len()
                    && forall|m: int| 0 <= m < missing_return_spans(input@).len() ==> (#[trigger] final(self).found()[old(self).found().len() + m]).span
                        == missing_return_spans(input@)[m] && final(self).found()[old(self).found().len() + m].case is NoReturn,
    {
        let ghost entry = input@;
        let ghost mixed = forall|i: int| 0 <= i < entry.len() ==> #[trigger] strict_accepted(entry[i].stmt) || empty_typed_function(entry[i].stmt);
        let mut input = input;
        let mut stmts: Vec<crate::cir::Statement> = Vec::new();
        let n = input.len();
        let mut k: usize = 0;
        assert(input@ =~= entry.subrange(0, entry.len() as int));
        assert(entry.subrange(0, 0).len() == 0);
        while k < n
            invariant
                self.wf(),
                n == entry.len(),
                k <= n,
                input@ == entry.subrange(k as int, n as int),
                forall|i: int| 0 <= i < entry.len() ==> #[trigger] node_supported(entry[i]),
                forall|i: int| 0 <= i < entry.len() ==> !(#[trigger] entry[i].stmt is LetStatement || entry[i].stmt is VarStatement),
                self.errors@.len() >= old(self).errors@.len(),
                stmts@.len() + (self.errors@.len() - old(self).errors@.len()) == k,
                self.errors@.len() == old(self).errors@.len() ==> forall|i: int| 0 <= i < stmts@.len() ==> checked_as(entry[i], #[trigger] stmts@[i]),
                (forall|i: int| 0 <= i < entry.len() ==> #[trigger] strict_accepted(entry[i].stmt)) ==> self.errors@.len() == old(self).errors@.len(),
                self.errors@.subrange(0, old(self).errors@.len() as int) == old(self).errors@,
                mixed == (forall|i: int| 0 <= i < entry.len() ==> #[trigger] strict_accepted(entry[i].stmt) || empty_typed_function(entry[i].stmt)),
                mixed ==> self.errors@.len() == old(self).errors@.len() + missing_return_spans(entry.subrange(0, k as int)).len(),
                mixed ==> forall|m: int| 0 <= m < missing_return_spans(entry.subrange(0, k as int)).len()
                    ==> (#[trigger] self.errors@[old(self).errors@.len() + m]).span == missing_return_spans(entry.subrange(0, k as int))[m]
                    && self.errors@[old(self).errors@.len() + m].case is NoReturn,
            decreases n - k,
        {
            let node = input.remove(0);
            assert(node == entry[k as int]);
            assert(input@ =~= entry.subrange(k + 1, n as int));
            let ghost before = self.errors@;
            match self.typecheck_node(node, None) {
                Ok(s) => stmts.push(s),
                Err(e) => self.errors.push(e),
            }
            proof {
                let sub = entry.subrange(0, k + 1);
                assert(sub.subrange(0, k as int) =~= entry.subrange(0, k as int));
                assert(sub[k as int] == entry[k as int]);
                assert(self.errors@.subrange(0, old(self).errors@.len() as int) =~= before.subrange(0, old(self).errors@.len() as int));
                if mixed {
                    assert(strict_accepted(entry[k as int].stmt) || empty_typed_function(entry[k as int].stmt));
                    if empty_typed_function(entry[k as int].stmt) {
                        assert(!strict_accepted(entry[k as int].stmt));
                    }
                }
            }
            k = k + 1;
        }
        crate::cir::Program { nodes: stmts }
    }
}

} // verus!
