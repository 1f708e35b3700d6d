use vstd::prelude::*;
use crate::ast;
use crate::ast::{all_arrays_filled, all_field_arrays_filled, arrays_filled, node_arrays_filled, nodes_arrays_filled};
use crate::cir::{
    BinaryOperation, Enum, Expression, ExpressionData, ExpressionIdentity, FunctionHead, Intrinsic,
    Primitive, Struct, Typing, binop_from_ast, float_primitives, integer_primitives, primitive_name,
    is_primitive_among, primitive_of, signed_primitives, typing_display, typing_same, typing_size,
    typing_text, unsigned_primitives, expr_display, expr_text,
};
use crate::errors::{SemanticError, SemanticErrorCase};
use crate::span::Span;
use crate::text::str_eq;

verus! {

/// How a value of one type may stand where another is expected: as it is, through an
/// implicit cast, or not at all.
#[derive(Debug, PartialEq, Eq, Structural, Clone, Copy)]
pub enum Inference {
    Equal,
    Cast,
    Invalid,
}

/// A local variable: whether it may be assigned, and its type.
#[derive(Debug)]
pub struct Variable {
    pub mutable: bool,
    pub typing: Typing,
}

/// The local variables of one block, each name once.
#[derive(Debug)]
pub struct Scope {
    pub content: Vec<(String, Variable)>,
}

/// The names that a program has defined: its constants, structures, enumerations and
/// functions, each with where it was defined, and the scopes of the blocks being checked,
/// innermost last.
#[derive(Debug)]
pub struct Namespace {
    pub name: Option<String>,
    pub constants: Vec<(String, Span, Typing)>,
    pub structs: Vec<(String, Span, Struct)>,
    pub enums: Vec<(String, Span, Enum)>,
    pub functions: Vec<(String, Span, FunctionHead)>,
    pub locals: Vec<Scope>,
}

/// Where `name` is in a table, if it is there.
pub open spec fn find<T>(table: Seq<(String, Span, T)>, name: Seq<char>) -> Option<int> {
    if exists|i: int| 0 <= i < table.len() && #[trigger] table[i].0@ == name {
        Some(choose|i: int| 0 <= i < table.len() && #[trigger] table[i].0@ == name)
    } else {
        None
    }
}

/// Whether `n` names a function, an enumeration, a structure or a constant of `ns`.
pub open spec fn declared(ns: Namespace, n: Seq<char>) -> bool {
    ||| find(ns.functions@, n) is Some
    ||| find(ns.enums@, n) is Some
    ||| find(ns.structs@, n) is Some
    ||| find(ns.constants@, n) is Some
}

/// Whether every name that `a` declares, `b` declares too.
pub open spec fn names_kept(a: Namespace, b: Namespace) -> bool {
    forall|n: Seq<char>| #[trigger] declared(a, n) ==> declared(b, n)
}

/// The name that a statement declares, for a function, an extern function, a structure
/// or an enumeration.
pub open spec fn declaration_name(st: ast::Statement) -> Option<Seq<char>> {
    match st {
        ast::Statement::FnStatement(s) => Some(s.name@),
        ast::Statement::ExternFnStatement(s) => Some(s.name@),
        ast::Statement::StructStatement(s) => Some(s.name@),
        ast::Statement::EnumStatement(s) => Some(s.name@),
        _ => None,
    }
}

/// Whether a written type is built from primitive types by pointers and arrays alone.
pub open spec fn plain_type(t: ast::Type) -> bool
    decreases t,
{
    match t.typing {
        ast::Typing::Named { name, generic: _ } => primitive_of(name@) is Some,
        ast::Typing::Pointer { mutable: _, typ } => plain_type(*typ),
        ast::Typing::Array { typ, amount: _ } => plain_type(*typ),
        _ => false,
    }
}

/// Whether every field of a list has a plain type.
pub open spec fn plain_fields(fields: Seq<ast::TypedField>) -> bool {
    forall|i: int| 0 <= i < fields.len() ==> #[trigger] plain_type(fields[i].typing)
}

/// Whether a statement declares an enumeration, a structure whose fields have plain types,
/// or an extern function other than `main` whose arguments and result have plain types.
pub open spec fn header_declaration(st: ast::Statement) -> bool {
    match st {
        ast::Statement::EnumStatement(_) => true,
        ast::Statement::StructStatement(s) => plain_fields(s.fields@),
        ast::Statement::ExternFnStatement(s) => plain_fields(s.arguments@) && (s.ret matches Some(t) ==> plain_type(t))
            && s.name@ != "main"@,
        _ => false,
    }
}

/// Whether a program declares only enumerations, structures and extern functions with
/// plain types, each under a name of its own.
pub open spec fn headers_only(nodes: Seq<ast::Node>) -> bool {
    &&& forall|i: int| 0 <= i < nodes.len() ==> #[trigger] header_declaration(nodes[i].stmt)
    &&& forall|i: int, j: int| 0 <= i < j < nodes.len() ==> #[trigger] declaration_name(nodes[i].stmt) != #[trigger] declaration_name(nodes[j].stmt)
}

/// The name that a `let` or `var` statement binds to a value made of literals alone.
pub open spec fn literal_binding(st: ast::Statement) -> Option<Seq<char>> {
    match st {
        ast::Statement::LetStatement(s) => if literal_prim(s.assignment) is Some {
            Some(s.binding@)
        } else {
            None
        },
        ast::Statement::VarStatement(s) => if literal_prim(s.assignment) is Some {
            Some(s.binding@)
        } else {
            None
        },
        _ => None,
    }
}

/// Whether every statement of a block binds a value made of literals to a name of its own.
pub open spec fn let_only(nodes: Seq<ast::Node>) -> bool {
    &&& forall|i: int| 0 <= i < nodes.len() ==> #[trigger] literal_binding(nodes[i].stmt) is Some
    &&& forall|i: int, j: int| 0 <= i < j < nodes.len() ==> #[trigger] literal_binding(nodes[i].stmt) != #[trigger] literal_binding(nodes[j].stmt)
}

/// Whether a statement declares a function without arguments or result whose body binds
/// values made of literals to names of their own.
pub open spec fn simple_function(st: ast::Statement) -> bool {
    match st {
        ast::Statement::FnStatement(s) => s.arguments@.len() == 0 && s.ret is None && let_only(s.block.content@),
        _ => false,
    }
}

/// Whether a statement is a declaration that the checker accepts whatever its context,
/// where its name is new.
pub open spec fn accepted_declaration(st: ast::Statement) -> bool {
    header_declaration(st) || simple_function(st)
}

/// Whether a program declares only what `accepted_declaration` describes, each under a
/// name of its own.
pub open spec fn simple_program(nodes: Seq<ast::Node>) -> bool {
    &&& forall|i: int| 0 <= i < nodes.len() ==> #[trigger] accepted_declaration(nodes[i].stmt)
    &&& forall|i: int, j: int| 0 <= i < j < nodes.len() ==> #[trigger] declaration_name(nodes[i].stmt) != #[trigger] declaration_name(nodes[j].stmt)
}

/// Whether a function head is that of `fn f()`: no arguments, no result, not variadic,
/// not extern.
pub open spec fn plain_head(h: FunctionHead) -> bool {
    h.ret is Void && h.arguments@.len() == 0 && !h.variadic && !h.extrn
}

/// Whether a table holds a function of that name with a plain head.
pub open spec fn declares_plain_fn(functions: Seq<(String, Span, FunctionHead)>, name: Seq<char>) -> bool {
    find(functions, name) matches Some(i) && plain_head(functions[i].2)
}

/// The variable that `name` denotes in the scopes: the first binding of that name in the
/// innermost scope that binds it.
pub open spec fn local_variable(scopes: Seq<Scope>, name: Seq<char>) -> Option<Variable> {
    match find_local(scopes, name) {
        Some((a, _)) => {
            let c = scopes[a].content@;
            Some(c[choose|k: int| 0 <= k < c.len() && #[trigger] c[k].0@ == name && forall|m: int| 0 <= m < k ==> c[m].0@ != name].1)
        },
        None => None,
    }
}

/// The primitive type and the kind of value of an operand made of literals, or of a name
/// that denotes a local variable of a primitive type (where no constant, function or
/// intrinsic function has that name).
pub open spec fn operand_prim(e: ast::Expression, ns: Namespace) -> Option<(Primitive, ExpressionIdentity)> {
    match e.data {
        ast::ExpressionData::Identifier { name } => if find(ns.constants@, name@) is None && find(ns.functions@, name@) is None
            && crate::cir::intrinsic_of(name@) is None {
            match local_variable(ns.locals@, name@) {
                Some(v) => match v.typing {
                    Typing::Primitive(p) => Some((p, ExpressionIdentity::Locatable(v.mutable))),
                    _ => None,
                },
                None => None,
            }
        } else {
            None
        },
        _ => match literal_prim(e) {
            Some(p) => Some((p, ExpressionIdentity::Immediate)),
            None => None,
        },
    }
}

/// What a binary operation gives, from the types of its operands and the kind of value of
/// its left operand: a mismatch where the right operand cannot stand for the left one; the
/// left operand's type for arithmetic and bitwise operations; `bool` for comparisons and
/// logical operations; for an assignment, `void` where the left operand may be assigned,
/// and a refusal where it is immutable or no place at all.
pub open spec fn binop_outcome(op: BinaryOperation, lt: Typing, lid: ExpressionIdentity, rt: Typing, span: Span, r: Result<TypedExpression, SemanticError>) -> bool {
    if inference_of(rt, lt) == Inference::Invalid {
        r matches Err(e) && is_mismatch(e, span, typing_display(rt), typing_display(lt))
    } else if binop_result_kind(op) == 0 {
        r matches Ok(t) && typing_same(lt, t.1) && t.0.identity == ExpressionIdentity::Immediate
    } else if binop_result_kind(op) == 1 {
        r matches Ok(t) && t.1 matches Typing::Primitive(Primitive::Bool) && t.0.identity == ExpressionIdentity::Immediate
    } else {
        match lid {
            ExpressionIdentity::Locatable(false) => r matches Err(e) && e.span == span && e.case is AssignImmutable,
            ExpressionIdentity::Immediate => r matches Err(e) && e.span == span
                && (e.case matches SemanticErrorCase::InvalidExpression { should, .. } && should@ == "valid left-hand-side operand"@),
            _ => r matches Ok(t) && t.1 is Void && t.0.identity == ExpressionIdentity::Immediate,
        }
    }
}

/// The type behind any number of pointers.
pub open spec fn pointee_all(t: Typing) -> Typing
    decreases t,
{
    match t {
        Typing::Pointer { typ, .. } => pointee_all(*typ),
        _ => t,
    }
}

/// Types that are the same have the same type behind their pointers.
proof fn lemma_pointee_all_same(a: Typing, b: Typing)
    requires
        typing_same(a, b),
    ensures
        typing_same(pointee_all(a), pointee_all(b)),
    decreases a,
{
    match (a, b) {
        (Typing::Pointer { typ, .. }, Typing::Pointer { typ: t2, .. }) => lemma_pointee_all_same(*typ, *t2),
        _ => {},
    }
}

/// The type that the checker gives an expression that it accepts, as the types of its parts
/// decide it: `None` for a tuple, a function used as a value, the address of anything but a
/// local variable, a cast to a type other than a named one, and where a name, a member or a
/// pointer is missing.
pub open spec fn expr_typing(e: ast::Expression, ns: Namespace) -> Option<Typing>
    decreases e,
{
    match e.data {
        ast::ExpressionData::IntegerLiteral { .. } => Some(Typing::Primitive(Primitive::UInt)),
        ast::ExpressionData::BooleanLiteral { .. } => Some(Typing::Primitive(Primitive::Bool)),
        ast::ExpressionData::CharacterLiteral { .. } => Some(Typing::Primitive(Primitive::Char)),
        ast::ExpressionData::FloatLiteral { .. } => Some(Typing::Primitive(Primitive::Float)),
        ast::ExpressionData::StrLiteral { .. } => Some(Typing::Primitive(Primitive::Str)),
        ast::ExpressionData::StringLiteral { .. } => Some(Typing::Primitive(Primitive::Str)),
        ast::ExpressionData::CStrLiteral { .. } => Some(Typing::Primitive(Primitive::Str)),
        ast::ExpressionData::Identifier { name } => match find(ns.constants@, name@) {
            Some(i) => Some(ns.constants@[i].2),
            None => if find(ns.functions@, name@) is Some {
                None
            } else {
                match crate::cir::intrinsic_of(name@) {
                    Some(i) => Some(Typing::Intrinsic(i)),
                    None => match local_variable(ns.locals@, name@) {
                        Some(v) => Some(v.typing),
                        None => None,
                    },
                }
            },
        },
        ast::ExpressionData::BinaryOperation { operator, left, right: _ } => if binop_result_kind(binop_from_ast(operator)) == 0 {
            expr_typing(*left, ns)
        } else if binop_result_kind(binop_from_ast(operator)) == 1 {
            Some(Typing::Primitive(Primitive::Bool))
        } else {
            Some(Typing::Void)
        },
        ast::ExpressionData::UnaryOperation { operator, operand } => match crate::cir::unop_from_ast(operator) {
            crate::cir::UnaryOperation::Addr => match operand.data {
                ast::ExpressionData::Identifier { name } => if find(ns.constants@, name@) is None && find(ns.functions@, name@) is None
                    && crate::cir::intrinsic_of(name@) is None {
                    match local_variable(ns.locals@, name@) {
                        Some(v) => Some(Typing::Pointer { mutable: v.mutable, typ: Box::new(v.typing) }),
                        None => None,
                    }
                } else {
                    None
                },
                _ => None,
            },
            crate::cir::UnaryOperation::Neg => match expr_typing(*operand, ns) {
                Some(Typing::Primitive(p)) => match crate::cir::signed_counterpart(p) {
                    Some(q) => Some(Typing::Primitive(q)),
                    None => Some(Typing::Primitive(p)),
                },
                _ => None,
            },
            crate::cir::UnaryOperation::Deref => match expr_typing(*operand, ns) {
                Some(Typing::Pointer { typ, .. }) => Some(*typ),
                _ => None,
            },
            _ => expr_typing(*operand, ns),
        },
        ast::ExpressionData::Cast { expr: _, typ } => match typ.typing {
            ast::Typing::Named { name, generic: _ } => match primitive_of(name@) {
                Some(p) => Some(Typing::Primitive(p)),
                None => match find(ns.enums@, name@) {
                    Some(i) => Some(Typing::Enum(ns.enums@[i].2)),
                    None => match find(ns.structs@, name@) {
                        Some(i) => Some(Typing::Struct(ns.structs@[i].2)),
                        None => None,
                    },
                },
            },
            _ => None,
        },
        ast::ExpressionData::Array { exprs, amount } => if exprs@.len() > 0 {
            match expr_typing(exprs@[0], ns) {
                Some(t) => Some(Typing::Array { typ: Box::new(t), amount }),
                None => None,
            }
        } else {
            None
        },
        ast::ExpressionData::TupleAccess { origin, field } => match origin.data {
            ast::ExpressionData::Tuple { exprs } => if field < exprs@.len() {
                expr_typing(exprs@[field as int], ns)
            } else {
                None
            },
            _ => match expr_typing(*origin, ns) {
                Some(Typing::Tuple { types }) => if field < types@.len() {
                    Some(types@[field as int])
                } else {
                    None
                },
                _ => None,
            },
        },
        ast::ExpressionData::Subscript { origin, inner: _ } => match expr_typing(*origin, ns) {
            Some(Typing::Array { typ, .. }) => Some(*typ),
            _ => None,
        },
        ast::ExpressionData::FieldAccess { origin, field } => {
            let enum_name = match origin.data {
                ast::ExpressionData::Identifier { name } => find(ns.enums@, name@),
                _ => None,
            };
            match enum_name {
                Some(k) => Some(Typing::Enum(ns.enums@[k].2)),
                None => match expr_typing(*origin, ns) {
                    Some(t) => match pointee_all(t) {
                        Typing::Struct(st) => crate::cir::field_typing(st.fields@, field@),
                        _ => None,
                    },
                    None => None,
                },
            }
        },
        ast::ExpressionData::FunctionCall { function, arguments: _ } => match function.data {
            ast::ExpressionData::Identifier { name } => if find(ns.constants@, name@) is None {
                match find(ns.functions@, name@) {
                    Some(i) => Some(ns.functions@[i].2.ret),
                    None => match crate::cir::intrinsic_of(name@) {
                        Some(_) => Some(Typing::Void),
                        None => None,
                    },
                }
            } else {
                None
            },
            _ => None,
        },
        ast::ExpressionData::StructInit { name, fields: _ } => match find(ns.structs@, name@) {
            Some(i) => Some(Typing::Struct(ns.structs@[i].2)),
            None => None,
        },
        _ => None,
    }
}

/// Whether `after` is `before` with `name` bound to a variable of that mutability and of
/// the same type as `typing`.
pub open spec fn binds_var(before: Seq<(String, Variable)>, after: Seq<(String, Variable)>, name: String, mutable: bool, typing: Typing) -> bool {
    exists|v: Variable| v.mutable == mutable && typing_same(typing, v.typing) && #[trigger] with_binding(before, name, v) == after
}

/// Whether an argument that the checker types as a primitive cannot stand for its parameter.
pub open spec fn bad_argument(arg: ast::Expression, param: Typing, ns: Namespace) -> bool {
    expr_typing(arg, ns) matches Some(Typing::Primitive(p)) && inference_of(Typing::Primitive(p), param) == Inference::Invalid
}

/// Whether some argument of a call cannot stand for its parameter.
pub open spec fn some_bad_argument(args: Seq<ast::Expression>, params: Seq<Typing>, ns: Namespace) -> bool {
    exists|k: int| 0 <= k < args.len() && k < params.len() && #[trigger] bad_argument(args[k], params[k], ns)
}

/// Whether a primitive can stand for types that are the same just as well.
proof fn lemma_inference_into_same(p: Primitive, a: Typing, b: Typing)
    requires
        typing_same(a, b),
    ensures
        inference_of(Typing::Primitive(p), a) == inference_of(Typing::Primitive(p), b),
{
    if a is Primitive {
        assert(a == b);
    }
}

/// What a call of a function named by its callee gives, as far as the function's signature
/// decides it: its result type where it takes no argument and none is given; a refusal
/// where too few or too many arguments are given, or where an argument cannot stand for
/// its parameter.
pub open spec fn call_result(call: ast::Expression, ns: Namespace, r: Result<TypedExpression, SemanticError>) -> bool {
    match call.data {
        ast::ExpressionData::FunctionCall { function, arguments: given } => match function.data {
            ast::ExpressionData::Identifier { name } => find(ns.constants@, name@) is None ==> match find(ns.functions@, name@) {
                Some(i) => {
                    let f = ns.functions@[i].2;
                    &&& given@.len() == 0 && f.arguments@.len() == 0 ==> (r matches Ok(t) && typing_same(f.ret, t.1)
                        && t.0.identity == ExpressionIdentity::Immediate)
                    &&& given@.len() < f.arguments@.len() ==> (r matches Err(e) && e.span == function.span
                        && (e.case matches SemanticErrorCase::UnmatchedArguments { got, expected, too_much, .. }
                        && got == given@.len() && expected == f.arguments@.len() && !too_much))
                    &&& given@.len() > f.arguments@.len() && !f.variadic ==> (r matches Err(e) && e.span == function.span
                        && (e.case matches SemanticErrorCase::UnmatchedArguments { got, expected, too_much, .. }
                        && got == given@.len() && expected == f.arguments@.len() && too_much))
                    &&& some_bad_argument(given@, f.arguments@.map_values(|a: crate::cir::TypedField| a.typing), ns) ==> r is Err
                },
                None => true,
            },
            _ => true,
        },
        _ => true,
    }
}

/// Whether the node at `i` declares a name that a node before it declares.
pub open spec fn redeclares(nodes: Seq<ast::Node>, i: int) -> bool {
    declaration_name(nodes[i].stmt) is Some && exists|j: int| 0 <= j < i && #[trigger] declaration_name(nodes[j].stmt) == declaration_name(nodes[i].stmt)
}

/// The spans of the nodes that declare a name that a node before them declares, in order.
pub open spec fn redeclared_spans(nodes: Seq<ast::Node>) -> Seq<Span>
    decreases nodes.len(),
{
    if nodes.len() == 0 {
        Seq::empty()
    } else if redeclares(nodes, nodes.len() - 1) {
        redeclared_spans(nodes.subrange(0, nodes.len() - 1)).push(nodes[nodes.len() - 1].span)
    } else {
        redeclared_spans(nodes.subrange(0, nodes.len() - 1))
    }
}

/// Whether every node declares what `accepted_declaration` describes; a name may be
/// declared more than once.
pub open spec fn declarations_only(nodes: Seq<ast::Node>) -> bool {
    forall|i: int| 0 <= i < nodes.len() ==> #[trigger] accepted_declaration(nodes[i].stmt)
}

/// Whether every node declares what `header_declaration` describes.
pub open spec fn all_headers(nodes: Seq<ast::Node>) -> bool {
    forall|i: int| 0 <= i < nodes.len() ==> #[trigger] header_declaration(nodes[i].stmt)
}

/// Where no name is declared twice, no node declares a name again.
proof fn lemma_no_redeclared(nodes: Seq<ast::Node>)
    requires
        forall|i: int, j: int| 0 <= i < j < nodes.len() ==> #[trigger] declaration_name(nodes[i].stmt) != #[trigger] declaration_name(nodes[j].stmt),
    ensures
        redeclared_spans(nodes).len() == 0,
    decreases nodes.len(),
{
    if nodes.len() > 0 {
        let init = nodes.subrange(0, nodes.len() - 1);
        assert forall|i: int, j: int| 0 <= i < j < init.len() implies #[trigger] declaration_name(init[i].stmt) != #[trigger] declaration_name(init[j].stmt) by {
            assert(init[i] == nodes[i] && init[j] == nodes[j]);
        }
        lemma_no_redeclared(init);
        assert(!redeclares(nodes, nodes.len() - 1));
    }
}

/// Whether the value of a field of a structure literal cannot stand for the field it
/// names.
pub open spec fn bad_field(declared_fields: Seq<crate::cir::TypedField>, f: ast::Field, ns: Namespace) -> bool {
    crate::cir::field_typing(declared_fields, f.name@) matches Some(ft) && bad_argument(f.value, ft, ns)
}

/// What a structure literal gives: a refusal where the structure is unknown, where a field
/// is not one of the structure's, or where a value cannot stand for its field.
pub open spec fn struct_init_result(init: ast::Expression, ns: Namespace, r: Result<TypedExpression, SemanticError>) -> bool {
    match init.data {
        ast::ExpressionData::StructInit { name, fields } => match find(ns.structs@, name@) {
            None => r matches Err(e) && e.span == init.span && (e.case matches SemanticErrorCase::UnresolvedName { name: n } && n@ == name@),
            Some(i) => {
                let declared_fields = ns.structs@[i].2.fields@;
                &&& (exists|k: int| 0 <= k < fields@.len() && #[trigger] crate::cir::field_typing(declared_fields, fields@[k].name@) is None) ==> r is Err
                &&& (exists|k: int| 0 <= k < fields@.len() && #[trigger] bad_field(declared_fields, fields@[k], ns)) ==> r is Err
            },
        },
        _ => true,
    }
}

/// Whether no binding of a scope has that name.
pub open spec fn fresh_in(scope: Seq<(String, Variable)>, n: Seq<char>) -> bool {
    forall|m: int| 0 <= m < scope.len() ==> #[trigger] scope[m].0@ != n
}

/// Where `find` finds a name, the table has it.
pub proof fn lemma_find_some<T>(t: Seq<(String, Span, T)>, n: Seq<char>)
    ensures
        find(t, n) matches Some(i) ==> 0 <= i < t.len() && t[i].0@ == n,
        find(t, n) is None ==> forall|i: int| 0 <= i < t.len() ==> #[trigger] t[i].0@ != n,
{
}

/// Binding one name keeps every other name absent.
proof fn lemma_with_binding_fresh(s: Seq<(String, Variable)>, name: String, v: Variable, n: Seq<char>)
    requires
        n != name@,
        fresh_in(s, n),
    ensures
        fresh_in(with_binding(s, name, v), n),
{
    if exists|k: int| 0 <= k < s.len() && #[trigger] s[k].0@ == name@ && forall|m: int| 0 <= m < k ==> s[m].0@ != name@ {
        let c = choose|k: int| 0 <= k < s.len() && #[trigger] s[k].0@ == name@ && forall|m: int| 0 <= m < k ==> s[m].0@ != name@;
        let w = s.update(c, (name, v));
        assert(with_binding(s, name, v) == w);
        assert forall|m: int| 0 <= m < w.len() implies #[trigger] w[m].0@ != n by {
            if m != c {
                assert(w[m] == s[m]);
            }
        }
    } else {
        let w = s.push((name, v));
        assert(with_binding(s, name, v) == w);
        assert forall|m: int| 0 <= m < w.len() implies #[trigger] w[m].0@ != n by {
            if m < s.len() {
                assert(w[m] == s[m]);
            }
        }
    }
}

/// In a single scope that lacks a name, no scope declares it.
proof fn lemma_find_local_single(scopes: Seq<Scope>, n: Seq<char>)
    requires
        scopes.len() == 1,
        fresh_in(scopes[0].content@, n),
    ensures
        find_local(scopes, n) is None,
{
    let last = scopes[0].content@;
    assert(!(exists|k: int| 0 <= k < last.len() && #[trigger] last[k].0@ == n));
    assert(scopes.subrange(0, 0).len() == 0);
    reveal_with_fuel(find_local, 2);
}

/// Whether every name of a table is there once.
pub open spec fn names_unique<T>(table: Seq<(String, Span, T)>) -> bool {
    forall|i: int, j: int|
        0 <= i < table.len() && 0 <= j < table.len() && #[trigger] table[i].0@ == #[trigger] table[j].0@
            ==> i == j
}

/// Finds `name` in a table.
pub(crate) fn lookup<T>(table: &Vec<(String, Span, T)>, name: &str) -> (r: Option<usize>)
    ensures
        match r {
            Some(i) => i < table@.len() && table@[i as int].0@ == name@,
            None => find(table@, name@) is None,
        },
        names_unique(table@) ==> r == match find(table@, name@) {
            Some(i) => Some(i as usize),
            None => None::<usize>,
        },
{
    let mut i: usize = 0;
    while i < table.len()
        invariant
            i <= table@.len(),
            forall|k: int| 0 <= k < i ==> #[trigger] table@[k].0@ != name@,
        decreases table@.len() - i,
    {
        if str_eq(table[i].0.as_str(), name) {
            return Some(i);
        }
        i = i + 1;
    }
    None
}

/// Adds or replaces the entry of `name` in a table.
pub(crate) fn insert<T>(table: &mut Vec<(String, Span, T)>, name: String, span: Span, item: T)
    requires
        names_unique(old(table)@),
    ensures
        names_unique(final(table)@),
        find(final(table)@, name@) is Some,
        ({
            let i = find(final(table)@, name@)->0;
            final(table)@[i].0@ == name@ && final(table)@[i].1 == span && final(table)@[i].2 == item
        }),
        forall|n: Seq<char>| n != name@ ==> #[trigger] find(final(table)@, n) == find(old(table)@, n),
        forall|i: int| 0 <= i < old(table)@.len() && old(table)@[i].0@ != name@ ==> #[trigger] final(table)@[i] == old(table)@[i],
        final(table)@.len() >= old(table)@.len(),
{
    match lookup(table, name.as_str()) {
        Some(i) => {
            let ghost before = table@;
            table.set(i, (name, span, item));
            proof {
                assert forall|a: int, b: int|
                    0 <= a < table@.len() && 0 <= b < table@.len() && #[trigger] table@[a].0@
                        == #[trigger] table@[b].0@ implies a == b by {
                    if a != i && b != i {
                        assert(before[a].0@ == before[b].0@);
                    }
                }
                assert(table@[i as int].0@ == name@);
                assert forall|n: Seq<char>| n != name@ implies #[trigger] find(table@, n) == find(
                    before,
                    n,
                ) by {
                    if exists|k: int| 0 <= k < table@.len() && #[trigger] table@[k].0@ == n {
                        let k = choose|k: int| 0 <= k < table@.len() && #[trigger] table@[k].0@ == n;
                        assert(before[k].0@ == n);
                    }
                    if exists|k: int| 0 <= k < before.len() && #[trigger] before[k].0@ == n {
                        let k = choose|k: int| 0 <= k < before.len() && #[trigger] before[k].0@ == n;
                        assert(table@[k].0@ == n);
                    }
                }
            }
        },
        None => {
            let ghost before = table@;
            table.push((name, span, item));
            proof {
                let last = (table@.len() - 1) as int;
                assert(table@[last].0@ == name@);
                assert forall|a: int, b: int|
                    0 <= a < table@.len() && 0 <= b < table@.len() && #[trigger] table@[a].0@
                        == #[trigger] table@[b].0@ implies a == b by {
                    if a < last && b < last {
                        assert(before[a].0@ == before[b].0@);
                    } else if a < last {
                        assert(before[a].0@ == name@);
                    } else if b < last {
                        assert(before[b].0@ == name@);
                    }
                }
                assert forall|n: Seq<char>| n != name@ implies #[trigger] find(table@, n) == find(
                    before,
                    n,
                ) by {
                    if exists|k: int| 0 <= k < table@.len() && #[trigger] table@[k].0@ == n {
                        let k = choose|k: int| 0 <= k < table@.len() && #[trigger] table@[k].0@ == n;
                        assert(k < last);
                        assert(before[k].0@ == n);
                    }
                    if exists|k: int| 0 <= k < before.len() && #[trigger] before[k].0@ == n {
                        let k = choose|k: int| 0 <= k < before.len() && #[trigger] before[k].0@ == n;
                        assert(table@[k].0@ == n);
                    }
                }
            }
        },
    }
}

/// How a value of type `from` may stand where a value of type `into` is expected.
///
/// An unsigned integer widens to an unsigned type at least as large, and to a signed or
/// floating type at least twice as large; a signed integer widens to a signed or floating
/// type at least as large; a `char` becomes a `u32`, a `u8` a `char`, and a mutable pointer
/// an immutable one.
pub open spec fn inference_of(from: Typing, into: Typing) -> Inference {
    if typing_same(from, into) {
        Inference::Equal
    } else {
        let x = typing_size(from) as int;
        let y = typing_size(into) as int;
        let unsigned_cast = is_primitive_among(from, unsigned_primitives()) && (((is_primitive_among(
            into,
            signed_primitives(),
        ) || is_primitive_among(into, float_primitives())) && y >= 2 * x) || (is_primitive_among(
            into,
            unsigned_primitives(),
        ) && y >= x));
        let signed_cast = is_primitive_among(from, signed_primitives()) && (is_primitive_among(
            into,
            float_primitives(),
        ) || is_primitive_among(into, signed_primitives())) && y >= x;
        let special = (from matches Typing::Primitive(Primitive::Char) && into matches Typing::Primitive(
            Primitive::U32,
        )) || (from matches Typing::Primitive(Primitive::U8) && into matches Typing::Primitive(
            Primitive::Char,
        )) || (from matches Typing::Pointer { mutable: true, .. } && into matches Typing::Pointer {
            mutable: false,
            ..
        });
        if unsigned_cast || signed_cast || special {
            Inference::Cast
        } else {
            Inference::Invalid
        }
    }
}

/// Whether a value of type `origin` may be cast explicitly to type `into`: where it may
/// stand for it, between integers, floats and booleans (a boolean only into an integer),
/// and from `char` to `u8`.
pub open spec fn cast_allowed(origin: Typing, into: Typing) -> bool {
    let numeric_into = into matches Typing::Primitive(Primitive::Bool) || is_primitive_among(
        into,
        integer_primitives(),
    ) || is_primitive_among(into, float_primitives());
    inference_of(origin, into) != Inference::Invalid || (is_primitive_among(
        origin,
        integer_primitives(),
    ) && numeric_into) || (is_primitive_among(origin, float_primitives()) && numeric_into) || (
    origin matches Typing::Primitive(Primitive::Bool) && is_primitive_among(
        into,
        integer_primitives(),
    )) || (origin matches Typing::Primitive(Primitive::Char) && into matches Typing::Primitive(
        Primitive::U8,
    ))
}

/// The type of the result of a binary operation whose left operand has type `lhs`:
/// arithmetic and bitwise operators keep it, comparisons and logic give `bool`, and
/// assignments give nothing.
pub open spec fn binop_result_kind(op: BinaryOperation) -> int {
    match op {
        BinaryOperation::Add | BinaryOperation::Sub | BinaryOperation::Mul | BinaryOperation::Div
        | BinaryOperation::Mod | BinaryOperation::BAnd | BinaryOperation::BOr
        | BinaryOperation::BXor | BinaryOperation::LShift | BinaryOperation::RShift => 0,
        BinaryOperation::Eq | BinaryOperation::Ne | BinaryOperation::Lt | BinaryOperation::Le
        | BinaryOperation::Gt | BinaryOperation::Ge | BinaryOperation::And | BinaryOperation::Or => 1,
        _ => 2,
    }
}

/// A checked expression and its type.
pub type TypedExpression = (Expression, Typing);

/// Whether `e` reports, at `span`, that a value of type `got` stood where `expected` was wanted.
pub open spec fn is_mismatch(e: SemanticError, span: Span, got: Seq<char>, expected: Seq<char>) -> bool {
    &&& e.span == span
    &&& match e.case {
        SemanticErrorCase::TypeMismatch { got: g, expected: x } => g@ == got && x@ == expected,
        _ => false,
    }
}




proof fn lemma_all_arrays_filled(s: Seq<ast::Expression>, i: int)
    requires
        all_arrays_filled(s),
        0 <= i < s.len(),
    ensures
        arrays_filled(s[i]),
    decreases s.len(),
{
    if i < s.len() - 1 {
        lemma_all_arrays_filled(s.subrange(0, s.len() - 1), i);
    }
}

proof fn lemma_all_field_arrays_filled(s: Seq<ast::Field>, i: int)
    requires
        all_field_arrays_filled(s),
        0 <= i < s.len(),
    ensures
        arrays_filled(s[i].value),
    decreases s.len(),
{
    if i < s.len() - 1 {
        lemma_all_field_arrays_filled(s.subrange(0, s.len() - 1), i);
    }
}

/// Where the innermost scope that declares `name` declares it, if one does.
/// A list of bindings with `name` bound to `v`: the first binding of that name is replaced,
/// or, where there is none, the binding is added at the end.
pub open spec fn with_binding<V>(s: Seq<(String, V)>, name: String, v: V) -> Seq<(String, V)> {
    if exists|k: int| 0 <= k < s.len() && #[trigger] s[k].0@ == name@ && forall|m: int| 0 <= m < k ==> s[m].0@ != name@ {
        s.update(choose|k: int| 0 <= k < s.len() && #[trigger] s[k].0@ == name@ && forall|m: int| 0 <= m < k ==> s[m].0@ != name@, (name, v))
    } else {
        s.push((name, v))
    }
}

/// The first binding of `name` found at index `k` of `s` is where `with_binding` binds.
pub proof fn lemma_with_binding_at<V>(s: Seq<(String, V)>, name: String, v: V, k: int)
    requires
        0 <= k < s.len(),
        s[k].0@ == name@,
        forall|m: int| 0 <= m < k ==> s[m].0@ != name@,
    ensures
        with_binding(s, name, v) == s.update(k, (name, v)),
{
    let c = choose|c: int| 0 <= c < s.len() && #[trigger] s[c].0@ == name@ && forall|m: int| 0 <= m < c ==> s[m].0@ != name@;
    assert(0 <= c < s.len() && s[c].0@ == name@ && forall|m: int| 0 <= m < c ==> s[m].0@ != name@);
    if c < k {
        assert(s[c].0@ != name@);
    } else if c > k {
        assert(s[k].0@ != name@);
    }
}

pub open spec fn find_local(scopes: Seq<Scope>, name: Seq<char>) -> Option<(int, int)>
    decreases scopes.len(),
{
    if scopes.len() == 0 {
        None
    } else {
        let last = scopes[scopes.len() - 1].content@;
        if exists|k: int| 0 <= k < last.len() && #[trigger] last[k].0@ == name {
            Some(((scopes.len() - 1) as int, choose|k: int| 0 <= k < last.len() && #[trigger] last[k].0@ == name))
        } else {
            find_local(scopes.subrange(0, scopes.len() - 1), name)
        }
    }
}



proof fn lemma_nodes_arrays_filled(s: Seq<ast::Node>)
    requires
        nodes_arrays_filled(s),
    ensures
        forall|i: int| 0 <= i < s.len() ==> #[trigger] node_arrays_filled(s[i]),
    decreases s.len(),
{
    if s.len() > 0 {
        lemma_nodes_arrays_filled(s.subrange(0, s.len() - 1));
        assert forall|i: int| 0 <= i < s.len() implies #[trigger] node_arrays_filled(s[i]) by {
            if i < s.len() - 1 {
                assert(s.subrange(0, s.len() - 1)[i] == s[i]);
            }
        }
    }
}

/// Whether every array literal in an expression has an element.
pub fn expr_arrays_filled(e: &ast::Expression) -> (r: bool)
    ensures
        r == arrays_filled(*e),
    decreases e, 0nat,
{
    match &e.data {
        ast::ExpressionData::BinaryOperation { operator: _, left, right } => expr_arrays_filled(left) && expr_arrays_filled(right),
        ast::ExpressionData::UnaryOperation { operator: _, operand } => expr_arrays_filled(operand),
        ast::ExpressionData::Subscript { origin, inner } => expr_arrays_filled(origin) && expr_arrays_filled(inner),
        ast::ExpressionData::Cast { expr, typ: _ } => expr_arrays_filled(expr),
        ast::ExpressionData::FieldAccess { origin, field: _ } => expr_arrays_filled(origin),
        ast::ExpressionData::Tuple { exprs } => {
            proof {
                assert(decreases_to!(*e => e.data));
                assert(decreases_to!(e.data => e.data->Tuple_exprs));
            }
            list_arrays_filled(exprs)
        },
        ast::ExpressionData::TupleAccess { origin, field: _ } => expr_arrays_filled(origin),
        ast::ExpressionData::Array { exprs, amount: _ } => {
            proof {
                assert(decreases_to!(*e => e.data));
                assert(decreases_to!(e.data => e.data->Array_exprs));
            }
            exprs.len() > 0 && list_arrays_filled(exprs)
        },
        ast::ExpressionData::FunctionCall { function, arguments } => {
            proof {
                assert(decreases_to!(*e => e.data));
                assert(decreases_to!(e.data => e.data->FunctionCall_arguments));
            }
            expr_arrays_filled(function) && list_arrays_filled(arguments)
        },
        ast::ExpressionData::StructInit { name: _, fields } => {
            proof {
                assert(decreases_to!(*e => e.data));
                assert(decreases_to!(e.data => e.data->StructInit_fields));
            }
            field_arrays_filled(fields)
        },
        _ => true,
    }
}

/// Whether every array literal in a list of expressions has an element.
pub fn list_arrays_filled(s: &Vec<ast::Expression>) -> (r: bool)
    ensures
        r == all_arrays_filled(s@),
    decreases s, 1nat,
{
    let mut i: usize = 0;
    proof {
        assert(s@.subrange(0, 0).len() == 0);
    }
    while i < s.len()
        invariant
            i <= s@.len(),
            all_arrays_filled(s@.subrange(0, i as int)),
        decreases s@.len() - i,
    {
        proof {
            assert(decreases_to!(*s => s@));
            assert(decreases_to!(s@ => s@[i as int]));
        }
        let ok = expr_arrays_filled(&s[i]);
        proof {
            let t = s@.subrange(0, i + 1);
            assert(t.subrange(0, t.len() - 1) =~= s@.subrange(0, i as int));
            assert(t[t.len() - 1] == s@[i as int]);
        }
        if !ok {
            proof {
                lemma_all_arrays_filled_prefix(s@, i + 1);
            }
            return false;
        }
        i = i + 1;
    }
    proof {
        assert(s@.subrange(0, s@.len() as int) =~= s@);
    }
    true
}

proof fn lemma_all_arrays_filled_prefix(s: Seq<ast::Expression>, j: int)
    requires
        0 <= j <= s.len(),
        !all_arrays_filled(s.subrange(0, j)),
    ensures
        !all_arrays_filled(s),
    decreases s.len(),
{
    if j < s.len() {
        let prefix = s.subrange(0, s.len() - 1);
        assert(prefix.subrange(0, j) =~= s.subrange(0, j));
        lemma_all_arrays_filled_prefix(prefix, j);
    } else {
        assert(s.subrange(0, j) =~= s);
    }
}

/// Whether every array literal in the values of a list of fields has an element.
pub fn field_arrays_filled(s: &Vec<ast::Field>) -> (r: bool)
    ensures
        r == all_field_arrays_filled(s@),
    decreases s, 1nat,
{
    let mut i: usize = 0;
    proof {
        assert(s@.subrange(0, 0).len() == 0);
    }
    while i < s.len()
        invariant
            i <= s@.len(),
            all_field_arrays_filled(s@.subrange(0, i as int)),
        decreases s@.len() - i,
    {
        proof {
            assert(decreases_to!(*s => s@));
            assert(decreases_to!(s@ => s@[i as int]));
            assert(decreases_to!(s@[i as int] => s@[i as int].value));
        }
        let ok = expr_arrays_filled(&s[i].value);
        proof {
            let t = s@.subrange(0, i + 1);
            assert(t.subrange(0, t.len() - 1) =~= s@.subrange(0, i as int));
            assert(t[t.len() - 1] == s@[i as int]);
        }
        if !ok {
            proof {
                lemma_all_field_arrays_filled_prefix(s@, i + 1);
            }
            return false;
        }
        i = i + 1;
    }
    proof {
        assert(s@.subrange(0, s@.len() as int) =~= s@);
    }
    true
}

proof fn lemma_all_field_arrays_filled_prefix(s: Seq<ast::Field>, j: int)
    requires
        0 <= j <= s.len(),
        !all_field_arrays_filled(s.subrange(0, j)),
    ensures
        !all_field_arrays_filled(s),
    decreases s.len(),
{
    if j < s.len() {
        let prefix = s.subrange(0, s.len() - 1);
        assert(prefix.subrange(0, j) =~= s.subrange(0, j));
        lemma_all_field_arrays_filled_prefix(prefix, j);
    } else {
        assert(s.subrange(0, j) =~= s);
    }
}

/// Whether every array literal in a statement has an element.
pub fn node_filled(n: &ast::Node) -> (r: bool)
    ensures
        r == node_arrays_filled(*n),
    decreases n, 0nat,
{
    match &n.stmt {
        ast::Statement::LetStatement(st) => expr_arrays_filled(&st.assignment),
        ast::Statement::VarStatement(st) => expr_arrays_filled(&st.assignment),
        ast::Statement::ConstStatement(st) => expr_arrays_filled(&st.assignment),
        ast::Statement::FnStatement(st) => {
            proof {
                assert(decreases_to!(*n => n.stmt));
                assert(decreases_to!(n.stmt => n.stmt->FnStatement_0));
            }
            nodes_filled(&st.block.content)
        },
        ast::Statement::IfStatement(st) => {
            proof {
                assert(decreases_to!(*n => n.stmt));
                assert(decreases_to!(n.stmt => n.stmt->IfStatement_0));
            }
            expr_arrays_filled(&st.condition) && nodes_filled(&st.block_true.content) && match &st.block_false {
                Some(b) => nodes_filled(&b.content),
                None => true,
            }
        },
        ast::Statement::WhileStatement(st) => {
            proof {
                assert(decreases_to!(*n => n.stmt));
                assert(decreases_to!(n.stmt => n.stmt->WhileStatement_0));
            }
            expr_arrays_filled(&st.condition) && nodes_filled(&st.block.content)
        },
        ast::Statement::ExpressionStatement(e) => expr_arrays_filled(e),
        ast::Statement::ReturnStatement(st) => match &st.expr {
            Some(e) => expr_arrays_filled(e),
            None => true,
        },
        _ => true,
    }
}

/// Whether every array literal in a list of statements has an element.
pub fn nodes_filled(s: &Vec<ast::Node>) -> (r: bool)
    ensures
        r == nodes_arrays_filled(s@),
    decreases s, 1nat,
{
    let mut i: usize = 0;
    proof {
        assert(s@.subrange(0, 0).len() == 0);
    }
    while i < s.len()
        invariant
            i <= s@.len(),
            nodes_arrays_filled(s@.subrange(0, i as int)),
        decreases s@.len() - i,
    {
        proof {
            assert(decreases_to!(*s => s@));
            assert(decreases_to!(s@ => s@[i as int]));
        }
        let ok = node_filled(&s[i]);
        proof {
            let t = s@.subrange(0, i + 1);
            assert(t.subrange(0, t.len() - 1) =~= s@.subrange(0, i as int));
            assert(t[t.len() - 1] == s@[i as int]);
        }
        if !ok {
            proof {
                lemma_nodes_arrays_filled_prefix(s@, i + 1);
            }
            return false;
        }
        i = i + 1;
    }
    proof {
        assert(s@.subrange(0, s@.len() as int) =~= s@);
    }
    true
}

proof fn lemma_nodes_arrays_filled_prefix(s: Seq<ast::Node>, j: int)
    requires
        0 <= j <= s.len(),
        !nodes_arrays_filled(s.subrange(0, j)),
    ensures
        !nodes_arrays_filled(s),
    decreases s.len(),
{
    if j < s.len() {
        let prefix = s.subrange(0, s.len() - 1);
        assert(prefix.subrange(0, j) =~= s.subrange(0, j));
        lemma_nodes_arrays_filled_prefix(prefix, j);
    } else {
        assert(s.subrange(0, j) =~= s);
    }
}

/// Whether a program can be checked: it binds no variable outside a function, and every
/// array literal in it has an element.
pub fn checkable(input: &Vec<ast::Node>) -> (r: bool)
    ensures
        r == ((forall|i: int| 0 <= i < input@.len() ==> #[trigger] node_arrays_filled(input@[i]))
            && (forall|i: int| 0 <= i < input@.len() ==> !(#[trigger] input@[i].stmt is LetStatement || input@[i].stmt is VarStatement))),
{
    let mut i: usize = 0;
    while i < input.len()
        invariant
            i <= input@.len(),
            forall|j: int| 0 <= j < i ==> #[trigger] node_arrays_filled(input@[j]),
            forall|j: int| 0 <= j < i ==> !(#[trigger] input@[j].stmt is LetStatement || input@[j].stmt is VarStatement),
        decreases input@.len() - i,
    {
        let binds = match &input[i].stmt {
            ast::Statement::LetStatement(_) | ast::Statement::VarStatement(_) => true,
            _ => false,
        };
        if binds || !node_filled(&input[i]) {
            return false;
        }
        i = i + 1;
    }
    true
}

/// Whether a statement returns on every path through it.
pub open spec fn statement_returns(st: crate::cir::Statement) -> bool
    decreases st,
{
    match st.kind {
        crate::cir::StatementKind::ReturnStatement { .. } => true,
        crate::cir::StatementKind::IfStatement { condition: _, block_true, block_false } => block_returns(block_true@) && block_returns(block_false@),
        _ => false,
    }
}

/// Whether a block returns on every path: one of its statements does.
pub open spec fn block_returns(b: Seq<crate::cir::Statement>) -> bool
    decreases b,
{
    if b.len() == 0 {
        false
    } else {
        block_returns(b.subrange(0, b.len() - 1)) || statement_returns(b[b.len() - 1])
    }
}

pub(crate) proof fn lemma_block_returns_extends(b: Seq<crate::cir::Statement>, j: int)
    requires
        0 <= j <= b.len(),
        block_returns(b.subrange(0, j)),
    ensures
        block_returns(b),
    decreases b.len() - j,
{
    if j < b.len() {
        let c = b.subrange(0, j + 1);
        assert(c.subrange(0, c.len() - 1) =~= b.subrange(0, j));
        lemma_block_returns_extends(b, j + 1);
    } else {
        assert(b.subrange(0, j) =~= b);
    }
}

/// Whether the function named `main`, if there is one, has the signature `fn main()`.
pub open spec fn main_signature_ok(functions: Seq<(String, Span, FunctionHead)>) -> bool {
    match find(functions, "main"@) {
        Some(i) => plain_head(functions[i].2),
        None => true,
    }
}

/// The primitive type of an expression made of literals alone, joined by binary operations
/// whose operands agree and by `!` and `~`: `None` for any other expression, and where an
/// operation is refused.
pub open spec fn literal_prim(e: ast::Expression) -> Option<Primitive>
    decreases e,
{
    match e.data {
        ast::ExpressionData::IntegerLiteral { .. } => Some(Primitive::UInt),
        ast::ExpressionData::BooleanLiteral { .. } => Some(Primitive::Bool),
        ast::ExpressionData::CharacterLiteral { .. } => Some(Primitive::Char),
        ast::ExpressionData::StrLiteral { .. } => Some(Primitive::Str),
        ast::ExpressionData::FloatLiteral { .. } => Some(Primitive::Float),
        ast::ExpressionData::UnaryOperation { operator, operand } => if operator == ast::UnaryOperation::Not
            || operator == ast::UnaryOperation::BNot {
            literal_prim(*operand)
        } else {
            None
        },
        ast::ExpressionData::BinaryOperation { operator, left, right } => match (literal_prim(*left), literal_prim(*right)) {
            (Some(pl), Some(pr)) => if inference_of(Typing::Primitive(pr), Typing::Primitive(pl)) == Inference::Invalid {
                None
            } else if binop_result_kind(binop_from_ast(operator)) == 0 {
                Some(pl)
            } else if binop_result_kind(binop_from_ast(operator)) == 1 {
                Some(Primitive::Bool)
            } else {
                None
            },
            _ => None,
        },
        _ => None,
    }
}

/// Whether every expression of a list is made of literals.
pub open spec fn literal_prims(s: Seq<ast::Expression>) -> bool {
    forall|i: int| 0 <= i < s.len() ==> #[trigger] literal_prim(s[i]) is Some
}

/// The types of a list of expressions made of literals.
pub open spec fn literal_typings(s: Seq<ast::Expression>) -> Seq<Typing> {
    s.map_values(|e: ast::Expression| Typing::Primitive(literal_prim(e)->0))
}

/// The shape of a checked expression: what it is checked as, for each kind of expression.
pub open spec fn checked_shape(e: ast::Expression, c: Expression, t: Typing) -> bool {
    match e.data {
        ast::ExpressionData::Cast { .. } => c.span == e.span && c.data is Cast,
        ast::ExpressionData::UnaryOperation { operator, .. } => c.span == e.span
            && (c.data matches ExpressionData::UnaryOperation { operator: o, .. } && o == crate::cir::unop_from_ast(operator)),
        ast::ExpressionData::Tuple { exprs } => c.span == e.span && (c.data matches ExpressionData::Tuple { exprs: es, types }
            && es@.len() == exprs@.len() && types@.len() == exprs@.len()) && (t matches Typing::Tuple { types: ts } && ts@.len() == exprs@.len()),
        ast::ExpressionData::Array { exprs, amount } => c.span == e.span && (c.data matches ExpressionData::ArrayLiteral { exprs: es, .. }
            && es@.len() == exprs@.len()) && (t matches Typing::Array { amount: a, .. } && a == amount),
        ast::ExpressionData::TupleAccess { field, .. } => c.span == e.span && (c.data matches ExpressionData::TupleAccess { field: f, .. } && f == field),
        ast::ExpressionData::Subscript { .. } => c.span == e.span && c.data is ArraySubscript,
        ast::ExpressionData::FieldAccess { field, .. } => c.span == e.span && ((c.data matches ExpressionData::FieldAccess { field: f, .. } && f@ == field@)
            || (c.data matches ExpressionData::EnumVariant { variant, .. } && variant@ == field@ && t is Enum)),
        ast::ExpressionData::FunctionCall { arguments, .. } => (c.data matches ExpressionData::FunctionCall { arguments: a, .. } && a@.len() == arguments@.len())
            || (c.data matches ExpressionData::IntrinsicCall { arguments: a, .. } && a@.len() == arguments@.len()),
        ast::ExpressionData::StructInit { fields, .. } => c.span == e.span && (c.data matches ExpressionData::StructInit { fields: fs, .. }
            && fs@.len() == fields@.len()) && t is Struct,
        _ => c.span == e.span,
    }
}

/// How a checked statement stands for the statement it was checked from: at the same place,
/// of the same kind, under the same name, with as many arguments and statements.
pub open spec fn checked_as(n: ast::Node, s: crate::cir::Statement) -> bool {
    s.span == n.span && match n.stmt {
        ast::Statement::LetStatement(st) => s.kind matches crate::cir::StatementKind::Variable { binding, .. } && binding@ == st.binding@,
        ast::Statement::VarStatement(st) => s.kind matches crate::cir::StatementKind::Variable { binding, .. } && binding@ == st.binding@,
        ast::Statement::ConstStatement(st) => s.kind matches crate::cir::StatementKind::Constant { binding, .. } && binding@ == st.binding@,
        ast::Statement::ReturnStatement(st) => s.kind matches crate::cir::StatementKind::ReturnStatement { value, .. } && (value is Some <==> st.expr is Some),
        ast::Statement::FnStatement(st) => s.kind matches crate::cir::StatementKind::FnStatement(f) && f.head.name@ == st.name@ && !f.head.extrn
            && !f.head.variadic && f.head.arguments@.len() == st.arguments@.len() && f.block@.len() == st.block.content@.len(),
        ast::Statement::ExternFnStatement(st) => s.kind matches crate::cir::StatementKind::ExternFnStatement(h) && h.name@ == st.name@ && h.extrn
            && h.variadic == st.variadic && h.arguments@.len() == st.arguments@.len(),
        ast::Statement::StructStatement(st) => s.kind matches crate::cir::StatementKind::StructStatement(e) && e.name@ == st.name@,
        ast::Statement::EnumStatement(st) => s.kind matches crate::cir::StatementKind::EnumStatement(e) && e.name@ == st.name@ && e.variants == st.variants,
        ast::Statement::IfStatement(st) => s.kind matches crate::cir::StatementKind::IfStatement { block_true, block_false, .. }
            && block_true@.len() == st.block_true.content@.len() && block_false@.len() == match st.block_false {
                Some(b) => b.content@.len(),
                None => 0,
            },
        ast::Statement::WhileStatement(st) => s.kind matches crate::cir::StatementKind::WhileStatement { block, .. } && block@.len() == st.block.content@.len(),
        ast::Statement::ExpressionStatement(_) => s.kind is ExpressionStatement,
    }
}

/// Checks a program against the rules of Elo, and turns it into checked statements.
pub struct SemanticChecker {
    namespace: Namespace,
    current_function: String,
    pub errors: Vec<SemanticError>,
}

impl SemanticChecker {
    /// The names the checker knows.
    pub closed spec fn names(&self) -> Namespace {
        self.namespace
    }

    /// The errors found so far.
    pub closed spec fn found(&self) -> Seq<SemanticError> {
        self.errors@
    }

    /// The checker is well formed: each table names everything once.
    pub closed spec fn wf(&self) -> bool {
        &&& names_unique(self.namespace.constants@)
        &&& names_unique(self.namespace.structs@)
        &&& names_unique(self.namespace.enums@)
        &&& names_unique(self.namespace.functions@)
    }

    /// A checker that knows no names and has found no errors.
    pub fn new() -> (r: Self)
        ensures
            r.wf(),
            r.found().len() == 0,
            r.names().locals@.len() == 0,
            r.names().constants@.len() == 0,
            r.names().structs@.len() == 0,
            r.names().enums@.len() == 0,
            r.names().functions@.len() == 0,
    {
        SemanticChecker {
            errors: Vec::new(),
            current_function: String::new(),
            namespace: Namespace {
                name: None,
                structs: Vec::new(),
                enums: Vec::new(),
                constants: Vec::new(),
                functions: Vec::new(),
                locals: Vec::new(),
            },
        }
    }

    /// The type that a written type denotes: a primitive type, or else an enumeration, or
    /// else a structure of that name.
    #[verifier::loop_isolation(false)]
    fn check_type(&self, typ: &ast::Type) -> (r: Result<Typing, SemanticError>)
        requires
            self.wf(),
        ensures
            match typ.typing {
                ast::Typing::Named { name, generic: _ } => match primitive_of(name@) {
                    Some(p) => r matches Ok(Typing::Primitive(q)) && q == p,
                    None => match find(self.namespace.enums@, name@) {
                        Some(i) => r matches Ok(Typing::Enum(e)) && e.name@ == self.namespace.enums@[i].2.name@
                            && typing_same(Typing::Enum(self.namespace.enums@[i].2), Typing::Enum(e)),
                        None => match find(self.namespace.structs@, name@) {
                            Some(i) => r matches Ok(Typing::Struct(st)) && st.name@ == self.namespace.structs@[i].2.name@
                                && typing_same(Typing::Struct(self.namespace.structs@[i].2), Typing::Struct(st)),
                            None => r matches Err(e) && e.span == typ.span && (e.case matches SemanticErrorCase::UnresolvedName { name: n } && n@ == name@),
                        },
                    },
                },
                ast::Typing::Pointer { mutable, typ: _ } => r is Ok ==> (r->Ok_0 matches Typing::Pointer { mutable: m, .. } && m == mutable),
                ast::Typing::Tuple { types } => r is Ok ==> (r->Ok_0 matches Typing::Tuple { types: t } && t@.len() == types@.len()),
                ast::Typing::Array { typ: _, amount } => r is Ok ==> (r->Ok_0 matches Typing::Array { amount: n, .. } && n == amount),
                ast::Typing::Function { args, ret: _ } => r is Ok ==> (r->Ok_0 matches Typing::Function { arguments: a, variadic: false, extrn: false, .. } && a@.len() == args@.len()),
                ast::Typing::Slice { typ: _ } => r is Err,
            },
            plain_type(*typ) ==> r is Ok,
        decreases typ,
    {
        match &typ.typing {
            ast::Typing::Named { name, generic: _ } => {
                if let Some(t) = Primitive::from_str(name.as_str()) {
                    return Ok(Typing::Primitive(t));
                }
                if let Some(i) = lookup(&self.namespace.enums, name.as_str()) {
                    return Ok(Typing::Enum(self.namespace.enums[i].2.copy()));
                }
                if let Some(i) = lookup(&self.namespace.structs, name.as_str()) {
                    return Ok(Typing::Struct(self.namespace.structs[i].2.copy()));
                }
                Err(SemanticError { span: typ.span, case: SemanticErrorCase::UnresolvedName { name: name.clone() } })
            },
            ast::Typing::Pointer { typ: inner, mutable } => {
                let inner_typing = self.check_type(inner)?;
                Ok(Typing::Pointer { mutable: *mutable, typ: Box::new(inner_typing) })
            },
            ast::Typing::Tuple { types } => {
                let mut checked_types: Vec<Typing> = Vec::new();
                let mut i: usize = 0;
                while i < types.len()
                    invariant
                        self.wf(),
                        i <= types@.len(),
                        checked_types@.len() == i,
                    decreases types@.len() - i,
                {
                    proof {
                        assert(decreases_to!(types@ => types@[i as int]));
                    }
                    let t = self.check_type(&types[i])?;
                    checked_types.push(t);
                    i = i + 1;
                }
                Ok(Typing::Tuple { types: checked_types })
            },
            ast::Typing::Function { args, ret } => {
                let mut checked_types: Vec<Typing> = Vec::new();
                let mut i: usize = 0;
                while i < args.len()
                    invariant
                        self.wf(),
                        i <= args@.len(),
                        checked_types@.len() == i,
                    decreases args@.len() - i,
                {
                    proof {
                        assert(decreases_to!(args@ => args@[i as int]));
                    }
                    let t = self.check_type(&args[i])?;
                    checked_types.push(t);
                    i = i + 1;
                }
                let checked_ret = match ret {
                    Some(t) => self.check_type(t)?,
                    None => Typing::Void,
                };
                Ok(Typing::Function { ret: Box::new(checked_ret), arguments: checked_types, variadic: false, extrn: false })
            },
            ast::Typing::Array { typ: inner, amount } => {
                let inner_typing = self.check_type(inner)?;
                Ok(Typing::Array { typ: Box::new(inner_typing), amount: *amount })
            },
            ast::Typing::Slice { typ: _ } => Err(
                SemanticError {
                    span: typ.span,
                    case: SemanticErrorCase::InvalidType { what: String::from_str("slice type") },
                },
            ),
        }
    }

    /// How a value of type `from` may stand where one of type `into` is expected.
    fn typecheck_inference(&self, from: &Typing, into: &Typing) -> (r: Inference)
        ensures
            r == inference_of(*from, *into),
    {
        if crate::cir::typing_eq(from, into) {
            return Inference::Equal;
        }
        let x = from.get_size();
        let y = into.get_size();
        let mut cast = false;
        if from.is_unsigned() {
            cast = ((into.is_signed() || into.is_float()) && (y as u128) >= 2 * (x as u128)) || (into.is_unsigned() && y >= x);
        }
        if from.is_signed() {
            cast = (into.is_float() || into.is_signed()) && y >= x;
        }
        match (from, into) {
            (Typing::Primitive(Primitive::Char), Typing::Primitive(Primitive::U32)) => {
                cast = true;
            },
            (Typing::Primitive(Primitive::U8), Typing::Primitive(Primitive::Char)) => {
                cast = true;
            },
            (Typing::Pointer { mutable: true, .. }, Typing::Pointer { mutable: false, .. }) => {
                cast = true;
            },
            _ => {},
        }
        if cast {
            Inference::Cast
        } else {
            Inference::Invalid
        }
    }

    /// The expression as it stands where a value of type `into` is expected: itself, the
    /// expression cast to `into`, or nothing where it cannot stand there.
    fn make_inference(&self, expression: Expression, from: &Typing, into: &Typing) -> (r: Option<Expression>)
        ensures
            match inference_of(*from, *into) {
                Inference::Invalid => r is None,
                Inference::Equal => r == Some(expression),
                Inference::Cast => r matches Some(c) && c.span == expression.span && c.identity
                    == expression.identity && (c.data matches ExpressionData::Cast { expr, typ }
                    && *expr == expression && typing_same(*into, typ)),
            },
    {
        let inf = self.typecheck_inference(from, into);
        let id = expression.identity;
        match inf {
            Inference::Invalid => None,
            Inference::Cast => {
                let span = expression.span;
                Some(Expression { span, data: ExpressionData::Cast { expr: Box::new(expression), typ: into.copy() }, identity: id })
            },
            Inference::Equal => Some(expression),
        }
    }

    /// Checks an explicit cast of a value of type `origin` to type `into`.
    fn typecheck_cast(&self, origin: &Typing, into: &Typing, span: Span) -> (r: Result<(), SemanticError>)
        ensures
            r is Ok <==> cast_allowed(*origin, *into),
            r matches Err(e) ==> e.span == span && (e.case matches SemanticErrorCase::InvalidCast { from, into: i }
                && from@ == typing_display(*origin) && i@ == typing_display(*into)),
    {
        match self.typecheck_inference(origin, into) {
            Inference::Cast | Inference::Equal => {
                return Ok(());
            },
            _ => {},
        }
        let mut ok = false;
        if origin.is_integer() {
            ok = into.is_bool() || into.is_integer() || into.is_float();
        } else if origin.is_float() {
            ok = into.is_bool() || into.is_integer() || into.is_float();
        } else if origin.is_bool() {
            ok = into.is_integer();
        } else {
            match (origin, into) {
                (Typing::Primitive(Primitive::Char), Typing::Primitive(Primitive::U8)) => {
                    ok = true;
                },
                _ => {},
            }
        }
        if !ok {
            return Err(
                SemanticError {
                    span,
                    case: SemanticErrorCase::InvalidCast { from: typing_text(origin), into: typing_text(into) },
                },
            );
        }
        Ok(())
    }

    /// Checks a binary operation on checked operands: the right operand must be able to
    /// stand for a value of the type of the left one, and the left operand of an assignment
    /// must be a mutable place.
    fn typecheck_binop(&self, lhs: TypedExpression, rhs: TypedExpression, binop: &ast::BinaryOperation, span: Span) -> (r: Result<TypedExpression, SemanticError>)
        ensures
            ({
                let op = binop_from_ast(*binop);
                if inference_of(rhs.1, lhs.1) == Inference::Invalid {
                    r matches Err(e) && is_mismatch(e, span, typing_display(rhs.1), typing_display(lhs.1))
                } else if binop_result_kind(op) == 0 {
                    r matches Ok(t) && typing_same(lhs.1, t.1) && t.0.identity == ExpressionIdentity::Immediate
                } else if binop_result_kind(op) == 1 {
                    r matches Ok(t) && t.1 matches Typing::Primitive(Primitive::Bool) && t.0.identity == ExpressionIdentity::Immediate
                } else {
                    match lhs.0.identity {
                        ExpressionIdentity::Locatable(false) => r matches Err(e) && e.span == span
                            && (e.case matches SemanticErrorCase::AssignImmutable { expression } && expression@ == expr_display(lhs.0)),
                        ExpressionIdentity::Immediate => r matches Err(e) && e.span == span
                            && (e.case matches SemanticErrorCase::InvalidExpression { what, should }
                            && what@ == expr_display(lhs.0) && should@ == "valid left-hand-side operand"@),
                        _ => r matches Ok(t) && t.1 is Void && t.0.identity == ExpressionIdentity::Immediate,
                    }
                }
            }),
            binop_outcome(binop_from_ast(*binop), lhs.1, lhs.0.identity, rhs.1, span, r),
            r matches Ok(t) ==> (t.0.data matches ExpressionData::BinaryOperation { operator, .. } && operator == binop_from_ast(*binop)),
            r matches Ok(t) ==> t.0.span == span,
    {
        let ir_binop = BinaryOperation::from_ast(binop);
        let (lhs_expr, lhs_type) = lhs;
        let (rhs_expr, rhs_type) = rhs;
        let rhs_inferred = self.make_inference(rhs_expr, &rhs_type, &lhs_type);
        let right = match rhs_inferred {
            Some(e) => e,
            None => {
                return Err(
                    SemanticError {
                        span,
                        case: SemanticErrorCase::TypeMismatch { got: typing_text(&rhs_type), expected: typing_text(&lhs_type) },
                    },
                );
            },
        };
        let typing = match ir_binop {
            BinaryOperation::Add | BinaryOperation::Sub | BinaryOperation::Mul | BinaryOperation::Div
            | BinaryOperation::Mod | BinaryOperation::BAnd | BinaryOperation::BOr
            | BinaryOperation::BXor | BinaryOperation::LShift | BinaryOperation::RShift => lhs_type.copy(),
            BinaryOperation::Eq | BinaryOperation::Ne | BinaryOperation::Lt | BinaryOperation::Le
            | BinaryOperation::Gt | BinaryOperation::Ge | BinaryOperation::And | BinaryOperation::Or => Typing::Primitive(Primitive::Bool),
            _ => {
                match lhs_expr.identity {
                    ExpressionIdentity::Locatable(false) => {
                        return Err(
                            SemanticError { span, case: SemanticErrorCase::AssignImmutable { expression: expr_text(&lhs_expr) } },
                        );
                    },
                    ExpressionIdentity::Immediate => {
                        return Err(
                            SemanticError {
                                span,
                                case: SemanticErrorCase::InvalidExpression {
                                    what: expr_text(&lhs_expr),
                                    should: String::from_str("valid left-hand-side operand"),
                                },
                            },
                        );
                    },
                    _ => {},
                }
                Typing::Void
            },
        };
        let expr = Expression {
            span,
            data: ExpressionData::BinaryOperation { operator: ir_binop, left: Box::new(lhs_expr), right: Box::new(right) },
            identity: ExpressionIdentity::Immediate,
        };
        Ok((expr, typing))
    }

    /// Follows pointers: the value that an expression points to, through every level of
    /// pointer, as a place that is mutable where the last pointer was.
    fn auto_dereference(&self, expression: TypedExpression) -> (r: TypedExpression)
        ensures
            !(r.1 is Pointer),
            !(expression.1 is Pointer) ==> r == expression,
            r.1 == pointee_all(expression.1),
    {
        let (mut expr, mut typ) = expression;
        let span = expr.span;
        loop
            invariant
                !(expression.1 is Pointer) ==> expr == expression.0 && typ == expression.1,
                pointee_all(typ) == pointee_all(expression.1),
            ensures
                !(typ is Pointer),
                !(expression.1 is Pointer) ==> expr == expression.0 && typ == expression.1,
                typ == pointee_all(expression.1),
            decreases typ,
        {
            match typ {
                Typing::Pointer { typ: inner, mutable } => {
                    expr = Expression {
                        span,
                        data: ExpressionData::UnaryOperation { operator: crate::cir::UnaryOperation::Deref, operand: Box::new(expr) },
                        identity: ExpressionIdentity::Locatable(mutable),
                    };
                    typ = *inner;
                },
                other => {
                    typ = other;
                    break;
                },
            }
        }
        (expr, typ)
    }

    /// Where `name` was defined, if it names a function, an enumeration, a structure or a
    /// constant (looked for in that order).
    fn check_name_availability(&self, name: &str) -> (r: Option<Span>)
        requires
            self.wf(),
        ensures
            r == match find(self.namespace.functions@, name@) {
                Some(i) => Some(self.namespace.functions@[i].1),
                None => match find(self.namespace.enums@, name@) {
                    Some(i) => Some(self.namespace.enums@[i].1),
                    None => match find(self.namespace.structs@, name@) {
                        Some(i) => Some(self.namespace.structs@[i].1),
                        None => match find(self.namespace.constants@, name@) {
                            Some(i) => Some(self.namespace.constants@[i].1),
                            None => None,
                        },
                    },
                },
            },
    {
        if let Some(i) = lookup(&self.namespace.functions, name) {
            return Some(self.namespace.functions[i].1);
        }
        if let Some(i) = lookup(&self.namespace.enums, name) {
            return Some(self.namespace.enums[i].1);
        }
        if let Some(i) = lookup(&self.namespace.structs, name) {
            return Some(self.namespace.structs[i].1);
        }
        if let Some(i) = lookup(&self.namespace.constants, name) {
            return Some(self.namespace.constants[i].1);
        }
        None
    }

    /// Finds the innermost declaration of a local variable.
    #[verifier::loop_isolation(false)]
    fn lookup_local(&self, name: &str) -> (r: Option<(usize, usize)>)
        ensures
            match r {
                Some((a, b)) => a < self.namespace.locals@.len() && b < self.namespace.locals@[a as int].content@.len()
                    && self.namespace.locals@[a as int].content@[b as int].0@ == name@
                    && find_local(self.namespace.locals@, name@) is Some
                    && local_variable(self.namespace.locals@, name@) == Some(self.namespace.locals@[a as int].content@[b as int].1),
                None => find_local(self.namespace.locals@, name@) is None,
            },
    {
        let mut i: usize = self.namespace.locals.len();
        assert(self.namespace.locals@.subrange(0, i as int) =~= self.namespace.locals@);
        while i > 0
            invariant
                i <= self.namespace.locals@.len(),
                find_local(self.namespace.locals@.subrange(0, i as int), name@) == find_local(self.namespace.locals@, name@),
            decreases i,
        {
            let scope = &self.namespace.locals[i - 1];
            let mut k: usize = 0;
            while k < scope.content.len()
                invariant
                    k <= scope.content@.len(),
                    forall|m: int| 0 <= m < k ==> #[trigger] scope.content@[m].0@ != name@,
                decreases scope.content@.len() - k,
            {
                if str_eq(scope.content[k].0.as_str(), name) {
                    proof {
                        let pre = self.namespace.locals@.subrange(0, i as int);
                        assert(pre[pre.len() - 1] == *scope);
                        assert(pre[pre.len() - 1].content@[k as int].0@ == name@);
                        let c = scope.content@;
                        assert(pre[pre.len() - 1].content@ == c);
                        assert(exists|j: int| 0 <= j < c.len() && #[trigger] c[j].0@ == name@);
                        assert((find_local(pre, name@)->0).0 == i - 1);
                        assert(self.namespace.locals@[i - 1] == *scope);
                        let f = choose|f: int| 0 <= f < c.len() && #[trigger] c[f].0@ == name@ && forall|m: int| 0 <= m < f ==> c[m].0@ != name@;
                        assert(0 <= k < c.len() && c[k as int].0@ == name@ && forall|m: int| 0 <= m < k ==> c[m].0@ != name@);
                        if f < k {
                            assert(c[f].0@ != name@);
                        } else if f > k {
                            assert(c[k as int].0@ != name@);
                        }
                    }
                    return Some((i - 1, k));
                }
                k = k + 1;
            }
            proof {
                let pre = self.namespace.locals@.subrange(0, i as int);
                assert(pre[pre.len() - 1] == *scope);
                assert(pre.subrange(0, pre.len() - 1) =~= self.namespace.locals@.subrange(0, i - 1));
            }
            i = i - 1;
        }
        proof {
            assert(self.namespace.locals@.subrange(0, 0).len() == 0);
        }
        None
    }

    /// Checks the arguments of a call of an intrinsic function against its signature.
    fn typecheck_intrinsic_call(&self, intrinsic: Intrinsic, arguments: &Vec<ast::Expression>, call_span: Span) -> (r: Result<TypedExpression, SemanticError>)
        requires
            self.wf(),
            all_arrays_filled(arguments@),
        ensures
            arguments@.len() != 1 ==> (r matches Err(e) && e.span == call_span && (e.case matches SemanticErrorCase::UnmatchedArguments { function, got, expected, too_much }
                && function@ == crate::cir::intrinsic_name(intrinsic) && got == arguments@.len() && expected == 1 && too_much == (arguments@.len() > 1))),
            r matches Ok(t) ==> t.1 is Void && t.0.identity == ExpressionIdentity::Immediate && t.0.span == call_span,
            r matches Ok(t) ==> (t.0.data matches ExpressionData::IntrinsicCall { intrinsic: i, arguments: a } && i == intrinsic && a@.len() == arguments@.len()),
        decreases arguments@, 0nat,
    {
        let expected = Typing::Primitive(Primitive::Str);
        let passed_length = arguments.len();
        let expected_len: usize = 1;
        if passed_length < expected_len {
            return Err(
                SemanticError {
                    span: call_span,
                    case: SemanticErrorCase::UnmatchedArguments {
                        function: String::from_str(intrinsic.name()),
                        got: passed_length,
                        expected: expected_len,
                        too_much: false,
                    },
                },
            );
        } else if passed_length > expected_len {
            return Err(
                SemanticError {
                    span: call_span,
                    case: SemanticErrorCase::UnmatchedArguments {
                        function: String::from_str(intrinsic.name()),
                        got: passed_length,
                        expected: expected_len,
                        too_much: true,
                    },
                },
            );
        }
        proof {
            lemma_all_arrays_filled(arguments@, 0);
            assert(decreases_to!(arguments@ => arguments@[0]));
        }
        let (checked, got_type) = self.typecheck_expr(&arguments[0], false)?;
        let argument_span = arguments[0].span;
        let mut checked_arguments: Vec<Expression> = Vec::new();
        match self.make_inference(checked, &got_type, &expected) {
            Some(c) => checked_arguments.push(c),
            None => {
                return Err(
                    SemanticError {
                        span: argument_span,
                        case: SemanticErrorCase::TypeMismatch { got: typing_text(&got_type), expected: typing_text(&expected) },
                    },
                );
            },
        }
        Ok((
            Expression {
                span: call_span,
                data: ExpressionData::IntrinsicCall { intrinsic, arguments: checked_arguments },
                identity: ExpressionIdentity::Immediate,
            },
            Typing::Void,
        ))
    }

    /// Checks the arguments of a call against the types of the parameters; a variadic
    /// function takes more arguments, which are checked but not converted.
    #[verifier::loop_isolation(false)]
    fn typecheck_function_call(&self, expr: Expression, ret: Typing, arguments: &Vec<Typing>, variadic: bool, caller_arguments: &Vec<ast::Expression>, call_span: Span) -> (r: Result<TypedExpression, SemanticError>)
        requires
            self.wf(),
            all_arrays_filled(caller_arguments@),
        ensures
            caller_arguments@.len() < arguments@.len() ==> (r matches Err(e) && e.span == call_span
                && (e.case matches SemanticErrorCase::UnmatchedArguments { function, got, expected, too_much }
                && function@ == expr_display(expr) && got == caller_arguments@.len() && expected == arguments@.len() && !too_much)),
            caller_arguments@.len() > arguments@.len() && !variadic ==> (r matches Err(e) && e.span == call_span
                && (e.case matches SemanticErrorCase::UnmatchedArguments { function, got, expected, too_much }
                && function@ == expr_display(expr) && got == caller_arguments@.len() && expected == arguments@.len() && too_much)),
            r matches Ok(t) ==> (t.0.data matches ExpressionData::FunctionCall { arguments: a, .. } && a@.len() == caller_arguments@.len()),
            r matches Ok(t) ==> t.1 == ret && t.0.identity == ExpressionIdentity::Immediate && t.0.span == call_span
                && (t.0.data matches ExpressionData::FunctionCall { arguments: a, .. } && a@.len() == caller_arguments@.len()),
            caller_arguments@.len() == 0 && arguments@.len() == 0 ==> r is Ok,
            some_bad_argument(caller_arguments@, arguments@, self.namespace) ==> r is Err,
        decreases caller_arguments@, 0nat,
    {
        let passed_length = caller_arguments.len();
        let expected_len = arguments.len();
        if passed_length < expected_len {
            return Err(
                SemanticError {
                    span: call_span,
                    case: SemanticErrorCase::UnmatchedArguments {
                        function: expr_text(&expr),
                        got: passed_length,
                        expected: expected_len,
                        too_much: false,
                    },
                },
            );
        } else if passed_length > expected_len && !variadic {
            return Err(
                SemanticError {
                    span: call_span,
                    case: SemanticErrorCase::UnmatchedArguments {
                        function: expr_text(&expr),
                        got: passed_length,
                        expected: expected_len,
                        too_much: true,
                    },
                },
            );
        }
        let mut checked_arguments: Vec<Expression> = Vec::new();
        let mut i: usize = 0;
        while i < passed_length
            invariant
                self.wf(),
                all_arrays_filled(caller_arguments@),
                passed_length == caller_arguments@.len(),
                expected_len == arguments@.len(),
                expected_len <= passed_length,
                i <= passed_length,
                checked_arguments@.len() == i,
                forall|k: int| 0 <= k < i && k < arguments@.len() ==> !#[trigger] bad_argument(caller_arguments@[k], arguments@[k], self.namespace),
            decreases passed_length - i,
        {
            proof {
                lemma_all_arrays_filled(caller_arguments@, i as int);
                assert(decreases_to!(caller_arguments@ => caller_arguments@[i as int]));
            }
            let argument = &caller_arguments[i];
            let (checked, got_type) = self.typecheck_expr(argument, false)?;
            if i < expected_len {
                match self.make_inference(checked, &got_type, &arguments[i]) {
                    Some(c) => checked_arguments.push(c),
                    None => {
                        return Err(
                            SemanticError {
                                span: argument.span,
                                case: SemanticErrorCase::TypeMismatch { got: typing_text(&got_type), expected: typing_text(&arguments[i]) },
                            },
                        );
                    },
                }
            } else {
                checked_arguments.push(checked);
            }
            i = i + 1;
        }
        Ok((
            Expression {
                span: call_span,
                data: ExpressionData::FunctionCall { function: Box::new(expr), arguments: checked_arguments },
                identity: ExpressionIdentity::Immediate,
            },
            ret,
        ))
    }

    /// Checks a call: the callee, then the arguments against the callee's signature.
    fn typecheck_call(&self, expr: &ast::Expression) -> (r: Result<TypedExpression, SemanticError>)
        requires
            self.wf(),
            arrays_filled(*expr),
            expr.data is FunctionCall,
        ensures
            r matches Ok(t) ==> checked_shape(*expr, t.0, t.1),
            r matches Ok(t) ==> (expr_typing(*expr, self.namespace) matches Some(ty) ==> typing_same(ty, t.1)),
            call_result(*expr, self.namespace, r),
        decreases *expr, 0nat,
    {
        let span = expr.span;
        match &expr.data {
            ast::ExpressionData::FunctionCall { function, arguments: caller_arguments } => {
                let (function_expr, function_type) = self.typecheck_expr(function, true)?;
                let call_span = function_expr.span;
                proof {
                    assert(decreases_to!(*expr => caller_arguments@));
                }
                match function_type {
                    Typing::Function { ret, arguments, variadic, extrn: _ } => {
                        proof {
                            if function.data is Identifier {
                                let name = function.data->Identifier_name;
                                if find(self.namespace.constants@, name@) is None {
                                    if let Some(fi) = find(self.namespace.functions@, name@) {
                                        let params = self.namespace.functions@[fi].2.arguments@.map_values(|a: crate::cir::TypedField| a.typing);
                                        if some_bad_argument(caller_arguments@, params, self.namespace) {
                                            let k = choose|k: int| 0 <= k < caller_arguments@.len() && k < params.len() && #[trigger] bad_argument(caller_arguments@[k], params[k], self.namespace);
                                            let p = expr_typing(caller_arguments@[k], self.namespace)->0->Primitive_0;
                                            lemma_inference_into_same(p, params[k], arguments@[k]);
                                            assert(bad_argument(caller_arguments@[k], arguments@[k], self.namespace));
                                        }
                                    }
                                }
                            }
                        }
                        let r = self.typecheck_function_call(function_expr, *ret, &arguments, variadic, caller_arguments, call_span)?;
                        Ok(r)
                    },
                    Typing::Intrinsic(intrinsic) => {
                        let r = self.typecheck_intrinsic_call(intrinsic, caller_arguments, call_span)?;
                        Ok(r)
                    },
                    other => Err(SemanticError { span, case: SemanticErrorCase::CallNonFunction { typ: typing_text(&other) } }),
                }
            },
            _ => {
                proof {
                    assert(false);
                }
                Err(SemanticError { span, case: SemanticErrorCase::MisplacedReturn })
            },
        }
    }

    /// Checks a structure literal: each field must be one of the structure's, and its value
    /// must stand for it.
    #[verifier::loop_isolation(false)]
    fn typecheck_struct_init(&self, expr: &ast::Expression, function_call: bool) -> (r: Result<TypedExpression, SemanticError>)
        requires
            self.wf(),
            arrays_filled(*expr),
            expr.data is StructInit,
        ensures
            r matches Ok(t) ==> checked_shape(*expr, t.0, t.1),
            r matches Ok(t) ==> (expr_typing(*expr, self.namespace) matches Some(ty) ==> typing_same(ty, t.1)),
            struct_init_result(*expr, self.namespace, r),
        decreases *expr, 0nat,
    {
        let span = expr.span;
        match &expr.data {
            ast::ExpressionData::StructInit { name, fields } => {
                let k = match lookup(&self.namespace.structs, name.as_str()) {
                    Some(k) => k,
                    None => {
                        return Err(SemanticError { span, case: SemanticErrorCase::UnresolvedName { name: name.clone() } });
                    },
                };
                let strukt = self.namespace.structs[k].2.copy();
                let ghost decl_fields = self.namespace.structs@[k as int].2.fields@;
                let mut checked_fields: Vec<crate::cir::Field> = Vec::new();
                let mut i: usize = 0;
                while i < fields.len()
                    invariant
                        self.wf(),
                        all_field_arrays_filled(fields@),
                        i <= fields@.len(),
                        checked_fields@.len() == i,
                        crate::cir::fields_same(decl_fields, strukt.fields@),
                        forall|j: int| 0 <= j < i ==> #[trigger] crate::cir::field_typing(decl_fields, fields@[j].name@) is Some
                            && !bad_field(decl_fields, fields@[j], self.namespace),
                    decreases fields@.len() - i,
                {
                    let field = &fields[i];
                    let mut expected: Option<usize> = None;
                    let mut f: usize = 0;
                    assert(strukt.fields@.subrange(0, 0).len() == 0);
                    while f < strukt.fields.len()
                        invariant
                            f <= strukt.fields@.len(),
                            expected matches Some(x) ==> x < strukt.fields@.len() && crate::cir::field_typing(strukt.fields@.subrange(0, f as int), field.name@) == Some(strukt.fields@[x as int].typing),
                            expected is None ==> crate::cir::field_typing(strukt.fields@.subrange(0, f as int), field.name@) is None,
                        decreases strukt.fields@.len() - f,
                    {
                        assert(strukt.fields@.subrange(0, f + 1).subrange(0, f as int) =~= strukt.fields@.subrange(0, f as int));
                        if str_eq(strukt.fields[f].name.as_str(), field.name.as_str()) {
                            expected = Some(f);
                        }
                        f = f + 1;
                    }
                    assert(strukt.fields@.subrange(0, strukt.fields@.len() as int) =~= strukt.fields@);
                    proof {
                        crate::cir::lemma_field_typing_same(decl_fields, strukt.fields@, field.name@);
                    }
                    let x = match expected {
                        Some(x) => x,
                        None => {
                            let mut from = String::from_str("struct ");
                            from.append(strukt.name.as_str());
                            return Err(SemanticError { span, case: SemanticErrorCase::UnresolvedField { name: field.name.clone(), from } });
                        },
                    };
                    proof {
                        lemma_all_field_arrays_filled(fields@, i as int);
                        assert(decreases_to!(fields@ => fields@[i as int]));
                        assert(decreases_to!(fields@[i as int] => fields@[i as int].value));
                    }
                    let value_span = field.value.span;
                    let (value, typing) = self.typecheck_expr(&field.value, function_call)?;
                    proof {
                        let ft = crate::cir::field_typing(decl_fields, field.name@)->0;
                        if let Some(Typing::Primitive(p)) = expr_typing(field.value, self.namespace) {
                            lemma_inference_into_same(p, ft, strukt.fields@[x as int].typing);
                        }
                    }
                    match self.make_inference(value, &typing, &strukt.fields[x].typing) {
                        Some(value) => checked_fields.push(crate::cir::Field { name: field.name.clone(), value }),
                        None => {
                            return Err(
                                SemanticError {
                                    span: value_span,
                                    case: SemanticErrorCase::TypeMismatch { got: typing_text(&typing), expected: typing_text(&strukt.fields[x].typing) },
                                },
                            );
                        },
                    }
                    i = i + 1;
                }
                let origin = strukt.copy();
                Ok((
                    Expression { span, data: ExpressionData::StructInit { origin, fields: checked_fields }, identity: ExpressionIdentity::Immediate },
                    Typing::Struct(strukt),
                ))
            },
            _ => {
                proof {
                    assert(false);
                }
                Err(SemanticError { span, case: SemanticErrorCase::MisplacedReturn })
            },
        }
    }

    /// Checks an expression: its type, and what kind of value it is. A name is looked for
    /// among the constants, then the functions, then the intrinsic functions, then the
    /// local variables from the innermost scope out; an extern function may only be called.
    #[verifier::loop_isolation(false)]
    #[verifier::rlimit(100)]
    fn typecheck_expr(&self, expr: &ast::Expression, function_call: bool) -> (r: Result<TypedExpression, SemanticError>)
        requires
            self.wf(),
            arrays_filled(*expr),
        ensures
            match expr.data {
                ast::ExpressionData::IntegerLiteral { value } => r matches Ok(t) && t.1 matches Typing::Primitive(Primitive::UInt)
                    && t.0.data == (ExpressionData::Integer { value }) && t.0.identity == ExpressionIdentity::Immediate,
                ast::ExpressionData::BooleanLiteral { value } => r matches Ok(t) && t.1 matches Typing::Primitive(Primitive::Bool)
                    && t.0.data == (ExpressionData::Bool { value }) && t.0.identity == ExpressionIdentity::Immediate,
                ast::ExpressionData::CharacterLiteral { value } => r matches Ok(t) && t.1 matches Typing::Primitive(Primitive::Char)
                    && t.0.data == (ExpressionData::Integer { value: value as i128 }) && t.0.identity == ExpressionIdentity::Immediate,
                ast::ExpressionData::StrLiteral { value } => r matches Ok(t) && t.1 matches Typing::Primitive(Primitive::Str)
                    && (t.0.data matches ExpressionData::StringLiteral { value: v } && v@ == value@) && t.0.identity == ExpressionIdentity::Immediate,
                ast::ExpressionData::FloatLiteral { .. } => r matches Ok(t) && t.1 matches Typing::Primitive(Primitive::Float),
                ast::ExpressionData::Identifier { name } => match find(self.namespace.constants@, name@) {
                    Some(i) => r matches Ok(t) && typing_same(self.namespace.constants@[i].2, t.1) && t.0.identity == ExpressionIdentity::Immediate,
                    None => match find(self.namespace.functions@, name@) {
                        Some(i) => {
                            let f = self.namespace.functions@[i].2;
                            if f.extrn && !function_call {
                                r matches Err(e) && e.span == expr.span && e.case matches SemanticErrorCase::UseExternFnAsExpr { .. }
                            } else {
                                r matches Ok(t) && t.0.identity == ExpressionIdentity::Function(f.extrn)
                                    && (t.1 matches Typing::Function { ret, arguments, variadic, extrn } && variadic == f.variadic && extrn == f.extrn
                                    && typing_same(f.ret, *ret) && arguments@.len() == f.arguments@.len()
                                    && forall|k: int| 0 <= k < arguments@.len() ==> typing_same(f.arguments@[k].typing, #[trigger] arguments@[k]))
                            }
                        },
                        None => match crate::cir::intrinsic_of(name@) {
                            Some(i) => r matches Ok(t) && t.1 == Typing::Intrinsic(i) && t.0.identity == ExpressionIdentity::Function(false),
                            None => match local_variable(self.namespace.locals@, name@) {
                                Some(v) => r matches Ok(t) && t.0.identity == ExpressionIdentity::Locatable(v.mutable) && typing_same(v.typing, t.1),
                                None => r matches Err(e) && e.span == expr.span
                                    && (e.case matches SemanticErrorCase::UnresolvedName { name: n } && n@ == name@),
                            },
                        },
                    },
                },
                ast::ExpressionData::BinaryOperation { operator, .. } => r matches Ok(t) ==> (t.0.data matches ExpressionData::BinaryOperation { operator: o, .. } && o == binop_from_ast(operator)),
                ast::ExpressionData::Tuple { exprs } => r matches Ok(t) ==> (t.1 matches Typing::Tuple { types } && types@.len() == exprs@.len()
                    && forall|i: int| 0 <= i < exprs@.len() ==> (expr_typing(#[trigger] exprs@[i], self.namespace) matches Some(ti) ==> typing_same(ti, types@[i]))),
                _ => true,
            },
            r matches Ok(t) ==> (expr_typing(*expr, self.namespace) matches Some(ty) ==> typing_same(ty, t.1)),
            r matches Ok(t) ==> checked_shape(*expr, t.0, t.1),
            literal_prim(*expr) matches Some(p) ==> r matches Ok(t) && t.1 == Typing::Primitive(p) && t.0.identity == ExpressionIdentity::Immediate,
            match expr.data {
                ast::ExpressionData::BinaryOperation { operator, left, right } => match (operand_prim(*left, self.namespace), operand_prim(*right, self.namespace)) {
                    (Some((pl, il)), Some((pr, _))) => binop_outcome(binop_from_ast(operator), Typing::Primitive(pl), il, Typing::Primitive(pr), expr.span, r),
                    _ => true,
                },
                ast::ExpressionData::UnaryOperation { operator, operand } => operator == ast::UnaryOperation::Addr
                    && literal_prim(*operand) is Some ==> (r matches Err(e) && e.span == expr.span
                    && (e.case matches SemanticErrorCase::InvalidExpression { should, .. } && should@ == "valid value to reference"@)),
                ast::ExpressionData::Tuple { exprs } => literal_prims(exprs@) ==> (r matches Ok(t)
                    && (t.1 matches Typing::Tuple { types } && types@ == literal_typings(exprs@))),
                ast::ExpressionData::TupleAccess { origin, field } => match origin.data {
                    ast::ExpressionData::Tuple { exprs } => literal_prims(exprs@) ==> if field >= exprs@.len() {
                        r matches Err(e) && e.span == expr.span && (e.case matches SemanticErrorCase::InvalidTupleMember { member, tuple, member_count }
                            && member == field && member_count == exprs@.len() && tuple@ == "("@ + crate::cir::typings_display(literal_typings(exprs@)) + ")"@)
                    } else {
                        r matches Ok(t) && t.1 == Typing::Primitive(literal_prim(exprs@[field as int])->0)
                    },
                    _ => true,
                },
                ast::ExpressionData::FunctionCall { .. } => call_result(*expr, self.namespace, r),
                ast::ExpressionData::StructInit { .. } => struct_init_result(*expr, self.namespace, r),
                ast::ExpressionData::Cast { expr: inner, typ } => match (literal_prim(*inner), typ.typing) {
                    (Some(p), ast::Typing::Named { name, generic: _ }) => match primitive_of(name@) {
                        Some(q) => if cast_allowed(Typing::Primitive(p), Typing::Primitive(q)) {
                            r matches Ok(t) && t.1 == Typing::Primitive(q)
                        } else {
                            r matches Err(e) && e.span == expr.span && (e.case matches SemanticErrorCase::InvalidCast { from, into }
                                && from@ == primitive_name(p) && into@ == primitive_name(q))
                        },
                        None => true,
                    },
                    _ => true,
                },
                _ => true,
            },
        decreases *expr, 1nat,
    {
        let span = expr.span;
        match &expr.data {
            ast::ExpressionData::Cast { expr: inner, typ } => {
                let typ = self.check_type(typ)?;
                let (inner, origin) = self.typecheck_expr(inner, function_call)?;
                let id = inner.identity;
                self.typecheck_cast(&origin, &typ, span)?;
                let target = typ.copy();
                Ok((Expression { span, data: ExpressionData::Cast { expr: Box::new(inner), typ: target }, identity: id }, typ))
            },
            ast::ExpressionData::BinaryOperation { operator, left, right } => {
                let lhs = self.typecheck_expr(left, function_call)?;
                let rhs = self.typecheck_expr(right, function_call)?;
                proof {
                    if let (Some(pl), Some(pr)) = (literal_prim(**left), literal_prim(**right)) {
                        assert(lhs.1 == Typing::Primitive(pl));
                        assert(rhs.1 == Typing::Primitive(pr));
                        assert(typing_display(lhs.1) == primitive_name(pl));
                        assert(typing_display(rhs.1) == primitive_name(pr));
                    }
                    if let (Some((pl, il)), Some((pr, _))) = (operand_prim(**left, self.namespace), operand_prim(**right, self.namespace)) {
                        assert(lhs.1 == Typing::Primitive(pl) && lhs.0.identity == il);
                        assert(rhs.1 == Typing::Primitive(pr));
                    }
                }
                let ghost kind = binop_result_kind(binop_from_ast(*operator));
                let ghost lt = lhs.1;
                let r = self.typecheck_binop(lhs, rhs, operator, span);
                proof {
                    if kind == 0 && r is Ok {
                        if let Some(et) = expr_typing(**left, self.namespace) {
                            crate::cir::lemma_typing_same_transitive(et, lt, r->Ok_0.1);
                        }
                    }
                }
                r
            },
            ast::ExpressionData::UnaryOperation { operator, operand } => {
                let operator = crate::cir::UnaryOperation::from_ast(operator);
                let (operand, operand_type) = self.typecheck_expr(operand, function_call)?;
                let operand_id = operand.identity;
                let (operation_type, id) = match operator {
                    crate::cir::UnaryOperation::Addr => {
                        match operand_id {
                            ExpressionIdentity::Locatable(mutable) => (
                                Typing::Pointer { mutable, typ: Box::new(operand_type) },
                                ExpressionIdentity::Immediate,
                            ),
                            _ => {
                                return Err(
                                    SemanticError {
                                        span,
                                        case: SemanticErrorCase::InvalidExpression {
                                            what: expr_text(&operand),
                                            should: String::from_str("valid value to reference"),
                                        },
                                    },
                                );
                            },
                        }
                    },
                    crate::cir::UnaryOperation::Neg => {
                        if operand_type.is_integer() || operand_type.is_float() {
                            let t = match operand_type.get_signed() {
                                Some(signed) => signed,
                                None => operand_type,
                            };
                            (t, ExpressionIdentity::Immediate)
                        } else {
                            return Err(
                                SemanticError {
                                    span,
                                    case: SemanticErrorCase::TypeMismatch {
                                        got: typing_text(&operand_type),
                                        expected: String::from_str("integer or floating-point"),
                                    },
                                },
                            );
                        }
                    },
                    crate::cir::UnaryOperation::Not | crate::cir::UnaryOperation::BNot => (operand_type, ExpressionIdentity::Immediate),
                    crate::cir::UnaryOperation::Deref => {
                        match operand_id {
                            ExpressionIdentity::Immediate => {
                                return Err(
                                    SemanticError {
                                        span,
                                        case: SemanticErrorCase::InvalidExpression {
                                            what: expr_text(&operand),
                                            should: String::from_str("valid value to dereference"),
                                        },
                                    },
                                );
                            },
                            _ => {
                                match operand_type {
                                    Typing::Pointer { typ, mutable } => (*typ, ExpressionIdentity::Locatable(mutable)),
                                    other => {
                                        return Err(
                                            SemanticError {
                                                span,
                                                case: SemanticErrorCase::TypeMismatch {
                                                    got: typing_text(&other),
                                                    expected: String::from_str("pointer"),
                                                },
                                            },
                                        );
                                    },
                                }
                            },
                        }
                    },
                };
                Ok((Expression { span, data: ExpressionData::UnaryOperation { operator, operand: Box::new(operand) }, identity: id }, operation_type))
            },
            ast::ExpressionData::CharacterLiteral { value } => Ok((
                Expression { span, data: ExpressionData::Integer { value: (*value as u32) as i128 }, identity: ExpressionIdentity::Immediate },
                Typing::Primitive(Primitive::Char),
            )),
            ast::ExpressionData::StrLiteral { value } | ast::ExpressionData::StringLiteral { value } | ast::ExpressionData::CStrLiteral { value } => Ok((
                Expression { span, data: ExpressionData::StringLiteral { value: value.clone() }, identity: ExpressionIdentity::Immediate },
                Typing::Primitive(Primitive::Str),
            )),
            ast::ExpressionData::Tuple { exprs } => {
                let mut validated_exprs: Vec<Expression> = Vec::new();
                let mut types: Vec<Typing> = Vec::new();
                let mut i: usize = 0;
                while i < exprs.len()
                    invariant
                        self.wf(),
                        all_arrays_filled(exprs@),
                        i <= exprs@.len(),
                        validated_exprs@.len() == i,
                        types@.len() == i,
                        forall|j: int| 0 <= j < i && literal_prim(exprs@[j]) is Some ==> #[trigger] types@[j] == Typing::Primitive(literal_prim(exprs@[j])->0),
                        forall|j: int| 0 <= j < i ==> (expr_typing(#[trigger] exprs@[j], self.namespace) matches Some(tj) ==> typing_same(tj, types@[j])),
                    decreases exprs@.len() - i,
                {
                    proof {
                        lemma_all_arrays_filled(exprs@, i as int);
                        assert(decreases_to!(exprs@ => exprs@[i as int]));
                    }
                    let (e, t) = self.typecheck_expr(&exprs[i], function_call)?;
                    validated_exprs.push(e);
                    let ghost before = types@;
                    types.push(t);
                    proof {
                        assert forall|j: int| 0 <= j < i + 1 && literal_prim(exprs@[j]) is Some implies #[trigger] types@[j] == Typing::Primitive(literal_prim(exprs@[j])->0) by {
                            if j < i {
                                assert(types@[j] == before[j]);
                            }
                        }
                        assert forall|j: int| 0 <= j < i + 1 implies (expr_typing(#[trigger] exprs@[j], self.namespace) matches Some(tj) ==> typing_same(tj, types@[j])) by {
                            if j < i {
                                assert(types@[j] == before[j]);
                            }
                        }
                    }
                    i = i + 1;
                }
                proof {
                    if literal_prims(exprs@) {
                        assert forall|j: int| 0 <= j < exprs@.len() implies #[trigger] types@[j] == literal_typings(exprs@)[j] by {
                            assert(literal_prim(exprs@[j]) is Some);
                        }
                        assert(types@ =~= literal_typings(exprs@));
                    }
                }
                let copies = crate::cir::copy_typings(&types);
                Ok((
                    Expression { span, data: ExpressionData::Tuple { exprs: validated_exprs, types: copies }, identity: ExpressionIdentity::Immediate },
                    Typing::Tuple { types },
                ))
            },
            ast::ExpressionData::Array { exprs, amount } => {
                let mut checked_exprs: Vec<Expression> = Vec::new();
                proof {
                    lemma_all_arrays_filled(exprs@, 0);
                    assert(decreases_to!(exprs@ => exprs@[0]));
                }
                let (first, element_type) = self.typecheck_expr(&exprs[0], function_call)?;
                checked_exprs.push(first);
                let mut i: usize = 1;
                while i < exprs.len()
                    invariant
                        self.wf(),
                        all_arrays_filled(exprs@),
                        1 <= i <= exprs@.len(),
                        checked_exprs@.len() == i,
                    decreases exprs@.len() - i,
                {
                    proof {
                        lemma_all_arrays_filled(exprs@, i as int);
                        assert(decreases_to!(exprs@ => exprs@[i as int]));
                    }
                    let (e, t) = self.typecheck_expr(&exprs[i], function_call)?;
                    let element_span = exprs[i].span;
                    match self.make_inference(e, &t, &element_type) {
                        Some(inferred) => checked_exprs.push(inferred),
                        None => {
                            return Err(
                                SemanticError {
                                    span: element_span,
                                    case: SemanticErrorCase::TypeMismatch { got: typing_text(&t), expected: typing_text(&element_type) },
                                },
                            );
                        },
                    }
                    i = i + 1;
                }
                let literal_type = element_type.copy();
                Ok((
                    Expression { span, data: ExpressionData::ArrayLiteral { exprs: checked_exprs, typ: literal_type }, identity: ExpressionIdentity::Immediate },
                    Typing::Array { typ: Box::new(element_type), amount: *amount },
                ))
            },
            ast::ExpressionData::TupleAccess { origin, field } => {
                let (tuple, typ) = self.typecheck_expr(origin, function_call)?;
                let id = tuple.identity;
                match &typ {
                    Typing::Tuple { types } => {
                        if *field >= types.len() {
                            return Err(
                                SemanticError {
                                    span,
                                    case: SemanticErrorCase::InvalidTupleMember {
                                        member: *field,
                                        tuple: typing_text(&typ),
                                        member_count: types.len(),
                                    },
                                },
                            );
                        }
                        let member = types[*field].copy();
                        proof {
                            if let Some(et) = expr_typing(*expr, self.namespace) {
                                if origin.data is Tuple {
                                    assert(typing_same(et, types@[*field as int]));
                                } else if let Some(Typing::Tuple { types: ts }) = expr_typing(**origin, self.namespace) {
                                    crate::cir::lemma_typings_same_index(ts@, types@, *field as int);
                                }
                                crate::cir::lemma_typing_same_transitive(et, types@[*field as int], member);
                            }
                        }
                        Ok((Expression { span, data: ExpressionData::TupleAccess { origin: Box::new(tuple), field: *field }, identity: id }, member))
                    },
                    _ => Err(
                        SemanticError {
                            span: tuple.span,
                            case: SemanticErrorCase::NonTupleMemberAccess { thing: expr_text(&tuple), typ: typing_text(&typ) },
                        },
                    ),
                }
            },
            ast::ExpressionData::Subscript { origin, inner } => {
                let (origin, origin_type) = self.typecheck_expr(origin, function_call)?;
                let origin_id = origin.identity;
                let (inner, inner_type) = self.typecheck_expr(inner, function_call)?;
                let inner_span = inner.span;
                match origin_type {
                    Typing::Array { typ, .. } => {
                        match self.make_inference(inner, &inner_type, &Typing::Primitive(Primitive::UInt)) {
                            Some(index) => Ok((
                                Expression { span, data: ExpressionData::ArraySubscript { origin: Box::new(origin), index: Box::new(index) }, identity: origin_id },
                                *typ,
                            )),
                            None => Err(
                                SemanticError {
                                    span: inner_span,
                                    case: SemanticErrorCase::TypeMismatch {
                                        got: typing_text(&inner_type),
                                        expected: String::from_str("unsigned integer"),
                                    },
                                },
                            ),
                        }
                    },
                    other => Err(
                        SemanticError {
                            span: origin.span,
                            case: SemanticErrorCase::IndexNonIndexable { thing: expr_text(&origin), got: typing_text(&other) },
                        },
                    ),
                }
            },
            ast::ExpressionData::FieldAccess { origin, field } => {
                if let ast::ExpressionData::Identifier { name } = &origin.data {
                    if let Some(k) = lookup(&self.namespace.enums, name.as_str()) {
                        let e = &self.namespace.enums[k].2;
                        let mut found = false;
                        let mut v: usize = 0;
                        while v < e.variants.len()
                            invariant
                                v <= e.variants@.len(),
                            decreases e.variants@.len() - v,
                        {
                            if str_eq(e.variants[v].as_str(), field.as_str()) {
                                found = true;
                            }
                            v = v + 1;
                        }
                        if !found {
                            return Err(
                                SemanticError {
                                    span: origin.span,
                                    case: SemanticErrorCase::UnknownEnumVariant { enumeration: e.name.clone(), variant: field.clone() },
                                },
                            );
                        }
                        return Ok((
                            Expression {
                                span,
                                data: ExpressionData::EnumVariant { origin: e.name.clone(), variant: field.clone() },
                                identity: ExpressionIdentity::Immediate,
                            },
                            Typing::Enum(e.copy()),
                        ));
                    }
                }
                let meta = self.typecheck_expr(origin, function_call)?;
                let ghost origin_typing = meta.1;
                let (expression, typing) = self.auto_dereference(meta);
                proof {
                    if let Some(ot) = expr_typing(**origin, self.namespace) {
                        lemma_pointee_all_same(ot, origin_typing);
                    }
                }
                let id = expression.identity;
                match &typing {
                    Typing::Struct(st) => {
                        let mut found: Option<usize> = None;
                        let mut f: usize = 0;
                        assert(st.fields@.subrange(0, 0).len() == 0);
                        while f < st.fields.len()
                            invariant
                                f <= st.fields@.len(),
                                found matches Some(x) ==> x < st.fields@.len() && crate::cir::field_typing(st.fields@.subrange(0, f as int), field@) == Some(st.fields@[x as int].typing),
                                found is None ==> crate::cir::field_typing(st.fields@.subrange(0, f as int), field@) is None,
                            decreases st.fields@.len() - f,
                        {
                            assert(st.fields@.subrange(0, f + 1).subrange(0, f as int) =~= st.fields@.subrange(0, f as int));
                            if str_eq(st.fields[f].name.as_str(), field.as_str()) {
                                found = Some(f);
                            }
                            f = f + 1;
                        }
                        assert(st.fields@.subrange(0, st.fields@.len() as int) =~= st.fields@);
                        proof {
                            if let Some(ot) = expr_typing(**origin, self.namespace) {
                                if let Typing::Struct(s0) = pointee_all(ot) {
                                    crate::cir::lemma_field_typing_same(s0.fields@, st.fields@, field@);
                                }
                            }
                        }
                        match found {
                            Some(x) => {
                                let t = st.fields[x].typing.copy();
                                proof {
                                    if let Some(et) = expr_typing(*expr, self.namespace) {
                                        crate::cir::lemma_typing_same_transitive(et, st.fields@[x as int].typing, t);
                                    }
                                }
                                Ok((Expression { span, data: ExpressionData::FieldAccess { origin: Box::new(expression), field: field.clone() }, identity: id }, t))
                            },
                            None => {
                                let mut from = String::from_str("struct ");
                                from.append(st.name.as_str());
                                Err(SemanticError { span, case: SemanticErrorCase::UnresolvedField { name: field.clone(), from } })
                            },
                        }
                    },
                    _ => Err(
                        SemanticError {
                            span: origin.span,
                            case: SemanticErrorCase::NonAggregateFieldAccess { typ: typing_text(&typing), field: field.clone() },
                        },
                    ),
                }
            },
            ast::ExpressionData::FunctionCall { .. } => self.typecheck_call(expr),
            ast::ExpressionData::StructInit { .. } => self.typecheck_struct_init(expr, function_call),
            ast::ExpressionData::IntegerLiteral { value } => Ok((
                Expression { span, data: ExpressionData::Integer { value: *value }, identity: ExpressionIdentity::Immediate },
                Typing::Primitive(Primitive::UInt),
            )),
            ast::ExpressionData::FloatLiteral { whole, fraction } => Ok((
                Expression { span, data: ExpressionData::Float { whole: whole.clone(), fraction: fraction.clone() }, identity: ExpressionIdentity::Immediate },
                Typing::Primitive(Primitive::Float),
            )),
            ast::ExpressionData::BooleanLiteral { value } => Ok((
                Expression { span, data: ExpressionData::Bool { value: *value }, identity: ExpressionIdentity::Immediate },
                Typing::Primitive(Primitive::Bool),
            )),
            ast::ExpressionData::Identifier { name } => {
                if let Some(k) = lookup(&self.namespace.constants, name.as_str()) {
                    let t = self.namespace.constants[k].2.copy();
                    return Ok((Expression { span, data: ExpressionData::Identifier { name: name.clone() }, identity: ExpressionIdentity::Immediate }, t));
                }
                if let Some(k) = lookup(&self.namespace.functions, name.as_str()) {
                    let f = &self.namespace.functions[k].2;
                    if f.extrn && !function_call {
                        return Err(SemanticError { span, case: SemanticErrorCase::UseExternFnAsExpr { name: f.name.clone() } });
                    }
                    let mut args: Vec<Typing> = Vec::new();
                    let mut a: usize = 0;
                    while a < f.arguments.len()
                        invariant
                            a <= f.arguments@.len(),
                            args@.len() == a,
                            forall|k: int| 0 <= k < a ==> typing_same(f.arguments@[k].typing, #[trigger] args@[k]),
                        decreases f.arguments@.len() - a,
                    {
                        args.push(f.arguments[a].typing.copy());
                        a = a + 1;
                    }
                    return Ok((
                        Expression { span, data: ExpressionData::Identifier { name: name.clone() }, identity: ExpressionIdentity::Function(f.extrn) },
                        Typing::Function { ret: Box::new(f.ret.copy()), arguments: args, variadic: f.variadic, extrn: f.extrn },
                    ));
                }
                if let Some(i) = Intrinsic::from_str(name.as_str()) {
                    return Ok((
                        Expression { span, data: ExpressionData::Identifier { name: name.clone() }, identity: ExpressionIdentity::Function(false) },
                        Typing::Intrinsic(i),
                    ));
                }
                match self.lookup_local(name.as_str()) {
                    Some((a, b)) => {
                        let var = &self.namespace.locals[a].content[b].1;
                        Ok((
                            Expression { span, data: ExpressionData::Identifier { name: name.clone() }, identity: ExpressionIdentity::Locatable(var.mutable) },
                            var.typing.copy(),
                        ))
                    },
                    None => Err(SemanticError { span, case: SemanticErrorCase::UnresolvedName { name: name.clone() } }),
                }
            },
        }
    }

    /// Whether a checked block returns on every path, and the span where that was seen;
    /// at the top of a function that returns a value, a block that may end without
    /// returning is an error.
    #[verifier::loop_isolation(false)]
    fn controlcheck_inner_function_block(&self, span: Span, block: &Vec<crate::cir::Statement>, is_top_level: bool, function_name: &str, return_type: &Typing) -> (r: Result<(bool, Span), SemanticError>)
        ensures
            r matches Ok(x) ==> x.0 == block_returns(block@),
            r is Err <==> (is_top_level && !(*return_type is Void) && !block_returns(block@)),
            r matches Err(e) ==> (e.case matches SemanticErrorCase::NoReturn { function, return_type: t }
                && function@ == function_name@ && t@ == typing_display(*return_type)),
        decreases block@,
    {
        let mut last_span = span;
        let mut i: usize = 0;
        assert(block@.subrange(0, 0).len() == 0);
        while i < block.len()
            invariant
                i <= block@.len(),
                !block_returns(block@.subrange(0, i as int)),
            decreases block@.len() - i,
        {
            let statement = &block[i];
            last_span = statement.span;
            let ghost next = block@.subrange(0, i + 1);
            assert(next.subrange(0, next.len() - 1) =~= block@.subrange(0, i as int));
            assert(next[next.len() - 1] == *statement);
            match &statement.kind {
                crate::cir::StatementKind::ReturnStatement { .. } => {
                    proof {
                        assert(statement_returns(*statement));
                        assert(block_returns(next));
                        lemma_block_returns_extends(block@, i + 1);
                    }
                    return Ok((true, statement.span));
                },
                crate::cir::StatementKind::IfStatement { block_true, block_false, .. } => {
                    proof {
                        assert(decreases_to!(block@ => block@[i as int]));
                    }
                    let (a, s1) = self.controlcheck_inner_function_block(last_span, block_true, false, function_name, return_type)?;
                    let (b, s2) = self.controlcheck_inner_function_block(last_span, block_false, false, function_name, return_type)?;
                    if a && b {
                        proof {
                            assert(statement_returns(*statement));
                            assert(block_returns(next));
                            lemma_block_returns_extends(block@, i + 1);
                        }
                        return Ok((true, s2));
                    }
                    last_span = if a {
                        s2
                    } else {
                        s1
                    };
                    assert(!statement_returns(*statement));
                },
                _ => {
                    assert(!statement_returns(*statement));
                },
            }
            i = i + 1;
        }
        assert(block@.subrange(0, block@.len() as int) =~= block@);
        let is_void = match return_type {
            Typing::Void => true,
            _ => false,
        };
        if is_top_level && !is_void {
            let mut function = String::new();
            function.append(function_name);
            return Err(
                SemanticError {
                    span: last_span,
                    case: SemanticErrorCase::NoReturn { function, return_type: typing_text(return_type) },
                },
            );
        }
        Ok((false, last_span))
    }

    /// Checks that a function that returns a value returns one on every path.
    fn controlcheck_function_block(&self, span: Span, block: &Vec<crate::cir::Statement>, function_name: &str, return_type: &Typing) -> (r: Result<(), SemanticError>)
        ensures
            r is Err <==> (!(*return_type is Void) && !block_returns(block@)),
    {
        self.controlcheck_inner_function_block(span, block, true, function_name, return_type)?;
        Ok(())
    }

    /// Declares a local variable in a scope, replacing a variable of the same name.
    fn declare(scope: &mut Vec<(String, Variable)>, name: String, var: Variable)
        ensures
            exists|k: int| 0 <= k < final(scope)@.len() && #[trigger] final(scope)@[k].0@ == name@ && final(scope)@[k].1 == var,
            final(scope)@ == with_binding(old(scope)@, name, var),
    {
        let ghost s0 = old(scope)@;
        let ghost nm = name;
        let ghost vv = var;
        let mut k: usize = 0;
        let mut found = false;
        while k < scope.len()
            invariant_except_break
                !found,
            invariant
                k <= scope@.len(),
                scope@ == s0,
                forall|m: int| 0 <= m < k ==> s0[m].0@ != nm@,
                found ==> k < s0.len() && s0[k as int].0@ == nm@,
                nm == name,
                vv == var,
            ensures
                !found ==> k == s0.len(),
            decreases scope@.len() - k,
        {
            if str_eq(scope[k].0.as_str(), name.as_str()) {
                found = true;
                break;
            }
            k = k + 1;
        }
        if found {
            proof {
                lemma_with_binding_at(s0, nm, vv, k as int);
            }
            scope.set(k, (name, var));
            assert(scope@[k as int].0@ == nm@);
        } else {
            proof {
                assert(!(exists|j: int| 0 <= j < s0.len() && #[trigger] s0[j].0@ == nm@ && forall|m: int| 0 <= m < j ==> s0[m].0@ != nm@));
            }
            scope.push((name, var));
            assert(scope@ == s0.push((nm, vv)));
            assert(scope@[scope@.len() - 1].0@ == nm@);
        }
    }

    /// Declares a local variable in the innermost scope.
    fn declare_local(&mut self, name: String, var: Variable)
        requires
            old(self).wf(),
            old(self).namespace.locals@.len() > 0,
        ensures
            final(self).wf(),
            final(self).namespace.locals@.len() == old(self).namespace.locals@.len(),
            final(self).errors@ == old(self).errors@,
            names_kept(old(self).namespace, final(self).namespace),
            forall|i: int| 0 <= i < old(self).namespace.locals@.len() - 1 ==> #[trigger] final(self).namespace.locals@[i] == old(self).namespace.locals@[i],
            final(self).namespace.locals@.last().content@ == with_binding(old(self).namespace.locals@.last().content@, name, var),
            final(self).namespace.constants == old(self).namespace.constants,
            final(self).namespace.structs == old(self).namespace.structs,
            final(self).namespace.enums == old(self).namespace.enums,
            final(self).namespace.functions == old(self).namespace.functions,
    {
        let mut scope = self.namespace.locals.pop().unwrap();
        Self::declare(&mut scope.content, name, var);
        self.namespace.locals.push(scope);
    }

    /// Whether some scope declares `name`.
    fn declared_locally(&self, name: &str) -> (r: bool)
        ensures
            r == (find_local(self.namespace.locals@, name@) is Some),
    {
        self.lookup_local(name).is_some()
    }

    /// Checks the statements of a block in a scope of their own.
    #[verifier::loop_isolation(false)]
    #[verifier::rlimit(80)]
    fn typecheck_block(&mut self, block: Vec<ast::Node>, expects_return: Option<&Typing>) -> (r: Result<Vec<crate::cir::Statement>, SemanticError>)
        requires
            old(self).wf(),
            nodes_arrays_filled(block@),
        ensures
            final(self).wf(),
            final(self).errors@ == old(self).errors@,
            final(self).namespace.locals@.len() >= old(self).namespace.locals@.len(),
            r is Ok ==> final(self).namespace.locals@.len() == old(self).namespace.locals@.len(),
            r matches Ok(b) ==> b@.len() == block@.len(),
            names_kept(old(self).namespace, final(self).namespace),
            r matches Ok(b) ==> forall|i: int| 0 <= i < block@.len() ==> checked_as(block@[i], #[trigger] b@[i]),
            headers_only(block@) && (forall|i: int| 0 <= i < block@.len() ==> !declared(old(self).namespace, #[trigger] declaration_name(block@[i].stmt)->0))
                ==> r is Ok,
        decreases block@, 0nat,
    {
        let ghost entry = block@;
        let ghost plain = headers_only(entry) && (forall|i: int| 0 <= i < entry.len() ==> !declared(old(self).namespace, #[trigger] declaration_name(entry[i].stmt)->0));
        proof {
            lemma_nodes_arrays_filled(block@);
        }
        let mut block = block;
        let mut blk: Vec<crate::cir::Statement> = Vec::new();
        self.namespace.locals.push(Scope { content: Vec::new() });
        let depth = self.namespace.locals.len();
        let n = block.len();
        let mut k: usize = 0;
        assert(block@ =~= entry.subrange(0, entry.len() as int));
        while k < n
            invariant
                self.wf(),
                self.errors@ == old(self).errors@,
                n == entry.len(),
                k <= n,
                block@ == entry.subrange(k as int, n as int),
                blk@.len() == k,
                forall|i: int| 0 <= i < entry.len() ==> #[trigger] node_arrays_filled(entry[i]),
                depth == self.namespace.locals@.len(),
                depth == old(self).namespace.locals@.len() + 1,
                blk@.len() == k,
                names_kept(old(self).namespace, self.namespace),
                forall|i: int| 0 <= i < k ==> checked_as(entry[i], #[trigger] blk@[i]),
                plain == (headers_only(entry) && (forall|i: int| 0 <= i < entry.len() ==> !declared(old(self).namespace, #[trigger] declaration_name(entry[i].stmt)->0))),
                plain ==> forall|j: int| k <= j < n ==> !declared(self.namespace, #[trigger] declaration_name(entry[j].stmt)->0),
            decreases n - k,
        {
            let node = block.remove(0);
            assert(node == entry[k as int]);
            proof {
                assert(decreases_to!(entry => entry[k as int]));
                assert(decreases_to!(entry, 0nat => node, 1nat));
            }
            assert(block@ =~= entry.subrange(k + 1, n as int));
            let ghost before_ns = self.namespace;
            let ghost before_blk = blk@;
            match self.typecheck_node(node, expects_return) {
                Ok(x) => blk.push(x),
                Err(e) => {
                    self.namespace.locals.pop();
                    return Err(e);
                },
            }
            proof {
                assert forall|i: int| 0 <= i < k + 1 implies checked_as(entry[i], #[trigger] blk@[i]) by {
                    if i < k {
                        assert(blk@[i] == before_blk[i]);
                    }
                }
                if plain {
                    assert(header_declaration(entry[k as int].stmt));
                    assert forall|j: int| k + 1 <= j < n implies !declared(self.namespace, #[trigger] declaration_name(entry[j].stmt)->0) by {
                        assert(header_declaration(entry[j].stmt));
                        assert(declaration_name(entry[k as int].stmt) != declaration_name(entry[j].stmt));
                        assert(!declared(before_ns, declaration_name(entry[j].stmt)->0));
                    }
                }
            }
            k = k + 1;
        }
        self.namespace.locals.pop();
        Ok(blk)
    }

    /// Checks the statements of a function body in a scope that holds its arguments.
    #[verifier::loop_isolation(false)]
    #[verifier::rlimit(80)]
    fn typecheck_function_block(&mut self, block: Vec<ast::Node>, return_type: &Typing, function_name: &str, function_arguments: Vec<(String, Variable)>) -> (r: Result<Vec<crate::cir::Statement>, SemanticError>)
        requires
            old(self).wf(),
            nodes_arrays_filled(block@),
        ensures
            final(self).wf(),
            final(self).errors@ == old(self).errors@,
            final(self).namespace.locals@.len() >= old(self).namespace.locals@.len(),
            r is Ok ==> final(self).namespace.locals@.len() == old(self).namespace.locals@.len(),
            r matches Ok(b) ==> b@.len() == block@.len(),
            names_kept(old(self).namespace, final(self).namespace),
            r matches Ok(b) ==> forall|i: int| 0 <= i < block@.len() ==> checked_as(block@[i], #[trigger] b@[i]),
            headers_only(block@) && (forall|i: int| 0 <= i < block@.len() ==> !declared(old(self).namespace, #[trigger] declaration_name(block@[i].stmt)->0))
                ==> r is Ok,
            let_only(block@) && function_arguments@.len() == 0 && old(self).namespace.locals@.len() == 0 ==> r is Ok
                && final(self).namespace.functions == old(self).namespace.functions && final(self).namespace.structs == old(self).namespace.structs
                && final(self).namespace.enums == old(self).namespace.enums && final(self).namespace.constants == old(self).namespace.constants,
        decreases block@, 0nat,
    {
        let ghost entry = block@;
        let ghost plain = headers_only(entry) && (forall|i: int| 0 <= i < entry.len() ==> !declared(old(self).namespace, #[trigger] declaration_name(entry[i].stmt)->0));
        proof {
            lemma_nodes_arrays_filled(block@);
        }
        let ghost lets = let_only(entry) && function_arguments@.len() == 0 && old(self).namespace.locals@.len() == 0;
        let mut name = String::new();
        name.append(function_name);
        self.current_function = name;
        let mut block = block;
        let mut blk: Vec<crate::cir::Statement> = Vec::new();
        self.namespace.locals.push(Scope { content: function_arguments });
        let depth = self.namespace.locals.len();
        let n = block.len();
        let mut k: usize = 0;
        assert(block@ =~= entry.subrange(0, entry.len() as int));
        while k < n
            invariant
                self.wf(),
                self.errors@ == old(self).errors@,
                n == entry.len(),
                k <= n,
                block@ == entry.subrange(k as int, n as int),
                forall|i: int| 0 <= i < entry.len() ==> #[trigger] node_arrays_filled(entry[i]),
                depth == self.namespace.locals@.len(),
                depth == old(self).namespace.locals@.len() + 1,
                blk@.len() == k,
                names_kept(old(self).namespace, self.namespace),
                forall|i: int| 0 <= i < k ==> checked_as(entry[i], #[trigger] blk@[i]),
                plain == (headers_only(entry) && (forall|i: int| 0 <= i < entry.len() ==> !declared(old(self).namespace, #[trigger] declaration_name(entry[i].stmt)->0))),
                plain ==> forall|j: int| k <= j < n ==> !declared(self.namespace, #[trigger] declaration_name(entry[j].stmt)->0),
                lets ==> self.namespace.functions == old(self).namespace.functions && self.namespace.structs == old(self).namespace.structs
                    && self.namespace.enums == old(self).namespace.enums && self.namespace.constants == old(self).namespace.constants,
                lets ==> forall|j: int| k <= j < n ==> fresh_in(self.namespace.locals@[0].content@, #[trigger] literal_binding(entry[j].stmt)->0),
            decreases n - k,
        {
            let node = block.remove(0);
            assert(node == entry[k as int]);
            proof {
                assert(decreases_to!(entry => entry[k as int]));
                assert(decreases_to!(entry, 0nat => node, 1nat));
            }
            assert(block@ =~= entry.subrange(k + 1, n as int));
            let ghost before_ns = self.namespace;
            let ghost before_blk = blk@;
            proof {
                if lets {
                    assert(literal_binding(entry[k as int].stmt) is Some);
                    lemma_find_local_single(self.namespace.locals@, literal_binding(entry[k as int].stmt)->0);
                }
            }
            match self.typecheck_node(node, Some(return_type)) {
                Ok(x) => blk.push(x),
                Err(e) => {
                    self.namespace.locals.pop();
                    return Err(e);
                },
            }
            proof {
                assert forall|i: int| 0 <= i < k + 1 implies checked_as(entry[i], #[trigger] blk@[i]) by {
                    if i < k {
                        assert(blk@[i] == before_blk[i]);
                    }
                }
                if plain {
                    assert(header_declaration(entry[k as int].stmt));
                    assert forall|j: int| k + 1 <= j < n implies !declared(self.namespace, #[trigger] declaration_name(entry[j].stmt)->0) by {
                        assert(header_declaration(entry[j].stmt));
                        assert(declaration_name(entry[k as int].stmt) != declaration_name(entry[j].stmt));
                        assert(!declared(before_ns, declaration_name(entry[j].stmt)->0));
                    }
                }
                if lets {
                    let bk = literal_binding(entry[k as int].stmt)->0;
                    assert forall|j: int| k + 1 <= j < n implies fresh_in(self.namespace.locals@[0].content@, #[trigger] literal_binding(entry[j].stmt)->0) by {
                        assert(literal_binding(entry[j].stmt) is Some);
                        assert(literal_binding(entry[k as int].stmt) != literal_binding(entry[j].stmt));
                        assert(fresh_in(before_ns.locals@[0].content@, literal_binding(entry[j].stmt)->0));
                        match entry[k as int].stmt {
                            ast::Statement::LetStatement(st) => {
                                lemma_with_binding_fresh(before_ns.locals@[0].content@, st.binding,
                                    Variable { mutable: false, typing: Typing::Primitive(literal_prim(st.assignment)->0) }, literal_binding(entry[j].stmt)->0);
                            },
                            ast::Statement::VarStatement(st) => {
                                lemma_with_binding_fresh(before_ns.locals@[0].content@, st.binding,
                                    Variable { mutable: true, typing: Typing::Primitive(literal_prim(st.assignment)->0) }, literal_binding(entry[j].stmt)->0);
                            },
                            _ => {},
                        }
                    }
                }
            }
            k = k + 1;
        }
        self.namespace.locals.pop();
        Ok(blk)
    }

    /// The arguments of a function as checked names and types.
    fn check_arguments(&self, arguments: &Vec<ast::TypedField>) -> (r: Result<Vec<crate::cir::TypedField>, SemanticError>)
        requires
            self.wf(),
        ensures
            r matches Ok(v) ==> v@.len() == arguments@.len(),
            plain_fields(arguments@) ==> r is Ok,
    {
        let mut validated: Vec<crate::cir::TypedField> = Vec::new();
        let mut i: usize = 0;
        while i < arguments.len()
            invariant
                self.wf(),
                i <= arguments@.len(),
                validated@.len() == i,
            decreases arguments@.len() - i,
        {
            proof {
                if plain_fields(arguments@) {
                    assert(plain_type(arguments@[i as int].typing));
                }
            }
            let typing = self.check_type(&arguments[i].typing)?;
            validated.push(crate::cir::TypedField { name: arguments[i].name.clone(), typing });
            i = i + 1;
        }
        Ok(validated)
    }

    /// The error for a name that is already defined, where it is.
    fn redefinition(&self, name: &String, span: Span) -> (r: Option<SemanticError>)
        requires
            self.wf(),
        ensures
            r is Some <==> (find(self.namespace.functions@, name@) is Some || find(self.namespace.enums@, name@) is Some
                || find(self.namespace.structs@, name@) is Some || find(self.namespace.constants@, name@) is Some),
            r matches Some(e) ==> e.span == span && e.case matches SemanticErrorCase::NameRedefinition { .. },
    {
        match self.check_name_availability(name.as_str()) {
            Some(defined) => Some(SemanticError { span, case: SemanticErrorCase::NameRedefinition { name: name.clone(), defined } }),
            None => None,
        }
    }

    /// Checks a statement and turns it into a checked one. Declarations add their names to
    /// the namespace; variables are declared in the innermost scope. `expects_return` is
    /// the return type of the function being checked, if any.
    #[verifier::loop_isolation(false)]
    #[verifier::rlimit(60)]
    fn typecheck_node(&mut self, node: ast::Node, expects_return: Option<&Typing>) -> (r: Result<crate::cir::Statement, SemanticError>)
        requires
            old(self).wf(),
            node_arrays_filled(node),
            (node.stmt is LetStatement || node.stmt is VarStatement) ==> old(self).namespace.locals@.len() > 0,
        ensures
            final(self).wf(),
            final(self).errors@ == old(self).errors@,
            final(self).namespace.locals@.len() >= old(self).namespace.locals@.len(),
            r is Ok ==> final(self).namespace.locals@.len() == old(self).namespace.locals@.len(),
            r matches Ok(st) ==> st.span == node.span,
            r matches Ok(st) ==> checked_as(node, st),
            names_kept(old(self).namespace, final(self).namespace),
            r is Ok && declaration_name(node.stmt) is Some ==> declared(final(self).namespace, declaration_name(node.stmt)->0),
            declaration_name(node.stmt) is Some && declared(old(self).namespace, declaration_name(node.stmt)->0) ==> (r matches Err(e)
                && e.span == node.span && e.case is NameRedefinition) && final(self).namespace == old(self).namespace,
            header_declaration(node.stmt) && !declared(old(self).namespace, declaration_name(node.stmt)->0) ==> r is Ok,
            match node.stmt {
                ast::Statement::LetStatement(st) => literal_prim(st.assignment) is Some && find_local(old(self).namespace.locals@, st.binding@) is None
                    ==> (r matches Ok(s) && (s.kind matches crate::cir::StatementKind::Variable { binding, typing, .. }
                        && binding@ == st.binding@ && typing == Typing::Primitive(literal_prim(st.assignment)->0)))
                    && final(self).namespace.locals@.last().content@ == with_binding(old(self).namespace.locals@.last().content@, st.binding,
                        Variable { mutable: false, typing: Typing::Primitive(literal_prim(st.assignment)->0) }),
                ast::Statement::VarStatement(st) => literal_prim(st.assignment) is Some && find_local(old(self).namespace.locals@, st.binding@) is None
                    ==> (r matches Ok(s) && (s.kind matches crate::cir::StatementKind::Variable { binding, typing, .. }
                        && binding@ == st.binding@ && typing == Typing::Primitive(literal_prim(st.assignment)->0)))
                    && final(self).namespace.locals@.last().content@ == with_binding(old(self).namespace.locals@.last().content@, st.binding,
                        Variable { mutable: true, typing: Typing::Primitive(literal_prim(st.assignment)->0) }),
                _ => true,
            },
            header_declaration(node.stmt) ==> forall|n: Seq<char>| n != declaration_name(node.stmt)->0 ==> (#[trigger] declared(final(self).namespace, n) <==> declared(old(self).namespace, n)),
            header_declaration(node.stmt) ==> forall|n: Seq<char>| n != declaration_name(node.stmt)->0 ==> #[trigger] find(final(self).namespace.functions@, n) == find(old(self).namespace.functions@, n),
            header_declaration(node.stmt) && !(node.stmt is ExternFnStatement) ==> final(self).namespace.functions@ == old(self).namespace.functions@,
            header_declaration(node.stmt) ==> forall|i: int| 0 <= i < old(self).namespace.functions@.len() && old(self).namespace.functions@[i].0@ != declaration_name(node.stmt)->0
                ==> #[trigger] final(self).namespace.functions@[i] == old(self).namespace.functions@[i],
            node.stmt is LetStatement || node.stmt is VarStatement ==> final(self).namespace.functions == old(self).namespace.functions
                && final(self).namespace.structs == old(self).namespace.structs && final(self).namespace.enums == old(self).namespace.enums
                && final(self).namespace.constants == old(self).namespace.constants,
            simple_function(node.stmt) && !declared(old(self).namespace, declaration_name(node.stmt)->0) && old(self).namespace.locals@.len() == 0 ==> r is Ok
                && final(self).namespace.structs == old(self).namespace.structs && final(self).namespace.enums == old(self).namespace.enums
                && final(self).namespace.constants == old(self).namespace.constants
                && declares_plain_fn(final(self).namespace.functions@, declaration_name(node.stmt)->0)
                && (forall|n: Seq<char>| n != declaration_name(node.stmt)->0 ==> #[trigger] find(final(self).namespace.functions@, n) == find(old(self).namespace.functions@, n))
                && (forall|i: int| 0 <= i < old(self).namespace.functions@.len() && old(self).namespace.functions@[i].0@ != declaration_name(node.stmt)->0
                    ==> #[trigger] final(self).namespace.functions@[i] == old(self).namespace.functions@[i]),
            match node.stmt {
                ast::Statement::ReturnStatement(st) => expects_return is None && st.expr is Some ==> (r matches Err(e)
                    && e.span == node.span && e.case matches SemanticErrorCase::MisplacedReturn),
                ast::Statement::LetStatement(st) => find_local(old(self).namespace.locals@, st.binding@) is Some ==> (r matches Err(e)
                    && e.span == node.span && e.case matches SemanticErrorCase::VariableRedefinition { .. }),
                ast::Statement::FnStatement(st) => find(old(self).namespace.functions@, st.name@) is Some ==> (r matches Err(e)
                    && e.case matches SemanticErrorCase::NameRedefinition { .. }),
                ast::Statement::StructStatement(st) => find(old(self).namespace.structs@, st.name@) is Some ==> (r matches Err(e)
                    && e.case matches SemanticErrorCase::NameRedefinition { .. }),
                ast::Statement::EnumStatement(st) => find(old(self).namespace.enums@, st.name@) is Some ==> (r matches Err(e)
                    && e.case matches SemanticErrorCase::NameRedefinition { .. }),
                _ => true,
            },
            match node.stmt {
                ast::Statement::LetStatement(st) => r matches Ok(s) ==> (s.kind matches crate::cir::StatementKind::Variable { binding, typing, .. }
                    && binding@ == st.binding@ && (expr_typing(st.assignment, old(self).namespace) matches Some(ty) ==> typing_same(ty, typing))
                    && binds_var(old(self).namespace.locals@.last().content@, final(self).namespace.locals@.last().content@, st.binding, false, typing)),
                ast::Statement::VarStatement(st) => r matches Ok(s) ==> (s.kind matches crate::cir::StatementKind::Variable { binding, typing, .. }
                    && binding@ == st.binding@ && (expr_typing(st.assignment, old(self).namespace) matches Some(ty) ==> typing_same(ty, typing))
                    && binds_var(old(self).namespace.locals@.last().content@, final(self).namespace.locals@.last().content@, st.binding, true, typing)),
                ast::Statement::IfStatement(st) => expr_typing(st.condition, old(self).namespace) matches Some(ct)
                    && !(ct matches Typing::Primitive(Primitive::Bool)) ==> r is Err,
                ast::Statement::ReturnStatement(st) => match (expects_return, st.expr) {
                    (Some(rt), Some(e)) => expr_typing(e, old(self).namespace) matches Some(Typing::Primitive(p))
                        && inference_of(Typing::Primitive(p), *rt) == Inference::Invalid ==> (r matches Err(err)
                        && (literal_prim(e) is Some ==> err.span == node.span
                            && (if *rt is Void { err.case is ReturnValueOnVoidFunction } else { err.case is MismatchedReturnType }))),
                    _ => true,
                },
                ast::Statement::ConstStatement(st) => match st.typing.typing {
                    ast::Typing::Named { name, generic: _ } => expr_typing(st.assignment, old(self).namespace) matches Some(Typing::Primitive(p))
                        && primitive_of(name@) matches Some(q) && inference_of(Typing::Primitive(p), Typing::Primitive(q)) == Inference::Invalid
                        ==> (r matches Err(err) && (literal_prim(st.assignment) is Some ==> err.span == st.typing.span
                            && err.case is TypeMismatch)),
                    _ => true,
                },
                ast::Statement::FnStatement(_) => r matches Ok(s) ==> (s.kind matches crate::cir::StatementKind::FnStatement(f)
                    && (f.head.ret is Void || block_returns(f.block@))),
                ast::Statement::WhileStatement(st) => expr_typing(st.condition, old(self).namespace) matches Some(ct)
                    && !(ct matches Typing::Primitive(Primitive::Bool)) ==> r is Err,
                _ => true,
            },
        decreases node, 1nat,
    {
        let span = node.span;
        match node.stmt {
            ast::Statement::LetStatement(stmt) => {
                if self.declared_locally(stmt.binding.as_str()) {
                    return Err(SemanticError { span, case: SemanticErrorCase::VariableRedefinition { name: stmt.binding.clone() } });
                }
                let (expr, typ) = self.typecheck_expr(&stmt.assignment, false)?;
                let ghost before = self.namespace.locals@.last().content@;
                let v = Variable { mutable: false, typing: typ.copy() };
                let ghost gv = v;
                self.declare_local(stmt.binding.clone(), v);
                assert(with_binding(before, stmt.binding, gv) == self.namespace.locals@.last().content@);
                Ok(crate::cir::Statement { span, kind: crate::cir::StatementKind::Variable { assignment: expr, binding: stmt.binding, typing: typ } })
            },
            ast::Statement::VarStatement(stmt) => {
                let (expr, typ) = self.typecheck_expr(&stmt.assignment, false)?;
                if self.declared_locally(stmt.binding.as_str()) {
                    return Err(SemanticError { span, case: SemanticErrorCase::VariableRedefinition { name: stmt.binding.clone() } });
                }
                let ghost before = self.namespace.locals@.last().content@;
                let v = Variable { mutable: true, typing: typ.copy() };
                let ghost gv = v;
                self.declare_local(stmt.binding.clone(), v);
                assert(with_binding(before, stmt.binding, gv) == self.namespace.locals@.last().content@);
                Ok(crate::cir::Statement { span, kind: crate::cir::StatementKind::Variable { assignment: expr, binding: stmt.binding, typing: typ } })
            },
            ast::Statement::ConstStatement(stmt) => {
                let (expr, typ) = self.typecheck_expr(&stmt.assignment, false)?;
                let annotated = self.check_type(&stmt.typing)?;
                insert(&mut self.namespace.constants, stmt.binding.clone(), span, typ.copy());
                match self.make_inference(expr, &typ, &annotated) {
                    Some(value) => Ok(crate::cir::Statement { span, kind: crate::cir::StatementKind::Constant { value, binding: stmt.binding, typing: typ } }),
                    None => Err(
                        SemanticError {
                            span: stmt.typing.span,
                            case: SemanticErrorCase::TypeMismatch { got: typing_text(&typ), expected: typing_text(&annotated) },
                        },
                    ),
                }
            },
            ast::Statement::ReturnStatement(stmt) => {
                if expects_return.is_none() && stmt.expr.is_some() {
                    return Err(SemanticError { span, case: SemanticErrorCase::MisplacedReturn });
                }
                match stmt.expr {
                    Some(e) => {
                        let (expr, typ) = self.typecheck_expr(&e, false)?;
                        let expected_return = expects_return.unwrap();
                        match self.make_inference(expr, &typ, expected_return) {
                            Some(value) => Ok(crate::cir::Statement { span, kind: crate::cir::StatementKind::ReturnStatement { value: Some(value), typing: typ } }),
                            None => {
                                let is_void = match expected_return {
                                    Typing::Void => true,
                                    _ => false,
                                };
                                if is_void {
                                    return Err(
                                        SemanticError {
                                            span,
                                            case: SemanticErrorCase::ReturnValueOnVoidFunction { function: self.current_function.clone() },
                                        },
                                    );
                                }
                                Err(
                                    SemanticError {
                                        span,
                                        case: SemanticErrorCase::MismatchedReturnType {
                                            function: self.current_function.clone(),
                                            got: typing_text(&typ),
                                            expected: typing_text(expected_return),
                                        },
                                    },
                                )
                            },
                        }
                    },
                    None => Ok(crate::cir::Statement { span, kind: crate::cir::StatementKind::ReturnStatement { value: None, typing: Typing::Void } }),
                }
            },
            ast::Statement::FnStatement(stmt) => {
                if let Some(e) = self.redefinition(&stmt.name, span) {
                    return Err(e);
                }
                let validated_args = self.check_arguments(&stmt.arguments)?;
                let validated_ret_type = match &stmt.ret {
                    Some(ret_type) => self.check_type(ret_type)?,
                    None => Typing::Void,
                };
                let mut arguments: Vec<(String, Variable)> = Vec::new();
                let mut i: usize = 0;
                while i < validated_args.len()
                    invariant
                        i <= validated_args@.len(),
                        i == 0 ==> arguments@.len() == 0,
                    decreases validated_args@.len() - i,
                {
                    let mutable = match &validated_args[i].typing {
                        Typing::Pointer { mutable: true, .. } => true,
                        _ => false,
                    };
                    Self::declare(&mut arguments, validated_args[i].name.clone(), Variable { mutable, typing: validated_args[i].typing.copy() });
                    i = i + 1;
                }
                let head = FunctionHead {
                    name: stmt.name.clone(),
                    ret: validated_ret_type.copy(),
                    arguments: validated_args,
                    variadic: false,
                    extrn: false,
                };
                insert(&mut self.namespace.functions, stmt.name.clone(), span, head.copy());
                let ghost declared_here = self.namespace;
                proof {
                    assert(decreases_to!(node => stmt.block.content@));
                    assert(declared(declared_here, stmt.name@));
                }
                proof {
                    assert(names_kept(old(self).namespace, self.namespace));
                }
                let validated_block = self.typecheck_function_block(stmt.block.content, &validated_ret_type, stmt.name.as_str(), arguments)?;
                self.controlcheck_function_block(span, &validated_block, stmt.name.as_str(), &validated_ret_type)?;
                proof {
                    assert(declared(self.namespace, stmt.name@));
                }
                Ok(crate::cir::Statement { span, kind: crate::cir::StatementKind::FnStatement(crate::cir::Function { head, block: validated_block }) })
            },
            ast::Statement::ExternFnStatement(stmt) => {
                if let Some(e) = self.redefinition(&stmt.name, span) {
                    return Err(e);
                }
                let validated_args = self.check_arguments(&stmt.arguments)?;
                let validated_ret_type = match &stmt.ret {
                    Some(ret_type) => self.check_type(ret_type)?,
                    None => Typing::Void,
                };
                let head = FunctionHead {
                    name: stmt.name.clone(),
                    ret: validated_ret_type,
                    arguments: validated_args,
                    variadic: stmt.variadic,
                    extrn: true,
                };
                insert(&mut self.namespace.functions, stmt.name.clone(), span, head.copy());
                Ok(crate::cir::Statement { span, kind: crate::cir::StatementKind::ExternFnStatement(head) })
            },
            ast::Statement::StructStatement(stmt) => {
                if let Some(e) = self.redefinition(&stmt.name, span) {
                    return Err(e);
                }
                let mut fields: Vec<crate::cir::TypedField> = Vec::new();
                let mut i: usize = 0;
                while i < stmt.fields.len()
                    invariant
                        self.wf(),
                        i <= stmt.fields@.len(),
                    decreases stmt.fields@.len() - i,
                {
                    let checked_type = self.check_type(&stmt.fields[i].typing)?;
                    let mut replaced = false;
                    let mut k: usize = 0;
                    while k < fields.len()
                        invariant
                            k <= fields@.len(),
                        decreases fields@.len() - k,
                    {
                        if !replaced && str_eq(fields[k].name.as_str(), stmt.fields[i].name.as_str()) {
                            replaced = true;
                        }
                        k = k + 1;
                    }
                    if replaced {
                        let mut k: usize = 0;
                        let mut updated: Vec<crate::cir::TypedField> = Vec::new();
                        let mut typing = Some(checked_type);
                        while k < fields.len()
                            invariant
                                k <= fields@.len(),
                            decreases fields@.len() - k,
                        {
                            if typing.is_some() && str_eq(fields[k].name.as_str(), stmt.fields[i].name.as_str()) {
                                let t = typing.take().unwrap();
                                updated.push(crate::cir::TypedField { name: fields[k].name.clone(), typing: t });
                            } else {
                                updated.push(crate::cir::TypedField { name: fields[k].name.clone(), typing: fields[k].typing.copy() });
                            }
                            k = k + 1;
                        }
                        fields = updated;
                    } else {
                        fields.push(crate::cir::TypedField { name: stmt.fields[i].name.clone(), typing: checked_type });
                    }
                    i = i + 1;
                }
                let e = Struct { name: stmt.name, fields };
                insert(&mut self.namespace.structs, e.name.clone(), span, e.copy());
                Ok(crate::cir::Statement { span, kind: crate::cir::StatementKind::StructStatement(e) })
            },
            ast::Statement::EnumStatement(stmt) => {
                if let Some(e) = self.redefinition(&stmt.name, span) {
                    return Err(e);
                }
                let e = Enum { name: stmt.name, variants: stmt.variants };
                insert(&mut self.namespace.enums, e.name.clone(), span, e.copy());
                Ok(crate::cir::Statement { span, kind: crate::cir::StatementKind::EnumStatement(e) })
            },
            ast::Statement::IfStatement(stmt) => {
                let condition_span = stmt.condition.span;
                let (condition, typing) = self.typecheck_expr(&stmt.condition, false)?;
                if !typing.is_bool() {
                    return Err(
                        SemanticError {
                            span: condition_span,
                            case: SemanticErrorCase::TypeMismatch { got: typing_text(&typing), expected: String::from_str("bool") },
                        },
                    );
                }
                proof {
                    assert(decreases_to!(node => stmt.block_true.content@));
                }
                self.namespace.locals.push(Scope { content: Vec::new() });
                proof {
                    assert(names_kept(old(self).namespace, self.namespace));
                }
                let block_true = self.typecheck_block(stmt.block_true.content, expects_return)?;
                self.namespace.locals.pop();
                self.namespace.locals.push(Scope { content: Vec::new() });
                proof {
                    assert(names_kept(old(self).namespace, self.namespace));
                }
                let block_false = match stmt.block_false {
                    Some(b) => {
                        proof {
                            assert(decreases_to!(node => b.content@));
                        }
                        self.typecheck_block(b.content, expects_return)?
                    },
                    None => Vec::new(),
                };
                self.namespace.locals.pop();
                proof {
                    assert(names_kept(old(self).namespace, self.namespace));
                }
                Ok(crate::cir::Statement { span, kind: crate::cir::StatementKind::IfStatement { condition, block_true, block_false } })
            },
            ast::Statement::WhileStatement(stmt) => {
                let condition_span = stmt.condition.span;
                let (condition, typing) = self.typecheck_expr(&stmt.condition, false)?;
                if !typing.is_bool() {
                    return Err(
                        SemanticError {
                            span: condition_span,
                            case: SemanticErrorCase::TypeMismatch { got: typing_text(&typing), expected: String::from_str("bool") },
                        },
                    );
                }
                proof {
                    assert(decreases_to!(node => stmt.block.content@));
                }
                self.namespace.locals.push(Scope { content: Vec::new() });
                proof {
                    assert(names_kept(old(self).namespace, self.namespace));
                }
                let block = self.typecheck_block(stmt.block.content, expects_return)?;
                self.namespace.locals.pop();
                Ok(crate::cir::Statement { span, kind: crate::cir::StatementKind::WhileStatement { condition, block } })
            },
            ast::Statement::ExpressionStatement(stmt) => {
                let (expr, _) = self.typecheck_expr(&stmt, false)?;
                Ok(crate::cir::Statement { span, kind: crate::cir::StatementKind::ExpressionStatement(expr) })
            },
        }
    }

    /// Checks that a function named `main` has the signature `fn main()`.
    pub fn typecheck_main_function(&self) -> (r: Result<(), SemanticError>)
        requires
            self.wf(),
        ensures
            r is Ok <==> main_signature_ok(self.names().functions@),
            r matches Err(e) ==> (e.case matches SemanticErrorCase::InvalidMainSignature { should_be } && should_be@ == "fn main()"@),
    {
        match lookup(&self.namespace.functions, "main") {
            Some(i) => {
                let f = &self.namespace.functions[i].2;
                let void_ret = match f.ret {
                    Typing::Void => true,
                    _ => false,
                };
                if void_ret && f.arguments.len() == 0 && !f.variadic && !f.extrn {
                    return Ok(());
                }
                Err(
                    SemanticError {
                        span: self.namespace.functions[i].1,
                        case: SemanticErrorCase::InvalidMainSignature { should_be: String::from_str("fn main()") },
                    },
                )
            },
            None => Ok(()),
        }
    }

    /// Checks the statements of a program, and turns them into checked statements. Each
    /// statement that is refused adds its error to `errors`, and so does a `main` function
    /// of another signature than `fn main()`.
    pub fn go(&mut self, input: Vec<ast::Node>) -> (r: crate::cir::Program)
        requires
            old(self).wf(),
            forall|i: int| 0 <= i < input@.len() ==> #[trigger] node_arrays_filled(input@[i]),
            forall|i: int| 0 <= i < input@.len() ==> !(#[trigger] input@[i].stmt is LetStatement || input@[i].stmt is VarStatement),
        ensures
            final(self).wf(),
            final(self).found().len() >= old(self).found().len(),
            r.nodes@.len() <= input@.len(),
            r.nodes@.len() + (final(self).found().len() - old(self).found().len()) == input@.len() + if main_signature_ok(final(self).names().functions@) {
                0int
            } else {
                1int
            },
            final(self).found().len() == old(self).found().len() ==> forall|i: int| 0 <= i < r.nodes@.len() ==> #[trigger] r.nodes@[i].span == input@[i].span,
            final(self).found().len() == old(self).found().len() ==> forall|i: int| 0 <= i < r.nodes@.len() ==> checked_as(input@[i], #[trigger] r.nodes@[i]),
            input@.len() == 0 ==> final(self).names() == old(self).names(),
            forall|i: int, j: int|
                0 <= i < j < input@.len() && #[trigger] declaration_name(input@[i].stmt) is Some
                    && declaration_name(input@[i].stmt) == #[trigger] declaration_name(input@[j].stmt)
                    ==> final(self).found().len() > old(self).found().len(),
            simple_program(input@) && main_signature_ok(old(self).names().functions@)
                && (headers_only(input@) || old(self).names().locals@.len() == 0)
                && (forall|i: int| 0 <= i < input@.len() ==> !declared(old(self).names(), #[trigger] declaration_name(input@[i].stmt)->0))
                ==> final(self).found().len() == old(self).found().len() && r.nodes@.len() == input@.len(),
            final(self).found().subrange(0, old(self).found().len() as int) == old(self).found(),
            declarations_only(input@) && main_signature_ok(old(self).names().functions@)
                && (all_headers(input@) || old(self).names().locals@.len() == 0)
                && (forall|i: int| 0 <= i < input@.len() ==> !declared(old(self).names(), #[trigger] declaration_name(input@[i].stmt)->0))
                ==> final(self).found().len() == old(self).found().len() + redeclared_spans(input@).len()
                    && forall|m: int| 0 <= m < redeclared_spans(input@).len() ==> (#[trigger] final(self).found()[old(self).found().len() + m]).span
                        == redeclared_spans(input@)[m] && final(self).found()[old(self).found().len() + m].case is NameRedefinition,
    {
        let ghost entry = input@;
        let ghost plain = simple_program(input@) && main_signature_ok(old(self).names().functions@)
            && (headers_only(input@) || old(self).names().locals@.len() == 0)
            && (forall|i: int| 0 <= i < input@.len() ==> !declared(old(self).names(), #[trigger] declaration_name(input@[i].stmt)->0));
        let ghost decl = declarations_only(input@) && main_signature_ok(old(self).names().functions@)
            && (all_headers(input@) || old(self).names().locals@.len() == 0)
            && (forall|i: int| 0 <= i < input@.len() ==> !declared(old(self).names(), #[trigger] declaration_name(input@[i].stmt)->0));
        let ghost e0 = self.errors@.len();
        let mut input = input;
        let mut stmts: Vec<crate::cir::Statement> = Vec::new();
        let n = input.len();
        let mut k: usize = 0;
        assert(input@ =~= entry.subrange(0, entry.len() as int));
        assert(entry.subrange(0, 0).len() == 0);
        while k < n
            invariant
                self.wf(),
                n == entry.len(),
                e0 == old(self).errors@.len(),
                self.errors@.subrange(0, e0 as int) == old(self).errors@,
                decl == (declarations_only(entry) && main_signature_ok(old(self).names().functions@)
                    && (all_headers(entry) || old(self).names().locals@.len() == 0)
                    && (forall|i: int| 0 <= i < entry.len() ==> !declared(old(self).names(), #[trigger] declaration_name(entry[i].stmt)->0))),
                decl ==> self.errors@.len() == e0 + redeclared_spans(entry.subrange(0, k as int)).len(),
                decl ==> forall|m: int| 0 <= m < redeclared_spans(entry.subrange(0, k as int)).len() ==> (#[trigger] self.errors@[e0 + m]).span
                    == redeclared_spans(entry.subrange(0, k as int))[m] && self.errors@[e0 + m].case is NameRedefinition,
                decl ==> main_signature_ok(self.namespace.functions@),
                decl ==> all_headers(entry) || self.namespace.locals@.len() == 0,
                decl ==> forall|i: int| 0 <= i < k ==> declared(self.namespace, #[trigger] declaration_name(entry[i].stmt)->0),
                decl ==> forall|j: int| k <= j < n && !(exists|i: int| 0 <= i < k && #[trigger] declaration_name(entry[i].stmt) == declaration_name(entry[j].stmt))
                    ==> !declared(self.namespace, #[trigger] declaration_name(entry[j].stmt)->0),
                k <= n,
                input@ == entry.subrange(k as int, n as int),
                forall|i: int| 0 <= i < entry.len() ==> #[trigger] node_arrays_filled(entry[i]),
                forall|i: int| 0 <= i < entry.len() ==> !(#[trigger] entry[i].stmt is LetStatement || entry[i].stmt is VarStatement),
                self.errors@.len() >= old(self).errors@.len(),
                stmts@.len() + (self.errors@.len() - old(self).errors@.len()) == k,
                stmts@.len() <= k,
                self.errors@.len() == old(self).errors@.len() ==> forall|i: int| 0 <= i < stmts@.len() ==> #[trigger] stmts@[i].span == entry[i].span,
                self.errors@.len() == old(self).errors@.len() ==> forall|i: int| 0 <= i < stmts@.len() ==> checked_as(entry[i], #[trigger] stmts@[i]),
                k == 0 ==> self.names() == old(self).names(),
                self.errors@.len() == old(self).errors@.len() ==> forall|i: int| 0 <= i < k
                    && #[trigger] declaration_name(entry[i].stmt) is Some ==> declared(self.namespace, declaration_name(entry[i].stmt)->0),
                forall|i: int, j: int|
                    0 <= i < j < k && #[trigger] declaration_name(entry[i].stmt) is Some
                        && declaration_name(entry[i].stmt) == #[trigger] declaration_name(entry[j].stmt)
                        ==> self.errors@.len() > old(self).errors@.len(),
                plain == (simple_program(entry) && main_signature_ok(old(self).names().functions@)
                    && (headers_only(entry) || old(self).names().locals@.len() == 0)
                    && (forall|i: int| 0 <= i < entry.len() ==> !declared(old(self).names(), #[trigger] declaration_name(entry[i].stmt)->0))),
                plain ==> self.errors@.len() == old(self).errors@.len(),
                plain ==> main_signature_ok(self.namespace.functions@),
                plain ==> headers_only(entry) || self.namespace.locals@.len() == 0,
                plain ==> forall|j: int| k <= j < n ==> !declared(self.namespace, #[trigger] declaration_name(entry[j].stmt)->0),
            decreases n - k,
        {
            let node = input.remove(0);
            assert(node == entry[k as int]);
            assert(input@ =~= entry.subrange(k + 1, n as int));
            let ghost before = self.namespace;
            match self.typecheck_node(node, None) {
                Ok(s) => stmts.push(s),
                Err(e) => self.errors.push(e),
            }
            proof {
                if decl {
                    let nk = declaration_name(entry[k as int].stmt)->0;
                    let sub = entry.subrange(0, k + 1);
                    assert(sub.subrange(0, k as int) =~= entry.subrange(0, k as int));
                    assert(sub[k as int] == entry[k as int]);
                    assert(accepted_declaration(entry[k as int].stmt));
                    assert(declaration_name(entry[k as int].stmt) is Some);
                    if redeclares(sub, k as int) {
                        let i0 = choose|j: int| 0 <= j < k && #[trigger] declaration_name(sub[j].stmt) == declaration_name(sub[k as int].stmt);
                        assert(sub[i0] == entry[i0]);
                        assert(declared(before, declaration_name(entry[i0].stmt)->0));
                        assert(self.namespace == before);
                    } else {
                        assert forall|i: int| 0 <= i < k implies declaration_name(entry[i].stmt) != declaration_name(entry[k as int].stmt) by {
                            assert(sub[i] == entry[i]);
                        }
                        assert(!declared(before, nk));
                        if !header_declaration(entry[k as int].stmt) {
                            assert(entry[k as int].stmt is FnStatement);
                            assert(!all_headers(entry));
                        }
                        lemma_find_some(before.functions@, "main"@);
                        lemma_find_some(self.namespace.functions@, "main"@);
                        if nk != "main"@ {
                            assert(find(self.namespace.functions@, "main"@) == find(before.functions@, "main"@));
                            if let Some(m) = find(before.functions@, "main"@) {
                                assert(self.namespace.functions@[m] == before.functions@[m]);
                            }
                        }
                    }
                    assert forall|i: int| 0 <= i < k + 1 implies declared(self.namespace, #[trigger] declaration_name(entry[i].stmt)->0) by {
                        if i < k {
                            assert(declared(before, declaration_name(entry[i].stmt)->0));
                        }
                    }
                    assert forall|j: int| k + 1 <= j < n && !(exists|i: int| 0 <= i < k + 1 && #[trigger] declaration_name(entry[i].stmt) == declaration_name(entry[j].stmt))
                        implies !declared(self.namespace, #[trigger] declaration_name(entry[j].stmt)->0) by {
                        assert(declaration_name(entry[k as int].stmt) != declaration_name(entry[j].stmt));
                        assert(!declared(before, declaration_name(entry[j].stmt)->0));
                        assert(accepted_declaration(entry[j].stmt));
                    }
                }
                if plain {
                    let nk = declaration_name(entry[k as int].stmt)->0;
                    assert(accepted_declaration(entry[k as int].stmt));
                    if !header_declaration(entry[k as int].stmt) {
                        assert(entry[k as int].stmt is FnStatement);
                        assert(!headers_only(entry));
                    }
                    assert forall|j: int| k + 1 <= j < n implies !declared(self.namespace, #[trigger] declaration_name(entry[j].stmt)->0) by {
                        assert(accepted_declaration(entry[j].stmt));
                        assert(declaration_name(entry[k as int].stmt) != declaration_name(entry[j].stmt));
                        assert(!declared(before, declaration_name(entry[j].stmt)->0));
                    }
                    lemma_find_some(before.functions@, "main"@);
                    lemma_find_some(self.namespace.functions@, "main"@);
                    if nk != "main"@ {
                        assert(find(self.namespace.functions@, "main"@) == find(before.functions@, "main"@));
                        if let Some(m) = find(before.functions@, "main"@) {
                            assert(self.namespace.functions@[m] == before.functions@[m]);
                        }
                    }
                }
            }
            k = k + 1;
        }
        match self.typecheck_main_function() {
            Ok(()) => {},
            Err(e) => self.errors.push(e),
        }
        crate::cir::Program { nodes: stmts }
    }
}

/// An error found while checking a program.
#[derive(Debug)]
pub enum ValidationError {
    SemanticChecker(SemanticError),
}

/// Checks whole programs.
pub struct Validator {
    semchecker: SemanticChecker,
}

impl Validator {
    pub fn new() -> (r: Validator)
        ensures
            r.wf(),
    {
        Validator { semchecker: SemanticChecker::new() }
    }

    /// The validator is well formed: it has found no errors yet and knows no name.
    pub closed spec fn wf(&self) -> bool {
        &&& self.semchecker.wf()
        &&& self.semchecker.errors@.len() == 0
        &&& self.semchecker.names().functions@.len() == 0
        &&& self.semchecker.names().enums@.len() == 0
        &&& self.semchecker.names().structs@.len() == 0
        &&& self.semchecker.names().constants@.len() == 0
        &&& self.semchecker.names().locals@.len() == 0
    }

    /// Checks a program: its checked statements, or every error found in it.
    pub fn go(self, input: Vec<ast::Node>) -> (r: Result<crate::cir::Program, Vec<ValidationError>>)
        requires
            self.wf(),
            forall|i: int| 0 <= i < input@.len() ==> #[trigger] node_arrays_filled(input@[i]),
            forall|i: int| 0 <= i < input@.len() ==> !(#[trigger] input@[i].stmt is LetStatement || input@[i].stmt is VarStatement),
        ensures
            r matches Ok(p) ==> p.nodes@.len() == input@.len() && forall|i: int| 0 <= i < input@.len() ==> checked_as(input@[i], #[trigger] p.nodes@[i]),
            r matches Err(es) ==> 0 < es@.len() <= input@.len() + 1,
            input@.len() == 0 ==> (r matches Ok(p) && p.nodes@.len() == 0),
            forall|i: int, j: int|
                0 <= i < j < input@.len() && #[trigger] declaration_name(input@[i].stmt) is Some
                    && declaration_name(input@[i].stmt) == #[trigger] declaration_name(input@[j].stmt)
                    ==> r is Err,
            simple_program(input@) ==> (r matches Ok(p) && p.nodes@.len() == input@.len()),
            declarations_only(input@) ==> match r {
                Ok(p) => redeclared_spans(input@).len() == 0 && p.nodes@.len() == input@.len(),
                Err(es) => es@.len() == redeclared_spans(input@).len() && forall|m: int| 0 <= m < es@.len()
                    ==> (#[trigger] es@[m] matches ValidationError::SemanticChecker(e) && e.span == redeclared_spans(input@)[m]
                    && e.case is NameRedefinition),
            },
    {
        let mut checker = self.semchecker;
        let ghost entry = input@;
        proof {
            if declarations_only(entry) {
                assert(main_signature_ok(checker.names().functions@));
                assert forall|i: int| 0 <= i < entry.len() implies !declared(checker.names(), #[trigger] declaration_name(entry[i].stmt)->0) by {}
            }
        }
        let tc = checker.go(input);
        let mut errors: Vec<ValidationError> = Vec::new();
        let mut found = checker.errors;
        let ghost all = found@;
        let total = found.len();
        while found.len() > 0
            invariant
                errors@.len() + found@.len() == total,
                total == all.len(),
                found@ == all.subrange(errors@.len() as int, total as int),
                forall|m: int| 0 <= m < errors@.len() ==> #[trigger] errors@[m] == ValidationError::SemanticChecker(all[m]),
            decreases found@.len(),
        {
            let ghost before = errors@;
            let e = found.remove(0);
            errors.push(ValidationError::SemanticChecker(e));
            proof {
                assert forall|m: int| 0 <= m < errors@.len() implies #[trigger] errors@[m] == ValidationError::SemanticChecker(all[m]) by {
                    if m < before.len() {
                        assert(errors@[m] == before[m]);
                    }
                }
                assert(found@ =~= all.subrange(errors@.len() as int, total as int));
            }
        }
        proof {
            assert(all == checker.found());
            assert(checker.found().len() == total);
            if declarations_only(entry) {
                assert(total == redeclared_spans(entry).len());
                assert forall|m: int| 0 <= m < errors@.len() implies (#[trigger] errors@[m] matches ValidationError::SemanticChecker(e)
                    && e.span == redeclared_spans(entry)[m] && e.case is NameRedefinition) by {
                    assert(errors@[m] == ValidationError::SemanticChecker(all[m]));
                    assert(all[0 + m] == all[m]);
                }
            }
        }
        if errors.len() > 0 {
            return Err(errors);
        }
        Ok(tc)
    }
}

/// A signed integer stands implicitly for any signed integer or floating-point type at
/// least as large: an `int` where an `f64` is expected is cast to it.
pub proof fn law_signed_widens(p: Primitive, q: Primitive)
    requires
        signed_primitives().contains(p),
        signed_primitives().contains(q) || float_primitives().contains(q),
        crate::cir::primitive_size(q) >= crate::cir::primitive_size(p),
    ensures
        inference_of(Typing::Primitive(p), Typing::Primitive(q)) == if p == q { Inference::Equal } else { Inference::Cast },
{
}

/// An unsigned integer stands implicitly for any unsigned integer type at least as large,
/// and for any signed integer or floating-point type at least twice as large.
pub proof fn law_unsigned_widens(p: Primitive, q: Primitive)
    requires
        unsigned_primitives().contains(p),
        (unsigned_primitives().contains(q) && crate::cir::primitive_size(q) >= crate::cir::primitive_size(p))
            || ((signed_primitives().contains(q) || float_primitives().contains(q)) && crate::cir::primitive_size(q) >= 2 * crate::cir::primitive_size(p)),
    ensures
        inference_of(Typing::Primitive(p), Typing::Primitive(q)) == if p == q { Inference::Equal } else { Inference::Cast },
{
}

/// No integer stands implicitly for a smaller integer type, no signed integer for an
/// unsigned one, no unsigned integer for a signed or floating-point type less than twice as
/// large (`u32` is no `i32`), no floating-point value for any other type, and a `bool` only
/// for a `bool`.
pub proof fn law_no_implicit_narrowing(p: Primitive, q: Primitive)
    ensures
        unsigned_primitives().contains(p) && (signed_primitives().contains(q) || float_primitives().contains(q))
            && crate::cir::primitive_size(q) < 2 * crate::cir::primitive_size(p)
            ==> inference_of(Typing::Primitive(p), Typing::Primitive(q)) == Inference::Invalid,
        float_primitives().contains(p) && p != q ==> inference_of(Typing::Primitive(p), Typing::Primitive(q)) == Inference::Invalid,
        integer_primitives().contains(p) && integer_primitives().contains(q) && crate::cir::primitive_size(q) < crate::cir::primitive_size(p)
            ==> inference_of(Typing::Primitive(p), Typing::Primitive(q)) == Inference::Invalid,
        signed_primitives().contains(p) && unsigned_primitives().contains(q)
            ==> inference_of(Typing::Primitive(p), Typing::Primitive(q)) == Inference::Invalid,
        float_primitives().contains(p) && integer_primitives().contains(q)
            ==> inference_of(Typing::Primitive(p), Typing::Primitive(q)) == Inference::Invalid,
        p == Primitive::Bool && q != Primitive::Bool ==> inference_of(Typing::Primitive(p), Typing::Primitive(q)) == Inference::Invalid,
{
}

/// A `char` stands implicitly for a `u32` and for nothing else; only a `u8` stands for a
/// `char`; a `str` stands for nothing else.
pub proof fn law_char_conversions(p: Primitive, q: Primitive)
    ensures
        inference_of(Typing::Primitive(Primitive::Char), Typing::Primitive(Primitive::U32)) == Inference::Cast,
        inference_of(Typing::Primitive(Primitive::U8), Typing::Primitive(Primitive::Char)) == Inference::Cast,
        q != Primitive::Char && q != Primitive::U32
            ==> inference_of(Typing::Primitive(Primitive::Char), Typing::Primitive(q)) == Inference::Invalid,
        p != Primitive::Char && p != Primitive::U8
            ==> inference_of(Typing::Primitive(p), Typing::Primitive(Primitive::Char)) == Inference::Invalid,
        q != Primitive::Str ==> inference_of(Typing::Primitive(Primitive::Str), Typing::Primitive(q)) == Inference::Invalid,
{
}

/// What a binary operation gives follows from how its operator is written: arithmetic,
/// bitwise operators and shifts keep the left operand's type, `==`, `!=`, comparisons,
/// `&&` and `||` give `bool`, and assignments give nothing.
pub proof fn law_result_kind_follows_groups(op: BinaryOperation)
    ensures
        crate::ast::binop_group(crate::cir::binop_symbol(op)) == 0 ==> binop_result_kind(op) == 2,
        1 <= crate::ast::binop_group(crate::cir::binop_symbol(op)) <= 3 ==> binop_result_kind(op) == 1,
        crate::ast::binop_group(crate::cir::binop_symbol(op)) >= 4 ==> binop_result_kind(op) == 0,
{
    reveal_strlit("+");
    reveal_strlit("-");
    reveal_strlit("*");
    reveal_strlit("/");
    reveal_strlit("%");
    reveal_strlit("==");
    reveal_strlit("!=");
    reveal_strlit("<");
    reveal_strlit("<=");
    reveal_strlit(">");
    reveal_strlit(">=");
    reveal_strlit("&&");
    reveal_strlit("||");
    reveal_strlit("&");
    reveal_strlit("|");
    reveal_strlit("^");
    reveal_strlit("<<");
    reveal_strlit(">>");
    reveal_strlit("=");
    reveal_strlit("+=");
    reveal_strlit("-=");
    reveal_strlit("*=");
    reveal_strlit("/=");
    reveal_strlit("%=");
    reveal_strlit("&=");
    reveal_strlit("|=");
    reveal_strlit("^=");
}

/// Explicit casts: an integer or a floating-point value may be cast to any integer,
/// floating-point or boolean type; a `bool` to any integer type but to no floating-point
/// type; a `str` to nothing else and nothing else to a `str`.
pub proof fn law_explicit_casts(p: Primitive, q: Primitive)
    ensures
        (integer_primitives().contains(p) || float_primitives().contains(p))
            && (q == Primitive::Bool || integer_primitives().contains(q) || float_primitives().contains(q))
            ==> cast_allowed(Typing::Primitive(p), Typing::Primitive(q)),
        p == Primitive::Bool && integer_primitives().contains(q) ==> cast_allowed(Typing::Primitive(p), Typing::Primitive(q)),
        p == Primitive::Bool && float_primitives().contains(q) ==> !cast_allowed(Typing::Primitive(p), Typing::Primitive(q)),
        p != q && (p == Primitive::Str || q == Primitive::Str) ==> !cast_allowed(Typing::Primitive(p), Typing::Primitive(q)),
{
}

/// A value may always stand where a value of its own type is expected, as it is.
pub proof fn lemma_inference_reflexive(t: Typing)
    ensures
        inference_of(t, t) == Inference::Equal,
        cast_allowed(t, t),
{
    crate::cir::lemma_typing_same_reflexive(t);
}

/// Whatever may stand for a type implicitly may also be cast to it explicitly.
pub proof fn lemma_inference_allows_cast(from: Typing, into: Typing)
    requires
        inference_of(from, into) != Inference::Invalid,
    ensures
        cast_allowed(from, into),
{
}

} // verus!
