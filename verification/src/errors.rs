use vstd::prelude::*;
use crate::span::{FileSpan, Span};
use crate::text::{decimal, decimal_text};

verus! {

/// What an error report says: its kind, its message, and an optional help
/// line and note shown under the source line.
#[derive(Debug)]
pub struct Diagnostic {
    pub title: String,
    pub message: String,
    pub help: Option<String>,
    pub submessage: Option<String>,
}

/// The text of an optional string.
pub open spec fn opt_view(o: Option<String>) -> Option<Seq<char>> {
    match o {
        Some(s) => Some(s@),
        None => None,
    }
}

/// The ways in which parsing fails.
#[derive(Debug)]
pub enum ParseErrorCase {
    UnexpectedToken { got: String, expected: String },
    ExpectedStatement,
    InvalidCharacterLiteral,
}

/// A parse error and where it was found.
#[derive(Debug)]
pub struct ParseError {
    pub span: Option<Span>,
    pub case: ParseErrorCase,
}

/// The message of the report of a parse error.
pub open spec fn parse_message(e: ParseErrorCase) -> Seq<char> {
    match e {
        ParseErrorCase::UnexpectedToken { got, expected } => "unexpected token: expected "@ + expected@ + " but got "@ + got@,
        ParseErrorCase::ExpectedStatement => "expected statement after '=>', but found nothing"@,
        ParseErrorCase::InvalidCharacterLiteral => "invalid token found"@,
    }
}

/// The help of the report of a parse error.
pub open spec fn parse_help(e: ParseErrorCase) -> Option<Seq<char>> {
    match e {
        ParseErrorCase::UnexpectedToken { got: _, expected: _ } => None,
        ParseErrorCase::ExpectedStatement => Some("if you meant to have an empty block, use just {}"@),
        ParseErrorCase::InvalidCharacterLiteral => Some("if you meant to use str/string, use ' or \" instead of `"@),
    }
}

/// The submessage of the report of a parse error.
pub open spec fn parse_submessage(e: ParseErrorCase) -> Option<Seq<char>> {
    match e {
        ParseErrorCase::UnexpectedToken { got: _, expected: _ } => None,
        ParseErrorCase::ExpectedStatement => None,
        ParseErrorCase::InvalidCharacterLiteral => Some("invalid character literal"@),
    }
}

/// The report of a parse error: what `error` prints for it.
pub fn parse_error(pe: ParseErrorCase) -> (r: Diagnostic)
    ensures
        r.title@ == "Parse Error"@,
        r.message@ == parse_message(pe),
        opt_view(r.help) == parse_help(pe),
        opt_view(r.submessage) == parse_submessage(pe),
{
    match pe {
        ParseErrorCase::UnexpectedToken { got, expected } => {
            let mut message = String::from_str("unexpected token: expected ");
            message.append(expected.as_str());
            message.append(" but got ");
            message.append(got.as_str());
            let help: Option<String> = None;
            let submessage: Option<String> = None;
            Diagnostic { title: String::from_str("Parse Error"), message, help, submessage }
        },
        ParseErrorCase::ExpectedStatement => {
            let mut message = String::from_str("expected statement after '=>', but found nothing");
            let mut h = String::from_str("if you meant to have an empty block, use just {}");
            let help = Some(h);
            let submessage: Option<String> = None;
            Diagnostic { title: String::from_str("Parse Error"), message, help, submessage }
        },
        ParseErrorCase::InvalidCharacterLiteral => {
            let mut message = String::from_str("invalid token found");
            let mut h = String::from_str("if you meant to use str/string, use ' or \" instead of `");
            let help = Some(h);
            let mut s = String::from_str("invalid character literal");
            let submessage = Some(s);
            Diagnostic { title: String::from_str("Parse Error"), message, help, submessage }
        },
    }
}
/// The ways in which type checking fails.
#[derive(Debug)]
pub enum TypeErrorCase {
    TypeMismatch { got: String, expected: String },
    InvalidType { what: String },
    InvalidExpression { what: String, should: String },
    AssignImmutable { expression: String },
    UnresolvedName { name: String },
    UnmatchedArguments { name: String, got: usize, expected: usize, too_much: bool },
    UnresolvedMember { name: String, from: String },
    ReturnValueOnVoidFunction { function: String },
    NoReturn { function: String, return_type: String },
    MismatchedReturnType { function: String, got: String, expected: String },
    NonAggregateMemberAccess { typ: String, member: String },
    MisplacedReturn,
}

/// A type check error and where it was found.
#[derive(Debug)]
pub struct TypeError {
    pub span: Span,
    pub case: TypeErrorCase,
}

/// The message of the report of a type check error.
pub open spec fn type_message(e: TypeErrorCase) -> Seq<char> {
    match e {
        TypeErrorCase::TypeMismatch { got, expected } => "type mismatch: expected "@ + expected@ + " but got "@ + got@,
        TypeErrorCase::InvalidType { what } => "invalid type: "@ + what@,
        TypeErrorCase::InvalidExpression { what, should } => "invalid expression: expression "@ + what@ + " is expected to be "@ + should@,
        TypeErrorCase::AssignImmutable { expression } => "tried to assign to immutable expresion "@ + expression@,
        TypeErrorCase::UnresolvedName { name } => "unresolved name: could not find '"@ + name@ + "' in the current scope"@,
        TypeErrorCase::UnmatchedArguments { name, got: _, expected: _, too_much } => if too_much { "too much arguments to function "@ + name@ } else { "too few arguments to function "@ + name@ },
        TypeErrorCase::UnresolvedMember { name, from } => "unresolved member: "@ + from@ + " has no field named '"@ + name@ + "'"@,
        TypeErrorCase::ReturnValueOnVoidFunction { function } => "tried to return value out of function "@ + function@ + " that doesn't return anything"@,
        TypeErrorCase::NoReturn { function, return_type } => "found path of "@ + function@ + " (which returns "@ + return_type@ + ") that doesn't return a value"@,
        TypeErrorCase::MismatchedReturnType { function, got, expected } => "return type of "@ + function@ + " is expected to be "@ + expected@ + " but got "@ + got@,
        TypeErrorCase::NonAggregateMemberAccess { typ, member } => "non aggregate member access: attempt to access member "@ + member@ + " from non-aggregate type "@ + typ@,
        TypeErrorCase::MisplacedReturn => "attempt to use return statement outside of function block"@,
    }
}

/// The help of the report of a type check error.
pub open spec fn type_help(e: TypeErrorCase) -> Option<Seq<char>> {
    match e {
        TypeErrorCase::TypeMismatch { got: _, expected: _ } => None,
        TypeErrorCase::InvalidType { what: _ } => None,
        TypeErrorCase::InvalidExpression { what: _, should: _ } => None,
        TypeErrorCase::AssignImmutable { expression: _ } => None,
        TypeErrorCase::UnresolvedName { name: _ } => None,
        TypeErrorCase::UnmatchedArguments { name: _, got: _, expected: _, too_much: _ } => None,
        TypeErrorCase::UnresolvedMember { name: _, from: _ } => None,
        TypeErrorCase::ReturnValueOnVoidFunction { function: _ } => None,
        TypeErrorCase::NoReturn { function: _, return_type: _ } => None,
        TypeErrorCase::MismatchedReturnType { function: _, got: _, expected: _ } => None,
        TypeErrorCase::NonAggregateMemberAccess { typ: _, member: _ } => None,
        TypeErrorCase::MisplacedReturn => None,
    }
}

/// The submessage of the report of a type check error.
pub open spec fn type_submessage(e: TypeErrorCase) -> Option<Seq<char>> {
    match e {
        TypeErrorCase::TypeMismatch { got: _, expected: _ } => None,
        TypeErrorCase::InvalidType { what: _ } => None,
        TypeErrorCase::InvalidExpression { what: _, should: _ } => None,
        TypeErrorCase::AssignImmutable { expression: _ } => Some("left-hand is immutable, but should be mutable to be assigned"@),
        TypeErrorCase::UnresolvedName { name: _ } => None,
        TypeErrorCase::UnmatchedArguments { name, got, expected, too_much: _ } => Some("function "@ + name@ + " accepts "@ + decimal_text(expected as nat) + " argument(s) but got "@ + decimal_text(got as nat)),
        TypeErrorCase::UnresolvedMember { name: _, from: _ } => None,
        TypeErrorCase::ReturnValueOnVoidFunction { function: _ } => Some("this return should not have a value"@),
        TypeErrorCase::NoReturn { function: _, return_type } => Some("ensure that the function returns "@ + return_type@ + " after this"@),
        TypeErrorCase::MismatchedReturnType { function: _, got: _, expected } => Some("the value of this return should be of type "@ + expected@),
        TypeErrorCase::NonAggregateMemberAccess { typ, member: _ } => Some("you can't get members from "@ + typ@),
        TypeErrorCase::MisplacedReturn => None,
    }
}

/// The report of a type check error: what `error` prints for it.
pub fn type_error(pe: TypeErrorCase) -> (r: Diagnostic)
    ensures
        r.title@ == "Type Check Error"@,
        r.message@ == type_message(pe),
        opt_view(r.help) == type_help(pe),
        opt_view(r.submessage) == type_submessage(pe),
{
    match pe {
        TypeErrorCase::TypeMismatch { got, expected } => {
            let mut message = String::from_str("type mismatch: expected ");
            message.append(expected.as_str());
            message.append(" but got ");
            message.append(got.as_str());
            let help: Option<String> = None;
            let submessage: Option<String> = None;
            Diagnostic { title: String::from_str("Type Check Error"), message, help, submessage }
        },
        TypeErrorCase::InvalidType { what } => {
            let mut message = String::from_str("invalid type: ");
            message.append(what.as_str());
            let help: Option<String> = None;
            let submessage: Option<String> = None;
            Diagnostic { title: String::from_str("Type Check Error"), message, help, submessage }
        },
        TypeErrorCase::InvalidExpression { what, should } => {
            let mut message = String::from_str("invalid expression: expression ");
            message.append(what.as_str());
            message.append(" is expected to be ");
            message.append(should.as_str());
            let help: Option<String> = None;
            let submessage: Option<String> = None;
            Diagnostic { title: String::from_str("Type Check Error"), message, help, submessage }
        },
        TypeErrorCase::AssignImmutable { expression } => {
            let mut message = String::from_str("tried to assign to immutable expresion ");
            message.append(expression.as_str());
            let help: Option<String> = None;
            let mut s = String::from_str("left-hand is immutable, but should be mutable to be assigned");
            let submessage = Some(s);
            Diagnostic { title: String::from_str("Type Check Error"), message, help, submessage }
        },
        TypeErrorCase::UnresolvedName { name } => {
            let mut message = String::from_str("unresolved name: could not find '");
            message.append(name.as_str());
            message.append("' in the current scope");
            let help: Option<String> = None;
            let submessage: Option<String> = None;
            Diagnostic { title: String::from_str("Type Check Error"), message, help, submessage }
        },
        TypeErrorCase::UnmatchedArguments { name, got, expected, too_much } => {
            let message = if too_much {
                let mut message = String::from_str("too much arguments to function ");
                message.append(name.as_str());
                message
            } else {
                let mut message = String::from_str("too few arguments to function ");
                message.append(name.as_str());
                message
            };
            let help: Option<String> = None;
            let mut s = String::from_str("function ");
            s.append(name.as_str());
            s.append(" accepts ");
            s.append(decimal(expected).as_str());
            s.append(" argument(s) but got ");
            s.append(decimal(got).as_str());
            let submessage = Some(s);
            Diagnostic { title: String::from_str("Type Check Error"), message, help, submessage }
        },
        TypeErrorCase::UnresolvedMember { name, from } => {
            let mut message = String::from_str("unresolved member: ");
            message.append(from.as_str());
            message.append(" has no field named '");
            message.append(name.as_str());
            message.append("'");
            let help: Option<String> = None;
            let submessage: Option<String> = None;
            Diagnostic { title: String::from_str("Type Check Error"), message, help, submessage }
        },
        TypeErrorCase::ReturnValueOnVoidFunction { function } => {
            let mut message = String::from_str("tried to return value out of function ");
            message.append(function.as_str());
            message.append(" that doesn't return anything");
            let help: Option<String> = None;
            let mut s = String::from_str("this return should not have a value");
            let submessage = Some(s);
            Diagnostic { title: String::from_str("Type Check Error"), message, help, submessage }
        },
        TypeErrorCase::NoReturn { function, return_type } => {
            let mut message = String::from_str("found path of ");
            message.append(function.as_str());
            message.append(" (which returns ");
            message.append(return_type.as_str());
            message.append(") that doesn't return a value");
            let help: Option<String> = None;
            let mut s = String::from_str("ensure that the function returns ");
            s.append(return_type.as_str());
            s.append(" after this");
            let submessage = Some(s);
            Diagnostic { title: String::from_str("Type Check Error"), message, help, submessage }
        },
        TypeErrorCase::MismatchedReturnType { function, got, expected } => {
            let mut message = String::from_str("return type of ");
            message.append(function.as_str());
            message.append(" is expected to be ");
            message.append(expected.as_str());
            message.append(" but got ");
            message.append(got.as_str());
            let help: Option<String> = None;
            let mut s = String::from_str("the value of this return should be of type ");
            s.append(expected.as_str());
            let submessage = Some(s);
            Diagnostic { title: String::from_str("Type Check Error"), message, help, submessage }
        },
        TypeErrorCase::NonAggregateMemberAccess { typ, member } => {
            let mut message = String::from_str("non aggregate member access: attempt to access member ");
            message.append(member.as_str());
            message.append(" from non-aggregate type ");
            message.append(typ.as_str());
            let help: Option<String> = None;
            let mut s = String::from_str("you can't get members from ");
            s.append(typ.as_str());
            let submessage = Some(s);
            Diagnostic { title: String::from_str("Type Check Error"), message, help, submessage }
        },
        TypeErrorCase::MisplacedReturn => {
            let mut message = String::from_str("attempt to use return statement outside of function block");
            let help: Option<String> = None;
            let submessage: Option<String> = None;
            Diagnostic { title: String::from_str("Type Check Error"), message, help, submessage }
        },
    }
}
/// The ways in which semantic checking fails.
#[derive(Debug)]
pub enum SemanticErrorCase {
    MissingReturnValue { fn_name: String, typ: String },
    TopLevelImperativeStatement { statement: String },
    UseExternFnAsExpr { name: String },
    InvalidMainSignature { should_be: String },
    TypeMismatch { got: String, expected: String },
    InvalidTupleMember { member: usize, tuple: String, member_count: usize },
    UnknownEnumVariant { enumeration: String, variant: String },
    InvalidType { what: String },
    InvalidCast { from: String, into: String },
    InvalidExpression { what: String, should: String },
    AssignImmutable { expression: String },
    UnresolvedName { name: String },
    UnmatchedArguments { function: String, got: usize, expected: usize, too_much: bool },
    UnresolvedField { name: String, from: String },
    ReturnValueOnVoidFunction { function: String },
    NoReturn { function: String, return_type: String },
    MismatchedReturnType { function: String, got: String, expected: String },
    IndexNonIndexable { thing: String, got: String },
    CallNonFunction { typ: String },
    NonAggregateFieldAccess { typ: String, field: String },
    NonTupleMemberAccess { thing: String, typ: String },
    VariableRedefinition { name: String },
    NameRedefinition { name: String, defined: Span },
    MisplacedReturn,
}

/// A semantic error and where it was found.
#[derive(Debug)]
pub struct SemanticError {
    pub span: Span,
    pub case: SemanticErrorCase,
}

/// The message of the report of a semantic error.
pub open spec fn semantic_message(e: SemanticErrorCase) -> Seq<char> {
    match e {
        SemanticErrorCase::MissingReturnValue { fn_name, typ: _ } => "missing return value in "@ + fn_name@,
        SemanticErrorCase::TopLevelImperativeStatement { statement } => "found "@ + statement@ + " outside function scope"@,
        SemanticErrorCase::UseExternFnAsExpr { name: _ } => "attempt to use extern function as expression"@,
        SemanticErrorCase::InvalidMainSignature { should_be: _ } => "invalid signature for main function"@,
        SemanticErrorCase::TypeMismatch { got, expected } => "type mismatch: expected "@ + expected@ + " but got "@ + got@,
        SemanticErrorCase::InvalidTupleMember { member, tuple, member_count: _ } => "attempt to acess tuple member "@ + decimal_text(member as nat) + " on "@ + tuple@,
        SemanticErrorCase::UnknownEnumVariant { enumeration, variant } => "unknown variant '"@ + variant@ + "' in enumeration "@ + enumeration@,
        SemanticErrorCase::InvalidType { what } => "invalid type: "@ + what@,
        SemanticErrorCase::InvalidCast { from, into } => "invalid cast from "@ + from@ + " to "@ + into@,
        SemanticErrorCase::InvalidExpression { what, should } => "invalid expression: expression "@ + what@ + " is expected to be "@ + should@,
        SemanticErrorCase::AssignImmutable { expression } => "tried to assign to immutable expresion "@ + expression@,
        SemanticErrorCase::UnresolvedName { name } => "unresolved name: could not find '"@ + name@ + "' in the current scope"@,
        SemanticErrorCase::UnmatchedArguments { function, got: _, expected: _, too_much } => if too_much { "too much arguments to "@ + function@ } else { "too few arguments to "@ + function@ },
        SemanticErrorCase::UnresolvedField { name, from } => from@ + " has no field named '"@ + name@ + "'"@,
        SemanticErrorCase::ReturnValueOnVoidFunction { function } => "tried to return value out of function "@ + function@ + " that doesn't return anything"@,
        SemanticErrorCase::NoReturn { function, return_type } => "found path of "@ + function@ + " (which returns "@ + return_type@ + ") that doesn't return a value"@,
        SemanticErrorCase::MismatchedReturnType { function, got, expected } => "return type of "@ + function@ + " is expected to be "@ + expected@ + " but got "@ + got@,
        SemanticErrorCase::IndexNonIndexable { thing, got } => "attempt to index "@ + thing@ + ", of type "@ + got@ + ", but it is not indexable"@,
        SemanticErrorCase::CallNonFunction { typ } => "attempt to call non-function type "@ + typ@,
        SemanticErrorCase::NonAggregateFieldAccess { typ, field } => "attempt to access field "@ + field@ + " from non-aggregate type "@ + typ@,
        SemanticErrorCase::NonTupleMemberAccess { thing, typ: _ } => "attempt to access member from non-tuple value "@ + thing@,
        SemanticErrorCase::VariableRedefinition { name } => "attempt to define already defined variable "@ + name@,
        SemanticErrorCase::NameRedefinition { name, defined: _ } => "attempt to redefine name "@ + name@,
        SemanticErrorCase::MisplacedReturn => "attempt to use return statement outside of function block"@,
    }
}

/// The help of the report of a semantic error.
pub open spec fn semantic_help(e: SemanticErrorCase) -> Option<Seq<char>> {
    match e {
        SemanticErrorCase::MissingReturnValue { fn_name: _, typ: _ } => None,
        SemanticErrorCase::TopLevelImperativeStatement { statement: _ } => None,
        SemanticErrorCase::UseExternFnAsExpr { name } => Some("if you want to use "@ + name@ + " as a first-class citizen, create a wrapper function"@),
        SemanticErrorCase::InvalidMainSignature { should_be: _ } => None,
        SemanticErrorCase::TypeMismatch { got: _, expected: _ } => None,
        SemanticErrorCase::InvalidTupleMember { member: _, tuple: _, member_count: _ } => None,
        SemanticErrorCase::UnknownEnumVariant { enumeration: _, variant: _ } => None,
        SemanticErrorCase::InvalidType { what: _ } => None,
        SemanticErrorCase::InvalidCast { from: _, into: _ } => None,
        SemanticErrorCase::InvalidExpression { what: _, should: _ } => None,
        SemanticErrorCase::AssignImmutable { expression: _ } => None,
        SemanticErrorCase::UnresolvedName { name: _ } => None,
        SemanticErrorCase::UnmatchedArguments { function: _, got: _, expected: _, too_much: _ } => None,
        SemanticErrorCase::UnresolvedField { name: _, from: _ } => None,
        SemanticErrorCase::ReturnValueOnVoidFunction { function: _ } => None,
        SemanticErrorCase::NoReturn { function: _, return_type: _ } => None,
        SemanticErrorCase::MismatchedReturnType { function: _, got: _, expected: _ } => None,
        SemanticErrorCase::IndexNonIndexable { thing: _, got: _ } => None,
        SemanticErrorCase::CallNonFunction { typ: _ } => None,
        SemanticErrorCase::NonAggregateFieldAccess { typ: _, field: _ } => None,
        SemanticErrorCase::NonTupleMemberAccess { thing: _, typ: _ } => None,
        SemanticErrorCase::VariableRedefinition { name: _ } => None,
        SemanticErrorCase::NameRedefinition { name: _, defined: _ } => None,
        SemanticErrorCase::MisplacedReturn => None,
    }
}

/// The submessage of the report of a semantic error.
pub open spec fn semantic_submessage(e: SemanticErrorCase, filename: Seq<char>) -> Option<Seq<char>> {
    match e {
        SemanticErrorCase::MissingReturnValue { fn_name: _, typ } => Some("add a value of type "@ + typ@ + " after this return"@),
        SemanticErrorCase::TopLevelImperativeStatement { statement: _ } => Some("you can only use this inside a function block"@),
        SemanticErrorCase::UseExternFnAsExpr { name: _ } => Some("you can only use extern functions by calling it directly"@),
        SemanticErrorCase::InvalidMainSignature { should_be } => Some("this function signature should be "@ + should_be@),
        SemanticErrorCase::TypeMismatch { got: _, expected: _ } => None,
        SemanticErrorCase::InvalidTupleMember { member, tuple: _, member_count } => Some("this tuple only contains only "@ + decimal_text(member_count as nat) + " member(s) but used "@ + decimal_text(member as nat)),
        SemanticErrorCase::UnknownEnumVariant { enumeration: _, variant: _ } => None,
        SemanticErrorCase::InvalidType { what: _ } => None,
        SemanticErrorCase::InvalidCast { from: _, into: _ } => None,
        SemanticErrorCase::InvalidExpression { what: _, should: _ } => None,
        SemanticErrorCase::AssignImmutable { expression: _ } => Some("left-hand is immutable, but should be mutable to be assigned"@),
        SemanticErrorCase::UnresolvedName { name: _ } => None,
        SemanticErrorCase::UnmatchedArguments { function, got, expected, too_much } => Some(if too_much { "function accepts "@ + decimal_text(expected as nat) + " argument(s) but got "@ + decimal_text(got as nat) } else { function@ + " accepts "@ + decimal_text(expected as nat) + " argument(s) but got "@ + decimal_text(got as nat) }),
        SemanticErrorCase::UnresolvedField { name: _, from: _ } => None,
        SemanticErrorCase::ReturnValueOnVoidFunction { function: _ } => Some("this return should not have a value"@),
        SemanticErrorCase::NoReturn { function: _, return_type } => Some("ensure that the function returns "@ + return_type@ + " after this"@),
        SemanticErrorCase::MismatchedReturnType { function: _, got: _, expected } => Some("the value of this return should be of type "@ + expected@),
        SemanticErrorCase::IndexNonIndexable { thing: _, got } => Some("type "@ + got@ + " cannot be used with subscript syntax"@),
        SemanticErrorCase::CallNonFunction { typ: _ } => None,
        SemanticErrorCase::NonAggregateFieldAccess { typ, field: _ } => Some("you can't get fields from "@ + typ@),
        SemanticErrorCase::NonTupleMemberAccess { thing: _, typ } => Some("expected a tuple here, but got "@ + typ@),
        SemanticErrorCase::VariableRedefinition { name: _ } => None,
        SemanticErrorCase::NameRedefinition { name: _, defined } => Some("note: defined originally at "@ + filename + ":"@ + decimal_text(defined.line as nat) + ":"@ + decimal_text(defined.start as nat)),
        SemanticErrorCase::MisplacedReturn => None,
    }
}

/// The report of a semantic error: what `error` prints for it; a redefinition names the file of `filespan`.
pub fn semantic_error(pe: SemanticErrorCase, filespan: &FileSpan) -> (r: Diagnostic)
    ensures
        r.title@ == "Semantic Error"@,
        r.message@ == semantic_message(pe),
        opt_view(r.help) == semantic_help(pe),
        opt_view(r.submessage) == semantic_submessage(pe, filespan.input_file.filename@),
{
    match pe {
        SemanticErrorCase::MissingReturnValue { fn_name, typ } => {
            let mut message = String::from_str("missing return value in ");
            message.append(fn_name.as_str());
            let help: Option<String> = None;
            let mut s = String::from_str("add a value of type ");
            s.append(typ.as_str());
            s.append(" after this return");
            let submessage = Some(s);
            Diagnostic { title: String::from_str("Semantic Error"), message, help, submessage }
        },
        SemanticErrorCase::TopLevelImperativeStatement { statement } => {
            let mut message = String::from_str("found ");
            message.append(statement.as_str());
            message.append(" outside function scope");
            let help: Option<String> = None;
            let mut s = String::from_str("you can only use this inside a function block");
            let submessage = Some(s);
            Diagnostic { title: String::from_str("Semantic Error"), message, help, submessage }
        },
        SemanticErrorCase::UseExternFnAsExpr { name } => {
            let mut message = String::from_str("attempt to use extern function as expression");
            let mut h = String::from_str("if you want to use ");
            h.append(name.as_str());
            h.append(" as a first-class citizen, create a wrapper function");
            let help = Some(h);
            let mut s = String::from_str("you can only use extern functions by calling it directly");
            let submessage = Some(s);
            Diagnostic { title: String::from_str("Semantic Error"), message, help, submessage }
        },
        SemanticErrorCase::InvalidMainSignature { should_be } => {
            let mut message = String::from_str("invalid signature for main function");
            let help: Option<String> = None;
            let mut s = String::from_str("this function signature should be ");
            s.append(should_be.as_str());
            let submessage = Some(s);
            Diagnostic { title: String::from_str("Semantic Error"), message, help, submessage }
        },
        SemanticErrorCase::TypeMismatch { got, expected } => {
            let mut message = String::from_str("type mismatch: expected ");
            message.append(expected.as_str());
            message.append(" but got ");
            message.append(got.as_str());
            let help: Option<String> = None;
            let submessage: Option<String> = None;
            Diagnostic { title: String::from_str("Semantic Error"), message, help, submessage }
        },
        SemanticErrorCase::InvalidTupleMember { member, tuple, member_count } => {
            let mut message = String::from_str("attempt to acess tuple member ");
            message.append(decimal(member).as_str());
            message.append(" on ");
            message.append(tuple.as_str());
            let help: Option<String> = None;
            let mut s = String::from_str("this tuple only contains only ");
            s.append(decimal(member_count).as_str());
            s.append(" member(s) but used ");
            s.append(decimal(member).as_str());
            let submessage = Some(s);
            Diagnostic { title: String::from_str("Semantic Error"), message, help, submessage }
        },
        SemanticErrorCase::UnknownEnumVariant { enumeration, variant } => {
            let mut message = String::from_str("unknown variant '");
            message.append(variant.as_str());
            message.append("' in enumeration ");
            message.append(enumeration.as_str());
            let help: Option<String> = None;
            let submessage: Option<String> = None;
            Diagnostic { title: String::from_str("Semantic Error"), message, help, submessage }
        },
        SemanticErrorCase::InvalidType { what } => {
            let mut message = String::from_str("invalid type: ");
            message.append(what.as_str());
            let help: Option<String> = None;
            let submessage: Option<String> = None;
            Diagnostic { title: String::from_str("Semantic Error"), message, help, submessage }
        },
        SemanticErrorCase::InvalidCast { from, into } => {
            let mut message = String::from_str("invalid cast from ");
            message.append(from.as_str());
            message.append(" to ");
            message.append(into.as_str());
            let help: Option<String> = None;
            let submessage: Option<String> = None;
            Diagnostic { title: String::from_str("Semantic Error"), message, help, submessage }
        },
        SemanticErrorCase::InvalidExpression { what, should } => {
            let mut message = String::from_str("invalid expression: expression ");
            message.append(what.as_str());
            message.append(" is expected to be ");
            message.append(should.as_str());
            let help: Option<String> = None;
            let submessage: Option<String> = None;
            Diagnostic { title: String::from_str("Semantic Error"), message, help, submessage }
        },
        SemanticErrorCase::AssignImmutable { expression } => {
            let mut message = String::from_str("tried to assign to immutable expresion ");
            message.append(expression.as_str());
            let help: Option<String> = None;
            let mut s = String::from_str("left-hand is immutable, but should be mutable to be assigned");
            let submessage = Some(s);
            Diagnostic { title: String::from_str("Semantic Error"), message, help, submessage }
        },
        SemanticErrorCase::UnresolvedName { name } => {
            let mut message = String::from_str("unresolved name: could not find '");
            message.append(name.as_str());
            message.append("' in the current scope");
            let help: Option<String> = None;
            let submessage: Option<String> = None;
            Diagnostic { title: String::from_str("Semantic Error"), message, help, submessage }
        },
        SemanticErrorCase::UnmatchedArguments { function, got, expected, too_much } => {
            let message = if too_much {
                let mut message = String::from_str("too much arguments to ");
                message.append(function.as_str());
                message
            } else {
                let mut message = String::from_str("too few arguments to ");
                message.append(function.as_str());
                message
            };
            let help: Option<String> = None;
            let s = if too_much {
                let mut s = String::from_str("function accepts ");
                s.append(decimal(expected).as_str());
                s.append(" argument(s) but got ");
                s.append(decimal(got).as_str());
                s
            } else {
                let mut s = function.clone();
                s.append(" accepts ");
                s.append(decimal(expected).as_str());
                s.append(" argument(s) but got ");
                s.append(decimal(got).as_str());
                s
            };
            let submessage = Some(s);
            Diagnostic { title: String::from_str("Semantic Error"), message, help, submessage }
        },
        SemanticErrorCase::UnresolvedField { name, from } => {
            let mut message = from.clone();
            message.append(" has no field named '");
            message.append(name.as_str());
            message.append("'");
            let help: Option<String> = None;
            let submessage: Option<String> = None;
            Diagnostic { title: String::from_str("Semantic Error"), message, help, submessage }
        },
        SemanticErrorCase::ReturnValueOnVoidFunction { function } => {
            let mut message = String::from_str("tried to return value out of function ");
            message.append(function.as_str());
            message.append(" that doesn't return anything");
            let help: Option<String> = None;
            let mut s = String::from_str("this return should not have a value");
            let submessage = Some(s);
            Diagnostic { title: String::from_str("Semantic Error"), message, help, submessage }
        },
        SemanticErrorCase::NoReturn { function, return_type } => {
            let mut message = String::from_str("found path of ");
            message.append(function.as_str());
            message.append(" (which returns ");
            message.append(return_type.as_str());
            message.append(") that doesn't return a value");
            let help: Option<String> = None;
            let mut s = String::from_str("ensure that the function returns ");
            s.append(return_type.as_str());
            s.append(" after this");
            let submessage = Some(s);
            Diagnostic { title: String::from_str("Semantic Error"), message, help, submessage }
        },
        SemanticErrorCase::MismatchedReturnType { function, got, expected } => {
            let mut message = String::from_str("return type of ");
            message.append(function.as_str());
            message.append(" is expected to be ");
            message.append(expected.as_str());
            message.append(" but got ");
            message.append(got.as_str());
            let help: Option<String> = None;
            let mut s = String::from_str("the value of this return should be of type ");
            s.append(expected.as_str());
            let submessage = Some(s);
            Diagnostic { title: String::from_str("Semantic Error"), message, help, submessage }
        },
        SemanticErrorCase::IndexNonIndexable { thing, got } => {
            let mut message = String::from_str("attempt to index ");
            message.append(thing.as_str());
            message.append(", of type ");
            message.append(got.as_str());
            message.append(", but it is not indexable");
            let help: Option<String> = None;
            let mut s = String::from_str("type ");
            s.append(got.as_str());
            s.append(" cannot be used with subscript syntax");
            let submessage = Some(s);
            Diagnostic { title: String::from_str("Semantic Error"), message, help, submessage }
        },
        SemanticErrorCase::CallNonFunction { typ } => {
            let mut message = String::from_str("attempt to call non-function type ");
            message.append(typ.as_str());
            let help: Option<String> = None;
            let submessage: Option<String> = None;
            Diagnostic { title: String::from_str("Semantic Error"), message, help, submessage }
        },
        SemanticErrorCase::NonAggregateFieldAccess { typ, field } => {
            let mut message = String::from_str("attempt to access field ");
            message.append(field.as_str());
            message.append(" from non-aggregate type ");
            message.append(typ.as_str());
            let help: Option<String> = None;
            let mut s = String::from_str("you can't get fields from ");
            s.append(typ.as_str());
            let submessage = Some(s);
            Diagnostic { title: String::from_str("Semantic Error"), message, help, submessage }
        },
        SemanticErrorCase::NonTupleMemberAccess { thing, typ } => {
            let mut message = String::from_str("attempt to access member from non-tuple value ");
            message.append(thing.as_str());
            let help: Option<String> = None;
            let mut s = String::from_str("expected a tuple here, but got ");
            s.append(typ.as_str());
            let submessage = Some(s);
            Diagnostic { title: String::from_str("Semantic Error"), message, help, submessage }
        },
        SemanticErrorCase::VariableRedefinition { name } => {
            let mut message = String::from_str("attempt to define already defined variable ");
            message.append(name.as_str());
            let help: Option<String> = None;
            let submessage: Option<String> = None;
            Diagnostic { title: String::from_str("Semantic Error"), message, help, submessage }
        },
        SemanticErrorCase::NameRedefinition { name, defined } => {
            let mut message = String::from_str("attempt to redefine name ");
            message.append(name.as_str());
            let help: Option<String> = None;
            let mut s = String::from_str("note: defined originally at ");
            s.append(filespan.input_file.filename);
            s.append(":");
            s.append(decimal(defined.line).as_str());
            s.append(":");
            s.append(decimal(defined.start).as_str());
            let submessage = Some(s);
            Diagnostic { title: String::from_str("Semantic Error"), message, help, submessage }
        },
        SemanticErrorCase::MisplacedReturn => {
            let mut message = String::from_str("attempt to use return statement outside of function block");
            let help: Option<String> = None;
            let submessage: Option<String> = None;
            Diagnostic { title: String::from_str("Semantic Error"), message, help, submessage }
        },
    }
}
} // verus!
