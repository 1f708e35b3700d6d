use vstd::prelude::*;
use crate::errors::{Diagnostic, opt_view};
use crate::span::Span;
use crate::text::{decimal, decimal_text};

verus! {

/// The ways in which parsing fails, as the framed reports tell them.
#[derive(Debug)]
pub enum ParseErrorCase {
    UnexpectedToken { got: String, expected: String },
}

/// A parse error and where it was found.
#[derive(Debug)]
pub struct ParseError {
    pub span: Option<Span>,
    pub case: ParseErrorCase,
}

/// The message of the framed report of a parse error.
pub open spec fn framed_parse_message(e: ParseErrorCase) -> Seq<char> {
    match e {
        ParseErrorCase::UnexpectedToken { got, expected } => "unexpected token while parsing: expected "@ + expected@ + " but got "@ + got@,
    }
}

/// The framed report of a parse error: a title and a message, with no help and no
/// submessage.
pub fn parse_error(pe: ParseErrorCase) -> (r: Diagnostic)
    ensures
        r.title@ == "Parse Error"@,
        r.message@ == framed_parse_message(pe),
        opt_view(r.help) is None,
        opt_view(r.submessage) is None,
{
    match pe {
        ParseErrorCase::UnexpectedToken { got, expected } => {
            let mut message = String::from_str("unexpected token while parsing: expected ");
            message.append(expected.as_str());
            message.append(" but got ");
            message.append(got.as_str());
            Diagnostic { title: String::from_str("Parse Error"), message, help: None, submessage: None }
        },
    }
}

/// The ways in which checking types fails, as the framed reports tell them.
#[derive(Debug)]
pub enum TypeErrorCase {
    TypeMismatch { got: String, expected: String },
    InvalidType { what: String },
    InvalidExpression { what: String, should: String },
    UnresolvedName { name: String },
    UnmatchedArguments { name: String, got: usize, expected: usize },
}

/// A type error and where it was found.
#[derive(Debug)]
pub struct TypeError {
    pub span: Option<Span>,
    pub case: TypeErrorCase,
}

/// The message of the framed report of a type error.
pub open spec fn framed_type_message(e: TypeErrorCase) -> Seq<char> {
    match e {
        TypeErrorCase::TypeMismatch { got, expected } => "type mismatch: expected "@ + expected@ + " but got "@ + got@,
        TypeErrorCase::InvalidType { what } => "invalid type: "@ + what@,
        TypeErrorCase::InvalidExpression { what, should } => "invalid expression: expression "@ + what@ + ". Expected to be "@ + should@ + "."@,
        TypeErrorCase::UnresolvedName { name } => "unresolved name: could not find "@ + name@ + " in the current scope."@,
        TypeErrorCase::UnmatchedArguments { name, got, expected } => "arguments to function "@ + name@ + ": expected "@
            + decimal_text(expected as nat) + " argument(s) but got "@ + decimal_text(got as nat) + " argument(s) in the function call."@,
    }
}

/// The framed report of a type error: a title and a message, with no help and no
/// submessage.
pub fn type_error(pe: TypeErrorCase) -> (r: Diagnostic)
    ensures
        r.title@ == "Type Error"@,
        r.message@ == framed_type_message(pe),
        opt_view(r.help) is None,
        opt_view(r.submessage) is None,
{
    let message = match pe {
        TypeErrorCase::TypeMismatch { got, expected } => {
            let mut message = String::from_str("type mismatch: expected ");
            message.append(expected.as_str());
            message.append(" but got ");
            message.append(got.as_str());
            message
        },
        TypeErrorCase::InvalidType { what } => {
            let mut message = String::from_str("invalid type: ");
            message.append(what.as_str());
            message
        },
        TypeErrorCase::InvalidExpression { what, should } => {
            let mut message = String::from_str("invalid expression: expression ");
            message.append(what.as_str());
            message.append(". Expected to be ");
            message.append(should.as_str());
            message.append(".");
            message
        },
        TypeErrorCase::UnresolvedName { name } => {
            let mut message = String::from_str("unresolved name: could not find ");
            message.append(name.as_str());
            message.append(" in the current scope.");
            message
        },
        TypeErrorCase::UnmatchedArguments { name, got, expected } => {
            let mut message = String::from_str("arguments to function ");
            message.append(name.as_str());
            message.append(": expected ");
            message.append(decimal(expected).as_str());
            message.append(" argument(s) but got ");
            message.append(decimal(got).as_str());
            message.append(" argument(s) in the function call.");
            message
        },
    };
    Diagnostic { title: String::from_str("Type Error"), message, help: None, submessage: None }
}

} // verus!
