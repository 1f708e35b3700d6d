use vstd::prelude::*;
use crate::text::str_eq;

verus! {

/// The primitive types of the evaluated Elo tree.
#[derive(Debug, PartialEq, Eq, Clone, Copy, Structural)]
pub enum Primitive {
    Str,
    F32,
    F64,
    Uint,
    Int,
    Bool,
    I8,
    I16,
    I32,
    I64,
    I128,
    U8,
    U16,
    U32,
    U64,
    U128,
}

/// The primitive type that the name `s` denotes, if any.
pub open spec fn evaluated_primitive_of(s: Seq<char>) -> Option<Primitive> {
    if s == "str"@ {
        Some(Primitive::Str)
    } else if s == "u128"@ {
        Some(Primitive::U128)
    } else if s == "i128"@ {
        Some(Primitive::I128)
    } else if s == "i64"@ {
        Some(Primitive::I64)
    } else if s == "u64"@ {
        Some(Primitive::U64)
    } else if s == "i32"@ {
        Some(Primitive::I32)
    } else if s == "u32"@ {
        Some(Primitive::U32)
    } else if s == "i16"@ {
        Some(Primitive::I16)
    } else if s == "u16"@ {
        Some(Primitive::U16)
    } else if s == "i8"@ {
        Some(Primitive::I8)
    } else if s == "u8"@ {
        Some(Primitive::U8)
    } else if s == "int"@ {
        Some(Primitive::Int)
    } else if s == "uint"@ {
        Some(Primitive::Uint)
    } else if s == "bool"@ {
        Some(Primitive::Bool)
    } else if s == "f64"@ {
        Some(Primitive::F64)
    } else if s == "f32"@ {
        Some(Primitive::F32)
    } else {
        None
    }
}

impl Primitive {
    /// The primitive type named `s`, if any.
    pub fn from_string(s: String) -> (r: Option<Primitive>)
        ensures
            r == evaluated_primitive_of(s@),
    {
        let t = s.as_str();
        if str_eq(t, "str") {
            Some(Primitive::Str)
        } else if str_eq(t, "u128") {
            Some(Primitive::U128)
        } else if str_eq(t, "i128") {
            Some(Primitive::I128)
        } else if str_eq(t, "i64") {
            Some(Primitive::I64)
        } else if str_eq(t, "u64") {
            Some(Primitive::U64)
        } else if str_eq(t, "i32") {
            Some(Primitive::I32)
        } else if str_eq(t, "u32") {
            Some(Primitive::U32)
        } else if str_eq(t, "i16") {
            Some(Primitive::I16)
        } else if str_eq(t, "u16") {
            Some(Primitive::U16)
        } else if str_eq(t, "i8") {
            Some(Primitive::I8)
        } else if str_eq(t, "u8") {
            Some(Primitive::U8)
        } else if str_eq(t, "int") {
            Some(Primitive::Int)
        } else if str_eq(t, "uint") {
            Some(Primitive::Uint)
        } else if str_eq(t, "bool") {
            Some(Primitive::Bool)
        } else if str_eq(t, "f64") {
            Some(Primitive::F64)
        } else if str_eq(t, "f32") {
            Some(Primitive::F32)
        } else {
            None
        }
    }
}

/// A struct type: its name and its typed fields.
#[derive(Debug, PartialEq, Eq)]
pub struct StructTyping {
    name: String,
    fields: Vec<TypedField>,
}

/// An enum type: its name and the names of its variants.
#[derive(Debug, PartialEq, Eq)]
pub struct EnumTyping {
    name: String,
    vars: Vec<String>,
}

/// A type of the evaluated Elo tree.
#[derive(Debug, PartialEq, Eq)]
pub enum Type {
    Primitive { typ: Primitive },
    Struct { typ: StructTyping, generic: Option<Box<Type>> },
    Enum { typ: EnumTyping, generic: Option<Box<Type>> },
    Array { typ: Box<Type>, amount: usize },
    Tuple { types: Vec<Type> },
    Pointer { typ: Box<Type> },
    FunctionPointer { args: Vec<Type>, return_: Box<Option<Type>> },
}

/// A named field with its type.
#[derive(Debug, PartialEq, Eq)]
pub struct TypedField {
    pub name: String,
    pub typing: Type,
}

} // verus!
