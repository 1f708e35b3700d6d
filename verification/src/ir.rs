use vstd::prelude::*;
use crate::text::str_eq;

verus! {

/// The primitive types of the Elo intermediate representation.
#[derive(Debug, Eq, PartialEq, Clone, Copy, Structural)]
pub enum Primitive {
    I128,
    I64,
    I32,
    I16,
    I8,
    Bool,
    U128,
    U64,
    U32,
    U16,
    U8,
    F32,
    F64,
    Int,
    UInt,
    Float,
    Str,
    Char,
}

/// The primitive type that the name `s` denotes, if any.
pub open spec fn ir_primitive_of(s: Seq<char>) -> Option<Primitive> {
    if s == "f32"@ {
        Some(Primitive::F32)
    } else if s == "f64"@ {
        Some(Primitive::F64)
    } else if s == "float"@ {
        Some(Primitive::Float)
    } else if s == "int"@ {
        Some(Primitive::Int)
    } else if s == "uint"@ {
        Some(Primitive::UInt)
    } else if s == "i8"@ {
        Some(Primitive::I8)
    } else if s == "i16"@ {
        Some(Primitive::I16)
    } else if s == "i32"@ {
        Some(Primitive::I32)
    } else if s == "i64"@ {
        Some(Primitive::I64)
    } else if s == "i128"@ {
        Some(Primitive::I128)
    } else if s == "u8"@ {
        Some(Primitive::U8)
    } else if s == "u16"@ {
        Some(Primitive::U16)
    } else if s == "u32"@ {
        Some(Primitive::U32)
    } else if s == "u64"@ {
        Some(Primitive::U64)
    } else if s == "u128"@ {
        Some(Primitive::U128)
    } else if s == "bool"@ {
        Some(Primitive::Bool)
    } else if s == "str"@ {
        Some(Primitive::Str)
    } else if s == "char"@ {
        Some(Primitive::Char)
    } else {
        None
    }
}

impl Primitive {
    /// The primitive type named `s`, if any.
    pub fn from_str(s: &str) -> (r: Option<Primitive>)
        ensures
            r == ir_primitive_of(s@),
    {
        if str_eq(s, "f32") {
            Some(Primitive::F32)
        } else if str_eq(s, "f64") {
            Some(Primitive::F64)
        } else if str_eq(s, "float") {
            Some(Primitive::Float)
        } else if str_eq(s, "int") {
            Some(Primitive::Int)
        } else if str_eq(s, "uint") {
            Some(Primitive::UInt)
        } else if str_eq(s, "i8") {
            Some(Primitive::I8)
        } else if str_eq(s, "i16") {
            Some(Primitive::I16)
        } else if str_eq(s, "i32") {
            Some(Primitive::I32)
        } else if str_eq(s, "i64") {
            Some(Primitive::I64)
        } else if str_eq(s, "i128") {
            Some(Primitive::I128)
        } else if str_eq(s, "u8") {
            Some(Primitive::U8)
        } else if str_eq(s, "u16") {
            Some(Primitive::U16)
        } else if str_eq(s, "u32") {
            Some(Primitive::U32)
        } else if str_eq(s, "u64") {
            Some(Primitive::U64)
        } else if str_eq(s, "u128") {
            Some(Primitive::U128)
        } else if str_eq(s, "bool") {
            Some(Primitive::Bool)
        } else if str_eq(s, "str") {
            Some(Primitive::Str)
        } else if str_eq(s, "char") {
            Some(Primitive::Char)
        } else {
            None
        }
    }
}

} // verus!
