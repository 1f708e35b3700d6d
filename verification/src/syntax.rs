use vstd::prelude::*;

verus! {

/// A binary operator of the Elo syntax tree, read from its characters; `OpAssign` applies an
/// operator and assigns.
#[derive(Debug, PartialEq, Eq)]
pub enum BinaryOperation {
    Add,
    Sub,
    Mul,
    Div,
    Mod,
    Eq,
    Ne,
    Lt,
    Le,
    Gt,
    Ge,
    And,
    Or,
    BAnd,
    BOr,
    BXor,
    LShift,
    RShift,
    Assign,
    OpAssign(Box<BinaryOperation>),
}

/// The binary operator written with the character `first` and, for a two-character
/// operator, `second`.
pub open spec fn syntax_binop(first: char, second: Option<char>) -> Option<BinaryOperation> {
    match second {
        None => if first == '+' {
            Some(BinaryOperation::Add)
        } else if first == '-' {
            Some(BinaryOperation::Sub)
        } else if first == '*' {
            Some(BinaryOperation::Mul)
        } else if first == '/' {
            Some(BinaryOperation::Div)
        } else if first == '%' {
            Some(BinaryOperation::Mod)
        } else if first == '<' {
            Some(BinaryOperation::Lt)
        } else if first == '>' {
            Some(BinaryOperation::Gt)
        } else if first == '&' {
            Some(BinaryOperation::BAnd)
        } else if first == '|' {
            Some(BinaryOperation::BOr)
        } else if first == '^' {
            Some(BinaryOperation::BXor)
        } else if first == '=' {
            Some(BinaryOperation::Assign)
        } else {
            None
        },
        Some(c) => if first == '=' && c == '=' {
            Some(BinaryOperation::Eq)
        } else if first == '!' && c == '=' {
            Some(BinaryOperation::Ne)
        } else if first == '<' && c == '=' {
            Some(BinaryOperation::Le)
        } else if first == '>' && c == '=' {
            Some(BinaryOperation::Ge)
        } else if first == '&' && c == '&' {
            Some(BinaryOperation::And)
        } else if first == '|' && c == '|' {
            Some(BinaryOperation::Or)
        } else if first == '<' && c == '<' {
            Some(BinaryOperation::LShift)
        } else if first == '>' && c == '>' {
            Some(BinaryOperation::RShift)
        } else {
            None
        },
    }
}

impl BinaryOperation {
    /// The binary operator written with the character `first` and, for a two-character
    /// operator, `second`; none for any other text.
    pub fn from_op(first: char, second: Option<char>) -> (r: Option<Self>)
        ensures
            r == syntax_binop(first, second),
    {
        match second {
            None => match first {
                '+' => Some(BinaryOperation::Add),
                '-' => Some(BinaryOperation::Sub),
                '*' => Some(BinaryOperation::Mul),
                '/' => Some(BinaryOperation::Div),
                '%' => Some(BinaryOperation::Mod),
                '<' => Some(BinaryOperation::Lt),
                '>' => Some(BinaryOperation::Gt),
                '&' => Some(BinaryOperation::BAnd),
                '|' => Some(BinaryOperation::BOr),
                '^' => Some(BinaryOperation::BXor),
                '=' => Some(BinaryOperation::Assign),
                _ => None,
            },
            Some(c) => {
                if first == '=' && c == '=' {
                    Some(BinaryOperation::Eq)
                } else if first == '!' && c == '=' {
                    Some(BinaryOperation::Ne)
                } else if first == '<' && c == '=' {
                    Some(BinaryOperation::Le)
                } else if first == '>' && c == '=' {
                    Some(BinaryOperation::Ge)
                } else if first == '&' && c == '&' {
                    Some(BinaryOperation::And)
                } else if first == '|' && c == '|' {
                    Some(BinaryOperation::Or)
                } else if first == '<' && c == '<' {
                    Some(BinaryOperation::LShift)
                } else if first == '>' && c == '>' {
                    Some(BinaryOperation::RShift)
                } else {
                    None
                }
            },
        }
    }
}

/// A unary operator of the Elo syntax tree, read from its character.
#[derive(Debug, Copy, Clone, PartialEq, Eq, Structural)]
pub enum UnaryOperation {
    Neg,
    Not,
    BNot,
    Addr,
}

/// The unary operator written with the character `first` and no second character.
pub open spec fn syntax_unop(first: char, second: Option<char>) -> Option<UnaryOperation> {
    if second is Some {
        None
    } else if first == '!' {
        Some(UnaryOperation::Not)
    } else if first == '~' {
        Some(UnaryOperation::BNot)
    } else if first == '-' {
        Some(UnaryOperation::Neg)
    } else if first == '&' {
        Some(UnaryOperation::Addr)
    } else {
        None
    }
}

impl UnaryOperation {
    /// The unary operator written with the character `first`; none for any other text,
    /// and for any operator of two characters.
    pub fn from_op(first: char, second: Option<char>) -> (r: Option<Self>)
        ensures
            r == syntax_unop(first, second),
    {
        if second.is_some() {
            return None;
        }
        match first {
            '!' => Some(UnaryOperation::Not),
            '~' => Some(UnaryOperation::BNot),
            '-' => Some(UnaryOperation::Neg),
            '&' => Some(UnaryOperation::Addr),
            _ => None,
        }
    }
}

/// No text is both a binary and a unary operator but `-` and `&`, which are each both.
pub proof fn lemma_syntax_operators_overlap(first: char, second: Option<char>)
    ensures
        (syntax_binop(first, second) is Some && syntax_unop(first, second) is Some) <==> (second is None && (first == '-' || first == '&')),
{
}

} // verus!
