use vstd::prelude::*;
use crate::text::push_char;
use vstd::string::StringSliceAdditionalSpecFns;

verus! {

/// The binary operators that C code is generated with.
#[derive(Debug, Copy, Clone, PartialEq, Eq, Structural)]
pub enum Binop {
    Add,
    Sub,
    Mul,
    Div,
    Lt,
    Gt,
    Le,
    Ge,
    Ne,
    Eq,
    Assign,
}

pub open spec fn binop_text(op: Binop) -> Seq<char> {
    match op {
        Binop::Add => "+"@,
        Binop::Sub => "-"@,
        Binop::Mul => "*"@,
        Binop::Div => "/"@,
        Binop::Lt => "<"@,
        Binop::Gt => ">"@,
        Binop::Le => "<="@,
        Binop::Ge => ">="@,
        Binop::Ne => "!="@,
        Binop::Eq => "=="@,
        Binop::Assign => "="@,
    }
}

/// The Elo operator of the same name.
pub open spec fn elo_operator(op: Binop) -> crate::ast::BinaryOperation {
    match op {
        Binop::Add => crate::ast::BinaryOperation::Add,
        Binop::Sub => crate::ast::BinaryOperation::Sub,
        Binop::Mul => crate::ast::BinaryOperation::Mul,
        Binop::Div => crate::ast::BinaryOperation::Div,
        Binop::Lt => crate::ast::BinaryOperation::Lt,
        Binop::Gt => crate::ast::BinaryOperation::Gt,
        Binop::Le => crate::ast::BinaryOperation::Le,
        Binop::Ge => crate::ast::BinaryOperation::Ge,
        Binop::Ne => crate::ast::BinaryOperation::Ne,
        Binop::Eq => crate::ast::BinaryOperation::Eq,
        Binop::Assign => crate::ast::BinaryOperation::Assign,
    }
}

/// Each C operator is spelled as the Elo operator of the same name (C and Elo write these
/// alike), so no two of them are spelled alike: `>=` is never written `>`.
pub proof fn law_binop_text_is_elo_spelling(a: Binop, b: Binop)
    ensures
        binop_text(a) == crate::ast::binop_text(elo_operator(a)),
        binop_text(a) == binop_text(b) ==> a == b,
{
    reveal_strlit("+");
    reveal_strlit("-");
    reveal_strlit("*");
    reveal_strlit("/");
    reveal_strlit("<");
    reveal_strlit(">");
    reveal_strlit("<=");
    reveal_strlit(">=");
    reveal_strlit("!=");
    reveal_strlit("==");
    reveal_strlit("=");
    assert(binop_text(a) =~= crate::ast::binop_text(elo_operator(a)));
    assert(binop_text(b) =~= crate::ast::binop_text(elo_operator(b)));
    crate::ast::law_binop_text_distinct(elo_operator(a), elo_operator(b));
}

impl Binop {
    /// The C spelling of the operator.
    pub fn text(&self) -> (r: &'static str)
        ensures
            r@ == binop_text(*self),
    {
        match self {
            Binop::Add => "+",
            Binop::Sub => "-",
            Binop::Mul => "*",
            Binop::Div => "/",
            Binop::Lt => "<",
            Binop::Gt => ">",
            Binop::Le => "<=",
            Binop::Ge => ">=",
            Binop::Ne => "!=",
            Binop::Eq => "==",
            Binop::Assign => "=",
        }
    }
}

/// The unary operators that C code is generated with.
#[derive(Debug, Copy, Clone, PartialEq, Eq, Structural)]
pub enum Unop {
    Neg,
    BNot,
    Not,
    Addr,
    Deref,
}

pub open spec fn unop_text(op: Unop) -> Seq<char> {
    match op {
        Unop::Neg => "-"@,
        Unop::BNot => "~"@,
        Unop::Not => "!"@,
        Unop::Addr => "&"@,
        Unop::Deref => "*"@,
    }
}

/// The checked operator of the same name.
pub open spec fn checked_unop(op: Unop) -> crate::cir::UnaryOperation {
    match op {
        Unop::Neg => crate::cir::UnaryOperation::Neg,
        Unop::BNot => crate::cir::UnaryOperation::BNot,
        Unop::Not => crate::cir::UnaryOperation::Not,
        Unop::Addr => crate::cir::UnaryOperation::Addr,
        Unop::Deref => crate::cir::UnaryOperation::Deref,
    }
}

/// Each C unary operator is spelled as the Elo operator of the same name, so no two of them
/// are spelled alike.
pub proof fn law_unop_text_is_elo_spelling(a: Unop, b: Unop)
    ensures
        unop_text(a) == crate::cir::unop_symbol(checked_unop(a)),
        unop_text(a) == unop_text(b) ==> a == b,
{
    reveal_strlit("-");
    reveal_strlit("~");
    reveal_strlit("!");
    reveal_strlit("&");
    reveal_strlit("*");
    assert("-"@.len() == 1 && "-"@[0] == '-' && "~"@.len() == 1 && "~"@[0] == '~' && "!"@.len() == 1 && "!"@[0] == '!'
        && "&"@.len() == 1 && "&"@[0] == '&' && "*"@.len() == 1 && "*"@[0] == '*');
}

impl Unop {
    /// The C spelling of the operator.
    pub fn text(&self) -> (r: &'static str)
        ensures
            r@ == unop_text(*self),
    {
        match self {
            Unop::Neg => "-",
            Unop::BNot => "~",
            Unop::Not => "!",
            Unop::Addr => "&",
            Unop::Deref => "*",
        }
    }
}

/// The uppercase hexadecimal digit of a value below 16.
pub open spec fn hex_digit(v: u8) -> char {
    if v < 10 {
        ((v + 48) as u8) as char
    } else {
        ((v - 10 + 65) as u8) as char
    }
}

/// How a byte is written inside a C string literal.
pub open spec fn c_escape(b: u8) -> Seq<char> {
    if b == 10 {
        seq!['\\', 'n']
    } else if b == 13 {
        seq!['\\', 'r']
    } else if b == 9 {
        seq!['\\', 't']
    } else if b == 0 {
        seq!['\\', '0']
    } else if b == 7 {
        seq!['\\', 'a']
    } else if b == 8 {
        seq!['\\', 'b']
    } else if b == 12 {
        seq!['\\', 'f']
    } else if b == 11 {
        seq!['\\', 'v']
    } else if b == 92 {
        seq!['\\', '\\']
    } else if b == 39 {
        seq!['\\', '\'']
    } else if b == 34 {
        seq!['\\', '"']
    } else if b == 63 {
        seq!['\\', '?']
    } else if 0x20 <= b <= 0x7e {
        seq![b as char]
    } else {
        seq!['\\', 'x', hex_digit(b / 16), hex_digit(b % 16)]
    }
}

/// Printable ASCII other than the backslash, `'`, `"` and `?` is written as itself; every other byte
/// is written as a backslash and at least one more character, so that no escape ends the
/// literal early.
pub proof fn law_c_escape_shape(b: u8)
    ensures
        (0x20 <= b <= 0x7e && b != 92 && b != 39 && b != 34 && b != 63) ==> c_escape(b) == seq![b as char],
        !(0x20 <= b <= 0x7e && b != 92 && b != 39 && b != 34 && b != 63) ==> c_escape(b).len() >= 2
            && c_escape(b)[0] == '\\',
        c_escape(b)[0] != '"',
{
    if 0x20 <= b <= 0x7e && b != 34 {
        assert(b as char != '"');
    }
}

/// The escapes of a byte sequence, one after another.
pub open spec fn c_escape_all(bytes: Seq<u8>) -> Seq<char>
    decreases bytes.len(),
{
    if bytes.len() == 0 {
        Seq::empty()
    } else {
        c_escape_all(bytes.drop_last()) + c_escape(bytes.last())
    }
}

fn push_hex_digit(out: &mut String, v: u8)
    requires
        v < 16,
    ensures
        final(out)@ == old(out)@.push(hex_digit(v)),
{
    if v < 10 {
        push_char(out, (v + 48) as char);
    } else {
        push_char(out, (v - 10 + 65) as char);
    }
}

/// A C string literal that holds the UTF-8 bytes of `text`: quotes and backslashes,
/// control characters and `?` are escaped, printable ASCII is kept, and any other byte is
/// written as a two-digit uppercase hexadecimal escape.
pub fn string_expr(text: &str) -> (r: String)
    ensures
        r@ == seq!['"'] + c_escape_all(text.spec_bytes()) + seq!['"'],
{
    let bytes = text.as_bytes();
    let mut out = String::new();
    let mut i: usize = 0;
    while i < bytes.len()
        invariant
            bytes@ == text.spec_bytes(),
            i <= bytes@.len(),
            out@ == c_escape_all(bytes@.subrange(0, i as int)),
        decreases bytes@.len() - i,
    {
        let b = bytes[i];
        let ghost before = out@;
        if b == 10 {
            out.append("\\n");
        } else if b == 13 {
            out.append("\\r");
        } else if b == 9 {
            out.append("\\t");
        } else if b == 0 {
            out.append("\\0");
        } else if b == 7 {
            out.append("\\a");
        } else if b == 8 {
            out.append("\\b");
        } else if b == 12 {
            out.append("\\f");
        } else if b == 11 {
            out.append("\\v");
        } else if b == 92 {
            out.append("\\\\");
        } else if b == 39 {
            out.append("\\'");
        } else if b == 34 {
            out.append("\\\"");
        } else if b == 63 {
            out.append("\\?");
        } else if 0x20 <= b && b <= 0x7e {
            push_char(&mut out, b as char);
        } else {
            out.append("\\x");
            push_hex_digit(&mut out, b / 16);
            push_hex_digit(&mut out, b % 16);
        }
        proof {
            reveal_strlit("\\n");
            reveal_strlit("\\r");
            reveal_strlit("\\t");
            reveal_strlit("\\0");
            reveal_strlit("\\a");
            reveal_strlit("\\b");
            reveal_strlit("\\f");
            reveal_strlit("\\v");
            reveal_strlit("\\\\");
            reveal_strlit("\\'");
            reveal_strlit("\\\"");
            reveal_strlit("\\?");
            reveal_strlit("\\x");
            assert(bytes@.subrange(0, i + 1).drop_last() =~= bytes@.subrange(0, i as int));
            assert(out@ =~= before + c_escape(b));
        }
        i = i + 1;
    }
    let mut r = String::new();
    push_char(&mut r, '"');
    r.append(out.as_str());
    push_char(&mut r, '"');
    assert(bytes@.subrange(0, i as int) =~= bytes@);
    assert(r@ =~= seq!['"'] + c_escape_all(text.spec_bytes()) + seq!['"']);
    r
}

/// `typ name`: a declaration of a field or an argument.
pub fn field(typ: &str, name: &str) -> (r: String)
    ensures
        r@ == typ@ + " "@ + name@,
{
    let mut r = String::from_str(typ);
    r.append(" ");
    r.append(name);
    r
}

/// The items joined with commas.
pub open spec fn comma_list(items: Seq<Seq<char>>) -> Seq<char>
    decreases items.len(),
{
    if items.len() == 0 {
        Seq::empty()
    } else if items.len() == 1 {
        items[0]
    } else {
        comma_list(items.drop_last()) + seq![','] + items.last()
    }
}

/// The views of a slice of strings.
pub open spec fn views(v: Seq<String>) -> Seq<Seq<char>> {
    v.map_values(|s: String| s@)
}

/// The arguments separated by commas.
pub fn list(arguments: &[String]) -> (r: String)
    ensures
        r@ == comma_list(views(arguments@)),
{
    let mut s = String::new();
    let l = arguments.len();
    let mut i: usize = 0;
    while i < l
        invariant
            l == arguments@.len(),
            i <= l,
            s@ == comma_list(views(arguments@.subrange(0, i as int))),
        decreases l - i,
    {
        let ghost before = views(arguments@.subrange(0, i as int));
        let ghost after = views(arguments@.subrange(0, i + 1));
        assert(after.drop_last() =~= before);
        if i > 0 {
            push_char(&mut s, ',');
        }
        s.append(arguments[i].as_str());
        i = i + 1;
        proof {
            if i == 1 {
                assert(s@ =~= after[0]);
            } else {
                assert(s@ =~= comma_list(after.drop_last()) + seq![','] + after.last());
            }
        }
    }
    assert(arguments@.subrange(0, l as int) =~= arguments@);
    s
}

/// `(lhs) op (rhs)`
pub fn binop_expr(lhs: &str, rhs: &str, op: Binop) -> (r: String)
    ensures
        r@ == "("@ + lhs@ + ") "@ + binop_text(op) + " ("@ + rhs@ + ")"@,
{
    let mut r = String::from_str("(");
    r.append(lhs);
    r.append(") ");
    r.append(op.text());
    r.append(" (");
    r.append(rhs);
    r.append(")");
    r
}

/// `op(lhs)`
pub fn unop_expr(lhs: &str, op: Unop) -> (r: String)
    ensures
        r@ == unop_text(op) + "("@ + lhs@ + ")"@,
{
    let mut r = String::from_str(op.text());
    r.append("(");
    r.append(lhs);
    r.append(")");
    r
}

/// `(origin).member`
pub fn member_expr(origin: &str, member: &str) -> (r: String)
    ensures
        r@ == "("@ + origin@ + ")."@ + member@,
{
    let mut r = String::from_str("(");
    r.append(origin);
    r.append(").");
    r.append(member);
    r
}

/// `(origin)[index]`
pub fn subscript_expr(origin: &str, index: &str) -> (r: String)
    ensures
        r@ == "("@ + origin@ + ")["@ + index@ + "]"@,
{
    let mut r = String::from_str("(");
    r.append(origin);
    r.append(")[");
    r.append(index);
    r.append("]");
    r
}

/// `(typ[]){items}`: an array compound literal.
pub fn array_expr(typ: &str, items: &str) -> (r: String)
    ensures
        r@ == "("@ + typ@ + "[]){"@ + items@ + "}"@,
{
    let mut r = String::from_str("(");
    r.append(typ);
    r.append("[]){");
    r.append(items);
    r.append("}");
    r
}

/// The designated initializers `.field = value,` of the fields, one after another.
pub open spec fn designated_fields(fields: Seq<(String, String)>) -> Seq<char>
    decreases fields.len(),
{
    if fields.len() == 0 {
        Seq::empty()
    } else {
        designated_fields(fields.drop_last()) + "."@ + fields.last().0@ + " = "@
            + fields.last().1@ + ","@
    }
}

/// `(struct name){.a = x,.b = y,}`: a struct compound literal with designated fields.
pub fn struct_expr(name: &str, fields: &[(String, String)]) -> (r: String)
    ensures
        r@ == "(struct "@ + name@ + "){"@ + designated_fields(fields@) + "}"@,
{
    let mut xs = String::from_str("(struct ");
    xs.append(name);
    xs.append("){");
    let ghost head = xs@;
    let mut i: usize = 0;
    while i < fields.len()
        invariant
            i <= fields@.len(),
            xs@ == head + designated_fields(fields@.subrange(0, i as int)),
        decreases fields@.len() - i,
    {
        assert(fields@.subrange(0, i + 1).drop_last() =~= fields@.subrange(0, i as int));
        xs.append(".");
        xs.append(fields[i].0.as_str());
        xs.append(" = ");
        xs.append(fields[i].1.as_str());
        xs.append(",");
        i = i + 1;
        assert(xs@ =~= head + designated_fields(fields@.subrange(0, i as int)));
    }
    assert(fields@.subrange(0, i as int) =~= fields@);
    xs.append("}");
    xs
}

/// The values, each followed by a comma.
pub open spec fn ordered_fields(values: Seq<String>) -> Seq<char>
    decreases values.len(),
{
    if values.len() == 0 {
        Seq::empty()
    } else {
        ordered_fields(values.drop_last()) + values.last()@ + ","@
    }
}

/// `(struct name){x,y,}`: a struct compound literal with its fields in order.
pub fn struct_expr_ordered(name: &str, fields: &[String]) -> (r: String)
    ensures
        r@ == "(struct "@ + name@ + "){"@ + ordered_fields(fields@) + "}"@,
{
    let mut xs = String::from_str("(struct ");
    xs.append(name);
    xs.append("){");
    let ghost head = xs@;
    let mut i: usize = 0;
    while i < fields.len()
        invariant
            i <= fields@.len(),
            xs@ == head + ordered_fields(fields@.subrange(0, i as int)),
        decreases fields@.len() - i,
    {
        assert(fields@.subrange(0, i + 1).drop_last() =~= fields@.subrange(0, i as int));
        xs.append(fields[i].as_str());
        xs.append(",");
        i = i + 1;
        assert(xs@ =~= head + ordered_fields(fields@.subrange(0, i as int)));
    }
    assert(fields@.subrange(0, i as int) =~= fields@);
    xs.append("}");
    xs
}

/// `name(arguments)`
pub fn function_call_expr(name: &str, arguments: &str) -> (r: String)
    ensures
        r@ == name@ + "("@ + arguments@ + ")"@,
{
    let mut r = String::from_str(name);
    r.append("(");
    r.append(arguments);
    r.append(")");
    r
}

/// The texts one after another.
pub open spec fn concat_all(v: Seq<String>) -> Seq<char>
    decreases v.len(),
{
    if v.len() == 0 {
        Seq::empty()
    } else {
        concat_all(v.drop_last()) + v.last()@
    }
}

/// The statements one after another.
pub fn statement_list(statements: &[String]) -> (r: String)
    ensures
        r@ == concat_all(statements@),
{
    let mut s = String::new();
    let mut i: usize = 0;
    while i < statements.len()
        invariant
            i <= statements@.len(),
            s@ == concat_all(statements@.subrange(0, i as int)),
        decreases statements@.len() - i,
    {
        assert(statements@.subrange(0, i + 1).drop_last() =~= statements@.subrange(0, i as int));
        s.append(statements[i].as_str());
        i = i + 1;
    }
    assert(statements@.subrange(0, i as int) =~= statements@);
    s
}

/// `,...` for a function with variable arguments, nothing otherwise.
pub open spec fn varargs_text(varargs: bool) -> Seq<char> {
    if varargs {
        ",..."@
    } else {
        ""@
    }
}

/// `ret name(arguments){\nbody};\n`: a function definition.
pub fn function_stmt(ret: &str, name: &str, arguments: &str, varargs: bool, body: &str) -> (r: String)
    ensures
        r@ == ret@ + " "@ + name@ + "("@ + arguments@ + varargs_text(varargs) + "){\n"@ + body@
            + "};\n"@,
{
    let mut r = String::from_str(ret);
    r.append(" ");
    r.append(name);
    r.append("(");
    r.append(arguments);
    r.append(if varargs { ",..." } else { "" });
    r.append("){\n");
    r.append(body);
    r.append("};\n");
    r
}

/// `ret name(arguments);\n`: a function declaration.
pub fn function_decl_stmt(ret: &str, name: &str, arguments: &str, varargs: bool) -> (r: String)
    ensures
        r@ == ret@ + " "@ + name@ + "("@ + arguments@ + varargs_text(varargs) + ");\n"@,
{
    let mut r = String::from_str(ret);
    r.append(" ");
    r.append(name);
    r.append("(");
    r.append(arguments);
    r.append(if varargs { ",..." } else { "" });
    r.append(");\n");
    r
}

/// `if(condition)\n{true}else\n{false};\n`, the `else` part only when there is one.
pub fn if_stmt(condition: &str, on_true: &str, on_false: Option<String>) -> (r: String)
    ensures
        r@ == "if("@ + condition@ + ")\n{"@ + on_true@ + "}"@ + match on_false {
            Some(f) => "else\n{"@ + f@ + "}"@,
            None => Seq::empty(),
        } + ";\n"@,
{
    let mut r = String::from_str("if(");
    r.append(condition);
    r.append(")\n{");
    r.append(on_true);
    r.append("}");
    let ghost mid = r@;
    if let Some(f) = on_false {
        r.append("else\n{");
        r.append(f.as_str());
        r.append("}");
    } else {
        assert(mid + Seq::<char>::empty() =~= mid);
    }
    r.append(";\n");
    r
}

/// `while(condition)\n{block};\n`
pub fn while_stmt(condition: &str, block: &str) -> (r: String)
    ensures
        r@ == "while("@ + condition@ + ")\n{"@ + block@ + "};\n"@,
{
    let mut r = String::from_str("while(");
    r.append(condition);
    r.append(")\n{");
    r.append(block);
    r.append("};\n");
    r
}

/// `typ name = value;\n`
pub fn variable_stmt(typ: &str, name: &str, value: &str) -> (r: String)
    ensures
        r@ == typ@ + " "@ + name@ + " = "@ + value@ + ";\n"@,
{
    let mut r = String::from_str(typ);
    r.append(" ");
    r.append(name);
    r.append(" = ");
    r.append(value);
    r.append(";\n");
    r
}

/// `return value;\n`, or `return;\n` without a value.
pub fn return_stmt(value: Option<String>) -> (r: String)
    ensures
        r@ == "return"@ + match value {
            Some(v) => " "@ + v@,
            None => Seq::empty(),
        } + ";\n"@,
{
    let mut r = String::from_str("return");
    let ghost mid = r@;
    if let Some(v) = value {
        r.append(" ");
        r.append(v.as_str());
    } else {
        assert(mid + Seq::<char>::empty() =~= mid);
    }
    r.append(";\n");
    r
}

/// `enum name { body };\n`
pub fn enum_stmt(name: &str, body: &str) -> (r: String)
    ensures
        r@ == "enum "@ + name@ + " { "@ + body@ + " };\n"@,
{
    let mut r = String::from_str("enum ");
    r.append(name);
    r.append(" { ");
    r.append(body);
    r.append(" };\n");
    r
}

/// `struct name { body };\n`
pub fn struct_stmt(name: &str, body: &str) -> (r: String)
    ensures
        r@ == "struct "@ + name@ + " { "@ + body@ + " };\n"@,
{
    let mut r = String::from_str("struct ");
    r.append(name);
    r.append(" { ");
    r.append(body);
    r.append(" };\n");
    r
}

/// `expr;\n`
pub fn expr_stmt(expr: &str) -> (r: String)
    ensures
        r@ == expr@ + ";\n"@,
{
    let mut r = String::from_str(expr);
    r.append(";\n");
    r
}

} // verus!
