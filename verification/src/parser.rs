use vstd::prelude::*;
use crate::ast::{lemma_all_arrays_filled_push, lemma_all_arrays_filled_concat, lemma_all_field_arrays_filled_push, lemma_nodes_arrays_filled_push, all_arrays_filled, all_field_arrays_filled, arrays_filled, node_arrays_filled, nodes_arrays_filled, BinaryOperation, UnaryOperation, Expression, ExpressionData, Type, Typing, TypedField, Field, Node, Block, Statement, Program, LetStatement, VarStatement, ConstStatement, FnStatement, ExternFnStatement, StructStatement, EnumStatement, IfStatement, WhileStatement, ReturnStatement, binop_of_text, binop_precedence_of, unop_of_text};
use crate::errors::{ParseError, ParseErrorCase};
use crate::keyword::{Keyword, keyword_debug};
use crate::lexer::{Lexer, lex_all, lexem_view};
use crate::span::{InputFile, Span, merged};
use crate::token::{Lexem, Token, TokenV, debug_text, token_debug};

verus! {

/// How strongly a binary operator binds in expressions; 0 for what is no binary operator.
pub type Precedence = u8;

/// The value of a digit character in bases up to 36, or 36 for any other character.
pub open spec fn digit_value(c: char) -> int {
    if '0' <= c && c <= '9' {
        c as int - '0' as int
    } else if 'a' <= c && c <= 'z' {
        c as int - 'a' as int + 10
    } else if 'A' <= c && c <= 'Z' {
        c as int - 'A' as int + 10
    } else {
        36
    }
}

/// Whether every character of `s` is a digit of base `radix`.
pub open spec fn all_digits(s: Seq<char>, radix: int) -> bool {
    forall|i: int| 0 <= i < s.len() ==> #[trigger] digit_value(s[i]) < radix
}

/// The number that the digits `s` write in base `radix`.
pub open spec fn digits_value(s: Seq<char>, radix: int) -> int
    decreases s.len(),
{
    if s.len() == 0 {
        0
    } else {
        digits_value(s.drop_last(), radix) * radix + digit_value(s.last())
    }
}

proof fn lemma_digits_value_nonneg(s: Seq<char>, radix: int)
    requires
        radix >= 1,
        all_digits(s, radix),
    ensures
        digits_value(s, radix) >= 0,
    decreases s.len(),
{
    if s.len() > 0 {
        assert(digit_value(s[s.len() - 1]) < radix);
        assert(all_digits(s.drop_last(), radix)) by {
            assert forall|i: int| 0 <= i < s.drop_last().len() implies digit_value(
                s.drop_last()[i],
            ) < radix by {
                assert(s.drop_last()[i] == s[i]);
            }
        }
        lemma_digits_value_nonneg(s.drop_last(), radix);
        let v = digits_value(s.drop_last(), radix);
        assert(v * radix >= 0) by (nonlinear_arith)
            requires
                v >= 0,
                radix >= 1,
        ;
        assert(digit_value(s.last()) >= 0);
    }
}

/// A longer run of digits never writes a smaller number.
proof fn lemma_digits_value_grows(s: Seq<char>, radix: int, k: int)
    requires
        radix >= 1,
        all_digits(s, radix),
        0 <= k <= s.len(),
    ensures
        digits_value(s.subrange(0, k), radix) <= digits_value(s, radix),
    decreases s.len() - k,
{
    if k < s.len() {
        let t = s.subrange(0, k + 1);
        assert(t.drop_last() =~= s.subrange(0, k));
        assert(all_digits(t, radix)) by {
            assert forall|i: int| 0 <= i < t.len() implies digit_value(t[i]) < radix by {
                assert(t[i] == s[i]);
            }
        }
        assert(all_digits(t.drop_last(), radix)) by {
            assert forall|i: int| 0 <= i < t.drop_last().len() implies digit_value(
                t.drop_last()[i],
            ) < radix by {
                assert(t.drop_last()[i] == s[i]);
            }
        }
        lemma_digits_value_nonneg(t.drop_last(), radix);
        let v = digits_value(t.drop_last(), radix);
        assert(v * radix >= v) by (nonlinear_arith)
            requires
                v >= 0,
                radix >= 1,
        ;
        assert(digit_value(t.last()) >= 0);
        lemma_digits_value_grows(s, radix, k + 1);
    } else {
        assert(s.subrange(0, k) =~= s);
    }
}

fn char_digit(c: char) -> (r: u32)
    ensures
        r == digit_value(c),
{
    if '0' <= c && c <= '9' {
        (c as u32) - ('0' as u32)
    } else if 'a' <= c && c <= 'z' {
        (c as u32) - ('a' as u32) + 10
    } else if 'A' <= c && c <= 'Z' {
        (c as u32) - ('A' as u32) + 10
    } else {
        36
    }
}

/// The integer that `literal` writes in base `radix`, as `i128::from_str_radix` reads a
/// run of digits without a sign: `None` for an empty run, a character that is no digit of
/// the base, or a value beyond `i128::MAX`.
pub fn toint(literal: &str, radix: u32) -> (r: Option<i128>)
    requires
        2 <= radix <= 36,
    ensures
        r is Some <==> (literal@.len() > 0 && all_digits(literal@, radix as int) && digits_value(
            literal@,
            radix as int,
        ) <= i128::MAX),
        r is Some ==> r->0 == digits_value(literal@, radix as int),
{
    let n = literal.unicode_len();
    if n == 0 {
        return None;
    }
    let ghost s = literal@;
    let mut acc: i128 = 0;
    let mut i: usize = 0;
    while i < n
        invariant
            n == s.len(),
            s == literal@,
            2 <= radix <= 36,
            i <= n,
            all_digits(s.subrange(0, i as int), radix as int),
            acc == digits_value(s.subrange(0, i as int), radix as int),
            0 <= acc,
        decreases n - i,
    {
        let c = literal.get_char(i);
        let d = char_digit(c);
        let ghost pre = s.subrange(0, i as int);
        let ghost next = s.subrange(0, i + 1);
        assert(next.drop_last() =~= pre);
        if d >= radix {
            proof {
                assert(digit_value(s[i as int]) >= radix);
            }
            return None;
        }
        assert(all_digits(next, radix as int)) by {
            assert forall|j: int| 0 <= j < next.len() implies digit_value(next[j]) < radix by {
                if j < i {
                    assert(next[j] == pre[j]);
                }
            }
        }
        let limit: i128 = (i128::MAX - (d as i128)) / (radix as i128);
        if acc > limit {
            proof {
                let a = acc as int;
                let dd = d as int;
                let rr = radix as int;
                let l = limit as int;
                assert(l == (i128::MAX - dd) / rr);
                assert(a * rr + dd > i128::MAX) by (nonlinear_arith)
                    requires
                        a > l,
                        l == (i128::MAX - dd) / rr,
                        rr >= 2,
                        0 <= dd < rr,
                ;
                if all_digits(s, radix as int) {
                    lemma_digits_value_grows(s, radix as int, i + 1);
                }
            }
            return None;
        }
        proof {
            let a = acc as int;
            let dd = d as int;
            let rr = radix as int;
            assert(a * rr + dd <= i128::MAX) by (nonlinear_arith)
                requires
                    0 <= a <= (i128::MAX - dd) / rr,
                    rr >= 2,
                    0 <= dd < rr,
            ;
            assert(a * rr >= 0) by (nonlinear_arith)
                requires
                    a >= 0,
                    rr >= 2,
            ;
        }
        acc = acc * (radix as i128) + (d as i128);
        i = i + 1;
    }
    assert(s.subrange(0, n as int) =~= s);
    Some(acc)
}

/// How strongly the operator of a token binds as a binary operator; 0 for any token that
/// is no binary operator of expressions.
pub open spec fn binop_precedence_of_token(t: TokenV) -> Precedence {
    match t {
        TokenV::Op('=', None) => 1,
        TokenV::Op('=', Some('=')) => 2,
        TokenV::Op('!', Some('=')) => 2,
        TokenV::Op('<', Some('=')) => 3,
        TokenV::Op('>', Some('=')) => 3,
        TokenV::Op('<', None) => 3,
        TokenV::Op('>', None) => 3,
        TokenV::Op('&', Some('&')) => 4,
        TokenV::Op('|', Some('|')) => 4,
        TokenV::Op('&', None) => 5,
        TokenV::Op('|', None) => 5,
        TokenV::Op('^', None) => 5,
        TokenV::Op('+', None) => 6,
        TokenV::Op('-', None) => 6,
        TokenV::Op('*', None) => 7,
        TokenV::Op('/', None) => 7,
        TokenV::Op('%', None) => 7,
        TokenV::Op('<', Some('<')) => 8,
        TokenV::Op('>', Some('>')) => 8,
        _ => 0,
    }
}

/// How strongly the token binds as a binary operator; 0 where it is none.
pub fn binop_precedence(token: &Token) -> (r: Precedence)
    ensures
        r == binop_precedence_of_token(token@),
{
    match token {
        Token::Op('=', None) => 1,
        Token::Op('=', Some('=')) => 2,
        Token::Op('!', Some('=')) => 2,
        Token::Op('<', Some('=')) => 3,
        Token::Op('>', Some('=')) => 3,
        Token::Op('<', None) => 3,
        Token::Op('>', None) => 3,
        Token::Op('&', Some('&')) => 4,
        Token::Op('|', Some('|')) => 4,
        Token::Op('&', None) => 5,
        Token::Op('|', None) => 5,
        Token::Op('^', None) => 5,
        Token::Op('+', None) => 6,
        Token::Op('-', None) => 6,
        Token::Op('*', None) => 7,
        Token::Op('/', None) => 7,
        Token::Op('%', None) => 7,
        Token::Op('<', Some('<')) => 8,
        Token::Op('>', Some('>')) => 8,
        _ => 0,
    }
}

/// How strongly the token binds as a unary operator; 0 where it is none.
pub open spec fn unop_precedence_of_token(t: TokenV) -> Precedence {
    match t {
        TokenV::Op('!', None) => 9,
        TokenV::Op('-', None) => 9,
        TokenV::Op('~', None) => 9,
        TokenV::Op('&', None) => 9,
        TokenV::Op('*', None) => 9,
        _ => 0,
    }
}

/// How strongly the token binds as a unary operator; 0 where it is none.
pub fn unop_precedence(op: &Token) -> (r: Precedence)
    ensures
        r == unop_precedence_of_token(op@),
{
    match op {
        Token::Op('!', None) => 9,
        Token::Op('-', None) => 9,
        Token::Op('~', None) => 9,
        Token::Op('&', None) => 9,
        Token::Op('*', None) => 9,
        _ => 0,
    }
}

/// A token that binds as a binary operator in expressions is the operator of the
/// abstract syntax, and binds there just as strongly.
pub proof fn lemma_binop_precedence_agrees(t: TokenV)
    requires
        binop_precedence_of_token(t) > 0,
    ensures
        binop_of_text(crate::token::token_text(t)) is Some,
        binop_precedence_of(binop_of_text(crate::token::token_text(t))->0) == binop_precedence_of_token(t) as usize,
{
}

/// A token binds as a binary operator exactly when it is written as a binary operator that
/// is `=` or no assignment; `+=` and the other compound assignments do not.
pub proof fn law_token_binds_as_binop(t: TokenV)
    ensures
        binop_precedence_of_token(t) > 0 <==> (t is Op && binop_of_text(crate::token::token_text(t)) is Some
            && (crate::ast::binop_group(crate::token::token_text(t)) > 0
                || (crate::token::token_text(t).len() == 1 && crate::token::token_text(t)[0] == '='))),
{
}

/// Tokens bind by the groups of `binop_group`: `%` as `*` and `/`, and more strongly than
/// `+` and `-`.
pub proof fn law_token_precedence_follows_groups(t1: TokenV, t2: TokenV)
    requires
        binop_precedence_of_token(t1) > 0,
        binop_precedence_of_token(t2) > 0,
    ensures
        binop_precedence_of_token(t1) < binop_precedence_of_token(t2)
            <==> crate::ast::binop_group(crate::token::token_text(t1)) < crate::ast::binop_group(crate::token::token_text(t2)),
        binop_precedence_of_token(t1) == binop_precedence_of_token(t2)
            <==> crate::ast::binop_group(crate::token::token_text(t1)) == crate::ast::binop_group(crate::token::token_text(t2)),
{
}

/// A token that binds as a unary operator is a unary operator of the abstract syntax.
pub proof fn lemma_unop_precedence_agrees(t: TokenV)
    requires
        unop_precedence_of_token(t) > 0,
    ensures
        unop_of_text(crate::token::token_text(t)) is Some,
        unop_precedence_of_token(t) == 9,
{
}

/// The first position at or after `i` whose token is no newline, or the end.
pub open spec fn skip_newlines(ls: Seq<Lexem>, i: int) -> int
    decreases ls.len() - i,
{
    if 0 <= i < ls.len() && ls[i].token@ == TokenV::Newline {
        skip_newlines(ls, i + 1)
    } else {
        i
    }
}

pub proof fn lemma_skip_newlines(ls: Seq<Lexem>, i: int)
    requires
        0 <= i <= ls.len(),
    ensures
        i <= skip_newlines(ls, i) <= ls.len(),
        skip_newlines(ls, i) < ls.len() ==> ls[skip_newlines(ls, i)].token@ != TokenV::Newline,
    decreases ls.len() - i,
{
    if i < ls.len() && ls[i].token@ == TokenV::Newline {
        lemma_skip_newlines(ls, i + 1);
    }
}

/// Where a lazy test for `expect` stops: it passes newlines, unless a newline is what it
/// looks for.
pub open spec fn lazy_stop(ls: Seq<Lexem>, i: int, expect: TokenV) -> int
    decreases ls.len() - i,
{
    if 0 <= i < ls.len() && ls[i].token@ != expect && ls[i].token@ == TokenV::Newline {
        lazy_stop(ls, i + 1, expect)
    } else {
        i
    }
}

/// Looking lazily for a token that is no newline stops where the newlines end.
pub proof fn lemma_lazy_stop_is_skip(ls: Seq<Lexem>, i: int, expect: TokenV)
    requires
        0 <= i <= ls.len(),
        expect != TokenV::Newline,
    ensures
        lazy_stop(ls, i, expect) == skip_newlines(ls, i),
    decreases ls.len() - i,
{
    if i < ls.len() && ls[i].token@ == TokenV::Newline {
        lemma_lazy_stop_is_skip(ls, i + 1, expect);
    }
}

proof fn lemma_lazy_stop(ls: Seq<Lexem>, i: int, expect: TokenV)
    requires
        0 <= i <= ls.len(),
    ensures
        i <= lazy_stop(ls, i, expect) <= ls.len(),
    decreases ls.len() - i,
{
    if i < ls.len() && ls[i].token@ != expect && ls[i].token@ == TokenV::Newline {
        lemma_lazy_stop(ls, i + 1, expect);
    }
}

/// Whether `e` reports that `expected` was wanted where `got` was found, at `span`.
pub open spec fn is_unexpected(e: ParseError, span: Option<Span>, got: Seq<char>, expected: Seq<char>) -> bool {
    &&& e.span == span
    &&& match e.case {
        ParseErrorCase::UnexpectedToken { got: g, expected: x } => g@ == got && x@ == expected,
        _ => false,
    }
}

/// Whether `e` reports that `expected` was wanted at position `j` of `ls`: where the
/// lexem there was found, or where the lexems ended.
pub open spec fn unexpected_at(e: ParseError, ls: Seq<Lexem>, j: int, expected: Seq<char>) -> bool {
    if j < ls.len() {
        is_unexpected(e, Some(ls[j].span), token_debug(ls[j].token@), expected)
    } else {
        is_unexpected(e, None, "EOF"@, expected)
    }
}

/// The value of an integer literal written with `digits` in `base`, where it is one that
/// fits in an `i128`.
pub open spec fn literal_value(digits: Seq<char>, base: u32) -> Option<int> {
    if 2 <= base <= 36 && digits.len() > 0 && all_digits(digits, base as int) && digits_value(
        digits,
        base as int,
    ) <= i128::MAX {
        Some(digits_value(digits, base as int))
    } else {
        None
    }
}

/// Whether a token can start a type: a name, `*`, `{` or `(`.
pub open spec fn starts_type(t: TokenV) -> bool {
    t is Identifier || t == TokenV::Op('*', None) || t == TokenV::Delimiter('{') || t == TokenV::Delimiter('(')
}

/// Whether a type of the shape of `typing` starts with the token `t`.
pub open spec fn typing_starts_with(typing: Typing, t: TokenV) -> bool {
    match typing {
        Typing::Named { name, generic: _ } => t == TokenV::Identifier(name@),
        Typing::Pointer { mutable, typ: _ } => t == TokenV::Op('*', None) && !mutable,
        Typing::Array { typ: _, amount: _ } => t == TokenV::Delimiter('{'),
        Typing::Tuple { types: _ } => t == TokenV::Delimiter('('),
        _ => false,
    }
}

proof fn lemma_lazy_stop_newlines(ls: Seq<Lexem>, i: int, expect: TokenV)
    requires
        0 <= i <= ls.len(),
    ensures
        lazy_stop(ls, i, expect) > i ==> ls[lazy_stop(ls, i, expect) - 1].token@ == TokenV::Newline,
    decreases ls.len() - i,
{
    if i < ls.len() && ls[i].token@ != expect && ls[i].token@ == TokenV::Newline {
        lemma_lazy_stop_newlines(ls, i + 1, expect);
    }
}

/// A lazy test stops at the end, at the token it looks for, or at a token that is no newline.
proof fn lemma_lazy_stop_lands(ls: Seq<Lexem>, i: int, expect: TokenV)
    requires
        0 <= i <= ls.len(),
    ensures
        lazy_stop(ls, i, expect) < ls.len() ==> ls[lazy_stop(ls, i, expect)].token@ == expect
            || ls[lazy_stop(ls, i, expect)].token@ != TokenV::Newline,
    decreases ls.len() - i,
{
    if i < ls.len() && ls[i].token@ != expect && ls[i].token@ == TokenV::Newline {
        lemma_lazy_stop_lands(ls, i + 1, expect);
    }
}

/// Whether an expression read from the lexems `ls` stops where it may: at the end, or
/// before a lexem that is no `.` and that binds more loosely than `limit` unless newlines
/// stand before it.
pub open spec fn expression_ends_at(ls: Seq<Lexem>, p: int, limit: Precedence) -> bool {
    p == ls.len() || (p < ls.len() && ls[p].token@ != TokenV::Delimiter('.') && (
    binop_precedence_of_token(ls[p].token@) < limit || (p > 0 && ls[p - 1].token@
        == TokenV::Newline)))
}

/// Whether a primary expression with the data `d` may start with the token `t`: any
/// expression may stand in parentheses.
pub open spec fn primary_starts_with(d: ExpressionData, t: TokenV) -> bool {
    t == TokenV::Delimiter('(') || match d {
        ExpressionData::IntegerLiteral { value: _ } => t is Numeric,
        ExpressionData::FloatLiteral { whole, fraction: _ } => t is Numeric && t->Numeric_0 == whole@,
        ExpressionData::Identifier { name } => t == TokenV::Identifier(name@),
        ExpressionData::FunctionCall { function, arguments: _ } => function.data matches ExpressionData::Identifier { name }
            && t == TokenV::Identifier(name@),
        ExpressionData::StructInit { name, fields: _ } => t == TokenV::Identifier(name@),
        ExpressionData::Tuple { exprs: _ } => t == TokenV::Delimiter('('),
        ExpressionData::Array { exprs, amount } => t == TokenV::Delimiter('{') && amount == exprs.len(),
        ExpressionData::CharacterLiteral { value } => t is CharLiteral && t->CharLiteral_0 == seq![value],
        ExpressionData::StrLiteral { value } => (t is StrLiteral && t->StrLiteral_0 == value@) || (
        t is StringLiteral && t->StringLiteral_0 == value@),
        ExpressionData::BooleanLiteral { value } => t == TokenV::Keyword(
            if value {
                Keyword::True
            } else {
                Keyword::False
            },
        ),
        ExpressionData::UnaryOperation { operator, operand: _ } => t is Op && unop_of_text(
            crate::token::token_text(t),
        ) == Some(operator),
        _ => false,
    }
}

/// Whether a token is a literal that is a primary expression by itself: a string, a
/// character literal of one character, `true` or `false`.
pub open spec fn is_literal_token(t: TokenV) -> bool {
    ||| t is StrLiteral
    ||| t is StringLiteral
    ||| t is CharLiteral && t->CharLiteral_0.len() == 1
    ||| t == TokenV::Keyword(Keyword::True)
    ||| t == TokenV::Keyword(Keyword::False)
}

/// Whether an expression that has read the lexems before `p` stops there when its
/// operators bind at least as strongly as `limit`: at the end, or before a lexem that binds
/// more loosely, with no `.` after the newlines that follow.
pub open spec fn ends_expression(ls: Seq<Lexem>, p: int, limit: Precedence) -> bool {
    p >= ls.len() || ({
        let d = lazy_stop(ls, p, TokenV::Delimiter('.'));
        !(d < ls.len() && ls[d].token@ == TokenV::Delimiter('.')) && binop_precedence_of_token(ls[p].token@) < limit
    })
}

/// Whether the lexems from `p` on, after newlines, start with an expression that is a
/// literal by itself.
pub open spec fn literal_expression_at(ls: Seq<Lexem>, p: int, limit: Precedence) -> bool {
    let j = skip_newlines(ls, p);
    j < ls.len() && is_literal_token(ls[j].token@) && ends_expression(ls, j + 1, limit)
}

/// Whether the lexems from `p` on, after newlines, are `a op b`: literals `a` and `b` and,
/// right after `a`, a binary operator `op` that binds at least as strongly as `limit`, with
/// the expression ending after `b` (and the newlines that follow it).
pub open spec fn binary_literals_at(ls: Seq<Lexem>, p: int, limit: Precedence) -> bool {
    let j = skip_newlines(ls, p);
    let q = after_literal(ls, j + 2);
    &&& j + 1 < ls.len() && is_literal_token(ls[j].token@)
    &&& ls[j + 1].token@ is Op && binop_precedence_of_token(ls[j + 1].token@) >= limit
    &&& literal_expression_at(ls, j + 2, binop_precedence_of_token(ls[j + 1].token@))
    &&& (q >= ls.len() || (ls[q].token@ != TokenV::Delimiter('.') && binop_precedence_of_token(ls[q].token@) < limit))
}

/// Whether the lexems from `p` on, after newlines, are `a op b op2 c`: literals `a`, `b` and
/// `c`, and binary operators `op` and `op2` right after `a` and `b` that bind at least as
/// strongly as `limit`, with the expression ending after `c`.
pub open spec fn three_literals_at(ls: Seq<Lexem>, p: int, limit: Precedence) -> bool {
    let j = skip_newlines(ls, p);
    let k = skip_newlines(ls, j + 2);
    let q = after_literal(ls, k + 2);
    &&& j + 1 < ls.len() && is_literal_token(ls[j].token@)
    &&& ls[j + 1].token@ is Op && binop_precedence_of_token(ls[j + 1].token@) >= limit
    &&& k + 1 < ls.len() && is_literal_token(ls[k].token@)
    &&& ls[k + 1].token@ is Op && binop_precedence_of_token(ls[k + 1].token@) >= limit
    &&& literal_expression_at(ls, k + 2, binop_precedence_of_token(ls[k + 1].token@))
    &&& (q >= ls.len() || (ls[q].token@ != TokenV::Delimiter('.') && binop_precedence_of_token(ls[q].token@) < limit))
}

/// How `a op b op2 c`, with `a`, `b` and `c` at `j`, `k` and after `k + 1`, is grouped:
/// as `a op (b op2 c)` where `op2` binds at least as strongly as `op`, else as
/// `(a op b) op2 c`.
pub open spec fn three_shape(d: ExpressionData, ls: Seq<Lexem>, j: int, k: int) -> bool {
    let m = skip_newlines(ls, k + 2);
    let o1 = binop_of_text(crate::token::token_text(ls[j + 1].token@));
    let o2 = binop_of_text(crate::token::token_text(ls[k + 1].token@));
    if binop_precedence_of_token(ls[k + 1].token@) >= binop_precedence_of_token(ls[j + 1].token@) {
        d matches ExpressionData::BinaryOperation { operator, left, right } && Some(operator) == o1 && left.span == ls[j].span
            && (right.data matches ExpressionData::BinaryOperation { operator: op2, left: l2, right: r2 } && Some(op2) == o2
            && l2.span == ls[k].span && r2.span == ls[m].span)
    } else {
        d matches ExpressionData::BinaryOperation { operator, left, right } && Some(operator) == o2 && right.span == ls[m].span
            && (left.data matches ExpressionData::BinaryOperation { operator: op1, left: l1, right: r1 } && Some(op1) == o1
            && l1.span == ls[j].span && r1.span == ls[k].span)
    }
}

/// Where reading such a literal expression stops: after the literal, and after the newlines
/// that follow it when more lexems follow.
pub open spec fn after_literal(ls: Seq<Lexem>, p: int) -> int {
    let j = skip_newlines(ls, p);
    if j + 1 < ls.len() {
        lazy_stop(ls, j + 1, TokenV::Delimiter('.'))
    } else {
        j + 1
    }
}

/// The position just after the first lexem from `p` on that is no newline.
pub open spec fn past(ls: Seq<Lexem>, p: int) -> int {
    skip_newlines(ls, p) + 1
}

/// Whether the first lexem from `p` on that is no newline holds the token `t`.
pub open spec fn token_after(ls: Seq<Lexem>, p: int, t: TokenV) -> bool {
    let j = skip_newlines(ls, p);
    j < ls.len() && ls[j].token@ == t
}

/// Whether the first lexem from `p` on that is no newline is an identifier.
pub open spec fn identifier_after(ls: Seq<Lexem>, p: int) -> bool {
    let j = skip_newlines(ls, p);
    j < ls.len() && ls[j].token@ is Identifier
}

/// The identifier that the first lexem from `p` on that is no newline holds.
pub open spec fn identifier_name(ls: Seq<Lexem>, p: int) -> Seq<char> {
    ls[skip_newlines(ls, p)].token@->Identifier_0
}

/// Whether the first lexem from `p` on that is no newline is a name of a type with no
/// `<` right after it.
pub open spec fn plain_type_after(ls: Seq<Lexem>, p: int) -> bool {
    let j = skip_newlines(ls, p);
    j < ls.len() && ls[j].token@ is Identifier && !(j + 1 < ls.len() && ls[j + 1].token@ == TokenV::Op('<', None))
}

/// Whether the lexems from `p` on read `name = literal`.
pub open spec fn literal_assignment_after(ls: Seq<Lexem>, p: int) -> bool {
    &&& identifier_after(ls, p)
    &&& token_after(ls, past(ls, p), TokenV::Op('=', None))
    &&& literal_expression_at(ls, past(ls, past(ls, p)), 1)
}

/// The names of `, name` repeated from `p` on, and where they end; `None` where a comma
/// is followed by no name.
pub open spec fn comma_names(ls: Seq<Lexem>, p: int) -> Option<(Seq<Seq<char>>, int)>
    decreases ls.len() - p,
{
    if 0 <= p < ls.len() && ls[p].token@ == TokenV::Delimiter(',') {
        if identifier_after(ls, p + 1) {
            proof {
                lemma_skip_newlines(ls, p + 1);
            }
            match comma_names(ls, past(ls, p + 1)) {
                Some((v, e)) => Some((seq![identifier_name(ls, p + 1)] + v, e)),
                None => None,
            }
        } else {
            None
        }
    } else {
        Some((Seq::empty(), p))
    }
}

/// The names of a list `name[, name]*` read from `p` on, and where it ends; a first name
/// that is missing is left out, and a comma with no name after it fails the list.
pub open spec fn name_list(ls: Seq<Lexem>, p: int) -> Option<(Seq<Seq<char>>, int)> {
    if identifier_after(ls, p) {
        match comma_names(ls, past(ls, p)) {
            Some((v, e)) => Some((seq![identifier_name(ls, p)] + v, e)),
            None => None,
        }
    } else {
        comma_names(ls, skip_newlines(ls, p))
    }
}

/// The texts of a list of strings.
pub open spec fn texts(v: Seq<String>) -> Seq<Seq<char>> {
    v.map_values(|s: String| s@)
}

/// Whether the lexem at `p`, if any, is no comma.
pub open spec fn no_comma_at(ls: Seq<Lexem>, p: int) -> bool {
    !(0 <= p < ls.len() && ls[p].token@ == TokenV::Delimiter(','))
}

/// Where `name: type` with a plain type, read from `p` on, ends.
pub open spec fn after_plain_field(ls: Seq<Lexem>, p: int) -> int {
    past(ls, past(ls, past(ls, p)))
}

/// Whether the lexems from `p` on read `name: type` with a plain type.
pub open spec fn plain_field_after(ls: Seq<Lexem>, p: int) -> bool {
    identifier_after(ls, p) && token_after(ls, past(ls, p), TokenV::Delimiter(':')) && plain_type_after(ls, past(ls, past(ls, p)))
}

/// Whether the lexems from `p` on read `name: literal`.
pub open spec fn literal_field_after(ls: Seq<Lexem>, p: int) -> bool {
    identifier_after(ls, p) && token_after(ls, past(ls, p), TokenV::Delimiter(':')) && literal_expression_at(ls, past(ls, past(ls, p)), 1)
}

/// Whether a token cannot start a primary expression.
pub open spec fn never_primary(t: TokenV) -> bool {
    match t {
        TokenV::Numeric(_, _) | TokenV::Identifier(_) | TokenV::StrLiteral(_) | TokenV::StringLiteral(
            _,
        ) | TokenV::CharLiteral(_) => false,
        TokenV::Delimiter(c) => c != '(' && c != '{',
        TokenV::Keyword(k) => k != Keyword::True && k != Keyword::False,
        TokenV::Op(_, _) => unop_of_text(crate::token::token_text(t)) is None,
        _ => true,
    }
}

/// Reads lexems into the syntax of a program.
pub struct Parser<'a> {
    pub inputfile: InputFile<'a>,
    lexems: Vec<Lexem>,
    pos: usize,
    current_span: Option<Span>,
}

impl<'a> Parser<'a> {
    /// The lexems that the parser reads.
    pub closed spec fn lexems(&self) -> Seq<Lexem> {
        self.lexems@
    }

    /// The file that the lexems come from.
    pub closed spec fn source(&self) -> InputFile<'a> {
        self.inputfile
    }

    /// How many lexems the parser has consumed.
    pub closed spec fn position(&self) -> int {
        self.pos as int
    }

    /// The parser is well formed: it has consumed no more lexems than there are, and it
    /// remembers the span of the last one it consumed.
    pub closed spec fn wf(&self) -> bool {
        &&& self.pos <= self.lexems@.len()
        &&& self.pos == 0 ==> self.current_span is None
        &&& self.pos > 0 ==> self.current_span == Some(self.lexems@[self.pos - 1].span)
    }

    /// A parser of all the lexems that `lexer` reads from where it stands.
    pub fn new(lexer: Lexer<'a>) -> (r: Parser<'a>)
        requires
            lexer.wf(),
        ensures
            r.wf(),
            r.position() == 0,
            r.source() == lexer.span.input_file,
            r.lexems().map_values(|l: Lexem| lexem_view(l)) == lex_all(lexer.chars@, lexer.state()),
    {
        let inputfile = lexer.span.input_file;
        let mut lexer = lexer;
        let lexems = lexer.lexems();
        Parser { inputfile, lexems, pos: 0, current_span: None }
    }

    /// The span of the last lexem consumed.
    fn last_span(&self) -> (r: Span)
        requires
            self.wf(),
            self.pos > 0,
        ensures
            r == self.lexems@[self.pos - 1].span,
    {
        match self.current_span {
            Some(s) => s,
            None => self.lexems[self.pos - 1].span,
        }
    }

    /// The next lexem, not consumed.
    fn peek(&self) -> (r: Option<&Lexem>)
        requires
            self.wf(),
        ensures
            self.pos < self.lexems@.len() ==> r == Some(&self.lexems@[self.pos as int]),
            self.pos >= self.lexems@.len() ==> r is None,
    {
        if self.pos < self.lexems.len() {
            Some(&self.lexems[self.pos])
        } else {
            None
        }
    }

    /// Whether the next lexem, not consumed, holds `t`.
    fn peek_is(&self, t: &Token) -> (r: bool)
        requires
            self.wf(),
        ensures
            r == (self.pos < self.lexems@.len() && self.lexems@[self.pos as int].token@ == t@),
    {
        self.pos < self.lexems.len() && self.lexems[self.pos].token.same(t)
    }

    /// Consumes the next lexem.
    fn next(&mut self) -> (r: Option<Lexem>)
        requires
            old(self).wf(),
        ensures
            final(self).wf(),
            final(self).lexems@ == old(self).lexems@,
            final(self).source() == old(self).source(),
            old(self).pos < old(self).lexems@.len() ==> {
                &&& final(self).pos == old(self).pos + 1
                &&& r is Some
                &&& r->0.span == old(self).lexems@[old(self).pos as int].span
                &&& r->0.token@ == old(self).lexems@[old(self).pos as int].token@
            },
            old(self).pos >= old(self).lexems@.len() ==> r is None && final(self).pos == old(self).pos,
    {
        if self.pos < self.lexems.len() {
            let l = self.lexems[self.pos].copy();
            self.pos = self.pos + 1;
            self.current_span = Some(l.span);
            Some(l)
        } else {
            None
        }
    }

    /// Consumes the next lexem if it holds `expect`, and returns it. A lazy test first
    /// consumes the newlines before it; a lazy test for a newline consumes all the newlines
    /// that follow and always gives `None`.
    pub fn test_token(&mut self, expect: Token, lazy: bool) -> (r: Option<Lexem>)
        requires
            old(self).wf(),
        ensures
            final(self).wf(),
            final(self).lexems() == old(self).lexems(),
            final(self).source() == old(self).source(),
            old(self).position() <= final(self).position() <= final(self).lexems().len(),
            r is Some ==> final(self).position() > old(self).position(),
            lazy && expect@ == TokenV::Newline ==> r is None
                && final(self).position() == skip_newlines(old(self).lexems(), old(self).position()),
            !(lazy && expect@ == TokenV::Newline) ==> ({
                let ls = old(self).lexems();
                let j = if lazy { lazy_stop(ls, old(self).position(), expect@) } else { old(self).position() };
                if j < ls.len() && ls[j].token@ == expect@ {
                    &&& final(self).position() == j + 1
                    &&& r is Some
                    &&& r->0.span == ls[j].span
                    &&& r->0.token@ == expect@
                } else {
                    &&& final(self).position() == j
                    &&& r is None
                }
            }),
    {
        if lazy {
            if let Token::Newline = expect {
                self.skip_newline_lexems();
                return None;
            }
        }
        proof {
            lemma_lazy_stop(self.lexems@, self.pos as int, expect@);
        }
        let ghost start = self.pos as int;
        assert(!(lazy && expect@ == TokenV::Newline));
        loop
            invariant
                !(lazy && expect@ == TokenV::Newline),
                self.wf(),
                self.lexems@ == old(self).lexems@,
                self.inputfile == old(self).inputfile,
                start == old(self).pos,
                start <= self.pos,
                lazy ==> lazy_stop(self.lexems@, self.pos as int, expect@) == lazy_stop(
                    self.lexems@,
                    start,
                    expect@,
                ),
                !lazy ==> self.pos == start,
                lazy_stop(self.lexems@, self.pos as int, expect@) <= self.lexems@.len(),
                self.pos <= lazy_stop(self.lexems@, self.pos as int, expect@),
            decreases self.lexems@.len() - self.pos,
        {
            if self.peek_is(&expect) {
                let x = self.next();
                return x;
            }
            if lazy && self.peek_is(&Token::Newline) {
                self.next();
                proof {
                    lemma_lazy_stop(self.lexems@, self.pos as int, expect@);
                }
            } else {
                return None;
            }
        }
    }

    /// Consumes the newlines that follow.
    fn skip_newline_lexems(&mut self)
        requires
            old(self).wf(),
        ensures
            final(self).wf(),
            final(self).lexems@ == old(self).lexems@,
            final(self).inputfile == old(self).inputfile,
            final(self).pos == skip_newlines(old(self).lexems@, old(self).pos as int),
            old(self).pos <= final(self).pos <= final(self).lexems@.len(),
            final(self).pos < final(self).lexems@.len() ==> final(self).lexems@[final(self).pos as int].token@ != TokenV::Newline,
    {
        proof {
            lemma_skip_newlines(self.lexems@, self.pos as int);
        }
        while self.peek_is(&Token::Newline)
            invariant
                self.wf(),
                self.lexems@ == old(self).lexems@,
                self.inputfile == old(self).inputfile,
                old(self).pos <= self.pos,
                skip_newlines(self.lexems@, self.pos as int) == skip_newlines(
                    self.lexems@,
                    old(self).pos as int,
                ),
                self.pos <= skip_newlines(self.lexems@, self.pos as int) <= self.lexems@.len(),
            decreases self.lexems@.len() - self.pos,
        {
            self.next();
            proof {
                lemma_skip_newlines(self.lexems@, self.pos as int);
            }
        }
        proof {
            lemma_skip_newlines(self.lexems@, self.pos as int);
        }
    }

    /// Consumes the lexems up to the next one that is no newline, and that one too;
    /// succeeds if it holds `expect`.
    pub fn expect_token(&mut self, expect: Token) -> (r: Result<Token, ParseError>)
        requires
            old(self).wf(),
        ensures
            final(self).wf(),
            final(self).lexems() == old(self).lexems(),
            final(self).source() == old(self).source(),
            old(self).position() <= final(self).position() <= final(self).lexems().len(),
            r is Ok ==> final(self).position() > old(self).position(),
            ({
                let ls = old(self).lexems();
                let j = skip_newlines(ls, old(self).position());
                &&& final(self).position() == if j < ls.len() { j + 1 } else { j }
                &&& (r is Ok <==> j < ls.len() && ls[j].token@ == expect@)
                &&& r is Ok ==> r->Ok_0@ == expect@
                &&& r is Err ==> unexpected_at(r->Err_0, ls, j, token_debug(expect@))
            }),
    {
        self.skip_newline_lexems();
        match self.next() {
            Some(lexem) => {
                let token = lexem.token;
                if token.same(&expect) {
                    Ok(token)
                } else {
                    Err(
                        ParseError {
                            span: Some(lexem.span),
                            case: ParseErrorCase::UnexpectedToken {
                                got: debug_text(&token),
                                expected: debug_text(&expect),
                            },
                        },
                    )
                }
            },
            None => Err(
                ParseError {
                    span: None,
                    case: ParseErrorCase::UnexpectedToken {
                        got: String::from_str("EOF"),
                        expected: debug_text(&expect),
                    },
                },
            ),
        }
    }

    /// Reads an identifier, after any newlines; on failure the lexem that is no
    /// identifier is left unconsumed.
    fn expect_identifier(&mut self) -> (r: Result<String, ParseError>)
        requires
            old(self).wf(),
        ensures
            final(self).wf(),
            final(self).lexems@ == old(self).lexems@,
            final(self).inputfile == old(self).inputfile,
            old(self).pos <= final(self).pos <= final(self).lexems@.len(),
            r is Ok ==> final(self).pos > old(self).pos,
            ({
                let ls = old(self).lexems@;
                let j = skip_newlines(ls, old(self).pos as int);
                match r {
                    Ok(name) => j < ls.len() && ls[j].token@ == TokenV::Identifier(name@)
                        && final(self).pos == j + 1,
                    Err(e) => !(j < ls.len() && ls[j].token@ is Identifier) && final(self).pos == j
                        && unexpected_at(e, ls, j, "identifier"@),
                }
            }),
    {
        self.skip_newline_lexems();
        if self.pos < self.lexems.len() {
            match &self.lexems[self.pos].token {
                Token::Identifier(ident) => {
                    let ident = ident.clone();
                    self.next();
                    Ok(ident)
                },
                other => {
                    let e = ParseError {
                        span: Some(self.lexems[self.pos].span),
                        case: ParseErrorCase::UnexpectedToken {
                            got: debug_text(other),
                            expected: String::from_str("identifier"),
                        },
                    };
                    Err(e)
                },
            }
        } else {
            Err(
                ParseError {
                    span: None,
                    case: ParseErrorCase::UnexpectedToken {
                        got: String::from_str("EOF"),
                        expected: String::from_str("identifier"),
                    },
                },
            )
        }
    }

    /// Reads a number literal, after any newlines: its digits and its base.
    fn expect_numeric(&mut self) -> (r: Result<(String, u32), ParseError>)
        requires
            old(self).wf(),
        ensures
            final(self).wf(),
            final(self).lexems@ == old(self).lexems@,
            final(self).inputfile == old(self).inputfile,
            old(self).pos <= final(self).pos <= final(self).lexems@.len(),
            r is Ok ==> final(self).pos > old(self).pos,
            ({
                let ls = old(self).lexems@;
                let j = skip_newlines(ls, old(self).pos as int);
                &&& final(self).pos == if j < ls.len() { j + 1 } else { j }
                &&& match r {
                    Ok((digits, base)) => j < ls.len() && ls[j].token@ == TokenV::Numeric(digits@, base),
                    Err(e) => !(j < ls.len() && ls[j].token@ is Numeric) && unexpected_at(e, ls, j, "numeric"@),
                }
            }),
    {
        self.skip_newline_lexems();
        match self.next() {
            Some(Lexem { token: Token::Numeric(num, base), .. }) => Ok((num, base)),
            Some(Lexem { token: other, span }) => Err(
                ParseError {
                    span: Some(span),
                    case: ParseErrorCase::UnexpectedToken {
                        got: debug_text(&other),
                        expected: String::from_str("numeric"),
                    },
                },
            ),
            None => Err(
                ParseError {
                    span: None,
                    case: ParseErrorCase::UnexpectedToken {
                        got: String::from_str("EOF"),
                        expected: String::from_str("numeric"),
                    },
                },
            ),
        }
    }

    /// Reads the end of a statement: a newline or `;` is consumed, a `}` or the end of the
    /// lexems is left as it is.
    fn expect_end(&mut self) -> (r: Result<(), ParseError>)
        requires
            old(self).wf(),
        ensures
            final(self).wf(),
            final(self).lexems@ == old(self).lexems@,
            final(self).inputfile == old(self).inputfile,
            ({
                let ls = old(self).lexems@;
                let i = old(self).pos as int;
                if i < ls.len() && (ls[i].token@ == TokenV::Newline || ls[i].token@ == TokenV::Delimiter(';')) {
                    r is Ok && final(self).pos == i + 1
                } else if i < ls.len() && ls[i].token@ != TokenV::Delimiter('}') {
                    r is Err && final(self).pos == i && unexpected_at(r->Err_0, ls, i, "end of statement"@)
                } else {
                    r is Ok && final(self).pos == i
                }
            }),
    {
        if self.peek_is(&Token::Newline) || self.peek_is(&Token::Delimiter(';')) {
            self.next();
            return Ok(());
        }
        if self.pos < self.lexems.len() && !self.peek_is(&Token::Delimiter('}')) {
            let e = ParseError {
                span: Some(self.lexems[self.pos].span),
                case: ParseErrorCase::UnexpectedToken {
                    got: debug_text(&self.lexems[self.pos].token),
                    expected: String::from_str("end of statement"),
                },
            };
            return Err(e);
        }
        Ok(())
    }

    /// Whether a statement ends here: at a newline, `;`, `}` or the end of the lexems.
    fn test_end(&self) -> (r: bool)
        requires
            self.wf(),
        ensures
            r == (self.pos >= self.lexems@.len() || ({
                let t = self.lexems@[self.pos as int].token@;
                t == TokenV::Newline || t == TokenV::Delimiter(';') || t == TokenV::Delimiter('}')
            })),
    {
        self.pos >= self.lexems.len() || self.peek_is(&Token::Newline) || self.peek_is(&Token::Delimiter(';'))
            || self.peek_is(&Token::Delimiter('}'))
    }

    /// Reads a number literal: an integer, or an integer part, `.` and a fraction part.
    fn parse_number(&mut self) -> (r: Result<Expression, ParseError>)
        requires
            old(self).wf(),
        ensures
            r matches Ok(e) ==> arrays_filled(e),
            final(self).wf(),
            final(self).lexems@ == old(self).lexems@,
            final(self).inputfile == old(self).inputfile,
            old(self).pos <= final(self).pos,
            r is Ok ==> final(self).pos > old(self).pos,
            ({
                let ls = old(self).lexems@;
                let j = skip_newlines(ls, old(self).pos as int);
                &&& !(j < ls.len() && ls[j].token@ is Numeric) ==> r is Err && unexpected_at(r->Err_0, ls, j, "numeric"@)
                &&& r is Ok ==> j < ls.len() && match (ls[j].token@, r->Ok_0.data) {
                    (TokenV::Numeric(digits, base), ExpressionData::IntegerLiteral { value }) =>
                        literal_value(digits, base) == Some(value as int)
                        && final(self).pos == j + 1 && r->Ok_0.span == ls[j].span
                        && !(j + 1 < ls.len() && ls[j + 1].token@ == TokenV::Delimiter('.')),
                    (TokenV::Numeric(digits, _), ExpressionData::FloatLiteral { whole, fraction }) =>
                        whole@ == digits && j + 1 < ls.len() && ls[j + 1].token@ == TokenV::Delimiter('.')
                        && final(self).pos > j + 2 && ls[final(self).pos - 1].token@ == TokenV::Numeric(fraction@, ls[final(self).pos - 1].token@->Numeric_1)
                        && r->Ok_0.span == merged(ls[j].span, ls[final(self).pos - 1].span),
                    _ => false,
                }
                &&& j < ls.len() && !(j + 1 < ls.len() && ls[j + 1].token@ == TokenV::Delimiter('.')) ==> match ls[j].token@ {
                    TokenV::Numeric(digits, base) => (r is Ok <==> literal_value(digits, base) is Some),
                    _ => true,
                }
            }),
    {
        let whole = self.expect_numeric()?;
        let span = self.last_span();
        if self.peek_is(&Token::Delimiter('.')) {
            self.next();
            let float = self.expect_numeric()?;
            let end = self.last_span();
            return Ok(
                Expression {
                    span: span.merge(end),
                    data: ExpressionData::FloatLiteral { whole: whole.0, fraction: float.0 },
                },
            );
        }
        let (digits, base) = whole;
        let value = if 2 <= base && base <= 36 {
            toint(digits.as_str(), base)
        } else {
            None
        };
        match value {
            Some(v) => Ok(Expression { span, data: ExpressionData::IntegerLiteral { value: v } }),
            None => Err(
                ParseError {
                    span: Some(span),
                    case: ParseErrorCase::UnexpectedToken {
                        got: debug_text(&self.lexems[self.pos - 1].token),
                        expected: String::from_str("integer literal"),
                    },
                },
            ),
        }
    }

    /// Reads an identifier as an expression.
    fn parse_identifier(&mut self) -> (r: Result<Expression, ParseError>)
        requires
            old(self).wf(),
        ensures
            r matches Ok(e) ==> arrays_filled(e),
            final(self).wf(),
            final(self).lexems@ == old(self).lexems@,
            final(self).inputfile == old(self).inputfile,
            ({
                let ls = old(self).lexems@;
                let j = skip_newlines(ls, old(self).pos as int);
                match r {
                    Ok(e) => j < ls.len() && final(self).pos == j + 1 && e.span == ls[j].span
                        && (e.data matches ExpressionData::Identifier { name } && ls[j].token@ == TokenV::Identifier(name@)),
                    Err(e) => !(j < ls.len() && ls[j].token@ is Identifier) && final(self).pos == j
                        && unexpected_at(e, ls, j, "identifier"@),
                }
            }),
    {
        let id1 = self.expect_identifier()?;
        Ok(Expression { span: self.last_span(), data: ExpressionData::Identifier { name: id1 } })
    }

    /// Reads a type: a name with an optional `<generic>`, `*type`, `{type; size}` or
    /// `(type, ...)`.
    fn parse_type(&mut self) -> (r: Result<Type, ParseError>)
        requires
            old(self).wf(),
        ensures
            final(self).wf(),
            final(self).lexems@ == old(self).lexems@,
            final(self).inputfile == old(self).inputfile,
            old(self).pos <= final(self).pos,
            ({
                let ls = old(self).lexems@;
                let j = skip_newlines(ls, old(self).pos as int);
                &&& !(j < ls.len() && starts_type(ls[j].token@)) ==> r is Err && unexpected_at(r->Err_0, ls, j, "type"@)
                    && final(self).pos == if j < ls.len() { j + 1 } else { j }
                &&& r is Ok ==> j < ls.len() && j < final(self).pos
                    && typing_starts_with(r->Ok_0.typing, ls[j].token@)
                    && r->Ok_0.span == merged(ls[j].span, ls[final(self).pos - 1].span)
                &&& plain_type_after(ls, old(self).pos as int) ==> r is Ok && final(self).pos == j + 1
                    && (r->Ok_0.typing matches Typing::Named { name, generic: None } && ls[j].token@ == TokenV::Identifier(name@))
            }),
        decreases old(self).lexems@.len() - old(self).pos,
    {
        self.skip_newline_lexems();
        let lexem = match self.next() {
            Some(l) => l,
            None => {
                return Err(
                    ParseError {
                        span: None,
                        case: ParseErrorCase::UnexpectedToken {
                            got: String::from_str("EOF"),
                            expected: String::from_str("type"),
                        },
                    },
                );
            },
        };
        let ghost j = self.pos - 1;
        assert(merged(lexem.span, lexem.span) == lexem.span);
        match lexem.token {
            Token::Identifier(x) => {
                if self.peek_is(&Token::Op('<', None)) {
                    self.next();
                    let generic = self.parse_type()?;
                    self.expect_token(Token::Op('>', None))?;
                    return Ok(
                        Type {
                            span: lexem.span.merge(self.last_span()),
                            typing: Typing::Named { name: x, generic: Some(Box::new(generic)) },
                        },
                    );
                }
                Ok(Type { span: lexem.span, typing: Typing::Named { name: x, generic: None } })
            },
            Token::Op('*', None) => {
                let typ = self.parse_type()?;
                Ok(
                    Type {
                        span: lexem.span.merge(self.last_span()),
                        typing: Typing::Pointer { mutable: false, typ: Box::new(typ) },
                    },
                )
            },
            Token::Delimiter('{') => {
                let typ = self.parse_type()?;
                self.expect_token(Token::Delimiter(';'))?;
                let number = self.parse_number()?;
                match number.data {
                    ExpressionData::IntegerLiteral { value } => {
                        self.expect_token(Token::Delimiter('}'))?;
                        Ok(
                            Type {
                                span: lexem.span.merge(self.last_span()),
                                typing: Typing::Array { typ: Box::new(typ), amount: #[verifier::truncate] (value as usize) },
                            },
                        )
                    },
                    _ => Err(
                        ParseError {
                            span: Some(lexem.span),
                            case: ParseErrorCase::UnexpectedToken {
                                got: String::from_str("float literal"),
                                expected: String::from_str("integer literal"),
                            },
                        },
                    ),
                }
            },
            Token::Delimiter('(') => {
                let mut types: Vec<Type> = Vec::new();
                if let Ok(first) = self.parse_type() {
                    types.push(first);
                }
                while self.peek_is(&Token::Delimiter(','))
                    invariant
                        self.wf(),
                        self.lexems@ == old(self).lexems@,
                        self.inputfile == old(self).inputfile,
                        old(self).pos <= j < self.pos,
                        j == skip_newlines(old(self).lexems@, old(self).pos as int),
                        self.lexems@[j].token@ == TokenV::Delimiter('('),
                        self.lexems@[j].span == lexem.span,
                    decreases self.lexems@.len() - self.pos,
                {
                    self.next();
                    let t = self.parse_type()?;
                    types.push(t);
                }
                self.expect_token(Token::Delimiter(')'))?;
                Ok(
                    Type {
                        span: lexem.span.merge(self.last_span()),
                        typing: Typing::Tuple { types },
                    },
                )
            },
            other => Err(
                ParseError {
                    span: Some(lexem.span),
                    case: ParseErrorCase::UnexpectedToken {
                        got: debug_text(&other),
                        expected: String::from_str("type"),
                    },
                },
            ),
        }
    }

    /// Reads `name: type`.
    fn parse_typed_field(&mut self) -> (r: Result<TypedField, ParseError>)
        requires
            old(self).wf(),
        ensures
            final(self).wf(),
            final(self).lexems@ == old(self).lexems@,
            final(self).inputfile == old(self).inputfile,
            old(self).pos <= final(self).pos,
            r is Ok ==> final(self).pos > old(self).pos,
            ({
                let ls = old(self).lexems@;
                let p = old(self).pos as int;
                &&& !identifier_after(ls, p) ==> r is Err && unexpected_at(r->Err_0, ls, skip_newlines(ls, p), "identifier"@)
                    && final(self).pos == skip_newlines(ls, p)
                &&& identifier_after(ls, p) && !token_after(ls, past(ls, p), TokenV::Delimiter(':')) ==> r is Err
                    && unexpected_at(r->Err_0, ls, skip_newlines(ls, past(ls, p)), token_debug(TokenV::Delimiter(':')))
                &&& r is Ok ==> identifier_after(ls, p) && r->Ok_0.name@ == identifier_name(ls, p)
                &&& plain_field_after(ls, p) ==> r is Ok && final(self).pos == after_plain_field(ls, p)
            }),
    {
        let ident = self.expect_identifier()?;
        self.expect_token(Token::Delimiter(':'))?;
        let typ = self.parse_type()?;
        Ok(TypedField { name: ident, typing: typ })
    }

    /// Reads `name: type[, name: type]*`; a first field that does not read is left out.
    fn parse_typed_fields(&mut self) -> (r: Result<Vec<TypedField>, ParseError>)
        requires
            old(self).wf(),
        ensures
            final(self).wf(),
            final(self).lexems@ == old(self).lexems@,
            final(self).inputfile == old(self).inputfile,
            old(self).pos <= final(self).pos,
            ({
                let ls = old(self).lexems@;
                let p = old(self).pos as int;
                let j = skip_newlines(ls, p);
                &&& !identifier_after(ls, p) && no_comma_at(ls, j) ==> (r matches Ok(v) && v@.len() == 0) && final(self).pos == j
                &&& plain_field_after(ls, p) && no_comma_at(ls, after_plain_field(ls, p)) ==> (r matches Ok(v) && v@.len() == 1
                    && v@[0].name@ == identifier_name(ls, p)) && final(self).pos == after_plain_field(ls, p)
            }),
    {
        let mut fields: Vec<TypedField> = Vec::new();
        if let Ok(first) = self.parse_typed_field() {
            fields.push(first);
        }
        let ghost q0 = self.pos as int;
        let ghost f0 = fields@;
        while self.peek_is(&Token::Delimiter(','))
            invariant
                q0 <= self.pos,
                self.pos == q0 ==> fields@ == f0,
                self.lexems@ == old(self).lexems@,
                no_comma_at(self.lexems@, q0) ==> self.pos == q0,
                !identifier_after(self.lexems@, old(self).pos as int) ==> q0 == skip_newlines(self.lexems@, old(self).pos as int) && f0.len() == 0,
                plain_field_after(self.lexems@, old(self).pos as int) ==> q0 == after_plain_field(self.lexems@, old(self).pos as int)
                    && f0.len() == 1 && f0[0].name@ == identifier_name(self.lexems@, old(self).pos as int),
                self.wf(),
                self.lexems@ == old(self).lexems@,
                self.inputfile == old(self).inputfile,
                old(self).pos <= self.pos,
            decreases self.lexems@.len() - self.pos,
        {
            self.next();
            let f = self.parse_typed_field()?;
            fields.push(f);
        }
        Ok(fields)
    }

    /// Reads the arguments of a function declaration, the last of which may be `...`.
    fn parse_fn_decl_args(&mut self) -> (r: Result<(Vec<TypedField>, bool), ParseError>)
        requires
            old(self).wf(),
        ensures
            final(self).wf(),
            final(self).lexems@ == old(self).lexems@,
            final(self).inputfile == old(self).inputfile,
            old(self).pos <= final(self).pos,
            ({
                let ls = old(self).lexems@;
                let p = old(self).pos as int;
                let j = skip_newlines(ls, p);
                &&& token_after(ls, p, TokenV::Variadic) ==> (r matches Ok((v, variadic)) && v@.len() == 0 && variadic)
                    && final(self).pos == j + 1
                &&& !token_after(ls, p, TokenV::Variadic) && !identifier_after(ls, p) && no_comma_at(ls, j)
                    ==> (r matches Ok((v, variadic)) && v@.len() == 0 && !variadic) && final(self).pos == j
                &&& plain_field_after(ls, p) && no_comma_at(ls, after_plain_field(ls, p)) ==> (r matches Ok((v, variadic))
                    && v@.len() == 1 && v@[0].name@ == identifier_name(ls, p) && !variadic) && final(self).pos == after_plain_field(ls, p)
            }),
    {
        let ghost ls = self.lexems@;
        proof {
            lemma_skip_newlines(ls, self.pos as int);
            lemma_lazy_stop_is_skip(ls, self.pos as int, TokenV::Variadic);
        }
        let mut fields: Vec<TypedField> = Vec::new();
        let mut variadic = false;
        if self.test_token(Token::Variadic, true).is_some() {
            variadic = true;
            return Ok((fields, variadic));
        }
        if let Ok(first) = self.parse_typed_field() {
            fields.push(first);
        }
        let ghost q0 = self.pos as int;
        let ghost f0 = fields@;
        while self.peek_is(&Token::Delimiter(','))
            invariant
                q0 <= self.pos,
                self.pos == q0 ==> fields@ == f0,
                no_comma_at(self.lexems@, q0) ==> self.pos == q0,
                !identifier_after(self.lexems@, old(self).pos as int) ==> q0 == skip_newlines(self.lexems@, old(self).pos as int) && f0.len() == 0,
                plain_field_after(self.lexems@, old(self).pos as int) ==> q0 == after_plain_field(self.lexems@, old(self).pos as int)
                    && f0.len() == 1 && f0[0].name@ == identifier_name(self.lexems@, old(self).pos as int),
                self.pos == q0 ==> !variadic,
                self.wf(),
                self.lexems@ == old(self).lexems@,
                self.inputfile == old(self).inputfile,
                old(self).pos <= self.pos,
            decreases self.lexems@.len() - self.pos,
        {
            self.next();
            if self.peek_is(&Token::Variadic) {
                variadic = true;
                self.next();
                break;
            }
            let f = self.parse_typed_field()?;
            fields.push(f);
        }
        Ok((fields, variadic))
    }

    /// Reads `name: expression`.
    fn parse_field(&mut self) -> (r: Result<Field, ParseError>)
        requires
            old(self).wf(),
        ensures
            r matches Ok(f) ==> arrays_filled(f.value),
            final(self).wf(),
            final(self).lexems@ == old(self).lexems@,
            final(self).inputfile == old(self).inputfile,
            old(self).pos <= final(self).pos,
            r is Ok ==> final(self).pos > old(self).pos,
            ({
                let ls = old(self).lexems@;
                let p = old(self).pos as int;
                &&& !identifier_after(ls, p) ==> r is Err && unexpected_at(r->Err_0, ls, skip_newlines(ls, p), "identifier"@)
                    && final(self).pos == skip_newlines(ls, p)
                &&& identifier_after(ls, p) && !token_after(ls, past(ls, p), TokenV::Delimiter(':')) ==> r is Err
                    && unexpected_at(r->Err_0, ls, skip_newlines(ls, past(ls, p)), token_debug(TokenV::Delimiter(':')))
                &&& r is Ok ==> identifier_after(ls, p) && r->Ok_0.name@ == identifier_name(ls, p)
                &&& literal_field_after(ls, p) ==> r is Ok
                    && final(self).pos == after_literal(ls, past(ls, past(ls, p)))
            }),
        decreases old(self).lexems@.len() - old(self).pos, 2nat,
    {
        let ident = self.expect_identifier()?;
        self.expect_token(Token::Delimiter(':'))?;
        let value = self.parse_expr(1, true)?;
        Ok(Field { name: ident, value })
    }

    /// Reads `name: expression[, name: expression]*`; a first field that does not read
    /// is left out.
    fn parse_fields(&mut self) -> (r: Result<Vec<Field>, ParseError>)
        requires
            old(self).wf(),
        ensures
            r matches Ok(v) ==> all_field_arrays_filled(v@),
            final(self).wf(),
            final(self).lexems@ == old(self).lexems@,
            final(self).inputfile == old(self).inputfile,
            old(self).pos <= final(self).pos,
            ({
                let ls = old(self).lexems@;
                let p = old(self).pos as int;
                let j = skip_newlines(ls, p);
                let a = after_literal(ls, past(ls, past(ls, p)));
                &&& !identifier_after(ls, p) && no_comma_at(ls, j) ==> (r matches Ok(v) && v@.len() == 0) && final(self).pos == j
                &&& literal_field_after(ls, p) && no_comma_at(ls, a) ==> (r matches Ok(v) && v@.len() == 1
                    && v@[0].name@ == identifier_name(ls, p)) && final(self).pos == a
            }),
        decreases old(self).lexems@.len() - old(self).pos, 3nat,
    {
        let mut fields: Vec<Field> = Vec::new();
        if let Ok(first) = self.parse_field() {
            proof {
                lemma_all_field_arrays_filled_push(fields@, first);
            }
            fields.push(first);
        }
        let ghost q0 = self.pos as int;
        let ghost f0 = fields@;
        while self.peek_is(&Token::Delimiter(','))
            invariant
                q0 <= self.pos,
                self.pos == q0 ==> fields@ == f0,
                no_comma_at(self.lexems@, q0) ==> self.pos == q0,
                !identifier_after(self.lexems@, old(self).pos as int) ==> q0 == skip_newlines(self.lexems@, old(self).pos as int) && f0.len() == 0,
                literal_field_after(self.lexems@, old(self).pos as int) ==> q0 == after_literal(self.lexems@, past(self.lexems@, past(self.lexems@, old(self).pos as int)))
                    && f0.len() == 1 && f0[0].name@ == identifier_name(self.lexems@, old(self).pos as int),
                self.wf(),
                self.lexems@ == old(self).lexems@,
                self.inputfile == old(self).inputfile,
                old(self).pos <= self.pos,
                all_field_arrays_filled(fields@),
            decreases self.lexems@.len() - self.pos,
        {
            self.next();
            let f = self.parse_field()?;
            proof {
                lemma_all_field_arrays_filled_push(fields@, f);
            }
            fields.push(f);
        }
        Ok(fields)
    }

    /// Reads `expression[, expression]*[,]`, stopping before `termination` after a comma;
    /// a list that starts with `)` is empty.
    fn parse_expression_list(&mut self, termination: Token) -> (r: Result<Vec<Expression>, ParseError>)
        requires
            old(self).wf(),
        ensures
            r matches Ok(v) ==> all_arrays_filled(v@),
            r matches Ok(v) ==> (v@.len() == 0 ==> final(self).pos == old(self).pos && old(self).pos < old(self).lexems@.len()
                && old(self).lexems@[old(self).pos as int].token@ == TokenV::Delimiter(')')),
            final(self).wf(),
            final(self).lexems@ == old(self).lexems@,
            final(self).inputfile == old(self).inputfile,
            old(self).pos <= final(self).pos,
            ({
                let ls = old(self).lexems@;
                let p = old(self).pos as int;
                let closed = p < ls.len() && ls[p].token@ == TokenV::Delimiter(')');
                &&& closed ==> (r matches Ok(v) && v@.len() == 0) && final(self).pos == p
                &&& !closed && skip_newlines(ls, p) >= ls.len() ==> r is Err
                    && unexpected_at(r->Err_0, ls, skip_newlines(ls, p), "primary expression"@)
                &&& !closed && literal_expression_at(ls, p, 1) && no_comma_at(ls, after_literal(ls, p))
                    ==> (r matches Ok(v) && v@.len() == 1) && final(self).pos == after_literal(ls, p)
            }),
        decreases old(self).lexems@.len() - old(self).pos, 2nat,
    {
        let mut fields: Vec<Expression> = Vec::new();
        if self.peek_is(&Token::Delimiter(')')) {
            return Ok(fields);
        }
        let first = self.parse_expr(1, true)?;
        proof {
            lemma_all_arrays_filled_push(fields@, first);
        }
        fields.push(first);
        let ghost q0 = self.pos as int;
        let ghost f0 = fields@;
        while self.peek_is(&Token::Delimiter(','))
            invariant
                q0 <= self.pos,
                self.pos == q0 ==> fields@ == f0,
                no_comma_at(self.lexems@, q0) ==> self.pos == q0,
                literal_expression_at(self.lexems@, old(self).pos as int, 1) ==> q0 == after_literal(self.lexems@, old(self).pos as int) && f0.len() == 1,
                skip_newlines(self.lexems@, old(self).pos as int) < self.lexems@.len(),
                !(old(self).pos < self.lexems@.len() && self.lexems@[old(self).pos as int].token@ == TokenV::Delimiter(')')),
                self.wf(),
                self.lexems@ == old(self).lexems@,
                self.inputfile == old(self).inputfile,
                old(self).pos < self.pos,
                all_arrays_filled(fields@),
                fields@.len() > 0,
            decreases self.lexems@.len() - self.pos,
        {
            self.next();
            if self.peek_is(&termination) {
                break;
            }
            let expr = self.parse_expr(1, true)?;
            proof {
                lemma_all_arrays_filled_push(fields@, expr);
            }
            fields.push(expr);
        }
        Ok(fields)
    }

    /// Reads `identifier[, identifier]*`; a first name that does not read is left out.
    fn parse_enum_variants(&mut self) -> (r: Result<Vec<String>, ParseError>)
        requires
            old(self).wf(),
        ensures
            final(self).wf(),
            final(self).lexems@ == old(self).lexems@,
            final(self).inputfile == old(self).inputfile,
            old(self).pos <= final(self).pos,
            match name_list(old(self).lexems@, old(self).pos as int) {
                Some((v, e)) => r matches Ok(names) && texts(names@) == v && final(self).pos == e,
                None => r is Err,
            },
    {
        let ghost ls = self.lexems@;
        let ghost p0 = self.pos as int;
        proof {
            lemma_skip_newlines(ls, p0);
        }
        let mut fields: Vec<String> = Vec::new();
        if let Ok(first) = self.expect_identifier() {
            fields.push(first);
        }
        proof {
            assert(texts(fields@) =~= if identifier_after(ls, p0) { seq![identifier_name(ls, p0)] } else { Seq::empty() });
        }
        while self.peek_is(&Token::Delimiter(','))
            invariant
                self.wf(),
                self.lexems@ == old(self).lexems@,
                self.inputfile == old(self).inputfile,
                old(self).pos <= self.pos,
                ls == self.lexems@,
                p0 == old(self).pos,
                name_list(ls, p0) == match comma_names(ls, self.pos as int) {
                    Some((v, e)) => Some((texts(fields@) + v, e)),
                    None => None::<(Seq<Seq<char>>, int)>,
                },
            decreases self.lexems@.len() - self.pos,
        {
            let ghost q = self.pos as int;
            let ghost before = texts(fields@);
            self.next();
            let f = self.expect_identifier()?;
            fields.push(f);
            proof {
                assert(texts(fields@) =~= before.push(identifier_name(ls, q + 1)));
                match comma_names(ls, self.pos as int) {
                    Some((v, e)) => {
                        assert(before + (seq![identifier_name(ls, q + 1)] + v) =~= texts(fields@) + v);
                    },
                    None => {},
                }
            }
        }
        proof {
            assert(texts(fields@) + Seq::<Seq<char>>::empty() =~= texts(fields@));
        }
        Ok(fields)
    }

    /// Reads a primary expression: a literal, a name, a call, a structure, a tuple, an
    /// array, an expression in parentheses or a unary operation. A structure is read only
    /// where `struct_allowed`.
    fn parse_primary(&mut self, struct_allowed: bool) -> (r: Result<Expression, ParseError>)
        requires
            old(self).wf(),
        ensures
            r matches Ok(e) ==> arrays_filled(e),
            final(self).wf(),
            final(self).lexems@ == old(self).lexems@,
            final(self).inputfile == old(self).inputfile,
            old(self).pos <= final(self).pos,
            r is Ok ==> final(self).pos > old(self).pos,
            ({
                let ls = old(self).lexems@;
                let j = skip_newlines(ls, old(self).pos as int);
                &&& j >= ls.len() ==> r is Err && unexpected_at(r->Err_0, ls, j, "primary expression"@)
                &&& j < ls.len() && never_primary(ls[j].token@) ==> r is Err && final(self).pos == j
                    && unexpected_at(r->Err_0, ls, j, "primary expression"@)
                &&& r is Ok ==> j < ls.len() && primary_starts_with(r->Ok_0.data, ls[j].token@)
                &&& j < ls.len() && ls[j].token@ is Numeric && r is Ok ==> match (ls[j].token@, r->Ok_0.data) {
                    (TokenV::Numeric(digits, base), ExpressionData::IntegerLiteral { value }) => literal_value(digits, base) == Some(value as int)
                        && final(self).pos == j + 1 && !(j + 1 < ls.len() && ls[j + 1].token@ == TokenV::Delimiter('.')),
                    (TokenV::Numeric(digits, _), ExpressionData::FloatLiteral { whole, .. }) => whole@ == digits
                        && j + 1 < ls.len() && ls[j + 1].token@ == TokenV::Delimiter('.'),
                    _ => false,
                }
                &&& j < ls.len() && !(j + 1 < ls.len() && ls[j + 1].token@ == TokenV::Delimiter('.')) ==> match ls[j].token@ {
                    TokenV::Numeric(digits, base) => (r is Ok <==> literal_value(digits, base) is Some),
                    _ => true,
                }
                &&& j < ls.len() && is_literal_token(ls[j].token@) ==> r is Ok && final(self).pos == j + 1
                    && r->Ok_0.span == ls[j].span
                &&& j < ls.len() && ls[j].token@ is Identifier
                    && !(j + 1 < ls.len() && ls[j + 1].token@ == TokenV::Delimiter('('))
                    && !(struct_allowed && j + 1 < ls.len() && ls[j + 1].token@ == TokenV::Delimiter('{'))
                    ==> r is Ok && final(self).pos == j + 1 && r->Ok_0.span == ls[j].span
                        && r->Ok_0.data is Identifier
                &&& j < ls.len() && ls[j].token@ is CharLiteral && ls[j].token@->CharLiteral_0.len() != 1
                    ==> r == Err::<Expression, ParseError>(ParseError {
                        span: Some(ls[j].span),
                        case: ParseErrorCase::InvalidCharacterLiteral,
                    })
                &&& j + 2 < ls.len() && ls[j].token@ is Identifier && ls[j + 1].token@ == TokenV::Delimiter('(')
                    && ls[j + 2].token@ == TokenV::Delimiter(')')
                    ==> (r matches Ok(e) && (e.data matches ExpressionData::FunctionCall { arguments, .. } && arguments@.len() == 0))
                        && final(self).pos == j + 3
                &&& j + 1 < ls.len() && ls[j].token@ is Identifier && ls[j + 1].token@ == TokenV::Delimiter('(')
                    && literal_expression_at(ls, j + 2, 1) && no_comma_at(ls, after_literal(ls, j + 2))
                    && token_after(ls, after_literal(ls, j + 2), TokenV::Delimiter(')'))
                    ==> (r matches Ok(e) && (e.data matches ExpressionData::FunctionCall { arguments, .. } && arguments@.len() == 1))
                        && final(self).pos == past(ls, after_literal(ls, j + 2))
                &&& j < ls.len() && ls[j].token@ == TokenV::Delimiter('(') && literal_expression_at(ls, j + 1, 1)
                    && no_comma_at(ls, after_literal(ls, j + 1)) && token_after(ls, after_literal(ls, j + 1), TokenV::Delimiter(')'))
                    ==> r is Ok && final(self).pos == past(ls, after_literal(ls, j + 1))
                &&& j < ls.len() && ls[j].token@ == TokenV::Delimiter('{') && literal_expression_at(ls, j + 1, 1)
                    && no_comma_at(ls, after_literal(ls, j + 1)) && token_after(ls, after_literal(ls, j + 1), TokenV::Delimiter('}'))
                    ==> (r matches Ok(e) && (e.data matches ExpressionData::Array { exprs, .. } && exprs@.len() == 1))
                        && final(self).pos == past(ls, after_literal(ls, j + 1))
                &&& j < ls.len() && ls[j].token@ is Op && unop_of_text(crate::token::token_text(ls[j].token@)) is Some
                    && literal_expression_at(ls, j + 1, 9)
                    ==> (r matches Ok(e) && e.data is UnaryOperation) && final(self).pos == after_literal(ls, j + 1)
            }),
        decreases old(self).lexems@.len() - old(self).pos, 0nat,
    {
        self.skip_newline_lexems();
        if self.pos >= self.lexems.len() {
            return Err(
                ParseError {
                    span: None,
                    case: ParseErrorCase::UnexpectedToken {
                        got: String::from_str("EOF"),
                        expected: String::from_str("primary expression"),
                    },
                },
            );
        }
        let ghost j = self.pos as int;
        let span = self.lexems[self.pos].span;
        let token = self.lexems[self.pos].token.copy();
        match token {
            Token::Numeric(_, _) => {
                let e = self.parse_number()?;
                Ok(e)
            },
            Token::Identifier(_) => {
                let i = self.parse_identifier()?;
                if self.test_token(Token::Delimiter('('), false).is_some() {
                    let args = self.parse_expression_list(Token::Delimiter(')'))?;
                    self.expect_token(Token::Delimiter(')'))?;
                    return Ok(
                        Expression {
                            span: i.span.merge(self.last_span()),
                            data: ExpressionData::FunctionCall { function: Box::new(i), arguments: args },
                        },
                    );
                }
                if self.peek_is(&Token::Delimiter('{')) && struct_allowed {
                    self.next();
                    let span = i.span.merge(self.last_span());
                    let fields = self.parse_fields()?;
                    self.expect_token(Token::Delimiter('}'))?;
                    let name = match i.data {
                        ExpressionData::Identifier { name } => name,
                        _ => {
                            proof {
                                assert(false);
                            }
                            String::new()
                        },
                    };
                    return Ok(Expression { span, data: ExpressionData::StructInit { name, fields } });
                }
                Ok(i)
            },
            Token::Delimiter('(') => {
                self.next();
                let init_span = self.last_span();
                let expr = self.parse_expr(1, true)?;
                if self.test_token(Token::Delimiter(','), false).is_some() {
                    let mut tail = self.parse_expression_list(Token::Delimiter(')'))?;
                    self.expect_token(Token::Delimiter(')'))?;
                    let span = init_span.merge(self.last_span());
                    let mut exprs: Vec<Expression> = Vec::new();
                    proof {
                        lemma_all_arrays_filled_push(exprs@, expr);
                    }
                    exprs.push(expr);
                    proof {
                        lemma_all_arrays_filled_concat(exprs@, tail@);
                    }
                    exprs.append(&mut tail);
                    return Ok(Expression { span, data: ExpressionData::Tuple { exprs } });
                }
                self.expect_token(Token::Delimiter(')'))?;
                Ok(expr)
            },
            Token::Delimiter('{') => {
                self.next();
                let init_span = self.last_span();
                let exprs = self.parse_expression_list(Token::Delimiter('}'))?;
                self.expect_token(Token::Delimiter('}'))?;
                let amount = exprs.len();
                let span = init_span.merge(self.last_span());
                Ok(Expression { span, data: ExpressionData::Array { exprs, amount } })
            },
            Token::CharLiteral(c) => {
                let len = c.as_str().unicode_len();
                if len != 1 {
                    return Err(ParseError { span: Some(span), case: ParseErrorCase::InvalidCharacterLiteral });
                }
                let value = c.as_str().get_char(0);
                assert(c@ =~= seq![value]);
                self.next();
                Ok(Expression { span: self.last_span(), data: ExpressionData::CharacterLiteral { value } })
            },
            Token::StrLiteral(s) => {
                self.next();
                Ok(Expression { span: self.last_span(), data: ExpressionData::StrLiteral { value: s } })
            },
            Token::StringLiteral(s) => {
                self.next();
                Ok(Expression { span: self.last_span(), data: ExpressionData::StrLiteral { value: s } })
            },
            Token::Keyword(Keyword::True) => {
                self.next();
                Ok(Expression { span: self.last_span(), data: ExpressionData::BooleanLiteral { value: true } })
            },
            Token::Keyword(Keyword::False) => {
                self.next();
                Ok(Expression { span: self.last_span(), data: ExpressionData::BooleanLiteral { value: false } })
            },
            Token::Op(a, b) => {
                let op_token = Token::Op(a, b);
                match UnaryOperation::from_token(&op_token) {
                    Some(unop) => {
                        let prec = unop_precedence(&op_token);
                        assert(prec == 9);
                        self.next();
                        let span = self.last_span();
                        let operand = self.parse_expr(prec, true)?;
                        Ok(
                            Expression {
                                span,
                                data: ExpressionData::UnaryOperation { operator: unop, operand: Box::new(operand) },
                            },
                        )
                    },
                    None => Err(
                        ParseError {
                            span: Some(span),
                            case: ParseErrorCase::UnexpectedToken {
                                got: debug_text(&op_token),
                                expected: String::from_str("primary expression"),
                            },
                        },
                    ),
                }
            },
            other => Err(
                ParseError {
                    span: Some(span),
                    case: ParseErrorCase::UnexpectedToken {
                        got: debug_text(&other),
                        expected: String::from_str("primary expression"),
                    },
                },
            ),
        }
    }

    /// Reads an expression whose binary operators bind at least as strongly as `limit`,
    /// with the field accesses that follow its parts.
    fn parse_expr(&mut self, limit: Precedence, struct_allowed: bool) -> (r: Result<Expression, ParseError>)
        requires
            old(self).wf(),
            limit >= 1,
        ensures
            r matches Ok(e) ==> arrays_filled(e),
            final(self).wf(),
            final(self).lexems@ == old(self).lexems@,
            final(self).inputfile == old(self).inputfile,
            old(self).pos <= final(self).pos,
            r is Ok ==> final(self).pos > old(self).pos && expression_ends_at(final(self).lexems@, final(self).pos as int, limit),
            ({
                let ls = old(self).lexems@;
                let j = skip_newlines(ls, old(self).pos as int);
                &&& j >= ls.len() ==> r is Err && unexpected_at(r->Err_0, ls, j, "primary expression"@)
                &&& j < ls.len() && never_primary(ls[j].token@) ==> r is Err && unexpected_at(r->Err_0, ls, j, "primary expression"@)
                &&& literal_expression_at(ls, old(self).pos as int, limit) ==> r is Ok && final(self).pos == after_literal(ls, old(self).pos as int)
                    && r->Ok_0.span == ls[j].span
                &&& binary_literals_at(ls, old(self).pos as int, limit) ==> (r matches Ok(e)
                    && (e.data matches ExpressionData::BinaryOperation { operator, left, right }
                    && Some(operator) == binop_of_text(crate::token::token_text(ls[j + 1].token@))
                    && left.span == ls[j].span && primary_starts_with(left.data, ls[j].token@)
                    && right.span == ls[skip_newlines(ls, j + 2)].span))
                    && final(self).pos == after_literal(ls, j + 2)
                &&& three_literals_at(ls, old(self).pos as int, limit) ==> (r matches Ok(e)
                    && three_shape(e.data, ls, j, skip_newlines(ls, j + 2)))
                    && final(self).pos == after_literal(ls, skip_newlines(ls, j + 2) + 2)
            }),
        decreases old(self).lexems@.len() - old(self).pos, 1nat,
    {
        let ghost ls0 = self.lexems@;
        let ghost lit = literal_expression_at(self.lexems@, self.pos as int, limit);
        let ghost j0 = skip_newlines(self.lexems@, self.pos as int);
        let ghost bin = binary_literals_at(self.lexems@, self.pos as int, limit);
        let ghost kb = skip_newlines(self.lexems@, j0 + 2);
        let ghost qb = after_literal(self.lexems@, j0 + 2);
        let ghost tri = three_literals_at(self.lexems@, self.pos as int, limit);
        let ghost m3 = skip_newlines(self.lexems@, kb + 2);
        let ghost q3 = after_literal(self.lexems@, kb + 2);
        let ghost p1 = binop_precedence_of_token(self.lexems@[j0 + 1].token@);
        let ghost p2 = binop_precedence_of_token(self.lexems@[kb + 1].token@);
        let mut left = self.parse_primary(struct_allowed)?;
        let ghost span0 = left.span;
        proof {
            lemma_skip_newlines(ls0, old(self).pos as int);
            if bin {
                lemma_skip_newlines(ls0, j0 + 2);
                if kb + 1 < ls0.len() {
                    lemma_lazy_stop(ls0, kb + 1, TokenV::Delimiter('.'));
                    lemma_lazy_stop_lands(ls0, kb + 1, TokenV::Delimiter('.'));
                }
            }
            if tri {
                lemma_skip_newlines(ls0, j0 + 2);
                lemma_skip_newlines(ls0, kb + 2);
                if m3 + 1 < ls0.len() {
                    lemma_lazy_stop(ls0, m3 + 1, TokenV::Delimiter('.'));
                    lemma_lazy_stop_lands(ls0, m3 + 1, TokenV::Delimiter('.'));
                }
            }
            if lit {
                lemma_lazy_stop(ls0, j0 + 1, TokenV::Delimiter('.'));
            }
        }
        loop
            invariant_except_break
                lit ==> self.pos == j0 + 1 && left.span == span0,
                bin ==> (self.pos == j0 + 1 && left.span == ls0[j0].span && primary_starts_with(left.data, ls0[j0].token@)) || (self.pos == qb
                    && (left.data matches ExpressionData::BinaryOperation { operator, left: l, right: rr }
                    && Some(operator) == binop_of_text(crate::token::token_text(ls0[j0 + 1].token@))
                    && l.span == ls0[j0].span && primary_starts_with(l.data, ls0[j0].token@) && rr.span == ls0[kb].span)),
                tri ==> (self.pos == j0 + 1 && left.span == ls0[j0].span)
                    || (p2 < p1 && self.pos == kb + 1 && (left.data matches ExpressionData::BinaryOperation { operator, left: l, right: rr }
                        && Some(operator) == binop_of_text(crate::token::token_text(ls0[j0 + 1].token@))
                        && l.span == ls0[j0].span && rr.span == ls0[kb].span))
                    || (self.pos == q3 && three_shape(left.data, ls0, j0, kb)),
            invariant
                self.wf(),
                self.lexems@ == old(self).lexems@,
                self.inputfile == old(self).inputfile,
                old(self).pos < self.pos,
                limit >= 1,
                arrays_filled(left),
                ls0 == self.lexems@,
                j0 == skip_newlines(ls0, old(self).pos as int),
                lit == literal_expression_at(ls0, old(self).pos as int, limit),
                j0 < ls0.len() && !never_primary(ls0[j0].token@),
                lit ==> span0 == ls0[j0].span,
                lit ==> j0 + 1 <= ls0.len() && ends_expression(ls0, j0 + 1, limit),
                lit ==> j0 + 1 < ls0.len() ==> j0 + 1 <= lazy_stop(ls0, j0 + 1, TokenV::Delimiter('.')) <= ls0.len(),
                bin == binary_literals_at(ls0, old(self).pos as int, limit),
                kb == skip_newlines(ls0, j0 + 2),
                qb == after_literal(ls0, j0 + 2),
                bin ==> j0 + 2 <= kb < ls0.len() && kb + 1 <= qb <= ls0.len() && (qb < ls0.len() ==> ls0[qb].token@ != TokenV::Newline),
                tri == three_literals_at(ls0, old(self).pos as int, limit),
                m3 == skip_newlines(ls0, kb + 2),
                q3 == after_literal(ls0, kb + 2),
                p1 == binop_precedence_of_token(ls0[j0 + 1].token@),
                p2 == binop_precedence_of_token(ls0[kb + 1].token@),
                tri ==> j0 + 2 <= kb && kb + 2 <= m3 < ls0.len() && m3 + 1 <= q3 <= ls0.len() && (q3 < ls0.len() ==> ls0[q3].token@ != TokenV::Newline),
            ensures
                self.wf(),
                self.lexems@ == old(self).lexems@,
                self.inputfile == old(self).inputfile,
                old(self).pos < self.pos,
                expression_ends_at(self.lexems@, self.pos as int, limit),
                arrays_filled(left),
                lit ==> self.pos == after_literal(ls0, old(self).pos as int) && left.span == span0,
                bin ==> self.pos == qb && (left.data matches ExpressionData::BinaryOperation { operator, left: l, right: rr }
                    && Some(operator) == binop_of_text(crate::token::token_text(ls0[j0 + 1].token@))
                    && l.span == ls0[j0].span && primary_starts_with(l.data, ls0[j0].token@) && rr.span == ls0[kb].span),
                tri ==> self.pos == q3 && three_shape(left.data, ls0, j0, kb),
            decreases self.lexems@.len() - self.pos,
        {
            if self.pos >= self.lexems.len() {
                break;
            }
            let ghost p = self.pos as int;
            let next_limit = binop_precedence(&self.lexems[self.pos].token);
            proof {
                lemma_lazy_stop(self.lexems@, p, TokenV::Delimiter('.'));
                lemma_lazy_stop_newlines(self.lexems@, p, TokenV::Delimiter('.'));
            }
            if self.test_token(Token::Delimiter('.'), true).is_some() {
                let field = self.expect_identifier()?;
                let span = left.span.merge(self.last_span());
                left = Expression { span, data: ExpressionData::FieldAccess { origin: Box::new(left), field } };
                continue;
            }
            if limit > next_limit {
                break;
            }
            let ghost op_view = self.lexems@[self.pos as int].token@;
            match self.next() {
                Some(Lexem { token: Token::Op(a, b), .. }) => {
                    let op_token = Token::Op(a, b);
                    proof {
                        lemma_binop_precedence_agrees(op_view);
                    }
                    let binop = BinaryOperation::from_token(&op_token);
                    let right = self.parse_expr(next_limit, true)?;
                    let span = left.span.merge(self.last_span());
                    left = Expression {
                        span,
                        data: ExpressionData::BinaryOperation {
                            operator: binop.unwrap(),
                            left: Box::new(left),
                            right: Box::new(right),
                        },
                    };
                },
                _ => {},
            }
        }
        Ok(left)
    }

    /// Reads `name = expression`.
    fn parse_assignment(&mut self) -> (r: Result<(String, Expression), ParseError>)
        requires
            old(self).wf(),
        ensures
            r matches Ok(p) ==> arrays_filled(p.1),
            final(self).wf(),
            final(self).lexems@ == old(self).lexems@,
            final(self).inputfile == old(self).inputfile,
            old(self).pos <= final(self).pos,
            r is Ok ==> final(self).pos > old(self).pos,
            ({
                let ls = old(self).lexems@;
                let p = old(self).pos as int;
                &&& !identifier_after(ls, p) ==> r is Err && unexpected_at(r->Err_0, ls, skip_newlines(ls, p), "identifier"@)
                &&& identifier_after(ls, p) && !token_after(ls, past(ls, p), TokenV::Op('=', None)) ==> r is Err
                    && unexpected_at(r->Err_0, ls, skip_newlines(ls, past(ls, p)), token_debug(TokenV::Op('=', None)))
                &&& r is Ok ==> identifier_after(ls, p) && r->Ok_0.0@ == identifier_name(ls, p)
                &&& literal_assignment_after(ls, p) ==> r is Ok && final(self).pos == after_literal(ls, past(ls, past(ls, p)))
            }),
    {
        let ident = self.expect_identifier()?;
        let _ = self.expect_token(Token::Op('=', None))?;
        let expr = self.parse_expr(1, true)?;
        Ok((ident, expr))
    }

    /// Reads the rest of `let name = expression`.
    fn parse_let_stmt(&mut self) -> (r: Result<Statement, ParseError>)
        requires
            old(self).wf(),
        ensures
            r matches Ok(st) ==> node_arrays_filled(Node { span: Span { line: 0, start: 0, end: 0 }, stmt: st }),
            r matches Ok(st) ==> st is LetStatement,
            final(self).wf(),
            final(self).lexems@ == old(self).lexems@,
            final(self).inputfile == old(self).inputfile,
            old(self).pos <= final(self).pos,
            r is Ok ==> r->Ok_0 is LetStatement,
            ({
                let ls = old(self).lexems@;
                let p = old(self).pos as int;
                &&& !identifier_after(ls, p) ==> r is Err && unexpected_at(r->Err_0, ls, skip_newlines(ls, p), "identifier"@)
                &&& identifier_after(ls, p) && !token_after(ls, past(ls, p), TokenV::Op('=', None)) ==> r is Err
                    && unexpected_at(r->Err_0, ls, skip_newlines(ls, past(ls, p)), token_debug(TokenV::Op('=', None)))
                &&& r is Ok ==> identifier_after(ls, p) && (r->Ok_0 matches Statement::LetStatement(st) && st.binding@ == identifier_name(ls, p))
                &&& literal_assignment_after(ls, p) ==> r is Ok && final(self).pos == after_literal(ls, past(ls, past(ls, p)))
            }),
    {
        let (ident, expr) = self.parse_assignment()?;
        Ok(Statement::LetStatement(LetStatement { binding: ident, assignment: expr }))
    }

    /// Reads the rest of `const name: type = expression`.
    fn parse_const_stmt(&mut self) -> (r: Result<Statement, ParseError>)
        requires
            old(self).wf(),
        ensures
            r matches Ok(st) ==> node_arrays_filled(Node { span: Span { line: 0, start: 0, end: 0 }, stmt: st }),
            r matches Ok(st) ==> st is ConstStatement,
            final(self).wf(),
            final(self).lexems@ == old(self).lexems@,
            final(self).inputfile == old(self).inputfile,
            old(self).pos <= final(self).pos,
            r is Ok ==> r->Ok_0 is ConstStatement,
            ({
                let ls = old(self).lexems@;
                let p = old(self).pos as int;
                let q = past(ls, past(ls, past(ls, p)));
                &&& !identifier_after(ls, p) ==> r is Err && unexpected_at(r->Err_0, ls, skip_newlines(ls, p), "identifier"@)
                &&& identifier_after(ls, p) && !token_after(ls, past(ls, p), TokenV::Delimiter(':')) ==> r is Err
                    && unexpected_at(r->Err_0, ls, skip_newlines(ls, past(ls, p)), token_debug(TokenV::Delimiter(':')))
                &&& r is Ok ==> identifier_after(ls, p) && (r->Ok_0 matches Statement::ConstStatement(st) && st.binding@ == identifier_name(ls, p))
                &&& identifier_after(ls, p) && token_after(ls, past(ls, p), TokenV::Delimiter(':')) && plain_type_after(ls, past(ls, past(ls, p)))
                    && token_after(ls, q, TokenV::Op('=', None)) && literal_expression_at(ls, past(ls, q), 1)
                    ==> r is Ok && final(self).pos == after_literal(ls, past(ls, q))
            }),
    {
        let ident = self.expect_identifier()?;
        let _ = self.expect_token(Token::Delimiter(':'))?;
        let typing = self.parse_type()?;
        let _ = self.expect_token(Token::Op('=', None))?;
        let expr = self.parse_expr(1, true)?;
        Ok(Statement::ConstStatement(ConstStatement { binding: ident, assignment: expr, typing }))
    }

    /// Reads the rest of `var name = expression`.
    fn parse_var_stmt(&mut self) -> (r: Result<Statement, ParseError>)
        requires
            old(self).wf(),
        ensures
            r matches Ok(st) ==> node_arrays_filled(Node { span: Span { line: 0, start: 0, end: 0 }, stmt: st }),
            r matches Ok(st) ==> st is VarStatement,
            final(self).wf(),
            final(self).lexems@ == old(self).lexems@,
            final(self).inputfile == old(self).inputfile,
            old(self).pos <= final(self).pos,
            r is Ok ==> r->Ok_0 is VarStatement,
            ({
                let ls = old(self).lexems@;
                let p = old(self).pos as int;
                &&& !identifier_after(ls, p) ==> r is Err && unexpected_at(r->Err_0, ls, skip_newlines(ls, p), "identifier"@)
                &&& identifier_after(ls, p) && !token_after(ls, past(ls, p), TokenV::Op('=', None)) ==> r is Err
                    && unexpected_at(r->Err_0, ls, skip_newlines(ls, past(ls, p)), token_debug(TokenV::Op('=', None)))
                &&& r is Ok ==> identifier_after(ls, p) && (r->Ok_0 matches Statement::VarStatement(st) && st.binding@ == identifier_name(ls, p))
                &&& literal_assignment_after(ls, p) ==> r is Ok && final(self).pos == after_literal(ls, past(ls, past(ls, p)))
            }),
    {
        let (ident, expr) = self.parse_assignment()?;
        Ok(Statement::VarStatement(VarStatement { binding: ident, assignment: expr }))
    }

    /// Reads statements up to a `}` or the end of the lexems.
    fn parse_stmts(&mut self) -> (r: Result<Block, ParseError>)
        requires
            old(self).wf(),
        ensures
            r matches Ok(b) ==> nodes_arrays_filled(b.content@),
            final(self).wf(),
            final(self).lexems@ == old(self).lexems@,
            final(self).inputfile == old(self).inputfile,
            old(self).pos <= final(self).pos,
            r is Ok ==> {
                let ls = final(self).lexems@;
                let p = final(self).pos as int;
                p == ls.len() || ls[p].token@ == TokenV::Delimiter('}')
            },
            ({
                let ls = old(self).lexems@;
                let j = skip_newlines(ls, old(self).pos as int);
                (j >= ls.len() || ls[j].token@ == TokenV::Delimiter('}')) ==> (r matches Ok(b) && b.content@.len() == 0)
                    && final(self).pos == j
            }),
        decreases old(self).lexems@.len() - old(self).pos, 5nat,
    {
        let mut ast: Vec<Node> = Vec::new();
        let ghost j0 = skip_newlines(self.lexems@, self.pos as int);
        let ghost stop0 = j0 >= self.lexems@.len() || self.lexems@[j0].token@ == TokenV::Delimiter('}');
        loop
            invariant_except_break
                stop0 ==> self.pos == old(self).pos && ast@.len() == 0,
            invariant
                self.wf(),
                self.lexems@ == old(self).lexems@,
                self.inputfile == old(self).inputfile,
                old(self).pos <= self.pos,
                nodes_arrays_filled(ast@),
                j0 == skip_newlines(old(self).lexems@, old(self).pos as int),
                stop0 == (j0 >= old(self).lexems@.len() || old(self).lexems@[j0].token@ == TokenV::Delimiter('}')),
            ensures
                stop0 ==> self.pos == j0 && ast@.len() == 0,
                self.wf(),
                self.lexems@ == old(self).lexems@,
                self.inputfile == old(self).inputfile,
                old(self).pos <= self.pos,
                self.pos == self.lexems@.len() || self.lexems@[self.pos as int].token@ == TokenV::Delimiter('}'),
                nodes_arrays_filled(ast@),
            decreases self.lexems@.len() - self.pos,
        {
            match self.parse_node(true)? {
                Some(node) => {
                    proof {
                        lemma_nodes_arrays_filled_push(ast@, node);
                    }
                    ast.push(node);
                },
                None => break,
            }
        }
        Ok(Block { content: ast })
    }

    /// Reads a block: `=> statement`, or `{ statements }`.
    fn parse_block(&mut self, lazy: bool, inside_block: bool) -> (r: Result<Block, ParseError>)
        requires
            old(self).wf(),
        ensures
            r matches Ok(b) ==> nodes_arrays_filled(b.content@),
            final(self).wf(),
            final(self).lexems@ == old(self).lexems@,
            final(self).inputfile == old(self).inputfile,
            old(self).pos <= final(self).pos,
            ({
                let ls = old(self).lexems@;
                let p = old(self).pos as int;
                &&& token_after(ls, p, TokenV::Delimiter('{')) && token_after(ls, past(ls, p), TokenV::Delimiter('}'))
                    ==> (r matches Ok(b) && b.content@.len() == 0) && final(self).pos == past(ls, past(ls, p))
                &&& !token_after(ls, p, TokenV::Op('=', Some('>'))) && !token_after(ls, p, TokenV::Delimiter('{'))
                    ==> r is Err && unexpected_at(r->Err_0, ls, skip_newlines(ls, p), token_debug(TokenV::Delimiter('{')))
            }),
        decreases old(self).lexems@.len() - old(self).pos, 2nat,
    {
        proof {
            lemma_skip_newlines(self.lexems@, self.pos as int);
            lemma_lazy_stop_is_skip(self.lexems@, self.pos as int, TokenV::Op('=', Some('>')));
            let j = skip_newlines(self.lexems@, self.pos as int);
            if j < self.lexems@.len() {
                lemma_skip_newlines(self.lexems@, j + 1);
                lemma_skip_newlines(self.lexems@, skip_newlines(self.lexems@, j + 1));
            }
        }
        if let Some(arrow) = self.test_token(Token::Op('=', Some('>')), lazy) {
            match self.parse_node(inside_block)? {
                Some(x) => {
                    let mut content: Vec<Node> = Vec::new();
                    proof {
                        lemma_nodes_arrays_filled_push(content@, x);
                        assert(nodes_arrays_filled(content@));
                    }
                    content.push(x);
                    Ok(Block { content })
                },
                None => Err(ParseError { span: Some(arrow.span), case: ParseErrorCase::ExpectedStatement }),
            }
        } else {
            self.expect_token(Token::Delimiter('{'))?;
            let block = self.parse_stmts()?;
            self.expect_token(Token::Delimiter('}'))?;
            Ok(block)
        }
    }

    /// Reads the rest of `fn name(arguments)[: type] { statements }`.
    fn parse_fn_stmt(&mut self) -> (r: Result<Statement, ParseError>)
        requires
            old(self).wf(),
        ensures
            r matches Ok(st) ==> node_arrays_filled(Node { span: Span { line: 0, start: 0, end: 0 }, stmt: st }),
            r matches Ok(st) ==> st is FnStatement,
            final(self).wf(),
            final(self).lexems@ == old(self).lexems@,
            final(self).inputfile == old(self).inputfile,
            old(self).pos <= final(self).pos,
            r is Ok ==> r->Ok_0 is FnStatement,
            ({
                let ls = old(self).lexems@;
                let p = old(self).pos as int;
                let q = past(ls, past(ls, p));
                let c = past(ls, q);
                &&& !identifier_after(ls, p) ==> r is Err && unexpected_at(r->Err_0, ls, skip_newlines(ls, p), "identifier"@)
                &&& identifier_after(ls, p) && !token_after(ls, past(ls, p), TokenV::Delimiter('(')) ==> r is Err
                    && unexpected_at(r->Err_0, ls, skip_newlines(ls, past(ls, p)), token_debug(TokenV::Delimiter('(')))
                &&& r is Ok ==> identifier_after(ls, p) && (r->Ok_0 matches Statement::FnStatement(st) && st.name@ == identifier_name(ls, p))
                &&& identifier_after(ls, p) && token_after(ls, past(ls, p), TokenV::Delimiter('(')) && token_after(ls, q, TokenV::Delimiter(')'))
                    && !(c < ls.len() && ls[c].token@ == TokenV::Delimiter(':')) && token_after(ls, c, TokenV::Delimiter('{'))
                    && token_after(ls, past(ls, c), TokenV::Delimiter('}'))
                    ==> (r matches Ok(Statement::FnStatement(st)) && st.arguments@.len() == 0 && st.ret is None && st.block.content@.len() == 0)
                    && final(self).pos == past(ls, past(ls, c))
            }),
        decreases old(self).lexems@.len() - old(self).pos, 2nat,
    {
        proof {
            let ls = self.lexems@;
            let p = self.pos as int;
            lemma_skip_newlines(ls, p);
            if skip_newlines(ls, p) < ls.len() {
                lemma_skip_newlines(ls, past(ls, p));
                if skip_newlines(ls, past(ls, p)) < ls.len() {
                    let q = past(ls, past(ls, p));
                    lemma_skip_newlines(ls, q);
                    lemma_skip_newlines(ls, skip_newlines(ls, q));
                    if skip_newlines(ls, q) < ls.len() {
                        let c = past(ls, q);
                        lemma_skip_newlines(ls, c);
                        if skip_newlines(ls, c) < ls.len() {
                            lemma_skip_newlines(ls, past(ls, c));
                            lemma_skip_newlines(ls, skip_newlines(ls, past(ls, c)));
                        }
                    }
                }
            }
        }
        let name = self.expect_identifier()?;
        self.expect_token(Token::Delimiter('('))?;
        let arguments = self.parse_typed_fields()?;
        self.expect_token(Token::Delimiter(')'))?;
        let mut typ: Option<Type> = None;
        if self.test_token(Token::Delimiter(':'), false).is_some() {
            typ = Some(self.parse_type()?);
        }
        self.expect_token(Token::Delimiter('{'))?;
        let block = self.parse_stmts()?;
        self.expect_token(Token::Delimiter('}'))?;
        Ok(Statement::FnStatement(FnStatement { name, block, ret: typ, arguments }))
    }

    /// Reads the rest of `extern fn name(arguments)[: type]`.
    fn parse_extern_fn_stmt(&mut self) -> (r: Result<Statement, ParseError>)
        requires
            old(self).wf(),
        ensures
            r matches Ok(st) ==> node_arrays_filled(Node { span: Span { line: 0, start: 0, end: 0 }, stmt: st }),
            r matches Ok(st) ==> st is ExternFnStatement,
            final(self).wf(),
            final(self).lexems@ == old(self).lexems@,
            final(self).inputfile == old(self).inputfile,
            old(self).pos <= final(self).pos,
            r is Ok ==> r->Ok_0 is ExternFnStatement,
            ({
                let ls = old(self).lexems@;
                let i = old(self).pos as int;
                !(i < ls.len() && ls[i].token@ == TokenV::Keyword(Keyword::Fn)) ==> r is Err
                    && unexpected_at(r->Err_0, ls, i, token_debug(TokenV::Keyword(Keyword::Fn)))
            }),
    {
        let expected = Token::Keyword(Keyword::Fn);
        match self.next() {
            Some(lexem) => {
                if !lexem.token.same(&expected) {
                    return Err(
                        ParseError {
                            span: Some(lexem.span),
                            case: ParseErrorCase::UnexpectedToken {
                                got: debug_text(&lexem.token),
                                expected: debug_text(&expected),
                            },
                        },
                    );
                }
            },
            None => {
                return Err(
                    ParseError {
                        span: None,
                        case: ParseErrorCase::UnexpectedToken {
                            got: String::from_str("EOF"),
                            expected: debug_text(&expected),
                        },
                    },
                );
            },
        }
        let name = self.expect_identifier()?;
        self.expect_token(Token::Delimiter('('))?;
        let (arguments, variadic) = self.parse_fn_decl_args()?;
        self.expect_token(Token::Delimiter(')'))?;
        let mut typ: Option<Type> = None;
        if self.test_token(Token::Delimiter(':'), false).is_some() {
            typ = Some(self.parse_type()?);
        }
        Ok(Statement::ExternFnStatement(ExternFnStatement { name, ret: typ, arguments, variadic }))
    }

    /// Reads the rest of `struct name { fields }`.
    fn parse_struct_stmt(&mut self) -> (r: Result<Statement, ParseError>)
        requires
            old(self).wf(),
        ensures
            r matches Ok(st) ==> node_arrays_filled(Node { span: Span { line: 0, start: 0, end: 0 }, stmt: st }),
            r matches Ok(st) ==> st is StructStatement,
            final(self).wf(),
            final(self).lexems@ == old(self).lexems@,
            final(self).inputfile == old(self).inputfile,
            old(self).pos <= final(self).pos,
            r is Ok ==> r->Ok_0 is StructStatement,
            ({
                let ls = old(self).lexems@;
                let p = old(self).pos as int;
                let q = past(ls, past(ls, p));
                &&& !identifier_after(ls, p) ==> r is Err && unexpected_at(r->Err_0, ls, skip_newlines(ls, p), "identifier"@)
                &&& identifier_after(ls, p) && !token_after(ls, past(ls, p), TokenV::Delimiter('{')) ==> r is Err
                    && unexpected_at(r->Err_0, ls, skip_newlines(ls, past(ls, p)), token_debug(TokenV::Delimiter('{')))
                &&& r is Ok ==> identifier_after(ls, p) && (r->Ok_0 matches Statement::StructStatement(st) && st.name@ == identifier_name(ls, p))
                &&& identifier_after(ls, p) && token_after(ls, past(ls, p), TokenV::Delimiter('{')) && token_after(ls, q, TokenV::Delimiter('}'))
                    ==> (r matches Ok(Statement::StructStatement(st)) && st.fields@.len() == 0) && final(self).pos == past(ls, q)
            }),
    {
        proof {
            let ls = self.lexems@;
            let p = self.pos as int;
            lemma_skip_newlines(ls, p);
            if skip_newlines(ls, p) < ls.len() {
                lemma_skip_newlines(ls, past(ls, p));
                if skip_newlines(ls, past(ls, p)) < ls.len() {
                    lemma_skip_newlines(ls, past(ls, past(ls, p)));
                    lemma_skip_newlines(ls, skip_newlines(ls, past(ls, past(ls, p))));
                }
            }
        }
        let name = self.expect_identifier()?;
        self.expect_token(Token::Delimiter('{'))?;
        let fields = self.parse_typed_fields()?;
        self.expect_token(Token::Delimiter('}'))?;
        Ok(Statement::StructStatement(StructStatement { name, fields }))
    }

    /// Reads the rest of `enum name { variants }`.
    fn parse_enum_stmt(&mut self) -> (r: Result<Statement, ParseError>)
        requires
            old(self).wf(),
        ensures
            r matches Ok(st) ==> node_arrays_filled(Node { span: Span { line: 0, start: 0, end: 0 }, stmt: st }),
            r matches Ok(st) ==> st is EnumStatement,
            final(self).wf(),
            final(self).lexems@ == old(self).lexems@,
            final(self).inputfile == old(self).inputfile,
            old(self).pos <= final(self).pos,
            r is Ok ==> r->Ok_0 is EnumStatement,
            ({
                let ls = old(self).lexems@;
                let p = old(self).pos as int;
                let q = past(ls, past(ls, p));
                &&& !identifier_after(ls, p) ==> r is Err && unexpected_at(r->Err_0, ls, skip_newlines(ls, p), "identifier"@)
                &&& identifier_after(ls, p) && !token_after(ls, past(ls, p), TokenV::Delimiter('{')) ==> r is Err
                    && unexpected_at(r->Err_0, ls, skip_newlines(ls, past(ls, p)), token_debug(TokenV::Delimiter('{')))
                &&& r is Ok ==> identifier_after(ls, p) && (r->Ok_0 matches Statement::EnumStatement(st) && st.name@ == identifier_name(ls, p))
                &&& identifier_after(ls, p) && token_after(ls, past(ls, p), TokenV::Delimiter('{')) ==> match name_list(ls, q) {
                    Some((v, e)) => (token_after(ls, e, TokenV::Delimiter('}')) ==> (r matches Ok(Statement::EnumStatement(st))
                        && texts(st.variants@) == v) && final(self).pos == past(ls, e))
                        && (!token_after(ls, e, TokenV::Delimiter('}')) ==> r is Err),
                    None => r is Err,
                }
            }),
    {
        let name = self.expect_identifier()?;
        self.expect_token(Token::Delimiter('{'))?;
        let variants = self.parse_enum_variants()?;
        self.expect_token(Token::Delimiter('}'))?;
        Ok(Statement::EnumStatement(EnumStatement { name, variants }))
    }

    /// Reads the rest of `if condition block [else if ... | else { statements }]`.
    fn parse_if_stmt(&mut self) -> (r: Result<Statement, ParseError>)
        requires
            old(self).wf(),
        ensures
            r matches Ok(st) ==> node_arrays_filled(Node { span: Span { line: 0, start: 0, end: 0 }, stmt: st }),
            r matches Ok(st) ==> st is IfStatement,
            final(self).wf(),
            final(self).lexems@ == old(self).lexems@,
            final(self).inputfile == old(self).inputfile,
            old(self).pos <= final(self).pos,
            r is Ok ==> r->Ok_0 is IfStatement && final(self).pos > old(self).pos,
            ({
                let ls = old(self).lexems@;
                let p = old(self).pos as int;
                let a = after_literal(ls, p);
                &&& skip_newlines(ls, p) >= ls.len() ==> r is Err && unexpected_at(r->Err_0, ls, skip_newlines(ls, p), "primary expression"@)
                &&& literal_expression_at(ls, p, 1) && token_after(ls, a, TokenV::Delimiter('{')) && token_after(ls, past(ls, a), TokenV::Delimiter('}'))
                    && !token_after(ls, past(ls, past(ls, a)), TokenV::Keyword(Keyword::Else))
                    ==> (r matches Ok(Statement::IfStatement(st)) && st.block_true.content@.len() == 0 && st.block_false is None)
                    && final(self).pos == skip_newlines(ls, past(ls, past(ls, a)))
            }),
        decreases old(self).lexems@.len() - old(self).pos, 2nat,
    {
        let expr = self.parse_expr(1, false)?;
        let block_true = self.parse_block(true, true)?;
        let mut block_false: Option<Block> = None;
        proof {
            lemma_lazy_stop_is_skip(self.lexems@, self.pos as int, TokenV::Keyword(Keyword::Else));
        }
        if self.test_token(Token::Keyword(Keyword::Else), true).is_some() {
            if let Some(elseif) = self.test_token(Token::Keyword(Keyword::If), true) {
                let stmt = self.parse_if_stmt()?;
                let if_node = Node { span: elseif.span, stmt };
                let mut content: Vec<Node> = Vec::new();
                proof {
                    lemma_nodes_arrays_filled_push(content@, if_node);
                    assert(nodes_arrays_filled(content@));
                    assert(node_arrays_filled(if_node));
                }
                content.push(if_node);
                block_false = Some(Block { content });
            } else {
                self.expect_token(Token::Delimiter('{'))?;
                block_false = Some(self.parse_stmts()?);
                self.expect_token(Token::Delimiter('}'))?;
            }
        }
        Ok(Statement::IfStatement(IfStatement { condition: expr, block_true, block_false }))
    }

    /// Reads the rest of `while condition block`.
    fn parse_while_stmt(&mut self) -> (r: Result<Statement, ParseError>)
        requires
            old(self).wf(),
        ensures
            r matches Ok(st) ==> node_arrays_filled(Node { span: Span { line: 0, start: 0, end: 0 }, stmt: st }),
            r matches Ok(st) ==> st is WhileStatement,
            final(self).wf(),
            final(self).lexems@ == old(self).lexems@,
            final(self).inputfile == old(self).inputfile,
            old(self).pos <= final(self).pos,
            r is Ok ==> r->Ok_0 is WhileStatement,
            ({
                let ls = old(self).lexems@;
                let p = old(self).pos as int;
                let a = after_literal(ls, p);
                &&& skip_newlines(ls, p) >= ls.len() ==> r is Err && unexpected_at(r->Err_0, ls, skip_newlines(ls, p), "primary expression"@)
                &&& literal_expression_at(ls, p, 1) && token_after(ls, a, TokenV::Delimiter('{')) && token_after(ls, past(ls, a), TokenV::Delimiter('}'))
                    ==> (r matches Ok(Statement::WhileStatement(st)) && st.block.content@.len() == 0) && final(self).pos == past(ls, past(ls, a))
            }),
        decreases old(self).lexems@.len() - old(self).pos, 2nat,
    {
        let condition = self.parse_expr(1, false)?;
        let block = self.parse_block(true, true)?;
        Ok(Statement::WhileStatement(WhileStatement { condition, block }))
    }

    /// Reads the rest of `return [expression]`: there is no expression where the statement
    /// ends.
    fn parse_return_stmt(&mut self) -> (r: Result<Statement, ParseError>)
        requires
            old(self).wf(),
        ensures
            r matches Ok(st) ==> node_arrays_filled(Node { span: Span { line: 0, start: 0, end: 0 }, stmt: st }),
            r matches Ok(st) ==> st is ReturnStatement,
            final(self).wf(),
            final(self).lexems@ == old(self).lexems@,
            final(self).inputfile == old(self).inputfile,
            old(self).pos <= final(self).pos,
            r is Ok ==> r->Ok_0 is ReturnStatement,
            ({
                let ls = old(self).lexems@;
                let i = old(self).pos as int;
                let ends = i >= ls.len() || ls[i].token@ == TokenV::Newline || ls[i].token@
                    == TokenV::Delimiter(';') || ls[i].token@ == TokenV::Delimiter('}');
                &&& ends ==> (r matches Ok(Statement::ReturnStatement(ReturnStatement { expr: None })))
                    && final(self).pos == i
                &&& !ends && r is Ok ==> r->Ok_0 matches Statement::ReturnStatement(
                    ReturnStatement { expr: Some(_) },
                )
            }),
        decreases old(self).lexems@.len() - old(self).pos, 2nat,
    {
        if self.test_end() {
            return Ok(Statement::ReturnStatement(ReturnStatement { expr: None }));
        }
        let expr = self.parse_expr(1, true)?;
        Ok(Statement::ReturnStatement(ReturnStatement { expr: Some(expr) }))
    }

    /// Reads a statement that starts with the keyword that follows, and the end of the
    /// statement. Outside blocks only declarations are statements.
    fn parse_stmt(&mut self, inside_block: bool) -> (r: Result<Statement, ParseError>)
        requires
            old(self).wf(),
            old(self).pos < old(self).lexems@.len(),
            old(self).lexems@[old(self).pos as int].token@ is Keyword,
            old(self).lexems@[old(self).pos as int].token@ != TokenV::Keyword(Keyword::True),
            old(self).lexems@[old(self).pos as int].token@ != TokenV::Keyword(Keyword::False),
        ensures
            r matches Ok(st) ==> node_arrays_filled(Node { span: Span { line: 0, start: 0, end: 0 }, stmt: st }),
            final(self).wf(),
            final(self).lexems@ == old(self).lexems@,
            final(self).inputfile == old(self).inputfile,
            old(self).pos <= final(self).pos,
            final(self).pos > old(self).pos,
            ({
                let ls = old(self).lexems@;
                let i = old(self).pos as int;
                let k = ls[i].token@->Keyword_0;
                let declaration = k == Keyword::Struct || k == Keyword::Fn || k == Keyword::Extern
                    || k == Keyword::Enum || k == Keyword::Const;
                &&& !declaration && !inside_block ==> r is Err
                &&& (k == Keyword::Else || k == Keyword::Mut || k == Keyword::As) ==> r is Err
                &&& r matches Ok(st) ==> begins_statement(ls[i].token@, st)
                &&& declaration_end(ls, i) matches Some(e) ==> (r matches Ok(st) && (st is EnumStatement || st is StructStatement || st is FnStatement)
                    && (st matches Statement::EnumStatement(d) ==> d.name@ == identifier_name(ls, i + 1))
                    && (st matches Statement::StructStatement(d) ==> d.name@ == identifier_name(ls, i + 1) && d.fields@.len() == 0)
                    && (st matches Statement::FnStatement(d) ==> d.name@ == identifier_name(ls, i + 1) && d.arguments@.len() == 0
                        && d.ret is None && d.block.content@.len() == 0)) && final(self).pos == e
            }),
        decreases old(self).lexems@.len() - old(self).pos, 3nat,
    {
        let (kw, span) = match self.next() {
            Some(Lexem { token: Token::Keyword(kw), span }) => (kw, span),
            _ => {
                proof {
                    assert(false);
                }
                return Err(ParseError { span: None, case: ParseErrorCase::ExpectedStatement });
            },
        };
        let result = match kw {
            Keyword::Struct => self.parse_struct_stmt(),
            Keyword::Fn => self.parse_fn_stmt(),
            Keyword::Extern => self.parse_extern_fn_stmt(),
            Keyword::Enum => self.parse_enum_stmt(),
            Keyword::Const => self.parse_const_stmt(),
            _ => {
                if !inside_block {
                    Err(
                        ParseError {
                            span: Some(span),
                            case: ParseErrorCase::UnexpectedToken {
                                got: String::from_str(kw.debug_name()),
                                expected: String::from_str("valid statement"),
                            },
                        },
                    )
                } else {
                    match kw {
                        Keyword::Var => self.parse_var_stmt(),
                        Keyword::Let => self.parse_let_stmt(),
                        Keyword::If => self.parse_if_stmt(),
                        Keyword::While => self.parse_while_stmt(),
                        Keyword::Return => self.parse_return_stmt(),
                        Keyword::Else => Err(
                            ParseError {
                                span: Some(span),
                                case: ParseErrorCase::UnexpectedToken {
                                    got: String::from_str("else keyword"),
                                    expected: String::from_str("valid statement"),
                                },
                            },
                        ),
                        _ => Err(
                            ParseError {
                                span: Some(span),
                                case: ParseErrorCase::UnexpectedToken {
                                    got: String::from_str(kw.debug_name()),
                                    expected: String::from_str("valid statement"),
                                },
                            },
                        ),
                    }
                }
            },
        };
        self.expect_end()?;
        result
    }

    /// Reads the next statement, after any newlines: a keyword statement, or an expression
    /// and the end of the statement. There is none at the end of the lexems, nor at a `}`
    /// inside a block.
    fn parse_node(&mut self, inside_block: bool) -> (r: Result<Option<Node>, ParseError>)
        requires
            old(self).wf(),
        ensures
            r matches Ok(Some(n)) ==> node_arrays_filled(n),
            r matches Ok(Some(n)) ==> (!inside_block ==> !(n.stmt is LetStatement || n.stmt is VarStatement)),
            final(self).wf(),
            final(self).lexems@ == old(self).lexems@,
            final(self).inputfile == old(self).inputfile,
            old(self).pos <= final(self).pos,
            ({
                let ls = old(self).lexems@;
                let j = skip_newlines(ls, old(self).pos as int);
                let stop = j >= ls.len() || (inside_block && ls[j].token@ == TokenV::Delimiter('}'));
                &&& stop ==> (r matches Ok(None)) && final(self).pos == j
                &&& r matches Ok(None) ==> stop
                &&& r matches Ok(Some(n)) ==> j < ls.len() && final(self).pos > j && n.span == ls[j].span
                &&& r matches Ok(Some(n)) ==> begins_statement(ls[j].token@, n.stmt)
                &&& !inside_block && j < ls.len() && refused_at_top_level(ls[j].token@) ==> r is Err
                &&& declaration_end(ls, j) matches Some(e) ==> (r matches Ok(Some(n)) && (n.stmt is EnumStatement || n.stmt is StructStatement || n.stmt is FnStatement)) && final(self).pos == e
            }),
            r matches Ok(Some(_)) ==> final(self).pos > old(self).pos,
        decreases old(self).lexems@.len() - old(self).pos, 4nat,
    {
        self.skip_newline_lexems();
        if self.pos >= self.lexems.len() {
            return Ok(None);
        }
        let span = self.lexems[self.pos].span;
        if inside_block && self.peek_is(&Token::Delimiter('}')) {
            return Ok(None);
        }
        let is_statement = match &self.lexems[self.pos].token {
            Token::Keyword(k) => match k {
                Keyword::True => false,
                Keyword::False => false,
                _ => true,
            },
            _ => false,
        };
        if is_statement {
            let stmt = self.parse_stmt(inside_block)?;
            return Ok(Some(Node { span, stmt }));
        }
        let expr = self.parse_expr(1, true)?;
        let node = Node { span, stmt: Statement::ExpressionStatement(expr) };
        self.expect_end()?;
        Ok(Some(node))
    }

    /// Reads a whole program: its statements up to the end of the lexems.
    pub fn parse(&mut self) -> (r: Result<Program, ParseError>)
        requires
            old(self).wf(),
        ensures
            r matches Ok(p) ==> forall|i: int| 0 <= i < p.nodes@.len() ==> #[trigger] node_arrays_filled(p.nodes@[i])
                && !(p.nodes@[i].stmt is LetStatement || p.nodes@[i].stmt is VarStatement),
            final(self).wf(),
            final(self).lexems() == old(self).lexems(),
            final(self).source() == old(self).source(),
            r is Ok ==> final(self).position() == final(self).lexems().len(),
            r is Ok ==> r->Ok_0.filename@ == old(self).source().filename@,
            r matches Ok(p) ==> forall|i: int| 0 <= i < p.nodes@.len() ==> exists|j: int| 0 <= j < old(self).lexems().len()
                && (#[trigger] p.nodes@[i]).span == old(self).lexems()[j].span && begins_statement(old(self).lexems()[j].token@, p.nodes@[i].stmt),
            ({
                let ls = old(self).lexems();
                let j = skip_newlines(ls, old(self).position());
                &&& j >= ls.len() ==> (r matches Ok(p) && p.nodes@.len() == 0)
                &&& j < ls.len() && refused_at_top_level(ls[j].token@) ==> r is Err
            }),
            declaration_list(old(self).lexems(), old(self).position()) ==> (r matches Ok(p)
                && p.nodes@.len() == declaration_count(old(self).lexems(), old(self).position())
                && forall|i: int| 0 <= i < p.nodes@.len() ==> #[trigger] p.nodes@[i].stmt is EnumStatement || p.nodes@[i].stmt is StructStatement || p.nodes@[i].stmt is FnStatement),
    {
        let ghost j0 = skip_newlines(self.lexems@, self.pos as int);
        let ghost decls = declaration_list(old(self).lexems@, old(self).pos as int);
        let ghost total = declaration_count(old(self).lexems@, old(self).pos as int);
        let mut ast: Vec<Node> = Vec::new();
        loop
            invariant
                self.wf(),
                self.lexems@ == old(self).lexems@,
                self.inputfile == old(self).inputfile,
                forall|i: int| 0 <= i < ast@.len() ==> exists|j: int| 0 <= j < self.lexems@.len()
                    && (#[trigger] ast@[i]).span == self.lexems@[j].span && begins_statement(self.lexems@[j].token@, ast@[i].stmt),
                forall|i: int| 0 <= i < ast@.len() ==> #[trigger] node_arrays_filled(ast@[i]) && !(ast@[i].stmt is LetStatement || ast@[i].stmt is VarStatement),
                j0 == skip_newlines(old(self).lexems@, old(self).pos as int),
                ast@.len() == 0 ==> skip_newlines(self.lexems@, self.pos as int) == j0,
                j0 >= self.lexems@.len() ==> ast@.len() == 0,
                ast@.len() > 0 ==> !(j0 < self.lexems@.len() && refused_at_top_level(self.lexems@[j0].token@)),
                decls == declaration_list(old(self).lexems@, old(self).pos as int),
                total == declaration_count(old(self).lexems@, old(self).pos as int),
                decls ==> declaration_list(self.lexems@, self.pos as int),
                decls ==> ast@.len() + declaration_count(self.lexems@, self.pos as int) == total,
                decls ==> forall|i: int| 0 <= i < ast@.len() ==> #[trigger] ast@[i].stmt is EnumStatement || ast@[i].stmt is StructStatement || ast@[i].stmt is FnStatement,
            ensures
                self.wf(),
                self.lexems@ == old(self).lexems@,
                self.inputfile == old(self).inputfile,
                self.pos == self.lexems@.len(),
                forall|i: int| 0 <= i < ast@.len() ==> exists|j: int| 0 <= j < self.lexems@.len()
                    && (#[trigger] ast@[i]).span == self.lexems@[j].span && begins_statement(self.lexems@[j].token@, ast@[i].stmt),
                forall|i: int| 0 <= i < ast@.len() ==> #[trigger] node_arrays_filled(ast@[i]) && !(ast@[i].stmt is LetStatement || ast@[i].stmt is VarStatement),
                j0 >= self.lexems@.len() ==> ast@.len() == 0,
                !(j0 < self.lexems@.len() && refused_at_top_level(self.lexems@[j0].token@)),
                decls == declaration_list(old(self).lexems@, old(self).pos as int),
                total == declaration_count(old(self).lexems@, old(self).pos as int),
                decls ==> ast@.len() == total,
                decls ==> forall|i: int| 0 <= i < ast@.len() ==> #[trigger] ast@[i].stmt is EnumStatement || ast@[i].stmt is StructStatement || ast@[i].stmt is FnStatement,
            decreases self.lexems@.len() - self.pos,
        {
            let ghost j = skip_newlines(self.lexems@, self.pos as int);
            proof {
                lemma_skip_newlines(self.lexems@, self.pos as int);
            }
            let ghost pb = self.pos as int;
            proof {
                if decls {
                    assert(declaration_list(self.lexems@, pb));
                    assert(j >= self.lexems@.len() || declaration_end(self.lexems@, j) is Some);
                }
            }
            let parsed = self.parse_node(false);
            let next = match parsed {
                Ok(x) => x,
                Err(e) => {
                    return Err(e);
                },
            };
            match next {
                Some(node) => {
                    let ghost n = node;
                    let ghost prev = ast@;
                    ast.push(node);
                    proof {
                        let ls = self.lexems@;
                        assert(0 <= j);
                        assert forall|i: int| 0 <= i < ast@.len() implies exists|jj: int| 0 <= jj < ls.len()
                            && (#[trigger] ast@[i]).span == ls[jj].span && begins_statement(ls[jj].token@, ast@[i].stmt) by {
                            if i < prev.len() {
                                assert(ast@[i] == prev[i]);
                            } else {
                                assert(ast@[i] == n);
                            }
                        }
                        assert forall|i: int| 0 <= i < ast@.len() implies #[trigger] node_arrays_filled(ast@[i])
                            && !(ast@[i].stmt is LetStatement || ast@[i].stmt is VarStatement) by {
                            if i < prev.len() {
                                assert(ast@[i] == prev[i]);
                            } else {
                                assert(ast@[i] == n);
                            }
                        }
                        if decls {
                            assert(declaration_end(ls, j) is Some);
                            assert forall|i: int| 0 <= i < ast@.len() implies #[trigger] ast@[i].stmt is EnumStatement || ast@[i].stmt is StructStatement || ast@[i].stmt is FnStatement by {
                                if i < prev.len() {
                                    assert(ast@[i] == prev[i]);
                                } else {
                                    assert(ast@[i] == n);
                                }
                            }
                        }
                    }
                },
                None => {
                    proof {
                        if decls {
                            assert(declaration_count(self.lexems@, pb) == 0);
                        }
                    }
                    break;
                },
            }
        }
        let ghost nodes = ast@;
        let program = Program { filename: String::from_str(self.inputfile.filename), nodes: ast };
        proof {
            let ls = old(self).lexems();
            assert(ls == self.lexems@);
            assert forall|i: int| 0 <= i < program.nodes@.len() implies exists|j: int| 0 <= j < ls.len()
                && (#[trigger] program.nodes@[i]).span == ls[j].span && begins_statement(ls[j].token@, program.nodes@[i].stmt) by {
                assert(program.nodes@[i] == nodes[i]);
            }
            assert forall|i: int| 0 <= i < program.nodes@.len() implies #[trigger] node_arrays_filled(program.nodes@[i])
                && !(program.nodes@[i].stmt is LetStatement || program.nodes@[i].stmt is VarStatement) by {
                assert(program.nodes@[i] == nodes[i]);
                assert(node_arrays_filled(nodes[i]));
            }
        }
        Ok(program)
    }
}

/// Where reading the end of a statement at `i` leaves the reader: past a newline or a `;`,
/// at a `}` or at the end of the lexems; `None` where another token stands there.
pub open spec fn end_after(ls: Seq<Lexem>, i: int) -> Option<int> {
    if i < ls.len() && (ls[i].token@ == TokenV::Newline || ls[i].token@ == TokenV::Delimiter(';')) {
        Some(i + 1)
    } else if i < ls.len() && ls[i].token@ != TokenV::Delimiter('}') {
        None
    } else {
        Some(i)
    }
}

/// Where a declaration `enum Name { A, B, ... }`, `struct Name {}` or `fn name() {}` that
/// begins at `j` ends, with the end of its statement: `None` where no such declaration
/// begins there.
pub open spec fn declaration_end(ls: Seq<Lexem>, j: int) -> Option<int> {
    if 0 <= j < ls.len() && ls[j].token@ == TokenV::Keyword(Keyword::Enum) && identifier_after(ls, j + 1)
        && token_after(ls, past(ls, j + 1), TokenV::Delimiter('{')) {
        match name_list(ls, past(ls, past(ls, j + 1))) {
            Some((_, e)) => if token_after(ls, e, TokenV::Delimiter('}')) {
                end_after(ls, past(ls, e))
            } else {
                None
            },
            None => None,
        }
    } else if 0 <= j < ls.len() && ls[j].token@ == TokenV::Keyword(Keyword::Struct) && identifier_after(ls, j + 1)
        && token_after(ls, past(ls, j + 1), TokenV::Delimiter('{')) && token_after(ls, past(ls, past(ls, j + 1)), TokenV::Delimiter('}')) {
        end_after(ls, past(ls, past(ls, past(ls, j + 1))))
    } else if 0 <= j < ls.len() && ls[j].token@ == TokenV::Keyword(Keyword::Fn) && identifier_after(ls, j + 1)
        && token_after(ls, past(ls, j + 1), TokenV::Delimiter('(')) && token_after(ls, past(ls, past(ls, j + 1)), TokenV::Delimiter(')'))
        && !(past(ls, past(ls, past(ls, j + 1))) < ls.len() && ls[past(ls, past(ls, past(ls, j + 1)))].token@ == TokenV::Delimiter(':'))
        && token_after(ls, past(ls, past(ls, past(ls, j + 1))), TokenV::Delimiter('{'))
        && token_after(ls, past(ls, past(ls, past(ls, past(ls, j + 1)))), TokenV::Delimiter('}')) {
        end_after(ls, past(ls, past(ls, past(ls, past(ls, past(ls, j + 1))))))
    } else {
        None
    }
}

/// Whether the lexems from `p` to the end are declarations that `declaration_end` reads,
/// and newlines.
pub open spec fn declaration_list(ls: Seq<Lexem>, p: int) -> bool
    decreases ls.len() - p,
{
    let j = skip_newlines(ls, p);
    if j >= ls.len() {
        true
    } else {
        match declaration_end(ls, j) {
            Some(e) => if p < e <= ls.len() {
                declaration_list(ls, e)
            } else {
                false
            },
            None => false,
        }
    }
}

/// How many declarations `declaration_list` finds from `p` on.
pub open spec fn declaration_count(ls: Seq<Lexem>, p: int) -> nat
    decreases ls.len() - p,
{
    let j = skip_newlines(ls, p);
    if j >= ls.len() {
        0
    } else {
        match declaration_end(ls, j) {
            Some(e) => if p < e <= ls.len() {
                1 + declaration_count(ls, e)
            } else {
                0
            },
            None => 0,
        }
    }
}

/// Whether a statement that begins with the token `t` is refused outside a block: a
/// keyword that begins no declaration and no expression.
pub open spec fn refused_at_top_level(t: TokenV) -> bool {
    t matches TokenV::Keyword(k) && k != Keyword::Struct && k != Keyword::Fn && k != Keyword::Extern
        && k != Keyword::Enum && k != Keyword::Const && k != Keyword::True && k != Keyword::False
}

/// The kind of statement that begins with a token: the statement of its keyword, or an
/// expression for any other token and for `true` and `false`.
pub open spec fn begins_statement(t: TokenV, st: Statement) -> bool {
    match t {
        TokenV::Keyword(k) => match k {
            Keyword::Struct => st is StructStatement,
            Keyword::Fn => st is FnStatement,
            Keyword::Extern => st is ExternFnStatement,
            Keyword::Enum => st is EnumStatement,
            Keyword::Const => st is ConstStatement,
            Keyword::Var => st is VarStatement,
            Keyword::Let => st is LetStatement,
            Keyword::If => st is IfStatement,
            Keyword::While => st is WhileStatement,
            Keyword::Return => st is ReturnStatement,
            Keyword::True | Keyword::False => st is ExpressionStatement,
            _ => false,
        },
        _ => st is ExpressionStatement,
    }
}

/// Reading back the decimal numeral of a number gives the number.
pub proof fn lemma_decimal_read_back(n: nat)
    ensures
        all_digits(crate::text::decimal_text(n), 10),
        digits_value(crate::text::decimal_text(n), 10) == n,
        crate::text::decimal_text(n).len() > 0,
    decreases n,
{
    let s = crate::text::decimal_text(n);
    if n < 10 {
        assert(s.drop_last().len() == 0);
        assert(digits_value(s.drop_last(), 10) == 0);
        assert(digit_value(s.last()) == n);
    } else {
        lemma_decimal_read_back(n / 10);
        let p = crate::text::decimal_text(n / 10);
        assert(s.drop_last() =~= p);
        assert(digit_value(s.last()) == n % 10);
        assert((n / 10) * 10 + n % 10 == n) by (nonlinear_arith);
        assert(digits_value(s, 10) == digits_value(p, 10) * 10 + digit_value(s.last()));
        assert(digits_value(p, 10) == n / 10);
        assert forall|i: int| 0 <= i < s.len() implies #[trigger] digit_value(s[i]) < 10 by {
            if i < s.len() - 1 {
                assert(s[i] == p[i]);
            }
        }
    }
}

} // verus!
