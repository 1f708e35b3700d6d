use elo::c_backend::{binop_expr, if_stmt, string_expr, Binop};
use elo::keyword::Keyword;
use elo::text::{decimal, decimal_u128, signed_decimal};
use elo::token::{debug_text, Token};

#[test]
fn decimal_numerals() {
    assert_eq!(decimal(0), "0");
    assert_eq!(decimal(1907), "1907");
    assert_eq!(decimal_u128(u128::MAX), u128::MAX.to_string());
    assert_eq!(signed_decimal(-42), "-42");
    assert_eq!(signed_decimal(i128::MIN), i128::MIN.to_string());
}

#[test]
fn keyword_debug_names_match_debug_formatting() {
    for k in [Keyword::Var, Keyword::Return, Keyword::Extern, Keyword::As] {
        assert_eq!(k.debug_name(), format!("{:?}", k));
    }
    assert_eq!(Keyword::from_str("ret"), Some(Keyword::Return));
    assert_eq!(Keyword::Return.text(), "return");
}

#[test]
fn token_debug_text() {
    assert_eq!(debug_text(&Token::Identifier("x".to_string())), "Identifier(\"x\")");
    assert_eq!(debug_text(&Token::Op('=', None)), "Op('=', None)");
    assert_ne!(debug_text(&Token::Newline), "");
}

#[test]
fn c_string_literals_are_escaped() {
    assert_eq!(string_expr("a\"b\n"), "\"a\\\"b\\n\"");
    assert_eq!(string_expr("é"), "\"\\xC3\\xA9\"");
    assert_eq!(binop_expr("a", "b", Binop::Le), "(a) <= (b)");
    assert_eq!(if_stmt("x", "y;", None), "if(x)\n{y;};\n");
}
