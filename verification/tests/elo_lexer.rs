use elo::elo_lexer::keyword::Keyword;
use elo::elo_lexer::lexer::Lexer;
use elo::elo_lexer::span::InputFile;
use elo::elo_lexer::token::Token;

fn lex(source_text: &str) -> Vec<(usize, usize, usize, Token)> {
    let mut lx = Lexer::new(InputFile::new("test", source_text));
    assert!(lx.check());
    lx.lexems().into_iter().map(|l| (l.span.line, l.span.start, l.span.end, l.token)).collect()
}

#[test]
fn elo_lexer_reads_a_declaration() {
    assert_eq!(
        lex("let x = 0x1F_a;"),
        vec![
            (1, 0, 3, Token::Keyword(Keyword::Let)),
            (1, 4, 5, Token::Identifier(String::from("x"))),
            (1, 6, 7, Token::Op('=', None)),
            (1, 8, 14, Token::Numeric(String::from("1F_a"), 16)),
            (1, 14, 15, Token::Delimiter(';')),
        ]
    );
}

#[test]
fn elo_lexer_reads_numbers_by_radix() {
    assert_eq!(
        lex("0b102 007 0o17 1_000"),
        vec![
            (1, 0, 4, Token::Numeric(String::from("10"), 2)),
            (1, 4, 5, Token::Numeric(String::from("2"), 10)),
            (1, 6, 7, Token::Numeric(String::from("0"), 10)),
            (1, 7, 8, Token::Numeric(String::from("0"), 10)),
            (1, 8, 9, Token::Numeric(String::from("7"), 10)),
            (1, 10, 14, Token::Numeric(String::from("17"), 8)),
            (1, 15, 20, Token::Numeric(String::from("1_000"), 10)),
        ]
    );
}

#[test]
fn elo_lexer_skips_comments_and_counts_lines() {
    assert_eq!(
        lex("# note\nret a\n"),
        vec![
            (2, 0, 3, Token::Keyword(Keyword::Return)),
            (2, 4, 5, Token::Identifier(String::from("a"))),
            (3, 0, 0, Token::Newline),
        ]
    );
}

#[test]
fn elo_lexer_reads_two_character_operators() {
    assert_eq!(
        lex("a+=b&&c"),
        vec![
            (1, 0, 1, Token::Identifier(String::from("a"))),
            (1, 2, 3, Token::Op('+', Some('='))),
            (1, 3, 4, Token::Identifier(String::from("b"))),
            (1, 5, 6, Token::Op('&', Some('&'))),
            (1, 6, 7, Token::Identifier(String::from("c"))),
        ]
    );
}

#[test]
fn elo_lexer_reads_strings_and_unknown_characters() {
    assert_eq!(
        lex("\"h\u{e9}llo\" x @"),
        vec![
            (1, 0, 8, Token::StringLiteral(String::from("h\u{e9}llo"))),
            (1, 9, 10, Token::Identifier(String::from("x"))),
            (1, 11, 12, Token::Unknown('@')),
        ]
    );
}

#[test]
fn elo_lexer_refuses_an_open_string() {
    let mut lx = Lexer::new(InputFile::new("test", "x \"abc"));
    assert!(!lx.check());
    assert!(lx.try_next().unwrap().is_some());
    assert!(lx.try_next().is_err());
}

#[test]
fn elo_keywords_are_read_from_their_spelling() {
    assert_eq!(Keyword::from_str("ret"), Some(Keyword::Return));
    assert_eq!(Keyword::from_str("return"), Some(Keyword::Return));
    assert_eq!(Keyword::from_str("extern"), Some(Keyword::Extern));
    assert_eq!(Keyword::from_str("true"), None);
}
