use elo::oxido_lexer::keyword::Keyword;
use elo::oxido_lexer::lexer::Lexer;
use elo::oxido_lexer::span::InputFile;
use elo::oxido_lexer::token::Token;

fn show(source_text: &str) -> Vec<(usize, usize, usize, Token)> {
    let mut lx = Lexer::new(InputFile::new("test", source_text));
    let mut out = Vec::new();
    for lexem in lx.lexems() {
        let token = lexem.token;
        let span = lexem.span;
        println!("{}:{}:{} \"{}\"", span.line, span.start, span.end, &source_text[span.start..span.end]);
        println!("{:?}", token);
        out.push((span.line, span.start, span.end, token));
    }
    out
}

#[test]
fn tests_test_floats() {
    let xs = show("6.9 4.20");
    assert_eq!(
        xs,
        vec![(1, 0, 3, Token::Numeric(String::from("6.9"))), (1, 4, 8, Token::Numeric(String::from("4.20")))]
    );
}

#[test]
fn tests_test_strings() {
    let xs = show("\"hello\"");
    assert_eq!(xs, vec![(1, 0, 7, Token::StringLiteral(String::from("hello")))]);
}

#[test]
fn tests_test_comments() {
    let xs = show("# This is a comment\n");
    assert!(xs.is_empty());
}

#[test]
fn test_period1() {
    let xs = show("1.abc");
    assert_eq!(
        xs,
        vec![(1, 0, 2, Token::Numeric(String::from("1."))), (1, 2, 5, Token::Identifier(String::from("abc")))]
    );
}

#[test]
fn test_period2() {
    let xs = show("abc.1");
    assert_eq!(
        xs,
        vec![(1, 0, 3, Token::Identifier(String::from("abc"))), (1, 3, 5, Token::Numeric(String::from(".1")))]
    );
}

#[test]
fn oxido_lexer_reads_keywords_operators_and_newlines() {
    let mut lx = Lexer::new(InputFile::new("main.rs", "let x += y\nfn"));
    assert!(lx.check());
    let ts: Vec<Token> = lx.lexems().into_iter().map(|l| l.token).collect();
    assert_eq!(
        ts,
        vec![
            Token::Keyword(String::from("let")),
            Token::Identifier(String::from("x")),
            Token::Op('+', Some('=')),
            Token::Identifier(String::from("y")),
            Token::Newline,
            Token::Keyword(String::from("fn")),
        ]
    );
}

#[test]
fn oxido_lexer_marks_the_second_character_of_an_operator() {
    let mut lx = Lexer::new(InputFile::new("main.rs", "a == b"));
    let spans: Vec<(usize, usize)> = lx.lexems().into_iter().map(|l| (l.span.start, l.span.end)).collect();
    assert_eq!(spans, vec![(0, 1), (3, 4), (5, 6)]);
}

#[test]
fn oxido_lexer_refuses_an_unterminated_string() {
    let lx = Lexer::new(InputFile::new("main.rs", "\"abc"));
    assert!(!lx.check());
}

#[test]
fn oxido_keywords_read_back() {
    for k in [Keyword::Var, Keyword::Let, Keyword::Const, Keyword::Fn, Keyword::Struct, Keyword::Enum] {
        assert_eq!(Keyword::from_str(&k.as_text()), Some(k));
    }
    assert_eq!(Keyword::from_str("if"), None);
}
