use elo::lexer::Lexer;
use elo::span::InputFile;
use elo::token::Token;

fn tokens(source_text: &str) -> Vec<Token> {
    let mut lx = Lexer::new(InputFile::new("test", source_text));
    lx.lexems().into_iter().map(|l| l.token).collect()
}

#[test]
fn test_integers() {
    let source_text = "69 420 1_000_000 0b01101 0xFf 0o07";
    let xs = tokens(source_text);
    assert_eq!(
        xs,
        vec![
            Token::Numeric(String::from("69"), 10),
            Token::Numeric(String::from("420"), 10),
            Token::Numeric(String::from("1_000_000"), 10),
            Token::Numeric(String::from("01101"), 2),
            Token::Numeric(String::from("Ff"), 16),
            Token::Numeric(String::from("07"), 8),
        ]
    );
}

#[test]
fn test_floats() {
    let source_text = "6.9 4.20";
    let xs = tokens(source_text);
    assert_eq!(
        xs,
        vec![
            Token::Numeric(String::from("6"), 10),
            Token::Delimiter('.'),
            Token::Numeric(String::from("9"), 10),
            Token::Numeric(String::from("4"), 10),
            Token::Delimiter('.'),
            Token::Numeric(String::from("20"), 10),
        ]
    );
}

#[test]
fn test_strings() {
    let source_text = "\"hello world\\n\" 'hello world\\n'";
    let xs = tokens(source_text);
    assert_eq!(
        xs,
        vec![
            Token::StringLiteral(String::from("hello world\\n")),
            Token::StrLiteral(String::from("hello world\\n")),
        ]
    );
}

#[test]
fn test_comments() {
    let source_text = "// This is a comment\n// Hello World\n";
    let xs = tokens(source_text);
    assert!(xs.is_empty());
}

#[test]
fn test_dot() {
    let source_text = "1.abc abc.1";
    let xs = tokens(source_text);
    assert_eq!(
        xs,
        vec![
            Token::Numeric(String::from("1"), 10),
            Token::Delimiter('.'),
            Token::Identifier(String::from("abc")),
            Token::Identifier(String::from("abc")),
            Token::Delimiter('.'),
            Token::Numeric(String::from("1"), 10),
        ]
    );
}

#[test]
fn test_whitespaces() {
    let source_text = "\t\n\x0C\x0B69 \x0C 420 foo \x0B bar     \t\n\x0C\x0B";
    let xs = tokens(source_text);
    assert_eq!(
        xs,
        vec![
            Token::Newline,
            Token::Numeric(String::from("69"), 10),
            Token::Numeric(String::from("420"), 10),
            Token::Identifier(String::from("foo")),
            Token::Identifier(String::from("bar")),
            Token::Newline,
        ]
    );
}

#[test]
fn a_new_lexer_stands_before_the_first_character() {
    let f = InputFile::new("a.elo", "let");
    let lx = Lexer::new(f);
    assert_eq!(lx.pos, 0);
    assert_eq!((lx.span.line, lx.span.start, lx.span.end), (1, 0, 0));
    assert_eq!(lx.span.input_file.filename, "a.elo");
    assert_eq!(lx.chars, vec!['l', 'e', 't']);
}
