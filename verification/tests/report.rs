use elo::report::{error_lines, nth_line};
use elo::span::{FileSpan, InputFile};

#[test]
fn nth_line_finds_lines() {
    let text = "fn main(){\r\nlet a = 5;\n}";
    assert_eq!(nth_line(text, 0), "fn main(){");
    assert_eq!(nth_line(text, 1), "let a = 5;");
    assert_eq!(nth_line(text, 2), "}");
    assert_eq!(nth_line(text, 3), "");
    assert_eq!(nth_line("a\n", 1), "");
    assert_eq!(nth_line("", 0), "");
    assert_eq!(nth_line("x\r", 0), "x\r");
}

#[test]
fn error_report_marks_the_span() {
    let fs = FileSpan { line: 2, start: 4, end: 9, input_file: InputFile::new("main.elo", "fn main(){\nlet a = 5;\n}") };
    let lines = error_lines("Parse Error", "unexpected token", &fs, Some("remove it"), Some("here"));
    assert_eq!(lines.len(), 9);
    assert_eq!(lines[0], "\x1b[1;31mParse Error\x1b[0m: unexpected token");
    assert_eq!(lines[1], "   \x1b[1;36m-> \x1b[1;34mmain.elo:2:4");
    assert_eq!(lines[2], "   \x1b[1;36m|\x1b[0m");
    assert_eq!(lines[3], " 2 \x1b[1;36m|\x1b[0m let a = 5;");
    assert_eq!(lines[4], "   \x1b[1;36m \x1b[0m    \x1b[1;32m ^---- \x1b[0m");
    assert_eq!(lines[5], "   \x1b[1;36m \x1b[0m    \x1b[1;32m\x1b[0m here");
    assert_eq!(lines[6], "   \x1b[1;36m \x1b[0m");
    assert_eq!(lines[7], "   \x1b[1;36m \x1b[0m\x1b[1;32m Help\x1b[0m: remove it");
    assert_eq!(lines[8], "");
}

#[test]
fn error_report_of_an_empty_span_has_a_caret_alone() {
    let fs = FileSpan { line: 12, start: 0, end: 0, input_file: InputFile::new("a.elo", "x") };
    let lines = error_lines("Type Error", "m", &fs, None, None);
    assert_eq!(lines.len(), 6);
    assert_eq!(lines[3], " 12 \x1b[1;36m|\x1b[0m ");
    assert_eq!(lines[4], "    \x1b[1;36m \x1b[0m\x1b[1;32m ^ \x1b[0m");
    assert_eq!(lines[5], "");
}

#[test]
fn test_error() {
    let fs = FileSpan { input_file: InputFile::new("test.txt", "let x = 6 + 6.7;"), line: 1, start: 8, end: 15 };
    let lines = elo::report::framed_error_lines("Type Error", "unexpected type", &fs, None, Some("expected Int but found F64"));
    for l in &lines {
        println!("{l}");
    }
    assert_eq!(lines.len(), 7);
    assert_eq!(lines[0], "\x1b[1;31mType Error\x1b[0m: unexpected type");
    assert_eq!(lines[1], "   \x1b[1;36m╭─[\x1b[1;34mtest.txt\x1b[0m:\x1b[1;32m1\x1b[0m:\x1b[1;32m8\x1b[1;36m]\x1b[0m");
    assert_eq!(lines[2], "   \x1b[1;36m│\x1b[0m");
    assert_eq!(lines[3], " 1 \x1b[1;36m│\x1b[0m let x = 6 + 6.7;");
    assert_eq!(lines[4], "   \x1b[1;36m·\x1b[0m        \x1b[1;32m╰───┬───╯\x1b[0m");
    assert_eq!(lines[5], "   \x1b[1;36m·\x1b[0m            \x1b[1;32m╰─\x1b[0m expected Int but found F64");
    assert_eq!(lines[6], "\x1b[1;36m───╯\x1b[0m");
}

#[test]
fn framed_report_of_an_even_span_with_help() {
    let fs = FileSpan { input_file: InputFile::new("a.elo", "abcdef"), line: 1, start: 1, end: 5 };
    let lines = elo::report::framed_error_lines("E", "m", &fs, Some("h"), None);
    assert_eq!(lines.len(), 8);
    assert_eq!(lines[4], "   \x1b[1;36m·\x1b[0m \x1b[1;32m╰──┬─╯\x1b[0m");
    assert_eq!(lines[5], "   \x1b[1;36m·\x1b[0m    \x1b[1;32m├─\x1b[0m here");
    assert_eq!(lines[6], "   \x1b[1;36m·\x1b[0m    \x1b[1;32m╰─ Help\x1b[0m: h");
}
