use elo::oxido::input_file::InputFile;
use elo::oxido::span::{FileSpan, LineColumn, Offset, Span, U32OrUsize};
use elo::oxido::word::Word;
use elo::oxido::format_string::{FormatString, FormatStringSection, FormatStringSectionData};
use elo::oxido::token_tree::TokenTree;

fn sample_file() -> InputFile {
    let w = Word {
        string: "test.dada".to_owned(),
    };
    InputFile {
        name: w,
        source_text: "fn main() {\n print(\"hello world\").await\n}".to_owned(),
        breakpoint_locations: vec![LineColumn::new1(4, 3)],
    }
}

#[test]
fn test_name_str() {
    let input_file = sample_file();
    assert_eq!("test.dada", input_file.name_str())
}

#[test]
fn test_linecolumn_new0() {
    assert_eq!(
        LineColumn {
            line0: 4,
            column0: 3
        },
        LineColumn::new0(4u32, 3u32)
    )
}

#[test]
fn test_linecolumn_new1() {
    assert_eq!(
        LineColumn {
            line0: 3,
            column0: 2
        },
        LineColumn::new1(4, 3)
    )
}

#[test]
fn test_linecolumn_line_column() {
    let lc = LineColumn::new0(4u32, 3u32);
    assert_eq!(4, lc.line0());
    assert_eq!(5, lc.line1());
    assert_eq!(3, lc.column0());
    assert_eq!(4, lc.column1());
    assert_eq!(4, lc.line0_usize());
}

#[test]
fn test_offset_as_add_u32_add() {
    assert_eq!(Offset(5), Offset(3) + 2u32)
}

#[test]
fn test_offset_as_add_usize_add() {
    assert_eq!(Offset(5), Offset(3) + 2usize)
}

#[test]
fn test_offset_as_sub_offset_sub() {
    assert_eq!(3, Offset(7) - Offset(4))
}

#[test]
fn test_offset_as_from_usize_from() {
    assert_eq!(Offset(7), <Offset as From<usize>>::from(7))
}

#[test]
fn test_offset_as_from_u32_from() {
    assert_eq!(Offset(8), <Offset as From<u32>>::from(8))
}

#[test]
fn test_u32_as_from_offset_from() {
    assert_eq!(4, u32::from(Offset(4)))
}

#[test]
fn test_usize_as_from_offset_from() {
    assert_eq!(7, usize::from(Offset(7)))
}

#[test]
fn test_u32_as_u32orusize_into_u32() {
    assert_eq!(7, 7u32.into_u32())
}

#[test]
fn test_u32_as_u32orusize_from_u32() {
    assert_eq!(8, u32::from_u32(8))
}

#[test]
fn test_u32_as_u32orusize_into_usize() {
    assert_eq!(9, 9u32.into_usize())
}

#[test]
fn test_u32_as_u32orusize_from_usize() {
    assert_eq!(6, u32::from_usize(6))
}

#[test]
fn test_usize_as_u32orusize_into_u32() {
    assert_eq!(7, 7usize.into_u32())
}

#[test]
fn test_usize_as_u32orusize_from_u32() {
    assert_eq!(8, usize::from_u32(8))
}

#[test]
fn test_usize_as_u32orusize_into_usize() {
    assert_eq!(9, 9usize.into_usize())
}

#[test]
fn test_usize_as_u32orusize_from_usize() {
    assert_eq!(6, usize::from_usize(6))
}

#[test]
fn test_span_from() {
    assert_eq!(
        Span {
            start: Offset(7),
            end: Offset(8)
        },
        Span::from(Offset(7), Offset(8))
    )
}

#[test]
fn test_span_anchor_to() {
    let s = Span {
        start: Offset(7),
        end: Offset(8),
    };
    let input_file = sample_file();
    assert_eq!(
        FileSpan {
            input_file: input_file.clone(),
            start: Offset(7),
            end: Offset(8)
        },
        s.anchor_to(&input_file)
    )
}

#[test]
fn test_span_snippet() {
    let s = Span {
        start: Offset(7),
        end: Offset(8),
    };
    let input_file = sample_file();
    println!("{:?}", s.snippet(&input_file))
}

#[test]
fn test_span_zero() {
    assert_eq!(
        Span {
            start: Offset(0),
            end: Offset(0)
        },
        Span::zero()
    )
}

#[test]
fn test_span_len() {
    let s = Span::from(Offset(14), Offset(32));
    assert_eq!(18, s.len())
}

#[test]
fn test_span_is_empty() {
    let s = Span::from(Offset(54), Offset(54));
    assert_eq!(true, s.is_empty())
}

#[test]
fn test_span_span_at_start() {
    let s = Span::from(Offset(3), Offset(4));
    assert_eq!(
        Span {
            start: Offset(3),
            end: Offset(3)
        },
        s.span_at_start()
    )
}

#[test]
fn test_span_to() {
    let s = Span::from(Offset(3), Offset(8));
    assert_eq!(
        Span {
            start: Offset(3),
            end: Offset(9)
        },
        s.to(Span::from(Offset(4), Offset(9)))
    )
}

#[test]
fn test_filespan_snippet_contains() {
    let input_file = sample_file();
    let fs = FileSpan {
        input_file,
        start: Offset(3),
        end: Offset(11),
    };
    assert_eq!("main() {", fs.snippet());
    assert!(fs.contains(Offset(5)))
}

#[test]
fn test_span_as_from_filespan_from() {
    let input_file = sample_file();
    let fs = FileSpan {
        input_file,
        start: Offset(3),
        end: Offset(11),
    };
    assert_eq!(
        Span::from(Offset(3), Offset(11)),
        <Span as From<FileSpan>>::from(fs)
    )
}

#[test]
fn test_as_str() {
    let w = Word {
        string: "test.dada".to_owned(),
    };
    assert_eq!("test.dada", w.as_str())
}

#[test]
fn test_to_string() {
    let w = Word {
        string: "test.dada".to_owned(),
    };
    assert_eq!(String::from("test.dada"), w.to_string())
}

#[test]
fn test_len() {
    let w = Word {
        string: "test.dada".to_owned(),
    };
    assert_eq!(9, w.len())
}

#[test]
fn word_len_counts_utf8_bytes() {
    let w = Word {
        string: "ção".to_owned(),
    };
    assert_eq!(5, w.len())
}

#[test]
fn snippet_of_multibyte_text() {
    let input_file = InputFile {
        name: Word { string: "a".to_owned() },
        source_text: "aé b".to_owned(),
        breakpoint_locations: vec![],
    };
    let s = Span::from(Offset(1), Offset(3));
    assert_eq!("é", s.snippet(&input_file));
}

#[test]
fn filespan_contains_is_half_open() {
    let fs = FileSpan {
        input_file: sample_file(),
        start: Offset(3),
        end: Offset(11),
    };
    assert!(fs.contains(Offset(3)));
    assert!(!fs.contains(Offset(11)));
    assert!(!fs.contains(Offset(2)));
}

#[test]
fn format_string_lengths() {
    let empty = FormatString { len: 0, sections: vec![] };
    assert!(empty.is_empty());
    let text = FormatStringSection {
        data: FormatStringSectionData::Text(Word { string: "foo".to_owned() }),
    };
    assert_eq!(3, text.len());
    let tree = FormatStringSection {
        data: FormatStringSectionData::TokenTree(TokenTree {
            input_file: sample_file(),
            span: Span::from(Offset(4), Offset(9)),
            tokens: vec![],
        }),
    };
    assert_eq!(5, tree.len());
}

#[test]
fn span_debug_text_shows_the_offsets() {
    let s = elo::oxido::span::Span::from(elo::oxido::span::Offset(3), elo::oxido::span::Offset(17));
    assert_eq!(s.debug_text(), "(3..17)");
}
