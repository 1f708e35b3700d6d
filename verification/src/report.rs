use vstd::prelude::*;
use crate::span::FileSpan;
use crate::text::{chars_of, decimal, decimal_text, push_char, string_of};

verus! {

/// The pieces of a text between its newlines: one more than there are newlines.
pub open spec fn segments(s: Seq<char>) -> Seq<Seq<char>>
    decreases s.len(),
{
    if s.len() == 0 {
        seq![seq![]]
    } else {
        let prev = segments(s.drop_last());
        if s.last() == '\n' {
            prev.push(seq![])
        } else {
            prev.update(prev.len() - 1, prev.last().push(s.last()))
        }
    }
}

/// A line without the carriage return that ends it, if one does.
pub open spec fn strip_cr(l: Seq<char>) -> Seq<char> {
    if l.len() > 0 && l.last() == '\r' {
        l.drop_last()
    } else {
        l
    }
}

/// The lines of a text: each ends at a newline, or at a carriage return and a newline, or
/// at the end of the text; an empty last line after a final newline is not a line.
pub open spec fn text_lines(s: Seq<char>) -> Seq<Seq<char>> {
    let segs = segments(s);
    if s.len() == 0 {
        seq![]
    } else if s.last() == '\n' {
        segs.drop_last().map_values(|l: Seq<char>| strip_cr(l))
    } else {
        segs.drop_last().map_values(|l: Seq<char>| strip_cr(l)).push(segs.last())
    }
}

/// The line of index `k` (from 0) of a text; empty where there is no such line.
pub open spec fn line_at(s: Seq<char>, k: int) -> Seq<char> {
    if 0 <= k < text_lines(s).len() {
        text_lines(s)[k]
    } else {
        seq![]
    }
}

proof fn lemma_segments_len(s: Seq<char>)
    ensures
        segments(s).len() >= 1,
    decreases s.len(),
{
    if s.len() > 0 {
        lemma_segments_len(s.drop_last());
    }
}

/// Once a piece of a text has ended at a newline, text that follows does not change it.
proof fn lemma_segments_stable(s: Seq<char>, i: int, m: int)
    requires
        0 <= i <= s.len(),
        0 <= m < segments(s.subrange(0, i)).len() - 1,
    ensures
        m < segments(s).len() - 1,
        segments(s)[m] == segments(s.subrange(0, i))[m],
    decreases s.len() - i,
{
    lemma_segments_len(s.subrange(0, i));
    if i < s.len() {
        let t = s.subrange(0, i + 1);
        assert(t.drop_last() =~= s.subrange(0, i));
        lemma_segments_len(t);
        lemma_segments_stable(s, i + 1, m);
    } else {
        assert(s.subrange(0, i) =~= s);
    }
}

/// The line of index `k` (from 0) of a text; empty where there is no such line.
pub fn nth_line(content: &str, k: usize) -> (r: String)
    ensures
        r@ == line_at(content@, k as int),
{
    let chars = chars_of(content);
    let n = chars.len();
    let mut nl: usize = 0;
    let mut cur: Vec<char> = Vec::new();
    let mut i: usize = 0;
    proof {
        assert(chars@.subrange(0, 0) =~= Seq::<char>::empty());
    }
    while i < n
        invariant
            i <= n,
            n == chars@.len(),
            chars@ == content@,
            nl <= i,
            nl <= k,
            segments(chars@.subrange(0, i as int)).len() == nl + 1,
            nl == k ==> cur@ == segments(chars@.subrange(0, i as int)).last(),
            nl < k ==> cur@.len() == 0,
        decreases n - i,
    {
        let ghost p = chars@.subrange(0, i as int);
        proof {
            assert(chars@.subrange(0, i + 1).drop_last() =~= p);
            lemma_segments_len(p);
        }
        if chars[i] == '\n' {
            if nl == k {
                proof {
                    let t = chars@.subrange(0, i + 1);
                    assert(segments(t)[k as int] == segments(p)[k as int]);
                    lemma_segments_stable(chars@, i + 1, k as int);
                    assert(chars@.subrange(0, n as int) =~= chars@);
                    lemma_segments_len(chars@);
                }
                if cur.len() > 0 && cur[cur.len() - 1] == '\r' {
                    cur.pop();
                }
                let r = string_of(cur.as_slice());
                proof {
                    let segs = segments(chars@);
                    assert(k < segs.len() - 1);
                    assert(text_lines(chars@)[k as int] == strip_cr(segs[k as int]));
                }
                return r;
            }
            nl = nl + 1;
        } else if nl == k {
            cur.push(chars[i]);
        }
        i = i + 1;
    }
    proof {
        assert(chars@.subrange(0, n as int) =~= chars@);
        lemma_segments_len(chars@);
        if nl == k && n > 0 && chars@.last() != '\n' {
            assert(text_lines(chars@).len() == nl + 1);
        }
        if nl == k && n > 0 && chars@.last() == '\n' {
            assert(chars@.subrange(0, n as int).drop_last() =~= chars@.subrange(0, n - 1));
        }
    }
    string_of(cur.as_slice())
}

proof fn lemma_decimal_len(n: nat)
    ensures
        decimal_text(n).len() <= n / 2 + 1,
    decreases n,
{
    if n >= 10 {
        lemma_decimal_len(n / 10);
    }
}

/// `n` times the character `c`.
pub open spec fn repeated(c: char, n: nat) -> Seq<char> {
    Seq::new(n, |_i: int| c)
}

fn repeat_char(c: char, n: usize) -> (r: String)
    ensures
        r@ == repeated(c, n as nat),
{
    let mut r = String::new();
    let mut i: usize = 0;
    while i < n
        invariant
            i <= n,
            r@ == repeated(c, i as nat),
        decreases n - i,
    {
        push_char(&mut r, c);
        assert(r@ =~= repeated(c, (i + 1) as nat));
        i = i + 1;
    }
    r
}

/// The terminal sequence that starts bold red text.
pub open spec fn red_bold() -> Seq<char> {
    "\x1b[1;31m"@
}

/// The terminal sequence that starts bold cyan text.
pub open spec fn cyan_bold() -> Seq<char> {
    "\x1b[1;36m"@
}

/// The terminal sequence that starts bold blue text.
pub open spec fn blue_bold() -> Seq<char> {
    "\x1b[1;34m"@
}

/// The terminal sequence that starts bold green text.
pub open spec fn green_bold() -> Seq<char> {
    "\x1b[1;32m"@
}

/// The terminal sequence that ends colored text.
pub open spec fn reset() -> Seq<char> {
    "\x1b[0m"@
}

/// The lines of the report of an error at a span of a file: the title and the message, where
/// the error is, the line of the source text with the span marked under it, then the
/// submessage and the help where there are, and an empty line.
pub open spec fn error_report(
    error: Seq<char>,
    message: Seq<char>,
    filename: Seq<char>,
    content: Seq<char>,
    line: nat,
    start: nat,
    end: nat,
    help: Option<Seq<char>>,
    submessage: Option<Seq<char>>,
) -> Seq<Seq<char>> {
    let text = line_at(content, line - 1);
    let number = decimal_text(line);
    let indent = repeated(' ', number.len() + 2);
    let length = end - start;
    let marks = if length == 0 { 0nat } else { (length - 1) as nat };
    let first = seq![
        red_bold() + error + reset() + ": "@ + message,
        indent + cyan_bold() + "-> "@ + blue_bold() + filename + ":"@ + number + ":"@ + decimal_text(start),
        indent + cyan_bold() + "|"@ + reset(),
        " "@ + number + " "@ + cyan_bold() + "|"@ + reset() + " "@ + text,
        indent + cyan_bold() + " "@ + reset() + repeated(' ', start) + green_bold() + " ^"@ + repeated('-', marks) + " "@ + reset(),
    ];
    let sub = match submessage {
        Some(m) => seq![indent + cyan_bold() + " "@ + reset() + repeated(' ', start) + green_bold() + reset() + " "@ + m],
        None => seq![],
    };
    let helped = match help {
        Some(h) => seq![
            indent + cyan_bold() + " "@ + reset(),
            indent + cyan_bold() + " "@ + reset() + green_bold() + " Help"@ + reset() + ": "@ + h,
        ],
        None => seq![],
    };
    first + sub + helped + seq![seq![]]
}

/// The texts of a list of strings.
pub open spec fn texts(v: Seq<String>) -> Seq<Seq<char>> {
    v.map_values(|s: String| s@)
}

fn push_line(lines: &mut Vec<String>, l: String)
    ensures
        texts(final(lines)@) == texts(old(lines)@).push(l@),
{
    lines.push(l);
    assert(texts(lines@) =~= texts(old(lines)@).push(l@));
}

/// The lines of the report of an error at a span of a file, without their newlines.
pub fn error_lines(error: &str, message: &str, filespan: &FileSpan, help: Option<&str>, submessage: Option<&str>) -> (r: Vec<String>)
    requires
        filespan.line >= 1,
        filespan.start <= filespan.end,
    ensures
        texts(r@) == error_report(
            error@,
            message@,
            filespan.input_file.filename@,
            filespan.input_file.content@,
            filespan.line as nat,
            filespan.start as nat,
            filespan.end as nat,
            match help {
                Some(h) => Some(h@),
                None => None,
            },
            match submessage {
                Some(m) => Some(m@),
                None => None,
            },
        ),
{
    let text = nth_line(filespan.input_file.content, filespan.line - 1);
    let number = decimal(filespan.line);
    proof {
        lemma_decimal_len(filespan.line as nat);
    }
    let indent = repeat_char(' ', number.unicode_len() + 2);
    let length = filespan.end - filespan.start;
    let marks = if length == 0 { 0 } else { length - 1 };
    let gap = repeat_char(' ', filespan.start);
    let mut lines: Vec<String> = Vec::new();

    let mut l = String::new();
    l.append("\x1b[1;31m");
    l.append(error);
    l.append("\x1b[0m");
    l.append(": ");
    l.append(message);
    push_line(&mut lines, l);

    let mut l = indent.clone();
    l.append("\x1b[1;36m");
    l.append("-> ");
    l.append("\x1b[1;34m");
    l.append(filespan.input_file.filename);
    l.append(":");
    l.append(number.as_str());
    l.append(":");
    l.append(decimal(filespan.start).as_str());
    push_line(&mut lines, l);

    let mut l = indent.clone();
    l.append("\x1b[1;36m");
    l.append("|");
    l.append("\x1b[0m");
    push_line(&mut lines, l);

    let mut l = String::new();
    l.append(" ");
    l.append(number.as_str());
    l.append(" ");
    l.append("\x1b[1;36m");
    l.append("|");
    l.append("\x1b[0m");
    l.append(" ");
    l.append(text.as_str());
    push_line(&mut lines, l);

    let mut l = indent.clone();
    l.append("\x1b[1;36m");
    l.append(" ");
    l.append("\x1b[0m");
    l.append(gap.as_str());
    l.append("\x1b[1;32m");
    l.append(" ^");
    l.append(repeat_char('-', marks).as_str());
    l.append(" ");
    l.append("\x1b[0m");
    push_line(&mut lines, l);

    if let Some(m) = submessage {
        let mut l = indent.clone();
        l.append("\x1b[1;36m");
        l.append(" ");
        l.append("\x1b[0m");
        l.append(gap.as_str());
        l.append("\x1b[1;32m");
        l.append("\x1b[0m");
        l.append(" ");
        l.append(m);
        push_line(&mut lines, l);
    }
    if let Some(h) = help {
        let mut l = indent.clone();
        l.append("\x1b[1;36m");
        l.append(" ");
        l.append("\x1b[0m");
        push_line(&mut lines, l);
        let mut l = indent.clone();
        l.append("\x1b[1;36m");
        l.append(" ");
        l.append("\x1b[0m");
        l.append("\x1b[1;32m");
        l.append(" Help");
        l.append("\x1b[0m");
        l.append(": ");
        l.append(h);
        push_line(&mut lines, l);
    }
    push_line(&mut lines, String::new());
    proof {
        let spec_lines = error_report(
            error@,
            message@,
            filespan.input_file.filename@,
            filespan.input_file.content@,
            filespan.line as nat,
            filespan.start as nat,
            filespan.end as nat,
            match help {
                Some(h) => Some(h@),
                None => None,
            },
            match submessage {
                Some(m) => Some(m@),
                None => None,
            },
        );
        assert(texts(lines@) =~= spec_lines);
    }
    lines
}

/// The lines of the framed report of an error at a span of a file: the title and the
/// message, where the error is, the line of the source text with the span bracketed under
/// it and pointed at from below with the submessage (or `here`), then the help where there
/// is one, and the foot of the frame. The line is counted from 1; for line 0 no source text
/// is shown.
pub open spec fn framed_report(
    error: Seq<char>,
    message: Seq<char>,
    filename: Seq<char>,
    content: Seq<char>,
    line: nat,
    start: nat,
    end: nat,
    help: Option<Seq<char>>,
    submessage: Option<Seq<char>>,
) -> Seq<Seq<char>> {
    let text = line_at(content, line - 1);
    let number = decimal_text(line);
    let indent = repeated(' ', number.len() + 2);
    let length = (end - start) as nat;
    let half = length / 2;
    let right = if length % 2 != 0 { half } else { (half - 1) as nat };
    let pointer = repeated(' ', start + half + 1);
    let first = seq![
        red_bold() + error + reset() + ": "@ + message,
        indent + cyan_bold() + "╭─["@ + blue_bold() + filename + reset() + ":"@ + green_bold() + number + reset() + ":"@
            + green_bold() + decimal_text(start) + cyan_bold() + "]"@ + reset(),
        indent + cyan_bold() + "│"@ + reset(),
        " "@ + number + " "@ + cyan_bold() + "│"@ + reset() + " "@ + text,
        indent + cyan_bold() + "·"@ + reset() + repeated(' ', start) + green_bold() + "╰"@ + repeated('─', half) + "┬"@
            + repeated('─', right) + "╯"@ + reset(),
        indent + cyan_bold() + "·"@ + reset() + pointer + green_bold() + (if help is Some { "├"@ } else { "╰"@ }) + "─"@ + reset()
            + " "@ + match submessage {
            Some(m) => m,
            None => "here"@,
        },
    ];
    let helped = match help {
        Some(h) => seq![indent + cyan_bold() + "·"@ + reset() + pointer + green_bold() + "╰─ Help"@ + reset() + ": "@ + h],
        None => seq![],
    };
    first + helped + seq![cyan_bold() + repeated('─', number.len() + 2) + "╯"@ + reset()]
}

/// The lines of the framed report of an error at a span of a file, without their newlines.
pub fn framed_error_lines(error: &str, message: &str, filespan: &FileSpan, help: Option<&str>, submessage: Option<&str>) -> (r: Vec<String>)
    requires
        filespan.start < filespan.end < usize::MAX,
    ensures
        texts(r@) == framed_report(
            error@,
            message@,
            filespan.input_file.filename@,
            filespan.input_file.content@,
            filespan.line as nat,
            filespan.start as nat,
            filespan.end as nat,
            match help {
                Some(h) => Some(h@),
                None => None,
            },
            match submessage {
                Some(m) => Some(m@),
                None => None,
            },
        ),
{
    let text = if filespan.line == 0 {
        String::new()
    } else {
        nth_line(filespan.input_file.content, filespan.line - 1)
    };
    let number = decimal(filespan.line);
    proof {
        lemma_decimal_len(filespan.line as nat);
    }
    let indent = repeat_char(' ', number.unicode_len() + 2);
    let length = filespan.end - filespan.start;
    let half = length / 2;
    let right = if length % 2 != 0 { half } else { half - 1 };
    let pointer = repeat_char(' ', filespan.start + half + 1);
    let mut lines: Vec<String> = Vec::new();

    let mut l = String::new();
    l.append("\x1b[1;31m");
    l.append(error);
    l.append("\x1b[0m");
    l.append(": ");
    l.append(message);
    push_line(&mut lines, l);

    let mut l = indent.clone();
    l.append("\x1b[1;36m");
    l.append("╭─[");
    l.append("\x1b[1;34m");
    l.append(filespan.input_file.filename);
    l.append("\x1b[0m");
    l.append(":");
    l.append("\x1b[1;32m");
    l.append(number.as_str());
    l.append("\x1b[0m");
    l.append(":");
    l.append("\x1b[1;32m");
    l.append(decimal(filespan.start).as_str());
    l.append("\x1b[1;36m");
    l.append("]");
    l.append("\x1b[0m");
    push_line(&mut lines, l);

    let mut l = indent.clone();
    l.append("\x1b[1;36m");
    l.append("│");
    l.append("\x1b[0m");
    push_line(&mut lines, l);

    let mut l = String::new();
    l.append(" ");
    l.append(number.as_str());
    l.append(" ");
    l.append("\x1b[1;36m");
    l.append("│");
    l.append("\x1b[0m");
    l.append(" ");
    l.append(text.as_str());
    push_line(&mut lines, l);

    let mut l = indent.clone();
    l.append("\x1b[1;36m");
    l.append("·");
    l.append("\x1b[0m");
    l.append(repeat_char(' ', filespan.start).as_str());
    l.append("\x1b[1;32m");
    l.append("╰");
    l.append(repeat_char('─', half).as_str());
    l.append("┬");
    l.append(repeat_char('─', right).as_str());
    l.append("╯");
    l.append("\x1b[0m");
    push_line(&mut lines, l);

    let mut l = indent.clone();
    l.append("\x1b[1;36m");
    l.append("·");
    l.append("\x1b[0m");
    l.append(pointer.as_str());
    l.append("\x1b[1;32m");
    if help.is_some() {
        l.append("├");
    } else {
        l.append("╰");
    }
    l.append("─");
    l.append("\x1b[0m");
    l.append(" ");
    match submessage {
        Some(m) => l.append(m),
        None => l.append("here"),
    }
    push_line(&mut lines, l);

    if let Some(h) = help {
        let mut l = indent.clone();
        l.append("\x1b[1;36m");
        l.append("·");
        l.append("\x1b[0m");
        l.append(pointer.as_str());
        l.append("\x1b[1;32m");
        l.append("╰─ Help");
        l.append("\x1b[0m");
        l.append(": ");
        l.append(h);
        push_line(&mut lines, l);
    }
    let mut l = String::new();
    l.append("\x1b[1;36m");
    l.append(repeat_char('─', number.unicode_len() + 2).as_str());
    l.append("╯");
    l.append("\x1b[0m");
    push_line(&mut lines, l);
    proof {
        let spec_lines = framed_report(
            error@,
            message@,
            filespan.input_file.filename@,
            filespan.input_file.content@,
            filespan.line as nat,
            filespan.start as nat,
            filespan.end as nat,
            match help {
                Some(h) => Some(h@),
                None => None,
            },
            match submessage {
                Some(m) => Some(m@),
                None => None,
            },
        );
        assert(texts(lines@) =~= spec_lines);
    }
    lines
}

} // verus!
