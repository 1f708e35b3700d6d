use vstd::prelude::*;
use vstd::string::StringSliceAdditionalSpecFns;
use vstd::std_specs::convert::FromSpecImpl;
use vstd::std_specs::ops::{AddSpec, AddSpecImpl, SubSpec, SubSpecImpl};
use vstd::utf8::is_char_boundary;
use crate::oxido::input_file::{InputFile, InputFileV};

verus! {

/// Something that knows which input file it belongs to.
pub trait Anchored {
    /// The file that the element is anchored to.
    spec fn anchor(&self) -> InputFileV;

    /// A copy of the file that the element is anchored to.
    fn input_file(&self) -> (r: InputFile)
        ensures
            r@ == self.anchor(),
    ;
}

impl Anchored for InputFile {
    open spec fn anchor(&self) -> InputFileV {
        self@
    }

    fn input_file(&self) -> (r: InputFile) {
        self.copy()
    }
}

impl<'a> Anchored for &'a InputFile {
    open spec fn anchor(&self) -> InputFileV {
        (**self)@
    }

    fn input_file(&self) -> (r: InputFile) {
        (**self).copy()
    }
}

/// A 0-based byte offset within a file.
#[derive(Debug, Clone, Copy, PartialEq, Eq, Structural, PartialOrd)]
pub struct Offset(pub u32);

/// A 0-based line and column.
#[derive(Debug, Clone, Copy, PartialEq, Eq, Structural)]
pub struct LineColumn {
    /// 0-based line number
    pub line0: u32,
    /// 0-based column number
    pub column0: u32,
}

/// An integer that is a `u32` or a `usize`.
pub trait U32OrUsize: Sized {
    /// The value of the integer.
    spec fn value(&self) -> int;

    /// Whether `n` is a value of this type.
    spec fn holds(n: int) -> bool;

    fn into_u32(self) -> (r: u32)
        requires
            self.value() <= u32::MAX,
        ensures
            r == self.value(),
    ;

    fn from_u32(n: u32) -> (r: Self)
        requires
            Self::holds(n as int),
        ensures
            r.value() == n,
    ;

    fn into_usize(self) -> (r: usize)
        requires
            self.value() <= usize::MAX,
        ensures
            r == self.value(),
    ;

    fn from_usize(n: usize) -> (r: Self)
        requires
            Self::holds(n as int),
        ensures
            r.value() == n,
    ;
}

impl U32OrUsize for u32 {
    open spec fn value(&self) -> int {
        *self as int
    }

    open spec fn holds(n: int) -> bool {
        0 <= n <= u32::MAX
    }

    fn into_u32(self) -> (r: u32) {
        self
    }

    fn from_u32(n: u32) -> (r: Self) {
        n
    }

    fn into_usize(self) -> (r: usize) {
        self as usize
    }

    fn from_usize(n: usize) -> (r: Self) {
        n as u32
    }
}

impl U32OrUsize for usize {
    open spec fn value(&self) -> int {
        *self as int
    }

    open spec fn holds(n: int) -> bool {
        0 <= n <= usize::MAX
    }

    fn into_u32(self) -> (r: u32) {
        self as u32
    }

    fn from_u32(n: u32) -> (r: Self) {
        n as usize
    }

    fn into_usize(self) -> (r: usize) {
        self
    }

    fn from_usize(n: usize) -> (r: Self) {
        n
    }
}

impl LineColumn {
    /// A position from 1-based line and column numbers.
    pub fn new1(line1: u32, column1: u32) -> (r: Self)
        requires
            line1 > 0,
            column1 > 0,
        ensures
            r.line0 == line1 - 1,
            r.column0 == column1 - 1,
    {
        Self::new0(line1 - 1, column1 - 1)
    }

    /// A position from 0-based line and column numbers.
    pub fn new0<L: U32OrUsize, C: U32OrUsize>(line0: L, column0: C) -> (r: Self)
        requires
            line0.value() <= u32::MAX,
            column0.value() <= u32::MAX,
        ensures
            r.line0 == line0.value(),
            r.column0 == column0.value(),
    {
        LineColumn { line0: line0.into_u32(), column0: column0.into_u32() }
    }

    pub fn line0(&self) -> (r: u32)
        ensures
            r == self.line0,
    {
        self.line0
    }

    pub fn line1(&self) -> (r: u32)
        requires
            self.line0 < u32::MAX,
        ensures
            r == self.line0 + 1,
    {
        self.line0 + 1
    }

    pub fn line0_usize(&self) -> (r: usize)
        ensures
            r == self.line0,
    {
        self.line0 as usize
    }

    pub fn column0(&self) -> (r: u32)
        ensures
            r == self.column0,
    {
        self.column0
    }

    pub fn column1(&self) -> (r: u32)
        requires
            self.column0 < u32::MAX,
        ensures
            r == self.column0 + 1,
    {
        self.column0 + 1
    }
}

impl core::ops::Add<u32> for Offset {
    type Output = Offset;

    fn add(self, other: u32) -> (r: Offset) {
        Offset(self.0 + other)
    }
}

impl AddSpecImpl<u32> for Offset {
    open spec fn obeys_add_spec() -> bool {
        true
    }

    open spec fn add_req(self, rhs: u32) -> bool {
        self.0 + rhs <= u32::MAX
    }

    open spec fn add_spec(self, rhs: u32) -> Offset {
        Offset((self.0 + rhs) as u32)
    }
}

impl core::ops::Add<usize> for Offset {
    type Output = Offset;

    fn add(self, other: usize) -> (r: Offset) {
        self + (other as u32)
    }
}

impl AddSpecImpl<usize> for Offset {
    open spec fn obeys_add_spec() -> bool {
        true
    }

    open spec fn add_req(self, rhs: usize) -> bool {
        rhs < u32::MAX && self.0 + rhs <= u32::MAX
    }

    open spec fn add_spec(self, rhs: usize) -> Offset {
        Offset((self.0 + rhs) as u32)
    }
}

impl core::ops::Sub<Offset> for Offset {
    type Output = u32;

    fn sub(self, other: Offset) -> (r: u32) {
        self.0 - other.0
    }
}

impl SubSpecImpl<Offset> for Offset {
    open spec fn obeys_sub_spec() -> bool {
        true
    }

    open spec fn sub_req(self, rhs: Offset) -> bool {
        rhs.0 <= self.0
    }

    open spec fn sub_spec(self, rhs: Offset) -> u32 {
        (self.0 - rhs.0) as u32
    }
}

impl From<usize> for Offset {
    /// The offset at `value`; a value of `u32::MAX` or more is cut to its low 32 bits.
    fn from(value: usize) -> (r: Offset) {
        Offset(value as u32)
    }
}

impl FromSpecImpl<usize> for Offset {
    open spec fn obeys_from_spec() -> bool {
        true
    }

    open spec fn from_spec(v: usize) -> Offset {
        Offset(v as u32)
    }
}

impl From<u32> for Offset {
    fn from(value: u32) -> (r: Offset) {
        Offset(value)
    }
}

impl FromSpecImpl<u32> for Offset {
    open spec fn obeys_from_spec() -> bool {
        true
    }

    open spec fn from_spec(v: u32) -> Offset {
        Offset(v)
    }
}

impl From<Offset> for u32 {
    fn from(offset: Offset) -> (r: u32) {
        offset.0
    }
}

impl FromSpecImpl<Offset> for u32 {
    open spec fn obeys_from_spec() -> bool {
        true
    }

    open spec fn from_spec(v: Offset) -> u32 {
        v.0
    }
}

impl From<Offset> for usize {
    fn from(offset: Offset) -> (r: usize) {
        offset.0 as usize
    }
}

impl FromSpecImpl<Offset> for usize {
    open spec fn obeys_from_spec() -> bool {
        true
    }

    open spec fn from_spec(v: Offset) -> usize {
        v.0 as usize
    }
}

/// Whether the bytes `start..end` of `text` are a whole run of characters.
pub open spec fn is_char_range(text: Seq<char>, start: int, end: int) -> bool {
    let bytes = vstd::utf8::encode_utf8(text);
    &&& 0 <= start <= end <= bytes.len()
    &&& is_char_boundary(bytes, start)
    &&& is_char_boundary(bytes, end)
}

/// A character boundary stays one when the bytes before an earlier boundary are cut off.
proof fn lemma_boundary_after_split(bytes: Seq<u8>, start: int, end: int)
    requires
        vstd::utf8::valid_utf8(bytes),
        0 <= start <= end <= bytes.len(),
        is_char_boundary(bytes, start),
        is_char_boundary(bytes, end),
    ensures
        vstd::utf8::valid_utf8(bytes.subrange(start, bytes.len() as int)),
        is_char_boundary(bytes.subrange(start, bytes.len() as int), end - start),
{
    let rest = bytes.subrange(start, bytes.len() as int);
    vstd::utf8::valid_utf8_split(bytes, start);
    if end < bytes.len() {
        vstd::utf8::is_char_boundary_iff_not_is_continuation_byte(bytes, end);
        vstd::utf8::is_char_boundary_iff_not_is_continuation_byte(rest, end - start);
        assert(rest[end - start] == bytes[end]);
    } else {
        vstd::utf8::is_char_boundary_start_end_of_seq(rest);
    }
}

/// A span of bytes within a given input file.
#[derive(Debug, PartialEq)]
pub struct FileSpan {
    pub input_file: InputFile,
    pub start: Offset,
    pub end: Offset,
}

impl FileSpan {
    /// The text that the span covers.
    pub fn snippet(&self) -> (r: &str)
        requires
            is_char_range(self.input_file.source_text@, self.start.0 as int, self.end.0 as int),
        ensures
            r.spec_bytes() == vstd::utf8::encode_utf8(self.input_file.source_text@).subrange(
                self.start.0 as int,
                self.end.0 as int,
            ),
    {
        let text = self.input_file.source_text.as_str();
        proof {
            vstd::utf8::encode_utf8_valid_utf8(text@);
        }
        let start: usize = usize::from(self.start);
        let end: usize = usize::from(self.end);
        let (_, rest) = text.split_at(start);
        proof {
            lemma_boundary_after_split(text.spec_bytes(), start as int, end as int);
        }
        let (mid, _) = rest.split_at(end - start);
        proof {
            let bytes = text.spec_bytes();
            assert(mid.spec_bytes() =~= bytes.subrange(start as int, end as int));
        }
        mid
    }

    /// True if the given byte offset falls within this span.
    pub fn contains(&self, offset: Offset) -> (r: bool)
        ensures
            r == (self.start.0 <= offset.0 && offset.0 < self.end.0),
    {
        self.start.0 <= offset.0 && offset.0 < self.end.0
    }
}

/// A span of bytes `start..end`, not tied to a file.
#[derive(Debug, Clone, Copy, PartialEq, Eq, Structural)]
pub struct Span {
    pub start: Offset,
    pub end: Offset,
}

impl From<FileSpan> for Span {
    fn from(fs: FileSpan) -> (r: Span) {
        Span { start: fs.start, end: fs.end }
    }
}

impl FromSpecImpl<FileSpan> for Span {
    open spec fn obeys_from_spec() -> bool {
        true
    }

    open spec fn from_spec(v: FileSpan) -> Span {
        Span { start: v.start, end: v.end }
    }
}

impl Span {
    /// How a span is shown for debugging: `(start..end)`.
    pub fn debug_text(&self) -> (r: String)
        ensures
            r@ == "("@ + crate::text::decimal_text(self.start.0 as nat) + ".."@ + crate::text::decimal_text(self.end.0 as nat) + ")"@,
    {
        let mut r = String::from_str("(");
        r.append(crate::text::decimal(self.start.0 as usize).as_str());
        r.append("..");
        r.append(crate::text::decimal(self.end.0 as usize).as_str());
        r.append(")");
        r
    }

    /// The span from `start` to `end`.
    pub fn from(start: Offset, end: Offset) -> (r: Self)
        requires
            start.0 <= end.0,
        ensures
            r.start == start,
            r.end == end,
    {
        Span { start, end }
    }

    /// The span within the file of `anchored`.
    pub fn anchor_to<A: Anchored>(&self, anchored: A) -> (r: FileSpan)
        ensures
            r.input_file@ == anchored.anchor(),
            r.start == self.start,
            r.end == self.end,
    {
        let input_file = anchored.input_file();
        FileSpan { input_file, start: self.start, end: self.end }
    }

    /// The text that the span covers in the file of `anchored`.
    pub fn snippet<A: Anchored>(&self, anchored: A) -> (r: String)
        requires
            is_char_range(anchored.anchor().source_text, self.start.0 as int, self.end.0 as int),
        ensures
            vstd::utf8::encode_utf8(r@) == vstd::utf8::encode_utf8(anchored.anchor().source_text).subrange(
                self.start.0 as int,
                self.end.0 as int,
            ),
    {
        let fs = self.anchor_to(anchored);
        let s = fs.snippet();
        s.to_owned()
    }

    /// A 0-length span at the start of this span.
    pub fn span_at_start(&self) -> (r: Span)
        ensures
            r.start == self.start,
            r.end == self.start,
    {
        Span { start: self.start, end: self.start }
    }

    pub fn zero() -> (r: Self)
        ensures
            r.start.0 == 0,
            r.end.0 == 0,
    {
        Span { start: Offset(0), end: Offset(0) }
    }

    /// The number of bytes in the span.
    pub fn len(self) -> (r: u32)
        requires
            self.start.0 <= self.end.0,
        ensures
            r == self.end.0 - self.start.0,
    {
        self.end - self.start
    }

    pub fn is_empty(self) -> (r: bool)
        requires
            self.start.0 <= self.end.0,
        ensures
            r == (self.start.0 == self.end.0),
    {
        self.len() == 0
    }

    /// The span from the start of this span to the end of `other`.
    pub fn to(self, other: Span) -> (r: Span)
        requires
            self.start.0 <= other.start.0,
            other.end.0 >= self.end.0,
        ensures
            r.start == self.start,
            r.end == other.end,
    {
        Span { start: self.start, end: other.end }
    }
}

/// Moving an offset forward by `n` bytes and measuring the distance back gives `n`.
pub proof fn lemma_offset_add_sub(o: Offset, n: u32)
    requires
        <Offset as AddSpec<u32>>::add_req(o, n),
    ensures
        <Offset as SubSpec<Offset>>::sub_req(<Offset as AddSpec<u32>>::add_spec(o, n), o),
        <Offset as SubSpec<Offset>>::sub_spec(<Offset as AddSpec<u32>>::add_spec(o, n), o) == n,
{
}

/// A position made from 1-based numbers gives those numbers back.
pub proof fn lemma_line_column_one_based(line1: u32, column1: u32)
    requires
        line1 > 0,
        column1 > 0,
    ensures
        (LineColumn { line0: (line1 - 1) as u32, column0: (column1 - 1) as u32 }).line0 + 1 == line1,
        (LineColumn { line0: (line1 - 1) as u32, column0: (column1 - 1) as u32 }).column0 + 1 == column1,
{
}

} // verus!
