//! Positions and ranges: the editor's zero-based line/column points, the
//! protocol's line/UTF-16 positions, and one recorded buffer edit.
use vstd::prelude::*;

verus! {

/// A zero-based line and character column in an editor buffer.
#[derive(Debug, Clone, Copy, PartialEq, Eq, Structural)]
pub struct TextPoint {
    pub line: usize,
    pub column: usize,
}

impl TextPoint {
    pub fn new(line: usize, column: usize) -> (p: Self)
        ensures
            p.line == line,
            p.column == column,
    {
        TextPoint { line, column }
    }
}

/// Lexicographic order on points: by line, then by column.
pub open spec fn point_le(a: TextPoint, b: TextPoint) -> bool {
    a.line < b.line || (a.line == b.line && a.column <= b.column)
}

pub open spec fn point_lt(a: TextPoint, b: TextPoint) -> bool {
    a.line < b.line || (a.line == b.line && a.column < b.column)
}

pub fn point_le_exec(a: TextPoint, b: TextPoint) -> (r: bool)
    ensures
        r == point_le(a, b),
{
    a.line < b.line || (a.line == b.line && a.column <= b.column)
}

pub fn point_lt_exec(a: TextPoint, b: TextPoint) -> (r: bool)
    ensures
        r == point_lt(a, b),
{
    a.line < b.line || (a.line == b.line && a.column < b.column)
}

/// A range between two points of a buffer.
#[derive(Debug, Clone, Copy, PartialEq, Eq, Structural)]
pub struct TextRange {
    pub start: TextPoint,
    pub end: TextPoint,
}

impl TextRange {
    pub fn new(start: TextPoint, end: TextPoint) -> (r: Self)
        ensures
            r.start == start,
            r.end == end,
    {
        TextRange { start, end }
    }

    pub fn start(&self) -> (p: TextPoint)
        ensures
            p == self.start,
    {
        self.start
    }

    pub fn end(&self) -> (p: TextPoint)
        ensures
            p == self.end,
    {
        self.end
    }

    /// The same range with its endpoints ordered.
    pub open spec fn normalized_spec(self) -> TextRange {
        if point_le(self.start, self.end) {
            self
        } else {
            TextRange { start: self.end, end: self.start }
        }
    }

    pub fn normalized(&self) -> (r: TextRange)
        ensures
            r == self.normalized_spec(),
    {
        if point_le_exec(self.start, self.end) {
            *self
        } else {
            TextRange { start: self.end, end: self.start }
        }
    }
}

/// A zero-based protocol position: line and UTF-16 code-unit offset.
#[derive(Debug, Clone, Copy, PartialEq, Eq, Structural)]
pub struct LspPosition {
    pub line: u32,
    pub character: u32,
}

/// A protocol range.
#[derive(Debug, Clone, Copy, PartialEq, Eq, Structural)]
pub struct LspRange {
    pub start: LspPosition,
    pub end: LspPosition,
}

/// One edit recorded by the editor buffer between two revisions, with byte
/// offsets into the text before the edit (`start_byte`, `old_end_byte`) and
/// after it (`new_end_byte`).
#[derive(Debug, Clone, Copy, PartialEq, Eq, Structural)]
pub struct TextEdit {
    pub before_revision: u64,
    pub after_revision: u64,
    pub start_byte: usize,
    pub old_end_byte: usize,
    pub new_end_byte: usize,
    pub start_position: TextPoint,
    pub old_end_position: TextPoint,
    pub new_end_position: TextPoint,
}

/// The protocol position with the point's line and column, each truncated to
/// 32 bits as an `as u32` cast does.
pub open spec fn lsp_position_of_point(p: TextPoint) -> LspPosition {
    LspPosition { line: p.line as u32, character: p.column as u32 }
}

pub fn lsp_position_from_text_point(point: TextPoint) -> (r: LspPosition)
    ensures
        r == lsp_position_of_point(point),
{
    LspPosition { line: point.line as u32, character: point.column as u32 }
}

pub fn lsp_range_from_text_range(range: TextRange) -> (r: LspRange)
    ensures
        r.start == lsp_position_of_point(range.start),
        r.end == lsp_position_of_point(range.end),
{
    LspRange {
        start: lsp_position_from_text_point(range.start),
        end: lsp_position_from_text_point(range.end),
    }
}

pub fn text_point_from_lsp_position(position: LspPosition) -> (r: TextPoint)
    ensures
        r.line == position.line,
        r.column == position.character,
{
    TextPoint { line: position.line as usize, column: position.character as usize }
}

pub fn text_range_from_lsp_range(range: LspRange) -> (r: TextRange)
    ensures
        r.start.line == range.start.line,
        r.start.column == range.start.character,
        r.end.line == range.end.line,
        r.end.column == range.end.character,
{
    TextRange {
        start: text_point_from_lsp_position(range.start),
        end: text_point_from_lsp_position(range.end),
    }
}

/// Whether a diagnostic covering `diagnostic_range` belongs to a request over
/// `request_range`: a point request matches every diagnostic whose range holds
/// the point (ends included); a span request matches overlapping diagnostics.
pub open spec fn diagnostic_matches_spec(diagnostic_range: TextRange, request_range: TextRange) -> bool {
    let d = diagnostic_range.normalized_spec();
    let r = request_range.normalized_spec();
    if r.start == r.end {
        point_le(d.start, r.start) && point_le(r.start, d.end)
    } else {
        point_lt(d.start, r.end) && point_lt(r.start, d.end)
    }
}

pub fn diagnostic_matches_request_range(diagnostic_range: TextRange, request_range: TextRange) -> (r: bool)
    ensures
        r == diagnostic_matches_spec(diagnostic_range, request_range),
{
    let diagnostic_range = diagnostic_range.normalized();
    let request_range = request_range.normalized();
    if request_range.start == request_range.end {
        let point = request_range.start;
        return point_le_exec(diagnostic_range.start, point) && point_le_exec(point, diagnostic_range.end);
    }
    point_lt_exec(diagnostic_range.start, request_range.end) && point_lt_exec(
        request_range.start,
        diagnostic_range.end,
    )
}

} // verus!
