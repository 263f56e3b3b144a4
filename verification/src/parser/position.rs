//! Source positions, computed from a byte offset with a line/column table.

use line_col::LineColLookup;
use vstd::prelude::*;
use vstd::string::{StringExecFns, StringSliceAdditionalSpecFns};

verus! {

/// Mathematical model of a [`Position`].
pub struct PositionView {
    pub file: Seq<char>,
    pub line: usize,
    pub column: usize,
}

/// A place in a source file: path, 1-based line and 1-based column.
#[derive(Debug, PartialEq, Eq, Hash)]
pub struct Position {
    pub file: String,
    pub line: usize,
    pub column: usize,
}

impl View for Position {
    type V = PositionView;

    open spec fn view(&self) -> PositionView {
        PositionView { file: self.file@, line: self.line, column: self.column }
    }
}

impl DeepView for Position {
    type V = PositionView;

    open spec fn deep_view(&self) -> PositionView {
        self@
    }
}

impl Clone for Position {
    fn clone(&self) -> (r: Self)
        ensures
            r == *self,
    {
        Position { file: self.file.clone(), line: self.line, column: self.column }
    }
}

/// The byte value of a line feed.
pub const LINE_FEED: u8 = 10;

/// Number of line feeds among the first `index` bytes of `text`.
pub open spec fn newlines_before(text: Seq<u8>, index: int) -> nat
    decreases index,
{
    if index <= 0 {
        0
    } else if text[index - 1] == LINE_FEED {
        newlines_before(text, index - 1) + 1
    } else {
        newlines_before(text, index - 1)
    }
}

/// Offset of the first byte of the line that holds byte `index`: just behind
/// the last line feed before `index`, or 0 when there is none.
pub open spec fn line_start(text: Seq<u8>, index: int) -> int
    decreases index,
{
    if index <= 0 {
        0
    } else if text[index - 1] == LINE_FEED {
        index
    } else {
        line_start(text, index - 1)
    }
}

/// 1-based line of byte `index` in `text`.
pub open spec fn line_at(text: Seq<u8>, index: int) -> int {
    newlines_before(text, index) as int + 1
}

/// 1-based column of byte `index` in `text`, counted in bytes.
pub open spec fn column_at(text: Seq<u8>, index: int) -> int {
    index - line_start(text, index) + 1
}

/// `line_col::LineColLookup`, the table that turns byte offsets into
/// line and column numbers. Its contents are not visible to the verifier.
#[verifier::external_type_specification]
#[verifier::external_body]
pub struct ExLineColLookup<'source>(LineColLookup<'source>);

/// The bytes of the text that a lookup table was built from.
pub uninterp spec fn lookup_source(lookup: &LineColLookup) -> Seq<u8>;

/// `LineColLookup::new` keeps the text it is given; nothing else is claimed.
pub assume_specification<'source>[ LineColLookup::<'source>::new ](src: &'source str) -> (r:
    LineColLookup<'source>)
    ensures
        lookup_source(&r) == src.spec_bytes(),
;

/// Calls `LineColLookup::get`, which panics when `index` lies behind the end
/// of the text, so that is excluded. Otherwise the line is one more than the
/// number of line feeds before `index`, and the column is the distance in
/// bytes from the start of that line, plus one.
#[verifier::external_body]
fn line_and_column(lookup: &LineColLookup, index: usize) -> (r: (usize, usize))
    requires
        index <= lookup_source(lookup).len(),
    ensures
        r.0 == line_at(lookup_source(lookup), index as int),
        r.1 == column_at(lookup_source(lookup), index as int),
{
    lookup.get(index)
}

impl Position {
    /// The model of the position of byte `offset` in `text`, read from `file`.
    pub open spec fn spec_new(file: Seq<char>, text: Seq<u8>, offset: usize) -> PositionView {
        PositionView {
            file,
            line: line_at(text, offset as int) as usize,
            column: column_at(text, offset as int) as usize,
        }
    }

    /// The position of byte `offset` in the text behind `lookup`, which was
    /// read from `file`.
    pub fn new(file: &str, lookup: &LineColLookup, offset: usize) -> (r: Position)
        requires
            offset <= lookup_source(lookup).len(),
        ensures
            r@ == Self::spec_new(file@, lookup_source(lookup), offset),
            r@.line == line_at(lookup_source(lookup), offset as int),
            r@.column == column_at(lookup_source(lookup), offset as int),
    {
        let (line, column) = line_and_column(lookup, offset);
        Position { file: String::from_str(file), line, column }
    }

    /// The position of byte `offset` in `text`, or `None` when `offset` lies
    /// behind the end of `text`.
    pub fn locate(file: &str, text: &str, offset: usize) -> (r: Option<Position>)
        ensures
            offset > text.spec_bytes().len() ==> r is None,
            offset <= text.spec_bytes().len() ==> r is Some && r->Some_0@ == Self::spec_new(
                file@,
                text.spec_bytes(),
                offset,
            ) && r->Some_0@.line == line_at(text.spec_bytes(), offset as int) && r->Some_0@.column
                == column_at(text.spec_bytes(), offset as int),
    {
        if offset <= text.as_bytes().len() {
            let lookup = LineColLookup::new(text);
            Some(Position::new(file, &lookup, offset))
        } else {
            None
        }
    }
}

} // verus!
