//! Places in files as editors give them.
use crate::index;
use crate::index::IndexSnapshot;
use crate::line_index;
use crate::line_index::LineIndex;
use crate::text;
use crate::ByteRange;
use vstd::prelude::*;

verus! {

/// A line and a UTF-16 column, both from zero.
#[derive(Clone, Copy, Debug, PartialEq, Eq, Structural)]
pub struct Position {
    pub line: u32,
    pub character: u32,
}

/// From one position up to another.
#[derive(Clone, Copy, Debug, PartialEq, Eq, Structural)]
pub struct Range {
    pub start: Position,
    pub end: Position,
}

/// A range in a file.
#[derive(Debug, PartialEq, Eq)]
pub struct Location {
    pub uri: String,
    pub range: Range,
}

/// What a `Location` holds.
pub struct LocationView {
    pub uri: Seq<char>,
    pub range: Range,
}

impl DeepView for Location {
    type V = LocationView;

    open spec fn deep_view(&self) -> LocationView {
        LocationView { uri: self.uri@, range: self.range }
    }
}

/// The position of an offset in a text.
pub open spec fn position_at(text: Seq<char>, offset: int) -> Option<Position> {
    match line_index::position_of(line_index::line_starts(text), text, offset) {
        Some((line, column)) => Some(Position { line: line as u32, character: column as u32 }),
        None => None,
    }
}

/// The offset of a position in a text.
pub open spec fn offset_at(text: Seq<char>, position: Position) -> Option<int> {
    line_index::offset_of(
        line_index::line_starts(text),
        text,
        position.line as int,
        position.character as int,
    )
}

/// The positions of a range of bytes in a text.
pub open spec fn range_at(text: Seq<char>, range: (usize, usize)) -> Option<Range> {
    match (position_at(text, range.0 as int), position_at(text, range.1 as int)) {
        (Some(start), Some(end)) => Some(Range { start, end }),
        _ => None,
    }
}

/// The place of a range of bytes in a file.
pub open spec fn location_of(
    snapshot: index::SnapshotView,
    uri: Seq<char>,
    range: (usize, usize),
) -> Option<LocationView> {
    match snapshot.file(uri) {
        None => None,
        Some(file) => match range_at(file.text, range) {
            Some(range) => Some(LocationView { uri, range }),
            None => None,
        },
    }
}

/// The offset of a position in a file.
pub open spec fn offset_in(
    snapshot: index::SnapshotView,
    uri: Seq<char>,
    position: Position,
) -> Option<int> {
    match snapshot.file(uri) {
        Some(file) => offset_at(file.text, position),
        None => None,
    }
}

/// The position of an offset in a text.
pub fn find_position(text: &str, index: &LineIndex, offset: usize) -> (position: Option<Position>)
    requires
        index@ == line_index::line_starts(text@),
    ensures
        position == position_at(text@, offset as int),
{
    let size: usize = text::size(text);
    assert(text::byte_len(text@) == size);
    proof {
        if text::index_at(text@, offset as int) is Some {
            line_index::position_and_back(text@, offset as int);
        }
    }
    match index.position(text, offset) {
        Some((line, character)) => Some(Position { line, character }),
        None => None,
    }
}

/// The offset of a position in a text.
pub fn find_offset(text: &str, index: &LineIndex, position: Position) -> (offset: Option<usize>)
    requires
        index@ == line_index::line_starts(text@),
    ensures
        match offset {
            Some(offset) => offset_at(text@, position) == Some(offset as int),
            None => offset_at(text@, position) is None,
        },
{
    let size: usize = text::size(text);
    assert(text::byte_len(text@) == size);
    proof {
        if position.line < index@.len() {
            line_index::lines_fit(text@, position.line as int);
        }
    }
    index.offset(text, position.line, position.character)
}

/// The positions of a range of bytes in a text.
pub fn find_range(text: &str, range: &ByteRange) -> (found: Option<Range>)
    ensures
        found == range_at(text@, range.deep_view()),
{
    let index = LineIndex::new(text);
    match find_position(text, &index, range.0.start) {
        None => None,
        Some(start) => match find_position(text, &index, range.0.end) {
            None => None,
            Some(end) => Some(Range { start, end }),
        },
    }
}

/// The place of a range of bytes in a file.
pub fn location(snapshot: &IndexSnapshot, uri: &str, range: &ByteRange) -> (found: Option<Location>)
    ensures
        found.deep_view() == location_of(snapshot.deep_view(), uri@, range.deep_view()),
{
    match snapshot.text(uri) {
        None => None,
        Some(text) => match find_range(text, range) {
            None => None,
            Some(range) => Some(Location { uri: uri.to_owned(), range }),
        },
    }
}

/// The offset of a position in a file.
pub fn position_offset(snapshot: &IndexSnapshot, uri: &str, position: Position) -> (offset: Option<
    usize,
>)
    ensures
        match offset {
            Some(offset) => offset_in(snapshot.deep_view(), uri@, position) == Some(offset as int),
            None => offset_in(snapshot.deep_view(), uri@, position) is None,
        },
{
    match snapshot.text(uri) {
        None => None,
        Some(text) => find_offset(text, &LineIndex::new(text), position),
    }
}

/// In a text whose size can be written in 32 bits, every character boundary has a position, and the
/// position has that offset.
pub proof fn position_and_back(text: Seq<char>, offset: int)
    requires
        text::byte_len(text) <= u32::MAX,
        text::index_at(text, offset) is Some,
    ensures
        position_at(text, offset) matches Some(position) && offset_at(text, position) == Some(
            offset,
        ),
{
    line_index::position_and_back(text, offset);
    line_index::positions_are_small(text, offset);
}

} // verus!
