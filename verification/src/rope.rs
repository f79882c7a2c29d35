//! The rope that hosts the text of a document, and the conversion of
//! positions to byte offsets through it.
//!
//! The rope is `ropey::Rope`. Where its lines begin is named here, not
//! computed: the rope counts lines by its own rules for line breaks.
//! Characters are counted as UTF-8 has them.

use crate::protocol::Position;
use crate::text::is_continuation;
use vstd::prelude::*;
use vstd::string::StringSliceAdditionalSpecFns;

verus! {

/// `ropey::Rope`, a rope of UTF-8 text. Nothing inside it is visible here.
#[verifier::external_type_specification]
#[verifier::external_body]
pub struct ExRope(ropey::Rope);

/// The text that a rope holds, as UTF-8.
pub uninterp spec fn rope_text(rope: ropey::Rope) -> Seq<u8>;

/// The number of lines that a rope counts in a text.
pub uninterp spec fn rope_line_count(text: Seq<u8>) -> int;

/// The byte offset at which a rope lets line `line` of a text start.
pub uninterp spec fn rope_line_start(text: Seq<u8>, line: int) -> int;

/// The line on which a rope places byte `byte` of a text.
pub uninterp spec fn rope_line_of(text: Seq<u8>, byte: int) -> int;

/// The number of characters of a UTF-8 text: the number of its bytes that
/// begin a character.
pub open spec fn character_count(text: Seq<u8>) -> int
    decreases text.len(),
{
    if text.len() == 0 {
        0
    } else if is_continuation(text.last()) {
        character_count(text.drop_last())
    } else {
        character_count(text.drop_last()) + 1
    }
}

/// The index of the character with which a rope lets line `line` of a text
/// start: the number of characters before the byte at which the line starts.
pub open spec fn rope_line_first_char(text: Seq<u8>, line: int) -> int {
    character_count(text.take(rope_line_start(text, line)))
}

/// Calls `ropey::Rope::from_str`: the rope holds the text it was built from.
#[verifier::external_body]
pub(crate) fn rope_from_str(text: &str) -> (rope: ropey::Rope)
    ensures
        rope_text(rope) == text.spec_bytes(),
{
    ropey::Rope::from_str(text)
}

/// Calls `String::from(&Rope)`, which joins the chunks of the rope: the
/// bytes returned are the text that the rope holds.
#[verifier::external_body]
pub(crate) fn rope_bytes(rope: &ropey::Rope) -> (text: Vec<u8>)
    ensures
        text@ == rope_text(*rope),
{
    String::from(rope).into_bytes()
}

/// Calls `ropey::Rope::len_lines`: the number of line breaks plus one.
#[verifier::external_body]
pub(crate) fn rope_len_lines(rope: &ropey::Rope) -> (n: usize)
    ensures
        n == rope_line_count(rope_text(*rope)),
        n >= 1,
{
    rope.len_lines()
}

/// Calls `ropey::Rope::line_to_byte`, which panics for a line beyond the
/// line count. The start of a line lies inside the text; the line one past
/// the last starts at the end of the text.
#[verifier::external_body]
pub(crate) fn rope_line_to_byte(rope: &ropey::Rope, line: usize) -> (byte: usize)
    requires
        line <= rope_line_count(rope_text(*rope)),
    ensures
        byte == rope_line_start(rope_text(*rope), line as int),
        byte <= rope_text(*rope).len(),
{
    rope.line_to_byte(line)
}

/// Calls `ropey::Rope::byte_to_line`, which panics for an offset beyond the
/// length of the text. The line returned exists, and it starts at or before
/// the offset.
#[verifier::external_body]
pub(crate) fn rope_byte_to_line(rope: &ropey::Rope, byte: usize) -> (line: usize)
    requires
        byte <= rope_text(*rope).len(),
    ensures
        line == rope_line_of(rope_text(*rope), byte as int),
        line < rope_line_count(rope_text(*rope)),
        rope_line_start(rope_text(*rope), line as int) <= byte,
{
    rope.byte_to_line(byte)
}

/// Calls `ropey::Rope::len_chars`: the number of characters of the text.
/// The text of a rope is UTF-8, so these are its bytes that begin a
/// character.
#[verifier::external_body]
pub(crate) fn rope_len_chars(rope: &ropey::Rope) -> (n: usize)
    ensures
        n == character_count(rope_text(*rope)),
{
    rope.len_chars()
}

/// Calls `ropey::Rope::line_to_char`, which panics for a line beyond the
/// line count: the index of the character at which the line starts, which
/// is the number of characters before the byte at which it starts, and no
/// more than the text has.
#[verifier::external_body]
pub(crate) fn rope_line_to_char(rope: &ropey::Rope, line: usize) -> (index: usize)
    requires
        line <= rope_line_count(rope_text(*rope)),
    ensures
        index == rope_line_first_char(rope_text(*rope), line as int),
        index <= character_count(rope_text(*rope)),
{
    rope.line_to_char(line)
}

/// The byte offset of a position in a text: the start of the position's
/// line plus its column. There is none for a line beyond the last, or where
/// the sum does not fit a `usize`.
pub open spec fn byte_offset_of(text: Seq<u8>, pos: Position) -> Option<usize> {
    if pos.line >= rope_line_count(text) {
        None
    } else if rope_line_start(text, pos.line as int) + pos.character > usize::MAX {
        None
    } else {
        Some((rope_line_start(text, pos.line as int) + pos.character) as usize)
    }
}

/// Convert a position to a byte offset in a rope.
pub fn lsp_position_to_byte_offset(rope: &ropey::Rope, pos: Position) -> (r: Option<usize>)
    ensures
        r == byte_offset_of(rope_text(*rope), pos),
{
    let line = pos.line as usize;
    if line >= rope_len_lines(rope) {
        return None;
    }
    let line_start = rope_line_to_byte(rope, line);
    let col = pos.character as usize;
    if col > usize::MAX - line_start {
        return None;
    }
    Some(line_start + col)
}

/// The point at which a rope places a byte offset of a text: its line, and
/// its distance from the start of that line.
pub open spec fn point_of_offset(text: Seq<u8>, byte: usize) -> crate::syntax::Point {
    crate::syntax::Point {
        row: rope_line_of(text, byte as int) as usize,
        column: (byte - rope_line_start(text, rope_line_of(text, byte as int))) as usize,
    }
}

/// Convert a byte offset in a rope to a point.
pub(crate) fn byte_offset_to_point(rope: &ropey::Rope, byte: usize) -> (r: crate::syntax::Point)
    requires
        byte <= rope_text(*rope).len(),
    ensures
        r == point_of_offset(rope_text(*rope), byte),
{
    let line = rope_byte_to_line(rope, byte);
    let start = rope_line_to_byte(rope, line);
    crate::syntax::Point { row: line, column: byte - start }
}

} // verus!
