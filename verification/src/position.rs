//! Pure line/column arithmetic over byte offsets into a source buffer.
//!
//! All functions work on raw byte offsets, matching the span boundaries used
//! by the traversal; no character-counting decoder may be substituted, or
//! alignment silently corrupts for non-ASCII content.

use vstd::prelude::*;

verus! {

/// Number of line terminators (`\n`, byte 10) strictly before `pos`, 0-indexed.
pub open spec fn spec_line_number(text: Seq<u8>, pos: int) -> int
    decreases pos,
{
    if pos <= 0 {
        0
    } else {
        spec_line_number(text, pos - 1) + if text[pos - 1] == 10u8 {
            1int
        } else {
            0int
        }
    }
}

/// Byte offset of the start of the line that `pos` lies on.
pub open spec fn spec_line_start(text: Seq<u8>, pos: int) -> int
    decreases pos,
{
    if pos <= 0 {
        0
    } else if text[pos - 1] == 10u8 {
        pos
    } else {
        spec_line_start(text, pos - 1)
    }
}

/// 0-indexed distance from `pos` back to the start of its line.
pub open spec fn spec_column_number(text: Seq<u8>, pos: int) -> int {
    pos - spec_line_start(text, pos)
}

/// 0-indexed indent level of a column: whole indent units that fit in it.
pub open spec fn spec_indent_level(column: int, indent_width: int) -> int {
    column / indent_width
}

pub proof fn lemma_line_start_bounds(text: Seq<u8>, pos: int)
    requires
        pos >= 0,
    ensures
        0 <= spec_line_start(text, pos) <= pos,
    decreases pos,
{
    if pos > 0 && text[pos - 1] != 10u8 {
        lemma_line_start_bounds(text, pos - 1);
    }
}

pub proof fn lemma_line_number_bounds(text: Seq<u8>, pos: int)
    requires
        pos >= 0,
    ensures
        0 <= spec_line_number(text, pos) <= pos,
    decreases pos,
{
    if pos > 0 {
        lemma_line_number_bounds(text, pos - 1);
    }
}

/// 0-indexed line number of the byte offset `pos`.
pub fn get_line_number(text: &[u8], pos: usize) -> (r: u32)
    requires
        pos <= text@.len(),
        pos <= u32::MAX,
    ensures
        r == spec_line_number(text@, pos as int),
{
    let mut count: u32 = 0;
    let mut i: usize = 0;
    proof {
        lemma_line_number_bounds(text@, pos as int);
    }
    while i < pos
        invariant
            i <= pos <= text@.len(),
            pos <= u32::MAX,
            count == spec_line_number(text@, i as int),
            count <= i,
        decreases pos - i,
    {
        if text[i] == 10u8 {
            count = count + 1;
        }
        i = i + 1;
    }
    count
}

/// 0-indexed column number of the byte offset `pos`.
pub fn get_column_number(text: &[u8], pos: usize) -> (r: u32)
    requires
        pos <= text@.len(),
        pos <= u32::MAX,
    ensures
        r == spec_column_number(text@, pos as int),
{
    let mut start: usize = 0;
    let mut i: usize = 0;
    while i < pos
        invariant
            i <= pos <= text@.len(),
            start == spec_line_start(text@, i as int),
            start <= i,
        decreases pos - i,
    {
        if text[i] == 10u8 {
            start = i + 1;
        }
        i = i + 1;
    }
    (pos - start) as u32
}

/// Converts an absolute column into whole indent units.
pub fn get_indent_level(column: usize, indent_width: u8) -> (r: u32)
    requires
        indent_width > 0,
        column <= u32::MAX,
    ensures
        r == spec_indent_level(column as int, indent_width as int),
{
    (column as u32) / (indent_width as u32)
}

} // verus!
