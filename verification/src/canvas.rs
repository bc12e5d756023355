//! The character-cell buffer that patterns are painted on.

use crate::geometry::Rect;
use ratatui::buffer::Buffer;
use vstd::prelude::*;

verus! {

/// The buffer of `ratatui`, taken as it is: a grid of cells over an area,
/// each cell with a symbol and a style.
#[verifier::external_type_specification]
#[verifier::external_body]
pub struct ExBuffer(ratatui::buffer::Buffer);

/// What a buffer shows: for each position `(x, y)` at which the buffer holds a
/// cell, the characters of that cell's symbol.
pub uninterp spec fn buffer_symbols(buf: Buffer) -> Map<(int, int), Seq<char>>;

/// The buffer holds a cell at every position of `area`.
pub open spec fn covers(buf: Buffer, area: Rect) -> bool {
    forall|x: int, y: int|
        area.spec_contains(x, y) ==> #[trigger] buffer_symbols(buf).dom().contains((x, y))
}

/// Writes through the buffer's index operator and `Cell::set_char` of
/// `ratatui`: the symbol of the cell at `(x, y)` becomes the single character
/// `glyph`. Indexing finds the cell by its position alone, so no other cell
/// changes, and of the cell itself only the symbol does. Indexing panics
/// where the buffer holds no cell, which the precondition rules out.
#[verifier::external_body]
pub(crate) fn set_char(buf: &mut Buffer, x: u16, y: u16, glyph: char)
    requires
        buffer_symbols(*old(buf)).dom().contains((x as int, y as int)),
    ensures
        buffer_symbols(*final(buf)) == buffer_symbols(*old(buf)).insert(
            (x as int, y as int),
            seq![glyph],
        ),
{
    buf[(x, y)].set_char(glyph);
}

} // verus!
