//! Painting animated patterns onto a buffer.
//!
//! A pattern's state lives in continuous time; what reaches this module is
//! the state already sampled to whole numbers: one level per cell for a wave,
//! one scaled position per drop for rain. Choosing the glyphs, keeping every
//! write inside the area, and the order of the writes are decided here.

use crate::canvas::{buffer_symbols, covers, set_char};
use crate::geometry::Rect;
use ratatui::buffer::Buffer;
use std::time::Duration;
use vstd::prelude::*;

verus! {

/// The glyph that stands in where a glyph list has no entry.
pub const FALLBACK_GLYPH: char = ' ';

/// What a buffer shows, by position.
pub type Image = Map<(int, int), Seq<char>>;

/// `after` differs from `before` in cells of `area` at most: it holds the same
/// cells, and those outside the area show what they showed.
pub open spec fn painted_within(before: Image, after: Image, area: Rect) -> bool {
    &&& after.dom() == before.dom()
    &&& forall|x: int, y: int|
        before.dom().contains((x, y)) && !area.spec_contains(x, y) ==> #[trigger] after[(x, y)]
            == before[(x, y)]
}

/// An animated pattern: a state that moves on with time and can be painted
/// onto an area of a buffer.
///
/// Painting does not change the pattern, and it touches no cell outside the
/// area it is given. Cells of the area that the pattern does not paint stay
/// as they are.
pub trait Pattern {
    /// Moves the pattern's state on by `delta` of animation time.
    fn update(&mut self, delta: Duration);

    /// Paints the pattern in its current state onto `area`.
    fn render(&self, area: Rect, buf: &mut Buffer)
        requires
            covers(*old(buf), area),
        ensures
            painted_within(buffer_symbols(*old(buf)), buffer_symbols(*final(buf)), area),
    ;
}

/// The glyph at `index` of `glyphs`, or the fallback glyph where there is none.
pub open spec fn spec_glyph_at(glyphs: Seq<char>, index: int) -> char {
    if 0 <= index < glyphs.len() {
        glyphs[index]
    } else {
        FALLBACK_GLYPH
    }
}

/// The glyph of a ramp for a level: levels run through the ramp again and
/// again, and a missing level counts as level 0.
pub open spec fn spec_ramp_glyph(ramp: Seq<char>, level: Option<usize>) -> char {
    match level {
        Some(l) if ramp.len() > 0 => ramp[l as int % ramp.len() as int],
        _ => spec_glyph_at(ramp, 0),
    }
}

/// The place of the cell `(x, y)` of `area` in a list of its cells that goes
/// row by row from the top and from left to right within a row.
pub open spec fn cell_index(area: Rect, x: int, y: int) -> int {
    (y - area.y) * area.width + (x - area.x)
}

/// The cell `(px, py)` of `area` comes before `(x, y)` when the area is gone
/// through row by row.
spec fn comes_before(area: Rect, px: int, py: int, x: int, y: int) -> bool {
    area.spec_contains(px, py) && (py < y || (py == y && px < x))
}

/// `before` with the cells of `area` that come before `(x, y)` painted by
/// their levels.
spec fn wave_image_up_to(
    before: Image,
    area: Rect,
    ramp: Seq<char>,
    levels: Seq<Option<usize>>,
    x: int,
    y: int,
) -> Image {
    Map::new(
        |p: (int, int)| before.dom().contains(p),
        |p: (int, int)|
            if comes_before(area, p.0, p.1, x, y) {
                seq![spec_ramp_glyph(ramp, levels[cell_index(area, p.0, p.1)])]
            } else {
                before[p]
            },
    )
}

/// `before` with every cell of `area` painted by its level; all other cells
/// as they were.
pub open spec fn wave_image(
    before: Image,
    area: Rect,
    ramp: Seq<char>,
    levels: Seq<Option<usize>>,
) -> Image {
    Map::new(
        |p: (int, int)| before.dom().contains(p),
        |p: (int, int)|
            if area.spec_contains(p.0, p.1) {
                seq![spec_ramp_glyph(ramp, levels[cell_index(area, p.0, p.1)])]
            } else {
                before[p]
            },
    )
}

/// The glyph at `index` of `glyphs`, or the fallback glyph where there is none.
pub fn glyph_at(glyphs: &Vec<char>, index: usize) -> (glyph: char)
    ensures
        glyph == spec_glyph_at(glyphs@, index as int),
{
    if index < glyphs.len() {
        glyphs[index]
    } else {
        FALLBACK_GLYPH
    }
}

/// The glyph of a ramp for a level.
pub fn ramp_glyph(ramp: &Vec<char>, level: Option<usize>) -> (glyph: char)
    ensures
        glyph == spec_ramp_glyph(ramp@, level),
{
    match level {
        Some(l) => {
            if ramp.len() > 0 {
                ramp[l % ramp.len()]
            } else {
                FALLBACK_GLYPH
            }
        },
        None => glyph_at(ramp, 0),
    }
}

/// Paints a wave: every cell of `area` gets the ramp glyph of its level.
/// `levels` lists the levels of the cells of `area` row by row from the top,
/// `area.width` to a row.
pub fn paint_wave(area: Rect, ramp: &Vec<char>, levels: &Vec<Option<usize>>, buf: &mut Buffer)
    requires
        covers(*old(buf), area),
        levels@.len() == area.width * area.height,
    ensures
        buffer_symbols(*final(buf)) == wave_image(
            buffer_symbols(*old(buf)),
            area,
            ramp@,
            levels@,
        ),
        wave_image(buffer_symbols(*final(buf)), area, ramp@, levels@) == buffer_symbols(
            *final(buf),
        ),
        painted_within(buffer_symbols(*old(buf)), buffer_symbols(*final(buf)), area),
{
    let ghost before = buffer_symbols(*buf);
    let right: u16 = area.right();
    let bottom: u16 = area.bottom();
    let width: usize = area.width as usize;
    let mut y: u16 = area.top();
    assert(buffer_symbols(*buf) =~= wave_image_up_to(
        before,
        area,
        ramp@,
        levels@,
        area.x as int,
        y as int,
    ));
    while y < bottom
        invariant
            area.y <= y <= bottom,
            right == area.spec_right(),
            bottom == area.spec_bottom(),
            width == area.width,
            levels@.len() == area.width * area.height,
            forall|px: int, py: int|
                area.spec_contains(px, py) ==> #[trigger] before.dom().contains((px, py)),
            buffer_symbols(*buf) == wave_image_up_to(
                before,
                area,
                ramp@,
                levels@,
                area.x as int,
                y as int,
            ),
        decreases bottom - y,
    {
        let mut x: u16 = area.left();
        while x < right
            invariant
                area.y <= y < bottom,
                area.x <= x <= right,
                right == area.spec_right(),
                bottom == area.spec_bottom(),
                width == area.width,
                levels@.len() == area.width * area.height,
                forall|px: int, py: int|
                    area.spec_contains(px, py) ==> #[trigger] before.dom().contains((px, py)),
                buffer_symbols(*buf) == wave_image_up_to(
                    before,
                    area,
                    ramp@,
                    levels@,
                    x as int,
                    y as int,
                ),
            decreases right - x,
        {
            let row: usize = (y - area.y) as usize;
            let column: usize = (x - area.x) as usize;
            assert(0 <= row * width && row * width + column < area.width * area.height
                && area.width * area.height <= 0xFFFF * 0xFFFF) by (nonlinear_arith)
                requires
                    0 <= row < area.height <= 0xFFFF,
                    0 <= column < area.width <= 0xFFFF,
                    width == area.width,
            ;
            let index: usize = row * width + column;
            let glyph = ramp_glyph(ramp, levels[index]);
            assert(area.spec_contains(x as int, y as int));
            set_char(buf, x, y, glyph);
            assert(buffer_symbols(*buf) =~= wave_image_up_to(
                before,
                area,
                ramp@,
                levels@,
                x + 1,
                y as int,
            ));
            x += 1;
        }
        assert(buffer_symbols(*buf) =~= wave_image_up_to(
            before,
            area,
            ramp@,
            levels@,
            area.x as int,
            y + 1,
        ));
        y += 1;
    }
    assert(buffer_symbols(*buf) =~= wave_image(before, area, ramp@, levels@));
    proof {
        lemma_wave_idempotent(before, area, ramp@, levels@);
        lemma_wave_stays_within(before, area, ramp@, levels@);
    }
}

/// The place of the glyph for a drop's head on the bottom row.
pub const LANDED_GLYPH: usize = 0;

/// The place of the glyph for a drop's head in flight.
pub const HEAD_GLYPH: usize = 1;

/// The place of the glyph for a drop's trail.
pub const TRAIL_GLYPH: usize = 2;

/// A rain drop sampled for an area: its position scaled to the area's columns
/// and rows and rounded down. An axis on which the scaled position is not a
/// finite number has `None`.
#[derive(Clone, Copy, Debug, PartialEq, Eq, Structural)]
pub struct ScaledDrop {
    /// The scaled position across the area, counted in columns from its left edge.
    pub column: Option<i64>,
    /// The scaled position down the area, counted in rows from its top edge.
    pub row: Option<i64>,
}

/// How far from the area's first column (or row) a drop lands, on an axis
/// that has `extent` columns (or rows): its scaled position, but the first one
/// at least and the last one at most, and the first one where the position is
/// missing.
pub open spec fn spec_drop_offset(scaled: Option<i64>, extent: int) -> int {
    match scaled {
        Some(v) if v < 0 => 0,
        Some(v) if v < extent - 1 => v as int,
        Some(_) => extent - 1,
        None => 0,
    }
}

/// The cell of `area` that the head of `drop` lands in.
pub open spec fn spec_drop_cell(area: Rect, drop: ScaledDrop) -> (int, int) {
    (
        area.x + spec_drop_offset(drop.column, area.cell_columns()),
        area.y + spec_drop_offset(drop.row, area.cell_rows()),
    )
}

/// `image` with one drop painted over it: the head in the drop's cell, with
/// the landed glyph on the bottom row of `area` and the flight glyph above
/// it, and the trail in the cell above the head unless the head is on the top
/// row. An area without cells takes no drop.
pub open spec fn stamp(image: Image, area: Rect, glyphs: Seq<char>, drop: ScaledDrop) -> Image {
    if area.cell_columns() <= 0 || area.cell_rows() <= 0 {
        image
    } else {
        let (x, y) = spec_drop_cell(area, drop);
        let head = spec_glyph_at(
            glyphs,
            if y == area.spec_bottom() - 1 {
                LANDED_GLYPH as int
            } else {
                HEAD_GLYPH as int
            },
        );
        let with_head = image.insert((x, y), seq![head]);
        if y > area.y {
            with_head.insert((x, y - 1), seq![spec_glyph_at(glyphs, TRAIL_GLYPH as int)])
        } else {
            with_head
        }
    }
}

/// `before` with the drops painted over it one after the other, so that where
/// two drops meet the later one shows.
pub open spec fn rain_image(before: Image, area: Rect, glyphs: Seq<char>, drops: Seq<ScaledDrop>) -> Image
    decreases drops.len(),
{
    if drops.len() == 0 {
        before
    } else {
        stamp(rain_image(before, area, glyphs, drops.drop_last()), area, glyphs, drops.last())
    }
}

/// How far from the first column (or row) a drop lands on an axis of
/// `extent` columns (or rows).
pub fn drop_offset(scaled: Option<i64>, extent: u16) -> (offset: u16)
    requires
        extent >= 1,
    ensures
        offset == spec_drop_offset(scaled, extent as int),
        offset < extent,
{
    match scaled {
        Some(v) => {
            if v < 0 {
                0
            } else if v < (extent - 1) as i64 {
                v as u16
            } else {
                extent - 1
            }
        },
        None => 0,
    }
}

/// The cell of `area` that the head of `drop` lands in.
pub fn drop_cell(area: Rect, drop: ScaledDrop) -> (cell: (u16, u16))
    requires
        area.cell_columns() >= 1,
        area.cell_rows() >= 1,
    ensures
        (cell.0 as int, cell.1 as int) == spec_drop_cell(area, drop),
        area.spec_contains(cell.0 as int, cell.1 as int),
{
    let columns: u16 = area.right() - area.left();
    let rows: u16 = area.bottom() - area.top();
    (area.left() + drop_offset(drop.column, columns), area.top() + drop_offset(drop.row, rows))
}

/// Painting a drop writes only into cells of the area.
pub proof fn lemma_stamp_keeps_cells(image: Image, area: Rect, glyphs: Seq<char>, drop: ScaledDrop)
    requires
        forall|x: int, y: int| area.spec_contains(x, y) ==> #[trigger] image.dom().contains((x, y)),
    ensures
        stamp(image, area, glyphs, drop).dom() == image.dom(),
        forall|x: int, y: int|
            !area.spec_contains(x, y) && image.dom().contains((x, y)) ==> #[trigger] stamp(
                image,
                area,
                glyphs,
                drop,
            )[(x, y)] == image[(x, y)],
{
    if area.cell_columns() > 0 && area.cell_rows() > 0 {
        let (x, y) = spec_drop_cell(area, drop);
        assert(area.spec_contains(x, y));
        assert(image.dom().contains((x, y)));
        if y > area.y {
            assert(area.spec_contains(x, y - 1));
            assert(image.dom().contains((x, y - 1)));
        }
        assert(stamp(image, area, glyphs, drop).dom() =~= image.dom());
    }
}

/// Painting rain writes only into cells of the area.
pub proof fn lemma_rain_keeps_cells(before: Image, area: Rect, glyphs: Seq<char>, drops: Seq<ScaledDrop>)
    requires
        forall|x: int, y: int| area.spec_contains(x, y) ==> #[trigger] before.dom().contains((x, y)),
    ensures
        rain_image(before, area, glyphs, drops).dom() == before.dom(),
        forall|x: int, y: int|
            !area.spec_contains(x, y) && before.dom().contains((x, y)) ==> #[trigger] rain_image(
                before,
                area,
                glyphs,
                drops,
            )[(x, y)] == before[(x, y)],
    decreases drops.len(),
{
    if drops.len() > 0 {
        let earlier = rain_image(before, area, glyphs, drops.drop_last());
        lemma_rain_keeps_cells(before, area, glyphs, drops.drop_last());
        assert forall|x: int, y: int| area.spec_contains(x, y) implies #[trigger] earlier.dom().contains(
            (x, y),
        ) by {
            assert(before.dom().contains((x, y)));
        }
        lemma_stamp_keeps_cells(earlier, area, glyphs, drops.last());
    }
}

/// Paints rain: the drops one after the other, each with its head and, where
/// there is room above the head, its trail. Where two drops meet the later
/// one shows. `glyphs` holds the glyph of a head on the bottom row, of a head
/// in flight and of a trail, in this order.
pub fn paint_rain(area: Rect, glyphs: &Vec<char>, drops: &Vec<ScaledDrop>, buf: &mut Buffer)
    requires
        covers(*old(buf), area),
    ensures
        buffer_symbols(*final(buf)) == rain_image(
            buffer_symbols(*old(buf)),
            area,
            glyphs@,
            drops@,
        ),
        rain_image(buffer_symbols(*final(buf)), area, glyphs@, drops@) == buffer_symbols(
            *final(buf),
        ),
        painted_within(buffer_symbols(*old(buf)), buffer_symbols(*final(buf)), area),
{
    let ghost before = buffer_symbols(*buf);
    proof {
        lemma_rain_idempotent(before, area, glyphs@, drops@);
        lemma_rain_stays_within(before, area, glyphs@, drops@);
    }
    if area.right() <= area.left() || area.bottom() <= area.top() {
        proof {
            lemma_rain_on_no_cells(before, area, glyphs@, drops@);
        }
        return ;
    }
    let last_row: u16 = area.bottom() - 1;
    let mut i: usize = 0;
    assert(drops@.take(0) =~= Seq::<ScaledDrop>::empty());
    while i < drops.len()
        invariant
            i <= drops.len(),
            area.cell_columns() >= 1,
            area.cell_rows() >= 1,
            last_row == area.spec_bottom() - 1,
            forall|x: int, y: int|
                area.spec_contains(x, y) ==> #[trigger] before.dom().contains((x, y)),
            buffer_symbols(*buf) == rain_image(before, area, glyphs@, drops@.take(i as int)),
        decreases drops.len() - i,
    {
        let ghost earlier = buffer_symbols(*buf);
        proof {
            lemma_rain_keeps_cells(before, area, glyphs@, drops@.take(i as int));
            assert(drops@.take(i + 1).drop_last() =~= drops@.take(i as int));
            assert(drops@.take(i + 1).last() == drops@[i as int]);
        }
        let (x, y) = drop_cell(area, drops[i]);
        let head = glyph_at(
            glyphs,
            if y == last_row {
                LANDED_GLYPH
            } else {
                HEAD_GLYPH
            },
        );
        assert(before.dom().contains((x as int, y as int)));
        set_char(buf, x, y, head);
        if y > area.top() {
            assert(area.spec_contains(x as int, y - 1));
            assert(before.dom().contains((x as int, y - 1)));
            set_char(buf, x, y - 1, glyph_at(glyphs, TRAIL_GLYPH));
        }
        assert(buffer_symbols(*buf) == stamp(earlier, area, glyphs@, drops@[i as int]));
        i += 1;
    }
    assert(drops@.take(i as int) =~= drops@);
}

/// Rain on an area without cells changes nothing.
pub proof fn lemma_rain_on_no_cells(before: Image, area: Rect, glyphs: Seq<char>, drops: Seq<ScaledDrop>)
    requires
        area.cell_columns() <= 0 || area.cell_rows() <= 0,
    ensures
        rain_image(before, area, glyphs, drops) == before,
    decreases drops.len(),
{
    if drops.len() > 0 {
        lemma_rain_on_no_cells(before, area, glyphs, drops.drop_last());
    }
}

/// A wave gives every cell of the area that the image holds one glyph of the
/// ramp, so with a ramp that has no blank glyph it leaves no cell of the area
/// blank.
pub proof fn lemma_wave_fills_area(
    before: Image,
    area: Rect,
    ramp: Seq<char>,
    levels: Seq<Option<usize>>,
    x: int,
    y: int,
)
    requires
        ramp.len() > 0,
        area.spec_contains(x, y),
        before.dom().contains((x, y)),
    ensures
        exists|i: int|
            0 <= i < ramp.len() && wave_image(before, area, ramp, levels)[(x, y)] == seq![
                #[trigger] ramp[i],
            ],
        (forall|i: int| 0 <= i < ramp.len() ==> ramp[i] != FALLBACK_GLYPH) ==> wave_image(
            before,
            area,
            ramp,
            levels,
        )[(x, y)] != seq![FALLBACK_GLYPH],
{
    let level = levels[cell_index(area, x, y)];
    let i = match level {
        Some(l) => l as int % ramp.len() as int,
        None => 0,
    };
    if let Some(l) = level {
        vstd::arithmetic::div_mod::lemma_mod_bound(l as int, ramp.len() as int);
    }
    let shown = wave_image(before, area, ramp, levels)[(x, y)];
    assert(shown == seq![ramp[i]]);
    assert(shown[0] == ramp[i]);
    assert(seq![FALLBACK_GLYPH][0] == FALLBACK_GLYPH);
}

/// A wave touches no cell outside its area.
pub proof fn lemma_wave_stays_within(
    before: Image,
    area: Rect,
    ramp: Seq<char>,
    levels: Seq<Option<usize>>,
)
    ensures
        painted_within(before, wave_image(before, area, ramp, levels), area),
{
    assert(wave_image(before, area, ramp, levels).dom() =~= before.dom());
}

/// Rain touches no cell outside its area.
pub proof fn lemma_rain_stays_within(
    before: Image,
    area: Rect,
    glyphs: Seq<char>,
    drops: Seq<ScaledDrop>,
)
    requires
        forall|x: int, y: int| area.spec_contains(x, y) ==> #[trigger] before.dom().contains((x, y)),
    ensures
        painted_within(before, rain_image(before, area, glyphs, drops), area),
{
    lemma_rain_keeps_cells(before, area, glyphs, drops);
}

/// Painting a wave again, with nothing changed in between, leaves the image
/// as the first painting left it.
pub proof fn lemma_wave_idempotent(
    before: Image,
    area: Rect,
    ramp: Seq<char>,
    levels: Seq<Option<usize>>,
)
    ensures
        wave_image(wave_image(before, area, ramp, levels), area, ramp, levels) == wave_image(
            before,
            area,
            ramp,
            levels,
        ),
{
    assert(wave_image(wave_image(before, area, ramp, levels), area, ramp, levels) =~= wave_image(
        before,
        area,
        ramp,
        levels,
    ));
}

/// What rain shows at a position is either written by a drop, and then the
/// same whatever the rain is painted over, or left as it was.
pub proof fn lemma_rain_written_or_kept(
    first: Image,
    second: Image,
    area: Rect,
    glyphs: Seq<char>,
    drops: Seq<ScaledDrop>,
    p: (int, int),
)
    ensures
        ({
            let a = rain_image(first, area, glyphs, drops);
            let b = rain_image(second, area, glyphs, drops);
            ||| (a.dom().contains(p) && b.dom().contains(p) && a[p] == b[p])
            ||| (a.dom().contains(p) == first.dom().contains(p) && a[p] == first[p]
                && b.dom().contains(p) == second.dom().contains(p) && b[p] == second[p])
        }),
    decreases drops.len(),
{
    if drops.len() > 0 {
        lemma_rain_written_or_kept(first, second, area, glyphs, drops.drop_last(), p);
    }
}

/// Painting rain again, with nothing changed in between, leaves the image as
/// the first painting left it.
pub proof fn lemma_rain_idempotent(
    before: Image,
    area: Rect,
    glyphs: Seq<char>,
    drops: Seq<ScaledDrop>,
)
    ensures
        rain_image(rain_image(before, area, glyphs, drops), area, glyphs, drops) == rain_image(
            before,
            area,
            glyphs,
            drops,
        ),
{
    let once = rain_image(before, area, glyphs, drops);
    let twice = rain_image(once, area, glyphs, drops);
    assert forall|p: (int, int)| #[trigger]
        twice.dom().contains(p) == once.dom().contains(p) by {
        lemma_rain_written_or_kept(once, before, area, glyphs, drops, p);
    }
    assert forall|p: (int, int)| once.dom().contains(p) implies #[trigger] twice[p] == once[p] by {
        lemma_rain_written_or_kept(once, before, area, glyphs, drops, p);
    }
    assert(twice.dom() =~= once.dom());
    assert(twice =~= once);
}

} // verus!
