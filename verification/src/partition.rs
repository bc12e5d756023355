//! Cutting an area into pieces along one direction.
//!
//! The sizes of the pieces are worked out by the constraint solver of
//! `ratatui`. Pieces that are to share an area evenly are taken from the
//! solver as they come, as long as they use up the area, one after the
//! other, in sizes that differ by one cell at most. Should they ever not, or
//! where there are more pieces than the solver is asked for, the area is cut
//! at whole-cell boundaries instead.

use crate::geometry::Rect;
use vstd::prelude::*;

verus! {

/// The most pieces the solver is asked for at a time. The time it takes
/// grows steeply with their number.
pub const SOLVER_PIECES: u32 = 512;

/// The axis along which an area is cut into pieces.
#[derive(Clone, Copy, Debug, PartialEq, Eq, Structural)]
pub enum Direction {
    /// Pieces lie side by side, from left to right.
    Horizontal,
    /// Pieces lie on top of each other, from top to bottom.
    Vertical,
}

/// The share of an area that one piece asks for.
#[derive(Clone, Copy, Debug, PartialEq, Eq, Structural)]
pub enum Constraint {
    /// A fraction of the area, as numerator and denominator.
    Ratio(u32, u32),
    /// A percentage of the area.
    Percentage(u16),
}

/// Where a rectangle starts along a direction.
pub open spec fn start_of(piece: Rect, direction: Direction) -> int {
    match direction {
        Direction::Horizontal => piece.x as int,
        Direction::Vertical => piece.y as int,
    }
}

/// How far a rectangle is said to reach along a direction.
pub open spec fn length_of(piece: Rect, direction: Direction) -> int {
    match direction {
        Direction::Horizontal => piece.width as int,
        Direction::Vertical => piece.height as int,
    }
}

/// Where the cells of a rectangle end along a direction: its far edge.
pub open spec fn end_of(area: Rect, direction: Direction) -> int {
    match direction {
        Direction::Horizontal => area.spec_right() as int,
        Direction::Vertical => area.spec_bottom() as int,
    }
}

/// How many columns (or rows) a rectangle has cells in. For a rectangle that
/// fits into the coordinate range this is its width (or height).
pub open spec fn extent_of(area: Rect, direction: Direction) -> int {
    end_of(area, direction) - start_of(area, direction)
}

/// `piece` spans `area` across the direction: it has the area's place and
/// size on the other axis.
pub open spec fn spans(area: Rect, direction: Direction, piece: Rect) -> bool {
    match direction {
        Direction::Horizontal => piece.y == area.y && piece.height == area.height,
        Direction::Vertical => piece.x == area.x && piece.width == area.width,
    }
}

/// `piece` is a possible piece of `area` cut along `direction`: across the
/// direction it spans the area, along it it lies between the area's edges.
pub open spec fn piece_of(area: Rect, direction: Direction, piece: Rect) -> bool {
    &&& spans(area, direction, piece)
    &&& start_of(area, direction) <= start_of(piece, direction)
    &&& start_of(piece, direction) + length_of(piece, direction) <= end_of(area, direction)
}

/// `pieces` is a possible outcome of cutting `area` into `count` pieces along
/// `direction`.
pub open spec fn laid_out(area: Rect, direction: Direction, count: nat, pieces: Seq<Rect>) -> bool {
    &&& pieces.len() == count
    &&& forall|i: int| 0 <= i < pieces.len() ==> piece_of(area, direction, #[trigger] pieces[i])
}

/// Where piece `i` has to start so that the pieces follow one another from
/// `start` on without gap or overlap.
pub open spec fn stacked_start(pieces: Seq<Rect>, direction: Direction, start: int, i: int) -> int {
    if i == 0 {
        start
    } else {
        start_of(pieces[i - 1], direction) + length_of(pieces[i - 1], direction)
    }
}

/// The pieces follow one another along a direction without gap or overlap,
/// the first starting at `start`.
pub open spec fn stacked(pieces: Seq<Rect>, direction: Direction, start: int) -> bool {
    forall|i: int|
        0 <= i < pieces.len() ==> start_of(#[trigger] pieces[i], direction) == stacked_start(
            pieces,
            direction,
            start,
            i,
        )
}

/// `length` is an even share of `extent` among `count`: the whole part of
/// `extent / count`, or one more.
pub open spec fn even_share(extent: int, count: int, length: int) -> bool {
    length == extent / count || length == extent / count + 1
}

/// `pieces` cut `area` evenly into `count` pieces along `direction`: each
/// spans the area across the direction, they use up the area one after the
/// other from its near edge to its far edge, and each has an even share of
/// it.
pub open spec fn evenly_cut(area: Rect, direction: Direction, count: nat, pieces: Seq<Rect>) -> bool {
    &&& pieces.len() == count
    &&& forall|i: int| 0 <= i < pieces.len() ==> spans(area, direction, #[trigger] pieces[i])
    &&& stacked(pieces, direction, start_of(area, direction))
    &&& count > 0 ==> start_of(pieces.last(), direction) + length_of(pieces.last(), direction)
        == end_of(area, direction)
    &&& forall|i: int|
        0 <= i < pieces.len() ==> even_share(
            extent_of(area, direction),
            count as int,
            length_of(#[trigger] pieces[i], direction),
        )
}

/// The lengths of the pieces along a direction, added up.
pub open spec fn total_length(pieces: Seq<Rect>, direction: Direction) -> int
    decreases pieces.len(),
{
    if pieces.len() == 0 {
        0
    } else {
        total_length(pieces.drop_last(), direction) + length_of(pieces.last(), direction)
    }
}

/// Cuts `area` with `ratatui::layout::Layout::split`, using a layout of the
/// given direction and constraints and otherwise default settings.
///
/// The sizes come out of a constraint solver and are not described here.
/// What is relied on is only what the solver is bound to by its required
/// constraints and by the way its answer is turned into rectangles: one
/// piece per constraint, each spanning the area across the direction and
/// lying between the area's edges along it.
#[verifier::external_body]
pub(crate) fn solve(direction: Direction, constraints: &Vec<Constraint>, area: Rect) -> (pieces: Vec<Rect>)
    ensures
        laid_out(area, direction, constraints@.len(), pieces@),
{
    let layout = ratatui::layout::Layout::default()
        .direction(match direction {
            Direction::Horizontal => ratatui::layout::Direction::Horizontal,
            Direction::Vertical => ratatui::layout::Direction::Vertical,
        })
        .constraints(constraints.iter().map(|c| match c {
            Constraint::Ratio(n, d) => ratatui::layout::Constraint::Ratio(*n, *d),
            Constraint::Percentage(p) => ratatui::layout::Constraint::Percentage(*p),
        }));
    let outer = ratatui::layout::Rect { x: area.x, y: area.y, width: area.width, height: area.height };
    layout.split(outer).iter().map(|r| Rect { x: r.x, y: r.y, width: r.width, height: r.height }).collect()
}

/// Where the `k`-th of `count` even pieces of a stretch of `extent` cells
/// starts, counted from the start of the stretch, when each boundary is put
/// at its exact place rounded down.
pub open spec fn even_boundary(extent: int, count: int, k: int) -> int {
    (k * extent) / count
}

/// Boundaries put at their exact places rounded down never go back, start at
/// nothing, end at the whole extent, and leave an even share between each two
/// neighbours.
pub proof fn lemma_even_boundaries(extent: int, count: int, k: int)
    requires
        0 <= extent,
        0 < count,
        0 <= k < count,
    ensures
        even_boundary(extent, count, 0) == 0,
        even_boundary(extent, count, count) == extent,
        0 <= even_boundary(extent, count, k) <= even_boundary(extent, count, k + 1) <= extent,
        even_share(
            extent,
            count,
            even_boundary(extent, count, k + 1) - even_boundary(extent, count, k),
        ),
{
    let q = extent / count;
    let r = extent % count;
    vstd::arithmetic::div_mod::lemma_fundamental_div_mod(extent, count);
    vstd::arithmetic::div_mod::lemma_mod_bound(extent, count);
    assert(extent == count * q + r);
    assert((0 * extent) / count == 0);
    assert((count * extent) / count == extent) by {
        vstd::arithmetic::div_mod::lemma_div_multiples_vanish(extent, count);
    }
    assert(k * extent == k * r + (k * q) * count) by (nonlinear_arith)
        requires
            extent == count * q + r,
    ;
    assert((k + 1) * extent == (k + 1) * r + ((k + 1) * q) * count) by (nonlinear_arith)
        requires
            extent == count * q + r,
    ;
    vstd::arithmetic::div_mod::lemma_hoist_over_denominator(k * r, k * q, count as nat);
    vstd::arithmetic::div_mod::lemma_hoist_over_denominator((k + 1) * r, (k + 1) * q, count as nat);
    assert((k * extent) / count == (k * r) / count + k * q);
    assert(((k + 1) * extent) / count == ((k + 1) * r) / count + (k + 1) * q);
    assert((k + 1) * r == k * r + r) by (nonlinear_arith);
    assert((k + 1) * q == k * q + q) by (nonlinear_arith);
    assert(0 <= k * r) by (nonlinear_arith)
        requires
            0 <= k,
            0 <= r,
    ;
    vstd::arithmetic::div_mod::lemma_div_is_ordered(k * r, (k + 1) * r, count);
    vstd::arithmetic::div_mod::lemma_div_is_ordered((k + 1) * r, count + k * r, count);
    vstd::arithmetic::div_mod::lemma_div_plus_one(k * r, count);
    vstd::arithmetic::div_mod::lemma_div_is_ordered(0, k * r, count);
    assert(0 <= k * q) by (nonlinear_arith)
        requires
            0 <= k,
            0 <= q,
    ;
    assert((k + 1) * extent <= count * extent) by (nonlinear_arith)
        requires
            k + 1 <= count,
            0 <= extent,
    ;
    vstd::arithmetic::div_mod::lemma_div_is_ordered((k + 1) * extent, count * extent, count);
}

/// The `k`-th of `count` pieces of `area` along `direction` when each
/// boundary is put at its exact place rounded down.
pub open spec fn whole_cell_piece(area: Rect, direction: Direction, count: int, k: int) -> Rect {
    let extent = extent_of(area, direction);
    let from = (start_of(area, direction) + even_boundary(extent, count, k)) as u16;
    let length = (even_boundary(extent, count, k + 1) - even_boundary(extent, count, k)) as u16;
    match direction {
        Direction::Horizontal => Rect { x: from, y: area.y, width: length, height: area.height },
        Direction::Vertical => Rect { x: area.x, y: from, width: area.width, height: length },
    }
}

/// The cut of `area` into `count` pieces along `direction` with each boundary
/// at its exact place rounded down.
pub open spec fn whole_cell_cut(area: Rect, direction: Direction, count: nat) -> Seq<Rect> {
    Seq::new(count, |k: int| whole_cell_piece(area, direction, count as int, k))
}

/// Cutting at whole-cell boundaries cuts evenly.
pub proof fn lemma_whole_cell_cut_is_even(area: Rect, direction: Direction, count: nat)
    ensures
        evenly_cut(area, direction, count, whole_cell_cut(area, direction, count)),
{
    let pieces = whole_cell_cut(area, direction, count);
    let e = extent_of(area, direction);
    let n = count as int;
    let start = start_of(area, direction);
    assert forall|i: int| 0 <= i < pieces.len() implies spans(area, direction, #[trigger] pieces[i])
        && start_of(pieces[i], direction) == start + even_boundary(e, n, i) && length_of(
        pieces[i],
        direction,
    ) == even_boundary(e, n, i + 1) - even_boundary(e, n, i) && even_share(
        e,
        n,
        length_of(pieces[i], direction),
    ) by {
        lemma_even_boundaries(e, n, i);
    }
    assert forall|i: int| 0 <= i < pieces.len() implies start_of(
        #[trigger] pieces[i],
        direction,
    ) == stacked_start(pieces, direction, start, i) by {
        lemma_even_boundaries(e, n, i);
        if i > 0 {
            assert(spans(area, direction, pieces[i - 1]));
        }
    }
    if count > 0 {
        lemma_even_boundaries(e, n, n - 1);
        assert(spans(area, direction, pieces[n - 1]));
    }
}

/// The even pieces of `area` along `direction` with each boundary at its
/// exact place rounded down.
pub fn even_pieces(area: Rect, direction: Direction, count: u32) -> (pieces: Vec<Rect>)
    ensures
        pieces@ == whole_cell_cut(area, direction, count as nat),
        evenly_cut(area, direction, count as nat, pieces@),
{
    let start: u16 = match direction {
        Direction::Horizontal => area.left(),
        Direction::Vertical => area.top(),
    };
    let extent: u16 = match direction {
        Direction::Horizontal => area.right() - area.left(),
        Direction::Vertical => area.bottom() - area.top(),
    };
    let ghost e = extent as int;
    let ghost n = count as int;
    let mut pieces: Vec<Rect> = Vec::new();
    let mut k: u32 = 0;
    while k < count
        invariant
            k <= count,
            n == count,
            e == extent,
            e == extent_of(area, direction),
            start == start_of(area, direction),
            pieces@.len() == k,
            forall|j: int| 0 <= j < k ==> #[trigger] pieces@[j] == whole_cell_piece(area, direction, n, j),
        decreases count - k,
    {
        proof {
            lemma_even_boundaries(e, n, k as int);
            assert(k * extent <= 0xFFFF_FFFF * 0xFFFF) by (nonlinear_arith)
                requires
                    0 <= k <= 0xFFFF_FFFF,
                    0 <= extent <= 0xFFFF,
            ;
            assert((k + 1) * extent <= 0x1_0000_0000 * 0xFFFF) by (nonlinear_arith)
                requires
                    0 <= k + 1 <= 0x1_0000_0000,
                    0 <= extent <= 0xFFFF,
            ;
        }
        let near: u64 = (k as u64 * extent as u64) / (count as u64);
        let far: u64 = ((k as u64 + 1) * extent as u64) / (count as u64);
        let from: u16 = start + near as u16;
        let length: u16 = (far - near) as u16;
        let piece = match direction {
            Direction::Horizontal => Rect { x: from, y: area.y, width: length, height: area.height },
            Direction::Vertical => Rect { x: area.x, y: from, width: area.width, height: length },
        };
        pieces.push(piece);
        k += 1;
    }
    proof {
        assert(pieces@ =~= whole_cell_cut(area, direction, count as nat));
        lemma_whole_cell_cut_is_even(area, direction, count as nat);
    }
    pieces
}

/// Whether `pieces` cut `area` evenly along `direction`.
pub fn is_evenly_cut(area: Rect, direction: Direction, pieces: &Vec<Rect>) -> (even: bool)
    ensures
        even == evenly_cut(area, direction, pieces@.len(), pieces@),
{
    let count: usize = pieces.len();
    if count == 0 {
        return true;
    }
    let start: u16 = match direction {
        Direction::Horizontal => area.left(),
        Direction::Vertical => area.top(),
    };
    let end: u16 = match direction {
        Direction::Horizontal => area.right(),
        Direction::Vertical => area.bottom(),
    };
    let share: usize = (end - start) as usize / count;
    let mut expected: u32 = start as u32;
    let mut i: usize = 0;
    while i < count
        invariant
            i <= count,
            count == pieces@.len(),
            count > 0,
            start == start_of(area, direction),
            end == end_of(area, direction),
            share == extent_of(area, direction) / (count as int),
            expected == stacked_start(pieces@, direction, start as int, i as int),
            forall|j: int|
                0 <= j < i ==> {
                    &&& spans(area, direction, #[trigger] pieces@[j])
                    &&& start_of(pieces@[j], direction) == stacked_start(
                        pieces@,
                        direction,
                        start as int,
                        j,
                    )
                    &&& even_share(
                        extent_of(area, direction),
                        count as int,
                        length_of(pieces@[j], direction),
                    )
                },
        decreases count - i,
    {
        let piece = pieces[i];
        let (from, length, across): (u16, u16, bool) = match direction {
            Direction::Horizontal => (
                piece.x,
                piece.width,
                piece.y == area.y && piece.height == area.height,
            ),
            Direction::Vertical => (
                piece.y,
                piece.height,
                piece.x == area.x && piece.width == area.width,
            ),
        };
        let fair: bool = length as usize == share || length as usize == share + 1;
        if !across || from as u32 != expected || !fair {
            proof {
                assert(!(spans(area, direction, pieces@[i as int]) && start_of(
                    pieces@[i as int],
                    direction,
                ) == stacked_start(pieces@, direction, start as int, i as int) && even_share(
                    extent_of(area, direction),
                    count as int,
                    length_of(pieces@[i as int], direction),
                )));
            }
            return false;
        }
        expected = from as u32 + length as u32;
        i += 1;
    }
    proof {
        assert(pieces@.last() == pieces@[count - 1]);
    }
    expected == end as u32
}

/// `count` constraints, each asking for one part in `count` of the area.
pub fn equal_shares(count: u32) -> (shares: Vec<Constraint>)
    ensures
        shares@ == Seq::new(count as nat, |i: int| Constraint::Ratio(1, count)),
{
    let mut shares: Vec<Constraint> = Vec::new();
    let mut i: u32 = 0;
    while i < count
        invariant
            i <= count,
            shares@ == Seq::new(i as nat, |k: int| Constraint::Ratio(1, count)),
        decreases count - i,
    {
        shares.push(Constraint::Ratio(1, count));
        i += 1;
    }
    shares
}

/// Settles on the pieces of an even cut: those that were proposed if they
/// cut the area evenly into `count`, and else the even pieces with each
/// boundary at its exact place rounded down.
pub fn settle(area: Rect, direction: Direction, count: u32, proposed: Vec<Rect>) -> (pieces: Vec<Rect>)
    ensures
        pieces@ == (if evenly_cut(area, direction, count as nat, proposed@) {
            proposed@
        } else {
            whole_cell_cut(area, direction, count as nat)
        }),
        evenly_cut(area, direction, count as nat, pieces@),
{
    if proposed.len() == count as usize && is_evenly_cut(area, direction, &proposed) {
        proposed
    } else {
        even_pieces(area, direction, count)
    }
}

/// Cuts `area` along `direction` into `count` even pieces.
///
/// Up to `SOLVER_PIECES` pieces are those of the solver for `count` equal
/// shares, as long as they cut the area evenly; which of them get the cell
/// more, where the area does not divide evenly, is then up to the solver.
/// More pieces than that are cut at whole-cell boundaries.
pub fn split_evenly(area: Rect, direction: Direction, count: u32) -> (pieces: Vec<Rect>)
    ensures
        evenly_cut(area, direction, count as nat, pieces@),
        count > SOLVER_PIECES ==> pieces@ == whole_cell_cut(area, direction, count as nat),
{
    if count > SOLVER_PIECES {
        even_pieces(area, direction, count)
    } else {
        let proposed = solve(direction, &equal_shares(count), area);
        settle(area, direction, count, proposed)
    }
}

/// Pieces that follow one another without gap or overlap are together as long
/// as the stretch from the start of the first to the end of the last.
pub proof fn lemma_stacked_lengths_add_up(pieces: Seq<Rect>, direction: Direction, start: int)
    requires
        stacked(pieces, direction, start),
        pieces.len() > 0,
    ensures
        total_length(pieces, direction) == start_of(pieces.last(), direction) + length_of(
            pieces.last(),
            direction,
        ) - start,
    decreases pieces.len(),
{
    let front = pieces.drop_last();
    let n = pieces.len() as int;
    if front.len() == 0 {
        assert(start_of(pieces[0], direction) == stacked_start(pieces, direction, start, 0));
        assert(total_length(front, direction) == 0);
    } else {
        assert forall|i: int| 0 <= i < front.len() implies start_of(
            #[trigger] front[i],
            direction,
        ) == stacked_start(front, direction, start, i) by {
            assert(front[i] == pieces[i]);
            assert(start_of(pieces[i], direction) == stacked_start(pieces, direction, start, i));
            if i > 0 {
                assert(front[i - 1] == pieces[i - 1]);
            }
        }
        lemma_stacked_lengths_add_up(front, direction, start);
        assert(front.last() == pieces[n - 2]);
        assert(start_of(pieces[n - 1], direction) == stacked_start(
            pieces,
            direction,
            start,
            n - 1,
        ));
    }
}

/// The pieces of an even cut are together as long as the area: the heights of
/// bands add up to the height that the area has cells in, the widths of
/// slices to its width.
pub proof fn lemma_even_cut_uses_up_area(
    area: Rect,
    direction: Direction,
    count: nat,
    pieces: Seq<Rect>,
)
    requires
        evenly_cut(area, direction, count, pieces),
        count > 0,
    ensures
        total_length(pieces, direction) == extent_of(area, direction),
{
    lemma_stacked_lengths_add_up(pieces, direction, start_of(area, direction));
}

/// In a row of stacked pieces no piece starts before the first one does.
proof fn lemma_stacked_starts(pieces: Seq<Rect>, direction: Direction, start: int, i: int)
    requires
        stacked(pieces, direction, start),
        0 <= i < pieces.len(),
    ensures
        start <= start_of(pieces[i], direction),
    decreases i,
{
    assert(start_of(pieces[i], direction) == stacked_start(pieces, direction, start, i));
    if i > 0 {
        lemma_stacked_starts(pieces, direction, start, i - 1);
    }
}

/// In a row of stacked pieces no piece ends after the last one does.
proof fn lemma_stacked_ends(pieces: Seq<Rect>, direction: Direction, start: int, i: int)
    requires
        stacked(pieces, direction, start),
        0 <= i < pieces.len(),
    ensures
        start_of(pieces[i], direction) + length_of(pieces[i], direction) <= start_of(
            pieces.last(),
            direction,
        ) + length_of(pieces.last(), direction),
    decreases pieces.len() - i,
{
    if i < pieces.len() - 1 {
        lemma_stacked_ends(pieces, direction, start, i + 1);
        assert(start_of(pieces[i + 1], direction) == stacked_start(
            pieces,
            direction,
            start,
            i + 1,
        ));
    }
}

/// Every piece of an even cut is a piece of the area: it lies between the
/// area's edges.
pub proof fn lemma_even_cut_within(
    area: Rect,
    direction: Direction,
    count: nat,
    pieces: Seq<Rect>,
)
    requires
        evenly_cut(area, direction, count, pieces),
    ensures
        laid_out(area, direction, count, pieces),
{
    assert forall|i: int| 0 <= i < pieces.len() implies piece_of(
        area,
        direction,
        #[trigger] pieces[i],
    ) by {
        lemma_stacked_starts(pieces, direction, start_of(area, direction), i);
        lemma_stacked_ends(pieces, direction, start_of(area, direction), i);
    }
}

/// An even cut into one piece leaves the area's cells as they are: the piece
/// starts where the area starts and reaches as far.
pub proof fn lemma_even_cut_of_one(area: Rect, direction: Direction, pieces: Seq<Rect>)
    requires
        evenly_cut(area, direction, 1, pieces),
    ensures
        spans(area, direction, pieces[0]),
        start_of(pieces[0], direction) == start_of(area, direction),
        length_of(pieces[0], direction) == extent_of(area, direction),
        area.fits() ==> pieces[0] == area,
{
    assert(start_of(pieces[0], direction) == stacked_start(
        pieces,
        direction,
        start_of(area, direction),
        0,
    ));
    assert(pieces.last() == pieces[0]);
}

/// In a row of stacked pieces of at least `least` cells each, piece `i`
/// starts at least `i` times `least` after the start.
proof fn lemma_stacked_starts_far(
    pieces: Seq<Rect>,
    direction: Direction,
    start: int,
    least: int,
    i: int,
)
    requires
        stacked(pieces, direction, start),
        forall|j: int| 0 <= j < pieces.len() ==> length_of(#[trigger] pieces[j], direction) >= least,
        0 <= i < pieces.len(),
    ensures
        start + i * least <= start_of(pieces[i], direction),
    decreases i,
{
    assert(start_of(pieces[i], direction) == stacked_start(pieces, direction, start, i));
    if i > 0 {
        lemma_stacked_starts_far(pieces, direction, start, least, i - 1);
        assert(length_of(pieces[i - 1], direction) >= least);
        assert(i * least == (i - 1) * least + least) by (nonlinear_arith);
    } else {
        assert(i * least == 0) by (nonlinear_arith)
            requires
                i == 0,
        ;
    }
}

/// In a row of stacked pieces of at least `least` cells each, piece `i` ends
/// at least as many times `least` before the end as pieces follow it.
proof fn lemma_stacked_ends_early(
    pieces: Seq<Rect>,
    direction: Direction,
    start: int,
    least: int,
    i: int,
)
    requires
        stacked(pieces, direction, start),
        forall|j: int| 0 <= j < pieces.len() ==> length_of(#[trigger] pieces[j], direction) >= least,
        0 <= i < pieces.len(),
    ensures
        start_of(pieces[i], direction) + length_of(pieces[i], direction) + (pieces.len() - 1 - i)
            * least <= start_of(pieces.last(), direction) + length_of(pieces.last(), direction),
    decreases pieces.len() - i,
{
    let n = pieces.len() as int;
    if i < n - 1 {
        lemma_stacked_ends_early(pieces, direction, start, least, i + 1);
        assert(start_of(pieces[i + 1], direction) == stacked_start(
            pieces,
            direction,
            start,
            i + 1,
        ));
        assert(length_of(pieces[i + 1], direction) >= least);
        assert((n - 1 - i) * least == (n - 1 - (i + 1)) * least + least) by (nonlinear_arith);
    } else {
        assert((n - 1 - i) * least == 0) by (nonlinear_arith)
            requires
                n - 1 - i == 0,
        ;
    }
}

/// Where the area divides evenly, an even cut has no choice: every piece is
/// exactly one share long and starts a whole number of shares after the
/// area's near edge.
pub proof fn lemma_even_cut_of_divisible(
    area: Rect,
    direction: Direction,
    count: nat,
    pieces: Seq<Rect>,
    i: int,
)
    requires
        evenly_cut(area, direction, count, pieces),
        0 <= i < count,
        extent_of(area, direction) % (count as int) == 0,
    ensures
        length_of(pieces[i], direction) == extent_of(area, direction) / (count as int),
        start_of(pieces[i], direction) == start_of(area, direction) + i * (extent_of(
            area,
            direction,
        ) / (count as int)),
        pieces[i] == whole_cell_piece(area, direction, count as int, i),
{
    let n = count as int;
    let e = extent_of(area, direction);
    let q = e / n;
    let start = start_of(area, direction);
    vstd::arithmetic::div_mod::lemma_fundamental_div_mod(e, n);
    assert(e == n * q);
    assert forall|j: int| 0 <= j < pieces.len() implies length_of(#[trigger] pieces[j], direction)
        >= q by {
        assert(even_share(e, n, length_of(pieces[j], direction)));
    }
    lemma_stacked_starts_far(pieces, direction, start, q, i);
    lemma_stacked_ends_early(pieces, direction, start, q, i);
    assert(even_share(e, n, length_of(pieces[i], direction)));
    assert(n * q == i * q + q + (n - 1 - i) * q) by (nonlinear_arith);
    assert(spans(area, direction, pieces[i]));
    assert(i * e == n * (i * q)) by (nonlinear_arith)
        requires
            e == n * q,
    ;
    assert((i + 1) * e == n * ((i + 1) * q)) by (nonlinear_arith)
        requires
            e == n * q,
    ;
    vstd::arithmetic::div_mod::lemma_div_multiples_vanish(i * q, n);
    vstd::arithmetic::div_mod::lemma_div_multiples_vanish((i + 1) * q, n);
    assert((i + 1) * q == i * q + q) by (nonlinear_arith);
    assert(even_boundary(e, n, i) == i * q);
    assert(even_boundary(e, n, i + 1) == i * q + q);
}

} // verus!
