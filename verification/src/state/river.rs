//! The river: its control points, drawn by midpoint displacement, and the
//! swath of water along the lines between them.

use vstd::prelude::*;
use crate::gamemode::MAPHEIGHT;
use crate::raster::bresenham_line;
use crate::raster::line_cells;
use crate::state::map::in_grid;
use crate::state::map::plane_cell;
use crate::state::map::plane_written;
use crate::state::map::MapData;
use crate::stream::draw_u8;
use crate::stream::stream_advance;
use crate::stream::stream_state;
use crate::stream::stream_u8;

verus! {

/// The number of control points that shape the river.
pub const CONTROL_POINTS: usize = 9;

/// Whether `(x, y)` lies in the swath around the rasterised cell `p`: in the
/// same row, at most one column away.
pub open spec fn swath_covers(p: (isize, isize), x: int, y: int) -> bool {
    p.1 == y && p.0 - 1 <= x <= p.0 + 1
}

/// Whether `(x, y)` lies in the swath around one of the first `n` cells.
pub open spec fn line_covers_upto(cells: Seq<(isize, isize)>, n: int, x: int, y: int) -> bool {
    exists|i: int| 0 <= i < n && #[trigger] swath_covers(cells[i], x, y)
}

/// Whether `(x, y)` lies in the swath around a rasterised line.
pub open spec fn line_covers(cells: Seq<(isize, isize)>, x: int, y: int) -> bool {
    line_covers_upto(cells, cells.len() as int, x, y)
}

/// The row of control point `i`: the points are spread evenly over the
/// height of the map, the last one just below its last row.
pub open spec fn control_row(i: int) -> int {
    (MAPHEIGHT * i) / (CONTROL_POINTS - 1)
}

/// The rasterised line from control point `i` to the next one.
pub open spec fn segment_cells(points: Seq<u8>, i: int) -> Seq<(isize, isize)> {
    bresenham_line(
        points[i] as isize,
        control_row(i) as isize,
        points[i + 1] as isize,
        control_row(i + 1) as isize,
    )
}

/// Whether `(x, y)` lies in the swath of one of the first `n` segments.
pub open spec fn river_covers_upto(points: Seq<u8>, n: int, x: int, y: int) -> bool {
    exists|s: int| 0 <= s < n && #[trigger] line_covers(segment_cells(points, s), x, y)
}

/// Whether a plane holds water at each of the first `n` control points that
/// is a cell of the grid: the river runs through its control points.
pub open spec fn runs_through(plane: [u32; MAPHEIGHT], points: Seq<u8>, n: int) -> bool {
    forall|i: int|
        0 <= i < n && points[i] < MAPHEIGHT ==> #[trigger] plane_cell(
            plane,
            points[i] as int,
            control_row(i),
        )
}

/// Whether `(x, y)` is part of the river that the control points describe.
pub open spec fn river_covers(points: Seq<u8>, x: int, y: int) -> bool {
    river_covers_upto(points, CONTROL_POINTS - 1, x, y)
}

/// Whether a plane holds water exactly on the river of the control points.
pub open spec fn is_river_plane(plane: [u32; MAPHEIGHT], points: Seq<u8>) -> bool {
    forall|x: int, y: int|
        in_grid(x, y) ==> #[trigger] plane_cell(plane, x, y) == river_covers(points, x, y)
}

/// Whether a plane holds water after flooding exactly where it did before
/// or where the swath around one of the first `n` cells of a line lies.
pub open spec fn swath_flooded(
    before: [u32; MAPHEIGHT],
    after: [u32; MAPHEIGHT],
    cells: Seq<(isize, isize)>,
    n: int,
) -> bool {
    forall|x: int, y: int|
        in_grid(x, y) ==> #[trigger] plane_cell(after, x, y) == (plane_cell(before, x, y)
            || line_covers_upto(cells, n, x, y))
}

/// Whether a plane holds water after flooding exactly where it did before
/// or where the swath of one of the first `n` segments of a river lies.
pub open spec fn river_flooded(
    before: [u32; MAPHEIGHT],
    after: [u32; MAPHEIGHT],
    points: Seq<u8>,
    n: int,
) -> bool {
    forall|x: int, y: int|
        in_grid(x, y) ==> #[trigger] plane_cell(after, x, y) == (plane_cell(before, x, y)
            || river_covers_upto(points, n, x, y))
}

impl MapData {
    /// Turns one cell into water. A cell outside the grid is refused by the
    /// grid itself, and nothing changes.
    fn flood_cell(&mut self, x: isize, y: isize)
        ensures
            final(self).bridge == old(self).bridge,
            final(self).tree_positions == old(self).tree_positions,
            plane_written(old(self).map, final(self).map, x as int, y as int, true),
    {
        let px: usize = if x < 0 { usize::MAX } else { x as usize };
        let py: usize = if y < 0 { usize::MAX } else { y as usize };
        let _ = self.set_terrain_point((px, py), true);
    }

    /// Turns into water every cell of the grid that lies in the swath around
    /// a rasterised line: each cell of the line and its left and right
    /// neighbours.
    pub fn draw_swath(&mut self, cells: &Vec<(isize, isize)>)
        ensures
            final(self).bridge == old(self).bridge,
            final(self).tree_positions == old(self).tree_positions,
            swath_flooded(old(self).map, final(self).map, cells@, cells@.len() as int),
    {
        let mut k: usize = 0;
        while k < cells.len()
            invariant
                k <= cells.len(),
                self.bridge == old(self).bridge,
                self.tree_positions == old(self).tree_positions,
                swath_flooded(old(self).map, self.map, cells@, k as int),
            decreases cells.len() - k,
        {
            let (x, y) = cells[k];
            let ghost before = self.map;
            self.flood_cell(x, y);
            if x > isize::MIN {
                self.flood_cell(x - 1, y);
            }
            if x < isize::MAX {
                self.flood_cell(x + 1, y);
            }
            proof {
                assert forall|cx: int, cy: int| in_grid(cx, cy) implies #[trigger] plane_cell(
                    self.map,
                    cx,
                    cy,
                ) == (plane_cell(old(self).map, cx, cy) || line_covers_upto(
                    cells@,
                    k as int + 1,
                    cx,
                    cy,
                )) by {
                    assert(plane_cell(self.map, cx, cy) == (plane_cell(before, cx, cy)
                        || swath_covers(cells@[k as int], cx, cy)));
                    if line_covers_upto(cells@, k as int + 1, cx, cy) {
                        let i = choose|i: int|
                            0 <= i < k as int + 1 && #[trigger] swath_covers(cells@[i], cx, cy);
                        if i < k as int {
                            assert(line_covers_upto(cells@, k as int, cx, cy));
                        }
                    }
                    if line_covers_upto(cells@, k as int, cx, cy) {
                        let i = choose|i: int|
                            0 <= i < k as int && #[trigger] swath_covers(cells@[i], cx, cy);
                        assert(swath_covers(cells@[i], cx, cy));
                    }
                }
            }
            k += 1;
        }
    }

    /// Carves the river: rasterises the line from each control point to the
    /// next and floods the swath around it. The river runs through each of
    /// its control points but the last.
    pub fn draw_river(&mut self, river_points: [u8; CONTROL_POINTS])
        ensures
            final(self).bridge == old(self).bridge,
            final(self).tree_positions == old(self).tree_positions,
            river_flooded(old(self).map, final(self).map, river_points@, CONTROL_POINTS - 1),
            runs_through(final(self).map, river_points@, CONTROL_POINTS - 1),
    {
        let mut i: usize = 0;
        while i < CONTROL_POINTS - 1
            invariant
                i <= CONTROL_POINTS - 1,
                self.bridge == old(self).bridge,
                self.tree_positions == old(self).tree_positions,
                river_flooded(old(self).map, self.map, river_points@, i as int),
                runs_through(self.map, river_points@, i as int),
            decreases CONTROL_POINTS - 1 - i,
        {
            let x1: isize = river_points[i] as isize;
            let y1: isize = ((MAPHEIGHT * i) / (CONTROL_POINTS - 1)) as isize;
            let x2: isize = river_points[i + 1] as isize;
            let y2: isize = ((MAPHEIGHT * (i + 1)) / (CONTROL_POINTS - 1)) as isize;
            let cells = line_cells(x1, y1, x2, y2);
            assert(cells@ == segment_cells(river_points@, i as int));
            let ghost before = self.map;
            self.draw_swath(&cells);
            proof {
                assert(swath_covers(cells@[0], x1 as int, y1 as int));
                assert(line_covers(cells@, x1 as int, y1 as int));
                assert forall|j: int|
                    0 <= j < i + 1 && river_points@[j] < MAPHEIGHT implies #[trigger] plane_cell(
                    self.map,
                    river_points@[j] as int,
                    control_row(j),
                ) by {
                    let (px, py) = (river_points@[j] as int, control_row(j));
                    assert(in_grid(px, py));
                    assert(plane_cell(self.map, px, py) == (plane_cell(before, px, py)
                        || line_covers(cells@, px, py)));
                    if j < i {
                        assert(plane_cell(before, px, py));
                    }
                }
                assert forall|cx: int, cy: int| in_grid(cx, cy) implies #[trigger] plane_cell(
                    self.map,
                    cx,
                    cy,
                ) == (plane_cell(old(self).map, cx, cy) || river_covers_upto(
                    river_points@,
                    i as int + 1,
                    cx,
                    cy,
                )) by {
                    assert(plane_cell(self.map, cx, cy) == (plane_cell(before, cx, cy)
                        || line_covers(segment_cells(river_points@, i as int), cx, cy)));
                    if river_covers_upto(river_points@, i as int + 1, cx, cy) {
                        let s = choose|s: int|
                            0 <= s < i as int + 1 && #[trigger] line_covers(
                                segment_cells(river_points@, s),
                                cx,
                                cy,
                            );
                        if s < i as int {
                            assert(river_covers_upto(river_points@, i as int, cx, cy));
                        }
                    }
                    if river_covers_upto(river_points@, i as int, cx, cy) {
                        let s = choose|s: int|
                            0 <= s < i as int && #[trigger] line_covers(
                                segment_cells(river_points@, s),
                                cx,
                                cy,
                            );
                        assert(line_covers(segment_cells(river_points@, s), cx, cy));
                    }
                }
            }
            i += 1;
        }
    }
}

/// The column of the river's first or last control point, from one draw: a
/// column of the band from 10 to 21.
pub open spec fn endpoint(draw: u8) -> u8 {
    (21 - draw % 12) as u8
}

/// The column of a control point between two others, from one draw: their
/// mean, moved by a noise of `4 - draw % 8` columns and held inside the grid.
pub open spec fn displaced(a: u8, b: u8, draw: u8) -> u8 {
    let v = (a as int + b as int) / 2 + 4 - (draw % 8) as int;
    if v < 0 {
        0u8
    } else if v > 31 {
        31u8
    } else {
        v as u8
    }
}

/// Midpoint displacement between two fixed control points: the point halfway
/// is displaced from one draw, then the left half is filled, then the right
/// half, each draw taken from where the one before left the stream. Gives
/// the points and the state of the stream afterwards.
pub open spec fn midpoints_filled(points: Seq<u8>, state: u64, from: int, to: int) -> (Seq<u8>, u64)
    decreases to - from,
{
    if to - from <= 1 {
        (points, state)
    } else {
        let mid = (from + to) / 2;
        let value = displaced(points[from], points[to], stream_u8(state));
        let left = midpoints_filled(points.update(mid, value), stream_advance(state), from, mid);
        midpoints_filled(left.0, left.1, mid, to)
    }
}

/// The control points of the river for a seed, and the state of the stream
/// once they are drawn: the first and the last point come from the first two
/// draws, the others from midpoint displacement between them.
pub open spec fn control_points(seed: u64) -> (Seq<u8>, u64) {
    let first = endpoint(stream_u8(seed));
    let second_state = stream_advance(seed);
    let last = endpoint(stream_u8(second_state));
    let ends = Seq::new(CONTROL_POINTS as nat, |i: int| 0u8).update(0, first).update(
        CONTROL_POINTS - 1,
        last,
    );
    midpoints_filled(ends, stream_advance(second_state), 0, CONTROL_POINTS - 1)
}

/// The largest step in column from one control point to the next.
pub const MAX_CONTROL_JUMP: u8 = 11;

/// How far apart two columns are.
pub open spec fn gap(a: u8, b: u8) -> int {
    if a >= b {
        a - b
    } else {
        b - a
    }
}

/// How far apart point `i` and the next one are.
pub open spec fn jump(points: Seq<u8>, i: int) -> int {
    gap(points[i], points[i + 1])
}

/// Whether control points describe a river that the map can hold: every
/// point is a column of the grid, the first and the last lie in the band
/// from 10 to 21, and no point is more than `MAX_CONTROL_JUMP` columns from
/// the next.
pub open spec fn is_tame(points: Seq<u8>) -> bool {
    &&& points.len() == CONTROL_POINTS
    &&& 10 <= points[0] <= 21
    &&& 10 <= points[CONTROL_POINTS - 1] <= 21
    &&& forall|i: int| 0 <= i < CONTROL_POINTS ==> #[trigger] points[i] < MAPHEIGHT
    &&& forall|i: int|
        0 <= i < CONTROL_POINTS - 1 ==> #[trigger] jump(points, i) <= MAX_CONTROL_JUMP
}

/// Whether `after` differs from `before` only strictly between `from` and
/// `to`, holds columns of the grid from `from` to `to`, and has no point of
/// that span more than `bound` columns from the next.
spec fn stays_close(before: Seq<u8>, after: Seq<u8>, from: int, to: int, bound: int) -> bool {
    &&& after.len() == before.len()
    &&& forall|i: int|
        0 <= i < before.len() && (i <= from || i >= to) ==> #[trigger] after[i] == before[i]
    &&& forall|i: int| from <= i <= to ==> #[trigger] after[i] < MAPHEIGHT
    &&& forall|i: int| from <= i < to ==> #[trigger] jump(after, i) <= bound
}

proof fn lemma_displaced_close(a: u8, b: u8, draw: u8, bound: int)
    requires
        a < MAPHEIGHT,
        b < MAPHEIGHT,
        gap(a, b) <= bound,
        bound >= 9,
    ensures
        displaced(a, b, draw) < MAPHEIGHT,
        gap(a, displaced(a, b, draw)) <= bound,
        gap(displaced(a, b, draw), b) <= bound,
{
}

/// Midpoint displacement between two columns of the grid keeps the points
/// outside the span as they were, puts every point of the span on a column
/// of the grid, and brings no two neighbours of the span further apart than
/// its ends were, or than 9 columns if they were closer.
proof fn lemma_midpoints_stay_close(points: Seq<u8>, state: u64, from: int, to: int, bound: int)
    requires
        0 <= from <= to < points.len(),
        points[from] < MAPHEIGHT,
        points[to] < MAPHEIGHT,
        gap(points[from], points[to]) <= bound,
        bound >= 9,
    ensures
        stays_close(points, midpoints_filled(points, state, from, to).0, from, to, bound),
    decreases to - from,
{
    let after = midpoints_filled(points, state, from, to).0;
    if to - from > 1 {
        let mid = (from + to) / 2;
        let value = displaced(points[from], points[to], stream_u8(state));
        lemma_displaced_close(points[from], points[to], stream_u8(state), bound);
        let seeded = points.update(mid, value);
        lemma_midpoints_stay_close(seeded, stream_advance(state), from, mid, bound);
        let left = midpoints_filled(seeded, stream_advance(state), from, mid);
        assert(stays_close(seeded, left.0, from, mid, bound));
        assert(left.0[mid] == seeded[mid]);
        assert(left.0[to] == seeded[to]);
        lemma_midpoints_stay_close(left.0, left.1, mid, to, bound);
        assert(after == midpoints_filled(left.0, left.1, mid, to).0);
        assert(stays_close(left.0, after, mid, to, bound));
        assert forall|i: int|
            0 <= i < points.len() && (i <= from || i >= to) implies #[trigger] after[i]
            == points[i] by {
            assert(after[i] == left.0[i]);
            assert(left.0[i] == seeded[i]);
        }
        assert forall|i: int| from <= i <= to implies #[trigger] after[i] < MAPHEIGHT by {
            if i <= mid {
                assert(after[i] == left.0[i]);
                assert(left.0[i] < MAPHEIGHT);
            }
        }
        assert forall|i: int| from <= i < to implies #[trigger] jump(after, i) <= bound by {
            if i < mid {
                assert(after[i] == left.0[i]);
                assert(after[i + 1] == left.0[i + 1]);
                assert(jump(left.0, i) <= bound);
            }
        }
    } else {
        assert forall|i: int| from <= i < to implies #[trigger] jump(after, i) <= bound by {
            assert(i == from && i + 1 == to);
        }
    }
}

/// Whatever the seed, its control points describe a river that the map can
/// hold.
pub proof fn lemma_control_points_tame(seed: u64)
    ensures
        is_tame(control_points(seed).0),
{
    let first = endpoint(stream_u8(seed));
    let second_state = stream_advance(seed);
    let last = endpoint(stream_u8(second_state));
    let ends = Seq::new(CONTROL_POINTS as nat, |i: int| 0u8).update(0, first).update(
        CONTROL_POINTS - 1,
        last,
    );
    lemma_midpoints_stay_close(
        ends,
        stream_advance(second_state),
        0,
        CONTROL_POINTS - 1,
        MAX_CONTROL_JUMP as int,
    );
    let after = control_points(seed).0;
    assert(stays_close(ends, after, 0, CONTROL_POINTS - 1, MAX_CONTROL_JUMP as int));
    assert(after[0] == ends[0]);
    assert(after[CONTROL_POINTS - 1] == ends[CONTROL_POINTS - 1]);
}

/// The column of the river's first or last control point, from one draw.
pub fn endpoint_column(draw: u8) -> (r: u8)
    ensures
        r == endpoint(draw),
        10 <= r <= 21,
{
    21 - draw % 12
}

/// The column of a control point between two others, from one draw.
pub fn displaced_midpoint(a: u8, b: u8, draw: u8) -> (r: u8)
    ensures
        r == displaced(a, b, draw),
        r <= 31,
{
    let mean: i16 = ((a as u16 + b as u16) / 2) as i16;
    let noise: i16 = 4 - (draw % 8) as i16;
    let moved: i16 = mean + noise;
    if moved < 0 {
        0
    } else if moved > 31 {
        31
    } else {
        moved as u8
    }
}

impl MapData {
    /// Fills in the control points strictly between `from` and `to` by
    /// midpoint displacement, the left half before the right one.
    pub fn evaluate_midpoint(
        from: usize,
        to: usize,
        points: &mut [u8; CONTROL_POINTS],
        mix64: &mut rand_xoshiro::SplitMix64,
    )
        requires
            from <= to < CONTROL_POINTS,
        ensures
            (final(points)@, stream_state(*final(mix64))) == midpoints_filled(
                old(points)@,
                stream_state(*old(mix64)),
                from as int,
                to as int,
            ),
        decreases to - from,
    {
        if to - from <= 1 {
            return ;
        }
        let xi: usize = (from + to) / 2;
        let av = points[from];
        let bv = points[to];
        let draw = draw_u8(mix64);
        points[xi] = displaced_midpoint(av, bv, draw);
        Self::evaluate_midpoint(from, xi, points, mix64);
        Self::evaluate_midpoint(xi, to, points, mix64);
    }

    /// Draws the control points of the river: the first and the last from
    /// one draw each, the others by midpoint displacement between them.
    pub fn river_points(mix64: &mut rand_xoshiro::SplitMix64) -> (points: [u8; CONTROL_POINTS])
        ensures
            (points@, stream_state(*final(mix64))) == control_points(stream_state(*old(mix64))),
            is_tame(points@),
    {
        let ghost seed = stream_state(*mix64);
        proof {
            lemma_control_points_tame(seed);
        }
        let mut points: [u8; CONTROL_POINTS] = [0u8;CONTROL_POINTS];
        let first_draw = draw_u8(mix64);
        points[0] = endpoint_column(first_draw);
        let last_draw = draw_u8(mix64);
        points[CONTROL_POINTS - 1] = endpoint_column(last_draw);
        assert(points@ =~= Seq::new(CONTROL_POINTS as nat, |i: int| 0u8).update(
            0,
            endpoint(stream_u8(seed)),
        ).update(CONTROL_POINTS - 1, endpoint(stream_u8(stream_advance(seed)))));
        Self::evaluate_midpoint(0, CONTROL_POINTS - 1, &mut points, mix64);
        points
    }
}

} // verus!
