//! Map generation: a seed gives a river and, on its banks, the trees.

use vstd::prelude::*;
use crate::gamemode::MAPHEIGHT;
use crate::gamemode::TREECOUNT;
use crate::state::map::bare_trees;
use crate::state::map::in_grid;
use crate::state::map::is_clear_plane;
use crate::state::map::lemma_plane_extensional;
use crate::state::map::plane_cell;
use crate::state::map::MapData;
use crate::state::river::control_points;
use crate::state::river::is_river_plane;
use crate::state::river::river_covers;
use crate::state::river::runs_through;
use crate::state::river::CONTROL_POINTS;
use crate::stream::draw_u16;
use crate::stream::seeded_stream;
use crate::stream::stream_advance;
use crate::stream::stream_state;
use crate::stream::stream_u16;

verus! {

/// The rows, counted from the top, on which trees are planted. The rows below
/// stay bare: the bias is intended.
pub const TREE_ROWS: u16 = 24;

/// How many cells are tried for one tree before generation gives up.
pub const PLACEMENT_ATTEMPTS: u32 = 4096;

/// The cell that two draws propose for a tree: a column of the map and one
/// of the planted rows.
pub open spec fn proposed_cell(draw_x: u16, draw_y: u16) -> (u16, u16) {
    ((draw_x % (MAPHEIGHT as u16)) as u16, (draw_y % TREE_ROWS) as u16)
}

/// Whether one of the first `placed` trees stands on a cell, be it active
/// or not.
pub open spec fn occupied(trees: Seq<(u16, u16, i8)>, placed: int, cell: (u16, u16)) -> bool {
    exists|j: int| 0 <= j < placed && (#[trigger] trees[j]).0 == cell.0 && trees[j].1 == cell.1
}

/// Whether one more tree can be planted on a cell: it is land and none of
/// the trees planted so far, the first `placed` of the table, stands on it.
pub open spec fn plantable(
    plane: [u32; MAPHEIGHT],
    trees: Seq<(u16, u16, i8)>,
    placed: int,
    cell: (u16, u16),
) -> bool {
    !plane_cell(plane, cell.0 as int, cell.1 as int) && !occupied(trees, placed, cell)
}

/// Rejection sampling of one cell for a tree: two draws give a column and a
/// row of the planted area; the cell is taken if it is land and none of the
/// trees planted so far stands on it, else the next two draws are tried,
/// `attempts` times in all. Gives the cell and the state of the stream
/// afterwards.
pub open spec fn sampled_cell(
    plane: [u32; MAPHEIGHT],
    trees: Seq<(u16, u16, i8)>,
    placed: int,
    state: u64,
    attempts: nat,
) -> Option<(u16, u16, u64)>
    decreases attempts,
{
    if attempts == 0 {
        None
    } else {
        let mid_state = stream_advance(state);
        let end_state = stream_advance(mid_state);
        let cell = proposed_cell(stream_u16(state), stream_u16(mid_state));
        if plantable(plane, trees, placed, cell) {
            Some((cell.0, cell.1, end_state))
        } else {
            sampled_cell(plane, trees, placed, end_state, (attempts - 1) as nat)
        }
    }
}

/// The tree table once the slots from `i` on are planted, one after the
/// other, or `None` if one of them finds no cell.
pub open spec fn planted(
    plane: [u32; MAPHEIGHT],
    trees: Seq<(u16, u16, i8)>,
    i: int,
    state: u64,
) -> Option<Seq<(u16, u16, i8)>>
    decreases TREECOUNT - i,
{
    if i >= TREECOUNT {
        Some(trees)
    } else {
        match sampled_cell(plane, trees, i, state, PLACEMENT_ATTEMPTS as nat) {
            None => None,
            Some((x, y, next)) => planted(plane, trees.update(i, (x, y, 1i8)), i + 1, next),
        }
    }
}

/// What generation from `seed` gives, for a plane that holds the river of
/// the seed's control points: the terrain is that plane, no bridge is built,
/// and the trees are planted from the stream where the control points left
/// it; nothing, if a tree found no cell within its attempts.
pub open spec fn is_generated_on(seed: u64, plane: [u32; MAPHEIGHT], r: Option<MapData>) -> bool {
    &&& is_river_plane(plane, control_points(seed).0)
    &&& match r {
        Some(m) => m.map == plane && is_clear_plane(m.bridge) && planted(
            plane,
            bare_trees(),
            0,
            control_points(seed).1,
        ) == Some(m.tree_positions@),
        None => planted(plane, bare_trees(), 0, control_points(seed).1).is_none(),
    }
}

/// What generation from `seed` gives.
pub open spec fn is_generated(seed: u64, r: Option<MapData>) -> bool {
    exists|plane: [u32; MAPHEIGHT]| #[trigger] is_generated_on(seed, plane, r)
}

/// Whether every tree can be harvested, stands on land in the planted rows,
/// and shares its cell with no other tree.
pub open spec fn trees_well_placed(m: MapData) -> bool {
    forall|i: int|
        0 <= i < TREECOUNT ==> {
            let t = #[trigger] m.tree_positions@[i];
            &&& t.2 == 1
            &&& t.0 < MAPHEIGHT
            &&& t.1 < TREE_ROWS
            &&& !m.terrain_at(t.0 as int, t.1 as int)
            &&& forall|j: int|
                0 <= j < TREECOUNT && j != i ==> !(t.0 == (#[trigger] m.tree_positions@[j]).0 && t.1
                    == m.tree_positions@[j].1)
        }
}

impl MapData {
    /// Whether one of the first `placed` trees of the table stands on a cell,
    /// be it active or not.
    pub fn is_occupied(&self, placed: usize, cell: (u16, u16)) -> (r: bool)
        requires
            placed <= TREECOUNT,
        ensures
            r == occupied(self.tree_positions@, placed as int, cell),
    {
        let mut j: usize = 0;
        while j < placed
            invariant
                j <= placed <= TREECOUNT,
                !occupied(self.tree_positions@, j as int, cell),
            decreases placed - j,
        {
            let tree = self.tree_positions[j];
            if tree.0 == cell.0 && tree.1 == cell.1 {
                return true;
            }
            j += 1;
        }
        false
    }

    /// The cell that two draws propose for one more tree, if it can be
    /// planted there: if the cell is land and none of the first `placed`
    /// trees stands on it.
    pub fn tree_cell(&self, placed: usize, draw_x: u16, draw_y: u16) -> (r: Option<(u16, u16)>)
        requires
            placed <= TREECOUNT,
        ensures
            r == (if plantable(
                self.map,
                self.tree_positions@,
                placed as int,
                proposed_cell(draw_x, draw_y),
            ) {
                Some(proposed_cell(draw_x, draw_y))
            } else {
                None
            }),
            r matches Some(cell) ==> cell.0 < MAPHEIGHT && cell.1 < TREE_ROWS,
    {
        let x: u16 = draw_x % (MAPHEIGHT as u16);
        let y: u16 = draw_y % TREE_ROWS;
        let water = match self.get_terrain_point((x as usize, y as usize)) {
            Ok(water) => water,
            Err(_) => true,
        };
        if !(water || self.is_occupied(placed, (x, y))) {
            Some((x, y))
        } else {
            None
        }
    }

    /// Looks for a cell for one more tree by rejection sampling.
    fn sample_cell(&self, placed: usize, mix64: &mut rand_xoshiro::SplitMix64) -> (r: Option<
        (u16, u16),
    >)
        requires
            placed <= TREECOUNT,
        ensures
            match sampled_cell(
                self.map,
                self.tree_positions@,
                placed as int,
                stream_state(*old(mix64)),
                PLACEMENT_ATTEMPTS as nat,
            ) {
                Some((x, y, next)) => r == Some((x, y)) && stream_state(*final(mix64)) == next
                    && x < MAPHEIGHT && y < TREE_ROWS && plantable(
                    self.map,
                    self.tree_positions@,
                    placed as int,
                    (x, y),
                ),
                None => r.is_none(),
            },
    {
        let mut left: u32 = PLACEMENT_ATTEMPTS;
        while left > 0
            invariant
                placed <= TREECOUNT,
                sampled_cell(
                    self.map,
                    self.tree_positions@,
                    placed as int,
                    stream_state(*old(mix64)),
                    PLACEMENT_ATTEMPTS as nat,
                ) == sampled_cell(
                    self.map,
                    self.tree_positions@,
                    placed as int,
                    stream_state(*mix64),
                    left as nat,
                ),
            decreases left,
        {
            let draw_x: u16 = draw_u16(mix64);
            let draw_y: u16 = draw_u16(mix64);
            if let Some(cell) = self.tree_cell(placed, draw_x, draw_y) {
                return Some(cell);
            }
            left -= 1;
        }
        None
    }

    /// Generates the map of a seed: the river first, then the trees. The
    /// same seed always gives the same map. The river runs through its
    /// control points, and every tree stands on land, in a cell of its own.
    /// Gives nothing if a tree found no free cell within
    /// `PLACEMENT_ATTEMPTS` tries.
    pub fn gen(seed: u64) -> (r: Option<MapData>)
        ensures
            is_generated(seed, r),
            r matches Some(m) ==> trees_well_placed(m) && runs_through(
                m.map,
                control_points(seed).0,
                CONTROL_POINTS - 1,
            ),
    {
        let mut mix64 = seeded_stream(seed);
        let points = Self::river_points(&mut mix64);
        let mut data = Self::blank();
        let ghost blank = data;
        data.draw_river(points);
        proof {
            assert forall|x: int, y: int| in_grid(x, y) implies #[trigger] plane_cell(
                data.map,
                x,
                y,
            ) == river_covers(points@, x, y) by {
                assert(!blank.terrain_at(x, y));
            }
        }

        let ghost tree_state = stream_state(mix64);
        let mut i: usize = 0;
        while i < TREECOUNT
            invariant
                i <= TREECOUNT,
                (points@, tree_state) == control_points(seed),
                is_river_plane(data.map, points@),
                runs_through(data.map, points@, CONTROL_POINTS - 1),
                is_clear_plane(data.bridge),
                planted(data.map, bare_trees(), 0, tree_state) == planted(
                    data.map,
                    data.tree_positions@,
                    i as int,
                    stream_state(mix64),
                ),
                forall|j: int|
                    i <= j < TREECOUNT ==> (#[trigger] data.tree_positions@[j]).2 <= 0,
                forall|j: int|
                    0 <= j < i ==> {
                        let t = #[trigger] data.tree_positions@[j];
                        &&& t.2 == 1
                        &&& t.0 < MAPHEIGHT
                        &&& t.1 < TREE_ROWS
                        &&& !data.terrain_at(t.0 as int, t.1 as int)
                        &&& forall|k: int|
                            0 <= k < i && k != j ==> !(t.0 == (#[trigger] data.tree_positions@[k]).0
                                && t.1 == data.tree_positions@[k].1)
                    },
            decreases TREECOUNT - i,
        {
            let ghost before = data.tree_positions@;
            match data.sample_cell(i, &mut mix64) {
                None => {
                    assert(is_generated_on(seed, data.map, None));
                    return None;
                },
                Some((x, y)) => {
                    data.tree_positions[i] = (x, y, 1);
                    proof {
                        assert(data.tree_positions@ =~= before.update(i as int, (x, y, 1i8)));
                        assert forall|j: int| 0 <= j < i implies !(before[j].0 == x && before[j].1
                            == y) by {
                            if before[j].0 == x && before[j].1 == y {
                                assert(occupied(before, i as int, (x, y)));
                            }
                        }
                    }
                },
            }
            i += 1;
        }
        assert(is_generated_on(seed, data.map, Some(data)));
        Some(data)
    }
}

/// Generation is deterministic: whatever two runs on one seed give, they
/// give the same, bit for bit, terrain and trees alike.
pub proof fn lemma_generation_deterministic(seed: u64, a: Option<MapData>, b: Option<MapData>)
    requires
        is_generated(seed, a),
        is_generated(seed, b),
    ensures
        a == b,
{
    let plane_a = choose|plane: [u32; MAPHEIGHT]| #[trigger] is_generated_on(seed, plane, a);
    let plane_b = choose|plane: [u32; MAPHEIGHT]| #[trigger] is_generated_on(seed, plane, b);
    let points = control_points(seed).0;
    assert forall|x: int, y: int| in_grid(x, y) implies plane_cell(plane_a, x, y) == plane_cell(
        plane_b,
        x,
        y,
    ) by {
        assert(plane_cell(plane_a, x, y) == river_covers(points, x, y));
        assert(plane_cell(plane_b, x, y) == river_covers(points, x, y));
    }
    lemma_plane_extensional(plane_a, plane_b);
    match (a, b) {
        (Some(ma), Some(mb)) => {
            assert(ma.bridge =~= mb.bridge);
            assert(ma.tree_positions =~= mb.tree_positions);
        },
        _ => {},
    }
}

} // verus!
