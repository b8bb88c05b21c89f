//! The terrain grid and the trees that stand on it.

use vstd::prelude::*;
use crate::gamemode::MAPHEIGHT;
use crate::gamemode::TREECOUNT;

verus! {


/// A point outside the grid was handed to one of the grid's accessors.
#[derive(Debug, Clone, Copy, PartialEq, Eq, Structural)]
pub struct OutOfBounds {
    /// The column that was asked for.
    pub x: usize,
    /// The row that was asked for.
    pub y: usize,
}

/// Whether bit `col` of `row` is set.
pub open spec fn bit_is_set(row: u32, col: u32) -> bool {
    row & (1u32 << col) != 0
}

/// Whether `(x, y)` is a cell of the grid.
pub open spec fn in_grid(x: int, y: int) -> bool {
    0 <= x < MAPHEIGHT && 0 <= y < MAPHEIGHT
}

/// What an accessor of the grid gives for a point: the value, if the point
/// is a cell of the grid, else the refusal of that point.
pub open spec fn at_cell<T>(point: (usize, usize), value: T) -> Result<T, OutOfBounds> {
    if in_grid(point.0 as int, point.1 as int) {
        Ok(value)
    } else {
        Err(OutOfBounds { x: point.0, y: point.1 })
    }
}

/// What a bit plane holds at `(x, y)`: row `y` is a word, column `x` a bit of
/// it. Outside the grid a plane holds nothing.
pub open spec fn plane_cell(plane: [u32; MAPHEIGHT], x: int, y: int) -> bool {
    in_grid(x, y) && bit_is_set(plane[y], x as u32)
}

/// A plane after `(x, y)` was set to `value`, cell by cell.
pub open spec fn plane_written(
    before: [u32; MAPHEIGHT],
    after: [u32; MAPHEIGHT],
    x: int,
    y: int,
    value: bool,
) -> bool {
    forall|cx: int, cy: int|
        in_grid(cx, cy) ==> #[trigger] plane_cell(after, cx, cy) == (if cx == x && cy == y {
            value
        } else {
            plane_cell(before, cx, cy)
        })
}

proof fn lemma_bit_written(row: u32, x: u32, j: u32)
    requires
        x < 32,
        j < 32,
    ensures
        bit_is_set(row | (1u32 << x), j) == (j == x || bit_is_set(row, j)),
        bit_is_set(row & !(1u32 << x), j) == (j != x && bit_is_set(row, j)),
{
    assert(((row | (1u32 << x)) & (1u32 << j) != 0) == (j == x || (row & (1u32 << j) != 0)))
        by (bit_vector)
        requires
            x < 32,
            j < 32,
    ;
    assert(((row & !(1u32 << x)) & (1u32 << j) != 0) == (j != x && (row & (1u32 << j) != 0)))
        by (bit_vector)
        requires
            x < 32,
            j < 32,
    ;
}

/// Whether one of `trees` stands at `(x, y)` and can still be harvested.
pub open spec fn tree_on(trees: Seq<(u16, u16, i8)>, x: int, y: int) -> bool {
    exists|i: int|
        0 <= i < trees.len() && (#[trigger] trees[i]).2 > 0 && trees[i].0 == x && trees[i].1 == y
}

/// The length of the picture of a terrain in text: 32 lines of 32
/// characters and a line feed.
pub const TEXT_LEN: usize = 1056;

/// The tile that shows a cell, from what the two planes hold there.
pub open spec fn tile_index(is_water: bool, is_bridge: bool) -> usize {
    if is_bridge {
        2
    } else if is_water {
        1
    } else {
        0
    }
}

/// The map: two bit planes over the grid and a fixed table of trees.
#[derive(Debug, Clone, Copy)]
pub struct MapData {
    /// Water (set) or land (clear), one word per row.
    pub map: [u32; MAPHEIGHT],
    /// Where a bridge has been built, one word per row.
    pub bridge: [u32; MAPHEIGHT],
    /// The trees: column, row and activity. A tree can be harvested while
    /// its activity is above zero.
    pub tree_positions: [(u16, u16, i8); TREECOUNT],
}

impl MapData {
    /// Whether `(x, y)` is water.
    #[verifier::inline]
    pub open spec fn terrain_at(&self, x: int, y: int) -> bool {
        plane_cell(self.map, x, y)
    }

    /// Whether a bridge stands at `(x, y)`.
    #[verifier::inline]
    pub open spec fn bridge_at(&self, x: int, y: int) -> bool {
        plane_cell(self.bridge, x, y)
    }

    /// Whether the player can stand on `(x, y)`: water blocks the way unless
    /// a bridge has been built on it.
    pub open spec fn walkable_at(&self, x: int, y: int) -> bool {
        !(self.terrain_at(x, y) && !self.bridge_at(x, y))
    }

    /// A cell is walkable if and only if it is land, or it is water and a
    /// bridge stands on it.
    pub proof fn lemma_walkable(&self, x: int, y: int)
        ensures
            self.walkable_at(x, y) <==> !self.terrain_at(x, y) || (self.terrain_at(x, y)
                && self.bridge_at(x, y)),
    {
    }

    /// Whether a tree that can still be harvested stands at `(x, y)`.
    pub open spec fn tree_at(&self, x: int, y: int) -> bool {
        tree_on(self.tree_positions@, x, y)
    }

    pub fn get_tree_positions(&self) -> (r: &[(u16, u16, i8); TREECOUNT])
        ensures
            *r == self.tree_positions,
    {
        &self.tree_positions
    }

    pub fn get_tree_positions_mut(&mut self) -> (r: &mut [(u16, u16, i8); TREECOUNT])
        ensures
            *r == old(self).tree_positions,
            final(self).tree_positions == *final(r),
            final(self).map == old(self).map,
            final(self).bridge == old(self).bridge,
    {
        &mut self.tree_positions
    }

    /// Writes one cell of a bit plane, or refuses a point outside the grid
    /// and leaves the plane as it was.
    fn _set_u32_matrix(values: &mut [u32; MAPHEIGHT], point: (usize, usize), value: bool) -> (r:
        Result<(), OutOfBounds>)
        ensures
            r == at_cell(point, ()),
            plane_written(*old(values), *final(values), point.0 as int, point.1 as int, value),
            r.is_err() ==> *final(values) == *old(values),
    {
        let (x, y) = point;
        if x >= MAPHEIGHT || y >= MAPHEIGHT {
            return Err(OutOfBounds { x: point.0, y: point.1 });
        }
        let ghost before = *values;
        let mask: u32 = 1u32 << (x as u32);
        let row: u32 = values[y];
        if value {
            values[y] = row | mask;
        } else {
            values[y] = row & !mask;
        }
        proof {
            assert forall|cx: int, cy: int| in_grid(cx, cy) implies #[trigger] plane_cell(
                *values,
                cx,
                cy,
            ) == (if cx == x && cy == y {
                value
            } else {
                plane_cell(before, cx, cy)
            }) by {
                if cy == y {
                    lemma_bit_written(row, x as u32, cx as u32);
                }
            }
        }
        Ok(())
    }

    /// Reads one cell of a bit plane, or refuses a point outside the grid.
    fn _get_u32_matrix(values: &[u32; MAPHEIGHT], point: (usize, usize)) -> (r: Result<
        bool,
        OutOfBounds,
    >)
        ensures
            r == at_cell(point, plane_cell(*values, point.0 as int, point.1 as int)),
    {
        let (x, y) = point;
        if x >= MAPHEIGHT || y >= MAPHEIGHT {
            return Err(OutOfBounds { x: point.0, y: point.1 });
        }
        let row: u32 = values[y];
        Ok((row & (1u32 << (x as u32))) != 0)
    }

    /// Sets or clears the water bit of one cell.
    pub fn set_terrain_point(&mut self, point: (usize, usize), value: bool) -> (r: Result<
        (),
        OutOfBounds,
    >)
        ensures
            r == at_cell(point, ()),
            plane_written(old(self).map, final(self).map, point.0 as int, point.1 as int, value),
            r.is_err() ==> final(self).map == old(self).map,
            final(self).bridge == old(self).bridge,
            final(self).tree_positions == old(self).tree_positions,
    {
        Self::_set_u32_matrix(&mut self.map, point, value)
    }

    /// Sets or clears the bridge bit of one cell.
    pub fn set_bridge_point(&mut self, point: (usize, usize), value: bool) -> (r: Result<
        (),
        OutOfBounds,
    >)
        ensures
            r == at_cell(point, ()),
            plane_written(
                old(self).bridge,
                final(self).bridge,
                point.0 as int,
                point.1 as int,
                value,
            ),
            r.is_err() ==> final(self).bridge == old(self).bridge,
            final(self).map == old(self).map,
            final(self).tree_positions == old(self).tree_positions,
    {
        Self::_set_u32_matrix(&mut self.bridge, point, value)
    }

    /// Whether a cell is water.
    pub fn get_terrain_point(&self, point: (usize, usize)) -> (r: Result<bool, OutOfBounds>)
        ensures
            r == at_cell(point, self.terrain_at(point.0 as int, point.1 as int)),
    {
        Self::_get_u32_matrix(&self.map, point)
    }

    /// Whether a bridge stands on a cell.
    pub fn get_bridge_point(&self, point: (usize, usize)) -> (r: Result<bool, OutOfBounds>)
        ensures
            r == at_cell(point, self.bridge_at(point.0 as int, point.1 as int)),
    {
        Self::_get_u32_matrix(&self.bridge, point)
    }

    /// Whether the player can stand on a cell: water blocks the way unless a
    /// bridge has been built on it, land never does.
    pub fn is_walkable(&self, point: (usize, usize)) -> (r: Result<bool, OutOfBounds>)
        ensures
            r == at_cell(point, self.walkable_at(point.0 as int, point.1 as int)),
    {
        let water = self.get_terrain_point(point)?;
        let bridge = self.get_bridge_point(point)?;
        Ok(!(water && !bridge))
    }

    /// The tile that shows a cell: 2 for a bridge, 1 for open water, 0 for
    /// land.
    pub fn tile_at(&self, point: (usize, usize)) -> (r: Result<usize, OutOfBounds>)
        ensures
            r == at_cell(
                point,
                tile_index(
                    self.terrain_at(point.0 as int, point.1 as int),
                    self.bridge_at(point.0 as int, point.1 as int),
                ),
            ),
    {
        let is_water = self.get_terrain_point(point)?;
        let is_bridge = self.get_bridge_point(point)?;
        Ok(
            if is_bridge {
                2
            } else if is_water {
                1
            } else {
                0
            },
        )
    }

    /// Character `i` of the picture of the terrain: each row is a line of 32
    /// characters, `*` for water and `#` for land, and ends in a line feed.
    pub open spec fn text_byte(&self, i: int) -> u8 {
        if i % 33 == 32 {
            10
        } else if self.terrain_at(i % 33, i / 33) {
            42
        } else {
            35
        }
    }

    /// The picture of the terrain in text.
    pub open spec fn text(&self) -> Seq<u8> {
        Seq::new(TEXT_LEN as nat, |i: int| self.text_byte(i))
    }

    /// Draws the picture of the terrain in text.
    pub fn to_text(&self) -> (out: Vec<u8>)
        ensures
            out@ == self.text(),
    {
        let mut out: Vec<u8> = Vec::new();
        let mut y: usize = 0;
        while y < MAPHEIGHT
            invariant
                y <= MAPHEIGHT,
                out@.len() == y * 33,
                forall|i: int| 0 <= i < out@.len() ==> out@[i] == self.text_byte(i),
            decreases MAPHEIGHT - y,
        {
            let mut x: usize = 0;
            while x < MAPHEIGHT
                invariant
                    x <= MAPHEIGHT,
                    y < MAPHEIGHT,
                    out@.len() == y * 33 + x,
                    forall|i: int| 0 <= i < out@.len() ==> out@[i] == self.text_byte(i),
                decreases MAPHEIGHT - x,
            {
                let water = match self.get_terrain_point((x, y)) {
                    Ok(water) => water,
                    Err(_) => false,
                };
                out.push(if water { 42 } else { 35 });
                x += 1;
            }
            out.push(10);
            y += 1;
        }
        assert(out@ =~= self.text());
        out
    }

    /// Whether a tree that can still be harvested stands on a cell.
    pub fn has_tree(&self, point: (u16, u16)) -> (r: bool)
        ensures
            r == self.tree_at(point.0 as int, point.1 as int),
    {
        let mut i: usize = 0;
        while i < TREECOUNT
            invariant
                i <= TREECOUNT,
                forall|j: int|
                    0 <= j < i ==> !((#[trigger] self.tree_positions@[j]).2 > 0
                        && self.tree_positions@[j].0 == point.0 && self.tree_positions@[j].1
                        == point.1),
            decreases TREECOUNT - i,
        {
            let tree = self.tree_positions[i];
            if tree.2 > 0 && tree.0 == point.0 && tree.1 == point.1 {
                return true;
            }
            i += 1;
        }
        false
    }
}

/// The tree table before any tree is planted: every slot inactive.
pub open spec fn bare_trees() -> Seq<(u16, u16, i8)> {
    Seq::new(TREECOUNT as nat, |i: int| (0u16, 0u16, -1i8))
}

/// Whether a plane is empty.
pub open spec fn is_clear_plane(plane: [u32; MAPHEIGHT]) -> bool {
    forall|y: int| 0 <= y < MAPHEIGHT ==> #[trigger] plane[y] == 0
}

impl MapData {
    /// A map of bare land: no water, no bridge, and every slot of the tree
    /// table inactive.
    pub fn blank() -> (r: MapData)
        ensures
            is_clear_plane(r.map),
            is_clear_plane(r.bridge),
            r.tree_positions@ == bare_trees(),
            forall|x: int, y: int| !#[trigger] r.terrain_at(x, y),
            forall|x: int, y: int| !#[trigger] r.bridge_at(x, y),
            forall|x: int, y: int| !#[trigger] r.tree_at(x, y),
    {
        let r = MapData {
            map: [0u32;MAPHEIGHT],
            bridge: [0u32;MAPHEIGHT],
            tree_positions: [(0u16, 0u16, -1i8);TREECOUNT],
        };
        proof {
            assert(r.tree_positions@ =~= bare_trees());
            assert forall|x: int, y: int|
                !#[trigger] r.terrain_at(x, y) && !#[trigger] r.bridge_at(x, y) by {
                if in_grid(x, y) {
                    lemma_zero_has_no_bit(x as u32);
                }
            }
        }
        r
    }
}

proof fn lemma_zero_has_no_bit(col: u32)
    ensures
        !bit_is_set(0u32, col),
{
    assert(0u32 & (1u32 << col) == 0) by (bit_vector);
}

/// The bits of `word` below bit `k`.
spec fn low_bits(word: u32, k: u32) -> u32 {
    word & (((1u64 << (k as u64)) - 1) as u32)
}

proof fn lemma_low_bits_agree(a: u32, b: u32, k: u32)
    requires
        k <= 32,
        forall|j: u32| j < k ==> bit_is_set(a, j) == bit_is_set(b, j),
    ensures
        low_bits(a, k) == low_bits(b, k),
    decreases k,
{
    if k == 0 {
        assert(low_bits(a, 0) == low_bits(b, 0)) by (bit_vector);
    } else {
        let j = (k - 1) as u32;
        lemma_low_bits_agree(a, b, j);
        assert(bit_is_set(a, j) == bit_is_set(b, j));
        assert(low_bits(a, k) == low_bits(b, k)) by (bit_vector)
            requires
                j < 32,
                k == j + 1,
                low_bits(a, j) == low_bits(b, j),
                bit_is_set(a, j) == bit_is_set(b, j),
        ;
    }
}

/// Two words with the same 32 bits are the same word.
pub proof fn lemma_word_extensional(a: u32, b: u32)
    requires
        forall|j: u32| j < 32 ==> bit_is_set(a, j) == bit_is_set(b, j),
    ensures
        a == b,
{
    lemma_low_bits_agree(a, b, 32);
    assert(a == low_bits(a, 32)) by (bit_vector);
    assert(b == low_bits(b, 32)) by (bit_vector);
}

/// Two planes that hold the same at every cell of the grid are the same
/// plane: what the cells hold is all there is to a plane.
pub proof fn lemma_plane_extensional(a: [u32; MAPHEIGHT], b: [u32; MAPHEIGHT])
    requires
        forall|x: int, y: int| in_grid(x, y) ==> plane_cell(a, x, y) == plane_cell(b, x, y),
    ensures
        a == b,
{
    assert forall|y: int| 0 <= y < MAPHEIGHT implies a[y] == b[y] by {
        assert forall|j: u32| j < 32 implies bit_is_set(a[y], j) == bit_is_set(b[y], j) by {
            assert(in_grid(j as int, y));
            assert(plane_cell(a, j as int, y) == plane_cell(b, j as int, y));
        }
        lemma_word_extensional(a[y], b[y]);
    }
    assert(a =~= b);
}

} // verus!
