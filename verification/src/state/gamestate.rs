//! The whole state of a session and the rules of one simulation step.

use vstd::prelude::*;
use crate::gamemode::autosave_due;
use crate::gamemode::held_direction;
use crate::gamemode::is_autosave_tick;
use crate::gamemode::pressed_direction;
use crate::gamemode::Input;
use crate::gamemode::TREECOUNT;
use crate::gamemode::WOOD_PER_TREE;
use crate::state::inventory::Inventory;
use crate::state::inventory::ItemType;
use crate::state::generate::is_generated;
use crate::state::generate::trees_well_placed;
use crate::state::map::plane_written;
use crate::state::map::MapData;
use crate::state::player::clamped;
use crate::state::player::step_from;
use crate::state::player::LAST_CELL;
use crate::state::player::Direction;
use crate::state::player::PlayerObj;
use crate::state::player::PlayerView;
use crate::state::serialized::decodes_to;
use crate::state::serialized::lemma_snapshot_round_trip;
use crate::state::river::control_points;
use crate::state::river::runs_through;
use crate::state::river::CONTROL_POINTS;
use crate::state::serialized::SerializedState;
use crate::traits::manhattan;
use crate::traits::NextTo;

verus! {

/// The state of a session: the map, the player, the inventory and the tick
/// counter. Nothing of it is shared with anyone else.
pub struct GameState {
    map_data: MapData,
    player_obj: PlayerObj,
    inventory: Inventory,
    frame: u64,
}

/// What a game state is.
pub struct GameView {
    pub map_data: MapData,
    pub player: PlayerView,
    pub inventory: Inventory,
    /// The number of steps simulated so far.
    pub frame: u64,
}

impl View for GameState {
    type V = GameView;

    closed spec fn view(&self) -> GameView {
        GameView {
            map_data: self.map_data,
            player: self.player_obj@,
            inventory: self.inventory,
            frame: self.frame,
        }
    }
}

/// Whether the player may step onto a cell: it is walkable and no tree
/// that can still be harvested stands on it.
pub open spec fn can_enter(map: MapData, cell: (u8, u8)) -> bool {
    map.walkable_at(cell.0 as int, cell.1 as int) && !map.tree_at(cell.0 as int, cell.1 as int)
}

/// The player after the input of one step. The direction held is faced,
/// whether or not the player moves. The player moves one cell on the step
/// in which that direction's button went down, if the cell can be entered.
pub open spec fn moved(map: MapData, player: PlayerView, input: Input) -> PlayerView {
    PlayerView {
        direction: match held_direction(input) {
            Some(d) => d,
            None => player.direction,
        },
        position: match pressed_direction(input) {
            Some(d) => if can_enter(map, step_from(player.position, d)) {
                step_from(player.position, d)
            } else {
                player.position
            },
            None => player.position,
        },
    }
}

/// Whether a tree is harvested from a cell: it can be harvested and stands
/// exactly one step away.
pub open spec fn harvestable(tree: (u16, u16, i8), at: (u8, u8)) -> bool {
    tree.2 > 0 && manhattan(tree.0 as int, tree.1 as int, at.0 as int, at.1 as int) == 1
}

/// The trees after a harvest from a cell: every tree that is harvested is
/// inactive, the others are as before.
pub open spec fn harvested(trees: Seq<(u16, u16, i8)>, at: (u8, u8)) -> Seq<(u16, u16, i8)> {
    Seq::new(
        trees.len(),
        |i: int|
            if harvestable(trees[i], at) {
                (trees[i].0, trees[i].1, 0i8)
            } else {
                trees[i]
            },
    )
}

/// How many of the first `n` trees are harvested from a cell.
pub open spec fn harvest_count(trees: Seq<(u16, u16, i8)>, at: (u8, u8), n: int) -> int
    decreases n,
{
    if n <= 0 {
        0
    } else {
        harvest_count(trees, at, n - 1) + if harvestable(trees[n - 1], at) {
            1int
        } else {
            0int
        }
    }
}

/// A count after a gain, held at 255.
pub open spec fn saturated(have: u8, gain: int) -> u8 {
    if have + gain > 255 {
        255u8
    } else {
        (have + gain) as u8
    }
}

/// The wood after the harvest of one step, if there is one.
pub open spec fn wood_after_harvest(pre: GameView, input: Input) -> u8 {
    let at = moved(pre.map_data, pre.player, input).position;
    if input.harvest.just_pressed {
        saturated(
            pre.inventory.count(ItemType::WoodPlank),
            WOOD_PER_TREE * harvest_count(pre.map_data.tree_positions@, at, TREECOUNT as int),
        )
    } else {
        pre.inventory.count(ItemType::WoodPlank)
    }
}

/// The cell that the player would build a bridge on: one step ahead in the
/// direction faced. At an edge of the grid the step stops.
pub open spec fn bridge_target(player: PlayerView) -> (u8, u8) {
    step_from(player.position, player.direction)
}

/// Whether a bridge can be built on a cell with the wood at hand: the cell
/// is water, no bridge stands on it yet, and there is a plank to spend.
pub open spec fn can_build(map: MapData, target: (u8, u8), wood: u8) -> bool {
    map.terrain_at(target.0 as int, target.1 as int) && !map.bridge_at(
        target.0 as int,
        target.1 as int,
    ) && wood > 0
}

/// Whether `post` is `pre` with a bridge built ahead of the player for one
/// plank, and nothing else changed.
pub open spec fn is_bridged(pre: GameView, post: GameView) -> bool {
    &&& plane_written(
        pre.map_data.bridge,
        post.map_data.bridge,
        bridge_target(pre.player).0 as int,
        bridge_target(pre.player).1 as int,
        true,
    )
    &&& post.inventory.count(ItemType::WoodPlank) == pre.inventory.count(ItemType::WoodPlank) - 1
    &&& post.inventory.same_but(pre.inventory, ItemType::WoodPlank)
    &&& post.map_data.map == pre.map_data.map
    &&& post.map_data.tree_positions == pre.map_data.tree_positions
    &&& post.player == pre.player
    &&& post.frame == pre.frame
}

/// Whether the step with this input builds a bridge.
pub open spec fn step_builds(pre: GameView, input: Input) -> bool {
    input.build.just_pressed && can_build(
        pre.map_data,
        bridge_target(moved(pre.map_data, pre.player, input)),
        wood_after_harvest(pre, input),
    )
}

/// One simulation step, from the state before and the input to the state
/// after: the player turns and moves; then the harvest, if its button went
/// down, fells every tree next to the player at once and adds its planks;
/// then the build, if its button went down and a bridge can be built ahead,
/// spends one plank on it; then the tick counter advances by one.
pub open spec fn step_relates(pre: GameView, input: Input, post: GameView) -> bool {
    let player = moved(pre.map_data, pre.player, input);
    let target = bridge_target(player);
    let wood = wood_after_harvest(pre, input);
    &&& post.player == player
    &&& post.map_data.map == pre.map_data.map
    &&& post.map_data.tree_positions@ == (if input.harvest.just_pressed {
        harvested(pre.map_data.tree_positions@, player.position)
    } else {
        pre.map_data.tree_positions@
    })
    &&& if step_builds(pre, input) {
        &&& plane_written(
            pre.map_data.bridge,
            post.map_data.bridge,
            target.0 as int,
            target.1 as int,
            true,
        )
        &&& post.inventory.count(ItemType::WoodPlank) == wood - 1
    } else {
        &&& post.map_data.bridge == pre.map_data.bridge
        &&& post.inventory.count(ItemType::WoodPlank) == wood
    }
    &&& post.inventory.same_but(pre.inventory, ItemType::WoodPlank)
    &&& post.frame == pre.frame + 1
}

/// The snapshot of a state.
pub open spec fn snapshot_of(v: GameView) -> SerializedState {
    SerializedState {
        map_data: v.map_data,
        inventory: v.inventory,
        player: (v.player.position.0, v.player.position.1, v.player.direction),
        frame: v.frame,
    }
}

/// Whether a state is the one that a snapshot was taken of: every field is
/// as the snapshot has it, but that a player position outside the grid is
/// held at its edge.
pub open spec fn is_restored(state: SerializedState, v: GameView) -> bool {
    &&& v.map_data == state.map_data
    &&& v.inventory == state.inventory
    &&& v.player.position == (clamped(state.player.0), clamped(state.player.1))
    &&& v.player.direction == state.player.2
    &&& v.frame == state.frame
}

/// What starting a new game from a seed gives: the map generated from the
/// seed, the player in the top left corner facing up, an empty inventory
/// and the tick counter at zero; or nothing, where the seed gives no map.
pub open spec fn is_new_game(seed: u64, r: Option<GameView>) -> bool {
    &&& is_generated(
        seed,
        match r {
            Some(v) => Some(v.map_data),
            None => None,
        },
    )
    &&& r matches Some(v) ==> {
        &&& trees_well_placed(v.map_data)
        &&& runs_through(v.map_data.map, control_points(seed).0, CONTROL_POINTS - 1)
        &&& v.player == (PlayerView { direction: Direction::UP, position: (0u8, 0u8) })
        &&& forall|item: ItemType| v.inventory.count(item) == 0
        &&& v.frame == 0
    }
}

/// What a state is, of a state that may be missing.
pub open spec fn views(r: Option<GameState>) -> Option<GameView> {
    match r {
        Some(g) => Some(g@),
        None => None,
    }
}

impl GameState {
    /// The state that a snapshot was taken of. A player position outside
    /// the grid, which no snapshot of a game holds, is held at its edge.
    pub fn from_save_state(state: SerializedState) -> (r: Self)
        ensures
            is_restored(state, r@),
    {
        let mut player_obj = PlayerObj::new();
        player_obj.set_position((state.player.0, state.player.1));
        player_obj.set_direction(state.player.2);
        Self {
            map_data: state.map_data,
            inventory: state.inventory,
            player_obj,
            frame: state.frame,
        }
    }

    /// A new game on the map of a seed: the player in the top left corner
    /// facing up, nothing in the inventory, the tick counter at zero. Gives
    /// nothing where the seed gives no map.
    pub fn new(seed_mix: u64) -> (r: Option<Self>)
        ensures
            is_new_game(seed_mix, views(r)),
    {
        match MapData::gen(seed_mix) {
            Some(map_data) => Some(
                Self {
                    map_data,
                    player_obj: PlayerObj::new(),
                    inventory: Inventory::default(),
                    frame: 0,
                },
            ),
            None => None,
        }
    }

    /// The state to start a session with. Where a saved game is asked for
    /// and a record was read, the game goes on from it. Else, and that is
    /// no fault, a new game starts from the seed.
    pub fn resume_or_new(reload_state: bool, record: Option<SerializedState>, seed: u64) -> (r:
        Option<Self>)
        ensures
            reload_state && record.is_some() ==> r.is_some() && is_restored(
                record.unwrap(),
                r.unwrap()@,
            ),
            !(reload_state && record.is_some()) ==> is_new_game(seed, views(r)),
    {
        if reload_state {
            if let Some(state) = record {
                return Some(Self::from_save_state(state));
            }
        }
        Self::new(seed)
    }

    pub fn map_data(&self) -> (r: &MapData)
        ensures
            *r == self@.map_data,
    {
        &self.map_data
    }

    pub fn map_data_mut(&mut self) -> (r: &mut MapData)
        ensures
            *r == old(self)@.map_data,
            final(self)@ == (GameView { map_data: *final(r), ..old(self)@ }),
    {
        &mut self.map_data
    }

    pub fn player_obj(&self) -> (r: &PlayerObj)
        ensures
            r@ == self@.player,
    {
        &self.player_obj
    }

    pub fn player_obj_mut(&mut self) -> (r: &mut PlayerObj)
        ensures
            r@ == old(self)@.player,
            final(self)@ == (GameView { player: final(r)@, ..old(self)@ }),
    {
        &mut self.player_obj
    }

    pub fn inventory(&self) -> (r: &Inventory)
        ensures
            *r == self@.inventory,
    {
        &self.inventory
    }

    pub fn inventory_mut(&mut self) -> (r: &mut Inventory)
        ensures
            *r == old(self)@.inventory,
            final(self)@ == (GameView { inventory: *final(r), ..old(self)@ }),
    {
        &mut self.inventory
    }

    /// The number of steps simulated so far.
    pub fn frame(&self) -> (r: u64)
        ensures
            r == self@.frame,
    {
        self.frame
    }

    /// Advances the tick counter by one and gives its new value.
    pub fn step_frame(&mut self) -> (r: u64)
        requires
            old(self)@.frame < u64::MAX,
        ensures
            r == old(self)@.frame + 1,
            final(self)@ == (GameView { frame: r, ..old(self)@ }),
    {
        self.frame += 1;
        self.frame
    }

    /// The snapshot of this state: every field of it, at one and the same
    /// tick.
    pub fn to_save_state(&self) -> (r: SerializedState)
        ensures
            r == snapshot_of(self@),
            r.player.0 <= LAST_CELL,
            r.player.1 <= LAST_CELL,
    {
        let (px, py) = self.player_obj.get_position();
        SerializedState {
            player: (px, py, self.player_obj.get_direction()),
            inventory: self.inventory,
            map_data: self.map_data,
            frame: self.frame,
        }
    }
}

impl GameState {
    /// Turns and moves the player as the input asks.
    pub fn update_player(&mut self, input: &Input)
        ensures
            final(self)@ == (GameView {
                player: moved(old(self)@.map_data, old(self)@.player, *input),
                ..old(self)@
            }),
    {
        if let Some(direction) = input.facing() {
            self.player_obj.set_direction(direction);
        }
        if let Some(direction) = input.movement() {
            let (nx, ny) = self.player_obj.move_direction(direction);
            let is_walkable = match self.map_data.is_walkable((nx as usize, ny as usize)) {
                Ok(walkable) => walkable,
                Err(_) => false,
            };
            let collides_tree = self.map_data.has_tree((nx as u16, ny as u16));
            if is_walkable && !collides_tree {
                self.player_obj.set_position((nx, ny));
            }
        }
    }

    /// Harvests every tree next to the player, all at once: each becomes
    /// inactive and yields its planks. Gives the number of trees harvested.
    /// A tree that was harvested before yields nothing again.
    pub fn harvest(&mut self) -> (felled: u8)
        ensures
            felled == harvest_count(
                old(self)@.map_data.tree_positions@,
                old(self)@.player.position,
                TREECOUNT as int,
            ),
            final(self)@.map_data.tree_positions@ == harvested(
                old(self)@.map_data.tree_positions@,
                old(self)@.player.position,
            ),
            final(self)@.map_data.map == old(self)@.map_data.map,
            final(self)@.map_data.bridge == old(self)@.map_data.bridge,
            final(self)@.inventory.count(ItemType::WoodPlank) == saturated(
                old(self)@.inventory.count(ItemType::WoodPlank),
                WOOD_PER_TREE * felled,
            ),
            final(self)@.inventory.same_but(old(self)@.inventory, ItemType::WoodPlank),
            final(self)@.player == old(self)@.player,
            final(self)@.frame == old(self)@.frame,
    {
        let (px, py) = self.player_obj.get_position();
        let at: (u16, u16) = (px as u16, py as u16);
        let ghost before = self.map_data.tree_positions@;
        let mut felled: u8 = 0;
        let mut i: usize = 0;
        while i < TREECOUNT
            invariant
                i <= TREECOUNT,
                at == (px as u16, py as u16),
                (px, py) == old(self)@.player.position,
                before == old(self)@.map_data.tree_positions@,
                felled <= i,
                felled == harvest_count(before, (px, py), i as int),
                forall|j: int|
                    0 <= j < i ==> self.map_data.tree_positions@[j] == harvested(
                        before,
                        (px, py),
                    )[j],
                forall|j: int|
                    i <= j < TREECOUNT ==> self.map_data.tree_positions@[j] == before[j],
                self.map_data.map == old(self).map_data.map,
                self.map_data.bridge == old(self).map_data.bridge,
                self.inventory == old(self).inventory,
                self.player_obj == old(self).player_obj,
                self.frame == old(self).frame,
            decreases TREECOUNT - i,
        {
            let (tx, ty, active) = self.map_data.tree_positions[i];
            if (tx, ty).is_next_to(&at) && active > 0 {
                self.map_data.tree_positions[i] = (tx, ty, 0);
                felled += 1;
            }
            i += 1;
        }
        assert(self.map_data.tree_positions@ =~= harvested(before, (px, py)));
        self.inventory.add(ItemType::WoodPlank, WOOD_PER_TREE * felled);
        felled
    }

    /// Builds a bridge on the cell ahead of the player, for one plank, if
    /// that cell is water without a bridge and a plank is at hand. Else
    /// nothing happens. Says whether a bridge was built.
    pub fn build_bridge(&mut self) -> (built: bool)
        ensures
            built == can_build(
                old(self)@.map_data,
                bridge_target(old(self)@.player),
                old(self)@.inventory.count(ItemType::WoodPlank),
            ),
            !built ==> final(self)@ == old(self)@,
            built ==> is_bridged(old(self)@, final(self)@),
    {
        let direction = self.player_obj.get_direction();
        let (tx, ty) = self.player_obj.move_direction(direction);
        let point: (usize, usize) = (tx as usize, ty as usize);
        let water = match self.map_data.get_terrain_point(point) {
            Ok(water) => water,
            Err(_) => false,
        };
        let bridged = match self.map_data.get_bridge_point(point) {
            Ok(bridged) => bridged,
            Err(_) => true,
        };
        if water && !bridged && self.inventory.get(ItemType::WoodPlank) > 0 {
            self.inventory.sub(ItemType::WoodPlank, 1);
            let _ = self.map_data.set_bridge_point(point, true);
            true
        } else {
            false
        }
    }

    /// Simulates one step: the player turns and moves, the harvest and then
    /// the build take place if their buttons went down, and the tick
    /// counter advances. Gives the snapshot to save when one is due at the
    /// new tick, which is at every multiple of `AUTOSAVE_INTERVAL`: the
    /// snapshot of the state as this step leaves it.
    pub fn step(&mut self, input: &Input) -> (save: Option<SerializedState>)
        requires
            old(self)@.frame < u64::MAX,
        ensures
            step_relates(old(self)@, *input, final(self)@),
            save == (if autosave_due(final(self)@.frame) {
                Some(snapshot_of(final(self)@))
            } else {
                None
            }),
    {
        self.update_player(input);
        if input.harvest.just_pressed {
            let _ = self.harvest();
        }
        if input.build.just_pressed {
            let _ = self.build_bridge();
        }
        let current_frame = self.step_frame();
        if is_autosave_tick(current_frame) {
            Some(self.to_save_state())
        } else {
            None
        }
    }
}

/// Harvesting is idempotent: after a harvest from a cell, a second harvest
/// from the same cell finds no tree to fell, so it yields nothing and
/// leaves the trees as the first one left them.
pub proof fn lemma_harvest_idempotent(trees: Seq<(u16, u16, i8)>, at: (u8, u8))
    ensures
        harvest_count(harvested(trees, at), at, trees.len() as int) == 0,
        harvested(harvested(trees, at), at) == harvested(trees, at),
{
    lemma_nothing_left(trees, at, trees.len() as int);
    assert(harvested(harvested(trees, at), at) =~= harvested(trees, at));
}

proof fn lemma_nothing_left(trees: Seq<(u16, u16, i8)>, at: (u8, u8), n: int)
    requires
        n <= trees.len(),
    ensures
        harvest_count(harvested(trees, at), at, n) == 0,
    decreases n,
{
    if n > 0 {
        lemma_nothing_left(trees, at, n - 1);
    }
}

/// A game survives being saved and loaded: whatever reading the record of
/// its snapshot gives, and whatever state is restored from that, it is the
/// state that was saved, every field of it.
pub proof fn lemma_game_round_trip(saved: GameView, read: Option<SerializedState>, loaded: GameView)
    requires
        saved.player.position.0 <= LAST_CELL,
        saved.player.position.1 <= LAST_CELL,
        decodes_to(snapshot_of(saved).encoded(), read),
        read matches Some(state) ==> is_restored(state, loaded),
    ensures
        read == Some(snapshot_of(saved)),
        loaded == saved,
{
    lemma_snapshot_round_trip(snapshot_of(saved), read);
}

} // verus!
