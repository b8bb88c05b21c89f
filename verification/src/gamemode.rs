//! The constants of the game and what one simulation step is fed with.

use vstd::prelude::*;
use crate::state::player::Direction;

verus! {

/// The player row past which the view starts to scroll.
pub const Y_SCROLL_THRESHOLD: i32 = 10;

/// Simulation steps per frame of the player's animation.
pub const FRAME_SCALE: usize = 5;

/// The number of trees on a map.
pub const TREECOUNT: usize = 4;

/// The number of rows of a map; it has as many columns.
pub const MAPHEIGHT: usize = 32;

/// The rows of the map that the screen shows at once.
pub const SCREEN_ROWS: i32 = 20;

/// The side of a tile in pixels.
pub const TILE_PIXELS: i32 = 8;

/// Simulation steps per second of the clock.
pub const STEPS_PER_SECOND: u64 = 35;

/// The planks that one harvested tree yields.
pub const WOOD_PER_TREE: u8 = 3;

/// A snapshot is due whenever the tick counter is a multiple of this.
pub const AUTOSAVE_INTERVAL: u64 = 600;

/// One button, as sampled for one step.
#[derive(Debug, Clone, Copy, PartialEq, Eq, Structural)]
pub struct ButtonState {
    /// The button is down.
    pub held: bool,
    /// The button went down in this very step.
    pub just_pressed: bool,
}

/// The buttons, as sampled for one step.
#[derive(Debug, Clone, Copy, PartialEq, Eq, Structural)]
pub struct Input {
    pub up: ButtonState,
    pub down: ButtonState,
    pub left: ButtonState,
    pub right: ButtonState,
    pub harvest: ButtonState,
    pub build: ButtonState,
}

/// The button that stands for a direction.
pub open spec fn direction_button(input: Input, direction: Direction) -> ButtonState {
    match direction {
        Direction::UP => input.up,
        Direction::DOWN => input.down,
        Direction::LEFT => input.left,
        Direction::RIGHT => input.right,
    }
}

/// The direction that the input asks to face: of the directions held, the
/// first in the order up, down, left, right.
pub open spec fn held_direction(input: Input) -> Option<Direction> {
    if input.up.held {
        Some(Direction::UP)
    } else if input.down.held {
        Some(Direction::DOWN)
    } else if input.left.held {
        Some(Direction::LEFT)
    } else if input.right.held {
        Some(Direction::RIGHT)
    } else {
        None
    }
}

/// The direction that the input asks to move in: the direction faced, on the
/// step in which its button went down. Holding a button moves no further.
pub open spec fn pressed_direction(input: Input) -> Option<Direction> {
    match held_direction(input) {
        Some(d) => if direction_button(input, d).just_pressed {
            Some(d)
        } else {
            None
        },
        None => None,
    }
}

/// Whether a snapshot is due at a tick.
pub open spec fn autosave_due(frame: u64) -> bool {
    frame % AUTOSAVE_INTERVAL == 0
}

impl Input {
    /// No button down.
    pub fn idle() -> (r: Input)
        ensures
            r == (Input {
                up: ButtonState { held: false, just_pressed: false },
                down: ButtonState { held: false, just_pressed: false },
                left: ButtonState { held: false, just_pressed: false },
                right: ButtonState { held: false, just_pressed: false },
                harvest: ButtonState { held: false, just_pressed: false },
                build: ButtonState { held: false, just_pressed: false },
            }),
    {
        let off = ButtonState { held: false, just_pressed: false };
        Input { up: off, down: off, left: off, right: off, harvest: off, build: off }
    }

    /// The direction to face, if any.
    pub fn facing(&self) -> (r: Option<Direction>)
        ensures
            r == held_direction(*self),
    {
        if self.up.held {
            Some(Direction::UP)
        } else if self.down.held {
            Some(Direction::DOWN)
        } else if self.left.held {
            Some(Direction::LEFT)
        } else if self.right.held {
            Some(Direction::RIGHT)
        } else {
            None
        }
    }

    /// The direction to move in, if any.
    pub fn movement(&self) -> (r: Option<Direction>)
        ensures
            r == pressed_direction(*self),
    {
        match self.facing() {
            Some(d) => {
                let pressed = match d {
                    Direction::UP => self.up.just_pressed,
                    Direction::DOWN => self.down.just_pressed,
                    Direction::LEFT => self.left.just_pressed,
                    Direction::RIGHT => self.right.just_pressed,
                };
                if pressed {
                    Some(d)
                } else {
                    None
                }
            },
            None => None,
        }
    }
}

/// Whether a snapshot is due at a tick.
pub fn is_autosave_tick(frame: u64) -> (r: bool)
    ensures
        r == autosave_due(frame),
{
    frame % AUTOSAVE_INTERVAL == 0
}

/// By how many rows the view is scrolled down for a player row: the view
/// follows the player past the threshold row until the bottom of the map
/// is in sight.
pub open spec fn scroll_of(player_row: int) -> int {
    let past = if player_row > Y_SCROLL_THRESHOLD {
        player_row - Y_SCROLL_THRESHOLD
    } else {
        0
    };
    if past > MAPHEIGHT - SCREEN_ROWS {
        MAPHEIGHT - SCREEN_ROWS
    } else {
        past
    }
}

/// By how many rows the view is scrolled down for a player row.
pub fn scroll_rows(player_row: u8) -> (r: i32)
    ensures
        r == scroll_of(player_row as int),
        0 <= r <= MAPHEIGHT - SCREEN_ROWS,
{
    let past: i32 = if player_row as i32 > Y_SCROLL_THRESHOLD {
        player_row as i32 - Y_SCROLL_THRESHOLD
    } else {
        0
    };
    if past > MAPHEIGHT as i32 - SCREEN_ROWS {
        MAPHEIGHT as i32 - SCREEN_ROWS
    } else {
        past
    }
}

/// Where on the screen the player's sprite goes, in pixels: the middle of
/// the player's cell lies on the corner of a tile.
pub fn player_sprite_position(position: (u8, u8)) -> (r: (i32, i32))
    ensures
        r.0 == position.0 * TILE_PIXELS - 4,
        r.1 == (position.1 - scroll_of(position.1 as int)) * TILE_PIXELS - 4,
{
    let row: i32 = position.1 as i32 - scroll_rows(position.1);
    (position.0 as i32 * TILE_PIXELS - 4, row * TILE_PIXELS - 4)
}

/// Where on the screen the sprite of a tree goes, in pixels, and whether
/// it is shown: a tree is shown while it can be harvested and stands above
/// the lower edge of the screen.
pub fn tree_sprite(tree: (u16, u16, i8), player_row: u8) -> (r: (i32, i32, bool))
    ensures
        r.0 == tree.0 * TILE_PIXELS,
        r.1 == (tree.1 - scroll_of(player_row as int)) * TILE_PIXELS - TILE_PIXELS,
        r.2 == (tree.2 > 0 && r.1 < 128),
{
    let row: i32 = tree.1 as i32 - scroll_rows(player_row);
    let py: i32 = row * TILE_PIXELS - TILE_PIXELS;
    (tree.0 as i32 * TILE_PIXELS, py, tree.2 > 0 && py < 128)
}

/// By how many quarter turns the player's sprite is rotated to face a
/// direction.
pub fn quarter_turns(direction: Direction) -> (r: u8)
    ensures
        r == match direction {
            Direction::UP => 0u8,
            Direction::LEFT => 1u8,
            Direction::DOWN => 2u8,
            Direction::RIGHT => 3u8,
        },
{
    match direction {
        Direction::UP => 0,
        Direction::LEFT => 1,
        Direction::DOWN => 2,
        Direction::RIGHT => 3,
    }
}

/// The frame of the player's animation at a tick, of `frames` frames.
pub fn animation_frame(tick: u64, frames: usize) -> (r: usize)
    requires
        frames > 0,
    ensures
        r == (tick / (FRAME_SCALE as u64)) % (frames as u64),
        r < frames,
{
    ((tick / (FRAME_SCALE as u64)) % (frames as u64)) as usize
}

/// The clock at a tick: the tens and ones of the minutes, then of the
/// seconds. The minutes start over after 24.
pub fn clock_digits(tick: u64) -> (r: [u8; 4])
    ensures
        r@ == seq![
            ((tick / STEPS_PER_SECOND / 60) % 24 / 10) as u8,
            ((tick / STEPS_PER_SECOND / 60) % 24 % 10) as u8,
            ((tick / STEPS_PER_SECOND) % 60 / 10) as u8,
            ((tick / STEPS_PER_SECOND) % 60 % 10) as u8,
        ],
{
    let time: u64 = tick / STEPS_PER_SECOND;
    let ss: u64 = time % 60;
    let mm: u64 = (time / 60) % 24;
    let r: [u8; 4] = [(mm / 10) as u8, (mm % 10) as u8, (ss / 10) as u8, (ss % 10) as u8];
    assert(r@ =~= seq![
        ((tick / STEPS_PER_SECOND / 60) % 24 / 10) as u8,
        ((tick / STEPS_PER_SECOND / 60) % 24 % 10) as u8,
        ((tick / STEPS_PER_SECOND) % 60 / 10) as u8,
        ((tick / STEPS_PER_SECOND) % 60 % 10) as u8,
    ]);
    r
}

/// The tile of a window's frame at `(x, y)`, for a window `w` tiles wide
/// and `h` tiles high.
pub open spec fn window_tile(x: u16, y: u16, w: u16, h: u16) -> usize {
    let left = x == 0;
    let right = x == w - 1;
    let top = y == 0;
    let bottom = y == h - 1;
    if top {
        if left {
            10
        } else if right {
            11
        } else {
            28
        }
    } else if bottom {
        if left {
            26
        } else if right {
            27
        } else {
            29
        }
    } else if left {
        12
    } else if right {
        13
    } else {
        30
    }
}

/// The tile of a window's frame at `(x, y)`: a corner, an edge or the
/// inside. A window one tile wide or high has no frame at its first tile.
pub fn window_tile_id(x: u16, y: u16, w: u16, h: u16) -> (r: usize)
    requires
        w >= 1,
        h >= 1,
        !(x == 0 && w == 1),
        !(y == 0 && h == 1),
    ensures
        r == window_tile(x, y, w, h),
{
    let is_left_border = x == 0;
    let is_right_border = x == w - 1;
    let is_top_border = y == 0;
    let is_bottom_border = y == h - 1;
    if is_top_border {
        if is_left_border {
            10
        } else if is_right_border {
            11
        } else {
            28
        }
    } else if is_bottom_border {
        if is_left_border {
            26
        } else if is_right_border {
            27
        } else {
            29
        }
    } else if is_left_border {
        12
    } else if is_right_border {
        13
    } else {
        30
    }
}

/// The seed of a new game, from the number of frames that the menu was
/// shown for: that number with its bits rotated left by 8.
pub fn session_seed(frames: u64) -> (r: u64)
    ensures
        r == (frames << 8) | ((frames >> 56) & 0xff),
{
    (frames << 8) | ((frames >> 56) & 0xff)
}

} // verus!
