//! Simulation core of a tile-based exploration game.
//!
//! - [`state::map`]: the terrain grid, two bit planes of 32 by 32 cells, and
//!   the tree table.
//! - [`state::river`] and [`state::generate`]: the map of a seed, a river
//!   drawn along displaced control points and trees planted on its banks.
//! - [`state::player`] and [`state::inventory`]: the player and what the
//!   player carries.
//! - [`state::gamestate`]: the whole state and the rules of one step.
//! - [`state::serialized`]: the save record and its fixed layout.
//! - [`gamemode`]: the constants of the game, the input of a step, and what
//!   the screen shows of a state.
//! - [`stream`] and [`raster`]: the random stream and the line rasteriser,
//!   both taken from other crates and trusted as their contracts say.

pub mod gamemode;
pub mod raster;
pub mod state;
pub mod stream;
pub mod traits;
