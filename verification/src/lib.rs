//! Procedural level generation for a 2D platformer: a connected grid of
//! sectors is generated from random draws, each sector is rasterized into a
//! grid of typed cells, and the full grid is turned into a sequence of spawn
//! instructions in world coordinates.
use vstd::prelude::*;

pub mod level_info;
mod rng;
pub mod raster;
pub mod reach;
pub mod sector;
pub mod signal;

verus! {

/// Number of sector rows in a level (top row holds the entrance, bottom row
/// the exit; at least 2 so the two are distinct).
pub const SECTOR_ROWS: usize = 4;

/// Number of sector columns in a level (at least 1).
pub const SECTOR_COLS: usize = 4;

/// Height of one sector, in cells (between 4 and 9).
pub const SECTOR_HEIGHT: usize = 9;

/// Width of one sector, in cells (between 4 and 9).
pub const SECTOR_WIDTH: usize = 9;

use crate::raster::{generate_level_layout, level_ok, LevelGrid};
use crate::sector::{generate_sector_layout, generated, SectorGrid};
use crate::signal::{level_spawns, signal_level_object_spawns, SpawnInstruction};

/// Runs the whole pipeline once: generate the sector graph, rasterize it
/// into a level grid, and signal the spawn instructions for the given world
/// number. The results carry the stage contracts: the sector grid is a
/// generated one, the level grid rasterizes it sector by sector, and the
/// instructions are exactly the level's spawns.
pub fn generate_level(world: u8) -> (res: (SectorGrid, LevelGrid, Vec<SpawnInstruction>))
    ensures
        generated(res.0),
        level_ok(res.0, res.1),
        res.2@ == level_spawns(res.1.cells@, world),
{
    let g = generate_sector_layout();
    let lvl = generate_level_layout(&g);
    let spawns = signal_level_object_spawns(&lvl, world);
    (g, lvl, spawns)
}

} // verus!
