//! Spawn signaling: every populated cell of a rasterized level is mapped to
//! a world-space position and emitted as one typed spawn instruction, in
//! row-major order over sectors and, within each sector, over cells.
use vstd::prelude::*;

verus! {

use vstd::arithmetic::div_mod::lemma_fundamental_div_mod_converse;
use crate::raster::{LevelGrid, LevelObject, LEVEL_CELLS};
use crate::sector::in_grid;
use crate::raster::in_sector;
use crate::{SECTOR_COLS, SECTOR_HEIGHT, SECTOR_ROWS, SECTOR_WIDTH};

/// Pixel edge of one square tile.
pub const TILE_SIZE: usize = 128;

/// Width of the whole level, in cells.
pub const LEVEL_WIDTH: usize = SECTOR_COLS * SECTOR_WIDTH;

/// Height of the whole level, in cells.
pub const LEVEL_HEIGHT: usize = SECTOR_ROWS * SECTOR_HEIGHT;

/// A position in world space, in pixels. The whole level is centred on the
/// world origin, and larger `y` is up while grid rows grow downward.
#[derive(Clone, Copy, PartialEq, Eq, Structural, Debug)]
pub struct WorldPos {
    pub x: i32,
    pub y: i32,
}

/// World x coordinate of the cell in level column `c * SECTOR_WIDTH + x`.
pub open spec fn world_x(c: int, x: int) -> int {
    (c * (SECTOR_WIDTH as int) + x) * (TILE_SIZE as int) - (LEVEL_WIDTH - 1) * (TILE_SIZE as int
        / 2)
}

/// World y coordinate of the cell in level row `r * SECTOR_HEIGHT + y`: the
/// vertical axis is flipped because row zero is the topmost row.
pub open spec fn world_y(r: int, y: int) -> int {
    (LEVEL_HEIGHT - 1 - (r * (SECTOR_HEIGHT as int) + y)) * (TILE_SIZE as int) - (LEVEL_HEIGHT - 1)
        * (TILE_SIZE as int / 2)
}

/// The world position of local cell `(y, x)` of sector `(r, c)`.
pub open spec fn world_pos_spec(r: int, c: int, y: int, x: int) -> WorldPos {
    WorldPos { x: world_x(c, x) as i32, y: world_y(r, y) as i32 }
}

/// One spawn instruction handed to the external spawn consumers.
#[derive(Clone, Copy, PartialEq, Eq, Structural, Debug)]
pub enum SpawnInstruction {
    /// Place a solid tile; the texture variant follows the current world.
    TileSpawn { pos: WorldPos, tex_idx: usize },
    /// Put the player at the entrance.
    PlayerSpawn { pos: WorldPos },
    /// Place the entrance or exit door; the entrance door's texture variant
    /// follows the current world.
    DoorSpawn { pos: WorldPos, tex_idx: usize, is_exit: bool },
    /// Place a spike hazard, on the ceiling or on the floor.
    HazardSpawn { pos: WorldPos, on_ceil: bool },
}

/// Offset of the tile texture variants within the texture atlas.
pub const TILE_TEX_BASE: usize = 5;

/// Index of the exit door texture, and offset of the entrance door variants.
pub const DOOR_TEX_BASE: usize = 75;

/// The instructions one cell contributes: a tile spawn for a tile, a player
/// spawn and an entrance door spawn for the entrance, an exit door spawn for
/// the exit, a hazard spawn for either hazard, nothing for background and
/// path cells.
pub open spec fn cell_spawns(obj: LevelObject, pos: WorldPos, world: u8) -> Seq<SpawnInstruction> {
    match obj {
        LevelObject::Tile => seq![
            SpawnInstruction::TileSpawn { pos, tex_idx: (TILE_TEX_BASE + world) as usize },
        ],
        LevelObject::Entrance => seq![
            SpawnInstruction::PlayerSpawn { pos },
            SpawnInstruction::DoorSpawn {
                pos,
                tex_idx: (DOOR_TEX_BASE + world) as usize,
                is_exit: false,
            },
        ],
        LevelObject::Exit => seq![
            SpawnInstruction::DoorSpawn { pos, tex_idx: DOOR_TEX_BASE, is_exit: true },
        ],
        LevelObject::Stalactite => seq![SpawnInstruction::HazardSpawn { pos, on_ceil: true }],
        LevelObject::Stalagmite => seq![SpawnInstruction::HazardSpawn { pos, on_ceil: false }],
        LevelObject::Background => Seq::empty(),
        LevelObject::Path => Seq::empty(),
    }
}

/// Flat cell order of the signaler: sector-row-major, each sector's block
/// row-major; these four projections recover the coordinates of the cell at
/// flat position `k`.
pub open spec fn flat_x(k: int) -> int {
    k % (SECTOR_WIDTH as int)
}

pub open spec fn flat_y(k: int) -> int {
    (k / (SECTOR_WIDTH as int)) % (SECTOR_HEIGHT as int)
}

pub open spec fn flat_c(k: int) -> int {
    ((k / (SECTOR_WIDTH as int)) / (SECTOR_HEIGHT as int)) % (SECTOR_COLS as int)
}

pub open spec fn flat_r(k: int) -> int {
    ((k / (SECTOR_WIDTH as int)) / (SECTOR_HEIGHT as int)) / (SECTOR_COLS as int)
}

/// The world position of the cell at flat position `k`.
pub open spec fn pos_of_flat(k: int) -> WorldPos {
    world_pos_spec(flat_r(k), flat_c(k), flat_y(k), flat_x(k))
}

/// The instructions that the first `k` cells contribute, in order.
pub open spec fn spawns_upto(cells: Seq<LevelObject>, world: u8, k: int) -> Seq<SpawnInstruction>
    decreases k,
{
    if k <= 0 {
        Seq::empty()
    } else {
        spawns_upto(cells, world, k - 1) + cell_spawns(cells[k - 1], pos_of_flat(k - 1), world)
    }
}

/// The instructions of a whole level, in order.
pub open spec fn level_spawns(cells: Seq<LevelObject>, world: u8) -> Seq<SpawnInstruction> {
    spawns_upto(cells, world, LEVEL_CELLS as int)
}

/// The world position of local cell `(y, x)` of sector `(r, c)`.
pub fn world_pos(r: usize, c: usize, y: usize, x: usize) -> (p: WorldPos)
    requires
        r < SECTOR_ROWS,
        c < SECTOR_COLS,
        y < SECTOR_HEIGHT,
        x < SECTOR_WIDTH,
    ensures
        p == world_pos_spec(r as int, c as int, y as int, x as int),
        p.x == world_x(c as int, x as int),
        p.y == world_y(r as int, y as int),
{
    let gx = c * SECTOR_WIDTH + x;
    let gy = r * SECTOR_HEIGHT + y;
    let tile = TILE_SIZE as i32;
    let half = tile / 2;
    let px = (gx as i32) * tile - ((LEVEL_WIDTH as i32) - 1) * half;
    let py = ((LEVEL_HEIGHT as i32) - 1 - (gy as i32)) * tile - ((LEVEL_HEIGHT as i32) - 1)
        * half;
    WorldPos { x: px, y: py }
}

/// Idempotent-mapping law: the world-position mapping is injective — two
/// distinct cells of one level never map to the same world position.
pub proof fn lemma_world_pos_injective(
    r1: int,
    c1: int,
    y1: int,
    x1: int,
    r2: int,
    c2: int,
    y2: int,
    x2: int,
)
    requires
        in_grid(r1, c1),
        in_sector(y1, x1),
        in_grid(r2, c2),
        in_sector(y2, x2),
        !(r1 == r2 && c1 == c2 && y1 == y2 && x1 == x2),
    ensures
        world_pos_spec(r1, c1, y1, x1) != world_pos_spec(r2, c2, y2, x2),
{
    assert(TILE_SIZE as int == 128 && TILE_SIZE as int / 2 == 64);
    assert(world_x(c1, x1) as i32 == world_x(c1, x1));
    assert(world_x(c2, x2) as i32 == world_x(c2, x2));
    assert(world_y(r1, y1) as i32 == world_y(r1, y1));
    assert(world_y(r2, y2) as i32 == world_y(r2, y2));
    if world_pos_spec(r1, c1, y1, x1) == world_pos_spec(r2, c2, y2, x2) {
        assert(world_x(c1, x1) == world_x(c2, x2));
        assert(world_y(r1, y1) == world_y(r2, y2));
        assert(c1 * (SECTOR_WIDTH as int) + x1 == c2 * (SECTOR_WIDTH as int) + x2);
        assert(r1 * (SECTOR_HEIGHT as int) + y1 == r2 * (SECTOR_HEIGHT as int) + y2);
        assert(c1 == c2 && x1 == x2);
        assert(r1 == r2 && y1 == y2);
    }
}

/// Walks the whole level in flat order and emits the spawn instructions of
/// every populated cell: tiles, the player and the doors, and the hazards;
/// background and path cells are skipped.
#[verifier::loop_isolation(false)]
pub fn signal_level_object_spawns(lvl: &LevelGrid, world: u8) -> (out: Vec<SpawnInstruction>)
    requires
        lvl.wf(),
    ensures
        out@ == level_spawns(lvl.cells@, world),
{
    let mut out: Vec<SpawnInstruction> = Vec::new();
    let mut k: usize = 0;
    let mut r: usize = 0;
    while r < SECTOR_ROWS
        invariant
            r <= SECTOR_ROWS,
            k == ((r * SECTOR_COLS) * SECTOR_HEIGHT) * SECTOR_WIDTH,
            out@ == spawns_upto(lvl.cells@, world, k as int),
        decreases SECTOR_ROWS - r,
    {
        let mut c: usize = 0;
        while c < SECTOR_COLS
            invariant
                r < SECTOR_ROWS,
                c <= SECTOR_COLS,
                k == ((r * SECTOR_COLS + c) * SECTOR_HEIGHT) * SECTOR_WIDTH,
                out@ == spawns_upto(lvl.cells@, world, k as int),
            decreases SECTOR_COLS - c,
        {
            let mut y: usize = 0;
            while y < SECTOR_HEIGHT
                invariant
                    r < SECTOR_ROWS,
                    c < SECTOR_COLS,
                    y <= SECTOR_HEIGHT,
                    k == ((r * SECTOR_COLS + c) * SECTOR_HEIGHT + y) * SECTOR_WIDTH,
                    out@ == spawns_upto(lvl.cells@, world, k as int),
                decreases SECTOR_HEIGHT - y,
            {
                let mut x: usize = 0;
                while x < SECTOR_WIDTH
                    invariant
                        r < SECTOR_ROWS,
                        c < SECTOR_COLS,
                        y < SECTOR_HEIGHT,
                        x <= SECTOR_WIDTH,
                        k == ((r * SECTOR_COLS + c) * SECTOR_HEIGHT + y) * SECTOR_WIDTH + x,
                        out@ == spawns_upto(lvl.cells@, world, k as int),
                    decreases SECTOR_WIDTH - x,
                {
                    let pos = world_pos(r, c, y, x);
                    match lvl.cells[k] {
                        LevelObject::Tile => {
                            out.push(
                                SpawnInstruction::TileSpawn {
                                    pos,
                                    tex_idx: TILE_TEX_BASE + world as usize,
                                },
                            );
                        },
                        LevelObject::Entrance => {
                            out.push(SpawnInstruction::PlayerSpawn { pos });
                            out.push(
                                SpawnInstruction::DoorSpawn {
                                    pos,
                                    tex_idx: DOOR_TEX_BASE + world as usize,
                                    is_exit: false,
                                },
                            );
                        },
                        LevelObject::Exit => {
                            out.push(
                                SpawnInstruction::DoorSpawn {
                                    pos,
                                    tex_idx: DOOR_TEX_BASE,
                                    is_exit: true,
                                },
                            );
                        },
                        LevelObject::Stalactite => {
                            out.push(SpawnInstruction::HazardSpawn { pos, on_ceil: true });
                        },
                        LevelObject::Stalagmite => {
                            out.push(SpawnInstruction::HazardSpawn { pos, on_ceil: false });
                        },
                        LevelObject::Background => {},
                        LevelObject::Path => {},
                    }
                    proof {
                        let ki = k as int;
                        let w = SECTOR_WIDTH as int;
                        let h = SECTOR_HEIGHT as int;
                        let cols = SECTOR_COLS as int;
                        let q1 = (r * cols + c) * h + y;
                        lemma_fundamental_div_mod_converse(ki, w, q1, x as int);
                        lemma_fundamental_div_mod_converse(q1, h, r * cols + c, y as int);
                        lemma_fundamental_div_mod_converse(r * cols + c, cols, r as int, c as int);
                        assert(flat_r(ki) == r && flat_c(ki) == c && flat_y(ki) == y && flat_x(ki)
                            == x);
                        assert(pos_of_flat(ki) == world_pos_spec(
                            r as int,
                            c as int,
                            y as int,
                            x as int,
                        ));
                        assert(out@ =~= spawns_upto(lvl.cells@, world, ki + 1));
                    }
                    k += 1;
                    x += 1;
                }
                y += 1;
            }
            c += 1;
        }
        r += 1;
    }
    proof {
        assert(k == LEVEL_CELLS);
    }
    out
}

} // verus!
