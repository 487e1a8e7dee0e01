//! Sector rasterization: each sector's connectivity flags are expanded into
//! a fixed-size grid of typed cells — a tile border, corridors punched
//! through edge midpoints to the centre, an entrance or exit marker, then
//! randomized wall growth and hazard placement.
use vstd::prelude::*;

verus! {

use vstd::arithmetic::div_mod::lemma_fundamental_div_mod_converse;
use vstd::arithmetic::mul::{
    lemma_mul_basics,
    lemma_mul_is_associative,
    lemma_mul_is_distributive_add_other_way,
};
use crate::rng::random_ratio;
use crate::sector::{in_grid, SectorGrid, SectorType};
use crate::{SECTOR_COLS, SECTOR_HEIGHT, SECTOR_ROWS, SECTOR_WIDTH};

/// Row of the corridor crossing at a sector's centre.
pub const CENTER_Y: usize = SECTOR_HEIGHT / 2;

/// Column of the corridor crossing at a sector's centre.
pub const CENTER_X: usize = SECTOR_WIDTH / 2;

/// Cells of one rasterized sector.
pub const SECTOR_CELLS: usize = SECTOR_HEIGHT * SECTOR_WIDTH;

/// Cells of the whole rasterized level.
pub const LEVEL_CELLS: usize = SECTOR_ROWS * SECTOR_COLS * SECTOR_HEIGHT * SECTOR_WIDTH;

/// What one cell of a rasterized sector holds.
#[derive(Clone, Copy, PartialEq, Eq, Structural, Debug)]
pub enum LevelObject {
    /// Empty air; nothing is spawned for it.
    Background,
    /// The level's entry point, at the entrance sector's centre.
    Entrance,
    /// A hazard hanging from the tile above it.
    Stalactite,
    /// A hazard rising from the tile below it.
    Stalagmite,
    /// A solid wall tile.
    Tile,
    /// The level's exit, at the exit sector's centre.
    Exit,
    /// A traversable corridor marker; nothing is spawned for it.
    Path,
}

impl Default for LevelObject {
    /// A fresh cell is empty air.
    fn default() -> (o: Self)
        ensures
            o == LevelObject::Background,
    {
        LevelObject::Background
    }
}

/// Whether `(y, x)` indexes a cell of a sector's local grid.
pub open spec fn in_sector(y: int, x: int) -> bool {
    0 <= y < SECTOR_HEIGHT && 0 <= x < SECTOR_WIDTH
}

/// Row-major index of local cell `(y, x)`.
pub open spec fn cell_index(y: int, x: int) -> int {
    y * (SECTOR_WIDTH as int) + x
}

/// Whether `(y, x)` lies on the outer ring of a sector.
pub open spec fn on_border(y: int, x: int) -> bool {
    y == 0 || y == SECTOR_HEIGHT - 1 || x == 0 || x == SECTOR_WIDTH - 1
}

/// Whether an open flag of `s` punches a corridor through `(y, x)`: each open
/// side contributes a one-cell-wide run from that edge's midpoint to the
/// sector's centre.
pub open spec fn corridor_covers(s: SectorType, y: int, x: int) -> bool {
    ||| (s.open_up && x == CENTER_X && 0 <= y <= CENTER_Y)
    ||| (s.open_down && x == CENTER_X && CENTER_Y <= y < SECTOR_HEIGHT)
    ||| (s.open_left && y == CENTER_Y && 0 <= x <= CENTER_X)
    ||| (s.open_right && y == CENTER_Y && CENTER_X <= x < SECTOR_WIDTH)
}

/// The deterministic value of cell `(y, x)` before the random passes: the
/// entrance or exit marker at the centre, corridors over the border tiles,
/// the border ring, background elsewhere.
pub open spec fn base_cell(s: SectorType, y: int, x: int) -> LevelObject {
    if y == CENTER_Y && x == CENTER_X && s.is_entrance {
        LevelObject::Entrance
    } else if y == CENTER_Y && x == CENTER_X && s.is_exit {
        LevelObject::Exit
    } else if corridor_covers(s, y, x) {
        LevelObject::Path
    } else if on_border(y, x) {
        LevelObject::Tile
    } else {
        LevelObject::Background
    }
}

/// Every cell whose deterministic value is not background still holds it:
/// the random passes only ever touch background cells.
pub open spec fn bases_kept(s: SectorType, cells: Seq<LevelObject>) -> bool {
    forall|y: int, x: int|
        in_sector(y, x) && base_cell(s, y, x) != LevelObject::Background ==> #[trigger] cells[
            cell_index(y, x)
        ] == base_cell(s, y, x)
}

/// Whether some 4-neighbour of interior cell `(y, x)` is a tile.
pub open spec fn tile_neighbor(cells: Seq<LevelObject>, y: int, x: int) -> bool {
    ||| cells[cell_index(y - 1, x)] == LevelObject::Tile
    ||| cells[cell_index(y, x - 1)] == LevelObject::Tile
    ||| cells[cell_index(y, x + 1)] == LevelObject::Tile
    ||| cells[cell_index(y + 1, x)] == LevelObject::Tile
}

/// If interior cell `(y, x)` is a tile, it is attached: some 4-neighbour is
/// a tile too. Interior tiles arise only from wall growth, which grows them
/// against existing walls, so no tile floats alone inside a sector.
pub open spec fn tile_attached(cells: Seq<LevelObject>, y: int, x: int) -> bool {
    (1 <= y < SECTOR_HEIGHT - 1 && 1 <= x < SECTOR_WIDTH - 1 && cells[cell_index(y, x)]
        == LevelObject::Tile) ==> tile_neighbor(cells, y, x)
}

/// State between the wall-growth and hazard passes: deterministic cells are
/// kept, background cells may only have grown into tiles, and grown tiles
/// are attached.
pub open spec fn wall_stage(s: SectorType, cells: Seq<LevelObject>) -> bool {
    &&& cells.len() == SECTOR_CELLS
    &&& bases_kept(s, cells)
    &&& forall|y: int, x: int|
        in_sector(y, x) && base_cell(s, y, x) == LevelObject::Background ==> (#[trigger] cells[
            cell_index(y, x)
        ] == LevelObject::Background || cells[cell_index(y, x)] == LevelObject::Tile)
    &&& forall|y: int, x: int| in_sector(y, x) ==> #[trigger] tile_attached(cells, y, x)
}

/// What one wall-growth draw does to interior cell `(y, x)`: with a
/// successful draw, a background cell with a tile among its 4-neighbours
/// becomes a tile; in every other case the cells are unchanged.
pub open spec fn wall_growth_step(cells: Seq<LevelObject>, y: int, x: int, grow: bool) -> Seq<
    LevelObject,
> {
    if grow && cells[cell_index(y, x)] == LevelObject::Background && tile_neighbor(cells, y, x) {
        cells.update(cell_index(y, x), LevelObject::Tile)
    } else {
        cells
    }
}

/// What one hazard draw does to cell `(y, x)`: with a successful draw, a
/// background cell directly below a tile becomes a stalactite; otherwise one
/// directly above a tile becomes a stalagmite. The ceiling check comes
/// first, so a background cell between two tiles hangs from the ceiling; in
/// every other case the cells are unchanged.
pub open spec fn hazard_step(cells: Seq<LevelObject>, y: int, x: int, drew: bool) -> Seq<
    LevelObject,
> {
    if drew && cells[cell_index(y, x)] == LevelObject::Background && cells[cell_index(y - 1, x)]
        == LevelObject::Tile {
        cells.update(cell_index(y, x), LevelObject::Stalactite)
    } else if drew && cells[cell_index(y, x)] == LevelObject::Background && cells[cell_index(
        y + 1,
        x,
    )] == LevelObject::Tile {
        cells.update(cell_index(y, x), LevelObject::Stalagmite)
    } else {
        cells
    }
}

/// If cell `(y, x)` is a hazard, the tile it is attached to is there: a tile
/// directly above a stalactite, a tile directly below a stalagmite.
pub open spec fn hazard_justified(cells: Seq<LevelObject>, y: int, x: int) -> bool {
    &&& cells[cell_index(y, x)] == LevelObject::Stalactite ==> 1 <= y && cells[cell_index(
        y - 1,
        x,
    )] == LevelObject::Tile
    &&& cells[cell_index(y, x)] == LevelObject::Stalagmite ==> y < SECTOR_HEIGHT - 1 && cells[
        cell_index(y + 1, x)
    ] == LevelObject::Tile
}

/// Contract of a rasterized sector: deterministic cells hold their base
/// value; background cells either stay background, grow into a tile, or
/// become a hazard; every hazard is attached to a neighbouring tile; and
/// every interior tile is attached to a neighbouring tile.
pub open spec fn sector_ok(s: SectorType, cells: Seq<LevelObject>) -> bool {
    &&& cells.len() == SECTOR_CELLS
    &&& bases_kept(s, cells)
    &&& forall|y: int, x: int|
        in_sector(y, x) && base_cell(s, y, x) == LevelObject::Background ==> (#[trigger] cells[
            cell_index(y, x)
        ] == LevelObject::Background || cells[cell_index(y, x)] == LevelObject::Tile || cells[
            cell_index(y, x)
        ] == LevelObject::Stalactite || cells[cell_index(y, x)] == LevelObject::Stalagmite)
    &&& forall|y: int, x: int| in_sector(y, x) ==> #[trigger] hazard_justified(cells, y, x)
    &&& forall|y: int, x: int| in_sector(y, x) ==> #[trigger] tile_attached(cells, y, x)
}

/// Two local coordinates with the same row-major index are the same cell.
proof fn lemma_cell_index_injective(y1: int, x1: int, y2: int, x2: int)
    requires
        in_sector(y1, x1),
        in_sector(y2, x2),
        cell_index(y1, x1) == cell_index(y2, x2),
    ensures
        y1 == y2 && x1 == x2,
{
}

/// The deterministic value of one cell, computed from the sector's flags.
fn base_cell_exec(s: SectorType, y: usize, x: usize) -> (o: LevelObject)
    requires
        y < SECTOR_HEIGHT,
        x < SECTOR_WIDTH,
    ensures
        o == base_cell(s, y as int, x as int),
{
    if y == CENTER_Y && x == CENTER_X && s.is_entrance {
        LevelObject::Entrance
    } else if y == CENTER_Y && x == CENTER_X && s.is_exit {
        LevelObject::Exit
    } else if (s.open_up && x == CENTER_X && y <= CENTER_Y) || (s.open_down && x == CENTER_X
        && CENTER_Y <= y) || (s.open_left && y == CENTER_Y && x <= CENTER_X) || (s.open_right && y
        == CENTER_Y && CENTER_X <= x) {
        LevelObject::Path
    } else if y == 0 || y == SECTOR_HEIGHT - 1 || x == 0 || x == SECTOR_WIDTH - 1 {
        LevelObject::Tile
    } else {
        LevelObject::Background
    }
}

/// The border ring, the corridors and the centre marker of one sector,
/// before any random decoration.
#[verifier::loop_isolation(false)]
fn rasterize_base(s: SectorType) -> (cells: Vec<LevelObject>)
    ensures
        cells@.len() == SECTOR_CELLS,
        forall|y: int, x: int|
            in_sector(y, x) ==> #[trigger] cells@[cell_index(y, x)] == base_cell(s, y, x),
{
    let mut cells: Vec<LevelObject> = Vec::new();
    let mut y: usize = 0;
    while y < SECTOR_HEIGHT
        invariant
            y <= SECTOR_HEIGHT,
            cells@.len() == y * SECTOR_WIDTH,
            forall|k: int|
                0 <= k < cells@.len() ==> #[trigger] cells@[k] == base_cell(
                    s,
                    k / (SECTOR_WIDTH as int),
                    k % (SECTOR_WIDTH as int),
                ),
        decreases SECTOR_HEIGHT - y,
    {
        let mut x: usize = 0;
        while x < SECTOR_WIDTH
            invariant
                y < SECTOR_HEIGHT,
                x <= SECTOR_WIDTH,
                cells@.len() == y * SECTOR_WIDTH + x,
                forall|k: int|
                    0 <= k < cells@.len() ==> #[trigger] cells@[k] == base_cell(
                        s,
                        k / (SECTOR_WIDTH as int),
                        k % (SECTOR_WIDTH as int),
                    ),
            decreases SECTOR_WIDTH - x,
        {
            let o = base_cell_exec(s, y, x);
            cells.push(o);
            proof {
                lemma_fundamental_div_mod_converse(
                    y * (SECTOR_WIDTH as int) + x,
                    SECTOR_WIDTH as int,
                    y as int,
                    x as int,
                );
            }
            x += 1;
        }
        y += 1;
    }
    proof {
        assert forall|yy: int, xx: int| in_sector(yy, xx) implies #[trigger] cells@[cell_index(
            yy,
            xx,
        )] == base_cell(s, yy, xx) by {
            lemma_fundamental_div_mod_converse(cell_index(yy, xx), SECTOR_WIDTH as int, yy, xx);
        }
    }
    cells
}

/// Applies one wall-growth draw to interior cell `(y, x)`: the result is
/// exactly the step function of the draw, so it is fixed for either outcome.
pub fn apply_wall_growth(cells: &mut Vec<LevelObject>, y: usize, x: usize, grow: bool)
    requires
        old(cells)@.len() == SECTOR_CELLS,
        1 <= y < SECTOR_HEIGHT - 1,
        1 <= x < SECTOR_WIDTH - 1,
    ensures
        final(cells)@ == wall_growth_step(old(cells)@, y as int, x as int, grow),
{
    let i = y * SECTOR_WIDTH + x;
    if grow && cells[i] == LevelObject::Background && (cells[i - SECTOR_WIDTH]
        == LevelObject::Tile || cells[i - 1] == LevelObject::Tile || cells[i + 1]
        == LevelObject::Tile || cells[i + SECTOR_WIDTH] == LevelObject::Tile) {
        cells[i] = LevelObject::Tile;
    }
}

/// One wall-growth step preserves the wall-stage contract: it touches only a
/// background cell, and the tile it grows leans on the neighbouring tile
/// that let it grow.
proof fn lemma_wall_growth_preserves(
    s: SectorType,
    before: Seq<LevelObject>,
    y: int,
    x: int,
    grow: bool,
)
    requires
        wall_stage(s, before),
        1 <= y < SECTOR_HEIGHT - 1,
        1 <= x < SECTOR_WIDTH - 1,
    ensures
        wall_stage(s, wall_growth_step(before, y, x, grow)),
{
    let after = wall_growth_step(before, y, x, grow);
    if grow && before[cell_index(y, x)] == LevelObject::Background && tile_neighbor(before, y, x) {
        assert(after == before.update(cell_index(y, x), LevelObject::Tile));
        assert(base_cell(s, y, x) == LevelObject::Background) by {
            assert(before[cell_index(y, x)] == LevelObject::Background);
        }
        assert forall|yy: int, xx: int|
            in_sector(yy, xx) && base_cell(s, yy, xx) != LevelObject::Background implies #[trigger
        ] after[cell_index(yy, xx)] == base_cell(s, yy, xx) by {
            assert(before[cell_index(yy, xx)] == base_cell(s, yy, xx));
            if cell_index(yy, xx) == cell_index(y, x) {
                lemma_cell_index_injective(yy, xx, y, x);
            }
        }
        assert forall|yy: int, xx: int|
            in_sector(yy, xx) && base_cell(s, yy, xx) == LevelObject::Background implies (#[trigger
        ] after[cell_index(yy, xx)] == LevelObject::Background || after[cell_index(yy, xx)]
            == LevelObject::Tile) by {
            assert(before[cell_index(yy, xx)] == LevelObject::Background || before[cell_index(
                yy,
                xx,
            )] == LevelObject::Tile);
        }
        assert forall|yy: int, xx: int| in_sector(yy, xx) implies #[trigger] tile_attached(
            after,
            yy,
            xx,
        ) by {
            assert(tile_attached(before, yy, xx));
            if 1 <= yy < SECTOR_HEIGHT - 1 && 1 <= xx < SECTOR_WIDTH - 1 && after[cell_index(
                yy,
                xx,
            )] == LevelObject::Tile {
                if cell_index(yy, xx) == cell_index(y, x) {
                    lemma_cell_index_injective(yy, xx, y, x);
                    assert(cell_index(y - 1, x) != cell_index(y, x));
                    assert(cell_index(y, x - 1) != cell_index(y, x));
                    assert(cell_index(y, x + 1) != cell_index(y, x));
                    assert(cell_index(y + 1, x) != cell_index(y, x));
                    assert(tile_neighbor(after, yy, xx));
                } else {
                    assert(after[cell_index(yy, xx)] == before[cell_index(yy, xx)]);
                    assert(tile_neighbor(before, yy, xx));
                    assert(tile_neighbor(after, yy, xx));
                }
            }
        }
    }
}

/// One visit of the wall-growth pass: for a background cell with at least
/// one tile among its four neighbours, a draw with probability one third
/// decides whether it becomes a tile.
fn grow_wall_at(s: Ghost<SectorType>, cells: &mut Vec<LevelObject>, y: usize, x: usize)
    requires
        wall_stage(s@, old(cells)@),
        1 <= y < SECTOR_HEIGHT - 1,
        1 <= x < SECTOR_WIDTH - 1,
    ensures
        wall_stage(s@, final(cells)@),
{
    let i = y * SECTOR_WIDTH + x;
    if cells[i] == LevelObject::Background && (cells[i - SECTOR_WIDTH] == LevelObject::Tile
        || cells[i - 1] == LevelObject::Tile || cells[i + 1] == LevelObject::Tile || cells[i
        + SECTOR_WIDTH] == LevelObject::Tile) {
        let grow = random_ratio(1, 3);
        let ghost before = cells@;
        apply_wall_growth(cells, y, x, grow);
        proof {
            lemma_wall_growth_preserves(s@, before, y as int, x as int, grow);
        }
    }
}

/// The wall-growth pass over one row: interior columns are visited from the
/// border inward on each side.
#[verifier::loop_isolation(false)]
fn grow_row(s: Ghost<SectorType>, cells: &mut Vec<LevelObject>, y: usize)
    requires
        wall_stage(s@, old(cells)@),
        1 <= y < SECTOR_HEIGHT - 1,
    ensures
        wall_stage(s@, final(cells)@),
{
    let mut x: usize = 1;
    while x < CENTER_X
        invariant
            1 <= x <= CENTER_X,
            wall_stage(s@, cells@),
        decreases CENTER_X - x,
    {
        grow_wall_at(s, cells, y, x);
        x += 1;
    }
    let mut xr: usize = SECTOR_WIDTH - 2;
    while xr >= CENTER_X
        invariant
            CENTER_X - 1 <= xr <= SECTOR_WIDTH - 2,
            wall_stage(s@, cells@),
        decreases xr,
    {
        grow_wall_at(s, cells, y, xr);
        xr -= 1;
    }
}

/// The wall-growth pass: interior cells are visited inside-out, the rows
/// nearest the top and bottom borders first, and within each row the columns
/// nearest the side borders first, so that walls grow inward.
#[verifier::loop_isolation(false)]
fn grow_walls(s: Ghost<SectorType>, cells: &mut Vec<LevelObject>)
    requires
        wall_stage(s@, old(cells)@),
    ensures
        wall_stage(s@, final(cells)@),
{
    let mut y: usize = 1;
    while y < CENTER_Y
        invariant
            1 <= y <= CENTER_Y,
            wall_stage(s@, cells@),
        decreases CENTER_Y - y,
    {
        grow_row(s, cells, y);
        y += 1;
    }
    let mut yr: usize = SECTOR_HEIGHT - 2;
    while yr >= CENTER_Y
        invariant
            CENTER_Y - 1 <= yr <= SECTOR_HEIGHT - 2,
            wall_stage(s@, cells@),
        decreases yr,
    {
        grow_row(s, cells, yr);
        yr -= 1;
    }
}

/// Applies one hazard draw to cell `(y, x)`: the result is exactly the step
/// function of the draw, so it is fixed for either outcome. With a
/// successful draw a background cell directly below a tile becomes a
/// stalactite; otherwise one directly above a tile becomes a stalagmite —
/// the ceiling check is made first, so a background cell between two tiles
/// hangs from the ceiling.
pub fn apply_hazard(cells: &mut Vec<LevelObject>, y: usize, x: usize, drew: bool)
    requires
        old(cells)@.len() == SECTOR_CELLS,
        1 <= y < SECTOR_HEIGHT - 1,
        x < SECTOR_WIDTH,
    ensures
        final(cells)@ == hazard_step(old(cells)@, y as int, x as int, drew),
{
    let i = y * SECTOR_WIDTH + x;
    if drew && cells[i] == LevelObject::Background {
        if cells[i - SECTOR_WIDTH] == LevelObject::Tile {
            cells[i] = LevelObject::Stalactite;
        } else if cells[i + SECTOR_WIDTH] == LevelObject::Tile {
            cells[i] = LevelObject::Stalagmite;
        }
    }
}

/// One hazard step preserves the rasterization contract: it turns only a
/// background cell into a hazard, and tiles never change, so the tile that
/// justifies the new hazard, those justifying every older hazard, and those
/// attaching every interior tile all remain.
proof fn lemma_hazard_step_preserves(
    s: SectorType,
    before: Seq<LevelObject>,
    y: int,
    x: int,
    drew: bool,
)
    requires
        sector_ok(s, before),
        1 <= y < SECTOR_HEIGHT - 1,
        0 <= x < SECTOR_WIDTH,
    ensures
        sector_ok(s, hazard_step(before, y, x, drew)),
{
    let after = hazard_step(before, y, x, drew);
    if drew && before[cell_index(y, x)] == LevelObject::Background && (before[cell_index(y - 1, x)]
        == LevelObject::Tile || before[cell_index(y + 1, x)] == LevelObject::Tile) {
        let h = if before[cell_index(y - 1, x)] == LevelObject::Tile {
            LevelObject::Stalactite
        } else {
            LevelObject::Stalagmite
        };
        assert(after == before.update(cell_index(y, x), h));
        assert(base_cell(s, y, x) == LevelObject::Background);
        assert forall|yy: int, xx: int|
            in_sector(yy, xx) && base_cell(s, yy, xx) != LevelObject::Background implies #[trigger
        ] after[cell_index(yy, xx)] == base_cell(s, yy, xx) by {
            assert(before[cell_index(yy, xx)] == base_cell(s, yy, xx));
            if cell_index(yy, xx) == cell_index(y, x) {
                lemma_cell_index_injective(yy, xx, y, x);
            }
        }
        assert forall|yy: int, xx: int|
            in_sector(yy, xx) && base_cell(s, yy, xx) == LevelObject::Background implies (#[trigger
        ] after[cell_index(yy, xx)] == LevelObject::Background || after[cell_index(yy, xx)]
            == LevelObject::Tile || after[cell_index(yy, xx)] == LevelObject::Stalactite
            || after[cell_index(yy, xx)] == LevelObject::Stalagmite) by {
            assert(before[cell_index(yy, xx)] == LevelObject::Background || before[cell_index(
                yy,
                xx,
            )] == LevelObject::Tile || before[cell_index(yy, xx)] == LevelObject::Stalactite
                || before[cell_index(yy, xx)] == LevelObject::Stalagmite);
        }
        assert forall|yy: int, xx: int| in_sector(yy, xx) implies #[trigger] hazard_justified(
            after,
            yy,
            xx,
        ) by {
            assert(hazard_justified(before, yy, xx));
            if cell_index(yy, xx) == cell_index(y, x) {
                lemma_cell_index_injective(yy, xx, y, x);
                if h == LevelObject::Stalactite {
                    assert(cell_index(y - 1, x) != cell_index(y, x));
                    assert(after[cell_index(y - 1, x)] == LevelObject::Tile);
                } else {
                    assert(cell_index(y + 1, x) != cell_index(y, x));
                    assert(after[cell_index(y + 1, x)] == LevelObject::Tile);
                }
            } else {
                assert(after[cell_index(yy, xx)] == before[cell_index(yy, xx)]);
                if before[cell_index(yy, xx)] == LevelObject::Stalactite {
                    assert(before[cell_index(yy - 1, xx)] == LevelObject::Tile);
                    assert(cell_index(yy - 1, xx) != cell_index(y, x));
                }
                if before[cell_index(yy, xx)] == LevelObject::Stalagmite {
                    assert(before[cell_index(yy + 1, xx)] == LevelObject::Tile);
                    assert(cell_index(yy + 1, xx) != cell_index(y, x));
                }
            }
        }
        assert forall|yy: int, xx: int| in_sector(yy, xx) implies #[trigger] tile_attached(
            after,
            yy,
            xx,
        ) by {
            assert(tile_attached(before, yy, xx));
            if 1 <= yy < SECTOR_HEIGHT - 1 && 1 <= xx < SECTOR_WIDTH - 1 && after[cell_index(
                yy,
                xx,
            )] == LevelObject::Tile {
                if cell_index(yy, xx) == cell_index(y, x) {
                    lemma_cell_index_injective(yy, xx, y, x);
                    assert(false);
                } else {
                    assert(after[cell_index(yy, xx)] == before[cell_index(yy, xx)]);
                    assert(tile_neighbor(before, yy, xx));
                    assert(tile_neighbor(after, yy, xx)) by {
                        assert(before[cell_index(y, x)] != LevelObject::Tile);
                    }
                }
            }
        }
    }
}

/// One visit of the hazard pass: for a background cell, a draw with
/// probability one quarter decides whether it becomes a hazard hanging from
/// a tile above it or, failing that, rising from a tile below it.
fn place_hazard_at(s: Ghost<SectorType>, cells: &mut Vec<LevelObject>, y: usize, x: usize)
    requires
        sector_ok(s@, old(cells)@),
        1 <= y < SECTOR_HEIGHT - 1,
        x < SECTOR_WIDTH,
    ensures
        sector_ok(s@, final(cells)@),
{
    let i = y * SECTOR_WIDTH + x;
    if cells[i] == LevelObject::Background {
        let drew = random_ratio(1, 4);
        let ghost before = cells@;
        apply_hazard(cells, y, x, drew);
        proof {
            lemma_hazard_step_preserves(s@, before, y as int, x as int, drew);
        }
    }
}

/// The hazard pass: every interior-row cell is visited in row-major order.
#[verifier::loop_isolation(false)]
fn place_hazards(s: Ghost<SectorType>, cells: &mut Vec<LevelObject>)
    requires
        sector_ok(s@, old(cells)@),
    ensures
        sector_ok(s@, final(cells)@),
{
    let mut y: usize = 1;
    while y < SECTOR_HEIGHT - 1
        invariant
            1 <= y <= SECTOR_HEIGHT - 1,
            sector_ok(s@, cells@),
        decreases SECTOR_HEIGHT - 1 - y,
    {
        let mut x: usize = 0;
        while x < SECTOR_WIDTH
            invariant
                x <= SECTOR_WIDTH,
                1 <= y < SECTOR_HEIGHT - 1,
                sector_ok(s@, cells@),
            decreases SECTOR_WIDTH - x,
        {
            place_hazard_at(s, cells, y, x);
            x += 1;
        }
        y += 1;
    }
}

/// Rasterizes one sector: border, corridors and centre marker, then the
/// random wall-growth and hazard passes.
pub fn rasterize_sector(s: SectorType) -> (cells: Vec<LevelObject>)
    ensures
        sector_ok(s, cells@),
{
    let mut cells = rasterize_base(s);
    proof {
        assert forall|y: int, x: int| in_sector(y, x) implies (#[trigger] cells@[cell_index(y, x)]
            == LevelObject::Background || cells@[cell_index(y, x)] == LevelObject::Tile || cells@[
            cell_index(y, x)
        ] == base_cell(s, y, x)) by {
            assert(cells@[cell_index(y, x)] == base_cell(s, y, x));
        }
        assert forall|y: int, x: int| in_sector(y, x) implies #[trigger] tile_attached(
            cells@,
            y,
            x,
        ) by {
            if 1 <= y < SECTOR_HEIGHT - 1 && 1 <= x < SECTOR_WIDTH - 1 && cells@[cell_index(y, x)]
                == LevelObject::Tile {
                assert(cells@[cell_index(y, x)] == base_cell(s, y, x));
                assert(false);
            }
        }
        assert(wall_stage(s, cells@));
    }
    grow_walls(Ghost(s), &mut cells);
    proof {
        assert forall|y: int, x: int| in_sector(y, x) implies #[trigger] hazard_justified(
            cells@,
            y,
            x,
        ) by {
            if base_cell(s, y, x) == LevelObject::Background {
                assert(cells@[cell_index(y, x)] == LevelObject::Background || cells@[cell_index(
                    y,
                    x,
                )] == LevelObject::Tile);
            } else {
                assert(cells@[cell_index(y, x)] == base_cell(s, y, x));
            }
        }
        assert(sector_ok(s, cells@));
    }
    place_hazards(Ghost(s), &mut cells);
    cells
}

/// Border integrity law: on the outer ring of a rasterized sector every cell
/// is a tile, except the midpoint of an edge whose open flag punches a
/// corridor through it, which is a path cell.
pub proof fn lemma_border_integrity(s: SectorType, cells: Seq<LevelObject>, y: int, x: int)
    requires
        sector_ok(s, cells),
        in_sector(y, x),
        on_border(y, x),
    ensures
        cells[cell_index(y, x)] == base_cell(s, y, x),
        corridor_covers(s, y, x) ==> cells[cell_index(y, x)] == LevelObject::Path,
        !corridor_covers(s, y, x) ==> cells[cell_index(y, x)] == LevelObject::Tile,
        corridor_covers(s, y, x) <==> ((y == 0 && s.open_up && x == CENTER_X) || (y == SECTOR_HEIGHT
            - 1 && s.open_down && x == CENTER_X) || (x == 0 && s.open_left && y == CENTER_Y) || (x
            == SECTOR_WIDTH - 1 && s.open_right && y == CENTER_Y)),
{
    assert(base_cell(s, y, x) != LevelObject::Background);
    assert(cells[cell_index(y, x)] == base_cell(s, y, x));
}

/// First cell of sector `(r, c)`'s block in the flat level buffer.
pub open spec fn sector_base(r: int, c: int) -> int {
    (r * (SECTOR_COLS as int) + c) * (SECTOR_CELLS as int)
}

/// Flat index of local cell `(y, x)` of sector `(r, c)`.
pub open spec fn flat_index(r: int, c: int, y: int, x: int) -> int {
    sector_base(r, c) + cell_index(y, x)
}

/// The block of `cells` holding sector `(r, c)`.
pub open spec fn sector_slice(cells: Seq<LevelObject>, r: int, c: int) -> Seq<LevelObject> {
    cells.subrange(sector_base(r, c), sector_base(r, c) + SECTOR_CELLS)
}

/// The rasterized level: the cells of every sector, sector-row-major, each
/// sector's block row-major.
pub struct LevelGrid {
    pub cells: Vec<LevelObject>,
}

impl LevelGrid {
    pub open spec fn wf(self) -> bool {
        self.cells@.len() == LEVEL_CELLS
    }

    /// The cell at local position `(y, x)` of sector `(r, c)`.
    pub open spec fn at(self, r: int, c: int, y: int, x: int) -> LevelObject {
        self.cells@[flat_index(r, c, y, x)]
    }
}

/// Every sector's block of `lvl` meets the rasterization contract for that
/// sector's flags in `g`.
pub open spec fn level_ok(g: SectorGrid, lvl: LevelGrid) -> bool {
    &&& lvl.wf()
    &&& forall|r: int, c: int|
        in_grid(r, c) ==> sector_ok(g.at(r, c), #[trigger] sector_slice(lvl.cells@, r, c))
}

/// Rasterizes every sector of `g`, in row-major order, into one level grid.
#[verifier::loop_isolation(false)]
pub fn generate_level_layout(g: &SectorGrid) -> (lvl: LevelGrid)
    requires
        g.wf(),
    ensures
        level_ok(*g, lvl),
{
    let mut cells: Vec<LevelObject> = Vec::new();
    let mut r: usize = 0;
    proof {
        lemma_mul_basics(SECTOR_CELLS as int);
    }
    while r < SECTOR_ROWS
        invariant
            r <= SECTOR_ROWS,
            cells@.len() == sector_base(r as int, 0),
            forall|rr: int, cc: int|
                0 <= rr < r && 0 <= cc < SECTOR_COLS ==> sector_ok(
                    g.at(rr, cc),
                    #[trigger] sector_slice(cells@, rr, cc),
                ),
        decreases SECTOR_ROWS - r,
    {
        let mut c: usize = 0;
        while c < SECTOR_COLS
            invariant
                r < SECTOR_ROWS,
                c <= SECTOR_COLS,
                cells@.len() == sector_base(r as int, c as int),
                forall|rr: int, cc: int|
                    (0 <= rr < r && 0 <= cc < SECTOR_COLS) || (rr == r && 0 <= cc < c)
                        ==> sector_ok(g.at(rr, cc), #[trigger] sector_slice(cells@, rr, cc)),
            decreases SECTOR_COLS - c,
        {
            let s = g.flags(r, c);
            let mut sec = rasterize_sector(s);
            let ghost prefix = cells@;
            let ghost block = sec@;
            cells.append(&mut sec);
            proof {
                assert(cells@ == prefix + block);
                lemma_mul_is_distributive_add_other_way(
                    SECTOR_CELLS as int,
                    r * (SECTOR_COLS as int) + c,
                    1,
                );
                lemma_mul_basics(SECTOR_CELLS as int);
                assert(sector_base(r as int, c + 1) == sector_base(r as int, c as int)
                    + SECTOR_CELLS);
                assert forall|rr: int, cc: int|
                    (0 <= rr < r && 0 <= cc < SECTOR_COLS) || (rr == r && 0 <= cc
                        <= c) implies sector_ok(
                    g.at(rr, cc),
                    #[trigger] sector_slice(cells@, rr, cc),
                ) by {
                    if rr == r && cc == c {
                        assert(sector_slice(cells@, rr, cc) =~= block);
                    } else {
                        assert(sector_slice(cells@, rr, cc) =~= sector_slice(prefix, rr, cc));
                    }
                }
            }
            c += 1;
        }
        proof {
            lemma_mul_is_distributive_add_other_way(SECTOR_COLS as int, r as int, 1);
            assert(sector_base(r + 1, 0) == sector_base(r as int, SECTOR_COLS as int));
        }
        r += 1;
    }
    proof {
        assert(cells@.len() == sector_base(SECTOR_ROWS as int, 0));
        assert(SECTOR_CELLS == 81 && LEVEL_CELLS == 1296);
        assert(sector_base(SECTOR_ROWS as int, 0) == LEVEL_CELLS);
    }
    LevelGrid { cells }
}

/// Locates one cell of the level: its value seen through `at` is the cell
/// of its sector's block, and its flat position — the signaler's emission
/// order — expands to the nested row-major formula.
pub proof fn lemma_level_cell(lvl: LevelGrid, r: int, c: int, y: int, x: int)
    requires
        lvl.wf(),
        in_grid(r, c),
        in_sector(y, x),
    ensures
        0 <= flat_index(r, c, y, x) < LEVEL_CELLS,
        lvl.at(r, c, y, x) == sector_slice(lvl.cells@, r, c)[cell_index(y, x)],
        flat_index(r, c, y, x) == ((r * (SECTOR_COLS as int) + c) * (SECTOR_HEIGHT as int) + y) * (
        SECTOR_WIDTH as int) + x,
{
    let a = r * (SECTOR_COLS as int) + c;
    assert(a * (SECTOR_CELLS as int) == a * ((SECTOR_HEIGHT * SECTOR_WIDTH) as int));
    lemma_mul_is_associative(a, SECTOR_HEIGHT as int, SECTOR_WIDTH as int);
    lemma_mul_is_distributive_add_other_way(SECTOR_WIDTH as int, a * (SECTOR_HEIGHT as int), y);
}

/// Hazard soundness law: a stalactite cell has a tile immediately above it,
/// a stalagmite cell has a tile immediately below it, and no cell is both.
pub proof fn lemma_hazard_soundness(s: SectorType, cells: Seq<LevelObject>, y: int, x: int)
    requires
        sector_ok(s, cells),
        in_sector(y, x),
    ensures
        cells[cell_index(y, x)] == LevelObject::Stalactite ==> 1 <= y && cells[cell_index(
            y - 1,
            x,
        )] == LevelObject::Tile,
        cells[cell_index(y, x)] == LevelObject::Stalagmite ==> y < SECTOR_HEIGHT - 1 && cells[
            cell_index(y + 1, x)
        ] == LevelObject::Tile,
{
    assert(hazard_justified(cells, y, x));
}

/// Wall-attachment law: every tile at an interior position of a rasterized
/// sector has a tile among its 4-neighbours — grown walls lean on the
/// border ring or on other walls, never floating alone.
pub proof fn lemma_tile_attachment(s: SectorType, cells: Seq<LevelObject>, y: int, x: int)
    requires
        sector_ok(s, cells),
        1 <= y < SECTOR_HEIGHT - 1,
        1 <= x < SECTOR_WIDTH - 1,
        cells[cell_index(y, x)] == LevelObject::Tile,
    ensures
        tile_neighbor(cells, y, x),
{
    assert(tile_attached(cells, y, x));
}

} // verus!
