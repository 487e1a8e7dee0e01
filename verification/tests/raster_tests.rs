use levelgen::raster::{
    apply_hazard, apply_wall_growth, generate_level_layout, rasterize_sector, LevelObject,
    CENTER_X, CENTER_Y, LEVEL_CELLS, SECTOR_CELLS,
};
use levelgen::sector::{generate_sector_layout, SectorType};
use levelgen::{SECTOR_COLS, SECTOR_HEIGHT, SECTOR_ROWS, SECTOR_WIDTH};

fn li(y: usize, x: usize) -> usize {
    y * SECTOR_WIDTH + x
}

fn fi(r: usize, c: usize, y: usize, x: usize) -> usize {
    ((r * SECTOR_COLS + c) * SECTOR_HEIGHT + y) * SECTOR_WIDTH + x
}

#[test]
fn closed_sector_fully_enclosed() {
    let cells = rasterize_sector(SectorType::closed());
    assert_eq!(cells.len(), SECTOR_CELLS);
    for y in 0..SECTOR_HEIGHT {
        for x in 0..SECTOR_WIDTH {
            let o = cells[li(y, x)];
            if y == 0 || y == SECTOR_HEIGHT - 1 || x == 0 || x == SECTOR_WIDTH - 1 {
                assert_eq!(o, LevelObject::Tile);
            }
            assert_ne!(o, LevelObject::Path);
            assert_ne!(o, LevelObject::Entrance);
            assert_ne!(o, LevelObject::Exit);
        }
    }
}

#[test]
fn open_sector_corridors_and_entrance() {
    let mut s = SectorType::closed();
    s.open_up = true;
    s.open_left = true;
    s.is_entrance = true;
    let cells = rasterize_sector(s);

    // The open edges' midpoints are punched through; the others stay tiles.
    assert_eq!(cells[li(0, CENTER_X)], LevelObject::Path);
    assert_eq!(cells[li(CENTER_Y, 0)], LevelObject::Path);
    assert_eq!(cells[li(SECTOR_HEIGHT - 1, CENTER_X)], LevelObject::Tile);
    assert_eq!(cells[li(CENTER_Y, SECTOR_WIDTH - 1)], LevelObject::Tile);

    // The corridors run from the edge midpoints to the centre, which holds
    // the entrance marker.
    for y in 0..CENTER_Y {
        assert_eq!(cells[li(y, CENTER_X)], LevelObject::Path);
    }
    for x in 0..CENTER_X {
        assert_eq!(cells[li(CENTER_Y, x)], LevelObject::Path);
    }
    assert_eq!(cells[li(CENTER_Y, CENTER_X)], LevelObject::Entrance);
}

#[test]
fn exit_overrides_path_at_centre() {
    let mut s = SectorType::closed();
    s.open_down = true;
    s.is_exit = true;
    let cells = rasterize_sector(s);
    assert_eq!(cells[li(CENTER_Y, CENTER_X)], LevelObject::Exit);
    for y in CENTER_Y + 1..SECTOR_HEIGHT {
        assert_eq!(cells[li(y, CENTER_X)], LevelObject::Path);
    }
}

#[test]
fn level_layout_borders_match_flags() {
    for _ in 0..10 {
        let g = generate_sector_layout();
        let lvl = generate_level_layout(&g);
        assert_eq!(lvl.cells.len(), LEVEL_CELLS);
        for r in 0..SECTOR_ROWS {
            for c in 0..SECTOR_COLS {
                let s = g.sectors[r * SECTOR_COLS + c];
                for y in 0..SECTOR_HEIGHT {
                    for x in 0..SECTOR_WIDTH {
                        if y != 0 && y != SECTOR_HEIGHT - 1 && x != 0 && x != SECTOR_WIDTH - 1 {
                            continue;
                        }
                        let o = lvl.cells[fi(r, c, y, x)];
                        let punched = (y == 0 && s.open_up && x == CENTER_X)
                            || (y == SECTOR_HEIGHT - 1 && s.open_down && x == CENTER_X)
                            || (x == 0 && s.open_left && y == CENTER_Y)
                            || (x == SECTOR_WIDTH - 1 && s.open_right && y == CENTER_Y);
                        if punched {
                            assert_eq!(o, LevelObject::Path);
                        } else {
                            assert_eq!(o, LevelObject::Tile);
                        }
                    }
                }
            }
        }
    }
}

#[test]
fn hazards_attached_to_tiles() {
    for _ in 0..10 {
        let g = generate_sector_layout();
        let lvl = generate_level_layout(&g);
        for r in 0..SECTOR_ROWS {
            for c in 0..SECTOR_COLS {
                for y in 0..SECTOR_HEIGHT {
                    for x in 0..SECTOR_WIDTH {
                        let o = lvl.cells[fi(r, c, y, x)];
                        if o == LevelObject::Stalactite {
                            assert!(y >= 1);
                            assert_eq!(lvl.cells[fi(r, c, y - 1, x)], LevelObject::Tile);
                        }
                        if o == LevelObject::Stalagmite {
                            assert!(y + 1 < SECTOR_HEIGHT);
                            assert_eq!(lvl.cells[fi(r, c, y + 1, x)], LevelObject::Tile);
                        }
                    }
                }
            }
        }
    }
}

#[test]
fn default_cell_is_background() {
    assert_eq!(LevelObject::default(), LevelObject::Background);
}

#[test]
fn hazard_step_prefers_ceiling() {
    // A background cell between two tiles: the ceiling check is made first,
    // so the cell hangs from the tile above it.
    let mut base = vec![LevelObject::Background; SECTOR_CELLS];
    base[li(1, 4)] = LevelObject::Tile;
    base[li(3, 4)] = LevelObject::Tile;
    let mut both = base.clone();
    apply_hazard(&mut both, 2, 4, true);
    assert_eq!(both[li(2, 4)], LevelObject::Stalactite);

    // A failed draw changes nothing.
    let mut unmoved = base.clone();
    apply_hazard(&mut unmoved, 2, 4, false);
    assert_eq!(unmoved, base);

    // Only a tile below: the cell rises from the floor.
    let mut floor = vec![LevelObject::Background; SECTOR_CELLS];
    floor[li(3, 4)] = LevelObject::Tile;
    apply_hazard(&mut floor, 2, 4, true);
    assert_eq!(floor[li(2, 4)], LevelObject::Stalagmite);

    // No neighbouring tile: no hazard, draw or not.
    let mut lone = vec![LevelObject::Background; SECTOR_CELLS];
    apply_hazard(&mut lone, 2, 4, true);
    assert_eq!(lone[li(2, 4)], LevelObject::Background);
}

#[test]
fn wall_growth_step_needs_draw_and_neighbour() {
    let mut base = vec![LevelObject::Background; SECTOR_CELLS];
    base[li(2, 3)] = LevelObject::Tile;

    // A successful draw grows a background cell against its tile neighbour.
    let mut grown = base.clone();
    apply_wall_growth(&mut grown, 2, 4, true);
    assert_eq!(grown[li(2, 4)], LevelObject::Tile);

    // A failed draw changes nothing.
    let mut unmoved = base.clone();
    apply_wall_growth(&mut unmoved, 2, 4, false);
    assert_eq!(unmoved, base);

    // Without a tile among the 4-neighbours nothing grows.
    let mut lone = vec![LevelObject::Background; SECTOR_CELLS];
    apply_wall_growth(&mut lone, 2, 4, true);
    assert_eq!(lone[li(2, 4)], LevelObject::Background);

    // Only background cells grow: a path cell stays a path cell.
    let mut path = base.clone();
    path[li(2, 4)] = LevelObject::Path;
    let before = path.clone();
    apply_wall_growth(&mut path, 2, 4, true);
    assert_eq!(path, before);
}

#[test]
fn interior_tiles_attached() {
    for _ in 0..10 {
        let g = generate_sector_layout();
        let lvl = generate_level_layout(&g);
        for r in 0..SECTOR_ROWS {
            for c in 0..SECTOR_COLS {
                for y in 1..SECTOR_HEIGHT - 1 {
                    for x in 1..SECTOR_WIDTH - 1 {
                        if lvl.cells[fi(r, c, y, x)] == LevelObject::Tile {
                            let attached = lvl.cells[fi(r, c, y - 1, x)] == LevelObject::Tile
                                || lvl.cells[fi(r, c, y, x - 1)] == LevelObject::Tile
                                || lvl.cells[fi(r, c, y, x + 1)] == LevelObject::Tile
                                || lvl.cells[fi(r, c, y + 1, x)] == LevelObject::Tile;
                            assert!(attached);
                        }
                    }
                }
            }
        }
    }
}
