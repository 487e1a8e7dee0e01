use levelgen::generate_level;
use levelgen::raster::{LevelGrid, LevelObject, LEVEL_CELLS};
use levelgen::signal::{
    signal_level_object_spawns, world_pos, SpawnInstruction, WorldPos, DOOR_TEX_BASE,
    TILE_TEX_BASE,
};
use levelgen::{SECTOR_COLS, SECTOR_HEIGHT, SECTOR_ROWS, SECTOR_WIDTH};

fn fi(r: usize, c: usize, y: usize, x: usize) -> usize {
    ((r * SECTOR_COLS + c) * SECTOR_HEIGHT + y) * SECTOR_WIDTH + x
}

#[test]
fn world_positions_exact() {
    // The level is centred on the origin: the top-left cell sits half a
    // level up and left, the bottom-right cell mirrors it.
    assert_eq!(world_pos(0, 0, 0, 0), WorldPos { x: -2240, y: 2240 });
    assert_eq!(
        world_pos(
            SECTOR_ROWS - 1,
            SECTOR_COLS - 1,
            SECTOR_HEIGHT - 1,
            SECTOR_WIDTH - 1
        ),
        WorldPos { x: 2240, y: -2240 }
    );
    // One cell to the right moves one tile edge in x, one row down moves
    // one tile edge down in y.
    assert_eq!(world_pos(0, 0, 0, 1), WorldPos { x: -2112, y: 2240 });
    assert_eq!(world_pos(0, 0, 1, 0), WorldPos { x: -2240, y: 2112 });
    // Crossing a sector boundary keeps the pixel pitch.
    assert_eq!(world_pos(0, 1, 0, 0), WorldPos { x: -1088, y: 2240 });
}

#[test]
fn world_positions_distinct() {
    let mut seen: Vec<WorldPos> = Vec::new();
    for r in 0..SECTOR_ROWS {
        for c in 0..SECTOR_COLS {
            for y in 0..SECTOR_HEIGHT {
                for x in 0..SECTOR_WIDTH {
                    seen.push(world_pos(r, c, y, x));
                }
            }
        }
    }
    for i in 0..seen.len() {
        for j in i + 1..seen.len() {
            assert!(seen[i] != seen[j]);
        }
    }
}

#[test]
fn signal_entrance_and_exit() {
    let mut cells = vec![LevelObject::Background; LEVEL_CELLS];
    cells[fi(0, 2, 4, 4)] = LevelObject::Entrance;
    cells[fi(3, 1, 4, 4)] = LevelObject::Exit;
    let lvl = LevelGrid { cells };
    let out = signal_level_object_spawns(&lvl, 1);

    let mut players = 0;
    let mut entrance_doors = 0;
    let mut exit_doors = 0;
    let mut door_positions: Vec<WorldPos> = Vec::new();
    for ins in out.iter() {
        match *ins {
            SpawnInstruction::PlayerSpawn { .. } => players += 1,
            SpawnInstruction::DoorSpawn { pos, is_exit, .. } => {
                door_positions.push(pos);
                if is_exit {
                    exit_doors += 1;
                } else {
                    entrance_doors += 1;
                }
            }
            _ => panic!("unexpected instruction"),
        }
    }
    assert_eq!(out.len(), 3);
    assert_eq!(players, 1);
    assert_eq!(entrance_doors, 1);
    assert_eq!(exit_doors, 1);
    assert!(door_positions[0] != door_positions[1]);
}

#[test]
fn instructions_in_order_with_world_textures() {
    let world = 3u8;
    let mut cells = vec![LevelObject::Background; LEVEL_CELLS];
    cells[fi(0, 0, 0, 0)] = LevelObject::Tile;
    cells[fi(0, 0, 0, 1)] = LevelObject::Entrance;
    cells[fi(0, 0, 0, 2)] = LevelObject::Exit;
    cells[fi(0, 0, 0, 3)] = LevelObject::Stalactite;
    cells[fi(0, 0, 0, 4)] = LevelObject::Stalagmite;
    cells[fi(0, 0, 0, 5)] = LevelObject::Path;
    let lvl = LevelGrid { cells };
    let out = signal_level_object_spawns(&lvl, world);

    assert_eq!(out.len(), 6);
    match out[0] {
        SpawnInstruction::TileSpawn { pos, tex_idx } => {
            assert_eq!(pos, world_pos(0, 0, 0, 0));
            assert_eq!(tex_idx, TILE_TEX_BASE + world as usize);
        }
        _ => panic!("expected a tile spawn first"),
    }
    match out[1] {
        SpawnInstruction::PlayerSpawn { pos } => assert_eq!(pos, world_pos(0, 0, 0, 1)),
        _ => panic!("expected the player spawn second"),
    }
    match out[2] {
        SpawnInstruction::DoorSpawn { pos, tex_idx, is_exit } => {
            assert_eq!(pos, world_pos(0, 0, 0, 1));
            assert_eq!(tex_idx, DOOR_TEX_BASE + world as usize);
            assert!(!is_exit);
        }
        _ => panic!("expected the entrance door third"),
    }
    match out[3] {
        SpawnInstruction::DoorSpawn { pos, tex_idx, is_exit } => {
            assert_eq!(pos, world_pos(0, 0, 0, 2));
            assert_eq!(tex_idx, DOOR_TEX_BASE);
            assert!(is_exit);
        }
        _ => panic!("expected the exit door fourth"),
    }
    match out[4] {
        SpawnInstruction::HazardSpawn { pos, on_ceil } => {
            assert_eq!(pos, world_pos(0, 0, 0, 3));
            assert!(on_ceil);
        }
        _ => panic!("expected the ceiling hazard fifth"),
    }
    match out[5] {
        SpawnInstruction::HazardSpawn { pos, on_ceil } => {
            assert_eq!(pos, world_pos(0, 0, 0, 4));
            assert!(!on_ceil);
        }
        _ => panic!("expected the floor hazard last"),
    }
}

#[test]
fn signal_counts_match_cells() {
    let (_g, lvl, out) = generate_level(2);

    let mut tiles = 0usize;
    let mut entrances = 0usize;
    let mut exits = 0usize;
    let mut hazards = 0usize;
    for o in lvl.cells.iter() {
        match *o {
            LevelObject::Tile => tiles += 1,
            LevelObject::Entrance => entrances += 1,
            LevelObject::Exit => exits += 1,
            LevelObject::Stalactite | LevelObject::Stalagmite => hazards += 1,
            LevelObject::Background | LevelObject::Path => {}
        }
    }
    let mut tile_spawns = 0usize;
    let mut player_spawns = 0usize;
    let mut door_spawns = 0usize;
    let mut hazard_spawns = 0usize;
    for ins in out.iter() {
        match *ins {
            SpawnInstruction::TileSpawn { .. } => tile_spawns += 1,
            SpawnInstruction::PlayerSpawn { .. } => player_spawns += 1,
            SpawnInstruction::DoorSpawn { .. } => door_spawns += 1,
            SpawnInstruction::HazardSpawn { .. } => hazard_spawns += 1,
        }
    }
    assert_eq!(tile_spawns, tiles);
    assert_eq!(player_spawns, entrances);
    assert_eq!(door_spawns, entrances + exits);
    assert_eq!(hazard_spawns, hazards);
    assert_eq!(entrances, 1);
    assert_eq!(exits, 1);
}
