use levelgen::sector::{build_sector_layout, generate_sector_layout, SectorGrid, SectorType};
use levelgen::{SECTOR_COLS, SECTOR_ROWS};

fn flags(g: &SectorGrid, r: usize, c: usize) -> SectorType {
    g.sectors[r * SECTOR_COLS + c]
}

#[test]
fn scenario_row_join() {
    // 4x4 sectors, entrance column 2, exit column 1, downward links 1, 3, 0.
    let down = vec![1usize, 3, 0];
    let g = build_sector_layout(2, 1, &down);

    // Row 0 joins the entrance column 2 with the downward link column 1:
    // sector (0,1) opens right and downward, (0,2) carries the entrance and
    // opens left, and no column lies strictly between them.
    let s01 = flags(&g, 0, 1);
    assert!(s01.open_down);
    assert!(s01.open_right);
    assert!(!s01.open_left);
    assert!(!s01.open_up);
    assert!(!s01.is_entrance);
    let s02 = flags(&g, 0, 2);
    assert!(s02.is_entrance);
    assert!(s02.open_left);
    assert!(!s02.open_right);
    assert!(!s02.open_down);
    let s00 = flags(&g, 0, 0);
    assert!(!s00.is_entrance && !s00.open_left && !s00.open_right && !s00.open_down);

    // The vertical link of row boundary 0 opens (1,1) upward.
    let s11 = flags(&g, 1, 1);
    assert!(s11.open_up);
    assert!(s11.open_right);

    // Row 1 joins columns 1 and 3, so (1,2) lies strictly between them.
    let s12 = flags(&g, 1, 2);
    assert!(s12.open_left && s12.open_right);
    let s13 = flags(&g, 1, 3);
    assert!(s13.open_left && s13.open_down && !s13.open_right);

    // The bottom row joins the exit column 1 with the upward link column 0.
    let s30 = flags(&g, 3, 0);
    assert!(s30.open_up && s30.open_right);
    let s31 = flags(&g, 3, 1);
    assert!(s31.is_exit && s31.open_left && !s31.open_right);
}

#[test]
fn same_column_needs_no_horizontal_join() {
    // Entrance, exit and every link in column 0: only vertical links appear.
    let down = vec![0usize, 0, 0];
    let g = build_sector_layout(0, 0, &down);
    for r in 0..SECTOR_ROWS {
        for c in 0..SECTOR_COLS {
            let s = flags(&g, r, c);
            assert!(!s.open_left && !s.open_right);
            assert_eq!(s.open_down, r < SECTOR_ROWS - 1 && c == 0);
            assert_eq!(s.open_up, r > 0 && c == 0);
        }
    }
    assert!(flags(&g, 0, 0).is_entrance);
    assert!(flags(&g, SECTOR_ROWS - 1, 0).is_exit);
}

#[test]
fn generated_grid_connected_and_unique() {
    for _ in 0..50 {
        let g = generate_sector_layout();

        // Exactly one entrance and one exit, never the same sector.
        let mut entrances = Vec::new();
        let mut exits = Vec::new();
        for r in 0..SECTOR_ROWS {
            for c in 0..SECTOR_COLS {
                let s = flags(&g, r, c);
                if s.is_entrance {
                    entrances.push((r, c));
                }
                if s.is_exit {
                    exits.push((r, c));
                }
            }
        }
        assert_eq!(entrances.len(), 1);
        assert_eq!(exits.len(), 1);
        assert!(entrances[0] != exits[0]);
        assert_eq!(entrances[0].0, 0);
        assert_eq!(exits[0].0, SECTOR_ROWS - 1);

        // The entrance reaches the exit through matching open-flag pairs.
        let mut visited = vec![vec![false; SECTOR_COLS]; SECTOR_ROWS];
        let mut stack = vec![entrances[0]];
        visited[entrances[0].0][entrances[0].1] = true;
        while let Some((r, c)) = stack.pop() {
            let s = flags(&g, r, c);
            if c + 1 < SECTOR_COLS && s.open_right && flags(&g, r, c + 1).open_left
                && !visited[r][c + 1]
            {
                visited[r][c + 1] = true;
                stack.push((r, c + 1));
            }
            if c > 0 && s.open_left && flags(&g, r, c - 1).open_right && !visited[r][c - 1] {
                visited[r][c - 1] = true;
                stack.push((r, c - 1));
            }
            if r + 1 < SECTOR_ROWS && s.open_down && flags(&g, r + 1, c).open_up
                && !visited[r + 1][c]
            {
                visited[r + 1][c] = true;
                stack.push((r + 1, c));
            }
            if r > 0 && s.open_up && flags(&g, r - 1, c).open_down && !visited[r - 1][c] {
                visited[r - 1][c] = true;
                stack.push((r - 1, c));
            }
        }
        assert!(visited[exits[0].0][exits[0].1]);
    }
}
