//! Sector graph generation: a grid of per-sector connectivity flags with a
//! single corridor of sectors from an entrance in the top row to an exit in
//! the bottom row.
use vstd::prelude::*;

verus! {

use vstd::arithmetic::div_mod::lemma_fundamental_div_mod_converse;
use crate::rng::random_below;
use crate::{SECTOR_COLS, SECTOR_ROWS};

/// Connectivity flags of one sector. A sector with no flag set is closed.
#[derive(Clone, Copy, PartialEq, Eq, Structural, Debug)]
pub struct SectorType {
    pub is_entrance: bool,
    pub is_exit: bool,
    pub open_up: bool,
    pub open_down: bool,
    pub open_left: bool,
    pub open_right: bool,
}

impl SectorType {
    /// A sector with every flag clear.
    pub fn closed() -> (s: SectorType)
        ensures
            s == (SectorType {
                is_entrance: false,
                is_exit: false,
                open_up: false,
                open_down: false,
                open_left: false,
                open_right: false,
            }),
    {
        SectorType {
            is_entrance: false,
            is_exit: false,
            open_up: false,
            open_down: false,
            open_left: false,
            open_right: false,
        }
    }
}

/// A `SECTOR_ROWS` x `SECTOR_COLS` matrix of sector flags, stored row-major.
pub struct SectorGrid {
    pub sectors: Vec<SectorType>,
}

impl SectorGrid {
    pub open spec fn wf(self) -> bool {
        self.sectors@.len() == SECTOR_ROWS * SECTOR_COLS
    }

    /// The flags of the sector in row `r`, column `c`.
    pub open spec fn at(self, r: int, c: int) -> SectorType {
        self.sectors@[r * (SECTOR_COLS as int) + c]
    }

    /// The flags of the sector in row `r`, column `c`.
    pub fn flags(&self, r: usize, c: usize) -> (s: SectorType)
        requires
            self.wf(),
            r < SECTOR_ROWS,
            c < SECTOR_COLS,
        ensures
            s == self.at(r as int, c as int),
    {
        self.sectors[r * SECTOR_COLS + c]
    }
}

/// Whether `(r, c)` indexes a sector of the grid.
pub open spec fn in_grid(r: int, c: int) -> bool {
    0 <= r < SECTOR_ROWS && 0 <= c < SECTOR_COLS
}

/// The random draws that drive one generation pass: an entrance column, an
/// exit column, and one downward-link column per row boundary.
pub open spec fn draws_wf(ec: int, xc: int, down: Seq<int>) -> bool {
    &&& 0 <= ec < SECTOR_COLS
    &&& 0 <= xc < SECTOR_COLS
    &&& down.len() == SECTOR_ROWS - 1
    &&& forall|i: int| 0 <= i < down.len() ==> 0 <= #[trigger] down[i] < SECTOR_COLS
}

/// The column through which the corridor enters row `r` from above
/// (the entrance column for the top row).
pub open spec fn row_entry_col(ec: int, down: Seq<int>, r: int) -> int {
    if r == 0 {
        ec
    } else {
        down[r - 1]
    }
}

/// The column through which the corridor leaves row `r` downward
/// (the exit column for the bottom row).
pub open spec fn row_target_col(xc: int, down: Seq<int>, r: int) -> int {
    if r < SECTOR_ROWS - 1 {
        down[r]
    } else {
        xc
    }
}

/// The lower end of row `r`'s horizontal corridor.
pub open spec fn row_lo(ec: int, xc: int, down: Seq<int>, r: int) -> int {
    let a = row_entry_col(ec, down, r);
    let b = row_target_col(xc, down, r);
    if a <= b {
        a
    } else {
        b
    }
}

/// The upper end of row `r`'s horizontal corridor.
pub open spec fn row_hi(ec: int, xc: int, down: Seq<int>, r: int) -> int {
    let a = row_entry_col(ec, down, r);
    let b = row_target_col(xc, down, r);
    if a <= b {
        b
    } else {
        a
    }
}

/// The flags that generation assigns to sector `(r, c)` for the given draws:
/// entrance and exit markers, one vertical link per row boundary, and one
/// horizontal run per row joining that row's entry and target columns. When
/// entry and target coincide the run is empty and the vertical link alone
/// connects the rows.
pub open spec fn sector_flags(ec: int, xc: int, down: Seq<int>, r: int, c: int) -> SectorType {
    let lo = row_lo(ec, xc, down, r);
    let hi = row_hi(ec, xc, down, r);
    SectorType {
        is_entrance: r == 0 && c == ec,
        is_exit: r == SECTOR_ROWS - 1 && c == xc,
        open_up: r > 0 && c == down[r - 1],
        open_down: r < SECTOR_ROWS - 1 && c == down[r],
        open_left: lo < c <= hi,
        open_right: lo <= c < hi,
    }
}

/// `g` is exactly the sector grid that the draws `(ec, xc, down)` generate.
pub open spec fn is_layout(g: SectorGrid, ec: int, xc: int, down: Seq<int>) -> bool {
    &&& g.wf()
    &&& forall|r: int, c: int|
        in_grid(r, c) ==> #[trigger] g.at(r, c) == sector_flags(ec, xc, down, r, c)
}

/// `g` is a grid that some well-formed draws generate.
pub open spec fn generated(g: SectorGrid) -> bool {
    exists|ec: int, xc: int, down: Seq<int>| draws_wf(ec, xc, down) && is_layout(g, ec, xc, down)
}

/// The flags of one sector, computed from the draws.
fn compute_sector_flags(
    entrance_col: usize,
    exit_col: usize,
    down_cols: &Vec<usize>,
    r: usize,
    c: usize,
) -> (s: SectorType)
    requires
        entrance_col < SECTOR_COLS,
        exit_col < SECTOR_COLS,
        down_cols@.len() == SECTOR_ROWS - 1,
        forall|i: int| 0 <= i < down_cols@.len() ==> #[trigger] down_cols@[i] < SECTOR_COLS,
        r < SECTOR_ROWS,
        c < SECTOR_COLS,
    ensures
        s == sector_flags(
            entrance_col as int,
            exit_col as int,
            down_cols@.map_values(|v: usize| v as int),
            r as int,
            c as int,
        ),
{
    let a: usize = if r == 0 {
        entrance_col
    } else {
        down_cols[r - 1]
    };
    let b: usize = if r + 1 < SECTOR_ROWS {
        down_cols[r]
    } else {
        exit_col
    };
    let lo: usize = if a <= b {
        a
    } else {
        b
    };
    let hi: usize = if a <= b {
        b
    } else {
        a
    };
    SectorType {
        is_entrance: r == 0 && c == entrance_col,
        is_exit: r == SECTOR_ROWS - 1 && c == exit_col,
        open_up: r > 0 && c == down_cols[r - 1],
        open_down: r + 1 < SECTOR_ROWS && c == down_cols[r],
        open_left: lo < c && c <= hi,
        open_right: lo <= c && c < hi,
    }
}

/// Builds the sector grid that the given draws determine.
#[verifier::loop_isolation(false)]
pub fn build_sector_layout(entrance_col: usize, exit_col: usize, down_cols: &Vec<usize>) -> (g:
    SectorGrid)
    requires
        entrance_col < SECTOR_COLS,
        exit_col < SECTOR_COLS,
        down_cols@.len() == SECTOR_ROWS - 1,
        forall|i: int| 0 <= i < down_cols@.len() ==> #[trigger] down_cols@[i] < SECTOR_COLS,
    ensures
        is_layout(
            g,
            entrance_col as int,
            exit_col as int,
            down_cols@.map_values(|v: usize| v as int),
        ),
{
    let ghost down = down_cols@.map_values(|v: usize| v as int);
    let mut sectors: Vec<SectorType> = Vec::new();
    let mut r: usize = 0;
    while r < SECTOR_ROWS
        invariant
            r <= SECTOR_ROWS,
            sectors@.len() == r * SECTOR_COLS,
            forall|k: int|
                0 <= k < sectors@.len() ==> #[trigger] sectors@[k] == sector_flags(
                    entrance_col as int,
                    exit_col as int,
                    down,
                    k / (SECTOR_COLS as int),
                    k % (SECTOR_COLS as int),
                ),
        decreases SECTOR_ROWS - r,
    {
        let mut c: usize = 0;
        while c < SECTOR_COLS
            invariant
                r < SECTOR_ROWS,
                c <= SECTOR_COLS,
                sectors@.len() == r * SECTOR_COLS + c,
                forall|k: int|
                    0 <= k < sectors@.len() ==> #[trigger] sectors@[k] == sector_flags(
                        entrance_col as int,
                        exit_col as int,
                        down,
                        k / (SECTOR_COLS as int),
                        k % (SECTOR_COLS as int),
                    ),
            decreases SECTOR_COLS - c,
        {
            let s = compute_sector_flags(entrance_col, exit_col, down_cols, r, c);
            sectors.push(s);
            proof {
                lemma_fundamental_div_mod_converse(
                    r * (SECTOR_COLS as int) + c,
                    SECTOR_COLS as int,
                    r as int,
                    c as int,
                );
            }
            c += 1;
        }
        r += 1;
    }
    let g = SectorGrid { sectors };
    proof {
        assert forall|rr: int, cc: int| in_grid(rr, cc) implies #[trigger] g.at(rr, cc)
            == sector_flags(entrance_col as int, exit_col as int, down, rr, cc) by {
            lemma_fundamental_div_mod_converse(
                rr * (SECTOR_COLS as int) + cc,
                SECTOR_COLS as int,
                rr,
                cc,
            );
        }
    }
    g
}

/// Generates a sector grid from fresh random draws: an entrance column, an
/// exit column, and one downward link per row boundary, each uniform over
/// the columns.
#[verifier::loop_isolation(false)]
pub fn generate_sector_layout() -> (g: SectorGrid)
    ensures
        g.wf(),
        generated(g),
{
    let entrance_col = random_below(SECTOR_COLS);
    let exit_col = random_below(SECTOR_COLS);
    let mut down_cols: Vec<usize> = Vec::new();
    let mut i: usize = 0;
    while i < SECTOR_ROWS - 1
        invariant
            i <= SECTOR_ROWS - 1,
            down_cols@.len() == i,
            forall|j: int| 0 <= j < down_cols@.len() ==> #[trigger] down_cols@[j] < SECTOR_COLS,
        decreases SECTOR_ROWS - 1 - i,
    {
        let d = random_below(SECTOR_COLS);
        down_cols.push(d);
        i += 1;
    }
    let g = build_sector_layout(entrance_col, exit_col, &down_cols);
    proof {
        let down = down_cols@.map_values(|v: usize| v as int);
        assert(draws_wf(entrance_col as int, exit_col as int, down));
        assert(is_layout(g, entrance_col as int, exit_col as int, down));
    }
    g
}

} // verus!
