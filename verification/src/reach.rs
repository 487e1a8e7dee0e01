//! Connectivity of generated sector grids: the entrance sector reaches the
//! exit sector through matching open flags, and both markers are unique.
use vstd::prelude::*;

verus! {

use crate::sector::{
    draws_wf,
    generated,
    in_grid,
    is_layout,
    row_entry_col,
    row_hi,
    row_lo,
    row_target_col,
    sector_flags,
    SectorGrid,
};
use crate::{SECTOR_COLS, SECTOR_ROWS};

/// Sectors `p` and `q` are adjacent and share a matching pair of open flags
/// (right/left for horizontal neighbours, down/up for vertical ones).
pub open spec fn linked(g: SectorGrid, p: (int, int), q: (int, int)) -> bool {
    ||| q.0 == p.0 && q.1 == p.1 + 1 && g.at(p.0, p.1).open_right && g.at(q.0, q.1).open_left
    ||| q.0 == p.0 && q.1 == p.1 - 1 && g.at(p.0, p.1).open_left && g.at(q.0, q.1).open_right
    ||| q.1 == p.1 && q.0 == p.0 + 1 && g.at(p.0, p.1).open_down && g.at(q.0, q.1).open_up
    ||| q.1 == p.1 && q.0 == p.0 - 1 && g.at(p.0, p.1).open_up && g.at(q.0, q.1).open_down
}

/// `path` is a chain of in-bounds sectors from `from` to `to` in which each
/// consecutive pair is linked.
pub open spec fn path_connects(
    g: SectorGrid,
    path: Seq<(int, int)>,
    from: (int, int),
    to: (int, int),
) -> bool {
    &&& path.len() >= 1
    &&& path[0] == from
    &&& path[path.len() - 1] == to
    &&& forall|i: int| 0 <= i < path.len() ==> in_grid((#[trigger] path[i]).0, path[i].1)
    &&& forall|i: int| 0 <= i < path.len() - 1 ==> linked(g, #[trigger] path[i], path[i + 1])
}

/// Some chain of linked sectors leads from `from` to `to`.
pub open spec fn reachable(g: SectorGrid, from: (int, int), to: (int, int)) -> bool {
    exists|path: Seq<(int, int)>| path_connects(g, path, from, to)
}

/// Every in-bounds sector reaches itself.
pub proof fn lemma_reachable_refl(g: SectorGrid, p: (int, int))
    requires
        in_grid(p.0, p.1),
    ensures
        reachable(g, p, p),
{
    let path = seq![p];
    assert(path_connects(g, path, p, p));
}

/// Reachability extends along one more link.
pub proof fn lemma_reachable_extend(g: SectorGrid, a: (int, int), p: (int, int), q: (int, int))
    requires
        reachable(g, a, p),
        linked(g, p, q),
        in_grid(q.0, q.1),
    ensures
        reachable(g, a, q),
{
    let path = choose|path: Seq<(int, int)>| path_connects(g, path, a, p);
    let longer = path.push(q);
    assert(longer[longer.len() - 1] == q);
    assert forall|i: int| 0 <= i < longer.len() - 1 implies linked(
        g,
        #[trigger] longer[i],
        longer[i + 1],
    ) by {
        if i < path.len() - 1 {
            assert(linked(g, path[i], path[i + 1]));
        } else {
            assert(longer[i] == p);
        }
    }
    assert(path_connects(g, longer, a, q));
}

/// Walks row `r`'s horizontal corridor one sector at a time: any column of
/// the corridor that is already reached extends to any other column of it.
proof fn lemma_row_walk(
    g: SectorGrid,
    ec: int,
    xc: int,
    down: Seq<int>,
    a: (int, int),
    r: int,
    cur: int,
    to: int,
)
    requires
        draws_wf(ec, xc, down),
        is_layout(g, ec, xc, down),
        0 <= r < SECTOR_ROWS,
        0 <= row_lo(ec, xc, down, r),
        row_hi(ec, xc, down, r) < SECTOR_COLS,
        row_lo(ec, xc, down, r) <= cur <= row_hi(ec, xc, down, r),
        row_lo(ec, xc, down, r) <= to <= row_hi(ec, xc, down, r),
        reachable(g, a, (r, cur)),
    ensures
        reachable(g, a, (r, to)),
    decreases
            if cur <= to {
                to - cur
            } else {
                cur - to
            },
{
    if cur < to {
        assert(g.at(r, cur) == sector_flags(ec, xc, down, r, cur));
        assert(g.at(r, cur + 1) == sector_flags(ec, xc, down, r, cur + 1));
        assert(linked(g, (r, cur), (r, cur + 1)));
        lemma_reachable_extend(g, a, (r, cur), (r, cur + 1));
        lemma_row_walk(g, ec, xc, down, a, r, cur + 1, to);
    } else if cur > to {
        assert(g.at(r, cur) == sector_flags(ec, xc, down, r, cur));
        assert(g.at(r, cur - 1) == sector_flags(ec, xc, down, r, cur - 1));
        assert(linked(g, (r, cur), (r, cur - 1)));
        lemma_reachable_extend(g, a, (r, cur), (r, cur - 1));
        lemma_row_walk(g, ec, xc, down, a, r, cur - 1, to);
    }
}

/// The corridor of row `r` lies within the grid's columns.
proof fn lemma_row_range_bounds(ec: int, xc: int, down: Seq<int>, r: int)
    requires
        draws_wf(ec, xc, down),
        0 <= r < SECTOR_ROWS,
    ensures
        0 <= row_lo(ec, xc, down, r),
        row_hi(ec, xc, down, r) < SECTOR_COLS,
        row_lo(ec, xc, down, r) <= row_entry_col(ec, down, r) <= row_hi(ec, xc, down, r),
        row_lo(ec, xc, down, r) <= row_target_col(xc, down, r) <= row_hi(ec, xc, down, r),
{
    if r > 0 {
        assert(0 <= down[r - 1] < SECTOR_COLS);
    }
    if r < SECTOR_ROWS - 1 {
        assert(0 <= down[r] < SECTOR_COLS);
    }
}

/// The entrance sector reaches the sector where the corridor enters row `r`.
proof fn lemma_reach_row_entry(g: SectorGrid, ec: int, xc: int, down: Seq<int>, r: int)
    requires
        draws_wf(ec, xc, down),
        is_layout(g, ec, xc, down),
        0 <= r < SECTOR_ROWS,
    ensures
        reachable(g, (0, ec), (r, row_entry_col(ec, down, r))),
    decreases r,
{
    if r == 0 {
        lemma_reachable_refl(g, (0, ec));
    } else {
        lemma_reach_row_entry(g, ec, xc, down, r - 1);
        lemma_row_range_bounds(ec, xc, down, r - 1);
        let entry = row_entry_col(ec, down, r - 1);
        let target = row_target_col(xc, down, r - 1);
        lemma_row_walk(g, ec, xc, down, (0, ec), r - 1, entry, target);
        assert(target == down[r - 1]);
        assert(g.at(r - 1, target) == sector_flags(ec, xc, down, r - 1, target));
        assert(g.at(r, target) == sector_flags(ec, xc, down, r, target));
        assert(linked(g, (r - 1, target), (r, target)));
        lemma_reachable_extend(g, (0, ec), (r - 1, target), (r, target));
    }
}

/// Connectivity law: in every generated sector grid, any sector marked as
/// entrance reaches any sector marked as exit through a chain of sectors
/// whose consecutive pairs share matching open flags.
pub proof fn lemma_entrance_reaches_exit(g: SectorGrid, ep: (int, int), xp: (int, int))
    requires
        generated(g),
        in_grid(ep.0, ep.1),
        in_grid(xp.0, xp.1),
        g.at(ep.0, ep.1).is_entrance,
        g.at(xp.0, xp.1).is_exit,
    ensures
        reachable(g, ep, xp),
{
    let (ec, xc, down) = choose|ec: int, xc: int, down: Seq<int>|
        draws_wf(ec, xc, down) && is_layout(g, ec, xc, down);
    assert(g.at(ep.0, ep.1) == sector_flags(ec, xc, down, ep.0, ep.1));
    assert(ep == (0int, ec));
    assert(g.at(xp.0, xp.1) == sector_flags(ec, xc, down, xp.0, xp.1));
    assert(xp == ((SECTOR_ROWS - 1) as int, xc));
    let last = (SECTOR_ROWS - 1) as int;
    lemma_reach_row_entry(g, ec, xc, down, last);
    lemma_row_range_bounds(ec, xc, down, last);
    lemma_row_walk(
        g,
        ec,
        xc,
        down,
        (0, ec),
        last,
        row_entry_col(ec, down, last),
        row_target_col(xc, down, last),
    );
    assert(row_target_col(xc, down, last) == xc);
}

/// Uniqueness law: a generated sector grid has exactly one entrance sector
/// and exactly one exit sector, and they are distinct.
pub proof fn lemma_unique_entrance_exit(g: SectorGrid)
    requires
        generated(g),
    ensures
        exists|p: (int, int)| in_grid(p.0, p.1) && (#[trigger] g.at(p.0, p.1)).is_entrance,
        exists|p: (int, int)| in_grid(p.0, p.1) && (#[trigger] g.at(p.0, p.1)).is_exit,
        forall|p: (int, int), q: (int, int)|
            in_grid(p.0, p.1) && in_grid(q.0, q.1) && (#[trigger] g.at(p.0, p.1)).is_entrance && (
            #[trigger] g.at(q.0, q.1)).is_entrance ==> p == q,
        forall|p: (int, int), q: (int, int)|
            in_grid(p.0, p.1) && in_grid(q.0, q.1) && (#[trigger] g.at(p.0, p.1)).is_exit && (
            #[trigger] g.at(q.0, q.1)).is_exit ==> p == q,
        forall|p: (int, int)|
            in_grid(p.0, p.1) ==> !((#[trigger] g.at(p.0, p.1)).is_entrance && g.at(
                p.0,
                p.1,
            ).is_exit),
{
    let (ec, xc, down) = choose|ec: int, xc: int, down: Seq<int>|
        draws_wf(ec, xc, down) && is_layout(g, ec, xc, down);
    let pe = (0int, ec);
    assert(g.at(pe.0, pe.1) == sector_flags(ec, xc, down, pe.0, pe.1));
    assert(in_grid(pe.0, pe.1) && g.at(pe.0, pe.1).is_entrance);
    let last = (SECTOR_ROWS - 1) as int;
    let px = (last, xc);
    assert(g.at(px.0, px.1) == sector_flags(ec, xc, down, px.0, px.1));
    assert(in_grid(px.0, px.1) && g.at(px.0, px.1).is_exit);
    assert forall|p: (int, int)| in_grid(p.0, p.1) implies !((#[trigger] g.at(
        p.0,
        p.1,
    )).is_entrance && g.at(p.0, p.1).is_exit) by {
        assert(g.at(p.0, p.1) == sector_flags(ec, xc, down, p.0, p.1));
    }
}

} // verus!
