//! Grid storage, tile mutation with an incremental Zobrist hash, and
//! memoized shortest paths over the fixed board topology.
use vstd::prelude::*;
use crate::direction::Direction;
use crate::position::{abs_diff, Position};
use crate::tile::{is_mine, mine_owner, tile_code, tile_kind, tile_ok, Tile};
use crate::zobrist::{ZobristTable, ZOBRIST_LEN};
use crate::BotError;

verus! {

// --------------------------------------------------------------------------
// Geometry
// --------------------------------------------------------------------------
/// Is `(x, y)` a cell of a `size` by `size` board?
pub open spec fn in_bounds(size: int, x: int, y: int) -> bool {
    0 <= x < size && 0 <= y < size
}

/// Row-major cell index of `(x, y)`.
pub open spec fn idx_of(size: int, x: int, y: int) -> int {
    x * size + y
}

/// Is the position a cell of the board?
pub open spec fn pos_in_bounds(size: int, p: Position) -> bool {
    in_bounds(size, p.x as int, p.y as int)
}

/// The tile at `(x, y)`; anything off the board reads as `Wall`.
pub open spec fn cell_at(cells: Seq<Tile>, size: int, x: int, y: int) -> Tile {
    if in_bounds(size, x, y) {
        cells[idx_of(size, x, y)]
    } else {
        Tile::Wall
    }
}

/// Do the two cells share an edge?
pub open spec fn adjacent(ax: int, ay: int, bx: int, by: int) -> bool {
    abs_diff(ax, bx) + abs_diff(ay, by) == 1
}

/// A cell index is in range exactly when its coordinates are.
pub proof fn lemma_idx_bounds(size: int, x: int, y: int)
    requires
        in_bounds(size, x, y),
        size <= 35,
    ensures
        0 <= idx_of(size, x, y) < size * size,
        size * size <= 1225,
        idx_of(size, x, y) / size == x,
        idx_of(size, x, y) % size == y,
{
    assert(0 <= x * size + y < size * size && size * size <= 1225 && (x * size + y) / size == x && (
    x * size + y) % size == y) by (nonlinear_arith)
        requires
            0 <= x < size,
            0 <= y < size,
            size <= 35,
    ;
}

// --------------------------------------------------------------------------
// Reachability and shortest distances
// --------------------------------------------------------------------------
/// Can a path pass through `(x, y)`?  Only air and heroes are walkable.
pub open spec fn can_cross(cells: Seq<Tile>, size: int, x: int, y: int) -> bool {
    tile_kind(cell_at(cells, size, x, y)) == 1
}

/// Can a path end on `(x, y)`?  Anything but a wall: taverns and mines are
/// terminal, entered as the last step and never crossed.
pub open spec fn can_enter(cells: Seq<Tile>, size: int, x: int, y: int) -> bool {
    tile_kind(cell_at(cells, size, x, y)) != 0
}

/// Is `(tx, ty)` reachable from `(sx, sy)` by a path of at most `n` steps?
/// Every step leaves a walkable cell; the final cell need only be enterable
/// (taverns and mines are entered as a path's last step, never crossed).
/// A path of length zero is the source itself.
pub open spec fn reach_in(
    cells: Seq<Tile>,
    size: int,
    sx: int,
    sy: int,
    tx: int,
    ty: int,
    n: nat,
) -> bool
    decreases n,
{
    if n == 0 {
        sx == tx && sy == ty
    } else {
        let m = (n - 1) as nat;
        reach_in(cells, size, sx, sy, tx, ty, m) || (can_enter(cells, size, tx, ty) && ((can_cross(
            cells,
            size,
            tx - 1,
            ty,
        ) && reach_in(cells, size, sx, sy, tx - 1, ty, m)) || (can_cross(cells, size, tx + 1, ty)
            && reach_in(cells, size, sx, sy, tx + 1, ty, m)) || (can_cross(cells, size, tx, ty - 1)
            && reach_in(cells, size, sx, sy, tx, ty - 1, m)) || (can_cross(cells, size, tx, ty + 1)
            && reach_in(cells, size, sx, sy, tx, ty + 1, m))))
    }
}

/// The smallest `m` with `n <= m <= 254` such that the target is reachable
/// in `m` steps, or 255 if there is none.
pub open spec fn dist_upto(
    cells: Seq<Tile>,
    size: int,
    sx: int,
    sy: int,
    tx: int,
    ty: int,
    n: nat,
) -> int
    decreases 255 - n,
{
    if n >= 255 {
        255
    } else if reach_in(cells, size, sx, sy, tx, ty, n) {
        n as int
    } else {
        dist_upto(cells, size, sx, sy, tx, ty, n + 1)
    }
}

/// The breadth-first distance from `(sx, sy)` to `(tx, ty)`: the length of
/// the shortest path, with 255 standing for "unreachable within 254 steps".
pub open spec fn dist_of(cells: Seq<Tile>, size: int, sx: int, sy: int, tx: int, ty: int) -> int {
    dist_upto(cells, size, sx, sy, tx, ty, 0)
}

/// What `shortest_path_length` returns: 255 for any off-board endpoint,
/// else the breadth-first distance.
pub open spec fn spl_spec(cells: Seq<Tile>, size: int, f: Position, t: Position) -> int {
    if !pos_in_bounds(size, f) || !pos_in_bounds(size, t) {
        255
    } else {
        dist_of(cells, size, f.x as int, f.y as int, t.x as int, t.y as int)
    }
}

/// The full distance row of one source cell, as the path cache stores it.
pub open spec fn row_spec(cells: Seq<Tile>, size: int, sx: int, sy: int) -> Seq<u8> {
    Seq::new((size * size) as nat, |j: int| dist_of(cells, size, sx, sy, j / size, j % size) as u8)
}

/// Cell grids whose tiles have equal kinds at every coordinate.
pub open spec fn kinds_eq(c1: Seq<Tile>, c2: Seq<Tile>, size: int) -> bool {
    forall|x: int, y: int|
        #![trigger cell_at(c1, size, x, y)]
        #![trigger cell_at(c2, size, x, y)]
        tile_kind(cell_at(c1, size, x, y)) == tile_kind(cell_at(c2, size, x, y))
}

/// Reachability depends only on tile kinds.
pub proof fn lemma_reach_kinds(
    c1: Seq<Tile>,
    c2: Seq<Tile>,
    size: int,
    sx: int,
    sy: int,
    tx: int,
    ty: int,
    n: nat,
)
    requires
        kinds_eq(c1, c2, size),
    ensures
        reach_in(c1, size, sx, sy, tx, ty, n) == reach_in(c2, size, sx, sy, tx, ty, n),
    decreases n,
{
    if n > 0 {
        let m = (n - 1) as nat;
        lemma_reach_kinds(c1, c2, size, sx, sy, tx, ty, m);
        lemma_reach_kinds(c1, c2, size, sx, sy, tx - 1, ty, m);
        lemma_reach_kinds(c1, c2, size, sx, sy, tx + 1, ty, m);
        lemma_reach_kinds(c1, c2, size, sx, sy, tx, ty - 1, m);
        lemma_reach_kinds(c1, c2, size, sx, sy, tx, ty + 1, m);
    }
}

/// Distances depend only on tile kinds.
pub proof fn lemma_dist_kinds(
    c1: Seq<Tile>,
    c2: Seq<Tile>,
    size: int,
    sx: int,
    sy: int,
    tx: int,
    ty: int,
    n: nat,
)
    requires
        kinds_eq(c1, c2, size),
    ensures
        dist_upto(c1, size, sx, sy, tx, ty, n) == dist_upto(c2, size, sx, sy, tx, ty, n),
    decreases 255 - n,
{
    if n < 255 {
        lemma_reach_kinds(c1, c2, size, sx, sy, tx, ty, n);
        if !reach_in(c1, size, sx, sy, tx, ty, n) {
            lemma_dist_kinds(c1, c2, size, sx, sy, tx, ty, n + 1);
        }
    }
}

/// Whole cached distance rows depend only on tile kinds.
pub proof fn lemma_row_kinds(c1: Seq<Tile>, c2: Seq<Tile>, size: int, sx: int, sy: int)
    requires
        kinds_eq(c1, c2, size),
    ensures
        row_spec(c1, size, sx, sy) == row_spec(c2, size, sx, sy),
{
    let r1 = row_spec(c1, size, sx, sy);
    let r2 = row_spec(c2, size, sx, sy);
    assert(r1.len() == r2.len());
    assert forall|j: int| 0 <= j < r1.len() implies r1[j] == r2[j] by {
        lemma_dist_kinds(c1, c2, size, sx, sy, j / size, j % size, 0);
        assert(r1[j] == dist_of(c1, size, sx, sy, j / size, j % size) as u8);
        assert(r2[j] == dist_of(c2, size, sx, sy, j / size, j % size) as u8);
    }
    assert(r1 =~= r2);
}

// --------------------------------------------------------------------------
// Facts about reachability and distances
// --------------------------------------------------------------------------
/// Reachability is monotone in the step budget.
pub proof fn lemma_reach_mono(
    c: Seq<Tile>,
    size: int,
    sx: int,
    sy: int,
    tx: int,
    ty: int,
    n: nat,
    m: nat,
)
    requires
        n <= m,
        reach_in(c, size, sx, sy, tx, ty, n),
    ensures
        reach_in(c, size, sx, sy, tx, ty, m),
    decreases m,
{
    if n < m {
        lemma_reach_mono(c, size, sx, sy, tx, ty, n, (m - 1) as nat);
    }
}

/// What `dist_upto` returns: a value in `n..=255`; when below 255 it is the
/// least step budget at which the target becomes reachable.
pub proof fn lemma_dist_upto_props(
    c: Seq<Tile>,
    size: int,
    sx: int,
    sy: int,
    tx: int,
    ty: int,
    n: nat,
)
    ensures
        dist_upto(c, size, sx, sy, tx, ty, n) <= 255,
        n <= 255 ==> n as int <= dist_upto(c, size, sx, sy, tx, ty, n),
        dist_upto(c, size, sx, sy, tx, ty, n) < 255 ==> reach_in(
            c,
            size,
            sx,
            sy,
            tx,
            ty,
            dist_upto(c, size, sx, sy, tx, ty, n) as nat,
        ),
        forall|m: nat|
            n <= m < dist_upto(c, size, sx, sy, tx, ty, n) ==> !#[trigger] reach_in(
                c,
                size,
                sx,
                sy,
                tx,
                ty,
                m,
            ),
    decreases 255 - n,
{
    if n < 255 && !reach_in(c, size, sx, sy, tx, ty, n) {
        lemma_dist_upto_props(c, size, sx, sy, tx, ty, n + 1);
    }
}

/// A target reachable within `n <= 254` steps is at distance at most `n`.
pub proof fn lemma_dist_le(c: Seq<Tile>, size: int, sx: int, sy: int, tx: int, ty: int, n: nat)
    requires
        n <= 254,
        reach_in(c, size, sx, sy, tx, ty, n),
    ensures
        dist_of(c, size, sx, sy, tx, ty) <= n,
{
    lemma_dist_upto_props(c, size, sx, sy, tx, ty, 0);
}

/// A cell at positive finite distance can be entered.
pub proof fn lemma_dist_pos_enter(c: Seq<Tile>, size: int, sx: int, sy: int, tx: int, ty: int)
    requires
        1 <= dist_of(c, size, sx, sy, tx, ty) <= 254,
    ensures
        can_enter(c, size, tx, ty),
{
    let e = dist_of(c, size, sx, sy, tx, ty) as nat;
    lemma_dist_upto_props(c, size, sx, sy, tx, ty, 0);
    assert(reach_in(c, size, sx, sy, tx, ty, e));
    assert(!reach_in(c, size, sx, sy, tx, ty, (e - 1) as nat));
}

/// One step from a walkable cell bounds the neighbor's distance.
pub proof fn lemma_step_bound(
    c: Seq<Tile>,
    size: int,
    sx: int,
    sy: int,
    ux: int,
    uy: int,
    vx: int,
    vy: int,
    m: nat,
)
    requires
        m + 1 <= 254,
        adjacent(ux, uy, vx, vy),
        can_cross(c, size, ux, uy),
        can_enter(c, size, vx, vy),
        reach_in(c, size, sx, sy, ux, uy, m),
    ensures
        dist_of(c, size, sx, sy, vx, vy) <= m + 1,
{
    assert(reach_in(c, size, sx, sy, vx, vy, m + 1));
    lemma_dist_le(c, size, sx, sy, vx, vy, m + 1);
}

/// Every cell at finite positive distance has a walkable neighbor exactly
/// one step closer to the source; this returns one.
pub proof fn find_parent(
    c: Seq<Tile>,
    size: int,
    sx: int,
    sy: int,
    tx: int,
    ty: int,
) -> (r: (int, int))
    requires
        1 <= dist_of(c, size, sx, sy, tx, ty) <= 254,
    ensures
        adjacent(r.0, r.1, tx, ty),
        can_cross(c, size, r.0, r.1),
        in_bounds(size, r.0, r.1),
        dist_of(c, size, sx, sy, r.0, r.1) == dist_of(c, size, sx, sy, tx, ty) - 1,
{
    let e = dist_of(c, size, sx, sy, tx, ty) as nat;
    let m = (e - 1) as nat;
    lemma_dist_upto_props(c, size, sx, sy, tx, ty, 0);
    assert(reach_in(c, size, sx, sy, tx, ty, e));
    assert(!reach_in(c, size, sx, sy, tx, ty, m));
    let (ux, uy): (int, int) = if can_cross(c, size, tx - 1, ty) && reach_in(
        c,
        size,
        sx,
        sy,
        tx - 1,
        ty,
        m,
    ) {
        (tx - 1, ty)
    } else if can_cross(c, size, tx + 1, ty) && reach_in(c, size, sx, sy, tx + 1, ty, m) {
        (tx + 1, ty)
    } else if can_cross(c, size, tx, ty - 1) && reach_in(c, size, sx, sy, tx, ty - 1, m) {
        (tx, ty - 1)
    } else {
        (tx, ty + 1)
    };
    assert(can_cross(c, size, ux, uy) && reach_in(c, size, sx, sy, ux, uy, m));
    lemma_dist_le(c, size, sx, sy, ux, uy, m);
    let f = dist_of(c, size, sx, sy, ux, uy);
    lemma_dist_upto_props(c, size, sx, sy, ux, uy, 0);
    if f < e - 1 {
        assert(reach_in(c, size, sx, sy, ux, uy, f as nat));
        assert(can_enter(c, size, tx, ty));
        lemma_step_bound(c, size, sx, sy, ux, uy, tx, ty, f as nat);
        assert(false);
    }
    assert(in_bounds(size, ux, uy)) by {
        if !in_bounds(size, ux, uy) {
            assert(cell_at(c, size, ux, uy) == Tile::Wall);
        }
    }
    (ux, uy)
}

/// Below any cell's finite distance, every intermediate level is inhabited
/// by some walkable cell.
pub proof fn lemma_walkable_at_level(
    c: Seq<Tile>,
    size: int,
    sx: int,
    sy: int,
    tx: int,
    ty: int,
    lvl: nat,
)
    requires
        lvl < dist_of(c, size, sx, sy, tx, ty) <= 254,
    ensures
        exists|wx: int, wy: int|
            in_bounds(size, wx, wy) && can_cross(c, size, wx, wy) && #[trigger] dist_of(
                c,
                size,
                sx,
                sy,
                wx,
                wy,
            ) == lvl,
    decreases dist_of(c, size, sx, sy, tx, ty),
{
    let (ux, uy) = find_parent(c, size, sx, sy, tx, ty);
    if dist_of(c, size, sx, sy, ux, uy) == lvl {
        assert(in_bounds(size, ux, uy) && can_cross(c, size, ux, uy) && dist_of(
            c,
            size,
            sx,
            sy,
            ux,
            uy,
        ) == lvl);
    } else {
        lemma_walkable_at_level(c, size, sx, sy, ux, uy, lvl);
    }
}

/// From a source that cannot be crossed (wall, tavern or mine) nothing else
/// is reachable: the path's first step would have to cross it.
pub proof fn lemma_stuck_source(
    c: Seq<Tile>,
    size: int,
    sx: int,
    sy: int,
    tx: int,
    ty: int,
    n: nat,
)
    requires
        !can_cross(c, size, sx, sy),
        (tx, ty) != (sx, sy),
    ensures
        !reach_in(c, size, sx, sy, tx, ty, n),
    decreases n,
{
    if n > 0 {
        let m = (n - 1) as nat;
        lemma_stuck_source(c, size, sx, sy, tx, ty, m);
        if (tx - 1, ty as int) != (sx, sy) {
            lemma_stuck_source(c, size, sx, sy, tx - 1, ty, m);
        }
        if (tx + 1, ty as int) != (sx, sy) {
            lemma_stuck_source(c, size, sx, sy, tx + 1, ty, m);
        }
        if (tx as int, ty - 1) != (sx, sy) {
            lemma_stuck_source(c, size, sx, sy, tx, ty - 1, m);
        }
        if (tx as int, ty + 1) != (sx, sy) {
            lemma_stuck_source(c, size, sx, sy, tx, ty + 1, m);
        }
    }
}

// --------------------------------------------------------------------------
// Symmetry and the triangle inequality
// --------------------------------------------------------------------------
/// Paths concatenate: reachability composes through a shared waypoint.
pub proof fn lemma_reach_concat(
    c: Seq<Tile>,
    size: int,
    ax: int,
    ay: int,
    bx: int,
    by: int,
    cx: int,
    cy: int,
    m: nat,
    n: nat,
)
    requires
        reach_in(c, size, ax, ay, bx, by, m),
        reach_in(c, size, bx, by, cx, cy, n),
    ensures
        reach_in(c, size, ax, ay, cx, cy, m + n),
    decreases n,
{
    if n == 0 {
        assert((cx, cy) == (bx, by));
    } else {
        let k = (n - 1) as nat;
        if reach_in(c, size, bx, by, cx, cy, k) {
            lemma_reach_concat(c, size, ax, ay, bx, by, cx, cy, m, k);
            lemma_reach_mono(c, size, ax, ay, cx, cy, (m + k) as nat, (m + n) as nat);
        } else {
            if can_cross(c, size, cx - 1, cy) && reach_in(c, size, bx, by, cx - 1, cy, k) {
                lemma_reach_concat(c, size, ax, ay, bx, by, cx - 1, cy, m, k);
            } else if can_cross(c, size, cx + 1, cy) && reach_in(c, size, bx, by, cx + 1, cy, k) {
                lemma_reach_concat(c, size, ax, ay, bx, by, cx + 1, cy, m, k);
            } else if can_cross(c, size, cx, cy - 1) && reach_in(c, size, bx, by, cx, cy - 1, k) {
                lemma_reach_concat(c, size, ax, ay, bx, by, cx, cy - 1, m, k);
            } else {
                lemma_reach_concat(c, size, ax, ay, bx, by, cx, cy + 1, m, k);
            }
        }
    }
}

/// Between walkable endpoints a path reverses step by step.
pub proof fn lemma_reach_rev(
    c: Seq<Tile>,
    size: int,
    ax: int,
    ay: int,
    bx: int,
    by: int,
    n: nat,
)
    requires
        can_cross(c, size, ax, ay),
        can_cross(c, size, bx, by),
        reach_in(c, size, ax, ay, bx, by, n),
    ensures
        reach_in(c, size, bx, by, ax, ay, n),
    decreases n,
{
    if n > 0 {
        let k = (n - 1) as nat;
        if reach_in(c, size, ax, ay, bx, by, k) {
            lemma_reach_rev(c, size, ax, ay, bx, by, k);
            lemma_reach_mono(c, size, bx, by, ax, ay, k, n);
        } else {
            let (ux, uy): (int, int) = if can_cross(c, size, bx - 1, by) && reach_in(
                c,
                size,
                ax,
                ay,
                bx - 1,
                by,
                k,
            ) {
                (bx - 1, by)
            } else if can_cross(c, size, bx + 1, by) && reach_in(c, size, ax, ay, bx + 1, by, k) {
                (bx + 1, by)
            } else if can_cross(c, size, bx, by - 1) && reach_in(c, size, ax, ay, bx, by - 1, k) {
                (bx, by - 1)
            } else {
                (bx, by + 1)
            };
            assert(can_cross(c, size, ux, uy) && reach_in(c, size, ax, ay, ux, uy, k));
            lemma_reach_rev(c, size, ax, ay, ux, uy, k);
            // one step from b to u, then the reversed remainder from u to a
            assert(reach_in(c, size, bx, by, bx, by, 0));
            assert(can_enter(c, size, ux, uy));
            assert(reach_in(c, size, bx, by, ux, uy, 1));
            lemma_reach_concat(c, size, bx, by, ux, uy, ax, ay, 1, k);
        }
    }
}

/// Law: between walkable cells the breadth-first distance is symmetric.
pub proof fn lemma_dist_symmetric(c: Seq<Tile>, size: int, ax: int, ay: int, bx: int, by: int)
    requires
        can_cross(c, size, ax, ay),
        can_cross(c, size, bx, by),
    ensures
        dist_of(c, size, ax, ay, bx, by) == dist_of(c, size, bx, by, ax, ay),
{
    let d1 = dist_of(c, size, ax, ay, bx, by);
    let d2 = dist_of(c, size, bx, by, ax, ay);
    lemma_dist_upto_props(c, size, ax, ay, bx, by, 0);
    lemma_dist_upto_props(c, size, bx, by, ax, ay, 0);
    if d1 < 255 {
        lemma_reach_rev(c, size, ax, ay, bx, by, d1 as nat);
        lemma_dist_le(c, size, bx, by, ax, ay, d1 as nat);
    }
    if d2 < 255 {
        lemma_reach_rev(c, size, bx, by, ax, ay, d2 as nat);
        lemma_dist_le(c, size, ax, ay, bx, by, d2 as nat);
    }
}

/// Law: the triangle inequality, through any walkable waypoint.
pub proof fn lemma_dist_triangle(
    c: Seq<Tile>,
    size: int,
    ax: int,
    ay: int,
    bx: int,
    by: int,
    cx: int,
    cy: int,
)
    requires
        can_cross(c, size, bx, by),
    ensures
        dist_of(c, size, ax, ay, cx, cy) <= dist_of(c, size, ax, ay, bx, by) + dist_of(
            c,
            size,
            bx,
            by,
            cx,
            cy,
        ),
{
    let d1 = dist_of(c, size, ax, ay, bx, by);
    let d2 = dist_of(c, size, bx, by, cx, cy);
    lemma_dist_upto_props(c, size, ax, ay, bx, by, 0);
    lemma_dist_upto_props(c, size, bx, by, cx, cy, 0);
    lemma_dist_upto_props(c, size, ax, ay, cx, cy, 0);
    if d1 < 255 && d2 < 255 && d1 + d2 <= 254 {
        lemma_reach_concat(c, size, ax, ay, bx, by, cx, cy, d1 as nat, d2 as nat);
        lemma_dist_le(c, size, ax, ay, cx, cy, (d1 + d2) as nat);
    }
}

// --------------------------------------------------------------------------
// Breadth-first search: loop invariant predicates
// --------------------------------------------------------------------------
/// Mid-search soundness of the distance array for level `d`: every cell at
/// distance at most `d` is marked with its exact distance, and any marked
/// cell is marked with its exact distance, at most `d + 1`.
pub open spec fn dist_ok(
    c: Seq<Tile>,
    size: int,
    sx: int,
    sy: int,
    dist: Seq<u8>,
    d: int,
) -> bool {
    &&& dist.len() == size * size
    &&& forall|x: int, y: int|
        #![trigger idx_of(size, x, y)]
        in_bounds(size, x, y) ==> {
            let dd = dist_of(c, size, sx, sy, x, y);
            let v = dist[idx_of(size, x, y)];
            &&& (dd <= d ==> v == dd)
            &&& (v != 255 ==> v == dd && dd <= d + 1)
        }
}

/// Between levels the array is exact: a cell is marked if and only if its
/// distance is at most `d`, and then with that distance.
pub open spec fn dist_exact(
    c: Seq<Tile>,
    size: int,
    sx: int,
    sy: int,
    dist: Seq<u8>,
    d: int,
) -> bool {
    &&& dist.len() == size * size
    &&& forall|x: int, y: int|
        #![trigger idx_of(size, x, y)]
        in_bounds(size, x, y) ==> {
            let dd = dist_of(c, size, sx, sy, x, y);
            let v = dist[idx_of(size, x, y)];
            v == if dd <= d {
                dd
            } else {
                255
            }
        }
}

/// Every frontier entry is a walkable in-bounds cell at distance `d`.
pub open spec fn frontier_ok(
    c: Seq<Tile>,
    size: int,
    sx: int,
    sy: int,
    fr: Seq<Position>,
    d: int,
) -> bool {
    forall|k: int|
        0 <= k < fr.len() ==> {
            let p = #[trigger] fr[k];
            pos_in_bounds(size, p) && can_cross(c, size, p.x as int, p.y as int) && dist_of(
                c,
                size,
                sx,
                sy,
                p.x as int,
                p.y as int,
            ) == d
        }
}

/// Every walkable cell at distance `d` is on the frontier.
pub open spec fn frontier_complete(
    c: Seq<Tile>,
    size: int,
    sx: int,
    sy: int,
    fr: Seq<Position>,
    d: int,
) -> bool {
    forall|x: int, y: int|
        #![trigger idx_of(size, x, y)]
        in_bounds(size, x, y) && can_cross(c, size, x, y) && dist_of(c, size, sx, sy, x, y) == d
            ==> fr.contains(Position { x: x as i8, y: y as i8 })
}

/// Every walkable cell at distance `d` that is already marked is in `next`.
pub open spec fn next_partial(
    c: Seq<Tile>,
    size: int,
    sx: int,
    sy: int,
    next: Seq<Position>,
    dist: Seq<u8>,
    d: int,
) -> bool {
    forall|x: int, y: int|
        #![trigger idx_of(size, x, y)]
        in_bounds(size, x, y) && can_cross(c, size, x, y) && dist_of(c, size, sx, sy, x, y) == d
            && dist[idx_of(size, x, y)] != 255 ==> next.contains(Position { x: x as i8, y: y as i8 })
}

/// All enterable neighbors of `u` that sit at distance `d + 1` are marked.
pub open spec fn touched(
    c: Seq<Tile>,
    size: int,
    sx: int,
    sy: int,
    dist: Seq<u8>,
    u: Position,
    d: int,
) -> bool {
    forall|x: int, y: int|
        #![trigger idx_of(size, x, y)]
        in_bounds(size, x, y) && adjacent(u.x as int, u.y as int, x, y) && can_enter(c, size, x, y)
            && dist_of(c, size, sx, sy, x, y) == d + 1 ==> dist[idx_of(size, x, y)] != 255
}

/// A cell index recovers its coordinates.
pub proof fn lemma_idx_recover(size: int, j: int)
    requires
        1 <= size,
        0 <= j < size * size,
    ensures
        in_bounds(size, j / size, j % size),
        idx_of(size, j / size, j % size) == j,
{
    assert(0 <= j / size < size && 0 <= j % size < size && (j / size) * size + (j % size) == j)
        by (nonlinear_arith)
        requires
            1 <= size,
            0 <= j < size * size,
    ;
}

// --------------------------------------------------------------------------
// Folds over the position lists
// --------------------------------------------------------------------------
/// The running minimum of `shortest_path_length` over `list[i..]`, with
/// strict improvement only: the first position attaining the minimum wins.
pub open spec fn closest_loop(
    cells: Seq<Tile>,
    size: int,
    from: Position,
    list: Seq<Position>,
    i: int,
    bd: int,
    bp: Position,
) -> (int, Position)
    decreases list.len() - i,
{
    if i < 0 || i >= list.len() {
        (bd, bp)
    } else {
        let d = spl_spec(cells, size, from, list[i]);
        if d < bd {
            closest_loop(cells, size, from, list, i + 1, d, list[i])
        } else {
            closest_loop(cells, size, from, list, i + 1, bd, bp)
        }
    }
}

/// As `closest_loop`, but only over mines whose current owner differs from
/// `player`; the position is `None` until a candidate is found.
pub open spec fn closest_mine_loop(
    cells: Seq<Tile>,
    size: int,
    from: Position,
    list: Seq<Position>,
    player: int,
    i: int,
    bd: int,
    bp: Option<Position>,
) -> (int, Option<Position>)
    decreases list.len() - i,
{
    if i < 0 || i >= list.len() {
        (bd, bp)
    } else {
        let t = cell_at(cells, size, list[i].x as int, list[i].y as int);
        let d = spl_spec(cells, size, from, list[i]);
        if is_mine(t) && mine_owner(t) != player && d < bd {
            closest_mine_loop(cells, size, from, list, player, i + 1, d, Some(list[i]))
        } else {
            closest_mine_loop(cells, size, from, list, player, i + 1, bd, bp)
        }
    }
}

/// The direction whose neighbor cell minimizes the distance to `to`, ties
/// broken in compass order north, east, south, west; `Stay` when no
/// neighbor reaches `to` at all.
pub open spec fn dir_to_spec(cells: Seq<Tile>, size: int, from: Position, to: Position) -> Direction {
    let pn = Position { x: (from.x - 1) as i8, y: from.y };
    let pe = Position { x: from.x, y: (from.y + 1) as i8 };
    let ps = Position { x: (from.x + 1) as i8, y: from.y };
    let pw = Position { x: from.x, y: (from.y - 1) as i8 };
    let dn = spl_spec(cells, size, pn, to);
    let de = spl_spec(cells, size, pe, to);
    let ds = spl_spec(cells, size, ps, to);
    let dw = spl_spec(cells, size, pw, to);
    let b1 = if dn < 255 {
        (dn, Direction::North)
    } else {
        (255, Direction::Stay)
    };
    let b2 = if de < b1.0 {
        (de, Direction::East)
    } else {
        b1
    };
    let b3 = if ds < b2.0 {
        (ds, Direction::South)
    } else {
        b2
    };
    let b4 = if dw < b3.0 {
        (dw, Direction::West)
    } else {
        b3
    };
    b4.1
}

// --------------------------------------------------------------------------
// The wire glyphs
// --------------------------------------------------------------------------
/// The tile encoded by one two-byte glyph: `##` wall, two spaces air,
/// `[]` tavern, `$-` unowned mine, `$k` owned mine, `@k` hero.
pub open spec fn glyph_tile(a: u8, b: u8) -> Option<Tile> {
    if a == 35 && b == 35 {
        Some(Tile::Wall)
    } else if a == 32 && b == 32 {
        Some(Tile::Air)
    } else if a == 91 && b == 93 {
        Some(Tile::Tavern)
    } else if a == 36 && b == 45 {
        Some(Tile::Mine(0))
    } else if a == 36 && 49 <= b <= 52 {
        Some(Tile::Mine((b - 48) as usize))
    } else if a == 64 && 49 <= b <= 52 {
        Some(Tile::Hero((b - 48) as usize))
    } else {
        None
    }
}

/// Does every pair of bytes encode a tile?
pub open spec fn glyphs_ok(tiles: Seq<u8>, n: int) -> bool {
    forall|i: int| 0 <= i < n ==> (#[trigger] glyph_tile(tiles[2 * i], tiles[2 * i + 1])) is Some
}

/// The grid a well-formed payload encodes.
pub open spec fn parsed(tiles: Seq<u8>, n: int) -> Seq<Tile> {
    Seq::new(
        n as nat,
        |i: int|
            match glyph_tile(tiles[2 * i], tiles[2 * i + 1]) {
                Some(t) => t,
                None => Tile::Wall,
            },
    )
}

// --------------------------------------------------------------------------
// Zobrist hashing
// --------------------------------------------------------------------------
/// The key of tile `t` sitting at cell `i`.
pub open spec fn key_for(keys: Seq<u64>, i: int, t: Tile) -> u64 {
    keys[12 * i + tile_code(t)]
}

/// XOR of the keys of all cells: the canonical hash of a board.
pub open spec fn xor_fold(cells: Seq<Tile>, keys: Seq<u64>) -> u64
    decreases cells.len(),
{
    if cells.len() == 0 {
        0u64
    } else {
        xor_fold(cells.drop_last(), keys) ^ key_for(keys, cells.len() - 1, cells.last())
    }
}

/// Appending one cell XORs in one key.
pub proof fn lemma_xor_fold_push(s: Seq<Tile>, keys: Seq<u64>, t: Tile)
    ensures
        xor_fold(s.push(t), keys) == xor_fold(s, keys) ^ key_for(keys, s.len() as int, t),
{
    assert(s.push(t).drop_last() =~= s);
    assert(s.push(t).last() == t);
}

/// Rewriting one cell XORs out its old key and XORs in the new one.
pub proof fn lemma_xor_fold_update(s: Seq<Tile>, keys: Seq<u64>, i: int, t: Tile)
    requires
        0 <= i < s.len(),
    ensures
        xor_fold(s.update(i, t), keys) == xor_fold(s, keys) ^ key_for(keys, i, s[i]) ^ key_for(
            keys,
            i,
            t,
        ),
    decreases s.len(),
{
    let a = xor_fold(s.drop_last(), keys);
    let b = key_for(keys, i, s[i]);
    let c = key_for(keys, i, t);
    if i == s.len() - 1 {
        assert(s.update(i, t).drop_last() =~= s.drop_last());
        assert(s.update(i, t).last() == t);
        assert(a ^ c == ((a ^ b) ^ b) ^ c) by (bit_vector);
    } else {
        assert(s.update(i, t).drop_last() =~= s.drop_last().update(i, t));
        assert(s.update(i, t).last() == s.last());
        lemma_xor_fold_update(s.drop_last(), keys, i, t);
        let l = key_for(keys, s.len() - 1, s.last());
        assert((((a ^ b) ^ c) ^ l) == (((a ^ l) ^ b) ^ c)) by (bit_vector);
    }
}

// --------------------------------------------------------------------------
// The board
// --------------------------------------------------------------------------
/// The playing field: a `size` by `size` grid of tiles in row-major order,
/// its incremental Zobrist hash, the immutable mine and tavern position
/// lists collected at initialization, and the per-source distance cache.
pub struct Board {
    pub size: i8,
    pub board: Vec<Tile>,
    pub initialized: bool,
    pub mine_pos: Vec<Position>,
    pub tavern_pos: Vec<Position>,
    pub hash: u64,
    pub pathcache: Vec<Vec<u8>>,
    pub zobrist: ZobristTable,
}

impl Board {
    /// Cell count.
    pub open spec fn n(self) -> int {
        self.size * self.size
    }

    /// The mine list holds exactly the mine cells, in increasing cell order.
    pub open spec fn mine_list_ok(self) -> bool {
        let s = self.size as int;
        &&& forall|k: int|
            0 <= k < self.mine_pos@.len() ==> {
                let p = #[trigger] self.mine_pos@[k];
                pos_in_bounds(s, p) && is_mine(cell_at(self.board@, s, p.x as int, p.y as int))
            }
        &&& forall|x: int, y: int|
            in_bounds(s, x, y) && is_mine(#[trigger] cell_at(self.board@, s, x, y))
                ==> self.mine_pos@.contains(Position { x: x as i8, y: y as i8 })
        &&& forall|k1: int, k2: int|
            0 <= k1 < k2 < self.mine_pos@.len() ==> idx_of(
                s,
                #[trigger] self.mine_pos@[k1].x as int,
                self.mine_pos@[k1].y as int,
            ) < idx_of(s, #[trigger] self.mine_pos@[k2].x as int, self.mine_pos@[k2].y as int)
    }

    /// The tavern list holds exactly the tavern cells, in increasing order.
    pub open spec fn tavern_list_ok(self) -> bool {
        let s = self.size as int;
        &&& forall|k: int|
            0 <= k < self.tavern_pos@.len() ==> {
                let p = #[trigger] self.tavern_pos@[k];
                pos_in_bounds(s, p) && cell_at(self.board@, s, p.x as int, p.y as int)
                    == Tile::Tavern
            }
        &&& forall|x: int, y: int|
            in_bounds(s, x, y) && #[trigger] cell_at(self.board@, s, x, y) == Tile::Tavern
                ==> self.tavern_pos@.contains(Position { x: x as i8, y: y as i8 })
        &&& forall|k1: int, k2: int|
            0 <= k1 < k2 < self.tavern_pos@.len() ==> idx_of(
                s,
                #[trigger] self.tavern_pos@[k1].x as int,
                self.tavern_pos@[k1].y as int,
            ) < idx_of(s, #[trigger] self.tavern_pos@[k2].x as int, self.tavern_pos@[k2].y as int)
    }

    /// Every cached row is the true distance row of its source cell.
    pub open spec fn cache_ok(self) -> bool {
        let s = self.size as int;
        &&& self.pathcache@.len() == self.n()
        &&& forall|i: int|
            0 <= i < self.n() ==> {
                let row = (#[trigger] self.pathcache@[i])@;
                row.len() == 0 || row == row_spec(self.board@, s, i / s, i % s)
            }
    }

    /// Well-formedness: an initialized board of sane size whose hash is the
    /// XOR recomputation over its cells, whose mine and tavern lists mirror
    /// the grid, and whose distance cache is truthful.
    pub open spec fn wf(self) -> bool {
        &&& 1 <= self.size <= 35
        &&& self.initialized
        &&& self.zobrist.wf()
        &&& self.board@.len() == self.n()
        &&& forall|i: int| 0 <= i < self.n() ==> tile_ok(#[trigger] self.board@[i])
        &&& self.hash == xor_fold(self.board@, self.zobrist.keys@)
        &&& self.mine_list_ok()
        &&& self.tavern_list_ok()
        &&& self.cache_ok()
    }

    /// An empty, uninitialized board carrying the key table.
    pub fn new(size: i8, zobrist: ZobristTable) -> (r: Board)
        requires
            1 <= size <= 35,
            zobrist.wf(),
        ensures
            r.size == size,
            r.zobrist == zobrist,
            !r.initialized,
    {
        Board {
            size,
            board: Vec::new(),
            initialized: false,
            mine_pos: Vec::new(),
            tavern_pos: Vec::new(),
            hash: 0,
            pathcache: Vec::new(),
            zobrist,
        }
    }

    /// Row-major index of an in-bounds position.
    fn pos_idx(&self, pos: &Position) -> (r: usize)
        requires
            1 <= self.size <= 35,
            pos_in_bounds(self.size as int, *pos),
        ensures
            r == idx_of(self.size as int, pos.x as int, pos.y as int),
            r < self.n(),
            r < 1225,
    {
        proof {
            lemma_idx_bounds(self.size as int, pos.x as int, pos.y as int);
        }
        (pos.x as usize) * (self.size as usize) + (pos.y as usize)
    }

    /// The tile at `pos`; out-of-bounds reads return `Wall`.
    pub fn tile_at(&self, pos: &Position) -> (r: Tile)
        requires
            self.wf(),
        ensures
            r == cell_at(self.board@, self.size as int, pos.x as int, pos.y as int),
    {
        if pos.x < 0 || pos.x >= self.size || pos.y < 0 || pos.y >= self.size {
            return Tile::Wall;
        }
        let idx = self.pos_idx(pos);
        self.board[idx]
    }

    /// Writes `t` at `pos`, XORing the old tile's key out of the hash and
    /// the new tile's key in.  The new tile must be of the same kind as the
    /// old (air and heroes interchange; mines keep being mines), which is
    /// what all gameplay writes do and what keeps the topology lists and
    /// the distance cache valid.
    pub fn put_tile(&mut self, pos: &Position, t: Tile)
        requires
            old(self).wf(),
            pos_in_bounds(old(self).size as int, *pos),
            tile_ok(t),
            tile_kind(t) == tile_kind(
                cell_at(old(self).board@, old(self).size as int, pos.x as int, pos.y as int),
            ),
        ensures
            final(self).wf(),
            final(self).board@ == old(self).board@.update(
                idx_of(old(self).size as int, pos.x as int, pos.y as int),
                t,
            ),
            final(self).size == old(self).size,
            final(self).mine_pos == old(self).mine_pos,
            final(self).tavern_pos == old(self).tavern_pos,
            final(self).zobrist == old(self).zobrist,
            final(self).pathcache == old(self).pathcache,
    {
        let idx = self.pos_idx(pos);
        let old_t = self.board[idx];
        let k_old = self.zobrist.keys[12 * idx + old_t.to_usize()];
        let k_new = self.zobrist.keys[12 * idx + t.to_usize()];
        self.hash = self.hash ^ k_old;
        self.hash = self.hash ^ k_new;
        self.board[idx] = t;
        proof {
            let s = self.size as int;
            let i = idx_of(s, pos.x as int, pos.y as int);
            let oldc = old(self).board@;
            let newc = self.board@;
            lemma_xor_fold_update(oldc, self.zobrist.keys@, i, t);
            // The update touches one cell and keeps its kind, so the mine and
            // tavern lists and the cache rows still describe the grid.
            assert forall|x: int, y: int|
                tile_kind(#[trigger] cell_at(newc, s, x, y)) == tile_kind(
                    cell_at(oldc, s, x, y),
                ) by {
                if in_bounds(s, x, y) {
                    lemma_idx_bounds(s, x, y);
                    lemma_idx_bounds(s, pos.x as int, pos.y as int);
                }
            }
            assert(kinds_eq(oldc, newc, s));
            assert forall|x: int, y: int|
                in_bounds(s, x, y) && is_mine(#[trigger] cell_at(newc, s, x, y)) implies self
                .mine_pos@.contains(Position { x: x as i8, y: y as i8 }) by {
                lemma_idx_bounds(s, x, y);
                if idx_of(s, x, y) != i {
                    assert(cell_at(oldc, s, x, y) == cell_at(newc, s, x, y));
                } else {
                    assert(is_mine(cell_at(oldc, s, x, y)));
                }
            }
            assert forall|x: int, y: int|
                in_bounds(s, x, y) && #[trigger] cell_at(newc, s, x, y)
                == Tile::Tavern implies self.tavern_pos@.contains(
                Position { x: x as i8, y: y as i8 },
            ) by {
                lemma_idx_bounds(s, x, y);
                if idx_of(s, x, y) != i {
                    assert(cell_at(oldc, s, x, y) == cell_at(newc, s, x, y));
                } else {
                    assert(tile_kind(cell_at(oldc, s, x, y)) == 2);
                    assert(cell_at(oldc, s, x, y) == Tile::Tavern);
                }
            }
            assert forall|j: int| 0 <= j < self.n() implies {
                let row = (#[trigger] self.pathcache@[j])@;
                row.len() == 0 || row == row_spec(newc, s, j / s, j % s)
            } by {
                let row = self.pathcache@[j]@;
                if row.len() != 0 {
                    lemma_row_kinds(oldc, newc, s, j / s, j % s);
                }
            }
        }
    }

    /// One breadth-first relaxation: looks at candidate neighbor `v` of the
    /// frontier cell `u` (level `d`) and marks it at `d + 1` if it is a
    /// fresh enterable cell, queueing it when walkable.
    fn bfs_touch(
        &self,
        u: Position,
        v: Position,
        d: u8,
        dist: &mut Vec<u8>,
        next: &mut Vec<Position>,
        src: Ghost<(int, int)>,
    )
        requires
            self.wf(),
            d < 254,
            pos_in_bounds(self.size as int, u),
            can_cross(self.board@, self.size as int, u.x as int, u.y as int),
            dist_of(self.board@, self.size as int, src@.0, src@.1, u.x as int, u.y as int)
                == d as int,
            adjacent(u.x as int, u.y as int, v.x as int, v.y as int),
            dist_ok(self.board@, self.size as int, src@.0, src@.1, old(dist)@, d as int),
            frontier_ok(self.board@, self.size as int, src@.0, src@.1, old(next)@, d + 1),
            next_partial(
                self.board@,
                self.size as int,
                src@.0,
                src@.1,
                old(next)@,
                old(dist)@,
                d + 1,
            ),
        ensures
            dist_ok(self.board@, self.size as int, src@.0, src@.1, final(dist)@, d as int),
            frontier_ok(self.board@, self.size as int, src@.0, src@.1, final(next)@, d + 1),
            next_partial(
                self.board@,
                self.size as int,
                src@.0,
                src@.1,
                final(next)@,
                final(dist)@,
                d + 1,
            ),
            final(dist)@.len() == old(dist)@.len(),
            forall|j: int|
                0 <= j < old(dist)@.len() && old(dist)@[j] != 255 ==> final(dist)@[j] == old(
                    dist,
                )@[j],
            forall|k: int| 0 <= k < old(next)@.len() ==> final(next)@[k] == old(next)@[k],
            final(next)@.len() >= old(next)@.len(),
            can_enter(self.board@, self.size as int, v.x as int, v.y as int) && dist_of(
                self.board@,
                self.size as int,
                src@.0,
                src@.1,
                v.x as int,
                v.y as int,
            ) == d + 1 ==> final(dist)@[idx_of(self.size as int, v.x as int, v.y as int)] != 255,
    {
        let ghost c = self.board@;
        let ghost sz = self.size as int;
        let ghost sx = src@.0;
        let ghost sy = src@.1;
        if v.x < 0 || v.x >= self.size || v.y < 0 || v.y >= self.size {
            return ;
        }
        let vidx = self.pos_idx(&v);
        let t = self.board[vidx];
        let enterable = match t {
            Tile::Wall => false,
            _ => true,
        };
        let walk = match t {
            Tile::Air => true,
            Tile::Hero(_) => true,
            _ => false,
        };
        if !enterable {
            return ;
        }
        if dist[vidx] != 255 {
            return ;
        }
        proof {
            lemma_dist_upto_props(c, sz, sx, sy, u.x as int, u.y as int, 0);
            assert(reach_in(c, sz, sx, sy, u.x as int, u.y as int, d as nat));
            lemma_step_bound(
                c,
                sz,
                sx,
                sy,
                u.x as int,
                u.y as int,
                v.x as int,
                v.y as int,
                d as nat,
            );
            // the cell was unmarked, so its distance exceeds d; the step
            // bound pins it to exactly d + 1
            assert(dist_of(c, sz, sx, sy, v.x as int, v.y as int) > d as int);
            assert(dist_of(c, sz, sx, sy, v.x as int, v.y as int) == d + 1);
        }
        dist[vidx] = d + 1;
        proof {
            assert forall|x: int, y: int| in_bounds(sz, x, y) implies {
                let dd = dist_of(c, sz, sx, sy, x, y);
                let vv = dist@[idx_of(sz, x, y)];
                &&& (dd <= d as int ==> vv == dd)
                &&& (vv != 255 ==> vv == dd && dd <= d + 1)
            } by {
                lemma_idx_bounds(sz, x, y);
                lemma_idx_bounds(sz, v.x as int, v.y as int);
                if idx_of(sz, x, y) == vidx {
                    assert(x == v.x as int && y == v.y as int);
                }
            }
        }
        if walk {
            next.push(v);
            proof {
                assert forall|x: int, y: int|
                    in_bounds(sz, x, y) && can_cross(c, sz, x, y) && dist_of(c, sz, sx, sy, x, y)
                        == d + 1 && dist@[idx_of(sz, x, y)] != 255 implies next@.contains(
                    Position { x: x as i8, y: y as i8 },
                ) by {
                    lemma_idx_bounds(sz, x, y);
                    lemma_idx_bounds(sz, v.x as int, v.y as int);
                    if idx_of(sz, x, y) == vidx {
                        assert(next@[next@.len() - 1] == Position { x: x as i8, y: y as i8 });
                    } else {
                        let q = Position { x: x as i8, y: y as i8 };
                        assert(old(next)@.contains(q));
                        let w = choose|w: int| 0 <= w < old(next)@.len() && old(next)@[w] == q;
                        assert(next@[w] == q);
                    }
                }
            }
        } else {
            proof {
                assert forall|x: int, y: int|
                    in_bounds(sz, x, y) && can_cross(c, sz, x, y) && dist_of(c, sz, sx, sy, x, y)
                        == d + 1 && dist@[idx_of(sz, x, y)] != 255 implies next@.contains(
                    Position { x: x as i8, y: y as i8 },
                ) by {
                    lemma_idx_bounds(sz, x, y);
                    lemma_idx_bounds(sz, v.x as int, v.y as int);
                    if idx_of(sz, x, y) == vidx {
                        assert(!can_cross(c, sz, x, y));
                    }
                }
            }
        }
    }

    /// The full breadth-first distance row of one source cell.  A source
    /// that cannot be crossed (wall, tavern, mine) yields the trivial row:
    /// zero for itself, 255 everywhere else.
    fn bfs(&self, start: &Position) -> (r: Vec<u8>)
        requires
            self.wf(),
            pos_in_bounds(self.size as int, *start),
        ensures
            r@ == row_spec(self.board@, self.size as int, start.x as int, start.y as int),
    {
        let ghost c = self.board@;
        let ghost sz = self.size as int;
        let ghost sx = start.x as int;
        let ghost sy = start.y as int;
        let szu = self.size as usize;
        proof {
            assert(szu * szu <= 1225) by (nonlinear_arith)
                requires
                    szu <= 35,
            ;
        }
        let n: usize = szu * szu;
        let mut dist: Vec<u8> = Vec::new();
        let mut i: usize = 0;
        while i < n
            invariant
                i <= n,
                dist@.len() == i,
                forall|j: int| 0 <= j < i ==> dist@[j] == 255,
            decreases n - i,
        {
            dist.push(255);
            i = i + 1;
        }
        let si = self.pos_idx(start);
        dist[si] = 0;
        proof {
            assert(reach_in(c, sz, sx, sy, sx, sy, 0));
            lemma_dist_le(c, sz, sx, sy, sx, sy, 0);
            lemma_dist_upto_props(c, sz, sx, sy, sx, sy, 0);
            assert(dist_of(c, sz, sx, sy, sx, sy) == 0);
        }
        let t0 = self.board[si];
        let walkable = match t0 {
            Tile::Air => true,
            Tile::Hero(_) => true,
            _ => false,
        };
        if !walkable {
            proof {
                assert(!can_cross(c, sz, sx, sy));
                assert forall|j: int| 0 <= j < n implies dist@[j] == row_spec(c, sz, sx, sy)[j] by {
                    lemma_idx_recover(sz, j);
                    let x = j / sz;
                    let y = j % sz;
                    lemma_dist_upto_props(c, sz, sx, sy, x, y, 0);
                    if (x, y) != (sx, sy) {
                        let dd = dist_of(c, sz, sx, sy, x, y);
                        if dd < 255 {
                            lemma_stuck_source(c, sz, sx, sy, x, y, dd as nat);
                            assert(false);
                        }
                        lemma_idx_bounds(sz, sx, sy);
                        assert(j != idx_of(sz, sx, sy));
                    }
                }
                assert(dist@ =~= row_spec(c, sz, sx, sy));
            }
            return dist;
        }
        let mut frontier: Vec<Position> = Vec::new();
        frontier.push(*start);
        let mut d: u8 = 0;
        proof {
            assert forall|x: int, y: int| in_bounds(sz, x, y) implies {
                let dd = dist_of(c, sz, sx, sy, x, y);
                let v = dist@[idx_of(sz, x, y)];
                v == if dd <= 0 {
                    dd
                } else {
                    255
                }
            } by {
                lemma_idx_bounds(sz, x, y);
                lemma_idx_bounds(sz, sx, sy);
                lemma_dist_upto_props(c, sz, sx, sy, x, y, 0);
                let dd = dist_of(c, sz, sx, sy, x, y);
                if dd == 0 {
                    assert(reach_in(c, sz, sx, sy, x, y, 0));
                    assert(x == sx && y == sy);
                }
                if (x, y) == (sx, sy) {
                    assert(idx_of(sz, x, y) == si);
                }
            }
            assert(dist_exact(c, sz, sx, sy, dist@, 0));
            assert forall|x: int, y: int|
                in_bounds(sz, x, y) && can_cross(c, sz, x, y) && dist_of(c, sz, sx, sy, x, y)
                    == 0 implies frontier@.contains(Position { x: x as i8, y: y as i8 }) by {
                lemma_dist_upto_props(c, sz, sx, sy, x, y, 0);
                assert(reach_in(c, sz, sx, sy, x, y, 0));
                assert(frontier@[0] == Position { x: x as i8, y: y as i8 });
            }
        }
        while frontier.len() > 0 && d < 254
            invariant
                self.wf(),
                c == self.board@,
                sz == self.size as int,
                in_bounds(sz, sx, sy),
                can_cross(c, sz, sx, sy),
                n == sz * sz,
                n <= 1225,
                d <= 254,
                dist_exact(c, sz, sx, sy, dist@, d as int),
                frontier_ok(c, sz, sx, sy, frontier@, d as int),
                frontier_complete(c, sz, sx, sy, frontier@, d as int),
            decreases 254 - d,
        {
            let mut next: Vec<Position> = Vec::new();
            let mut fi: usize = 0;
            while fi < frontier.len()
                invariant
                    self.wf(),
                    c == self.board@,
                    sz == self.size as int,
                    in_bounds(sz, sx, sy),
                    can_cross(c, sz, sx, sy),
                    n == sz * sz,
                    n <= 1225,
                    d < 254,
                    fi <= frontier@.len(),
                    dist_ok(c, sz, sx, sy, dist@, d as int),
                    frontier_ok(c, sz, sx, sy, frontier@, d as int),
                    frontier_complete(c, sz, sx, sy, frontier@, d as int),
                    frontier_ok(c, sz, sx, sy, next@, d + 1),
                    next_partial(c, sz, sx, sy, next@, dist@, d + 1),
                    forall|k: int|
                        0 <= k < fi ==> touched(c, sz, sx, sy, dist@, #[trigger] frontier@[k], d as int),
                decreases frontier@.len() - fi,
            {
                let u = frontier[fi];
                let ghost pre_loop_dist = dist@;
                let v0 = Position { x: u.x - 1, y: u.y };
                let v1 = Position { x: u.x + 1, y: u.y };
                let v2 = Position { x: u.x, y: u.y - 1 };
                let v3 = Position { x: u.x, y: u.y + 1 };
                self.bfs_touch(u, v0, d, &mut dist, &mut next, Ghost((sx, sy)));
                self.bfs_touch(u, v1, d, &mut dist, &mut next, Ghost((sx, sy)));
                self.bfs_touch(u, v2, d, &mut dist, &mut next, Ghost((sx, sy)));
                self.bfs_touch(u, v3, d, &mut dist, &mut next, Ghost((sx, sy)));
                proof {
                    assert forall|x: int, y: int|
                        in_bounds(sz, x, y) && adjacent(u.x as int, u.y as int, x, y) && can_enter(
                            c,
                            sz,
                            x,
                            y,
                        ) && dist_of(c, sz, sx, sy, x, y) == d + 1 implies dist@[idx_of(sz, x, y)]
                        != 255 by {
                        lemma_idx_bounds(sz, x, y);
                        assert((x, y) == (v0.x as int, v0.y as int) || (x, y) == (
                        v1.x as int,
                        v1.y as int,
                        ) || (x, y) == (v2.x as int, v2.y as int) || (x, y) == (
                        v3.x as int,
                        v3.y as int,
                        ));
                    }
                    assert(touched(c, sz, sx, sy, dist@, u, d as int));
                    assert forall|k: int| 0 <= k < fi + 1 implies touched(
                        c,
                        sz,
                        sx,
                        sy,
                        dist@,
                        #[trigger] frontier@[k],
                        d as int,
                    ) by {
                        if k < fi {
                            assert(touched(c, sz, sx, sy, pre_loop_dist, frontier@[k], d as int));
                            assert forall|x: int, y: int|
                                in_bounds(sz, x, y) && adjacent(
                                    frontier@[k].x as int,
                                    frontier@[k].y as int,
                                    x,
                                    y,
                                ) && can_enter(c, sz, x, y) && dist_of(c, sz, sx, sy, x, y) == d
                                    + 1 implies dist@[idx_of(sz, x, y)] != 255 by {
                                lemma_idx_bounds(sz, x, y);
                                assert(pre_loop_dist[idx_of(sz, x, y)] != 255);
                            }
                        }
                    }
                }
                fi = fi + 1;
            }
            proof {
                // all of level d + 1 is now marked: every such cell has a
                // walkable parent at level d, which sat on the frontier and
                // has been processed
                assert forall|x: int, y: int| in_bounds(sz, x, y) implies {
                    let dd = dist_of(c, sz, sx, sy, x, y);
                    let v = dist@[idx_of(sz, x, y)];
                    v == if dd <= d + 1 {
                        dd
                    } else {
                        255
                    }
                } by {
                    lemma_idx_bounds(sz, x, y);
                    let dd = dist_of(c, sz, sx, sy, x, y);
                    if dd == d + 1 {
                        lemma_dist_pos_enter(c, sz, sx, sy, x, y);
                        let (px, py) = find_parent(c, sz, sx, sy, x, y);
                        assert(frontier@.contains(Position { x: px as i8, y: py as i8 })) by {
                            lemma_idx_bounds(sz, px, py);
                        }
                        let k = choose|k: int|
                            0 <= k < frontier@.len() && frontier@[k] == Position {
                                x: px as i8,
                                y: py as i8,
                            };
                        assert(touched(c, sz, sx, sy, dist@, frontier@[k], d as int));
                        assert(dist@[idx_of(sz, x, y)] != 255);
                    }
                }
                assert(dist_exact(c, sz, sx, sy, dist@, d + 1));
                assert forall|x: int, y: int|
                    in_bounds(sz, x, y) && can_cross(c, sz, x, y) && dist_of(c, sz, sx, sy, x, y)
                        == d + 1 implies next@.contains(Position { x: x as i8, y: y as i8 }) by {
                    lemma_idx_bounds(sz, x, y);
                    assert(dist@[idx_of(sz, x, y)] != 255);
                }
            }
            frontier = next;
            d = d + 1;
        }
        proof {
            if frontier@.len() == 0 {
                assert forall|x: int, y: int| in_bounds(sz, x, y) implies (dist_of(
                    c,
                    sz,
                    sx,
                    sy,
                    x,
                    y,
                ) <= d as int || dist_of(c, sz, sx, sy, x, y) == 255) by {
                    lemma_dist_upto_props(c, sz, sx, sy, x, y, 0);
                    let dd = dist_of(c, sz, sx, sy, x, y);
                    if (d as int) < dd && dd <= 254 {
                        lemma_walkable_at_level(c, sz, sx, sy, x, y, d as nat);
                        let (wx, wy) = choose|wx: int, wy: int|
                            in_bounds(sz, wx, wy) && can_cross(c, sz, wx, wy) && #[trigger] dist_of(
                                c,
                                sz,
                                sx,
                                sy,
                                wx,
                                wy,
                            ) == d as int;
                        lemma_idx_bounds(sz, wx, wy);
                        assert(frontier@.contains(Position { x: wx as i8, y: wy as i8 }));
                        assert(false);
                    }
                }
            }
            assert forall|j: int| 0 <= j < n implies dist@[j] == row_spec(c, sz, sx, sy)[j] by {
                lemma_idx_recover(sz, j);
                let x = j / sz;
                let y = j % sz;
                lemma_dist_upto_props(c, sz, sx, sy, x, y, 0);
                let dd = dist_of(c, sz, sx, sy, x, y);
                assert(dd <= d as int || dd == 255);
                assert(row_spec(c, sz, sx, sy)[j] == dd as u8);
            }
            assert(dist@ =~= row_spec(c, sz, sx, sy));
        }
        dist
    }

    /// Everything but the path cache agrees: what distance queries leave
    /// untouched.
    pub open spec fn same_topology(self, other: Board) -> bool {
        &&& self.board@ == other.board@
        &&& self.size == other.size
        &&& self.hash == other.hash
        &&& self.mine_pos@ == other.mine_pos@
        &&& self.tavern_pos@ == other.tavern_pos@
        &&& self.zobrist == other.zobrist
        &&& self.initialized == other.initialized
    }

    /// The memoized breadth-first distance between two cells.  The first
    /// query from a walkable source computes and caches its whole distance
    /// row; later queries from the same source, and reverse queries between
    /// walkable cells, are answered from the cache.  Any off-board endpoint
    /// answers 255.
    pub fn shortest_path_length(&mut self, start: &Position, goal: &Position) -> (r: u8)
        requires
            old(self).wf(),
        ensures
            final(self).wf(),
            final(self).same_topology(*old(self)),
            r as int == spl_spec(old(self).board@, old(self).size as int, *start, *goal),
    {
        let ghost c = self.board@;
        let ghost sz = self.size as int;
        if start.x < 0 || start.x >= self.size || start.y < 0 || start.y >= self.size {
            return 255;
        }
        if goal.x < 0 || goal.x >= self.size || goal.y < 0 || goal.y >= self.size {
            return 255;
        }
        let si = self.pos_idx(start);
        let gi = self.pos_idx(goal);
        let ts = self.board[si];
        let s_walk = match ts {
            Tile::Air => true,
            Tile::Hero(_) => true,
            _ => false,
        };
        proof {
            lemma_dist_upto_props(c, sz, start.x as int, start.y as int, goal.x as int, goal.y as int, 0);
        }
        if !s_walk {
            if start.x == goal.x && start.y == goal.y {
                proof {
                    assert(reach_in(c, sz, start.x as int, start.y as int, goal.x as int, goal.y as int, 0));
                    lemma_dist_le(c, sz, start.x as int, start.y as int, goal.x as int, goal.y as int, 0);
                }
                return 0;
            }
            proof {
                let dd = dist_of(c, sz, start.x as int, start.y as int, goal.x as int, goal.y as int);
                if dd < 255 {
                    lemma_stuck_source(
                        c,
                        sz,
                        start.x as int,
                        start.y as int,
                        goal.x as int,
                        goal.y as int,
                        dd as nat,
                    );
                }
            }
            return 255;
        }
        proof {
            lemma_idx_bounds(sz, start.x as int, start.y as int);
            lemma_idx_bounds(sz, goal.x as int, goal.y as int);
        }
        if self.pathcache[si].len() > 0 {
            return self.pathcache[si][gi];
        }
        let tg = self.board[gi];
        let g_walk = match tg {
            Tile::Air => true,
            Tile::Hero(_) => true,
            _ => false,
        };
        if g_walk && self.pathcache[gi].len() > 0 {
            proof {
                lemma_dist_symmetric(
                    c,
                    sz,
                    start.x as int,
                    start.y as int,
                    goal.x as int,
                    goal.y as int,
                );
            }
            return self.pathcache[gi][si];
        }
        let tree = self.bfs(start);
        let r = tree[gi];
        self.pathcache[si] = tree;
        proof {
            assert forall|j: int| 0 <= j < self.n() implies {
                let row = (#[trigger] self.pathcache@[j])@;
                row.len() == 0 || row == row_spec(self.board@, sz, j / sz, j % sz)
            } by {
                if j != si {
                    assert(self.pathcache@[j] == old(self).pathcache@[j]);
                }
            }
        }
        r
    }

    /// The tavern nearest to `pos` by path distance, with its distance;
    /// ties go to the earliest tavern in cell order.  Distance 255 means no
    /// tavern is reachable; the position is then the fold's default.
    pub fn get_closest_tavern(&mut self, pos: &Position) -> (r: (u8, Position))
        requires
            old(self).wf(),
        ensures
            final(self).wf(),
            final(self).same_topology(*old(self)),
            r.0 as int == closest_loop(
                old(self).board@,
                old(self).size as int,
                *pos,
                old(self).tavern_pos@,
                0,
                255,
                Position { x: 0, y: 0 },
            ).0,
            r.1 == closest_loop(
                old(self).board@,
                old(self).size as int,
                *pos,
                old(self).tavern_pos@,
                0,
                255,
                Position { x: 0, y: 0 },
            ).1,
    {
        let ghost c = self.board@;
        let ghost sz = self.size as int;
        let ghost list = self.tavern_pos@;
        let mut min_dist: u8 = 255;
        let mut resultpos = Position { x: 0, y: 0 };
        let mut i: usize = 0;
        let count = self.tavern_pos.len();
        while i < count
            invariant
                i <= count,
                self.wf(),
                self.same_topology(*old(self)),
                c == self.board@,
                sz == self.size as int,
                list == self.tavern_pos@,
                count == list.len(),
                closest_loop(c, sz, *pos, list, i as int, min_dist as int, resultpos)
                    == closest_loop(c, sz, *pos, list, 0, 255, Position { x: 0, y: 0 }),
            decreases count - i,
        {
            let tpos = self.tavern_pos[i];
            let d = self.shortest_path_length(pos, &tpos);
            if d < min_dist {
                resultpos = tpos;
                min_dist = d;
            }
            i = i + 1;
        }
        (min_dist, resultpos)
    }

    /// The mine nearest to `pos` among mines not owned by `player_id`, with
    /// its distance; `None` when every mine is the player's own or none is
    /// reachable.  Ties go to the earliest such mine in cell order.
    pub fn get_closest_mine(&mut self, pos: &Position, player_id: usize) -> (r: (
        u8,
        Option<Position>,
    ))
        requires
            old(self).wf(),
        ensures
            final(self).wf(),
            final(self).same_topology(*old(self)),
            r.0 as int == closest_mine_loop(
                old(self).board@,
                old(self).size as int,
                *pos,
                old(self).mine_pos@,
                player_id as int,
                0,
                255,
                None,
            ).0,
            r.1 == closest_mine_loop(
                old(self).board@,
                old(self).size as int,
                *pos,
                old(self).mine_pos@,
                player_id as int,
                0,
                255,
                None,
            ).1,
    {
        let ghost c = self.board@;
        let ghost sz = self.size as int;
        let ghost list = self.mine_pos@;
        let mut min_dist: u8 = 255;
        let mut mpos: Option<Position> = None;
        let mut i: usize = 0;
        let count = self.mine_pos.len();
        while i < count
            invariant
                i <= count,
                self.wf(),
                self.same_topology(*old(self)),
                c == self.board@,
                sz == self.size as int,
                list == self.mine_pos@,
                count == list.len(),
                closest_mine_loop(c, sz, *pos, list, player_id as int, i as int, min_dist as int, mpos)
                    == closest_mine_loop(c, sz, *pos, list, player_id as int, 0, 255, None),
            decreases count - i,
        {
            let mp = self.mine_pos[i];
            let t = self.tile_at(&mp);
            let foreign = match t {
                Tile::Mine(x) => x != player_id,
                _ => false,
            };
            if foreign {
                let d = self.shortest_path_length(pos, &mp);
                if d < min_dist {
                    min_dist = d;
                    mpos = Some(mp);
                }
            }
            i = i + 1;
        }
        (min_dist, mpos)
    }

    /// The compass direction stepping toward `to` along a shortest path:
    /// the direction whose neighbor cell minimizes the remaining distance,
    /// ties in the order north, east, south, west; `Stay` when `to` is
    /// unreachable from every neighbor.
    pub fn direction_to(&mut self, from: &Position, to: &Position) -> (r: Direction)
        requires
            old(self).wf(),
            pos_in_bounds(old(self).size as int, *from),
        ensures
            final(self).wf(),
            final(self).same_topology(*old(self)),
            r == dir_to_spec(old(self).board@, old(self).size as int, *from, *to),
    {
        let pn = from.neighbor(Direction::North);
        let pe = from.neighbor(Direction::East);
        let ps = from.neighbor(Direction::South);
        let pw = from.neighbor(Direction::West);
        let dn = self.shortest_path_length(&pn, to);
        let de = self.shortest_path_length(&pe, to);
        let ds = self.shortest_path_length(&ps, to);
        let dw = self.shortest_path_length(&pw, to);
        let mut min_dist: u8 = 255;
        let mut min_dir = Direction::Stay;
        if dn < min_dist {
            min_dist = dn;
            min_dir = Direction::North;
        }
        if de < min_dist {
            min_dist = de;
            min_dir = Direction::East;
        }
        if ds < min_dist {
            min_dist = ds;
            min_dir = Direction::South;
        }
        if dw < min_dist {
            min_dist = dw;
            min_dir = Direction::West;
        }
        min_dir
    }

    /// Parses the wire payload into the grid, builds the Zobrist hash by
    /// XOR accumulation, collects the mine and tavern position lists, and
    /// clears the path cache.  Fails with `MalformedTile`, leaving the
    /// board untouched, exactly when some byte pair is not a known glyph.
    pub fn initialize(&mut self, tiles: &Vec<u8>) -> (r: Result<(), BotError>)
        requires
            1 <= old(self).size <= 35,
            old(self).zobrist.wf(),
            tiles@.len() == 2 * old(self).n(),
        ensures
            final(self).size == old(self).size,
            final(self).zobrist == old(self).zobrist,
            r is Ok <==> glyphs_ok(tiles@, old(self).n()),
            r is Err ==> *final(self) == *old(self) && r == Err::<(), BotError>(
                BotError::MalformedTile,
            ),
            r is Ok ==> final(self).wf() && final(self).board@ == parsed(tiles@, old(self).n())
                && forall|i: int|
                0 <= i < final(self).n() ==> (#[trigger] final(self).pathcache@[i])@.len() == 0,
    {
        let ghost se = old(self).size as int;
        let sz = self.size as usize;
        proof {
            assert(sz * sz <= 1225) by (nonlinear_arith)
                requires
                    sz <= 35,
            ;
        }
        let n: usize = sz * sz;
        let mut cells: Vec<Tile> = Vec::new();
        let mut i: usize = 0;
        while i < n
            invariant
                i <= n,
                cells@.len() == i,
                n == old(self).n(),
                n <= 1225,
                *self == *old(self),
                tiles@.len() == 2 * n,
                forall|j: int|
                    0 <= j < i ==> (#[trigger] glyph_tile(tiles@[2 * j], tiles@[2 * j + 1]))
                        == Some(cells@[j]),
                forall|j: int| 0 <= j < i ==> tile_ok(#[trigger] cells@[j]),
            decreases n - i,
        {
            let a = tiles[2 * i];
            let b = tiles[2 * i + 1];
            let t = if a == 35 && b == 35 {
                Tile::Wall
            } else if a == 32 && b == 32 {
                Tile::Air
            } else if a == 91 && b == 93 {
                Tile::Tavern
            } else if a == 36 && b == 45 {
                Tile::Mine(0)
            } else if a == 36 && 49 <= b && b <= 52 {
                Tile::Mine((b - 48) as usize)
            } else if a == 64 && 49 <= b && b <= 52 {
                Tile::Hero((b - 48) as usize)
            } else {
                proof {
                    assert(glyph_tile(tiles@[2 * (i as int)], tiles@[2 * (i as int) + 1]) is None);
                    assert(!glyphs_ok(tiles@, n as int));
                }
                return Err(BotError::MalformedTile);
            };
            cells.push(t);
            i = i + 1;
        }
        proof {
            assert(cells@ =~= parsed(tiles@, n as int));
        }
        let mut h: u64 = 0;
        let mut i: usize = 0;
        while i < n
            invariant
                i <= n,
                n <= 1225,
                cells@.len() == n,
                *self == *old(self),
                self.zobrist.keys@.len() == ZOBRIST_LEN,
                forall|j: int| 0 <= j < n ==> tile_ok(#[trigger] cells@[j]),
                h == xor_fold(cells@.take(i as int), self.zobrist.keys@),
            decreases n - i,
        {
            let code = cells[i].to_usize();
            let k = self.zobrist.keys[12 * i + code];
            proof {
                assert(cells@.take(i + 1) =~= cells@.take(i as int).push(cells@[i as int]));
                lemma_xor_fold_push(cells@.take(i as int), self.zobrist.keys@, cells@[i as int]);
            }
            h = h ^ k;
            i = i + 1;
        }
        proof {
            assert(cells@.take(n as int) =~= cells@);
        }
        let mut mines: Vec<Position> = Vec::new();
        let mut taverns: Vec<Position> = Vec::new();
        let mut xi: usize = 0;
        let mut c: usize = 0;
        while xi < sz
            invariant
                xi <= sz,
                sz == se,
                1 <= sz <= 35,
                c == xi * sz,
                n == sz * sz,
                c <= n,
                cells@.len() == n,
                *self == *old(self),
                forall|k: int|
                    0 <= k < mines@.len() ==> {
                        let p = #[trigger] mines@[k];
                        pos_in_bounds(se, p) && is_mine(
                            cell_at(cells@, se, p.x as int, p.y as int),
                        ) && idx_of(se, p.x as int, p.y as int) < c
                    },
                forall|x2: int, y2: int|
                    in_bounds(se, x2, y2) && idx_of(se, x2, y2) < c && is_mine(
                        #[trigger] cell_at(cells@, se, x2, y2),
                    ) ==> mines@.contains(Position { x: x2 as i8, y: y2 as i8 }),
                forall|k1: int, k2: int|
                    0 <= k1 < k2 < mines@.len() ==> idx_of(
                        se,
                        #[trigger] mines@[k1].x as int,
                        mines@[k1].y as int,
                    ) < idx_of(se, #[trigger] mines@[k2].x as int, mines@[k2].y as int),
                forall|k: int|
                    0 <= k < taverns@.len() ==> {
                        let p = #[trigger] taverns@[k];
                        pos_in_bounds(se, p) && cell_at(cells@, se, p.x as int, p.y as int)
                            == Tile::Tavern && idx_of(se, p.x as int, p.y as int) < c
                    },
                forall|x2: int, y2: int|
                    in_bounds(se, x2, y2) && idx_of(se, x2, y2) < c && #[trigger] cell_at(
                        cells@,
                        se,
                        x2,
                        y2,
                    ) == Tile::Tavern ==> taverns@.contains(Position { x: x2 as i8, y: y2 as i8 }),
                forall|k1: int, k2: int|
                    0 <= k1 < k2 < taverns@.len() ==> idx_of(
                        se,
                        #[trigger] taverns@[k1].x as int,
                        taverns@[k1].y as int,
                    ) < idx_of(se, #[trigger] taverns@[k2].x as int, taverns@[k2].y as int),
            decreases sz - xi,
        {
            let mut yi: usize = 0;
            while yi < sz
                invariant
                    yi <= sz,
                    xi < sz,
                    sz == se,
                    1 <= sz <= 35,
                    c == xi * sz + yi,
                    n == sz * sz,
                    c <= n,
                    cells@.len() == n,
                    *self == *old(self),
                    forall|k: int|
                        0 <= k < mines@.len() ==> {
                            let p = #[trigger] mines@[k];
                            pos_in_bounds(se, p) && is_mine(
                                cell_at(cells@, se, p.x as int, p.y as int),
                            ) && idx_of(se, p.x as int, p.y as int) < c
                        },
                    forall|x2: int, y2: int|
                        in_bounds(se, x2, y2) && idx_of(se, x2, y2) < c && is_mine(
                            #[trigger] cell_at(cells@, se, x2, y2),
                        ) ==> mines@.contains(Position { x: x2 as i8, y: y2 as i8 }),
                    forall|k1: int, k2: int|
                        0 <= k1 < k2 < mines@.len() ==> idx_of(
                            se,
                            #[trigger] mines@[k1].x as int,
                            mines@[k1].y as int,
                        ) < idx_of(se, #[trigger] mines@[k2].x as int, mines@[k2].y as int),
                    forall|k: int|
                        0 <= k < taverns@.len() ==> {
                            let p = #[trigger] taverns@[k];
                            pos_in_bounds(se, p) && cell_at(cells@, se, p.x as int, p.y as int)
                                == Tile::Tavern && idx_of(se, p.x as int, p.y as int) < c
                        },
                    forall|x2: int, y2: int|
                        in_bounds(se, x2, y2) && idx_of(se, x2, y2) < c && #[trigger] cell_at(
                            cells@,
                            se,
                            x2,
                            y2,
                        ) == Tile::Tavern ==> taverns@.contains(
                            Position { x: x2 as i8, y: y2 as i8 },
                        ),
                    forall|k1: int, k2: int|
                        0 <= k1 < k2 < taverns@.len() ==> idx_of(
                            se,
                            #[trigger] taverns@[k1].x as int,
                            taverns@[k1].y as int,
                        ) < idx_of(se, #[trigger] taverns@[k2].x as int, taverns@[k2].y as int),
                decreases sz - yi,
            {
                proof {
                    lemma_idx_bounds(se, xi as int, yi as int);
                }
                let t = cells[c];
                let p = Position { x: xi as i8, y: yi as i8 };
                let ghost old_mines = mines@;
                let ghost old_taverns = taverns@;
                match t {
                    Tile::Mine(_) => mines.push(p),
                    Tile::Tavern => taverns.push(p),
                    _ => {},
                }
                proof {
                    assert(cell_at(cells@, se, xi as int, yi as int) == t);
                    assert forall|x2: int, y2: int|
                        in_bounds(se, x2, y2) && idx_of(se, x2, y2) < c + 1 && is_mine(
                            #[trigger] cell_at(cells@, se, x2, y2),
                        ) implies mines@.contains(Position { x: x2 as i8, y: y2 as i8 }) by {
                        lemma_idx_bounds(se, x2, y2);
                        if idx_of(se, x2, y2) < c {
                            assert(old_mines.contains(Position { x: x2 as i8, y: y2 as i8 }));
                            let w = choose|w: int|
                                0 <= w < old_mines.len() && old_mines[w] == Position {
                                    x: x2 as i8,
                                    y: y2 as i8,
                                };
                            assert(mines@.len() >= old_mines.len());
                            assert(mines@[w] == Position { x: x2 as i8, y: y2 as i8 });
                        } else {
                            assert(idx_of(se, x2, y2) == c);
                            assert(x2 == xi as int && y2 == yi as int);
                            assert(mines@[mines@.len() - 1] == Position {
                                x: x2 as i8,
                                y: y2 as i8,
                            });
                        }
                    }
                    assert forall|x2: int, y2: int|
                        in_bounds(se, x2, y2) && idx_of(se, x2, y2) < c + 1 && #[trigger] cell_at(
                            cells@,
                            se,
                            x2,
                            y2,
                        ) == Tile::Tavern implies taverns@.contains(
                        Position { x: x2 as i8, y: y2 as i8 },
                    ) by {
                        lemma_idx_bounds(se, x2, y2);
                        if idx_of(se, x2, y2) < c {
                            assert(old_taverns.contains(Position { x: x2 as i8, y: y2 as i8 }));
                            let w = choose|w: int|
                                0 <= w < old_taverns.len() && old_taverns[w] == Position {
                                    x: x2 as i8,
                                    y: y2 as i8,
                                };
                            assert(taverns@[w] == Position { x: x2 as i8, y: y2 as i8 });
                        } else {
                            assert(idx_of(se, x2, y2) == c);
                            assert(x2 == xi as int && y2 == yi as int);
                            assert(taverns@[taverns@.len() - 1] == Position {
                                x: x2 as i8,
                                y: y2 as i8,
                            });
                        }
                    }
                }
                yi = yi + 1;
                c = c + 1;
            }
            proof {
                assert((xi + 1) * sz == xi * sz + sz) by (nonlinear_arith);
            }
            xi = xi + 1;
        }
        proof {
            assert(c == n);
        }
        let mut cache: Vec<Vec<u8>> = Vec::new();
        let mut i: usize = 0;
        while i < n
            invariant
                i <= n,
                cache@.len() == i,
                forall|j: int| 0 <= j < i ==> (#[trigger] cache@[j])@.len() == 0,
            decreases n - i,
        {
            cache.push(Vec::new());
            i = i + 1;
        }
        self.board = cells;
        self.hash = h;
        self.mine_pos = mines;
        self.tavern_pos = taverns;
        self.pathcache = cache;
        self.initialized = true;
        proof {
            assert forall|x2: int, y2: int|
                in_bounds(se, x2, y2) && is_mine(
                    #[trigger] cell_at(self.board@, se, x2, y2),
                ) implies self.mine_pos@.contains(Position { x: x2 as i8, y: y2 as i8 }) by {
                lemma_idx_bounds(se, x2, y2);
            }
            assert forall|x2: int, y2: int|
                in_bounds(se, x2, y2) && #[trigger] cell_at(self.board@, se, x2, y2)
                    == Tile::Tavern implies self.tavern_pos@.contains(
                Position { x: x2 as i8, y: y2 as i8 },
            ) by {
                lemma_idx_bounds(se, x2, y2);
            }
            assert(self.wf());
        }
        Ok(())
    }
}

/// Law: on a well-formed board the running hash always equals the XOR
/// recomputation over the final cells, whatever sequence of `put_tile`
/// calls produced them.
pub proof fn lemma_hash_consistent(b: Board)
    requires
        b.wf(),
    ensures
        b.hash == xor_fold(b.board@, b.zobrist.keys@),
{
}

/// Law: boards holding equal cells over equal key tables hash identically.
pub proof fn lemma_equal_boards_hash_equal(a: Board, b: Board)
    requires
        a.wf(),
        b.wf(),
        a.board@ == b.board@,
        a.zobrist.keys@ == b.zobrist.keys@,
    ensures
        a.hash == b.hash,
{
}

/// Law: between walkable cells, `shortest_path_length` is symmetric: the
/// query and its reverse agree.
pub proof fn lemma_spl_symmetric(b: Board, p: Position, q: Position)
    requires
        b.wf(),
        pos_in_bounds(b.size as int, p),
        pos_in_bounds(b.size as int, q),
        tile_kind(cell_at(b.board@, b.size as int, p.x as int, p.y as int)) == 1,
        tile_kind(cell_at(b.board@, b.size as int, q.x as int, q.y as int)) == 1,
    ensures
        spl_spec(b.board@, b.size as int, p, q) == spl_spec(b.board@, b.size as int, q, p),
{
    lemma_dist_symmetric(b.board@, b.size as int, p.x as int, p.y as int, q.x as int, q.y as int);
}

/// Law: the triangle inequality holds of `shortest_path_length` through
/// any walkable on-board waypoint.
pub proof fn lemma_spl_triangle(b: Board, a: Position, m: Position, z: Position)
    requires
        b.wf(),
        pos_in_bounds(b.size as int, m),
        tile_kind(cell_at(b.board@, b.size as int, m.x as int, m.y as int)) == 1,
    ensures
        spl_spec(b.board@, b.size as int, a, z) <= spl_spec(b.board@, b.size as int, a, m)
            + spl_spec(b.board@, b.size as int, m, z),
{
    let c = b.board@;
    let sz = b.size as int;
    if pos_in_bounds(sz, a) && pos_in_bounds(sz, z) {
        lemma_dist_triangle(c, sz, a.x as int, a.y as int, m.x as int, m.y as int, z.x as int, z.y as int);
    } else {
        lemma_dist_upto_props(c, sz, a.x as int, a.y as int, z.x as int, z.y as int, 0);
        lemma_dist_upto_props(c, sz, a.x as int, a.y as int, m.x as int, m.y as int, 0);
        lemma_dist_upto_props(c, sz, m.x as int, m.y as int, z.x as int, z.y as int, 0);
    }
}

} // verus!
