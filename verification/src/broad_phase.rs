//! Uniform-grid broad phase over integer cell coordinates.
//!
//! The caller maps each body's position to a cell (the floor of position over
//! cell size, per axis) and hands the cells over by body index. The grid
//! groups the bodies by cell and lists every pair of bodies whose cells are
//! equal or adjacent, diagonals included, each pair once.

use std::collections::HashMap;
use vstd::prelude::*;

verus! {

/// The integer coordinate of a grid cell.
#[derive(Debug, Clone, Copy, PartialEq, Eq, Hash, Structural)]
pub struct GridCoord {
    pub x: i32,
    pub y: i32,
    pub z: i32,
}

/// Two cells are neighbours when they differ by at most one along every axis.
/// A cell is its own neighbour.
pub open spec fn are_neighbors(a: GridCoord, b: GridCoord) -> bool {
    &&& -1 <= a.x - b.x <= 1
    &&& -1 <= a.y - b.y <= 1
    &&& -1 <= a.z - b.z <= 1
}

/// The cell reached from `c` by the given step along each axis.
pub open spec fn shifted(c: GridCoord, dx: int, dy: int, dz: int) -> GridCoord {
    GridCoord { x: (c.x + dx) as i32, y: (c.y + dy) as i32, z: (c.z + dz) as i32 }
}

/// The 27 cells around and including `c`, numbered by their step along x,
/// then y, then z: number 0 lies at step (-1, -1, -1), number 13 is `c`
/// itself, number 26 lies at step (1, 1, 1).
pub open spec fn nth_neighbor(c: GridCoord, t: int) -> GridCoord {
    shifted(c, t / 9 - 1, (t / 3) % 3 - 1, t % 3 - 1)
}

/// Bodies `a` and `b` are two different bodies of the scene whose cells are
/// neighbours: the pairs a broad phase has to report.
pub open spec fn should_pair(cells: Seq<GridCoord>, a: int, b: int) -> bool {
    &&& 0 <= a < cells.len()
    &&& 0 <= b < cells.len()
    &&& a != b
    &&& are_neighbors(cells[a], cells[b])
}

/// Entry `t` of `pairs` names the bodies `a` and `b`, in either order.
pub open spec fn names(pairs: Seq<(usize, usize)>, t: int, a: int, b: int) -> bool {
    ||| (pairs[t].0 == a && pairs[t].1 == b)
    ||| (pairs[t].0 == b && pairs[t].1 == a)
}

/// The unordered pair `{a, b}` occurs somewhere in `pairs`.
pub open spec fn pair_listed(pairs: Seq<(usize, usize)>, a: int, b: int) -> bool {
    exists|t: int| 0 <= t < pairs.len() && #[trigger] names(pairs, t, a, b)
}

/// `pairs` is a broad-phase answer for `cells`: a pair of bodies is listed
/// exactly when the two are distinct and lie in neighbouring cells, and no
/// pair is listed twice, in either order.
pub open spec fn is_pairing_of(pairs: Seq<(usize, usize)>, cells: Seq<GridCoord>) -> bool {
    &&& forall|a: int, b: int| #[trigger] pair_listed(pairs, a, b) <==> should_pair(cells, a, b)
    &&& forall|t: int, u: int|
        0 <= t < u < pairs.len() ==> !#[trigger] names(
            pairs,
            t,
            (#[trigger] pairs[u]).0 as int,
            pairs[u].1 as int,
        )
}

/// `d` is one of the 26 cells that surround `c`.
pub open spec fn surrounds(c: GridCoord, d: GridCoord) -> bool {
    are_neighbors(c, d) && c != d
}

/// No two bodies share a cell, as on a lattice whose spacing is the cell size.
pub open spec fn one_body_per_cell(cells: Seq<GridCoord>) -> bool {
    forall|b: int, c: int| 0 <= b < c < cells.len() ==> cells[b] != cells[c]
}

/// Being neighbours does not depend on the order of the two cells.
pub proof fn lemma_neighbors_symmetric(a: GridCoord, b: GridCoord)
    ensures
        are_neighbors(a, b) == are_neighbors(b, a),
        surrounds(a, b) == surrounds(b, a),
{
}

/// On a lattice with one body per cell, a broad-phase answer pairs body `a`
/// with exactly the bodies that lie in the 26 cells around its own.
pub proof fn lemma_lattice_partners(pairs: Seq<(usize, usize)>, cells: Seq<GridCoord>, a: int)
    requires
        is_pairing_of(pairs, cells),
        one_body_per_cell(cells),
        0 <= a < cells.len(),
    ensures
        forall|b: int| #[trigger]
            pair_listed(pairs, a, b) <==> 0 <= b < cells.len() && surrounds(cells[a], cells[b]),
{
    assert forall|b: int| #[trigger]
        pair_listed(pairs, a, b) <==> 0 <= b < cells.len() && surrounds(cells[a], cells[b]) by {
        assert(pair_listed(pairs, a, b) <==> should_pair(cells, a, b));
        if 0 <= b < cells.len() && a != b {
            if a < b {
                assert(cells[a] != cells[b]);
            } else {
                assert(cells[b] != cells[a]);
            }
        }
    }
}

/// A body whose cell has no other body in it or next to it occurs in no pair
/// of a broad-phase answer.
pub proof fn lemma_isolated_body_unpaired(
    pairs: Seq<(usize, usize)>,
    cells: Seq<GridCoord>,
    a: int,
)
    requires
        is_pairing_of(pairs, cells),
        0 <= a < cells.len(),
        forall|b: int| 0 <= b < cells.len() && b != a ==> !are_neighbors(cells[a], cells[b]),
    ensures
        forall|t: int| 0 <= t < pairs.len() ==> (#[trigger] pairs[t]).0 != a && pairs[t].1 != a,
{
    assert forall|t: int| 0 <= t < pairs.len() implies (#[trigger] pairs[t]).0 != a && pairs[t].1
        != a by {
        let x = pairs[t].0 as int;
        let y = pairs[t].1 as int;
        assert(names(pairs, t, x, y));
        assert(pair_listed(pairs, x, y));
        assert(should_pair(cells, x, y));
        lemma_neighbors_symmetric(cells[x], cells[y]);
    }
}

/// With fewer than two bodies, or with no two bodies in neighbouring cells,
/// a broad-phase answer is empty.
pub proof fn lemma_no_neighbors_no_pairs(pairs: Seq<(usize, usize)>, cells: Seq<GridCoord>)
    requires
        is_pairing_of(pairs, cells),
        forall|a: int, b: int| !should_pair(cells, a, b),
    ensures
        pairs.len() == 0,
{
    if pairs.len() > 0 {
        let x = pairs[0].0 as int;
        let y = pairs[0].1 as int;
        assert(names(pairs, 0, x, y));
        assert(pair_listed(pairs, x, y));
    }
}

/// Every entry of a broad-phase answer names two different bodies of the
/// scene whose cells are neighbours.
pub proof fn lemma_pairs_are_sound(pairs: Seq<(usize, usize)>, cells: Seq<GridCoord>, t: int)
    requires
        is_pairing_of(pairs, cells),
        0 <= t < pairs.len(),
    ensures
        should_pair(cells, pairs[t].0 as int, pairs[t].1 as int),
{
    let x = pairs[t].0 as int;
    let y = pairs[t].1 as int;
    assert(names(pairs, t, x, y));
    assert(pair_listed(pairs, x, y));
}

/// The partners of body `a`: the bodies that a list of pairs names together
/// with it.
pub open spec fn partners(pairs: Seq<(usize, usize)>, a: int) -> Set<int> {
    Set::new(|b: int| pair_listed(pairs, a, b))
}

/// Body `a` is an interior point of a lattice: each of the 26 cells around
/// its own holds a body.
pub open spec fn is_interior(cells: Seq<GridCoord>, a: int) -> bool {
    forall|t: int|
        0 <= t < 27 ==> exists|b: int|
            0 <= b < cells.len() && cells[b] == #[trigger] nth_neighbor(cells[a], t)
}

/// The number under which a surrounding cell `d` is counted around `c`.
pub open spec fn neighbor_number(c: GridCoord, d: GridCoord) -> int {
    9 * (d.x - c.x + 1) + 3 * (d.y - c.y + 1) + (d.z - c.z + 1)
}

/// Each of the 27 numbered cells around a cell is found again under its
/// number, so they are all different; and each of them but number 13, the
/// cell itself, surrounds it. The cell must not lie on the rim of the
/// coordinate range, where a step would leave it.
pub proof fn lemma_numbered_neighbors(c: GridCoord, t: int)
    requires
        i32::MIN < c.x < i32::MAX,
        i32::MIN < c.y < i32::MAX,
        i32::MIN < c.z < i32::MAX,
        0 <= t < 27,
    ensures
        neighbor_number(c, nth_neighbor(c, t)) == t,
        t != 13 ==> surrounds(c, nth_neighbor(c, t)),
{
    let dx = t / 9 - 1;
    let dy = (t / 3) % 3 - 1;
    let dz = t % 3 - 1;
    assert(-1 <= dx <= 1 && -1 <= dy <= 1 && -1 <= dz <= 1);
    assert(9 * (dx + 1) + 3 * (dy + 1) + (dz + 1) == t);
    assert(t == 13 <==> (dx == 0 && dy == 0 && dz == 0));
    let e = nth_neighbor(c, t);
    assert(e.x == c.x + dx && e.y == c.y + dy && e.z == c.z + dz);
}

/// Every cell that surrounds a cell is one of the 26 numbered cells around
/// it, number 13 left out.
pub proof fn lemma_surrounding_cell_is_numbered(c: GridCoord, d: GridCoord)
    requires
        surrounds(c, d),
    ensures
        0 <= neighbor_number(c, d) < 27,
        neighbor_number(c, d) != 13,
        nth_neighbor(c, neighbor_number(c, d)) == d,
{
    let u = neighbor_number(c, d);
    let ex = d.x - c.x;
    let ey = d.y - c.y;
    let ez = d.z - c.z;
    assert(-1 <= ex <= 1 && -1 <= ey <= 1 && -1 <= ez <= 1);
    assert(u == 9 * (ex + 1) + 3 * (ey + 1) + (ez + 1));
    assert(u / 9 - 1 == ex);
    assert((u / 3) % 3 - 1 == ey);
    assert(u % 3 - 1 == ez);
}

/// On a lattice with one body per cell, an interior body is paired with
/// exactly 26 others. The body's cell must not lie on the rim of the
/// coordinate range, where a step would leave it.
#[verifier::spinoff_prover]
#[verifier::rlimit(40)]
pub proof fn lemma_interior_body_has_26_partners(
    pairs: Seq<(usize, usize)>,
    cells: Seq<GridCoord>,
    a: int,
)
    requires
        is_pairing_of(pairs, cells),
        one_body_per_cell(cells),
        0 <= a < cells.len(),
        is_interior(cells, a),
        i32::MIN < cells[a].x < i32::MAX,
        i32::MIN < cells[a].y < i32::MAX,
        i32::MIN < cells[a].z < i32::MAX,
    ensures
        partners(pairs, a).finite(),
        partners(pairs, a).len() == 26,
{
    let c = cells[a];
    let around = vstd::set_lib::set_int_range(0, 27).remove(13);
    assert(around.finite() && around.len() == 26) by {
        vstd::set_lib::lemma_int_range(0, 27);
    }
    let body_in = |t: int| choose|b: int| 0 <= b < cells.len() && cells[b] == nth_neighbor(c, t);
    assert forall|t: int| 0 <= t < 27 implies 0 <= #[trigger] body_in(t) < cells.len()
        && cells[body_in(t)] == nth_neighbor(c, t) by {
        assert(exists|b: int| 0 <= b < cells.len() && cells[b] == #[trigger] nth_neighbor(c, t));
    }
    assert(vstd::relations::injective_on(body_in, around)) by {
        assert forall|t: int, u: int|
            around.contains(t) && around.contains(u) && #[trigger] body_in(t) == #[trigger] body_in(
                u,
            ) implies t == u by {
            assert(cells[body_in(t)] == nth_neighbor(c, t));
            assert(cells[body_in(u)] == nth_neighbor(c, u));
            lemma_numbered_neighbors(c, t);
            lemma_numbered_neighbors(c, u);
        }
    }
    lemma_lattice_partners(pairs, cells, a);
    assert forall|b: int| around.map(body_in).contains(b) implies partners(pairs, a).contains(
        b,
    ) by {
        let t = choose|t: int| around.contains(t) && b == body_in(t);
        assert(cells[body_in(t)] == nth_neighbor(c, t));
        lemma_numbered_neighbors(c, t);
        assert(pair_listed(pairs, a, b));
    }
    assert forall|b: int| partners(pairs, a).contains(b) implies around.map(body_in).contains(
        b,
    ) by {
        assert(pair_listed(pairs, a, b));
        assert(0 <= b < cells.len() && surrounds(c, cells[b]));
        let t = neighbor_number(c, cells[b]);
        lemma_surrounding_cell_is_numbered(c, cells[b]);
        assert(around.contains(t));
        let found = body_in(t);
        assert(cells[found] == cells[b]);
        if found < b {
            assert(cells[found] != cells[b]);
        }
        if b < found {
            assert(cells[b] != cells[found]);
        }
        assert(around.contains(t) && b == body_in(t));
    }
    assert(around.map(body_in) =~= partners(pairs, a));
    vstd::set_lib::lemma_map_size(around, partners(pairs, a), body_in);
}

/// One occupied cell: its coordinate and the bodies that lie in it, in the
/// order in which they were inserted.
struct GridCell {
    coord: GridCoord,
    bodies: Vec<usize>,
}

/// `(k, p)` is a place in the grid: position `p` of occupied cell `k`.
spec fn is_slot(grid: Seq<GridCell>, k: int, p: int) -> bool {
    0 <= k < grid.len() && 0 <= p < grid[k].bodies@.len()
}

/// The body stored at a place of the grid.
spec fn body_at(grid: Seq<GridCell>, k: int, p: int) -> int {
    grid[k].bodies@[p] as int
}

/// The grid groups exactly the bodies `0 .. cells.len()` by their cell: no
/// coordinate has two entries, every entry lists its bodies in rising order,
/// and every body is found in the entry of its cell.
spec fn grid_wf(grid: Seq<GridCell>, cells: Seq<GridCoord>) -> bool {
    &&& forall|k: int, p: int| #[trigger]
        is_slot(grid, k, p) ==> 0 <= body_at(grid, k, p) < cells.len() && cells[body_at(
            grid,
            k,
            p,
        )] == grid[k].coord
    &&& forall|k: int, p: int, q: int|
        #![trigger body_at(grid, k, p), body_at(grid, k, q)]
        is_slot(grid, k, p) && is_slot(grid, k, q) && p < q ==> body_at(grid, k, p) < body_at(
            grid,
            k,
            q,
        )
    &&& forall|k: int, m: int|
        0 <= k < m < grid.len() ==> (#[trigger] grid[k]).coord != (#[trigger] grid[m]).coord
    &&& forall|b: int| 0 <= b < cells.len() ==> #[trigger] has_slot(grid, b)
}

/// Body `b` is stored somewhere in the grid.
spec fn has_slot(grid: Seq<GridCell>, b: int) -> bool {
    exists|k: int, p: int| #[trigger] is_slot(grid, k, p) && body_at(grid, k, p) == b
}

/// The two places may be reported as a pair: either two places of one cell,
/// the earlier first, or places of two neighbouring cells, the earlier cell
/// first.
spec fn slot_pair_ok(grid: Seq<GridCell>, i1: int, j1: int, i2: int, j2: int) -> bool {
    &&& is_slot(grid, i1, j1)
    &&& is_slot(grid, i2, j2)
    &&& (i1 == i2 && j1 < j2) || (i1 < i2 && are_neighbors(grid[i1].coord, grid[i2].coord))
}

/// The order in which pairs of places are visited: by first cell, then second
/// cell, then position in the first, then position in the second.
spec fn before(i1: int, i2: int, j1: int, j2: int, at1: int, at2: int, at3: int, at4: int) -> bool {
    i1 < at1 || (i1 == at1 && (i2 < at2 || (i2 == at2 && (j1 < at3 || (j1 == at3 && j2 < at4)))))
}

/// `pairs` holds, without repetition, exactly the reportable pairs of places
/// that come before the point `(at1, at2, at3, at4)` of the visit; `slots` records
/// the places each entry came from.
spec fn emitted(
    grid: Seq<GridCell>,
    slots: Seq<(int, int, int, int)>,
    pairs: Seq<(usize, usize)>,
    at1: int,
    at2: int,
    at3: int,
    at4: int,
) -> bool {
    &&& slots.len() == pairs.len()
    &&& forall|t: int|
        0 <= t < slots.len() ==> {
            let s = #[trigger] slots[t];
            &&& slot_pair_ok(grid, s.0, s.1, s.2, s.3)
            &&& before(s.0, s.2, s.1, s.3, at1, at2, at3, at4)
            &&& pairs[t].0 == body_at(grid, s.0, s.1)
            &&& pairs[t].1 == body_at(grid, s.2, s.3)
        }
    &&& forall|t: int, u: int|
        0 <= t < u < slots.len() ==> #[trigger] slots[t] != #[trigger] slots[u]
    &&& forall|i1: int, j1: int, i2: int, j2: int| #[trigger]
        slot_pair_ok(grid, i1, j1, i2, j2) && before(i1, i2, j1, j2, at1, at2, at3, at4)
            ==> listed_slot(slots, i1, j1, i2, j2)
}

/// The pair of places occurs in `slots`.
spec fn listed_slot(slots: Seq<(int, int, int, int)>, i1: int, j1: int, i2: int, j2: int) -> bool {
    exists|t: int| 0 <= t < slots.len() && #[trigger] slots[t] == (i1, j1, i2, j2)
}

/// Pushing the pair of places that the visit has reached keeps the record
/// exact and moves the visit one step on.
proof fn lemma_emit(
    grid: Seq<GridCell>,
    slots: Seq<(int, int, int, int)>,
    pairs: Seq<(usize, usize)>,
    i1: int,
    i2: int,
    j1: int,
    j2: int,
)
    requires
        emitted(grid, slots, pairs, i1, i2, j1, j2),
        slot_pair_ok(grid, i1, j1, i2, j2),
    ensures
        emitted(
            grid,
            slots.push((i1, j1, i2, j2)),
            pairs.push((grid[i1].bodies@[j1], grid[i2].bodies@[j2])),
            i1,
            i2,
            j1,
            j2 + 1,
        ),
{
    let slots2 = slots.push((i1, j1, i2, j2));
    let pairs2 = pairs.push((grid[i1].bodies@[j1], grid[i2].bodies@[j2]));
    let n = slots.len() as int;
    assert forall|a1: int, b1: int, a2: int, b2: int| #[trigger]
        slot_pair_ok(grid, a1, b1, a2, b2) && before(
            a1,
            a2,
            b1,
            b2,
            i1,
            i2,
            j1,
            j2 + 1,
        ) implies listed_slot(slots2, a1, b1, a2, b2) by {
        if before(a1, a2, b1, b2, i1, i2, j1, j2) {
            assert(listed_slot(slots, a1, b1, a2, b2));
            let t = choose|t: int| 0 <= t < slots.len() && #[trigger] slots[t] == (a1, b1, a2, b2);
            assert(slots2[t] == (a1, b1, a2, b2));
        } else {
            assert(slots2[n] == (a1, b1, a2, b2));
        }
    }
    assert forall|t: int, u: int| 0 <= t < u < slots2.len() implies #[trigger] slots2[t]
        != #[trigger] slots2[u] by {
        if u == n {
            let s = slots[t];
            assert(before(s.0, s.2, s.1, s.3, i1, i2, j1, j2));
        } else {
            assert(slots[t] != slots[u]);
        }
    }
    assert forall|t: int| 0 <= t < slots2.len() implies {
        let s = #[trigger] slots2[t];
        &&& slot_pair_ok(grid, s.0, s.1, s.2, s.3)
        &&& before(s.0, s.2, s.1, s.3, i1, i2, j1, j2 + 1)
        &&& pairs2[t].0 == body_at(grid, s.0, s.1)
        &&& pairs2[t].1 == body_at(grid, s.2, s.3)
    } by {
        if t < n {
            let s = slots[t];
            assert(before(s.0, s.2, s.1, s.3, i1, i2, j1, j2));
        }
    }
}

/// Moving the visit on over points at which no pair of places is reportable
/// keeps the record exact.
proof fn lemma_skip(
    grid: Seq<GridCell>,
    slots: Seq<(int, int, int, int)>,
    pairs: Seq<(usize, usize)>,
    at1: int,
    at2: int,
    at3: int,
    at4: int,
    to1: int,
    to2: int,
    to3: int,
    to4: int,
)
    requires
        emitted(grid, slots, pairs, at1, at2, at3, at4),
        before(at1, at2, at3, at4, to1, to2, to3, to4) || (at1 == to1 && at2 == to2 && at3 == to3 && at4 == to4),
        forall|i1: int, j1: int, i2: int, j2: int| #[trigger]
            slot_pair_ok(grid, i1, j1, i2, j2) && before(i1, i2, j1, j2, to1, to2, to3, to4)
                ==> before(i1, i2, j1, j2, at1, at2, at3, at4),
    ensures
        emitted(grid, slots, pairs, to1, to2, to3, to4),
{
    assert forall|t: int| 0 <= t < slots.len() implies {
        let s = #[trigger] slots[t];
        &&& slot_pair_ok(grid, s.0, s.1, s.2, s.3)
        &&& before(s.0, s.2, s.1, s.3, to1, to2, to3, to4)
        &&& pairs[t].0 == body_at(grid, s.0, s.1)
        &&& pairs[t].1 == body_at(grid, s.2, s.3)
    } by {
        let s = slots[t];
        assert(before(s.0, s.2, s.1, s.3, at1, at2, at3, at4));
    }
}

/// In a well-formed grid a body is stored at one place only.
proof fn lemma_slot_unique(
    grid: Seq<GridCell>,
    cells: Seq<GridCoord>,
    k: int,
    p: int,
    m: int,
    q: int,
)
    requires
        grid_wf(grid, cells),
        is_slot(grid, k, p),
        is_slot(grid, m, q),
        body_at(grid, k, p) == body_at(grid, m, q),
    ensures
        k == m,
        p == q,
{
    assert(cells[body_at(grid, k, p)] == grid[k].coord);
    assert(cells[body_at(grid, m, q)] == grid[m].coord);
    if k < m {
        assert(grid[k].coord != grid[m].coord);
    }
    if m < k {
        assert(grid[m].coord != grid[k].coord);
    }
    if p < q {
        assert(body_at(grid, k, p) < body_at(grid, k, q));
    }
    if q < p {
        assert(body_at(grid, k, q) < body_at(grid, k, p));
    }
}

/// Once the visit has passed every pair of places, the pairs that were
/// pushed are a broad-phase answer for the cells the grid was built from.
proof fn lemma_visit_complete(
    grid: Seq<GridCell>,
    cells: Seq<GridCoord>,
    slots: Seq<(int, int, int, int)>,
    pairs: Seq<(usize, usize)>,
)
    requires
        grid_wf(grid, cells),
        emitted(grid, slots, pairs, grid.len() as int, grid.len() as int, 0, 0),
    ensures
        is_pairing_of(pairs, cells),
{
    let n = grid.len() as int;
    assert forall|a: int, b: int| #[trigger] pair_listed(pairs, a, b) implies should_pair(
        cells,
        a,
        b,
    ) by {
        let t = choose|t: int| 0 <= t < pairs.len() && #[trigger] names(pairs, t, a, b);
        let s = slots[t];
        assert(slot_pair_ok(grid, s.0, s.1, s.2, s.3));
        assert(is_slot(grid, s.0, s.1) && is_slot(grid, s.2, s.3));
        let x = body_at(grid, s.0, s.1);
        let y = body_at(grid, s.2, s.3);
        assert(cells[x] == grid[s.0].coord);
        assert(cells[y] == grid[s.2].coord);
        if s.0 == s.2 {
            assert(x < y);
        } else {
            assert(grid[s.0].coord != grid[s.2].coord);
        }
    }
    assert forall|a: int, b: int| should_pair(cells, a, b) implies #[trigger] pair_listed(
        pairs,
        a,
        b,
    ) by {
        assert(has_slot(grid, a));
        assert(has_slot(grid, b));
        let (ka, pa) = choose|k: int, p: int| #[trigger]
            is_slot(grid, k, p) && body_at(grid, k, p) == a;
        let (kb, pb) = choose|k: int, p: int| #[trigger]
            is_slot(grid, k, p) && body_at(grid, k, p) == b;
        assert(cells[body_at(grid, ka, pa)] == grid[ka].coord);
        assert(cells[body_at(grid, kb, pb)] == grid[kb].coord);
        if ka < kb || (ka == kb && pa < pb) {
            assert(slot_pair_ok(grid, ka, pa, kb, pb));
            assert(before(ka, kb, pa, pb, n, n, 0, 0));
            assert(listed_slot(slots, ka, pa, kb, pb));
            let t = choose|t: int| 0 <= t < slots.len() && #[trigger] slots[t] == (ka, pa, kb, pb);
            assert(names(pairs, t, a, b));
        } else {
            assert(ka != kb || pa != pb);
            assert(slot_pair_ok(grid, kb, pb, ka, pa));
            assert(before(kb, ka, pb, pa, n, n, 0, 0));
            assert(listed_slot(slots, kb, pb, ka, pa));
            let t = choose|t: int| 0 <= t < slots.len() && #[trigger] slots[t] == (kb, pb, ka, pa);
            assert(names(pairs, t, a, b));
        }
    }
    assert forall|t: int, u: int| 0 <= t < u < pairs.len() implies !#[trigger] names(
        pairs,
        t,
        (#[trigger] pairs[u]).0 as int,
        pairs[u].1 as int,
    ) by {
        let s = slots[t];
        let r = slots[u];
        assert(slot_pair_ok(grid, s.0, s.1, s.2, s.3));
        assert(slot_pair_ok(grid, r.0, r.1, r.2, r.3));
        assert(s != r);
        if pairs[t].0 == pairs[u].0 && pairs[t].1 == pairs[u].1 {
            lemma_slot_unique(grid, cells, s.0, s.1, r.0, r.1);
            lemma_slot_unique(grid, cells, s.2, s.3, r.2, r.3);
        }
        if pairs[t].0 == pairs[u].1 && pairs[t].1 == pairs[u].0 {
            lemma_slot_unique(grid, cells, s.0, s.1, r.2, r.3);
            lemma_slot_unique(grid, cells, s.2, s.3, r.0, r.1);
        }
    }
}

/// Implements broad-phase collision detection on a uniform grid.
///
/// Bodies are inserted into cells by the coordinates the caller computed from
/// their positions; only bodies in the same or in neighbouring cells are
/// candidates for a collision.
pub struct UniformGridBroadPhase {
    cells: Vec<GridCoord>,
    grid: Vec<GridCell>,
}

impl View for UniformGridBroadPhase {
    type V = Seq<GridCoord>;

    /// The cell of each body, by body index, as of the last update.
    closed spec fn view(&self) -> Seq<GridCoord> {
        self.cells@
    }
}

impl UniformGridBroadPhase {
    #[verifier::type_invariant]
    spec fn inv(self) -> bool {
        grid_wf(self.grid@, self.cells@)
    }

    /// Creates an empty grid.
    pub fn new() -> (grid: UniformGridBroadPhase)
        ensures
            grid@ == Seq::<GridCoord>::empty(),
    {
        UniformGridBroadPhase { cells: Vec::new(), grid: Vec::new() }
    }

    /// The number of bodies in the grid.
    pub fn body_count(&self) -> (n: usize)
        ensures
            n == self@.len(),
    {
        self.cells.len()
    }

    /// The cell that body `index` was inserted into, if there is such a body.
    pub fn cell_of(&self, index: usize) -> (cell: Option<GridCoord>)
        ensures
            cell == if index < self@.len() {
                Some(self@[index as int])
            } else {
                None
            },
    {
        if index < self.cells.len() {
            Some(self.cells[index])
        } else {
            None
        }
    }

    /// Helper function to check if two cells are close enough for a
    /// potential collision.
    pub fn are_neighbor_cells(a: &GridCoord, b: &GridCoord) -> (near: bool)
        ensures
            near == are_neighbors(*a, *b),
    {
        let dx: i64 = a.x as i64 - b.x as i64;
        let dy: i64 = a.y as i64 - b.y as i64;
        let dz: i64 = a.z as i64 - b.z as i64;
        -1 <= dx && dx <= 1 && -1 <= dy && dy <= 1 && -1 <= dz && dz <= 1
    }

    /// Gets the neighbouring grid coordinates, the cell itself included:
    /// all 27 cells that differ from `coord` by at most one along every axis,
    /// ordered by their step along x, then y, then z.
    pub fn get_neighbor_coords(&self, coord: &GridCoord) -> (neighbors: Vec<GridCoord>)
        requires
            i32::MIN < coord.x < i32::MAX,
            i32::MIN < coord.y < i32::MAX,
            i32::MIN < coord.z < i32::MAX,
        ensures
            neighbors@.len() == 27,
            forall|t: int|
                0 <= t < 27 ==> #[trigger] neighbors@[t] == nth_neighbor(*coord, t),
    {
        let mut neighbors: Vec<GridCoord> = Vec::with_capacity(27);
        let mut dx: i32 = -1;
        while dx <= 1
            invariant
                -1 <= dx <= 2,
                i32::MIN < coord.x < i32::MAX,
                i32::MIN < coord.y < i32::MAX,
                i32::MIN < coord.z < i32::MAX,
                neighbors@.len() == 9 * (dx + 1),
                forall|t: int|
                    0 <= t < neighbors@.len() ==> #[trigger] neighbors@[t] == shifted(
                        *coord,
                        t / 9 - 1,
                        (t / 3) % 3 - 1,
                        t % 3 - 1,
                    ),
            decreases 2 - dx,
        {
            let mut dy: i32 = -1;
            while dy <= 1
                invariant
                    -1 <= dx <= 1,
                    -1 <= dy <= 2,
                    i32::MIN < coord.x < i32::MAX,
                    i32::MIN < coord.y < i32::MAX,
                    i32::MIN < coord.z < i32::MAX,
                    neighbors@.len() == 9 * (dx + 1) + 3 * (dy + 1),
                    forall|t: int|
                        0 <= t < neighbors@.len() ==> #[trigger] neighbors@[t] == shifted(
                            *coord,
                            t / 9 - 1,
                            (t / 3) % 3 - 1,
                            t % 3 - 1,
                        ),
                decreases 2 - dy,
            {
                let mut dz: i32 = -1;
                while dz <= 1
                    invariant
                        -1 <= dx <= 1,
                        -1 <= dy <= 1,
                        -1 <= dz <= 2,
                        i32::MIN < coord.x < i32::MAX,
                        i32::MIN < coord.y < i32::MAX,
                        i32::MIN < coord.z < i32::MAX,
                        neighbors@.len() == 9 * (dx + 1) + 3 * (dy + 1) + (dz + 1),
                        forall|t: int|
                            0 <= t < neighbors@.len() ==> #[trigger] neighbors@[t] == shifted(
                                *coord,
                                t / 9 - 1,
                                (t / 3) % 3 - 1,
                                t % 3 - 1,
                            ),
                    decreases 2 - dz,
                {
                    neighbors.push(
                        GridCoord { x: coord.x + dx, y: coord.y + dy, z: coord.z + dz },
                    );
                    dz = dz + 1;
                }
                dy = dy + 1;
            }
            dx = dx + 1;
        }
        neighbors
    }

    /// Returns the potentially colliding pairs of bodies: every two distinct
    /// bodies that share a cell or lie in neighbouring cells, diagonals
    /// included, each pair once. The order of the pairs, and of the two
    /// bodies within a pair, carries no meaning.
    pub fn get_potential_pairs(&self) -> (pairs: Vec<(usize, usize)>)
        ensures
            is_pairing_of(pairs@, self@),
    {
        proof {
            use_type_invariant(self);
        }
        let mut pairs: Vec<(usize, usize)> = Vec::new();
        let ghost mut slots: Seq<(int, int, int, int)> = Seq::empty();
        let n = self.grid.len();
        let mut i: usize = 0;
        while i < n
            invariant
                n == self.grid@.len(),
                i <= n,
                emitted(self.grid@, slots, pairs@, i as int, i as int, 0, 0),
            decreases n - i,
        {
            let Ghost(within) = push_cell_pairs(&self.grid, i, &mut pairs, Ghost(slots));
            proof {
                slots = within;
            }
            let mut j: usize = i + 1;
            while j < n
                invariant
                    n == self.grid@.len(),
                    i < j <= n,
                    emitted(self.grid@, slots, pairs@, i as int, j as int, 0, 0),
                decreases n - j,
            {
                if Self::are_neighbor_cells(&self.grid[i].coord, &self.grid[j].coord) {
                    let Ghost(across) = push_cross_pairs(
                        &self.grid,
                        i,
                        j,
                        &mut pairs,
                        Ghost(slots),
                    );
                    proof {
                        slots = across;
                    }
                } else {
                    proof {
                        lemma_skip(
                            self.grid@,
                            slots,
                            pairs@,
                            i as int,
                            j as int,
                            0,
                            0,
                            i as int,
                            j + 1,
                            0,
                            0,
                        );
                    }
                }
                j = j + 1;
            }
            proof {
                lemma_skip(self.grid@, slots, pairs@, i as int, n as int, 0, 0, i + 1, i + 1, 0, 0);
            }
            i = i + 1;
        }
        proof {
            lemma_visit_complete(self.grid@, self.cells@, slots, pairs@);
        }
        pairs
    }

    /// Rebuilds the grid from scratch: body `i` goes into cell `cells[i]`.
    /// Each body is placed with one look-up in a hashed index of the
    /// occupied cells, so a rebuild takes time in proportion to the number
    /// of bodies.
    pub fn update(&mut self, cells: &[GridCoord])
        ensures
            final(self)@ == cells@,
    {
        broadcast use vstd::std_specs::hash::group_hash_axioms;

        let n = cells.len();
        let mut grid: Vec<GridCell> = Vec::new();
        let mut own: Vec<GridCoord> = Vec::new();
        let mut index: HashMap<u128, usize> = HashMap::new();
        let mut i: usize = 0;
        while i < n
            invariant
                n == cells.len(),
                i <= n,
                own@ == cells@.take(i as int),
                grid_wf(grid@, own@),
                indexes(index@, grid@),
            decreases n - i,
        {
            let c = cells[i];
            let key = cell_key(&c);
            let found: Option<usize> = match index.get(&key) {
                Some(k) => Some(*k),
                None => None,
            };
            let ghost before_grid = grid@;
            let ghost before_own = own@;
            match found {
                Some(k) => {
                    proof {
                        assert(index@.contains_key(key));
                        lemma_cell_key_injective(grid@[k as int].coord, c);
                    }
                    grid[k].bodies.push(i);
                    proof {
                        lemma_insert(before_grid, before_own, grid@, k as int, c);
                        assert forall|m: int| 0 <= m < grid@.len() implies (#[trigger] grid@[m]).coord
                            == before_grid[m].coord by {
                            if m != k {
                                assert(grid@[m] == before_grid[m]);
                            }
                        }
                    }
                },
                None => {
                    let place = grid.len();
                    proof {
                        assert forall|m: int| 0 <= m < grid@.len() implies (#[trigger] grid@[m]).coord
                            != c by {
                            assert(index@.contains_key(spec_cell_key(grid@[m].coord)));
                        }
                    }
                    index.insert(key, place);
                    let mut bodies: Vec<usize> = Vec::new();
                    bodies.push(i);
                    grid.push(GridCell { coord: c, bodies });
                    proof {
                        lemma_insert(before_grid, before_own, grid@, place as int, c);
                        assert forall|m: int| 0 <= m < grid@.len() implies index@.contains_key(
                            spec_cell_key((#[trigger] grid@[m]).coord),
                        ) && index@[spec_cell_key(grid@[m].coord)] == m by {
                            if m < place {
                                assert(grid@[m] == before_grid[m]);
                                lemma_cell_key_injective(before_grid[m].coord, c);
                            }
                        }
                    }
                },
            }
            own.push(c);
            proof {
                assert(own@ =~= cells@.take(i + 1));
            }
            i = i + 1;
        }
        assert(own@ =~= cells@);
        *self = UniformGridBroadPhase { cells: own, grid };
    }
}

/// The key under which a cell is indexed: its three coordinates, each moved
/// into the non-negative range, as the digits of one number.
spec fn spec_cell_key(c: GridCoord) -> u128 {
    ((c.x - i32::MIN) * 0x1_0000_0000_0000_0000 + (c.y - i32::MIN) * 0x1_0000_0000 + (c.z
        - i32::MIN)) as u128
}

/// Different cells have different keys.
proof fn lemma_cell_key_injective(a: GridCoord, b: GridCoord)
    ensures
        spec_cell_key(a) == spec_cell_key(b) <==> a == b,
{
}

/// Computes the key of a cell.
fn cell_key(c: &GridCoord) -> (key: u128)
    ensures
        key == spec_cell_key(*c),
{
    let x: u128 = (c.x as i64 - i32::MIN as i64) as u128;
    let y: u128 = (c.y as i64 - i32::MIN as i64) as u128;
    let z: u128 = (c.z as i64 - i32::MIN as i64) as u128;
    x * 0x1_0000_0000_0000_0000u128 + y * 0x1_0000_0000u128 + z
}

/// The index maps the key of every occupied cell to the cell's entry, and
/// holds nothing else.
spec fn indexes(index: Map<u128, usize>, grid: Seq<GridCell>) -> bool {
    &&& forall|k: int|
        0 <= k < grid.len() ==> index.contains_key(spec_cell_key((#[trigger] grid[k]).coord))
            && index[spec_cell_key(grid[k].coord)] == k
    &&& forall|key: u128| #[trigger]
        index.contains_key(key) ==> index[key] < grid.len() && spec_cell_key(
            grid[index[key] as int].coord,
        ) == key
}

/// Inserting the next body, into the entry of its cell or into a new entry at
/// the end, keeps the grid well formed.
proof fn lemma_insert(
    old_grid: Seq<GridCell>,
    old_cells: Seq<GridCoord>,
    new_grid: Seq<GridCell>,
    k: int,
    c: GridCoord,
)
    requires
        grid_wf(old_grid, old_cells),
        0 <= k <= old_grid.len(),
        k < old_grid.len() ==> {
            &&& old_grid[k].coord == c
            &&& new_grid.len() == old_grid.len()
            &&& new_grid[k].coord == c
            &&& new_grid[k].bodies@ == old_grid[k].bodies@.push(old_cells.len() as usize)
        },
        k == old_grid.len() ==> {
            &&& forall|m: int| 0 <= m < old_grid.len() ==> (#[trigger] old_grid[m]).coord != c
            &&& new_grid.len() == old_grid.len() + 1
            &&& new_grid[k].coord == c
            &&& new_grid[k].bodies@ == seq![old_cells.len() as usize]
        },
        forall|m: int| 0 <= m < old_grid.len() && m != k ==> new_grid[m] == old_grid[m],
        old_cells.len() <= usize::MAX,
    ensures
        grid_wf(new_grid, old_cells.push(c)),
{
    let new_cells = old_cells.push(c);
    let b = old_cells.len() as int;
    let last = new_grid[k].bodies@.len() - 1;
    assert(is_slot(new_grid, k, last));
    assert(body_at(new_grid, k, last) == b);
    assert forall|m: int, p: int| #[trigger] is_slot(new_grid, m, p) && !(m == k && p == last)
        implies is_slot(old_grid, m, p) && body_at(old_grid, m, p) == body_at(new_grid, m, p) by {
        if m != k {
            assert(new_grid[m] == old_grid[m]);
        }
    }
    assert forall|m: int, p: int| #[trigger] is_slot(old_grid, m, p) implies is_slot(
        new_grid,
        m,
        p,
    ) && body_at(old_grid, m, p) == body_at(new_grid, m, p) by {
        if m != k {
            assert(new_grid[m] == old_grid[m]);
        }
    }
    assert forall|m: int, p: int| #[trigger] is_slot(new_grid, m, p) implies 0 <= body_at(
        new_grid,
        m,
        p,
    ) < new_cells.len() && new_cells[body_at(new_grid, m, p)] == new_grid[m].coord by {
        if !(m == k && p == last) {
            assert(is_slot(old_grid, m, p));
            if m != k {
                assert(new_grid[m] == old_grid[m]);
            }
        }
    }
    assert forall|m: int, p: int, q: int|
        #![trigger body_at(new_grid, m, p), body_at(new_grid, m, q)]
        is_slot(new_grid, m, p) && is_slot(new_grid, m, q) && p < q implies body_at(new_grid, m, p)
            < body_at(new_grid, m, q) by {
        assert(is_slot(old_grid, m, p));
        if m == k && q == last {
        } else {
            assert(is_slot(old_grid, m, q));
            assert(body_at(old_grid, m, p) < body_at(old_grid, m, q));
        }
    }
    assert forall|m: int, j: int| 0 <= m < j < new_grid.len() implies (#[trigger] new_grid[m]).coord
        != (#[trigger] new_grid[j]).coord by {
        if m != k {
            assert(new_grid[m] == old_grid[m]);
        }
        if j != k {
            assert(new_grid[j] == old_grid[j]);
        }
        if m < old_grid.len() && j < old_grid.len() {
            assert(old_grid[m].coord != old_grid[j].coord);
        }
    }
    assert forall|x: int| 0 <= x < new_cells.len() implies #[trigger] has_slot(new_grid, x) by {
        if x < b {
            assert(has_slot(old_grid, x));
            let (m, p) = choose|m: int, p: int| #[trigger]
                is_slot(old_grid, m, p) && body_at(old_grid, m, p) == x;
            assert(is_slot(new_grid, m, p) && body_at(new_grid, m, p) == x);
        } else {
            assert(is_slot(new_grid, k, last) && body_at(new_grid, k, last) == x);
        }
    }
}

/// Pushes every pair of bodies of cell `i`, the earlier body first.
fn push_cell_pairs(
    grid: &Vec<GridCell>,
    i: usize,
    pairs: &mut Vec<(usize, usize)>,
    Ghost(slots): Ghost<Seq<(int, int, int, int)>>,
) -> (out: Ghost<Seq<(int, int, int, int)>>)
    requires
        i < grid@.len(),
        emitted(grid@, slots, old(pairs)@, i as int, i as int, 0, 0),
    ensures
        emitted(grid@, out@, final(pairs)@, i as int, i + 1, 0, 0),
{
    let ghost mut slots = slots;
    let len = grid[i].bodies.len();
    let mut j: usize = 0;
    while j < len
        invariant
            i < grid@.len(),
            len == grid@[i as int].bodies@.len(),
            j <= len,
            emitted(grid@, slots, pairs@, i as int, i as int, j as int, 0),
        decreases len - j,
    {
        proof {
            lemma_skip(
                grid@,
                slots,
                pairs@,
                i as int,
                i as int,
                j as int,
                0,
                i as int,
                i as int,
                j as int,
                j + 1,
            );
        }
        let mut k: usize = j + 1;
        while k < len
            invariant
                i < grid@.len(),
                len == grid@[i as int].bodies@.len(),
                j < k <= len,
                emitted(grid@, slots, pairs@, i as int, i as int, j as int, k as int),
            decreases len - k,
        {
            proof {
                lemma_emit(grid@, slots, pairs@, i as int, i as int, j as int, k as int);
                slots = slots.push((i as int, j as int, i as int, k as int));
            }
            pairs.push((grid[i].bodies[j], grid[i].bodies[k]));
            k = k + 1;
        }
        proof {
            lemma_skip(
                grid@,
                slots,
                pairs@,
                i as int,
                i as int,
                j as int,
                len as int,
                i as int,
                i as int,
                j + 1,
                0,
            );
        }
        j = j + 1;
    }
    proof {
        lemma_skip(grid@, slots, pairs@, i as int, i as int, len as int, 0, i as int, i + 1, 0, 0);
    }
    Ghost(slots)
}

/// Pushes every pair made of a body of cell `i` and a body of the
/// neighbouring cell `j`, the body of cell `i` first.
fn push_cross_pairs(
    grid: &Vec<GridCell>,
    i: usize,
    j: usize,
    pairs: &mut Vec<(usize, usize)>,
    Ghost(slots): Ghost<Seq<(int, int, int, int)>>,
) -> (out: Ghost<Seq<(int, int, int, int)>>)
    requires
        i < j < grid@.len(),
        are_neighbors(grid@[i as int].coord, grid@[j as int].coord),
        emitted(grid@, slots, old(pairs)@, i as int, j as int, 0, 0),
    ensures
        emitted(grid@, out@, final(pairs)@, i as int, j + 1, 0, 0),
{
    let ghost mut slots = slots;
    let len_a = grid[i].bodies.len();
    let len_b = grid[j].bodies.len();
    let mut p: usize = 0;
    while p < len_a
        invariant
            i < j < grid@.len(),
            are_neighbors(grid@[i as int].coord, grid@[j as int].coord),
            len_a == grid@[i as int].bodies@.len(),
            len_b == grid@[j as int].bodies@.len(),
            p <= len_a,
            emitted(grid@, slots, pairs@, i as int, j as int, p as int, 0),
        decreases len_a - p,
    {
        let mut q: usize = 0;
        while q < len_b
            invariant
                i < j < grid@.len(),
                are_neighbors(grid@[i as int].coord, grid@[j as int].coord),
                len_a == grid@[i as int].bodies@.len(),
                len_b == grid@[j as int].bodies@.len(),
                p < len_a,
                q <= len_b,
                emitted(grid@, slots, pairs@, i as int, j as int, p as int, q as int),
            decreases len_b - q,
        {
            proof {
                lemma_emit(grid@, slots, pairs@, i as int, j as int, p as int, q as int);
                slots = slots.push((i as int, p as int, j as int, q as int));
            }
            pairs.push((grid[i].bodies[p], grid[j].bodies[q]));
            q = q + 1;
        }
        proof {
            lemma_skip(
                grid@,
                slots,
                pairs@,
                i as int,
                j as int,
                p as int,
                len_b as int,
                i as int,
                j as int,
                p + 1,
                0,
            );
        }
        p = p + 1;
    }
    proof {
        lemma_skip(grid@, slots, pairs@, i as int, j as int, len_a as int, 0, i as int, j + 1, 0, 0);
    }
    Ghost(slots)
}

} // verus!
