//! Zero-dimensional persistence of a range-Doppler surface: cells are swept
//! from the highest value down, and whenever two peak components meet at a
//! saddle the lower peak dies (elder rule). Values enter as order keys
//! (a larger key is a larger value).
use vstd::prelude::*;
use crate::unionfind::{Dsu, DeadPeak};

verus! {

/// The grid is non-empty, rectangular and at most 256 x 256.
pub open spec fn valid_shape(grid: Seq<Vec<u64>>) -> bool {
    &&& 1 <= grid.len() <= 256
    &&& 1 <= grid[0]@.len() <= 256
    &&& forall|r: int| 0 <= r < grid.len() ==> (#[trigger] grid[r]@).len() == grid[0]@.len()
}

/// Key of cell `(r, c)`.
pub open spec fn key_at(grid: Seq<Vec<u64>>, r: int, c: int) -> u64 {
    grid[r]@[c]
}

/// `(r, c)` lies in the grid.
pub open spec fn in_grid(grid: Seq<Vec<u64>>, r: int, c: int) -> bool {
    0 <= r < grid.len() && 0 <= c < grid[0]@.len()
}

/// A dead peak names a grid cell, carries that cell's key, names the saddle
/// cell with its key, and was never lower than its saddle.
pub open spec fn dead_peak_ok(grid: Seq<Vec<u64>>, d: DeadPeak) -> bool {
    &&& in_grid(grid, d.delay as int, d.doppler as int)
    &&& in_grid(grid, d.saddle_delay as int, d.saddle_doppler as int)
    &&& d.key == key_at(grid, d.delay as int, d.doppler as int)
    &&& d.saddle_key == key_at(grid, d.saddle_delay as int, d.saddle_doppler as int)
    &&& d.key >= d.saddle_key
}

/// Sweep order on cells: larger keys first, ties in row-major order. A cell
/// is encoded as `(u64::MAX - key, row, column)` and compared lexicographically.
pub open spec fn cell_le(a: (u64, usize, usize), b: (u64, usize, usize)) -> bool {
    a.0 < b.0 || (a.0 == b.0 && (a.1 < b.1 || (a.1 == b.1 && a.2 <= b.2)))
}

/// Sorts sweep cells ascending in the lexicographic tuple order.
#[verifier::external_body]
fn sort_cells(cells: &mut Vec<(u64, usize, usize)>)
    ensures
        final(cells)@.to_multiset() == old(cells)@.to_multiset(),
        forall|a: int, b: int|
            0 <= a < b < final(cells)@.len() ==> cell_le(final(cells)@[a], final(cells)@[b]),
{
    cells.sort_unstable();
}

/// Node index of cell `(r, c)` in a grid of width `w`.
pub open spec fn node(w: int, r: int, c: int) -> int {
    r * w + c
}

/// Invariant of the sweep: a forest over the active (already swept) cells in
/// which every component's root is active and carries the component's peak,
/// every active cell has a key of at least `floor`, and the dead peaks found
/// so far are valid, pairwise distinct, and no longer roots.
pub open spec fn sweep_inv(
    grid: Seq<Vec<u64>>,
    w: int,
    dsu: Dsu,
    active: Seq<bool>,
    dead: Seq<DeadPeak>,
    floor: u64,
) -> bool {
    let n = dsu.size() as int;
    &&& dsu.wf()
    &&& active.len() == n
    &&& forall|k: int|
        0 <= k < n && #[trigger] active[k] ==> {
            let at = dsu.coords()[k];
            &&& in_grid(grid, at.0 as int, at.1 as int)
            &&& node(w, at.0 as int, at.1 as int) == k
            &&& dsu.keys()[k] == key_at(grid, at.0 as int, at.1 as int)
            &&& active[dsu.root(k)]
            &&& dsu.keys()[dsu.root(k)] >= dsu.keys()[k]
            &&& dsu.keys()[k] >= floor
        }
    &&& forall|k: int| 0 <= k < n && !(#[trigger] active[k]) ==> dsu.root(k) == k
    &&& forall|a: int| 0 <= a < dead.len() ==> dead_peak_ok(grid, #[trigger] dead[a])
    &&& forall|a: int|
        0 <= a < dead.len() ==> {
            let m = node(w, (#[trigger] dead[a]).delay as int, dead[a].doppler as int);
            &&& 0 <= m < n
            &&& active[m]
            &&& dsu.root(m) != m
        }
    &&& forall|a: int, b: int|
        0 <= a < b < dead.len() ==> node(w, (#[trigger] dead[a]).delay as int, dead[a].doppler as int)
            != node(w, (#[trigger] dead[b]).delay as int, dead[b].doppler as int)
}

/// What joining node `i` with its neighbour `j` (saddle cell `saddle`, key
/// `val`) does to the union-find `d0` (giving `d1`) and the dead list
/// `dead0` (giving `dead1`): nothing unless `j` is swept and in another
/// component; otherwise the component with the lower peak (on equal peaks,
/// that of `j`) dies at the saddle and its nodes are re-rooted at the other
/// peak. Keys and coordinates stay.
pub open spec fn merge_effect(
    d0: Dsu,
    d1: Dsu,
    active: Seq<bool>,
    dead0: Seq<DeadPeak>,
    dead1: Seq<DeadPeak>,
    i: int,
    j: int,
    saddle: (usize, usize),
    val: u64,
) -> bool {
    let ri = d0.root(i);
    let rj = d0.root(j);
    let (winner, loser) = if d0.keys()[ri] >= d0.keys()[rj] {
        (ri, rj)
    } else {
        (rj, ri)
    };
    let merged = active[j] && ri != rj;
    &&& d1.size() == d0.size()
    &&& d1.keys() == d0.keys()
    &&& d1.coords() == d0.coords()
    &&& !merged ==> dead1 == dead0
    &&& !merged ==> forall|k: int| 0 <= k < d0.size() ==> #[trigger] d1.root(k) == d0.root(k)
    &&& merged ==> dead1 == dead0.push(
        DeadPeak {
            delay: d0.coords()[loser].0,
            doppler: d0.coords()[loser].1,
            key: d0.keys()[loser],
            saddle_delay: saddle.0,
            saddle_doppler: saddle.1,
            saddle_key: val,
        },
    )
    &&& merged ==> forall|k: int|
        0 <= k < d0.size() ==> #[trigger] d1.root(k) == (if d0.root(k) == loser {
            winner
        } else {
            d0.root(k)
        })
}

/// Joins the swept cell `idx` (at `(r, c)`, key `val`) with its neighbour
/// `n_idx` if that neighbour has already been swept: when the two lie in
/// different components, the component with the lower peak (on equal peaks,
/// that of `n_idx`) dies at the saddle `(r, c)` and is appended to `dead`;
/// its cells are re-rooted at the surviving peak.
fn merge_neighbor(
    grid: &Vec<Vec<u64>>,
    w: usize,
    dsu: &mut Dsu,
    active: &Vec<bool>,
    dead: &mut Vec<DeadPeak>,
    idx: usize,
    n_idx: usize,
    r: usize,
    c: usize,
    val: u64,
)
    requires
        sweep_inv(grid@, w as int, *old(dsu), active@, old(dead)@, val),
        idx < old(dsu).size(),
        n_idx < old(dsu).size(),
        active@[idx as int],
        in_grid(grid@, r as int, c as int),
        val == key_at(grid@, r as int, c as int),
    ensures
        sweep_inv(grid@, w as int, *final(dsu), active@, final(dead)@, val),
        final(dsu).size() == old(dsu).size(),
        merge_effect(*old(dsu), *final(dsu), active@, old(dead)@, final(dead)@, idx as int, n_idx as int, (r, c), val),
{
    if active[n_idx] {
        let ghost d0 = *dsu;
        let ghost dead0 = dead@;
        let merged = dsu.union(idx, n_idx, val, (r, c), dead);
        proof {
            let n = d0.size() as int;
            let ri = d0.root(idx as int);
            let rj = d0.root(n_idx as int);
            d0.lemma_roots(idx as int);
            d0.lemma_roots(n_idx as int);
            assert(active@[ri] && active@[rj]);
            let d1 = *dsu;
            let (winner, loser) = if d0.keys()[ri] >= d0.keys()[rj] {
                (ri, rj)
            } else {
                (rj, ri)
            };
            // How roots moved.
            assert forall|k: int| 0 <= k < n implies #[trigger] d1.root(k) == (if merged && d0.root(k) == loser {
                winner
            } else {
                d0.root(k)
            }) by {}
            if merged {
                assert(d1.root(loser) == winner);
                assert(d1.root(winner) == winner);
                let nd = dead@[dead@.len() - 1];
                assert(nd.delay == d0.coords()[loser].0);
                assert(node(w as int, nd.delay as int, nd.doppler as int) == loser);
            }
            assert forall|a: int| 0 <= a < dead@.len() implies dead_peak_ok(grid@, #[trigger] dead@[a]) by {
                if a < dead0.len() {
                    assert(dead@[a] == dead0[a]);
                }
            }
            assert forall|a: int| 0 <= a < dead@.len() implies {
                let m = node(w as int, (#[trigger] dead@[a]).delay as int, dead@[a].doppler as int);
                &&& 0 <= m < n
                &&& active@[m]
                &&& d1.root(m) != m
            } by {
                if a < dead0.len() {
                    assert(dead@[a] == dead0[a]);
                    let m = node(w as int, dead0[a].delay as int, dead0[a].doppler as int);
                    assert(d0.root(m) != m);
                    d0.lemma_roots(m);
                }
            }
            assert forall|a: int, b: int|
                0 <= a < b < dead@.len() implies node(w as int, (#[trigger] dead@[a]).delay as int, dead@[a].doppler as int)
                    != node(w as int, (#[trigger] dead@[b]).delay as int, dead@[b].doppler as int) by {
                assert(dead@[a] == dead0[a]);
                if b < dead0.len() {
                    assert(dead@[b] == dead0[b]);
                } else {
                    let m = node(w as int, dead0[a].delay as int, dead0[a].doppler as int);
                    assert(d0.root(m) != m);
                    assert(d0.root(loser) == loser);
                }
            }
            assert forall|k: int| 0 <= k < n && #[trigger] active@[k] implies {
                let at = d1.coords()[k];
                &&& in_grid(grid@, at.0 as int, at.1 as int)
                &&& node(w as int, at.0 as int, at.1 as int) == k
                &&& d1.keys()[k] == key_at(grid@, at.0 as int, at.1 as int)
                &&& active@[d1.root(k)]
                &&& d1.keys()[d1.root(k)] >= d1.keys()[k]
                &&& d1.keys()[k] >= val
            } by {
                d0.lemma_roots(k);
            }
            assert forall|k: int| 0 <= k < n && !(#[trigger] active@[k]) implies d1.root(k) == k by {
                assert(d0.root(k) == k);
            }
        }
    }
}

/// The sweep invariant survives lowering its floor.
proof fn lemma_inv_lower_floor(
    grid: Seq<Vec<u64>>,
    w: int,
    dsu: Dsu,
    active: Seq<bool>,
    dead: Seq<DeadPeak>,
    f1: u64,
    f2: u64,
)
    requires
        sweep_inv(grid, w, dsu, active, dead, f1),
        f2 <= f1,
    ensures
        sweep_inv(grid, w, dsu, active, dead, f2),
{
}

/// Abstract state of the sweep: the representative of every node, the peak
/// key and peak cell stored at every node, which cells have been swept, and
/// the peaks that have died so far.
pub struct SweepState {
    pub root: Seq<int>,
    pub peak: Seq<u64>,
    pub at: Seq<(usize, usize)>,
    pub active: Seq<bool>,
    pub dead: Seq<DeadPeak>,
}

/// `n` singleton components, nothing swept, nothing dead.
pub open spec fn sweep_start(n: nat) -> SweepState {
    SweepState {
        root: Seq::new(n, |k: int| k),
        peak: Seq::new(n, |k: int| 0u64),
        at: Seq::new(n, |k: int| (0usize, 0usize)),
        active: Seq::new(n, |k: int| false),
        dead: Seq::empty(),
    }
}

/// Elder rule at a saddle: if node `j` has been swept and lies in another
/// component than node `i`, the component with the lower peak (on equal
/// peaks, that of `j`) joins the other one, and its peak dies at `saddle`.
pub open spec fn join_at(s: SweepState, i: int, j: int, saddle: (usize, usize), saddle_key: u64) -> SweepState {
    let ri = s.root[i];
    let rj = s.root[j];
    if s.active[j] && ri != rj {
        let winner = if s.peak[ri] >= s.peak[rj] { ri } else { rj };
        let loser = if s.peak[ri] >= s.peak[rj] { rj } else { ri };
        SweepState {
            root: Seq::new(s.root.len(), |k: int| if s.root[k] == loser { winner } else { s.root[k] }),
            peak: s.peak,
            at: s.at,
            active: s.active,
            dead: s.dead.push(
                DeadPeak {
                    delay: s.at[loser].0,
                    doppler: s.at[loser].1,
                    key: s.peak[loser],
                    saddle_delay: saddle.0,
                    saddle_doppler: saddle.1,
                    saddle_key: saddle_key,
                },
            ),
        }
    } else {
        s
    }
}

/// The cell `(r, c)` with key `key` meets the first `j` of the nine offsets
/// around it (row by row, from the row above to the row below), joining at
/// each one that is an 8-neighbour inside an `h` x `w` grid.
pub open spec fn join_neighbors(s: SweepState, h: int, w: int, r: int, c: int, key: u64, j: nat) -> SweepState
    decreases j,
{
    if j == 0 {
        s
    } else {
        let prev = join_neighbors(s, h, w, r, c, key, (j - 1) as nat);
        let dr = (j - 1) / 3;
        let dc = (j - 1) % 3;
        let nr = r + dr - 1;
        let nc = c + dc - 1;
        if !(dr == 1 && dc == 1) && 0 <= nr < h && 0 <= nc < w {
            join_at(prev, node(w, r, c), node(w, nr, nc), (r as usize, c as usize), key)
        } else {
            prev
        }
    }
}

/// The sweep reaches `cell` (encoded as in `cell_le`): it becomes an active
/// singleton whose peak is itself, then meets its 8-neighbours.
pub open spec fn visit(s: SweepState, h: int, w: int, cell: (u64, usize, usize)) -> SweepState {
    let key = (u64::MAX - cell.0) as u64;
    let r = cell.1 as int;
    let c = cell.2 as int;
    let idx = node(w, r, c);
    let s1 = SweepState {
        root: s.root,
        peak: s.peak.update(idx, key),
        at: s.at.update(idx, (cell.1, cell.2)),
        active: s.active.update(idx, true),
        dead: s.dead,
    };
    join_neighbors(s1, h, w, r, c, key, 9)
}

/// State after the first `t` cells of `order` have been swept.
pub open spec fn sweep(order: Seq<(u64, usize, usize)>, h: int, w: int, t: nat) -> SweepState
    decreases t,
{
    if t == 0 {
        sweep_start((h * w) as nat)
    } else {
        visit(sweep(order, h, w, (t - 1) as nat), h, w, order[t - 1])
    }
}

/// The sweep order as a relation.
pub open spec fn cell_order() -> spec_fn((u64, usize, usize), (u64, usize, usize)) -> bool {
    |a: (u64, usize, usize), b: (u64, usize, usize)| cell_le(a, b)
}

/// The first `c` cells of row `r`, encoded as in `cell_le`.
pub open spec fn row_cells(grid: Seq<Vec<u64>>, r: int, c: int) -> Seq<(u64, usize, usize)> {
    Seq::new(c as nat, |cc: int| ((u64::MAX - key_at(grid, r, cc)) as u64, r as usize, cc as usize))
}

/// The cells of the first `r` rows in row-major order.
pub open spec fn rows_cells(grid: Seq<Vec<u64>>, r: int) -> Seq<(u64, usize, usize)>
    decreases r,
{
    if r <= 0 {
        Seq::empty()
    } else {
        rows_cells(grid, r - 1) + row_cells(grid, r - 1, grid[0]@.len() as int)
    }
}

/// All cells of the grid in sweep order: larger keys first, ties row-major.
pub open spec fn sweep_order(grid: Seq<Vec<u64>>) -> Seq<(u64, usize, usize)> {
    rows_cells(grid, grid.len() as int).sort_by(cell_order())
}

/// The persistence pairs of the grid: every peak that dies during the sweep,
/// with its saddle, in the order in which they die.
pub open spec fn persistence_pairs(grid: Seq<Vec<u64>>) -> Seq<DeadPeak> {
    let order = sweep_order(grid);
    sweep(order, grid.len() as int, grid[0]@.len() as int, order.len()).dead
}

/// The union-find, the swept flags and the dead list are those of `s`.
pub open spec fn tracks(dsu: Dsu, active: Seq<bool>, dead: Seq<DeadPeak>, s: SweepState) -> bool {
    &&& s.root.len() == dsu.size()
    &&& forall|k: int| 0 <= k < dsu.size() ==> #[trigger] dsu.root(k) == s.root[k]
    &&& dsu.keys() == s.peak
    &&& dsu.coords() == s.at
    &&& active == s.active
    &&& dead == s.dead
}

/// `cell_le` is a total order.
proof fn lemma_cell_order_total()
    ensures
        vstd::relations::total_ordering(cell_order()),
{
    let le = cell_order();
    assert forall|x: (u64, usize, usize), y: (u64, usize, usize)| #[trigger] le(x, y) && #[trigger] le(y, x) implies x == y by {
    }
    assert forall|x: (u64, usize, usize), y: (u64, usize, usize), z: (u64, usize, usize)|
        #[trigger] le(x, y) && #[trigger] le(y, z) implies le(x, z) by {
    }
}

/// Cells in the spanning pattern of the grid: horizontal neighbours in a
/// row, and vertical neighbours in the first column.
pub open spec fn linked(r1: int, c1: int, r2: int, c2: int) -> bool {
    (r1 == r2 && c2 == c1 + 1) || (c1 == 0 && c2 == 0 && r2 == r1 + 1)
}

/// Node of the neighbour of `(r, c)` at offset `(dr - 1, dc - 1)`.
pub open spec fn nb(w: int, r: int, c: int, dr: int, dc: int) -> int {
    node(w, r + dr - 1, c + dc - 1)
}

/// Every swept node that is no longer a root is the cell of a dead peak, and
/// linked swept cells, node `skip` aside, lie in one component.
pub open spec fn sweep_joined(
    grid: Seq<Vec<u64>>,
    w: int,
    dsu: Dsu,
    active: Seq<bool>,
    dead: Seq<DeadPeak>,
    skip: int,
) -> bool {
    &&& forall|k: int|
        0 <= k < dsu.size() && active[k] && #[trigger] dsu.root(k) != k ==> exists|a: int|
            0 <= a < dead.len() && node(w, (#[trigger] dead[a]).delay as int, dead[a].doppler as int) == k
    &&& forall|r1: int, c1: int, r2: int, c2: int|
        #![trigger linked(r1, c1, r2, c2), node(w, r1, c1), node(w, r2, c2)]
        in_grid(grid, r1, c1) && in_grid(grid, r2, c2) && linked(r1, c1, r2, c2) && active[node(w, r1, c1)]
            && active[node(w, r2, c2)] && node(w, r1, c1) != skip && node(w, r2, c2) != skip ==> dsu.root(
            node(w, r1, c1),
        ) == dsu.root(node(w, r2, c2))
}

/// The swept ones among the first `j` neighbours of `(r, c)` (row by row)
/// lie in its component.
pub open spec fn joined_upto(
    grid: Seq<Vec<u64>>,
    w: int,
    dsu: Dsu,
    active: Seq<bool>,
    r: int,
    c: int,
    j: int,
) -> bool {
    forall|dr: int, dc: int|
        0 <= dr < 3 && 0 <= dc < 3 && dr * 3 + dc < j && !(dr == 1 && dc == 1) && in_grid(
            grid,
            r + dr - 1,
            c + dc - 1,
        ) && active[#[trigger] nb(w, r, c, dr, dc)] ==> dsu.root(nb(w, r, c, dr, dc)) == dsu.root(node(w, r, c))
}

/// A join keeps the sweep's bookkeeping and adds the neighbour at offset
/// index `dr * 3 + dc` to the component of `(r, c)`.
proof fn lemma_merge_joined(
    grid: Seq<Vec<u64>>,
    w: int,
    d0: Dsu,
    d1: Dsu,
    active: Seq<bool>,
    dead0: Seq<DeadPeak>,
    dead1: Seq<DeadPeak>,
    r: usize,
    c: usize,
    dr: int,
    dc: int,
    val: u64,
)
    requires
        valid_shape(grid),
        w == grid[0]@.len(),
        sweep_inv(grid, w, d0, active, dead0, val),
        d0.size() == grid.len() * w,
        in_grid(grid, r as int, c as int),
        active[node(w, r as int, c as int)],
        0 <= dr < 3,
        0 <= dc < 3,
        !(dr == 1 && dc == 1),
        in_grid(grid, r + dr - 1, c + dc - 1),
        0 <= node(w, r as int, c as int) < d0.size(),
        0 <= nb(w, r as int, c as int, dr, dc) < d0.size(),
        merge_effect(d0, d1, active, dead0, dead1, node(w, r as int, c as int), nb(w, r as int, c as int, dr, dc), (r, c), val),
        sweep_joined(grid, w, d0, active, dead0, node(w, r as int, c as int)),
        joined_upto(grid, w, d0, active, r as int, c as int, dr * 3 + dc),
    ensures
        sweep_joined(grid, w, d1, active, dead1, node(w, r as int, c as int)),
        joined_upto(grid, w, d1, active, r as int, c as int, dr * 3 + dc + 1),
{
    let i = node(w, r as int, c as int);
    let j = nb(w, r as int, c as int, dr, dc);
    let n = d0.size() as int;
    let ri = d0.root(i);
    let rj = d0.root(j);
    d0.lemma_roots(i);
    d0.lemma_roots(j);
    let winner = if d0.keys()[ri] >= d0.keys()[rj] { ri } else { rj };
    let loser = if d0.keys()[ri] >= d0.keys()[rj] { rj } else { ri };
    let merged = active[j] && ri != rj;
    // Roots move by one map, so equal roots stay equal.
    assert forall|k: int| 0 <= k < n implies #[trigger] d1.root(k) == (if merged && d0.root(k) == loser {
        winner
    } else {
        d0.root(k)
    }) by {}
    assert forall|k: int| 0 <= k < n && active[k] && #[trigger] d1.root(k) != k implies exists|a: int|
        0 <= a < dead1.len() && node(w, (#[trigger] dead1[a]).delay as int, dead1[a].doppler as int) == k by {
        if d0.root(k) != k {
            let a = choose|a: int|
                0 <= a < dead0.len() && node(w, (#[trigger] dead0[a]).delay as int, dead0[a].doppler as int) == k;
            assert(dead1[a] == dead0[a]);
        } else {
            assert(merged && k == loser);
            assert(active[loser]);
            let a = dead0.len() as int;
            assert(dead1[a].delay == d0.coords()[loser].0);
            assert(node(w, dead1[a].delay as int, dead1[a].doppler as int) == k);
        }
    }
    assert forall|r1: int, c1: int, r2: int, c2: int|
        #![trigger linked(r1, c1, r2, c2), node(w, r1, c1), node(w, r2, c2)]
        in_grid(grid, r1, c1) && in_grid(grid, r2, c2) && linked(r1, c1, r2, c2) && active[node(w, r1, c1)]
            && active[node(w, r2, c2)] && node(w, r1, c1) != i && node(w, r2, c2) != i implies d1.root(
            node(w, r1, c1),
        ) == d1.root(node(w, r2, c2)) by {
        lemma_node_in_range(grid, w, r1, c1);
        lemma_node_in_range(grid, w, r2, c2);
        assert(d0.root(node(w, r1, c1)) == d0.root(node(w, r2, c2)));
    }
    assert forall|dr2: int, dc2: int|
        0 <= dr2 < 3 && 0 <= dc2 < 3 && dr2 * 3 + dc2 < dr * 3 + dc + 1 && !(dr2 == 1 && dc2 == 1) && in_grid(
            grid,
            r + dr2 - 1,
            c + dc2 - 1,
        ) && active[#[trigger] nb(w, r as int, c as int, dr2, dc2)] implies d1.root(nb(w, r as int, c as int, dr2, dc2))
        == d1.root(node(w, r as int, c as int)) by {
        lemma_node_in_range(grid, w, r + dr2 - 1, c + dc2 - 1);
        if dr2 * 3 + dc2 < dr * 3 + dc {
            assert(d0.root(nb(w, r as int, c as int, dr2, dc2)) == d0.root(i));
        } else {
            assert(dr2 == dr && dc2 == dc);
        }
    }
}

/// Skipping an offset that is the cell itself or lies outside the grid
/// keeps the neighbours joined so far.
proof fn lemma_joined_skip(
    grid: Seq<Vec<u64>>,
    w: int,
    dsu: Dsu,
    active: Seq<bool>,
    r: int,
    c: int,
    dr: int,
    dc: int,
)
    requires
        0 <= dr < 3,
        0 <= dc < 3,
        (dr == 1 && dc == 1) || !in_grid(grid, r + dr - 1, c + dc - 1),
        joined_upto(grid, w, dsu, active, r, c, dr * 3 + dc),
    ensures
        joined_upto(grid, w, dsu, active, r, c, dr * 3 + dc + 1),
{
    assert forall|dr2: int, dc2: int|
        0 <= dr2 < 3 && 0 <= dc2 < 3 && dr2 * 3 + dc2 < dr * 3 + dc + 1 && !(dr2 == 1 && dc2 == 1) && in_grid(
            grid,
            r + dr2 - 1,
            c + dc2 - 1,
        ) && active[#[trigger] nb(w, r, c, dr2, dc2)] implies dsu.root(nb(w, r, c, dr2, dc2)) == dsu.root(
        node(w, r, c),
    ) by {
        if dr2 * 3 + dc2 == dr * 3 + dc {
            assert(dr2 == dr && dc2 == dc);
        }
    }
}

/// Sweeping a new cell keeps the bookkeeping of the cells swept before.
proof fn lemma_visit_start(
    grid: Seq<Vec<u64>>,
    w: int,
    d0: Dsu,
    d1: Dsu,
    a0: Seq<bool>,
    dead: Seq<DeadPeak>,
    idx: int,
    floor: u64,
)
    requires
        valid_shape(grid),
        w == grid[0]@.len(),
        d0.size() == grid.len() * w,
        sweep_inv(grid, w, d0, a0, dead, floor),
        sweep_joined(grid, w, d0, a0, dead, -1),
        d1.size() == d0.size(),
        forall|k: int| 0 <= k < d0.size() ==> #[trigger] d1.root(k) == d0.root(k),
        0 <= idx < d0.size(),
    ensures
        sweep_joined(grid, w, d1, a0.update(idx, true), dead, idx),
{
    let a1 = a0.update(idx, true);
    assert forall|k: int| 0 <= k < d1.size() && a1[k] && #[trigger] d1.root(k) != k implies exists|a: int|
        0 <= a < dead.len() && node(w, (#[trigger] dead[a]).delay as int, dead[a].doppler as int) == k by {
        assert(d0.root(k) != k);
        assert(a0[k]);
    }
    assert forall|r1: int, c1: int, r2: int, c2: int|
        #![trigger linked(r1, c1, r2, c2), node(w, r1, c1), node(w, r2, c2)]
        in_grid(grid, r1, c1) && in_grid(grid, r2, c2) && linked(r1, c1, r2, c2) && a1[node(w, r1, c1)]
            && a1[node(w, r2, c2)] && node(w, r1, c1) != idx && node(w, r2, c2) != idx implies d1.root(
            node(w, r1, c1),
        ) == d1.root(node(w, r2, c2)) by {
        lemma_node_in_range(grid, w, r1, c1);
        lemma_node_in_range(grid, w, r2, c2);
        assert(a0[node(w, r1, c1)] && a0[node(w, r2, c2)]);
        assert(d0.root(node(w, r1, c1)) == d0.root(node(w, r2, c2)));
    }
}

/// Once a cell has met all its neighbours, every linked pair of swept
/// cells lies in one component.
proof fn lemma_visit_end(grid: Seq<Vec<u64>>, w: int, dsu: Dsu, active: Seq<bool>, dead: Seq<DeadPeak>, r: int, c: int)
    requires
        valid_shape(grid),
        w == grid[0]@.len(),
        in_grid(grid, r, c),
        sweep_joined(grid, w, dsu, active, dead, node(w, r, c)),
        joined_upto(grid, w, dsu, active, r, c, 9),
    ensures
        sweep_joined(grid, w, dsu, active, dead, -1),
{
    let idx = node(w, r, c);
    assert forall|r1: int, c1: int, r2: int, c2: int|
        #![trigger linked(r1, c1, r2, c2), node(w, r1, c1), node(w, r2, c2)]
        in_grid(grid, r1, c1) && in_grid(grid, r2, c2) && linked(r1, c1, r2, c2) && active[node(w, r1, c1)]
            && active[node(w, r2, c2)] && node(w, r1, c1) != -1 && node(w, r2, c2) != -1 implies dsu.root(
            node(w, r1, c1),
        ) == dsu.root(node(w, r2, c2)) by {
        if node(w, r1, c1) == idx {
            lemma_node_unique(w, r1, c1, r, c);
            if r2 == r1 {
                assert(nb(w, r, c, 1, 2) == node(w, r2, c2));
            } else {
                assert(nb(w, r, c, 2, 1) == node(w, r2, c2));
            }
        } else if node(w, r2, c2) == idx {
            lemma_node_unique(w, r2, c2, r, c);
            if r2 == r1 {
                assert(nb(w, r, c, 1, 0) == node(w, r1, c1));
            } else {
                assert(nb(w, r, c, 0, 1) == node(w, r1, c1));
            }
        } else {
            assert(linked(r1, c1, r2, c2));
        }
    }
}

/// When every cell is swept and linked cells share components, every cell
/// lies in the component of `(0, 0)`.
proof fn lemma_connected(grid: Seq<Vec<u64>>, w: int, dsu: Dsu, active: Seq<bool>, dead: Seq<DeadPeak>, r: int, c: int)
    requires
        valid_shape(grid),
        w == grid[0]@.len(),
        in_grid(grid, r, c),
        sweep_joined(grid, w, dsu, active, dead, -1),
        forall|rr: int, cc: int| in_grid(grid, rr, cc) ==> #[trigger] active[node(w, rr, cc)],
    ensures
        dsu.root(node(w, r, c)) == dsu.root(node(w, 0, 0)),
    decreases r, c,
{
    if c > 0 {
        lemma_connected(grid, w, dsu, active, dead, r, c - 1);
        assert(linked(r, c - 1, r, c));
        assert(active[node(w, r, c - 1)] && active[node(w, r, c)]);
    } else if r > 0 {
        lemma_connected(grid, w, dsu, active, dead, r - 1, 0);
        assert(linked(r - 1, 0, r, 0));
        assert(active[node(w, r - 1, 0)] && active[node(w, r, 0)]);
    }
}

/// A node of a cell in the grid lies in range.
proof fn lemma_node_in_range(grid: Seq<Vec<u64>>, w: int, r: int, c: int)
    requires
        valid_shape(grid),
        w == grid[0]@.len(),
        in_grid(grid, r, c),
    ensures
        0 <= node(w, r, c) < grid.len() * w,
{
    assert(0 <= r * w + c < grid.len() * w) by (nonlinear_arith)
        requires
            0 <= r < grid.len(),
            0 <= c < w,
    {
        assert(r * w + w <= grid.len() * w);
    }
}

/// Every cell of the grid was swept: the sweep order is a permutation of
/// the grid's cells, and each cell of it was marked.
proof fn lemma_all_swept(grid: Seq<Vec<u64>>, w: int, cells: Seq<(u64, usize, usize)>, active: Seq<bool>)
    requires
        valid_shape(grid),
        w == grid[0]@.len(),
        forall|rr: int, cc: int|
            in_grid(grid, rr, cc) ==> cells.contains(
                ((u64::MAX - #[trigger] key_at(grid, rr, cc)) as u64, rr as usize, cc as usize),
            ),
        forall|q: int| 0 <= q < cells.len() ==> active[node(w, (#[trigger] cells[q]).1 as int, cells[q].2 as int)],
    ensures
        forall|rr: int, cc: int| in_grid(grid, rr, cc) ==> #[trigger] active[node(w, rr, cc)],
{
    assert forall|rr: int, cc: int| in_grid(grid, rr, cc) implies #[trigger] active[node(w, rr, cc)] by {
        let x = ((u64::MAX - key_at(grid, rr, cc)) as u64, rr as usize, cc as usize);
        assert(cells.contains(x));
        let q = choose|q: int| 0 <= q < cells.len() && cells[q] == x;
        assert(active[node(w, cells[q].1 as int, cells[q].2 as int)]);
        assert(cells[q].1 as int == rr && cells[q].2 as int == cc);
    }
}

/// When the sweep is over, every cell but the surviving peak `g_at` (node
/// `g`, the root of the first cell swept) is the cell of a dead peak.
proof fn lemma_all_but_peak_die(
    grid: Seq<Vec<u64>>,
    w: int,
    dsu: Dsu,
    active: Seq<bool>,
    dead: Seq<DeadPeak>,
    fr: int,
    fc: int,
    g: int,
    g_at: (usize, usize),
)
    requires
        valid_shape(grid),
        w == grid[0]@.len(),
        dsu.size() == grid.len() * w,
        sweep_inv(grid, w, dsu, active, dead, 0),
        sweep_joined(grid, w, dsu, active, dead, -1),
        forall|rr: int, cc: int| in_grid(grid, rr, cc) ==> #[trigger] active[node(w, rr, cc)],
        in_grid(grid, fr, fc),
        g == dsu.root(node(w, fr, fc)),
        g_at == dsu.coords()[g],
    ensures
        forall|rr: int, cc: int|
            in_grid(grid, rr, cc) && (rr, cc) != (g_at.0 as int, g_at.1 as int) ==> exists|a: int|
                0 <= a < dead.len() && (#[trigger] dead[a]).delay == rr && dead[a].doppler == cc,
{
    lemma_node_in_range(grid, w, fr, fc);
    dsu.lemma_roots(node(w, fr, fc));
    lemma_connected(grid, w, dsu, active, dead, fr, fc);
    assert(active[node(w, fr, fc)]);
    assert(active[g]);
    assert(node(w, g_at.0 as int, g_at.1 as int) == g);
    assert forall|rr: int, cc: int|
        in_grid(grid, rr, cc) && (rr, cc) != (g_at.0 as int, g_at.1 as int) implies exists|a: int|
            0 <= a < dead.len() && (#[trigger] dead[a]).delay == rr && dead[a].doppler == cc by {
        lemma_connected(grid, w, dsu, active, dead, rr, cc);
        let k = node(w, rr, cc);
        lemma_node_in_range(grid, w, rr, cc);
        assert(dsu.root(k) == g);
        if k == g {
            lemma_node_unique(w, rr, cc, g_at.0 as int, g_at.1 as int);
        }
        assert(active[k] && dsu.root(k) != k);
        let a = choose|a: int|
            0 <= a < dead.len() && node(w, (#[trigger] dead[a]).delay as int, dead[a].doppler as int) == k;
        assert(dead_peak_ok(grid, dead[a]));
        lemma_node_unique(w, dead[a].delay as int, dead[a].doppler as int, rr, cc);
    }
}

/// The cells of a valid grid in sweep order.
fn sweep_cells(grid: &Vec<Vec<u64>>, h: usize, w: usize) -> (cells: Vec<(u64, usize, usize)>)
    requires
        valid_shape(grid@),
        h == grid@.len(),
        w == grid@[0]@.len(),
    ensures
        cells@ == sweep_order(grid@),
        cells@.len() >= 1,
        forall|t: int|
            0 <= t < cells@.len() ==> in_grid(grid@, (#[trigger] cells@[t]).1 as int, cells@[t].2 as int)
                && cells@[t].0 == u64::MAX - key_at(grid@, cells@[t].1 as int, cells@[t].2 as int),
        forall|a: int, b: int| 0 <= a < b < cells@.len() ==> cell_le(cells@[a], cells@[b]),
        forall|rr: int, cc: int|
            in_grid(grid@, rr, cc) ==> cells@.contains(
                ((u64::MAX - #[trigger] key_at(grid@, rr, cc)) as u64, rr as usize, cc as usize),
            ),
{
    let mut cells: Vec<(u64, usize, usize)> = Vec::new();
    let mut r: usize = 0;
    while r < h
        invariant
            valid_shape(grid@),
            h == grid@.len(),
            w == grid@[0]@.len(),
            r <= h,
            cells@ == rows_cells(grid@, r as int),
            forall|t: int|
                0 <= t < cells@.len() ==> in_grid(grid@, (#[trigger] cells@[t]).1 as int, cells@[t].2 as int)
                    && cells@[t].0 == u64::MAX - key_at(grid@, cells@[t].1 as int, cells@[t].2 as int),
            forall|rr: int, cc: int|
                0 <= rr < r && 0 <= cc < w ==> cells@.contains(
                    ((u64::MAX - #[trigger] key_at(grid@, rr, cc)) as u64, rr as usize, cc as usize),
                ),
        decreases h - r,
    {
        let mut c: usize = 0;
        while c < w
            invariant
                valid_shape(grid@),
                h == grid@.len(),
                w == grid@[0]@.len(),
                r < h,
                c <= w,
                cells@ == rows_cells(grid@, r as int) + row_cells(grid@, r as int, c as int),
                forall|t: int|
                    0 <= t < cells@.len() ==> in_grid(grid@, (#[trigger] cells@[t]).1 as int, cells@[t].2 as int)
                        && cells@[t].0 == u64::MAX - key_at(grid@, cells@[t].1 as int, cells@[t].2 as int),
                forall|rr: int, cc: int|
                    (0 <= rr < r && 0 <= cc < w) || (rr == r && 0 <= cc < c) ==> cells@.contains(
                        ((u64::MAX - #[trigger] key_at(grid@, rr, cc)) as u64, rr as usize, cc as usize),
                    ),
            decreases w - c,
        {
            let ghost before = cells@;
            let key = grid[r][c];
            cells.push((u64::MAX - key, r, c));
            proof {
                let x = ((u64::MAX - key) as u64, r, c);
                assert(row_cells(grid@, r as int, c + 1) =~= row_cells(grid@, r as int, c as int).push(x));
                assert(cells@ =~= rows_cells(grid@, r as int) + row_cells(grid@, r as int, c + 1));
                assert forall|rr: int, cc: int|
                    (0 <= rr < r && 0 <= cc < w) || (rr == r && 0 <= cc < c + 1) implies cells@.contains(
                        ((u64::MAX - #[trigger] key_at(grid@, rr, cc)) as u64, rr as usize, cc as usize),
                    ) by {
                    if rr == r && cc == c {
                        assert(cells@[cells@.len() - 1] == ((u64::MAX - key_at(grid@, rr, cc)) as u64, rr as usize, cc as usize));
                    } else {
                        let x = ((u64::MAX - key_at(grid@, rr, cc)) as u64, rr as usize, cc as usize);
                        assert(before.contains(x));
                        let t = choose|t: int| 0 <= t < before.len() && before[t] == x;
                        assert(cells@[t] == x);
                    }
                }
            }
            c = c + 1;
        }
        assert(rows_cells(grid@, r + 1) == rows_cells(grid@, r as int) + row_cells(grid@, r as int, w as int));
        r = r + 1;
    }
    let ghost unsorted = cells@;
    sort_cells(&mut cells);
    proof {
        unsorted.to_multiset_ensures();
        cells@.to_multiset_ensures();
        assert forall|t: int| 0 <= t < cells@.len() implies in_grid(grid@, (#[trigger] cells@[t]).1 as int, cells@[t].2 as int)
            && cells@[t].0 == u64::MAX - key_at(grid@, cells@[t].1 as int, cells@[t].2 as int) by {
            assert(cells@.contains(cells@[t]));
            assert(cells@.to_multiset().count(cells@[t]) > 0);
            assert(unsorted.to_multiset().count(cells@[t]) > 0);
            assert(unsorted.contains(cells@[t]));
        }
    }
    proof {
        lemma_cell_order_total();
        unsorted.lemma_sort_by_ensures(cell_order());
        assert(vstd::relations::sorted_by(cells@, cell_order())) by {
            assert forall|a: int, b: int| 0 <= a < b < cells@.len() implies #[trigger] (cell_order())(cells@[a], cells@[b]) by {
                assert(cell_le(cells@[a], cells@[b]));
            }
        }
        vstd::seq_lib::lemma_sorted_unique(cells@, unsorted.sort_by(cell_order()), cell_order());
        assert(cells@ == sweep_order(grid@));
    }
    assert(cells@.len() >= 1) by {
        assert(unsorted.contains(((u64::MAX - key_at(grid@, 0, 0)) as u64, 0usize, 0usize)));
        unsorted.to_multiset_ensures();
    }

    proof {
        assert forall|rr: int, cc: int| in_grid(grid@, rr, cc) implies cells@.contains(
            ((u64::MAX - #[trigger] key_at(grid@, rr, cc)) as u64, rr as usize, cc as usize),
        ) by {
            let x = ((u64::MAX - key_at(grid@, rr, cc)) as u64, rr as usize, cc as usize);
            assert(unsorted.contains(x));
            unsorted.to_multiset_ensures();
            cells@.to_multiset_ensures();
            assert(unsorted.to_multiset().count(x) > 0);
            assert(cells@.to_multiset().count(x) > 0);
        }
    }
    cells
}

/// Sweeps the cells in the given order over a fresh union-find, joining
/// each cell with its swept 8-neighbours.
fn run_sweep(grid: &Vec<Vec<u64>>, cells: &Vec<(u64, usize, usize)>, h: usize, w: usize) -> (out: (
    Dsu,
    Vec<bool>,
    Vec<DeadPeak>,
))
    requires
        valid_shape(grid@),
        h == grid@.len(),
        w == grid@[0]@.len(),
        cells@.len() >= 1,
        forall|t: int|
            0 <= t < cells@.len() ==> in_grid(grid@, (#[trigger] cells@[t]).1 as int, cells@[t].2 as int)
                && cells@[t].0 == u64::MAX - key_at(grid@, cells@[t].1 as int, cells@[t].2 as int),
        forall|a: int, b: int| 0 <= a < b < cells@.len() ==> cell_le(cells@[a], cells@[b]),
    ensures
        out.0.size() == h * w,
        sweep_inv(grid@, w as int, out.0, out.1@, out.2@, 0),
        sweep_joined(grid@, w as int, out.0, out.1@, out.2@, -1),
        forall|q: int|
            0 <= q < cells@.len() ==> out.1@[node(w as int, (#[trigger] cells@[q]).1 as int, cells@[q].2 as int)],
        tracks(out.0, out.1@, out.2@, sweep(cells@, h as int, w as int, cells@.len())),
{
    assert(h * w <= 65536) by (nonlinear_arith)
        requires h <= 256, w <= 256;
    let n = h * w;
    let mut dsu = Dsu::new(n);
    let mut active: Vec<bool> = Vec::new();
    let mut k: usize = 0;
    while k < n
        invariant
            k <= n,
            active@.len() == k,
            forall|q: int| 0 <= q < k ==> !(#[trigger] active@[q]),
        decreases n - k,
    {
        active.push(false);
        k = k + 1;
    }
    let mut dead: Vec<DeadPeak> = Vec::new();
    proof {
        dsu.lemma_lens();
        let s0 = sweep(cells@, h as int, w as int, 0);
        assert(active@ =~= s0.active);
        assert(dsu.keys() =~= s0.peak);
        assert(dsu.coords() =~= s0.at);
        assert(dead@ =~= s0.dead);
        assert forall|r1: int, c1: int, r2: int, c2: int|
            #![trigger linked(r1, c1, r2, c2), node(w as int, r1, c1), node(w as int, r2, c2)]
            in_grid(grid@, r1, c1) && in_grid(grid@, r2, c2) && linked(r1, c1, r2, c2) && active@[node(w as int, r1, c1)]
                && active@[node(w as int, r2, c2)] && node(w as int, r1, c1) != -1 && node(w as int, r2, c2) != -1
                implies dsu.root(node(w as int, r1, c1)) == dsu.root(node(w as int, r2, c2)) by {
            lemma_node_in_range(grid@, w as int, r1, c1);
        }
    }

    let mut t: usize = 0;
    while t < cells.len()
        invariant
            valid_shape(grid@),
            h == grid@.len(),
            w == grid@[0]@.len(),
            n == h * w,
            dsu.size() == n,
            t <= cells@.len(),
            cells@.len() >= 1,
            forall|q: int|
                0 <= q < cells@.len() ==> in_grid(grid@, (#[trigger] cells@[q]).1 as int, cells@[q].2 as int)
                    && cells@[q].0 == u64::MAX - key_at(grid@, cells@[q].1 as int, cells@[q].2 as int),
            forall|a: int, b: int| 0 <= a < b < cells@.len() ==> cell_le(cells@[a], cells@[b]),
            sweep_inv(grid@, w as int, dsu, active@, dead@, if t < cells@.len() {
                (u64::MAX - cells@[t as int].0) as u64
            } else {
                0u64
            }),
            tracks(dsu, active@, dead@, sweep(cells@, h as int, w as int, t as nat)),
            sweep_joined(grid@, w as int, dsu, active@, dead@, -1),
            forall|q: int| 0 <= q < t ==> active@[node(w as int, (#[trigger] cells@[q]).1 as int, cells@[q].2 as int)],
        decreases cells@.len() - t,
    {
        let (neg_key, r, c) = cells[t];
        let val: u64 = u64::MAX - neg_key;
        assert(r * w + c < h * w) by (nonlinear_arith)
            requires r < h, c < w;
        let idx = r * w + c;
        let ghost d_before = dsu;
        let ghost a_before = active@;
        let ghost st = sweep(cells@, h as int, w as int, t as nat);
        let ghost s1 = SweepState {
            root: st.root,
            peak: st.peak.update(idx as int, val),
            at: st.at.update(idx as int, (r, c)),
            active: st.active.update(idx as int, true),
            dead: st.dead,
        };
        proof {
            if a_before[idx as int] {
                let at = d_before.coords()[idx as int];
                lemma_node_unique(w as int, at.0 as int, at.1 as int, r as int, c as int);
            }
        }
        active.set(idx, true);
        dsu.set_peak(idx, val, (r, c));
        proof {
            let a = active@;
            d_before.lemma_lens();
            dsu.lemma_lens();
            assert(a == a_before.update(idx as int, true));
            assert(val == key_at(grid@, r as int, c as int));
            assert forall|k: int| 0 <= k < n && #[trigger] a[k] implies {
                let at = dsu.coords()[k];
                &&& in_grid(grid@, at.0 as int, at.1 as int)
                &&& node(w as int, at.0 as int, at.1 as int) == k
                &&& dsu.keys()[k] == key_at(grid@, at.0 as int, at.1 as int)
                &&& a[dsu.root(k)]
                &&& dsu.keys()[dsu.root(k)] >= dsu.keys()[k]
                &&& dsu.keys()[k] >= val
            } by {
                d_before.lemma_roots(k);
                assert(dsu.root(k) == d_before.root(k));
                if k == idx as int {
                    assert(dsu.coords()[k] == (r, c));
                    assert(dsu.keys()[k] == val);
                    if a_before[k] {
                        let rt = d_before.root(k);
                        assert(a_before[rt]);
                        if rt != k {
                            assert(dsu.keys()[rt] == d_before.keys()[rt]);
                        }
                    } else {
                        assert(d_before.root(k) == k);
                    }
                } else {
                    assert(a_before[k]);
                    let rt = d_before.root(k);
                    assert(a_before[rt]);
                    assert(dsu.keys()[k] == d_before.keys()[k]);
                    assert(dsu.coords()[k] == d_before.coords()[k]);
                    if rt == idx as int {
                        let at = d_before.coords()[idx as int];
                        assert(node(w as int, at.0 as int, at.1 as int) == idx as int);
                        assert(at == (r, c));
                        assert(d_before.keys()[rt] == val);
                    } else {
                        assert(dsu.keys()[rt] == d_before.keys()[rt]);
                    }
                }
            }
            assert forall|k: int| 0 <= k < n && !(#[trigger] a[k]) implies dsu.root(k) == k by {
                assert(!a_before[k]);
                assert(dsu.root(k) == d_before.root(k));
            }
            assert forall|q: int| 0 <= q < dead@.len() implies {
                let m = node(w as int, (#[trigger] dead@[q]).delay as int, dead@[q].doppler as int);
                &&& 0 <= m < n
                &&& a[m]
                &&& dsu.root(m) != m
            } by {
                let m = node(w as int, dead@[q].delay as int, dead@[q].doppler as int);
                assert(a_before[m]);
                assert(dsu.root(m) == d_before.root(m));
            }
            assert(sweep_inv(grid@, w as int, dsu, a, dead@, val));
            assert(tracks(dsu, a, dead@, s1));
            lemma_visit_start(grid@, w as int, d_before, dsu, a_before, dead@, idx as int, val);
            assert forall|q: int| 0 <= q < t + 1 implies a[node(w as int, (#[trigger] cells@[q]).1 as int, cells@[q].2 as int)] by {
                if q < t {
                    assert(a_before[node(w as int, cells@[q].1 as int, cells@[q].2 as int)]);
                    lemma_node_in_range(grid@, w as int, cells@[q].1 as int, cells@[q].2 as int);
                }
            }
            assert(visit(st, h as int, w as int, cells@[t as int]) == join_neighbors(s1, h as int, w as int, r as int, c as int, val, 9));
        }
        let mut dr: usize = 0;
        while dr < 3
            invariant
                valid_shape(grid@),
                h == grid@.len(),
                w == grid@[0]@.len(),
                n == h * w,
                dsu.size() == n,
                r < h,
                c < w,
                idx == r * w + c,
                idx < n,
                h <= 256,
                w <= 256,
                val == key_at(grid@, r as int, c as int),
                active@[idx as int],
                sweep_inv(grid@, w as int, dsu, active@, dead@, val),
                dr <= 3,
                tracks(dsu, active@, dead@, join_neighbors(s1, h as int, w as int, r as int, c as int, val, (dr * 3) as nat)),
                sweep_joined(grid@, w as int, dsu, active@, dead@, idx as int),
                joined_upto(grid@, w as int, dsu, active@, r as int, c as int, dr * 3),
            decreases 3 - dr,
        {
            let mut dc: usize = 0;
            while dc < 3
                invariant
                    valid_shape(grid@),
                    h == grid@.len(),
                    w == grid@[0]@.len(),
                    n == h * w,
                    dsu.size() == n,
                    r < h,
                    c < w,
                    idx == r * w + c,
                    idx < n,
                    h <= 256,
                    w <= 256,
                    val == key_at(grid@, r as int, c as int),
                    active@[idx as int],
                    sweep_inv(grid@, w as int, dsu, active@, dead@, val),
                    dc <= 3,
                    dr < 3,
                    tracks(dsu, active@, dead@, join_neighbors(s1, h as int, w as int, r as int, c as int, val, (dr * 3 + dc) as nat)),
                    sweep_joined(grid@, w as int, dsu, active@, dead@, idx as int),
                    joined_upto(grid@, w as int, dsu, active@, r as int, c as int, dr * 3 + dc),
                decreases 3 - dc,
            {
                let ghost j: nat = (dr * 3 + dc) as nat;
                let ghost prev = join_neighbors(s1, h as int, w as int, r as int, c as int, val, j);
                assert(j / 3 == dr && j % 3 == dc);
                if !(dr == 1 && dc == 1) && r + dr >= 1 && r + dr - 1 < h && c + dc >= 1 && c + dc - 1 < w {
                    let nr = r + dr - 1;
                    let nc = c + dc - 1;
                    assert(nr * w + nc < h * w) by (nonlinear_arith)
                        requires nr < h, nc < w;
                    let n_idx = nr * w + nc;
                    let ghost d0 = dsu;
                    let ghost dead0 = dead@;
                    merge_neighbor(grid, w, &mut dsu, &active, &mut dead, idx, n_idx, r, c, val);
                    proof {
                        lemma_join_tracks(d0, dsu, active@, dead0, dead@, prev, idx as int, n_idx as int, r, c, val);
                        lemma_merge_joined(grid@, w as int, d0, dsu, active@, dead0, dead@, r, c, dr as int, dc as int, val);
                    }
                } else {
                    proof {
                        lemma_joined_skip(grid@, w as int, dsu, active@, r as int, c as int, dr as int, dc as int);
                    }
                }
                dc = dc + 1;
            }
            dr = dr + 1;
        }
        proof {
            let nf: u64 = if t + 1 < cells@.len() {
                (u64::MAX - cells@[t + 1].0) as u64
            } else {
                0u64
            };
            if t + 1 < cells@.len() {
                assert(cell_le(cells@[t as int], cells@[t + 1]));
            }
            assert(nf <= val);
            lemma_inv_lower_floor(grid@, w as int, dsu, active@, dead@, val, nf);
            lemma_visit_end(grid@, w as int, dsu, active@, dead@, r as int, c as int);
        }
        t = t + 1;
    }
    (dsu, active, dead)
}

/// Sweeps the grid from the highest key down, merging each cell with its
/// already-swept 8-neighbours. Returns `None` for an empty, ragged or
/// oversized (more than 256 rows or columns) grid; otherwise the cell of the
/// surviving global peak and the peaks that died, in the order they died
/// (`persistence_pairs`: neighbours are met row by row, from the row above).
/// As the grid is connected, every cell but the global peak dies exactly
/// once (most of them on arrival, with persistence zero).
pub fn morse_pairs(grid: &Vec<Vec<u64>>) -> (res: Option<((usize, usize), Vec<DeadPeak>)>)
    ensures
        res.is_none() <==> !valid_shape(grid@),
        match res {
            Some((g, dead)) => {
                &&& in_grid(grid@, g.0 as int, g.1 as int)
                &&& forall|r: int, c: int|
                    in_grid(grid@, r, c) ==> key_at(grid@, g.0 as int, g.1 as int) >= #[trigger] key_at(
                        grid@,
                        r,
                        c,
                    )
                &&& forall|a: int| 0 <= a < dead@.len() ==> dead_peak_ok(grid@, #[trigger] dead@[a])
                &&& forall|a: int|
                    0 <= a < dead@.len() ==> ((#[trigger] dead@[a]).delay, dead@[a].doppler) != g
                &&& forall|a: int, b: int|
                    0 <= a < b < dead@.len() ==> ((#[trigger] dead@[a]).delay, dead@[a].doppler) != (
                        (#[trigger] dead@[b]).delay,
                        dead@[b].doppler,
                    )
                &&& dead@ == persistence_pairs(grid@)
                &&& forall|r: int, c: int|
                    in_grid(grid@, r, c) && (r, c) != (g.0 as int, g.1 as int) ==> exists|a: int|
                        0 <= a < dead@.len() && (#[trigger] dead@[a]).delay == r && dead@[a].doppler == c
            },
            None => true,
        },
{
    let h = grid.len();
    if h == 0 {
        return None;
    }
    let w = grid[0].len();
    if w == 0 || h > 256 || w > 256 {
        return None;
    }
    let mut r: usize = 0;
    while r < h
        invariant
            h == grid@.len(),
            w == grid@[0]@.len(),
            r <= h,
            forall|q: int| 0 <= q < r ==> (#[trigger] grid@[q]@).len() == w,
        decreases h - r,
    {
        if grid[r].len() != w {
            return None;
        }
        r = r + 1;
    }
    assert(valid_shape(grid@));

    let cells = sweep_cells(grid, h, w);

    let (mut dsu, active, dead) = run_sweep(grid, &cells, h, w);
    let first = cells[0];
    let top_key: u64 = u64::MAX - first.0;
    proof {
        assert(active@[node(w as int, cells@[0].1 as int, cells@[0].2 as int)]);
    }
    assert(first.1 * w + first.2 < h * w) by (nonlinear_arith)
        requires first.1 < h, first.2 < w;
    let first_idx = first.1 * w + first.2;
    let ghost d_end = dsu;
    let g = dsu.find(first_idx);
    proof {
        d_end.lemma_roots(first_idx as int);
    }
    let g_at = dsu.peak_coords_of(g);
    proof {
        let gi = g as int;
        assert(active@[gi]);
        assert(dsu.keys()[gi] >= dsu.keys()[first_idx as int]);
        assert(dsu.keys()[first_idx as int] == top_key) by {
            let at = dsu.coords()[first_idx as int];
            lemma_node_unique(w as int, at.0 as int, at.1 as int, first.1 as int, first.2 as int);
        }
        assert forall|rr: int, cc: int| in_grid(grid@, rr, cc) implies key_at(grid@, g_at.0 as int, g_at.1 as int) >= #[trigger] key_at(grid@, rr, cc) by {
            let x = ((u64::MAX - key_at(grid@, rr, cc)) as u64, rr as usize, cc as usize);
            assert(cells@.contains(x));
            let q = choose|q: int| 0 <= q < cells@.len() && cells@[q] == x;
            if q > 0 {
                assert(cell_le(cells@[0], cells@[q]));
            }
        }
        assert(forall|rr: int, cc: int|
            in_grid(grid@, rr, cc) && (rr, cc) != (g_at.0 as int, g_at.1 as int) ==> exists|a: int|
                0 <= a < dead@.len() && (#[trigger] dead@[a]).delay == rr && dead@[a].doppler == cc) by {
            lemma_all_swept(grid@, w as int, cells@, active@);
            lemma_all_but_peak_die(grid@, w as int, d_end, active@, dead@, first.1 as int, first.2 as int, gi, g_at);
        }
        assert forall|q: int| 0 <= q < dead@.len() implies ((#[trigger] dead@[q]).delay, dead@[q].doppler) != g_at by {
            let m = node(w as int, dead@[q].delay as int, dead@[q].doppler as int);
            assert(d_end.root(m) != m);
            assert(dsu.root(m) == d_end.root(m));
            dsu.lemma_roots(first_idx as int);
            if (dead@[q].delay, dead@[q].doppler) == g_at {
                assert(m == gi);
            }
        }
        assert forall|a: int, b: int|
            0 <= a < b < dead@.len() implies ((#[trigger] dead@[a]).delay, dead@[a].doppler) != (
                (#[trigger] dead@[b]).delay,
                dead@[b].doppler,
            ) by {
            assert(node(w as int, dead@[a].delay as int, dead@[a].doppler as int) != node(w as int, dead@[b].delay as int, dead@[b].doppler as int));
        }
    }
    assert(dead@ == persistence_pairs(grid@));
    Some((g_at, dead))
}

/// One step of `merge_neighbor`, seen on the abstract state, is `join_at`.
proof fn lemma_join_tracks(
    d0: Dsu,
    d1: Dsu,
    active: Seq<bool>,
    dead0: Seq<DeadPeak>,
    dead1: Seq<DeadPeak>,
    s: SweepState,
    i: int,
    j: int,
    r: usize,
    c: usize,
    val: u64,
)
    requires
        tracks(d0, active, dead0, s),
        d0.wf(),
        0 <= i < d0.size(),
        0 <= j < d0.size(),
        merge_effect(d0, d1, active, dead0, dead1, i, j, (r, c), val),
    ensures
        tracks(d1, active, dead1, join_at(s, i, j, (r, c), val)),
{
    assert(d0.root(i) == s.root[i]);
    assert(d0.root(j) == s.root[j]);
    let s2 = join_at(s, i, j, (r, c), val);
    assert forall|k: int| 0 <= k < d1.size() implies #[trigger] d1.root(k) == s2.root[k] by {
        assert(d0.root(k) == s.root[k]);
    }
}

/// Row-major node numbering is injective on in-range columns.
proof fn lemma_node_unique(w: int, r1: int, c1: int, r2: int, c2: int)
    requires
        0 <= c1 < w,
        0 <= c2 < w,
        0 <= r1,
        0 <= r2,
        node(w, r1, c1) == node(w, r2, c2),
    ensures
        r1 == r2,
        c1 == c2,
{
    assert(r1 == r2 && c1 == c2) by (nonlinear_arith)
        requires
            0 <= c1 < w,
            0 <= c2 < w,
            0 <= r1,
            0 <= r2,
            r1 * w + c1 == r2 * w + c2,
    {
        if r1 < r2 {
            assert(r1 * w + w <= r2 * w);
        } else if r2 < r1 {
            assert(r2 * w + w <= r1 * w);
        }
    }
}

} // verus!
