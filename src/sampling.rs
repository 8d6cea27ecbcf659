use vstd::prelude::*;
use std::collections::HashSet;

use crate::coordinate::{sq_dist, Coordinate};

verus! {

/// Why a sampler refused its parameters.
#[derive(Debug, Clone, Copy, PartialEq, Eq, Structural)]
pub enum SamplingError {
    /// Grid sampling was asked for cells of side length zero.
    ZeroCellSize,
}

// ---------------------------------------------------------------------------
// Farthest-point sampling
// ---------------------------------------------------------------------------

/// Squared distance from point `i` to the nearest of the selected points `sel`.
pub open spec fn nearest_sq_dist(pts: Seq<Coordinate>, sel: Seq<int>, i: int) -> int
    decreases sel.len(),
{
    if sel.len() <= 1 {
        sq_dist(pts[i], pts[sel[0]])
    } else {
        let a = nearest_sq_dist(pts, sel.drop_last(), i);
        let b = sq_dist(pts[i], pts[sel.last()]);
        if a <= b { a } else { b }
    }
}

/// `r` is the next point chosen after `sel`: an unselected index whose distance to the
/// selection is largest, the first such index in input order.
pub open spec fn is_next_pick(pts: Seq<Coordinate>, sel: Seq<int>, r: int) -> bool {
    &&& 0 <= r < pts.len()
    &&& !sel.contains(r)
    &&& forall|j: int|
        0 <= j < pts.len() && !sel.contains(j) ==> #[trigger] nearest_sq_dist(pts, sel, j)
            <= nearest_sq_dist(pts, sel, r)
    &&& forall|j: int|
        0 <= j < r && !sel.contains(j) ==> #[trigger] nearest_sq_dist(pts, sel, j)
            < nearest_sq_dist(pts, sel, r)
}

/// The first `n` indices chosen by farthest-point sampling: the last point seeds the
/// selection, and each later pick is the `is_next_pick` of those before it.
pub open spec fn fps_picks(pts: Seq<Coordinate>, n: nat) -> Seq<int>
    decreases n,
{
    if n == 0 {
        seq![]
    } else if n == 1 {
        seq![pts.len() - 1]
    } else {
        let prev = fps_picks(pts, (n - 1) as nat);
        prev.push(choose|r: int| is_next_pick(pts, prev, r))
    }
}

/// Indices of the points that farthest-point sampling keeps: all of them, in order,
/// when there are no more than `n`.
pub open spec fn fps_indices(pts: Seq<Coordinate>, n: nat) -> Seq<int> {
    if pts.len() <= n {
        Seq::new(pts.len(), |i: int| i)
    } else {
        fps_picks(pts, n)
    }
}

/// Two indices that both satisfy `is_next_pick` are the same index: each pick, and so
/// the whole selection, is determined by the input alone.
pub proof fn lemma_next_pick_unique(pts: Seq<Coordinate>, sel: Seq<int>, r1: int, r2: int)
    requires
        is_next_pick(pts, sel, r1),
        is_next_pick(pts, sel, r2),
    ensures
        r1 == r2,
{
    if r1 < r2 {
        assert(nearest_sq_dist(pts, sel, r1) < nearest_sq_dist(pts, sel, r2));
        assert(nearest_sq_dist(pts, sel, r2) <= nearest_sq_dist(pts, sel, r1));
    } else if r2 < r1 {
        assert(nearest_sq_dist(pts, sel, r2) < nearest_sq_dist(pts, sel, r1));
        assert(nearest_sq_dist(pts, sel, r1) <= nearest_sq_dist(pts, sel, r2));
    }
}

/// A selection of fewer than `m` distinct indices below `m` leaves some index out.
proof fn lemma_unselected_exists(sel: Seq<int>, m: int) -> (i: int)
    requires
        sel.no_duplicates(),
        sel.len() < m,
        forall|k: int| 0 <= k < sel.len() ==> 0 <= #[trigger] sel[k] < m,
    ensures
        0 <= i < m,
        !sel.contains(i),
{
    let s = sel.to_set();
    sel.unique_seq_to_set();
    let range = Set::new(|i: int| 0 <= i < m);
    vstd::set_lib::lemma_int_range(0, m);
    assert(range =~= vstd::set_lib::set_int_range(0, m));
    assert(s.subset_of(range));
    if forall|i: int| 0 <= i < m ==> sel.contains(i) {
        assert(range.subset_of(s));
        vstd::set_lib::lemma_len_subset(range, s);
        assert(false);
    }
    choose|i: int| 0 <= i < m && !sel.contains(i)
}

/// The first index, among those not yet selected, whose distance is largest; `len` when
/// every index is selected.
fn farthest_unselected(selected: &Vec<bool>, dist: &Vec<u128>) -> (best: usize)
    requires
        selected@.len() == dist@.len(),
    ensures
        best <= dist@.len(),
        best < dist@.len() ==> !selected@[best as int],
        best == dist@.len() ==> forall|k: int| 0 <= k < dist@.len() ==> #[trigger] selected@[k],
        best < dist@.len() ==> forall|k: int|
            0 <= k < dist@.len() && !selected@[k] ==> #[trigger] dist@[k] <= dist@[best as int],
        best < dist@.len() ==> forall|k: int|
            0 <= k < best && !selected@[k] ==> #[trigger] dist@[k] < dist@[best as int],
{
    let m = dist.len();
    let mut best: usize = m;
    let mut j: usize = 0;
    while j < m
        invariant
            j <= m,
            selected@.len() == m,
            dist@.len() == m,
            best == m || (best < j && !selected@[best as int]),
            best == m ==> forall|k: int| 0 <= k < j ==> #[trigger] selected@[k],
            best < m ==> forall|k: int|
                0 <= k < j && !selected@[k] ==> #[trigger] dist@[k] <= dist@[best as int],
            best < m ==> forall|k: int|
                0 <= k < best && !selected@[k] ==> #[trigger] dist@[k] < dist@[best as int],
        decreases m - j,
    {
        if !selected[j] && (best == m || dist[j] > dist[best]) {
            best = j;
        }
        j += 1;
    }
    best
}

/// Indices, into `pts`, of the points that farthest-point sampling keeps. With no more than
/// `n` points every index is kept, in order. Otherwise the last point seeds the selection,
/// and each further pick is an unselected point whose squared distance to its nearest
/// selected point is largest, the first such in input order, until `n` are chosen.
pub fn farthest_point_indices(pts: &Vec<Coordinate>, n: u32) -> (r: Vec<usize>)
    ensures
        r@.map_values(|i: usize| i as int) == fps_indices(pts@, n as nat),
        r@.len() == if pts@.len() <= n { pts@.len() as int } else { n as int },
        r@.no_duplicates(),
        forall|k: int| 0 <= k < r@.len() ==> #[trigger] r@[k] < pts@.len(),
        pts@.len() > n && n >= 1 ==> r@[0] == pts@.len() - 1,
{
    let m = pts.len();
    if m <= n as usize {
        let mut all: Vec<usize> = Vec::with_capacity(m);
        let mut i: usize = 0;
        while i < m
            invariant
                i <= m,
                m == pts@.len(),
                all@ == Seq::new(i as nat, |k: int| k as usize),
            decreases m - i,
        {
            all.push(i);
            i += 1;
        }
        assert(all@.map_values(|i: usize| i as int) =~= fps_indices(pts@, n as nat));
        return all;
    }
    if n == 0 {
        let none: Vec<usize> = Vec::new();
        assert(none@.map_values(|i: usize| i as int) =~= fps_indices(pts@, n as nat));
        return none;
    }
    let seed = m - 1;
    let mut selected: Vec<bool> = Vec::with_capacity(m);
    let mut dist: Vec<u128> = Vec::with_capacity(m);
    let mut i: usize = 0;
    while i < m
        invariant
            i <= m,
            m == pts@.len(),
            seed == m - 1,
            selected@.len() == i,
            dist@.len() == i,
            forall|k: int| 0 <= k < i ==> #[trigger] selected@[k] == (k == seed),
            forall|k: int|
                0 <= k < i ==> #[trigger] dist@[k] == nearest_sq_dist(pts@, seq![seed as int], k),
        decreases m - i,
    {
        selected.push(i == seed);
        dist.push(pts[i].distance_squared(&pts[seed]));
        i += 1;
    }
    let mut picks: Vec<usize> = Vec::with_capacity(n as usize);
    picks.push(seed);
    let ghost mut sel: Seq<int> = seq![seed as int];
    assert(picks@.map_values(|i: usize| i as int) =~= sel);
    assert(sel == fps_picks(pts@, 1));
    assert forall|k: int| 0 <= k < m implies #[trigger] selected@[k] == sel.contains(k) by {
        if k == seed {
            assert(sel[0] == k);
        }
    }
    while picks.len() < n as usize
        invariant
            m == pts@.len(),
            (n as int) < m,
            1 <= picks@.len() <= n,
            sel == picks@.map_values(|i: usize| i as int),
            sel == fps_picks(pts@, picks@.len() as nat),
            sel[0] == m - 1,
            picks@.no_duplicates(),
            forall|k: int| 0 <= k < picks@.len() ==> #[trigger] picks@[k] < m,
            selected@.len() == m,
            dist@.len() == m,
            forall|k: int| 0 <= k < m ==> #[trigger] selected@[k] == sel.contains(k),
            forall|k: int| 0 <= k < m ==> #[trigger] dist@[k] == nearest_sq_dist(pts@, sel, k),
        decreases n - picks@.len(),
    {
        proof {
            assert(sel.no_duplicates()) by {
                assert forall|a: int, b: int|
                    0 <= a < b < sel.len() implies sel[a] != sel[b] by {
                    assert(picks@[a] != picks@[b]);
                }
            }
            let u = lemma_unselected_exists(sel, m as int);
            assert(!selected@[u]);
        }
        let best = farthest_unselected(&selected, &dist);
        proof {
            let u = choose|u: int| 0 <= u < m && !selected@[u];
            assert(best < m);
            assert forall|q: int|
                0 <= q < pts@.len() && !sel.contains(q) implies #[trigger] nearest_sq_dist(pts@, sel, q)
                    <= nearest_sq_dist(pts@, sel, best as int) by {
                assert(!selected@[q]);
                assert(dist@[q] <= dist@[best as int]);
            }
            assert forall|q: int|
                0 <= q < best && !sel.contains(q) implies #[trigger] nearest_sq_dist(pts@, sel, q)
                    < nearest_sq_dist(pts@, sel, best as int) by {
                assert(!selected@[q]);
                assert(dist@[q] < dist@[best as int]);
            }
            assert(!selected@[best as int]);
            assert(is_next_pick(pts@, sel, best as int));
            let r = choose|r: int| is_next_pick(pts@, sel, r);
            lemma_next_pick_unique(pts@, sel, r, best as int);
        }
        let ghost old_sel = sel;
        let ghost old_picks = picks@;
        picks.push(best);
        proof {
            assert forall|a: int, b: int|
                0 <= a < b < picks@.len() implies picks@[a] != picks@[b] by {
                if b == picks@.len() - 1 {
                    assert(old_sel[a] == old_picks[a] as int);
                    assert(!old_sel.contains(best as int));
                } else {
                    assert(old_picks[a] != old_picks[b]);
                }
            }
        }
        selected.set(best, true);
        proof {
            sel = sel.push(best as int);
            assert(picks@.map_values(|i: usize| i as int) =~= sel);
            assert(sel.drop_last() == old_sel);
        }
        let mut k: usize = 0;
        while k < m
            invariant
                k <= m,
                m == pts@.len(),
                best < m,
                sel.len() >= 2,
                sel.last() == best,
                dist@.len() == m,
                forall|q: int| 0 <= q < k ==> #[trigger] dist@[q] == nearest_sq_dist(pts@, sel, q),
                forall|q: int|
                    k <= q < m ==> #[trigger] dist@[q] == nearest_sq_dist(pts@, sel.drop_last(), q),
            decreases m - k,
        {
            let d = pts[k].distance_squared(&pts[best]);
            if d < dist[k] {
                dist.set(k, d);
            }
            k += 1;
        }
        proof {
            assert forall|q: int| 0 <= q < m implies #[trigger] selected@[q] == sel.contains(q) by {
                if q == best {
                    assert(sel[sel.len() - 1] == q);
                } else {
                    assert(sel.contains(q) == old_sel.contains(q)) by {
                        if sel.contains(q) {
                            let w = choose|w: int| 0 <= w < sel.len() && sel[w] == q;
                            assert(old_sel[w] == q);
                        }
                    }
                }
            }
        }
    }
    picks
}

/// The points that farthest-point sampling keeps, in the order in which they are picked
/// (see `farthest_point_indices`); all of `pts`, unchanged, when there are no more than `n`.
pub fn farthest_point_sampling(pts: &Vec<Coordinate>, n: u32) -> (r: Vec<Coordinate>)
    ensures
        r@ == fps_indices(pts@, n as nat).map_values(|i: int| pts@[i]),
        pts@.len() <= n ==> r@ == pts@,
        r@.len() == if pts@.len() <= n { pts@.len() as int } else { n as int },
        pts@.len() > n && n >= 1 ==> r@[0] == pts@.last(),
{
    let idx = farthest_point_indices(pts, n);
    let mut out: Vec<Coordinate> = Vec::with_capacity(idx.len());
    let mut i: usize = 0;
    while i < idx.len()
        invariant
            i <= idx@.len(),
            forall|k: int| 0 <= k < idx@.len() ==> #[trigger] idx@[k] < pts@.len(),
            out@ == idx@.take(i as int).map_values(|q: usize| pts@[q as int]),
        decreases idx@.len() - i,
    {
        out.push(pts[idx[i]]);
        proof {
            assert(idx@.take(i as int + 1) =~= idx@.take(i as int).push(idx@[i as int]));
        }
        i += 1;
    }
    proof {
        assert(idx@.take(idx@.len() as int) =~= idx@);
        let f = |i: int| pts@[i];
        assert(out@ =~= fps_indices(pts@, n as nat).map_values(f)) by {
            assert forall|k: int| 0 <= k < out@.len() implies out@[k]
                == fps_indices(pts@, n as nat).map_values(f)[k] by {
                assert(idx@.map_values(|i: usize| i as int)[k] == idx@[k] as int);
            }
        }
        if pts@.len() <= n {
            assert(out@ =~= pts@);
        }
    }
    out
}

// ---------------------------------------------------------------------------
// Grid sampling
// ---------------------------------------------------------------------------

/// The grid cell that holds `c`, for square cells of side `cell`.
pub open spec fn cell_of(c: Coordinate, cell: int) -> (int, int) {
    (c.x as int / cell, c.y as int / cell)
}

/// Grid sampling of `pts`: each point whose cell no earlier point occupies, in input order.
pub open spec fn grid_spec(pts: Seq<Coordinate>, cell: int) -> Seq<Coordinate>
    decreases pts.len(),
{
    if pts.len() == 0 {
        seq![]
    } else {
        let prev = grid_spec(pts.drop_last(), cell);
        if exists|j: int|
            0 <= j < pts.len() - 1 && #[trigger] cell_of(pts[j], cell) == cell_of(pts.last(), cell) {
            prev
        } else {
            prev.push(pts.last())
        }
    }
}

/// What grid sampling returns: `pts` unchanged when there are no more points than `cell`,
/// else `grid_spec`.
pub open spec fn grid_sampling_spec(pts: Seq<Coordinate>, cell: int) -> Seq<Coordinate> {
    if pts.len() <= cell {
        pts
    } else {
        grid_spec(pts, cell)
    }
}

/// Some point of `g` lies in the cell of `c`.
pub open spec fn cell_taken(g: Seq<Coordinate>, c: Coordinate, cell: int) -> bool {
    exists|k: int| 0 <= k < g.len() && #[trigger] cell_of(g[k], cell) == cell_of(c, cell)
}

/// No two points that grid sampling keeps share a cell; every occupied cell keeps one
/// point; and every point kept is one of the input's.
pub proof fn lemma_grid_cells_distinct(pts: Seq<Coordinate>, cell: int)
    ensures
        forall|k: int| 0 <= k < grid_spec(pts, cell).len() ==> pts.contains(#[trigger] grid_spec(pts, cell)[k]),
        forall|j: int| 0 <= j < pts.len() ==> cell_taken(grid_spec(pts, cell), #[trigger] pts[j], cell),
        forall|a: int, b: int|
            0 <= a < b < grid_spec(pts, cell).len() ==> cell_of(#[trigger] grid_spec(pts, cell)[a], cell)
                != cell_of(#[trigger] grid_spec(pts, cell)[b], cell),
    decreases pts.len(),
{
    if pts.len() > 0 {
        let init = pts.drop_last();
        lemma_grid_cells_distinct(init, cell);
        let prev = grid_spec(init, cell);
        let g = grid_spec(pts, cell);
        assert forall|k: int| 0 <= k < g.len() implies pts.contains(#[trigger] g[k]) by {
            if k < prev.len() {
                assert(g[k] == prev[k]);
                let w = choose|w: int| 0 <= w < init.len() && init[w] == prev[k];
                assert(pts[w] == g[k]);
            } else {
                assert(pts[pts.len() - 1] == g[k]);
            }
        }
        assert forall|j: int| 0 <= j < pts.len() implies cell_taken(g, #[trigger] pts[j], cell) by {
            if j < pts.len() - 1 {
                assert(pts[j] == init[j]);
                assert(cell_taken(prev, init[j], cell));
                let k = choose|k: int|
                    0 <= k < prev.len() && #[trigger] cell_of(prev[k], cell) == cell_of(init[j], cell);
                assert(g[k] == prev[k]);
            } else if exists|i: int|
                0 <= i < pts.len() - 1 && #[trigger] cell_of(pts[i], cell) == cell_of(pts.last(), cell) {
                let i = choose|i: int|
                    0 <= i < pts.len() - 1 && #[trigger] cell_of(pts[i], cell) == cell_of(pts.last(), cell);
                assert(pts[i] == init[i]);
                assert(cell_taken(prev, init[i], cell));
                let k = choose|k: int|
                    0 <= k < prev.len() && #[trigger] cell_of(prev[k], cell) == cell_of(init[i], cell);
                assert(g[k] == prev[k]);
            } else {
                assert(g[g.len() - 1] == pts[j]);
            }
        }
        assert forall|a: int, b: int| 0 <= a < b < g.len() implies cell_of(#[trigger] g[a], cell)
            != cell_of(#[trigger] g[b], cell) by {
            if b < prev.len() {
                assert(g[a] == prev[a] && g[b] == prev[b]);
            } else {
                assert(g[a] == prev[a]);
                assert(g[b] == pts.last());
                let w = choose|w: int| 0 <= w < init.len() && init[w] == prev[a];
                assert(pts[w] == init[w]);
                assert(cell_of(pts[w], cell) != cell_of(pts.last(), cell));
            }
        }
    }
}

/// One `u64` per grid cell, distinct for distinct cells.
spec fn cell_key(c: Coordinate, cell: int) -> int {
    (c.x as int / cell) * 0x1_0000_0000 + c.y as int / cell
}

proof fn lemma_cell_key_injective(a: Coordinate, b: Coordinate, cell: int)
    requires
        cell >= 1,
    ensures
        (cell_key(a, cell) == cell_key(b, cell)) == (cell_of(a, cell) == cell_of(b, cell)),
{
    let (ax, ay, bx, by) = (a.x as int / cell, a.y as int / cell, b.x as int / cell, b.y as int / cell);
    assert(0 <= ay < 0x1_0000_0000 && 0 <= by < 0x1_0000_0000 && ax >= 0 && bx >= 0) by {
        vstd::arithmetic::div_mod::lemma_div_is_ordered_by_denominator(a.y as int, 1, cell);
        vstd::arithmetic::div_mod::lemma_div_is_ordered_by_denominator(b.y as int, 1, cell);
        vstd::arithmetic::div_mod::lemma_div_pos_is_pos(a.x as int, cell);
        vstd::arithmetic::div_mod::lemma_div_pos_is_pos(b.x as int, cell);
        vstd::arithmetic::div_mod::lemma_div_pos_is_pos(a.y as int, cell);
        vstd::arithmetic::div_mod::lemma_div_pos_is_pos(b.y as int, cell);
    }
    if ax * 0x1_0000_0000 + ay == bx * 0x1_0000_0000 + by {
        assert(ax == bx && ay == by) by (nonlinear_arith)
            requires
                ax * 0x1_0000_0000 + ay == bx * 0x1_0000_0000 + by,
                0 <= ay < 0x1_0000_0000,
                0 <= by < 0x1_0000_0000,
        ;
    }
}

/// Grid sampling: with no more points than `cell`, all of `pts`, unchanged; otherwise each
/// point whose cell (`x / cell`, `y / cell`) no earlier point occupies, in input order.
/// Cells of side zero are refused.
pub fn grid_sampling(pts: &Vec<Coordinate>, cell: u32) -> (r: Result<Vec<Coordinate>, SamplingError>)
    ensures
        cell == 0 <==> r is Err,
        r is Err ==> r == Err::<Vec<Coordinate>, SamplingError>(SamplingError::ZeroCellSize),
        r is Ok ==> r->Ok_0@ == grid_sampling_spec(pts@, cell as int),
        pts@.len() > cell && r is Ok ==> forall|a: int, b: int|
            0 <= a < b < r->Ok_0@.len() ==> cell_of(#[trigger] r->Ok_0@[a], cell as int)
                != cell_of(#[trigger] r->Ok_0@[b], cell as int),
{
    broadcast use vstd::std_specs::hash::group_hash_axioms;

    if cell == 0 {
        return Err(SamplingError::ZeroCellSize);
    }
    let m = pts.len();
    if m <= cell as usize {
        let mut all: Vec<Coordinate> = Vec::with_capacity(m);
        let mut i: usize = 0;
        while i < m
            invariant
                i <= m,
                m == pts@.len(),
                all@ == pts@.take(i as int),
            decreases m - i,
        {
            all.push(pts[i]);
            proof {
                assert(pts@.take(i as int + 1) =~= pts@.take(i as int).push(pts@[i as int]));
            }
            i += 1;
        }
        assert(pts@.take(m as int) =~= pts@);
        return Ok(all);
    }
    let mut seen: HashSet<u64> = HashSet::new();
    let mut out: Vec<Coordinate> = Vec::new();
    let mut i: usize = 0;
    while i < m
        invariant
            i <= m,
            m == pts@.len(),
            cell >= 1,
            out@ == grid_spec(pts@.take(i as int), cell as int),
            forall|k: u64|
                seen@.contains(k) <==> exists|j: int|
                    0 <= j < i && #[trigger] cell_key(pts@[j], cell as int) == k as int,
        decreases m - i,
    {
        let p = pts[i];
        let cx: u64 = (p.x / cell) as u64;
        let cy: u64 = (p.y / cell) as u64;
        assert(cx < 0x1_0000_0000 && cy < 0x1_0000_0000) by {
            vstd::arithmetic::div_mod::lemma_div_is_ordered_by_denominator(p.x as int, 1, cell as int);
            vstd::arithmetic::div_mod::lemma_div_is_ordered_by_denominator(p.y as int, 1, cell as int);
        }
        let key: u64 = cx * 0x1_0000_0000 + cy;
        let ghost pre = pts@.take(i as int + 1);
        proof {
            assert(pre.drop_last() =~= pts@.take(i as int));
            assert(pre.last() == p);
            assert(key as int == cell_key(p, cell as int));
            assert(seen@.contains(key) == exists|j: int|
                0 <= j < pre.len() - 1 && #[trigger] cell_of(pre[j], cell as int) == cell_of(pre.last(), cell as int)) by {
                if seen@.contains(key) {
                    let j = choose|j: int| 0 <= j < i && #[trigger] cell_key(pts@[j], cell as int) == key as int;
                    lemma_cell_key_injective(pts@[j], p, cell as int);
                    assert(pre[j] == pts@[j]);
                }
                if exists|j: int|
                    0 <= j < pre.len() - 1 && #[trigger] cell_of(pre[j], cell as int) == cell_of(pre.last(), cell as int) {
                    let j = choose|j: int|
                        0 <= j < pre.len() - 1 && #[trigger] cell_of(pre[j], cell as int) == cell_of(pre.last(), cell as int);
                    lemma_cell_key_injective(pre[j], p, cell as int);
                    assert(pre[j] == pts@[j]);
                }
            }
        }
        if !seen.contains(&key) {
            seen.insert(key);
            out.push(p);
        }
        proof {
            assert forall|k: u64|
                seen@.contains(k) <==> exists|j: int|
                    0 <= j < i + 1 && #[trigger] cell_key(pts@[j], cell as int) == k as int by {
                if k == key {
                } else if seen@.contains(k) {
                } else {
                    if exists|j: int| 0 <= j < i + 1 && #[trigger] cell_key(pts@[j], cell as int) == k as int {
                        let j = choose|j: int| 0 <= j < i + 1 && #[trigger] cell_key(pts@[j], cell as int) == k as int;
                        assert(j != i);
                    }
                }
            }
        }
        i += 1;
    }
    assert(pts@.take(m as int) =~= pts@);
    proof {
        lemma_grid_cells_distinct(pts@, cell as int);
    }
    Ok(out)
}

} // verus!
