//! What holds of every run: placements sit on their lattices and never overlap, every
//! cell ends up tiled, and a run is fixed by the decisions it reads.
use vstd::prelude::*;

use crate::grid::{
    all_free, anchor_col, anchor_count, anchor_row, anchors_across, large_footprint, large_legal,
    lemma_footprint_in_grid, mark, med_footprint, med_legal,
};
use crate::planner::{
    after_large_and_med, decision, document_svg, initial_state, large_pass, large_step, med_pass,
    med_step, plan, small_pass, small_step, PlanState,
};

verus! {

/// The large tile at anchor `k` is placed: the anchor is legal and the decision says yes.
pub open spec fn large_placed(width: nat, ds: Seq<bool>, k: nat, st: PlanState) -> bool {
    large_legal(width, st.grid, k) && decision(ds, st.used)
}

/// The medium tile at anchor `k` is placed.
pub open spec fn med_placed(width: nat, ds: Seq<bool>, k: nat, st: PlanState) -> bool {
    med_legal(width, st.grid, k) && decision(ds, st.used)
}

/// Number of free cells at index `k` or beyond.
pub open spec fn free_from(grid: Seq<bool>, k: nat) -> nat
    decreases grid.len() - k,
{
    if k < grid.len() {
        free_from(grid, k + 1) + if grid[k as int] {
            0nat
        } else {
            1nat
        }
    } else {
        0
    }
}

/// A large tile is placed only at an anchor on the lattice of spacing four, only where
/// all sixteen of its cells are free, and placing it occupies exactly those cells; an
/// anchor that is not placed leaves the grid as it was.
pub proof fn lemma_large_placement(width: nat, ds: Seq<bool>, k: nat, st: PlanState)
    ensures
        ({
            let next = large_step(width, ds, k, st);
            let n = anchors_across(width, 4);
            &&& large_placed(width, ds, k, st) ==> {
                &&& anchor_row(k, n) % 4 == 0
                &&& anchor_col(k, n) % 4 == 0
                &&& all_free(st.grid, large_footprint(width, k))
                &&& next.grid == mark(st.grid, large_footprint(width, k))
            }
            &&& !large_placed(width, ds, k, st) ==> next.grid == st.grid
        }),
{
}

/// A medium tile is placed only at an anchor on the lattice of spacing two, only where
/// all four of its cells are free, and placing it occupies exactly those cells; an anchor
/// that is not placed leaves the grid as it was.
pub proof fn lemma_med_placement(width: nat, ds: Seq<bool>, k: nat, st: PlanState)
    ensures
        ({
            let next = med_step(width, ds, k, st);
            let n = anchors_across(width, 2);
            &&& med_placed(width, ds, k, st) ==> {
                &&& anchor_row(k, n) % 2 == 0
                &&& anchor_col(k, n) % 2 == 0
                &&& all_free(st.grid, med_footprint(width, k))
                &&& next.grid == mark(st.grid, med_footprint(width, k))
            }
            &&& !med_placed(width, ds, k, st) ==> next.grid == st.grid
        }),
{
}



/// `ds1` and `ds2` read the same for their first `n` decisions.
pub open spec fn agree(ds1: Seq<bool>, ds2: Seq<bool>, n: nat) -> bool {
    forall|i: nat| i < n ==> #[trigger] decision(ds1, i) == decision(ds2, i)
}

proof fn lemma_large_pass_grows(width: nat, ds: Seq<bool>, k: nat, st: PlanState)
    ensures
        large_pass(width, ds, k, st).used >= st.used,
        large_pass(width, ds, k, st).grid.len() == st.grid.len(),
        forall|i: int|
            0 <= i < st.grid.len() && st.grid[i] ==> #[trigger] large_pass(width, ds, k, st).grid[i],
    decreases (anchor_count(width, 4) - k) as nat,
{
    if k < anchor_count(width, 4) {
        lemma_large_pass_grows(width, ds, k + 1, large_step(width, ds, k, st));
    }
}

proof fn lemma_med_pass_grows(width: nat, ds: Seq<bool>, k: nat, st: PlanState)
    ensures
        med_pass(width, ds, k, st).used >= st.used,
        med_pass(width, ds, k, st).grid.len() == st.grid.len(),
        forall|i: int|
            0 <= i < st.grid.len() && st.grid[i] ==> #[trigger] med_pass(width, ds, k, st).grid[i],
    decreases anchor_count(width, 2) + 1 - k,
{
    if k < anchor_count(width, 2) {
        lemma_med_pass_grows(width, ds, k + 2, med_step(width, ds, k, st));
    }
}

/// The small pass leaves the grid as it is and reads exactly one decision for each free
/// cell from `k` on: each such cell gets its small tile.
pub proof fn lemma_small_pass_one_per_free_cell(width: nat, ds: Seq<bool>, k: nat, st: PlanState)
    requires
        st.grid.len() == width * width,
    ensures
        small_pass(width, ds, k, st).grid == st.grid,
        small_pass(width, ds, k, st).used == st.used + free_from(st.grid, k),
    decreases (width * width - k) as nat,
{
    if k < width * width {
        lemma_small_pass_one_per_free_cell(width, ds, k + 1, small_step(width, ds, k, st));
    }
}

/// The grid keeps its `width * width` cells through every pass, and the small pass leaves
/// it as it is while reading one decision, for one small tile, per cell that no large or
/// medium tile took.
pub proof fn lemma_every_cell_tiled(width: nat, ds: Seq<bool>)
    ensures
        after_large_and_med(width, ds).grid.len() == width * width,
        plan(width, ds).grid == after_large_and_med(width, ds).grid,
        plan(width, ds).used == after_large_and_med(width, ds).used + free_from(
            after_large_and_med(width, ds).grid,
            0,
        ),
{
    let large = large_pass(width, ds, 0, initial_state(width));
    lemma_large_pass_grows(width, ds, 0, initial_state(width));
    lemma_med_pass_grows(width, ds, 0, large);
    lemma_small_pass_one_per_free_cell(width, ds, 0, after_large_and_med(width, ds));
}

proof fn lemma_large_pass_prefix(width: nat, ds1: Seq<bool>, ds2: Seq<bool>, k: nat, st: PlanState)
    requires
        agree(ds1, ds2, large_pass(width, ds1, k, st).used),
    ensures
        large_pass(width, ds1, k, st) == large_pass(width, ds2, k, st),
    decreases (anchor_count(width, 4) - k) as nat,
{
    if k < anchor_count(width, 4) {
        let next = large_step(width, ds1, k, st);
        lemma_large_pass_grows(width, ds1, k + 1, next);
        if large_legal(width, st.grid, k) {
            assert(decision(ds1, st.used) == decision(ds2, st.used));
            if decision(ds1, st.used) {
                assert(decision(ds1, st.used + 1) == decision(ds2, st.used + 1));
            }
        }
        assert(next == large_step(width, ds2, k, st));
        lemma_large_pass_prefix(width, ds1, ds2, k + 1, next);
    }
}

proof fn lemma_med_pass_prefix(width: nat, ds1: Seq<bool>, ds2: Seq<bool>, k: nat, st: PlanState)
    requires
        agree(ds1, ds2, med_pass(width, ds1, k, st).used),
    ensures
        med_pass(width, ds1, k, st) == med_pass(width, ds2, k, st),
    decreases anchor_count(width, 2) + 1 - k,
{
    if k < anchor_count(width, 2) {
        let next = med_step(width, ds1, k, st);
        lemma_med_pass_grows(width, ds1, k + 2, next);
        if med_legal(width, st.grid, k) {
            assert(decision(ds1, st.used) == decision(ds2, st.used));
            if decision(ds1, st.used) {
                assert(decision(ds1, st.used + 1) == decision(ds2, st.used + 1));
            }
        }
        assert(next == med_step(width, ds2, k, st));
        lemma_med_pass_prefix(width, ds1, ds2, k + 2, next);
    }
}

proof fn lemma_small_pass_prefix(width: nat, ds1: Seq<bool>, ds2: Seq<bool>, k: nat, st: PlanState)
    requires
        st.grid.len() == width * width,
        agree(ds1, ds2, small_pass(width, ds1, k, st).used),
    ensures
        small_pass(width, ds1, k, st) == small_pass(width, ds2, k, st),
    decreases (width * width - k) as nat,
{
    if k < width * width {
        let next = small_step(width, ds1, k, st);
        lemma_small_pass_one_per_free_cell(width, ds1, k + 1, next);
        if !st.grid[k as int] {
            assert(decision(ds1, st.used) == decision(ds2, st.used));
        }
        assert(next == small_step(width, ds2, k, st));
        lemma_small_pass_prefix(width, ds1, ds2, k + 1, next);
    }
}

/// A run is fixed by the width and the decisions it reads: two decision sequences that
/// agree on every decision the first run reads give the same grid, the same count of
/// decisions read, and byte-identical markup.
pub proof fn lemma_same_decisions_same_run(width: nat, ds1: Seq<bool>, ds2: Seq<bool>)
    requires
        agree(ds1, ds2, plan(width, ds1).used),
    ensures
        plan(width, ds1) == plan(width, ds2),
        document_svg(width, plan(width, ds1).svg) == document_svg(width, plan(width, ds2).svg),
{
    let init = initial_state(width);
    let large = large_pass(width, ds1, 0, init);
    let med = med_pass(width, ds1, 0, large);
    lemma_large_pass_grows(width, ds1, 0, init);
    lemma_med_pass_grows(width, ds1, 0, large);
    lemma_small_pass_one_per_free_cell(width, ds1, 0, med);
    lemma_large_pass_prefix(width, ds1, ds2, 0, init);
    lemma_med_pass_prefix(width, ds1, ds2, 0, large);
    lemma_small_pass_prefix(width, ds1, ds2, 0, med);
}


/// No cell lies in both `a` and `b`.
pub open spec fn disjoint(a: Seq<int>, b: Seq<int>) -> bool {
    forall|i: int, j: int| 0 <= i < a.len() && 0 <= j < b.len() ==> a[i] != b[j]
}

/// No two footprints of `log` share a cell.
pub open spec fn pairwise_disjoint(log: Seq<Seq<int>>) -> bool {
    forall|p: int, q: int| 0 <= p < log.len() && 0 <= q < log.len() && p != q ==> disjoint(
        #[trigger] log[p],
        #[trigger] log[q],
    )
}

/// Every cell of `cells` is occupied.
pub open spec fn all_taken(grid: Seq<bool>, cells: Seq<int>) -> bool {
    forall|j: int| 0 <= j < cells.len() ==> grid[#[trigger] cells[j]]
}

/// The footprints of the large tiles that the large pass places from anchor `k` on, in
/// order of placement.
pub open spec fn large_log(width: nat, ds: Seq<bool>, k: nat, st: PlanState) -> Seq<Seq<int>>
    decreases (anchor_count(width, 4) - k) as nat,
{
    if k < anchor_count(width, 4) {
        let rest = large_log(width, ds, k + 1, large_step(width, ds, k, st));
        if large_placed(width, ds, k, st) {
            seq![large_footprint(width, k)] + rest
        } else {
            rest
        }
    } else {
        Seq::empty()
    }
}

/// The footprints of the medium tiles that the medium pass places from anchor `k` on.
pub open spec fn med_log(width: nat, ds: Seq<bool>, k: nat, st: PlanState) -> Seq<Seq<int>>
    decreases anchor_count(width, 2) + 1 - k,
{
    if k < anchor_count(width, 2) {
        let rest = med_log(width, ds, k + 2, med_step(width, ds, k, st));
        if med_placed(width, ds, k, st) {
            seq![med_footprint(width, k)] + rest
        } else {
            rest
        }
    } else {
        Seq::empty()
    }
}

/// Some footprint of `log` covers cell `i`.
pub open spec fn covered(log: Seq<Seq<int>>, i: int) -> bool {
    exists|p: int| 0 <= p < log.len() && #[trigger] log[p].contains(i)
}

/// The footprints of all large placements of a run, then those of all medium ones.
pub open spec fn placed_footprints(width: nat, ds: Seq<bool>) -> Seq<Seq<int>> {
    let init = initial_state(width);
    large_log(width, ds, 0, init) + med_log(width, ds, 0, large_pass(width, ds, 0, init))
}

/// Footprints that are all free in `grid`.
pub open spec fn all_free_in(grid: Seq<bool>, log: Seq<Seq<int>>) -> bool {
    forall|p: int| 0 <= p < log.len() ==> all_free(grid, #[trigger] log[p])
}

/// Footprints that are all occupied in `grid`.
pub open spec fn all_taken_in(grid: Seq<bool>, log: Seq<Seq<int>>) -> bool {
    forall|p: int| 0 <= p < log.len() ==> all_taken(grid, #[trigger] log[p])
}

/// Every cell of every footprint of `log` is a cell of a grid of `len` cells.
pub open spec fn cells_in(len: nat, log: Seq<Seq<int>>) -> bool {
    forall|p: int, j: int| 0 <= p < log.len() && 0 <= j < log[p].len() ==> 0 <= #[trigger] log[p][j] < len
}

proof fn lemma_prepend_disjoint(f: Seq<int>, rest: Seq<Seq<int>>)
    requires
        pairwise_disjoint(rest),
        forall|p: int| 0 <= p < rest.len() ==> disjoint(f, #[trigger] rest[p]),
    ensures
        pairwise_disjoint(seq![f] + rest),
{
    let log = seq![f] + rest;
    assert forall|p: int, q: int|
        0 <= p < log.len() && 0 <= q < log.len() && p != q implies disjoint(
        #[trigger] log[p],
        #[trigger] log[q],
    ) by {
        if p == 0 {
            assert(log[q] == rest[q - 1]);
            assert(disjoint(f, rest[q - 1]));
        } else if q == 0 {
            assert(log[p] == rest[p - 1]);
            assert(disjoint(f, rest[p - 1]));
        } else {
            assert(log[p] == rest[p - 1]);
            assert(log[q] == rest[q - 1]);
        }
    }
}

proof fn lemma_large_log(width: nat, ds: Seq<bool>, k: nat, st: PlanState)
    requires
        4 <= width,
        st.grid.len() == width * width,
    ensures
        cells_in(width * width, large_log(width, ds, k, st)),
        pairwise_disjoint(large_log(width, ds, k, st)),
        all_free_in(st.grid, large_log(width, ds, k, st)),
        all_taken_in(large_pass(width, ds, k, st).grid, large_log(width, ds, k, st)),
        forall|i: int|
            0 <= i < st.grid.len() && #[trigger] large_pass(width, ds, k, st).grid[i] ==> st.grid[i]
                || covered(large_log(width, ds, k, st), i),
    decreases (anchor_count(width, 4) - k) as nat,
{
    if k < anchor_count(width, 4) {
        let next = large_step(width, ds, k, st);
        let rest = large_log(width, ds, k + 1, next);
        let end = large_pass(width, ds, k + 1, next);
        lemma_large_log(width, ds, k + 1, next);
        lemma_large_pass_grows(width, ds, k + 1, next);
        if large_placed(width, ds, k, st) {
            let f = large_footprint(width, k);
            let log = seq![f] + rest;
            lemma_footprint_in_grid(width, 4, k);
            assert forall|p: int, j: int| 0 <= p < log.len() && 0 <= j < log[p].len() implies 0
                <= #[trigger] log[p][j] < width * width by {
                if p > 0 {
                    assert(log[p] == rest[p - 1]);
                }
            }
            assert forall|p: int| 0 <= p < rest.len() implies disjoint(f, #[trigger] rest[p]) by {
                assert forall|i: int, j: int|
                    0 <= i < f.len() && 0 <= j < rest[p].len() implies f[i] != rest[p][j] by {
                    assert(all_free(next.grid, rest[p]));
                    assert(!next.grid[rest[p][j]]);
                    if f[i] == rest[p][j] {
                        assert(f.contains(rest[p][j]));
                    }
                }
            }
            lemma_prepend_disjoint(f, rest);
            assert forall|p: int| 0 <= p < log.len() implies all_free(st.grid, #[trigger] log[p]) by {
                if p > 0 {
                    assert(log[p] == rest[p - 1]);
                    assert forall|j: int| 0 <= j < rest[p - 1].len() implies !st.grid[#[trigger] rest[p - 1][j]] by {
                        assert(all_free(next.grid, rest[p - 1]));
                        assert(!next.grid[rest[p - 1][j]]);
                    }
                }
            }
            assert forall|p: int| 0 <= p < log.len() implies all_taken(end.grid, #[trigger] log[p]) by {
                if p == 0 {
                    assert forall|j: int| 0 <= j < f.len() implies end.grid[#[trigger] f[j]] by {
                        assert(f.contains(f[j]));
                        assert(next.grid[f[j]]);
                    }
                } else {
                    assert(log[p] == rest[p - 1]);
                }
            }
            assert forall|i: int| 0 <= i < st.grid.len() && #[trigger] end.grid[i] implies st.grid[i]
                || covered(log, i) by {
                if covered(rest, i) {
                    let p = choose|p: int| 0 <= p < rest.len() && #[trigger] rest[p].contains(i);
                    assert(log[p + 1] == rest[p]);
                } else if !st.grid[i] {
                    assert(next.grid[i]);
                    assert(log[0] == f);
                }
            }
        }
    }
}

proof fn lemma_med_log(width: nat, ds: Seq<bool>, k: nat, st: PlanState)
    requires
        2 <= width,
        st.grid.len() == width * width,
    ensures
        cells_in(width * width, med_log(width, ds, k, st)),
        pairwise_disjoint(med_log(width, ds, k, st)),
        all_free_in(st.grid, med_log(width, ds, k, st)),
        all_taken_in(med_pass(width, ds, k, st).grid, med_log(width, ds, k, st)),
        forall|i: int|
            0 <= i < st.grid.len() && #[trigger] med_pass(width, ds, k, st).grid[i] ==> st.grid[i]
                || covered(med_log(width, ds, k, st), i),
    decreases anchor_count(width, 2) + 1 - k,
{
    if k < anchor_count(width, 2) {
        let next = med_step(width, ds, k, st);
        let rest = med_log(width, ds, k + 2, next);
        let end = med_pass(width, ds, k + 2, next);
        lemma_med_log(width, ds, k + 2, next);
        lemma_med_pass_grows(width, ds, k + 2, next);
        if med_placed(width, ds, k, st) {
            let f = med_footprint(width, k);
            let log = seq![f] + rest;
            lemma_footprint_in_grid(width, 2, k);
            assert forall|p: int, j: int| 0 <= p < log.len() && 0 <= j < log[p].len() implies 0
                <= #[trigger] log[p][j] < width * width by {
                if p > 0 {
                    assert(log[p] == rest[p - 1]);
                }
            }
            assert forall|p: int| 0 <= p < rest.len() implies disjoint(f, #[trigger] rest[p]) by {
                assert forall|i: int, j: int|
                    0 <= i < f.len() && 0 <= j < rest[p].len() implies f[i] != rest[p][j] by {
                    assert(all_free(next.grid, rest[p]));
                    assert(!next.grid[rest[p][j]]);
                    if f[i] == rest[p][j] {
                        assert(f.contains(rest[p][j]));
                    }
                }
            }
            lemma_prepend_disjoint(f, rest);
            assert forall|p: int| 0 <= p < log.len() implies all_free(st.grid, #[trigger] log[p]) by {
                if p > 0 {
                    assert(log[p] == rest[p - 1]);
                    assert forall|j: int| 0 <= j < rest[p - 1].len() implies !st.grid[#[trigger] rest[p - 1][j]] by {
                        assert(all_free(next.grid, rest[p - 1]));
                        assert(!next.grid[rest[p - 1][j]]);
                    }
                }
            }
            assert forall|p: int| 0 <= p < log.len() implies all_taken(end.grid, #[trigger] log[p]) by {
                if p == 0 {
                    assert forall|j: int| 0 <= j < f.len() implies end.grid[#[trigger] f[j]] by {
                        assert(f.contains(f[j]));
                        assert(next.grid[f[j]]);
                    }
                } else {
                    assert(log[p] == rest[p - 1]);
                }
            }
            assert forall|i: int| 0 <= i < st.grid.len() && #[trigger] end.grid[i] implies st.grid[i]
                || covered(log, i) by {
                if covered(rest, i) {
                    let p = choose|p: int| 0 <= p < rest.len() && #[trigger] rest[p].contains(i);
                    assert(log[p + 1] == rest[p]);
                } else if !st.grid[i] {
                    assert(next.grid[i]);
                    assert(log[0] == f);
                }
            }
        }
    }
}

/// Every footprint placed by the large and medium passes lies in the grid, and no two of
/// them, large or medium, share a cell.
pub proof fn lemma_placements_disjoint(width: nat, ds: Seq<bool>)
    requires
        4 <= width,
    ensures
        ({
            let log = placed_footprints(width, ds);
            cells_in(width * width, log) && pairwise_disjoint(log)
        }),
{
    let init = initial_state(width);
    let large = large_pass(width, ds, 0, init);
    let a = large_log(width, ds, 0, init);
    let b = med_log(width, ds, 0, large);
    let log = a + b;
    lemma_large_log(width, ds, 0, init);
    lemma_large_pass_grows(width, ds, 0, init);
    lemma_med_log(width, ds, 0, large);
    assert forall|p: int, j: int| 0 <= p < log.len() && 0 <= j < log[p].len() implies 0
        <= #[trigger] log[p][j] < width * width by {
        if p >= a.len() {
            assert(log[p] == b[p - a.len()]);
        }
    }
    assert forall|p: int, q: int|
        0 <= p < log.len() && 0 <= q < log.len() && p != q implies disjoint(
        #[trigger] log[p],
        #[trigger] log[q],
    ) by {
        if p < a.len() && q < a.len() {
        } else if p >= a.len() && q >= a.len() {
            assert(log[p] == b[p - a.len()]);
            assert(log[q] == b[q - a.len()]);
        } else {
            let (f, g) = if p < a.len() {
                (log[p], log[q])
            } else {
                (log[q], log[p])
            };
            assert(all_taken(large.grid, f));
            assert(all_free(large.grid, g));
            assert forall|i: int, j: int| 0 <= i < log[p].len() && 0 <= j < log[q].len() implies log[p][i] != log[q][j] by {
                if p < a.len() {
                    assert(large.grid[f[i]]);
                    assert(!large.grid[g[j]]);
                } else {
                    assert(large.grid[f[j]]);
                    assert(!large.grid[g[i]]);
                }
            }
        }
    }
}

/// After the large and medium passes a cell is taken exactly when the footprint of a
/// large or medium placement covers it.
pub proof fn lemma_taken_cells_are_covered(width: nat, ds: Seq<bool>)
    requires
        4 <= width,
    ensures
        forall|i: int|
            0 <= i < width * width ==> (#[trigger] after_large_and_med(width, ds).grid[i] <==> covered(
                placed_footprints(width, ds),
                i,
            )),
{
    let init = initial_state(width);
    let large = large_pass(width, ds, 0, init);
    let after = after_large_and_med(width, ds);
    let a = large_log(width, ds, 0, init);
    let b = med_log(width, ds, 0, large);
    let log = placed_footprints(width, ds);
    lemma_large_log(width, ds, 0, init);
    lemma_large_pass_grows(width, ds, 0, init);
    lemma_med_log(width, ds, 0, large);
    lemma_med_pass_grows(width, ds, 0, large);
    assert forall|i: int| 0 <= i < width * width implies (#[trigger] after.grid[i] <==> covered(
        log,
        i,
    )) by {
        if after.grid[i] {
            if large.grid[i] {
                assert(!init.grid[i]);
                let p = choose|p: int| 0 <= p < a.len() && #[trigger] a[p].contains(i);
                assert(log[p] == a[p]);
            } else {
                let p = choose|p: int| 0 <= p < b.len() && #[trigger] b[p].contains(i);
                assert(log[p + a.len()] == b[p]);
            }
        }
        if covered(log, i) {
            let p = choose|p: int| 0 <= p < log.len() && #[trigger] log[p].contains(i);
            let j = choose|j: int| 0 <= j < log[p].len() && log[p][j] == i;
            if p < a.len() {
                assert(log[p] == a[p]);
                assert(all_taken(large.grid, a[p]));
                assert(large.grid[a[p][j]]);
            } else {
                assert(log[p] == b[p - a.len()]);
                assert(all_taken(after.grid, b[p - a.len()]));
                assert(after.grid[b[p - a.len()][j]]);
            }
        }
    }
}

} // verus!
