//! The occupancy grid: a row-major mask of `width * width` cells, the footprints of
//! anchored tiles, and the legality of each placement.
use vstd::prelude::*;

verus! {

/// Number of anchor positions along one side for a tile of side `size` on a grid of
/// side `width`.
pub open spec fn anchors_across(width: nat, size: nat) -> nat {
    (width + 1 - size) as nat
}

/// Number of anchor positions for a tile of side `size`.
pub open spec fn anchor_count(width: nat, size: nat) -> nat {
    anchors_across(width, size) * anchors_across(width, size)
}

/// Row of anchor `k` in a scan with `across` anchors per row.
pub open spec fn anchor_row(k: nat, across: nat) -> nat {
    k / across
}

/// Column of anchor `k` in a scan with `across` anchors per row.
pub open spec fn anchor_col(k: nat, across: nat) -> nat {
    k % across
}

/// Cell indices covered by a `size` x `size` tile whose top-left cell is at
/// (`row`, `col`): row by row, left to right.
pub open spec fn footprint(width: nat, size: nat, row: nat, col: nat) -> Seq<int> {
    Seq::new(size * size, |j: int| (row * width + col) as int + (j / size as int) * width + j % size as int)
}

/// Cells covered by the large tile at anchor `k`.
pub open spec fn large_footprint(width: nat, k: nat) -> Seq<int> {
    let n = anchors_across(width, 4);
    footprint(width, 4, anchor_row(k, n), anchor_col(k, n))
}

/// Cells covered by the medium tile at anchor `k`.
pub open spec fn med_footprint(width: nat, k: nat) -> Seq<int> {
    let n = anchors_across(width, 2);
    footprint(width, 2, anchor_row(k, n), anchor_col(k, n))
}

/// Every listed cell is unoccupied.
pub open spec fn all_free(slots: Seq<bool>, cells: Seq<int>) -> bool {
    forall|j: int| 0 <= j < cells.len() ==> !slots[#[trigger] cells[j]]
}

/// The grid with every listed cell occupied, and no other change.
pub open spec fn mark(slots: Seq<bool>, cells: Seq<int>) -> Seq<bool> {
    Seq::new(slots.len(), |i: int| slots[i] || cells.contains(i))
}

/// Large anchors lie on a lattice of spacing four.
pub open spec fn large_eligible(width: nat, k: nat) -> bool {
    let n = anchors_across(width, 4);
    anchor_row(k, n) % 4 == 0 && anchor_col(k, n) % 4 == 0
}

/// Medium anchors lie on a lattice of spacing two.
pub open spec fn med_eligible(width: nat, k: nat) -> bool {
    let n = anchors_across(width, 2);
    anchor_row(k, n) % 2 == 0 && anchor_col(k, n) % 2 == 0
}

pub open spec fn large_legal(width: nat, slots: Seq<bool>, k: nat) -> bool {
    large_eligible(width, k) && all_free(slots, large_footprint(width, k))
}

pub open spec fn med_legal(width: nat, slots: Seq<bool>, k: nat) -> bool {
    med_eligible(width, k) && all_free(slots, med_footprint(width, k))
}

/// In a square scan of side `n`, every position's row lies inside the square.
pub proof fn lemma_row_in_square(k: nat, n: nat)
    requires
        k < n * n,
    ensures
        k / n < n,
        k % n < n,
{
    vstd::arithmetic::div_mod::lemma_fundamental_div_mod(k as int, n as int);
    let row = k / n;
    let col = k % n;
    assert(row < n) by (nonlinear_arith)
        requires
            k == n * row + col,
            col >= 0,
            k < n * n,
    ;
}

/// A tile of side `size` anchored anywhere in the anchor scan stays inside the grid.
pub proof fn lemma_footprint_in_grid(width: nat, size: nat, k: nat)
    requires
        1 <= size <= width,
        k < anchors_across(width, size) * anchors_across(width, size),
    ensures
        ({
            let n = anchors_across(width, size);
            let row = anchor_row(k, n);
            let col = anchor_col(k, n);
            &&& row < n
            &&& col < n
            &&& (row + size - 1) * width + (col + size - 1) < width * width
            &&& forall|j: int|
                0 <= j < size * size ==> 0 <= #[trigger] footprint(width, size, row, col)[j]
                    <= (row + size - 1) * width + (col + size - 1)
        }),
{
    let n = anchors_across(width, size);
    let row = anchor_row(k, n);
    let col = anchor_col(k, n);
    vstd::arithmetic::div_mod::lemma_fundamental_div_mod(k as int, n as int);
    assert(row < n) by (nonlinear_arith)
        requires
            k == n * row + col,
            col >= 0,
            k < n * n,
    ;
    assert((row + size - 1) * width + (col + size - 1) < width * width) by (nonlinear_arith)
        requires
            row + size - 1 < width,
            col + size - 1 < width,
    ;
    assert forall|j: int| 0 <= j < size * size implies 0 <= #[trigger] footprint(
        width,
        size,
        row,
        col,
    )[j] <= (row + size - 1) * width + (col + size - 1) by {
        let q = j / size as int;
        let r = j % size as int;
        vstd::arithmetic::div_mod::lemma_fundamental_div_mod(j, size as int);
        assert(0 <= q < size) by (nonlinear_arith)
            requires
                j == size * q + r,
                0 <= r < size,
                0 <= j < size * size,
        ;
        assert(q * width <= (size - 1) * width) by (nonlinear_arith)
            requires
                q <= size - 1,
        ;
        assert(0 <= q * width) by (nonlinear_arith)
            requires
                q >= 0,
        ;
        assert((row + size - 1) * width == row * width + (size - 1) * width) by (nonlinear_arith);
    }
}

/// Entry `q * size + r` of a footprint is `r` cells right of and `q` rows below its anchor.
pub proof fn lemma_footprint_entry(width: nat, size: nat, row: nat, col: nat, q: nat, r: nat)
    requires
        q < size,
        r < size,
    ensures
        0 <= q * size + r < size * size,
        footprint(width, size, row, col)[(q * size + r) as int] == (row * width + col) + q * width + r,
{
    let j = (q * size + r) as int;
    vstd::arithmetic::div_mod::lemma_fundamental_div_mod_converse(j, size as int, q as int, r as int);
    assert(0 <= q * size + r < size * size) by (nonlinear_arith)
        requires
            q < size,
            r < size,
    ;
}

/// The sixteen cells of the large tile at anchor `large_slot`.
pub fn get_slots_for_large(large_slot: usize, width: usize) -> (r: [usize; 16])
    requires
        4 <= width,
        width * width <= usize::MAX,
        large_slot < (width - 3) * (width - 3),
    ensures
        forall|j: int| 0 <= j < 16 ==> r@[j] == large_footprint(width as nat, large_slot as nat)[j],
        forall|j: int| 0 <= j < 16 ==> r@[j] < width * width,
{
    proof {
        lemma_footprint_in_grid(width as nat, 4, large_slot as nat);
    }
    let ghost fp = large_footprint(width as nat, large_slot as nat);
    let num_across = width - 3;
    let column = large_slot % num_across;
    let row = large_slot / num_across;
    proof {
        lemma_footprint_entry(width as nat, 4, row as nat, column as nat, 3, 3);
    }
    let base = (row * width) + column;
    let base_1 = base + width;
    let base_2 = base + (2 * width);
    let base_3 = base + (3 * width);
    let r = [
        base,
        base + 1,
        base + 2,
        base + 3,
        base_1,
        base_1 + 1,
        base_1 + 2,
        base_1 + 3,
        base_2,
        base_2 + 1,
        base_2 + 2,
        base_2 + 3,
        base_3,
        base_3 + 1,
        base_3 + 2,
        base_3 + 3,
    ];
    proof {
        lemma_footprint_entry(width as nat, 4, row as nat, column as nat, 0, 0);
        lemma_footprint_entry(width as nat, 4, row as nat, column as nat, 0, 1);
        lemma_footprint_entry(width as nat, 4, row as nat, column as nat, 0, 2);
        lemma_footprint_entry(width as nat, 4, row as nat, column as nat, 0, 3);
        lemma_footprint_entry(width as nat, 4, row as nat, column as nat, 1, 0);
        lemma_footprint_entry(width as nat, 4, row as nat, column as nat, 1, 1);
        lemma_footprint_entry(width as nat, 4, row as nat, column as nat, 1, 2);
        lemma_footprint_entry(width as nat, 4, row as nat, column as nat, 1, 3);
        lemma_footprint_entry(width as nat, 4, row as nat, column as nat, 2, 0);
        lemma_footprint_entry(width as nat, 4, row as nat, column as nat, 2, 1);
        lemma_footprint_entry(width as nat, 4, row as nat, column as nat, 2, 2);
        lemma_footprint_entry(width as nat, 4, row as nat, column as nat, 2, 3);
        lemma_footprint_entry(width as nat, 4, row as nat, column as nat, 3, 0);
        lemma_footprint_entry(width as nat, 4, row as nat, column as nat, 3, 1);
        lemma_footprint_entry(width as nat, 4, row as nat, column as nat, 3, 2);
        lemma_footprint_entry(width as nat, 4, row as nat, column as nat, 3, 3);
    }
    assert(r@ =~= seq![fp[0] as usize, fp[1] as usize, fp[2] as usize, fp[3] as usize, fp[4] as usize, fp[5] as usize, fp[6] as usize, fp[7] as usize, fp[8] as usize, fp[9] as usize, fp[10] as usize, fp[11] as usize, fp[12] as usize, fp[13] as usize, fp[14] as usize, fp[15] as usize]);
    r
}


/// The four cells of the medium tile at anchor `med_slot`.
pub fn get_slots_for_med(med_slot: usize, width: usize) -> (r: [usize; 4])
    requires
        2 <= width,
        width * width <= usize::MAX,
        med_slot < (width - 1) * (width - 1),
    ensures
        forall|j: int| 0 <= j < 4 ==> r@[j] == med_footprint(width as nat, med_slot as nat)[j],
        forall|j: int| 0 <= j < 4 ==> r@[j] < width * width,
{
    proof {
        lemma_footprint_in_grid(width as nat, 2, med_slot as nat);
    }
    let ghost fp = med_footprint(width as nat, med_slot as nat);
    let num_across = width - 1;
    let column = med_slot % num_across;
    let row = med_slot / num_across;
    proof {
        lemma_footprint_entry(width as nat, 2, row as nat, column as nat, 1, 1);
    }
    let base = (row * width) + column;
    let base_1 = base + width;
    let r = [base, base + 1, base_1, base_1 + 1];
    proof {
        lemma_footprint_entry(width as nat, 2, row as nat, column as nat, 0, 0);
        lemma_footprint_entry(width as nat, 2, row as nat, column as nat, 0, 1);
        lemma_footprint_entry(width as nat, 2, row as nat, column as nat, 1, 0);
        lemma_footprint_entry(width as nat, 2, row as nat, column as nat, 1, 1);
    }
    assert(r@ =~= seq![fp[0] as usize, fp[1] as usize, fp[2] as usize, fp[3] as usize]);
    r
}

/// Whether a large tile may go at anchor `large_slot`: the anchor is on the large
/// lattice and all sixteen cells are free.
pub fn can_place_large(large_slot: usize, slots: &[bool], width: usize) -> (r: bool)
    requires
        4 <= width,
        slots@.len() == width * width,
        width * width <= usize::MAX,
        large_slot < (width - 3) * (width - 3),
    ensures
        r == large_legal(width as nat, slots@, large_slot as nat),
{
    let num_across = width - 3;
    let column = large_slot % num_across;
    let row = large_slot / num_across;
    if row % 4 != 0 || column % 4 != 0 {
        return false;
    }
    let requested = get_slots_for_large(large_slot, width);
    let ghost fp = large_footprint(width as nat, large_slot as nat);
    let mut i: usize = 0;
    while i < 16
        invariant
            0 <= i <= 16,
            fp == large_footprint(width as nat, large_slot as nat),
            fp.len() == 16,
            slots@.len() == width * width,
            forall|j: int| 0 <= j < 16 ==> requested@[j] == fp[j],
            forall|j: int| 0 <= j < 16 ==> requested@[j] < width * width,
            forall|j: int| 0 <= j < i ==> !slots@[#[trigger] fp[j]],
        decreases 16 - i,
    {
        if slots[requested[i]] {
            assert(slots@[fp[i as int]]);
            return false;
        }
        i = i + 1;
    }
    true
}

/// Whether a medium tile may go at anchor `medium_slot`: the anchor is on the medium
/// lattice and all four cells are free.
pub fn can_place_med(medium_slot: usize, slots: &[bool], width: usize) -> (r: bool)
    requires
        2 <= width,
        slots@.len() == width * width,
        width * width <= usize::MAX,
        medium_slot < (width - 1) * (width - 1),
    ensures
        r == med_legal(width as nat, slots@, medium_slot as nat),
{
    let num_across = width - 1;
    let column = medium_slot % num_across;
    let row = medium_slot / num_across;
    if row % 2 != 0 || column % 2 != 0 {
        return false;
    }
    let requested = get_slots_for_med(medium_slot, width);
    let ghost fp = med_footprint(width as nat, medium_slot as nat);
    let mut i: usize = 0;
    while i < 4
        invariant
            0 <= i <= 4,
            fp == med_footprint(width as nat, medium_slot as nat),
            fp.len() == 4,
            slots@.len() == width * width,
            forall|j: int| 0 <= j < 4 ==> requested@[j] == fp[j],
            forall|j: int| 0 <= j < 4 ==> requested@[j] < width * width,
            forall|j: int| 0 <= j < i ==> !slots@[#[trigger] fp[j]],
        decreases 4 - i,
    {
        if slots[requested[i]] {
            assert(slots@[fp[i as int]]);
            return false;
        }
        i = i + 1;
    }
    true
}

/// Whether the cell `small_slot` is still free for a small tile.
pub fn can_place_small(small_slot: usize, slots: &[bool]) -> (r: bool)
    requires
        small_slot < slots@.len(),
    ensures
        r == !slots@[small_slot as int],
{
    !slots[small_slot]
}

/// Cell indices as integers.
pub open spec fn as_cells(cells: Seq<usize>) -> Seq<int> {
    cells.map_values(|c: usize| c as int)
}

/// Occupies every listed cell of the grid.
pub fn mark_cells(slots: &mut Vec<bool>, cells: &[usize])
    requires
        forall|j: int| 0 <= j < cells@.len() ==> cells@[j] < old(slots)@.len(),
    ensures
        final(slots)@ == mark(old(slots)@, as_cells(cells@)),
{
    let ghost target = as_cells(cells@);
    let mut i: usize = 0;
    while i < cells.len()
        invariant
            0 <= i <= cells@.len(),
            target == as_cells(cells@),
            forall|j: int| 0 <= j < cells@.len() ==> cells@[j] < old(slots)@.len(),
            slots@ == mark(old(slots)@, target.subrange(0, i as int)),
        decreases cells@.len() - i,
    {
        let c = cells[i];
        slots.set(c, true);
        proof {
            let done = target.subrange(0, i as int + 1);
            assert(done =~= target.subrange(0, i as int).push(c as int));
            assert forall|k: int| done.contains(k) <==> (target.subrange(0, i as int).contains(k) || k == c) by {
                if done.contains(k) {
                    let m = choose|m: int| 0 <= m < done.len() && done[m] == k;
                    if m < i {
                        assert(target.subrange(0, i as int)[m] == k);
                    }
                }
                if k == c {
                    assert(done[i as int] == k);
                }
                if target.subrange(0, i as int).contains(k) {
                    let m = choose|m: int| 0 <= m < i && target.subrange(0, i as int)[m] == k;
                    assert(done[m] == k);
                }
            }
            assert(slots@ =~= mark(old(slots)@, done));
        }
        i = i + 1;
    }
    assert(target.subrange(0, cells@.len() as int) =~= target);
}

} // verus!
