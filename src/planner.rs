//! The three placement passes, as a model over decision sequences and as the code
//! that runs them, and the document that wraps their markup.
use vstd::prelude::*;

use crate::grid::{
    anchor_col, anchor_count, anchor_row, anchors_across, as_cells, can_place_large, can_place_med,
    can_place_small, get_slots_for_large, get_slots_for_med, large_footprint, large_legal,
    lemma_row_in_square, mark, mark_cells, med_footprint, med_legal,
};
use crate::text::{decimal, push_decimal};
use crate::tile::{get_tile_svg_string, tile_svg, Tile};

verus! {

/// Pixel indentation of medium tiles inside the large-tile lattice.
pub const MED_OFFSET: usize = 4;

/// Pixel indentation of small tiles inside the large-tile lattice.
pub const SMALL_OFFSET: usize = 6;

/// Where a generation run stands: the occupancy grid, how many decisions it has read,
/// and the markup emitted so far.
pub struct PlanState {
    pub grid: Seq<bool>,
    pub used: nat,
    pub svg: Seq<char>,
}

/// Decision `i` of `ds`; beyond the end of `ds` it reads as "no" (a run that reads
/// that far is reported as short of decisions).
pub open spec fn decision(ds: Seq<bool>, i: nat) -> bool {
    i < ds.len() && ds[i as int]
}

/// The state before any pass: every cell free, nothing read, nothing emitted.
pub open spec fn initial_state(width: nat) -> PlanState {
    PlanState { grid: Seq::new(width * width, |i: int| false), used: 0, svg: Seq::empty() }
}

/// Large anchor `k`: when legal, one decision says whether to place and, if placed, a
/// second one whether to flip.
pub open spec fn large_step(width: nat, ds: Seq<bool>, k: nat, st: PlanState) -> PlanState {
    let n = anchors_across(width, 4);
    if !large_legal(width, st.grid, k) {
        st
    } else if !decision(ds, st.used) {
        PlanState { used: st.used + 1, ..st }
    } else {
        PlanState {
            grid: mark(st.grid, large_footprint(width, k)),
            used: st.used + 2,
            svg: st.svg + tile_svg(
                Tile::Large,
                anchor_col(k, n) * 6,
                anchor_row(k, n) * 6,
                decision(ds, st.used + 1),
            ),
        }
    }
}

/// The large pass from anchor `k` on.
pub open spec fn large_pass(width: nat, ds: Seq<bool>, k: nat, st: PlanState) -> PlanState
    decreases (anchor_count(width, 4) - k) as nat,
{
    if k < anchor_count(width, 4) {
        large_pass(width, ds, k + 1, large_step(width, ds, k, st))
    } else {
        st
    }
}

/// Medium anchor `k`, decided as a large one is.
pub open spec fn med_step(width: nat, ds: Seq<bool>, k: nat, st: PlanState) -> PlanState {
    let n = anchors_across(width, 2);
    if !med_legal(width, st.grid, k) {
        st
    } else if !decision(ds, st.used) {
        PlanState { used: st.used + 1, ..st }
    } else {
        PlanState {
            grid: mark(st.grid, med_footprint(width, k)),
            used: st.used + 2,
            svg: st.svg + tile_svg(
                Tile::Medium,
                anchor_col(k, n) * 6 + 4,
                anchor_row(k, n) * 6 + 4,
                decision(ds, st.used + 1),
            ),
        }
    }
}

/// The medium pass from anchor `k` on, visiting every second anchor.
pub open spec fn med_pass(width: nat, ds: Seq<bool>, k: nat, st: PlanState) -> PlanState
    decreases anchor_count(width, 2) + 1 - k,
{
    if k < anchor_count(width, 2) {
        med_pass(width, ds, k + 2, med_step(width, ds, k, st))
    } else {
        st
    }
}

/// Cell `k`: when free, it gets a small tile, and one decision says whether to flip it.
pub open spec fn small_step(width: nat, ds: Seq<bool>, k: nat, st: PlanState) -> PlanState {
    if st.grid[k as int] {
        st
    } else {
        PlanState {
            used: st.used + 1,
            svg: st.svg + tile_svg(
                Tile::Small,
                anchor_col(k, width) * 6 + 6,
                anchor_row(k, width) * 6 + 6,
                decision(ds, st.used),
            ),
            ..st
        }
    }
}

/// The small pass from cell `k` on.
pub open spec fn small_pass(width: nat, ds: Seq<bool>, k: nat, st: PlanState) -> PlanState
    decreases (width * width - k) as nat,
{
    if k < width * width {
        small_pass(width, ds, k + 1, small_step(width, ds, k, st))
    } else {
        st
    }
}

/// The state after the large and medium passes.
pub open spec fn after_large_and_med(width: nat, ds: Seq<bool>) -> PlanState {
    med_pass(width, ds, 0, large_pass(width, ds, 0, initial_state(width)))
}

/// The state after all three passes.
pub open spec fn plan(width: nat, ds: Seq<bool>) -> PlanState {
    small_pass(width, ds, 0, after_large_and_med(width, ds))
}


/// Enough decisions for any run on a grid of `width` cells.
pub open spec fn decision_budget(width: nat) -> nat {
    4 * (width * width)
}

/// Why a generation run produced no image.
#[derive(Clone, Copy, Debug, PartialEq, Eq, Structural)]
pub enum TilingError {
    /// The grid must be wider than four cells.
    WidthTooSmall,
    /// The run needed more decisions than were supplied.
    DecisionsExhausted,
}

/// Side of the square canvas, in pixels.
pub open spec fn canvas_size(width: nat) -> nat {
    width * 6 + 16
}

/// The image document around the tile markup `inner`.
pub open spec fn document_svg(width: nat, inner: Seq<char>) -> Seq<char> {
    "<svg width=\""@ + decimal(canvas_size(width)) + "\" height=\""@ + decimal(canvas_size(width))
        + "\" version=\"1.1\" xmlns=\"http://www.w3.org/2000/svg\">"@ + inner + "</svg>"@
}

/// Widths whose grid, decision count and pixel offsets all fit in a `usize`.
pub open spec fn width_fits(width: nat) -> bool {
    width * width * 4 <= usize::MAX
}

/// The canvas side for a grid of `width` cells.
pub fn canvas_size_px(width: usize) -> (r: usize)
    requires
        width_fits(width as nat),
    ensures
        r == canvas_size(width as nat),
{
    proof {
        lemma_offsets_fit(width as nat);
    }
    (width * 6) + 16
}

/// Wraps the tile markup `inner` in the image document.
pub fn wrap_document(width: usize, inner: &str) -> (r: String)
    requires
        width_fits(width as nat),
    ensures
        r@ == document_svg(width as nat, inner@),
{
    let size = canvas_size_px(width);
    let mut out = String::from_str("<svg width=\"");
    push_decimal(&mut out, size);
    out.append("\" height=\"");
    push_decimal(&mut out, size);
    out.append("\" version=\"1.1\" xmlns=\"http://www.w3.org/2000/svg\">");
    out.append(inner);
    out.append("</svg>");
    out
}

/// Pixel offsets of every tile, plus the renderer's margin, fit in a `usize`.
pub proof fn lemma_offsets_fit(width: nat)
    requires
        width_fits(width),
    ensures
        width * 6 + 64 <= usize::MAX,
{
    assert(usize::MAX >= 0xffff_ffff);
    assert(width * 6 + 64 <= usize::MAX) by (nonlinear_arith)
        requires
            width * width * 4 <= usize::MAX,
            usize::MAX >= 0xffff_ffff,
    ;
}

/// Anchor scans stay within the cell count.
proof fn lemma_anchor_counts(width: nat)
    requires
        width > 4,
    ensures
        anchor_count(width, 4) <= width * width,
        anchor_count(width, 2) + 1 <= width * width,
        anchors_across(width, 4) == width - 3,
        anchors_across(width, 2) == width - 1,
{
    let n = (width - 3) as nat;
    let m = (width - 1) as nat;
    assert(n * n <= width * width) by (nonlinear_arith)
        requires
            n <= width,
    ;
    assert(m * m + 1 <= width * width) by (nonlinear_arith)
        requires
            m + 1 == width,
            width > 4,
    ;
}

/// Decision `i` of `ds`, or "no" past its end.
fn decision_at(ds: &Vec<bool>, i: usize) -> (r: bool)
    ensures
        r == decision(ds@, i as nat),
{
    if i < ds.len() {
        ds[i]
    } else {
        false
    }
}


/// Where the run stands, read off the executable values.
pub open spec fn state_of(slots: Seq<bool>, used: nat, svg: Seq<char>) -> PlanState {
    PlanState { grid: slots, used, svg }
}

/// A grid of `cells` cells, all free.
fn empty_grid(cells: usize) -> (r: Vec<bool>)
    ensures
        r@ == Seq::new(cells as nat, |i: int| false),
{
    let mut slots: Vec<bool> = Vec::new();
    let mut i: usize = 0;
    while i < cells
        invariant
            i <= cells,
            slots@ == Seq::new(i as nat, |j: int| false),
        decreases cells - i,
    {
        slots.push(false);
        i = i + 1;
        assert(slots@ =~= Seq::new(i as nat, |j: int| false));
    }
    slots
}

/// The large pass over every anchor of the scan.
fn run_large_pass(
    width: usize,
    decisions: &Vec<bool>,
    slots: &mut Vec<bool>,
    svg: &mut String,
) -> (used: usize)
    requires
        4 < width,
        width_fits(width as nat),
        old(slots)@.len() == width * width,
    ensures
        used <= 2 * (width * width),
        final(slots)@.len() == width * width,
        state_of(final(slots)@, used as nat, final(svg)@) == large_pass(
            width as nat,
            decisions@,
            0,
            state_of(old(slots)@, 0, old(svg)@),
        ),
{
    let ghost w = width as nat;
    let ghost ds = decisions@;
    let ghost start = state_of(slots@, 0, svg@);
    proof {
        lemma_anchor_counts(w);
        lemma_offsets_fit(w);
    }
    let cells = width * width;
    let num_large_across = width - 3;
    let large_count = num_large_across * num_large_across;
    let mut used: usize = 0;
    let mut x_large: usize = 0;
    while x_large < large_count
        invariant
            w == width,
            ds == decisions@,
            4 < width,
            width_fits(w),
            width * 6 + 64 <= usize::MAX,
            cells == width * width,
            num_large_across == width - 3,
            num_large_across == anchors_across(w, 4),
            large_count == anchor_count(w, 4),
            large_count <= cells,
            x_large <= large_count,
            slots@.len() == cells,
            used <= 2 * x_large,
            large_pass(w, ds, x_large as nat, state_of(slots@, used as nat, svg@)) == large_pass(
                w,
                ds,
                0,
                start,
            ),
        decreases large_count - x_large,
    {
        let ghost before = state_of(slots@, used as nat, svg@);
        if can_place_large(x_large, slots.as_slice(), width) {
            let should_add = decision_at(decisions, used);
            if should_add {
                let should_flip = decision_at(decisions, used + 1);
                let column = x_large % num_large_across;
                let row = x_large / num_large_across;
                proof {
                    lemma_row_in_square(x_large as nat, num_large_across as nat);
                }
                let tile = get_tile_svg_string(Tile::Large, column * 6, row * 6, should_flip);
                svg.append(tile.as_str());
                let slots_to_take = get_slots_for_large(x_large, width);
                mark_cells(slots, slots_to_take.as_slice());
                assert(as_cells(slots_to_take@) =~= large_footprint(w, x_large as nat));
                used = used + 2;
            } else {
                used = used + 1;
            }
        }
        assert(state_of(slots@, used as nat, svg@) == large_step(w, ds, x_large as nat, before));
        x_large = x_large + 1;
    }
    used
}

/// The medium pass over every second anchor of the scan.
fn run_med_pass(
    width: usize,
    decisions: &Vec<bool>,
    slots: &mut Vec<bool>,
    svg: &mut String,
    used_before: usize,
) -> (used: usize)
    requires
        4 < width,
        width_fits(width as nat),
        old(slots)@.len() == width * width,
        used_before <= 2 * (width * width),
    ensures
        used <= 3 * (width * width),
        final(slots)@.len() == width * width,
        state_of(final(slots)@, used as nat, final(svg)@) == med_pass(
            width as nat,
            decisions@,
            0,
            state_of(old(slots)@, used_before as nat, old(svg)@),
        ),
{
    let ghost w = width as nat;
    let ghost ds = decisions@;
    let ghost start = state_of(slots@, used_before as nat, svg@);
    proof {
        lemma_anchor_counts(w);
        lemma_offsets_fit(w);
    }
    let cells = width * width;
    let num_med_across = width - 1;
    let med_count = num_med_across * num_med_across;
    let mut used: usize = used_before;
    let mut x_med: usize = 0;
    while x_med < med_count
        invariant
            w == width,
            ds == decisions@,
            4 < width,
            width_fits(w),
            width * 6 + 64 <= usize::MAX,
            cells == width * width,
            cells * 4 <= usize::MAX,
            num_med_across == width - 1,
            num_med_across == anchors_across(w, 2),
            med_count == anchor_count(w, 2),
            med_count + 1 <= cells,
            x_med <= med_count + 1,
            slots@.len() == cells,
            used <= 2 * cells + x_med,
            med_pass(w, ds, x_med as nat, state_of(slots@, used as nat, svg@)) == med_pass(
                w,
                ds,
                0,
                start,
            ),
        decreases med_count + 1 - x_med,
    {
        let ghost before = state_of(slots@, used as nat, svg@);
        if can_place_med(x_med, slots.as_slice(), width) {
            let should_add = decision_at(decisions, used);
            if should_add {
                let should_flip = decision_at(decisions, used + 1);
                let column = x_med % num_med_across;
                let row = x_med / num_med_across;
                proof {
                    lemma_row_in_square(x_med as nat, num_med_across as nat);
                }
                let tile = get_tile_svg_string(
                    Tile::Medium,
                    (column * 6) + MED_OFFSET,
                    (row * 6) + MED_OFFSET,
                    should_flip,
                );
                svg.append(tile.as_str());
                let slots_to_take = get_slots_for_med(x_med, width);
                mark_cells(slots, slots_to_take.as_slice());
                assert(as_cells(slots_to_take@) =~= med_footprint(w, x_med as nat));
                used = used + 2;
            } else {
                used = used + 1;
            }
        }
        assert(state_of(slots@, used as nat, svg@) == med_step(w, ds, x_med as nat, before));
        x_med = x_med + 2;
    }
    used
}

/// The small pass over every cell.
fn run_small_pass(
    width: usize,
    decisions: &Vec<bool>,
    slots: &Vec<bool>,
    svg: &mut String,
    used_before: usize,
) -> (used: usize)
    requires
        4 < width,
        width_fits(width as nat),
        slots@.len() == width * width,
        used_before <= 3 * (width * width),
    ensures
        used <= 4 * (width * width),
        state_of(slots@, used as nat, final(svg)@) == small_pass(
            width as nat,
            decisions@,
            0,
            state_of(slots@, used_before as nat, old(svg)@),
        ),
{
    let ghost w = width as nat;
    let ghost ds = decisions@;
    let ghost start = state_of(slots@, used_before as nat, svg@);
    proof {
        lemma_offsets_fit(w);
    }
    let cells = width * width;
    let mut used: usize = used_before;
    let mut x_small: usize = 0;
    while x_small < cells
        invariant
            w == width,
            ds == decisions@,
            4 < width,
            width * 6 + 64 <= usize::MAX,
            cells == width * width,
            cells * 4 <= usize::MAX,
            x_small <= cells,
            slots@.len() == cells,
            used <= 3 * cells + x_small,
            small_pass(w, ds, x_small as nat, state_of(slots@, used as nat, svg@)) == small_pass(
                w,
                ds,
                0,
                start,
            ),
        decreases cells - x_small,
    {
        let ghost before = state_of(slots@, used as nat, svg@);
        if can_place_small(x_small, slots.as_slice()) {
            let should_flip = decision_at(decisions, used);
            let row = x_small / width;
            proof {
                lemma_row_in_square(x_small as nat, width as nat);
            }
            let column = x_small % width;
            let tile = get_tile_svg_string(
                Tile::Small,
                (column * 6) + SMALL_OFFSET,
                (row * 6) + SMALL_OFFSET,
                should_flip,
            );
            svg.append(tile.as_str());
            used = used + 1;
        }
        assert(state_of(slots@, used as nat, svg@) == small_step(w, ds, x_small as nat, before));
        x_small = x_small + 1;
    }
    used
}

/// Runs the three passes on a grid of `width` cells, reading each decision from
/// `decisions` in order, and returns the finished image document.
pub fn tiles_from_decisions(width: usize, decisions: &Vec<bool>) -> (r: Result<
    String,
    TilingError,
>)
    requires
        width_fits(width as nat),
    ensures
        width <= 4 ==> r == Err::<String, TilingError>(TilingError::WidthTooSmall),
        width > 4 && plan(width as nat, decisions@).used > decisions@.len() ==> r == Err::<
            String,
            TilingError,
        >(TilingError::DecisionsExhausted),
        width > 4 && plan(width as nat, decisions@).used <= decisions@.len() ==> r.is_ok()
            && r.unwrap()@ == document_svg(width as nat, plan(width as nat, decisions@).svg),
        width > 4 ==> plan(width as nat, decisions@).used <= decision_budget(width as nat),
{
    if width <= 4 {
        return Err(TilingError::WidthTooSmall);
    }
    let cells = width * width;
    let mut slots = empty_grid(cells);
    let mut inner_svg = String::new();
    assert(state_of(slots@, 0, inner_svg@) == initial_state(width as nat));
    let used = run_large_pass(width, decisions, &mut slots, &mut inner_svg);
    let used = run_med_pass(width, decisions, &mut slots, &mut inner_svg, used);
    let used = run_small_pass(width, decisions, &slots, &mut inner_svg, used);
    if used > decisions.len() {
        return Err(TilingError::DecisionsExhausted);
    }
    Ok(wrap_document(width, inner_svg.as_str()))
}

/// Relies on `rand::random`, which samples `T` from the thread-local generator; used
/// here for `bool`, a fair coin flip. Nothing is known of the outcome. It panics only
/// when the operating system's random source cannot seed that generator, which no
/// argument can rule out.
pub assume_specification<T>[ rand::random::<T> ]() -> (r: T)
    where
        rand::distributions::Standard: rand::distributions::Distribution<T>,
;

/// Draws `count` decisions at random.
fn random_decisions(count: usize) -> (r: Vec<bool>)
    ensures
        r@.len() == count,
{
    let mut decisions: Vec<bool> = Vec::new();
    let mut i: usize = 0;
    while i < count
        invariant
            i <= count,
            decisions@.len() == i,
        decreases count - i,
    {
        decisions.push(rand::random::<bool>());
        i = i + 1;
    }
    decisions
}

/// Generates a random tiling of a grid of `width` cells, each decision a fair coin flip.
pub fn generate_tiles(width: usize) -> (r: Result<String, TilingError>)
    requires
        width_fits(width as nat),
    ensures
        width <= 4 ==> r == Err::<String, TilingError>(TilingError::WidthTooSmall),
        width > 4 ==> r.is_ok() && exists|ds: Seq<bool>|
            ds.len() == decision_budget(width as nat) && r.unwrap()@ == document_svg(
                width as nat,
                #[trigger] plan(width as nat, ds).svg,
            ),
{
    if width <= 4 {
        return Err(TilingError::WidthTooSmall);
    }
    let decisions = random_decisions(4 * (width * width));
    let r = tiles_from_decisions(width, &decisions);
    assert(r.is_ok());
    assert(r.unwrap()@ == document_svg(width as nat, plan(width as nat, decisions@).svg));
    r
}

} // verus!
