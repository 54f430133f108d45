//! Randomized multi-scale truchet tilings rendered as SVG.
//!
//! A square grid of unit cells is filled in three passes: large tiles on a lattice of
//! spacing four, medium tiles on a lattice of spacing two, and small tiles in every
//! cell left free. Each placement reads yes/no decisions in a fixed order, so a run is
//! a function of the width and the decision sequence.
use vstd::prelude::*;

pub mod grid;
pub mod planner;
pub mod text;
pub mod theorems;
pub mod tile;

pub use grid::{
    can_place_large, can_place_med, can_place_small, get_slots_for_large, get_slots_for_med,
    mark_cells,
};
pub use planner::{
    canvas_size_px, generate_tiles, tiles_from_decisions, wrap_document, TilingError, MED_OFFSET,
    SMALL_OFFSET,
};
pub use text::push_decimal;
pub use tile::{get_tile_svg_string, Tile};

verus! {

} // verus!
