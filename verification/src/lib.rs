//! Core tile data pipeline for a vector-map renderer: quadkey addressing,
//! legacy filter evaluation, zoom interpolation, tessellation bookkeeping,
//! vector tile processing, and an indexed per-tile component store.

use vstd::prelude::*;

pub mod binary64;
pub mod coords;
pub mod expression;
pub mod layer;
pub mod mvt;
pub mod process_vector;
pub mod rational;
pub mod render_commands;
pub mod source_type;
pub mod strutil;
pub mod tessellation;
pub mod tiles;
pub mod upload;
pub mod util;

verus! {

/// Zoom level of a tile in the global tile pyramid.
pub type ZoomLevel = u8;

/// The deepest zoom level that a quadkey can address.
pub const MAX_ZOOM_LEVEL: u8 = 30;

} // verus!
