//! Render commands: the decisions behind recording one tile layer's draw
//! into a render pass.  The pass itself and the GPU buffers are outside
//! collaborators; these commands compute which buffer slices and index
//! range a draw uses, or report failure.

use vstd::prelude::*;
use crate::coords::WorldTileCoords;
use crate::strutil::str_eq;

verus! {

/// Whether recording a render command succeeded.
#[derive(Clone, Copy, Debug, PartialEq, Eq, Structural)]
pub enum RenderCommandResult {
    Success,
    Failure,
}

/// One buffer-pool index entry of a tessellated layer: where its data
/// lives inside the pooled GPU buffers.
#[derive(Debug)]
pub struct LayerEntry {
    pub style_layer_id: String,
    pub coords: WorldTileCoords,
    pub indices_start: u64,
    pub indices_end: u64,
    pub vertices_start: u64,
    pub vertices_end: u64,
    pub layer_metadata_start: u64,
    pub layer_metadata_end: u64,
    pub feature_metadata_start: u64,
    pub feature_metadata_end: u64,
    pub index_count: u32,
}

/// One draw of a tile layer, ready to record into a render pass.
#[derive(Clone, Copy, Debug)]
pub struct DrawCall {
    pub stencil_reference: u32,
    pub index_slice: (u64, u64),
    pub vertex_slice: (u64, u64),
    pub pattern_slice: (u64, u64),
    pub layer_metadata_slice: (u64, u64),
    pub feature_metadata_slice: (u64, u64),
    pub index_count: u32,
}

/// Binds the vector tile pipeline.
pub struct SetVectorTilePipeline;

impl SetVectorTilePipeline {
    /// Succeeds exactly when the pipeline resource is initialized.
    pub fn render(pipeline_ready: bool) -> (r: RenderCommandResult)
        ensures
            r == (if pipeline_ready {
                RenderCommandResult::Success
            } else {
                RenderCommandResult::Failure
            }),
    {
        if pipeline_ready {
            RenderCommandResult::Success
        } else {
            RenderCommandResult::Failure
        }
    }
}

/// The index of the first entry of the style layer, if any.
pub open spec fn find_entry(entries: Seq<LayerEntry>, id: Seq<char>) -> Option<int>
    decreases entries.len(),
{
    if entries.len() == 0 {
        None
    } else if entries[0].style_layer_id@ == id {
        Some(0)
    } else {
        match find_entry(entries.drop_first(), id) {
            Some(i) => Some(i + 1),
            None => None,
        }
    }
}

/// The draw an entry yields under a stencil reference and the view
/// pattern slice of the tile shape.
pub open spec fn draw_of(e: &LayerEntry, stencil_reference: u32, pattern_slice: (u64, u64)) -> DrawCall {
    DrawCall {
        stencil_reference,
        index_slice: (e.indices_start, e.indices_end),
        vertex_slice: (e.vertices_start, e.vertices_end),
        pattern_slice,
        layer_metadata_slice: (e.layer_metadata_start, e.layer_metadata_end),
        feature_metadata_slice: (e.feature_metadata_start, e.feature_metadata_end),
        index_count: e.index_count,
    }
}

/// Draws one tile layer.
pub struct DrawVectorTile;

impl DrawVectorTile {
    /// Computes the draw of the style layer from the pool's entries for
    /// the tile: the first entry of that id, unless it holds no indices.
    #[verifier::loop_isolation(false)]
    pub fn render(
        entries: &Vec<LayerEntry>,
        style_layer: &str,
        stencil_reference: u32,
        pattern_slice: (u64, u64),
    ) -> (r: Option<DrawCall>)
        ensures
            match r {
                Some(call) => find_entry(entries@, style_layer@) matches Some(ix) && {
                    let e = &entries@[ix];
                    e.indices_start < e.indices_end && call == draw_of(
                        e,
                        stencil_reference,
                        pattern_slice,
                    )
                },
                None => match find_entry(entries@, style_layer@) {
                    Some(ix) => entries@[ix].indices_start >= entries@[ix].indices_end,
                    None => true,
                },
            },
    {
        let n = entries.len();
        let mut i: usize = 0;
        proof {
            assert(entries@.skip(0) =~= entries@);
        }
        while i < n
            invariant
                i <= n == entries@.len(),
                find_entry(entries@, style_layer@) == match find_entry(
                    entries@.skip(i as int),
                    style_layer@,
                ) {
                    Some(ix) => Some(ix + i),
                    None => None::<int>,
                },
            decreases n - i,
        {
            proof {
                assert(entries@.skip(i as int)[0] == entries@[i as int]);
                assert(entries@.skip(i as int).drop_first() =~= entries@.skip(i + 1));
            }
            let entry = &entries[i];
            if str_eq(entry.style_layer_id.as_str(), style_layer) {
                if entry.indices_start >= entry.indices_end {
                    // an empty index range draws nothing
                    return None;
                }
                return Some(
                    DrawCall {
                        stencil_reference,
                        index_slice: (entry.indices_start, entry.indices_end),
                        vertex_slice: (entry.vertices_start, entry.vertices_end),
                        pattern_slice,
                        layer_metadata_slice: (
                            entry.layer_metadata_start,
                            entry.layer_metadata_end,
                        ),
                        feature_metadata_slice: (
                            entry.feature_metadata_start,
                            entry.feature_metadata_end,
                        ),
                        index_count: entry.index_count,
                    },
                );
            }
            i = i + 1;
        }
        proof {
            assert(entries@.skip(n as int).len() == 0);
        }
        None
    }
}

} // verus!
