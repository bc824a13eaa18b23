//! The upload pass: walks the tiles in view, resolves each style layer's
//! paint at the tile's zoom, and plans one geometry upload per stored
//! layer that is not yet loaded, with its per-feature style metadata
//! expanded index by index.
//!
//! The GPU itself is an outside collaborator: this module only computes
//! the upload plan; the caller feeds it to its buffer pool.

use vstd::prelude::*;
use crate::ZoomLevel;
use crate::coords::WorldTileCoords;
use crate::layer::InterpolatedQuantity;
use crate::layer::LayerPaint;
use crate::layer::LinePaint;
use crate::layer::Rgba;
use crate::layer::Style;
use crate::layer::StyleLayer;
use crate::layer::paint_color_parts;
use crate::rational::Rational;
use crate::tiles::AvailableVectorLayerData;
use crate::tiles::Tiles;
use crate::tiles::VectorLayerData;
use crate::tiles::find_avail;
use crate::tessellation::sum_u32;
use crate::util::interp_exact;
use crate::util::interpolate;
use crate::util::pow_in_range;
use crate::util::quantity_in_range;

verus! {

/// The style of every index of one feature, as the shader reads it.
#[derive(Clone, Copy, Debug)]
pub struct ShaderFeatureStyle {
    pub color: Rgba,
    pub width: Rational,
}

/// Per-layer metadata, as the shader reads it.
#[derive(Clone, Copy, Debug, PartialEq, Eq, Structural)]
pub struct ShaderLayerMetadata {
    pub z_index: u32,
}

impl ShaderLayerMetadata {
    pub fn new(z_index: u32) -> (r: Self)
        ensures
            r.z_index == z_index,
    {
        Self { z_index }
    }
}

/// One planned geometry upload.
#[derive(Debug)]
pub struct LayerUpload {
    pub coords: WorldTileCoords,
    pub style_layer_id: String,
    pub metadata: ShaderLayerMetadata,
    pub feature_metadata: Vec<ShaderFeatureStyle>,
}

/// A style layer's paint did not resolve to a color.
#[derive(Clone, Copy, Debug, PartialEq, Eq, Structural)]
pub struct MissingColorError;

/// Every interpolated quantity of the paint is inside the engine's
/// bounds at every zoom.
pub open spec fn quantity_ok(q: Option<InterpolatedQuantity>) -> bool {
    match q {
        Some(qq) => quantity_in_range(&qq) && forall|z: int| pow_in_range(&qq, z),
        None => true,
    }
}

/// See [`quantity_ok`], for all of a paint's quantities.
pub open spec fn paint_ok(p: &LayerPaint) -> bool {
    &&& match paint_color_parts(p) {
        Some((_, opacity)) => quantity_ok(opacity),
        None => true,
    }
    &&& match p {
        LayerPaint::Line(lp) => quantity_ok(lp.line_width),
        _ => true,
    }
}

/// See [`paint_ok`], for a whole style.
pub open spec fn style_ok(style: &Style) -> bool {
    forall|j: int| 0 <= j < style.layers@.len() ==> match (#[trigger] style.layers@[j]).paint {
        Some(p) => paint_ok(&p),
        None => true,
    }
}

/// The width a style layer resolves to at a zoom: its line width when it
/// is a line paint and the interpolation yields one, zero otherwise.
pub open spec fn resolved_width(sl: &StyleLayer, zoom: ZoomLevel, w: Rational) -> bool {
    match sl.paint {
        Some(LayerPaint::Line(lp)) => match lp.line_width {
            Some(q) => match interp_exact(&q, zoom as int) {
                Some((n, d)) => w.wf() && w.is_frac(n, d),
                None => w.is_frac(0, 1),
            },
            None => w.is_frac(0, 1),
        },
        _ => w.is_frac(0, 1),
    }
}

/// The color a style layer resolves to at a zoom: the paint's color with
/// its alpha replaced by the interpolated opacity.
pub open spec fn resolved_color(sl: &StyleLayer, zoom: ZoomLevel, c: Rgba) -> bool {
    match sl.paint {
        Some(p) => match paint_color_parts(&p) {
            Some((Some(base), opacity)) => {
                &&& c.r == base.r && c.g == base.g && c.b == base.b
                &&& match opacity {
                    Some(q) => match interp_exact(&q, zoom as int) {
                        Some((n, d)) => c.a.wf() && c.a.is_frac(n, d),
                        None => c.a == base.a,
                    },
                    None => c.a == base.a,
                }
            },
            _ => false,
        },
        None => false,
    }
}

/// True when the style layer resolves to a color at the zoom.
pub open spec fn has_color(sl: &StyleLayer, zoom: ZoomLevel) -> bool {
    match sl.paint {
        Some(p) => match paint_color_parts(&p) {
            Some((Some(_), _)) => true,
            _ => false,
        },
        None => false,
    }
}

/// What the store lookup for one (tile, style layer) pair finds: the
/// stored available layer data for a sourced layer, the background quad
/// for a background-style layer, or nothing.
pub open spec fn pair_lookup(
    tiles: &Tiles,
    sl: &StyleLayer,
    coords: WorldTileCoords,
    loaded: Seq<String>,
) -> Option<AvailableVectorLayerData> {
    if sl.source_layer is Some {
        match tiles.queried_layers(coords) {
            Some(layers) => match find_avail(layers@, sl.id@, loaded) {
                Some(ix) => match layers@[ix] {
                    VectorLayerData::Available(data) => Some(data),
                    VectorLayerData::Missing(_) => None,
                },
                None => None,
            },
            None => None,
        }
    } else {
        if !crate::expression::str_list_contains(loaded, sl.id@) {
            Some(tiles.background_tile)
        } else {
            None
        }
    }
}

/// True when the pair contributes an upload: the lookup finds data with
/// a nonzero index count.
pub open spec fn pair_produces(
    tiles: &Tiles,
    sl: &StyleLayer,
    coords: WorldTileCoords,
    loaded: Seq<String>,
) -> bool {
    match pair_lookup(tiles, sl, coords, loaded) {
        Some(data) => sum_u32(data.feature_indices@) > 0,
        None => false,
    }
}

/// The planned upload of one producing pair, field by field.
pub open spec fn upload_matches(
    u: &LayerUpload,
    tiles: &Tiles,
    sl: &StyleLayer,
    coords: WorldTileCoords,
    loaded: Seq<String>,
) -> bool {
    match pair_lookup(tiles, sl, coords, loaded) {
        Some(data) => {
            &&& u.coords == coords
            &&& u.style_layer_id@ == sl.id@
            &&& u.metadata.z_index == sl.index
            &&& (u.feature_metadata@.len() == sum_u32(data.feature_indices@) || sum_u32(
                data.feature_indices@,
            ) > usize::MAX)
            &&& forall|m: int| 0 <= m < u.feature_metadata@.len() ==> resolved_color(
                sl,
                coords.z,
                (#[trigger] u.feature_metadata@[m]).color,
            ) && resolved_width(sl, coords.z, u.feature_metadata@[m].width)
        },
        None => false,
    }
}

/// The plan relation: `ups` is exactly the uploads of the producing
/// pairs, walked tile by tile and style layer by style layer in order.
pub open spec fn uploads_match(
    tiles: &Tiles,
    style: &Style,
    view_region: Seq<WorldTileCoords>,
    loaded: Seq<String>,
    ci: int,
    sj: int,
    ups: Seq<LayerUpload>,
) -> bool
    decreases view_region.len() - ci, style.layers@.len() - sj,
{
    if ci < 0 || sj < 0 || ci >= view_region.len() {
        ups.len() == 0
    } else if sj >= style.layers@.len() {
        uploads_match(tiles, style, view_region, loaded, ci + 1, 0, ups)
    } else {
        let sl = &style.layers@[sj];
        let coords = view_region[ci];
        if pair_produces(tiles, sl, coords, loaded) && has_color(sl, coords.z) {
            &&& ups.len() > 0
            &&& upload_matches(&ups[0], tiles, sl, coords, loaded)
            &&& uploads_match(tiles, style, view_region, loaded, ci, sj + 1, ups.drop_first())
        } else {
            uploads_match(tiles, style, view_region, loaded, ci, sj + 1, ups)
        }
    }
}

/// Expands one feature-index ledger into per-index style metadata.
#[verifier::loop_isolation(false)]
fn expand_feature_metadata(feature_indices: &Vec<u32>, fs: ShaderFeatureStyle) -> (r: Vec<
    ShaderFeatureStyle,
>)
    ensures
        r@.len() == sum_u32(feature_indices@) || sum_u32(feature_indices@) > usize::MAX,
        forall|m: int| 0 <= m < r@.len() ==> r@[m] == fs,
        sum_u32(feature_indices@) <= usize::MAX ==> r@.len() == sum_u32(feature_indices@),
        sum_u32(feature_indices@) > 0 ==> r@.len() > 0,
{
    let mut out: Vec<ShaderFeatureStyle> = Vec::new();
    let n = feature_indices.len();
    let mut j: usize = 0;
    proof {
        assert(feature_indices@.take(0) =~= Seq::<u32>::empty());
    }
    while j < n
        invariant
            j <= n == feature_indices@.len(),
            out@.len() == sum_u32(feature_indices@.take(j as int)) || sum_u32(
                feature_indices@.take(j as int),
            ) > usize::MAX,
            sum_u32(feature_indices@.take(j as int)) <= usize::MAX ==> out@.len() == sum_u32(
                feature_indices@.take(j as int),
            ),
            forall|m: int| 0 <= m < out@.len() ==> out@[m] == fs,
            sum_u32(feature_indices@.take(j as int)) >= 0,
            sum_u32(feature_indices@.take(j as int)) > 0 ==> out@.len() > 0,
        decreases n - j,
    {
        let count = feature_indices[j];
        let mut c: u32 = 0;
        while c < count
            invariant
                c <= count,
                out@.len() == sum_u32(feature_indices@.take(j as int)) + c || sum_u32(
                    feature_indices@.take(j as int),
                ) + c > usize::MAX,
                sum_u32(feature_indices@.take(j as int)) + c <= usize::MAX ==> out@.len()
                    == sum_u32(feature_indices@.take(j as int)) + c,
                forall|m: int| 0 <= m < out@.len() ==> out@[m] == fs,
                (sum_u32(feature_indices@.take(j as int)) > 0 || c > 0) ==> out@.len() > 0,
            decreases count - c,
        {
            if out.len() < usize::MAX {
                out.push(fs);
            }
            c = c + 1;
        }
        proof {
            assert(feature_indices@.take(j + 1).drop_last() =~= feature_indices@.take(j as int));
            assert(sum_u32(feature_indices@.take(j + 1)) == sum_u32(
                feature_indices@.take(j as int),
            ) + feature_indices@[j as int]);
        }
        j = j + 1;
    }
    proof {
        assert(feature_indices@.take(n as int) =~= feature_indices@);
    }
    out
}

/// Plans the uploads of every tile in view against every style layer:
/// for each pair whose stored (or background) layer is present, not yet
/// loaded and nonempty, one upload carrying the layer's z-index and the
/// per-index feature style resolved at the tile's zoom.  A style layer
/// whose paint resolves to no color while its geometry is present is an
/// error: a style authoring fault, not a silently skipped layer.
#[verifier::loop_isolation(false)]
pub fn upload_system(
    tiles: &mut Tiles,
    style: &Style,
    view_region: &Vec<WorldTileCoords>,
    loaded_layers: &Vec<String>,
) -> (r: Result<Vec<LayerUpload>, MissingColorError>)
    requires
        old(tiles).wf(),
        style_ok(style),
    ensures
        final(tiles).wf(),
        final(tiles)@ == old(tiles)@,
        match r {
            Ok(ups) => uploads_match(
                old(tiles),
                style,
                view_region@,
                loaded_layers@,
                0,
                0,
                ups@,
            ),
            Err(_) => exists|ci: int, sj: int|
                0 <= ci < view_region@.len() && 0 <= sj < style.layers@.len() && pair_lookup(
                    old(tiles),
                    &style.layers@[sj],
                    view_region@[ci],
                    loaded_layers@,
                ) is Some && !has_color(&style.layers@[sj], view_region@[ci].z),
        },
{
    let mut ups: Vec<LayerUpload> = Vec::new();
    let nc = view_region.len();
    let ns = style.layers.len();
    let mut ci: usize = 0;
    while ci < nc
        invariant
            ci <= nc == view_region@.len(),
            ns == style.layers@.len(),
            tiles.wf(),
            tiles@ == old(tiles)@,
            tiles.background_tile.buffer == old(tiles).background_tile.buffer,
            tiles.background_tile.feature_indices == old(tiles).background_tile.feature_indices,
            tiles.background_tile.coords == old(tiles).background_tile.coords,
            uploads_match(old(tiles), style, view_region@, loaded_layers@, ci as int, 0, Seq::empty())
                ==> uploads_match(
                old(tiles),
                style,
                view_region@,
                loaded_layers@,
                0,
                0,
                ups@ + Seq::empty(),
            ),
            forall|rest: Seq<LayerUpload>| uploads_match(
                old(tiles),
                style,
                view_region@,
                loaded_layers@,
                ci as int,
                0,
                rest,
            ) ==> uploads_match(
                old(tiles),
                style,
                view_region@,
                loaded_layers@,
                0,
                0,
                #[trigger] (ups@ + rest),
            ),
        decreases nc - ci,
    {
        let coords = view_region[ci];
        let mut sj: usize = 0;
        while sj < ns
            invariant
                sj <= ns == style.layers@.len(),
                ci < nc == view_region@.len(),
                coords == view_region@[ci as int],
                tiles.wf(),
                tiles@ == old(tiles)@,
                tiles.background_tile.buffer == old(tiles).background_tile.buffer,
                tiles.background_tile.feature_indices == old(tiles).background_tile.feature_indices,
                tiles.background_tile.coords == old(tiles).background_tile.coords,
                forall|rest: Seq<LayerUpload>| uploads_match(
                    old(tiles),
                    style,
                    view_region@,
                    loaded_layers@,
                    ci as int,
                    sj as int,
                    rest,
                ) ==> uploads_match(
                    old(tiles),
                    style,
                    view_region@,
                    loaded_layers@,
                    0,
                    0,
                    #[trigger] (ups@ + rest),
                ),
            decreases ns - sj,
        {
            let style_layer = &style.layers[sj];
            let layer_data = tiles.find_layer(
                coords,
                &style_layer.source_layer,
                style_layer.id.as_str(),
                loaded_layers,
            );
            let ghost found = pair_lookup(old(tiles), &style.layers@[sj as int], coords,
                loaded_layers@);
            match layer_data {
                None => {
                    proof {
                        assert(found is None);
                    }
                },
                Some(data) => {
                    proof {
                        assert(found matches Some(fd) && fd.feature_indices@
                            == data.feature_indices@);
                    }
                    // resolve the paint at this tile's zoom
                    let color: Option<Rgba> = match &style_layer.paint {
                        Some(p) => p.get_color(coords.z),
                        None => None,
                    };
                    let width: Rational = match &style_layer.paint {
                        Some(LayerPaint::Line(lp)) => match &lp.line_width {
                            Some(q) => match interpolate(q, coords.z) {
                                Some(w) => w,
                                None => Rational::new(0, 1),
                            },
                            None => Rational::new(0, 1),
                        },
                        _ => Rational::new(0, 1),
                    };
                    match color {
                        Some(c) => {
                            let fs = ShaderFeatureStyle { color: c, width };
                            let feature_metadata = expand_feature_metadata(
                                &data.feature_indices,
                                fs,
                            );
                            if feature_metadata.len() > 0 {
                                let upload = LayerUpload {
                                    coords,
                                    style_layer_id: style_layer.id.clone(),
                                    metadata: ShaderLayerMetadata::new(style_layer.index),
                                    feature_metadata,
                                };
                                let ghost before = ups@;
                                ups.push(upload);
                                proof {
                                    assert forall|rest: Seq<LayerUpload>| uploads_match(
                                        old(tiles),
                                        style,
                                        view_region@,
                                        loaded_layers@,
                                        ci as int,
                                        sj + 1,
                                        rest,
                                    ) implies uploads_match(
                                        old(tiles),
                                        style,
                                        view_region@,
                                        loaded_layers@,
                                        0,
                                        0,
                                        #[trigger] (ups@ + rest),
                                    ) by {
                                        let withme = seq![ups@.last()] + rest;
                                        assert(withme.drop_first() =~= rest);
                                        assert(upload_matches(&withme[0], old(tiles),
                                            &style.layers@[sj as int], coords, loaded_layers@));
                                        assert(uploads_match(old(tiles), style, view_region@,
                                            loaded_layers@, ci as int, sj as int, withme));
                                        assert(ups@ + rest =~= before + withme);
                                    }
                                }
                            } else {
                                proof {
                                    assert(!pair_produces(old(tiles), &style.layers@[sj as int],
                                        coords, loaded_layers@));
                                }
                            }
                        },
                        None => {
                            // geometry without a resolvable color is a
                            // style authoring fault: fatal
                            proof {
                                assert(pair_lookup(
                                    old(tiles),
                                    &style.layers@[sj as int],
                                    view_region@[ci as int],
                                    loaded_layers@,
                                ) is Some && !has_color(
                                    &style.layers@[sj as int],
                                    view_region@[ci as int].z,
                                ));
                            }
                            return Err(MissingColorError);
                        },
                    }
                },
            }
            sj = sj + 1;
        }
        ci = ci + 1;
    }
    proof {
        assert(uploads_match(old(tiles), style, view_region@, loaded_layers@, nc as int, 0,
            Seq::<LayerUpload>::empty()));
        assert(ups@ + Seq::<LayerUpload>::empty() =~= ups@);
    }
    Ok(ups)
}

} // verus!
