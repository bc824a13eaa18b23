//! The vector tile wire format: decoding tile bytes into plain layer data
//! and deriving the per-feature geometry/property event stream the
//! tessellator consumes.
//!
//! Only the protobuf decode itself is trusted; the geometry command
//! grammar (move-to/line-to/close-path with zigzag parameters), the tag
//! resolution and the value typing are verified against the spec
//! functions below, which mirror the wire format exactly.

use vstd::prelude::*;
use geozero::mvt::tile::GeomType;
use crate::binary64::widen_bits;
use crate::binary64;
use crate::expression::ComparisonLiteral;
use crate::expression::LitV;
use crate::tessellation::GeomEvent;
use crate::tessellation::GeomEventV;
use crate::tessellation::event_views;

verus! {

/// A property value as the wire carries it: at most one of the typed
/// fields is set.  Float fields carry IEEE bit patterns.
#[derive(Clone, Debug)]
pub struct RawValue {
    pub string_value: Option<String>,
    pub float_value: Option<u32>,
    pub double_value: Option<u64>,
    pub int_value: Option<i64>,
    pub uint_value: Option<u64>,
    pub sint_value: Option<i64>,
    pub bool_value: Option<bool>,
}

/// The mathematical view of a raw value.
pub ghost struct RawValueV {
    pub string_value: Option<Seq<char>>,
    pub float_value: Option<u32>,
    pub double_value: Option<u64>,
    pub int_value: Option<i64>,
    pub uint_value: Option<u64>,
    pub sint_value: Option<i64>,
    pub bool_value: Option<bool>,
}

impl View for RawValue {
    type V = RawValueV;

    open spec fn view(&self) -> RawValueV {
        RawValueV {
            string_value: match &self.string_value {
                Some(s) => Some(s@),
                None => None,
            },
            float_value: self.float_value,
            double_value: self.double_value,
            int_value: self.int_value,
            uint_value: self.uint_value,
            sint_value: self.sint_value,
            bool_value: self.bool_value,
        }
    }
}

/// One feature of a decoded layer: tag pairs into the layer's key/value
/// tables, a geometry type, and the geometry command stream.
#[derive(Clone, Debug)]
pub struct FeatureData {
    pub id: Option<u64>,
    pub tags: Vec<u32>,
    pub geom_type: Option<i32>,
    pub geometry: Vec<u32>,
}

/// The mathematical view of a feature.
pub ghost struct FeatureDataV {
    pub id: Option<u64>,
    pub tags: Seq<u32>,
    pub geom_type: Option<i32>,
    pub geometry: Seq<u32>,
}

impl View for FeatureData {
    type V = FeatureDataV;

    open spec fn view(&self) -> FeatureDataV {
        FeatureDataV {
            id: self.id,
            tags: self.tags@,
            geom_type: self.geom_type,
            geometry: self.geometry@,
        }
    }
}

/// One named layer of a decoded tile.
#[derive(Clone, Debug)]
pub struct LayerData {
    pub version: u32,
    pub name: String,
    pub features: Vec<FeatureData>,
    pub keys: Vec<String>,
    pub values: Vec<RawValue>,
    pub extent: Option<u32>,
}

/// The mathematical view of a layer.
pub ghost struct LayerDataV {
    pub version: u32,
    pub name: Seq<char>,
    pub features: Seq<FeatureDataV>,
    pub keys: Seq<Seq<char>>,
    pub values: Seq<RawValueV>,
    pub extent: Option<u32>,
}

impl View for LayerData {
    type V = LayerDataV;

    open spec fn view(&self) -> LayerDataV {
        LayerDataV {
            version: self.version,
            name: self.name@,
            features: self.features@.map_values(|f: FeatureData| f@),
            keys: self.keys@.map_values(|k: String| k@),
            values: self.values@.map_values(|v: RawValue| v@),
            extent: self.extent,
        }
    }
}

/// The views of a decoded layer list.
pub open spec fn layer_views(s: Seq<LayerData>) -> Seq<LayerDataV> {
    s.map_values(|l: LayerData| l@)
}

/// What decoding a tile byte string yields, as a function of the bytes
/// alone: the decoded layers, or nothing when the bytes are not a valid
/// tile message.
pub uninterp spec fn mvt_decode_of(bytes: Seq<u8>) -> Option<Seq<LayerDataV>>;

#[verifier::external_type_specification]
#[verifier::external_body]
pub struct ExTileLayer(geozero::mvt::tile::Layer);

#[verifier::external_type_specification]
#[verifier::external_body]
pub struct ExTileFeature(geozero::mvt::tile::Feature);

#[verifier::external_type_specification]
#[verifier::external_body]
pub struct ExTileValue(geozero::mvt::tile::Value);

/// Relies on `prost::Message::decode` for `geozero::mvt::Tile`: decodes
/// the tile wire format; the fields of the decoded message are moved over
/// one for one (float fields as their bit patterns).
#[verifier::external_body]
pub fn decode_tile(data: &Vec<u8>) -> (r: Result<Vec<LayerData>, String>)
    ensures
        match r {
            Ok(layers) => mvt_decode_of(data@) == Some(layer_views(layers@)),
            Err(_) => mvt_decode_of(data@) is None,
        },
{
    match <geozero::mvt::Tile as geozero::mvt::Message>::decode(data.as_slice()) {
        Ok(tile) => Ok(tile.layers.into_iter().map(layer_to_plain).collect()),
        Err(e) => Err(format!("{e}")),
    }
}

/// Relies on the `geozero::mvt::tile::Layer` field layout: moves each
/// field over unchanged.
#[verifier::external_body]
fn layer_to_plain(l: geozero::mvt::tile::Layer) -> LayerData {
    LayerData {
        version: l.version,
        name: l.name,
        features: l.features.into_iter().map(feature_to_plain).collect(),
        keys: l.keys,
        values: l.values.into_iter().map(value_to_plain).collect(),
        extent: l.extent,
    }
}

/// Relies on the `geozero::mvt::tile::Feature` field layout: moves each
/// field over unchanged.  The geometry-type field is read by probing with
/// `Feature::set_type` and the derived equality; a missing or out-of-range
/// type becomes `None`, for which no geometry is derived.
#[verifier::external_body]
fn feature_to_plain(f: geozero::mvt::tile::Feature) -> FeatureData {
    let mut probe = f.clone();
    let mut geom_type: Option<i32> = None;
    for kind in [GeomType::Point, GeomType::Linestring, GeomType::Polygon, GeomType::Unknown] {
        probe.set_type(kind);
        if probe == f {
            geom_type = Some(kind as i32);
            break;
        }
    }
    FeatureData { id: f.id, tags: f.tags, geom_type, geometry: f.geometry }
}

/// Relies on the `geozero::mvt::tile::Value` field layout: moves each
/// optional field over, float fields as bit patterns.
#[verifier::external_body]
fn value_to_plain(v: geozero::mvt::tile::Value) -> RawValue {
    RawValue {
        string_value: v.string_value,
        float_value: v.float_value.map(|x| x.to_bits()),
        double_value: v.double_value.map(|x| x.to_bits()),
        int_value: v.int_value,
        uint_value: v.uint_value,
        sint_value: v.sint_value,
        bool_value: v.bool_value,
    }
}

/// An error in a decoded layer's feature data.
#[derive(Clone, Copy, Debug, PartialEq, Eq, Structural)]
pub enum MvtError {
    /// The geometry command stream breaks the grammar.
    GeometryFormat,
    /// A feature's tag list has odd length.
    InvalidTags,
    /// A tag names no key of the layer.
    InvalidKeyIndex,
    /// A tag names no value of the layer.
    InvalidValueIndex,
    /// A value has none of the typed fields set.
    UnsupportedValue,
    /// A cumulative coordinate leaves the 32-bit range.
    CoordinateOverflow,
}

/// The literal a wire value denotes: the first set field in wire order,
/// with 32-bit floats widened exactly and unsigned 64-bit integers
/// wrapped into the signed literal domain.
pub open spec fn literal_of_value(v: RawValueV) -> Option<LitV> {
    if v.string_value is Some {
        Some(LitV::Str(v.string_value->0))
    } else if v.float_value is Some {
        Some(LitV::Float(widen_bits(v.float_value->0)))
    } else if v.double_value is Some {
        Some(LitV::Float(v.double_value->0))
    } else if v.int_value is Some {
        Some(LitV::Integer(v.int_value->0 as int))
    } else if v.uint_value is Some {
        Some(LitV::Integer(v.uint_value->0 as i64 as int))
    } else if v.sint_value is Some {
        Some(LitV::Integer(v.sint_value->0 as int))
    } else if v.bool_value is Some {
        Some(LitV::Bool(v.bool_value->0))
    } else {
        None
    }
}

/// Converts a wire value to a filter literal.
pub fn value_literal(v: &RawValue) -> (r: Result<ComparisonLiteral, MvtError>)
    ensures
        match r {
            Ok(lit) => literal_of_value(v@) == Some(lit@),
            Err(e) => literal_of_value(v@) is None && e == MvtError::UnsupportedValue,
        },
{
    if let Some(s) = &v.string_value {
        Ok(ComparisonLiteral::String(s.clone()))
    } else if let Some(x) = v.float_value {
        Ok(ComparisonLiteral::Float(binary64::widen_f32_bits(x)))
    } else if let Some(x) = v.double_value {
        Ok(ComparisonLiteral::Float(x))
    } else if let Some(x) = v.int_value {
        Ok(ComparisonLiteral::Integer(x))
    } else if let Some(x) = v.uint_value {
        Ok(ComparisonLiteral::Integer(x as i64))
    } else if let Some(x) = v.sint_value {
        Ok(ComparisonLiteral::Integer(x))
    } else if let Some(x) = v.bool_value {
        Ok(ComparisonLiteral::Bool(x))
    } else {
        Err(MvtError::UnsupportedValue)
    }
}

/// The property events of a feature's tag list: consecutive pairs of
/// key/value table indices, in order.
pub open spec fn prop_events(layer: LayerDataV, tags: Seq<u32>) -> Result<Seq<GeomEventV>, MvtError>
    decreases tags.len(),
{
    if tags.len() == 0 {
        Ok(Seq::empty())
    } else if tags.len() == 1 {
        Err(MvtError::InvalidTags)
    } else {
        let ki = tags[0];
        let vi = tags[1];
        if ki >= layer.keys.len() {
            Err(MvtError::InvalidKeyIndex)
        } else if vi >= layer.values.len() {
            Err(MvtError::InvalidValueIndex)
        } else {
            match literal_of_value(layer.values[vi as int]) {
                Some(lit) => match prop_events(layer, tags.skip(2)) {
                    Ok(rest) => Ok(
                        seq![GeomEventV::Property(layer.keys[ki as int], lit)] + rest,
                    ),
                    Err(e) => Err(e),
                },
                Option::None => Err(MvtError::UnsupportedValue),
            }
        }
    }
}

/// Emits the property events of a feature.
pub fn feature_prop_events(layer: &LayerData, feature: &FeatureData, out: &mut Vec<GeomEvent>) -> (r:
    Result<(), MvtError>)
    ensures
        match r {
            Ok(()) => prop_events(layer@, feature.tags@) matches Ok(evs)
                && event_views(final(out)@) == event_views(old(out)@) + evs,
            Err(e) => prop_events(layer@, feature.tags@) == Err::<Seq<GeomEventV>, MvtError>(e),
        },
{
    proof {
        assert(feature.tags@.skip(0) =~= feature.tags@);
    }
    feature_prop_events_from(layer, feature, 0, out)
}

fn feature_prop_events_from(
    layer: &LayerData,
    feature: &FeatureData,
    i: usize,
    out: &mut Vec<GeomEvent>,
) -> (r: Result<(), MvtError>)
    requires
        i <= feature.tags@.len(),
    ensures
        match r {
            Ok(()) => prop_events(layer@, feature.tags@.skip(i as int)) matches Ok(evs)
                && event_views(final(out)@) == event_views(old(out)@) + evs,
            Err(e) => prop_events(layer@, feature.tags@.skip(i as int)) == Err::<
                Seq<GeomEventV>,
                MvtError,
            >(e),
        },
    decreases feature.tags@.len() - i,
{
    let n = feature.tags.len();
    let ghost rest = feature.tags@.skip(i as int);
    if i == n {
        proof {
            assert(event_views(out@) =~= event_views(out@) + Seq::<GeomEventV>::empty());
        }
        return Ok(());
    }
    if i + 1 == n {
        return Err(MvtError::InvalidTags);
    }
    let ki = feature.tags[i];
    let vi = feature.tags[i + 1];
    proof {
        assert(rest[0] == feature.tags@[i as int]);
        assert(rest[1] == feature.tags@[i + 1]);
        assert(rest.skip(2) =~= feature.tags@.skip(i + 2));
    }
    if (ki as usize) >= layer.keys.len() {
        return Err(MvtError::InvalidKeyIndex);
    }
    if (vi as usize) >= layer.values.len() {
        return Err(MvtError::InvalidValueIndex);
    }
    let lit = match value_literal(&layer.values[vi as usize]) {
        Ok(lit) => lit,
        Err(e) => {
            proof {
                assert(layer@.values[vi as int] == layer.values@[vi as int]@);
            }
            return Err(e);
        },
    };
    let ghost mid0 = out@;
    out.push(GeomEvent::Property(layer.keys[ki as usize].clone(), lit));
    proof {
        assert(layer@.keys[ki as int] == layer.keys@[ki as int]@);
        assert(layer@.values[vi as int] == layer.values@[vi as int]@);
        assert(event_views(out@) =~= event_views(mid0) + seq![GeomEventV::Property(
            layer@.keys[ki as int],
            literal_of_value(layer@.values[vi as int])->0,
        )]);
    }
    let ghost mid = out@;
    let r = feature_prop_events_from(layer, feature, i + 2, out);
    proof {
        if r is Ok {
            let evs_rest = prop_events(layer@, feature.tags@.skip(i + 2))->Ok_0;
            assert(event_views(out@) == event_views(mid) + evs_rest);
            assert(event_views(mid) + evs_rest =~= event_views(mid0) + (seq![GeomEventV::Property(
                layer@.keys[ki as int],
                literal_of_value(layer@.values[vi as int])->0,
            )] + evs_rest));
        }
    }
    r
}

/// The signed value of a zigzag-encoded parameter integer.
pub open spec fn zigzag(p: u32) -> int {
    if p % 2 == 0 {
        (p / 2) as int
    } else {
        -((p / 2) as int) - 1
    }
}

/// True when a cumulative coordinate stays in the 32-bit signed range.
pub open spec fn in_i32(x: int) -> bool {
    -0x8000_0000 <= x < 0x8000_0000
}

/// The coordinate events of a run of parameter pairs: the cursor moves by
/// each zigzag delta and every absolute position is emitted.
pub open spec fn coords_events(cx: int, cy: int, params: Seq<u32>) -> Result<
    (Seq<GeomEventV>, (int, int)),
    MvtError,
>
    decreases params.len(),
{
    if params.len() < 2 {
        Ok((Seq::empty(), (cx, cy)))
    } else {
        let nx = cx + zigzag(params[0]);
        let ny = cy + zigzag(params[1]);
        if !in_i32(nx) || !in_i32(ny) {
            Err(MvtError::CoordinateOverflow)
        } else {
            match coords_events(nx, ny, params.skip(2)) {
                Ok((evs, cur)) => Ok((seq![GeomEventV::Xy(nx as i64, ny as i64)] + evs, cur)),
                Err(e) => Err(e),
            }
        }
    }
}

/// The events of point geometry: one command integer carrying the point
/// count, then that many parameter pairs; a single point is emitted bare,
/// several as a multipoint.
pub open spec fn point_events(cx: int, cy: int, geom: Seq<u32>) -> Result<Seq<GeomEventV>, MvtError> {
    if geom.len() == 0 {
        Err(MvtError::GeometryFormat)
    } else {
        let count = (geom[0] >> 3) as int;
        if geom.len() < 1 + 2 * count {
            Err(MvtError::GeometryFormat)
        } else {
            match coords_events(cx, cy, geom.subrange(1, 1 + 2 * count)) {
                Err(e) => Err(e),
                Ok((evs, _)) => if count == 1 {
                    Ok(seq![GeomEventV::PointBegin] + evs + seq![GeomEventV::PointEnd])
                } else {
                    Ok(
                        seq![GeomEventV::MultiPointBegin] + evs
                            + seq![GeomEventV::MultiPointEnd],
                    )
                },
            }
        }
    }
}

/// Splits a geometry stream into slices of one move-to command, its pair,
/// one line-to command with its pairs, and, for polygon rings, the
/// trailing close-path command.
pub open spec fn split_slices(geom: Seq<u32>, with_close: bool) -> Result<Seq<Seq<u32>>, MvtError>
    decreases geom.len(),
{
    if geom.len() == 0 {
        Ok(Seq::empty())
    } else if geom.len() < 4 {
        Err(MvtError::GeometryFormat)
    } else {
        let count = (geom[3] >> 3) as int;
        let size = 4 + 2 * count + (if with_close { 1int } else { 0int });
        if geom.len() < size {
            Err(MvtError::GeometryFormat)
        } else {
            match split_slices(geom.skip(size), with_close) {
                Ok(rest) => Ok(seq![geom.take(size)] + rest),
                Err(e) => Err(e),
            }
        }
    }
}

/// The events of one linestring slice: a move-to command integer (`9`),
/// its pair, a line-to command, its pairs.
pub open spec fn linestring_events(cx: int, cy: int, slice: Seq<u32>, tagged: bool) -> Result<
    (Seq<GeomEventV>, (int, int)),
    MvtError,
> {
    if slice[0] != 9 {
        Err(MvtError::GeometryFormat)
    } else if slice[3] % 8 != 2 {
        Err(MvtError::GeometryFormat)
    } else {
        let count = (slice[3] >> 3) as int;
        match coords_events(cx, cy, slice.subrange(1, 3) + slice.subrange(4, 4 + 2 * count)) {
            Ok((evs, cur)) => Ok(
                (
                    seq![GeomEventV::LinestringBegin(tagged)] + evs
                        + seq![GeomEventV::LinestringEnd(tagged)],
                    cur,
                ),
            ),
            Err(e) => Err(e),
        }
    }
}

/// The events of several linestring slices in order, chaining the cursor.
pub open spec fn linestrings_run(
    cx: int,
    cy: int,
    slices: Seq<Seq<u32>>,
    tagged: bool,
) -> Result<(Seq<GeomEventV>, (int, int)), MvtError>
    decreases slices.len(),
{
    if slices.len() == 0 {
        Ok((Seq::empty(), (cx, cy)))
    } else {
        match linestring_events(cx, cy, slices[0], tagged) {
            Ok((evs, cur)) => match linestrings_run(cur.0, cur.1, slices.skip(1), tagged) {
                Ok((evs2, cur2)) => Ok((evs + evs2, cur2)),
                Err(e) => Err(e),
            },
            Err(e) => Err(e),
        }
    }
}

/// The events of linestring geometry: one slice is a bare (tagged)
/// linestring, several form a multilinestring of untagged ones.
pub open spec fn linestring_geom_events(cx: int, cy: int, geom: Seq<u32>) -> Result<
    Seq<GeomEventV>,
    MvtError,
> {
    match split_slices(geom, false) {
        Err(e) => Err(e),
        Ok(slices) => if slices.len() == 0 {
            Err(MvtError::GeometryFormat)
        } else if slices.len() == 1 {
            match linestring_events(cx, cy, slices[0], true) {
                Ok((evs, _)) => Ok(evs),
                Err(e) => Err(e),
            }
        } else {
            match linestrings_run(cx, cy, slices, false) {
                Ok((evs, _)) => Ok(
                    seq![GeomEventV::MultiLinestringBegin] + evs
                        + seq![GeomEventV::MultiLinestringEnd],
                ),
                Err(e) => Err(e),
            }
        },
    }
}

/// The surveyor's sum walked over parameter pairs from a position,
/// erring where a cumulative coordinate leaves the 32-bit range the wire
/// format addresses.
pub open spec fn area_walk(x0: int, y0: int, params: Seq<u32>) -> Result<int, MvtError>
    decreases params.len(),
{
    if params.len() < 2 {
        Ok(0)
    } else {
        let x1 = x0 + zigzag(params[0]);
        let y1 = y0 + zigzag(params[1]);
        if !in_i32(x1) || !in_i32(y1) {
            Err(MvtError::CoordinateOverflow)
        } else {
            match area_walk(x1, y1, params.skip(2)) {
                Ok(rest) => Ok(x0 * y1 - y0 * x1 + rest),
                Err(e) => Err(e),
            }
        }
    }
}

/// Whether a ring's surveyor sum is positive, walked exactly as the wire
/// reader walks it: first pair, the line-to pairs, then the first pair
/// again, all from the polygon run's starting cursor.
pub open spec fn ring_area_positive(cx: int, cy: int, ring: Seq<u32>) -> Result<bool, MvtError> {
    let count = (ring[3] >> 3) as int;
    let first = ring.subrange(1, 3);
    let rest = ring.subrange(4, 4 + 2 * count);
    let x0 = cx + zigzag(ring[1]);
    let y0 = cy + zigzag(ring[2]);
    if !in_i32(x0) || !in_i32(y0) {
        Err(MvtError::CoordinateOverflow)
    } else {
        match area_walk(x0, y0, rest + first) {
            Ok(a) => Ok(a > 0),
            Err(e) => Err(e),
        }
    }
}

/// The index of the next exterior (positive-area) ring at or after `i`,
/// or the first classification error.
pub open spec fn next_positive(cx: int, cy: int, slices: Seq<Seq<u32>>, i: int) -> Result<
    int,
    MvtError,
>
    decreases slices.len() - i,
{
    if i < 0 || i >= slices.len() {
        Ok(slices.len() as int)
    } else {
        match ring_area_positive(cx, cy, slices[i]) {
            Err(e) => Err(e),
            Ok(true) => Ok(i),
            Ok(false) => next_positive(cx, cy, slices, i + 1),
        }
    }
}

/// Groups ring slices into polygons: each exterior ring opens a polygon
/// and carries the interior rings after it; an interior ring before any
/// exterior one is an error.
pub open spec fn group_polygons(cx: int, cy: int, slices: Seq<Seq<u32>>) -> Result<
    Seq<Seq<Seq<u32>>>,
    MvtError,
>
    decreases slices.len(),
    via group_polygons_dec
{
    if slices.len() == 0 {
        Ok(Seq::empty())
    } else {
        match ring_area_positive(cx, cy, slices[0]) {
            Err(e) => Err(e),
            Ok(false) => Err(MvtError::GeometryFormat),
            Ok(true) => match next_positive(cx, cy, slices, 1) {
                Err(e) => Err(e),
                Ok(j) => match group_polygons(cx, cy, slices.skip(j)) {
                    Ok(rest) => Ok(seq![slices.take(j)] + rest),
                    Err(e) => Err(e),
                },
            },
        }
    }
}

#[via_fn]
proof fn group_polygons_dec(cx: int, cy: int, slices: Seq<Seq<u32>>) {
    if slices.len() > 0 && ring_area_positive(cx, cy, slices[0]) == Ok::<bool, MvtError>(true) {
        lemma_next_positive_ge(cx, cy, slices, 1);
    }
}

/// A successful `next_positive` never answers below its starting index.
pub proof fn lemma_next_positive_ge(cx: int, cy: int, slices: Seq<Seq<u32>>, i: int)
    requires
        0 <= i <= slices.len(),
    ensures
        next_positive(cx, cy, slices, i) matches Ok(j) ==> i <= j <= slices.len(),
    decreases slices.len() - i,
{
    if i < slices.len() {
        lemma_next_positive_ge(cx, cy, slices, i + 1);
    }
}

/// The events of one polygon ring: checked commands, the coordinates, and
/// the first point re-emitted to close the ring visibly.
pub open spec fn ring_events(cx: int, cy: int, ring: Seq<u32>) -> Result<
    (Seq<GeomEventV>, (int, int)),
    MvtError,
> {
    if ring[0] != 9 {
        Err(MvtError::GeometryFormat)
    } else if ring.last() != 15 {
        Err(MvtError::GeometryFormat)
    } else if ring[3] % 8 != 2 {
        Err(MvtError::GeometryFormat)
    } else {
        let count = (ring[3] >> 3) as int;
        match coords_events(cx, cy, ring.subrange(1, 3) + ring.subrange(4, 4 + 2 * count)) {
            Err(e) => Err(e),
            Ok((evs, cur)) => {
                let fx = cx + zigzag(ring[1]);
                let fy = cy + zigzag(ring[2]);
                Ok(
                    (
                        seq![GeomEventV::LinestringBegin(false)] + evs + seq![
                            GeomEventV::Xy(fx as i64, fy as i64),
                            GeomEventV::LinestringEnd(false),
                        ],
                        cur,
                    ),
                )
            },
        }
    }
}

/// The events of a polygon's rings in order, chaining the cursor.
pub open spec fn rings_run(cx: int, cy: int, rings: Seq<Seq<u32>>) -> Result<
    (Seq<GeomEventV>, (int, int)),
    MvtError,
>
    decreases rings.len(),
{
    if rings.len() == 0 {
        Ok((Seq::empty(), (cx, cy)))
    } else {
        match ring_events(cx, cy, rings[0]) {
            Ok((evs, cur)) => match rings_run(cur.0, cur.1, rings.skip(1)) {
                Ok((evs2, cur2)) => Ok((evs + evs2, cur2)),
                Err(e) => Err(e),
            },
            Err(e) => Err(e),
        }
    }
}

/// The events of one polygon.
pub open spec fn polygon_events(cx: int, cy: int, rings: Seq<Seq<u32>>, tagged: bool) -> Result<
    (Seq<GeomEventV>, (int, int)),
    MvtError,
> {
    match rings_run(cx, cy, rings) {
        Ok((evs, cur)) => Ok(
            (
                seq![GeomEventV::PolygonBegin(tagged)] + evs
                    + seq![GeomEventV::PolygonEnd(tagged)],
                cur,
            ),
        ),
        Err(e) => Err(e),
    }
}

/// The events of several polygons in order, chaining the cursor.
pub open spec fn polygons_run(cx: int, cy: int, groups: Seq<Seq<Seq<u32>>>, tagged: bool) -> Result<
    (Seq<GeomEventV>, (int, int)),
    MvtError,
>
    decreases groups.len(),
{
    if groups.len() == 0 {
        Ok((Seq::empty(), (cx, cy)))
    } else {
        match polygon_events(cx, cy, groups[0], tagged) {
            Ok((evs, cur)) => match polygons_run(cur.0, cur.1, groups.skip(1), tagged) {
                Ok((evs2, cur2)) => Ok((evs + evs2, cur2)),
                Err(e) => Err(e),
            },
            Err(e) => Err(e),
        }
    }
}

/// The events of polygon geometry: one polygon is emitted bare (tagged),
/// several as a multipolygon of untagged ones.
pub open spec fn polygon_geom_events(cx: int, cy: int, geom: Seq<u32>) -> Result<
    Seq<GeomEventV>,
    MvtError,
> {
    match split_slices(geom, true) {
        Err(e) => Err(e),
        Ok(slices) => match group_polygons(cx, cy, slices) {
            Err(e) => Err(e),
            Ok(groups) => if groups.len() == 0 {
                Err(MvtError::GeometryFormat)
            } else if groups.len() == 1 {
                match polygon_events(cx, cy, groups[0], true) {
                    Ok((evs, _)) => Ok(evs),
                    Err(e) => Err(e),
                }
            } else {
                match polygons_run(cx, cy, groups, false) {
                    Ok((evs, _)) => Ok(
                        seq![GeomEventV::MultiPolygonBegin] + evs
                            + seq![GeomEventV::MultiPolygonEnd],
                    ),
                    Err(e) => Err(e),
                }
            },
        },
    }
}

/// The geometry events of a feature, by its wire geometry type; an
/// unknown or absent type yields no geometry.
pub open spec fn geometry_events(f: FeatureDataV) -> Result<Seq<GeomEventV>, MvtError> {
    match f.geom_type {
        Some(t) => if t == 1 {
            point_events(0, 0, f.geometry)
        } else if t == 2 {
            linestring_geom_events(0, 0, f.geometry)
        } else if t == 3 {
            polygon_geom_events(0, 0, f.geometry)
        } else {
            Ok(Seq::empty())
        },
        Option::None => Ok(Seq::empty()),
    }
}

/// The full event stream of one feature: feature begin, its properties,
/// its geometry, feature end.
pub open spec fn feature_events_spec(layer: LayerDataV, f: FeatureDataV) -> Result<
    Seq<GeomEventV>,
    MvtError,
> {
    match prop_events(layer, f.tags) {
        Err(e) => Err(e),
        Ok(pe) => match geometry_events(f) {
            Err(e) => Err(e),
            Ok(ge) => Ok(
                seq![GeomEventV::FeatureBegin] + pe + ge + seq![GeomEventV::FeatureEnd],
            ),
        },
    }
}

/// The event stream of a whole layer, feature after feature, starting at
/// feature `i`.
pub open spec fn layer_events_from(layer: LayerDataV, i: int) -> Result<Seq<GeomEventV>, MvtError>
    decreases layer.features.len() - i,
{
    if i < 0 || i >= layer.features.len() {
        Ok(Seq::empty())
    } else {
        match feature_events_spec(layer, layer.features[i]) {
            Err(e) => Err(e),
            Ok(evs) => match layer_events_from(layer, i + 1) {
                Ok(rest) => Ok(evs + rest),
                Err(e) => Err(e),
            },
        }
    }
}

/// The event stream of a whole layer.
pub open spec fn layer_events_spec(layer: LayerDataV) -> Result<Seq<GeomEventV>, MvtError> {
    layer_events_from(layer, 0)
}

/// Composes an emitted prefix with the rest of a coordinate run.
pub open spec fn prepend_run(
    pre: Seq<GeomEventV>,
    r: Result<(Seq<GeomEventV>, (int, int)), MvtError>,
) -> Result<(Seq<GeomEventV>, (int, int)), MvtError> {
    match r {
        Ok((evs, cur)) => Ok((pre + evs, cur)),
        Err(e) => Err(e),
    }
}

/// The signed value of a zigzag-encoded parameter.
fn zz(p: u32) -> (r: i64)
    ensures
        r == zigzag(p),
        -0x8000_0000 <= r <= 0x8000_0000,
{
    if p % 2 == 0 {
        (p / 2) as i64
    } else {
        -((p / 2) as i64) - 1
    }
}

/// Splitting a coordinate run at an even position splits its events at
/// the cursor reached there.
proof fn lemma_coords_append(cx: int, cy: int, a: Seq<u32>, b: Seq<u32>)
    requires
        a.len() % 2 == 0,
    ensures
        coords_events(cx, cy, a + b) == match coords_events(cx, cy, a) {
            Ok((e1, c1)) => prepend_run(e1, coords_events(c1.0, c1.1, b)),
            Err(e) => Err::<(Seq<GeomEventV>, (int, int)), MvtError>(e),
        },
    decreases a.len(),
{
    if a.len() == 0 {
        assert(a + b =~= b);
        match coords_events(cx, cy, b) {
            Ok((e2, c2)) => {
                assert(Seq::<GeomEventV>::empty() + e2 =~= e2);
            },
            Err(_) => {},
        }
    } else {
        let nx = cx + zigzag(a[0]);
        let ny = cy + zigzag(a[1]);
        assert((a + b)[0] == a[0] && (a + b)[1] == a[1]);
        if in_i32(nx) && in_i32(ny) {
            assert((a + b).skip(2) =~= a.skip(2) + b);
            lemma_coords_append(nx, ny, a.skip(2), b);
            match coords_events(nx, ny, a.skip(2)) {
                Ok((e1, c1)) => {
                    match coords_events(c1.0, c1.1, b) {
                        Ok((e2, c2)) => {
                            assert(seq![GeomEventV::Xy(nx as i64, ny as i64)] + (e1 + e2)
                                =~= (seq![GeomEventV::Xy(nx as i64, ny as i64)] + e1) + e2);
                        },
                        Err(_) => {},
                    }
                },
                Err(_) => {},
            }
        }
    }
}

/// Emits the coordinate events of `geom[lo..hi]` from cursor `(cx, cy)`.
#[verifier::loop_isolation(false)]
fn emit_coords(
    geom: &Vec<u32>,
    lo: usize,
    hi: usize,
    cx: i64,
    cy: i64,
    out: &mut Vec<GeomEvent>,
) -> (r: Result<(i64, i64), MvtError>)
    requires
        lo <= hi <= geom@.len(),
        (hi - lo) % 2 == 0,
        in_i32(cx as int),
        in_i32(cy as int),
    ensures
        match r {
            Ok((nx, ny)) => coords_events(cx as int, cy as int, geom@.subrange(lo as int, hi as int))
                matches Ok((evs, cur))
                && event_views(final(out)@) == event_views(old(out)@) + evs
                && cur == (nx as int, ny as int) && in_i32(nx as int) && in_i32(ny as int),
            Err(e) => coords_events(cx as int, cy as int, geom@.subrange(lo as int, hi as int))
                == Err::<(Seq<GeomEventV>, (int, int)), MvtError>(e),
        },
{
    let ghost full = geom@.subrange(lo as int, hi as int);
    let mut i: usize = lo;
    let mut x: i64 = cx;
    let mut y: i64 = cy;
    proof {
        assert(full.skip(0) =~= full);
        assert(event_views(out@) =~= event_views(old(out)@) + Seq::<GeomEventV>::empty());
    }
    while i < hi
        invariant
            lo <= i <= hi,
            (i - lo) % 2 == 0,
            in_i32(x as int),
            in_i32(y as int),
            coords_events(cx as int, cy as int, full) == prepend_run(
                event_views(out@).skip(event_views(old(out)@).len() as int),
                coords_events(x as int, y as int, full.skip(i - lo)),
            ),
            event_views(out@).take(event_views(old(out)@).len() as int)
                == event_views(old(out)@),
            out@.len() >= old(out)@.len(),
        decreases hi - i,
    {
        proof {
            assert(full.skip(i - lo)[0] == geom@[i as int]);
            assert(full.skip(i - lo)[1] == geom@[i + 1]);
            assert(full.skip(i - lo).skip(2) =~= full.skip(i + 2 - lo));
        }
        let dx = zz(geom[i]);
        let dy = zz(geom[i + 1]);
        let nx = x + dx;
        let ny = y + dy;
        if !(-0x8000_0000 <= nx && nx < 0x8000_0000) || !(-0x8000_0000 <= ny && ny
            < 0x8000_0000) {
            return Err(MvtError::CoordinateOverflow);
        }
        let ghost before = out@;
        out.push(GeomEvent::Xy(nx, ny));
        proof {
            assert(event_views(out@) =~= event_views(before) + seq![GeomEventV::Xy(nx, ny)]);
            assert(event_views(out@).take(event_views(old(out)@).len() as int)
                =~= event_views(old(out)@));
            assert(event_views(out@).skip(event_views(old(out)@).len() as int)
                =~= event_views(before).skip(event_views(old(out)@).len() as int)
                + seq![GeomEventV::Xy(nx, ny)]);
            let pre0 = event_views(before).skip(event_views(old(out)@).len() as int);
            match coords_events(nx as int, ny as int, full.skip(i + 2 - lo)) {
                Ok((evs, cur)) => {
                    assert(pre0 + (seq![GeomEventV::Xy(nx, ny)] + evs)
                        =~= (pre0 + seq![GeomEventV::Xy(nx, ny)]) + evs);
                },
                Err(_) => {},
            }
        }
        x = nx;
        y = ny;
        i = i + 2;
    }
    proof {
        assert(full.skip(hi - lo).len() == 0);
        assert(event_views(out@)
            =~= event_views(out@).take(event_views(old(out)@).len() as int)
            + event_views(out@).skip(event_views(old(out)@).len() as int));
        match coords_events(cx as int, cy as int, full) {
            Ok((evs, cur)) => {
                assert(event_views(out@).skip(event_views(old(out)@).len() as int) + Seq::<
                    GeomEventV,
                >::empty() =~= event_views(out@).skip(event_views(old(out)@).len() as int));
            },
            Err(_) => {
                assert(false);
            },
        }
    }
    Ok((x, y))
}

/// Emits the events of point geometry.
fn emit_point(geom: &Vec<u32>, out: &mut Vec<GeomEvent>) -> (r: Result<(), MvtError>)
    ensures
        match r {
            Ok(()) => point_events(0, 0, geom@) matches Ok(evs)
                && event_views(final(out)@) == event_views(old(out)@) + evs,
            Err(e) => point_events(0, 0, geom@) == Err::<Seq<GeomEventV>, MvtError>(e),
        },
{
    if geom.len() == 0 {
        return Err(MvtError::GeometryFormat);
    }
    let c0 = geom[0];
    let count32: u32 = c0 >> 3;
    proof {
        assert(c0 >> 3 <= 0x1fff_ffffu32) by (bit_vector);
    }
    let count = count32 as usize;
    if (geom.len() as u64) < 1 + 2 * (count as u64) {
        return Err(MvtError::GeometryFormat);
    }
    let ghost pre = out@;
    if count == 1 {
        out.push(GeomEvent::PointBegin);
        proof {
            assert(event_views(out@) =~= event_views(pre) + seq![GeomEventV::PointBegin]);
        }
    } else {
        out.push(GeomEvent::MultiPointBegin);
        proof {
            assert(event_views(out@) =~= event_views(pre) + seq![GeomEventV::MultiPointBegin]);
        }
    }
    let ghost mid1 = out@;
    match emit_coords(geom, 1, 1 + 2 * count, 0, 0, out) {
        Err(e) => {
            return Err(e);
        },
        Ok(_) => {},
    }
    let ghost mid2 = out@;
    let ghost coord_evs = coords_events(0, 0, geom@.subrange(1, 1 + 2 * count as int))->Ok_0.0;
    if count == 1 {
        out.push(GeomEvent::PointEnd);
        proof {
            assert(event_views(out@) =~= event_views(mid2) + seq![GeomEventV::PointEnd]);
            assert(event_views(out@) =~= event_views(pre) + (seq![GeomEventV::PointBegin]
                + coord_evs + seq![GeomEventV::PointEnd]));
        }
    } else {
        out.push(GeomEvent::MultiPointEnd);
        proof {
            assert(event_views(out@) =~= event_views(mid2) + seq![GeomEventV::MultiPointEnd]);
            assert(event_views(out@) =~= event_views(pre) + (seq![GeomEventV::MultiPointBegin]
                + coord_evs + seq![GeomEventV::MultiPointEnd]));
        }
    }
    Ok(())
}

/// The slices a bound list denotes.
pub open spec fn ranges_view(g: Seq<u32>, bs: Seq<(usize, usize)>) -> Seq<Seq<u32>> {
    bs.map_values(|b: (usize, usize)| g.subrange(b.0 as int, b.1 as int))
}

/// A well-formed slice bound: inside the stream and sized by its line-to
/// count.
pub open spec fn bound_ok(g: Seq<u32>, b: (usize, usize), with_close: bool) -> bool {
    &&& b.0 + 4 <= b.1 <= g.len()
    &&& b.1 - b.0 == 4 + 2 * ((g[b.0 + 3] >> 3) as int) + (if with_close { 1int } else { 0int })
}

/// Composes already-split slices with the rest of a split.
pub open spec fn prepend_slices(
    pre: Seq<Seq<u32>>,
    r: Result<Seq<Seq<u32>>, MvtError>,
) -> Result<Seq<Seq<u32>>, MvtError> {
    match r {
        Ok(rest) => Ok(pre + rest),
        Err(e) => Err(e),
    }
}

/// Splits a geometry stream into slice bounds.
#[verifier::loop_isolation(false)]
fn split_ranges(geom: &Vec<u32>, with_close: bool) -> (r: Result<Vec<(usize, usize)>, MvtError>)
    ensures
        match r {
            Ok(bounds) => split_slices(geom@, with_close) == Ok::<Seq<Seq<u32>>, MvtError>(
                ranges_view(geom@, bounds@),
            ) && forall|k: int| 0 <= k < bounds@.len() ==> bound_ok(geom@, bounds@[k], with_close),
            Err(e) => split_slices(geom@, with_close) == Err::<Seq<Seq<u32>>, MvtError>(e),
        },
{
    let n = geom.len();
    let mut bounds: Vec<(usize, usize)> = Vec::new();
    let mut pos: usize = 0;
    proof {
        assert(geom@.skip(0) =~= geom@);
        assert(ranges_view(geom@, bounds@) =~= Seq::<Seq<u32>>::empty());
    }
    while pos < n
        invariant
            pos <= n == geom@.len(),
            split_slices(geom@, with_close) == prepend_slices(
                ranges_view(geom@, bounds@),
                split_slices(geom@.skip(pos as int), with_close),
            ),
            forall|k: int| 0 <= k < bounds@.len() ==> bound_ok(geom@, bounds@[k], with_close),
        decreases n - pos,
    {
        if n - pos < 4 {
            return Err(MvtError::GeometryFormat);
        }
        proof {
            assert(geom@.skip(pos as int)[3] == geom@[pos + 3]);
        }
        let c3 = geom[pos + 3];
        let count32: u32 = c3 >> 3;
        proof {
            assert(c3 >> 3 <= 0x1fff_ffffu32) by (bit_vector);
        }
        let count = count32 as usize;
        let extra: usize = if with_close { 1 } else { 0 };
        if ((n - pos) as u64) < 4 + 2 * (count as u64) + (extra as u64) {
            return Err(MvtError::GeometryFormat);
        }
        let size = 4 + 2 * count + extra;
        let ghost before = bounds@;
        bounds.push((pos, pos + size));
        proof {
            assert(geom@.skip(pos as int).take(size as int)
                =~= geom@.subrange(pos as int, pos + size));
            assert(geom@.skip(pos as int).skip(size as int) =~= geom@.skip(pos + size));
            assert(ranges_view(geom@, bounds@) =~= ranges_view(geom@, before)
                + seq![geom@.subrange(pos as int, pos + size)]);
            match split_slices(geom@.skip(pos + size), with_close) {
                Ok(rest) => {
                    assert(ranges_view(geom@, before) + (seq![geom@.subrange(
                        pos as int,
                        pos + size,
                    )] + rest) =~= ranges_view(geom@, bounds@) + rest);
                },
                Err(_) => {},
            }
        }
        pos = pos + size;
    }
    proof {
        assert(geom@.skip(pos as int).len() == 0);
        match split_slices(geom@, with_close) {
            Ok(slices) => {
                assert(ranges_view(geom@, bounds@) + Seq::<Seq<u32>>::empty()
                    =~= ranges_view(geom@, bounds@));
            },
            Err(_) => {
                assert(false);
            },
        }
    }
    Ok(bounds)
}

/// Emits the events of one linestring slice `geom[lo..hi]`.
fn emit_linestring(
    geom: &Vec<u32>,
    lo: usize,
    hi: usize,
    tagged: bool,
    cx: i64,
    cy: i64,
    out: &mut Vec<GeomEvent>,
) -> (r: Result<(i64, i64), MvtError>)
    requires
        bound_ok(geom@, (lo, hi), false),
        in_i32(cx as int),
        in_i32(cy as int),
    ensures
        match r {
            Ok((nx, ny)) => linestring_events(
                cx as int,
                cy as int,
                geom@.subrange(lo as int, hi as int),
                tagged,
            ) matches Ok((evs, cur)) && event_views(final(out)@) == event_views(old(out)@) + evs
                && cur == (nx as int, ny as int) && in_i32(nx as int) && in_i32(ny as int),
            Err(e) => linestring_events(
                cx as int,
                cy as int,
                geom@.subrange(lo as int, hi as int),
                tagged,
            ) == Err::<(Seq<GeomEventV>, (int, int)), MvtError>(e),
        },
{
    let ghost slice = geom@.subrange(lo as int, hi as int);
    proof {
        assert(slice[0] == geom@[lo as int]);
        assert(slice[3] == geom@[lo + 3]);
    }
    if geom[lo] != 9 {
        return Err(MvtError::GeometryFormat);
    }
    if geom[lo + 3] % 8 != 2 {
        return Err(MvtError::GeometryFormat);
    }
    let c3 = geom[lo + 3];
    let count32: u32 = c3 >> 3;
    proof {
        assert(c3 >> 3 <= 0x1fff_ffffu32) by (bit_vector);
    }
    let count = count32 as usize;
    let ghost pre = out@;
    out.push(GeomEvent::LinestringBegin(tagged));
    proof {
        assert(event_views(out@) =~= event_views(pre) + seq![GeomEventV::LinestringBegin(tagged)]);
        assert(slice.subrange(1, 3) =~= geom@.subrange(lo + 1, lo + 3));
        assert(slice.subrange(4, 4 + 2 * count as int) =~= geom@.subrange(lo + 4, hi as int));
        lemma_coords_append(
            cx as int,
            cy as int,
            geom@.subrange(lo + 1, lo + 3),
            geom@.subrange(lo + 4, hi as int),
        );
    }
    let (mx, my) = match emit_coords(geom, lo + 1, lo + 3, cx, cy, out) {
        Ok(c) => c,
        Err(e) => {
            return Err(e);
        },
    };
    let ghost mid1 = out@;
    let (nx, ny) = match emit_coords(geom, lo + 4, hi, mx, my, out) {
        Ok(c) => c,
        Err(e) => {
            return Err(e);
        },
    };
    let ghost mid2 = out@;
    out.push(GeomEvent::LinestringEnd(tagged));
    proof {
        assert(event_views(out@) =~= event_views(mid2) + seq![GeomEventV::LinestringEnd(tagged)]);
        let e1 = coords_events(cx as int, cy as int, geom@.subrange(lo + 1, lo + 3))->Ok_0.0;
        let e2 = coords_events(mx as int, my as int, geom@.subrange(lo + 4, hi as int))->Ok_0.0;
        assert(event_views(out@) =~= event_views(pre) + (seq![GeomEventV::LinestringBegin(tagged)]
            + (e1 + e2) + seq![GeomEventV::LinestringEnd(tagged)]));
    }
    Ok((nx, ny))
}

/// Emits the events of linestring geometry.
#[verifier::loop_isolation(false)]
fn emit_linestring_geom(geom: &Vec<u32>, out: &mut Vec<GeomEvent>) -> (r: Result<(), MvtError>)
    ensures
        match r {
            Ok(()) => linestring_geom_events(0, 0, geom@) matches Ok(evs)
                && event_views(final(out)@) == event_views(old(out)@) + evs,
            Err(e) => linestring_geom_events(0, 0, geom@) == Err::<Seq<GeomEventV>, MvtError>(e),
        },
{
    let bounds = match split_ranges(geom, false) {
        Ok(b) => b,
        Err(e) => {
            return Err(e);
        },
    };
    let ghost slices = ranges_view(geom@, bounds@);
    let nb = bounds.len();
    if nb == 0 {
        return Err(MvtError::GeometryFormat);
    }
    if nb == 1 {
        let (lo, hi) = bounds[0];
        proof {
            assert(slices[0] == geom@.subrange(lo as int, hi as int));
        }
        match emit_linestring(geom, lo, hi, true, 0, 0, out) {
            Ok(_) => Ok(()),
            Err(e) => Err(e),
        }
    } else {
        let ghost pre = out@;
        out.push(GeomEvent::MultiLinestringBegin);
        proof {
            assert(event_views(out@) =~= event_views(pre)
                + seq![GeomEventV::MultiLinestringBegin]);
            assert(slices.skip(0) =~= slices);
        }
        let mut k: usize = 0;
        let mut x: i64 = 0;
        let mut y: i64 = 0;
        while k < nb
            invariant
                k <= nb == bounds@.len(),
                in_i32(x as int),
                in_i32(y as int),
                linestrings_run(0, 0, slices, false) == prepend_run(
                    event_views(out@).skip((event_views(pre).len() + 1) as int),
                    linestrings_run(x as int, y as int, slices.skip(k as int), false),
                ),
                event_views(out@).take((event_views(pre).len() + 1) as int)
                    == event_views(pre) + seq![GeomEventV::MultiLinestringBegin],
                out@.len() > pre.len(),
            decreases nb - k,
        {
            let (lo, hi) = bounds[k];
            proof {
                assert(slices.skip(k as int)[0] == slices[k as int]);
                assert(slices[k as int] == geom@.subrange(lo as int, hi as int));
                assert(slices.skip(k as int).skip(1) =~= slices.skip(k + 1));
            }
            let ghost before = out@;
            let (nx, ny) = match emit_linestring(geom, lo, hi, false, x, y, out) {
                Ok(c) => c,
                Err(e) => {
                    return Err(e);
                },
            };
            proof {
                let e1 = linestring_events(x as int, y as int, slices[k as int], false)->Ok_0.0;
                assert(event_views(out@) == event_views(before) + e1);
                assert(event_views(out@).take((event_views(pre).len() + 1) as int)
                    =~= event_views(pre) + seq![GeomEventV::MultiLinestringBegin]);
                assert(event_views(out@).skip((event_views(pre).len() + 1) as int)
                    =~= event_views(before).skip((event_views(pre).len() + 1) as int) + e1);
                let pre0 = event_views(before).skip((event_views(pre).len() + 1) as int);
                match linestrings_run(nx as int, ny as int, slices.skip(k + 1), false) {
                    Ok((evs2, cur2)) => {
                        assert(pre0 + (e1 + evs2) =~= (pre0 + e1) + evs2);
                    },
                    Err(_) => {},
                }
            }
            x = nx;
            y = ny;
            k = k + 1;
        }
        let ghost mid = out@;
        out.push(GeomEvent::MultiLinestringEnd);
        proof {
            assert(slices.skip(nb as int).len() == 0);
            assert(event_views(out@) =~= event_views(mid) + seq![GeomEventV::MultiLinestringEnd]);
            let run_evs = linestrings_run(0, 0, slices, false)->Ok_0.0;
            assert(event_views(mid).skip((event_views(pre).len() + 1) as int) + Seq::<GeomEventV>::empty()
                =~= event_views(mid).skip((event_views(pre).len() + 1) as int));
            assert(event_views(mid) =~= event_views(mid).take((event_views(pre).len() + 1) as int)
                + event_views(mid).skip((event_views(pre).len() + 1) as int));
            assert(event_views(out@) =~= event_views(pre) + (seq![GeomEventV::MultiLinestringBegin]
                + run_evs + seq![GeomEventV::MultiLinestringEnd]));
        }
        Ok(())
    }
}

/// Classifies one ring slice by its surveyor sum.
#[verifier::loop_isolation(false)]
fn ring_area_pos_exec(geom: &Vec<u32>, lo: usize, hi: usize, cx: i64, cy: i64) -> (r: Result<
    bool,
    MvtError,
>)
    requires
        bound_ok(geom@, (lo, hi), true),
        in_i32(cx as int),
        in_i32(cy as int),
    ensures
        r == ring_area_positive(cx as int, cy as int, geom@.subrange(lo as int, hi as int)),
{
    let ghost slice = geom@.subrange(lo as int, hi as int);
    let c3 = geom[lo + 3];
    let count32: u32 = c3 >> 3;
    proof {
        assert(c3 >> 3 <= 0x1fff_ffffu32) by (bit_vector);
        assert(slice[1] == geom@[lo + 1]);
        assert(slice[2] == geom@[lo + 2]);
        assert(slice[3] == geom@[lo + 3]);
    }
    let count = count32 as usize;
    let x0 = cx + zz(geom[lo + 1]);
    let y0 = cy + zz(geom[lo + 2]);
    if !(-0x8000_0000 <= x0 && x0 < 0x8000_0000) || !(-0x8000_0000 <= y0 && y0 < 0x8000_0000) {
        return Err(MvtError::CoordinateOverflow);
    }
    let ghost params = slice.subrange(4, 4 + 2 * count as int) + slice.subrange(1, 3);
    proof {
        assert(params.len() == 2 * count + 2);
        assert(params.skip(0) =~= params);
    }
    let total: usize = 2 * count + 2;
    let mut i: usize = 0;
    let mut x: i64 = x0;
    let mut y: i64 = y0;
    let mut acc: i128 = 0;
    while i < total
        invariant
            i <= total == params.len(),
            i % 2 == 0,
            in_i32(x as int),
            in_i32(y as int),
            -(i as i128) * 0x8000_0000_0000_0000 <= acc <= (i as i128)
                * 0x8000_0000_0000_0000,
            area_walk(x0 as int, y0 as int, params) == match area_walk(
                x as int,
                y as int,
                params.skip(i as int),
            ) {
                Ok(rest) => Ok::<int, MvtError>(acc + rest),
                Err(e) => Err::<int, MvtError>(e),
            },
        decreases total - i,
    {
        let ghost rem = params.skip(i as int);
        let p0: u32 = if i < 2 * count {
            geom[lo + 4 + i]
        } else {
            geom[lo + 1 + (i - 2 * count)]
        };
        let p1: u32 = if i + 1 < 2 * count {
            geom[lo + 4 + i + 1]
        } else {
            geom[lo + 1 + (i + 1 - 2 * count)]
        };
        proof {
            assert(rem[0] == params[i as int]);
            assert(rem[1] == params[i + 1]);
            assert(params[i as int] == p0);
            assert(params[i + 1] == p1);
            assert(rem.skip(2) =~= params.skip(i + 2));
        }
        let nx = x + zz(p0);
        let ny = y + zz(p1);
        if !(-0x8000_0000 <= nx && nx < 0x8000_0000) || !(-0x8000_0000 <= ny && ny
            < 0x8000_0000) {
            return Err(MvtError::CoordinateOverflow);
        }
        proof {
            assert(-0x8000_0000_0000_0000 <= (x as i128) * (ny as i128)
                <= 0x8000_0000_0000_0000) by (nonlinear_arith)
                requires
                    -0x8000_0000 <= x <= 0x8000_0000,
                    -0x8000_0000 <= ny <= 0x8000_0000,
            ;
            assert(-0x8000_0000_0000_0000 <= (y as i128) * (nx as i128)
                <= 0x8000_0000_0000_0000) by (nonlinear_arith)
                requires
                    -0x8000_0000 <= y <= 0x8000_0000,
                    -0x8000_0000 <= nx <= 0x8000_0000,
            ;
            assert(total <= 0x8000_0000);
            assert((i as int) * 0x8000_0000_0000_0000 <= 0x8000_0000 * 0x8000_0000_0000_0000)
                by (nonlinear_arith)
                requires 0 <= i <= 0x8000_0000;
            assert(((i + 2) as int) * 0x8000_0000_0000_0000
                == (i as int) * 0x8000_0000_0000_0000 + 0x1_0000_0000_0000_0000)
                by (nonlinear_arith);
        }
        let term: i128 = (x as i128) * (ny as i128) - (y as i128) * (nx as i128);
        acc = acc + term;
        x = nx;
        y = ny;
        i = i + 2;
    }
    proof {
        assert(params.skip(total as int).len() == 0);
    }
    Ok(acc > 0)
}

/// Every group bound is a nonempty range of slice indices.
pub open spec fn groups_wf(gs: Seq<(usize, usize)>, n_slices: int) -> bool {
    forall|k: int| 0 <= k < gs.len() ==> #[trigger] gs[k].0 < gs[k].1 <= n_slices
}

/// The polygons a group bound list denotes over the slices of a stream.
pub open spec fn groups_view(
    g: Seq<u32>,
    bs: Seq<(usize, usize)>,
    gs: Seq<(usize, usize)>,
) -> Seq<Seq<Seq<u32>>> {
    gs.map_values(|p: (usize, usize)| ranges_view(g, bs).subrange(p.0 as int, p.1 as int))
}

/// Composes already-built polygon groups with the rest of a grouping.
pub open spec fn prepend_groups(
    pre: Seq<Seq<Seq<u32>>>,
    r: Result<Seq<Seq<Seq<u32>>>, MvtError>,
) -> Result<Seq<Seq<Seq<u32>>>, MvtError> {
    match r {
        Ok(rest) => Ok(pre + rest),
        Err(e) => Err(e),
    }
}

/// `next_positive` over a suffix answers the shifted index.
proof fn lemma_next_positive_shift(cx: int, cy: int, slices: Seq<Seq<u32>>, i: int, k: int)
    requires
        0 <= i,
        0 <= k,
        i + k <= slices.len(),
    ensures
        next_positive(cx, cy, slices.skip(i), k) == match next_positive(cx, cy, slices, i + k) {
            Ok(j) => Ok::<int, MvtError>(j - i),
            Err(e) => Err::<int, MvtError>(e),
        },
    decreases slices.len() - i - k,
{
    lemma_next_positive_ge(cx, cy, slices, i + k);
    if i + k < slices.len() {
        assert(slices.skip(i)[k] == slices[i + k]);
        match ring_area_positive(cx, cy, slices[i + k]) {
            Err(_) => {},
            Ok(true) => {},
            Ok(false) => {
                lemma_next_positive_shift(cx, cy, slices, i, k + 1);
            },
        }
    }
}

/// Groups ring slices into polygons.
#[verifier::loop_isolation(false)]
fn group_ranges(geom: &Vec<u32>, bounds: &Vec<(usize, usize)>, cx: i64, cy: i64) -> (r: Result<
    Vec<(usize, usize)>,
    MvtError,
>)
    requires
        forall|k: int| 0 <= k < bounds@.len() ==> bound_ok(geom@, bounds@[k], true),
        in_i32(cx as int),
        in_i32(cy as int),
    ensures
        match r {
            Ok(groups) => group_polygons(cx as int, cy as int, ranges_view(geom@, bounds@))
                == Ok::<Seq<Seq<Seq<u32>>>, MvtError>(groups_view(geom@, bounds@, groups@))
                && groups_wf(groups@, bounds@.len() as int),
            Err(e) => group_polygons(cx as int, cy as int, ranges_view(geom@, bounds@))
                == Err::<Seq<Seq<Seq<u32>>>, MvtError>(e),
        },
{
    let ghost slices = ranges_view(geom@, bounds@);
    let nb = bounds.len();
    let mut groups: Vec<(usize, usize)> = Vec::new();
    let mut i: usize = 0;
    proof {
        assert(slices.skip(0) =~= slices);
        assert(groups_view(geom@, bounds@, groups@) =~= Seq::<Seq<Seq<u32>>>::empty());
    }
    while i < nb
        invariant
            i <= nb == bounds@.len(),
            group_polygons(cx as int, cy as int, slices) == prepend_groups(
                groups_view(geom@, bounds@, groups@),
                group_polygons(cx as int, cy as int, slices.skip(i as int)),
            ),
            groups_wf(groups@, bounds@.len() as int),
        decreases nb - i,
    {
        proof {
            assert(slices.skip(i as int)[0] == slices[i as int]);
            assert(slices[i as int] == geom@.subrange(
                bounds@[i as int].0 as int,
                bounds@[i as int].1 as int,
            ));
        }
        let (lo, hi) = bounds[i];
        match ring_area_pos_exec(geom, lo, hi, cx, cy) {
            Err(e) => {
                return Err(e);
            },
            Ok(false) => {
                return Err(MvtError::GeometryFormat);
            },
            Ok(true) => {},
        }
        // scan the interior rings that follow
        let mut j: usize = i + 1;
        while j < nb
            invariant
                i + 1 <= j <= nb,
                next_positive(cx as int, cy as int, slices, i + 1) == next_positive(
                    cx as int,
                    cy as int,
                    slices,
                    j as int,
                ),
            decreases nb - j,
        {
            proof {
                assert(slices[j as int] == geom@.subrange(
                    bounds@[j as int].0 as int,
                    bounds@[j as int].1 as int,
                ));
            }
            let (jlo, jhi) = bounds[j];
            match ring_area_pos_exec(geom, jlo, jhi, cx, cy) {
                Err(e) => {
                    proof {
                        lemma_next_positive_shift(cx as int, cy as int, slices, i as int, 1);
                    }
                    return Err(e);
                },
                Ok(true) => {
                    break;
                },
                Ok(false) => {},
            }
            j = j + 1;
        }
        proof {
            lemma_next_positive_shift(cx as int, cy as int, slices, i as int, 1);
            lemma_next_positive_ge(cx as int, cy as int, slices, j as int);
            assert(next_positive(cx as int, cy as int, slices, j as int) == Ok::<int, MvtError>(
                j as int,
            ));
        }
        let ghost before = groups@;
        groups.push((i, j));
        proof {
            assert(slices.skip(i as int).take((j - i) as int) =~= slices.subrange(
                i as int,
                j as int,
            ));
            assert(slices.skip(i as int).skip((j - i) as int) =~= slices.skip(j as int));
            assert(groups_view(geom@, bounds@, groups@) =~= groups_view(geom@, bounds@, before)
                + seq![slices.subrange(i as int, j as int)]);
            match group_polygons(cx as int, cy as int, slices.skip(j as int)) {
                Ok(rest) => {
                    assert(groups_view(geom@, bounds@, before) + (seq![slices.subrange(
                        i as int,
                        j as int,
                    )] + rest) =~= groups_view(geom@, bounds@, groups@) + rest);
                },
                Err(_) => {},
            }
        }
        i = j;
    }
    proof {
        assert(slices.skip(nb as int).len() == 0);
        match group_polygons(cx as int, cy as int, slices) {
            Ok(gs) => {
                assert(groups_view(geom@, bounds@, groups@) + Seq::<Seq<Seq<u32>>>::empty()
                    =~= groups_view(geom@, bounds@, groups@));
            },
            Err(_) => {
                assert(false);
            },
        }
    }
    Ok(groups)
}

/// Emits the events of one polygon ring slice `geom[lo..hi]`.
fn emit_ring(
    geom: &Vec<u32>,
    lo: usize,
    hi: usize,
    cx: i64,
    cy: i64,
    out: &mut Vec<GeomEvent>,
) -> (r: Result<(i64, i64), MvtError>)
    requires
        bound_ok(geom@, (lo, hi), true),
        in_i32(cx as int),
        in_i32(cy as int),
    ensures
        match r {
            Ok((nx, ny)) => ring_events(cx as int, cy as int, geom@.subrange(lo as int, hi as int))
                matches Ok((evs, cur)) && event_views(final(out)@) == event_views(old(out)@) + evs
                && cur == (nx as int, ny as int) && in_i32(nx as int) && in_i32(ny as int),
            Err(e) => ring_events(cx as int, cy as int, geom@.subrange(lo as int, hi as int))
                == Err::<(Seq<GeomEventV>, (int, int)), MvtError>(e),
        },
{
    let ghost slice = geom@.subrange(lo as int, hi as int);
    proof {
        assert(slice[0] == geom@[lo as int]);
        assert(slice[3] == geom@[lo + 3]);
        assert(slice.last() == geom@[hi - 1]);
        assert(slice[1] == geom@[lo + 1]);
        assert(slice[2] == geom@[lo + 2]);
    }
    if geom[lo] != 9 {
        return Err(MvtError::GeometryFormat);
    }
    if geom[hi - 1] != 15 {
        return Err(MvtError::GeometryFormat);
    }
    if geom[lo + 3] % 8 != 2 {
        return Err(MvtError::GeometryFormat);
    }
    let c3 = geom[lo + 3];
    let count32: u32 = c3 >> 3;
    proof {
        assert(c3 >> 3 <= 0x1fff_ffffu32) by (bit_vector);
    }
    let count = count32 as usize;
    let ghost pre = out@;
    out.push(GeomEvent::LinestringBegin(false));
    proof {
        assert(event_views(out@) =~= event_views(pre) + seq![GeomEventV::LinestringBegin(false)]);
        assert(slice.subrange(1, 3) =~= geom@.subrange(lo + 1, lo + 3));
        assert(slice.subrange(4, 4 + 2 * count as int) =~= geom@.subrange(lo + 4, (hi - 1) as int));
        lemma_coords_append(
            cx as int,
            cy as int,
            geom@.subrange(lo + 1, lo + 3),
            geom@.subrange(lo + 4, (hi - 1) as int),
        );
    }
    let (fx, fy) = match emit_coords(geom, lo + 1, lo + 3, cx, cy, out) {
        Ok(c) => c,
        Err(e) => {
            return Err(e);
        },
    };
    let (nx, ny) = match emit_coords(geom, lo + 4, hi - 1, fx, fy, out) {
        Ok(c) => c,
        Err(e) => {
            return Err(e);
        },
    };
    let ghost mid2 = out@;
    out.push(GeomEvent::Xy(fx, fy));
    out.push(GeomEvent::LinestringEnd(false));
    proof {
        assert(event_views(out@) =~= event_views(mid2) + seq![
            GeomEventV::Xy(fx, fy),
            GeomEventV::LinestringEnd(false),
        ]);
        let e1 = coords_events(cx as int, cy as int, geom@.subrange(lo + 1, lo + 3))->Ok_0.0;
        let e2 = coords_events(fx as int, fy as int, geom@.subrange(lo + 4, (hi - 1) as int))
            ->Ok_0.0;
        let a = geom@.subrange(lo + 1, lo + 3);
        assert(a.len() == 2 && a[0] == geom@[lo + 1] && a[1] == geom@[lo + 2]);
        assert(a.skip(2).len() == 0);
        let mx = cx + zigzag(a[0]);
        let my = cy + zigzag(a[1]);
        if in_i32(mx) && in_i32(my) {
            assert(coords_events(mx, my, a.skip(2)) == Ok::<(Seq<GeomEventV>, (int, int)), MvtError>(
                (Seq::empty(), (mx, my)),
            ));
            assert(coords_events(cx as int, cy as int, a) matches Ok(p) && p.1 == (mx, my));
        }
        assert(fx as int == mx && fy as int == my);
        assert(event_views(out@) =~= event_views(pre) + (seq![GeomEventV::LinestringBegin(false)]
            + (e1 + e2) + seq![GeomEventV::Xy(fx, fy), GeomEventV::LinestringEnd(false)]));
        assert(ring_events(cx as int, cy as int, slice) is Ok);
        let rv = ring_events(cx as int, cy as int, slice)->Ok_0;
        assert(rv.1 == (nx as int, ny as int));
        assert(rv.0 =~= seq![GeomEventV::LinestringBegin(false)] + (e1 + e2) + seq![
            GeomEventV::Xy(fx, fy),
            GeomEventV::LinestringEnd(false),
        ]);
    }
    Ok((nx, ny))
}

/// Emits the events of one polygon: its rings between polygon begin/end.
#[verifier::loop_isolation(false)]
fn emit_polygon(
    geom: &Vec<u32>,
    bounds: &Vec<(usize, usize)>,
    glo: usize,
    ghi: usize,
    tagged: bool,
    cx: i64,
    cy: i64,
    out: &mut Vec<GeomEvent>,
) -> (r: Result<(i64, i64), MvtError>)
    requires
        glo < ghi <= bounds@.len(),
        forall|k: int| 0 <= k < bounds@.len() ==> bound_ok(geom@, bounds@[k], true),
        in_i32(cx as int),
        in_i32(cy as int),
    ensures
        match r {
            Ok((nx, ny)) => polygon_events(
                cx as int,
                cy as int,
                ranges_view(geom@, bounds@).subrange(glo as int, ghi as int),
                tagged,
            ) matches Ok((evs, cur)) && event_views(final(out)@) == event_views(old(out)@) + evs
                && cur == (nx as int, ny as int) && in_i32(nx as int) && in_i32(ny as int),
            Err(e) => polygon_events(
                cx as int,
                cy as int,
                ranges_view(geom@, bounds@).subrange(glo as int, ghi as int),
                tagged,
            ) == Err::<(Seq<GeomEventV>, (int, int)), MvtError>(e),
        },
{
    let ghost rings = ranges_view(geom@, bounds@).subrange(glo as int, ghi as int);
    let ghost pre = out@;
    out.push(GeomEvent::PolygonBegin(tagged));
    proof {
        assert(event_views(out@) =~= event_views(pre) + seq![GeomEventV::PolygonBegin(tagged)]);
        assert(rings.skip(0) =~= rings);
    }
    let mut k: usize = glo;
    let mut x: i64 = cx;
    let mut y: i64 = cy;
    while k < ghi
        invariant
            glo <= k <= ghi,
            in_i32(x as int),
            in_i32(y as int),
            rings_run(cx as int, cy as int, rings) == prepend_run(
                event_views(out@).skip((event_views(pre).len() + 1) as int),
                rings_run(x as int, y as int, rings.skip((k - glo) as int)),
            ),
            event_views(out@).take((event_views(pre).len() + 1) as int)
                == event_views(pre) + seq![GeomEventV::PolygonBegin(tagged)],
            out@.len() > pre.len(),
        decreases ghi - k,
    {
        let (lo, hi) = bounds[k];
        proof {
            assert(rings.skip((k - glo) as int)[0] == rings[(k - glo) as int]);
            assert(rings[(k - glo) as int] == ranges_view(geom@, bounds@)[k as int]);
            assert(ranges_view(geom@, bounds@)[k as int] == geom@.subrange(lo as int, hi as int));
            assert(rings.skip((k - glo) as int).skip(1) =~= rings.skip((k + 1 - glo) as int));
        }
        let ghost before = out@;
        let (nx, ny) = match emit_ring(geom, lo, hi, x, y, out) {
            Ok(c) => c,
            Err(e) => {
                return Err(e);
            },
        };
        proof {
            let e1 = ring_events(x as int, y as int, rings[(k - glo) as int])->Ok_0.0;
            assert(event_views(out@) == event_views(before) + e1);
            assert(event_views(out@).take((event_views(pre).len() + 1) as int)
                =~= event_views(pre) + seq![GeomEventV::PolygonBegin(tagged)]);
            assert(event_views(out@).skip((event_views(pre).len() + 1) as int)
                =~= event_views(before).skip((event_views(pre).len() + 1) as int) + e1);
            let pre0 = event_views(before).skip((event_views(pre).len() + 1) as int);
            match rings_run(nx as int, ny as int, rings.skip((k + 1 - glo) as int)) {
                Ok((evs2, cur2)) => {
                    assert(pre0 + (e1 + evs2) =~= (pre0 + e1) + evs2);
                },
                Err(_) => {},
            }
        }
        x = nx;
        y = ny;
        k = k + 1;
    }
    let ghost mid = out@;
    out.push(GeomEvent::PolygonEnd(tagged));
    proof {
        assert(rings.skip((ghi - glo) as int).len() == 0);
        assert(event_views(out@) =~= event_views(mid) + seq![GeomEventV::PolygonEnd(tagged)]);
        let run_evs = rings_run(cx as int, cy as int, rings)->Ok_0.0;
        assert(event_views(mid).skip((event_views(pre).len() + 1) as int) + Seq::<
            GeomEventV,
        >::empty() =~= event_views(mid).skip((event_views(pre).len() + 1) as int));
        assert(event_views(mid) =~= event_views(mid).take((event_views(pre).len() + 1) as int)
            + event_views(mid).skip((event_views(pre).len() + 1) as int));
        assert(event_views(out@) =~= event_views(pre) + (seq![GeomEventV::PolygonBegin(tagged)]
            + run_evs + seq![GeomEventV::PolygonEnd(tagged)]));
    }
    Ok((x, y))
}

/// Emits the events of polygon geometry.
#[verifier::loop_isolation(false)]
fn emit_polygon_geom(geom: &Vec<u32>, out: &mut Vec<GeomEvent>) -> (r: Result<(), MvtError>)
    ensures
        match r {
            Ok(()) => polygon_geom_events(0, 0, geom@) matches Ok(evs)
                && event_views(final(out)@) == event_views(old(out)@) + evs,
            Err(e) => polygon_geom_events(0, 0, geom@) == Err::<Seq<GeomEventV>, MvtError>(e),
        },
{
    let bounds = match split_ranges(geom, true) {
        Ok(b) => b,
        Err(e) => {
            return Err(e);
        },
    };
    let groups = match group_ranges(geom, &bounds, 0, 0) {
        Ok(g) => g,
        Err(e) => {
            return Err(e);
        },
    };
    let ghost slices = ranges_view(geom@, bounds@);
    let ghost gviews = groups_view(geom@, bounds@, groups@);
    let ng = groups.len();
    if ng == 0 {
        return Err(MvtError::GeometryFormat);
    }
    if ng == 1 {
        let (glo, ghi) = groups[0];
        proof {
            assert(gviews[0] == slices.subrange(glo as int, ghi as int));
        }
        match emit_polygon(geom, &bounds, glo, ghi, true, 0, 0, out) {
            Ok(_) => Ok(()),
            Err(e) => Err(e),
        }
    } else {
        let ghost pre = out@;
        out.push(GeomEvent::MultiPolygonBegin);
        proof {
            assert(event_views(out@) =~= event_views(pre) + seq![GeomEventV::MultiPolygonBegin]);
            assert(gviews.skip(0) =~= gviews);
        }
        let mut k: usize = 0;
        let mut x: i64 = 0;
        let mut y: i64 = 0;
        while k < ng
            invariant
                k <= ng == groups@.len(),
                in_i32(x as int),
                in_i32(y as int),
                groups_wf(groups@, bounds@.len() as int),
                forall|q: int| 0 <= q < bounds@.len() ==> bound_ok(geom@, bounds@[q], true),
                polygons_run(0, 0, gviews, false) == prepend_run(
                    event_views(out@).skip((event_views(pre).len() + 1) as int),
                    polygons_run(x as int, y as int, gviews.skip(k as int), false),
                ),
                event_views(out@).take((event_views(pre).len() + 1) as int)
                    == event_views(pre) + seq![GeomEventV::MultiPolygonBegin],
                out@.len() > pre.len(),
            decreases ng - k,
        {
            let (glo, ghi) = groups[k];
            proof {
                assert(gviews.skip(k as int)[0] == gviews[k as int]);
                assert(gviews[k as int] == slices.subrange(glo as int, ghi as int));
                assert(gviews.skip(k as int).skip(1) =~= gviews.skip(k + 1));
            }
            let ghost before = out@;
            let (nx, ny) = match emit_polygon(geom, &bounds, glo, ghi, false, x, y, out) {
                Ok(c) => c,
                Err(e) => {
                    return Err(e);
                },
            };
            proof {
                let e1 = polygon_events(x as int, y as int, gviews[k as int], false)->Ok_0.0;
                assert(event_views(out@) == event_views(before) + e1);
                assert(event_views(out@).take((event_views(pre).len() + 1) as int)
                    =~= event_views(pre) + seq![GeomEventV::MultiPolygonBegin]);
                assert(event_views(out@).skip((event_views(pre).len() + 1) as int)
                    =~= event_views(before).skip((event_views(pre).len() + 1) as int) + e1);
                let pre0 = event_views(before).skip((event_views(pre).len() + 1) as int);
                match polygons_run(nx as int, ny as int, gviews.skip(k + 1), false) {
                    Ok((evs2, cur2)) => {
                        assert(pre0 + (e1 + evs2) =~= (pre0 + e1) + evs2);
                    },
                    Err(_) => {},
                }
            }
            x = nx;
            y = ny;
            k = k + 1;
        }
        let ghost mid = out@;
        out.push(GeomEvent::MultiPolygonEnd);
        proof {
            assert(gviews.skip(ng as int).len() == 0);
            assert(event_views(out@) =~= event_views(mid) + seq![GeomEventV::MultiPolygonEnd]);
            let run_evs = polygons_run(0, 0, gviews, false)->Ok_0.0;
            assert(event_views(mid).skip((event_views(pre).len() + 1) as int) + Seq::<
                GeomEventV,
            >::empty() =~= event_views(mid).skip((event_views(pre).len() + 1) as int));
            assert(event_views(mid) =~= event_views(mid).take((event_views(pre).len() + 1) as int)
                + event_views(mid).skip((event_views(pre).len() + 1) as int));
            assert(event_views(out@) =~= event_views(pre) + (seq![GeomEventV::MultiPolygonBegin]
                + run_evs + seq![GeomEventV::MultiPolygonEnd]));
        }
        Ok(())
    }
}

/// Emits the full event stream of one feature.
pub fn feature_events(layer: &LayerData, feature: &FeatureData, out: &mut Vec<GeomEvent>) -> (r:
    Result<(), MvtError>)
    ensures
        match r {
            Ok(()) => feature_events_spec(layer@, feature@) matches Ok(evs)
                && event_views(final(out)@) == event_views(old(out)@) + evs,
            Err(e) => feature_events_spec(layer@, feature@) == Err::<Seq<GeomEventV>, MvtError>(e),
        },
{
    let ghost pre = out@;
    out.push(GeomEvent::FeatureBegin);
    proof {
        assert(event_views(out@) =~= event_views(pre) + seq![GeomEventV::FeatureBegin]);
    }
    let ghost mid0 = out@;
    match feature_prop_events(layer, feature, out) {
        Ok(()) => {},
        Err(e) => {
            return Err(e);
        },
    }
    let ghost mid1 = out@;
    let geo_res: Result<(), MvtError> = match feature.geom_type {
        Some(t) => {
            if t == 1 {
                emit_point(&feature.geometry, out)
            } else if t == 2 {
                emit_linestring_geom(&feature.geometry, out)
            } else if t == 3 {
                emit_polygon_geom(&feature.geometry, out)
            } else {
                Ok(())
            }
        },
        None => Ok(()),
    };
    match geo_res {
        Ok(()) => {},
        Err(e) => {
            return Err(e);
        },
    }
    let ghost mid2 = out@;
    out.push(GeomEvent::FeatureEnd);
    proof {
        assert(event_views(out@) =~= event_views(mid2) + seq![GeomEventV::FeatureEnd]);
        let pe = prop_events(layer@, feature@.tags)->Ok_0;
        let ge = geometry_events(feature@)->Ok_0;
        assert(event_views(mid1) == event_views(mid0) + pe);
        assert(event_views(mid2) == event_views(mid1) + ge);
        assert(event_views(out@) =~= event_views(pre) + (seq![GeomEventV::FeatureBegin] + pe + ge
            + seq![GeomEventV::FeatureEnd]));
    }
    Ok(())
}

/// Emits the event stream of a whole layer, feature after feature.
#[verifier::loop_isolation(false)]
pub fn layer_events(layer: &LayerData) -> (r: Result<Vec<GeomEvent>, MvtError>)
    ensures
        match r {
            Ok(evs) => layer_events_spec(layer@) == Ok::<Seq<GeomEventV>, MvtError>(
                event_views(evs@),
            ),
            Err(e) => layer_events_spec(layer@) == Err::<Seq<GeomEventV>, MvtError>(e),
        },
{
    let mut out: Vec<GeomEvent> = Vec::new();
    let n = layer.features.len();
    let mut i: usize = 0;
    proof {
        assert(event_views(out@) =~= Seq::<GeomEventV>::empty());
    }
    while i < n
        invariant
            i <= n == layer.features@.len(),
            layer_events_from(layer@, 0) == match layer_events_from(layer@, i as int) {
                Ok(rest) => Ok::<Seq<GeomEventV>, MvtError>(event_views(out@) + rest),
                Err(e) => Err::<Seq<GeomEventV>, MvtError>(e),
            },
        decreases n - i,
    {
        proof {
            assert(layer@.features[i as int] == layer.features@[i as int]@);
        }
        let ghost before = out@;
        match feature_events(layer, &layer.features[i], &mut out) {
            Ok(()) => {},
            Err(e) => {
                return Err(e);
            },
        }
        proof {
            let evs = feature_events_spec(layer@, layer@.features[i as int])->Ok_0;
            assert(event_views(out@) == event_views(before) + evs);
            match layer_events_from(layer@, i + 1) {
                Ok(rest) => {
                    assert(event_views(before) + (evs + rest)
                        =~= (event_views(before) + evs) + rest);
                },
                Err(_) => {},
            }
        }
        i = i + 1;
    }
    proof {
        match layer_events_from(layer@, 0) {
            Ok(all) => {
                assert(event_views(out@) + Seq::<GeomEventV>::empty() =~= event_views(out@));
            },
            Err(_) => {
                assert(false);
            },
        }
    }
    Ok(out)
}

impl RawValue {
    /// An equal-view copy.
    pub fn duplicate(&self) -> (r: RawValue)
        ensures
            r@ == self@,
    {
        RawValue {
            string_value: match &self.string_value {
                Some(x) => Some(x.clone()),
                None => None,
            },
            float_value: self.float_value,
            double_value: self.double_value,
            int_value: self.int_value,
            uint_value: self.uint_value,
            sint_value: self.sint_value,
            bool_value: self.bool_value,
        }
    }
}

impl FeatureData {
    /// An equal-view copy.
    pub fn duplicate(&self) -> (r: FeatureData)
        ensures
            r@ == self@,
    {
        let mut tags: Vec<u32> = Vec::new();
        let mut i: usize = 0;
        while i < self.tags.len()
            invariant
                i <= self.tags@.len(),
                tags@ == self.tags@.take(i as int),
            decreases self.tags@.len() - i,
        {
            tags.push(self.tags[i]);
            proof {
                assert(self.tags@.take(i + 1) =~= self.tags@.take(i as int).push(
                    self.tags@[i as int],
                ));
            }
            i = i + 1;
        }
        let mut geometry: Vec<u32> = Vec::new();
        let mut j: usize = 0;
        while j < self.geometry.len()
            invariant
                j <= self.geometry@.len(),
                geometry@ == self.geometry@.take(j as int),
            decreases self.geometry@.len() - j,
        {
            geometry.push(self.geometry[j]);
            proof {
                assert(self.geometry@.take(j + 1) =~= self.geometry@.take(j as int).push(
                    self.geometry@[j as int],
                ));
            }
            j = j + 1;
        }
        proof {
            assert(tags@ =~= self.tags@);
            assert(geometry@ =~= self.geometry@);
        }
        FeatureData { id: self.id, tags, geom_type: self.geom_type, geometry }
    }
}

impl LayerData {
    /// An equal-view copy.
    pub fn duplicate(&self) -> (r: LayerData)
        ensures
            r@ == self@,
    {
        let mut features: Vec<FeatureData> = Vec::new();
        let mut i: usize = 0;
        while i < self.features.len()
            invariant
                i <= self.features@.len(),
                features@.len() == i,
                forall|k: int| 0 <= k < i ==> #[trigger] features@[k]@ == self.features@[k]@,
            decreases self.features@.len() - i,
        {
            features.push(self.features[i].duplicate());
            i = i + 1;
        }
        let mut keys: Vec<String> = Vec::new();
        let mut j: usize = 0;
        while j < self.keys.len()
            invariant
                j <= self.keys@.len(),
                keys@.len() == j,
                forall|k: int| 0 <= k < j ==> #[trigger] keys@[k]@ == self.keys@[k]@,
            decreases self.keys@.len() - j,
        {
            keys.push(self.keys[j].clone());
            j = j + 1;
        }
        let mut values: Vec<RawValue> = Vec::new();
        let mut m: usize = 0;
        while m < self.values.len()
            invariant
                m <= self.values@.len(),
                values@.len() == m,
                forall|k: int| 0 <= k < m ==> #[trigger] values@[k]@ == self.values@[k]@,
            decreases self.values@.len() - m,
        {
            values.push(self.values[m].duplicate());
            m = m + 1;
        }
        let r = LayerData {
            version: self.version,
            name: self.name.clone(),
            features,
            keys,
            values,
            extent: self.extent,
        };
        proof {
            assert(r@.features =~= self@.features);
            assert(r@.keys =~= self@.keys);
            assert(r@.values =~= self@.values);
        }
        r
    }
}

} // verus!
