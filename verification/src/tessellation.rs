//! The tessellator: consumes an ordered geometry/property event stream per
//! feature and grows a vertex/index buffer plus a per-feature index-count
//! ledger, applying the style layer's filter to skip excluded features.
//!
//! Path building, filtering and all bookkeeping are verified; only the two
//! calls into the `lyon` tessellation library are trusted, their results
//! named by [`fill_tess_of`] and [`stroke_tess_of`].

use vstd::prelude::*;
use lyon::geom::point;
use lyon::math::Point;
use lyon::path::Path;
use lyon::tessellation::BuffersBuilder;
use lyon::tessellation::FillOptions;
use lyon::tessellation::FillRule;
use lyon::tessellation::FillTessellator;
use lyon::tessellation::FillVertex;
use lyon::tessellation::StrokeOptions;
use lyon::tessellation::StrokeTessellator;
use lyon::tessellation::StrokeVertex;
use lyon::tessellation::VertexBuffers;
use crate::expression::ComparisonLiteral;
use crate::expression::FilterError;
use crate::expression::LegacyFilterExpression;
use crate::expression::LitV;
use crate::expression::Properties;
use crate::expression::eval_filter;

verus! {

/// A vertex of the output buffer: the IEEE-754 binary32 bit patterns of
/// its x and y position, as the GPU vertex format stores them.
#[derive(Clone, Copy, Debug, PartialEq, Eq, Structural)]
pub struct VertexData {
    pub x_bits: u32,
    pub y_bits: u32,
}

/// A point of an input path, in integer tile coordinates.
#[derive(Clone, Copy, Debug, PartialEq, Eq, Structural)]
pub struct PathPoint {
    pub x: i64,
    pub y: i64,
}

/// One subpath of the path under construction.
#[derive(Clone, Debug)]
pub struct SubPath {
    pub points: Vec<PathPoint>,
    pub closed: bool,
}

/// The mathematical view of a subpath.
pub ghost struct SubPathV {
    pub points: Seq<PathPoint>,
    pub closed: bool,
}

impl View for SubPath {
    type V = SubPathV;

    open spec fn view(&self) -> SubPathV {
        SubPathV { points: self.points@, closed: self.closed }
    }
}

/// The triangles lyon's fill tessellator produces for a path, with the
/// non-zero fill rule at the default tolerance: vertex list and index
/// list, or nothing when tessellation fails.  A function of the path
/// alone.
pub uninterp spec fn fill_tess_of(paths: Seq<SubPathV>) -> Option<(Seq<VertexData>, Seq<u32>)>;

/// The triangles lyon's stroke tessellator produces for a path at the
/// default options; a function of the path alone.
pub uninterp spec fn stroke_tess_of(paths: Seq<SubPathV>) -> Option<(Seq<VertexData>, Seq<u32>)>;

/// True when every index points into the vertex list.
pub open spec fn mesh_valid(verts: Seq<VertexData>, idxs: Seq<u32>) -> bool {
    forall|k: int| 0 <= k < idxs.len() ==> (idxs[k] as int) < verts.len()
}

/// The vertex a pair of position bit patterns denotes.
pub open spec fn vertex_of_bits(t: (u32, u32)) -> VertexData {
    VertexData { x_bits: t.0, y_bits: t.1 }
}

/// Relies on `lyon_tessellation::FillTessellator::tessellate_path`: fills
/// the accumulated subpaths with the non-zero fill rule at the default
/// tolerance.  The produced indices index into the produced vertices,
/// which come out as pairs of position bit patterns.
#[verifier::external_body]
fn lyon_fill(paths: &Vec<SubPath>) -> (r: Result<(Vec<(u32, u32)>, Vec<u32>), ()>)
    requires
        forall|i: int| 0 <= i < paths@.len() ==> (#[trigger] paths@[i]).points@.len() > 0,
    ensures
        match r {
            Ok((verts, idxs)) => {
                &&& fill_tess_of(paths@.map_values(|p: SubPath| p@)) == Some(
                    (verts@.map_values(|t: (u32, u32)| vertex_of_bits(t)), idxs@),
                )
                &&& mesh_valid(verts@.map_values(|t: (u32, u32)| vertex_of_bits(t)), idxs@)
            },
            Err(()) => fill_tess_of(paths@.map_values(|p: SubPath| p@)) is None,
        },
{
    let cv = |p: &PathPoint| point(p.x as _, p.y as _);
    let mut b = Path::builder();
    for sp in paths {
        b.begin(cv(&sp.points[0]));
        for p in &sp.points[1..] {
            b.line_to(cv(p));
        }
        b.end(sp.closed);
    }
    let mut buf = VertexBuffers::new();
    FillTessellator::new()
        .tessellate_path(&b.build(), &FillOptions::non_zero(), &mut BuffersBuilder::new(&mut buf, |v: FillVertex| v.position()))
        .map_err(|_| ())?;
    Ok((buf.vertices.iter().map(|p| (p.x.to_bits(), p.y.to_bits())).collect(), buf.indices))
}

/// Relies on `lyon_tessellation::StrokeTessellator::tessellate_path`:
/// strokes the accumulated subpaths at the default options.  The produced
/// indices index into the produced vertices, which come out as pairs of
/// position bit patterns.
#[verifier::external_body]
fn lyon_stroke(paths: &Vec<SubPath>) -> (r: Result<(Vec<(u32, u32)>, Vec<u32>), ()>)
    requires
        forall|i: int| 0 <= i < paths@.len() ==> (#[trigger] paths@[i]).points@.len() > 0,
    ensures
        match r {
            Ok((verts, idxs)) => {
                &&& stroke_tess_of(paths@.map_values(|p: SubPath| p@)) == Some(
                    (verts@.map_values(|t: (u32, u32)| vertex_of_bits(t)), idxs@),
                )
                &&& mesh_valid(verts@.map_values(|t: (u32, u32)| vertex_of_bits(t)), idxs@)
            },
            Err(()) => stroke_tess_of(paths@.map_values(|p: SubPath| p@)) is None,
        },
{
    let cv = |p: &PathPoint| point(p.x as _, p.y as _);
    let mut b = Path::builder();
    for sp in paths {
        b.begin(cv(&sp.points[0]));
        for p in &sp.points[1..] {
            b.line_to(cv(p));
        }
        b.end(sp.closed);
    }
    let mut buf = VertexBuffers::new();
    StrokeTessellator::new()
        .tessellate_path(&b.build(), &StrokeOptions::default(), &mut BuffersBuilder::new(&mut buf, |v: StrokeVertex| v.position()))
        .map_err(|_| ())?;
    Ok((buf.vertices.iter().map(|p| (p.x.to_bits(), p.y.to_bits())).collect(), buf.indices))
}

/// A growable vertex/index buffer whose indices always point into its
/// vertex list.
#[derive(Clone, Debug)]
pub struct MeshBuffer {
    pub vertices: Vec<VertexData>,
    pub indices: Vec<u32>,
}

impl MeshBuffer {
    /// Indices stay inside the vertex list, and the vertex count stays
    /// addressable by an index.
    pub open spec fn wf(&self) -> bool {
        &&& mesh_valid(self.vertices@, self.indices@)
        &&& self.vertices@.len() <= u32::MAX
    }

    /// An empty buffer.
    pub fn new() -> (r: MeshBuffer)
        ensures
            r.wf(),
            r.vertices@ == Seq::<VertexData>::empty(),
            r.indices@ == Seq::<u32>::empty(),
    {
        MeshBuffer { vertices: Vec::new(), indices: Vec::new() }
    }
}

/// An error that aborts tessellation of the current layer.
#[derive(Clone, Copy, Debug, PartialEq, Eq, Structural)]
pub enum TessellationError {
    /// The filter met an unsupported operation.
    Filter(FilterError),
    /// The tessellation library failed on the accumulated path.
    TessellationFailed,
    /// The combined buffer outgrew the index type.
    BufferOverflow,
}

/// A geometry or property event of a feature stream.
#[derive(Debug)]
pub enum GeomEvent {
    FeatureBegin,
    FeatureEnd,
    Property(String, ComparisonLiteral),
    Xy(i64, i64),
    PointBegin,
    PointEnd,
    MultiPointBegin,
    MultiPointEnd,
    LinestringBegin(bool),
    LinestringEnd(bool),
    MultiLinestringBegin,
    MultiLinestringEnd,
    PolygonBegin(bool),
    PolygonEnd(bool),
    MultiPolygonBegin,
    MultiPolygonEnd,
}

/// The mathematical view of an event.
pub ghost enum GeomEventV {
    FeatureBegin,
    FeatureEnd,
    Property(Seq<char>, LitV),
    Xy(i64, i64),
    PointBegin,
    PointEnd,
    MultiPointBegin,
    MultiPointEnd,
    LinestringBegin(bool),
    LinestringEnd(bool),
    MultiLinestringBegin,
    MultiLinestringEnd,
    PolygonBegin(bool),
    PolygonEnd(bool),
    MultiPolygonBegin,
    MultiPolygonEnd,
}

impl View for GeomEvent {
    type V = GeomEventV;

    open spec fn view(&self) -> GeomEventV {
        match self {
            GeomEvent::FeatureBegin => GeomEventV::FeatureBegin,
            GeomEvent::FeatureEnd => GeomEventV::FeatureEnd,
            GeomEvent::Property(k, v) => GeomEventV::Property(k@, v@),
            GeomEvent::Xy(x, y) => GeomEventV::Xy(*x, *y),
            GeomEvent::PointBegin => GeomEventV::PointBegin,
            GeomEvent::PointEnd => GeomEventV::PointEnd,
            GeomEvent::MultiPointBegin => GeomEventV::MultiPointBegin,
            GeomEvent::MultiPointEnd => GeomEventV::MultiPointEnd,
            GeomEvent::LinestringBegin(t) => GeomEventV::LinestringBegin(*t),
            GeomEvent::LinestringEnd(t) => GeomEventV::LinestringEnd(*t),
            GeomEvent::MultiLinestringBegin => GeomEventV::MultiLinestringBegin,
            GeomEvent::MultiLinestringEnd => GeomEventV::MultiLinestringEnd,
            GeomEvent::PolygonBegin(t) => GeomEventV::PolygonBegin(*t),
            GeomEvent::PolygonEnd(t) => GeomEventV::PolygonEnd(*t),
            GeomEvent::MultiPolygonBegin => GeomEventV::MultiPolygonBegin,
            GeomEvent::MultiPolygonEnd => GeomEventV::MultiPolygonEnd,
        }
    }
}

/// The views of an event sequence.
pub open spec fn event_views(s: Seq<GeomEvent>) -> Seq<GeomEventV> {
    s.map_values(|e: GeomEvent| e@)
}

/// The mathematical state of a tessellator.
pub ghost struct TessState {
    /// Points of the currently open subpath.
    pub current: Seq<PathPoint>,
    /// Whether a subpath is open.
    pub path_open: bool,
    /// Whether point geometry is being read (its coordinates build no path).
    pub is_point: bool,
    /// Completed subpaths not yet handed to the tessellation library.
    pub subpaths: Seq<SubPathV>,
    /// Vertices produced so far.
    pub vertices: Seq<VertexData>,
    /// Indices produced so far.
    pub indices: Seq<u32>,
    /// Per-feature index-count ledger: deltas, in feature order.
    pub feature_indices: Seq<u32>,
    /// Index-buffer length already accounted to the ledger.
    pub current_index: int,
    /// The current feature's accumulated property bag.
    pub properties: Map<Seq<char>, LitV>,
    /// Whether the current feature was rejected by the filter.
    pub filtered: bool,
}

/// The sum of a ledger's entries.
pub open spec fn sum_u32(s: Seq<u32>) -> int
    decreases s.len(),
{
    if s.len() == 0 {
        0
    } else {
        sum_u32(s.drop_last()) + s.last()
    }
}

/// The empty tessellator state.
pub open spec fn tess_init() -> TessState {
    TessState {
        current: Seq::empty(),
        path_open: false,
        is_point: false,
        subpaths: Seq::empty(),
        vertices: Seq::empty(),
        indices: Seq::empty(),
        feature_indices: Seq::empty(),
        current_index: 0,
        properties: Map::empty(),
        filtered: false,
    }
}

/// Well-formedness of a tessellator state: the ledger accounts for a
/// prefix of the index buffer exactly, and the buffer is a valid mesh.
pub open spec fn tess_wf(s: TessState) -> bool {
    &&& 0 <= s.current_index <= s.indices.len()
    &&& s.indices.len() <= u32::MAX
    &&& s.vertices.len() <= u32::MAX
    &&& sum_u32(s.feature_indices) == s.current_index
    &&& s.path_open ==> s.current.len() > 0
    &&& forall|i: int| 0 <= i < s.subpaths.len() ==> (#[trigger] s.subpaths[i]).points.len() > 0
}

/// Closes the open subpath, if any, marking it closed or open.
pub open spec fn end_path(s: TessState, close: bool) -> TessState {
    if s.path_open {
        TessState {
            current: Seq::empty(),
            path_open: false,
            subpaths: s.subpaths.push(SubPathV { points: s.current, closed: close }),
            ..s
        }
    } else {
        s
    }
}

/// Whether the feature passes the layer filter; `None` marks an
/// unsupported filter operation.
pub open spec fn feature_matches(
    filter: Option<&LegacyFilterExpression>,
    props: Map<Seq<char>, LitV>,
) -> Option<bool> {
    match filter {
        Option::None => Some(true),
        Some(f) => eval_filter(f, props),
    }
}

/// Appends a tessellation result to the buffer, re-basing its indices
/// onto the existing vertices.
pub open spec fn append_mesh(
    s: TessState,
    verts: Seq<VertexData>,
    idxs: Seq<u32>,
) -> Result<TessState, TessellationError> {
    if s.vertices.len() + verts.len() > u32::MAX || s.indices.len() + idxs.len() > u32::MAX {
        Err(TessellationError::BufferOverflow)
    } else {
        let base = s.vertices.len() as u32;
        Ok(
            TessState {
                vertices: s.vertices + verts,
                indices: s.indices + idxs.map_values(|i: u32| (i + base) as u32),
                ..s
            },
        )
    }
}

/// One geometry completion: injects the synthetic `$type` property, takes
/// the accumulated subpaths, and either discards them (feature filtered)
/// or appends their tessellation `mesh` to the buffer.
pub open spec fn complete_geometry(
    s: TessState,
    filter: Option<&LegacyFilterExpression>,
    geom_kind: Seq<char>,
    mesh: Option<(Seq<VertexData>, Seq<u32>)>,
) -> Result<TessState, TessellationError> {
    let props = s.properties.insert("$type"@, LitV::Str(geom_kind));
    let s1 = TessState { subpaths: Seq::empty(), properties: props, ..s };
    match feature_matches(filter, props) {
        Option::None => Err(TessellationError::Filter(FilterError::UnsupportedOperation)),
        Some(false) => Ok(TessState { filtered: true, ..s1 }),
        Some(true) => match mesh {
            Option::None => Err(TessellationError::TessellationFailed),
            Some((v, i)) => append_mesh(s1, v, i),
        },
    }
}

/// Stroke completion of the accumulated subpaths.
pub open spec fn strokes_spec(
    s: TessState,
    filter: Option<&LegacyFilterExpression>,
) -> Result<TessState, TessellationError> {
    complete_geometry(s, filter, "LineString"@, stroke_tess_of(s.subpaths))
}

/// Fill completion of the accumulated subpaths.
pub open spec fn fill_spec(
    s: TessState,
    filter: Option<&LegacyFilterExpression>,
) -> Result<TessState, TessellationError> {
    complete_geometry(s, filter, "Polygon"@, fill_tess_of(s.subpaths))
}

/// The state transition of one event.
pub open spec fn tess_step(
    s: TessState,
    e: GeomEventV,
    filter: Option<&LegacyFilterExpression>,
) -> Result<TessState, TessellationError> {
    match e {
        GeomEventV::FeatureBegin => Ok(
            TessState { properties: Map::empty(), filtered: false, ..s },
        ),
        GeomEventV::FeatureEnd => if s.filtered {
            Ok(s)
        } else {
            Ok(
                TessState {
                    feature_indices: s.feature_indices.push(
                        (s.indices.len() - s.current_index) as u32,
                    ),
                    current_index: s.indices.len() as int,
                    ..s
                },
            )
        },
        GeomEventV::Property(k, v) => Ok(
            TessState { properties: s.properties.insert(k, v), ..s },
        ),
        GeomEventV::Xy(x, y) => if s.is_point {
            Ok(s)
        } else if !s.path_open {
            Ok(
                TessState {
                    current: seq![PathPoint { x, y }],
                    path_open: true,
                    ..s
                },
            )
        } else {
            Ok(TessState { current: s.current.push(PathPoint { x, y }), ..s })
        },
        GeomEventV::PointBegin => Ok(TessState { is_point: true, ..s }),
        GeomEventV::PointEnd => Ok(TessState { is_point: false, ..s }),
        GeomEventV::MultiPointBegin => Ok(s),
        GeomEventV::MultiPointEnd => Ok(s),
        GeomEventV::LinestringBegin(_) => Ok(s),
        GeomEventV::LinestringEnd(tagged) => {
            let s1 = end_path(s, false);
            if tagged {
                strokes_spec(s1, filter)
            } else {
                Ok(s1)
            }
        },
        GeomEventV::MultiLinestringBegin => Ok(s),
        GeomEventV::MultiLinestringEnd => strokes_spec(s, filter),
        GeomEventV::PolygonBegin(_) => Ok(s),
        GeomEventV::PolygonEnd(tagged) => {
            let s1 = end_path(s, true);
            if tagged {
                fill_spec(s1, filter)
            } else {
                Ok(s1)
            }
        },
        GeomEventV::MultiPolygonBegin => Ok(s),
        GeomEventV::MultiPolygonEnd => fill_spec(s, filter),
    }
}

/// Folding a whole event sequence from a state.
pub open spec fn tess_run(
    s: TessState,
    events: Seq<GeomEventV>,
    filter: Option<&LegacyFilterExpression>,
) -> Result<TessState, TessellationError>
    decreases events.len(),
{
    if events.len() == 0 {
        Ok(s)
    } else {
        match tess_step(s, events[0], filter) {
            Ok(s1) => tess_run(s1, events.drop_first(), filter),
            Err(e) => Err(e),
        }
    }
}

/// Every step preserves well-formedness.
pub proof fn lemma_step_preserves_wf(
    s: TessState,
    e: GeomEventV,
    filter: Option<&LegacyFilterExpression>,
)
    requires
        tess_wf(s),
        tess_step(s, e, filter) is Ok,
    ensures
        tess_wf(tess_step(s, e, filter)->Ok_0),
{
    let s2 = tess_step(s, e, filter)->Ok_0;
    match e {
        GeomEventV::FeatureEnd => {
            if !s.filtered {
                assert(s2.feature_indices.drop_last() =~= s.feature_indices);
            }
        },
        GeomEventV::LinestringEnd(tagged) => {
            if tagged {
                lemma_complete_wf(end_path(s, false), filter, "LineString"@,
                    stroke_tess_of(end_path(s, false).subpaths));
            }
        },
        GeomEventV::MultiLinestringEnd => {
            lemma_complete_wf(s, filter, "LineString"@, stroke_tess_of(s.subpaths));
        },
        GeomEventV::PolygonEnd(tagged) => {
            if tagged {
                lemma_complete_wf(end_path(s, true), filter, "Polygon"@,
                    fill_tess_of(end_path(s, true).subpaths));
            }
        },
        GeomEventV::MultiPolygonEnd => {
            lemma_complete_wf(s, filter, "Polygon"@, fill_tess_of(s.subpaths));
        },
        _ => {},
    }
}

/// A geometry completion preserves well-formedness.
proof fn lemma_complete_wf(
    s: TessState,
    filter: Option<&LegacyFilterExpression>,
    geom_kind: Seq<char>,
    mesh: Option<(Seq<VertexData>, Seq<u32>)>,
)
    requires
        tess_wf(s),
        complete_geometry(s, filter, geom_kind, mesh) is Ok,
    ensures
        tess_wf(complete_geometry(s, filter, geom_kind, mesh)->Ok_0),
{
    let props = s.properties.insert("$type"@, LitV::Str(geom_kind));
    let s1 = TessState { subpaths: Seq::empty(), properties: props, ..s };
    match feature_matches(filter, props) {
        Option::None => {},
        Some(false) => {},
        Some(true) => match mesh {
            Option::None => {},
            Some((v, i)) => {
                assert(append_mesh(s1, v, i) is Ok ==> tess_wf(append_mesh(s1, v, i)->Ok_0));
            },
        },
    }
}

/// A run from a well-formed state ends, when it ends without error, in a
/// well-formed state: in particular the ledger stays an exact account of
/// the index buffer up to `current_index`.
pub proof fn lemma_run_preserves_wf(
    s: TessState,
    events: Seq<GeomEventV>,
    filter: Option<&LegacyFilterExpression>,
)
    requires
        tess_wf(s),
        tess_run(s, events, filter) is Ok,
    ensures
        tess_wf(tess_run(s, events, filter)->Ok_0),
    decreases events.len(),
{
    if events.len() > 0 {
        lemma_step_preserves_wf(s, events[0], filter);
        lemma_run_preserves_wf(
            tess_step(s, events[0], filter)->Ok_0,
            events.drop_first(),
            filter,
        );
    }
}

/// Feature-index conservation: from a well-formed state, ending a feature
/// that the filter did not reject leaves the ledger summing exactly to
/// the index-buffer length; a filtered feature leaves ledger and buffer
/// account unchanged.
pub proof fn lemma_feature_index_conservation(s: TessState, filter: Option<&LegacyFilterExpression>)
    requires
        tess_wf(s),
    ensures
        !s.filtered ==> ({
            let s2 = tess_step(s, GeomEventV::FeatureEnd, filter)->Ok_0;
            sum_u32(s2.feature_indices) == s2.indices.len()
        }),
        s.filtered ==> tess_step(s, GeomEventV::FeatureEnd, filter)->Ok_0 == s,
{
    if !s.filtered {
        let s2 = tess_step(s, GeomEventV::FeatureEnd, filter)->Ok_0;
        assert(s2.feature_indices.drop_last() =~= s.feature_indices);
    }
}

/// Unpacks bit-pattern pairs into vertices.
fn vertices_from_bits(vs: Vec<(u32, u32)>) -> (r: Vec<VertexData>)
    ensures
        r@ == vs@.map_values(|t: (u32, u32)| vertex_of_bits(t)),
{
    let mut out: Vec<VertexData> = Vec::new();
    let n = vs.len();
    let mut i: usize = 0;
    while i < n
        invariant
            i <= n == vs@.len(),
            out@ == vs@.map_values(|t: (u32, u32)| vertex_of_bits(t)).take(i as int),
        decreases n - i,
    {
        let (x_bits, y_bits) = vs[i];
        out.push(VertexData { x_bits, y_bits });
        proof {
            let m = vs@.map_values(|t: (u32, u32)| vertex_of_bits(t));
            assert(m.take(i + 1) =~= m.take(i as int).push(m[i as int]));
        }
        i = i + 1;
    }
    proof {
        assert(vs@.map_values(|t: (u32, u32)| vertex_of_bits(t)).take(n as int)
            =~= vs@.map_values(|t: (u32, u32)| vertex_of_bits(t)));
    }
    out
}

/// The tessellator: feeds on [`GeomEvent`]s and grows its buffer and
/// ledger exactly as [`tess_step`] lays down.
pub struct ZeroTessellator<'a> {
    pub current: Vec<PathPoint>,
    pub path_open: bool,
    pub is_point: bool,
    pub subpaths: Vec<SubPath>,
    pub buffer: MeshBuffer,
    pub feature_indices: Vec<u32>,
    pub current_index: usize,
    pub filter: Option<&'a LegacyFilterExpression>,
    pub properties: Properties,
    pub filtered: bool,
}

impl<'a> View for ZeroTessellator<'a> {
    type V = TessState;

    open spec fn view(&self) -> TessState {
        TessState {
            current: self.current@,
            path_open: self.path_open,
            is_point: self.is_point,
            subpaths: self.subpaths@.map_values(|sp: SubPath| sp@),
            vertices: self.buffer.vertices@,
            indices: self.buffer.indices@,
            feature_indices: self.feature_indices@,
            current_index: self.current_index as int,
            properties: self.properties@,
            filtered: self.filtered,
        }
    }
}

impl<'a> Default for ZeroTessellator<'a> {
    /// A fresh tessellator without a filter.
    fn default() -> (r: Self)
        ensures
            r@ == tess_init(),
            r.inv(),
            r.filter is None,
    {
        ZeroTessellator::new(None)
    }
}

impl<'a> ZeroTessellator<'a> {
    /// True when the two states differ at most in the buffer.
    pub open spec fn same_but_buffer(self, other: Self) -> bool {
        &&& self.current == other.current
        &&& self.path_open == other.path_open
        &&& self.is_point == other.is_point
        &&& self.subpaths == other.subpaths
        &&& self.feature_indices == other.feature_indices
        &&& self.current_index == other.current_index
        &&& self.filter == other.filter
        &&& self.properties == other.properties
        &&& self.filtered == other.filtered
    }

    /// The runtime invariant: a well-formed abstract state, a property bag
    /// fit for lookups, and a buffer whose indices are in bounds.
    pub open spec fn inv(&self) -> bool {
        &&& tess_wf(self@)
        &&& self.properties.wf()
        &&& self.buffer.wf()
    }

    /// A fresh tessellator for one style layer's filter.
    pub fn new(filter: Option<&'a LegacyFilterExpression>) -> (r: Self)
        ensures
            r@ == tess_init(),
            r.inv(),
            r.filter == filter,
    {
        let r = ZeroTessellator {
            current: Vec::new(),
            path_open: false,
            is_point: false,
            subpaths: Vec::new(),
            buffer: MeshBuffer::new(),
            feature_indices: Vec::new(),
            current_index: 0,
            filter,
            properties: Properties::new(),
            filtered: false,
        };
        proof {
            assert(r.subpaths@.map_values(|sp: SubPath| sp@) =~= Seq::<SubPathV>::empty());
            assert(r@ =~= tess_init());
        }
        r
    }

    /// Closes the open subpath, if any.
    fn end_close(&mut self, close: bool)
        requires
            old(self).inv(),
        ensures
            final(self)@ == end_path(old(self)@, close),
            final(self).inv(),
            final(self).filter == old(self).filter,
    {
        if self.path_open {
            let mut pts: Vec<PathPoint> = Vec::new();
            core::mem::swap(&mut pts, &mut self.current);
            let ghost before = self.subpaths@;
            self.subpaths.push(SubPath { points: pts, closed: close });
            self.path_open = false;
            proof {
                assert(self.subpaths@.map_values(|sp: SubPath| sp@)
                    =~= before.map_values(|sp: SubPath| sp@).push(
                        SubPathV { points: old(self).current@, closed: close },
                    ));
                assert(final(self)@ =~= end_path(old(self)@, close));
            }
        }
    }

    /// Appends one tessellation result to the buffer, re-basing its
    /// indices.
    fn append_result(&mut self, verts: Vec<VertexData>, idxs: Vec<u32>) -> (r: Result<
        (),
        TessellationError,
    >)
        requires
            old(self).inv(),
            mesh_valid(verts@, idxs@),
        ensures
            final(self).filter == old(self).filter,
            match append_mesh(old(self)@, verts@, idxs@) {
                Ok(s2) => r is Ok && final(self)@ == s2 && final(self).inv(),
                Err(err) => r == Err::<(), TessellationError>(err),
            },
    {
        if (self.buffer.vertices.len() as u128) + (verts.len() as u128) > 0xffff_ffffu128
            || (self.buffer.indices.len() as u128) + (idxs.len() as u128) > 0xffff_ffffu128 {
            return Err(TessellationError::BufferOverflow);
        }
        let base: u32 = self.buffer.vertices.len() as u32;
        let n_verts = verts.len();
        let mut i: usize = 0;
        while i < n_verts
            invariant
                n_verts == verts@.len(),
                i <= n_verts,
                self.buffer.vertices@ == old(self).buffer.vertices@ + verts@.take(i as int),
                self.same_but_buffer(*old(self)),
                self.buffer.indices@ == old(self).buffer.indices@,
            decreases n_verts - i,
        {
            self.buffer.vertices.push(verts[i]);
            proof {
                assert(old(self).buffer.vertices@ + verts@.take(i + 1)
                    =~= (old(self).buffer.vertices@ + verts@.take(i as int)).push(verts@[i as int]));
            }
            i = i + 1;
        }
        proof {
            assert(verts@.take(n_verts as int) =~= verts@);
        }
        let n_idxs = idxs.len();
        let mut j: usize = 0;
        while j < n_idxs
            invariant
                n_idxs == idxs@.len(),
                j <= n_idxs,
                base == old(self).buffer.vertices@.len(),
                mesh_valid(verts@, idxs@),
                self.buffer.vertices@ == old(self).buffer.vertices@ + verts@,
                self.buffer.vertices@.len() <= u32::MAX,
                self.same_but_buffer(*old(self)),
                self.buffer.indices@ == old(self).buffer.indices@
                    + idxs@.take(j as int).map_values(|x: u32| (x + base) as u32),
            decreases n_idxs - j,
    {
            let idx = idxs[j];
            proof {
                assert((idx as int) < verts@.len());
            }
            self.buffer.indices.push(idx + base);
            proof {
                assert(old(self).buffer.indices@
                    + idxs@.take(j + 1).map_values(|x: u32| (x + base) as u32)
                    =~= (old(self).buffer.indices@
                        + idxs@.take(j as int).map_values(|x: u32| (x + base) as u32)).push(
                        (idxs@[j as int] + base) as u32,
                    ));
            }
            j = j + 1;
        }
        proof {
            assert(idxs@.take(n_idxs as int) =~= idxs@);
            let s2 = append_mesh(old(self)@, verts@, idxs@)->Ok_0;
            assert(final(self)@ =~= s2);
            assert forall|k: int| 0 <= k < self.buffer.indices@.len()
                implies (self.buffer.indices@[k] as int) < self.buffer.vertices@.len() by {
                if k < old(self).buffer.indices@.len() {
                    assert(self.buffer.indices@[k] == old(self).buffer.indices@[k]);
                } else {
                    let m = k - old(self).buffer.indices@.len();
                    assert(self.buffer.indices@[k]
                        == idxs@.map_values(|x: u32| (x + base) as u32)[m]);
                    assert((idxs@[m] as int) < verts@.len());
                }
            }
        }
        Ok(())
    }

    /// One geometry completion: `$type` injection, filter, tessellation.
    fn complete(&mut self, fill: bool) -> (r: Result<(), TessellationError>)
        requires
            old(self).inv(),
        ensures
            final(self).filter == old(self).filter,
            match complete_geometry(
                old(self)@,
                old(self).filter,
                if fill { "Polygon"@ } else { "LineString"@ },
                if fill {
                    fill_tess_of(old(self)@.subpaths)
                } else {
                    stroke_tess_of(old(self)@.subpaths)
                },
            ) {
                Ok(s2) => r is Ok && final(self)@ == s2 && final(self).inv(),
                Err(err) => r == Err::<(), TessellationError>(err),
            },
    {
        let mut paths: Vec<SubPath> = Vec::new();
        core::mem::swap(&mut paths, &mut self.subpaths);
        proof {
            assert forall|i: int| 0 <= i < paths@.len()
                implies (#[trigger] paths@[i]).points@.len() > 0 by {
                assert(old(self)@.subpaths[i] == paths@[i]@);
            }
        }
        let kind = if fill {
            String::from_str("Polygon")
        } else {
            String::from_str("LineString")
        };
        self.properties.insert(String::from_str("$type"), ComparisonLiteral::String(kind));
        proof {
            assert(self.subpaths@.map_values(|sp: SubPath| sp@) =~= Seq::<SubPathV>::empty());
        }
        let matches_filter: bool = match self.filter {
            Option::None => true,
            Some(f) => match f.evaluate(&self.properties) {
                Ok(b) => b,
                Err(err) => {
                    return Err(TessellationError::Filter(err));
                },
            },
        };
        if !matches_filter {
            self.filtered = true;
            return Ok(());
        }
        let mesh = if fill {
            lyon_fill(&paths)
        } else {
            lyon_stroke(&paths)
        };
        match mesh {
            Err(()) => Err(TessellationError::TessellationFailed),
            Ok((verts, idxs)) => {
                let converted = vertices_from_bits(verts);
                self.append_result(converted, idxs)
            },
        }
    }

    /// Feeds one event; the state moves exactly per [`tess_step`].  On an
    /// error the layer's tessellation is abandoned.
    pub fn handle_event(&mut self, e: GeomEvent) -> (r: Result<(), TessellationError>)
        requires
            old(self).inv(),
        ensures
            final(self).filter == old(self).filter,
            match tess_step(old(self)@, e@, old(self).filter) {
                Ok(s2) => r is Ok && final(self)@ == s2 && final(self).inv(),
                Err(err) => r == Err::<(), TessellationError>(err),
            },
    {
        match e {
            GeomEvent::FeatureBegin => {
                self.properties.clear();
                self.filtered = false;
                Ok(())
            },
            GeomEvent::FeatureEnd => {
                if !self.filtered {
                    let next = self.buffer.indices.len();
                    let delta = next - self.current_index;
                    self.feature_indices.push(delta as u32);
                    self.current_index = next;
                    proof {
                        assert(final(self)@.feature_indices
                            =~= old(self)@.feature_indices.push(
                                (old(self)@.indices.len() - old(self)@.current_index) as u32,
                            ));
                        assert(sum_u32(final(self)@.feature_indices)
                            == final(self)@.current_index) by {
                            assert(final(self)@.feature_indices.drop_last()
                                =~= old(self)@.feature_indices);
                        }
                    }
                }
                Ok(())
            },
            GeomEvent::Property(k, v) => {
                self.properties.insert(k, v);
                Ok(())
            },
            GeomEvent::Xy(x, y) => {
                if self.is_point {
                } else if !self.path_open {
                    self.current.clear();
                    self.current.push(PathPoint { x, y });
                    self.path_open = true;
                    proof {
                        assert(self.current@ =~= seq![PathPoint { x, y }]);
                    }
                } else {
                    self.current.push(PathPoint { x, y });
                }
                Ok(())
            },
            GeomEvent::PointBegin => {
                self.is_point = true;
                Ok(())
            },
            GeomEvent::PointEnd => {
                self.is_point = false;
                Ok(())
            },
            GeomEvent::MultiPointBegin => Ok(()),
            GeomEvent::MultiPointEnd => Ok(()),
            GeomEvent::LinestringBegin(_) => Ok(()),
            GeomEvent::LinestringEnd(tagged) => {
                self.end_close(false);
                if tagged {
                    self.complete(false)
                } else {
                    Ok(())
                }
            },
            GeomEvent::MultiLinestringBegin => Ok(()),
            GeomEvent::MultiLinestringEnd => self.complete(false),
            GeomEvent::PolygonBegin(_) => Ok(()),
            GeomEvent::PolygonEnd(tagged) => {
                self.end_close(true);
                if tagged {
                    self.complete(true)
                } else {
                    Ok(())
                }
            },
            GeomEvent::MultiPolygonBegin => Ok(()),
            GeomEvent::MultiPolygonEnd => self.complete(true),
        }
    }

    /// Feeds a whole event stream, stopping at the first error; the state
    /// moves exactly per [`tess_run`].
    #[verifier::loop_isolation(false)]
    pub fn handle_events(&mut self, events: Vec<GeomEvent>) -> (r: Result<(), TessellationError>)
        requires
            old(self).inv(),
        ensures
            final(self).filter == old(self).filter,
            match tess_run(old(self)@, event_views(events@), old(self).filter) {
                Ok(s2) => r is Ok && final(self)@ == s2 && final(self).inv(),
                Err(err) => r == Err::<(), TessellationError>(err),
            },
    {
        let ghost all = event_views(events@);
        let mut events = events;
        let ghost j: int = 0;
        proof {
            assert(all.skip(0) =~= all);
            assert(event_views(events@) =~= all.skip(0));
        }
        loop
            invariant
                0 <= j <= all.len(),
                event_views(events@) == all.skip(j),
                events@.len() == all.len() - j,
                self.inv(),
                self.filter == old(self).filter,
                tess_run(old(self)@, all, old(self).filter)
                    == tess_run(self@, all.skip(j), old(self).filter),
            decreases events@.len(),
        {
            if events.len() == 0 {
                proof {
                    assert(all.skip(j).len() == 0);
                }
                return Ok(());
            }
            proof {
                assert(all.skip(j)[0] == all[j]);
                assert(all.skip(j).drop_first() =~= all.skip(j + 1));
                assert(event_views(events@)[0] == events@[0]@);
            }
            let ghost prev = events@;
            let ev = events.remove(0);
            proof {
                assert(ev == prev[0]);
                assert(ev@ == all[j]);
            }
            match self.handle_event(ev) {
                Ok(()) => {},
                Err(err) => {
                    return Err(err);
                },
            }
            proof {
                j = j + 1;
                assert forall|k: int| 0 <= k < events@.len()
                    implies event_views(events@)[k] == all.skip(j)[k] by {
                    assert(events@[k] == prev[k + 1]);
                    assert(event_views(prev)[k + 1] == prev[k + 1]@);
                    assert(event_views(events@)[k] == events@[k]@);
                }
                assert(event_views(events@) =~= all.skip(j));
            }
        }
    }
}

} // verus!
