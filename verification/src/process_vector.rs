//! The vector tile processor: decodes tile bytes, matches decoded layers
//! against the style's layers, drives one tessellator per matched style
//! layer, and reports every result as a message to a caller-supplied sink.
//!
//! The whole message sequence of a successful run is pinned by
//! [`expected_reports`]: per-layer results first, then missing-layer
//! reports for requested layers the tile lacks, then the final
//! tile-finished signal.  A send failure is fatal for the tile: the
//! messages sent up to it form a prefix of the expected sequence.

use vstd::prelude::*;
use crate::coords::WorldTileCoords;
use crate::expression::LegacyFilterExpression;
use crate::expression::contains_string;
use crate::expression::str_list_contains;
use crate::layer::Style;
use crate::layer::StyleLayer;
use crate::layer::source_layer_matches;
use crate::mvt::LayerData;
use crate::mvt::LayerDataV;
use crate::mvt::decode_tile;
use crate::mvt::layer_events;
use crate::mvt::layer_events_spec;
use crate::mvt::mvt_decode_of;
use crate::strutil::str_eq;
use crate::tessellation::MeshBuffer;
use crate::tessellation::TessState;
use crate::tessellation::VertexData;
use crate::tessellation::ZeroTessellator;
use crate::tessellation::tess_init;
use crate::tessellation::tess_run;

verus! {

/// Sending a message through the sink failed.
#[derive(Clone, Copy, Debug, PartialEq, Eq, Structural)]
pub struct SendError;

/// An error that aborts processing of one tile request.
#[derive(Debug)]
pub enum ProcessVectorError {
    /// Sending of results failed.
    SendError(SendError),
    /// Decoding of the tile bytes failed.
    Decoding(String),
}

/// A message the processor reports to its sink.
#[derive(Debug)]
pub enum Message {
    /// All layers of the tile are processed.
    TileTessellated { coords: WorldTileCoords },
    /// A style layer could not be produced for the tile.
    LayerMissing { coords: WorldTileCoords, layer_name: String },
    /// A style layer's tessellation for the tile.
    LayerTessellated {
        coords: WorldTileCoords,
        buffer: MeshBuffer,
        feature_indices: Vec<u32>,
        layer_data: LayerData,
        style_layer_id: String,
    },
    /// Reserved: spatial-index results for the tile.
    LayerIndexed { coords: WorldTileCoords },
}

/// The mathematical view of a message.
pub ghost enum MessageV {
    TileTessellated { coords: WorldTileCoords },
    LayerMissing { coords: WorldTileCoords, layer_name: Seq<char> },
    LayerTessellated {
        coords: WorldTileCoords,
        vertices: Seq<VertexData>,
        indices: Seq<u32>,
        feature_indices: Seq<u32>,
        layer_data: LayerDataV,
        style_layer_id: Seq<char>,
    },
    LayerIndexed { coords: WorldTileCoords },
}

impl View for Message {
    type V = MessageV;

    open spec fn view(&self) -> MessageV {
        match self {
            Message::TileTessellated { coords } => MessageV::TileTessellated { coords: *coords },
            Message::LayerMissing { coords, layer_name } => MessageV::LayerMissing {
                coords: *coords,
                layer_name: layer_name@,
            },
            Message::LayerTessellated { coords, buffer, feature_indices, layer_data, style_layer_id } => MessageV::LayerTessellated {
                coords: *coords,
                vertices: buffer.vertices@,
                indices: buffer.indices@,
                feature_indices: feature_indices@,
                layer_data: layer_data@,
                style_layer_id: style_layer_id@,
            },
            Message::LayerIndexed { coords } => MessageV::LayerIndexed { coords: *coords },
        }
    }
}

/// The sink the processor reports to.  Implementations deliver each
/// message to a consumer; a delivered message appends to the sent
/// history, a failed send leaves it unchanged.
pub trait Context: Sized {
    /// The messages delivered so far.
    spec fn sent(&self) -> Seq<MessageV>;

    /// Delivers one message.
    fn send_back(&mut self, msg: Message) -> (r: Result<(), SendError>)
        ensures
            r is Ok ==> final(self).sent() == old(self).sent().push(msg@),
            r is Err ==> final(self).sent() == old(self).sent(),
    ;
}

/// A sink that records every delivered message in memory.
pub struct RecordingSink {
    pub messages: Vec<Message>,
}

impl RecordingSink {
    /// An empty recorder.
    pub fn new() -> (r: RecordingSink)
        ensures
            r.sent() == Seq::<MessageV>::empty(),
            r.messages@.len() == 0,
    {
        let r = RecordingSink { messages: Vec::new() };
        proof {
            assert(r.messages@.map_values(|m: Message| m@) =~= Seq::<MessageV>::empty());
        }
        r
    }
}

impl Context for RecordingSink {
    closed spec fn sent(&self) -> Seq<MessageV> {
        self.messages@.map_values(|m: Message| m@)
    }

    fn send_back(&mut self, msg: Message) -> (r: Result<(), SendError>) {
        let ghost before = self.messages@;
        let ghost mv = msg@;
        self.messages.push(msg);
        proof {
            assert(self.messages@.map_values(|m: Message| m@)
                =~= before.map_values(|m: Message| m@).push(mv));
        }
        Ok(())
    }
}

/// A sink that refuses every message; delivery never happens.
pub struct FailingSink;

impl Context for FailingSink {
    closed spec fn sent(&self) -> Seq<MessageV> {
        Seq::empty()
    }

    fn send_back(&mut self, _msg: Message) -> (r: Result<(), SendError>) {
        Err(SendError)
    }
}

/// A request to process one tile: its coordinate, the requested layer
/// names, and the style to match against.
pub struct VectorTileRequest {
    pub coords: WorldTileCoords,
    pub layers: Vec<String>,
    pub style: Style,
}

/// Wraps a sink for one processing run.
pub struct ProcessVectorContext<C: Context> {
    context: C,
}

impl<C: Context> ProcessVectorContext<C> {
    /// The messages the wrapped sink has delivered.
    pub closed spec fn sent(&self) -> Seq<MessageV> {
        self.context.sent()
    }

    pub fn new(context: C) -> (r: Self)
        ensures
            r.sent() == context.sent(),
    {
        Self { context }
    }

    /// Hands the sink back.
    pub fn take_context(self) -> (r: C)
        ensures
            r.sent() == self.sent(),
    {
        self.context
    }

    /// Reports the tile as finished.
    pub fn tile_finished(&mut self, coords: &WorldTileCoords) -> (r: Result<
        (),
        ProcessVectorError,
    >)
        ensures
            match r {
                Ok(()) => final(self).sent() == old(self).sent().push(
                    MessageV::TileTessellated { coords: *coords },
                ),
                Err(e) => final(self).sent() == old(self).sent() && e is SendError,
            },
    {
        match self.context.send_back(Message::TileTessellated { coords: *coords }) {
            Ok(()) => Ok(()),
            Err(e) => Err(ProcessVectorError::SendError(e)),
        }
    }

    /// Reports a style layer as missing for the tile.
    pub fn layer_missing(&mut self, coords: &WorldTileCoords, layer_name: &str) -> (r: Result<
        (),
        ProcessVectorError,
    >)
        ensures
            match r {
                Ok(()) => final(self).sent() == old(self).sent().push(
                    MessageV::LayerMissing { coords: *coords, layer_name: layer_name@ },
                ),
                Err(e) => final(self).sent() == old(self).sent() && e is SendError,
            },
    {
        match self.context.send_back(
            Message::LayerMissing { coords: *coords, layer_name: String::from_str(layer_name) },
        ) {
            Ok(()) => Ok(()),
            Err(e) => Err(ProcessVectorError::SendError(e)),
        }
    }

    /// Reports a style layer's tessellation for the tile.
    pub fn layer_tesselation_finished(
        &mut self,
        coords: &WorldTileCoords,
        buffer: MeshBuffer,
        feature_indices: Vec<u32>,
        layer_data: LayerData,
        style_layer_id: String,
    ) -> (r: Result<(), ProcessVectorError>)
        ensures
            match r {
                Ok(()) => final(self).sent() == old(self).sent().push(
                    MessageV::LayerTessellated {
                        coords: *coords,
                        vertices: buffer.vertices@,
                        indices: buffer.indices@,
                        feature_indices: feature_indices@,
                        layer_data: layer_data@,
                        style_layer_id: style_layer_id@,
                    },
                ),
                Err(e) => final(self).sent() == old(self).sent() && e is SendError,
            },
    {
        match self.context.send_back(
            Message::LayerTessellated {
                coords: *coords,
                buffer,
                feature_indices,
                layer_data,
                style_layer_id,
            },
        ) {
            Ok(()) => Ok(()),
            Err(e) => Err(ProcessVectorError::SendError(e)),
        }
    }
}

/// The filter of a style layer, as the tessellator takes it.
pub open spec fn filter_of(sl: &StyleLayer) -> Option<&LegacyFilterExpression> {
    match &sl.filter {
        Some(f) => Some(f),
        None => None,
    }
}

/// What tessellating one decoded layer under one style layer's filter
/// yields: the final tessellator state, or nothing when event derivation
/// or tessellation fails.
pub open spec fn layer_outcome(
    layer: LayerDataV,
    sl: &StyleLayer,
) -> Option<TessState> {
    match layer_events_spec(layer) {
        Err(_) => None,
        Ok(evs) => match tess_run(tess_init(), evs, filter_of(sl)) {
            Err(_) => None,
            Ok(s) => Some(s),
        },
    }
}

/// The report for one (decoded layer, style layer) pairing.
pub open spec fn sl_report(coords: WorldTileCoords, layer: LayerDataV, sl: &StyleLayer) -> MessageV {
    match layer_outcome(layer, sl) {
        Some(s) => MessageV::LayerTessellated {
            coords,
            vertices: s.vertices,
            indices: s.indices,
            feature_indices: s.feature_indices,
            layer_data: layer,
            style_layer_id: sl.id@,
        },
        None => MessageV::LayerMissing { coords, layer_name: sl.id@ },
    }
}

/// The reports of one decoded layer against the style layers from `j` on:
/// one report per style layer whose source layer is this layer's name.
pub open spec fn style_reports_from(
    coords: WorldTileCoords,
    layer: LayerDataV,
    style: Seq<StyleLayer>,
    j: int,
) -> Seq<MessageV>
    decreases style.len() - j,
{
    if j < 0 || j >= style.len() {
        Seq::empty()
    } else {
        let head = if style[j].source_layer matches Some(sl) && sl@ == layer.name {
            seq![sl_report(coords, layer, &style[j])]
        } else {
            Seq::empty()
        };
        head + style_reports_from(coords, layer, style, j + 1)
    }
}

/// The reports of the decoded layers from `i` on; a layer not in the
/// requested set contributes nothing.
pub open spec fn layer_reports_from(
    coords: WorldTileCoords,
    layers: Seq<LayerDataV>,
    req: Seq<String>,
    style: Seq<StyleLayer>,
    i: int,
) -> Seq<MessageV>
    decreases layers.len() - i,
{
    if i < 0 || i >= layers.len() {
        Seq::empty()
    } else {
        let head = if str_list_contains(req, layers[i].name) {
            style_reports_from(coords, layers[i], style, 0)
        } else {
            Seq::empty()
        };
        head + layer_reports_from(coords, layers, req, style, i + 1)
    }
}

/// True when some decoded layer carries the name.
pub open spec fn decoded_has_layer(layers: Seq<LayerDataV>, name: Seq<char>) -> bool {
    exists|i: int| 0 <= i < layers.len() && layers[i].name == name
}

/// The missing-layer reports for the requested names from `k` on.
pub open spec fn missing_from(
    coords: WorldTileCoords,
    layers: Seq<LayerDataV>,
    req: Seq<String>,
    k: int,
) -> Seq<MessageV>
    decreases req.len() - k,
{
    if k < 0 || k >= req.len() {
        Seq::empty()
    } else {
        let head = if !decoded_has_layer(layers, req[k]@) {
            seq![MessageV::LayerMissing { coords, layer_name: req[k]@ }]
        } else {
            Seq::empty()
        };
        head + missing_from(coords, layers, req, k + 1)
    }
}

/// True when `now` extends `base` by a prefix of the expected report
/// sequence.
pub open spec fn sent_expected_prefix(
    base: Seq<MessageV>,
    now: Seq<MessageV>,
    coords: WorldTileCoords,
    layers: Seq<LayerDataV>,
    req: Seq<String>,
    style: Seq<StyleLayer>,
) -> bool {
    exists|n: int|
        0 <= n <= expected_reports(coords, layers, req, style).len() && now == base
            + expected_reports(coords, layers, req, style).take(n)
}

/// The full message sequence of a successful run.
pub open spec fn expected_reports(
    coords: WorldTileCoords,
    layers: Seq<LayerDataV>,
    req: Seq<String>,
    style: Seq<StyleLayer>,
) -> Seq<MessageV> {
    layer_reports_from(coords, layers, req, style, 0) + missing_from(coords, layers, req, 0)
        + seq![MessageV::TileTessellated { coords }]
}

/// Checks whether a decoded layer's name is among the names of `layers`.
fn decoded_contains(layers: &Vec<LayerData>, name: &String) -> (r: bool)
    ensures
        r == decoded_has_layer(layers@.map_values(|l: LayerData| l@), name@),
{
    let ghost views = layers@.map_values(|l: LayerData| l@);
    let n = layers.len();
    let mut i: usize = 0;
    while i < n
        invariant
            n == layers@.len(),
            i <= n,
            views == layers@.map_values(|l: LayerData| l@),
            forall|k: int| 0 <= k < i ==> views[k].name != name@,
        decreases n - i,
    {
        if str_eq(layers[i].name.as_str(), name.as_str()) {
            proof {
                assert(views[i as int].name == name@);
            }
            return true;
        }
        i = i + 1;
    }
    false
}

/// Processes one tile request: decodes the bytes, tessellates every
/// requested layer under every matching style layer, reports the results,
/// the missing layers, and the final tile-finished signal.
///
/// A decode failure is fatal and reports nothing.  A send failure is
/// fatal for the rest of the tile; the messages already sent form a
/// prefix of the expected sequence.
#[verifier::loop_isolation(false)]
#[verifier::rlimit(100)]
pub fn process_vector_tile<C: Context>(
    data: &Vec<u8>,
    tile_request: VectorTileRequest,
    context: &mut ProcessVectorContext<C>,
) -> (r: Result<(), ProcessVectorError>)
    ensures
        match r {
            Ok(()) => mvt_decode_of(data@) matches Some(layers) && final(context).sent()
                == old(context).sent() + expected_reports(
                tile_request.coords,
                layers,
                tile_request.layers@,
                tile_request.style.layers@,
            ),
            Err(ProcessVectorError::Decoding(_)) => mvt_decode_of(data@) is None
                && final(context).sent() == old(context).sent(),
            Err(ProcessVectorError::SendError(_)) => mvt_decode_of(data@) matches Some(layers)
                && sent_expected_prefix(
                old(context).sent(),
                final(context).sent(),
                tile_request.coords,
                layers,
                tile_request.layers@,
                tile_request.style.layers@,
            ),
        },
{
    let coords = tile_request.coords;
    let layers = match decode_tile(data) {
        Ok(layers) => layers,
        Err(msg) => {
            return Err(ProcessVectorError::Decoding(msg));
        },
    };
    let ghost lviews = layers@.map_values(|l: LayerData| l@);
    let ghost req = tile_request.layers@;
    let ghost style_seq = tile_request.style.layers@;
    let ghost expected = expected_reports(coords, lviews, req, style_seq);
    let nl = layers.len();
    let mut i: usize = 0;
    while i < nl
        invariant
            i <= nl == layers@.len(),
            context.sent() == old(context).sent() + layer_reports_from(
                coords,
                lviews,
                req,
                style_seq,
                0,
            ).take(
                (layer_reports_from(coords, lviews, req, style_seq, 0).len()
                    - layer_reports_from(coords, lviews, req, style_seq, i as int).len()) as int,
            ),
            layer_reports_from(coords, lviews, req, style_seq, 0)
                == layer_reports_from(coords, lviews, req, style_seq, 0).take(
                (layer_reports_from(coords, lviews, req, style_seq, 0).len()
                    - layer_reports_from(coords, lviews, req, style_seq, i as int).len()) as int,
            ) + layer_reports_from(coords, lviews, req, style_seq, i as int),
        decreases nl - i,
    {
        proof {
            assert(lviews[i as int] == layers@[i as int]@);
        }
        let requested = contains_string(&tile_request.layers, &layers[i].name);
        if requested {
            let ns = tile_request.style.layers.len();
            let mut j: usize = 0;
            while j < ns
                invariant
                    j <= ns == style_seq.len(),
                    context.sent() == old(context).sent() + layer_reports_from(
                        coords,
                        lviews,
                        req,
                        style_seq,
                        0,
                    ).take(
                        (layer_reports_from(coords, lviews, req, style_seq, 0).len()
                            - layer_reports_from(coords, lviews, req, style_seq, i as int).len())
                            as int,
                    ) + style_reports_from(coords, lviews[i as int], style_seq, 0).take(
                        (style_reports_from(coords, lviews[i as int], style_seq, 0).len()
                            - style_reports_from(coords, lviews[i as int], style_seq, j as int)
                            .len()) as int,
                    ),
                    style_reports_from(coords, lviews[i as int], style_seq, 0)
                        == style_reports_from(coords, lviews[i as int], style_seq, 0).take(
                        (style_reports_from(coords, lviews[i as int], style_seq, 0).len()
                            - style_reports_from(coords, lviews[i as int], style_seq, j as int)
                            .len()) as int,
                    ) + style_reports_from(coords, lviews[i as int], style_seq, j as int),
                decreases ns - j,
            {
                let style_layer = &tile_request.style.layers[j];
                let is_match = source_layer_matches(style_layer, layers[i].name.as_str());
                if is_match {
                    let report = run_style_layer(&layers[i], style_layer, &coords);
                    let ghost msg_view = sl_report(coords, lviews[i as int], &style_seq[j as int]);
                    let ghost before = context.sent();
                    let send_result = match report {
                        Ok((buffer, feature_indices)) => context.layer_tesselation_finished(
                            &coords,
                            buffer,
                            feature_indices,
                            layers[i].duplicate(),
                            style_layer.id.clone(),
                        ),
                        Err(()) => context.layer_missing(&coords, style_layer.id.as_str()),
                    };
                    match send_result {
                        Ok(()) => {
                            proof {
                                assert(context.sent() == before.push(msg_view));
                            }
                        },
                        Err(e) => {
                            proof {
                                lemma_sent_is_prefix(
                                    old(context).sent(),
                                    context.sent(),
                                    expected,
                                    coords,
                                    lviews,
                                    req,
                                    style_seq,
                                    i as int,
                                    j as int,
                                );
                                assert(mvt_decode_of(data@) == Some(lviews));
                                assert(sent_expected_prefix(
                                    old(context).sent(),
                                    context.sent(),
                                    coords,
                                    lviews,
                                    req,
                                    style_seq,
                                ));
                            }
                            return Err(e);
                        },
                    }
                    proof {
                        lemma_style_step(coords, lviews[i as int], style_seq, j as int);
                        lemma_take_push(
                            style_reports_from(coords, lviews[i as int], style_seq, 0),
                            (style_reports_from(coords, lviews[i as int], style_seq, 0).len()
                                - style_reports_from(
                                coords,
                                lviews[i as int],
                                style_seq,
                                j as int,
                            ).len()) as int,
                            msg_view,
                        );
                        assert(context.sent() =~= old(context).sent() + layer_reports_from(
                            coords,
                            lviews,
                            req,
                            style_seq,
                            0,
                        ).take(
                            (layer_reports_from(coords, lviews, req, style_seq, 0).len()
                                - layer_reports_from(coords, lviews, req, style_seq, i as int)
                                .len()) as int,
                        ) + style_reports_from(coords, lviews[i as int], style_seq, 0).take(
                            (style_reports_from(coords, lviews[i as int], style_seq, 0).len()
                                - style_reports_from(
                                coords,
                                lviews[i as int],
                                style_seq,
                                (j + 1) as int,
                            ).len()) as int,
                        ));
                    }
                } else {
                    proof {
                        lemma_style_step(coords, lviews[i as int], style_seq, j as int);
                    }
                }
                j = j + 1;
            }
            proof {
                lemma_layer_step(coords, lviews, req, style_seq, i as int);
                assert(style_reports_from(coords, lviews[i as int], style_seq, ns as int).len()
                    == 0);
                lemma_concat_take(
                    layer_reports_from(coords, lviews, req, style_seq, 0),
                    style_reports_from(coords, lviews[i as int], style_seq, 0),
                    layer_reports_from(coords, lviews, req, style_seq, i as int),
                    layer_reports_from(coords, lviews, req, style_seq, (i + 1) as int),
                );
                assert(context.sent() =~= old(context).sent() + layer_reports_from(
                    coords,
                    lviews,
                    req,
                    style_seq,
                    0,
                ).take(
                    (layer_reports_from(coords, lviews, req, style_seq, 0).len()
                        - layer_reports_from(coords, lviews, req, style_seq, (i + 1) as int)
                        .len()) as int,
                ));
            }
        } else {
            proof {
                lemma_layer_step(coords, lviews, req, style_seq, i as int);
            }
        }
        i = i + 1;
    }
    // missing-layer reports
    let nr = tile_request.layers.len();
    let mut k: usize = 0;
    proof {
        assert(layer_reports_from(coords, lviews, req, style_seq, nl as int).len() == 0);
        assert(layer_reports_from(coords, lviews, req, style_seq, 0).take(
            layer_reports_from(coords, lviews, req, style_seq, 0).len() as int,
        ) =~= layer_reports_from(coords, lviews, req, style_seq, 0));
    }
    while k < nr
        invariant
            k <= nr == req.len(),
            context.sent() == old(context).sent() + layer_reports_from(
                coords,
                lviews,
                req,
                style_seq,
                0,
            ) + missing_from(coords, lviews, req, 0).take(
                (missing_from(coords, lviews, req, 0).len() - missing_from(
                    coords,
                    lviews,
                    req,
                    k as int,
                ).len()) as int,
            ),
            missing_from(coords, lviews, req, 0) == missing_from(coords, lviews, req, 0).take(
                (missing_from(coords, lviews, req, 0).len() - missing_from(
                    coords,
                    lviews,
                    req,
                    k as int,
                ).len()) as int,
            ) + missing_from(coords, lviews, req, k as int),
        decreases nr - k,
    {
        let absent = !decoded_contains(&layers, &tile_request.layers[k]);
        if absent {
            let ghost before = context.sent();
            let ghost msg_view = MessageV::LayerMissing { coords, layer_name: req[k as int]@ };
            match context.layer_missing(&coords, tile_request.layers[k].as_str()) {
                Ok(()) => {},
                Err(e) => {
                    proof {
                        lemma_sent_is_prefix_missing(
                            old(context).sent(),
                            context.sent(),
                            expected,
                            coords,
                            lviews,
                            req,
                            style_seq,
                            k as int,
                        );
                        assert(mvt_decode_of(data@) == Some(lviews));
                        assert(sent_expected_prefix(
                            old(context).sent(),
                            context.sent(),
                            coords,
                            lviews,
                            req,
                            style_seq,
                        ));
                    }
                    return Err(e);
                },
            }
            proof {
                lemma_missing_step(coords, lviews, req, k as int);
                lemma_take_push(
                    missing_from(coords, lviews, req, 0),
                    (missing_from(coords, lviews, req, 0).len() - missing_from(
                        coords,
                        lviews,
                        req,
                        k as int,
                    ).len()) as int,
                    msg_view,
                );
                assert(context.sent() =~= old(context).sent() + layer_reports_from(
                    coords,
                    lviews,
                    req,
                    style_seq,
                    0,
                ) + missing_from(coords, lviews, req, 0).take(
                    (missing_from(coords, lviews, req, 0).len() - missing_from(
                        coords,
                        lviews,
                        req,
                        (k + 1) as int,
                    ).len()) as int,
                ));
            }
        } else {
            proof {
                lemma_missing_step(coords, lviews, req, k as int);
            }
        }
        k = k + 1;
    }
    proof {
        assert(missing_from(coords, lviews, req, nr as int).len() == 0);
        assert(missing_from(coords, lviews, req, 0).take(
            missing_from(coords, lviews, req, 0).len() as int,
        ) =~= missing_from(coords, lviews, req, 0));
    }
    // final signal
    match context.tile_finished(&coords) {
        Ok(()) => {},
        Err(e) => {
            proof {
                let done = layer_reports_from(coords, lviews, req, style_seq, 0) + missing_from(
                    coords,
                    lviews,
                    req,
                    0,
                );
                assert(expected.take(done.len() as int) =~= done);
                assert(context.sent() =~= old(context).sent() + expected.take(
                    done.len() as int,
                ));
                assert(0 <= done.len() <= expected.len());
                assert(mvt_decode_of(data@) == Some(lviews));
                assert(sent_expected_prefix(
                    old(context).sent(),
                    context.sent(),
                    coords,
                    lviews,
                    req,
                    style_seq,
                ));
            }
            return Err(e);
        },
    }
    proof {
        assert(context.sent() =~= old(context).sent() + expected);
    }
    Ok(())
}

/// Tessellates one decoded layer under one style layer.
fn run_style_layer(layer: &LayerData, style_layer: &StyleLayer, coords: &WorldTileCoords) -> (r:
    Result<(MeshBuffer, Vec<u32>), ()>)
    ensures
        match r {
            Ok((buffer, feature_indices)) => layer_outcome(layer@, style_layer) matches Some(s)
                && s.vertices == buffer.vertices@ && s.indices == buffer.indices@
                && s.feature_indices == feature_indices@,
            Err(()) => layer_outcome(layer@, style_layer) is None,
        },
{
    let events = match layer_events(layer) {
        Ok(evs) => evs,
        Err(_) => {
            return Err(());
        },
    };
    let filter: Option<&LegacyFilterExpression> = match &style_layer.filter {
        Some(f) => Some(f),
        None => None,
    };
    let mut tessellator = ZeroTessellator::new(filter);
    match tessellator.handle_events(events) {
        Ok(()) => Ok((tessellator.buffer, tessellator.feature_indices)),
        Err(_) => Err(()),
    }
}

/// Unfolds one step of `style_reports_from`.
proof fn lemma_style_step(
    coords: WorldTileCoords,
    layer: LayerDataV,
    style: Seq<StyleLayer>,
    j: int,
)
    requires
        0 <= j < style.len(),
    ensures
        style_reports_from(coords, layer, style, j) == (
        if style[j].source_layer matches Some(sl) && sl@ == layer.name {
            seq![sl_report(coords, layer, &style[j])]
        } else {
            Seq::empty()
        }) + style_reports_from(coords, layer, style, j + 1),
        style_reports_from(coords, layer, style, j).len() >= style_reports_from(
            coords,
            layer,
            style,
            j + 1,
        ).len(),
{
}

/// Unfolds one step of `layer_reports_from`.
proof fn lemma_layer_step(
    coords: WorldTileCoords,
    layers: Seq<LayerDataV>,
    req: Seq<String>,
    style: Seq<StyleLayer>,
    i: int,
)
    requires
        0 <= i < layers.len(),
    ensures
        layer_reports_from(coords, layers, req, style, i) == (
        if str_list_contains(req, layers[i].name) {
            style_reports_from(coords, layers[i], style, 0)
        } else {
            Seq::empty()
        }) + layer_reports_from(coords, layers, req, style, i + 1),
        layer_reports_from(coords, layers, req, style, i).len() >= layer_reports_from(
            coords,
            layers,
            req,
            style,
            i + 1,
        ).len(),
{
}

/// Unfolds one step of `missing_from`.
proof fn lemma_missing_step(
    coords: WorldTileCoords,
    layers: Seq<LayerDataV>,
    req: Seq<String>,
    k: int,
)
    requires
        0 <= k < req.len(),
    ensures
        missing_from(coords, layers, req, k) == (
        if !decoded_has_layer(layers, req[k]@) {
            seq![MessageV::LayerMissing { coords, layer_name: req[k]@ }]
        } else {
            Seq::empty()
        }) + missing_from(coords, layers, req, k + 1),
        missing_from(coords, layers, req, k).len() >= missing_from(coords, layers, req, k + 1).len(),
{
}

/// Extending a prefix of `s` by its next element.
proof fn lemma_take_push(s: Seq<MessageV>, n: int, m: MessageV)
    requires
        0 <= n < s.len(),
        s[n] == m,
    ensures
        s.take(n + 1) == s.take(n).push(m),
{
    assert(s.take(n + 1) =~= s.take(n).push(m));
}

/// Helper facts for the prefix claims at send-failure exits.
proof fn lemma_sent_is_prefix(
    base: Seq<MessageV>,
    sent: Seq<MessageV>,
    expected: Seq<MessageV>,
    coords: WorldTileCoords,
    lviews: Seq<LayerDataV>,
    req: Seq<String>,
    style_seq: Seq<StyleLayer>,
    i: int,
    j: int,
)
    requires
        0 <= i < lviews.len(),
        0 <= j <= style_seq.len(),
        expected == expected_reports(coords, lviews, req, style_seq),
        sent == base + layer_reports_from(coords, lviews, req, style_seq, 0).take(
            (layer_reports_from(coords, lviews, req, style_seq, 0).len() - layer_reports_from(
                coords,
                lviews,
                req,
                style_seq,
                i,
            ).len()) as int,
        ) + style_reports_from(coords, lviews[i], style_seq, 0).take(
            (style_reports_from(coords, lviews[i], style_seq, 0).len() - style_reports_from(
                coords,
                lviews[i],
                style_seq,
                j,
            ).len()) as int,
        ),
        layer_reports_from(coords, lviews, req, style_seq, 0)
            == layer_reports_from(coords, lviews, req, style_seq, 0).take(
            (layer_reports_from(coords, lviews, req, style_seq, 0).len() - layer_reports_from(
                coords,
                lviews,
                req,
                style_seq,
                i,
            ).len()) as int,
        ) + layer_reports_from(coords, lviews, req, style_seq, i),
        style_reports_from(coords, lviews[i], style_seq, 0)
            == style_reports_from(coords, lviews[i], style_seq, 0).take(
            (style_reports_from(coords, lviews[i], style_seq, 0).len() - style_reports_from(
                coords,
                lviews[i],
                style_seq,
                j,
            ).len()) as int,
        ) + style_reports_from(coords, lviews[i], style_seq, j),
        str_list_contains(req, lviews[i].name),
    ensures
        exists|n: int| 0 <= n <= expected.len() && sent == base + expected.take(n),
{
    let lr0 = layer_reports_from(coords, lviews, req, style_seq, 0);
    let lri = layer_reports_from(coords, lviews, req, style_seq, i);
    let sr0 = style_reports_from(coords, lviews[i], style_seq, 0);
    let srj = style_reports_from(coords, lviews[i], style_seq, j);
    let a = (lr0.len() - lri.len()) as int;
    let b = (sr0.len() - srj.len()) as int;
    lemma_layer_step(coords, lviews, req, style_seq, i);
    // the emitted prefix is a prefix of lr0
    let n = a + b;
    assert(lri == sr0 + layer_reports_from(coords, lviews, req, style_seq, i + 1));
    assert(n <= lr0.len());
    assert forall|q: int| 0 <= q < n implies lr0[q] == (lr0.take(a) + sr0.take(b))[q] by {
        if q >= a {
            assert(lr0[q] == lri[q - a]);
            assert(lri[q - a] == sr0[q - a]);
        }
    }
    assert(lr0.take(n) =~= lr0.take(a) + sr0.take(b));
    assert(expected.take(n) =~= lr0.take(n));
    assert(sent =~= base + expected.take(n));
    assert(0 <= n <= expected.len());
}

/// Helper facts for the prefix claim at a missing-report send failure.
proof fn lemma_sent_is_prefix_missing(
    base: Seq<MessageV>,
    sent: Seq<MessageV>,
    expected: Seq<MessageV>,
    coords: WorldTileCoords,
    lviews: Seq<LayerDataV>,
    req: Seq<String>,
    style_seq: Seq<StyleLayer>,
    k: int,
)
    requires
        0 <= k <= req.len(),
        expected == expected_reports(coords, lviews, req, style_seq),
        sent == base + layer_reports_from(coords, lviews, req, style_seq, 0) + missing_from(
            coords,
            lviews,
            req,
            0,
        ).take(
            (missing_from(coords, lviews, req, 0).len() - missing_from(
                coords,
                lviews,
                req,
                k,
            ).len()) as int,
        ),
        missing_from(coords, lviews, req, 0) == missing_from(coords, lviews, req, 0).take(
            (missing_from(coords, lviews, req, 0).len() - missing_from(
                coords,
                lviews,
                req,
                k,
            ).len()) as int,
        ) + missing_from(coords, lviews, req, k),
    ensures
        exists|n: int| 0 <= n <= expected.len() && sent == base + expected.take(n),
{
    let lr0 = layer_reports_from(coords, lviews, req, style_seq, 0);
    let m0 = missing_from(coords, lviews, req, 0);
    let b = (m0.len() - missing_from(coords, lviews, req, k).len()) as int;
    let n = lr0.len() + b;
    assert(b <= m0.len());
    assert(expected.take(n as int) =~= lr0 + m0.take(b));
    assert(sent =~= base + expected.take(n as int));
    assert(0 <= n <= expected.len());
}

/// Concatenation prefix bookkeeping for the outer layer loop.
proof fn lemma_concat_take(
    lr0: Seq<MessageV>,
    sr0: Seq<MessageV>,
    lri: Seq<MessageV>,
    lri1: Seq<MessageV>,
)
    requires
        lri == sr0 + lri1,
        lr0 == lr0.take((lr0.len() - lri.len()) as int) + lri,
    ensures
        lr0.take((lr0.len() - lri1.len()) as int) =~= lr0.take((lr0.len() - lri.len()) as int)
            + sr0,
{
    let a = (lr0.len() - lri.len()) as int;
    assert forall|q: int| 0 <= q < a + sr0.len() implies lr0[q] == (lr0.take(a) + sr0)[q] by {
        if q >= a {
            assert(lr0[q] == lri[q - a]);
            assert(lri[q - a] == sr0[q - a]);
        }
    }
}

} // verus!
