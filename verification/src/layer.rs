//! Style layer records: paint variants, zoom-interpolated quantities, and
//! the layer descriptions a style document supplies.

use vstd::prelude::*;
use crate::ZoomLevel;
use crate::expression::LegacyFilterExpression;
use crate::rational::Rational;
use crate::strutil::str_eq;
use crate::util::interpolate;
use crate::util::interp_exact;
use crate::util::quantity_in_range;
use crate::util::pow_in_range;

verus! {

/// An RGBA color with exact rational channels in `[0, 1]`.
#[derive(Clone, Copy, Debug)]
pub struct Rgba {
    pub r: Rational,
    pub g: Rational,
    pub b: Rational,
    pub a: Rational,
}

/// One anchor of a piecewise interpolation: at zoom `z` the quantity is
/// `v`.
#[derive(Clone, Copy, Debug)]
pub struct Stop {
    pub z: i64,
    pub v: Rational,
}

/// A paint quantity: either fixed, or interpolated between zoom stops with
/// an exponential base.
#[derive(Clone, Debug)]
pub enum InterpolatedQuantity {
    Fixed(Rational),
    Interpolated { base: Rational, stops: Vec<Stop> },
}

/// Background layer paint.
#[derive(Clone, Debug)]
pub struct BackgroundPaint {
    pub background_color: Option<Rgba>,
    pub background_opacity: Option<InterpolatedQuantity>,
}

/// Fill layer paint.
#[derive(Clone, Debug)]
pub struct FillPaint {
    pub fill_color: Option<Rgba>,
    pub fill_opacity: Option<InterpolatedQuantity>,
}

/// Line layer paint.
#[derive(Clone, Debug)]
pub struct LinePaint {
    pub line_color: Option<Rgba>,
    pub line_opacity: Option<InterpolatedQuantity>,
    pub line_width: Option<InterpolatedQuantity>,
}

/// Raster layer paint; carried through without further interpretation.
#[derive(Clone, Debug)]
pub struct RasterLayer {
    pub raster_opacity: Option<InterpolatedQuantity>,
}

/// The different kinds of paint a style layer carries.
#[derive(Clone, Debug)]
pub enum LayerPaint {
    Background(BackgroundPaint),
    Line(LinePaint),
    Fill(FillPaint),
    Raster(RasterLayer),
}

/// What [`get_color_parts`] computes from: the color and opacity of a paint
/// variant.
pub open spec fn paint_color_parts(p: &LayerPaint) -> Option<(Option<Rgba>, Option<
    InterpolatedQuantity,
>)> {
    match p {
        LayerPaint::Background(q) => Some((q.background_color, q.background_opacity)),
        LayerPaint::Line(q) => Some((q.line_color, q.line_opacity)),
        LayerPaint::Fill(q) => Some((q.fill_color, q.fill_opacity)),
        LayerPaint::Raster(_) => None,
    }
}

/// Combines a declared color with an interpolated opacity.
fn color_with_opacity(
    color: &Option<Rgba>,
    opacity: &Option<InterpolatedQuantity>,
    zoom: ZoomLevel,
) -> (r: Option<Rgba>)
    requires
        match opacity {
            Some(q) => quantity_in_range(q) && pow_in_range(q, zoom as int),
            None => true,
        },
    ensures
        r is Some <==> color is Some,
        match (r, color) {
            (Some(rc), Some(c)) => {
                &&& rc.r == c.r && rc.g == c.g && rc.b == c.b
                &&& match opacity {
                    Some(q) => match interp_exact(q, zoom as int) {
                        Some((n, d)) => rc.a.wf() && rc.a.is_frac(n, d),
                        None => rc.a == c.a,
                    },
                    None => rc.a == c.a,
                }
            },
            (None, None) => true,
            _ => false,
        },
{
    match color {
        None => None,
        Some(c) => {
            let mut out = *c;
            match opacity {
                Some(q) => {
                    match interpolate(q, zoom) {
                        Some(alpha) => {
                            out.a = alpha;
                        },
                        None => {},
                    }
                },
                None => {},
            }
            Some(out)
        },
    }
}

impl LayerPaint {
    /// The color this paint resolves to at `zoom`: the declared color with
    /// its alpha channel replaced by the interpolated opacity; raster
    /// paints resolve to no color.
    pub fn get_color(&self, zoom: ZoomLevel) -> (r: Option<Rgba>)
        requires
            match paint_color_parts(self) {
                Some((_, Some(q))) => quantity_in_range(&q) && pow_in_range(&q, zoom as int),
                _ => true,
            },
        ensures
            match paint_color_parts(self) {
                None => r is None,
                Some((color, opacity)) => {
                    &&& (r is Some <==> color is Some)
                    &&& match (r, color) {
                        (Some(rc), Some(c)) => {
                            &&& rc.r == c.r && rc.g == c.g && rc.b == c.b
                            &&& match opacity {
                                Some(q) => match interp_exact(&q, zoom as int) {
                                    Some((n, d)) => rc.a.wf() && rc.a.is_frac(n, d),
                                    None => rc.a == c.a,
                                },
                                None => rc.a == c.a,
                            }
                        },
                        (None, None) => true,
                        _ => false,
                    }
                },
            },
    {
        match self {
            LayerPaint::Background(paint) => color_with_opacity(
                &paint.background_color,
                &paint.background_opacity,
                zoom,
            ),
            LayerPaint::Line(paint) => color_with_opacity(
                &paint.line_color,
                &paint.line_opacity,
                zoom,
            ),
            LayerPaint::Fill(paint) => color_with_opacity(
                &paint.fill_color,
                &paint.fill_opacity,
                zoom,
            ),
            LayerPaint::Raster(_) => None,
        }
    }
}

/// All the styling of one layer of a style document.
#[derive(Debug)]
pub struct StyleLayer {
    pub index: u32,
    pub id: String,
    pub maxzoom: Option<ZoomLevel>,
    pub minzoom: Option<ZoomLevel>,
    pub metadata: Option<Vec<(String, String)>>,
    pub paint: Option<LayerPaint>,
    pub source: Option<String>,
    pub source_layer: Option<String>,
    pub filter: Option<LegacyFilterExpression>,
}

impl Default for StyleLayer {
    /// A placeholder layer whose source layer matches nothing.
    fn default() -> (r: Self)
        ensures
            r.index == 0,
            r.id@ == "id"@,
            r.maxzoom is None,
            r.minzoom is None,
            r.metadata is None,
            r.paint is None,
            r.source is None,
            r.source_layer matches Some(sl) && sl@ == "does not exist"@,
            r.filter is None,
    {
        Self {
            index: 0,
            id: String::from_str("id"),
            maxzoom: None,
            minzoom: None,
            metadata: None,
            paint: None,
            source: None,
            source_layer: Some(String::from_str("does not exist")),
            filter: None,
        }
    }
}

/// True when a style layer's source layer name is `name`.
pub fn source_layer_matches(layer: &StyleLayer, name: &str) -> (r: bool)
    ensures
        r == match layer.source_layer {
            Some(sl) => sl@ == name@,
            None => false,
        },
{
    match &layer.source_layer {
        Some(sl) => str_eq(sl.as_str(), name),
        None => false,
    }
}

/// A parsed style document: its ordered layer list.
#[derive(Debug)]
pub struct Style {
    pub layers: Vec<StyleLayer>,
}

} // verus!
