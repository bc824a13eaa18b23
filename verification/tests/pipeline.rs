//! The tessellator ledger, the wire decoder, and the end-to-end tile
//! processor.

use maplibre_core::expression::{ComparisonLiteral, ExpressionComparisonOp, LegacyFilterExpression};
use maplibre_core::coords::WorldTileCoords;
use maplibre_core::layer::{Style, StyleLayer};
use maplibre_core::mvt::{decode_tile, layer_events, value_literal, MvtError, RawValue};
use maplibre_core::process_vector::{
    process_vector_tile, FailingSink, Message, ProcessVectorContext, ProcessVectorError,
    RecordingSink, VectorTileRequest,
};
use maplibre_core::tessellation::{GeomEvent, ZeroTessellator};

fn square_events(tagged: bool) -> Vec<GeomEvent> {
    vec![
        GeomEvent::PolygonBegin(tagged),
        GeomEvent::Xy(0, 0),
        GeomEvent::Xy(16, 0),
        GeomEvent::Xy(16, 16),
        GeomEvent::Xy(0, 16),
        GeomEvent::PolygonEnd(tagged),
    ]
}

#[test]
fn feature_index_conservation() {
    // two unfiltered features: the ledger sums to the index-buffer length
    let mut t = ZeroTessellator::new(None);
    for _ in 0..2 {
        t.handle_event(GeomEvent::FeatureBegin).unwrap();
        for e in square_events(true) {
            t.handle_event(e).unwrap();
        }
        t.handle_event(GeomEvent::FeatureEnd).unwrap();
    }
    assert_eq!(t.feature_indices.len(), 2);
    let total: u64 = t.feature_indices.iter().map(|c| *c as u64).sum();
    assert_eq!(total, t.buffer.indices.len() as u64);
    assert!(total > 0);
    for idx in &t.buffer.indices {
        assert!((*idx as usize) < t.buffer.vertices.len());
    }
}

#[test]
fn filtered_features_contribute_nothing() {
    let filter = LegacyFilterExpression::Has("present".to_string());
    let mut t = ZeroTessellator::new(Some(&filter));
    t.handle_event(GeomEvent::FeatureBegin).unwrap();
    for e in square_events(true) {
        t.handle_event(e).unwrap();
    }
    t.handle_event(GeomEvent::FeatureEnd).unwrap();
    assert_eq!(t.feature_indices.len(), 0);
    assert_eq!(t.buffer.indices.len(), 0);

    // an unfiltered feature afterwards accounts exactly for its growth
    t.handle_event(GeomEvent::FeatureBegin).unwrap();
    t.handle_event(GeomEvent::Property(
        "present".to_string(),
        ComparisonLiteral::Bool(true),
    ))
    .unwrap();
    for e in square_events(true) {
        t.handle_event(e).unwrap();
    }
    t.handle_event(GeomEvent::FeatureEnd).unwrap();
    assert_eq!(t.feature_indices.len(), 1);
    let total: u64 = t.feature_indices.iter().map(|c| *c as u64).sum();
    assert_eq!(total, t.buffer.indices.len() as u64);
}

/// A minimal tile: one layer "water" carrying one polygon feature with
/// the property `class = "water"`.
fn water_tile_bytes() -> Vec<u8> {
    let feature: Vec<u8> = [
        &[0x12, 2, 0, 0][..],                               // tags [0, 0]
        &[0x18, 3][..],                                     // type = polygon
        &[0x22, 11, 9, 0, 0, 26, 8, 0, 0, 8, 7, 0, 15][..], // geometry commands
    ]
    .concat();
    let value: Vec<u8> = [&[0x0A, 5][..], b"water"].concat(); // string_value
    let mut layer: Vec<u8> = Vec::new();
    layer.extend([0x0A, 5]); // name
    layer.extend(b"water");
    layer.extend([0x12, feature.len() as u8]);
    layer.extend(&feature);
    layer.extend([0x1A, 5]); // keys
    layer.extend(b"class");
    layer.extend([0x22, value.len() as u8]);
    layer.extend(&value);
    layer.extend([0x28, 0x80, 0x20]); // extent = 4096
    layer.extend([0x78, 2]); // version = 2
    let mut tile: Vec<u8> = Vec::new();
    tile.extend([0x1A, layer.len() as u8]);
    tile.extend(&layer);
    tile
}

fn water_style(filter: Option<LegacyFilterExpression>) -> Style {
    Style {
        layers: vec![StyleLayer {
            index: 0,
            id: "water-fill".to_string(),
            maxzoom: None,
            minzoom: None,
            metadata: None,
            paint: None,
            source: None,
            source_layer: Some("water".to_string()),
            filter,
        }],
    }
}

#[test]
fn decoded_tile_round_trip() {
    let bytes = water_tile_bytes();
    let layers = decode_tile(&bytes).expect("tile should decode");
    assert_eq!(layers.len(), 1);
    assert_eq!(layers[0].name, "water");
    assert_eq!(layers[0].version, 2);
    assert_eq!(layers[0].extent, Some(4096));
    assert_eq!(layers[0].keys, vec!["class".to_string()]);
    assert_eq!(layers[0].features.len(), 1);
    assert_eq!(layers[0].features[0].geom_type, Some(3));
    let events = layer_events(&layers[0]).expect("events should derive");
    assert!(matches!(events[0], GeomEvent::FeatureBegin));
    assert!(matches!(
        &events[1],
        GeomEvent::Property(k, ComparisonLiteral::String(v)) if k == "class" && v == "water"
    ));
    assert!(matches!(events.last(), Some(GeomEvent::FeatureEnd)));
}

#[test]
fn decode_failure_is_fatal() {
    let mut ctx = ProcessVectorContext::new(RecordingSink::new());
    let r = process_vector_tile(
        &vec![0u8],
        VectorTileRequest {
            coords: WorldTileCoords { x: 0, y: 0, z: 0 },
            layers: vec![],
            style: Style { layers: vec![] },
        },
        &mut ctx,
    );
    assert!(matches!(r, Err(ProcessVectorError::Decoding(_))));
    assert!(ctx.take_context().messages.is_empty());
}

#[test]
fn end_to_end_water_tile() {
    let bytes = water_tile_bytes();
    let filter = LegacyFilterExpression::Comparison(
        ExpressionComparisonOp::Eq,
        "class".to_string(),
        ComparisonLiteral::String("water".to_string()),
    );
    let coords = WorldTileCoords { x: 1, y: 1, z: 1 };
    let mut ctx = ProcessVectorContext::new(RecordingSink::new());
    process_vector_tile(
        &bytes,
        VectorTileRequest {
            coords,
            layers: vec!["water".to_string()],
            style: water_style(Some(filter)),
        },
        &mut ctx,
    )
    .expect("processing should succeed");
    let messages = ctx.take_context().messages;
    assert_eq!(messages.len(), 2);
    match &messages[0] {
        Message::LayerTessellated { buffer, feature_indices, style_layer_id, .. } => {
            assert_eq!(style_layer_id, "water-fill");
            assert!(!buffer.indices.is_empty());
            assert_eq!(feature_indices.len(), 1);
            assert!(feature_indices[0] > 0);
        },
        other => panic!("expected a tessellated layer, got {other:?}"),
    }
    assert!(matches!(&messages[1], Message::TileTessellated { .. }));
    assert!(!messages.iter().any(|m| matches!(m, Message::LayerMissing { .. })));
}

#[test]
fn rejecting_filter_empties_the_layer() {
    let bytes = water_tile_bytes();
    let filter = LegacyFilterExpression::Comparison(
        ExpressionComparisonOp::Eq,
        "class".to_string(),
        ComparisonLiteral::String("land".to_string()),
    );
    let coords = WorldTileCoords { x: 0, y: 0, z: 0 };
    let mut ctx = ProcessVectorContext::new(RecordingSink::new());
    process_vector_tile(
        &bytes,
        VectorTileRequest {
            coords,
            layers: vec!["water".to_string()],
            style: water_style(Some(filter)),
        },
        &mut ctx,
    )
    .unwrap();
    let messages = ctx.take_context().messages;
    match &messages[0] {
        Message::LayerTessellated { buffer, feature_indices, .. } => {
            // the feature was filtered: no geometry, no ledger entry
            assert!(buffer.indices.is_empty());
            assert!(feature_indices.is_empty());
        },
        other => panic!("expected a tessellated layer, got {other:?}"),
    }
}

#[test]
fn missing_layers_are_reported_in_request_order() {
    let bytes = water_tile_bytes();
    let coords = WorldTileCoords { x: 0, y: 0, z: 0 };
    let mut ctx = ProcessVectorContext::new(RecordingSink::new());
    process_vector_tile(
        &bytes,
        VectorTileRequest {
            coords,
            layers: vec!["roads".to_string(), "buildings".to_string()],
            style: water_style(None),
        },
        &mut ctx,
    )
    .unwrap();
    let messages = ctx.take_context().messages;
    assert_eq!(messages.len(), 3);
    assert!(matches!(&messages[0], Message::LayerMissing { layer_name, .. } if layer_name == "roads"));
    assert!(
        matches!(&messages[1], Message::LayerMissing { layer_name, .. } if layer_name == "buildings")
    );
    assert!(matches!(&messages[2], Message::TileTessellated { .. }));
}

#[test]
fn send_failure_aborts_the_tile() {
    let bytes = water_tile_bytes();
    let coords = WorldTileCoords { x: 0, y: 0, z: 0 };
    let mut ctx = ProcessVectorContext::new(FailingSink);
    let r = process_vector_tile(
        &bytes,
        VectorTileRequest {
            coords,
            layers: vec!["water".to_string()],
            style: water_style(None),
        },
        &mut ctx,
    );
    assert!(matches!(r, Err(ProcessVectorError::SendError(_))));
}

#[test]
fn wire_values_type_as_literals() {
    let mut v = RawValue {
        string_value: None,
        float_value: None,
        double_value: None,
        int_value: None,
        uint_value: None,
        sint_value: None,
        bool_value: None,
    };
    assert!(matches!(value_literal(&v), Err(MvtError::UnsupportedValue)));
    v.double_value = Some((2.5f64).to_bits());
    assert!(matches!(value_literal(&v), Ok(ComparisonLiteral::Float(b)) if b == (2.5f64).to_bits()));
    v.string_value = Some("x".to_string());
    // the string field wins: typed fields are read in wire order
    assert!(matches!(value_literal(&v), Ok(ComparisonLiteral::String(s)) if s == "x"));
    let f32v = RawValue {
        string_value: None,
        float_value: Some((1.5f32).to_bits()),
        double_value: None,
        int_value: None,
        uint_value: None,
        sint_value: None,
        bool_value: None,
    };
    assert!(matches!(
        value_literal(&f32v),
        Ok(ComparisonLiteral::Float(b)) if b == (1.5f64).to_bits()
    ));
}

#[test]
fn malformed_geometry_reports_layer_missing() {
    // a linestring-typed feature whose command stream is truncated
    let feature: Vec<u8> = [
        &[0x18, 2][..],       // type = linestring
        &[0x22, 2, 9, 4][..], // truncated geometry
    ]
    .concat();
    let mut layer: Vec<u8> = Vec::new();
    layer.extend([0x0A, 4]);
    layer.extend(b"road");
    layer.extend([0x12, feature.len() as u8]);
    layer.extend(&feature);
    layer.extend([0x78, 2]);
    let mut tile: Vec<u8> = Vec::new();
    tile.extend([0x1A, layer.len() as u8]);
    tile.extend(&layer);

    let style = Style {
        layers: vec![StyleLayer {
            index: 0,
            id: "road-line".to_string(),
            maxzoom: None,
            minzoom: None,
            metadata: None,
            paint: None,
            source: None,
            source_layer: Some("road".to_string()),
            filter: None,
        }],
    };
    let mut ctx = ProcessVectorContext::new(RecordingSink::new());
    process_vector_tile(
        &tile,
        VectorTileRequest {
            coords: WorldTileCoords { x: 0, y: 0, z: 0 },
            layers: vec!["road".to_string()],
            style,
        },
        &mut ctx,
    )
    .unwrap();
    let messages = ctx.take_context().messages;
    assert!(
        matches!(&messages[0], Message::LayerMissing { layer_name, .. } if layer_name == "road-line")
    );
}

fn bare_layer(name: &str, feature: Vec<u8>) -> Vec<u8> {
    let mut layer: Vec<u8> = Vec::new();
    layer.extend([0x0A, name.len() as u8]);
    layer.extend(name.as_bytes());
    layer.extend([0x12, feature.len() as u8]);
    layer.extend(&feature);
    layer.extend([0x78, 2]);
    let mut tile: Vec<u8> = Vec::new();
    tile.extend([0x1A, layer.len() as u8]);
    tile.extend(&layer);
    tile
}

#[test]
fn multilinestring_decodes_to_wrapped_events() {
    // two linestrings: [(2,2),(2,10),(10,10)] and [(1,1),(3,5)]
    let geometry = [9u8, 4, 4, 18, 0, 16, 16, 0, 9, 17, 17, 10, 4, 8];
    let mut feature: Vec<u8> = vec![0x18, 2, 0x22, geometry.len() as u8];
    feature.extend(geometry);
    let tile = bare_layer("road", feature);
    let layers = decode_tile(&tile).unwrap();
    let events = layer_events(&layers[0]).unwrap();
    assert!(events.iter().any(|e| matches!(e, GeomEvent::MultiLinestringBegin)));
    assert!(events.iter().any(|e| matches!(e, GeomEvent::MultiLinestringEnd)));
    // cursor chaining: the second line starts at its absolute position
    assert!(events.iter().any(|e| matches!(e, GeomEvent::Xy(1, 1))));
    assert!(events.iter().any(|e| matches!(e, GeomEvent::Xy(10, 10))));
}

#[test]
fn multipoint_decodes_to_wrapped_events() {
    let geometry = [17u8, 10, 14, 3, 9];
    let mut feature: Vec<u8> = vec![0x18, 1, 0x22, geometry.len() as u8];
    feature.extend(geometry);
    let tile = bare_layer("poi", feature);
    let layers = decode_tile(&tile).unwrap();
    let events = layer_events(&layers[0]).unwrap();
    assert!(events.iter().any(|e| matches!(e, GeomEvent::MultiPointBegin)));
    assert!(events.iter().any(|e| matches!(e, GeomEvent::Xy(5, 7))));
    assert!(events.iter().any(|e| matches!(e, GeomEvent::Xy(3, 2))));
}

#[test]
fn two_exterior_rings_make_a_multipolygon() {
    let geometry = [
        9u8, 0, 0, 26, 20, 0, 0, 20, 19, 0, 15, // exterior 10x10 square
        9, 22, 2, 26, 18, 0, 0, 18, 17, 0, 15, // second square, same orientation: new polygon
    ];
    let mut feature: Vec<u8> = vec![0x18, 3, 0x22, geometry.len() as u8];
    feature.extend(geometry);
    let tile = bare_layer("landuse", feature);
    let layers = decode_tile(&tile).unwrap();
    let events = layer_events(&layers[0]).unwrap();
    // two exterior rings make a multipolygon
    assert!(events.iter().any(|e| matches!(e, GeomEvent::MultiPolygonBegin)));
    let polygon_begins =
        events.iter().filter(|e| matches!(e, GeomEvent::PolygonBegin(_))).count();
    assert_eq!(polygon_begins, 2);
}
