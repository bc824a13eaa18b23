//! Quadkeys, the tile component store, uploads and draw planning.

use maplibre_core::coords::WorldTileCoords;
use maplibre_core::layer::{BackgroundPaint, LayerPaint, Rgba, Style, StyleLayer};
use maplibre_core::rational::Rational;
use maplibre_core::render_commands::{DrawVectorTile, LayerEntry, RenderCommandResult, SetVectorTilePipeline};
use maplibre_core::source_type::{RasterSource, SourceType, TessellateSource};
use maplibre_core::tiles::{
    AliasingViolation, ComponentKind, ComponentQuery, TileComponent, Tiles,
    VectorLayersDataComponent,
};
use maplibre_core::upload::upload_system;

fn coords(x: i32, y: i32, z: u8) -> WorldTileCoords {
    WorldTileCoords { x, y, z }
}

#[test]
fn quadkey_digits_and_range() {
    let k = coords(3, 5, 3).build_quad_key().unwrap();
    // bits (x, y) per level: (0,1) -> 2, (1,0) -> 1, (1,1) -> 3
    assert_eq!(k.digits, vec![2, 1, 3]);
    assert!(coords(8, 0, 3).build_quad_key().is_none());
    assert!(coords(-1, 0, 3).build_quad_key().is_none());
    assert!(coords(0, 0, 31).build_quad_key().is_none());
}

#[test]
fn quadkey_ancestor_is_strict_prefix() {
    let a = coords(0, 1, 1);
    let b = coords(0, 2, 2);
    let ka = a.build_quad_key().unwrap();
    let kb = b.build_quad_key().unwrap();
    assert!(ka.digits.len() < kb.digits.len());
    assert_eq!(&kb.digits[..ka.digits.len()], &ka.digits[..]);

    let deep_a = coords(3, 5, 3);
    let deep_b = coords(13, 21, 5);
    // deep_b >> 2 == deep_a in both axes, so it lies in the subtree
    let ka = deep_a.build_quad_key().unwrap();
    let kb = deep_b.build_quad_key().unwrap();
    assert_eq!(&kb.digits[..ka.digits.len()], &ka.digits[..]);
}

#[test]
fn source_urls() {
    let t = TessellateSource::new("https://tiles.example", "pbf", 14);
    assert_eq!(t.format(&coords(1, 2, 3)), "https://tiles.example/3/1/2.pbf");
    let r = RasterSource::new("https://img.example", "jpg", "testkey");
    assert_eq!(
        r.format(&coords(0, 0, 0)),
        "https://img.example/0/0/0.jpg?key=testkey"
    );
    let s = SourceType::Tessellate(t);
    assert_eq!(s.format(&coords(1, 2, 3)), "https://tiles.example/3/1/2.pbf");
}

#[test]
fn spawn_is_idempotent() {
    let mut tiles = Tiles::default();
    let c = coords(1, 2, 3);
    let handle = tiles.spawn_mut(c).unwrap();
    handle.insert(
        &mut tiles,
        TileComponent::VectorLayers(VectorLayersDataComponent { done: true, layers: vec![] }),
    );
    assert!(tiles.tile_exists(c));
    // spawning again returns a handle to the same entry; components stay
    let again = tiles.spawn_mut(c).unwrap();
    assert_eq!(again.tile.coords, c);
    assert!(tiles.query(c, ComponentKind::VectorLayers).is_some());
    // an unaddressable coordinate spawns nothing
    assert!(tiles.spawn_mut(coords(0, 0, 42)).is_none());
}

#[test]
fn aliasing_guard_faults_deterministically() {
    let mut tiles = Tiles::default();
    let c = coords(0, 0, 1);
    let handle = tiles.spawn_mut(c).unwrap();
    handle.insert(
        &mut tiles,
        TileComponent::VectorLayers(VectorLayersDataComponent { done: true, layers: vec![] }),
    );
    let requests = vec![
        ComponentQuery { kind: ComponentKind::VectorLayers, exclusive: true },
        ComponentQuery { kind: ComponentKind::VectorLayers, exclusive: true },
    ];
    assert_eq!(tiles.query_composite(c, &requests), Err(AliasingViolation));
    // the same kinds borrowed shared resolve fine
    let shared = vec![
        ComponentQuery { kind: ComponentKind::VectorLayers, exclusive: false },
        ComponentQuery { kind: ComponentKind::VectorLayers, exclusive: true },
    ];
    assert_eq!(tiles.query_composite(c, &shared), Ok(Some(vec![0, 0])));
}

#[test]
fn clear_empties_the_store() {
    let mut tiles = Tiles::default();
    let c = coords(0, 0, 1);
    tiles.spawn_mut(c).unwrap();
    assert!(tiles.tile_exists(c));
    tiles.clear();
    assert!(!tiles.tile_exists(c));
}

#[test]
fn find_layer_background_synthesizes_quad() {
    let mut tiles = Tiles::default();
    let c = coords(0, 0, 0);
    let found = tiles
        .find_layer(c, &None, "my-background", &vec![])
        .expect("background layer expected");
    assert_eq!(found.style_layer_id, "my-background");
    assert!(!found.buffer.indices.is_empty(), "background quad should hold triangles");
    // already-loaded background layers are not handed out again
    let loaded = vec!["my-background".to_string()];
    assert!(tiles.find_layer(c, &None, "my-background", &loaded).is_none());
}

fn opaque(v: i64) -> Rational {
    Rational::from_int(v)
}

#[test]
fn upload_plans_background_layer() {
    let mut tiles = Tiles::default();
    let style = Style {
        layers: vec![StyleLayer {
            index: 7,
            id: "bg".to_string(),
            maxzoom: None,
            minzoom: None,
            metadata: None,
            paint: Some(LayerPaint::Background(BackgroundPaint {
                background_color: Some(Rgba {
                    r: opaque(1),
                    g: opaque(0),
                    b: opaque(0),
                    a: opaque(1),
                }),
                background_opacity: None,
            })),
            source: None,
            source_layer: None,
            filter: None,
        }],
    };
    let view = vec![coords(0, 0, 0)];
    let ups = upload_system(&mut tiles, &style, &view, &vec![]).unwrap();
    assert_eq!(ups.len(), 1);
    assert_eq!(ups[0].style_layer_id, "bg");
    assert_eq!(ups[0].metadata.z_index, 7);
    let total: u64 = tiles.background_tile.feature_indices.iter().map(|c| *c as u64).sum();
    assert_eq!(ups[0].feature_metadata.len() as u64, total);
    assert!(total > 0);
}

#[test]
fn draw_commands_pick_first_matching_entry() {
    assert_eq!(SetVectorTilePipeline::render(true), RenderCommandResult::Success);
    assert_eq!(SetVectorTilePipeline::render(false), RenderCommandResult::Failure);
    let entries = vec![
        LayerEntry {
            style_layer_id: "roads".to_string(),
            coords: coords(0, 0, 1),
            indices_start: 0,
            indices_end: 0,
            vertices_start: 0,
            vertices_end: 64,
            layer_metadata_start: 0,
            layer_metadata_end: 16,
            feature_metadata_start: 0,
            feature_metadata_end: 32,
            index_count: 0,
        },
        LayerEntry {
            style_layer_id: "water".to_string(),
            coords: coords(0, 0, 1),
            indices_start: 128,
            indices_end: 256,
            vertices_start: 64,
            vertices_end: 512,
            layer_metadata_start: 16,
            layer_metadata_end: 32,
            feature_metadata_start: 32,
            feature_metadata_end: 96,
            index_count: 32,
        },
    ];
    let call = DrawVectorTile::render(&entries, "water", 3, (0, 48)).unwrap();
    assert_eq!(call.index_slice, (128, 256));
    assert_eq!(call.vertex_slice, (64, 512));
    assert_eq!(call.stencil_reference, 3);
    assert_eq!(call.index_count, 32);
    // an empty index range refuses to draw
    assert!(DrawVectorTile::render(&entries, "roads", 3, (0, 48)).is_none());
    assert!(DrawVectorTile::render(&entries, "absent", 3, (0, 48)).is_none());
}
