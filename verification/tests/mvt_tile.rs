use geozero::mvt::{self, Message};
use osmviz::mvt_tile::{buildings_layer, decode_vector_tile, find_layer, VectorTileError};

fn layer(name: &str) -> mvt::tile::Layer {
    mvt::tile::Layer {
        version: 2,
        name: name.to_string(),
        keys: vec!["height".to_string(), "roof_color".to_string()],
        values: vec![
            mvt::tile::Value { float_value: Some(12.5), ..Default::default() },
            mvt::tile::Value { string_value: Some("red".to_string()), ..Default::default() },
            mvt::tile::Value { double_value: Some(-0.25), int_value: None, ..Default::default() },
        ],
        extent: Some(4096),
        features: vec![mvt::tile::Feature {
            id: Some(7),
            tags: vec![0, 0, 1, 1],
            geometry: vec![9, 50, 34],
            ..Default::default()
        }],
    }
}

fn encode(names: &[&str]) -> Vec<u8> {
    mvt::Tile { layers: names.iter().map(|n| layer(n)).collect() }.encode_to_vec()
}

#[test]
fn find_layer_returns_first_match() {
    let bytes = encode(&["water", "buildings", "natural", "buildings"]);
    let (tile, idx) = decode_vector_tile(&bytes).expect("a tile with buildings");
    assert_eq!(idx, 1);
    assert_eq!(buildings_layer(&tile), Some(1));
    assert_eq!(find_layer(&tile, "natural"), Some(2));
    assert_eq!(find_layer(&tile, "water"), Some(0));
    assert_eq!(find_layer(&tile, "roads"), None);
}

#[test]
fn decoded_tile_keeps_every_field() {
    let bytes = encode(&["buildings"]);
    let (tile, _) = decode_vector_tile(&bytes).unwrap();
    assert_eq!(tile.layers.len(), 1);
    let l = &tile.layers[0];
    assert_eq!(l.version, 2);
    assert_eq!(l.name, "buildings");
    assert_eq!(l.keys, vec!["height".to_string(), "roof_color".to_string()]);
    assert_eq!(l.extent, Some(4096));
    assert_eq!(l.values.len(), 3);
    assert_eq!(l.values[0].float_bits, Some(12.5f32.to_bits()));
    assert_eq!(l.values[0].string_value, None);
    assert_eq!(l.values[1].string_value.as_deref(), Some("red"));
    assert_eq!(l.values[2].double_bits, Some((-0.25f64).to_bits()));
    assert_eq!(l.features.len(), 1);
    let f = &l.features[0];
    assert_eq!(f.id, Some(7));
    assert_eq!(f.tags, vec![0, 0, 1, 1]);
    assert_eq!(f.geometry, vec![9, 50, 34]);
    assert_eq!(f.source.geometry, vec![9, 50, 34]);
}

#[test]
fn tile_without_buildings_is_refused() {
    let bytes = encode(&["water", "natural"]);
    assert!(matches!(decode_vector_tile(&bytes), Err(VectorTileError::NoBuildingsLayer)));
    // No bytes at all decode to a tile without layers.
    assert!(matches!(decode_vector_tile(&[]), Err(VectorTileError::NoBuildingsLayer)));
}

#[test]
fn garbage_is_undecodable() {
    assert!(matches!(decode_vector_tile(&[0x0a, 0x05, 0x01]), Err(VectorTileError::Undecodable)));
    assert!(matches!(decode_vector_tile(b"\xff"), Err(VectorTileError::Undecodable)));
}
