use osmviz::clipmap::Clipmap;
use osmviz::imagery::RgbaPixels;
use osmviz::terrain::{
    clipmap_tile_list, color_layer, decode_heightmap, instance_at, make_cache_entry, Terrain, TileInstancePlan,
    HEIGHTMAP_SIZE, IMAGE_BUFFER_SIZE,
};
use osmviz::tile::{Tile, WorldPos};
use osmviz::tile_cache::{CacheEntry, VectorTileData};

fn entry_for(t: Tile, with_vector: bool) -> CacheEntry {
    let tag = (t.x % 251) as u8;
    CacheEntry {
        heightmap: vec![tag, 1, 2, 3],
        color: vec![tag, 9],
        vector: if with_vector {
            Some(VectorTileData { mesh: vec![[t.x, t.y, t.z, 0, 0, 0]], trees: vec![[t.x, 0, 0, 0, 0, 0, 1]] })
        } else {
            None
        },
    }
}

fn png_bytes(w: u32, h: u32, fill: [u8; 4]) -> Vec<u8> {
    let img = image::RgbaImage::from_pixel(w, h, image::Rgba(fill));
    let mut out = std::io::Cursor::new(Vec::new());
    img.write_to(&mut out, image::ImageFormat::Png).unwrap();
    out.into_inner()
}

#[test]
fn new_terrain_starts_at_default_origin() {
    let t = Terrain::new();
    assert!(t.needs_rebuild);
    assert!(t.use_api);
    assert_eq!(t.zoom, 12);
    assert_eq!(t.get_origin(), WorldPos::from_km(21720, 14330));
    assert_eq!(t.clipmap.rings.len(), 1);
    assert_eq!(t.clipmap.center[0][0], Tile::new(2172, 1432, 12));
    assert_eq!(t.clipmap.rings[0][0], Tile::new(1085, 715, 11));
}

#[test]
fn full_update_cycle() {
    let mut t = Terrain::new();
    let missing = t.begin_update().expect("a rebuild is due");
    assert_eq!(missing.len(), 28);
    assert_eq!(missing, clipmap_tile_list(&t.clipmap));
    // Assembling before the tiles are there reports the first missing tile.
    assert_eq!(t.assemble().err(), Some(missing[0]));
    for (i, tile) in missing.iter().enumerate() {
        t.insert_tile(*tile, entry_for(*tile, i % 2 == 0));
    }
    let frame = t.assemble().expect("all tiles cached");
    assert_eq!(frame.layers, 28);
    assert!(frame.layers as usize <= IMAGE_BUFFER_SIZE);
    assert_eq!(frame.instances.len(), 28);
    for (j, inst) in frame.instances.iter().enumerate() {
        assert_eq!(inst.texture_layer as usize, j);
        assert_eq!(inst.tile, missing[j]);
    }
    // Layer j of the heightmap data is tile j's heightmap.
    assert_eq!(frame.heightmap_data.len(), 28 * 4);
    for j in 0..28 {
        assert_eq!(frame.heightmap_data[4 * j], (missing[j].x % 251) as u8);
    }
    assert_eq!(frame.color_data.len(), 28 * 2);
    // Every other tile has a vector tile; trees only come from the center patch.
    assert_eq!(frame.building_vertices.len(), 14);
    assert_eq!(frame.tree_instances.len(), 8);
    assert!(t.needs_rebuild);
    t.finish_update();
    assert!(!t.needs_rebuild);
    assert!(t.begin_update().is_none());
}

#[test]
fn cached_tiles_are_not_fetched_again() {
    let mut t = Terrain::new();
    let missing = t.begin_update().unwrap();
    for tile in &missing[..10] {
        t.insert_tile(*tile, entry_for(*tile, false));
    }
    let again = t.begin_update().unwrap();
    assert_eq!(again, missing[10..].to_vec());
}

#[test]
fn set_origin_moves_to_the_chosen_tile() {
    let mut t = Terrain::new();
    let pos = WorldPos::from_km(21800, 14200);
    assert!(t.can_set_origin(pos, 12));
    t.set_origin(pos, 12);
    // Tile (2180, 1420) at zoom 12; with one ring the center starts at (2180, 1420).
    assert_eq!(t.prev_top_left, Tile::new(2180, 1420, 12));
    assert_eq!(t.get_origin(), WorldPos { x: 2180 * 1024, y: 1420 * 1024 });
    assert!(t.needs_rebuild);
    t.begin_update().unwrap();
    assert_eq!(t.clipmap.center[0][0], t.prev_top_left);
    t.finish_update();
    // A position inside the same starting tile changes nothing.
    t.set_origin(WorldPos::from_km(21801, 14201), 12);
    assert!(!t.needs_rebuild);
}

#[test]
fn set_origin_clamps_terrain_zoom() {
    let mut t = Terrain::new();
    let pos = WorldPos::from_km(21800, 14200);
    t.set_origin(pos, 25);
    assert_eq!(t.zoom, 25);
    assert_eq!(t.prev_top_left.z, 22);
}

#[test]
fn toggle_api_drops_the_cache() {
    let mut t = Terrain::new();
    let missing = t.begin_update().unwrap();
    for tile in &missing {
        t.insert_tile(*tile, entry_for(*tile, false));
    }
    t.finish_update();
    t.toggle_api();
    assert!(!t.use_api);
    assert!(t.needs_rebuild);
    assert_eq!(t.begin_update().unwrap().len(), 28);
    t.toggle_api();
    assert!(t.use_api);
}

#[test]
fn instance_layout_of_center_and_rings() {
    let tile = Tile::new(1, 2, 12);
    assert_eq!(
        instance_at(5, tile, 12),
        TileInstancePlan { tile, texture_layer: 5, scale_zoom: 12, offset_x: 1, offset_y: 1 }
    );
    // First tile of ring 0: one ring tile (2 units) up and left of the origin.
    assert_eq!(
        instance_at(16, tile, 12),
        TileInstancePlan { tile, texture_layer: 16, scale_zoom: 11, offset_x: -2, offset_y: -2 }
    );
    // Tile 6 of ring 1 (bottom-right corner): ring tiles are 4 units wide and the
    // ring's inner corner is 2 units up and left of the origin.
    assert_eq!(
        instance_at(16 + 12 + 6, tile, 12),
        TileInstancePlan { tile, texture_layer: 34, scale_zoom: 10, offset_x: 6, offset_y: 6 }
    );
}

#[test]
fn instances_sit_on_their_tiles() {
    // Two rings around (21715 km, 14314 km), origin at the center's corner.
    let cm = Clipmap::new(WorldPos::from_km(21715, 14314), 12, 2);
    let tiles = clipmap_tile_list(&cm);
    let origin = cm.center[0][0];
    for (j, t) in tiles.iter().enumerate() {
        let p = instance_at(j, *t, 12);
        assert_eq!(p.scale_zoom, t.z);
        let unit = 1i64 << (22 - 12);
        let tile_w = 1i64 << (22 - t.z);
        assert_eq!(p.offset_x * unit, t.x as i64 * tile_w - origin.x as i64 * unit);
        assert_eq!(p.offset_y * unit, t.y as i64 * tile_w - origin.y as i64 * unit);
    }
}

#[test]
fn decode_heightmap_reads_png_and_falls_back_to_blank() {
    let bytes = png_bytes(2, 3, [1, 2, 3, 255]);
    let p = decode_heightmap(&bytes);
    assert_eq!((p.width, p.height), (2, 3));
    assert_eq!(p.data, [1u8, 2, 3, 255].repeat(6));
    let blank = decode_heightmap(b"not an image");
    assert_eq!((blank.width, blank.height), (HEIGHTMAP_SIZE, HEIGHTMAP_SIZE));
    assert_eq!(blank.data.len(), 4 * 256 * 256);
    assert!(blank.data.iter().all(|b| *b == 0));
}

#[test]
fn color_layer_uses_satellite_or_heightmap() {
    let heightmap = RgbaPixels { width: 1, height: 1, data: vec![5, 6, 7, 8] };
    let sat = png_bytes(1, 1, [9, 9, 9, 255]);
    assert_eq!(color_layer(true, &sat, &heightmap).unwrap().data, vec![9, 9, 9, 255]);
    assert!(color_layer(true, b"garbage", &heightmap).is_none());
    assert_eq!(color_layer(false, b"", &heightmap).unwrap().data, vec![5, 6, 7, 8]);
    let e = make_cache_entry(heightmap, RgbaPixels { width: 1, height: 1, data: vec![1, 1, 1, 1] }, None);
    assert_eq!(e.heightmap, vec![5, 6, 7, 8]);
    assert_eq!(e.color, vec![1, 1, 1, 1]);
}

#[test]
fn lru_eviction_drops_least_recent_tile() {
    let mut t = Terrain::new();
    let missing = t.begin_update().unwrap();
    // Fill the cache to capacity with unrelated tiles first.
    for i in 0..1000u32 {
        t.insert_tile(Tile::new(i, 0, 3), entry_for(Tile::new(i, 0, 3), false));
    }
    // Now every clipmap tile is new; inserting them evicts the oldest tiles.
    for tile in &missing {
        t.insert_tile(*tile, entry_for(*tile, false));
    }
    let frame = t.assemble().expect("all clipmap tiles are recent");
    assert_eq!(frame.layers, 28);
}

#[test]
fn set_origin_twice_is_set_origin_once() {
    let mut t = Terrain::new();
    let pos = WorldPos::from_km(21800, 14200);
    t.set_origin(pos, 13);
    let once = (t.origin, t.zoom, t.prev_top_left, t.needs_rebuild, t.use_api);
    t.set_origin(pos, 13);
    assert_eq!((t.origin, t.zoom, t.prev_top_left, t.needs_rebuild, t.use_api), once);
}

#[test]
fn a_tile_that_failed_to_load_stops_the_frame() {
    let mut t = Terrain::new();
    let missing = t.begin_update().unwrap();
    let failed = missing[20];
    for tile in missing.iter().filter(|m| **m != failed) {
        t.insert_tile(*tile, entry_for(*tile, false));
    }
    assert_eq!(t.assemble().err(), Some(failed));
    // Fetching it on the next update completes the frame.
    let again = t.begin_update().unwrap();
    assert_eq!(again, vec![failed]);
    t.insert_tile(failed, entry_for(failed, false));
    assert_eq!(t.assemble().map(|f| f.layers).ok(), Some(28));
}

#[test]
fn decode_image_reads_textures() {
    let bytes = png_bytes(3, 2, [10, 20, 30, 40]);
    let p = osmviz::imagery::decode_image(&bytes).expect("a PNG");
    assert_eq!((p.width, p.height), (3, 2));
    assert_eq!(p.data, [10u8, 20, 30, 40].repeat(6));
    assert!(osmviz::imagery::decode_image(b"no image here").is_none());
}

#[test]
fn set_origin_again_after_an_update_changes_nothing() {
    let mut t = Terrain::new();
    let pos = WorldPos::from_km(21800, 14200);
    t.set_origin(pos, 12);
    let missing = t.begin_update().unwrap();
    for tile in &missing {
        t.insert_tile(*tile, entry_for(*tile, false));
    }
    assert!(t.assemble().is_ok());
    t.finish_update();
    let before = (t.origin, t.zoom, t.prev_top_left, t.needs_rebuild);
    t.set_origin(pos, 12);
    assert_eq!((t.origin, t.zoom, t.prev_top_left, t.needs_rebuild), before);
    assert!(!t.needs_rebuild);
}
