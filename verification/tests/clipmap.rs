use osmviz::clipmap::Clipmap;
use osmviz::tile::{Tile, WorldPos};

fn t(x: u32, y: u32, z: u32) -> Tile {
    Tile::new(x, y, z)
}

#[test]
fn clipmap_center_logic() {
    let top_left = t(2174, 1430, 12);
    let center = Clipmap::make_center(top_left);

    let expected = [
        [t(2174, 1430, 12), t(2175, 1430, 12), t(2176, 1430, 12), t(2177, 1430, 12)],
        [t(2174, 1431, 12), t(2175, 1431, 12), t(2176, 1431, 12), t(2177, 1431, 12)],
        [t(2174, 1432, 12), t(2175, 1432, 12), t(2176, 1432, 12), t(2177, 1432, 12)],
        [t(2174, 1433, 12), t(2175, 1433, 12), t(2176, 1433, 12), t(2177, 1433, 12)],
    ];

    assert_eq!(center, expected)
}

#[test]
fn clipmap_ring_logic() {
    let top_left_inner = t(2174, 1430, 12);
    let ring = Clipmap::make_ring(top_left_inner);

    let expected = [
        t(1086, 714, 11),
        t(1087, 714, 11),
        t(1088, 714, 11),
        t(1089, 714, 11),

        t(1089, 715, 11),
        t(1089, 716, 11),

        t(1089, 717, 11),
        t(1088, 717, 11),
        t(1087, 717, 11),
        t(1086, 717, 11),

        t(1086, 716, 11),
        t(1086, 715, 11),
    ];

    assert_eq!(ring, expected)
}

#[test]
fn find_starting_tile_test() {
    let actual = Clipmap::find_starting_tile(WorldPos::from_km(21715, 14314), 12, 2);
    let expected = t(2170, 1430, 12);

    assert_eq!(actual, expected);
}

#[test]
fn clipmap_test() {
    let cm = Clipmap::new(WorldPos::from_km(21715, 14314), 12, 2);

    let center = [
        [t(2170, 1430, 12), t(2171, 1430, 12), t(2172, 1430, 12), t(2173, 1430, 12)],
        [t(2170, 1431, 12), t(2171, 1431, 12), t(2172, 1431, 12), t(2173, 1431, 12)],
        [t(2170, 1432, 12), t(2171, 1432, 12), t(2172, 1432, 12), t(2173, 1432, 12)],
        [t(2170, 1433, 12), t(2171, 1433, 12), t(2172, 1433, 12), t(2173, 1433, 12)],
    ];

    let ring1 = [
        t(1084, 714, 11),
        t(1085, 714, 11),
        t(1086, 714, 11),
        t(1087, 714, 11),

        t(1087, 715, 11),
        t(1087, 716, 11),

        t(1087, 717, 11),
        t(1086, 717, 11),
        t(1085, 717, 11),
        t(1084, 717, 11),

        t(1084, 716, 11),
        t(1084, 715, 11),
    ];
    let ring2 = [
        t(541, 356, 10),
        t(542, 356, 10),
        t(543, 356, 10),
        t(544, 356, 10),

        t(544, 357, 10),
        t(544, 358, 10),

        t(544, 359, 10),
        t(543, 359, 10),
        t(542, 359, 10),
        t(541, 359, 10),

        t(541, 358, 10),
        t(541, 357, 10),
    ];

    assert_eq!(cm.center, center, "Clipmap center is wrong");
    assert_eq!(cm.rings[0], ring1, "Clipmap ring 1 is wrong");
    assert_eq!(cm.rings[1], ring2, "Clipmap ring 2 is wrong");
}

#[test]
fn world_to_tile_idx_at_zoom_levels() {
    let pos = WorldPos::from_km(21715, 14314);
    assert_eq!(pos, WorldPos { x: 2223616, y: 1465753 });
    assert_eq!(osmviz::tile::world_to_tile_idx(pos, 12), t(2171, 1431, 12));
    assert_eq!(osmviz::tile::world_to_tile_idx(pos, 22), t(2223616, 1465753, 22));
    assert_eq!(osmviz::tile::world_to_tile_idx(pos, 10), t(542, 357, 10));
}

#[test]
fn tile_to_world_coords_is_tile_corner() {
    let p = osmviz::tile::tile_to_world_coords(t(2170, 1430, 12));
    assert_eq!(p, WorldPos { x: 2170 * 1024, y: 1430 * 1024 });
    assert_eq!(osmviz::tile::world_to_tile_idx(p, 12), t(2170, 1430, 12));
}

#[test]
fn map_ring_offset_walks_the_ring_clockwise() {
    let offsets: Vec<(i32, i32)> = (0..12).map(Clipmap::map_ring_offset).collect();
    assert_eq!(
        offsets,
        vec![(-1, -1), (0, -1), (1, -1), (2, -1), (2, 0), (2, 1), (2, 2), (1, 2), (0, 2), (-1, 2), (-1, 1), (-1, 0)]
    );
    // The ring tiles sit at the same cells.
    let inner = t(2174, 1430, 12);
    let ring = Clipmap::make_ring(inner);
    let corner = t(1086, 714, 11);
    for (i, (dx, dy)) in offsets.iter().enumerate() {
        assert_eq!(ring[i].x as i64, corner.x as i64 + 1 + *dx as i64);
        assert_eq!(ring[i].y as i64, corner.y as i64 + 1 + *dy as i64);
    }
}

#[test]
fn can_build_rejects_edges() {
    assert!(Clipmap::can_build(WorldPos::from_km(21715, 14314), 12, 2));
    // Too close to the map's edge for two rings: the ring tiles would underflow.
    assert!(!Clipmap::can_build(WorldPos::from_km(30, 30), 12, 2));
    // Fewer zoom levels than rings.
    assert!(!Clipmap::can_build(WorldPos::from_km(21715, 14314), 1, 2));
    assert!(!Clipmap::can_build(WorldPos::from_km(21715, 14314), 12, 0));
    assert!(!Clipmap::can_build(WorldPos::from_km(21715, 14314), 23, 1));
}

#[test]
fn rebuild_keeps_ring_count() {
    let mut cm = Clipmap::new(WorldPos::from_km(21715, 14314), 12, 2);
    cm.rebuild(WorldPos::from_km(21720, 14330), 12);
    assert_eq!(cm.rings.len(), 2);
    let fresh = Clipmap::new(WorldPos::from_km(21720, 14330), 12, 2);
    assert_eq!(cm.center, fresh.center);
    assert_eq!(cm.rings, fresh.rings);
}

#[test]
fn positions_lie_in_their_tiles() {
    for &(xk, yk) in &[(21715u32, 14314u32), (0, 0), (10, 19), (40959, 40959)] {
        let pos = WorldPos::from_km(xk, yk);
        for zoom in [0u32, 5, 12, 17, 22] {
            let tile = osmviz::tile::world_to_tile_idx(pos, zoom);
            let corner = osmviz::tile::tile_to_world_coords(tile);
            let width = 1u64 << (22 - zoom);
            assert!(corner.x <= pos.x && pos.x < corner.x + width);
            assert!(corner.y <= pos.y && pos.y < corner.y + width);
            assert_eq!(osmviz::tile::world_to_tile_idx(corner, zoom), tile);
        }
    }
}

#[test]
fn rings_enclose_their_patch() {
    let inner = t(2174, 1430, 12);
    let ring = Clipmap::make_ring(inner);
    let center = Clipmap::make_center(inner);
    let corner = ring[0];
    // The ring is the border of a 4x4 square of distinct tiles.
    for (i, a) in ring.iter().enumerate() {
        for b in &ring[i + 1..] {
            assert_ne!(a, b);
        }
        let (dx, dy) = (a.x - corner.x, a.y - corner.y);
        assert!(dx < 4 && dy < 4 && (dx == 0 || dx == 3 || dy == 0 || dy == 3));
        assert_eq!(a.z, 11);
    }
    // The patch's parents fill the 2x2 hole.
    for row in &center {
        for c in row {
            assert_eq!((c.x / 2 - corner.x, c.y / 2 - corner.y), ((c.x - 2174) / 2 + 1, (c.y - 1430) / 2 + 1));
        }
    }
}

#[test]
fn clipmap_levels_nest() {
    let cm = Clipmap::new(WorldPos::from_km(21715, 14314), 12, 2);
    // Each level starts on even tiles, and ring k starts where level k+1 does.
    assert_eq!((cm.center[0][0].x % 2, cm.center[0][0].y % 2), (0, 0));
    assert_eq!((cm.rings[0][0].x % 2, cm.rings[0][0].y % 2), (0, 0));
    assert_eq!(cm.rings[1][0], Clipmap::make_ring(cm.rings[0][0])[0]);
    // The viewer's tile lies in the outermost ring's square.
    let start = osmviz::tile::world_to_tile_idx(WorldPos::from_km(21715, 14314), 12);
    let outer = cm.rings[1][0];
    assert!(outer.x * 4 <= start.x && start.x < (outer.x + 4) * 4);
    assert!(outer.y * 4 <= start.y && start.y < (outer.y + 4) * 4);
}

#[test]
fn ring_corners_chain_to_the_viewer() {
    let pos = WorldPos::from_km(21715, 14314);
    let cm = Clipmap::new(pos, 12, 2);
    let c = cm.center[0][0];
    let r0 = cm.rings[0][0];
    let r1 = cm.rings[1][0];
    assert_eq!((2 * (r0.x + 1), 2 * (r0.y + 1)), (c.x, c.y));
    assert_eq!((2 * (r1.x + 1), 2 * (r1.y + 1)), (r0.x, r0.y));
    let s = osmviz::tile::world_to_tile_idx(pos, 12);
    assert_eq!((r1.x, r1.y), ((s.x >> 2) - 1, (s.y >> 2) - 1));
}
