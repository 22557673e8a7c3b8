//! The terrain state: where the clipmap is centred, which tiles are cached, and
//! how a frame's tile instances and texture layers are laid out.
//!
//! Fetching tiles and uploading to the GPU happen outside; an update goes
//! `begin_update` (rebuild the clipmap, list the tiles to fetch), `insert_tile`
//! for each fetched tile, `assemble` (lay out the frame), then `finish_update`
//! once the frame is on the GPU.
use vstd::prelude::*;
use vstd::arithmetic::power2::pow2;
use lru::LruCache;
use crate::tile::{Tile, WorldPos, MAX_ZOOM_TERRAIN, km_to_units, world_pos_fits, world_to_tile_spec, tile_to_world_spec, tile_to_world_coords};
use crate::clipmap::{Clipmap, clipmap_ok, clipmap_matches, starting_tile_ok, level_tile, level_coord, ring_offset_spec, pow2_u64};
use crate::tile_cache::{TileKey, CacheEntry, VectorTileData, cache_contents, cache_capacity, entries_wf, has_key, key_index, value_of, after_get, after_put, cache_new, cache_get, cache_put, cache_clear};
use crate::imagery::{RgbaPixels, decoded_rgba8, load_rgba8, append_copy, copy_pixels};

verus! {

/// How many images the image arrays on the GPU can hold.
pub const IMAGE_BUFFER_SIZE: usize = 512;

/// Edge length, in tiles, of the clipmap's center patch.
pub const CLIPMAP_CENTER_RADIUS: u32 = 4;

/// How many tiles the tile cache keeps.
pub const TILE_CACHE_SIZE: usize = 1000;

/// Width and height, in pixels, of a heightmap served by the tile server.
pub const HEIGHTMAP_SIZE: u32 = 256;

/// The cache key of tile `t`.
pub open spec fn tile_key(t: Tile) -> TileKey {
    (t.x, t.y, t.z)
}

/// The cache keys of the tiles `ts`.
pub open spec fn tile_keys(ts: Seq<Tile>) -> Seq<TileKey> {
    ts.map_values(|t: Tile| tile_key(t))
}

/// The zoom level at which terrain is drawn for a camera zoom level.
pub open spec fn terrain_zoom(zoom: u32) -> u32 {
    if zoom < MAX_ZOOM_TERRAIN {
        zoom
    } else {
        MAX_ZOOM_TERRAIN
    }
}

/// The tiles of a clipmap in drawing order: the center patch row by row, then
/// each ring in turn.
pub open spec fn clipmap_tiles(cm: Clipmap) -> Seq<Tile> {
    Seq::new(
        (16 + 12 * cm.rings@.len()) as nat,
        |j: int|
            if j < 16 {
                cm.center@[j / 4]@[j % 4]
            } else {
                cm.rings@[(j - 16) / 12]@[(j - 16) % 12]
            },
    )
}

/// The cache entries after looking up the keys `ks` one after the other.
pub open spec fn promote_all(s: Seq<(TileKey, CacheEntry)>, ks: Seq<TileKey>) -> Seq<(TileKey, CacheEntry)>
    decreases ks.len(),
{
    if ks.len() == 0 {
        s
    } else {
        after_get(promote_all(s, ks.drop_last()), ks.last())
    }
}

/// The tiles of `ts` that have no entry in `s`, in order.
pub open spec fn missing_tiles(s: Seq<(TileKey, CacheEntry)>, ts: Seq<Tile>) -> Seq<Tile>
    decreases ts.len(),
{
    if ts.len() == 0 {
        Seq::empty()
    } else if has_key(s, tile_key(ts.last())) {
        missing_tiles(s, ts.drop_last())
    } else {
        missing_tiles(s, ts.drop_last()).push(ts.last())
    }
}

/// The building vertices of a cache entry (none without a vector tile).
pub open spec fn entry_mesh(e: CacheEntry) -> Seq<[u32; 6]> {
    match e.vector {
        Some(v) => v.mesh@,
        None => Seq::empty(),
    }
}

/// The tree instances of a cache entry (none without a vector tile).
pub open spec fn entry_trees(e: CacheEntry) -> Seq<[u32; 7]> {
    match e.vector {
        Some(v) => v.trees@,
        None => Seq::empty(),
    }
}

/// The heightmaps of the tiles `ts`, one after the other.
pub open spec fn frame_heightmaps(s: Seq<(TileKey, CacheEntry)>, ts: Seq<Tile>) -> Seq<u8>
    decreases ts.len(),
{
    if ts.len() == 0 {
        Seq::empty()
    } else {
        frame_heightmaps(s, ts.drop_last()) + value_of(s, tile_key(ts.last())).heightmap@
    }
}

/// The color images of the tiles `ts`, one after the other.
pub open spec fn frame_colors(s: Seq<(TileKey, CacheEntry)>, ts: Seq<Tile>) -> Seq<u8>
    decreases ts.len(),
{
    if ts.len() == 0 {
        Seq::empty()
    } else {
        frame_colors(s, ts.drop_last()) + value_of(s, tile_key(ts.last())).color@
    }
}

/// The building vertices of the tiles `ts`, one tile after the other.
pub open spec fn frame_mesh(s: Seq<(TileKey, CacheEntry)>, ts: Seq<Tile>) -> Seq<[u32; 6]>
    decreases ts.len(),
{
    if ts.len() == 0 {
        Seq::empty()
    } else {
        frame_mesh(s, ts.drop_last()) + entry_mesh(value_of(s, tile_key(ts.last())))
    }
}

/// The trees of the tiles `ts` that belong to the center patch (the first 16).
pub open spec fn frame_trees(s: Seq<(TileKey, CacheEntry)>, ts: Seq<Tile>) -> Seq<[u32; 7]>
    decreases ts.len(),
{
    if ts.len() == 0 {
        Seq::empty()
    } else if ts.len() <= 16 {
        frame_trees(s, ts.drop_last()) + entry_trees(value_of(s, tile_key(ts.last())))
    } else {
        frame_trees(s, ts.drop_last())
    }
}

/// Lookups keep the cache well formed and holding the same keys with the same values.
pub proof fn lemma_promote_all(s: Seq<(TileKey, CacheEntry)>, cap: nat, ks: Seq<TileKey>)
    requires
        entries_wf(s, cap),
    ensures
        entries_wf(promote_all(s, ks), cap),
        forall|k2: TileKey| #[trigger] has_key(promote_all(s, ks), k2) == has_key(s, k2),
        forall|k2: TileKey| has_key(s, k2) ==> #[trigger] value_of(promote_all(s, ks), k2) == value_of(s, k2),
    decreases ks.len(),
{
    if ks.len() > 0 {
        lemma_promote_all(s, cap, ks.drop_last());
        crate::tile_cache::lemma_after_get(promote_all(s, ks.drop_last()), cap, ks.last());
    }
}

/// The tiles of `cm` in drawing order.
pub fn clipmap_tile_list(cm: &Clipmap) -> (ts: Vec<Tile>)
    requires
        cm.rings@.len() <= u8::MAX,
    ensures
        ts@ == clipmap_tiles(*cm),
{
    let n = 16 + 12 * cm.rings.len();
    let mut ts: Vec<Tile> = Vec::new();
    let mut j: usize = 0;
    while j < n
        invariant
            n == 16 + 12 * cm.rings@.len(),
            cm.rings@.len() <= u8::MAX,
            j <= n,
            ts@ == clipmap_tiles(*cm).take(j as int),
        decreases n - j,
    {
        let t = if j < 16 {
            cm.center[j / 4][j % 4]
        } else {
            cm.rings[(j - 16) / 12][(j - 16) % 12]
        };
        ts.push(t);
        j = j + 1;
        assert(ts@ =~= clipmap_tiles(*cm).take(j as int));
    }
    assert(clipmap_tiles(*cm).take(n as int) =~= clipmap_tiles(*cm));
    ts
}

/// The heightmap used for a tile whose heightmap bytes could not be decoded:
/// `HEIGHTMAP_SIZE` x `HEIGHTMAP_SIZE` pixels, all zero.
pub open spec fn blank_heightmap() -> Seq<u8> {
    Seq::new((4 * HEIGHTMAP_SIZE * HEIGHTMAP_SIZE) as nat, |i: int| 0u8)
}

/// Decodes a heightmap served by the tile server; bytes that are no image give a
/// blank `HEIGHTMAP_SIZE` x `HEIGHTMAP_SIZE` heightmap.
pub fn decode_heightmap(bytes: &[u8]) -> (p: RgbaPixels)
    ensures
        match decoded_rgba8(bytes@) {
            Some(d) => p.width == d.0 && p.height == d.1 && p.data@ == d.2,
            None => p.width == HEIGHTMAP_SIZE && p.height == HEIGHTMAP_SIZE && p.data@ == blank_heightmap(),
        },
{
    match load_rgba8(bytes) {
        Some(p) => p,
        None => {
            let n: usize = 4 * 256 * 256;
            let mut data: Vec<u8> = Vec::new();
            let mut i: usize = 0;
            while i < n
                invariant
                    i <= n,
                    n == 4 * HEIGHTMAP_SIZE * HEIGHTMAP_SIZE,
                    data@ == Seq::new(i as nat, |k: int| 0u8),
                decreases n - i,
            {
                data.push(0u8);
                i = i + 1;
                assert(data@ =~= Seq::new(i as nat, |k: int| 0u8));
            }
            RgbaPixels { width: HEIGHTMAP_SIZE, height: HEIGHTMAP_SIZE, data }
        },
    }
}

/// The color image of a tile: the decoded satellite image when satellite colors
/// are used (nothing when it cannot be decoded, and the tile is then dropped),
/// otherwise a copy of the tile's heightmap.
pub fn color_layer(use_api: bool, color_bytes: &[u8], heightmap: &RgbaPixels) -> (r: Option<RgbaPixels>)
    ensures
        use_api ==> match decoded_rgba8(color_bytes@) {
            None => r is None,
            Some(d) => r matches Some(p) && p.width == d.0 && p.height == d.1 && p.data@ == d.2,
        },
        !use_api ==> (r matches Some(p) && p.width == heightmap.width && p.height == heightmap.height
            && p.data@ == heightmap.data@),
{
    if use_api {
        load_rgba8(color_bytes)
    } else {
        Some(copy_pixels(heightmap))
    }
}

/// The cache entry of a tile.
pub fn make_cache_entry(heightmap: RgbaPixels, color: RgbaPixels, vector: Option<VectorTileData>) -> (e: CacheEntry)
    ensures
        e.heightmap@ == heightmap.data@,
        e.color@ == color.data@,
        e.vector == vector,
{
    CacheEntry { heightmap: heightmap.data, color: color.data, vector }
}

/// How one tile patch is drawn.
#[derive(Clone, Copy, Debug, PartialEq, Eq, Structural)]
pub struct TileInstancePlan {
    /// The tile drawn.
    pub tile: Tile,
    /// The layer of the texture arrays that holds the tile's images.
    pub texture_layer: u32,
    /// The patch is as wide as a tile at this zoom level.
    pub scale_zoom: u32,
    /// Offset of the patch's top-left corner from the terrain origin, in units of
    /// the width of a tile at the terrain's zoom level.
    pub offset_x: i64,
    pub offset_y: i64,
}

/// The `j`-th instance of a frame, for tile `t`, at terrain zoom level `zoom`: the
/// center patch is laid out row by row from the origin; ring `r` is drawn with
/// tiles `2^(r+1)` units wide around the square the previous levels cover.
pub open spec fn instance_plan(j: int, t: Tile, zoom: u32) -> TileInstancePlan {
    if j < 16 {
        TileInstancePlan {
            tile: t,
            texture_layer: j as u32,
            scale_zoom: zoom,
            offset_x: (j % 4) as i64,
            offset_y: (j / 4) as i64,
        }
    } else {
        let r = (j - 16) / 12;
        let i = (j - 16) % 12;
        let s = pow2((r + 1) as nat) as int;
        TileInstancePlan {
            tile: t,
            texture_layer: j as u32,
            scale_zoom: (zoom - (r + 1)) as u32,
            offset_x: (2 + (ring_offset_spec(i).0 - 1) * s) as i64,
            offset_y: (2 + (ring_offset_spec(i).1 - 1) * s) as i64,
        }
    }
}

/// The `j`-th instance of a frame: see `instance_plan`.
pub fn instance_at(j: usize, t: Tile, zoom: u32) -> (p: TileInstancePlan)
    requires
        j < 16 + 12 * 21,
        j >= 16 ==> zoom >= (j - 16) / 12 + 1,
    ensures
        p == instance_plan(j as int, t, zoom),
{
    if j < 16 {
        TileInstancePlan {
            tile: t,
            texture_layer: j as u32,
            scale_zoom: zoom,
            offset_x: (j % 4) as i64,
            offset_y: (j / 4) as i64,
        }
    } else {
        let r = (j - 16) / 12;
        let i = (j - 16) % 12;
        let s = pow2_u64((r + 1) as u8);
        proof {
            vstd::arithmetic::power2::lemma2_to64();
            if r + 1 < 21 {
                vstd::arithmetic::power2::lemma_pow2_strictly_increases((r + 1) as nat, 21);
            }
        }
        assert(s <= 2097152);
        let s = s as i64;
        let off = Clipmap::map_ring_offset(i);
        assert(-2 * s <= (off.0 as i64 - 1) * s <= s) by (nonlinear_arith)
            requires
                -1 <= off.0 <= 2,
                0 <= s,
        ;
        assert(-2 * s <= (off.1 as i64 - 1) * s <= s) by (nonlinear_arith)
            requires
                -1 <= off.1 <= 2,
                0 <= s,
        ;
        TileInstancePlan {
            tile: t,
            texture_layer: j as u32,
            scale_zoom: zoom - (r as u32 + 1),
            offset_x: 2 + (off.0 as i64 - 1) * s,
            offset_y: 2 + (off.1 as i64 - 1) * s,
        }
    }
}

/// What a frame needs on the GPU.
pub struct FrameData {
    /// One instance per clipmap tile, in drawing order.
    pub instances: Vec<TileInstancePlan>,
    /// The heightmaps of the instances' tiles, one texture layer each.
    pub heightmap_data: Vec<u8>,
    /// The color images of the instances' tiles, one texture layer each.
    pub color_data: Vec<u8>,
    pub building_vertices: Vec<[u32; 6]>,
    pub tree_instances: Vec<[u32; 7]>,
    /// The number of texture layers filled.
    pub layers: u32,
}

/// The terrain after the camera moved to `pos` at zoom level `zoom`: when the
/// center patch would start at another tile than the one chosen last, the origin
/// moves to the top-left corner of that tile, the camera's zoom level is taken
/// over and a rebuild is due; otherwise nothing changes.
pub open spec fn after_set_origin(t: Terrain, pos: WorldPos, zoom: u32) -> Terrain {
    let top_left = level_tile(world_to_tile_spec(pos, terrain_zoom(zoom)), t.clipmap.rings@.len(), 0);
    if top_left != t.prev_top_left {
        Terrain { prev_top_left: top_left, origin: tile_to_world_spec(top_left), zoom, needs_rebuild: true, ..t }
    } else {
        t
    }
}

pub struct Terrain {
    pub needs_rebuild: bool,
    pub use_api: bool,
    /// The world position at which the center patch is drawn.
    pub origin: WorldPos,
    /// The camera's zoom level.
    pub zoom: u32,
    pub heightmap_cache: LruCache<TileKey, CacheEntry>,
    pub clipmap: Clipmap,
    /// The center patch's top-left tile chosen by the last `set_origin`.
    pub prev_top_left: Tile,
}

impl Terrain {
    /// The cache holds distinct tiles within its capacity, and the clipmap has at
    /// least one and at most `u8::MAX` rings.
    pub open spec fn wf(self) -> bool {
        &&& entries_wf(cache_contents(self.heightmap_cache), cache_capacity(self.heightmap_cache))
        &&& 1 <= self.clipmap.rings@.len() <= u8::MAX
    }

    /// Whether the clipmap can be rebuilt around the current origin.
    pub open spec fn update_ok(self) -> bool {
        &&& world_pos_fits(self.origin, terrain_zoom(self.zoom))
        &&& clipmap_ok(world_to_tile_spec(self.origin, terrain_zoom(self.zoom)), self.clipmap.rings@.len() as u8)
    }

    /// Whether the camera may move to `pos` at zoom level `zoom`.
    pub open spec fn origin_ok(self, pos: WorldPos, zoom: u32) -> bool {
        &&& world_pos_fits(pos, terrain_zoom(zoom))
        &&& starting_tile_ok(world_to_tile_spec(pos, terrain_zoom(zoom)), self.clipmap.rings@.len() as u8)
    }

    /// Whether a frame can be laid out for the current clipmap.
    pub open spec fn layout_ok(self) -> bool {
        &&& self.clipmap.rings@.len() <= 21
        &&& self.zoom >= self.clipmap.rings@.len()
    }

    /// The terrain before the first update: centred at (21720 km, 14330 km) at zoom
    /// level 12, with one ring, an empty cache, and satellite colors.
    pub fn new() -> (t: Terrain)
        ensures
            t.wf(),
            t.needs_rebuild,
            t.use_api,
            t.origin == (WorldPos { x: km_to_units(21720) as u64, y: km_to_units(14330) as u64 }),
            t.zoom == 12,
            cache_contents(t.heightmap_cache) == Seq::<(TileKey, CacheEntry)>::empty(),
            cache_capacity(t.heightmap_cache) == TILE_CACHE_SIZE,
            clipmap_matches(t.clipmap, world_to_tile_spec(t.origin, 12), 1),
            t.prev_top_left == (Tile { x: 0, y: 0, z: 0 }),
    {
        let origin = WorldPos::from_km(21720, 14330);
        proof {
            vstd::arithmetic::power2::lemma2_to64();
            let start = world_to_tile_spec(origin, 12);
            assert(origin.x == 2224128 && origin.y == 1467392);
            assert(crate::tile::tile_units(12) == 1024);
            assert(2224128int / 1024int == 2172);
            assert(1467392int / 1024int == 1433);
            assert(start.x == 2172 && start.y == 1433 && start.z == 12);
            assert(pow2((1 - 0) as nat) == 2);
        }
        let clipmap = Clipmap::new(origin, 12, 1);
        Terrain {
            use_api: true,
            needs_rebuild: true,
            origin,
            zoom: 12,
            heightmap_cache: cache_new(TILE_CACHE_SIZE),
            clipmap,
            prev_top_left: Tile { x: 0, y: 0, z: 0 },
        }
    }

    /// Whether `set_origin(pos, zoom)` may be called.
    pub fn can_set_origin(&self, pos: WorldPos, zoom: u32) -> (b: bool)
        requires
            self.wf(),
        ensures
            b == self.origin_ok(pos, zoom),
    {
        let tz = if zoom < MAX_ZOOM_TERRAIN { zoom } else { MAX_ZOOM_TERRAIN };
        Clipmap::can_find_starting_tile(pos, tz, self.clipmap.rings.len() as u8)
    }

    /// Whether `begin_update` may be called.
    pub fn can_update(&self) -> (b: bool)
        requires
            self.wf(),
        ensures
            b == (!self.needs_rebuild || self.update_ok()),
    {
        if !self.needs_rebuild {
            return true;
        }
        let tz = if self.zoom < MAX_ZOOM_TERRAIN { self.zoom } else { MAX_ZOOM_TERRAIN };
        Clipmap::can_build(self.origin, tz, self.clipmap.rings.len() as u8)
    }

    /// Whether `assemble` may be called.
    pub fn can_assemble(&self) -> (b: bool)
        ensures
            b == self.layout_ok(),
    {
        self.clipmap.rings.len() <= 21 && self.zoom as usize >= self.clipmap.rings.len()
    }

    /// Moves the camera to `pos` at zoom level `zoom`. When the center patch would
    /// start at another tile, the origin moves to that tile and a rebuild is due.
    pub fn set_origin(&mut self, pos: WorldPos, zoom: u32)
        requires
            old(self).wf(),
            old(self).origin_ok(pos, zoom),
        ensures
            final(self).wf(),
            *final(self) == after_set_origin(*old(self), pos, zoom),
            final(self).prev_top_left == level_tile(
                world_to_tile_spec(pos, terrain_zoom(zoom)),
                old(self).clipmap.rings@.len(),
                0,
            ),
    {
        let rings = self.clipmap.rings.len();
        let terrain_zoom = if zoom < MAX_ZOOM_TERRAIN { zoom } else { MAX_ZOOM_TERRAIN };
        let top_left_tile = Clipmap::find_starting_tile(pos, terrain_zoom, rings as u8);
        if self.prev_top_left != top_left_tile {
            self.prev_top_left = top_left_tile;
            self.origin = tile_to_world_coords(top_left_tile);
            self.zoom = zoom;
            self.needs_rebuild = true;
        }
    }

    /// The world position at which the center patch is drawn.
    pub fn get_origin(&self) -> (p: WorldPos)
        ensures
            p == self.origin,
    {
        self.origin
    }

    /// Switches between satellite colors and colors taken from the heightmaps.
    /// Cached tiles are dropped and a rebuild is due.
    pub fn toggle_api(&mut self)
        requires
            old(self).wf(),
        ensures
            final(self).wf(),
            final(self).use_api == !old(self).use_api,
            final(self).needs_rebuild,
            cache_contents(final(self).heightmap_cache) == Seq::<(TileKey, CacheEntry)>::empty(),
            cache_capacity(final(self).heightmap_cache) == cache_capacity(old(self).heightmap_cache),
            final(self).origin == old(self).origin,
            final(self).zoom == old(self).zoom,
            final(self).clipmap == old(self).clipmap,
            final(self).prev_top_left == old(self).prev_top_left,
    {
        self.use_api = !self.use_api;
        cache_clear(&mut self.heightmap_cache);
        self.needs_rebuild = true;
    }

    /// Starts an update. When no rebuild is due there is nothing to do (`None`).
    /// Otherwise the clipmap is rebuilt around the origin, every clipmap tile is
    /// looked up in the cache (so cached ones become the most recently used), and
    /// the tiles that are not cached are returned, in drawing order.
    pub fn begin_update(&mut self) -> (missing: Option<Vec<Tile>>)
        requires
            old(self).wf(),
            old(self).needs_rebuild ==> old(self).update_ok(),
        ensures
            final(self).wf(),
            !old(self).needs_rebuild ==> missing is None && *final(self) == *old(self),
            old(self).needs_rebuild ==> {
                &&& missing is Some
                &&& clipmap_matches(
                    final(self).clipmap,
                    world_to_tile_spec(old(self).origin, terrain_zoom(old(self).zoom)),
                    old(self).clipmap.rings@.len(),
                )
                &&& missing.unwrap()@ == missing_tiles(
                    cache_contents(old(self).heightmap_cache),
                    clipmap_tiles(final(self).clipmap),
                )
                &&& cache_contents(final(self).heightmap_cache) == promote_all(
                    cache_contents(old(self).heightmap_cache),
                    tile_keys(clipmap_tiles(final(self).clipmap)),
                )
                &&& cache_capacity(final(self).heightmap_cache) == cache_capacity(old(self).heightmap_cache)
                &&& final(self).needs_rebuild == old(self).needs_rebuild
                &&& final(self).use_api == old(self).use_api
                &&& final(self).origin == old(self).origin
                &&& final(self).zoom == old(self).zoom
                &&& final(self).prev_top_left == old(self).prev_top_left
            },
    {
        if !self.needs_rebuild {
            return None;
        }
        let tz = if self.zoom < MAX_ZOOM_TERRAIN { self.zoom } else { MAX_ZOOM_TERRAIN };
        self.clipmap.rebuild(self.origin, tz);
        let tiles = clipmap_tile_list(&self.clipmap);
        let ghost s0 = cache_contents(self.heightmap_cache);
        let ghost cap = cache_capacity(self.heightmap_cache);
        let ghost before = *self;
        let mut missing: Vec<Tile> = Vec::new();
        let mut j: usize = 0;
        while j < tiles.len()
            invariant
                j <= tiles@.len(),
                entries_wf(s0, cap),
                cache_capacity(self.heightmap_cache) == cap,
                cache_contents(self.heightmap_cache) == promote_all(s0, tile_keys(tiles@).take(j as int)),
                missing@ == missing_tiles(s0, tiles@.take(j as int)),
                tiles@ == clipmap_tiles(self.clipmap),
                self.clipmap == before.clipmap,
                self.needs_rebuild == before.needs_rebuild,
                self.use_api == before.use_api,
                self.origin == before.origin,
                self.zoom == before.zoom,
                self.prev_top_left == before.prev_top_left,
            decreases tiles@.len() - j,
        {
            let t = tiles[j];
            let key = (t.x, t.y, t.z);
            proof {
                lemma_promote_all(s0, cap, tile_keys(tiles@).take(j as int));
                assert(tile_keys(tiles@).take(j + 1).drop_last() =~= tile_keys(tiles@).take(j as int));
                assert(tiles@.take(j + 1).drop_last() =~= tiles@.take(j as int));
            }
            let found = cache_get(&mut self.heightmap_cache, &key);
            let is_cached = found.is_some();
            if !is_cached {
                missing.push(t);
            }
            j = j + 1;
        }
        proof {
            assert(tile_keys(tiles@).take(tiles@.len() as int) =~= tile_keys(tiles@));
            assert(tiles@.take(tiles@.len() as int) =~= tiles@);
            lemma_promote_all(s0, cap, tile_keys(tiles@));
        }
        Some(missing)
    }

    /// Caches `entry` for `tile` as the most recently used entry.
    pub fn insert_tile(&mut self, tile: Tile, entry: CacheEntry)
        requires
            old(self).wf(),
        ensures
            final(self).wf(),
            cache_contents(final(self).heightmap_cache) == after_put(
                cache_contents(old(self).heightmap_cache),
                cache_capacity(old(self).heightmap_cache),
                tile_key(tile),
                entry,
            ),
            cache_capacity(final(self).heightmap_cache) == cache_capacity(old(self).heightmap_cache),
            final(self).needs_rebuild == old(self).needs_rebuild,
            final(self).use_api == old(self).use_api,
            final(self).origin == old(self).origin,
            final(self).zoom == old(self).zoom,
            final(self).clipmap == old(self).clipmap,
            final(self).prev_top_left == old(self).prev_top_left,
    {
        let _ = cache_put(&mut self.heightmap_cache, (tile.x, tile.y, tile.z), entry);
    }

    /// Lays out a frame for the current clipmap: one instance per tile in drawing
    /// order, sampling texture layer `j` for the `j`-th tile, with the tiles'
    /// images and meshes taken from the cache in the same order (trees only for
    /// the center patch). Each tile is looked up in turn; the first one that is not
    /// cached is returned as the error.
    pub fn assemble(&mut self) -> (r: Result<FrameData, Tile>)
        requires
            old(self).wf(),
            old(self).layout_ok(),
        ensures
            final(self).wf(),
            cache_capacity(final(self).heightmap_cache) == cache_capacity(old(self).heightmap_cache),
            final(self).needs_rebuild == old(self).needs_rebuild,
            final(self).use_api == old(self).use_api,
            final(self).origin == old(self).origin,
            final(self).zoom == old(self).zoom,
            final(self).clipmap == old(self).clipmap,
            final(self).prev_top_left == old(self).prev_top_left,
            r is Ok <==> forall|j: int|
                0 <= j < clipmap_tiles(old(self).clipmap).len() ==> has_key(
                    cache_contents(old(self).heightmap_cache),
                    #[trigger] tile_key(clipmap_tiles(old(self).clipmap)[j]),
                ),
            ({
                let ts = clipmap_tiles(old(self).clipmap);
                let s0 = cache_contents(old(self).heightmap_cache);
                match r {
                    Ok(f) => {
                        &&& forall|j: int| 0 <= j < ts.len() ==> has_key(s0, #[trigger] tile_key(ts[j]))
                        &&& cache_contents(final(self).heightmap_cache) == promote_all(s0, tile_keys(ts))
                        &&& f.layers == ts.len()
                        &&& f.layers <= IMAGE_BUFFER_SIZE
                        &&& f.instances@.len() == ts.len()
                        &&& forall|j: int| 0 <= j < ts.len() ==> #[trigger] f.instances@[j] == instance_plan(j, ts[j], old(self).zoom)
                        &&& f.heightmap_data@ == frame_heightmaps(s0, ts)
                        &&& f.color_data@ == frame_colors(s0, ts)
                        &&& f.building_vertices@ == frame_mesh(s0, ts)
                        &&& f.tree_instances@ == frame_trees(s0, ts)
                    },
                    Err(t) => exists|j: int| {
                        &&& 0 <= j < ts.len()
                        &&& ts[j] == t
                        &&& !has_key(s0, tile_key(t))
                        &&& forall|i: int| 0 <= i < j ==> has_key(s0, #[trigger] tile_key(ts[i]))
                        &&& cache_contents(final(self).heightmap_cache) == promote_all(s0, tile_keys(ts).take(j + 1))
                    },
                }
            }),
    {
        let tiles = clipmap_tile_list(&self.clipmap);
        let ghost s0 = cache_contents(self.heightmap_cache);
        let ghost cap = cache_capacity(self.heightmap_cache);
        let ghost before = *self;
        let mut instances: Vec<TileInstancePlan> = Vec::new();
        let mut heightmap_data: Vec<u8> = Vec::new();
        let mut color_data: Vec<u8> = Vec::new();
        let mut building_vertices: Vec<[u32; 6]> = Vec::new();
        let mut tree_instances: Vec<[u32; 7]> = Vec::new();
        let mut j: usize = 0;
        while j < tiles.len()
            invariant
                j <= tiles@.len(),
                tiles@ == clipmap_tiles(self.clipmap),
                tiles@.len() == 16 + 12 * self.clipmap.rings@.len(),
                before.layout_ok(),
                before.wf(),
                before == *old(self),
                s0 == cache_contents(old(self).heightmap_cache),
                cap == cache_capacity(old(self).heightmap_cache),
                entries_wf(s0, cap),
                cache_capacity(self.heightmap_cache) == cap,
                cache_contents(self.heightmap_cache) == promote_all(s0, tile_keys(tiles@).take(j as int)),
                forall|i: int| 0 <= i < j ==> has_key(s0, #[trigger] tile_key(tiles@[i])),
                instances@.len() == j,
                forall|i: int| 0 <= i < j ==> #[trigger] instances@[i] == instance_plan(i, tiles@[i], before.zoom),
                heightmap_data@ == frame_heightmaps(s0, tiles@.take(j as int)),
                color_data@ == frame_colors(s0, tiles@.take(j as int)),
                building_vertices@ == frame_mesh(s0, tiles@.take(j as int)),
                tree_instances@ == frame_trees(s0, tiles@.take(j as int)),
                self.clipmap == before.clipmap,
                self.needs_rebuild == before.needs_rebuild,
                self.use_api == before.use_api,
                self.origin == before.origin,
                self.zoom == before.zoom,
                self.prev_top_left == before.prev_top_left,
            decreases tiles@.len() - j,
        {
            let t = tiles[j];
            let key = (t.x, t.y, t.z);
            let ghost cur = cache_contents(self.heightmap_cache);
            proof {
                lemma_promote_all(s0, cap, tile_keys(tiles@).take(j as int));
                assert(tile_keys(tiles@).take(j + 1).drop_last() =~= tile_keys(tiles@).take(j as int));
                assert(tiles@.take(j + 1).drop_last() =~= tiles@.take(j as int));
                assert(tile_keys(tiles@).take(j + 1).last() == key);
                assert(tiles@.take(j + 1).last() == t);
                assert(key == tile_key(t));
            }
            let found = cache_get(&mut self.heightmap_cache, &key);
            match found {
                None => {
                    proof {
                        assert(!has_key(s0, tile_key(t)));
                    }
                    return Err(t);
                },
                Some(e) => {
                    proof {
                        assert(has_key(s0, tile_key(t)));
                        assert(*e == value_of(s0, tile_key(t)));
                    }
                    append_copy(&mut heightmap_data, &e.heightmap);
                    append_copy(&mut color_data, &e.color);
                    match &e.vector {
                        Some(v) => {
                            append_copy(&mut building_vertices, &v.mesh);
                            if j < 16 {
                                append_copy(&mut tree_instances, &v.trees);
                            }
                        },
                        None => {},
                    }
                },
            }
            let plan = instance_at(j, t, self.zoom);
            instances.push(plan);
            j = j + 1;
        }
        proof {
            assert(tile_keys(tiles@).take(tiles@.len() as int) =~= tile_keys(tiles@));
            assert(tiles@.take(tiles@.len() as int) =~= tiles@);
            lemma_promote_all(s0, cap, tile_keys(tiles@));
        }
        let layers = tiles.len() as u32;
        Ok(FrameData { instances, heightmap_data, color_data, building_vertices, tree_instances, layers })
    }

    /// Marks the frame laid out by `assemble` as uploaded.
    pub fn finish_update(&mut self)
        ensures
            *final(self) == (Terrain { needs_rebuild: false, ..*old(self) }),
    {
        self.needs_rebuild = false;
    }
}

} // verus!

verus! {

/// Moving the origin recentres the terrain: after `set_origin` puts the origin at
/// the top-left corner of the tile it chose for the center patch, the clipmap that
/// the next update builds around that origin starts its center patch at that tile.
pub proof fn lemma_rebuild_centers_on_chosen_tile(start: Tile, rings: u8, cm: Clipmap)
    requires
        starting_tile_ok(start, rings),
        start.z <= MAX_ZOOM_TERRAIN,
        clipmap_matches(
            cm,
            world_to_tile_spec(tile_to_world_spec(level_tile(start, rings as nat, 0)), start.z),
            rings as nat,
        ),
    ensures
        world_pos_fits(tile_to_world_spec(level_tile(start, rings as nat, 0)), start.z),
        world_to_tile_spec(tile_to_world_spec(level_tile(start, rings as nat, 0)), start.z) == level_tile(
            start,
            rings as nat,
            0,
        ),
        cm.center@[0]@[0] == level_tile(start, rings as nat, 0),
{
    let r = rings as nat;
    let t = level_tile(start, r, 0);
    crate::tile::lemma_tile_corner_round_trip(t);
    assert(world_to_tile_spec(tile_to_world_spec(t), start.z) == t);
    lemma_level_fixed(start.x as int, r);
    lemma_level_fixed(start.y as int, r);
    lemma_level_fixed(start.z as int, r);
    assert(level_tile(t, r, 0) == t);
    assert(cm.center@[0]@[0] == crate::clipmap::center_spec(level_tile(t, r, 0))[0][0]);
}

/// A starting coordinate is its own starting coordinate.
pub proof fn lemma_level_fixed(v: int, rings: nat)
    requires
        rings >= 1,
        v >= 0,
    ensures
        level_coord(level_coord(v, rings, 0), rings, 0) == level_coord(v, rings, 0),
        level_coord(v, rings, 0) >= 0,
{
    let p = pow2(rings);
    let q = v / p as int;
    vstd::arithmetic::power2::lemma_pow2_pos(rings);
    vstd::arithmetic::power2::lemma_pow2_unfold(rings);
    vstd::arithmetic::div_mod::lemma_div_pos_is_pos(v, p as int);
    assert(pow2((rings - 0) as nat) == p);
    let t = level_coord(v, rings, 0);
    assert(t == p * q + (p - 2)) by (nonlinear_arith)
        requires
            t == p * (q + 1) - 2,
    ;
    assert(p * q >= 0) by (nonlinear_arith)
        requires
            p > 0,
            q >= 0,
    ;
    vstd::arithmetic::div_mod::lemma_fundamental_div_mod_converse(t, p as int, q, p - 2);
}

/// Every patch of a frame is drawn where its tile lies and as wide as its tile:
/// the `j`-th instance's offset from the origin, times the width of a tile at the
/// terrain's zoom level, is the distance from the origin (the corner of the center
/// patch) to the `j`-th tile's corner. This holds when the camera's zoom level is
/// at most `MAX_ZOOM_TERRAIN`, so that the clipmap is built at the camera's zoom.
pub proof fn lemma_instances_at_tiles(start: Tile, rings: u8, cm: Clipmap, j: int)
    requires
        clipmap_ok(start, rings),
        start.z <= MAX_ZOOM_TERRAIN,
        clipmap_matches(cm, start, rings as nat),
        0 <= j < 16 + 12 * rings,
    ensures
        ({
            let t = clipmap_tiles(cm)[j];
            let origin = level_tile(start, rings as nat, 0);
            let p = instance_plan(j, t, start.z);
            &&& p.tile == t
            &&& p.texture_layer == j
            &&& p.scale_zoom == t.z
            &&& p.offset_x * crate::tile::tile_units(start.z) == t.x * crate::tile::tile_units(t.z) - origin.x
                * crate::tile::tile_units(origin.z)
            &&& p.offset_y * crate::tile::tile_units(start.z) == t.y * crate::tile::tile_units(t.z) - origin.y
                * crate::tile::tile_units(origin.z)
        }),
{
    let r = rings as nat;
    let ts = clipmap_tiles(cm);
    let t = ts[j];
    let origin = level_tile(start, r, 0);
    let u = crate::tile::tile_units(start.z);
    crate::clipmap::lemma_clipmap_levels_nest(start, rings);
    crate::clipmap::lemma_level_step(start.x as int, r, 0);
    crate::clipmap::lemma_level_step(start.y as int, r, 0);
    if j < 16 {
        let row = j / 4;
        let col = j % 4;
        assert(t == cm.center@[row]@[col]);
        assert(t == crate::clipmap::shifted(origin, col, row));
        assert((origin.x + col) * u - origin.x * u == col * u) by (nonlinear_arith);
        assert((origin.y + row) * u - origin.y * u == row * u) by (nonlinear_arith);
    } else {
        let k = (j - 16) / 12;
        let i = (j - 16) % 12;
        let inner = level_tile(start, r, k as nat);
        assert(0 <= k < r);
        assert(t == cm.rings@[k]@[i]);
        assert(t == crate::clipmap::ring_spec(inner)[i]);
        lemma_ring_instance(start, rings, k as nat, i);
    }
}

/// One axis of `lemma_ring_instance`.
proof fn lemma_ring_axis(inner: int, origin: int, q: int, r: nat, k: nat, o: int, u: int)
    requires
        k < r,
        q >= 0,
        inner == pow2((r - k) as nat) * (q + 1) - 2,
        origin == pow2(r) * (q + 1) - 2,
    ensures
        inner * (u * pow2(k)) + o * (u * pow2(k + 1)) - origin * u == (2 + (o - 1) * pow2(k + 1)) * u,
{
    let pr = pow2((r - k) as nat);
    let pk = pow2(k);
    let s = pow2(k + 1);
    vstd::arithmetic::power2::lemma_pow2_unfold(k + 1);
    vstd::arithmetic::power2::lemma_pow2_adds((r - k) as nat, k);
    assert((r - k) as nat + k == r);
    let big = pow2(r) as int;
    let upk = u * pk;
    assert(inner * upk == (pr * pk) * ((q + 1) * u) - 2 * upk) by (nonlinear_arith)
        requires
            inner == pr * (q + 1) - 2,
            upk == u * pk,
    ;
    assert((pr * pk) * ((q + 1) * u) == big * ((q + 1) * u)) by {
        assert(pr * pk == big);
    }
    assert(origin * u == big * ((q + 1) * u) - 2 * u) by (nonlinear_arith)
        requires
            origin == big * (q + 1) - 2,
    ;
    assert(o * (u * s) == 2 * (o * upk)) by (nonlinear_arith)
        requires
            s == 2 * pk,
            upk == u * pk,
    ;
    assert((2 + (o - 1) * s) * u == 2 * u + 2 * (o * upk) - 2 * upk) by (nonlinear_arith)
        requires
            s == 2 * pk,
            upk == u * pk,
    ;
}

/// The ring part of `lemma_instances_at_tiles`: the `i`-th tile of ring `k`.
proof fn lemma_ring_instance(start: Tile, rings: u8, k: nat, i: int)
    requires
        clipmap_ok(start, rings),
        start.z <= MAX_ZOOM_TERRAIN,
        k < rings,
        0 <= i < 12,
    ensures
        ({
            let t = crate::clipmap::ring_spec(level_tile(start, rings as nat, k))[i];
            let origin = level_tile(start, rings as nat, 0);
            let s = pow2(k + 1) as int;
            let u = crate::tile::tile_units(start.z);
            let ox = ring_offset_spec(i).0;
            let oy = ring_offset_spec(i).1;
            &&& t.z == start.z - (k + 1)
            &&& (2 + (ox - 1) * s) * u == t.x * crate::tile::tile_units(t.z) - origin.x * crate::tile::tile_units(origin.z)
            &&& (2 + (oy - 1) * s) * u == t.y * crate::tile::tile_units(t.z) - origin.y * crate::tile::tile_units(origin.z)
            &&& -0x800000 <= 2 + (ox - 1) * s <= 0x800000
            &&& -0x800000 <= 2 + (oy - 1) * s <= 0x800000
        }),
{
    let r = rings as nat;
    let inner = level_tile(start, r, k);
    let origin = level_tile(start, r, 0);
    let u = crate::tile::tile_units(start.z);
    crate::clipmap::lemma_clipmap_levels_nest(start, rings);
    assert(inner.x % 2 == 0 && inner.y % 2 == 0 && crate::clipmap::ring_fits(inner));
    crate::clipmap::lemma_level_step(start.x as int, r, k);
    crate::clipmap::lemma_level_step(start.y as int, r, k);
    crate::clipmap::lemma_level_step(start.x as int, r, 0);
    crate::clipmap::lemma_level_step(start.y as int, r, 0);
    crate::clipmap::lemma_ring_tile_placement(inner, i);
    let t = crate::clipmap::ring_spec(inner)[i];
    let s = pow2(k + 1);
    let e = (MAX_ZOOM_TERRAIN - start.z) as nat;
    vstd::arithmetic::power2::lemma_pow2_adds(e, k);
    vstd::arithmetic::power2::lemma_pow2_adds(e, k + 1);
    assert(e + k == (MAX_ZOOM_TERRAIN - inner.z) as nat);
    assert(e + (k + 1) == (MAX_ZOOM_TERRAIN - (inner.z - 1)) as nat);
    assert(crate::tile::tile_units(inner.z) == u * pow2(k));
    assert(crate::tile::tile_units((inner.z - 1) as u32) == u * s);
    let qx = start.x as int / pow2(r) as int;
    let qy = start.y as int / pow2(r) as int;
    vstd::arithmetic::power2::lemma_pow2_pos(r);
    vstd::arithmetic::div_mod::lemma_div_pos_is_pos(start.x as int, pow2(r) as int);
    vstd::arithmetic::div_mod::lemma_div_pos_is_pos(start.y as int, pow2(r) as int);
    assert(inner.x == level_coord(start.x as int, r, k));
    assert(origin.x == level_coord(start.x as int, r, 0));
    assert(inner.y == level_coord(start.y as int, r, k));
    assert(origin.y == level_coord(start.y as int, r, 0));
    assert(pow2((r - 0) as nat) == pow2(r));
    let ox = ring_offset_spec(i).0;
    let oy = ring_offset_spec(i).1;
    lemma_ring_axis(inner.x as int, origin.x as int, qx, r, k, ox, u as int);
    lemma_ring_axis(inner.y as int, origin.y as int, qy, r, k, oy, u as int);
    assert(s <= 0x400000) by {
        vstd::arithmetic::power2::lemma2_to64();
        if k + 1 < 22 {
            vstd::arithmetic::power2::lemma_pow2_strictly_increases(k + 1, 22);
        }
    }
    assert(-2 * s <= (ox - 1) * s <= s) by (nonlinear_arith)
        requires
            -1 <= ox <= 2,
            0 <= s,
    ;
    assert(-2 * s <= (oy - 1) * s <= s) by (nonlinear_arith)
        requires
            -1 <= oy <= 2,
            0 <= s,
    ;
}

/// Texture layer `j` of a frame holds the heightmap of the frame's `j`-th tile,
/// when every heightmap has the same size `len`.
pub proof fn lemma_layer_holds_tile_heightmap(s: Seq<(TileKey, CacheEntry)>, ts: Seq<Tile>, len: int, j: int)
    requires
        len >= 0,
        0 <= j < ts.len(),
        forall|i: int| 0 <= i < ts.len() ==> (#[trigger] value_of(s, tile_key(ts[i]))).heightmap@.len() == len,
    ensures
        frame_heightmaps(s, ts).len() == ts.len() * len,
        frame_heightmaps(s, ts).subrange(j * len, (j + 1) * len) == value_of(s, tile_key(ts[j])).heightmap@,
    decreases ts.len(),
{
    let prefix = ts.drop_last();
    lemma_frame_heightmaps_len(s, ts, len);
    lemma_frame_heightmaps_len(s, prefix, len);
    let f = frame_heightmaps(s, ts);
    let fp = frame_heightmaps(s, prefix);
    assert(value_of(s, tile_key(ts[ts.len() - 1])).heightmap@.len() == len);
    assert(f == fp + value_of(s, tile_key(ts.last())).heightmap@);
    assert(fp.len() == prefix.len() * len);
    assert((j + 1) * len == j * len + len) by (nonlinear_arith);
    if j == ts.len() - 1 {
        assert(f.subrange(j * len, (j + 1) * len) =~= value_of(s, tile_key(ts[j])).heightmap@);
    } else {
        assert forall|i: int| 0 <= i < prefix.len() implies (#[trigger] value_of(s, tile_key(prefix[i]))).heightmap@.len() == len by {
            assert(prefix[i] == ts[i]);
        }
        lemma_layer_holds_tile_heightmap(s, prefix, len, j);
        assert(prefix[j] == ts[j]);
        assert((j + 1) * len <= prefix.len() * len) by (nonlinear_arith)
            requires
                j + 1 <= prefix.len(),
                len >= 0,
        ;
        assert(j * len >= 0) by (nonlinear_arith)
            requires
                j >= 0,
                len >= 0,
        ;
        assert(f.subrange(j * len, (j + 1) * len) =~= fp.subrange(j * len, (j + 1) * len));
    }
}

/// The heightmaps of `ts` take `len` bytes each.
pub proof fn lemma_frame_heightmaps_len(s: Seq<(TileKey, CacheEntry)>, ts: Seq<Tile>, len: int)
    requires
        len >= 0,
        forall|i: int| 0 <= i < ts.len() ==> (#[trigger] value_of(s, tile_key(ts[i]))).heightmap@.len() == len,
    ensures
        frame_heightmaps(s, ts).len() == ts.len() * len,
    decreases ts.len(),
{
    if ts.len() > 0 {
        let prefix = ts.drop_last();
        assert forall|i: int| 0 <= i < prefix.len() implies (#[trigger] value_of(s, tile_key(prefix[i]))).heightmap@.len() == len by {
            assert(prefix[i] == ts[i]);
        }
        lemma_frame_heightmaps_len(s, prefix, len);
        assert(value_of(s, tile_key(ts[ts.len() - 1])).heightmap@.len() == len);
        assert(prefix.len() * len + len == ts.len() * len) by (nonlinear_arith)
            requires
                prefix.len() + 1 == ts.len(),
        ;
    }
}

/// Moving the camera twice to the same place is moving it once, and a move keeps
/// the terrain well formed and the same places reachable.
pub proof fn lemma_set_origin_idempotent(t: Terrain, pos: WorldPos, zoom: u32)
    ensures
        after_set_origin(after_set_origin(t, pos, zoom), pos, zoom) == after_set_origin(t, pos, zoom),
        after_set_origin(t, pos, zoom).wf() == t.wf(),
        forall|p2: WorldPos, z2: u32| #[trigger] after_set_origin(t, pos, zoom).origin_ok(p2, z2) == t.origin_ok(p2, z2),
{
}

/// Moving the camera recentres the terrain: afterwards the last chosen starting
/// tile is the starting tile of the new position (at the terrain's zoom level).
/// When that tile differs from the one chosen before, in any coordinate, the
/// origin moves to its top-left corner, the camera's zoom level is taken over and
/// a rebuild is due; when it is the same tile, nothing changes. The cache, the
/// clipmap and the color source are never touched.
pub proof fn lemma_set_origin_recentres(t: Terrain, pos: WorldPos, zoom: u32)
    ensures
        ({
            let c = level_tile(world_to_tile_spec(pos, terrain_zoom(zoom)), t.clipmap.rings@.len(), 0);
            let a = after_set_origin(t, pos, zoom);
            &&& a.prev_top_left == c
            &&& (c.x != t.prev_top_left.x || c.y != t.prev_top_left.y || c.z != t.prev_top_left.z) ==> {
                &&& a.origin == tile_to_world_spec(c)
                &&& a.zoom == zoom
                &&& a.needs_rebuild
            }
            &&& (c.x == t.prev_top_left.x && c.y == t.prev_top_left.y && c.z == t.prev_top_left.z) ==> a == t
            &&& a.heightmap_cache == t.heightmap_cache
            &&& a.clipmap == t.clipmap
            &&& a.use_api == t.use_api
        }),
{
}

/// Moving the camera to the same place again changes nothing: once `set_origin`
/// has chosen a starting tile, any terrain that still has that starting tile and
/// as many rings (such as the terrain after the update that follows, since
/// `begin_update`, `insert_tile`, `assemble` and `finish_update` keep both) is
/// left unchanged by a further move to the same place.
pub proof fn lemma_set_origin_again_changes_nothing(t: Terrain, later: Terrain, pos: WorldPos, zoom: u32)
    requires
        later.prev_top_left == after_set_origin(t, pos, zoom).prev_top_left,
        later.clipmap.rings@.len() == t.clipmap.rings@.len(),
    ensures
        after_set_origin(later, pos, zoom) == later,
{
}

/// The tiles `begin_update` reports missing are exactly the clipmap tiles that are
/// not cached.
pub proof fn lemma_missing_tiles_are_uncached(s: Seq<(TileKey, CacheEntry)>, ts: Seq<Tile>)
    ensures
        forall|t: Tile| #[trigger] missing_tiles(s, ts).contains(t) <==> (ts.contains(t) && !has_key(s, tile_key(t))),
    decreases ts.len(),
{
    if ts.len() > 0 {
        let prev = ts.drop_last();
        lemma_missing_tiles_are_uncached(s, prev);
        let mp = missing_tiles(s, prev);
        assert forall|t: Tile| #[trigger] missing_tiles(s, ts).contains(t) <==> (ts.contains(t) && !has_key(s, tile_key(t))) by {
            if ts.contains(t) && t != ts.last() {
                let i = choose|i: int| 0 <= i < ts.len() && ts[i] == t;
                assert(prev[i] == t);
            }
            if prev.contains(t) {
                let i = choose|i: int| 0 <= i < prev.len() && prev[i] == t;
                assert(ts[i] == t);
            }
            if t == ts.last() {
                assert(ts[ts.len() - 1] == t);
            }
            if !has_key(s, tile_key(ts.last())) {
                let m = mp.push(ts.last());
                assert(missing_tiles(s, ts) == m);
                if m.contains(t) {
                    let i = choose|i: int| 0 <= i < m.len() && m[i] == t;
                    if i < mp.len() {
                        assert(mp[i] == t);
                    }
                }
                if mp.contains(t) {
                    let i = choose|i: int| 0 <= i < mp.len() && mp[i] == t;
                    assert(m[i] == t);
                }
                if t == ts.last() {
                    assert(m[mp.len() as int] == t);
                }
            }
        }
    }
}

/// The cache entries after storing each `(tile, entry)` pair of `ins` in turn in a
/// cache of capacity `cap`.
pub open spec fn insert_all(s: Seq<(TileKey, CacheEntry)>, cap: nat, ins: Seq<(Tile, CacheEntry)>) -> Seq<(TileKey, CacheEntry)>
    decreases ins.len(),
{
    if ins.len() == 0 {
        s
    } else {
        after_put(insert_all(s, cap, ins.drop_last()), cap, tile_key(ins.last().0), ins.last().1)
    }
}

/// Every entry whose key is in `ks` comes before every entry whose key is not.
spec fn keys_in_front(s: Seq<(TileKey, CacheEntry)>, ks: Set<TileKey>) -> bool {
    forall|i: int, j: int|
        #![trigger s[i], s[j]]
        0 <= i < j < s.len() && ks.contains(s[j].0) ==> ks.contains(s[i].0)
}

/// A lookup of `k` brings `k` to the front, so the keys of `ks` and `k` lead afterwards.
proof fn lemma_get_keeps_front(s: Seq<(TileKey, CacheEntry)>, cap: nat, ks: Set<TileKey>, k: TileKey)
    requires
        entries_wf(s, cap),
        keys_in_front(s, ks),
    ensures
        keys_in_front(after_get(s, k), ks.insert(k)),
{
    let ks2 = ks.insert(k);
    if has_key(s, k) {
        let i = key_index(s, k);
        let t = after_get(s, k);
        assert forall|m: int| 0 <= m < t.len() implies #[trigger] t[m] == s[crate::tile_cache::moved_from(i, m)]
            && 0 <= crate::tile_cache::moved_from(i, m) < s.len() by {
        }
        assert forall|a: int, b: int|
            #![trigger t[a], t[b]]
            0 <= a < b < t.len() && ks2.contains(t[b].0) implies ks2.contains(t[a].0) by {
            if a > 0 {
                let ma = crate::tile_cache::moved_from(i, a);
                let mb = crate::tile_cache::moved_from(i, b);
                assert(t[a] == s[ma]);
                assert(t[b] == s[mb]);
                assert(ma < mb);
                assert(mb != i);
                assert(s[i].0 == k);
                assert(s[mb].0 != k);
                assert(ks.contains(s[mb].0));
                assert(ks.contains(s[ma].0));
            }
        }
    } else {
        assert forall|a: int, b: int|
            #![trigger s[a], s[b]]
            0 <= a < b < s.len() && ks2.contains(s[b].0) implies ks2.contains(s[a].0) by {
            assert(s[b].0 != k);
        }
    }
}

/// After looking up every key of `ks`, the cached ones lead.
proof fn lemma_promote_front(s0: Seq<(TileKey, CacheEntry)>, cap: nat, ks: Seq<TileKey>)
    requires
        entries_wf(s0, cap),
    ensures
        keys_in_front(promote_all(s0, ks), ks.to_set()),
    decreases ks.len(),
{
    if ks.len() == 0 {
        assert(forall|k: TileKey| !ks.to_set().contains(k));
    } else {
        let prev = ks.drop_last();
        lemma_promote_front(s0, cap, prev);
        lemma_promote_all(s0, cap, prev);
        lemma_get_keeps_front(promote_all(s0, prev), cap, prev.to_set(), ks.last());
        assert(ks == prev.push(ks.last()));
        prev.lemma_push_to_set_commute(ks.last());
        assert(ks.to_set() =~= prev.to_set().insert(ks.last()));
    }
}

/// Storing a key of `ks` when the keys of `ks` lead, and `ks` is no larger than the
/// capacity, evicts no key of `ks`.
proof fn lemma_put_keeps_front(s: Seq<(TileKey, CacheEntry)>, cap: nat, ks: Set<TileKey>, k: TileKey, v: CacheEntry)
    requires
        entries_wf(s, cap),
        keys_in_front(s, ks),
        ks.finite(),
        ks.len() <= cap,
        ks.contains(k),
    ensures
        entries_wf(after_put(s, cap, k, v), cap),
        keys_in_front(after_put(s, cap, k, v), ks),
        has_key(after_put(s, cap, k, v), k),
        forall|k2: TileKey| ks.contains(k2) && has_key(s, k2) ==> #[trigger] has_key(after_put(s, cap, k, v), k2),
        forall|k2: TileKey| #[trigger] has_key(after_put(s, cap, k, v), k2) ==> has_key(s, k2) || k2 == k,
{
    crate::tile_cache::lemma_after_put_wf(s, cap, k, v);
    let t = after_put(s, cap, k, v);
    if has_key(s, k) {
        let i = key_index(s, k);
        assert forall|m: int| 0 < m < t.len() implies #[trigger] t[m] == s[crate::tile_cache::moved_from(i, m)]
            && 0 <= crate::tile_cache::moved_from(i, m) < s.len() by {
        }
        assert forall|a: int, b: int|
            #![trigger t[a], t[b]]
            0 <= a < b < t.len() && ks.contains(t[b].0) implies ks.contains(t[a].0) by {
            if a > 0 {
                let ma = crate::tile_cache::moved_from(i, a);
                let mb = crate::tile_cache::moved_from(i, b);
                assert(t[a] == s[ma]);
                assert(t[b] == s[mb]);
                assert(ma < mb);
            }
        }
        assert forall|k2: TileKey| ks.contains(k2) && has_key(s, k2) implies #[trigger] has_key(t, k2) by {
            let j = key_index(s, k2);
            if j == i {
                assert(t[0].0 == k);
            } else {
                let m = if j < i { j + 1 } else { j };
                assert(t[m] == s[crate::tile_cache::moved_from(i, m)]);
            }
        }
        assert forall|k2: TileKey| #[trigger] has_key(t, k2) implies has_key(s, k2) || k2 == k by {
            let m = key_index(t, k2);
            if m > 0 {
                assert(t[m] == s[crate::tile_cache::moved_from(i, m)]);
            }
        }
    } else {
        if s.len() == cap {
            let last = s.len() - 1;
            if ks.contains(s[last].0) {
                assert forall|m: int| 0 <= m < s.len() implies ks.contains(#[trigger] s[m].0) by {
                    if m < last {
                        assert(ks.contains(s[last].0));
                    }
                }
                let keys = crate::tile_cache::entry_keys(s);
                assert forall|a: int, b: int| 0 <= a < keys.len() && 0 <= b < keys.len() && a != b implies keys[a] != keys[b] by {
                    assert(keys[a] == s[a].0);
                    assert(keys[b] == s[b].0);
                }
                assert(keys.no_duplicates());
                keys.unique_seq_to_set();
                assert forall|x: TileKey| keys.to_set().contains(x) implies ks.remove(k).contains(x) by {
                    let m = choose|m: int| 0 <= m < keys.len() && keys[m] == x;
                    assert(keys[m] == s[m].0);
                }
                assert(keys.to_set().subset_of(ks.remove(k)));
                vstd::set_lib::lemma_len_subset(keys.to_set(), ks.remove(k));
                assert(false);
            }
        }
        assert forall|m: int| 0 < m < t.len() implies #[trigger] t[m] == s[m - 1] by {
        }
        assert forall|a: int, b: int|
            #![trigger t[a], t[b]]
            0 <= a < b < t.len() && ks.contains(t[b].0) implies ks.contains(t[a].0) by {
            if a > 0 {
                assert(t[a] == s[a - 1]);
                assert(t[b] == s[b - 1]);
            }
        }
        assert forall|k2: TileKey| ks.contains(k2) && has_key(s, k2) implies #[trigger] has_key(t, k2) by {
            let j = key_index(s, k2);
            assert(t[j + 1] == s[j]);
        }
        assert forall|k2: TileKey| #[trigger] has_key(t, k2) implies has_key(s, k2) || k2 == k by {
            let m = key_index(t, k2);
            if m > 0 {
                assert(t[m] == s[m - 1]);
            }
        }
    }
}

/// Storing tiles whose keys are in `ks`, while the keys of `ks` lead, evicts no key of `ks`.
proof fn lemma_insert_all_keeps(s: Seq<(TileKey, CacheEntry)>, cap: nat, ks: Set<TileKey>, ins: Seq<(Tile, CacheEntry)>)
    requires
        entries_wf(s, cap),
        keys_in_front(s, ks),
        ks.finite(),
        ks.len() <= cap,
        forall|i: int| 0 <= i < ins.len() ==> ks.contains(tile_key(#[trigger] ins[i].0)),
    ensures
        entries_wf(insert_all(s, cap, ins), cap),
        keys_in_front(insert_all(s, cap, ins), ks),
        forall|k2: TileKey| ks.contains(k2) && has_key(s, k2) ==> #[trigger] has_key(insert_all(s, cap, ins), k2),
        forall|i: int| 0 <= i < ins.len() ==> has_key(insert_all(s, cap, ins), tile_key(#[trigger] ins[i].0)),
        forall|k2: TileKey| #[trigger] has_key(insert_all(s, cap, ins), k2) ==> has_key(s, k2) || exists|i: int|
            0 <= i < ins.len() && tile_key(ins[i].0) == k2,
    decreases ins.len(),
{
    if ins.len() > 0 {
        let prev = ins.drop_last();
        assert forall|i: int| 0 <= i < prev.len() implies ks.contains(tile_key(#[trigger] prev[i].0)) by {
            assert(prev[i] == ins[i]);
        }
        lemma_insert_all_keeps(s, cap, ks, prev);
        let p = insert_all(s, cap, prev);
        let last = ins.last();
        assert(ins[ins.len() - 1] == last);
        lemma_put_keeps_front(p, cap, ks, tile_key(last.0), last.1);
        assert forall|i: int| 0 <= i < ins.len() implies has_key(insert_all(s, cap, ins), tile_key(#[trigger] ins[i].0)) by {
            if i < ins.len() - 1 {
                assert(prev[i] == ins[i]);
                assert(has_key(p, tile_key(prev[i].0)));
            }
        }
        assert forall|k2: TileKey| #[trigger] has_key(insert_all(s, cap, ins), k2) implies has_key(s, k2) || exists|i: int|
            0 <= i < ins.len() && tile_key(ins[i].0) == k2 by {
            if has_key(p, k2) {
                if !has_key(s, k2) {
                    let i = choose|i: int| 0 <= i < prev.len() && tile_key(prev[i].0) == k2;
                    assert(prev[i] == ins[i]);
                }
            } else {
                assert(k2 == tile_key(last.0));
            }
        }
    }
}

/// Storing fetched tiles keeps the clipmap cached: after `begin_update` looked up
/// the clipmap tiles `ts` in a cache holding `s0`, storing an entry for each tile
/// of `ins` (all of them clipmap tiles) leaves exactly those clipmap tiles cached
/// that were cached before or were stored, provided the clipmap has no more
/// distinct tiles than the cache holds entries.
pub proof fn lemma_stored_tiles_stay_cached(
    s0: Seq<(TileKey, CacheEntry)>,
    cap: nat,
    ts: Seq<Tile>,
    ins: Seq<(Tile, CacheEntry)>,
)
    requires
        entries_wf(s0, cap),
        tile_keys(ts).to_set().len() <= cap,
        forall|i: int| 0 <= i < ins.len() ==> ts.contains(#[trigger] ins[i].0),
    ensures
        entries_wf(insert_all(promote_all(s0, tile_keys(ts)), cap, ins), cap),
        forall|j: int|
            0 <= j < ts.len() ==> (#[trigger] has_key(
                insert_all(promote_all(s0, tile_keys(ts)), cap, ins),
                tile_key(ts[j]),
            ) <==> (has_key(s0, tile_key(ts[j])) || exists|i: int| 0 <= i < ins.len() && ins[i].0 == ts[j])),
{
    let ks = tile_keys(ts).to_set();
    let s1 = promote_all(s0, tile_keys(ts));
    vstd::seq_lib::seq_to_set_is_finite(tile_keys(ts));
    lemma_promote_all(s0, cap, tile_keys(ts));
    lemma_promote_front(s0, cap, tile_keys(ts));
    assert forall|i: int| 0 <= i < ins.len() implies ks.contains(tile_key(#[trigger] ins[i].0)) by {
        let j = choose|j: int| 0 <= j < ts.len() && ts[j] == ins[i].0;
        assert(tile_keys(ts)[j] == tile_key(ins[i].0));
    }
    lemma_insert_all_keeps(s1, cap, ks, ins);
    let s2 = insert_all(s1, cap, ins);
    assert forall|j: int|
        0 <= j < ts.len() implies (#[trigger] has_key(s2, tile_key(ts[j])) <==> (has_key(s0, tile_key(ts[j]))
            || exists|i: int| 0 <= i < ins.len() && ins[i].0 == ts[j])) by {
        let k = tile_key(ts[j]);
        assert(tile_keys(ts)[j] == k);
        assert(ks.contains(k));
        if has_key(s0, k) {
            assert(has_key(s1, k));
        }
        if exists|i: int| 0 <= i < ins.len() && ins[i].0 == ts[j] {
            let i = choose|i: int| 0 <= i < ins.len() && ins[i].0 == ts[j];
            assert(has_key(s2, tile_key(ins[i].0)));
        }
        if has_key(s2, k) && !has_key(s0, k) {
            assert(!has_key(s1, k));
            let i = choose|i: int| 0 <= i < ins.len() && tile_key(ins[i].0) == k;
            assert(ins[i].0 == ts[j]);
        }
    }
}

/// Once an entry is stored for every tile `begin_update` reported missing, every
/// clipmap tile is cached (provided the clipmap has no more distinct tiles than the
/// cache holds entries), so `assemble` lays out the frame.
pub proof fn lemma_storing_missing_tiles_completes_cache(
    s0: Seq<(TileKey, CacheEntry)>,
    cap: nat,
    ts: Seq<Tile>,
    ins: Seq<(Tile, CacheEntry)>,
)
    requires
        entries_wf(s0, cap),
        tile_keys(ts).to_set().len() <= cap,
        forall|i: int| 0 <= i < ins.len() ==> missing_tiles(s0, ts).contains(#[trigger] ins[i].0),
        forall|t: Tile| #[trigger] missing_tiles(s0, ts).contains(t) ==> exists|i: int| 0 <= i < ins.len() && ins[i].0 == t,
    ensures
        forall|j: int|
            0 <= j < ts.len() ==> #[trigger] has_key(insert_all(promote_all(s0, tile_keys(ts)), cap, ins), tile_key(ts[j])),
{
    lemma_missing_tiles_are_uncached(s0, ts);
    assert forall|i: int| 0 <= i < ins.len() implies ts.contains(#[trigger] ins[i].0) by {
        assert(missing_tiles(s0, ts).contains(ins[i].0));
    }
    lemma_stored_tiles_stay_cached(s0, cap, ts, ins);
    assert forall|j: int| 0 <= j < ts.len() implies #[trigger] has_key(
        insert_all(promote_all(s0, tile_keys(ts)), cap, ins),
        tile_key(ts[j]),
    ) by {
        if !has_key(s0, tile_key(ts[j])) {
            assert(ts.contains(ts[j]));
            assert(missing_tiles(s0, ts).contains(ts[j]));
        }
    }
}

} // verus!
