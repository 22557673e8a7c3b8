//! Web-Mercator tile indices and world positions.
//!
//! World positions are measured on the finest grid the terrain uses: one unit
//! is the edge of a tile at zoom level `MAX_ZOOM_TERRAIN` (22).  A zoom-12 tile
//! is taken to be 10 km wide, so one unit is 10/1024 km.
use vstd::prelude::*;
use vstd::arithmetic::power2::{pow2, lemma_pow2_unfold, lemma_pow2_pos};
use vstd::arithmetic::div_mod::lemma_div_denominator;

verus! {

/// The deepest zoom level for which terrain tiles are requested.
pub const MAX_ZOOM_TERRAIN: u32 = 22;

/// A tile index `(x, y)` at zoom level `z`.
#[derive(Clone, Copy, Debug, PartialEq, Eq, Hash, Structural)]
pub struct Tile {
    pub x: u32,
    pub y: u32,
    pub z: u32,
}

/// A horizontal world position, in units of zoom-22 tile edges.
#[derive(Clone, Copy, Debug, PartialEq, Eq, Structural)]
pub struct WorldPos {
    pub x: u64,
    pub y: u64,
}

impl Tile {
    pub fn new(x: u32, y: u32, z: u32) -> (t: Tile)
        ensures
            t == (Tile { x, y, z }),
    {
        Tile { x, y, z }
    }
}

/// The number of world units that `v` km amount to, rounded down.
pub open spec fn km_to_units(v: int) -> int {
    v * 512 / 5
}

impl WorldPos {
    /// A world position given in whole kilometres.
    pub fn from_km(x_km: u32, y_km: u32) -> (p: WorldPos)
        ensures
            p.x == km_to_units(x_km as int),
            p.y == km_to_units(y_km as int),
    {
        let x = (x_km as u64) * 512 / 5;
        let y = (y_km as u64) * 512 / 5;
        WorldPos { x, y }
    }
}

/// Edge length of a tile at `zoom`, in world units.
pub open spec fn tile_units(zoom: u32) -> nat
    recommends
        zoom <= MAX_ZOOM_TERRAIN,
{
    pow2((MAX_ZOOM_TERRAIN - zoom) as nat)
}

/// The tile at `zoom` that contains the world position `pos`.
pub open spec fn world_to_tile_spec(pos: WorldPos, zoom: u32) -> Tile {
    Tile {
        x: (pos.x as int / tile_units(zoom) as int) as u32,
        y: (pos.y as int / tile_units(zoom) as int) as u32,
        z: zoom,
    }
}

/// Whether `pos` lies in a tile index range that fits in `u32` at `zoom`.
pub open spec fn world_pos_fits(pos: WorldPos, zoom: u32) -> bool {
    &&& zoom <= MAX_ZOOM_TERRAIN
    &&& pos.x as int / tile_units(zoom) as int <= u32::MAX
    &&& pos.y as int / tile_units(zoom) as int <= u32::MAX
}

/// Whether `world_to_tile_idx(pos, zoom)` may be called.
pub fn world_pos_fits_exec(pos: WorldPos, zoom: u32) -> (b: bool)
    ensures
        b == world_pos_fits(pos, zoom),
{
    if zoom > MAX_ZOOM_TERRAIN {
        return false;
    }
    let x = shift_down(pos.x, MAX_ZOOM_TERRAIN - zoom);
    let y = shift_down(pos.y, MAX_ZOOM_TERRAIN - zoom);
    x <= u32::MAX as u64 && y <= u32::MAX as u64
}

/// `v / 2^k` computed by halving `k` times.
pub fn shift_down(v: u64, k: u32) -> (r: u64)
    ensures
        r as int == v as int / pow2(k as nat) as int,
{
    let mut r = v;
    let mut i: u32 = 0;
    proof {
        vstd::arithmetic::power2::lemma2_to64();
    }
    while i < k
        invariant
            i <= k,
            r as int == v as int / pow2(i as nat) as int,
        decreases k - i,
    {
        proof {
            lemma_pow2_pos(i as nat);
            lemma_pow2_unfold((i + 1) as nat);
            lemma_div_denominator(v as int, pow2(i as nat) as int, 2);
            assert(pow2(i as nat) * 2 == pow2((i + 1) as nat));
        }
        r = r / 2;
        i = i + 1;
    }
    r
}

/// Index of the tile at `zoom` that contains the world position `pos`.
pub fn world_to_tile_idx(pos: WorldPos, zoom: u32) -> (t: Tile)
    requires
        world_pos_fits(pos, zoom),
    ensures
        t == world_to_tile_spec(pos, zoom),
{
    let x = shift_down(pos.x, MAX_ZOOM_TERRAIN - zoom);
    let y = shift_down(pos.y, MAX_ZOOM_TERRAIN - zoom);
    Tile { x: x as u32, y: y as u32, z: zoom }
}

/// The world position of the top-left corner of tile `t`.
pub open spec fn tile_to_world_spec(t: Tile) -> WorldPos {
    WorldPos {
        x: (t.x * tile_units(t.z)) as u64,
        y: (t.y * tile_units(t.z)) as u64,
    }
}

/// `v * 2^k` computed by doubling `k` times.
fn shift_up(v: u32, k: u32) -> (r: u64)
    requires
        k <= MAX_ZOOM_TERRAIN,
    ensures
        r as int == v as int * pow2(k as nat) as int,
{
    let mut r: u64 = v as u64;
    let mut i: u32 = 0;
    proof {
        vstd::arithmetic::power2::lemma2_to64();
    }
    while i < k
        invariant
            i <= k <= MAX_ZOOM_TERRAIN,
            r as int == v as int * pow2(i as nat) as int,
            r <= u32::MAX as int * pow2(i as nat),
            pow2(i as nat) <= pow2(22),
            pow2(22) == 0x400000,
        decreases k - i,
    {
        proof {
            lemma_pow2_unfold((i + 1) as nat);
            if i + 1 < 22 {
                vstd::arithmetic::power2::lemma_pow2_strictly_increases((i + 1) as nat, 22);
            }
            assert(r * 2 <= u32::MAX as int * pow2((i + 1) as nat)) by (nonlinear_arith)
                requires
                    r <= u32::MAX as int * pow2(i as nat),
                    pow2((i + 1) as nat) == 2 * pow2(i as nat),
            ;
            assert(v as int * pow2(i as nat) * 2 == v as int * pow2((i + 1) as nat)) by (nonlinear_arith)
                requires
                    pow2((i + 1) as nat) == 2 * pow2(i as nat),
            ;
            assert(u32::MAX as int * pow2((i + 1) as nat) <= u32::MAX as int * pow2(22)) by (nonlinear_arith)
                requires
                    pow2((i + 1) as nat) <= pow2(22),
            ;
            assert(r * 2 <= u64::MAX) by (nonlinear_arith)
                requires
                    r * 2 <= u32::MAX as int * pow2((i + 1) as nat),
                    u32::MAX as int * pow2((i + 1) as nat) <= u32::MAX as int * pow2(22),
                    pow2(22) == 0x400000,
            ;
        }
        r = r * 2;
        i = i + 1;
    }
    r
}

/// World position of the top-left corner of tile `t`.
pub fn tile_to_world_coords(t: Tile) -> (p: WorldPos)
    requires
        t.z <= MAX_ZOOM_TERRAIN,
    ensures
        p == tile_to_world_spec(t),
{
    let x = shift_up(t.x, MAX_ZOOM_TERRAIN - t.z);
    let y = shift_up(t.y, MAX_ZOOM_TERRAIN - t.z);
    WorldPos { x, y }
}

/// The corner of a tile lies in that tile: converting tile `t` to the world position
/// of its top-left corner and back gives `t`.
pub proof fn lemma_tile_corner_round_trip(t: Tile)
    requires
        t.z <= MAX_ZOOM_TERRAIN,
    ensures
        world_pos_fits(tile_to_world_spec(t), t.z),
        world_to_tile_spec(tile_to_world_spec(t), t.z) == t,
{
    let u = tile_units(t.z);
    let e = (MAX_ZOOM_TERRAIN - t.z) as nat;
    lemma_pow2_pos(e);
    vstd::arithmetic::power2::lemma2_to64();
    if e < 22 {
        vstd::arithmetic::power2::lemma_pow2_strictly_increases(e, 22);
    }
    assert(u <= 0x400000);
    assert(t.x * u <= u32::MAX as int * 0x400000) by (nonlinear_arith)
        requires
            t.x <= u32::MAX,
            u <= 0x400000,
    ;
    assert(t.y * u <= u32::MAX as int * 0x400000) by (nonlinear_arith)
        requires
            t.y <= u32::MAX,
            u <= 0x400000,
    ;
    assert((t.x * u) / (u as int) == t.x) by (nonlinear_arith)
        requires
            u > 0,
    ;
    assert((t.y * u) / (u as int) == t.y) by (nonlinear_arith)
        requires
            u > 0,
    ;
}

/// A position lies in its tile: it is at most one tile width right of and below the
/// corner of the tile `world_to_tile_idx` finds for it.
pub proof fn lemma_position_in_its_tile(pos: WorldPos, zoom: u32)
    requires
        world_pos_fits(pos, zoom),
    ensures
        tile_to_world_spec(world_to_tile_spec(pos, zoom)).x <= pos.x < tile_to_world_spec(world_to_tile_spec(pos, zoom)).x
            + tile_units(zoom),
        tile_to_world_spec(world_to_tile_spec(pos, zoom)).y <= pos.y < tile_to_world_spec(world_to_tile_spec(pos, zoom)).y
            + tile_units(zoom),
{
    let u = tile_units(zoom) as int;
    lemma_pow2_pos((MAX_ZOOM_TERRAIN - zoom) as nat);
    vstd::arithmetic::div_mod::lemma_fundamental_div_mod(pos.x as int, u);
    vstd::arithmetic::div_mod::lemma_fundamental_div_mod(pos.y as int, u);
    vstd::arithmetic::div_mod::lemma_mod_bound(pos.x as int, u);
    vstd::arithmetic::div_mod::lemma_mod_bound(pos.y as int, u);
    let qx = pos.x as int / u;
    let qy = pos.y as int / u;
    assert(qx * u == u * qx) by (nonlinear_arith);
    assert(qy * u == u * qy) by (nonlinear_arith);
}

} // verus!
