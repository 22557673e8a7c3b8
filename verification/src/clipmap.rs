//! The clipmap: a 4x4 patch of tiles around the viewer, surrounded by rings of
//! coarser tiles, each ring one zoom level lower than the level it encloses.
//! Tiles are listed clockwise, starting at the top-left corner of each ring.
use vstd::prelude::*;
use vstd::arithmetic::power2::{pow2, lemma_pow2_unfold, lemma_pow2_pos};
use vstd::arithmetic::div_mod::lemma_div_denominator;
use crate::tile::{Tile, WorldPos, MAX_ZOOM_TERRAIN, tile_units, world_pos_fits, world_to_tile_spec, world_to_tile_idx};

verus! {

/// The cell `(column, row)` of the `i`-th tile of a ring, inside the ring's 4x4 square.
pub open spec fn ring_cell(i: int) -> (int, int) {
    if i == 0 {
        (0, 0)
    } else if i == 1 {
        (1, 0)
    } else if i == 2 {
        (2, 0)
    } else if i == 3 {
        (3, 0)
    } else if i == 4 {
        (3, 1)
    } else if i == 5 {
        (3, 2)
    } else if i == 6 {
        (3, 3)
    } else if i == 7 {
        (2, 3)
    } else if i == 8 {
        (1, 3)
    } else if i == 9 {
        (0, 3)
    } else if i == 10 {
        (0, 2)
    } else {
        (0, 1)
    }
}

/// `t` moved by `dx` columns and `dy` rows.
pub open spec fn shifted(t: Tile, dx: int, dy: int) -> Tile {
    Tile { x: (t.x + dx) as u32, y: (t.y + dy) as u32, z: t.z }
}

/// The top-left tile of the ring that encloses the 4x4 patch whose top-left tile is `inner`.
pub open spec fn ring_top_left(inner: Tile) -> Tile {
    Tile { x: (inner.x / 2 - 1) as u32, y: (inner.y / 2 - 1) as u32, z: (inner.z - 1) as u32 }
}

/// The ring around the 4x4 patch whose top-left tile is `inner`.
pub open spec fn ring_spec(inner: Tile) -> Seq<Tile> {
    Seq::new(12, |i: int| shifted(ring_top_left(inner), ring_cell(i).0, ring_cell(i).1))
}

/// The 4x4 patch whose top-left tile is `top_left`, as rows of tiles.
pub open spec fn center_spec(top_left: Tile) -> Seq<Seq<Tile>> {
    Seq::new(4, |row: int| Seq::new(4, |col: int| shifted(top_left, col, row)))
}

/// Whether a ring can be built around the patch at `inner` without underflow.
pub open spec fn ring_fits(inner: Tile) -> bool {
    inner.x >= 2 && inner.y >= 2 && inner.z >= 2
}

/// Whether the 4x4 patch at `top_left` has tile indices that fit in `u32`.
pub open spec fn center_fits(top_left: Tile) -> bool {
    top_left.x + 3 <= u32::MAX && top_left.y + 3 <= u32::MAX
}

/// One coordinate of the top-left tile of level `k` of a clipmap with `rings` rings,
/// built around a position whose tile coordinate is `v`.
pub open spec fn level_coord(v: int, rings: nat, k: nat) -> int {
    pow2((rings - k) as nat) * (v / pow2(rings) as int + 1) - 2
}

/// The top-left tile of level `k`: level 0 is the center patch, level `k + 1` is
/// the patch enclosed by ring `k`.
pub open spec fn level_tile(start: Tile, rings: nat, k: nat) -> Tile {
    Tile {
        x: level_coord(start.x as int, rings, k) as u32,
        y: level_coord(start.y as int, rings, k) as u32,
        z: (start.z - k) as u32,
    }
}

/// Whether a starting coordinate `v` can go through the level computation with `rings`
/// rings in `u32` arithmetic.
pub open spec fn level_coord_fits(v: int, rings: nat) -> bool {
    level_coord(v, rings, 0) <= u32::MAX
}

/// Whether a starting tile can be computed for a position whose tile is `start`.
pub open spec fn starting_tile_ok(start: Tile, rings: u8) -> bool {
    &&& rings >= 1
    &&& level_coord_fits(start.x as int, rings as nat)
    &&& level_coord_fits(start.y as int, rings as nat)
    &&& level_coord_fits(start.z as int, rings as nat)
}

/// Whether a whole clipmap can be built around a position whose tile is `start`.
pub open spec fn clipmap_ok(start: Tile, rings: u8) -> bool {
    &&& starting_tile_ok(start, rings)
    &&& start.x as int / pow2(rings as nat) as int >= 1
    &&& start.y as int / pow2(rings as nat) as int >= 1
    &&& start.z >= rings + 1
    &&& center_fits(level_tile(start, rings as nat, 0))
}

/// Whether `cm` is the clipmap with `rings` rings around a viewer whose tile is `start`.
pub open spec fn clipmap_matches(cm: Clipmap, start: Tile, rings: nat) -> bool {
    &&& forall|row: int, col: int|
        0 <= row < 4 && 0 <= col < 4 ==> #[trigger] cm.center@[row]@[col] == center_spec(
            level_tile(start, rings, 0),
        )[row][col]
    &&& cm.rings@.len() == rings
    &&& forall|k: int| 0 <= k < rings ==> #[trigger] cm.rings@[k]@ == ring_spec(level_tile(start, rings, k as nat))
}

/// The offset, in ring tiles, of the `i`-th ring tile from the top-left tile of the
/// patch the ring encloses.
pub open spec fn ring_offset_spec(i: int) -> (int, int) {
    (ring_cell(i).0 - 1, ring_cell(i).1 - 1)
}

/// Whether tile `t` lies in the `size` x `size` square whose top-left tile is `tl`.
pub open spec fn in_square(tl: Tile, size: int, t: Tile) -> bool {
    &&& t.z == tl.z
    &&& tl.x <= t.x < tl.x + size
    &&& tl.y <= t.y < tl.y + size
}

/// The tile one zoom level lower that contains `t`.
pub open spec fn parent(t: Tile) -> Tile {
    Tile { x: t.x / 2, y: t.y / 2, z: (t.z - 1) as u32 }
}

/// Steps from level `k` to level `k + 1` of a clipmap: the next level starts at the
/// top-left tile of the ring around level `k`, and level `k` starts on even tiles.
pub proof fn lemma_level_step(v: int, rings: nat, k: nat)
    requires
        k < rings,
        v >= 0,
    ensures
        level_coord(v, rings, k) % 2 == 0,
        level_coord(v, rings, k + 1) == level_coord(v, rings, k) / 2 - 1,
        v / pow2(rings) as int >= 1 ==> level_coord(v, rings, k) >= 2,
        level_coord(v, rings, k) <= level_coord(v, rings, 0),
{
    let q = v / pow2(rings) as int;
    lemma_pow2_pos(rings);
    vstd::arithmetic::div_mod::lemma_div_pos_is_pos(v, pow2(rings) as int);
    let p = pow2((rings - k - 1) as nat);
    lemma_pow2_pos((rings - k - 1) as nat);
    lemma_pow2_unfold((rings - k) as nat);
    assert(pow2((rings - k) as nat) == 2 * p);
    assert(level_coord(v, rings, k) == 2 * (p * (q + 1) - 1)) by (nonlinear_arith)
        requires
            level_coord(v, rings, k) == pow2((rings - k) as nat) * (q + 1) - 2,
            pow2((rings - k) as nat) == 2 * p,
    ;
    assert(level_coord(v, rings, k + 1) == p * (q + 1) - 2);
    if q >= 1 {
        assert(p * (q + 1) >= 2) by (nonlinear_arith)
            requires
                p >= 1,
                q >= 1,
        ;
    }
    assert(p * (q + 1) >= 1) by (nonlinear_arith)
        requires
            p >= 1,
            q >= 0,
    ;
    if k > 0 {
        vstd::arithmetic::power2::lemma_pow2_strictly_increases((rings - k) as nat, rings);
        assert(pow2((rings - k) as nat) * (q + 1) <= pow2(rings) * (q + 1)) by (nonlinear_arith)
            requires
                pow2((rings - k) as nat) <= pow2(rings),
                q >= 0,
        ;
    }
}

pub struct Clipmap {
    /// The finest level: `center[row][column]`.
    pub center: [[Tile; 4]; 4],
    /// `rings[k]` encloses level `k`, one zoom level coarser than it.
    pub rings: Vec<[Tile; 12]>,
}

/// Computes `level_coord(v, rings, 0)` by halving `rings` times, then doubling and
/// adding one `rings - 1` times, then doubling once more.
fn start_coord(v: u32, rings: u8) -> (r: u32)
    requires
        rings >= 1,
        level_coord_fits(v as int, rings as nat),
    ensures
        r as int == level_coord(v as int, rings as nat, 0),
{
    let ghost big_q = v as int / pow2(rings as nat) as int;
    let mut q = v;
    let mut i: u8 = 0;
    proof {
        vstd::arithmetic::power2::lemma2_to64();
    }
    while i < rings
        invariant
            i <= rings,
            q as int == v as int / pow2(i as nat) as int,
        decreases rings - i,
    {
        proof {
            lemma_pow2_pos(i as nat);
            lemma_pow2_unfold((i + 1) as nat);
            lemma_div_denominator(v as int, pow2(i as nat) as int, 2);
        }
        q = q / 2;
        i = i + 1;
    }
    assert(q == big_q);
    proof {
        lemma_pow2_unfold(rings as nat);
        assert(pow2(rings as nat) * (big_q + 1) - 2 <= u32::MAX);
        assert(pow2(0) * (big_q + 1) - 1 == big_q);
    }
    let mut j: u8 = 1;
    while j < rings
        invariant
            1 <= j <= rings,
            big_q >= 0,
            q as int == pow2((j - 1) as nat) * (big_q + 1) - 1,
            pow2(rings as nat) * (big_q + 1) - 2 <= u32::MAX,
        decreases rings - j,
    {
        proof {
            lemma_pow2_unfold(j as nat);
            lemma_pow2_pos((j - 1) as nat);
            if j < rings {
                vstd::arithmetic::power2::lemma_pow2_strictly_increases(j as nat, rings as nat);
            }
            assert(pow2(j as nat) * (big_q + 1) <= pow2(rings as nat) * (big_q + 1)) by (nonlinear_arith)
                requires
                    pow2(j as nat) <= pow2(rings as nat),
                    big_q >= 0,
            ;
            assert(pow2(j as nat) * (big_q + 1) == 2 * (pow2((j - 1) as nat) * (big_q + 1))) by (nonlinear_arith)
                requires
                    pow2(j as nat) == 2 * pow2((j - 1) as nat),
            ;
            assert(pow2(j as nat) * (big_q + 1) >= 1) by (nonlinear_arith)
                requires
                    pow2(j as nat) >= 1,
                    big_q >= 0,
            ;
        }
        q = q * 2 + 1;
        j = j + 1;
    }
    proof {
        assert(pow2(rings as nat) * (big_q + 1) == 2 * (pow2((rings - 1) as nat) * (big_q + 1))) by (nonlinear_arith)
            requires
                pow2(rings as nat) == 2 * pow2((rings - 1) as nat),
        ;
        assert(pow2((rings - 0) as nat) == pow2(rings as nat));
    }
    q * 2
}

/// `2^k` for `k <= 32`.
pub(crate) fn pow2_u64(k: u8) -> (p: u64)
    requires
        k <= 32,
    ensures
        p == pow2(k as nat),
{
    let mut p: u64 = 1;
    let mut i: u8 = 0;
    proof {
        vstd::arithmetic::power2::lemma2_to64();
    }
    while i < k
        invariant
            i <= k <= 32,
            p == pow2(i as nat),
            pow2(32) == 0x100000000,
        decreases k - i,
    {
        proof {
            lemma_pow2_unfold((i + 1) as nat);
            if i + 1 < 32 {
                vstd::arithmetic::power2::lemma_pow2_strictly_increases((i + 1) as nat, 32);
            }
        }
        p = p * 2;
        i = i + 1;
    }
    p
}

/// Whether `level_coord_fits(v, rings)` holds.
fn level_coord_fits_exec(v: u32, rings: u8) -> (b: bool)
    ensures
        b == level_coord_fits(v as int, rings as nat),
{
    let ghost q = v as int / pow2(rings as nat) as int;
    proof {
        lemma_pow2_pos(rings as nat);
        vstd::arithmetic::div_mod::lemma_div_pos_is_pos(v as int, pow2(rings as nat) as int);
        vstd::arithmetic::power2::lemma2_to64();
        assert(pow2((rings - 0) as nat) == pow2(rings as nat));
    }
    if rings > 32 {
        proof {
            if rings > 33 {
                vstd::arithmetic::power2::lemma_pow2_strictly_increases(33, rings as nat);
            }
            assert(pow2(33) == 2 * pow2(32)) by {
                lemma_pow2_unfold(33);
            }
            assert(pow2(rings as nat) * (q + 1) >= pow2(rings as nat)) by (nonlinear_arith)
                requires
                    q >= 0,
                    pow2(rings as nat) >= 0,
            ;
        }
        return false;
    }
    let p = pow2_u64(rings);
    let q_exec = crate::tile::shift_down(v as u64, rings as u32);
    proof {
        vstd::arithmetic::div_mod::lemma_fundamental_div_mod(v as int, p as int);
        vstd::arithmetic::div_mod::lemma_mod_bound(v as int, p as int);
        let m = v as int % p as int;
        assert(p * (q + 1) == v - m + p) by (nonlinear_arith)
            requires
                v == p * q + m,
        ;
    }
    let value = p * (q_exec + 1);
    value <= u32::MAX as u64 + 2
}

impl Clipmap {
    /// Whether a clipmap with `rings` rings may be built around a viewer at `pos`
    /// with the center patch at `zoom`.
    pub fn can_build(pos: WorldPos, zoom: u32, rings: u8) -> (b: bool)
        ensures
            b == (world_pos_fits(pos, zoom) && clipmap_ok(world_to_tile_spec(pos, zoom), rings)),
    {
        if !crate::tile::world_pos_fits_exec(pos, zoom) || rings < 1 {
            return false;
        }
        let start = world_to_tile_idx(pos, zoom);
        if !(level_coord_fits_exec(start.x, rings) && level_coord_fits_exec(start.y, rings)
            && level_coord_fits_exec(start.z, rings)) {
            return false;
        }
        let qx = crate::tile::shift_down(start.x as u64, rings as u32);
        let qy = crate::tile::shift_down(start.y as u64, rings as u32);
        if qx < 1 || qy < 1 || (start.z as u64) < rings as u64 + 1 {
            return false;
        }
        let x = start_coord(start.x, rings);
        let y = start_coord(start.y, rings);
        x as u64 + 3 <= u32::MAX as u64 && y as u64 + 3 <= u32::MAX as u64
    }

    /// Whether `find_starting_tile(pos, zoom, rings)` may be called.
    pub fn can_find_starting_tile(pos: WorldPos, zoom: u32, rings: u8) -> (b: bool)
        ensures
            b == (world_pos_fits(pos, zoom) && starting_tile_ok(world_to_tile_spec(pos, zoom), rings)),
    {
        if !crate::tile::world_pos_fits_exec(pos, zoom) || rings < 1 {
            return false;
        }
        let start = world_to_tile_idx(pos, zoom);
        level_coord_fits_exec(start.x, rings) && level_coord_fits_exec(start.y, rings)
            && level_coord_fits_exec(start.z, rings)
    }

    /// The tile at which the center patch starts, for a viewer at `pos`.
    ///
    /// The top-left tile of the center (and of each ring) is the top-left
    /// sub-tile of a tile one zoom level lower, so every level nests exactly
    /// inside the ring that encloses it.
    pub fn find_starting_tile(pos: WorldPos, zoom: u32, rings: u8) -> (t: Tile)
        requires
            world_pos_fits(pos, zoom),
            starting_tile_ok(world_to_tile_spec(pos, zoom), rings),
        ensures
            t == level_tile(world_to_tile_spec(pos, zoom), rings as nat, 0),
    {
        let start = world_to_tile_idx(pos, zoom);
        let x = start_coord(start.x, rings);
        let y = start_coord(start.y, rings);
        Tile { x, y, z: start.z }
    }

    /// The ring of twelve tiles one zoom level lower that
    /// surrounds the 4x4 patch whose top-left tile is `top_left_inner`.
    pub fn make_ring(top_left_inner: Tile) -> (ring: [Tile; 12])
        requires
            ring_fits(top_left_inner),
        ensures
            ring@ == ring_spec(top_left_inner),
    {
        let x = top_left_inner.x / 2 - 1;
        let y = top_left_inner.y / 2 - 1;
        let z = top_left_inner.z - 1;
        let ring = [
            Tile { x: x, y: y, z },
            Tile { x: x + 1, y: y, z },
            Tile { x: x + 2, y: y, z },
            Tile { x: x + 3, y: y, z },
            Tile { x: x + 3, y: y + 1, z },
            Tile { x: x + 3, y: y + 2, z },
            Tile { x: x + 3, y: y + 3, z },
            Tile { x: x + 2, y: y + 3, z },
            Tile { x: x + 1, y: y + 3, z },
            Tile { x: x, y: y + 3, z },
            Tile { x: x, y: y + 2, z },
            Tile { x: x, y: y + 1, z },
        ];
        assert(ring@ =~= ring_spec(top_left_inner));
        ring
    }

    /// The clipmap with `rings` rings around a viewer at `pos`, with the center
    /// patch at `zoom`.
    pub fn new(pos: WorldPos, zoom: u32, rings: u8) -> (cm: Clipmap)
        requires
            world_pos_fits(pos, zoom),
            clipmap_ok(world_to_tile_spec(pos, zoom), rings),
        ensures
            clipmap_matches(cm, world_to_tile_spec(pos, zoom), rings as nat),
    {
        let ghost start = world_to_tile_spec(pos, zoom);
        let mut top_left_tile = Self::find_starting_tile(pos, zoom, rings);
        let center = Self::make_center(top_left_tile);
        let mut rings_vec: Vec<[Tile; 12]> = Vec::new();
        let mut r: u8 = 0;
        while r < rings
            invariant
                clipmap_ok(start, rings),
                r <= rings,
                top_left_tile == level_tile(start, rings as nat, r as nat),
                rings_vec@.len() == r,
                forall|k: int| 0 <= k < r ==> #[trigger] rings_vec@[k]@ == ring_spec(level_tile(start, rings as nat, k as nat)),
            decreases rings - r,
        {
            proof {
                lemma_level_step(start.x as int, rings as nat, r as nat);
                lemma_level_step(start.y as int, rings as nat, r as nat);
            }
            rings_vec.push(Self::make_ring(top_left_tile));
            top_left_tile = Tile { x: top_left_tile.x / 2 - 1, y: top_left_tile.y / 2 - 1, z: top_left_tile.z - 1 };
            r = r + 1;
        }
        Clipmap { center, rings: rings_vec }
    }

    /// Rebuilds the clipmap, with as many rings as before, around a viewer at `pos`.
    pub fn rebuild(&mut self, pos: WorldPos, zoom: u32)
        requires
            old(self).rings@.len() <= u8::MAX,
            world_pos_fits(pos, zoom),
            clipmap_ok(world_to_tile_spec(pos, zoom), old(self).rings@.len() as u8),
        ensures
            clipmap_matches(*final(self), world_to_tile_spec(pos, zoom), old(self).rings@.len()),
    {
        let rings = self.rings.len();
        let new = Clipmap::new(pos, zoom, rings as u8);
        *self = new;
    }

    /// Where the `idx`-th tile of a ring is drawn: its offset, in ring tiles, from
    /// the top-left corner of the patch the ring encloses.
    pub fn map_ring_offset(idx: usize) -> (offset: (i32, i32))
        requires
            idx < 12,
        ensures
            offset.0 == ring_offset_spec(idx as int).0,
            offset.1 == ring_offset_spec(idx as int).1,
    {
        match idx {
            0 => (-1, -1),
            1 => (0, -1),
            2 => (1, -1),
            3 => (2, -1),
            4 => (2, 0),
            5 => (2, 1),
            6 => (2, 2),
            7 => (1, 2),
            8 => (0, 2),
            9 => (-1, 2),
            10 => (-1, 1),
            _ => (-1, 0),
        }
    }

    /// The 4x4 center patch whose top-left tile is `top_left`.
    pub fn make_center(top_left: Tile) -> (center: [[Tile; 4]; 4])
        requires
            center_fits(top_left),
        ensures
            forall|row: int, col: int|
                0 <= row < 4 && 0 <= col < 4 ==> #[trigger] center@[row]@[col] == center_spec(top_left)[row][col],
    {
        let x = top_left.x;
        let y = top_left.y;
        let z = top_left.z;
        let center = [
            [Tile { x, y, z }, Tile { x: x + 1, y, z }, Tile { x: x + 2, y, z }, Tile { x: x + 3, y, z }],
            [Tile { x, y: y + 1, z }, Tile { x: x + 1, y: y + 1, z }, Tile { x: x + 2, y: y + 1, z }, Tile { x: x + 3, y: y + 1, z }],
            [Tile { x, y: y + 2, z }, Tile { x: x + 1, y: y + 2, z }, Tile { x: x + 2, y: y + 2, z }, Tile { x: x + 3, y: y + 2, z }],
            [Tile { x, y: y + 3, z }, Tile { x: x + 1, y: y + 3, z }, Tile { x: x + 2, y: y + 3, z }, Tile { x: x + 3, y: y + 3, z }],
        ];
        center
    }
}

} // verus!

verus! {

/// A ring surrounds the patch it is built around: its twelve tiles are distinct and
/// are exactly the tiles of its 4x4 square outside the central 2x2 hole, and the
/// tiles one zoom level lower that contain the patch's tiles are exactly that hole.
pub proof fn lemma_ring_encloses_patch(inner: Tile)
    requires
        ring_fits(inner),
        center_fits(inner),
        inner.x % 2 == 0,
        inner.y % 2 == 0,
    ensures
        forall|i: int, j: int|
            0 <= i < 12 && 0 <= j < 12 && i != j ==> ring_spec(inner)[i] != ring_spec(inner)[j],
        forall|t: Tile|
            ring_spec(inner).contains(t) <==> (in_square(ring_top_left(inner), 4, t) && !in_square(
                shifted(ring_top_left(inner), 1, 1),
                2,
                t,
            )),
        forall|row: int, col: int|
            0 <= row < 4 && 0 <= col < 4 ==> in_square(
                shifted(ring_top_left(inner), 1, 1),
                2,
                #[trigger] parent(center_spec(inner)[row][col]),
            ),
        forall|t: Tile|
            #[trigger] in_square(shifted(ring_top_left(inner), 1, 1), 2, t) ==> exists|row: int, col: int|
                0 <= row < 4 && 0 <= col < 4 && parent(center_spec(inner)[row][col]) == t,
{
    let r = ring_top_left(inner);
    let ring = ring_spec(inner);
    assert forall|t: Tile|
        ring.contains(t) implies (in_square(r, 4, t) && !in_square(shifted(r, 1, 1), 2, t)) by {
        let i = choose|i: int| 0 <= i < ring.len() && ring[i] == t;
        assert(ring[i] == t);
    }
    assert forall|t: Tile|
        (in_square(r, 4, t) && !in_square(shifted(r, 1, 1), 2, t)) implies ring.contains(t) by {
        let dx = t.x - r.x;
        let dy = t.y - r.y;
        let i: int = if dy == 0 {
            dx
        } else if dx == 3 {
            3 + dy
        } else if dy == 3 {
            9 - dx
        } else {
            12 - dy
        };
        assert(0 <= i < 12);
        assert(ring[i] == t);
    }
    assert forall|row: int, col: int|
        0 <= row < 4 && 0 <= col < 4 implies in_square(
            shifted(r, 1, 1),
            2,
            #[trigger] parent(center_spec(inner)[row][col]),
        ) by {
        let c = center_spec(inner)[row][col];
        assert(c == shifted(inner, col, row));
    }
    assert forall|t: Tile| #[trigger] in_square(shifted(r, 1, 1), 2, t) implies exists|row: int, col: int|
        0 <= row < 4 && 0 <= col < 4 && parent(center_spec(inner)[row][col]) == t by {
        let col = 2 * (t.x - r.x - 1);
        let row = 2 * (t.y - r.y - 1);
        assert(parent(center_spec(inner)[row][col]) == t);
    }
}

/// A ring tile is drawn where it lies: the top-left corner of the `i`-th ring tile is
/// the top-left corner of the enclosed patch moved by `map_ring_offset(i)` ring tiles.
pub proof fn lemma_ring_tile_placement(inner: Tile, i: int)
    requires
        ring_fits(inner),
        inner.x % 2 == 0,
        inner.y % 2 == 0,
        inner.z <= MAX_ZOOM_TERRAIN,
        0 <= i < 12,
    ensures
        ring_spec(inner)[i].x * tile_units(ring_spec(inner)[i].z) == inner.x * tile_units(inner.z)
            + ring_offset_spec(i).0 * tile_units((inner.z - 1) as u32),
        ring_spec(inner)[i].y * tile_units(ring_spec(inner)[i].z) == inner.y * tile_units(inner.z)
            + ring_offset_spec(i).1 * tile_units((inner.z - 1) as u32),
{
    let u = tile_units(inner.z);
    let w = tile_units((inner.z - 1) as u32);
    lemma_pow2_unfold((MAX_ZOOM_TERRAIN - (inner.z - 1)) as nat);
    assert(w == 2 * u);
    let t = ring_spec(inner)[i];
    let (cx, cy) = ring_cell(i);
    assert(t.x == inner.x / 2 - 1 + cx);
    assert(t.y == inner.y / 2 - 1 + cy);
    assert((inner.x / 2 - 1 + cx) * (2 * u) == inner.x * u + (cx - 1) * (2 * u)) by (nonlinear_arith)
        requires
            inner.x % 2 == 0,
    ;
    assert((inner.y / 2 - 1 + cy) * (2 * u) == inner.y * u + (cy - 1) * (2 * u)) by (nonlinear_arith)
        requires
            inner.y % 2 == 0,
    ;
}

/// The levels of a clipmap nest: every level starts on even tiles (so its tiles fill
/// the hole of the ring around it exactly), the square of ring `k` is level `k + 1`,
/// and the viewer's tile `start` lies inside the square of the outermost ring.
pub proof fn lemma_clipmap_levels_nest(start: Tile, rings: u8)
    requires
        clipmap_ok(start, rings),
    ensures
        forall|k: nat|
            k < rings ==> {
                let inner = #[trigger] level_tile(start, rings as nat, k);
                &&& inner.x % 2 == 0
                &&& inner.y % 2 == 0
                &&& ring_fits(inner)
                &&& center_fits(inner)
                &&& ring_top_left(inner) == level_tile(start, rings as nat, k + 1)
            },
        ({
            let outer = level_tile(start, rings as nat, rings as nat);
            &&& outer.x * pow2(rings as nat) <= start.x < (outer.x + 4) * pow2(rings as nat)
            &&& outer.y * pow2(rings as nat) <= start.y < (outer.y + 4) * pow2(rings as nat)
        }),
{
    let r = rings as nat;
    assert forall|k: nat| k < rings implies {
        let inner = #[trigger] level_tile(start, r, k);
        &&& inner.x % 2 == 0
        &&& inner.y % 2 == 0
        &&& ring_fits(inner)
        &&& center_fits(inner)
        &&& ring_top_left(inner) == level_tile(start, r, k + 1)
    } by {
        lemma_level_step(start.x as int, r, k);
        lemma_level_step(start.y as int, r, k);
        lemma_level_step(start.x as int, r, 0);
        lemma_level_step(start.y as int, r, 0);
        if k + 1 < r {
            lemma_level_step(start.x as int, r, k + 1);
            lemma_level_step(start.y as int, r, k + 1);
        }
    }
    let p = pow2(r);
    lemma_pow2_pos(r);
    assert(pow2(0) == 1) by {
        vstd::arithmetic::power2::lemma2_to64();
    }
    let qx = start.x as int / p as int;
    let qy = start.y as int / p as int;
    assert(pow2((r - r) as nat) == 1);
    assert(level_coord(start.x as int, r, r) == qx - 1);
    assert(level_coord(start.y as int, r, r) == qy - 1);
    vstd::arithmetic::div_mod::lemma_fundamental_div_mod(start.x as int, p as int);
    vstd::arithmetic::div_mod::lemma_fundamental_div_mod(start.y as int, p as int);
    vstd::arithmetic::div_mod::lemma_mod_bound(start.x as int, p as int);
    vstd::arithmetic::div_mod::lemma_mod_bound(start.y as int, p as int);
    let mx = start.x as int % p as int;
    let my = start.y as int % p as int;
    assert((qx - 1) * p <= start.x < (qx - 1 + 4) * p) by (nonlinear_arith)
        requires
            start.x == p * qx + mx,
            0 <= mx < p,
    ;
    assert((qy - 1) * p <= start.y < (qy - 1 + 4) * p) by (nonlinear_arith)
        requires
            start.y == p * qy + my,
            0 <= my < p,
    ;
}

/// How a clipmap is built: the center patch starts at the starting tile, ring 0
/// surrounds the center patch, each further ring surrounds the patch that starts
/// at the previous ring's first tile, and ring `r` lies `r + 1` zoom levels below
/// the center patch.
pub proof fn lemma_clipmap_construction(cm: Clipmap, start: Tile, rings: u8)
    requires
        clipmap_ok(start, rings),
        clipmap_matches(cm, start, rings as nat),
    ensures
        cm.center@[0]@[0] == level_tile(start, rings as nat, 0),
        forall|row: int, col: int|
            0 <= row < 4 && 0 <= col < 4 ==> #[trigger] cm.center@[row]@[col] == center_spec(cm.center@[0]@[0])[row][col],
        cm.rings@.len() == rings,
        cm.rings@[0]@ == ring_spec(cm.center@[0]@[0]),
        forall|r: int| 1 <= r < rings ==> #[trigger] cm.rings@[r]@ == ring_spec(cm.rings@[r - 1]@[0]),
        forall|r: int| 0 <= r < rings ==> #[trigger] cm.rings@[r]@[0].z == cm.center@[0]@[0].z - 1 - r,
{
    let n = rings as nat;
    let c = level_tile(start, n, 0);
    lemma_clipmap_levels_nest(start, rings);
    assert(cm.center@[0]@[0] == center_spec(c)[0][0]);
    assert(center_spec(c)[0][0] == c);
    assert(cm.rings@[0]@ == ring_spec(level_tile(start, n, 0)));
    assert forall|r: int| 1 <= r < rings implies #[trigger] cm.rings@[r]@ == ring_spec(cm.rings@[r - 1]@[0]) by {
        let k = (r - 1) as nat;
        let inner = level_tile(start, n, k);
        assert(cm.rings@[r - 1]@ == ring_spec(inner));
        assert(ring_spec(inner)[0] == ring_top_left(inner));
        assert(ring_top_left(inner) == level_tile(start, n, k + 1));
        assert(k + 1 == r as nat);
        assert(cm.rings@[r]@ == ring_spec(level_tile(start, n, r as nat)));
    }
    assert forall|r: int| 0 <= r < rings implies #[trigger] cm.rings@[r]@[0].z == cm.center@[0]@[0].z - 1 - r by {
        let inner = level_tile(start, n, r as nat);
        assert(cm.rings@[r]@ == ring_spec(inner));
        assert(ring_spec(inner)[0] == ring_top_left(inner));
        assert(ring_fits(inner));
    }
}

/// The corners of a clipmap's levels chain: each ring's 2x2 hole starts at the
/// parent of the first tile of the level it encloses (twice the ring's first tile
/// plus one), and the outermost ring starts one tile up and left of the parent,
/// `rings` zoom levels down, of the viewer's tile `start`.
pub proof fn lemma_clipmap_ring_corners(cm: Clipmap, start: Tile, rings: u8)
    requires
        clipmap_ok(start, rings),
        clipmap_matches(cm, start, rings as nat),
    ensures
        2 * (cm.rings@[0]@[0].x + 1) == cm.center@[0]@[0].x,
        2 * (cm.rings@[0]@[0].y + 1) == cm.center@[0]@[0].y,
        forall|r: int| 1 <= r < rings ==> 2 * (#[trigger] cm.rings@[r]@[0].x + 1) == cm.rings@[r - 1]@[0].x,
        forall|r: int| 1 <= r < rings ==> 2 * (#[trigger] cm.rings@[r]@[0].y + 1) == cm.rings@[r - 1]@[0].y,
        cm.rings@[rings - 1]@[0].x == start.x as int / pow2(rings as nat) as int - 1,
        cm.rings@[rings - 1]@[0].y == start.y as int / pow2(rings as nat) as int - 1,
{
    let n = rings as nat;
    lemma_clipmap_construction(cm, start, rings);
    lemma_clipmap_levels_nest(start, rings);
    assert forall|k: nat| k < rings implies ({
        &&& #[trigger] cm.rings@[k as int]@[0] == level_tile(start, n, k + 1)
        &&& 2 * (level_tile(start, n, k + 1).x + 1) == level_tile(start, n, k).x
        &&& 2 * (level_tile(start, n, k + 1).y + 1) == level_tile(start, n, k).y
    }) by {
        let inner = level_tile(start, n, k);
        assert(cm.rings@[k as int]@ == ring_spec(inner));
        assert(ring_spec(inner)[0] == ring_top_left(inner));
        assert(inner.x % 2 == 0 && inner.y % 2 == 0 && ring_fits(inner));
    }
    assert(cm.rings@[0]@[0] == level_tile(start, n, 1));
    assert forall|r: int| 1 <= r < rings implies 2 * (#[trigger] cm.rings@[r]@[0].x + 1) == cm.rings@[r - 1]@[0].x
        && 2 * (cm.rings@[r]@[0].y + 1) == cm.rings@[r - 1]@[0].y by {
        assert(cm.rings@[r]@[0] == level_tile(start, n, (r + 1) as nat));
        assert(cm.rings@[(r - 1) as nat as int]@[0] == level_tile(start, n, r as nat));
    }
    assert(cm.rings@[(rings - 1) as nat as int]@[0] == level_tile(start, n, n));
    lemma_pow2_pos(n);
    vstd::arithmetic::div_mod::lemma_div_pos_is_pos(start.x as int, pow2(n) as int);
    vstd::arithmetic::div_mod::lemma_div_pos_is_pos(start.y as int, pow2(n) as int);
    assert(pow2((n - n) as nat) == 1) by {
        vstd::arithmetic::power2::lemma2_to64();
    }
}

} // verus!
