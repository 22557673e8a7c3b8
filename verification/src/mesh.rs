//! Which corners make up the triangles of terrain patches, walls and roofs. The
//! coordinates of the corners are computed by the renderer; these functions fix
//! the order in which corners are emitted.
use vstd::prelude::*;

verus! {

/// A corner of a strip of quads between two rings of points: point `point` of the
/// lower ring (`upper == false`) or of the upper ring.
#[derive(Clone, Copy, Debug, PartialEq, Eq, Structural)]
pub struct StripCorner {
    pub point: usize,
    pub upper: bool,
}

/// The `k`-th corner of a quad strip: quad `k / 6` joins points `i` and `i + 1`
/// of both rings as the triangles (lower i, lower i+1, upper i+1) and
/// (lower i, upper i+1, upper i).
pub open spec fn strip_corner(k: int) -> StripCorner {
    let i = k / 6;
    let c = k % 6;
    if c == 0 {
        StripCorner { point: i as usize, upper: false }
    } else if c == 1 {
        StripCorner { point: (i + 1) as usize, upper: false }
    } else if c == 2 {
        StripCorner { point: (i + 1) as usize, upper: true }
    } else if c == 3 {
        StripCorner { point: i as usize, upper: false }
    } else if c == 4 {
        StripCorner { point: (i + 1) as usize, upper: true }
    } else {
        StripCorner { point: i as usize, upper: true }
    }
}

/// The corners of a quad strip along a ring of `n` points (none when `n < 2`).
pub open spec fn quad_strip_spec(n: nat) -> Seq<StripCorner> {
    if n < 2 {
        Seq::empty()
    } else {
        Seq::new((6 * (n - 1)) as nat, |k: int| strip_corner(k))
    }
}

/// The corners of the triangles of a quad strip along a ring of `n_points`
/// points: building walls (lower ring at the base, upper ring at the eaves) and
/// the bands of a dome are drawn this way.
pub fn quad_strip(n_points: usize) -> (corners: Vec<StripCorner>)
    ensures
        corners@ == quad_strip_spec(n_points as nat),
{
    let mut corners: Vec<StripCorner> = Vec::new();
    if n_points < 2 {
        return corners;
    }
    let mut i: usize = 0;
    while i < n_points - 1
        invariant
            2 <= n_points,
            i <= n_points - 1,
            corners@ == Seq::new((6 * i) as nat, |k: int| strip_corner(k)),
        decreases n_points - 1 - i,
    {
        corners.push(StripCorner { point: i, upper: false });
        corners.push(StripCorner { point: i + 1, upper: false });
        corners.push(StripCorner { point: i + 1, upper: true });
        corners.push(StripCorner { point: i, upper: false });
        corners.push(StripCorner { point: i + 1, upper: true });
        corners.push(StripCorner { point: i, upper: true });
        proof {
            assert((6 * i + 0) / 6 == i && (6 * i + 0) % 6 == 0);
            assert((6 * i + 1) / 6 == i && (6 * i + 1) % 6 == 1);
            assert((6 * i + 2) / 6 == i && (6 * i + 2) % 6 == 2);
            assert((6 * i + 3) / 6 == i && (6 * i + 3) % 6 == 3);
            assert((6 * i + 4) / 6 == i && (6 * i + 4) % 6 == 4);
            assert((6 * i + 5) / 6 == i && (6 * i + 5) % 6 == 5);
        }
        i = i + 1;
        assert(corners@ =~= Seq::new((6 * i) as nat, |k: int| strip_corner(k)));
    }
    corners
}

/// The `k`-th corner of a fan from a ring to a peak: point `k / 3` and point
/// `k / 3 + 1` of the ring, then the peak (`None`).
pub open spec fn fan_corner(k: int) -> Option<usize> {
    if k % 3 == 0 {
        Some((k / 3) as usize)
    } else if k % 3 == 1 {
        Some((k / 3 + 1) as usize)
    } else {
        None
    }
}

/// The corners of the triangles of a pyramidal roof over a ring of `n_points`
/// points (the ring repeats its first point at the end): each edge of the ring
/// with the peak.
pub fn pyramid_fan(n_points: usize) -> (corners: Vec<Option<usize>>)
    requires
        n_points >= 1,
    ensures
        corners@ == Seq::new((3 * (n_points - 1)) as nat, |k: int| fan_corner(k)),
{
    let mut corners: Vec<Option<usize>> = Vec::new();
    let mut i: usize = 0;
    while i < n_points - 1
        invariant
            1 <= n_points,
            i <= n_points - 1,
            corners@ == Seq::new((3 * i) as nat, |k: int| fan_corner(k)),
        decreases n_points - 1 - i,
    {
        corners.push(Some(i));
        corners.push(Some(i + 1));
        corners.push(None);
        proof {
            assert((3 * i + 0) / 3 == i && (3 * i + 0) % 3 == 0);
            assert((3 * i + 1) / 3 == i && (3 * i + 1) % 3 == 1);
            assert((3 * i + 2) / 3 == i && (3 * i + 2) % 3 == 2);
        }
        i = i + 1;
        assert(corners@ =~= Seq::new((3 * i) as nat, |k: int| fan_corner(k)));
    }
    corners
}

/// A corner of a terrain patch: the patch in column `x`, row `z` of the grid,
/// and whether the corner is on its right and on its lower side.
#[derive(Clone, Copy, Debug, PartialEq, Eq, Structural)]
pub struct PatchCorner {
    pub x: u32,
    pub z: u32,
    pub right: bool,
    pub down: bool,
}

/// The `k`-th corner of the patch grid: patch `k / 4`, row by row, each patch
/// with its corners top-left, top-right, bottom-right, bottom-left.
pub open spec fn patch_corner(n: nat, k: int) -> PatchCorner {
    let p = k / 4;
    let c = k % 4;
    PatchCorner {
        x: (p % n as int) as u32,
        z: (p / n as int) as u32,
        right: c == 1 || c == 2,
        down: c == 2 || c == 3,
    }
}

/// The corners of an `subdivisions` x `subdivisions` grid of quad patches
/// covering the unit square, four per patch, patches row by row.
pub fn generate_patch_grid(subdivisions: u32) -> (corners: Vec<PatchCorner>)
    ensures
        corners@ == Seq::new((4 * subdivisions * subdivisions) as nat, |k: int| patch_corner(subdivisions as nat, k)),
{
    let n = subdivisions;
    let mut corners: Vec<PatchCorner> = Vec::new();
    let mut z: u32 = 0;
    while z < n
        invariant
            z <= n,
            corners@ == Seq::new((4 * n * z) as nat, |k: int| patch_corner(n as nat, k)),
        decreases n - z,
    {
        let mut x: u32 = 0;
        assert(4 * n * z == 4 * (n * z + x)) by (nonlinear_arith)
            requires
                x == 0,
        ;
        while x < n
            invariant
                z < n,
                x <= n,
                corners@ == Seq::new((4 * (n * z + x)) as nat, |k: int| patch_corner(n as nat, k)),
            decreases n - x,
        {
            corners.push(PatchCorner { x, z, right: false, down: false });
            corners.push(PatchCorner { x, z, right: true, down: false });
            corners.push(PatchCorner { x, z, right: true, down: true });
            corners.push(PatchCorner { x, z, right: false, down: true });
            proof {
                let p = n * z + x;
                assert(p % (n as int) == x && p / (n as int) == z) by (nonlinear_arith)
                    requires
                        p == n * z + x,
                        x < n,
                ;
                assert((4 * p + 0) / 4 == p && (4 * p + 0) % 4 == 0);
                assert((4 * p + 1) / 4 == p && (4 * p + 1) % 4 == 1);
                assert((4 * p + 2) / 4 == p && (4 * p + 2) % 4 == 2);
                assert((4 * p + 3) / 4 == p && (4 * p + 3) % 4 == 3);
            }
            x = x + 1;
            assert(corners@ =~= Seq::new((4 * (n * z + x)) as nat, |k: int| patch_corner(n as nat, k)));
        }
        assert(4 * (n * z + n) == 4 * n * (z + 1)) by (nonlinear_arith);
        z = z + 1;
    }
    corners
}

/// Where the building triangulation switches from the eaves to the ridges: the
/// vertices of the outer ring and of the courtyard holes come first, then the
/// ridge holes.
pub fn loft_split_index(exterior_len: usize, courtyard_lens: &Vec<usize>) -> (split: usize)
    requires
        exterior_len + courtyard_lens@.fold_left(0int, |acc: int, l: usize| acc + l) <= usize::MAX,
    ensures
        split == exterior_len + courtyard_lens@.fold_left(0int, |acc: int, l: usize| acc + l),
{
    let mut offset = exterior_len;
    let mut i: usize = 0;
    while i < courtyard_lens.len()
        invariant
            i <= courtyard_lens@.len(),
            offset == exterior_len + courtyard_lens@.take(i as int).fold_left(0int, |acc: int, l: usize| acc + l),
            exterior_len + courtyard_lens@.fold_left(0int, |acc: int, l: usize| acc + l) <= usize::MAX,
        decreases courtyard_lens@.len() - i,
    {
        proof {
            let f = |acc: int, l: usize| acc + l;
            let t1 = courtyard_lens@.take(i + 1);
            assert(t1.drop_last() =~= courtyard_lens@.take(i as int));
            lemma_fold_sum_monotone(courtyard_lens@, (i + 1) as int);
        }
        offset = offset + courtyard_lens[i];
        i = i + 1;
    }
    assert(courtyard_lens@.take(courtyard_lens@.len() as int) =~= courtyard_lens@);
    offset
}

/// Partial sums of lengths do not exceed the whole sum.
proof fn lemma_fold_sum_monotone(s: Seq<usize>, j: int)
    requires
        0 <= j <= s.len(),
    ensures
        s.take(j).fold_left(0int, |acc: int, l: usize| acc + l) <= s.fold_left(0int, |acc: int, l: usize| acc + l),
        s.take(j).fold_left(0int, |acc: int, l: usize| acc + l) >= 0,
    decreases s.len(),
{
    let f = |acc: int, l: usize| acc + l;
    if s.len() == 0 {
        assert(s.take(j) =~= s);
    } else if j == s.len() {
        assert(s.take(j) =~= s);
        lemma_fold_sum_nonneg(s);
    } else {
        lemma_fold_sum_monotone(s.drop_last(), j);
        assert(s.drop_last().take(j) =~= s.take(j));
    }
}

/// A sum of lengths is not negative.
proof fn lemma_fold_sum_nonneg(s: Seq<usize>)
    ensures
        s.fold_left(0int, |acc: int, l: usize| acc + l) >= 0,
    decreases s.len(),
{
    if s.len() > 0 {
        lemma_fold_sum_nonneg(s.drop_last());
    }
}

} // verus!
