//! The coordinate spaces of the engine and the maps between them.
//!
//! * World coordinates are global pixel coordinates; the vertical axis grows
//!   upward.
//! * Chunk coordinates name a chunk of the grid; the chunk at row 0, column 0
//!   of the grid is the origin chunk.
//! * Local coordinates are pixel offsets from the top-left pixel of the origin
//!   chunk; the vertical axis grows downward. They are negative left of and
//!   above the origin chunk.
//! * Inner coordinates are pixel offsets inside one chunk.
//! * Screen coordinates are pixel offsets inside the output buffer, from its
//!   top-left corner.

use vstd::prelude::*;
use vstd::arithmetic::div_mod::*;

verus! {

/// Local coordinates of a world coordinate.
pub open spec fn spec_world_to_local(
    world: (int, int),
    origin_chunk: (int, int),
    chunk_dim: (int, int),
) -> (int, int) {
    (world.0 - origin_chunk.0 * chunk_dim.0, origin_chunk.1 * chunk_dim.1 - world.1)
}

/// World coordinates of a local coordinate.
pub open spec fn spec_local_to_world(
    local: (int, int),
    origin_chunk: (int, int),
    chunk_dim: (int, int),
) -> (int, int) {
    (local.0 + origin_chunk.0 * chunk_dim.0, origin_chunk.1 * chunk_dim.1 - local.1)
}

/// Index of the chunk that holds a local coordinate along one axis: the
/// quotient rounded toward negative infinity.
pub open spec fn spec_chunk_index(local: int, dim: int) -> int {
    local / dim
}

/// Offset of a local coordinate inside its chunk along one axis.
pub open spec fn spec_inner_index(local: int, dim: int) -> int {
    local % dim
}

/// Screen coordinates of a world coordinate for a camera at the centre of the
/// screen.
pub open spec fn spec_world_to_screen(
    target: (int, int),
    camera: (int, int),
    screen_dim: (int, int),
) -> (int, int) {
    (screen_dim.0 / 2 - (camera.0 - target.0), screen_dim.1 / 2 - (target.1 - camera.1))
}

/// World coordinates shown by a screen pixel for a camera at the centre of
/// the screen.
pub open spec fn spec_screen_to_world(
    pixel: (int, int),
    camera: (int, int),
    screen_dim: (int, int),
) -> (int, int) {
    (camera.0 - screen_dim.0 / 2 + pixel.0, camera.1 + screen_dim.1 / 2 - pixel.1)
}

/// Quotient rounded toward zero, for a positive divisor.
pub open spec fn spec_trunc_div(a: int, b: int) -> int {
    if a >= 0 {
        a / b
    } else {
        -((-a) / b)
    }
}

/// A value limited to the range of `isize`.
pub open spec fn spec_clamp_isize(v: int) -> int {
    if v < isize::MIN {
        isize::MIN as int
    } else if v > isize::MAX {
        isize::MAX as int
    } else {
        v
    }
}

/// Mapping a world coordinate to local coordinates and back gives the world
/// coordinate again.
pub proof fn lemma_world_local_round_trip(
    world: (int, int),
    origin_chunk: (int, int),
    chunk_dim: (int, int),
)
    ensures
        spec_local_to_world(
            spec_world_to_local(world, origin_chunk, chunk_dim),
            origin_chunk,
            chunk_dim,
        ) == world,
{
}

/// Mapping a local coordinate to world coordinates and back gives the local
/// coordinate again.
pub proof fn lemma_local_world_round_trip(
    local: (int, int),
    origin_chunk: (int, int),
    chunk_dim: (int, int),
)
    ensures
        spec_world_to_local(
            spec_local_to_world(local, origin_chunk, chunk_dim),
            origin_chunk,
            chunk_dim,
        ) == local,
{
}

/// The chunk index and the inner offset of a local coordinate put it back
/// together, and the inner offset lies inside the chunk.
pub proof fn lemma_chunk_and_inner(local: int, dim: int)
    requires
        dim > 0,
    ensures
        spec_chunk_index(local, dim) * dim + spec_inner_index(local, dim) == local,
        0 <= spec_inner_index(local, dim) < dim,
        local >= 0 ==> spec_chunk_index(local, dim) >= 0,
        local < 0 ==> spec_chunk_index(local, dim) < 0,
{
    lemma_fundamental_div_mod(local, dim);
    lemma_mod_bound(local, dim);
    let q = local / dim;
    assert(dim * q == q * dim) by (nonlinear_arith);
    assert(q >= 0 ==> dim * q >= 0) by (nonlinear_arith)
        requires
            dim > 0,
    ;
    assert(q <= -1 ==> dim * q <= -dim) by (nonlinear_arith)
        requires
            dim > 0,
    ;
}

/// A screen pixel shows the world coordinate that maps to that pixel.
pub proof fn lemma_screen_world_round_trip(
    pixel: (int, int),
    camera: (int, int),
    screen_dim: (int, int),
)
    ensures
        spec_world_to_screen(spec_screen_to_world(pixel, camera, screen_dim), camera, screen_dim)
            == pixel,
{
}

/// The product of a signed and an unsigned machine word, which always fits.
pub fn wide_product(a: isize, b: usize) -> (p: i128)
    ensures
        p == a * b,
{
    assert(isize::MIN >= -0x8000_0000_0000_0000 && isize::MAX <= 0x7fff_ffff_ffff_ffff);
    assert(usize::MAX <= 0xffff_ffff_ffff_ffff);
    assert(-0x7fff_ffff_ffff_ffff_8000_0000_0000_0000 <= a * b
        <= 0x7fff_ffff_ffff_ffff_8000_0000_0000_0000) by (nonlinear_arith)
        requires
            -0x8000_0000_0000_0000 <= a <= 0x7fff_ffff_ffff_ffff,
            0 <= b <= 0xffff_ffff_ffff_ffff,
    ;
    (a as i128) * (b as i128)
}

/// Quotient rounded toward zero, for a positive divisor.
pub fn trunc_div(a: i128, b: i128) -> (q: i128)
    requires
        b > 0,
        a > i128::MIN,
    ensures
        q == spec_trunc_div(a as int, b as int),
        a >= 0 ==> 0 <= q <= a,
        a <= 0 ==> a <= q <= 0,
{
    if a >= 0 {
        proof {
            lemma_div_pos_is_pos(a as int, b as int);
            lemma_div_is_ordered_by_denominator(a as int, 1, b as int);
            lemma_div_basics(a as int);
        }
        a / b
    } else {
        let m: i128 = -a;
        proof {
            lemma_div_pos_is_pos(m as int, b as int);
            lemma_div_is_ordered_by_denominator(m as int, 1, b as int);
            lemma_div_basics(m as int);
        }
        -(m / b)
    }
}

/// A value limited to the range of `isize`.
pub fn clamp_isize(v: i128) -> (c: isize)
    ensures
        c == spec_clamp_isize(v as int),
{
    if v < isize::MIN as i128 {
        isize::MIN
    } else if v > isize::MAX as i128 {
        isize::MAX
    } else {
        v as isize
    }
}

/// Local coordinates of a world coordinate, relative to the origin chunk.
///
/// The horizontal offset is counted from the left edge of the origin chunk,
/// the vertical offset downward from its top edge.
pub fn world_to_local(
    world_coords: (isize, isize),
    origin_chunk_coord: (isize, isize),
    chunk_dim: (usize, usize),
) -> (local: (isize, isize))
    requires
        isize::MIN <= world_coords.0 - origin_chunk_coord.0 * chunk_dim.0 <= isize::MAX,
        isize::MIN <= origin_chunk_coord.1 * chunk_dim.1 - world_coords.1 <= isize::MAX,
    ensures
        (local.0 as int, local.1 as int) == spec_world_to_local(
            (world_coords.0 as int, world_coords.1 as int),
            (origin_chunk_coord.0 as int, origin_chunk_coord.1 as int),
            (chunk_dim.0 as int, chunk_dim.1 as int),
        ),
{
    let left: i128 = wide_product(origin_chunk_coord.0, chunk_dim.0);
    let top: i128 = wide_product(origin_chunk_coord.1, chunk_dim.1);
    let lx: i128 = world_coords.0 as i128 - left;
    let ly: i128 = top - world_coords.1 as i128;
    (lx as isize, ly as isize)
}

/// World coordinates of a local coordinate, relative to the origin chunk.
pub fn local_to_world(
    local_coords: (isize, isize),
    origin_chunk_coord: (isize, isize),
    chunk_dim: (usize, usize),
) -> (world: (isize, isize))
    requires
        isize::MIN <= local_coords.0 + origin_chunk_coord.0 * chunk_dim.0 <= isize::MAX,
        isize::MIN <= origin_chunk_coord.1 * chunk_dim.1 - local_coords.1 <= isize::MAX,
    ensures
        (world.0 as int, world.1 as int) == spec_local_to_world(
            (local_coords.0 as int, local_coords.1 as int),
            (origin_chunk_coord.0 as int, origin_chunk_coord.1 as int),
            (chunk_dim.0 as int, chunk_dim.1 as int),
        ),
{
    let left: i128 = wide_product(origin_chunk_coord.0, chunk_dim.0);
    let top: i128 = wide_product(origin_chunk_coord.1, chunk_dim.1);
    let wx: i128 = local_coords.0 as i128 + left;
    let wy: i128 = top - local_coords.1 as i128;
    (wx as isize, wy as isize)
}

/// Quotient rounded toward negative infinity, and the remainder, which is
/// never negative, for a positive divisor.
pub fn floor_div_mod(a: i128, d: i128) -> (pair: (i128, i128))
    requires
        d > 0,
        a > i128::MIN,
    ensures
        pair.0 == a as int / d as int,
        pair.1 == a as int % d as int,
        0 <= pair.1 < d,
        a >= 0 ==> 0 <= pair.0 <= a,
        a < 0 ==> a <= pair.0 < 0,
{
    proof {
        lemma_chunk_and_inner(a as int, d as int);
    }
    if a >= 0 {
        proof {
            lemma_div_is_ordered_by_denominator(a as int, 1, d as int);
            lemma_div_basics(a as int);
        }
        (a / d, a % d)
    } else {
        // For a negative dividend: floor(a / d) == -1 - floor((-a - 1) / d).
        let m: i128 = -(a + 1);
        let q: i128 = m / d;
        let r: i128 = m % d;
        proof {
            lemma_fundamental_div_mod(m as int, d as int);
            lemma_mod_pos_bound(m as int, d as int);
            lemma_div_pos_is_pos(m as int, d as int);
            lemma_div_is_ordered_by_denominator(m as int, 1, d as int);
            lemma_div_basics(m as int);
            let cq: int = -1 - q;
            let cr: int = d - 1 - r;
            assert(d * q == q * d) by (nonlinear_arith);
            assert(cq * d == -d - q * d) by (nonlinear_arith)
                requires
                    cq == -1 - q,
            ;
            lemma_fundamental_div_mod_converse(a as int, d as int, cq, cr);
        }
        (-1 - q, d - 1 - r)
    }
}

/// Chunk index and inner offset of a local coordinate along one axis.
///
/// The chunk index is the quotient rounded toward negative infinity, so a
/// coordinate left of or above the origin chunk gets a negative chunk index
/// and an inner offset that is still counted from the chunk's left or top
/// edge.
pub fn local_to_chunk_and_inner(local_coord: isize, chunk_dim: usize) -> (pair: (isize, usize))
    requires
        chunk_dim > 0,
    ensures
        pair.0 == spec_chunk_index(local_coord as int, chunk_dim as int),
        pair.1 == spec_inner_index(local_coord as int, chunk_dim as int),
        pair.0 * chunk_dim + pair.1 == local_coord,
        pair.1 < chunk_dim,
{
    proof {
        lemma_chunk_and_inner(local_coord as int, chunk_dim as int);
    }
    let split: (i128, i128) = floor_div_mod(local_coord as i128, chunk_dim as i128);
    (split.0 as isize, split.1 as usize)
}

/// Screen coordinates of a world coordinate, for a camera shown at the centre
/// of the screen.
pub fn world_to_screen(
    target_world_coords: (isize, isize),
    camera_world_coords: (isize, isize),
    screen_dim: (usize, usize),
) -> (screen: (isize, isize))
    requires
        isize::MIN <= screen_dim.0 / 2 - (camera_world_coords.0 - target_world_coords.0)
            <= isize::MAX,
        isize::MIN <= screen_dim.1 / 2 - (target_world_coords.1 - camera_world_coords.1)
            <= isize::MAX,
    ensures
        (screen.0 as int, screen.1 as int) == spec_world_to_screen(
            (target_world_coords.0 as int, target_world_coords.1 as int),
            (camera_world_coords.0 as int, camera_world_coords.1 as int),
            (screen_dim.0 as int, screen_dim.1 as int),
        ),
{
    let sx: i128 = (screen_dim.0 / 2) as i128 - (camera_world_coords.0 as i128
        - target_world_coords.0 as i128);
    let sy: i128 = (screen_dim.1 / 2) as i128 - (target_world_coords.1 as i128
        - camera_world_coords.1 as i128);
    (sx as isize, sy as isize)
}

/// Screen coordinates of a world coordinate, for a camera shown at the centre
/// of the screen, or `None` where they do not fit a machine word.
pub fn checked_world_to_screen(
    target_world_coords: (isize, isize),
    camera_world_coords: (isize, isize),
    screen_dim: (usize, usize),
) -> (screen: Option<(isize, isize)>)
    ensures
        ({
            let s = spec_world_to_screen(
                (target_world_coords.0 as int, target_world_coords.1 as int),
                (camera_world_coords.0 as int, camera_world_coords.1 as int),
                (screen_dim.0 as int, screen_dim.1 as int),
            );
            let fits = isize::MIN <= s.0 <= isize::MAX && isize::MIN <= s.1 <= isize::MAX;
            match screen {
                Some(at) => fits && at.0 == s.0 && at.1 == s.1,
                None => !fits,
            }
        }),
{
    let sx: i128 = (screen_dim.0 / 2) as i128 - (camera_world_coords.0 as i128
        - target_world_coords.0 as i128);
    let sy: i128 = (screen_dim.1 / 2) as i128 - (target_world_coords.1 as i128
        - camera_world_coords.1 as i128);
    if sx < isize::MIN as i128 || sx > isize::MAX as i128 || sy < isize::MIN as i128 || sy
        > isize::MAX as i128 {
        None
    } else {
        Some((sx as isize, sy as isize))
    }
}

/// Chunk coordinate of the chunk that holds a world coordinate, and the
/// column and row of the coordinate inside that chunk. A chunk with the
/// coordinate `(cx, cy)` spans the world columns from `cx * width` and the
/// world heights from `cy * height` downward.
pub open spec fn spec_world_to_chunk(world: (int, int), chunk_dim: (int, int)) -> (
    (int, int),
    (int, int),
) {
    (
        (spec_chunk_index(world.0, chunk_dim.0), -spec_chunk_index(-world.1, chunk_dim.1)),
        (spec_inner_index(world.0, chunk_dim.0), spec_inner_index(-world.1, chunk_dim.1)),
    )
}

/// The chunk coordinate and the inner offset of a world coordinate put it
/// back together, and the inner offset lies inside the chunk.
pub proof fn lemma_world_to_chunk(world: (int, int), chunk_dim: (int, int))
    requires
        chunk_dim.0 > 0,
        chunk_dim.1 > 0,
    ensures
        ({
            let (chunk, inner) = spec_world_to_chunk(world, chunk_dim);
            &&& 0 <= inner.0 < chunk_dim.0
            &&& 0 <= inner.1 < chunk_dim.1
            &&& chunk.0 * chunk_dim.0 + inner.0 == world.0
            &&& chunk.1 * chunk_dim.1 - inner.1 == world.1
        }),
{
    lemma_chunk_and_inner(world.0, chunk_dim.0);
    lemma_chunk_and_inner(-world.1, chunk_dim.1);
    let q = spec_chunk_index(-world.1, chunk_dim.1);
    assert((-q) * chunk_dim.1 == -(q * chunk_dim.1)) by (nonlinear_arith);
}

/// Chunk coordinate of the chunk that holds a world coordinate, and the
/// column and row of the coordinate inside that chunk.
pub fn world_to_chunk(world_coords: (isize, isize), chunk_dim: (usize, usize)) -> (pair: (
    (isize, isize),
    (usize, usize),
))
    requires
        chunk_dim.0 > 0,
        chunk_dim.1 > 0,
    ensures
        ({
            let (chunk, inner) = spec_world_to_chunk(
                (world_coords.0 as int, world_coords.1 as int),
                (chunk_dim.0 as int, chunk_dim.1 as int),
            );
            &&& pair.0.0 == chunk.0
            &&& pair.0.1 == chunk.1
            &&& pair.1.0 == inner.0
            &&& pair.1.1 == inner.1
        }),
{
    let across: (isize, usize) = local_to_chunk_and_inner(world_coords.0, chunk_dim.0);
    let down: (i128, i128) = floor_div_mod(-(world_coords.1 as i128), chunk_dim.1 as i128);
    ((across.0, (-down.0) as isize), (across.1, down.1 as usize))
}

} // verus!
