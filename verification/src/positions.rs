//! Coordinate arithmetic: continuous fixed-point positions, integer tile
//! coordinates, and chunk addressing.
//!
//! A continuous position is held in milli-tiles (`POS_SCALE` units per tile).
//! A tile coordinate is derived from a position by rounding each component to
//! the nearest tile, ties away from zero. A tile belongs to the chunk found by
//! flooring division of its coordinates by `CHUNK_SIZE`, so negative
//! coordinates map correctly.

use vstd::prelude::*;
use crate::entity::Direction;

verus! {

/// Tiles per chunk edge.
pub const CHUNK_SIZE: i64 = 8;

/// Tiles per chunk, `CHUNK_SIZE * CHUNK_SIZE`.
pub const CHUNK_AREA: usize = 64;

/// Fixed-point units per tile in continuous positions.
pub const POS_SCALE: i64 = 1000;

/// Fixed-point units per chunk edge, `CHUNK_SIZE * POS_SCALE`.
pub const CHUNK_SPAN: i64 = 8000;

/// Bound on tile and chunk coordinates under which all coordinate arithmetic
/// of this crate stays within `i64`.
pub const COORD_LIMIT: i64 = 2_000_000_000_000;

/// Bound on position components (milli-tiles) under which rounding to tile
/// coordinates stays within `COORD_LIMIT`.
pub const POS_LIMIT: i64 = 1_000_000_000_000_000;

/// Bound on chunk coordinates eligible for generation: within it every tile
/// coordinate of a generated chunk fits the noise sampler's 32-bit domain.
pub const GEN_LIMIT: i64 = 200_000_000;

/// Bound on zone-rectangle corners (milli-tiles) whose chunk ranges stay
/// within `GEN_LIMIT`: `GEN_LIMIT * CHUNK_SPAN`.
pub const GEN_SPAN: i64 = 1_600_000_000_000;

/// Headroom over `POS_LIMIT` that one frame of movement can add to a
/// position component before rounding; coordinate conversions accept
/// positions within `POS_LIMIT + POS_SLACK`.
pub const POS_SLACK: i64 = 1_000_000_000;

/// A continuous point or velocity in world space, in milli-tiles per axis.
#[derive(Debug, PartialEq, Eq, Structural, Clone, Copy)]
pub struct Vec2 {
    pub x: i64,
    pub y: i64,
}

/// An integer world-tile coordinate.
#[derive(Debug, PartialEq, Eq, Structural, Clone, Copy)]
pub struct Coords {
    pub x: i64,
    pub y: i64,
}

/// An integer chunk-grid coordinate; one unit covers `CHUNK_SIZE` tiles.
#[derive(Debug, PartialEq, Eq, Structural, Clone, Copy)]
pub struct ChunkPosition {
    pub x: i64,
    pub y: i64,
}

/// An axis-aligned rectangle in continuous world space, in milli-tiles.
#[derive(Debug, PartialEq, Eq, Structural, Clone, Copy)]
pub struct Rect {
    pub x: i64,
    pub y: i64,
    pub w: i64,
    pub h: i64,
}

/// Truncating division by a positive divisor: rounds toward zero.
pub open spec fn trunc_div(x: int, d: int) -> int {
    if x >= 0 {
        x / d
    } else {
        -((-x) / d)
    }
}

/// Division by a positive divisor rounding up.
pub open spec fn ceil_div(x: int, d: int) -> int {
    -((-x) / d)
}

/// The tile coordinate of a continuous component: nearest integer, ties away
/// from zero.
pub open spec fn round_to_tile(v: int) -> int {
    if v >= 0 {
        (v + (POS_SCALE as int) / 2) / (POS_SCALE as int)
    } else {
        -((-v + (POS_SCALE as int) / 2) / (POS_SCALE as int))
    }
}

/// The chunk coordinate owning a tile coordinate: flooring division by
/// `CHUNK_SIZE`.
pub open spec fn chunk_of(c: int) -> int {
    c / (CHUNK_SIZE as int)
}

/// The offset of a tile coordinate within its chunk: Euclidean remainder,
/// always in `[0, CHUNK_SIZE)`.
pub open spec fn local_of(c: int) -> int {
    c % (CHUNK_SIZE as int)
}

/// The lowest chunk column covered by a zone rectangle.
pub open spec fn zone_min_x(z: Rect) -> int {
    (z.x as int) / (CHUNK_SPAN as int)
}

/// One past the highest chunk column covered by a zone rectangle.
pub open spec fn zone_max_x(z: Rect) -> int {
    ceil_div(z.x + z.w, CHUNK_SPAN as int)
}

/// The lowest chunk row covered by a zone rectangle.
pub open spec fn zone_min_y(z: Rect) -> int {
    (z.y as int) / (CHUNK_SPAN as int)
}

/// One past the highest chunk row covered by a zone rectangle.
pub open spec fn zone_max_y(z: Rect) -> int {
    ceil_div(z.y + z.h, CHUNK_SPAN as int)
}

/// Whether a chunk position lies in the half-open chunk range covering a zone
/// rectangle.
pub open spec fn in_zone(z: Rect, cx: int, cy: int) -> bool {
    zone_min_x(z) <= cx < zone_max_x(z) && zone_min_y(z) <= cy < zone_max_y(z)
}

/// The lowest minimap cell column of a view rectangle: truncation, as the
/// minimap walks cells from the raw corner.
pub open spec fn map_min_x(z: Rect) -> int {
    trunc_div(z.x as int, POS_SCALE as int)
}

/// One past the highest minimap cell column of a view rectangle.
pub open spec fn map_max_x(z: Rect) -> int {
    trunc_div(z.x + z.w, POS_SCALE as int)
}

/// The lowest minimap cell row of a view rectangle.
pub open spec fn map_min_y(z: Rect) -> int {
    trunc_div(z.y as int, POS_SCALE as int)
}

/// One past the highest minimap cell row of a view rectangle.
pub open spec fn map_max_y(z: Rect) -> int {
    trunc_div(z.y + z.h, POS_SCALE as int)
}

/// Rounds a position component to its tile coordinate.
pub(crate) fn round_component(v: i64) -> (r: i64)
    requires
        -POS_LIMIT - POS_SLACK <= v <= POS_LIMIT + POS_SLACK,
    ensures
        r == round_to_tile(v as int),
        -COORD_LIMIT <= r <= COORD_LIMIT,
{
    if v >= 0 {
        (v + 500).checked_div(1000).unwrap()
    } else {
        (v - 500).checked_div(1000).unwrap()
    }
}

/// Flooring division of a tile coordinate by `CHUNK_SIZE`.
pub(crate) fn chunk_component(c: i64) -> (r: i64)
    ensures
        r == chunk_of(c as int),
{
    c.checked_div_euclid(8).unwrap()
}

/// Euclidean remainder of a tile coordinate by `CHUNK_SIZE`.
pub(crate) fn local_component(c: i64) -> (r: i64)
    ensures
        r == local_of(c as int),
        0 <= r < CHUNK_SIZE,
{
    c.checked_rem_euclid(8).unwrap()
}

impl Coords {
    /// The tile coordinate of a chunk's origin corner.
    pub fn from_position(pos: &ChunkPosition) -> (r: Coords)
        requires
            -COORD_LIMIT <= pos.x <= COORD_LIMIT,
            -COORD_LIMIT <= pos.y <= COORD_LIMIT,
        ensures
            r.x == pos.x * CHUNK_SIZE,
            r.y == pos.y * CHUNK_SIZE,
    {
        Coords::from_position_at(pos, (0, 0))
    }

    /// The tile coordinate at a local offset within a chunk.
    pub fn from_position_at(pos: &ChunkPosition, offset: (i64, i64)) -> (r: Coords)
        requires
            -COORD_LIMIT <= pos.x <= COORD_LIMIT,
            -COORD_LIMIT <= pos.y <= COORD_LIMIT,
            -COORD_LIMIT <= offset.0 <= COORD_LIMIT,
            -COORD_LIMIT <= offset.1 <= COORD_LIMIT,
        ensures
            r.x == pos.x * CHUNK_SIZE + offset.0,
            r.y == pos.y * CHUNK_SIZE + offset.1,
    {
        Coords { x: pos.x * CHUNK_SIZE + offset.0, y: pos.y * CHUNK_SIZE + offset.1 }
    }

    /// The tile a continuous position stands on: each component rounded to the
    /// nearest integer, ties away from zero.
    pub fn from_vec2(vec: Vec2) -> (r: Coords)
        requires
            -POS_LIMIT - POS_SLACK <= vec.x <= POS_LIMIT + POS_SLACK,
            -POS_LIMIT - POS_SLACK <= vec.y <= POS_LIMIT + POS_SLACK,
        ensures
            r.x == round_to_tile(vec.x as int),
            r.y == round_to_tile(vec.y as int),
            -COORD_LIMIT <= r.x <= COORD_LIMIT,
            -COORD_LIMIT <= r.y <= COORD_LIMIT,
    {
        Coords { x: round_component(vec.x), y: round_component(vec.y) }
    }

    /// The continuous position at the centre of this tile.
    pub fn to_vec2(&self) -> (r: Vec2)
        requires
            -COORD_LIMIT <= self.x <= COORD_LIMIT,
            -COORD_LIMIT <= self.y <= COORD_LIMIT,
        ensures
            r.x == self.x * POS_SCALE,
            r.y == self.y * POS_SCALE,
    {
        Vec2 { x: self.x * POS_SCALE, y: self.y * POS_SCALE }
    }
}

impl ChunkPosition {
    /// The chunk owning a tile coordinate: flooring division, so negative
    /// coordinates map correctly.
    pub fn from_coords(coords: &Coords) -> (r: ChunkPosition)
        ensures
            r.x == chunk_of(coords.x as int),
            r.y == chunk_of(coords.y as int),
    {
        ChunkPosition { x: chunk_component(coords.x), y: chunk_component(coords.y) }
    }

    /// The half-open chunk range covering a continuous rectangle: the minimum
    /// corner floored, the maximum corner rounded up. The range is iterated as
    /// `[min.x, max.x) x [min.y, max.y)`.
    pub fn from_rect(rect: Rect) -> (r: (ChunkPosition, ChunkPosition))
        requires
            -POS_LIMIT <= rect.x <= POS_LIMIT,
            -POS_LIMIT <= rect.y <= POS_LIMIT,
            -POS_LIMIT <= rect.w <= POS_LIMIT,
            -POS_LIMIT <= rect.h <= POS_LIMIT,
        ensures
            r.0.x == zone_min_x(rect),
            r.0.y == zone_min_y(rect),
            r.1.x == zone_max_x(rect),
            r.1.y == zone_max_y(rect),
    {
        let min = ChunkPosition {
            x: rect.x.checked_div_euclid(8000).unwrap(),
            y: rect.y.checked_div_euclid(8000).unwrap(),
        };
        let max_x: i64 = rect.x + rect.w;
        let max_y: i64 = rect.y + rect.h;
        let max = ChunkPosition {
            x: -(-max_x).checked_div_euclid(8000).unwrap(),
            y: -(-max_y).checked_div_euclid(8000).unwrap(),
        };
        (min, max)
    }
}

/// Whether a tile lies within the given radius of a centre tile:
/// `dx^2 + dy^2 <= radius^2`.
pub open spec fn in_disc(cx: int, cy: int, radius: int, x: int, y: int) -> bool {
    (x - cx) * (x - cx) + (y - cy) * (y - cy) <= radius * radius
}

/// A tile within the radius of a centre lies in the bounding square.
proof fn lemma_disc_bounds(cx: int, cy: int, radius: int, x: int, y: int)
    requires
        in_disc(cx, cy, radius, x, y),
        radius >= 0,
    ensures
        cx - radius <= x <= cx + radius,
        cy - radius <= y <= cy + radius,
{
    assert(cx - radius <= x <= cx + radius && cy - radius <= y <= cy + radius)
        by (nonlinear_arith)
        requires
            in_disc(cx, cy, radius, x, y),
            radius >= 0,
    ;
}

/// The filled disc of tile coordinates within a radius of a centre tile, in
/// row-major order. The facing direction is accepted but no longer filters
/// the result: the full circle is used.
pub fn get_tiles_in_half_circle(center: Coords, _direction: Direction, radius: i64) -> (r: Vec<
    Coords,
>)
    requires
        -COORD_LIMIT <= center.x <= COORD_LIMIT,
        -COORD_LIMIT <= center.y <= COORD_LIMIT,
        0 <= radius <= 1000,
    ensures
        forall|k: int|
            0 <= k < r@.len() ==> in_disc(
                center.x as int,
                center.y as int,
                radius as int,
                (#[trigger] r@[k]).x as int,
                r@[k].y as int,
            ),
        forall|x: int, y: int|
            #[trigger] in_disc(center.x as int, center.y as int, radius as int, x, y) ==> exists|
                k: int,
            | 0 <= k < r@.len() && (#[trigger] r@[k]).x == x && r@[k].y == y,
        forall|k1: int, k2: int|
            0 <= k1 < k2 < r@.len() ==> ((#[trigger] r@[k1]).x < (#[trigger] r@[k2]).x || (
            r@[k1].x == r@[k2].x && r@[k1].y < r@[k2].y)),
{
    let cx = center.x;
    let cy = center.y;
    proof {
        assert(0 <= radius * radius <= 1_000_000) by (nonlinear_arith)
            requires
                0 <= radius <= 1000,
        ;
    }
    let r2: i64 = radius * radius;
    let mut tiles: Vec<Coords> = Vec::new();
    let mut x: i64 = cx - radius;
    proof {
        assert forall|a: int, b: int|
            #[trigger] in_disc(cx as int, cy as int, radius as int, a, b) && a
                < x implies exists|k: int|
            0 <= k < tiles@.len() && (#[trigger] tiles@[k]).x == a && tiles@[k].y == b by {
            lemma_disc_bounds(cx as int, cy as int, radius as int, a, b);
        }
    }
    while x <= cx + radius
        invariant
            -COORD_LIMIT <= cx <= COORD_LIMIT,
            -COORD_LIMIT <= cy <= COORD_LIMIT,
            0 <= radius <= 1000,
            r2 == radius * radius,
            cx - radius <= x <= cx + radius + 1,
            forall|k: int|
                0 <= k < tiles@.len() ==> in_disc(
                    cx as int,
                    cy as int,
                    radius as int,
                    (#[trigger] tiles@[k]).x as int,
                    tiles@[k].y as int,
                ),
            forall|k: int| 0 <= k < tiles@.len() ==> (#[trigger] tiles@[k]).x < x,
            forall|a: int, b: int|
                #[trigger] in_disc(cx as int, cy as int, radius as int, a, b) && a < x ==> exists|
                    k: int,
                | 0 <= k < tiles@.len() && (#[trigger] tiles@[k]).x == a && tiles@[k].y == b,
            forall|k1: int, k2: int|
                0 <= k1 < k2 < tiles@.len() ==> ((#[trigger] tiles@[k1]).x < (
                #[trigger] tiles@[k2]).x || (tiles@[k1].x == tiles@[k2].x && tiles@[k1].y
                    < tiles@[k2].y)),
        decreases cx + radius + 1 - x,
    {
        let mut y: i64 = cy - radius;
        proof {
            assert forall|a: int, b: int|
                #[trigger] in_disc(cx as int, cy as int, radius as int, a, b) && (a < x || (a == x
                    && b < y)) implies exists|k: int|
                0 <= k < tiles@.len() && (#[trigger] tiles@[k]).x == a && tiles@[k].y == b by {
                lemma_disc_bounds(cx as int, cy as int, radius as int, a, b);
            }
        }
        while y <= cy + radius
            invariant
                -COORD_LIMIT <= cx <= COORD_LIMIT,
                -COORD_LIMIT <= cy <= COORD_LIMIT,
                0 <= radius <= 1000,
                r2 == radius * radius,
                cx - radius <= x <= cx + radius,
                cy - radius <= y <= cy + radius + 1,
                forall|k: int|
                    0 <= k < tiles@.len() ==> in_disc(
                        cx as int,
                        cy as int,
                        radius as int,
                        (#[trigger] tiles@[k]).x as int,
                        tiles@[k].y as int,
                    ),
                forall|k: int|
                    0 <= k < tiles@.len() ==> ((#[trigger] tiles@[k]).x < x || (tiles@[k].x == x
                        && tiles@[k].y < y)),
                forall|a: int, b: int|
                    #[trigger] in_disc(cx as int, cy as int, radius as int, a, b) && (a < x || (a
                        == x && b < y)) ==> exists|k: int|
                        0 <= k < tiles@.len() && (#[trigger] tiles@[k]).x == a && tiles@[k].y
                            == b,
                forall|k1: int, k2: int|
                    0 <= k1 < k2 < tiles@.len() ==> ((#[trigger] tiles@[k1]).x < (
                    #[trigger] tiles@[k2]).x || (tiles@[k1].x == tiles@[k2].x && tiles@[k1].y
                        < tiles@[k2].y)),
            decreases cy + radius + 1 - y,
        {
            let ghost pre_tiles = tiles@;
            let dx: i64 = x - cx;
            let dy: i64 = y - cy;
            proof {
                assert(0 <= dx * dx <= 1_000_000 && 0 <= dy * dy <= 1_000_000)
                    by (nonlinear_arith)
                    requires
                        -1000 <= dx <= 1000,
                        -1000 <= dy <= 1000,
                ;
            }
            let distance_squared: i64 = dx * dx + dy * dy;
            if distance_squared <= r2 {
                let ghost n = tiles@.len() as int;
                tiles.push(Coords { x, y });
                proof {
                    assert(tiles@[n] == Coords { x, y });
                }
            }
            proof {
                assert forall|a: int, b: int|
                    #[trigger] in_disc(cx as int, cy as int, radius as int, a, b) && (a < x || (a
                        == x && b < y + 1)) implies exists|k: int|
                    0 <= k < tiles@.len() && (#[trigger] tiles@[k]).x == a && tiles@[k].y
                        == b by {
                    if a == x as int && b == y as int {
                        assert(distance_squared <= r2);
                        assert(tiles@[pre_tiles.len() as int].x == a && tiles@[pre_tiles.len() as int].y
                            == b);
                    } else {
                        assert(in_disc(cx as int, cy as int, radius as int, a, b) && (a < x || (a
                            == x && b < y)));
                        let k0 = choose|k: int|
                            0 <= k < pre_tiles.len() && (#[trigger] pre_tiles[k]).x == a
                                && pre_tiles[k].y == b;
                        assert(tiles@[k0].x == a && tiles@[k0].y == b);
                    }
                }
            }
            y = y + 1;
        }
        proof {
            assert forall|a: int, b: int|
                #[trigger] in_disc(cx as int, cy as int, radius as int, a, b) && a
                    < x + 1 implies exists|k: int|
                0 <= k < tiles@.len() && (#[trigger] tiles@[k]).x == a && tiles@[k].y == b by {
                lemma_disc_bounds(cx as int, cy as int, radius as int, a, b);
            }
        }
        x = x + 1;
    }
    proof {
        assert forall|a: int, b: int|
            #[trigger] in_disc(
                cx as int,
                cy as int,
                radius as int,
                a,
                b,
            ) implies exists|k: int|
            0 <= k < tiles@.len() && (#[trigger] tiles@[k]).x == a && tiles@[k].y == b by {
            lemma_disc_bounds(cx as int, cy as int, radius as int, a, b);
        }
    }
    tiles
}

/// Two tile coordinates with the same chunk coordinates and the same local
/// offsets are the same coordinate.
pub proof fn lemma_tile_key_injective(x1: int, y1: int, x2: int, y2: int)
    requires
        chunk_of(x1) == chunk_of(x2),
        chunk_of(y1) == chunk_of(y2),
        local_of(x1) == local_of(x2),
        local_of(y1) == local_of(y2),
    ensures
        x1 == x2,
        y1 == y2,
{
    lemma_chunk_addressing_roundtrip(x1, y1);
    lemma_chunk_addressing_roundtrip(x2, y2);
}

/// Chunk addressing is a round trip: splitting a tile coordinate into its
/// chunk coordinate and local offset, then rebuilding it from the chunk's
/// origin, recovers the original coordinate — for negative coordinates too.
pub proof fn lemma_chunk_addressing_roundtrip(x: int, y: int)
    ensures
        chunk_of(x) * CHUNK_SIZE + local_of(x) == x,
        chunk_of(y) * CHUNK_SIZE + local_of(y) == y,
        0 <= local_of(x) < CHUNK_SIZE,
        0 <= local_of(y) < CHUNK_SIZE,
{
    vstd::arithmetic::div_mod::lemma_fundamental_div_mod(x, CHUNK_SIZE as int);
    vstd::arithmetic::div_mod::lemma_fundamental_div_mod(y, CHUNK_SIZE as int);
    vstd::arithmetic::div_mod::lemma_mod_bound(x, CHUNK_SIZE as int);
    vstd::arithmetic::div_mod::lemma_mod_bound(y, CHUNK_SIZE as int);
}

} // verus!
