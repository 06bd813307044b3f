use tileworld::positions::{ChunkPosition, Coords, Rect, Vec2};

#[test]
fn chunk_addressing_round_trip() {
    let samples: [(i64, i64); 10] = [
        (0, 0),
        (7, 7),
        (8, 8),
        (-1, -1),
        (-8, -8),
        (-9, 17),
        (123, -456),
        (1_000_000, -999_999),
        (-64, 63),
        (31, -32),
    ];
    for (x, y) in samples {
        let c = Coords { x, y };
        let cp = ChunkPosition::from_coords(&c);
        let local = (x.rem_euclid(8), y.rem_euclid(8));
        let back = Coords::from_position_at(&cp, local);
        assert_eq!(back, c);
    }
}

#[test]
fn negative_coords_floor_to_lower_chunk() {
    let cp = ChunkPosition::from_coords(&Coords { x: -1, y: -8 });
    assert_eq!(cp, ChunkPosition { x: -1, y: -1 });
    let cp2 = ChunkPosition::from_coords(&Coords { x: -9, y: 15 });
    assert_eq!(cp2, ChunkPosition { x: -2, y: 1 });
}

#[test]
fn rounding_is_half_away_from_zero() {
    assert_eq!(Coords::from_vec2(Vec2 { x: 1500, y: -1500 }), Coords { x: 2, y: -2 });
    assert_eq!(Coords::from_vec2(Vec2 { x: 1499, y: -1499 }), Coords { x: 1, y: -1 });
    assert_eq!(Coords::from_vec2(Vec2 { x: 500, y: -500 }), Coords { x: 1, y: -1 });
    assert_eq!(Coords::from_vec2(Vec2 { x: 499, y: -499 }), Coords { x: 0, y: 0 });
    assert_eq!(Coords::from_vec2(Vec2 { x: 0, y: 0 }), Coords { x: 0, y: 0 });
}

#[test]
fn chunk_range_from_rect_is_floor_to_ceiling() {
    let (min, max) = ChunkPosition::from_rect(Rect { x: 0, y: 0, w: 16_000, h: 8_000 });
    assert_eq!(min, ChunkPosition { x: 0, y: 0 });
    assert_eq!(max, ChunkPosition { x: 2, y: 1 });

    let (min, max) = ChunkPosition::from_rect(Rect { x: -8_000, y: -1, w: 8_000, h: 2 });
    assert_eq!(min, ChunkPosition { x: -1, y: -1 });
    assert_eq!(max, ChunkPosition { x: 0, y: 1 });

    let (min, max) = ChunkPosition::from_rect(Rect { x: 100, y: 100, w: 0, h: 0 });
    assert_eq!(min, ChunkPosition { x: 0, y: 0 });
    assert_eq!(max, ChunkPosition { x: 1, y: 1 });
}

#[test]
fn chunk_origin_in_tile_space() {
    let c = Coords::from_position(&ChunkPosition { x: -2, y: 3 });
    assert_eq!(c, Coords { x: -16, y: 24 });
    let at = Coords::from_position_at(&ChunkPosition { x: 1, y: 1 }, (3, 4));
    assert_eq!(at, Coords { x: 11, y: 12 });
}

#[test]
fn tile_centre_position() {
    let v = Coords { x: -3, y: 5 }.to_vec2();
    assert_eq!(v, Vec2 { x: -3000, y: 5000 });
}
