use tileworld::noise_field::NoiseField;
use tileworld::positions::{Coords, Rect};
use tileworld::tile::NOISE_SCALE;
use tileworld::world::World;

#[test]
fn generation_is_deterministic() {
    let w1 = World::generate();
    let w2 = World::generate();
    let mut x: i64 = -40;
    while x < 40 {
        let mut y: i64 = -40;
        while y < 40 {
            assert_eq!(w1.get_tile(&Coords { x, y }), w2.get_tile(&Coords { x, y }));
            y += 1;
        }
        x += 1;
    }
}

#[test]
fn initial_region_spans_ten_chunks_each_way() {
    let w = World::generate();
    assert!(w.get_tile(&Coords { x: -80, y: -80 }).is_some());
    assert!(w.get_tile(&Coords { x: 79, y: 79 }).is_some());
    assert!(w.get_tile(&Coords { x: 80, y: 0 }).is_none());
    assert!(w.get_tile(&Coords { x: 0, y: -81 }).is_none());
}

#[test]
fn generate_at_fills_missing_chunks() {
    let mut w = World::generate();
    assert!(w.get_tile(&Coords { x: 125, y: 125 }).is_none());
    let zone = Rect { x: 120_000, y: 120_000, w: 16_000, h: 16_000 };
    w.generate_at(zone, zone);
    assert!(w.get_tile(&Coords { x: 125, y: 125 }).is_some());
    assert!(w.get_tile(&Coords { x: 135, y: 135 }).is_some());
    assert!(w.get_tile(&Coords { x: 137, y: 120 }).is_none());
}

#[test]
fn generate_at_is_idempotent() {
    let mut w = World::generate();
    let zone = Rect { x: 200_000, y: 200_000, w: 32_000, h: 32_000 };
    w.generate_at(zone, zone);
    let mut snapshot = Vec::new();
    for x in 200..232i64 {
        for y in 200..232i64 {
            snapshot.push(w.get_tile(&Coords { x, y }));
        }
    }
    w.generate_at(zone, zone);
    let shrunk = Rect { x: 208_000, y: 208_000, w: 8_000, h: 8_000 };
    w.generate_at(shrunk, shrunk);
    let mut i = 0;
    for x in 200..232i64 {
        for y in 200..232i64 {
            assert_eq!(w.get_tile(&Coords { x, y }), snapshot[i]);
            i += 1;
        }
    }
}

#[test]
fn generated_tiles_match_between_eager_and_on_demand_worlds() {
    // The same chunk position generated by two different calls holds the
    // same tiles: generation depends on the seed and coordinates alone.
    let w1 = World::generate();
    let mut w2 = World::generate();
    let zone = Rect { x: -80_000, y: -80_000, w: 160_000, h: 160_000 };
    w2.generate_at(zone, zone);
    for x in -30..30i64 {
        for y in -30..30i64 {
            assert_eq!(w1.get_tile(&Coords { x, y }), w2.get_tile(&Coords { x, y }));
        }
    }
}

#[test]
fn noise_sampling_is_deterministic_and_bounded() {
    let f1 = NoiseField::new(0);
    let f2 = NoiseField::new(0);
    for &(x, y) in &[(0i32, 0i32), (17, -42), (-1000, 999), (123456, -654321)] {
        let a = f1.sample(x, y);
        let b = f2.sample(x, y);
        assert_eq!(a, b);
        assert!(a <= NOISE_SCALE);
    }
}

#[test]
fn terrain_is_not_uniform() {
    // The noise field genuinely varies over space: the starting region holds
    // more than one texture, so a degenerate sampler would be caught here.
    let w = World::generate();
    let first = w.get_tile(&Coords { x: -80, y: -80 }).unwrap().texture;
    let mut saw_other = false;
    for x in -80..80i64 {
        for y in -80..80i64 {
            if w.get_tile(&Coords { x, y }).unwrap().texture != first {
                saw_other = true;
            }
        }
    }
    assert!(saw_other);
}
