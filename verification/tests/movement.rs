use tileworld::entity::{BasicEntity, TileReport, WorldEntity};
use tileworld::positions::{Coords, Vec2};
use tileworld::tile::{Tile, TileAction, TileInteraction, TileTexture};
use tileworld::world::World;

fn grass() -> Tile {
    Tile {
        texture: TileTexture::Grass,
        interaction: TileInteraction::Walkable,
        action: TileAction::Nothing,
    }
}

fn water() -> Tile {
    Tile {
        texture: TileTexture::Water,
        interaction: TileInteraction::Swimmable,
        action: TileAction::Nothing,
    }
}

fn shallow() -> Tile {
    Tile {
        texture: TileTexture::ShallowWater,
        interaction: TileInteraction::Crawl,
        action: TileAction::Nothing,
    }
}

fn stone() -> Tile {
    Tile {
        texture: TileTexture::Stone,
        interaction: TileInteraction::Block,
        action: TileAction::Death,
    }
}

fn cleared_world() -> World {
    let mut w = World::generate();
    for x in -20..20i64 {
        for y in -20..20i64 {
            w.set_tile(&Coords { x, y }, grass());
        }
    }
    w
}

#[test]
fn walkable_moves_at_full_speed() {
    let w = cleared_world();
    let mut e = BasicEntity::new(Vec2 { x: 0, y: 0 }, Vec2 { x: 10_000, y: 0 });
    w.update_entity(&mut e, 1000);
    assert_eq!(e.position, Vec2 { x: 10_000, y: 0 });
    assert_eq!(e.velocity, Vec2 { x: 10_000, y: 0 });
    assert_eq!(e.observed, TileReport::Reported(TileInteraction::Walkable, TileAction::Nothing));
}

#[test]
fn swimmable_moves_at_six_tenths() {
    let mut w = cleared_world();
    w.set_tile(&Coords { x: 0, y: 0 }, water());
    let mut e = BasicEntity::new(Vec2 { x: 0, y: 0 }, Vec2 { x: 10_000, y: 0 });
    w.update_entity(&mut e, 1000);
    assert_eq!(e.position, Vec2 { x: 6_000, y: 0 });
    assert_eq!(e.observed, TileReport::Reported(TileInteraction::Swimmable, TileAction::Nothing));
}

#[test]
fn crawl_moves_at_four_tenths() {
    let mut w = cleared_world();
    w.set_tile(&Coords { x: 0, y: 0 }, shallow());
    let mut e = BasicEntity::new(Vec2 { x: 0, y: 0 }, Vec2 { x: 10_000, y: 0 });
    w.update_entity(&mut e, 1000);
    assert_eq!(e.position, Vec2 { x: 4_000, y: 0 });
    assert_eq!(e.observed, TileReport::Reported(TileInteraction::Crawl, TileAction::Nothing));
}

#[test]
fn blocked_column_slides_along_open_axis() {
    let mut w = cleared_world();
    for y in -5..=5i64 {
        w.set_tile(&Coords { x: 2, y }, stone());
    }
    let mut e = BasicEntity::new(Vec2 { x: 0, y: 0 }, Vec2 { x: 2_000, y: 2_000 });
    w.update_entity(&mut e, 1000);
    // The diagonal target and the horizontal-only target are both inside the
    // blocking column; only the vertical axis is open.
    assert_eq!(e.position, Vec2 { x: 0, y: 2_000 });
    assert_eq!(e.observed, TileReport::Reported(TileInteraction::Walkable, TileAction::Nothing));
}

#[test]
fn blocked_row_slides_horizontally() {
    let mut w = cleared_world();
    for x in -5..=5i64 {
        w.set_tile(&Coords { x, y: 2 }, stone());
    }
    let mut e = BasicEntity::new(Vec2 { x: 0, y: 0 }, Vec2 { x: 2_000, y: 2_000 });
    w.update_entity(&mut e, 1000);
    assert_eq!(e.position, Vec2 { x: 2_000, y: 0 });
}

#[test]
fn fully_blocked_entity_stays_put_but_is_notified() {
    let mut w = cleared_world();
    for y in -5..=5i64 {
        w.set_tile(&Coords { x: 2, y }, stone());
    }
    for x in -5..=5i64 {
        w.set_tile(&Coords { x, y: 2 }, stone());
    }
    let mut e = BasicEntity::new(Vec2 { x: 0, y: 0 }, Vec2 { x: 2_000, y: 2_000 });
    w.update_entity(&mut e, 1000);
    assert_eq!(e.position, Vec2 { x: 0, y: 0 });
    assert_eq!(e.observed, TileReport::Reported(TileInteraction::Walkable, TileAction::Nothing));
}

#[test]
fn ungenerated_ground_guard() {
    let w = World::generate();
    let start = Vec2 { x: 1_000_000_000, y: 0 };
    let vel = Vec2 { x: 5_000, y: 5_000 };
    let mut e = BasicEntity::new(start, vel);
    w.update_entity(&mut e, 1000);
    assert_eq!(e.position, start);
    assert_eq!(e.velocity, vel);
    assert_eq!(e.observed, TileReport::Unreported);
}

#[test]
fn movement_into_ungenerated_ground_is_blocked() {
    let w = cleared_world();
    // Standing near the generated edge, the candidate tile is ungenerated:
    // absent tiles are impassable, so the entity does not move.
    let mut e = BasicEntity::new(Vec2 { x: 79_000, y: 79_000 }, Vec2 { x: 5_000, y: 5_000 });
    w.update_entity(&mut e, 1000);
    assert_eq!(e.position, Vec2 { x: 79_000, y: 79_000 });
}

#[test]
fn death_tile_is_reported() {
    let mut w = cleared_world();
    w.set_tile(
        &Coords { x: 0, y: 0 },
        Tile {
            texture: TileTexture::DeepWater,
            interaction: TileInteraction::Walkable,
            action: TileAction::Death,
        },
    );
    let mut e = BasicEntity::new(Vec2 { x: 0, y: 0 }, Vec2 { x: 0, y: 0 });
    w.update_entity(&mut e, 16);
    assert_eq!(e.observed, TileReport::Reported(TileInteraction::Walkable, TileAction::Death));
}
