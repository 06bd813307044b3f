use tileworld::entity::{BasicEntity, Direction, EntityWorldEvent, TileReport, WorldEntity, WorldResource};
use tileworld::positions::{Coords, Vec2};
use tileworld::tile::{Tile, TileAction, TileInteraction, TileTexture};
use tileworld::world::World;

fn grass() -> Tile {
    Tile {
        texture: TileTexture::Grass,
        interaction: TileInteraction::Walkable,
        action: TileAction::Nothing,
    }
}

fn dirt() -> Tile {
    Tile {
        texture: TileTexture::Dirt,
        interaction: TileInteraction::Block,
        action: TileAction::Destroyable,
    }
}

fn stone() -> Tile {
    Tile {
        texture: TileTexture::Stone,
        interaction: TileInteraction::Block,
        action: TileAction::Death,
    }
}

fn cleared_world() -> World {
    let mut w = World::generate();
    for x in -15..15i64 {
        for y in -15..15i64 {
            w.set_tile(&Coords { x, y }, grass());
        }
    }
    w
}

#[test]
fn destroy_event_clears_destroyable_within_radius() {
    let mut w = cleared_world();
    w.set_tile(&Coords { x: 2, y: 0 }, dirt());
    w.set_tile(&Coords { x: 10, y: 0 }, dirt());
    let mut e = BasicEntity::new(Vec2 { x: 0, y: 0 }, Vec2 { x: 0, y: 0 });
    e.raise_event(EntityWorldEvent::Destroy(Direction::Right));
    w.update_world_by_entity(&mut e);
    assert_eq!(w.get_tile(&Coords { x: 2, y: 0 }), Some(grass()));
    assert_eq!(w.get_tile(&Coords { x: 10, y: 0 }), Some(dirt()));
    // Only the event is consumed: the entity is otherwise untouched.
    assert_eq!(e.pending_event, EntityWorldEvent::Nothing);
    assert_eq!(e.observed, TileReport::Unreported);
    assert_eq!(e.dirt_held, 0);
}

#[test]
fn destroy_event_ignores_facing_direction() {
    // The directional filter is disabled: the full circle is cleared, so a
    // destroyable tile behind the entity goes too.
    let mut w = cleared_world();
    w.set_tile(&Coords { x: -2, y: 0 }, dirt());
    w.set_tile(&Coords { x: 0, y: -3 }, dirt());
    let mut e = BasicEntity::new(Vec2 { x: 0, y: 0 }, Vec2 { x: 0, y: 0 });
    e.raise_event(EntityWorldEvent::Destroy(Direction::Right));
    w.update_world_by_entity(&mut e);
    assert_eq!(w.get_tile(&Coords { x: -2, y: 0 }), Some(grass()));
    assert_eq!(w.get_tile(&Coords { x: 0, y: -3 }), Some(grass()));
}

#[test]
fn destroy_event_leaves_non_destroyable_tiles() {
    let mut w = cleared_world();
    w.set_tile(&Coords { x: 1, y: 1 }, stone());
    let mut e = BasicEntity::new(Vec2 { x: 0, y: 0 }, Vec2 { x: 0, y: 0 });
    e.raise_event(EntityWorldEvent::Destroy(Direction::Up));
    w.update_world_by_entity(&mut e);
    assert_eq!(w.get_tile(&Coords { x: 1, y: 1 }), Some(stone()));
}

#[test]
fn destroy_radius_boundary() {
    // (3,0) is exactly on the radius and cleared; (3,1) is outside
    // (9 + 1 > 9) and stays.
    let mut w = cleared_world();
    w.set_tile(&Coords { x: 3, y: 0 }, dirt());
    w.set_tile(&Coords { x: 3, y: 1 }, dirt());
    let mut e = BasicEntity::new(Vec2 { x: 0, y: 0 }, Vec2 { x: 0, y: 0 });
    e.raise_event(EntityWorldEvent::Destroy(Direction::Down));
    w.update_world_by_entity(&mut e);
    assert_eq!(w.get_tile(&Coords { x: 3, y: 0 }), Some(grass()));
    assert_eq!(w.get_tile(&Coords { x: 3, y: 1 }), Some(dirt()));
}

#[test]
fn non_destroy_events_leave_the_world_untouched() {
    let mut w = cleared_world();
    w.set_tile(&Coords { x: 1, y: 0 }, dirt());
    let mut e = BasicEntity::new(
        Vec2 { x: 0, y: 0 },
        Vec2 { x: 0, y: 0 },
    );
    e.raise_event(EntityWorldEvent::Place(WorldResource::Dirt, Vec2 { x: 0, y: 0 }));
    w.update_world_by_entity(&mut e);
    assert_eq!(w.get_tile(&Coords { x: 1, y: 0 }), Some(dirt()));
    assert_eq!(e.pending_event, EntityWorldEvent::Nothing);

    let mut e2 = BasicEntity::new(Vec2 { x: 0, y: 0 }, Vec2 { x: 0, y: 0 });
    w.update_world_by_entity(&mut e2);
    assert_eq!(w.get_tile(&Coords { x: 1, y: 0 }), Some(dirt()));
}

#[test]
fn world_event_pop_semantics() {
    let mut e = BasicEntity::new(Vec2 { x: 0, y: 0 }, Vec2 { x: 0, y: 0 });
    e.raise_event(EntityWorldEvent::Destroy(Direction::Left));
    assert_eq!(e.get_world_event(), EntityWorldEvent::Destroy(Direction::Left));
    assert_eq!(e.get_world_event(), EntityWorldEvent::Nothing);
}

#[test]
fn world_resource_places_as_dirt() {
    let t = WorldResource::Dirt.to_tile();
    assert_eq!(t, dirt());
}
