use tileworld::entity::{BasicEntity, EntityWorldEvent, TileReport, WorldEntity, WorldResource};
use tileworld::positions::Vec2;

#[test]
fn new_entity_has_nothing_pending() {
    let e = BasicEntity::new(Vec2 { x: 5, y: -5 }, Vec2 { x: 1, y: 2 });
    assert_eq!(e.position, Vec2 { x: 5, y: -5 });
    assert_eq!(e.velocity, Vec2 { x: 1, y: 2 });
    assert_eq!(e.pending_event, EntityWorldEvent::Nothing);
    assert_eq!(e.observed, TileReport::Unreported);
    assert_eq!(e.dirt_held, 0);
}

#[test]
fn set_position_keeps_velocity_and_event() {
    let mut e = BasicEntity::new(Vec2 { x: 0, y: 0 }, Vec2 { x: 7, y: 8 });
    e.set_position(Vec2 { x: 100, y: 200 });
    assert_eq!(e.position, Vec2 { x: 100, y: 200 });
    assert_eq!(e.velocity, Vec2 { x: 7, y: 8 });
    assert_eq!(e.pending_event, EntityWorldEvent::Nothing);
}

#[test]
fn accessors_report_current_state() {
    let e = BasicEntity::new(Vec2 { x: 3, y: 4 }, Vec2 { x: -1, y: -2 });
    assert_eq!(e.get_position(), Vec2 { x: 3, y: 4 });
    assert_eq!(e.get_velocity(), Vec2 { x: -1, y: -2 });
}

#[test]
fn resources_accumulate() {
    let mut e = BasicEntity::new(Vec2 { x: 0, y: 0 }, Vec2 { x: 0, y: 0 });
    e.give_resource(WorldResource::Dirt);
    e.give_resource(WorldResource::Dirt);
    assert_eq!(e.dirt_held, 2);
}
