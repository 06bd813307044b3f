//! The narrow interface between the world and the entities that move in it,
//! and the one-shot events an entity may raise to mutate terrain.

use vstd::prelude::*;
use crate::positions::Vec2;
use crate::tile::{Tile, TileAction, TileInteraction, TileTexture};

verus! {

/// A facing direction of an entity.
#[derive(Debug, PartialEq, Eq, Structural, Clone, Copy)]
pub enum Direction {
    Up,
    Down,
    Left,
    Right,
}

/// A one-shot request an entity raises for the world to mutate terrain.
/// `Nothing` stands for no pending request.
#[derive(Debug, PartialEq, Eq, Structural, Clone, Copy)]
pub enum EntityWorldEvent {
    Destroy(Direction),
    Place(WorldResource, Vec2),
    Nothing,
}

/// A resource an entity may hold and place into the world.
#[derive(Debug, PartialEq, Eq, Structural, Clone, Copy)]
pub enum WorldResource {
    Dirt,
}

impl WorldResource {
    /// The tile this resource turns into when placed.
    pub fn to_tile(&self) -> (r: Tile)
        ensures
            r == (Tile {
                texture: TileTexture::Dirt,
                interaction: TileInteraction::Block,
                action: TileAction::Destroyable,
            }),
    {
        Tile {
            texture: TileTexture::Dirt,
            interaction: TileInteraction::Block,
            action: TileAction::Destroyable,
        }
    }
}

/// What an entity was last told about the ground under it.
#[derive(Debug, PartialEq, Eq, Structural, Clone, Copy)]
pub enum TileReport {
    Unreported,
    Reported(TileInteraction, TileAction),
}

/// What the world requires of an entity it moves: a continuous position and
/// velocity, a pending world event with pop semantics, resources it may be
/// handed, and an update hook notified once per frame of the tile the entity
/// stands on. The update hook must not move the entity; position changes are
/// the world's alone, and only `give_resource` may change what is held.
pub trait WorldEntity: Sized {
    /// The entity's continuous position, in milli-tiles.
    spec fn position_spec(&self) -> Vec2;

    /// The entity's continuous velocity, in milli-tiles per second.
    spec fn velocity_spec(&self) -> Vec2;

    /// The entity's pending world event, `Nothing` if none.
    spec fn event_spec(&self) -> EntityWorldEvent;

    /// What the entity was last told, through `update`, about the ground
    /// under it.
    spec fn report_spec(&self) -> TileReport;

    /// The resources the entity holds, in the order received.
    spec fn resources_spec(&self) -> Seq<WorldResource>;

    fn get_position(&self) -> (r: Vec2)
        ensures
            r == self.position_spec(),
    ;

    fn get_velocity(&self) -> (r: Vec2)
        ensures
            r == self.velocity_spec(),
    ;

    fn set_position(&mut self, pos: Vec2)
        ensures
            final(self).position_spec() == pos,
            final(self).velocity_spec() == old(self).velocity_spec(),
            final(self).event_spec() == old(self).event_spec(),
            final(self).report_spec() == old(self).report_spec(),
            final(self).resources_spec() == old(self).resources_spec(),
    ;

    /// Pops the pending world event: returns it and leaves none pending.
    fn get_world_event(&mut self) -> (e: EntityWorldEvent)
        ensures
            e == old(self).event_spec(),
            final(self).event_spec() == EntityWorldEvent::Nothing,
            final(self).position_spec() == old(self).position_spec(),
            final(self).velocity_spec() == old(self).velocity_spec(),
            final(self).report_spec() == old(self).report_spec(),
            final(self).resources_spec() == old(self).resources_spec(),
    ;

    /// Hands the entity a resource taken from the world.
    fn give_resource(&mut self, resource: WorldResource)
        ensures
            final(self).position_spec() == old(self).position_spec(),
            final(self).velocity_spec() == old(self).velocity_spec(),
            final(self).event_spec() == old(self).event_spec(),
            final(self).report_spec() == old(self).report_spec(),
    ;

    /// Notifies the entity of the interaction and action class of the tile it
    /// stands on this frame. Must not handle positional changes; must take
    /// note of what it was told.
    fn update(&mut self, tile_interaction: &TileInteraction, tile_action: &TileAction, time: u32)
        ensures
            final(self).position_spec() == old(self).position_spec(),
            final(self).velocity_spec() == old(self).velocity_spec(),
            final(self).report_spec() == TileReport::Reported(*tile_interaction, *tile_action),
            final(self).resources_spec() == old(self).resources_spec(),
    ;
}

/// A plain world entity: a position, a velocity, a pending event, and a
/// record of what the world last told it. It stands in for richer entity
/// implementations that share the same narrow interface.
#[derive(Debug, PartialEq, Eq, Structural, Clone, Copy)]
pub struct BasicEntity {
    pub position: Vec2,
    pub velocity: Vec2,
    pub pending_event: EntityWorldEvent,
    /// The tile classification the world last reported, if any.
    pub observed: TileReport,
    /// Count of resources received from the world.
    pub dirt_held: u64,
}

impl BasicEntity {
    /// A new entity at a position with a velocity and nothing pending.
    pub fn new(position: Vec2, velocity: Vec2) -> (r: BasicEntity)
        ensures
            r == (BasicEntity {
                position,
                velocity,
                pending_event: EntityWorldEvent::Nothing,
                observed: TileReport::Unreported,
                dirt_held: 0,
            }),
    {
        BasicEntity {
            position,
            velocity,
            pending_event: EntityWorldEvent::Nothing,
            observed: TileReport::Unreported,
            dirt_held: 0,
        }
    }

    /// Raises a world event, replacing any pending one.
    pub fn raise_event(&mut self, e: EntityWorldEvent)
        ensures
            *final(self) == (BasicEntity { pending_event: e, ..*old(self) }),
    {
        self.pending_event = e;
    }
}

impl WorldEntity for BasicEntity {
    open spec fn position_spec(&self) -> Vec2 {
        self.position
    }

    open spec fn velocity_spec(&self) -> Vec2 {
        self.velocity
    }

    open spec fn event_spec(&self) -> EntityWorldEvent {
        self.pending_event
    }

    open spec fn report_spec(&self) -> TileReport {
        self.observed
    }

    open spec fn resources_spec(&self) -> Seq<WorldResource> {
        Seq::new(self.dirt_held as nat, |i: int| WorldResource::Dirt)
    }

    fn get_position(&self) -> (r: Vec2) {
        self.position
    }

    fn get_velocity(&self) -> (r: Vec2) {
        self.velocity
    }

    fn set_position(&mut self, pos: Vec2) {
        self.position = pos;
    }

    fn get_world_event(&mut self) -> (e: EntityWorldEvent) {
        let e = self.pending_event;
        self.pending_event = EntityWorldEvent::Nothing;
        e
    }

    fn give_resource(&mut self, resource: WorldResource) {
        match resource {
            WorldResource::Dirt => {
                if self.dirt_held < u64::MAX {
                    self.dirt_held = self.dirt_held + 1;
                }
            },
        }
    }

    fn update(&mut self, tile_interaction: &TileInteraction, tile_action: &TileAction, time: u32) {
        self.observed = TileReport::Reported(*tile_interaction, *tile_action);
    }
}

} // verus!
