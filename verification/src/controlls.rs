//! Control bindings: the actions a player can hold down, the settings that
//! can be toggled, and the controller that keeps each toggle's state.
//!
//! Reading the keyboard belongs to the host; the controller holds the state
//! the host flips through `set`.

use vstd::prelude::*;

verus! {

/// A momentary control: active while its key is held.
#[derive(Debug, PartialEq, Eq, Structural, Clone, Copy)]
pub enum Controll {
    MoveUp,
    MoveDown,
    MoveLeft,
    MoveRight,
    Attack,
    Roll,
    Block,
    ZoomIn,
    ZoomOut,
    ForceRender,
    MoveSecondaryUp,
    MoveSecondaryDown,
    MoveSecondaryLeft,
    MoveSecondaryRight,
    SecondaryAttack,
    SecondaryRoll,
}

/// A setting flipped by a key press and remembered until flipped again.
#[derive(Debug, PartialEq, Eq, Structural, Clone, Copy)]
pub enum ToggleControll {
    Touch,
    FreeCamera,
    FreeZoom,
    TerrainGeneration,
    OtherAnimations,
    SecondaryPlayer,
    DebugHitbox,
    MapView,
}

/// The state a toggle starts in.
pub open spec fn default_toggle(t: ToggleControll) -> bool {
    match t {
        ToggleControll::Touch => false,
        ToggleControll::FreeCamera => false,
        ToggleControll::FreeZoom => false,
        ToggleControll::TerrainGeneration => true,
        ToggleControll::OtherAnimations => true,
        ToggleControll::SecondaryPlayer => false,
        ToggleControll::DebugHitbox => false,
        ToggleControll::MapView => false,
    }
}

impl ToggleControll {
    /// The state this toggle starts in.
    pub fn default(&self) -> (r: bool)
        ensures
            r == default_toggle(*self),
    {
        match self {
            ToggleControll::Touch => false,
            ToggleControll::FreeCamera => false,
            ToggleControll::FreeZoom => false,
            ToggleControll::TerrainGeneration => true,
            ToggleControll::OtherAnimations => true,
            ToggleControll::SecondaryPlayer => false,
            ToggleControll::DebugHitbox => false,
            ToggleControll::MapView => false,
        }
    }
}

/// Holds the current state of every toggle.
#[derive(Debug, PartialEq, Eq, Structural, Clone, Copy)]
pub struct Controller {
    touch: bool,
    free_camera: bool,
    free_zoom: bool,
    terrain_generation: bool,
    other_animations: bool,
    secondary_player: bool,
    debug_hitbox: bool,
    map_shown: bool,
}

impl Controller {
    /// The current state of a toggle.
    pub closed spec fn enabled_spec(&self, toggle: ToggleControll) -> bool {
        match toggle {
            ToggleControll::Touch => self.touch,
            ToggleControll::FreeCamera => self.free_camera,
            ToggleControll::FreeZoom => self.free_zoom,
            ToggleControll::TerrainGeneration => self.terrain_generation,
            ToggleControll::OtherAnimations => self.other_animations,
            ToggleControll::SecondaryPlayer => self.secondary_player,
            ToggleControll::DebugHitbox => self.debug_hitbox,
            ToggleControll::MapView => self.map_shown,
        }
    }

    /// A controller with every toggle in its starting state.
    pub fn default() -> (r: Controller)
        ensures
            forall|t: ToggleControll| r.enabled_spec(t) == default_toggle(t),
    {
        Controller {
            touch: false,
            free_camera: false,
            free_zoom: false,
            terrain_generation: true,
            other_animations: true,
            secondary_player: false,
            debug_hitbox: false,
            map_shown: false,
        }
    }

    /// Sets one toggle, leaving the others as they are.
    pub fn set(&mut self, toggle: ToggleControll, enabled: bool)
        ensures
            final(self).enabled_spec(toggle) == enabled,
            forall|t: ToggleControll|
                t != toggle ==> final(self).enabled_spec(t) == old(self).enabled_spec(t),
    {
        match toggle {
            ToggleControll::Touch => self.touch = enabled,
            ToggleControll::FreeCamera => self.free_camera = enabled,
            ToggleControll::FreeZoom => self.free_zoom = enabled,
            ToggleControll::TerrainGeneration => self.terrain_generation = enabled,
            ToggleControll::OtherAnimations => self.other_animations = enabled,
            ToggleControll::SecondaryPlayer => self.secondary_player = enabled,
            ToggleControll::DebugHitbox => self.debug_hitbox = enabled,
            ToggleControll::MapView => self.map_shown = enabled,
        }
    }

    /// The current state of a toggle.
    pub fn is_enabled(&self, toggle: ToggleControll) -> (r: bool)
        ensures
            r == self.enabled_spec(toggle),
    {
        match toggle {
            ToggleControll::Touch => self.touch,
            ToggleControll::FreeCamera => self.free_camera,
            ToggleControll::FreeZoom => self.free_zoom,
            ToggleControll::TerrainGeneration => self.terrain_generation,
            ToggleControll::OtherAnimations => self.other_animations,
            ToggleControll::SecondaryPlayer => self.secondary_player,
            ToggleControll::DebugHitbox => self.debug_hitbox,
            ToggleControll::MapView => self.map_shown,
        }
    }
}

} // verus!
