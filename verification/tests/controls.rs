use tileworld::controlls::{Controller, ToggleControll};

#[test]
fn toggle_defaults() {
    assert!(!ToggleControll::Touch.default());
    assert!(!ToggleControll::FreeCamera.default());
    assert!(!ToggleControll::FreeZoom.default());
    assert!(ToggleControll::TerrainGeneration.default());
    assert!(ToggleControll::OtherAnimations.default());
    assert!(!ToggleControll::SecondaryPlayer.default());
    assert!(!ToggleControll::DebugHitbox.default());
    assert!(!ToggleControll::MapView.default());
}

#[test]
fn controller_starts_at_defaults() {
    let c = Controller::default();
    assert!(!c.is_enabled(ToggleControll::Touch));
    assert!(c.is_enabled(ToggleControll::TerrainGeneration));
    assert!(c.is_enabled(ToggleControll::OtherAnimations));
    assert!(!c.is_enabled(ToggleControll::MapView));
}

#[test]
fn set_changes_one_toggle_only() {
    let mut c = Controller::default();
    c.set(ToggleControll::Touch, true);
    assert!(c.is_enabled(ToggleControll::Touch));
    assert!(c.is_enabled(ToggleControll::TerrainGeneration));
    assert!(!c.is_enabled(ToggleControll::FreeCamera));
    c.set(ToggleControll::TerrainGeneration, false);
    assert!(!c.is_enabled(ToggleControll::TerrainGeneration));
    assert!(c.is_enabled(ToggleControll::Touch));
}

#[test]
fn host_driven_toggle_flip() {
    // The host flips a toggle on a key press by reading and rewriting it.
    let mut c = Controller::default();
    let current = c.is_enabled(ToggleControll::MapView);
    c.set(ToggleControll::MapView, !current);
    assert!(c.is_enabled(ToggleControll::MapView));
    let current = c.is_enabled(ToggleControll::MapView);
    c.set(ToggleControll::MapView, !current);
    assert!(!c.is_enabled(ToggleControll::MapView));
}
