use tileworld::tile::{Color, Tile, TileAction, TileInteraction, TileTexture};

fn check(q: u16, texture: TileTexture, interaction: TileInteraction, action: TileAction) {
    let t = Tile::generate(q);
    assert_eq!(t.texture, texture);
    assert_eq!(t.interaction, interaction);
    assert_eq!(t.action, action);
}

#[test]
fn deep_water_band() {
    check(0, TileTexture::DeepWater, TileInteraction::Walkable, TileAction::Death);
    check(2499, TileTexture::DeepWater, TileInteraction::Walkable, TileAction::Death);
}

#[test]
fn deep_water_to_water_edge() {
    check(2499, TileTexture::DeepWater, TileInteraction::Walkable, TileAction::Death);
    check(2500, TileTexture::Water, TileInteraction::Swimmable, TileAction::Nothing);
}

#[test]
fn water_to_shallow_water_edge() {
    check(4299, TileTexture::Water, TileInteraction::Swimmable, TileAction::Nothing);
    check(4300, TileTexture::ShallowWater, TileInteraction::Crawl, TileAction::Nothing);
}

#[test]
fn shallow_water_to_sand_edge() {
    check(4999, TileTexture::ShallowWater, TileInteraction::Crawl, TileAction::Nothing);
    check(5000, TileTexture::Sand, TileInteraction::Walkable, TileAction::Nothing);
}

#[test]
fn sand_to_grass_edge() {
    check(5199, TileTexture::Sand, TileInteraction::Walkable, TileAction::Nothing);
    check(5200, TileTexture::Grass, TileInteraction::Walkable, TileAction::Nothing);
}

#[test]
fn grass_to_dirt_edge() {
    check(6999, TileTexture::Grass, TileInteraction::Walkable, TileAction::Nothing);
    check(7000, TileTexture::Dirt, TileInteraction::Block, TileAction::Destroyable);
}

#[test]
fn dirt_to_stone_edge() {
    check(7199, TileTexture::Dirt, TileInteraction::Block, TileAction::Destroyable);
    check(7200, TileTexture::Stone, TileInteraction::Block, TileAction::Death);
}

#[test]
fn stone_to_snowy_mountain_edge() {
    check(8499, TileTexture::Stone, TileInteraction::Block, TileAction::Death);
    check(8500, TileTexture::SnowyMountain, TileInteraction::Block, TileAction::Death);
    check(10000, TileTexture::SnowyMountain, TileInteraction::Block, TileAction::Death);
}

#[test]
fn default_tile_is_walkable_grass() {
    let t = Tile::default();
    assert_eq!(t.texture, TileTexture::Grass);
    assert_eq!(t.interaction, TileInteraction::Walkable);
    assert_eq!(t.action, TileAction::Nothing);
}

#[test]
fn texture_colors() {
    assert_eq!(TileTexture::Grass.to_color(), Color { r: 0, g: 228, b: 48, a: 255 });
    assert_eq!(TileTexture::Dirt.to_color(), Color { r: 155, g: 118, b: 83, a: 255 });
    assert_eq!(TileTexture::SnowyMountain.to_color(), Color { r: 255, g: 255, b: 255, a: 255 });
    assert_eq!(TileTexture::DeepWater.to_color(), Color { r: 0, g: 82, b: 172, a: 255 });
}
