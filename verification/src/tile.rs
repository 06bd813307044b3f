//! Tiles and the classifier that maps a noise sample to a tile.
//!
//! A noise sample is a quantized value in `[0, NOISE_SCALE]` standing for the
//! unit interval. The classifier walks ordered threshold bands, lowest first;
//! the first band that contains the sample decides the tile's texture,
//! movement interaction and special action.

use vstd::prelude::*;

verus! {

/// Quantization of the unit interval for noise samples: a sample `q` stands
/// for `q / NOISE_SCALE`.
pub const NOISE_SCALE: u16 = 10000;

/// Classifier band edges, as `NOISE_SCALE` fractions of the unit interval.
pub const DEEP_WATER_EDGE: u16 = 2500;
pub const WATER_EDGE: u16 = 4300;
pub const SHALLOW_WATER_EDGE: u16 = 5000;
pub const SAND_EDGE: u16 = 5200;
pub const GRASS_EDGE: u16 = 7000;
pub const DIRT_EDGE: u16 = 7200;
pub const STONE_EDGE: u16 = 8500;

/// Visual category of a tile; maps to a display color.
#[derive(Debug, PartialEq, Eq, Structural, Clone, Copy)]
pub enum TileTexture {
    Grass,
    Water,
    ShallowWater,
    Sand,
    DeepWater,
    Dirt,
    Stone,
    SnowyMountain,
}

/// Movement permission class of a tile.
#[derive(Debug, PartialEq, Eq, Structural, Clone, Copy)]
pub enum TileInteraction {
    Block,
    Walkable,
    Swimmable,
    Crawl,
}

/// Special effect class of a tile.
#[derive(Debug, PartialEq, Eq, Structural, Clone, Copy)]
pub enum TileAction {
    Nothing,
    Destroyable,
    Death,
}

/// One terrain tile.
#[derive(Debug, PartialEq, Eq, Structural, Clone, Copy)]
pub struct Tile {
    pub texture: TileTexture,
    pub interaction: TileInteraction,
    pub action: TileAction,
}

/// An RGBA display color, one byte per channel.
#[derive(Debug, PartialEq, Eq, Structural, Clone, Copy)]
pub struct Color {
    pub r: u8,
    pub g: u8,
    pub b: u8,
    pub a: u8,
}

/// The tile the classifier assigns to a quantized noise sample: ordered
/// threshold bands, evaluated low to high, first match wins.
pub open spec fn classify(q: int) -> Tile {
    if q < DEEP_WATER_EDGE as int {
        Tile {
            texture: TileTexture::DeepWater,
            interaction: TileInteraction::Walkable,
            action: TileAction::Death,
        }
    } else if q < WATER_EDGE as int {
        Tile {
            texture: TileTexture::Water,
            interaction: TileInteraction::Swimmable,
            action: TileAction::Nothing,
        }
    } else if q < SHALLOW_WATER_EDGE as int {
        Tile {
            texture: TileTexture::ShallowWater,
            interaction: TileInteraction::Crawl,
            action: TileAction::Nothing,
        }
    } else if q < SAND_EDGE as int {
        Tile {
            texture: TileTexture::Sand,
            interaction: TileInteraction::Walkable,
            action: TileAction::Nothing,
        }
    } else if q < GRASS_EDGE as int {
        Tile {
            texture: TileTexture::Grass,
            interaction: TileInteraction::Walkable,
            action: TileAction::Nothing,
        }
    } else if q < DIRT_EDGE as int {
        Tile {
            texture: TileTexture::Dirt,
            interaction: TileInteraction::Block,
            action: TileAction::Destroyable,
        }
    } else if q < STONE_EDGE as int {
        Tile {
            texture: TileTexture::Stone,
            interaction: TileInteraction::Block,
            action: TileAction::Death,
        }
    } else {
        Tile {
            texture: TileTexture::SnowyMountain,
            interaction: TileInteraction::Block,
            action: TileAction::Death,
        }
    }
}

/// The default tile: grass, walkable, no action. Destroyed tiles revert to it.
pub open spec fn default_tile() -> Tile {
    Tile {
        texture: TileTexture::Grass,
        interaction: TileInteraction::Walkable,
        action: TileAction::Nothing,
    }
}

impl Tile {
    /// Classifies a quantized noise sample into a tile.
    pub fn generate(q: u16) -> (r: Tile)
        ensures
            r == classify(q as int),
    {
        let (texture, interaction, action) = if q < DEEP_WATER_EDGE {
            (TileTexture::DeepWater, TileInteraction::Walkable, TileAction::Death)
        } else if q < WATER_EDGE {
            (TileTexture::Water, TileInteraction::Swimmable, TileAction::Nothing)
        } else if q < SHALLOW_WATER_EDGE {
            (TileTexture::ShallowWater, TileInteraction::Crawl, TileAction::Nothing)
        } else if q < SAND_EDGE {
            (TileTexture::Sand, TileInteraction::Walkable, TileAction::Nothing)
        } else if q < GRASS_EDGE {
            (TileTexture::Grass, TileInteraction::Walkable, TileAction::Nothing)
        } else if q < DIRT_EDGE {
            (TileTexture::Dirt, TileInteraction::Block, TileAction::Destroyable)
        } else if q < STONE_EDGE {
            (TileTexture::Stone, TileInteraction::Block, TileAction::Death)
        } else {
            (TileTexture::SnowyMountain, TileInteraction::Block, TileAction::Death)
        };
        Tile { texture, interaction, action }
    }
}

impl Default for Tile {
    /// The default tile: grass, walkable, no action.
    fn default() -> (r: Self)
        ensures
            r == default_tile(),
    {
        Tile {
            texture: TileTexture::Grass,
            interaction: TileInteraction::Walkable,
            action: TileAction::Nothing,
        }
    }
}

/// The display color of a texture.
pub open spec fn color_of(t: TileTexture) -> Color {
    match t {
        TileTexture::Grass => Color { r: 0, g: 228, b: 48, a: 255 },
        TileTexture::ShallowWater => Color { r: 102, g: 191, b: 255, a: 255 },
        TileTexture::Water => Color { r: 0, g: 121, b: 241, a: 255 },
        TileTexture::DeepWater => Color { r: 0, g: 82, b: 172, a: 255 },
        TileTexture::Stone => Color { r: 130, g: 130, b: 130, a: 255 },
        TileTexture::SnowyMountain => Color { r: 255, g: 255, b: 255, a: 255 },
        TileTexture::Sand => Color { r: 253, g: 249, b: 0, a: 255 },
        TileTexture::Dirt => Color { r: 155, g: 118, b: 83, a: 255 },
    }
}

impl TileTexture {
    /// The display color of this texture.
    pub fn to_color(&self) -> (r: Color)
        ensures
            r == color_of(*self),
    {
        match self {
            TileTexture::Grass => Color { r: 0, g: 228, b: 48, a: 255 },
            TileTexture::ShallowWater => Color { r: 102, g: 191, b: 255, a: 255 },
            TileTexture::Water => Color { r: 0, g: 121, b: 241, a: 255 },
            TileTexture::DeepWater => Color { r: 0, g: 82, b: 172, a: 255 },
            TileTexture::Stone => Color { r: 130, g: 130, b: 130, a: 255 },
            TileTexture::SnowyMountain => Color { r: 255, g: 255, b: 255, a: 255 },
            TileTexture::Sand => Color { r: 253, g: 249, b: 0, a: 255 },
            TileTexture::Dirt => Color { r: 155, g: 118, b: 83, a: 255 },
        }
    }
}

} // verus!
