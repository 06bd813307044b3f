//! Chunks: fixed-size tile grids generated eagerly from the noise field, and
//! lazy chunks: one representative tile per chunk position for coarse and
//! minimap rendering.
//!
//! Rendering is split from drawing: render functions return the list of
//! fill-rectangle commands, in draw order, and the host paints them.

use vstd::prelude::*;
use crate::noise_field::{noise_sample, NoiseField};
use crate::positions::{ChunkPosition, CHUNK_AREA, CHUNK_SIZE, GEN_LIMIT};
use crate::tile::{classify, color_of, Color, Tile};
use vstd::arithmetic::div_mod::lemma_fundamental_div_mod_converse;

verus! {

/// A request to fill an axis-aligned rectangle of world-tile space with a
/// color. Coordinates and sizes are in whole tiles for full-detail rendering
/// and in whole chunk cells for minimap rendering.
#[derive(Debug, PartialEq, Eq, Structural, Clone, Copy)]
pub struct DrawCommand {
    pub x: i64,
    pub y: i64,
    pub w: i64,
    pub h: i64,
    pub color: Color,
}

/// A request to stroke the border of an axis-aligned rectangle of world-tile
/// space. The corner and sides are in whole tiles; the line thickness is in
/// milli-tiles.
#[derive(Debug, PartialEq, Eq, Structural, Clone, Copy)]
pub struct OutlineCommand {
    pub x: i64,
    pub y: i64,
    pub w: i64,
    pub h: i64,
    pub thickness: i64,
    pub color: Color,
}

/// The semi-transparent gray veil drawn over terrain that is only coarsely
/// known, and the flat placeholder for undiscovered terrain.
pub open spec fn veil_color() -> Color {
    Color { r: 100, g: 100, b: 100, a: 100 }
}

/// The tile of a generated chunk at flat index `i`: the classified noise
/// sample at the world tile coordinate of local offset `(i / CHUNK_SIZE,
/// i % CHUNK_SIZE)`.
pub open spec fn generated_tile(seed: u32, cx: int, cy: int, i: int) -> Tile {
    classify(
        noise_sample(
            seed,
            cx * CHUNK_SIZE + i / (CHUNK_SIZE as int),
            cy * CHUNK_SIZE + i % (CHUNK_SIZE as int),
        ) as int,
    )
}

/// The representative tile of a lazy chunk: the classified noise sample at
/// the chunk's origin tile.
pub open spec fn generated_lazy_tile(seed: u32, cx: int, cy: int) -> Tile {
    classify(noise_sample(seed, cx * CHUNK_SIZE, cy * CHUNK_SIZE) as int)
}

/// The draw commands of a full-detail chunk render: one unit square per tile
/// at its world tile coordinate, in flat-index order.
pub open spec fn chunk_render_seq(cx: int, cy: int, tiles: Seq<Tile>) -> Seq<DrawCommand> {
    Seq::new(
        CHUNK_AREA as nat,
        |i: int|
            DrawCommand {
                x: (cx * CHUNK_SIZE + i / (CHUNK_SIZE as int)) as i64,
                y: (cy * CHUNK_SIZE + i % (CHUNK_SIZE as int)) as i64,
                w: 1,
                h: 1,
                color: color_of(tiles[i].texture),
            },
    )
}

/// The draw commands of a lazy chunk's minimap render: one unit square at the
/// chunk position in the tile's color, veiled when not yet discovered.
pub open spec fn lazy_small_seq(cx: int, cy: int, tile: Tile, discovered: bool) -> Seq<
    DrawCommand,
> {
    let base = DrawCommand {
        x: cx as i64,
        y: cy as i64,
        w: 1,
        h: 1,
        color: color_of(tile.texture),
    };
    let veil = DrawCommand { x: cx as i64, y: cy as i64, w: 1, h: 1, color: veil_color() };
    if discovered {
        seq![base]
    } else {
        seq![base, veil]
    }
}

/// The draw commands of a lazy chunk's coarse full-size render: a
/// `CHUNK_SIZE` square at the chunk's tile-space origin in the tile's color,
/// always veiled.
pub open spec fn lazy_full_seq(cx: int, cy: int, tile: Tile) -> Seq<DrawCommand> {
    let base = DrawCommand {
        x: (cx * CHUNK_SIZE) as i64,
        y: (cy * CHUNK_SIZE) as i64,
        w: CHUNK_SIZE as i64,
        h: CHUNK_SIZE as i64,
        color: color_of(tile.texture),
    };
    let veil = DrawCommand {
        x: (cx * CHUNK_SIZE) as i64,
        y: (cy * CHUNK_SIZE) as i64,
        w: CHUNK_SIZE as i64,
        h: CHUNK_SIZE as i64,
        color: veil_color(),
    };
    seq![base, veil]
}

/// A `CHUNK_SIZE x CHUNK_SIZE` grid of tiles at one chunk position, stored in
/// a flat row-major buffer indexed by `local_x * CHUNK_SIZE + local_y`.
#[derive(Debug, PartialEq, Eq)]
pub struct Chunk {
    pub pos: ChunkPosition,
    pub tiles: Vec<Tile>,
}

impl Chunk {
    /// A chunk's tile buffer always holds exactly one tile per cell.
    pub open spec fn wf(&self) -> bool {
        self.tiles.len() == CHUNK_AREA
    }

    /// Generates the chunk at a position: one noise sample per tile,
    /// classified and stored.
    pub fn generate(chunk_pos: ChunkPosition, noise: &NoiseField) -> (r: Chunk)
        requires
            -GEN_LIMIT <= chunk_pos.x <= GEN_LIMIT,
            -GEN_LIMIT <= chunk_pos.y <= GEN_LIMIT,
        ensures
            r.wf(),
            r.pos == chunk_pos,
            forall|i: int|
                0 <= i < CHUNK_AREA ==> r.tiles[i] == generated_tile(
                    noise.seed_spec(),
                    chunk_pos.x as int,
                    chunk_pos.y as int,
                    i,
                ),
    {
        let mut tiles: Vec<Tile> = Vec::new();
        let mut x: i64 = 0;
        while x < CHUNK_SIZE
            invariant
                0 <= x <= CHUNK_SIZE,
                tiles.len() == x * CHUNK_SIZE,
                -GEN_LIMIT <= chunk_pos.x <= GEN_LIMIT,
                -GEN_LIMIT <= chunk_pos.y <= GEN_LIMIT,
                forall|i: int|
                    0 <= i < tiles.len() ==> tiles[i] == generated_tile(
                        noise.seed_spec(),
                        chunk_pos.x as int,
                        chunk_pos.y as int,
                        i,
                    ),
            decreases CHUNK_SIZE - x,
        {
            let mut y: i64 = 0;
            while y < CHUNK_SIZE
                invariant
                    0 <= x < CHUNK_SIZE,
                    0 <= y <= CHUNK_SIZE,
                    tiles.len() == x * CHUNK_SIZE + y,
                    -GEN_LIMIT <= chunk_pos.x <= GEN_LIMIT,
                    -GEN_LIMIT <= chunk_pos.y <= GEN_LIMIT,
                    forall|i: int|
                        0 <= i < tiles.len() ==> tiles[i] == generated_tile(
                            noise.seed_spec(),
                            chunk_pos.x as int,
                            chunk_pos.y as int,
                            i,
                        ),
                decreases CHUNK_SIZE - y,
            {
                let tx: i64 = chunk_pos.x * CHUNK_SIZE + x;
                let ty: i64 = chunk_pos.y * CHUNK_SIZE + y;
                let q = noise.sample(tx as i32, ty as i32);
                let tile = Tile::generate(q);
                proof {
                    lemma_fundamental_div_mod_converse(
                        x * CHUNK_SIZE + y,
                        CHUNK_SIZE as int,
                        x as int,
                        y as int,
                    );
                }
                tiles.push(tile);
                y = y + 1;
            }
            x = x + 1;
        }
        Chunk { pos: chunk_pos, tiles }
    }

    /// The full-detail render of this chunk: one filled unit square per tile
    /// at its world tile coordinate, in flat-index order.
    pub fn render(&self) -> (r: Vec<DrawCommand>)
        requires
            self.wf(),
            -GEN_LIMIT <= self.pos.x <= GEN_LIMIT,
            -GEN_LIMIT <= self.pos.y <= GEN_LIMIT,
        ensures
            r@ == chunk_render_seq(self.pos.x as int, self.pos.y as int, self.tiles@),
    {
        let mut cmds: Vec<DrawCommand> = Vec::new();
        let mut x: i64 = 0;
        while x < CHUNK_SIZE
            invariant
                self.wf(),
                -GEN_LIMIT <= self.pos.x <= GEN_LIMIT,
                -GEN_LIMIT <= self.pos.y <= GEN_LIMIT,
                0 <= x <= CHUNK_SIZE,
                cmds.len() == x * CHUNK_SIZE,
                forall|i: int| 0 <= i < cmds.len() ==> cmds[i] == chunk_render_seq(self.pos.x as int, self.pos.y as int, self.tiles@)[i],
            decreases CHUNK_SIZE - x,
        {
            let mut y: i64 = 0;
            while y < CHUNK_SIZE
                invariant
                    self.wf(),
                    -GEN_LIMIT <= self.pos.x <= GEN_LIMIT,
                    -GEN_LIMIT <= self.pos.y <= GEN_LIMIT,
                    0 <= x < CHUNK_SIZE,
                    0 <= y <= CHUNK_SIZE,
                    cmds.len() == x * CHUNK_SIZE + y,
                    forall|i: int| 0 <= i < cmds.len() ==> cmds[i] == chunk_render_seq(self.pos.x as int, self.pos.y as int, self.tiles@)[i],
                decreases CHUNK_SIZE - y,
            {
                let idx: usize = (x * CHUNK_SIZE + y) as usize;
                let tile = self.tiles[idx];
                let color = tile.texture.to_color();
                proof {
                    lemma_fundamental_div_mod_converse(
                        x * CHUNK_SIZE + y,
                        CHUNK_SIZE as int,
                        x as int,
                        y as int,
                    );
                }
                cmds.push(
                    DrawCommand {
                        x: self.pos.x * CHUNK_SIZE + x,
                        y: self.pos.y * CHUNK_SIZE + y,
                        w: 1,
                        h: 1,
                        color,
                    },
                );
                y = y + 1;
            }
            x = x + 1;
        }
        proof {
            assert(cmds@ =~= chunk_render_seq(self.pos.x as int, self.pos.y as int, self.tiles@));
        }
        cmds
    }
}

/// The draw commands marking a chunk position as dead ground: one red
/// `CHUNK_SIZE` square at the chunk's tile-space origin.
pub open spec fn dead_seq(cx: int, cy: int) -> Seq<DrawCommand> {
    seq![
        DrawCommand {
            x: (cx * CHUNK_SIZE) as i64,
            y: (cy * CHUNK_SIZE) as i64,
            w: CHUNK_SIZE as i64,
            h: CHUNK_SIZE as i64,
            color: Color { r: 230, g: 41, b: 55, a: 255 },
        },
    ]
}

impl Chunk {
    /// The debug render of this chunk's border: a red outline of its
    /// footprint, a tenth of a tile thick.
    pub fn render_border(&self) -> (r: OutlineCommand)
        requires
            -GEN_LIMIT <= self.pos.x <= GEN_LIMIT,
            -GEN_LIMIT <= self.pos.y <= GEN_LIMIT,
        ensures
            r == (OutlineCommand {
                x: (self.pos.x * CHUNK_SIZE) as i64,
                y: (self.pos.y * CHUNK_SIZE) as i64,
                w: CHUNK_SIZE as i64,
                h: CHUNK_SIZE as i64,
                thickness: 100,
                color: Color { r: 230, g: 41, b: 55, a: 255 },
            }),
    {
        OutlineCommand {
            x: self.pos.x * CHUNK_SIZE,
            y: self.pos.y * CHUNK_SIZE,
            w: CHUNK_SIZE,
            h: CHUNK_SIZE,
            thickness: 100,
            color: Color { r: 230, g: 41, b: 55, a: 255 },
        }
    }

    /// The debug render of a dead chunk position: a red square over its
    /// whole footprint.
    pub fn render_dead(pos: ChunkPosition) -> (r: Vec<DrawCommand>)
        requires
            -GEN_LIMIT <= pos.x <= GEN_LIMIT,
            -GEN_LIMIT <= pos.y <= GEN_LIMIT,
        ensures
            r@ == dead_seq(pos.x as int, pos.y as int),
    {
        let mut cmds: Vec<DrawCommand> = Vec::new();
        cmds.push(
            DrawCommand {
                x: pos.x * CHUNK_SIZE,
                y: pos.y * CHUNK_SIZE,
                w: CHUNK_SIZE,
                h: CHUNK_SIZE,
                color: Color { r: 230, g: 41, b: 55, a: 255 },
            },
        );
        proof {
            assert(cmds@ =~= dead_seq(pos.x as int, pos.y as int));
        }
        cmds
    }
}

/// A single representative tile standing in for a whole chunk, used for
/// minimap display and as a coarse fallback before the full chunk exists.
#[derive(Debug, PartialEq, Eq, Structural, Clone, Copy)]
pub struct LazyChunk {
    pub tile: Tile,
    pub pos: ChunkPosition,
}

impl LazyChunk {
    /// Generates the lazy chunk at a position: a single noise sample at the
    /// chunk's origin tile, classified once.
    pub fn generate(chunk_pos: ChunkPosition, noise: &NoiseField) -> (r: LazyChunk)
        requires
            -GEN_LIMIT <= chunk_pos.x <= GEN_LIMIT,
            -GEN_LIMIT <= chunk_pos.y <= GEN_LIMIT,
        ensures
            r.pos == chunk_pos,
            r.tile == generated_lazy_tile(noise.seed_spec(), chunk_pos.x as int, chunk_pos.y as int),
    {
        let tx: i64 = chunk_pos.x * CHUNK_SIZE;
        let ty: i64 = chunk_pos.y * CHUNK_SIZE;
        let q = noise.sample(tx as i32, ty as i32);
        LazyChunk { tile: Tile::generate(q), pos: chunk_pos }
    }

    /// The minimap render of this lazy chunk: one unit square at the chunk
    /// position in the tile's color, with a gray veil when undiscovered.
    pub fn render_small(&self, discovered: bool) -> (r: Vec<DrawCommand>)
        ensures
            r@ == lazy_small_seq(self.pos.x as int, self.pos.y as int, self.tile, discovered),
    {
        let color = self.tile.texture.to_color();
        let mut cmds: Vec<DrawCommand> = Vec::new();
        cmds.push(DrawCommand { x: self.pos.x, y: self.pos.y, w: 1, h: 1, color });
        if !discovered {
            cmds.push(
                DrawCommand {
                    x: self.pos.x,
                    y: self.pos.y,
                    w: 1,
                    h: 1,
                    color: Color { r: 100, g: 100, b: 100, a: 100 },
                },
            );
        }
        proof {
            assert(cmds@ =~= lazy_small_seq(self.pos.x as int, self.pos.y as int, self.tile, discovered));
        }
        cmds
    }

    /// The coarse full-size render of this lazy chunk: a `CHUNK_SIZE` square
    /// at the chunk's tile-space origin in the tile's color, always veiled.
    pub fn render(&self) -> (r: Vec<DrawCommand>)
        requires
            -GEN_LIMIT <= self.pos.x <= GEN_LIMIT,
            -GEN_LIMIT <= self.pos.y <= GEN_LIMIT,
        ensures
            r@ == lazy_full_seq(self.pos.x as int, self.pos.y as int, self.tile),
    {
        let color = self.tile.texture.to_color();
        let x: i64 = self.pos.x * CHUNK_SIZE;
        let y: i64 = self.pos.y * CHUNK_SIZE;
        let mut cmds: Vec<DrawCommand> = Vec::new();
        cmds.push(DrawCommand { x, y, w: CHUNK_SIZE, h: CHUNK_SIZE, color });
        cmds.push(
            DrawCommand {
                x,
                y,
                w: CHUNK_SIZE,
                h: CHUNK_SIZE,
                color: Color { r: 100, g: 100, b: 100, a: 100 },
            },
        );
        proof {
            assert(cmds@ =~= lazy_full_seq(self.pos.x as int, self.pos.y as int, self.tile));
        }
        cmds
    }
}

} // verus!
