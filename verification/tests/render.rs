use tileworld::chunk::Chunk;
use tileworld::positions::{ChunkPosition, Coords, Rect};
use tileworld::tile::Color;
use tileworld::world::World;

#[test]
fn chunk_render_paints_each_tile_once() {
    let w = World::generate();
    let cmds = w.render(Rect { x: 0, y: 0, w: 8_000, h: 8_000 });
    assert_eq!(cmds.len(), 64);
    for (i, cmd) in cmds.iter().enumerate() {
        let i = i as i64;
        assert_eq!(cmd.x, i / 8);
        assert_eq!(cmd.y, i % 8);
        assert_eq!(cmd.w, 1);
        assert_eq!(cmd.h, 1);
        let tile = w.get_tile(&Coords { x: cmd.x, y: cmd.y }).unwrap();
        assert_eq!(cmd.color, tile.texture.to_color());
    }
}

#[test]
fn render_covers_the_whole_chunk_range() {
    let w = World::generate();
    // Two chunks wide, one high, fully generated: 2 x 1 x 64 unit squares.
    let cmds = w.render(Rect { x: 0, y: 0, w: 16_000, h: 8_000 });
    assert_eq!(cmds.len(), 128);
}

#[test]
fn render_skips_ungenerated_cells() {
    let w = World::generate();
    let cmds = w.render(Rect { x: 800_000, y: 800_000, w: 8_000, h: 8_000 });
    assert_eq!(cmds.len(), 0);
}

#[test]
fn render_falls_back_to_veiled_lazy_chunk() {
    let mut w = World::generate();
    let near = Rect { x: 0, y: 0, w: 8_000, h: 8_000 };
    let far = Rect { x: 400_000, y: 400_000, w: 8_000, h: 8_000 };
    // Full detail only near the camera; the far zone is sampled lazily.
    w.generate_at(near, far);
    let cmds = w.render(far);
    assert_eq!(cmds.len(), 2);
    assert_eq!(cmds[0].x, 400);
    assert_eq!(cmds[0].y, 400);
    assert_eq!(cmds[0].w, 8);
    assert_eq!(cmds[0].h, 8);
    assert_eq!(cmds[1].color, Color { r: 100, g: 100, b: 100, a: 100 });
}

#[test]
fn render_map_distinguishes_unknown_sampled_and_explored() {
    let mut w = World::generate();
    let near = Rect { x: 0, y: 0, w: 8_000, h: 8_000 };
    let far = Rect { x: 400_000, y: 400_000, w: 8_000, h: 8_000 };
    w.generate_at(near, far);

    // Fully explored cell (chunk and lazy chunk): a single opaque square.
    let explored = w.render_map(Rect { x: 0, y: 0, w: 1_000, h: 1_000 });
    assert_eq!(explored.len(), 1);
    assert_eq!((explored[0].x, explored[0].y), (0, 0));
    assert_ne!(explored[0].color, Color { r: 100, g: 100, b: 100, a: 100 });

    // Sampled but not generated: the tile color with a gray veil on top.
    let sampled = w.render_map(Rect { x: 50_000, y: 50_000, w: 1_000, h: 1_000 });
    assert_eq!(sampled.len(), 2);
    assert_eq!((sampled[0].x, sampled[0].y), (50, 50));
    assert_eq!(sampled[1].color, Color { r: 100, g: 100, b: 100, a: 100 });

    // Nothing known at all: one flat gray placeholder.
    let unknown = w.render_map(Rect { x: 90_000, y: 90_000, w: 1_000, h: 1_000 });
    assert_eq!(unknown.len(), 1);
    assert_eq!(unknown[0].color, Color { r: 100, g: 100, b: 100, a: 100 });
}

#[test]
fn render_of_empty_rect_is_empty() {
    let w = World::generate();
    // A zero-size rectangle off the chunk corner still touches its own
    // chunk, because the far corner is rounded up.
    let cmds = w.render(Rect { x: 100, y: 100, w: 0, h: 0 });
    assert_eq!(cmds.len(), 64);
    // On the corner exactly, the half-open range is empty.
    let none = w.render(Rect { x: 0, y: 0, w: 0, h: 0 });
    assert_eq!(none.len(), 0);
}

#[test]
fn dead_chunk_renders_as_red_square() {
    let cmds = Chunk::render_dead(ChunkPosition { x: 1, y: 2 });
    assert_eq!(cmds.len(), 1);
    assert_eq!((cmds[0].x, cmds[0].y, cmds[0].w, cmds[0].h), (8, 16, 8, 8));
    assert_eq!(cmds[0].color, Color { r: 230, g: 41, b: 55, a: 255 });
}

#[test]
fn chunk_border_outline() {
    let w = World::generate();
    let cmds = w.render(Rect { x: 8_000, y: 16_000, w: 1_000, h: 1_000 });
    assert_eq!(cmds.len(), 64);
    // Rebuild the chunk's border request from any of its cells' coordinates.
    let chunk = tileworld::chunk::Chunk::generate(
        ChunkPosition { x: 1, y: 2 },
        &tileworld::noise_field::NoiseField::new(0),
    );
    let border = chunk.render_border();
    assert_eq!((border.x, border.y, border.w, border.h), (8, 16, 8, 8));
    assert_eq!(border.thickness, 100);
    assert_eq!(border.color, Color { r: 230, g: 41, b: 55, a: 255 });
}
