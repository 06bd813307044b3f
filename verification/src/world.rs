//! The world: owns the generated chunks and lazy chunks keyed by chunk
//! position, owns the noise field, and offers on-demand generation within a
//! rectangle, rendering within a viewport, tile lookup and mutation, and
//! entity-movement resolution against the tile grid.
//!
//! Both chunk stores are append-only: once a chunk position is present its
//! chunk is never replaced, and only the explicit single-tile destroy
//! mutation changes a tile inside an existing chunk.

use vstd::prelude::*;
use vstd::arithmetic::div_mod::{lemma_div_is_ordered, lemma_div_nonincreasing, lemma_div_pos_is_pos};
use crate::chunk::{
    chunk_render_seq, generated_lazy_tile, generated_tile, lazy_full_seq, lazy_small_seq,
    veil_color, Chunk, DrawCommand, LazyChunk,
};
use crate::entity::{EntityWorldEvent, TileReport, WorldEntity};
use crate::noise_field::NoiseField;
use crate::positions::{
    chunk_of, get_tiles_in_half_circle, in_disc, in_zone, lemma_chunk_addressing_roundtrip,
    lemma_tile_key_injective, local_of, map_max_x, map_max_y, map_min_x, map_min_y, round_to_tile,
    trunc_div, zone_max_x, zone_max_y, zone_min_x, zone_min_y, ChunkPosition, Coords, Rect, Vec2,
    CHUNK_AREA, CHUNK_SIZE, CHUNK_SPAN, GEN_LIMIT, GEN_SPAN, POS_LIMIT, POS_SCALE, POS_SLACK,
};
use crate::tile::{default_tile, Tile, TileAction, TileInteraction};

verus! {

/// Bound on entity velocity components, in milli-tiles per second.
pub const VEL_LIMIT: i64 = 10_000_000;

/// Bound on a frame's duration, in milliseconds.
pub const DT_LIMIT: u32 = 60_000;

/// Chunk half-span of the eagerly generated starting region.
pub const INITIAL_SPAN: i64 = 10;

/// The seed every world is generated from.
pub const WORLD_SEED: u32 = 0;

// The chunk store model: a sequence of chunks with pairwise distinct
// positions, read as a finite map from chunk position to tile buffer.

/// No two chunks of the sequence share a position.
pub(crate) open spec fn chunks_distinct(s: Seq<Chunk>) -> bool {
    forall|i: int, j: int|
        0 <= i < j < s.len() ==> !(s[i].pos.x == s[j].pos.x && s[i].pos.y == s[j].pos.y)
}

/// Every chunk is well formed and lies in the generation domain.
pub(crate) open spec fn chunks_wf(s: Seq<Chunk>) -> bool {
    &&& chunks_distinct(s)
    &&& forall|i: int|
        0 <= i < s.len() ==> (#[trigger] s[i]).wf() && -GEN_LIMIT <= s[i].pos.x <= GEN_LIMIT
            && -GEN_LIMIT <= s[i].pos.y <= GEN_LIMIT
}

/// Whether some chunk of the sequence sits at a chunk position.
pub(crate) open spec fn seq_has_chunk(s: Seq<Chunk>, cx: int, cy: int) -> bool {
    exists|i: int| 0 <= i < s.len() && s[i].pos.x == cx && s[i].pos.y == cy
}

/// The index of the chunk at a position, where one exists.
pub(crate) open spec fn chunk_index_of(s: Seq<Chunk>, cx: int, cy: int) -> int {
    choose|i: int| 0 <= i < s.len() && s[i].pos.x == cx && s[i].pos.y == cy
}

/// The tile buffer of the chunk at a position, where one exists.
pub(crate) open spec fn seq_chunk_tiles(s: Seq<Chunk>, cx: int, cy: int) -> Seq<Tile> {
    s[chunk_index_of(s, cx, cy)].tiles@
}

/// No two lazy chunks of the sequence share a position.
pub(crate) open spec fn lazys_distinct(s: Seq<LazyChunk>) -> bool {
    forall|i: int, j: int|
        0 <= i < j < s.len() ==> !(s[i].pos.x == s[j].pos.x && s[i].pos.y == s[j].pos.y)
}

/// Every lazy chunk lies in the generation domain.
pub(crate) open spec fn lazys_wf(s: Seq<LazyChunk>) -> bool {
    &&& lazys_distinct(s)
    &&& forall|i: int|
        0 <= i < s.len() ==> -GEN_LIMIT <= (#[trigger] s[i]).pos.x <= GEN_LIMIT && -GEN_LIMIT
            <= s[i].pos.y <= GEN_LIMIT
}

/// Whether some lazy chunk of the sequence sits at a chunk position.
pub(crate) open spec fn seq_has_lazy(s: Seq<LazyChunk>, cx: int, cy: int) -> bool {
    exists|i: int| 0 <= i < s.len() && s[i].pos.x == cx && s[i].pos.y == cy
}

/// The index of the lazy chunk at a position, where one exists.
pub(crate) open spec fn lazy_index_of(s: Seq<LazyChunk>, cx: int, cy: int) -> int {
    choose|i: int| 0 <= i < s.len() && s[i].pos.x == cx && s[i].pos.y == cy
}

/// The representative tile of the lazy chunk at a position, where one exists.
pub(crate) open spec fn seq_lazy_tile(s: Seq<LazyChunk>, cx: int, cy: int) -> Tile {
    s[lazy_index_of(s, cx, cy)].tile
}

/// Under distinctness, the chunk found at any index is the one the model
/// reads at its position.
proof fn lemma_chunk_lookup(s: Seq<Chunk>, i: int)
    requires
        chunks_distinct(s),
        0 <= i < s.len(),
    ensures
        seq_has_chunk(s, s[i].pos.x as int, s[i].pos.y as int),
        chunk_index_of(s, s[i].pos.x as int, s[i].pos.y as int) == i,
        seq_chunk_tiles(s, s[i].pos.x as int, s[i].pos.y as int) == s[i].tiles@,
{
    let cx = s[i].pos.x as int;
    let cy = s[i].pos.y as int;
    assert(0 <= i < s.len() && s[i].pos.x == cx && s[i].pos.y == cy);
    assert(seq_has_chunk(s, cx, cy));
    let j = chunk_index_of(s, cx, cy);
    if j != i {
        if j < i {
            assert(!(s[j].pos.x == s[i].pos.x && s[j].pos.y == s[i].pos.y));
        } else {
            assert(!(s[i].pos.x == s[j].pos.x && s[i].pos.y == s[j].pos.y));
        }
    }
}

/// Under distinctness, the lazy chunk found at any index is the one the
/// model reads at its position.
proof fn lemma_lazy_lookup(s: Seq<LazyChunk>, i: int)
    requires
        lazys_distinct(s),
        0 <= i < s.len(),
    ensures
        seq_has_lazy(s, s[i].pos.x as int, s[i].pos.y as int),
        lazy_index_of(s, s[i].pos.x as int, s[i].pos.y as int) == i,
        seq_lazy_tile(s, s[i].pos.x as int, s[i].pos.y as int) == s[i].tile,
{
    let cx = s[i].pos.x as int;
    let cy = s[i].pos.y as int;
    assert(0 <= i < s.len() && s[i].pos.x == cx && s[i].pos.y == cy);
    assert(seq_has_lazy(s, cx, cy));
    let j = lazy_index_of(s, cx, cy);
    if j != i {
        if j < i {
            assert(!(s[j].pos.x == s[i].pos.x && s[j].pos.y == s[i].pos.y));
        } else {
            assert(!(s[i].pos.x == s[j].pos.x && s[i].pos.y == s[j].pos.y));
        }
    }
}

/// Pushing a chunk at an absent position adds exactly that key and keeps
/// every other binding.
proof fn lemma_chunk_push(s: Seq<Chunk>, c: Chunk)
    requires
        chunks_distinct(s),
        !seq_has_chunk(s, c.pos.x as int, c.pos.y as int),
    ensures
        chunks_distinct(s.push(c)),
        forall|cx: int, cy: int|
            #[trigger] seq_has_chunk(s.push(c), cx, cy) <==> (seq_has_chunk(s, cx, cy) || (cx
                == c.pos.x && cy == c.pos.y)),
        seq_chunk_tiles(s.push(c), c.pos.x as int, c.pos.y as int) == c.tiles@,
        forall|cx: int, cy: int|
            seq_has_chunk(s, cx, cy) ==> #[trigger] seq_chunk_tiles(s.push(c), cx, cy)
                == seq_chunk_tiles(s, cx, cy),
{
    let t = s.push(c);
    assert(t[s.len() as int] == c);
    assert forall|i: int, j: int| 0 <= i < j < t.len() implies !(t[i].pos.x == t[j].pos.x
        && t[i].pos.y == t[j].pos.y) by {
        if j < s.len() {
        } else {
            assert(t[j] == c);
            if t[i].pos.x == c.pos.x && t[i].pos.y == c.pos.y {
                assert(seq_has_chunk(s, c.pos.x as int, c.pos.y as int));
            }
        }
    }
    assert forall|cx: int, cy: int| #[trigger] seq_has_chunk(t, cx, cy) implies (seq_has_chunk(
        s,
        cx,
        cy,
    ) || (cx == c.pos.x && cy == c.pos.y)) by {
        let i = choose|i: int| 0 <= i < t.len() && t[i].pos.x == cx && t[i].pos.y == cy;
        if i < s.len() {
            assert(s[i] == t[i]);
            assert(seq_has_chunk(s, cx, cy));
        }
    }
    assert forall|cx: int, cy: int| (seq_has_chunk(s, cx, cy) || (cx == c.pos.x && cy
        == c.pos.y)) implies #[trigger] seq_has_chunk(t, cx, cy) by {
        if seq_has_chunk(s, cx, cy) {
            let i = choose|i: int| 0 <= i < s.len() && s[i].pos.x == cx && s[i].pos.y == cy;
            assert(t[i] == s[i]);
            assert(seq_has_chunk(t, cx, cy));
        } else {
            assert(t[s.len() as int].pos.x == cx && t[s.len() as int].pos.y == cy);
            assert(seq_has_chunk(t, cx, cy));
        }
    }
    lemma_chunk_lookup(t, s.len() as int);
    assert forall|cx: int, cy: int| seq_has_chunk(s, cx, cy) implies #[trigger] seq_chunk_tiles(
        t,
        cx,
        cy,
    ) == seq_chunk_tiles(s, cx, cy) by {
        let i = chunk_index_of(s, cx, cy);
        assert(0 <= i < s.len() && s[i].pos.x == cx && s[i].pos.y == cy);
        assert(t[i] == s[i]);
        lemma_chunk_lookup(t, i);
        lemma_chunk_lookup(s, i);
    }
}

/// Pushing a lazy chunk at an absent position adds exactly that key and
/// keeps every other binding.
proof fn lemma_lazy_push(s: Seq<LazyChunk>, c: LazyChunk)
    requires
        lazys_distinct(s),
        !seq_has_lazy(s, c.pos.x as int, c.pos.y as int),
    ensures
        lazys_distinct(s.push(c)),
        forall|cx: int, cy: int|
            #[trigger] seq_has_lazy(s.push(c), cx, cy) <==> (seq_has_lazy(s, cx, cy) || (cx
                == c.pos.x && cy == c.pos.y)),
        seq_lazy_tile(s.push(c), c.pos.x as int, c.pos.y as int) == c.tile,
        forall|cx: int, cy: int|
            seq_has_lazy(s, cx, cy) ==> #[trigger] seq_lazy_tile(s.push(c), cx, cy)
                == seq_lazy_tile(s, cx, cy),
{
    let t = s.push(c);
    assert(t[s.len() as int] == c);
    assert forall|i: int, j: int| 0 <= i < j < t.len() implies !(t[i].pos.x == t[j].pos.x
        && t[i].pos.y == t[j].pos.y) by {
        if j < s.len() {
        } else {
            assert(t[j] == c);
            if t[i].pos.x == c.pos.x && t[i].pos.y == c.pos.y {
                assert(seq_has_lazy(s, c.pos.x as int, c.pos.y as int));
            }
        }
    }
    assert forall|cx: int, cy: int| #[trigger] seq_has_lazy(t, cx, cy) implies (seq_has_lazy(
        s,
        cx,
        cy,
    ) || (cx == c.pos.x && cy == c.pos.y)) by {
        let i = choose|i: int| 0 <= i < t.len() && t[i].pos.x == cx && t[i].pos.y == cy;
        if i < s.len() {
            assert(s[i] == t[i]);
            assert(seq_has_lazy(s, cx, cy));
        }
    }
    assert forall|cx: int, cy: int| (seq_has_lazy(s, cx, cy) || (cx == c.pos.x && cy
        == c.pos.y)) implies #[trigger] seq_has_lazy(t, cx, cy) by {
        if seq_has_lazy(s, cx, cy) {
            let i = choose|i: int| 0 <= i < s.len() && s[i].pos.x == cx && s[i].pos.y == cy;
            assert(t[i] == s[i]);
            assert(seq_has_lazy(t, cx, cy));
        } else {
            assert(t[s.len() as int].pos.x == cx && t[s.len() as int].pos.y == cy);
            assert(seq_has_lazy(t, cx, cy));
        }
    }
    lemma_lazy_lookup(t, s.len() as int);
    assert forall|cx: int, cy: int| seq_has_lazy(s, cx, cy) implies #[trigger] seq_lazy_tile(
        t,
        cx,
        cy,
    ) == seq_lazy_tile(s, cx, cy) by {
        let i = lazy_index_of(s, cx, cy);
        assert(0 <= i < s.len() && s[i].pos.x == cx && s[i].pos.y == cy);
        assert(t[i] == s[i]);
        lemma_lazy_lookup(t, i);
        lemma_lazy_lookup(s, i);
    }
}

/// Replacing the chunk at an index with one at the same position keeps every
/// key, rebinds that position to the new tiles, and keeps the others.
proof fn lemma_chunk_update(s: Seq<Chunk>, t: Seq<Chunk>, i: int)
    requires
        chunks_distinct(s),
        0 <= i < s.len(),
        t.len() == s.len(),
        t[i].pos == s[i].pos,
        forall|k: int| 0 <= k < s.len() && k != i ==> t[k] == s[k],
    ensures
        chunks_distinct(t),
        forall|cx: int, cy: int|
            #[trigger] seq_has_chunk(t, cx, cy) <==> seq_has_chunk(s, cx, cy),
        seq_chunk_tiles(t, s[i].pos.x as int, s[i].pos.y as int) == t[i].tiles@,
        forall|cx: int, cy: int|
            seq_has_chunk(s, cx, cy) && !(cx == s[i].pos.x && cy == s[i].pos.y)
                ==> #[trigger] seq_chunk_tiles(t, cx, cy) == seq_chunk_tiles(s, cx, cy),
{
    assert forall|a: int, b: int| 0 <= a < b < t.len() implies !(t[a].pos.x == t[b].pos.x
        && t[a].pos.y == t[b].pos.y) by {
        assert(t[a].pos == s[a].pos);
        assert(t[b].pos == s[b].pos);
    }
    assert forall|cx: int, cy: int| #[trigger] seq_has_chunk(t, cx, cy) implies seq_has_chunk(
        s,
        cx,
        cy,
    ) by {
        let a = choose|a: int| 0 <= a < t.len() && t[a].pos.x == cx && t[a].pos.y == cy;
        assert(s[a].pos == t[a].pos);
        assert(seq_has_chunk(s, cx, cy));
    }
    assert forall|cx: int, cy: int| seq_has_chunk(s, cx, cy) implies #[trigger] seq_has_chunk(
        t,
        cx,
        cy,
    ) by {
        let a = choose|a: int| 0 <= a < s.len() && s[a].pos.x == cx && s[a].pos.y == cy;
        assert(t[a].pos == s[a].pos);
        assert(seq_has_chunk(t, cx, cy));
    }
    lemma_chunk_lookup(t, i);
    assert forall|cx: int, cy: int|
        seq_has_chunk(s, cx, cy) && !(cx == s[i].pos.x && cy
            == s[i].pos.y) implies #[trigger] seq_chunk_tiles(t, cx, cy) == seq_chunk_tiles(
        s,
        cx,
        cy,
    ) by {
        let a = chunk_index_of(s, cx, cy);
        assert(0 <= a < s.len() && s[a].pos.x == cx && s[a].pos.y == cy);
        assert(a != i);
        assert(t[a] == s[a]);
        lemma_chunk_lookup(t, a);
        lemma_chunk_lookup(s, a);
    }
}

/// Numerator of the per-interaction speed multiplier, over a denominator of
/// 10: swimming moves at 0.6 speed, crawling at 0.4, everything else at full
/// speed.
pub open spec fn speed_num(i: TileInteraction) -> int {
    match i {
        TileInteraction::Swimmable => 6,
        TileInteraction::Crawl => 4,
        _ => 10,
    }
}

/// One frame's displacement along one axis, in milli-tiles: the velocity
/// component scaled by the tile's speed multiplier, times the frame duration
/// in milliseconds, rounded toward zero.
pub open spec fn displacement(v: int, i: TileInteraction, dt: int) -> int {
    trunc_div(v * speed_num(i) * dt, (POS_SCALE as int) * 10)
}

/// The candidate position after one frame of full movement.
pub open spec fn full_step(p: Vec2, v: Vec2, i: TileInteraction, dt: int) -> Vec2 {
    Vec2 {
        x: (p.x + displacement(v.x as int, i, dt)) as i64,
        y: (p.y + displacement(v.y as int, i, dt)) as i64,
    }
}

/// The candidate position after one frame of horizontal-only movement.
pub open spec fn horizontal_step(p: Vec2, v: Vec2, i: TileInteraction, dt: int) -> Vec2 {
    Vec2 { x: (p.x + displacement(v.x as int, i, dt)) as i64, y: p.y }
}

/// The candidate position after one frame of vertical-only movement.
pub open spec fn vertical_step(p: Vec2, v: Vec2, i: TileInteraction, dt: int) -> Vec2 {
    Vec2 { x: p.x, y: (p.y + displacement(v.y as int, i, dt)) as i64 }
}

/// Entity state the movement arithmetic accepts without overflow.
pub open spec fn entity_in_bounds(p: Vec2, v: Vec2) -> bool {
    &&& -POS_LIMIT <= p.x <= POS_LIMIT
    &&& -POS_LIMIT <= p.y <= POS_LIMIT
    &&& -VEL_LIMIT <= v.x <= VEL_LIMIT
    &&& -VEL_LIMIT <= v.y <= VEL_LIMIT
}

/// One frame's displacement along one axis.
fn displacement_exec(v: i64, num: i64, dt: u32) -> (r: i64)
    requires
        -VEL_LIMIT <= v <= VEL_LIMIT,
        1 <= num <= 10,
        dt <= DT_LIMIT,
    ensures
        r == trunc_div(v * num * dt, (POS_SCALE as int) * 10),
        -POS_SLACK <= r <= POS_SLACK,
{
    proof {
        assert(-(VEL_LIMIT * 10) <= v * num <= VEL_LIMIT * 10) by (nonlinear_arith)
            requires
                -VEL_LIMIT <= v <= VEL_LIMIT,
                1 <= num <= 10,
        ;
        assert(-(VEL_LIMIT * 10 * (DT_LIMIT as int)) <= v * num * dt <= VEL_LIMIT * 10 * (
        DT_LIMIT as int)) by (nonlinear_arith)
            requires
                -(VEL_LIMIT * 10) <= v * num <= VEL_LIMIT * 10,
                0 <= dt <= DT_LIMIT,
        ;
    }
    let prod: i64 = v * num * (dt as i64);
    proof {
        if prod >= 0 {
            lemma_div_pos_is_pos(prod as int, 10000);
            lemma_div_nonincreasing(prod as int, 10000);
            lemma_div_is_ordered(prod as int, VEL_LIMIT * 10 * (DT_LIMIT as int), 10000);
        } else {
            lemma_div_pos_is_pos(-(prod as int), 10000);
            lemma_div_nonincreasing(-(prod as int), 10000);
            lemma_div_is_ordered(-(prod as int), VEL_LIMIT * 10 * (DT_LIMIT as int), 10000);
        }
        assert((VEL_LIMIT * 10 * (DT_LIMIT as int)) / 10000 == 600_000_000);
    }
    let q = prod.checked_div(10000);
    let r = q.unwrap();
    proof {
        assert(r == trunc_div(prod as int, (POS_SCALE as int) * 10));
    }
    r
}

/// The draw commands one chunk cell of the full render contributes: the
/// full chunk in detail if generated, else the lazy chunk's coarse block,
/// else nothing. A full chunk takes priority over a lazy chunk.
pub open spec fn cell_seq(w: World, cx: int, cy: int) -> Seq<DrawCommand> {
    if w.has_chunk(cx, cy) {
        chunk_render_seq(cx, cy, w.chunk_tiles(cx, cy))
    } else if w.has_lazy(cx, cy) {
        lazy_full_seq(cx, cy, w.lazy_tile(cx, cy))
    } else {
        Seq::empty()
    }
}

/// The draw commands of one chunk column of the full render, rows `y0` up to
/// `y1` in order.
pub open spec fn render_col_seq(w: World, cx: int, y0: int, y1: int) -> Seq<DrawCommand>
    decreases y1 - y0,
{
    if y0 >= y1 {
        Seq::empty()
    } else {
        cell_seq(w, cx, y0) + render_col_seq(w, cx, y0 + 1, y1)
    }
}

/// The draw commands of the full render over a chunk range, columns `x0` up
/// to `x1` in order.
pub open spec fn render_zone_seq(w: World, x0: int, x1: int, y0: int, y1: int) -> Seq<DrawCommand>
    decreases x1 - x0,
{
    if x0 >= x1 {
        Seq::empty()
    } else {
        render_col_seq(w, x0, y0, y1) + render_zone_seq(w, x0 + 1, x1, y0, y1)
    }
}

/// Extending a rendered column by one row appends that cell's commands.
proof fn lemma_col_snoc(w: World, cx: int, y0: int, y1: int)
    requires
        y0 <= y1,
    ensures
        render_col_seq(w, cx, y0, y1 + 1) == render_col_seq(w, cx, y0, y1) + cell_seq(w, cx, y1),
    decreases y1 - y0,
{
    if y0 == y1 {
        assert(render_col_seq(w, cx, y0 + 1, y1 + 1) =~= Seq::<DrawCommand>::empty());
        assert(render_col_seq(w, cx, y0, y1 + 1) == cell_seq(w, cx, y0) + render_col_seq(
            w,
            cx,
            y0 + 1,
            y1 + 1,
        ));
        assert(render_col_seq(w, cx, y0, y1) =~= Seq::<DrawCommand>::empty());
        assert(render_col_seq(w, cx, y0, y1 + 1) =~= render_col_seq(w, cx, y0, y1) + cell_seq(
            w,
            cx,
            y1,
        ));
    } else {
        lemma_col_snoc(w, cx, y0 + 1, y1);
        assert(render_col_seq(w, cx, y0, y1 + 1) == cell_seq(w, cx, y0) + render_col_seq(
            w,
            cx,
            y0 + 1,
            y1 + 1,
        ));
        assert(render_col_seq(w, cx, y0, y1) == cell_seq(w, cx, y0) + render_col_seq(
            w,
            cx,
            y0 + 1,
            y1,
        ));
        assert(render_col_seq(w, cx, y0, y1 + 1) =~= render_col_seq(w, cx, y0, y1) + cell_seq(
            w,
            cx,
            y1,
        ));
    }
}

/// Extending a rendered range by one column appends that column's commands.
proof fn lemma_zone_snoc(w: World, x0: int, x1: int, y0: int, y1: int)
    requires
        x0 <= x1,
    ensures
        render_zone_seq(w, x0, x1 + 1, y0, y1) == render_zone_seq(w, x0, x1, y0, y1)
            + render_col_seq(w, x1, y0, y1),
    decreases x1 - x0,
{
    if x0 == x1 {
        assert(render_zone_seq(w, x0 + 1, x1 + 1, y0, y1) =~= Seq::<DrawCommand>::empty());
        assert(render_zone_seq(w, x0, x1 + 1, y0, y1) == render_col_seq(w, x0, y0, y1)
            + render_zone_seq(w, x0 + 1, x1 + 1, y0, y1));
        assert(render_zone_seq(w, x0, x1, y0, y1) =~= Seq::<DrawCommand>::empty());
        assert(render_zone_seq(w, x0, x1 + 1, y0, y1) =~= render_zone_seq(w, x0, x1, y0, y1)
            + render_col_seq(w, x1, y0, y1));
    } else {
        lemma_zone_snoc(w, x0 + 1, x1, y0, y1);
        assert(render_zone_seq(w, x0, x1 + 1, y0, y1) == render_col_seq(w, x0, y0, y1)
            + render_zone_seq(w, x0 + 1, x1 + 1, y0, y1));
        assert(render_zone_seq(w, x0, x1, y0, y1) == render_col_seq(w, x0, y0, y1)
            + render_zone_seq(w, x0 + 1, x1, y0, y1));
        assert(render_zone_seq(w, x0, x1 + 1, y0, y1) =~= render_zone_seq(w, x0, x1, y0, y1)
            + render_col_seq(w, x1, y0, y1));
    }
}

/// The draw commands one cell of the minimap render contributes: a flat gray
/// placeholder where nothing is sampled yet, else the lazy chunk's unit
/// square, veiled unless the full chunk has also been generated.
pub open spec fn map_cell_seq(w: World, cx: int, cy: int) -> Seq<DrawCommand> {
    if !w.has_lazy(cx, cy) {
        seq![DrawCommand { x: cx as i64, y: cy as i64, w: 1, h: 1, color: veil_color() }]
    } else {
        lazy_small_seq(cx, cy, w.lazy_tile(cx, cy), w.has_chunk(cx, cy))
    }
}

/// The draw commands of one minimap column, rows `y0` up to `y1` in order.
pub open spec fn map_col_seq(w: World, cx: int, y0: int, y1: int) -> Seq<DrawCommand>
    decreases y1 - y0,
{
    if y0 >= y1 {
        Seq::empty()
    } else {
        map_cell_seq(w, cx, y0) + map_col_seq(w, cx, y0 + 1, y1)
    }
}

/// The draw commands of the minimap render over a cell range, columns `x0`
/// up to `x1` in order.
pub open spec fn map_zone_seq(w: World, x0: int, x1: int, y0: int, y1: int) -> Seq<DrawCommand>
    decreases x1 - x0,
{
    if x0 >= x1 {
        Seq::empty()
    } else {
        map_col_seq(w, x0, y0, y1) + map_zone_seq(w, x0 + 1, x1, y0, y1)
    }
}

/// Extending a minimap column by one row appends that cell's commands.
proof fn lemma_map_col_snoc(w: World, cx: int, y0: int, y1: int)
    requires
        y0 <= y1,
    ensures
        map_col_seq(w, cx, y0, y1 + 1) == map_col_seq(w, cx, y0, y1) + map_cell_seq(w, cx, y1),
    decreases y1 - y0,
{
    if y0 == y1 {
        assert(map_col_seq(w, cx, y0 + 1, y1 + 1) =~= Seq::<DrawCommand>::empty());
        assert(map_col_seq(w, cx, y0, y1 + 1) == map_cell_seq(w, cx, y0) + map_col_seq(
            w,
            cx,
            y0 + 1,
            y1 + 1,
        ));
        assert(map_col_seq(w, cx, y0, y1) =~= Seq::<DrawCommand>::empty());
        assert(map_col_seq(w, cx, y0, y1 + 1) =~= map_col_seq(w, cx, y0, y1) + map_cell_seq(
            w,
            cx,
            y1,
        ));
    } else {
        lemma_map_col_snoc(w, cx, y0 + 1, y1);
        assert(map_col_seq(w, cx, y0, y1 + 1) == map_cell_seq(w, cx, y0) + map_col_seq(
            w,
            cx,
            y0 + 1,
            y1 + 1,
        ));
        assert(map_col_seq(w, cx, y0, y1) == map_cell_seq(w, cx, y0) + map_col_seq(
            w,
            cx,
            y0 + 1,
            y1,
        ));
        assert(map_col_seq(w, cx, y0, y1 + 1) =~= map_col_seq(w, cx, y0, y1) + map_cell_seq(
            w,
            cx,
            y1,
        ));
    }
}

/// Extending a minimap range by one column appends that column's commands.
proof fn lemma_map_zone_snoc(w: World, x0: int, x1: int, y0: int, y1: int)
    requires
        x0 <= x1,
    ensures
        map_zone_seq(w, x0, x1 + 1, y0, y1) == map_zone_seq(w, x0, x1, y0, y1) + map_col_seq(
            w,
            x1,
            y0,
            y1,
        ),
    decreases x1 - x0,
{
    if x0 == x1 {
        assert(map_zone_seq(w, x0 + 1, x1 + 1, y0, y1) =~= Seq::<DrawCommand>::empty());
        assert(map_zone_seq(w, x0, x1 + 1, y0, y1) == map_col_seq(w, x0, y0, y1) + map_zone_seq(
            w,
            x0 + 1,
            x1 + 1,
            y0,
            y1,
        ));
        assert(map_zone_seq(w, x0, x1, y0, y1) =~= Seq::<DrawCommand>::empty());
        assert(map_zone_seq(w, x0, x1 + 1, y0, y1) =~= map_zone_seq(w, x0, x1, y0, y1)
            + map_col_seq(w, x1, y0, y1));
    } else {
        lemma_map_zone_snoc(w, x0 + 1, x1, y0, y1);
        assert(map_zone_seq(w, x0, x1 + 1, y0, y1) == map_col_seq(w, x0, y0, y1) + map_zone_seq(
            w,
            x0 + 1,
            x1 + 1,
            y0,
            y1,
        ));
        assert(map_zone_seq(w, x0, x1, y0, y1) == map_col_seq(w, x0, y0, y1) + map_zone_seq(
            w,
            x0 + 1,
            x1,
            y0,
            y1,
        ));
        assert(map_zone_seq(w, x0, x1 + 1, y0, y1) =~= map_zone_seq(w, x0, x1, y0, y1)
            + map_col_seq(w, x1, y0, y1));
    }
}

/// The tile radius a destroy event clears.
pub const DESTROY_RADIUS: i64 = 3;

/// Whether the tile at a coordinate exists and is destroyable.
pub open spec fn destroyable_at(w: World, x: int, y: int) -> bool {
    match w.tile_at(x, y) {
        Some(t) => t.action == TileAction::Destroyable,
        None => false,
    }
}

/// What a destroy event centred on a tile does: every destroyable tile
/// within `DESTROY_RADIUS` becomes the default tile, and nothing else in the
/// world changes.
pub open spec fn destroyed_rel(pre: World, post: World, cx: int, cy: int) -> bool {
    &&& post.seed() == pre.seed()
    &&& forall|a: int, b: int| #[trigger] post.has_chunk(a, b) == pre.has_chunk(a, b)
    &&& forall|a: int, b: int| #[trigger] post.has_lazy(a, b) == pre.has_lazy(a, b)
    &&& forall|a: int, b: int| #[trigger] post.lazy_tile(a, b) == pre.lazy_tile(a, b)
    &&& forall|x: int, y: int|
        #[trigger] post.tile_at(x, y) == (if in_disc(cx, cy, DESTROY_RADIUS as int, x, y)
            && destroyable_at(pre, x, y) {
            Some(default_tile())
        } else {
            pre.tile_at(x, y)
        })
}

/// Truncates a milli-tile value to whole units, toward zero.
fn trunc_milli(v: i64) -> (r: i64)
    requires
        -2 * POS_LIMIT <= v <= 2 * POS_LIMIT,
    ensures
        r == trunc_div(v as int, POS_SCALE as int),
{
    v.checked_div(1000).unwrap()
}

/// The eagerly generated starting region of chunk positions.
pub open spec fn initial_zone(cx: int, cy: int) -> bool {
    -INITIAL_SPAN <= cx < INITIAL_SPAN && -INITIAL_SPAN <= cy < INITIAL_SPAN
}

/// The full-chunk store only grows, never rewrites: every chunk present
/// before is present after with the same tiles, and every chunk that
/// appeared holds the tiles generated from the noise field.
pub open spec fn chunk_growth(pre: World, post: World) -> bool {
    &&& post.seed() == pre.seed()
    &&& forall|cx: int, cy: int| pre.has_chunk(cx, cy) ==> #[trigger] post.has_chunk(cx, cy)
    &&& forall|cx: int, cy: int|
        pre.has_chunk(cx, cy) ==> #[trigger] post.chunk_tiles(cx, cy) == pre.chunk_tiles(cx, cy)
    &&& forall|cx: int, cy: int|
        #[trigger] post.has_chunk(cx, cy) && !pre.has_chunk(cx, cy) ==> post.chunk_tiles(
            cx,
            cy,
        ).len() == CHUNK_AREA
    &&& forall|cx: int, cy: int, j: int|
        post.has_chunk(cx, cy) && !pre.has_chunk(cx, cy) && 0 <= j < CHUNK_AREA
            ==> #[trigger] post.chunk_tiles(cx, cy)[j] == generated_tile(pre.seed(), cx, cy, j)
}

/// The lazy-chunk store only grows, never rewrites, and every lazy chunk
/// that appeared holds the tile generated from the noise field.
pub open spec fn lazy_growth(pre: World, post: World) -> bool {
    &&& post.seed() == pre.seed()
    &&& forall|cx: int, cy: int| pre.has_lazy(cx, cy) ==> #[trigger] post.has_lazy(cx, cy)
    &&& forall|cx: int, cy: int|
        pre.has_lazy(cx, cy) ==> #[trigger] post.lazy_tile(cx, cy) == pre.lazy_tile(cx, cy)
    &&& forall|cx: int, cy: int|
        #[trigger] post.has_lazy(cx, cy) && !pre.has_lazy(cx, cy) ==> post.lazy_tile(cx, cy)
            == generated_lazy_tile(pre.seed(), cx, cy)
}

/// What one `generate_at` call does: both stores grow and nothing else
/// changes; afterwards the full chunks cover exactly the old keys plus the
/// render zone's chunk range, and the lazy chunks the old keys plus the map
/// zone's.
pub open spec fn generate_at_rel(pre: World, post: World, render_zone: Rect, map_zone: Rect) -> bool {
    &&& chunk_growth(pre, post)
    &&& lazy_growth(pre, post)
    &&& forall|cx: int, cy: int|
        #[trigger] post.has_chunk(cx, cy) <==> (pre.has_chunk(cx, cy) || in_zone(
            render_zone,
            cx,
            cy,
        ))
    &&& forall|cx: int, cy: int|
        #[trigger] post.has_lazy(cx, cy) <==> (pre.has_lazy(cx, cy) || in_zone(map_zone, cx, cy))
}

/// What a fresh world looks like: the world seed, both stores covering
/// exactly the starting region, and every tile the classified noise sample
/// of its coordinate. Two fresh worlds are therefore identical everywhere.
pub open spec fn freshly_generated(w: World) -> bool {
    &&& w.seed() == WORLD_SEED
    &&& forall|cx: int, cy: int| #[trigger] w.has_chunk(cx, cy) <==> initial_zone(cx, cy)
    &&& forall|cx: int, cy: int| #[trigger] w.has_lazy(cx, cy) <==> initial_zone(cx, cy)
    &&& forall|cx: int, cy: int|
        initial_zone(cx, cy) ==> (#[trigger] w.chunk_tiles(cx, cy)).len() == CHUNK_AREA
    &&& forall|cx: int, cy: int, j: int|
        initial_zone(cx, cy) && 0 <= j < CHUNK_AREA ==> #[trigger] w.chunk_tiles(cx, cy)[j]
            == generated_tile(WORLD_SEED, cx, cy, j)
    &&& forall|cx: int, cy: int|
        initial_zone(cx, cy) ==> #[trigger] w.lazy_tile(cx, cy) == generated_lazy_tile(
            WORLD_SEED,
            cx,
            cy,
        )
}

/// A zone rectangle within `GEN_SPAN` has its chunk range within
/// `GEN_LIMIT`.
proof fn lemma_zone_bounds(z: Rect)
    requires
        -GEN_SPAN <= z.x <= GEN_SPAN,
        -GEN_SPAN <= z.y <= GEN_SPAN,
        -GEN_SPAN <= z.x + z.w <= GEN_SPAN,
        -GEN_SPAN <= z.y + z.h <= GEN_SPAN,
    ensures
        -GEN_LIMIT <= zone_min_x(z) <= GEN_LIMIT,
        -GEN_LIMIT <= zone_max_x(z) <= GEN_LIMIT,
        -GEN_LIMIT <= zone_min_y(z) <= GEN_LIMIT,
        -GEN_LIMIT <= zone_max_y(z) <= GEN_LIMIT,
{
    let d = CHUNK_SPAN as int;
    assert((-(GEN_SPAN as int)) / d == -(GEN_LIMIT as int));
    assert((GEN_SPAN as int) / d == GEN_LIMIT as int);
    lemma_div_is_ordered(-(GEN_SPAN as int), z.x as int, d);
    lemma_div_is_ordered(z.x as int, GEN_SPAN as int, d);
    lemma_div_is_ordered(-(GEN_SPAN as int), z.y as int, d);
    lemma_div_is_ordered(z.y as int, GEN_SPAN as int, d);
    lemma_div_is_ordered(-(GEN_SPAN as int), -(z.x + z.w), d);
    lemma_div_is_ordered(-(z.x + z.w), GEN_SPAN as int, d);
    lemma_div_is_ordered(-(GEN_SPAN as int), -(z.y + z.h), d);
    lemma_div_is_ordered(-(z.y + z.h), GEN_SPAN as int, d);
}

/// The procedural tile world.
pub struct World {
    chunks: Vec<Chunk>,
    map_chunks: Vec<LazyChunk>,
    noise: NoiseField,
}

impl World {
    /// The seed of this world's noise field.
    pub closed spec fn seed(&self) -> u32 {
        self.noise.seed_spec()
    }

    /// Both chunk stores are well formed: distinct positions, full tile
    /// buffers, positions within the generation domain.
    pub closed spec fn wf(&self) -> bool {
        chunks_wf(self.chunks@) && lazys_wf(self.map_chunks@)
    }

    /// Whether the full chunk at a chunk position has been generated.
    pub closed spec fn has_chunk(&self, cx: int, cy: int) -> bool {
        seq_has_chunk(self.chunks@, cx, cy)
    }

    /// The tile buffer of the chunk at a chunk position, where one exists.
    pub closed spec fn chunk_tiles(&self, cx: int, cy: int) -> Seq<Tile> {
        seq_chunk_tiles(self.chunks@, cx, cy)
    }

    /// Whether the lazy chunk at a chunk position has been generated.
    pub closed spec fn has_lazy(&self, cx: int, cy: int) -> bool {
        seq_has_lazy(self.map_chunks@, cx, cy)
    }

    /// The representative tile of the lazy chunk at a chunk position, where
    /// one exists.
    pub closed spec fn lazy_tile(&self, cx: int, cy: int) -> Tile {
        seq_lazy_tile(self.map_chunks@, cx, cy)
    }

    /// The tile at a tile coordinate: absent while the owning chunk is not
    /// generated.
    pub open spec fn tile_at(&self, x: int, y: int) -> Option<Tile> {
        if self.has_chunk(chunk_of(x), chunk_of(y)) {
            Some(
                self.chunk_tiles(chunk_of(x), chunk_of(y))[local_of(x) * (CHUNK_SIZE as int)
                    + local_of(y)],
            )
        } else {
            None
        }
    }

    /// Whether an entity may stand at a continuous position: the tile under
    /// it exists and is not blocking. Ungenerated ground is impassable.
    pub open spec fn can_move_spec(&self, p: Vec2) -> bool {
        match self.tile_at(round_to_tile(p.x as int), round_to_tile(p.y as int)) {
            Some(t) => !(t.interaction == TileInteraction::Block),
            None => false,
        }
    }

    /// The index of the stored chunk at a chunk position, if any.
    fn find_chunk(&self, cx: i64, cy: i64) -> (r: Option<usize>)
        requires
            chunks_distinct(self.chunks@),
        ensures
            match r {
                Some(i) => 0 <= i < self.chunks@.len() && self.chunks@[i as int].pos.x == cx
                    && self.chunks@[i as int].pos.y == cy && self.has_chunk(cx as int, cy as int)
                    && chunk_index_of(self.chunks@, cx as int, cy as int) == i as int,
                None => !self.has_chunk(cx as int, cy as int),
            },
    {
        let mut i: usize = 0;
        while i < self.chunks.len()
            invariant
                chunks_distinct(self.chunks@),
                0 <= i <= self.chunks@.len(),
                forall|k: int|
                    0 <= k < i ==> !((#[trigger] self.chunks@[k]).pos.x == cx
                        && self.chunks@[k].pos.y == cy),
            decreases self.chunks@.len() - i,
        {
            let c = &self.chunks[i];
            if c.pos.x == cx && c.pos.y == cy {
                proof {
                    lemma_chunk_lookup(self.chunks@, i as int);
                }
                return Some(i);
            }
            i = i + 1;
        }
        None
    }

    /// The index of the stored lazy chunk at a chunk position, if any.
    fn find_lazy(&self, cx: i64, cy: i64) -> (r: Option<usize>)
        requires
            lazys_distinct(self.map_chunks@),
        ensures
            match r {
                Some(i) => 0 <= i < self.map_chunks@.len() && self.map_chunks@[i as int].pos.x
                    == cx && self.map_chunks@[i as int].pos.y == cy && self.has_lazy(
                    cx as int,
                    cy as int,
                ) && self.lazy_tile(cx as int, cy as int) == self.map_chunks@[i as int].tile,
                None => !self.has_lazy(cx as int, cy as int),
            },
    {
        let mut i: usize = 0;
        while i < self.map_chunks.len()
            invariant
                lazys_distinct(self.map_chunks@),
                0 <= i <= self.map_chunks@.len(),
                forall|k: int|
                    0 <= k < i ==> !((#[trigger] self.map_chunks@[k]).pos.x == cx
                        && self.map_chunks@[k].pos.y == cy),
            decreases self.map_chunks@.len() - i,
        {
            let c = &self.map_chunks[i];
            if c.pos.x == cx && c.pos.y == cy {
                proof {
                    lemma_lazy_lookup(self.map_chunks@, i as int);
                }
                return Some(i);
            }
            i = i + 1;
        }
        None
    }

    /// The tile at a tile coordinate, absent while its chunk is not
    /// generated.
    pub fn get_tile(&self, coords: &Coords) -> (r: Option<Tile>)
        requires
            self.wf(),
        ensures
            r == self.tile_at(coords.x as int, coords.y as int),
    {
        let cp = ChunkPosition::from_coords(coords);
        match self.find_chunk(cp.x, cp.y) {
            Some(i) => {
                let lx = crate::positions::local_component(coords.x);
                let ly = crate::positions::local_component(coords.y);
                let idx: usize = (lx * CHUNK_SIZE + ly) as usize;
                proof {
                    lemma_chunk_lookup(self.chunks@, i as int);
                }
                Some(self.chunks[i].tiles[idx])
            },
            None => None,
        }
    }

    /// Replaces the tile at a tile coordinate in place; a silent no-op while
    /// the owning chunk is not generated.
    pub fn set_tile(&mut self, coords: &Coords, tile: Tile)
        requires
            old(self).wf(),
        ensures
            final(self).wf(),
            final(self).seed() == old(self).seed(),
            forall|cx: int, cy: int|
                #[trigger] final(self).has_chunk(cx, cy) == old(self).has_chunk(cx, cy),
            forall|cx: int, cy: int|
                #[trigger] final(self).has_lazy(cx, cy) == old(self).has_lazy(cx, cy),
            forall|cx: int, cy: int|
                #[trigger] final(self).lazy_tile(cx, cy) == old(self).lazy_tile(cx, cy),
            old(self).has_chunk(chunk_of(coords.x as int), chunk_of(coords.y as int)) ==> (
            final(self).tile_at(coords.x as int, coords.y as int) == Some(tile) && forall|
                x: int,
                y: int,
            |
                !(x == coords.x as int && y == coords.y as int)
                    ==> #[trigger] final(self).tile_at(x, y) == old(self).tile_at(x, y)),
            !old(self).has_chunk(chunk_of(coords.x as int), chunk_of(coords.y as int)) ==> forall|
                x: int,
                y: int,
            | #[trigger] final(self).tile_at(x, y) == old(self).tile_at(x, y),
    {
        let cp = ChunkPosition::from_coords(coords);
        match self.find_chunk(cp.x, cp.y) {
            Some(i) => {
                let lx = crate::positions::local_component(coords.x);
                let ly = crate::positions::local_component(coords.y);
                let idx: usize = (lx * CHUNK_SIZE + ly) as usize;
                let ghost pre = self.chunks@;
                self.chunks[i].tiles[idx] = tile;
                proof {
                    let cxi = chunk_of(coords.x as int);
                    let cyi = chunk_of(coords.y as int);
                    let loci = local_of(coords.x as int) * (CHUNK_SIZE as int) + local_of(
                        coords.y as int,
                    );
                    assert(self.chunks@.len() == pre.len());
                    assert(self.chunks@[i as int].pos == pre[i as int].pos);
                    assert(self.chunks@[i as int].tiles@ =~= pre[i as int].tiles@.update(
                        loci,
                        tile,
                    ));
                    lemma_chunk_update(pre, self.chunks@, i as int);
                    assert(self.tile_at(coords.x as int, coords.y as int) == Some(tile));
                    assert forall|x: int, y: int|
                        !(x == coords.x as int && y == coords.y as int) implies #[trigger] self
                        .tile_at(x, y) == old(self).tile_at(x, y) by {
                        if chunk_of(x) == cxi && chunk_of(y) == cyi {
                            if local_of(x) == local_of(coords.x as int) && local_of(y) == local_of(
                                coords.y as int,
                            ) {
                                lemma_tile_key_injective(x, y, coords.x as int, coords.y as int);
                            } else {
                                lemma_chunk_addressing_roundtrip(x, y);
                                lemma_chunk_addressing_roundtrip(coords.x as int, coords.y as int);
                            }
                        }
                    }
                }
            },
            None => {},
        }
    }

    /// Whether an entity may move to the tile under a continuous position:
    /// the tile exists and its interaction is not blocking.
    pub fn can_move_entity_to_tile(&self, new_pos: Vec2) -> (r: bool)
        requires
            self.wf(),
            -POS_LIMIT - POS_SLACK <= new_pos.x <= POS_LIMIT + POS_SLACK,
            -POS_LIMIT - POS_SLACK <= new_pos.y <= POS_LIMIT + POS_SLACK,
        ensures
            r == self.can_move_spec(new_pos),
    {
        let next_coords = Coords::from_vec2(new_pos);
        match self.get_tile(&next_coords) {
            Some(tile) => match tile.interaction {
                TileInteraction::Block => false,
                TileInteraction::Walkable => true,
                TileInteraction::Swimmable => true,
                TileInteraction::Crawl => true,
            },
            None => false,
        }
    }

    /// The position an entity ends the frame at: the full candidate step if
    /// its tile permits movement, else sliding along whichever single axis is
    /// open (horizontal tried first), else no movement at all.
    pub open spec fn step_result(&self, p: Vec2, v: Vec2, i: TileInteraction, dt: int) -> Vec2 {
        if self.can_move_spec(full_step(p, v, i, dt)) {
            full_step(p, v, i, dt)
        } else if self.can_move_spec(horizontal_step(p, v, i, dt)) {
            horizontal_step(p, v, i, dt)
        } else if self.can_move_spec(vertical_step(p, v, i, dt)) {
            vertical_step(p, v, i, dt)
        } else {
            p
        }
    }

    /// Advances an entity one frame against the tile grid: reads the tile it
    /// stands on, applies the tile's speed multiplier, commits the full or
    /// axis-separated slide step that the grid permits, and notifies the
    /// entity of the originating tile's classification, whether or not it
    /// moved. On ungenerated ground the entity is left entirely untouched.
    pub fn update_entity<E: WorldEntity>(&self, entity: &mut E, time: u32)
        requires
            self.wf(),
            time <= DT_LIMIT,
            entity_in_bounds(old(entity).position_spec(), old(entity).velocity_spec()),
        ensures
            ({
                let p0 = old(entity).position_spec();
                let v0 = old(entity).velocity_spec();
                match self.tile_at(round_to_tile(p0.x as int), round_to_tile(p0.y as int)) {
                    Option::None => *final(entity) == *old(entity),
                    Option::Some(tile) => final(entity).position_spec() == self.step_result(
                        p0,
                        v0,
                        tile.interaction,
                        time as int,
                    ) && final(entity).velocity_spec() == v0 && final(entity).report_spec()
                        == TileReport::Reported(tile.interaction, tile.action)
                        && final(entity).resources_spec() == old(entity).resources_spec(),
                }
            }),
    {
        let pos = entity.get_position();
        let current_coords = Coords::from_vec2(pos);
        match self.get_tile(&current_coords) {
            Some(tile) => {
                let velocity = entity.get_velocity();
                let num: i64 = match tile.interaction {
                    TileInteraction::Swimmable => 6,
                    TileInteraction::Crawl => 4,
                    TileInteraction::Walkable => 10,
                    TileInteraction::Block => 10,
                };
                let dx = displacement_exec(velocity.x, num, time);
                let dy = displacement_exec(velocity.y, num, time);
                let new_pos = Vec2 { x: pos.x + dx, y: pos.y + dy };
                if self.can_move_entity_to_tile(new_pos) {
                    entity.set_position(new_pos);
                } else {
                    let new_pos = Vec2 { x: pos.x + dx, y: pos.y };
                    if self.can_move_entity_to_tile(new_pos) {
                        entity.set_position(new_pos);
                    } else {
                        let new_pos = Vec2 { x: pos.x, y: pos.y + dy };
                        if self.can_move_entity_to_tile(new_pos) {
                            entity.set_position(new_pos);
                        }
                    }
                }
                entity.update(&tile.interaction, &tile.action, time);
            },
            None => {},
        }
    }

    /// Renders the world within a view rectangle: for each chunk position in
    /// the covering range, the full chunk in detail where generated, else
    /// the lazy chunk's coarse block, else nothing.
    pub fn render(&self, rect: Rect) -> (r: Vec<DrawCommand>)
        requires
            self.wf(),
            -POS_LIMIT <= rect.x <= POS_LIMIT,
            -POS_LIMIT <= rect.y <= POS_LIMIT,
            -POS_LIMIT <= rect.w <= POS_LIMIT,
            -POS_LIMIT <= rect.h <= POS_LIMIT,
        ensures
            r@ == render_zone_seq(
                *self,
                zone_min_x(rect),
                zone_max_x(rect),
                zone_min_y(rect),
                zone_max_y(rect),
            ),
    {
        let area = ChunkPosition::from_rect(rect);
        let min_x: i64 = area.0.x;
        let min_y: i64 = area.0.y;
        let max_x: i64 = area.1.x;
        let max_y: i64 = area.1.y;
        let mut cmds: Vec<DrawCommand> = Vec::new();
        let mut x: i64 = min_x;
        while x < max_x
            invariant
                self.wf(),
                min_x <= x,
                x <= max_x || x == min_x,
                cmds@ == render_zone_seq(*self, min_x as int, x as int, min_y as int, max_y as int),
            decreases max_x - x,
        {
            let mut y: i64 = min_y;
            while y < max_y
                invariant
                    self.wf(),
                    min_x <= x < max_x,
                    min_y <= y,
                    y <= max_y || y == min_y,
                    cmds@ == render_zone_seq(
                        *self,
                        min_x as int,
                        x as int,
                        min_y as int,
                        max_y as int,
                    ) + render_col_seq(*self, x as int, min_y as int, y as int),
                decreases max_y - y,
            {
                let ghost before = cmds@;
                match self.find_chunk(x, y) {
                    Some(i) => {
                        proof {
                            lemma_chunk_lookup(self.chunks@, i as int);
                        }
                        let mut cell = self.chunks[i].render();
                        cmds.append(&mut cell);
                    },
                    None => match self.find_lazy(x, y) {
                        Some(i) => {
                            let mut cell = self.map_chunks[i].render();
                            cmds.append(&mut cell);
                        },
                        None => {},
                    },
                }
                proof {
                    assert(cmds@ =~= before + cell_seq(*self, x as int, y as int));
                    lemma_col_snoc(*self, x as int, min_y as int, y as int);
                    assert(cmds@ =~= render_zone_seq(
                        *self,
                        min_x as int,
                        x as int,
                        min_y as int,
                        max_y as int,
                    ) + render_col_seq(*self, x as int, min_y as int, y + 1));
                }
                y = y + 1;
            }
            proof {
                lemma_zone_snoc(*self, min_x as int, x as int, min_y as int, max_y as int);
                assert(cmds@ =~= render_zone_seq(
                    *self,
                    min_x as int,
                    x + 1,
                    min_y as int,
                    max_y as int,
                ));
            }
            x = x + 1;
        }
        cmds
    }

    /// Renders the minimap within a view rectangle read directly in chunk
    /// cells: a flat gray placeholder where nothing is sampled, else the
    /// lazy chunk's unit square, dimmed unless the full chunk also exists.
    pub fn render_map(&mut self, view: Rect) -> (r: Vec<DrawCommand>)
        requires
            old(self).wf(),
            -POS_LIMIT <= view.x <= POS_LIMIT,
            -POS_LIMIT <= view.y <= POS_LIMIT,
            -POS_LIMIT <= view.w <= POS_LIMIT,
            -POS_LIMIT <= view.h <= POS_LIMIT,
        ensures
            *final(self) == *old(self),
            r@ == map_zone_seq(
                *old(self),
                map_min_x(view),
                map_max_x(view),
                map_min_y(view),
                map_max_y(view),
            ),
    {
        let min_x: i64 = trunc_milli(view.x);
        let min_y: i64 = trunc_milli(view.y);
        let max_x: i64 = trunc_milli(view.x + view.w);
        let max_y: i64 = trunc_milli(view.y + view.h);
        let mut cmds: Vec<DrawCommand> = Vec::new();
        let mut x: i64 = min_x;
        while x < max_x
            invariant
                self.wf(),
                *self == *old(self),
                min_x <= x,
                x <= max_x || x == min_x,
                cmds@ == map_zone_seq(*self, min_x as int, x as int, min_y as int, max_y as int),
            decreases max_x - x,
        {
            let mut y: i64 = min_y;
            while y < max_y
                invariant
                    self.wf(),
                    *self == *old(self),
                    min_x <= x < max_x,
                    min_y <= y,
                    y <= max_y || y == min_y,
                    cmds@ == map_zone_seq(
                        *self,
                        min_x as int,
                        x as int,
                        min_y as int,
                        max_y as int,
                    ) + map_col_seq(*self, x as int, min_y as int, y as int),
                decreases max_y - y,
            {
                let ghost before = cmds@;
                match self.find_lazy(x, y) {
                    None => {
                        cmds.push(
                            DrawCommand {
                                x,
                                y,
                                w: 1,
                                h: 1,
                                color: crate::tile::Color { r: 100, g: 100, b: 100, a: 100 },
                            },
                        );
                    },
                    Some(i) => {
                        let discovered = self.find_chunk(x, y).is_some();
                        let mut cell = self.map_chunks[i].render_small(discovered);
                        cmds.append(&mut cell);
                    },
                }
                proof {
                    assert(cmds@ =~= before + map_cell_seq(*self, x as int, y as int));
                    lemma_map_col_snoc(*self, x as int, min_y as int, y as int);
                    assert(cmds@ =~= map_zone_seq(
                        *self,
                        min_x as int,
                        x as int,
                        min_y as int,
                        max_y as int,
                    ) + map_col_seq(*self, x as int, min_y as int, y + 1));
                }
                y = y + 1;
            }
            proof {
                lemma_map_zone_snoc(*self, min_x as int, x as int, min_y as int, max_y as int);
                assert(cmds@ =~= map_zone_seq(
                    *self,
                    min_x as int,
                    x + 1,
                    min_y as int,
                    max_y as int,
                ));
            }
            x = x + 1;
        }
        cmds
    }

    /// Consumes the entity's pending world event. A destroy event replaces
    /// every destroyable tile within `DESTROY_RADIUS` of the entity's tile
    /// with the default tile; any other event leaves the world untouched.
    pub fn update_world_by_entity<E: WorldEntity>(&mut self, entity: &mut E)
        requires
            old(self).wf(),
            -POS_LIMIT <= old(entity).position_spec().x <= POS_LIMIT,
            -POS_LIMIT <= old(entity).position_spec().y <= POS_LIMIT,
        ensures
            final(self).wf(),
            final(entity).position_spec() == old(entity).position_spec(),
            final(entity).velocity_spec() == old(entity).velocity_spec(),
            final(entity).event_spec() == EntityWorldEvent::Nothing,
            final(entity).report_spec() == old(entity).report_spec(),
            final(entity).resources_spec() == old(entity).resources_spec(),
            ({
                let p0 = old(entity).position_spec();
                match old(entity).event_spec() {
                    EntityWorldEvent::Destroy(_) => destroyed_rel(
                        *old(self),
                        *final(self),
                        round_to_tile(p0.x as int),
                        round_to_tile(p0.y as int),
                    ),
                    _ => *final(self) == *old(self),
                }
            }),
    {
        let world_event = entity.get_world_event();
        match world_event {
            EntityWorldEvent::Destroy(direction) => {
                let current_coords = Coords::from_vec2(entity.get_position());
                let ghost ccx = current_coords.x as int;
                let ghost ccy = current_coords.y as int;
                let tiles_coords = get_tiles_in_half_circle(
                    current_coords,
                    direction,
                    DESTROY_RADIUS,
                );
                let ghost pre = *self;
                let mut i: usize = 0;
                while i < tiles_coords.len()
                    invariant
                        self.wf(),
                        self.seed() == pre.seed(),
                        0 <= i <= tiles_coords@.len(),
                        forall|a: int, b: int|
                            #[trigger] self.has_chunk(a, b) == pre.has_chunk(a, b),
                        forall|a: int, b: int| #[trigger] self.has_lazy(a, b) == pre.has_lazy(a, b),
                        forall|a: int, b: int|
                            #[trigger] self.lazy_tile(a, b) == pre.lazy_tile(a, b),
                        forall|k1: int, k2: int|
                            0 <= k1 < k2 < tiles_coords@.len() ==> ((
                            #[trigger] tiles_coords@[k1]).x < (#[trigger] tiles_coords@[k2]).x || (
                            tiles_coords@[k1].x == tiles_coords@[k2].x && tiles_coords@[k1].y
                                < tiles_coords@[k2].y)),
                        forall|x: int, y: int|
                            #[trigger] self.tile_at(x, y) == (if (exists|k: int|
                                0 <= k < i && (#[trigger] tiles_coords@[k]).x == x
                                    && tiles_coords@[k].y == y) && destroyable_at(pre, x, y) {
                                Some(default_tile())
                            } else {
                                pre.tile_at(x, y)
                            }),
                    decreases tiles_coords@.len() - i,
                {
                    let tile_coords = tiles_coords[i];
                    proof {
                        assert forall|k: int|
                            0 <= k < i implies !((#[trigger] tiles_coords@[k]).x == tile_coords.x
                            && tiles_coords@[k].y == tile_coords.y) by {}
                        assert(self.tile_at(tile_coords.x as int, tile_coords.y as int)
                            == pre.tile_at(tile_coords.x as int, tile_coords.y as int));
                    }
                    let ghost mid = *self;
                    match self.get_tile(&tile_coords) {
                        Some(tile) => match tile.action {
                            TileAction::Destroyable => {
                                self.set_tile(
                                    &tile_coords,
                                    Tile {
                                        texture: crate::tile::TileTexture::Grass,
                                        interaction: TileInteraction::Walkable,
                                        action: TileAction::Nothing,
                                    },
                                );
                            },
                            _ => {},
                        },
                        None => {},
                    }
                    proof {
                        assert forall|x: int, y: int| #[trigger] self.tile_at(x, y) == (if (exists|
                            k: int,
                        |
                            0 <= k < i + 1 && (#[trigger] tiles_coords@[k]).x == x
                                && tiles_coords@[k].y == y) && destroyable_at(pre, x, y) {
                            Some(default_tile())
                        } else {
                            pre.tile_at(x, y)
                        }) by {
                            if x == tile_coords.x as int && y == tile_coords.y as int {
                                assert(tiles_coords@[i as int].x == x && tiles_coords@[i as int].y
                                    == y);
                            } else {
                                assert(self.tile_at(x, y) == mid.tile_at(x, y));
                                if (exists|k: int|
                                    0 <= k < i && (#[trigger] tiles_coords@[k]).x == x
                                        && tiles_coords@[k].y == y) {
                                    let k0 = choose|k: int|
                                        0 <= k < i && (#[trigger] tiles_coords@[k]).x == x
                                            && tiles_coords@[k].y == y;
                                    assert(0 <= k0 < i + 1 && tiles_coords@[k0].x == x
                                        && tiles_coords@[k0].y == y);
                                } else {
                                    if (exists|k: int|
                                        0 <= k < i + 1 && (#[trigger] tiles_coords@[k]).x == x
                                            && tiles_coords@[k].y == y) {
                                        let k0 = choose|k: int|
                                            0 <= k < i + 1 && (#[trigger] tiles_coords@[k]).x == x
                                                && tiles_coords@[k].y == y;
                                        assert(k0 == i);
                                    }
                                }
                            }
                        }
                    }
                    i = i + 1;
                }
                proof {
                    assert forall|x: int, y: int| #[trigger] self.tile_at(x, y) == (if in_disc(
                        ccx,
                        ccy,
                        DESTROY_RADIUS as int,
                        x,
                        y,
                    ) && destroyable_at(pre, x, y) {
                        Some(default_tile())
                    } else {
                        pre.tile_at(x, y)
                    }) by {
                        if in_disc(ccx, ccy, DESTROY_RADIUS as int, x, y) {
                            let k0 = choose|k: int|
                                0 <= k < tiles_coords@.len() && (#[trigger] tiles_coords@[k]).x
                                    == x && tiles_coords@[k].y == y;
                            assert(0 <= k0 < i && tiles_coords@[k0].x == x && tiles_coords@[k0].y
                                == y);
                        } else {
                            if (exists|k: int|
                                0 <= k < i && (#[trigger] tiles_coords@[k]).x == x
                                    && tiles_coords@[k].y == y) {
                                let k0 = choose|k: int|
                                    0 <= k < i && (#[trigger] tiles_coords@[k]).x == x
                                        && tiles_coords@[k].y == y;
                                assert(in_disc(
                                    ccx,
                                    ccy,
                                    DESTROY_RADIUS as int,
                                    tiles_coords@[k0].x as int,
                                    tiles_coords@[k0].y as int,
                                ));
                            }
                        }
                    }
                }
            },
            _ => {},
        }
    }

    /// Generates a fresh world: a noise field with the fixed seed, and the
    /// starting square of chunk positions generated eagerly in both stores.
    pub fn generate() -> (r: World)
        ensures
            r.wf(),
            freshly_generated(r),
    {
        let noise = NoiseField::new(WORLD_SEED);
        let mut world = World { chunks: Vec::new(), map_chunks: Vec::new(), noise };
        let span: i64 = INITIAL_SPAN * CHUNK_SPAN;
        let zone = Rect { x: -span, y: -span, w: 2 * span, h: 2 * span };
        proof {
            assert(chunks_wf(world.chunks@));
            assert(lazys_wf(world.map_chunks@));
        }
        let ghost pre = world;
        world.generate_at(zone, zone);
        proof {
            assert(zone_min_x(zone) == -INITIAL_SPAN);
            assert(zone_min_y(zone) == -INITIAL_SPAN);
            assert(zone_max_x(zone) == INITIAL_SPAN);
            assert(zone_max_y(zone) == INITIAL_SPAN);
            assert(forall|cx: int, cy: int| !pre.has_chunk(cx, cy) && !pre.has_lazy(cx, cy));
            assert(forall|cx: int, cy: int| in_zone(zone, cx, cy) <==> initial_zone(cx, cy));
            assert forall|cx: int, cy: int| #[trigger] world.has_chunk(cx, cy) <==> initial_zone(
                cx,
                cy,
            ) by {}
            assert forall|cx: int, cy: int| #[trigger] world.has_lazy(cx, cy) <==> initial_zone(
                cx,
                cy,
            ) by {}
            assert forall|cx: int, cy: int|
                initial_zone(cx, cy) implies (#[trigger] world.chunk_tiles(cx, cy)).len()
                == CHUNK_AREA by {
                assert(world.has_chunk(cx, cy) && !pre.has_chunk(cx, cy));
            }
            assert forall|cx: int, cy: int, j: int|
                initial_zone(cx, cy) && 0 <= j < CHUNK_AREA implies #[trigger] world.chunk_tiles(
                cx,
                cy,
            )[j] == generated_tile(WORLD_SEED, cx, cy, j) by {
                assert(world.has_chunk(cx, cy) && !pre.has_chunk(cx, cy));
            }
            assert forall|cx: int, cy: int|
                initial_zone(cx, cy) implies #[trigger] world.lazy_tile(cx, cy)
                == generated_lazy_tile(WORLD_SEED, cx, cy) by {
                assert(world.has_lazy(cx, cy) && !pre.has_lazy(cx, cy));
            }
        }
        world
    }

    /// Ensures every chunk position covered by the render zone has a full
    /// chunk and every position covered by the map zone has a lazy chunk,
    /// generating the missing ones; never regenerates or overwrites.
    pub fn generate_at(&mut self, render_zone: Rect, map_zone: Rect)
        requires
            old(self).wf(),
            -GEN_SPAN <= render_zone.x <= GEN_SPAN,
            -GEN_SPAN <= render_zone.y <= GEN_SPAN,
            -GEN_SPAN <= render_zone.x + render_zone.w <= GEN_SPAN,
            -GEN_SPAN <= render_zone.y + render_zone.h <= GEN_SPAN,
            -GEN_SPAN <= map_zone.x <= GEN_SPAN,
            -GEN_SPAN <= map_zone.y <= GEN_SPAN,
            -GEN_SPAN <= map_zone.x + map_zone.w <= GEN_SPAN,
            -GEN_SPAN <= map_zone.y + map_zone.h <= GEN_SPAN,
        ensures
            final(self).wf(),
            generate_at_rel(*old(self), *final(self), render_zone, map_zone),
    {
        proof {
            lemma_zone_bounds(render_zone);
        }
        let ghost pre = *self;
        let area = ChunkPosition::from_rect(render_zone);
        let min_x: i64 = area.0.x;
        let min_y: i64 = area.0.y;
        let max_x: i64 = area.1.x;
        let max_y: i64 = area.1.y;
        let mut x: i64 = min_x;
        while x < max_x
            invariant
                self.wf(),
                chunk_growth(pre, *self),
                self.map_chunks@ == pre.map_chunks@,
                min_x <= x,
                x <= max_x || x == min_x,
                -GEN_LIMIT <= min_x <= GEN_LIMIT,
                -GEN_LIMIT <= max_x <= GEN_LIMIT,
                -GEN_LIMIT <= min_y <= GEN_LIMIT,
                -GEN_LIMIT <= max_y <= GEN_LIMIT,
                forall|cx: int, cy: int|
                    #[trigger] self.has_chunk(cx, cy) <==> (pre.has_chunk(cx, cy) || (min_x <= cx
                        < x && cx < max_x && min_y <= cy < max_y)),
            decreases max_x - x,
        {
            let mut y: i64 = min_y;
            while y < max_y
                invariant
                    self.wf(),
                    chunk_growth(pre, *self),
                    self.map_chunks@ == pre.map_chunks@,
                    min_x <= x < max_x,
                    min_y <= y,
                    y <= max_y || y == min_y,
                    -GEN_LIMIT <= min_x <= GEN_LIMIT,
                    -GEN_LIMIT <= max_x <= GEN_LIMIT,
                    -GEN_LIMIT <= min_y <= GEN_LIMIT,
                    -GEN_LIMIT <= max_y <= GEN_LIMIT,
                    forall|cx: int, cy: int|
                        #[trigger] self.has_chunk(cx, cy) <==> (pre.has_chunk(cx, cy) || (min_x
                            <= cx < x && cx < max_x && min_y <= cy < max_y) || (cx == x && min_y
                            <= cy < y && cy < max_y)),
                decreases max_y - y,
            {
                let pos = ChunkPosition { x, y };
                let ghost mid = *self;
                if self.find_chunk(x, y).is_none() {
                    let c = Chunk::generate(pos, &self.noise);
                    proof {
                        lemma_chunk_push(self.chunks@, c);
                    }
                    self.chunks.push(c);
                }
                proof {
                    assert(self.has_chunk(x as int, y as int));
                    assert forall|cx: int, cy: int| #[trigger] self.has_chunk(cx, cy) implies (
                    mid.has_chunk(cx, cy) || (cx == x && cy == y)) by {}
                    assert forall|cx: int, cy: int|
                        mid.has_chunk(cx, cy) implies #[trigger] self.has_chunk(cx, cy) by {}
                    assert forall|cx: int, cy: int|
                        mid.has_chunk(cx, cy) implies #[trigger] self.chunk_tiles(cx, cy)
                        == mid.chunk_tiles(cx, cy) by {}
                }
                y = y + 1;
            }
            x = x + 1;
        }
        let ghost mid = *self;
        self.generate_map_at(map_zone);
        proof {
            assert forall|cx: int, cy: int| #[trigger] self.has_chunk(cx, cy)
                == mid.has_chunk(cx, cy) by {}
            assert forall|cx: int, cy: int| #[trigger] self.chunk_tiles(cx, cy)
                == mid.chunk_tiles(cx, cy) by {}
            assert(chunk_growth(pre, *self));
            assert forall|cx: int, cy: int| #[trigger] self.has_chunk(cx, cy) <==> (pre.has_chunk(
                cx,
                cy,
            ) || in_zone(render_zone, cx, cy)) by {}
            assert(lazy_growth(pre, *self));
            assert forall|cx: int, cy: int| #[trigger] self.has_lazy(cx, cy) <==> (pre.has_lazy(
                cx,
                cy,
            ) || in_zone(map_zone, cx, cy)) by {}
        }
    }

    /// Ensures every chunk position covered by the map zone has a lazy
    /// chunk, generating the missing ones; the full chunks are untouched.
    fn generate_map_at(&mut self, map_zone: Rect)
        requires
            old(self).wf(),
            -GEN_SPAN <= map_zone.x <= GEN_SPAN,
            -GEN_SPAN <= map_zone.y <= GEN_SPAN,
            -GEN_SPAN <= map_zone.x + map_zone.w <= GEN_SPAN,
            -GEN_SPAN <= map_zone.y + map_zone.h <= GEN_SPAN,
        ensures
            final(self).wf(),
            lazy_growth(*old(self), *final(self)),
            final(self).chunks@ == old(self).chunks@,
            final(self).seed() == old(self).seed(),
            forall|cx: int, cy: int|
                #[trigger] final(self).has_lazy(cx, cy) <==> (old(self).has_lazy(cx, cy)
                    || in_zone(map_zone, cx, cy)),
    {
        proof {
            lemma_zone_bounds(map_zone);
        }
        let ghost pre = *self;
        let area = ChunkPosition::from_rect(map_zone);
        let min_x: i64 = area.0.x;
        let min_y: i64 = area.0.y;
        let max_x: i64 = area.1.x;
        let max_y: i64 = area.1.y;
        let mut x: i64 = min_x;
        while x < max_x
            invariant
                self.wf(),
                lazy_growth(pre, *self),
                self.chunks@ == pre.chunks@,
                self.seed() == pre.seed(),
                min_x <= x,
                x <= max_x || x == min_x,
                -GEN_LIMIT <= min_x <= GEN_LIMIT,
                -GEN_LIMIT <= max_x <= GEN_LIMIT,
                -GEN_LIMIT <= min_y <= GEN_LIMIT,
                -GEN_LIMIT <= max_y <= GEN_LIMIT,
                forall|cx: int, cy: int|
                    #[trigger] self.has_lazy(cx, cy) <==> (pre.has_lazy(cx, cy) || (min_x <= cx
                        < x && cx < max_x && min_y <= cy < max_y)),
            decreases max_x - x,
        {
            let mut y: i64 = min_y;
            while y < max_y
                invariant
                    self.wf(),
                    lazy_growth(pre, *self),
                    self.chunks@ == pre.chunks@,
                    self.seed() == pre.seed(),
                    min_x <= x < max_x,
                    min_y <= y,
                    y <= max_y || y == min_y,
                    -GEN_LIMIT <= min_x <= GEN_LIMIT,
                    -GEN_LIMIT <= max_x <= GEN_LIMIT,
                    -GEN_LIMIT <= min_y <= GEN_LIMIT,
                    -GEN_LIMIT <= max_y <= GEN_LIMIT,
                    forall|cx: int, cy: int|
                        #[trigger] self.has_lazy(cx, cy) <==> (pre.has_lazy(cx, cy) || (min_x
                            <= cx < x && cx < max_x && min_y <= cy < max_y) || (cx == x && min_y
                            <= cy < y && cy < max_y)),
                decreases max_y - y,
            {
                let pos = ChunkPosition { x, y };
                let ghost mid = *self;
                if self.find_lazy(x, y).is_none() {
                    let c = LazyChunk::generate(pos, &self.noise);
                    proof {
                        lemma_lazy_push(self.map_chunks@, c);
                    }
                    self.map_chunks.push(c);
                }
                proof {
                    assert(self.has_lazy(x as int, y as int));
                    assert forall|cx: int, cy: int| #[trigger] self.has_lazy(cx, cy) implies (
                    mid.has_lazy(cx, cy) || (cx == x && cy == y)) by {}
                    assert forall|cx: int, cy: int|
                        mid.has_lazy(cx, cy) implies #[trigger] self.has_lazy(cx, cy) by {}
                    assert forall|cx: int, cy: int|
                        mid.has_lazy(cx, cy) implies #[trigger] self.lazy_tile(cx, cy)
                        == mid.lazy_tile(cx, cy) by {}
                }
                y = y + 1;
            }
            x = x + 1;
        }
    }
}

/// Determinism of generation: any two freshly generated worlds hold the
/// same chunks and the same tiles at every coordinate — terrain is a
/// function of the fixed seed and parameters alone.
pub proof fn lemma_generation_deterministic(w1: World, w2: World)
    requires
        freshly_generated(w1),
        freshly_generated(w2),
    ensures
        forall|cx: int, cy: int| #[trigger] w1.has_chunk(cx, cy) == w2.has_chunk(cx, cy),
        forall|cx: int, cy: int| #[trigger] w1.has_lazy(cx, cy) == w2.has_lazy(cx, cy),
        forall|x: int, y: int| #[trigger] w1.tile_at(x, y) == w2.tile_at(x, y),
        forall|cx: int, cy: int|
            w1.has_lazy(cx, cy) ==> #[trigger] w1.lazy_tile(cx, cy) == w2.lazy_tile(cx, cy),
{
    assert forall|x: int, y: int| #[trigger] w1.tile_at(x, y) == w2.tile_at(x, y) by {
        lemma_chunk_addressing_roundtrip(x, y);
        let cx = chunk_of(x);
        let cy = chunk_of(y);
        if initial_zone(cx, cy) {
            let j = local_of(x) * (CHUNK_SIZE as int) + local_of(y);
            assert(0 <= j < CHUNK_AREA);
            assert(w1.chunk_tiles(cx, cy)[j] == generated_tile(WORLD_SEED, cx, cy, j));
            assert(w2.chunk_tiles(cx, cy)[j] == generated_tile(WORLD_SEED, cx, cy, j));
        }
    }
}

/// Idempotent generation: a second `generate_at` call whose zones lie within
/// the first call's zones changes nothing — no chunk appears, disappears or
/// has any tile rewritten.
pub proof fn lemma_generate_at_idempotent(
    w0: World,
    w1: World,
    w2: World,
    rz1: Rect,
    mz1: Rect,
    rz2: Rect,
    mz2: Rect,
)
    requires
        generate_at_rel(w0, w1, rz1, mz1),
        generate_at_rel(w1, w2, rz2, mz2),
        forall|cx: int, cy: int| #[trigger] in_zone(rz2, cx, cy) ==> in_zone(rz1, cx, cy),
        forall|cx: int, cy: int| #[trigger] in_zone(mz2, cx, cy) ==> in_zone(mz1, cx, cy),
    ensures
        forall|cx: int, cy: int| #[trigger] w2.has_chunk(cx, cy) == w1.has_chunk(cx, cy),
        forall|cx: int, cy: int|
            w1.has_chunk(cx, cy) ==> #[trigger] w2.chunk_tiles(cx, cy) == w1.chunk_tiles(cx, cy),
        forall|x: int, y: int| #[trigger] w2.tile_at(x, y) == w1.tile_at(x, y),
        forall|cx: int, cy: int| #[trigger] w2.has_lazy(cx, cy) == w1.has_lazy(cx, cy),
        forall|cx: int, cy: int|
            w1.has_lazy(cx, cy) ==> #[trigger] w2.lazy_tile(cx, cy) == w1.lazy_tile(cx, cy),
{
    assert forall|cx: int, cy: int| #[trigger] w2.has_chunk(cx, cy) == w1.has_chunk(cx, cy) by {
        if in_zone(rz2, cx, cy) {
            assert(in_zone(rz1, cx, cy));
            assert(w1.has_chunk(cx, cy));
        }
    }
    assert forall|cx: int, cy: int| #[trigger] w2.has_lazy(cx, cy) == w1.has_lazy(cx, cy) by {
        if in_zone(mz2, cx, cy) {
            assert(in_zone(mz1, cx, cy));
            assert(w1.has_lazy(cx, cy));
        }
    }
}

} // verus!
