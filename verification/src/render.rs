//! Region rendering: expands a rectangular part of the block grid into the
//! two destination pixel buffers, dispatching each metatile on its layer
//! type.

use vstd::prelude::*;
use vstd::arithmetic::div_mod::{
    lemma_div_pos_is_pos, lemma_fundamental_div_mod, lemma_fundamental_div_mod_converse,
    lemma_mod_bound,
};
use vstd::arithmetic::mul::{
    lemma_mul_basics, lemma_mul_inequality, lemma_mul_is_commutative,
    lemma_mul_is_distributive_add_other_way, lemma_mul_is_distributive_sub_other_way,
    lemma_mul_left_inequality, lemma_mul_nonnegative,
};

use crate::compose::{clear_block, clear_block_spec, draw_layer_spec, draw_metatile_layer,
    layer_written, lemma_layer_frame, lemma_layer_pixel};
use crate::data::{clear_color, Color, TilesetData, TilesetView};
use crate::draw::{lemma_dest_index_bounds, BlitMode};
use crate::MapError;

verus! {

/// Layer type: the metatile's bottom layer is drawn behind the sprite and
/// its top layer in front of it.
pub const NORMAL: u8 = 0;

/// Layer type: both of the metatile's layers are drawn behind the sprite,
/// the top one letting the bottom one show through its index-0 pixels.
pub const COVERED: u8 = 1;

/// Layer type: composited exactly like `COVERED`.
pub const SPLIT: u8 = 2;

/// Layer type: like `COVERED` behind the sprite, but the layer drawn in
/// front of it is borrowed from the metatile at the next grid position.
pub const THREELAYERS: u8 = 3;

/// Whether a block-grid entry names a drawable metatile: the `0xFFFF`
/// sentinel and any id beyond the metatile table mean "draw nothing here".
pub open spec fn valid_metatile_id(id: u16, metatiles_len: int) -> bool {
    id != 0xffff && (id as int) < metatiles_len
}

/// Every metatile the region draws carries one of the four defined layer
/// types; any other value is a data-integrity fault.
pub open spec fn region_layer_types_ok(
    ctx: TilesetView,
    grid: Seq<u16>,
    bw: int,
    sx: int,
    sy: int,
    ex: int,
    ey: int,
) -> bool {
    forall|bx: int, by: int|
        sx <= bx < ex && sy <= by < ey && valid_metatile_id(
            #[trigger] grid[by * bw + bx],
            ctx.metatiles.len() as int,
        ) ==> ctx.layer_types[grid[by * bw + bx] as int] <= 3
}

/// What a call to `render` demands of its arguments: a well-formed bundle, a
/// positive grid width dividing the grid length, a region inside the grid,
/// a pixel row width of 16 pixels per block column, and destination buffers
/// of exactly 16 x 16 pixels per grid entry.
pub open spec fn render_args_ok(
    ctx: TilesetView,
    grid: Seq<u16>,
    bw: int,
    pw: int,
    bot_len: int,
    top_len: int,
    ex: int,
    ey: int,
) -> bool {
    &&& ctx.wf()
    &&& 0 < bw
    &&& pw == bw * 16
    &&& grid.len() as int % bw == 0
    &&& ex <= bw
    &&& ey <= grid.len() as int / bw
    &&& bot_len == grid.len() as int * 256
    &&& top_len == grid.len() as int * 256
}

/// Both buffers after rendering the single block at `(bx, by)`.
///
/// An entry that names no drawable metatile leaves both buffers untouched.
/// Otherwise the block's 16x16 region of the top buffer is first cleared to
/// full transparency, and the layer type then decides what is drawn where;
/// a `THREELAYERS` block takes its front-of-sprite content from the grid
/// entry at linear index `index + 1`, even across a row boundary, and leaves
/// the clear in place when that entry is absent or undrawable.
pub open spec fn render_block_spec(
    ctx: TilesetView,
    grid: Seq<u16>,
    bw: int,
    pw: int,
    bufs: (Seq<Color>, Seq<Color>),
    bx: int,
    by: int,
) -> (Seq<Color>, Seq<Color>) {
    let index = by * bw + bx;
    let id = grid[index];
    if !valid_metatile_id(id, ctx.metatiles.len() as int) {
        bufs
    } else {
        let ox = bx * 16;
        let oy = by * 16;
        let m = ctx.metatiles[id as int];
        let cleared = clear_block_spec(bufs.1, pw, ox, oy);
        let lt = ctx.layer_types[id as int];
        if lt == NORMAL {
            (
                draw_layer_spec(bufs.0, ctx.tiles, ctx.palettes, pw, ox, oy, m.bot, BlitMode::Opaque),
                draw_layer_spec(cleared, ctx.tiles, ctx.palettes, pw, ox, oy, m.top, BlitMode::Transparent),
            )
        } else if lt == COVERED || lt == SPLIT {
            (
                draw_layer_spec(
                    draw_layer_spec(bufs.0, ctx.tiles, ctx.palettes, pw, ox, oy, m.bot, BlitMode::Opaque),
                    ctx.tiles,
                    ctx.palettes,
                    pw,
                    ox,
                    oy,
                    m.top,
                    BlitMode::FallThrough,
                ),
                cleared,
            )
        } else {
            let bot2 = draw_layer_spec(
                draw_layer_spec(bufs.0, ctx.tiles, ctx.palettes, pw, ox, oy, m.bot, BlitMode::Opaque),
                ctx.tiles,
                ctx.palettes,
                pw,
                ox,
                oy,
                m.top,
                BlitMode::FallThrough,
            );
            if index + 1 >= grid.len() as int {
                (bot2, cleared)
            } else {
                let nid = grid[index + 1];
                if !valid_metatile_id(nid, ctx.metatiles.len() as int) {
                    (bot2, cleared)
                } else {
                    (
                        bot2,
                        draw_layer_spec(
                            cleared,
                            ctx.tiles,
                            ctx.palettes,
                            pw,
                            ox,
                            oy,
                            ctx.metatiles[nid as int].top,
                            BlitMode::Transparent,
                        ),
                    )
                }
            }
        }
    }
}

/// Both buffers after rendering the first `k` blocks of the region, in
/// row-major order (block number `j` is at
/// `(sx + j % (ex - sx), sy + j / (ex - sx))`).
pub open spec fn render_region_partial(
    ctx: TilesetView,
    grid: Seq<u16>,
    bw: int,
    pw: int,
    bufs: (Seq<Color>, Seq<Color>),
    sx: int,
    sy: int,
    ex: int,
    ey: int,
    k: int,
) -> (Seq<Color>, Seq<Color>)
    decreases k,
{
    if k <= 0 || ex <= sx {
        bufs
    } else {
        let w = ex - sx;
        let prev = render_region_partial(ctx, grid, bw, pw, bufs, sx, sy, ex, ey, k - 1);
        render_block_spec(ctx, grid, bw, pw, prev, sx + (k - 1) % w, sy + (k - 1) / w)
    }
}

/// Both buffers after rendering every block of the region
/// `[sx, ex) x [sy, ey)` in row-major order. An empty region changes
/// nothing.
pub open spec fn render_region_spec(
    ctx: TilesetView,
    grid: Seq<u16>,
    bw: int,
    pw: int,
    bufs: (Seq<Color>, Seq<Color>),
    sx: int,
    sy: int,
    ex: int,
    ey: int,
) -> (Seq<Color>, Seq<Color>) {
    if sx < ex && sy < ey {
        render_region_partial(ctx, grid, bw, pw, bufs, sx, sy, ex, ey, (ex - sx) * (ey - sy))
    } else {
        bufs
    }
}

/// A grid position inside a `bw` by `bh` grid has a flat index inside the
/// grid.
proof fn lemma_grid_index(bw: int, bh: int, bx: int, by: int)
    requires
        0 <= bx < bw,
        0 <= by < bh,
    ensures
        0 <= by * bw + bx < bh * bw,
{
    lemma_mul_nonnegative(by, bw);
    lemma_mul_inequality(by, bh - 1, bw);
    lemma_mul_is_distributive_sub_other_way(bw, bh, 1);
    lemma_mul_basics(bw);
}

/// With the grid length a positive multiple of `bw`, the grid is `bw`
/// columns by `len / bw` rows.
proof fn lemma_grid_shape(len: int, bw: int)
    requires
        0 < bw,
        0 <= len,
        len % bw == 0,
    ensures
        len == (len / bw) * bw,
        0 <= len / bw,
    {
    lemma_fundamental_div_mod(len, bw);
    lemma_mul_is_commutative(bw, len / bw);
    vstd::arithmetic::div_mod::lemma_div_pos_is_pos(len, bw);
}

/// A block inside the grid owns a 16x16 pixel region that lies inside a
/// destination buffer of `n` pixels with row width `pw`.
proof fn lemma_block_buffer_bounds(bw: int, bh: int, pw: int, bx: int, by: int, n: int)
    requires
        0 <= bx < bw,
        0 <= by < bh,
        pw == bw * 16,
        n == (bh * bw) * 256,
    ensures
        bx * 16 + 16 <= pw,
        (by * 16 + 16) * pw <= n,
        by * 16 + 16 <= n,
{
    assert((by * 16 + 16) * pw <= n) by (nonlinear_arith)
        requires
            0 <= by,
            by + 1 <= bh,
            0 < bw,
            pw == bw * 16,
            n == (bh * bw) * 256,
    ;
    assert(by * 16 + 16 <= (by * 16 + 16) * pw) by (nonlinear_arith)
        requires
            0 <= by,
            16 <= pw,
    ;
}

/// Checks that every metatile the region would draw carries a defined layer
/// type.
fn check_region_layer_types(
    context: &TilesetData,
    blocks_data: &Vec<u16>,
    blocks_width: usize,
    start_x: usize,
    start_y: usize,
    end_x: usize,
    end_y: usize,
) -> (ok: bool)
    requires
        context@.wf(),
        0 < blocks_width,
        blocks_data@.len() as int % (blocks_width as int) == 0,
        end_x <= blocks_width,
        end_y <= blocks_data@.len() as int / (blocks_width as int),
    ensures
        ok == region_layer_types_ok(
            context@,
            blocks_data@,
            blocks_width as int,
            start_x as int,
            start_y as int,
            end_x as int,
            end_y as int,
        ),
{
    let ghost ctx = context@;
    let ghost grid = blocks_data@;
    let ghost bw = blocks_width as int;
    let ghost sx = start_x as int;
    let ghost sy = start_y as int;
    let ghost ex = end_x as int;
    let ghost ey = end_y as int;
    proof {
        lemma_grid_shape(grid.len() as int, bw);
    }

    let mut by: usize = start_y;
    while by < end_y
        invariant
            context@ == ctx,
            blocks_data@ == grid,
            bw == blocks_width as int,
            sx == start_x as int,
            sy == start_y as int,
            ex == end_x as int,
            ey == end_y as int,
            ctx.wf(),
            0 < bw,
            grid.len() as int == (grid.len() as int / bw) * bw,
            ex <= bw,
            ey <= grid.len() as int / bw,
            sy <= by || by == start_y,
            by <= ey || by == start_y,
            forall|bxi: int, byi: int|
                sx <= bxi < ex && sy <= byi < by && valid_metatile_id(
                    #[trigger] grid[byi * bw + bxi],
                    ctx.metatiles.len() as int,
                ) ==> ctx.layer_types[grid[byi * bw + bxi] as int] <= 3,
        decreases end_y - by,
    {
        let mut bx: usize = start_x;
        while bx < end_x
            invariant
                context@ == ctx,
                blocks_data@ == grid,
                bw == blocks_width as int,
                sx == start_x as int,
                sy == start_y as int,
                ex == end_x as int,
                ey == end_y as int,
                ctx.wf(),
                0 < bw,
                grid.len() as int == (grid.len() as int / bw) * bw,
                ex <= bw,
                ey <= grid.len() as int / bw,
                sy <= by < ey,
                sx <= bx || bx == start_x,
                bx <= ex || bx == start_x,
                forall|bxi: int, byi: int|
                    sx <= bxi < ex && sy <= byi < by && valid_metatile_id(
                        #[trigger] grid[byi * bw + bxi],
                        ctx.metatiles.len() as int,
                    ) ==> ctx.layer_types[grid[byi * bw + bxi] as int] <= 3,
                forall|bxi: int|
                    sx <= bxi < bx && valid_metatile_id(
                        #[trigger] grid[by as int * bw + bxi],
                        ctx.metatiles.len() as int,
                    ) ==> ctx.layer_types[grid[by as int * bw + bxi] as int] <= 3,
            decreases end_x - bx,
        {
            proof {
                lemma_grid_index(bw, grid.len() as int / bw, bx as int, by as int);
                lemma_mul_inequality(grid.len() as int / bw, grid.len() as int / bw, bw);
                assert(blocks_data.len() == grid.len());
            }
            let index = by * blocks_width + bx;
            let id = blocks_data[index];
            if id != 0xffff && (id as usize) < context.metatiles.len() {
                if context.layer_types[id as usize] > 3 {
                    return false;
                }
            }
            bx += 1;
        }
        by += 1;
    }
    true
}

/// Rendering one block touches nothing outside that block's 16x16 pixel
/// region, in either buffer.
proof fn lemma_block_frame(
    ctx: TilesetView,
    grid: Seq<u16>,
    bw: int,
    pw: int,
    bufs: (Seq<Color>, Seq<Color>),
    bx: int,
    by: int,
    i: int,
)
    requires
        pw > 0,
        0 <= i < bufs.0.len(),
        i < bufs.1.len(),
        !(bx * 16 <= i % pw < bx * 16 + 16 && by * 16 <= i / pw < by * 16 + 16),
        0 <= by * bw + bx < grid.len(),
    ensures
        ({
            let r = render_block_spec(ctx, grid, bw, pw, bufs, bx, by);
            &&& r.0.len() == bufs.0.len()
            &&& r.1.len() == bufs.1.len()
            &&& r.0[i] == bufs.0[i]
            &&& r.1[i] == bufs.1[i]
        }),
{
    let index = by * bw + bx;
    let id = grid[index];
    if valid_metatile_id(id, ctx.metatiles.len() as int) {
        let ox = bx * 16;
        let oy = by * 16;
        let m = ctx.metatiles[id as int];
        let cleared = clear_block_spec(bufs.1, pw, ox, oy);
        assert(cleared[i] == bufs.1[i]);
        let b1 = draw_layer_spec(bufs.0, ctx.tiles, ctx.palettes, pw, ox, oy, m.bot, BlitMode::Opaque);
        lemma_layer_frame(bufs.0, ctx.tiles, ctx.palettes, pw, ox, oy, m.bot, BlitMode::Opaque, i);
        lemma_layer_frame(
            bufs.0,
            ctx.tiles,
            ctx.palettes,
            pw,
            ox,
            oy,
            m.top,
            BlitMode::Transparent,
            i,
        );
        lemma_layer_frame(cleared, ctx.tiles, ctx.palettes, pw, ox, oy, m.top, BlitMode::Transparent, i);
        lemma_layer_frame(b1, ctx.tiles, ctx.palettes, pw, ox, oy, m.top, BlitMode::FallThrough, i);
        if index + 1 < grid.len() as int {
            let nid = grid[index + 1];
            if valid_metatile_id(nid, ctx.metatiles.len() as int) {
                lemma_layer_frame(
                    cleared,
                    ctx.tiles,
                    ctx.palettes,
                    pw,
                    ox,
                    oy,
                    ctx.metatiles[nid as int].top,
                    BlitMode::Transparent,
                    i,
                );
            }
        }
    }
}

/// Rendering the first `k` blocks of the region touches nothing outside the
/// region's pixel rectangle, in either buffer.
proof fn lemma_partial_frame(
    ctx: TilesetView,
    grid: Seq<u16>,
    bw: int,
    pw: int,
    bufs: (Seq<Color>, Seq<Color>),
    sx: int,
    sy: int,
    ex: int,
    ey: int,
    k: int,
    i: int,
)
    requires
        0 < bw,
        pw == bw * 16,
        0 <= sx,
        sx < ex <= bw,
        0 <= sy,
        ey <= grid.len() as int / bw,
        grid.len() as int == (grid.len() as int / bw) * bw,
        bufs.0.len() == grid.len() * 256,
        bufs.1.len() == grid.len() * 256,
        k <= (ex - sx) * (ey - sy),
        0 <= i < bufs.0.len(),
        !(sx * 16 <= i % pw < ex * 16 && sy * 16 <= i / pw < ey * 16),
    ensures
        ({
            let r = render_region_partial(ctx, grid, bw, pw, bufs, sx, sy, ex, ey, k);
            &&& r.0.len() == bufs.0.len()
            &&& r.1.len() == bufs.1.len()
            &&& r.0[i] == bufs.0[i]
            &&& r.1[i] == bufs.1[i]
        }),
    decreases k,
{
    if k <= 0 {
    } else {
        let w = ex - sx;
        let h = ey - sy;
        lemma_partial_frame(ctx, grid, bw, pw, bufs, sx, sy, ex, ey, k - 1, i);
        let prev = render_region_partial(ctx, grid, bw, pw, bufs, sx, sy, ex, ey, k - 1);
        lemma_mod_bound(k - 1, w);
        lemma_div_pos_is_pos(k - 1, w);
        let bx = sx + (k - 1) % w;
        let by = sy + (k - 1) / w;
        assert(by < ey) by {
            if (k - 1) / w >= h {
                lemma_fundamental_div_mod(k - 1, w);
                lemma_mul_inequality(h, (k - 1) / w, w);
                lemma_mul_is_commutative(h, w);
                lemma_mul_is_commutative((k - 1) / w, w);
                assert(k - 1 >= w * h);
            }
        }
        lemma_grid_index(bw, grid.len() as int / bw, bx, by);
        lemma_block_frame(ctx, grid, bw, pw, prev, bx, by, i);
    }
}

/// Law: region restriction. Rendering the region `[sx, ex) x [sy, ey)`
/// leaves every pixel outside that region's 16x16-per-block rectangle, in
/// both buffers, exactly as it was.
pub proof fn lemma_region_restriction(
    ctx: TilesetView,
    grid: Seq<u16>,
    bw: int,
    pw: int,
    bufs: (Seq<Color>, Seq<Color>),
    sx: int,
    sy: int,
    ex: int,
    ey: int,
    i: int,
)
    requires
        render_args_ok(ctx, grid, bw, pw, bufs.0.len() as int, bufs.1.len() as int, ex, ey),
        0 <= sx,
        0 <= sy,
        0 <= i < bufs.0.len(),
        !(sx * 16 <= i % pw < ex * 16 && sy * 16 <= i / pw < ey * 16),
    ensures
        ({
            let r = render_region_spec(ctx, grid, bw, pw, bufs, sx, sy, ex, ey);
            &&& r.0[i] == bufs.0[i]
            &&& r.1[i] == bufs.1[i]
        }),
{
    if sx < ex && sy < ey {
        lemma_grid_shape(grid.len() as int, bw);
        lemma_partial_frame(
            ctx,
            grid,
            bw,
            pw,
            bufs,
            sx,
            sy,
            ex,
            ey,
            (ex - sx) * (ey - sy),
            i,
        );
    }
}

/// Law: covered occlusion. After rendering a block whose metatile is
/// `COVERED` or `SPLIT`, the top buffer holds the fully transparent color
/// everywhere in that block's 16x16 region, and the bottom buffer shows the
/// metatile's top layer wherever that layer writes a pixel (a resolvable
/// tile with a non-zero palette index) and the bottom layer's result
/// beneath everything it leaves untouched.
pub proof fn lemma_covered_occlusion(
    ctx: TilesetView,
    grid: Seq<u16>,
    bw: int,
    pw: int,
    bufs: (Seq<Color>, Seq<Color>),
    bx: int,
    by: int,
    dx: int,
    dy: int,
)
    requires
        ctx.wf(),
        0 < bw,
        pw == bw * 16,
        grid.len() as int % bw == 0,
        0 <= bx < bw,
        0 <= by < grid.len() as int / bw,
        bufs.0.len() == grid.len() * 256,
        bufs.1.len() == grid.len() * 256,
        valid_metatile_id(grid[by * bw + bx], ctx.metatiles.len() as int),
        ctx.layer_types[grid[by * bw + bx] as int] == COVERED || ctx.layer_types[grid[by * bw
            + bx] as int] == SPLIT,
        0 <= dx < 16,
        0 <= dy < 16,
    ensures
        ({
            let r = render_block_spec(ctx, grid, bw, pw, bufs, bx, by);
            let i = (by * 16 + dy) * pw + bx * 16 + dx;
            let m = ctx.metatiles[grid[by * bw + bx] as int];
            &&& r.1[i] == clear_color()
            &&& r.0[i] == (match layer_written(
                ctx.tiles,
                ctx.palettes,
                m.top,
                BlitMode::FallThrough,
                dx,
                dy,
            ) {
                Some(c) => c,
                None => (match layer_written(
                    ctx.tiles,
                    ctx.palettes,
                    m.bot,
                    BlitMode::Opaque,
                    dx,
                    dy,
                ) {
                    Some(c) => c,
                    None => bufs.0[i],
                }),
            })
        }),
{
    let bh = grid.len() as int / bw;
    let ox = bx * 16;
    let oy = by * 16;
    let i = (oy + dy) * pw + ox + dx;
    let m = ctx.metatiles[grid[by * bw + bx] as int];
    lemma_grid_shape(grid.len() as int, bw);
    lemma_grid_index(bw, bh, bx, by);
    lemma_mul_is_commutative(bh, bw);
    lemma_block_buffer_bounds(bw, bh, pw, bx, by, bufs.0.len() as int);
    lemma_dest_index_bounds(pw, ox, oy, dx, dy, 16);
    lemma_fundamental_div_mod_converse(i, pw, oy + dy, ox + dx);
    let b1 = draw_layer_spec(bufs.0, ctx.tiles, ctx.palettes, pw, ox, oy, m.bot, BlitMode::Opaque);
    lemma_layer_pixel(bufs.0, ctx.tiles, ctx.palettes, pw, ox, oy, m.bot, BlitMode::Opaque, dx, dy);
    lemma_layer_pixel(b1, ctx.tiles, ctx.palettes, pw, ox, oy, m.top, BlitMode::FallThrough, dx, dy);
}

/// Law: cross-referenced front layer. After rendering a `THREELAYERS`
/// block, the top buffer's 16x16 region holds the top layer of the metatile
/// named by the *next* grid entry (linear index plus one), not the block's
/// own top layer; where that entry is beyond the grid or names no drawable
/// metatile, and beneath every pixel the borrowed layer leaves untouched,
/// the region holds the fully transparent color.
pub proof fn lemma_three_layers_cross_reference(
    ctx: TilesetView,
    grid: Seq<u16>,
    bw: int,
    pw: int,
    bufs: (Seq<Color>, Seq<Color>),
    bx: int,
    by: int,
    dx: int,
    dy: int,
)
    requires
        ctx.wf(),
        0 < bw,
        pw == bw * 16,
        grid.len() as int % bw == 0,
        0 <= bx < bw,
        0 <= by < grid.len() as int / bw,
        bufs.0.len() == grid.len() * 256,
        bufs.1.len() == grid.len() * 256,
        valid_metatile_id(grid[by * bw + bx], ctx.metatiles.len() as int),
        ctx.layer_types[grid[by * bw + bx] as int] == THREELAYERS,
        0 <= dx < 16,
        0 <= dy < 16,
    ensures
        ({
            let r = render_block_spec(ctx, grid, bw, pw, bufs, bx, by);
            let i = (by * 16 + dy) * pw + bx * 16 + dx;
            let index = by * bw + bx;
            let next_drawable = index + 1 < grid.len() as int && valid_metatile_id(
                grid[index + 1],
                ctx.metatiles.len() as int,
            );
            &&& (!next_drawable ==> r.1[i] == clear_color())
            &&& (next_drawable ==> r.1[i] == (match layer_written(
                ctx.tiles,
                ctx.palettes,
                ctx.metatiles[grid[index + 1] as int].top,
                BlitMode::Transparent,
                dx,
                dy,
            ) {
                Some(c) => c,
                None => clear_color(),
            }))
        }),
{
    let bh = grid.len() as int / bw;
    let ox = bx * 16;
    let oy = by * 16;
    let i = (oy + dy) * pw + ox + dx;
    let index = by * bw + bx;
    lemma_grid_shape(grid.len() as int, bw);
    lemma_grid_index(bw, bh, bx, by);
    lemma_mul_is_commutative(bh, bw);
    lemma_block_buffer_bounds(bw, bh, pw, bx, by, bufs.0.len() as int);
    lemma_dest_index_bounds(pw, ox, oy, dx, dy, 16);
    lemma_fundamental_div_mod_converse(i, pw, oy + dy, ox + dx);
    let cleared = clear_block_spec(bufs.1, pw, ox, oy);
    if index + 1 < grid.len() as int && valid_metatile_id(
        grid[index + 1],
        ctx.metatiles.len() as int,
    ) {
        lemma_layer_pixel(
            cleared,
            ctx.tiles,
            ctx.palettes,
            pw,
            ox,
            oy,
            ctx.metatiles[grid[index + 1] as int].top,
            BlitMode::Transparent,
            dx,
            dy,
        );
    }
}

/// Renders every block of the region `[start_x, end_x) x [start_y, end_y)`
/// of the block grid into the two destination buffers, row-major.
///
/// Arguments of the wrong shape are rejected as a `PreconditionViolation`
/// and a layer type outside the four defined values as a
/// `DataIntegrityFault`; in either case neither buffer is touched. On
/// success the buffers hold exactly the region render: blocks outside the
/// region, and blocks whose grid entry names no drawable metatile, keep
/// their old pixels.
pub fn render(
    context: &TilesetData,
    bot_layer_image_data: &mut Vec<Color>,
    top_layer_image_data: &mut Vec<Color>,
    blocks_data: &Vec<u16>,
    blocks_width: usize,
    pixels_width: usize,
    start_x: usize,
    start_y: usize,
    end_x: usize,
    end_y: usize,
) -> (res: Result<(), MapError>)
    ensures
        res is Ok <==> ({
            &&& render_args_ok(
                context@,
                blocks_data@,
                blocks_width as int,
                pixels_width as int,
                old(bot_layer_image_data)@.len() as int,
                old(top_layer_image_data)@.len() as int,
                end_x as int,
                end_y as int,
            )
            &&& region_layer_types_ok(
                context@,
                blocks_data@,
                blocks_width as int,
                start_x as int,
                start_y as int,
                end_x as int,
                end_y as int,
            )
        }),
        res == Err::<(), MapError>(MapError::PreconditionViolation) <==> !render_args_ok(
            context@,
            blocks_data@,
            blocks_width as int,
            pixels_width as int,
            old(bot_layer_image_data)@.len() as int,
            old(top_layer_image_data)@.len() as int,
            end_x as int,
            end_y as int,
        ),
        res is Err ==> final(bot_layer_image_data)@ == old(bot_layer_image_data)@
            && final(top_layer_image_data)@ == old(top_layer_image_data)@,
        res is Ok ==> (final(bot_layer_image_data)@, final(top_layer_image_data)@)
            == render_region_spec(
            context@,
            blocks_data@,
            blocks_width as int,
            pixels_width as int,
            (old(bot_layer_image_data)@, old(top_layer_image_data)@),
            start_x as int,
            start_y as int,
            end_x as int,
            end_y as int,
        ),
{
    let ghost ctx = context@;
    let ghost grid = blocks_data@;
    let ghost bw = blocks_width as int;
    let ghost pw = pixels_width as int;
    let ghost sx = start_x as int;
    let ghost sy = start_y as int;
    let ghost ex = end_x as int;
    let ghost ey = end_y as int;
    let ghost bot0 = bot_layer_image_data@;
    let ghost top0 = top_layer_image_data@;

    if context.palettes.len() != 16 || context.layer_types.len() != context.metatiles.len() {
        return Err(MapError::PreconditionViolation);
    }
    if blocks_width == 0 {
        return Err(MapError::PreconditionViolation);
    }
    if blocks_width > usize::MAX / 16 || pixels_width != blocks_width * 16 {
        proof {
            if bw > usize::MAX as int / 16 {
                lemma_fundamental_div_mod(usize::MAX as int, 16);
                lemma_mod_bound(usize::MAX as int, 16);
                assert(bw * 16 > usize::MAX as int);
            }
        }
        return Err(MapError::PreconditionViolation);
    }
    if blocks_data.len() % blocks_width != 0 {
        return Err(MapError::PreconditionViolation);
    }
    let blocks_height = blocks_data.len() / blocks_width;
    if end_x > blocks_width || end_y > blocks_height {
        return Err(MapError::PreconditionViolation);
    }
    if blocks_data.len() > usize::MAX / 256 || bot_layer_image_data.len() != blocks_data.len()
        * 256 || top_layer_image_data.len() != blocks_data.len() * 256 {
        proof {
            if grid.len() as int > usize::MAX as int / 256 {
                lemma_fundamental_div_mod(usize::MAX as int, 256);
                lemma_mod_bound(usize::MAX as int, 256);
                assert(grid.len() as int * 256 > usize::MAX as int);
                assert(bot0.len() <= usize::MAX) by {
                    assert(bot_layer_image_data.len() == bot0.len());
                }
            }
        }
        return Err(MapError::PreconditionViolation);
    }

    assert(render_args_ok(ctx, grid, bw, pw, bot0.len() as int, top0.len() as int, ex, ey));

    if !check_region_layer_types(
        context,
        blocks_data,
        blocks_width,
        start_x,
        start_y,
        end_x,
        end_y,
    ) {
        return Err(MapError::DataIntegrityFault);
    }

    if start_x >= end_x || start_y >= end_y {
        return Ok(());
    }

    let ghost w = ex - sx;
    proof {
        lemma_grid_shape(grid.len() as int, bw);
    }

    let mut by: usize = start_y;
    while by < end_y
        invariant
            context@ == ctx,
            blocks_data@ == grid,
            bw == blocks_width as int,
            pw == pixels_width as int,
            sx == start_x as int,
            sy == start_y as int,
            ex == end_x as int,
            ey == end_y as int,
            w == ex - sx,
            sx < ex,
            sy < ey,
            sy <= by <= ey,
            render_args_ok(ctx, grid, bw, pw, bot0.len() as int, top0.len() as int, ex, ey),
            region_layer_types_ok(ctx, grid, bw, sx, sy, ex, ey),
            grid.len() as int == (grid.len() as int / bw) * bw,
            bot_layer_image_data@.len() == bot0.len(),
            top_layer_image_data@.len() == top0.len(),
            (bot_layer_image_data@, top_layer_image_data@) == render_region_partial(
                ctx,
                grid,
                bw,
                pw,
                (bot0, top0),
                sx,
                sy,
                ex,
                ey,
                (by - sy) * w,
            ),
        decreases ey - by,
    {
        let mut bx: usize = start_x;
        while bx < end_x
            invariant
                context@ == ctx,
                blocks_data@ == grid,
                bw == blocks_width as int,
                pw == pixels_width as int,
                sx == start_x as int,
                sy == start_y as int,
                ex == end_x as int,
                ey == end_y as int,
                w == ex - sx,
                sx < ex,
                sy <= by < ey,
                sx <= bx <= ex,
                render_args_ok(ctx, grid, bw, pw, bot0.len() as int, top0.len() as int, ex, ey),
                region_layer_types_ok(ctx, grid, bw, sx, sy, ex, ey),
                grid.len() as int == (grid.len() as int / bw) * bw,
                bot_layer_image_data@.len() == bot0.len(),
                top_layer_image_data@.len() == top0.len(),
                (bot_layer_image_data@, top_layer_image_data@) == render_region_partial(
                    ctx,
                    grid,
                    bw,
                    pw,
                    (bot0, top0),
                    sx,
                    sy,
                    ex,
                    ey,
                    (by - sy) * w + (bx - sx),
                ),
            decreases ex - bx,
        {
            let ghost k = (by as int - sy) * w + (bx as int - sx);
            let ghost prev = (bot_layer_image_data@, top_layer_image_data@);
            let ghost bh = grid.len() as int / bw;
            proof {
                lemma_grid_index(bw, bh, bx as int, by as int);
                lemma_block_buffer_bounds(
                    bw,
                    bh,
                    pw,
                    bx as int,
                    by as int,
                    bot0.len() as int,
                );
                lemma_mul_is_commutative(bh, bw);
                assert(blocks_data.len() == grid.len());
                assert(bot_layer_image_data.len() == bot0.len());
                assert(top_layer_image_data.len() == top0.len());
            }
            let index = by * blocks_width + bx;
            let id16 = blocks_data[index];
            if id16 != 0xffff && (id16 as usize) < context.metatiles.len() {
                let id = id16 as usize;
                let ox = bx * 16;
                let oy = by * 16;
                clear_block(top_layer_image_data, ox, oy, pixels_width);
                let lt = context.layer_types[id];
                if lt == NORMAL {
                    draw_metatile_layer(
                        context,
                        bot_layer_image_data,
                        ox,
                        oy,
                        &context.metatiles[id].bot,
                        pixels_width,
                        BlitMode::Opaque,
                    );
                    draw_metatile_layer(
                        context,
                        top_layer_image_data,
                        ox,
                        oy,
                        &context.metatiles[id].top,
                        pixels_width,
                        BlitMode::Transparent,
                    );
                } else if lt == COVERED || lt == SPLIT {
                    draw_metatile_layer(
                        context,
                        bot_layer_image_data,
                        ox,
                        oy,
                        &context.metatiles[id].bot,
                        pixels_width,
                        BlitMode::Opaque,
                    );
                    draw_metatile_layer(
                        context,
                        bot_layer_image_data,
                        ox,
                        oy,
                        &context.metatiles[id].top,
                        pixels_width,
                        BlitMode::FallThrough,
                    );
                } else {
                    assert(lt == THREELAYERS);
                    draw_metatile_layer(
                        context,
                        bot_layer_image_data,
                        ox,
                        oy,
                        &context.metatiles[id].bot,
                        pixels_width,
                        BlitMode::Opaque,
                    );
                    draw_metatile_layer(
                        context,
                        bot_layer_image_data,
                        ox,
                        oy,
                        &context.metatiles[id].top,
                        pixels_width,
                        BlitMode::FallThrough,
                    );
                    if index + 1 < blocks_data.len() {
                        let nid16 = blocks_data[index + 1];
                        if nid16 != 0xffff && (nid16 as usize) < context.metatiles.len() {
                            draw_metatile_layer(
                                context,
                                top_layer_image_data,
                                ox,
                                oy,
                                &context.metatiles[nid16 as usize].top,
                                pixels_width,
                                BlitMode::Transparent,
                            );
                        }
                    }
                }
            }
            proof {
                assert((bot_layer_image_data@, top_layer_image_data@) == render_block_spec(
                    ctx,
                    grid,
                    bw,
                    pw,
                    prev,
                    bx as int,
                    by as int,
                ));
                lemma_fundamental_div_mod_converse(k, w, by as int - sy, bx as int - sx);
            }
            bx += 1;
        }
        by += 1;
        proof {
            lemma_mul_is_distributive_add_other_way(w, by as int - 1 - sy, 1);
            lemma_mul_basics(w);
        }
    }
    proof {
        lemma_mul_is_commutative(ey - sy, w);
    }
    Ok(())
}

} // verus!
