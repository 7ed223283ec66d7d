//! Metatile-level compositing: drawing one 2x2-tile layer of a metatile,
//! and clearing a block's 16x16 region to full transparency.

use vstd::prelude::*;
use vstd::arithmetic::div_mod::{
    lemma_fundamental_div_mod, lemma_fundamental_div_mod_converse, lemma_mod_bound,
};
use vstd::arithmetic::mul::{lemma_mul_inequality, lemma_mul_is_commutative};

use crate::data::{clear_color, Color, Palette, Tile, TilesetData};
use crate::draw::{
    blit_pixel, blit_tile, blit_tile_spec, flip_coord, lemma_dest_index_bounds, spec_hflip,
    spec_palette_id, spec_tile_id, spec_vflip, BlitMode,
};

verus! {

/// The buffer after drawing one packed tile reference of a metatile layer at
/// `(ox, oy)`. A reference whose tile id lies beyond the tile table is
/// skipped: that 8x8 sub-tile leaves the buffer untouched.
pub open spec fn layer_tile_spec(
    buf: Seq<Color>,
    tiles: Seq<Tile>,
    palettes: Seq<Palette>,
    pw: int,
    ox: int,
    oy: int,
    info: u16,
    mode: BlitMode,
) -> Seq<Color> {
    if spec_tile_id(info) >= tiles.len() {
        buf
    } else {
        blit_tile_spec(
            buf,
            pw,
            ox,
            oy,
            tiles[spec_tile_id(info)],
            palettes[spec_palette_id(info)],
            spec_hflip(info),
            spec_vflip(info),
            mode,
        )
    }
}

/// The buffer after drawing a whole metatile layer (four tile references
/// forming one 16x16 image) at `(ox, oy)`: top-left, top-right, bottom-left,
/// bottom-right, in that order.
pub open spec fn draw_layer_spec(
    buf: Seq<Color>,
    tiles: Seq<Tile>,
    palettes: Seq<Palette>,
    pw: int,
    ox: int,
    oy: int,
    layer: [u16; 4],
    mode: BlitMode,
) -> Seq<Color> {
    let b0 = layer_tile_spec(buf, tiles, palettes, pw, ox, oy, layer[0], mode);
    let b1 = layer_tile_spec(b0, tiles, palettes, pw, ox + 8, oy, layer[1], mode);
    let b2 = layer_tile_spec(b1, tiles, palettes, pw, ox, oy + 8, layer[2], mode);
    layer_tile_spec(b2, tiles, palettes, pw, ox + 8, oy + 8, layer[3], mode)
}

/// Draws one tile reference of a metatile layer: unpacks the packed fields,
/// skips the sub-tile when its id lies beyond the tile table, and otherwise
/// blits the tile with the palette and flips the reference names.
fn draw_layer_tile(
    context: &TilesetData,
    buffer: &mut Vec<Color>,
    ox: usize,
    oy: usize,
    info: u16,
    pixels_width: usize,
    mode: BlitMode,
)
    requires
        context@.palettes.len() == 16,
        ox + 8 <= pixels_width,
        (oy + 8) * pixels_width <= old(buffer).len(),
    ensures
        final(buffer)@ == layer_tile_spec(
            old(buffer)@,
            context@.tiles,
            context@.palettes,
            pixels_width as int,
            ox as int,
            oy as int,
            info,
            mode,
        ),
{
    let tile_id = (info & 0x3ff) as usize;
    if tile_id < context.tiles.len() {
        let palette_id = ((info >> 12) & 0xf) as usize;
        proof {
            assert((info >> 12) & 0xf < 16) by (bit_vector);
        }
        let hflip = info & 0x400 != 0;
        let vflip = info & 0x800 != 0;
        blit_tile(
            buffer,
            ox,
            oy,
            pixels_width,
            &context.tiles[tile_id],
            &context.palettes[palette_id],
            hflip,
            vflip,
            mode,
        );
    }
}

/// Draws a metatile layer (top or bottom) at the given block position in the
/// given image data: four 8x8 tiles forming one 16x16 image, each resolved,
/// flipped and made transparent as its packed reference and `mode` say.
pub fn draw_metatile_layer(
    context: &TilesetData,
    buffer: &mut Vec<Color>,
    offset_x: usize,
    offset_y: usize,
    metatile_layer: &[u16; 4],
    pixels_width: usize,
    mode: BlitMode,
)
    requires
        context@.palettes.len() == 16,
        offset_x + 16 <= pixels_width,
        (offset_y + 16) * pixels_width <= old(buffer).len(),
    ensures
        final(buffer)@ == draw_layer_spec(
            old(buffer)@,
            context@.tiles,
            context@.palettes,
            pixels_width as int,
            offset_x as int,
            offset_y as int,
            *metatile_layer,
            mode,
        ),
{
    proof {
        lemma_mul_inequality(offset_y as int + 8, offset_y as int + 16, pixels_width as int);
        lemma_dest_index_bounds(
            pixels_width as int,
            offset_x as int,
            offset_y as int,
            0,
            0,
            16,
        );
        assert(buffer@.len() <= usize::MAX) by {
            assert(buffer.len() == buffer@.len());
        }
    }
    draw_layer_tile(context, buffer, offset_x, offset_y, metatile_layer[0], pixels_width, mode);
    draw_layer_tile(
        context,
        buffer,
        offset_x + 8,
        offset_y,
        metatile_layer[1],
        pixels_width,
        mode,
    );
    draw_layer_tile(
        context,
        buffer,
        offset_x,
        offset_y + 8,
        metatile_layer[2],
        pixels_width,
        mode,
    );
    draw_layer_tile(
        context,
        buffer,
        offset_x + 8,
        offset_y + 8,
        metatile_layer[3],
        pixels_width,
        mode,
    );
}

/// The color a whole-layer draw writes at destination offset `(dx, dy)` of
/// its 16x16 block, or `None` when that pixel is left untouched (its
/// sub-tile is skipped for an out-of-range tile id, or the pixel falls
/// through). Offset `(dx, dy)` is covered by the layer's tile reference
/// number `2 * (dy / 8) + dx / 8`.
pub open spec fn layer_written(
    tiles: Seq<Tile>,
    palettes: Seq<Palette>,
    layer: [u16; 4],
    mode: BlitMode,
    dx: int,
    dy: int,
) -> Option<Color> {
    let info = layer[2 * (dy / 8) + dx / 8];
    if spec_tile_id(info) >= tiles.len() {
        None
    } else {
        blit_pixel(
            tiles[spec_tile_id(info)],
            palettes[spec_palette_id(info)],
            mode,
            flip_coord(spec_hflip(info), dx % 8),
            flip_coord(spec_vflip(info), dy % 8),
        )
    }
}

/// Pointwise reading of a whole-layer draw: the pixel at destination offset
/// `(dx, dy)` of the block holds what `layer_written` says was written
/// there, or its old value where nothing was.
pub proof fn lemma_layer_pixel(
    buf: Seq<Color>,
    tiles: Seq<Tile>,
    palettes: Seq<Palette>,
    pw: int,
    ox: int,
    oy: int,
    layer: [u16; 4],
    mode: BlitMode,
    dx: int,
    dy: int,
)
    requires
        0 <= dx < 16,
        0 <= dy < 16,
        0 <= ox,
        0 <= oy,
        ox + 16 <= pw,
        (oy + 16) * pw <= buf.len(),
    ensures
        ({
            let r = draw_layer_spec(buf, tiles, palettes, pw, ox, oy, layer, mode);
            let i = (oy + dy) * pw + ox + dx;
            &&& r.len() == buf.len()
            &&& r[i] == (match layer_written(tiles, palettes, layer, mode, dx, dy) {
                Some(c) => c,
                None => buf[i],
            })
        }),
{
    let i = (oy + dy) * pw + ox + dx;
    lemma_dest_index_bounds(pw, ox, oy, dx, dy, 16);
    lemma_fundamental_div_mod_converse(i, pw, oy + dy, ox + dx);
    assert(2 * (dy / 8) + dx / 8 == if dy < 8 {
        if dx < 8 {
            0int
        } else {
            1int
        }
    } else {
        if dx < 8 {
            2int
        } else {
            3int
        }
    });
    assert(dx % 8 == if dx < 8 {
        dx
    } else {
        dx - 8
    });
    assert(dy % 8 == if dy < 8 {
        dy
    } else {
        dy - 8
    });
}

/// A whole-layer draw touches nothing outside its 16x16 block: any index
/// whose pixel coordinates lie outside `[ox, ox + 16) x [oy, oy + 16)`
/// keeps its old value.
pub proof fn lemma_layer_frame(
    buf: Seq<Color>,
    tiles: Seq<Tile>,
    palettes: Seq<Palette>,
    pw: int,
    ox: int,
    oy: int,
    layer: [u16; 4],
    mode: BlitMode,
    i: int,
)
    requires
        0 <= i < buf.len(),
        pw > 0,
        !(ox <= i % pw < ox + 16 && oy <= i / pw < oy + 16),
    ensures
        ({
            let r = draw_layer_spec(buf, tiles, palettes, pw, ox, oy, layer, mode);
            &&& r.len() == buf.len()
            &&& r[i] == buf[i]
        }),
{
}

/// The buffer with the 16x16 block at `(ox, oy)` set to the fully
/// transparent color and everything else unchanged.
pub open spec fn clear_block_spec(buf: Seq<Color>, pw: int, ox: int, oy: int) -> Seq<Color> {
    Seq::new(
        buf.len(),
        |i: int|
            {
                if pw <= 0 {
                    buf[i]
                } else {
                    let x = i % pw;
                    let y = i / pw;
                    if ox <= x < ox + 16 && oy <= y < oy + 16 {
                        clear_color()
                    } else {
                        buf[i]
                    }
                }
            },
    )
}

/// The clear after its first `k` pixels, in row-major destination order
/// (pixel `(dx, dy)` of the block is number `dy * 16 + dx`).
spec fn clear_block_partial(buf: Seq<Color>, pw: int, ox: int, oy: int, k: int) -> Seq<Color> {
    Seq::new(
        buf.len(),
        |i: int|
            {
                if pw <= 0 {
                    buf[i]
                } else {
                    let x = i % pw;
                    let y = i / pw;
                    if ox <= x < ox + 16 && oy <= y < oy + 16 && (y - oy) * 16 + x - ox < k {
                        clear_color()
                    } else {
                        buf[i]
                    }
                }
            },
    )
}

/// Clearing pixel number `k = dy * 16 + dx` advances the partial clear by
/// one destination index.
proof fn lemma_clear_partial_step(buf: Seq<Color>, pw: int, ox: int, oy: int, dx: int, dy: int)
    requires
        0 <= dx < 16,
        0 <= dy < 16,
        0 <= ox,
        0 <= oy,
        ox + 16 <= pw,
        (oy + 16) * pw <= buf.len(),
    ensures
        ({
            let idx = (oy + dy) * pw + ox + dx;
            let k = dy * 16 + dx;
            &&& 0 <= idx < buf.len()
            &&& clear_block_partial(buf, pw, ox, oy, k).update(idx, clear_color())
                == clear_block_partial(buf, pw, ox, oy, k + 1)
        }),
{
    let idx = (oy + dy) * pw + ox + dx;
    let k = dy * 16 + dx;
    let pk = clear_block_partial(buf, pw, ox, oy, k);
    let pk1 = clear_block_partial(buf, pw, ox, oy, k + 1);
    lemma_dest_index_bounds(pw, ox, oy, dx, dy, 16);
    lemma_fundamental_div_mod_converse(idx, pw, oy + dy, ox + dx);
    assert forall|i: int| 0 <= i < buf.len() && i != idx implies pk[i] == pk1[i] by {
        lemma_fundamental_div_mod(i, pw);
        lemma_mod_bound(i, pw);
        let x = i % pw;
        let y = i / pw;
        if ox <= x < ox + 16 && oy <= y < oy + 16 {
            if (y - oy) * 16 + x - ox == k {
                assert(x - ox == dx && y - oy == dy);
                lemma_mul_is_commutative(pw, y);
                assert(i == (oy + dy) * pw + ox + dx);
                assert(false);
            }
        }
    }
    assert(pk.update(idx, clear_color()) =~= pk1);
}

/// Sets the 16x16 block at `(origin_x, origin_y)` to the fully transparent
/// color, removing any stale content a previous pass may have left there.
pub fn clear_block(buffer: &mut Vec<Color>, origin_x: usize, origin_y: usize, pixels_width: usize)
    requires
        origin_x + 16 <= pixels_width,
        (origin_y + 16) * pixels_width <= old(buffer).len(),
    ensures
        final(buffer)@ == clear_block_spec(
            old(buffer)@,
            pixels_width as int,
            origin_x as int,
            origin_y as int,
        ),
{
    let ghost buf0 = buffer@;
    let ghost pw = pixels_width as int;
    let ghost ox = origin_x as int;
    let ghost oy = origin_y as int;

    proof {
        assert(clear_block_partial(buf0, pw, ox, oy, 0) =~= buf0);
    }

    let mut dy: usize = 0;
    while dy < 16
        invariant
            dy <= 16,
            origin_x + 16 <= pixels_width,
            (origin_y + 16) * pixels_width <= buf0.len(),
            pw == pixels_width as int,
            ox == origin_x as int,
            oy == origin_y as int,
            buffer@.len() == buf0.len(),
            buffer@ == clear_block_partial(buf0, pw, ox, oy, 16 * dy),
        decreases 16 - dy,
    {
        let mut dx: usize = 0;
        while dx < 16
            invariant
                dx <= 16,
                dy < 16,
                origin_x + 16 <= pixels_width,
                (origin_y + 16) * pixels_width <= buf0.len(),
                pw == pixels_width as int,
                ox == origin_x as int,
                oy == origin_y as int,
                buffer@.len() == buf0.len(),
                buffer@ == clear_block_partial(buf0, pw, ox, oy, 16 * dy + dx),
            decreases 16 - dx,
        {
            proof {
                lemma_clear_partial_step(buf0, pw, ox, oy, dx as int, dy as int);
                lemma_dest_index_bounds(pw, ox, oy, dx as int, dy as int, 16);
                assert(buffer@.len() <= usize::MAX) by {
                    assert(buffer.len() == buffer@.len());
                }
            }
            let idx = (origin_y + dy) * pixels_width + origin_x + dx;
            buffer.set(idx, Color::default());
            assert(dy as int * 16 + dx as int == 16 * (dy as int) + dx as int);
            dx += 1;
        }
        dy += 1;
        assert(16 * (dy - 1) + 16 == 16 * dy);
    }
    proof {
        let full = clear_block_spec(buf0, pw, ox, oy);
        let p256 = clear_block_partial(buf0, pw, ox, oy, 256);
        assert forall|i: int| 0 <= i < buf0.len() implies p256[i] == full[i] by {
            if pw > 0 {
                let x = i % pw;
                let y = i / pw;
                if ox <= x < ox + 16 && oy <= y < oy + 16 {
                    assert((y - oy) * 16 + x - ox < 256);
                }
            }
        }
        assert(p256 =~= full);
    }
}

} // verus!
