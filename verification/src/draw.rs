//! Pixel-level rendering: copying one 8x8 tile into a destination buffer,
//! with flip and transparency handling.

use vstd::prelude::*;
use vstd::arithmetic::div_mod::{
    lemma_fundamental_div_mod, lemma_fundamental_div_mod_converse, lemma_mod_bound,
};
use vstd::arithmetic::mul::{
    lemma_mul_basics, lemma_mul_inequality, lemma_mul_is_commutative,
    lemma_mul_is_distributive_add_other_way, lemma_mul_left_inequality, lemma_mul_nonnegative,
};

use crate::data::{clear_color, Color, Palette, Tile};

verus! {

/// How index-0 (background) pixels of a tile are written.
#[derive(Copy, Clone, Debug, PartialEq, Eq, Structural)]
pub enum BlitMode {
    /// Index 0 is written as `palette[0]`, like any other color.
    Opaque,
    /// Index 0 is written as the fully-zeroed color, regardless of what
    /// `palette[0]` contains.
    Transparent,
    /// Index 0 is not written at all: the destination pixel keeps whatever
    /// it already held.
    FallThrough,
}

/// Bits 0-9 of a packed tile reference: the tile id.
pub open spec fn spec_tile_id(info: u16) -> int {
    (info & 0x3ff) as int
}

/// Bits 12-15 of a packed tile reference: the palette id.
pub open spec fn spec_palette_id(info: u16) -> int {
    ((info >> 12) & 0xf) as int
}

/// Bit 10 of a packed tile reference: the horizontal-flip flag.
pub open spec fn spec_hflip(info: u16) -> bool {
    info & 0x400 != 0
}

/// Bit 11 of a packed tile reference: the vertical-flip flag.
pub open spec fn spec_vflip(info: u16) -> bool {
    info & 0x800 != 0
}

/// Mirrors a tile-local coordinate when the flag is set. The same map links
/// destination offsets back to source coordinates, since it is an involution.
pub open spec fn flip_coord(flip: bool, c: int) -> int {
    if flip {
        7 - c
    } else {
        c
    }
}

/// The color a blit writes for the source pixel at `(sx, sy)`, or `None`
/// when that pixel is skipped and the destination keeps its old value.
pub open spec fn blit_pixel(
    tile: Tile,
    palette: Palette,
    mode: BlitMode,
    sx: int,
    sy: int,
) -> Option<Color> {
    let ci = tile[sy][sx];
    if ci == 0 {
        match mode {
            BlitMode::Opaque => Some(palette[0]),
            BlitMode::Transparent => Some(clear_color()),
            BlitMode::FallThrough => None,
        }
    } else {
        Some(palette[(ci & 0xf) as int])
    }
}

/// The pixel at flat index `i` after blitting `tile` into the 8x8 region at
/// `(ox, oy)` of a buffer of row width `pw`. The flip is applied to the
/// write position, so the destination offset `(x - ox, y - oy)` reads the
/// source at its mirror image.
pub open spec fn blit_tile_pixel(
    buf: Seq<Color>,
    pw: int,
    ox: int,
    oy: int,
    tile: Tile,
    palette: Palette,
    hflip: bool,
    vflip: bool,
    mode: BlitMode,
    i: int,
) -> Color {
    if pw <= 0 {
        buf[i]
    } else {
        let x = i % pw;
        let y = i / pw;
        if ox <= x < ox + 8 && oy <= y < oy + 8 {
            match blit_pixel(
                tile,
                palette,
                mode,
                flip_coord(hflip, x - ox),
                flip_coord(vflip, y - oy),
            ) {
                Some(c) => c,
                None => buf[i],
            }
        } else {
            buf[i]
        }
    }
}

/// The whole buffer after one tile blit.
pub open spec fn blit_tile_spec(
    buf: Seq<Color>,
    pw: int,
    ox: int,
    oy: int,
    tile: Tile,
    palette: Palette,
    hflip: bool,
    vflip: bool,
    mode: BlitMode,
) -> Seq<Color> {
    Seq::new(
        buf.len(),
        |i: int| blit_tile_pixel(buf, pw, ox, oy, tile, palette, hflip, vflip, mode, i),
    )
}

/// The buffer after blitting only the first `k` source pixels, in row-major
/// source order (source pixel `(sx, sy)` is number `sy * 8 + sx`). At
/// `k == 64` this is the full blit; the loops below grow `k` one pixel at a
/// time.
spec fn blit_tile_partial(
    buf: Seq<Color>,
    pw: int,
    ox: int,
    oy: int,
    tile: Tile,
    palette: Palette,
    hflip: bool,
    vflip: bool,
    mode: BlitMode,
    k: int,
) -> Seq<Color> {
    Seq::new(
        buf.len(),
        |i: int|
            {
                if pw <= 0 {
                    buf[i]
                } else {
                    let x = i % pw;
                    let y = i / pw;
                    if ox <= x < ox + 8 && oy <= y < oy + 8 {
                        let sx = flip_coord(hflip, x - ox);
                        let sy = flip_coord(vflip, y - oy);
                        if sy * 8 + sx < k {
                            match blit_pixel(tile, palette, mode, sx, sy) {
                                Some(c) => c,
                                None => buf[i],
                            }
                        } else {
                            buf[i]
                        }
                    } else {
                        buf[i]
                    }
                }
            },
    )
}

/// Bounds for the flat index of a destination pixel at offset `(dx, dy)`
/// inside the `s` by `s` block at `(ox, oy)` of a buffer with row width `pw`.
pub(crate) proof fn lemma_dest_index_bounds(pw: int, ox: int, oy: int, dx: int, dy: int, s: int)
    requires
        0 <= dx < s,
        0 <= dy < s,
        0 <= ox,
        0 <= oy,
        ox + s <= pw,
    ensures
        0 <= (oy + dy) * pw + ox + dx,
        (oy + dy) * pw + ox + dx < (oy + s) * pw,
        oy + s <= (oy + s) * pw,
{
    lemma_mul_nonnegative(oy + dy, pw);
    lemma_mul_inequality(oy + dy, oy + s - 1, pw);
    lemma_mul_is_distributive_add_other_way(pw, oy + s - 1, 1);
    lemma_mul_basics(pw);
    lemma_mul_left_inequality(oy + s, 1, pw);
    lemma_mul_basics(oy + s);
}

/// Blitting source pixel number `k = sy * 8 + sx` advances the partial blit
/// by one: a written pixel updates exactly its destination index, a skipped
/// pixel changes nothing.
proof fn lemma_blit_partial_step(
    buf: Seq<Color>,
    pw: int,
    ox: int,
    oy: int,
    tile: Tile,
    palette: Palette,
    hflip: bool,
    vflip: bool,
    mode: BlitMode,
    sx: int,
    sy: int,
)
    requires
        0 <= sx < 8,
        0 <= sy < 8,
        0 <= ox,
        0 <= oy,
        ox + 8 <= pw,
        (oy + 8) * pw <= buf.len(),
    ensures
        ({
            let dx = flip_coord(hflip, sx);
            let dy = flip_coord(vflip, sy);
            let idx = (oy + dy) * pw + ox + dx;
            let k = sy * 8 + sx;
            &&& 0 <= idx < buf.len()
            &&& (blit_pixel(tile, palette, mode, sx, sy) matches Some(c) ==> blit_tile_partial(
                buf,
                pw,
                ox,
                oy,
                tile,
                palette,
                hflip,
                vflip,
                mode,
                k,
            ).update(idx, c) == blit_tile_partial(
                buf,
                pw,
                ox,
                oy,
                tile,
                palette,
                hflip,
                vflip,
                mode,
                k + 1,
            ))
            &&& (blit_pixel(tile, palette, mode, sx, sy) is None ==> blit_tile_partial(
                buf,
                pw,
                ox,
                oy,
                tile,
                palette,
                hflip,
                vflip,
                mode,
                k,
            ) == blit_tile_partial(buf, pw, ox, oy, tile, palette, hflip, vflip, mode, k + 1))
        }),
{
    let dx = flip_coord(hflip, sx);
    let dy = flip_coord(vflip, sy);
    let idx = (oy + dy) * pw + ox + dx;
    let k = sy * 8 + sx;
    let pk = blit_tile_partial(buf, pw, ox, oy, tile, palette, hflip, vflip, mode, k);
    let pk1 = blit_tile_partial(buf, pw, ox, oy, tile, palette, hflip, vflip, mode, k + 1);

    lemma_dest_index_bounds(pw, ox, oy, dx, dy, 8);
    lemma_fundamental_div_mod_converse(idx, pw, oy + dy, ox + dx);

    // Source pixel number k lands at destination index idx and nowhere else.
    assert forall|i: int| 0 <= i < buf.len() && i != idx implies pk[i] == pk1[i] by {
        lemma_fundamental_div_mod(i, pw);
        lemma_mod_bound(i, pw);
        let x = i % pw;
        let y = i / pw;
        if ox <= x < ox + 8 && oy <= y < oy + 8 {
            if flip_coord(hflip, x - ox) == sx && flip_coord(vflip, y - oy) == sy {
                assert(x - ox == dx && y - oy == dy);
                lemma_mul_is_commutative(pw, y);
                assert(i == (oy + dy) * pw + ox + dx);
                assert(false);
            }
            assert(flip_coord(vflip, y - oy) * 8 + flip_coord(hflip, x - ox) != k) by {
                assert(0 <= flip_coord(hflip, x - ox) < 8);
                assert(0 <= flip_coord(vflip, y - oy) < 8);
            }
        }
    }
    if blit_pixel(tile, palette, mode, sx, sy) is Some {
        let c = blit_pixel(tile, palette, mode, sx, sy)->Some_0;
        assert(pk1[idx] == c);
        assert(pk.update(idx, c) =~= pk1);
    } else {
        assert(pk1[idx] == buf[idx]);
        assert(pk[idx] == buf[idx]);
        assert(pk =~= pk1);
    }
}

/// Copies one 8x8 tile into the destination buffer at `(origin_x, origin_y)`.
///
/// The buffer is a flat row-major pixel array of row width `pixels_width`.
/// Each source pixel `(x, y)` is written at
/// `(origin_x + (7 - x if hflip else x), origin_y + (7 - y if vflip else y))`:
/// the flip is applied to the write position while the tile is sampled in
/// unflipped order. Index-0 pixels are resolved by `mode`; any other index
/// is written as `palette[index & 0xF]`.
///
/// The caller has already resolved a valid tile, and hands over a region
/// that lies inside the buffer.
pub fn blit_tile(
    buffer: &mut Vec<Color>,
    origin_x: usize,
    origin_y: usize,
    pixels_width: usize,
    tile: &Tile,
    palette: &Palette,
    hflip: bool,
    vflip: bool,
    mode: BlitMode,
)
    requires
        origin_x + 8 <= pixels_width,
        (origin_y + 8) * pixels_width <= old(buffer).len(),
    ensures
        final(buffer)@ == blit_tile_spec(
            old(buffer)@,
            pixels_width as int,
            origin_x as int,
            origin_y as int,
            *tile,
            *palette,
            hflip,
            vflip,
            mode,
        ),
{
    let ghost buf0 = buffer@;
    let ghost pw = pixels_width as int;
    let ghost ox = origin_x as int;
    let ghost oy = origin_y as int;

    proof {
        assert(blit_tile_partial(buf0, pw, ox, oy, *tile, *palette, hflip, vflip, mode, 0)
            =~= buf0);
    }

    let mut sy: usize = 0;
    while sy < 8
        invariant
            sy <= 8,
            origin_x + 8 <= pixels_width,
            (origin_y + 8) * pixels_width <= buf0.len(),
            pw == pixels_width as int,
            ox == origin_x as int,
            oy == origin_y as int,
            buffer@.len() == buf0.len(),
            buffer@ == blit_tile_partial(
                buf0,
                pw,
                ox,
                oy,
                *tile,
                *palette,
                hflip,
                vflip,
                mode,
                8 * sy,
            ),
        decreases 8 - sy,
    {
        let mut sx: usize = 0;
        while sx < 8
            invariant
                sx <= 8,
                sy < 8,
                origin_x + 8 <= pixels_width,
                (origin_y + 8) * pixels_width <= buf0.len(),
                pw == pixels_width as int,
                ox == origin_x as int,
                oy == origin_y as int,
                buffer@.len() == buf0.len(),
                buffer@ == blit_tile_partial(
                    buf0,
                    pw,
                    ox,
                    oy,
                    *tile,
                    *palette,
                    hflip,
                    vflip,
                    mode,
                    8 * sy + sx,
                ),
            decreases 8 - sx,
        {
            let ci = tile[sy][sx];
            proof {
                lemma_blit_partial_step(
                    buf0,
                    pw,
                    ox,
                    oy,
                    *tile,
                    *palette,
                    hflip,
                    vflip,
                    mode,
                    sx as int,
                    sy as int,
                );
            }
            if !(ci == 0 && mode == BlitMode::FallThrough) {
                let dx = if hflip {
                    7 - sx
                } else {
                    sx
                };
                let dy = if vflip {
                    7 - sy
                } else {
                    sy
                };
                proof {
                    lemma_dest_index_bounds(pw, ox, oy, dx as int, dy as int, 8);
                    assert(buffer@.len() <= usize::MAX) by {
                        assert(buffer.len() == buffer@.len());
                    }
                }
                let idx = (origin_y + dy) * pixels_width + origin_x + dx;
                let color = if ci == 0 {
                    if mode == BlitMode::Transparent {
                        Color::default()
                    } else {
                        palette[0]
                    }
                } else {
                    proof {
                        assert(ci & 0xf < 16) by (bit_vector);
                    }
                    palette[(ci & 0xf) as usize]
                };
                assert(blit_pixel(*tile, *palette, mode, sx as int, sy as int) == Some(color));
                buffer.set(idx, color);
            }
            sx += 1;
        }
        sy += 1;
        assert(8 * (sy - 1) + 8 == 8 * sy);
    }
    proof {
        lemma_blit_partial_full(buf0, pw, ox, oy, *tile, *palette, hflip, vflip, mode);
    }
}

/// At `k == 64` the partial blit is the whole blit.
proof fn lemma_blit_partial_full(
    buf0: Seq<Color>,
    pw: int,
    ox: int,
    oy: int,
    tile: Tile,
    palette: Palette,
    hflip: bool,
    vflip: bool,
    mode: BlitMode,
)
    ensures
        blit_tile_partial(buf0, pw, ox, oy, tile, palette, hflip, vflip, mode, 64)
            == blit_tile_spec(buf0, pw, ox, oy, tile, palette, hflip, vflip, mode),
{
    let full = blit_tile_spec(buf0, pw, ox, oy, tile, palette, hflip, vflip, mode);
    let p64 = blit_tile_partial(buf0, pw, ox, oy, tile, palette, hflip, vflip, mode, 64);
    assert forall|i: int| 0 <= i < buf0.len() implies p64[i] == full[i] by {
        if pw > 0 {
            let x = i % pw;
            let y = i / pw;
            if ox <= x < ox + 8 && oy <= y < oy + 8 {
                assert(flip_coord(vflip, y - oy) * 8 + flip_coord(hflip, x - ox) < 64);
            }
        }
    }
    assert(p64 =~= full);
}

/// Law: flipping mirrors the written grid. At destination offset `(dx, dy)`
/// of its 8x8 block, a flipped blit writes exactly the color that the
/// unflipped blit of the same tile writes at the mirrored offset
/// (`7 - dx` when `hflip`, `7 - dy` when `vflip`); where one skips a pixel
/// (FallThrough on index 0), the other skips its mirror image, and both
/// destinations keep their old contents.
pub proof fn lemma_flip_mirrors(
    buf: Seq<Color>,
    pw: int,
    ox: int,
    oy: int,
    tile: Tile,
    palette: Palette,
    hflip: bool,
    vflip: bool,
    mode: BlitMode,
    dx: int,
    dy: int,
)
    requires
        0 <= dx < 8,
        0 <= dy < 8,
        0 <= ox,
        0 <= oy,
        ox + 8 <= pw,
        (oy + 8) * pw <= buf.len(),
    ensures
        ({
            let flipped = blit_tile_spec(buf, pw, ox, oy, tile, palette, hflip, vflip, mode);
            let plain = blit_tile_spec(buf, pw, ox, oy, tile, palette, false, false, mode);
            let fi = (oy + dy) * pw + ox + dx;
            let mi = (oy + flip_coord(vflip, dy)) * pw + ox + flip_coord(hflip, dx);
            let src = blit_pixel(tile, palette, mode, flip_coord(hflip, dx), flip_coord(vflip, dy));
            &&& (src matches Some(c) ==> flipped[fi] == c && plain[mi] == c)
            &&& (src is None ==> flipped[fi] == buf[fi] && plain[mi] == buf[mi])
        }),
{
    let fi = (oy + dy) * pw + ox + dx;
    let mdx = flip_coord(hflip, dx);
    let mdy = flip_coord(vflip, dy);
    let mi = (oy + mdy) * pw + ox + mdx;
    lemma_dest_index_bounds(pw, ox, oy, dx, dy, 8);
    lemma_dest_index_bounds(pw, ox, oy, mdx, mdy, 8);
    lemma_fundamental_div_mod_converse(fi, pw, oy + dy, ox + dx);
    lemma_fundamental_div_mod_converse(mi, pw, oy + mdy, ox + mdx);
}

} // verus!
