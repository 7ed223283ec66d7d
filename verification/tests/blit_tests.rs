use polythree::{blit_tile, draw_metatile_layer, BlitMode, Color, Palette, Tile, TilesetData};

fn color(r: u8, g: u8, b: u8, a: u8) -> Color {
    Color { r, g, b, a }
}

fn palette() -> Palette {
    let mut p: Palette = [color(0, 0, 0, 0); 16];
    let mut i: usize = 0;
    while i < 16 {
        p[i] = color(i as u8, 50, 60, 255);
        i += 1;
    }
    p
}

/// A tile whose pixel at (x, y) has palette index (y * 8 + x) % 15 + 1, so
/// every pixel is written in every mode and the grid is asymmetric.
fn asymmetric_tile() -> Tile {
    let mut t: Tile = [[0; 8]; 8];
    let mut y: usize = 0;
    while y < 8 {
        let mut x: usize = 0;
        while x < 8 {
            t[y][x] = ((y * 8 + x) % 15 + 1) as u8;
            x += 1;
        }
        y += 1;
    }
    t
}

const PRE: Color = Color { r: 9, g: 9, b: 9, a: 9 };

fn blit_grid(tile: &Tile, hflip: bool, vflip: bool, mode: BlitMode) -> Vec<Color> {
    let mut buf: Vec<Color> = vec![PRE; 64];
    blit_tile(&mut buf, 0, 0, 8, tile, &palette(), hflip, vflip, mode);
    buf
}

#[test]
fn hflip_mirrors_left_right() {
    // Blitting with hFlip produces the unflipped grid mirrored left-right.
    let t = asymmetric_tile();
    let plain = blit_grid(&t, false, false, BlitMode::Opaque);
    let flipped = blit_grid(&t, true, false, BlitMode::Opaque);
    let mut y: usize = 0;
    while y < 8 {
        let mut x: usize = 0;
        while x < 8 {
            assert_eq!(flipped[y * 8 + x], plain[y * 8 + (7 - x)]);
            x += 1;
        }
        y += 1;
    }
}

#[test]
fn hflip_vflip_mirrors_both_axes() {
    let t = asymmetric_tile();
    let plain = blit_grid(&t, false, false, BlitMode::Opaque);
    let both = blit_grid(&t, true, true, BlitMode::Opaque);
    let mut y: usize = 0;
    while y < 8 {
        let mut x: usize = 0;
        while x < 8 {
            assert_eq!(both[y * 8 + x], plain[(7 - y) * 8 + (7 - x)]);
            x += 1;
        }
        y += 1;
    }
}

#[test]
fn blit_samples_unflipped_tile() {
    // Source pixel (0,0) has index 1; with hFlip it lands at x = 7.
    let t = asymmetric_tile();
    let flipped = blit_grid(&t, true, false, BlitMode::Opaque);
    assert_eq!(flipped[7], color(1, 50, 60, 255));
}

#[test]
fn opaque_writes_palette_zero() {
    let t: Tile = [[0; 8]; 8];
    let mut p = palette();
    p[0] = color(10, 20, 30, 255);
    let mut buf: Vec<Color> = vec![PRE; 64];
    blit_tile(&mut buf, 0, 0, 8, &t, &p, false, false, BlitMode::Opaque);
    assert_eq!(buf[0], color(10, 20, 30, 255));
    assert_eq!(buf[63], color(10, 20, 30, 255));
}

#[test]
fn transparent_writes_zero_color() {
    let t: Tile = [[0; 8]; 8];
    let mut p = palette();
    p[0] = color(10, 20, 30, 255);
    let mut buf: Vec<Color> = vec![PRE; 64];
    blit_tile(&mut buf, 0, 0, 8, &t, &p, false, false, BlitMode::Transparent);
    assert_eq!(buf[0], color(0, 0, 0, 0));
    assert_eq!(buf[63], color(0, 0, 0, 0));
}

#[test]
fn fall_through_skips_index_zero() {
    let mut t: Tile = [[0; 8]; 8];
    t[0][1] = 2;
    let mut buf: Vec<Color> = vec![PRE; 64];
    blit_tile(&mut buf, 0, 0, 8, &t, &palette(), false, false, BlitMode::FallThrough);
    assert_eq!(buf[0], PRE);
    assert_eq!(buf[1], color(2, 50, 60, 255));
    assert_eq!(buf[63], PRE);
}

#[test]
fn palette_index_is_masked_to_four_bits() {
    // Index 0x12 uses palette slot 0x12 & 0xF = 2.
    let mut t: Tile = [[0; 8]; 8];
    t[0][0] = 0x12;
    let mut buf: Vec<Color> = vec![PRE; 64];
    blit_tile(&mut buf, 0, 0, 8, &t, &palette(), false, false, BlitMode::FallThrough);
    assert_eq!(buf[0], color(2, 50, 60, 255));
}

#[test]
fn blit_respects_row_width_and_origin() {
    let mut t: Tile = [[0; 8]; 8];
    t[0][0] = 3;
    let mut buf: Vec<Color> = vec![PRE; 32 * 32];
    blit_tile(&mut buf, 16, 8, 32, &t, &palette(), false, false, BlitMode::FallThrough);
    assert_eq!(buf[8 * 32 + 16], color(3, 50, 60, 255));
    assert_eq!(buf[0], PRE);
}

#[test]
fn layer_skips_out_of_range_tile_id() {
    // The layer's packed references name tile 500, which the table lacks:
    // every sub-tile is skipped and the buffer keeps its contents.
    let context = TilesetData {
        metatiles: Vec::new(),
        layer_types: Vec::new(),
        palettes: vec![palette(); 16],
        tiles: vec![asymmetric_tile()],
    };
    let mut buf: Vec<Color> = vec![PRE; 256];
    draw_metatile_layer(&context, &mut buf, 0, 0, &[500; 4], 16, BlitMode::Opaque);
    assert_eq!(buf[0], PRE);
    assert_eq!(buf[255], PRE);
}

#[test]
fn layer_places_four_tiles() {
    // One tile (uniform index 1) in all four references: the whole 16x16
    // block becomes color 1.
    let context = TilesetData {
        metatiles: Vec::new(),
        layer_types: Vec::new(),
        palettes: vec![palette(); 16],
        tiles: vec![[[1; 8]; 8]],
    };
    let mut buf: Vec<Color> = vec![PRE; 256];
    draw_metatile_layer(&context, &mut buf, 0, 0, &[0; 4], 16, BlitMode::Opaque);
    let mut i: usize = 0;
    while i < 256 {
        assert_eq!(buf[i], color(1, 50, 60, 255));
        i += 1;
    }
}

#[test]
fn layer_uses_packed_palette_id() {
    // Bits 12-15 pick the palette; with palette 3 the written color keeps
    // the same slot pattern (slot 1 -> color 1) since all palettes here are
    // equal, so pack a flip instead to see the reference decoded: tile 0,
    // palette 3, hFlip set (bit 10).
    let mut t: Tile = [[0; 8]; 8];
    t[0][0] = 1;
    let context = TilesetData {
        metatiles: Vec::new(),
        layer_types: Vec::new(),
        palettes: vec![palette(); 16],
        tiles: vec![t],
    };
    let mut buf: Vec<Color> = vec![PRE; 256];
    let info: u16 = (3 << 12) | 0x400;
    draw_metatile_layer(&context, &mut buf, 0, 0, &[info, 0, 0, 0], 16, BlitMode::FallThrough);
    // source (0,0) lands at x = 7 because of the horizontal flip
    assert_eq!(buf[7], color(1, 50, 60, 255));
    assert_eq!(buf[0], PRE);
}
