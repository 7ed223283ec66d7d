use polythree::{
    render, BlitMode, Color, MapError, Metatile, Palette, Tile, TilesetData, COVERED, NORMAL,
    SPLIT, THREELAYERS,
};

fn color(r: u8, g: u8, b: u8, a: u8) -> Color {
    Color { r, g, b, a }
}

fn uniform_tile(index: u8) -> Tile {
    [[index; 8]; 8]
}

/// A palette whose color for index `i` is `(base + i, 0, 0, 255)`, except
/// slot 0, which holds `zero_slot`.
fn test_palette(base: u8, zero_slot: Color) -> Palette {
    let mut p: Palette = [color(0, 0, 0, 0); 16];
    let mut i: usize = 0;
    while i < 16 {
        p[i] = color(base + i as u8, 0, 0, 255);
        i += 1;
    }
    p[0] = zero_slot;
    p
}

fn prefilled(n: usize, c: Color) -> Vec<Color> {
    vec![c; n]
}

const PRE: Color = Color { r: 0x11, g: 0x22, b: 0x33, a: 0x44 };

/// A bundle with the given metatiles/layer types over simple tiles:
/// tile k is uniformly palette index k; palette 0 is the test palette.
fn bundle(metatiles: Vec<Metatile>, layer_types: Vec<u8>) -> TilesetData {
    let tiles: Vec<Tile> = vec![
        uniform_tile(0),
        uniform_tile(1),
        uniform_tile(2),
        uniform_tile(3),
    ];
    let mut palettes: Vec<Palette> = Vec::new();
    let mut i: usize = 0;
    while i < 16 {
        palettes.push(test_palette(100, color(10, 20, 30, 255)));
        i += 1;
    }
    TilesetData { metatiles, layer_types, palettes, tiles }
}

fn solid_metatile(tile: u16) -> Metatile {
    Metatile { bot: [tile; 4], top: [tile; 4] }
}

#[test]
fn skip_on_invalid_id() {
    // Two metatiles, but the single grid entry is the 0xFFFF sentinel:
    // rendering must leave both buffers exactly as they were.
    let context = bundle(
        vec![solid_metatile(1), solid_metatile(2)],
        vec![NORMAL, NORMAL],
    );
    let blocks: Vec<u16> = vec![0xFFFF];
    let mut bot: Vec<Color> = prefilled(256, PRE);
    let mut top: Vec<Color> = prefilled(256, PRE);
    let res = render(&context, &mut bot, &mut top, &blocks, 1, 16, 0, 0, 1, 1);
    assert_eq!(res, Ok(()));
    let mut i: usize = 0;
    while i < 256 {
        assert_eq!(bot[i], PRE);
        assert_eq!(top[i], PRE);
        i += 1;
    }
}

#[test]
fn skip_on_out_of_range_id() {
    // An id at or past the metatile table also draws nothing.
    let context = bundle(vec![solid_metatile(1)], vec![NORMAL]);
    let blocks: Vec<u16> = vec![1];
    let mut bot: Vec<Color> = prefilled(256, PRE);
    let mut top: Vec<Color> = prefilled(256, PRE);
    let res = render(&context, &mut bot, &mut top, &blocks, 1, 16, 0, 0, 1, 1);
    assert_eq!(res, Ok(()));
    assert_eq!(bot[0], PRE);
    assert_eq!(top[255], PRE);
}

#[test]
fn normal_compositing() {
    // The metatile's layers are all tile 0, whose pixels carry palette
    // index 0. Opaque writes palette[0] = (10,20,30,255) to the bottom
    // buffer; Transparent writes (0,0,0,0) to the top buffer regardless.
    let context = bundle(vec![solid_metatile(0)], vec![NORMAL]);
    let blocks: Vec<u16> = vec![0];
    let mut bot: Vec<Color> = prefilled(256, PRE);
    let mut top: Vec<Color> = prefilled(256, PRE);
    let res = render(&context, &mut bot, &mut top, &blocks, 1, 16, 0, 0, 1, 1);
    assert_eq!(res, Ok(()));
    let mut i: usize = 0;
    while i < 256 {
        assert_eq!(bot[i], color(10, 20, 30, 255));
        assert_eq!(top[i], color(0, 0, 0, 0));
        i += 1;
    }
}

#[test]
fn covered_occlusion() {
    // Bottom layer: tile 1 (index 1 everywhere -> color 101).
    // Top layer: tile 0 (index 0 everywhere). Covered merges both into the
    // bottom buffer, the top layer falling through at index 0, and leaves
    // the top buffer fully transparent.
    let m = Metatile { bot: [1; 4], top: [0; 4] };
    let context = bundle(vec![m], vec![COVERED]);
    let blocks: Vec<u16> = vec![0];
    let mut bot: Vec<Color> = prefilled(256, PRE);
    let mut top: Vec<Color> = prefilled(256, PRE);
    let res = render(&context, &mut bot, &mut top, &blocks, 1, 16, 0, 0, 1, 1);
    assert_eq!(res, Ok(()));
    let mut i: usize = 0;
    while i < 256 {
        // the top layer's index-0 pixels leave the bottom layer visible
        assert_eq!(bot[i], color(101, 0, 0, 255));
        // the top buffer region is exactly (0,0,0,0) everywhere
        assert_eq!(top[i], color(0, 0, 0, 0));
        i += 1;
    }
}

#[test]
fn covered_top_layer_occludes_where_nonzero() {
    // Bottom layer tile 1 (color 101), top layer tile 2 (index 2 -> color
    // 102): the top layer's non-zero pixels occlude the bottom layer in the
    // bottom buffer.
    let m = Metatile { bot: [1; 4], top: [2; 4] };
    let context = bundle(vec![m], vec![SPLIT]);
    let blocks: Vec<u16> = vec![0];
    let mut bot: Vec<Color> = prefilled(256, PRE);
    let mut top: Vec<Color> = prefilled(256, PRE);
    let res = render(&context, &mut bot, &mut top, &blocks, 1, 16, 0, 0, 1, 1);
    assert_eq!(res, Ok(()));
    assert_eq!(bot[0], color(102, 0, 0, 255));
    assert_eq!(bot[255], color(102, 0, 0, 255));
    assert_eq!(top[0], color(0, 0, 0, 0));
}

#[test]
fn three_layers_cross_reference() {
    // Block 0 is THREELAYERS; its front-of-sprite content comes from the
    // metatile named by the next grid entry (metatile 1, top = tile 3 ->
    // color 103), not from its own top layer (tile 2).
    let a = Metatile { bot: [1; 4], top: [2; 4] };
    let b = Metatile { bot: [1; 4], top: [3; 4] };
    let context = bundle(vec![a, b], vec![THREELAYERS, NORMAL]);
    let blocks: Vec<u16> = vec![0, 1];
    let mut bot: Vec<Color> = prefilled(2 * 256, PRE);
    let mut top: Vec<Color> = prefilled(2 * 256, PRE);
    let res = render(&context, &mut bot, &mut top, &blocks, 2, 32, 0, 0, 1, 1);
    assert_eq!(res, Ok(()));
    // top buffer at block 0 shows metatile 1's top layer
    assert_eq!(top[0], color(103, 0, 0, 255));
    assert_eq!(top[15], color(103, 0, 0, 255));
    // bottom buffer merged both of block 0's own layers
    assert_eq!(bot[0], color(102, 0, 0, 255));
}

#[test]
fn three_layers_invalid_next_leaves_clear() {
    // The next grid entry is the sentinel: block 0's top-buffer region
    // remains fully transparent.
    let a = Metatile { bot: [1; 4], top: [2; 4] };
    let context = bundle(vec![a], vec![THREELAYERS]);
    let blocks: Vec<u16> = vec![0, 0xFFFF];
    let mut bot: Vec<Color> = prefilled(2 * 256, PRE);
    let mut top: Vec<Color> = prefilled(2 * 256, PRE);
    let res = render(&context, &mut bot, &mut top, &blocks, 2, 32, 0, 0, 1, 1);
    assert_eq!(res, Ok(()));
    let mut y: usize = 0;
    while y < 16 {
        let mut x: usize = 0;
        while x < 16 {
            assert_eq!(top[y * 32 + x], color(0, 0, 0, 0));
            x += 1;
        }
        y += 1;
    }
}

#[test]
fn three_layers_next_past_grid_end_leaves_clear() {
    // The THREELAYERS block sits at the last grid position, so there is no
    // next entry: the top buffer keeps the transparent clear.
    let a = Metatile { bot: [1; 4], top: [2; 4] };
    let context = bundle(vec![a], vec![THREELAYERS]);
    let blocks: Vec<u16> = vec![0];
    let mut bot: Vec<Color> = prefilled(256, PRE);
    let mut top: Vec<Color> = prefilled(256, PRE);
    let res = render(&context, &mut bot, &mut top, &blocks, 1, 16, 0, 0, 1, 1);
    assert_eq!(res, Ok(()));
    assert_eq!(top[0], color(0, 0, 0, 0));
    assert_eq!(top[255], color(0, 0, 0, 0));
}

#[test]
fn region_restriction() {
    // On a 2x2 grid, rendering only the region [0,0) to (1,1) touches block
    // 0's 16x16 pixels and nothing else.
    let context = bundle(vec![solid_metatile(1)], vec![NORMAL]);
    let blocks: Vec<u16> = vec![0, 0, 0, 0];
    let n: usize = 4 * 256;
    let mut bot: Vec<Color> = prefilled(n, PRE);
    let mut top: Vec<Color> = prefilled(n, PRE);
    let res = render(&context, &mut bot, &mut top, &blocks, 2, 32, 0, 0, 1, 1);
    assert_eq!(res, Ok(()));
    let mut y: usize = 0;
    while y < 32 {
        let mut x: usize = 0;
        while x < 32 {
            let i: usize = y * 32 + x;
            if x < 16 && y < 16 {
                assert_eq!(bot[i], color(101, 0, 0, 255));
                assert_eq!(top[i], color(101, 0, 0, 255));
            } else {
                assert_eq!(bot[i], PRE);
                assert_eq!(top[i], PRE);
            }
            x += 1;
        }
        y += 1;
    }
}

#[test]
fn render_rejects_wrong_buffer_size() {
    let context = bundle(vec![solid_metatile(1)], vec![NORMAL]);
    let blocks: Vec<u16> = vec![0];
    let mut bot: Vec<Color> = prefilled(255, PRE);
    let mut top: Vec<Color> = prefilled(256, PRE);
    let res = render(&context, &mut bot, &mut top, &blocks, 1, 16, 0, 0, 1, 1);
    assert_eq!(res, Err(MapError::PreconditionViolation));
    assert_eq!(bot[0], PRE);
}

#[test]
fn render_rejects_zero_width() {
    let context = bundle(vec![solid_metatile(1)], vec![NORMAL]);
    let blocks: Vec<u16> = vec![];
    let mut bot: Vec<Color> = Vec::new();
    let mut top: Vec<Color> = Vec::new();
    let res = render(&context, &mut bot, &mut top, &blocks, 0, 0, 0, 0, 0, 0);
    assert_eq!(res, Err(MapError::PreconditionViolation));
}

#[test]
fn render_rejects_wrong_pixel_width() {
    let context = bundle(vec![solid_metatile(1)], vec![NORMAL]);
    let blocks: Vec<u16> = vec![0];
    let mut bot: Vec<Color> = prefilled(256, PRE);
    let mut top: Vec<Color> = prefilled(256, PRE);
    let res = render(&context, &mut bot, &mut top, &blocks, 1, 17, 0, 0, 1, 1);
    assert_eq!(res, Err(MapError::PreconditionViolation));
}

#[test]
fn render_rejects_region_outside_grid() {
    let context = bundle(vec![solid_metatile(1)], vec![NORMAL]);
    let blocks: Vec<u16> = vec![0];
    let mut bot: Vec<Color> = prefilled(256, PRE);
    let mut top: Vec<Color> = prefilled(256, PRE);
    let res = render(&context, &mut bot, &mut top, &blocks, 1, 16, 0, 0, 2, 1);
    assert_eq!(res, Err(MapError::PreconditionViolation));
}

#[test]
fn render_rejects_undefined_layer_type() {
    // A layer type outside the four defined values is a data-integrity
    // fault, and the buffers stay untouched.
    let context = bundle(vec![solid_metatile(1)], vec![7]);
    let blocks: Vec<u16> = vec![0];
    let mut bot: Vec<Color> = prefilled(256, PRE);
    let mut top: Vec<Color> = prefilled(256, PRE);
    let res = render(&context, &mut bot, &mut top, &blocks, 1, 16, 0, 0, 1, 1);
    assert_eq!(res, Err(MapError::DataIntegrityFault));
    let mut i: usize = 0;
    while i < 256 {
        assert_eq!(bot[i], PRE);
        assert_eq!(top[i], PRE);
        i += 1;
    }
}

#[test]
fn render_skips_undefined_layer_type_outside_region() {
    // The bad layer type sits outside the requested region, so it is never
    // consulted.
    let context = bundle(vec![solid_metatile(1), solid_metatile(1)], vec![NORMAL, 9]);
    let blocks: Vec<u16> = vec![0, 1];
    let mut bot: Vec<Color> = prefilled(512, PRE);
    let mut top: Vec<Color> = prefilled(512, PRE);
    let res = render(&context, &mut bot, &mut top, &blocks, 2, 32, 0, 0, 1, 1);
    assert_eq!(res, Ok(()));
}

#[test]
fn render_empty_region_is_a_no_op() {
    let context = bundle(vec![solid_metatile(1)], vec![NORMAL]);
    let blocks: Vec<u16> = vec![0];
    let mut bot: Vec<Color> = prefilled(256, PRE);
    let mut top: Vec<Color> = prefilled(256, PRE);
    let res = render(&context, &mut bot, &mut top, &blocks, 1, 16, 1, 1, 1, 1);
    assert_eq!(res, Ok(()));
    assert_eq!(bot[0], PRE);
    assert_eq!(top[0], PRE);
}

#[test]
fn normal_clears_stale_top_content_behind_skipped_subtiles() {
    // The metatile's top layer names a tile beyond the tile table: the
    // sub-tile is skipped, but the unconditional clear still removes the
    // stale content from the top buffer.
    let m = Metatile { bot: [1; 4], top: [900; 4] };
    let context = bundle(vec![m], vec![NORMAL]);
    let blocks: Vec<u16> = vec![0];
    let mut bot: Vec<Color> = prefilled(256, PRE);
    let mut top: Vec<Color> = prefilled(256, PRE);
    let res = render(&context, &mut bot, &mut top, &blocks, 1, 16, 0, 0, 1, 1);
    assert_eq!(res, Ok(()));
    assert_eq!(top[0], color(0, 0, 0, 0));
    assert_eq!(top[255], color(0, 0, 0, 0));
    assert_eq!(bot[0], color(101, 0, 0, 255));
}

#[test]
fn region_with_offset_renders_only_that_block() {
    // Rendering the region [1,1) to (2,2) on a 2x2 grid touches only the
    // bottom-right block.
    let context = bundle(vec![solid_metatile(1)], vec![NORMAL]);
    let blocks: Vec<u16> = vec![0, 0, 0, 0];
    let n: usize = 4 * 256;
    let mut bot: Vec<Color> = prefilled(n, PRE);
    let mut top: Vec<Color> = prefilled(n, PRE);
    let res = render(&context, &mut bot, &mut top, &blocks, 2, 32, 1, 1, 2, 2);
    assert_eq!(res, Ok(()));
    let mut y: usize = 0;
    while y < 32 {
        let mut x: usize = 0;
        while x < 32 {
            let i: usize = y * 32 + x;
            if x >= 16 && y >= 16 {
                assert_eq!(bot[i], color(101, 0, 0, 255));
            } else {
                assert_eq!(bot[i], PRE);
                assert_eq!(top[i], PRE);
            }
            x += 1;
        }
        y += 1;
    }
}

#[test]
fn three_layers_reads_next_entry_across_row_boundary() {
    // The THREELAYERS block sits at the end of a row: the next *linear*
    // entry is the first block of the next row, and its metatile donates
    // the front-of-sprite layer all the same.
    let a = Metatile { bot: [1; 4], top: [0; 4] };
    let b = Metatile { bot: [1; 4], top: [3; 4] };
    let context = bundle(vec![a, b], vec![THREELAYERS, NORMAL]);
    let blocks: Vec<u16> = vec![0xFFFF, 0, 1, 0xFFFF];
    let mut bot: Vec<Color> = prefilled(4 * 256, PRE);
    let mut top: Vec<Color> = prefilled(4 * 256, PRE);
    // render only block (1, 0), the last of the first row
    let res = render(&context, &mut bot, &mut top, &blocks, 2, 32, 1, 0, 2, 1);
    assert_eq!(res, Ok(()));
    // its top buffer region shows metatile 1's top layer (tile 3)
    assert_eq!(top[16], color(103, 0, 0, 255));
    assert_eq!(top[31], color(103, 0, 0, 255));
}

#[test]
fn blit_mode_is_plain_data() {
    assert!(BlitMode::Opaque == BlitMode::Opaque);
    assert!(BlitMode::Opaque != BlitMode::FallThrough);
}
