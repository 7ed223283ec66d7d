use polythree::{MapError, TilesetCache};

/// Raw palette bytes: 16 palettes x 16 colors x 4 bytes, where byte k
/// holds `k % 251` so each position is distinguishable.
fn raw_palettes() -> Vec<u8> {
    let mut v: Vec<u8> = Vec::new();
    let mut k: usize = 0;
    while k < 16 * 16 * 4 {
        v.push((k % 251) as u8);
        k += 1;
    }
    v
}

fn raw_tiles(n: usize) -> Vec<u8> {
    let mut v: Vec<u8> = Vec::new();
    let mut k: usize = 0;
    while k < n * 64 {
        v.push((k % 241) as u8);
        k += 1;
    }
    v
}

#[test]
fn cache_idempotence() {
    // Loading a second bundle under the same key is a no-op: the cache
    // keeps the bundle decoded from the first arrays, unchanged.
    let mut cache = TilesetCache::new();
    let metatiles_a: Vec<u16> = vec![1, 2, 3, 4, 5, 6, 7, 8];
    let layer_types_a: Vec<u8> = vec![0];
    let metatiles_b: Vec<u16> = vec![9, 9, 9, 9, 9, 9, 9, 9];
    let layer_types_b: Vec<u8> = vec![3];
    let res_a = cache.load_tileset(1, 2, &metatiles_a, &layer_types_a, &raw_tiles(1), &raw_palettes());
    assert_eq!(res_a, Ok(()));
    let res_b = cache.load_tileset(1, 2, &metatiles_b, &layer_types_b, &raw_tiles(2), &raw_palettes());
    assert_eq!(res_b, Ok(()));
    let bundle = cache.get_tileset(1, 2).unwrap();
    assert_eq!(bundle.layer_types, vec![0]);
    assert_eq!(bundle.metatiles.len(), 1);
    assert_eq!(bundle.metatiles[0].bot, [1, 2, 3, 4]);
    assert_eq!(bundle.metatiles[0].top, [5, 6, 7, 8]);
    assert_eq!(bundle.tiles.len(), 1);
}

#[test]
fn get_tileset_not_loaded() {
    let cache = TilesetCache::new();
    let res = cache.get_tileset(7, 8);
    assert!(matches!(res, Err(MapError::NotLoaded)));
}

#[test]
fn different_keys_hold_different_bundles() {
    let mut cache = TilesetCache::new();
    let metatiles_a: Vec<u16> = vec![1, 2, 3, 4, 5, 6, 7, 8];
    let metatiles_b: Vec<u16> = vec![9, 10, 11, 12, 13, 14, 15, 16];
    let lt: Vec<u8> = vec![1];
    assert_eq!(
        cache.load_tileset(1, 2, &metatiles_a, &lt, &raw_tiles(1), &raw_palettes()),
        Ok(())
    );
    assert_eq!(
        cache.load_tileset(1, 3, &metatiles_b, &lt, &raw_tiles(1), &raw_palettes()),
        Ok(())
    );
    assert_eq!(cache.get_tileset(1, 2).unwrap().metatiles[0].bot, [1, 2, 3, 4]);
    assert_eq!(cache.get_tileset(1, 3).unwrap().metatiles[0].bot, [9, 10, 11, 12]);
}

#[test]
fn swapped_key_pair_is_a_different_key() {
    let mut cache = TilesetCache::new();
    let metatiles: Vec<u16> = vec![1, 2, 3, 4, 5, 6, 7, 8];
    let lt: Vec<u8> = vec![0];
    assert_eq!(
        cache.load_tileset(1, 2, &metatiles, &lt, &raw_tiles(1), &raw_palettes()),
        Ok(())
    );
    assert!(matches!(cache.get_tileset(2, 1), Err(MapError::NotLoaded)));
}

#[test]
fn load_rejects_wrong_palette_length() {
    let mut cache = TilesetCache::new();
    let metatiles: Vec<u16> = vec![1, 2, 3, 4, 5, 6, 7, 8];
    let lt: Vec<u8> = vec![0];
    let short: Vec<u8> = vec![0; 1023];
    let res = cache.load_tileset(1, 2, &metatiles, &lt, &raw_tiles(1), &short);
    assert_eq!(res, Err(MapError::PreconditionViolation));
    assert!(matches!(cache.get_tileset(1, 2), Err(MapError::NotLoaded)));
}

#[test]
fn load_rejects_misaligned_metatile_table() {
    // One layer type but only four packed references: not a whole record
    // per layer type.
    let mut cache = TilesetCache::new();
    let metatiles: Vec<u16> = vec![1, 2, 3, 4];
    let lt: Vec<u8> = vec![0];
    let res = cache.load_tileset(1, 2, &metatiles, &lt, &raw_tiles(1), &raw_palettes());
    assert_eq!(res, Err(MapError::PreconditionViolation));
}

#[test]
fn decoded_palettes_follow_wire_layout() {
    // Color c of palette p starts at byte 64 * p + 4 * c, as (R, G, B, A).
    let mut cache = TilesetCache::new();
    let metatiles: Vec<u16> = vec![1, 2, 3, 4, 5, 6, 7, 8];
    let lt: Vec<u8> = vec![0];
    let raw = raw_palettes();
    assert_eq!(cache.load_tileset(4, 4, &metatiles, &lt, &raw_tiles(1), &raw), Ok(()));
    let bundle = cache.get_tileset(4, 4).unwrap();
    assert_eq!(bundle.palettes.len(), 16);
    let p: usize = 3;
    let c: usize = 5;
    let base: usize = 64 * p + 4 * c;
    let got = bundle.palettes[p][c];
    assert_eq!(got.r, raw[base]);
    assert_eq!(got.g, raw[base + 1]);
    assert_eq!(got.b, raw[base + 2]);
    assert_eq!(got.a, raw[base + 3]);
}

#[test]
fn decoded_tiles_follow_wire_layout() {
    // Pixel (x, y) of tile t is byte 64 * t + 8 * y + x.
    let mut cache = TilesetCache::new();
    let metatiles: Vec<u16> = vec![1, 2, 3, 4, 5, 6, 7, 8];
    let lt: Vec<u8> = vec![0];
    let raw = raw_tiles(3);
    assert_eq!(cache.load_tileset(5, 5, &metatiles, &lt, &raw, &raw_palettes()), Ok(()));
    let bundle = cache.get_tileset(5, 5).unwrap();
    assert_eq!(bundle.tiles.len(), 3);
    assert_eq!(bundle.tiles[2][7][6], raw[64 * 2 + 8 * 7 + 6]);
    assert_eq!(bundle.tiles[0][0][0], raw[0]);
}

#[test]
fn trailing_partial_tile_is_dropped() {
    let mut cache = TilesetCache::new();
    let metatiles: Vec<u16> = vec![1, 2, 3, 4, 5, 6, 7, 8];
    let lt: Vec<u8> = vec![0];
    let mut raw = raw_tiles(1);
    raw.push(77);
    assert_eq!(cache.load_tileset(6, 6, &metatiles, &lt, &raw, &raw_palettes()), Ok(()));
    assert_eq!(cache.get_tileset(6, 6).unwrap().tiles.len(), 1);
}
