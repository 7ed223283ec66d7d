//! The tileset cache: a create-once store of decoded tileset bundles keyed
//! by a pair of resource-origin identifiers.

use vstd::prelude::*;
use vstd::arithmetic::div_mod::{lemma_fundamental_div_mod, lemma_mod_bound};

use crate::data::{Color, Metatile, Palette, Tile, TilesetData, TilesetView};
use crate::MapError;

verus! {

/// The metatile table decoded from its wire form: each record is eight
/// packed tile references, four for the bottom layer then four for the top.
pub open spec fn metatiles_decoded(raw: Seq<u16>, ms: Seq<Metatile>) -> bool {
    &&& ms.len() == raw.len() as int / 8
    &&& forall|i: int, j: int|
        0 <= i < ms.len() && 0 <= j < 4 ==> (#[trigger] ms[i].bot[j]) == raw[8 * i + j]
    &&& forall|i: int, j: int|
        0 <= i < ms.len() && 0 <= j < 4 ==> (#[trigger] ms[i].top[j]) == raw[8 * i + 4 + j]
}

/// The tile table decoded from its wire form: 64 bytes per tile, one
/// palette index per pixel, row-major.
pub open spec fn tiles_decoded(raw: Seq<u8>, ts: Seq<Tile>) -> bool {
    &&& ts.len() == raw.len() as int / 64
    &&& forall|i: int, y: int, x: int|
        0 <= i < ts.len() && 0 <= y < 8 && 0 <= x < 8 ==> (#[trigger] ts[i][y][x]) == raw[64 * i
            + 8 * y + x]
}

/// The palette table decoded from its wire form: 16 colors of 4 bytes
/// (R, G, B, A) per palette, palette-major then color-major.
pub open spec fn palettes_decoded(raw: Seq<u8>, ps: Seq<Palette>) -> bool {
    &&& ps.len() == raw.len() as int / 64
    &&& forall|i: int, c: int|
        0 <= i < ps.len() && 0 <= c < 16 ==> (#[trigger] ps[i][c]) == (Color {
            r: raw[64 * i + 4 * c],
            g: raw[64 * i + 4 * c + 1],
            b: raw[64 * i + 4 * c + 2],
            a: raw[64 * i + 4 * c + 3],
        })
}

/// A bundle decoded from the four raw arrays: the layer-type table is taken
/// byte for byte, the others through their wire layouts above.
pub open spec fn bundle_decoded(
    v: TilesetView,
    raw_metatiles: Seq<u16>,
    raw_layer_types: Seq<u8>,
    raw_tiles: Seq<u8>,
    raw_palettes: Seq<u8>,
) -> bool {
    &&& metatiles_decoded(raw_metatiles, v.metatiles)
    &&& v.layer_types == raw_layer_types
    &&& tiles_decoded(raw_tiles, v.tiles)
    &&& palettes_decoded(raw_palettes, v.palettes)
}

/// Reads one color from four consecutive bytes.
fn decode_color(raw: &Vec<u8>, off: usize) -> (c: Color)
    requires
        off + 4 <= raw@.len(),
    ensures
        c == (Color {
            r: raw@[off as int],
            g: raw@[off as int + 1],
            b: raw@[off as int + 2],
            a: raw@[off as int + 3],
        }),
{
    proof {
        assert(raw@.len() <= usize::MAX) by {
            assert(raw.len() == raw@.len());
        }
    }
    Color { r: raw[off], g: raw[off + 1], b: raw[off + 2], a: raw[off + 3] }
}

/// Reads one 8-pixel tile row from eight consecutive bytes.
fn decode_tile_row(raw: &Vec<u8>, off: usize) -> (row: [u8; 8])
    requires
        off + 8 <= raw@.len(),
    ensures
        forall|j: int| 0 <= j < 8 ==> (#[trigger] row[j]) == raw@[off + j],
{
    proof {
        assert(raw@.len() <= usize::MAX) by {
            assert(raw.len() == raw@.len());
        }
    }
    [
        raw[off],
        raw[off + 1],
        raw[off + 2],
        raw[off + 3],
        raw[off + 4],
        raw[off + 5],
        raw[off + 6],
        raw[off + 7],
    ]
}

/// Decodes the metatile table from its raw `u16` array; a trailing partial
/// record is dropped.
fn decode_metatiles(raw: &Vec<u16>) -> (ms: Vec<Metatile>)
    ensures
        metatiles_decoded(raw@, ms@),
{
    let n = raw.len() / 8;
    proof {
        lemma_fundamental_div_mod(raw@.len() as int, 8);
        lemma_mod_bound(raw@.len() as int, 8);
    }
    let mut ms: Vec<Metatile> = Vec::new();
    let mut i: usize = 0;
    while i < n
        invariant
            n == raw@.len() as int / 8,
            8 * n <= raw@.len(),
            i <= n,
            ms@.len() == i,
            forall|ii: int, j: int|
                0 <= ii < i && 0 <= j < 4 ==> (#[trigger] ms@[ii].bot[j]) == raw@[8 * ii + j],
            forall|ii: int, j: int|
                0 <= ii < i && 0 <= j < 4 ==> (#[trigger] ms@[ii].top[j]) == raw@[8 * ii + 4 + j],
        decreases n - i,
    {
        proof {
            assert(raw@.len() <= usize::MAX) by {
                assert(raw.len() == raw@.len());
            }
        }
        let base = i * 8;
        let m = Metatile {
            bot: [raw[base], raw[base + 1], raw[base + 2], raw[base + 3]],
            top: [raw[base + 4], raw[base + 5], raw[base + 6], raw[base + 7]],
        };
        ms.push(m);
        i += 1;
    }
    ms
}

/// Decodes the tile table from its raw byte array; a trailing partial tile
/// is dropped.
fn decode_tiles(raw: &Vec<u8>) -> (ts: Vec<Tile>)
    ensures
        tiles_decoded(raw@, ts@),
{
    let n = raw.len() / 64;
    proof {
        lemma_fundamental_div_mod(raw@.len() as int, 64);
        lemma_mod_bound(raw@.len() as int, 64);
    }
    let mut ts: Vec<Tile> = Vec::new();
    let mut i: usize = 0;
    while i < n
        invariant
            n == raw@.len() as int / 64,
            64 * n <= raw@.len(),
            i <= n,
            ts@.len() == i,
            forall|ii: int, y: int, x: int|
                0 <= ii < i && 0 <= y < 8 && 0 <= x < 8 ==> (#[trigger] ts@[ii][y][x]) == raw@[64
                    * ii + 8 * y + x],
        decreases n - i,
    {
        proof {
            assert(raw@.len() <= usize::MAX) by {
                assert(raw.len() == raw@.len());
            }
        }
        let base = i * 64;
        let t: Tile = [
            decode_tile_row(raw, base),
            decode_tile_row(raw, base + 8),
            decode_tile_row(raw, base + 16),
            decode_tile_row(raw, base + 24),
            decode_tile_row(raw, base + 32),
            decode_tile_row(raw, base + 40),
            decode_tile_row(raw, base + 48),
            decode_tile_row(raw, base + 56),
        ];
        ts.push(t);
        i += 1;
    }
    ts
}

/// Decodes the palette table from its raw byte array; a trailing partial
/// palette is dropped.
fn decode_palettes(raw: &Vec<u8>) -> (ps: Vec<Palette>)
    ensures
        palettes_decoded(raw@, ps@),
{
    let n = raw.len() / 64;
    proof {
        lemma_fundamental_div_mod(raw@.len() as int, 64);
        lemma_mod_bound(raw@.len() as int, 64);
    }
    let mut ps: Vec<Palette> = Vec::new();
    let mut i: usize = 0;
    while i < n
        invariant
            n == raw@.len() as int / 64,
            64 * n <= raw@.len(),
            i <= n,
            ps@.len() == i,
            forall|ii: int, c: int|
                0 <= ii < i && 0 <= c < 16 ==> (#[trigger] ps@[ii][c]) == (Color {
                    r: raw@[64 * ii + 4 * c],
                    g: raw@[64 * ii + 4 * c + 1],
                    b: raw@[64 * ii + 4 * c + 2],
                    a: raw@[64 * ii + 4 * c + 3],
                }),
        decreases n - i,
    {
        proof {
            assert(raw@.len() <= usize::MAX) by {
                assert(raw.len() == raw@.len());
            }
        }
        let base = i * 64;
        let p: Palette = [
            decode_color(raw, base),
            decode_color(raw, base + 4),
            decode_color(raw, base + 8),
            decode_color(raw, base + 12),
            decode_color(raw, base + 16),
            decode_color(raw, base + 20),
            decode_color(raw, base + 24),
            decode_color(raw, base + 28),
            decode_color(raw, base + 32),
            decode_color(raw, base + 36),
            decode_color(raw, base + 40),
            decode_color(raw, base + 44),
            decode_color(raw, base + 48),
            decode_color(raw, base + 52),
            decode_color(raw, base + 56),
            decode_color(raw, base + 60),
        ];
        ps.push(p);
        i += 1;
    }
    ps
}

/// Copies a raw byte array into an owned vector.
fn copy_bytes(raw: &Vec<u8>) -> (out: Vec<u8>)
    ensures
        out@ == raw@,
{
    let mut out: Vec<u8> = Vec::new();
    let mut i: usize = 0;
    while i < raw.len()
        invariant
            i <= raw@.len(),
            out@ == raw@.subrange(0, i as int),
        decreases raw@.len() - i,
    {
        out.push(raw[i]);
        i += 1;
    }
    proof {
        assert(out@ =~= raw@);
    }
    out
}

struct CacheEntry {
    primary: u32,
    secondary: u32,
    data: TilesetData,
}

/// A create-once store of decoded tileset bundles, keyed by a pair of
/// opaque resource-origin identifiers. Entries are created once, read many
/// times, and never updated or removed.
pub struct TilesetCache {
    entries: Vec<CacheEntry>,
}

impl TilesetCache {
    /// Whether a bundle is stored under the key.
    pub closed spec fn spec_contains(self, primary: u32, secondary: u32) -> bool {
        exists|i: int|
            0 <= i < self.entries@.len() && (#[trigger] self.entries@[i]).primary == primary
                && self.entries@[i].secondary == secondary
    }

    /// The position of the key's entry.
    closed spec fn entry_index(self, primary: u32, secondary: u32) -> int {
        choose|i: int|
            0 <= i < self.entries@.len() && (#[trigger] self.entries@[i]).primary == primary
                && self.entries@[i].secondary == secondary
    }

    /// The bundle stored under the key.
    pub closed spec fn spec_get(self, primary: u32, secondary: u32) -> TilesetView {
        self.entries@[self.entry_index(primary, secondary)].data@
    }

    /// No two entries share a key.
    pub closed spec fn wf(self) -> bool {
        forall|i: int, j: int|
            0 <= i < self.entries@.len() && 0 <= j < self.entries@.len() && i != j ==> !((
            #[trigger] self.entries@[i]).primary == (#[trigger] self.entries@[j]).primary
                && self.entries@[i].secondary == self.entries@[j].secondary)
    }

    /// An empty cache.
    pub fn new() -> (c: TilesetCache)
        ensures
            c.wf(),
            forall|p: u32, s: u32| !c.spec_contains(p, s),
    {
        TilesetCache { entries: Vec::new() }
    }

    /// The position of the key's entry, if any.
    fn find_entry(&self, primary: u32, secondary: u32) -> (r: Option<usize>)
        ensures
            match r {
                Some(i) => {
                    &&& i < self.entries@.len()
                    &&& self.entries@[i as int].primary == primary
                    &&& self.entries@[i as int].secondary == secondary
                    &&& self.spec_contains(primary, secondary)
                },
                None => !self.spec_contains(primary, secondary),
            },
    {
        let mut i: usize = 0;
        while i < self.entries.len()
            invariant
                i <= self.entries@.len(),
                forall|j: int|
                    0 <= j < i ==> !((#[trigger] self.entries@[j]).primary == primary
                        && self.entries@[j].secondary == secondary),
            decreases self.entries@.len() - i,
        {
            if self.entries[i].primary == primary && self.entries[i].secondary == secondary {
                return Some(i);
            }
            i += 1;
        }
        None
    }

    /// Decodes the raw arrays into a bundle and stores it under the key.
    ///
    /// If an entry already exists for the key the call is a no-op: it does
    /// not re-decode or replace the existing bundle, even if the new raw
    /// arrays differ. Otherwise the palette array must hold exactly
    /// 16 x 16 x 4 bytes and the metatile array exactly eight entries per
    /// layer-type byte; on a mismatch the call fails without storing
    /// anything.
    pub fn load_tileset(
        &mut self,
        primary_offset: u32,
        secondary_offset: u32,
        metatiles: &Vec<u16>,
        layer_types: &Vec<u8>,
        tiles: &Vec<u8>,
        palettes: &Vec<u8>,
    ) -> (res: Result<(), MapError>)
        requires
            old(self).wf(),
        ensures
            final(self).wf(),
            old(self).spec_contains(primary_offset, secondary_offset) ==> res is Ok && *final(self)
                == *old(self),
            !old(self).spec_contains(primary_offset, secondary_offset) ==> {
                if palettes@.len() != 1024 || metatiles@.len() as int != 8 * layer_types@.len() {
                    res == Err::<(), MapError>(MapError::PreconditionViolation) && *final(self)
                        == *old(self)
                } else {
                    &&& res is Ok
                    &&& final(self).spec_contains(primary_offset, secondary_offset)
                    &&& bundle_decoded(
                        final(self).spec_get(primary_offset, secondary_offset),
                        metatiles@,
                        layer_types@,
                        tiles@,
                        palettes@,
                    )
                    &&& final(self).spec_get(primary_offset, secondary_offset).wf()
                }
            },
            forall|p: u32, s: u32|
                !(p == primary_offset && s == secondary_offset) ==> (
                #[trigger] final(self).spec_contains(p, s) == old(self).spec_contains(p, s) && (
                old(self).spec_contains(p, s) ==> final(self).spec_get(p, s) == old(self).spec_get(
                    p,
                    s,
                ))),
    {
        if let Some(_i) = self.find_entry(primary_offset, secondary_offset) {
            return Ok(());
        }
        if palettes.len() != 16 * 16 * 4 {
            return Err(MapError::PreconditionViolation);
        }
        if layer_types.len() > usize::MAX / 8 || metatiles.len() != 8 * layer_types.len() {
            proof {
                if layer_types@.len() as int > usize::MAX as int / 8 {
                    lemma_fundamental_div_mod(usize::MAX as int, 8);
                    lemma_mod_bound(usize::MAX as int, 8);
                    assert(8 * layer_types@.len() as int > usize::MAX as int);
                    assert(metatiles@.len() <= usize::MAX) by {
                        assert(metatiles.len() == metatiles@.len());
                    }
                }
            }
            return Err(MapError::PreconditionViolation);
        }
        proof {
            lemma_fundamental_div_mod(metatiles@.len() as int, 8);
        }
        let data = TilesetData {
            metatiles: decode_metatiles(metatiles),
            layer_types: copy_bytes(layer_types),
            palettes: decode_palettes(palettes),
            tiles: decode_tiles(tiles),
        };
        let ghost old_entries = self.entries@;
        self.entries.push(
            CacheEntry { primary: primary_offset, secondary: secondary_offset, data },
        );
        proof {
            let n = old_entries.len() as int;
            assert(self.entries@[n].primary == primary_offset);
            assert(self.spec_contains(primary_offset, secondary_offset));
            assert forall|p: u32, s: u32|
                !(p == primary_offset && s == secondary_offset) implies (
            #[trigger] self.spec_contains(p, s) == old(self).spec_contains(p, s) && (old(
                self,
            ).spec_contains(p, s) ==> self.spec_get(p, s) == old(self).spec_get(p, s))) by {
                assert(forall|i: int|
                    0 <= i < n ==> self.entries@[i] == #[trigger] old_entries[i]);
                if old(self).spec_contains(p, s) {
                    let i = choose|i: int|
                        0 <= i < old_entries.len() && (#[trigger] old_entries[i]).primary == p
                            && old_entries[i].secondary == s;
                    assert(self.entries@[i].primary == p && self.entries@[i].secondary == s);
                    assert(self.spec_contains(p, s));
                    assert(self.entry_index(p, s) == old(self).entry_index(p, s));
                }
                if self.spec_contains(p, s) {
                    let i = self.entry_index(p, s);
                    assert(0 <= i < n + 1);
                    assert(i != n);
                    assert(old_entries[i].primary == p && old_entries[i].secondary == s);
                    assert(old(self).spec_contains(p, s));
                }
            }
            assert(self.entry_index(primary_offset, secondary_offset) == n) by {
                let i = self.entry_index(primary_offset, secondary_offset);
                if i != n {
                    assert(old_entries[i].primary == primary_offset);
                    assert(old(self).spec_contains(primary_offset, secondary_offset));
                }
            }
        }
        Ok(())
    }

    /// Hands out the bundle stored under the key, or reports that none was
    /// loaded.
    pub fn get_tileset(&self, primary_offset: u32, secondary_offset: u32) -> (res: Result<
        &TilesetData,
        MapError,
    >)
        requires
            self.wf(),
        ensures
            self.spec_contains(primary_offset, secondary_offset) ==> (res matches Ok(d) && d@
                == self.spec_get(primary_offset, secondary_offset)),
            !self.spec_contains(primary_offset, secondary_offset) ==> res == Err::<
                &TilesetData,
                MapError,
            >(MapError::NotLoaded),
    {
        match self.find_entry(primary_offset, secondary_offset) {
            Some(i) => {
                proof {
                    let ci = self.entry_index(primary_offset, secondary_offset);
                    assert(self.entries@[ci].primary == primary_offset);
                    assert(ci == i as int);
                }
                Ok(&self.entries[i].data)
            },
            None => Err(MapError::NotLoaded),
        }
    }
}

} // verus!
