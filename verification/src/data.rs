//! The decoded tileset resource model: colors, tiles, palettes, metatiles,
//! and the bundle that groups them.

use vstd::prelude::*;

verus! {

/// One RGBA pixel.
#[derive(Copy, Clone, Debug, PartialEq, Eq, Structural)]
pub struct Color {
    pub r: u8,
    pub g: u8,
    pub b: u8,
    pub a: u8,
}

/// The fully transparent color written for see-through pixels.
pub open spec fn clear_color() -> Color {
    Color { r: 0, g: 0, b: 0, a: 0 }
}

impl Default for Color {
    /// The default color is fully transparent.
    fn default() -> (c: Color)
        ensures
            c == clear_color(),
    {
        Color { r: 0, g: 0, b: 0, a: 0 }
    }
}

/// A 16-color lookup table; index 0 is the transparency/background slot.
pub type Palette = [Color; 16];

/// An 8x8-pixel unit addressed row-major, one palette index per pixel.
pub type Tile = [[u8; 8]; 8];

/// A 16x16-pixel composite built from two 2x2 layers of packed tile
/// references (order: top-left, top-right, bottom-left, bottom-right).
///
/// Each 16-bit reference packs: bits 0-9 tile id, bit 10 horizontal flip,
/// bit 11 vertical flip, bits 12-15 palette id.
#[derive(Copy, Clone)]
pub struct Metatile {
    pub bot: [u16; 4],
    pub top: [u16; 4],
}

/// The decoded, merged tileset data used to render a map.
pub struct TilesetData {
    /// The metatiles
    pub metatiles: Vec<Metatile>,
    /// The metatile layer types, index-aligned with `metatiles`
    pub layer_types: Vec<u8>,
    /// The palettes to use
    pub palettes: Vec<Palette>,
    /// The tiles to use
    pub tiles: Vec<Tile>,
}

/// The mathematical model of a tileset bundle.
pub struct TilesetView {
    pub metatiles: Seq<Metatile>,
    pub layer_types: Seq<u8>,
    pub palettes: Seq<Palette>,
    pub tiles: Seq<Tile>,
}

impl View for TilesetData {
    type V = TilesetView;

    open spec fn view(&self) -> TilesetView {
        TilesetView {
            metatiles: self.metatiles@,
            layer_types: self.layer_types@,
            palettes: self.palettes@,
            tiles: self.tiles@,
        }
    }
}

impl TilesetView {
    /// The shape every bundle honors: one layer type per metatile, and the
    /// fixed 16-entry palette table.
    pub open spec fn wf(self) -> bool {
        &&& self.layer_types.len() == self.metatiles.len()
        &&& self.palettes.len() == 16
    }
}

} // verus!
