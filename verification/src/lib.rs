//! The verified core of a tile-based 2D map editor.
//!
//! Map data is a grid of metatile references into a shared tileset resource
//! (palettes, 8x8 pixel tiles, and 16x16 metatile compositions). The heart
//! of the library expands that compact representation into two RGBA pixel
//! layers: one drawn behind a movable sprite and one drawn in front of it,
//! honoring per-metatile compositing rules, tile flipping, and transparency.
//! Around it stand the create-once tileset cache, the decoding of the raw
//! resource arrays, and the plain-value logic the editor's host shell leans
//! on: deletion planning, animation export, and icon-request parsing.

use vstd::prelude::*;

mod anims;
mod cache;
mod compose;
mod data;
mod draw;
mod editor;
mod icons;
mod parse;
mod render;

pub use anims::prepare_anims;
pub use anims::AnimationFrame;
pub use anims::ExportedAnimation;
pub use anims::ExportedTilesetsAnimations;
pub use anims::TilesetAnimation;
pub use anims::TilesetAnimationList;
pub use cache::TilesetCache;
pub use compose::clear_block;
pub use compose::draw_metatile_layer;
pub use data::Color;
pub use data::Metatile;
pub use data::Palette;
pub use data::Tile;
pub use data::TilesetData;
pub use data::TilesetView;
pub use draw::blit_tile;
pub use draw::BlitMode;
pub use editor::plan_map_deletions;
pub use editor::DeletionPlan;
pub use editor::LayoutAction;
pub use editor::LayoutActionType;
pub use editor::MapCreationLayoutOptions;
pub use editor::MapId;
pub use editor::MapIdLayout;
pub use editor::OpenRom;
pub use editor::TilesetType;
pub use icons::get_prefix_and_icon;
pub use icons::parse_get_header;
pub use parse::parse_u16;
pub use render::render;
pub use render::COVERED;
pub use render::NORMAL;
pub use render::SPLIT;
pub use render::THREELAYERS;

verus! {

/// The failures the library reports to its caller.
///
/// Out-of-range metatile or tile references are not reported: the affected
/// block or sub-tile is skipped and processing continues.
#[derive(Copy, Clone, Debug, PartialEq, Eq, Structural)]
pub enum MapError {
    /// A caller handed over data of the wrong shape: a destination buffer or
    /// raw resource array whose length does not match its dimensions.
    PreconditionViolation,
    /// Corrupted tileset resource data: a layer type outside the four
    /// defined values.
    DataIntegrityFault,
    /// A tileset bundle was requested for a key that was never loaded.
    NotLoaded,
}

} // verus!
