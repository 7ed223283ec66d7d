//! Export of tileset animations for the host shell: the nested frame
//! graphics (tiles of rows of pixels) are flattened into plain byte arrays.

use vstd::prelude::*;
use vstd::arithmetic::div_mod::lemma_fundamental_div_mod_converse;

use crate::data::Tile;

verus! {

/// One frame of an animation: the tiles it replaces, in table order.
pub struct AnimationFrame {
    pub tiles: Vec<Tile>,
}

/// One animation of a tileset: which tile it starts at, when it starts,
/// how often it advances, and the graphics of each frame.
pub struct TilesetAnimation {
    pub start_tile: u16,
    pub start_time: u16,
    pub interval: u16,
    pub frame_graphics: Vec<AnimationFrame>,
}

/// All animations of one tileset, with the frame count of the longest.
pub struct TilesetAnimationList {
    pub animations: Vec<TilesetAnimation>,
    pub max_frames: u16,
}

/// One animation in the flat form the host shell consumes: each frame's
/// graphics as one byte array.
pub struct ExportedAnimation {
    pub start_tile: u16,
    pub graphics: Vec<Vec<u8>>,
    pub start_time: u16,
    pub interval: u16,
}

/// The animations of a primary and a secondary tileset, flattened for the
/// host shell.
pub struct ExportedTilesetsAnimations {
    pub primary: Vec<ExportedAnimation>,
    pub primary_max_frames: u16,
    pub secondary: Vec<ExportedAnimation>,
    pub secondary_max_frames: u16,
}

/// A tile's 64 pixels as one byte sequence, row-major.
pub open spec fn tile_flat(t: Tile) -> Seq<u8> {
    Seq::new(64, |k: int| t[k / 8][k % 8])
}

/// The first `n` tiles of a frame as one byte sequence, in tile order.
pub open spec fn frame_flat(tiles: Seq<Tile>, n: int) -> Seq<u8>
    decreases n,
{
    if n <= 0 {
        Seq::empty()
    } else {
        frame_flat(tiles, n - 1) + tile_flat(tiles[n - 1])
    }
}

/// Whether an exported animation is the flattening of an authored one: the
/// scalar fields carried over, and each frame's tiles laid out back to back,
/// each tile row-major.
pub open spec fn anim_exported(a: TilesetAnimation, e: ExportedAnimation) -> bool {
    &&& e.start_tile == a.start_tile
    &&& e.start_time == a.start_time
    &&& e.interval == a.interval
    &&& e.graphics@.len() == a.frame_graphics@.len()
    &&& forall|f: int|
        0 <= f < a.frame_graphics@.len() ==> (#[trigger] e.graphics@[f])@ == frame_flat(
            a.frame_graphics@[f].tiles@,
            a.frame_graphics@[f].tiles@.len() as int,
        )
}

/// Flattens one frame's tiles into a single byte array.
fn flatten_frame(frame: &AnimationFrame) -> (out: Vec<u8>)
    ensures
        out@ == frame_flat(frame.tiles@, frame.tiles@.len() as int),
{
    let mut out: Vec<u8> = Vec::new();
    let mut t: usize = 0;
    while t < frame.tiles.len()
        invariant
            t <= frame.tiles@.len(),
            out@ == frame_flat(frame.tiles@, t as int),
        decreases frame.tiles@.len() - t,
    {
        let tile = &frame.tiles[t];
        let ghost before = out@;
        let mut y: usize = 0;
        while y < 8
            invariant
                y <= 8,
                t < frame.tiles@.len(),
                tile == &frame.tiles@[t as int],
                out@ == before + tile_flat(frame.tiles@[t as int]).subrange(0, 8 * y),
            decreases 8 - y,
        {
            let mut x: usize = 0;
            while x < 8
                invariant
                    x <= 8,
                    y < 8,
                    t < frame.tiles@.len(),
                    tile == &frame.tiles@[t as int],
                    out@ == before + tile_flat(frame.tiles@[t as int]).subrange(0, 8 * y + x),
                decreases 8 - x,
            {
                proof {
                    lemma_fundamental_div_mod_converse(
                        8 * y as int + x as int,
                        8,
                        y as int,
                        x as int,
                    );
                    assert(tile_flat(frame.tiles@[t as int]).subrange(0, 8 * y + x + 1)
                        =~= tile_flat(frame.tiles@[t as int]).subrange(0, 8 * y + x).push(
                        tile[y as int][x as int],
                    ));
                }
                out.push(tile[y][x]);
                x += 1;
            }
            y += 1;
        }
        proof {
            assert(tile_flat(frame.tiles@[t as int]).subrange(0, 64) =~= tile_flat(
                frame.tiles@[t as int],
            ));
        }
        t += 1;
    }
    out
}

/// Rewrites a tileset's animations into the flat form the host shell
/// consumes, one exported record per animation, in order.
pub fn prepare_anims(anims: &TilesetAnimationList) -> (res: Vec<ExportedAnimation>)
    ensures
        res@.len() == anims.animations@.len(),
        forall|i: int|
            0 <= i < res@.len() ==> anim_exported(anims.animations@[i], #[trigger] res@[i]),
{
    let mut res: Vec<ExportedAnimation> = Vec::new();
    let mut i: usize = 0;
    while i < anims.animations.len()
        invariant
            i <= anims.animations@.len(),
            res@.len() == i,
            forall|j: int|
                0 <= j < i ==> anim_exported(anims.animations@[j], #[trigger] res@[j]),
        decreases anims.animations@.len() - i,
    {
        let anim = &anims.animations[i];
        let mut graphics: Vec<Vec<u8>> = Vec::new();
        let mut f: usize = 0;
        while f < anim.frame_graphics.len()
            invariant
                f <= anim.frame_graphics@.len(),
                i < anims.animations@.len(),
                anim == &anims.animations@[i as int],
                graphics@.len() == f,
                forall|g: int|
                    0 <= g < f ==> (#[trigger] graphics@[g])@ == frame_flat(
                        anim.frame_graphics@[g].tiles@,
                        anim.frame_graphics@[g].tiles@.len() as int,
                    ),
            decreases anim.frame_graphics@.len() - f,
        {
            let flattened = flatten_frame(&anim.frame_graphics[f]);
            graphics.push(flattened);
            f += 1;
        }
        let exported = ExportedAnimation {
            start_tile: anim.start_tile,
            graphics,
            start_time: anim.start_time,
            interval: anim.interval,
        };
        res.push(exported);
        i += 1;
    }
    res
}

} // verus!
