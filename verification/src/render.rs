//! Sizes that the renderer derives from the window's size.
use vstd::prelude::*;

verus! {

/// Width and height, in pixels, of a tile of the diffuse compute pass.
pub const DIFFUSE_BLOCK_SIZE: u32 = 16;

/// The surface size for a window size: a surface is at least one pixel wide and high.
pub fn surface_size(width: u32, height: u32) -> (r: (u32, u32))
    ensures
        r.0 == if width == 0 {
            1
        } else {
            width
        },
        r.1 == if height == 0 {
            1
        } else {
            height
        },
{
    (if width >= 1 {
        width
    } else {
        1
    }, if height >= 1 {
        height
    } else {
        1
    })
}

/// `n` rounded up to a whole number of diffuse tiles, in tiles.
pub open spec fn tiles(n: int) -> int {
    (n + DIFFUSE_BLOCK_SIZE - 1) / (DIFFUSE_BLOCK_SIZE as int)
}

/// The area that the diffuse pass covers and the workgroups it dispatches.
pub struct DiffuseDispatch {
    /// The surface width rounded up to whole tiles.
    pub width: u32,
    /// The surface height rounded up to whole tiles.
    pub height: u32,
    /// Workgroups along x, one per tile.
    pub groups_x: u32,
    /// Workgroups along y, one per tile.
    pub groups_y: u32,
}

/// The diffuse pass for a surface of the given size: whole tiles that cover it.
pub fn diffuse_dispatch(width: u32, height: u32) -> (d: DiffuseDispatch)
    requires
        width <= u32::MAX - 15,
        height <= u32::MAX - 15,
    ensures
        d.groups_x == tiles(width as int),
        d.groups_y == tiles(height as int),
        d.width == d.groups_x * DIFFUSE_BLOCK_SIZE,
        d.height == d.groups_y * DIFFUSE_BLOCK_SIZE,
{
    let gx = width / DIFFUSE_BLOCK_SIZE + if width % DIFFUSE_BLOCK_SIZE != 0 {
        1
    } else {
        0
    };
    let gy = height / DIFFUSE_BLOCK_SIZE + if height % DIFFUSE_BLOCK_SIZE != 0 {
        1
    } else {
        0
    };
    let w = gx * DIFFUSE_BLOCK_SIZE;
    let h = gy * DIFFUSE_BLOCK_SIZE;
    DiffuseDispatch { width: w, height: h, groups_x: w / DIFFUSE_BLOCK_SIZE, groups_y: h / DIFFUSE_BLOCK_SIZE }
}

/// The covered area holds the surface, exceeds it by less than a tile, and is
/// made of whole tiles.
pub proof fn lemma_dispatch_covers(n: int)
    requires
        n >= 0,
    ensures
        n <= tiles(n) * 16 < n + 16,
        (tiles(n) * 16) % 16 == 0,
{
}

} // verus!
