use vstd::prelude::*;

verus! {

/// A rectangle of pixels: top-left corner and size.
#[derive(Clone, Copy, Debug, PartialEq, Eq, Structural)]
pub struct ImageBlock {
    pub x: u32,
    pub y: u32,
    pub width: u32,
    pub height: u32,
}

/// Number of blocks of side `tile` along a side of `n` pixels.
pub open spec fn blocks_along(n: int, tile: int) -> int {
    (n + tile - 1) / tile
}

pub open spec fn min(a: int, b: int) -> int {
    if a < b {
        a
    } else {
        b
    }
}

/// Block `k` of the row-major partition of a `width` by `height` image into
/// blocks of side `tile`; those of the last column and row are cut to the
/// image.
pub open spec fn block_at(width: int, height: int, tile: int, k: int) -> ImageBlock {
    let nx = blocks_along(width, tile);
    let x = (k % nx) * tile;
    let y = (k / nx) * tile;
    ImageBlock {
        x: x as u32,
        y: y as u32,
        width: min(tile, width - x) as u32,
        height: min(tile, height - y) as u32,
    }
}

proof fn lemma_inside(n: int, tile: int, b: int)
    requires
        tile > 0,
        n >= 0,
        0 <= b < blocks_along(n, tile),
    ensures
        b * tile < n,
{
    let q = blocks_along(n, tile);
    vstd::arithmetic::div_mod::lemma_fundamental_div_mod(n + tile - 1, tile);
    vstd::arithmetic::div_mod::lemma_mod_pos_bound(n + tile - 1, tile);
    assert(b * tile < n) by (nonlinear_arith)
        requires
            n + tile - 1 == tile * q + (n + tile - 1) % tile,
            0 <= (n + tile - 1) % tile < tile,
            0 <= b < q,
            tile > 0,
    ;
}

/// The blocks that cover a `width` by `height` image, in row-major order:
/// `blocks_along(width) * blocks_along(height)` of them, block `k` being
/// `block_at(k)`.
pub fn image_blocks(width: u32, height: u32, tile: u32) -> (r: Vec<ImageBlock>)
    requires
        tile > 0,
    ensures
        r@.len() == blocks_along(width as int, tile as int) * blocks_along(height as int, tile as int),
        forall|k: int|
            0 <= k < r@.len() ==> #[trigger] r@[k] == block_at(width as int, height as int, tile as int, k),
{
    let nx: u64 = (width as u64 + tile as u64 - 1) / tile as u64;
    let ny: u64 = (height as u64 + tile as u64 - 1) / tile as u64;
    let mut out: Vec<ImageBlock> = Vec::new();
    let mut by: u64 = 0;
    while by < ny
        invariant
            tile > 0,
            nx == blocks_along(width as int, tile as int),
            ny == blocks_along(height as int, tile as int),
            by <= ny,
            out@.len() == by * nx,
            forall|k: int|
                0 <= k < out@.len() ==> #[trigger] out@[k] == block_at(width as int, height as int, tile as int, k),
        decreases ny - by,
    {
        proof {
            lemma_inside(height as int, tile as int, by as int);
        }
        let y: u64 = by * tile as u64;
        let h: u64 = if (tile as u64) < height as u64 - y { tile as u64 } else { height as u64 - y };
        let mut bx: u64 = 0;
        while bx < nx
            invariant
                tile > 0,
                nx == blocks_along(width as int, tile as int),
                ny == blocks_along(height as int, tile as int),
                by < ny,
                y == by * tile,
                y < height,
                h == min(tile as int, height - y),
                bx <= nx,
                out@.len() == by * nx + bx,
                forall|k: int|
                    0 <= k < out@.len() ==> #[trigger] out@[k] == block_at(width as int, height as int, tile as int, k),
            decreases nx - bx,
        {
            proof {
                lemma_inside(width as int, tile as int, bx as int);
            }
            let x: u64 = bx * tile as u64;
            let w: u64 = if (tile as u64) < width as u64 - x { tile as u64 } else { width as u64 - x };
            let ghost k = out@.len() as int;
            proof {
                vstd::arithmetic::div_mod::lemma_fundamental_div_mod_converse(k, nx as int, by as int, bx as int);
            }
            out.push(ImageBlock { x: x as u32, y: y as u32, width: w as u32, height: h as u32 });
            bx = bx + 1;
            proof {
                assert(out@.len() == by * nx + bx) by (nonlinear_arith)
                    requires out@.len() == k + 1, k == by * nx + bx - 1;
            }
        }
        by = by + 1;
        proof {
            assert(out@.len() == by * nx) by (nonlinear_arith)
                requires out@.len() == (by - 1) * nx + nx;
        }
    }
    proof {
        assert(out@.len() == nx * ny) by (nonlinear_arith)
            requires out@.len() == by * nx, by == ny;
    }
    out
}

/// Whether the averaging wrapper runs one more pass: not when the wrapped
/// integrator has signalled completion, nor once `elapsed_secs` has reached
/// the time budget; with no budget it runs until cancelled from outside.
pub fn continue_averaging(budget_secs: Option<u64>, elapsed_secs: u64, finished: bool) -> (r: bool)
    ensures
        r == (!finished && match budget_secs {
            Some(b) => elapsed_secs < b,
            None => true,
        }),
{
    if finished {
        return false;
    }
    match budget_secs {
        Some(b) => elapsed_secs < b,
        None => true,
    }
}

} // verus!
