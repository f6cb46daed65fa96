use vstd::prelude::*;

verus! {

/// The colour of the debugging grid's dots.
pub const REFERENCE_COLOR: u32 = 0xff0000;

/// How the reference grid recolours one pixel: a dot lands on every
/// pixel whose column and row are both multiples of fifty.
pub open spec fn reference_pixel(old_px: u32, idx: int, width: int) -> u32 {
    if (idx % width) % 50 == 0 && (idx / width) % 50 == 0 {
        REFERENCE_COLOR
    } else {
        old_px
    }
}

/// Overlay a grid of reference dots spaced fifty pixels apart onto a
/// row-major pixel buffer.
pub fn draw_reference_points(buffer: &mut Vec<u32>, width: usize, height: usize)
    requires
        0 < width,
        old(buffer)@.len() == width * height,
    ensures
        final(buffer)@.len() == old(buffer)@.len(),
        forall|idx: int|
            0 <= idx < final(buffer)@.len() ==> #[trigger] final(buffer)@[idx] == reference_pixel(
                old(buffer)@[idx],
                idx,
                width as int,
            ),
{
    let len = buffer.len();
    let mut idx: usize = 0;
    while idx < len
        invariant
            0 < width,
            len == buffer@.len() == old(buffer)@.len(),
            idx <= len,
            forall|k: int|
                0 <= k < idx ==> #[trigger] buffer@[k] == reference_pixel(
                    old(buffer)@[k],
                    k,
                    width as int,
                ),
            forall|k: int| idx <= k < len ==> #[trigger] buffer@[k] == old(buffer)@[k],
        decreases len - idx,
    {
        if (idx % width) % 50 == 0 && (idx / width) % 50 == 0 {
            buffer.set(idx, REFERENCE_COLOR);
        }
        idx = idx + 1;
    }
}

/// Draw a straight line segment from `(x0, y0)` to `(x1, y1)` into a
/// row-major pixel buffer, stepping one pixel at a time and writing only
/// pixels that lie on the screen. Any pixel either keeps its value or
/// takes the line's colour; a segment of one point colours that pixel
/// when it is on screen. The step budget covers every segment the
/// stepping can draw; it makes termination evident.
#[verifier::loop_isolation(false)]
pub fn draw_line(
    buffer: &mut Vec<u32>,
    width: usize,
    height: usize,
    x0: usize,
    y0: usize,
    x1: usize,
    y1: usize,
    color: u32,
)
    requires
        0 < width <= 16384,
        0 < height <= 16384,
        old(buffer)@.len() == width * height,
        x0 <= 1_000_000,
        y0 <= 1_000_000,
        x1 <= 1_000_000,
        y1 <= 1_000_000,
    ensures
        final(buffer)@.len() == old(buffer)@.len(),
        forall|idx: int|
            0 <= idx < final(buffer)@.len() ==> (#[trigger] final(buffer)@[idx]) == color
                || final(buffer)@[idx] == old(buffer)@[idx],
        x0 < width && y0 < height ==> final(buffer)@[y0 * width + x0] == color,
{
    let mut cx: i64 = x0 as i64;
    let mut cy: i64 = y0 as i64;
    let tx: i64 = x1 as i64;
    let ty: i64 = y1 as i64;
    let dx: i64 = if tx >= cx {
        tx - cx
    } else {
        cx - tx
    };
    let dy: i64 = if ty >= cy {
        cy - ty
    } else {
        ty - cy
    };
    let sx: i64 = if cx < tx {
        1
    } else {
        -1
    };
    let sy: i64 = if cy < ty {
        1
    } else {
        -1
    };
    let mut err: i64 = dx + dy;
    let mut remaining: i64 = dx - dy + 1;
    let ghost fuel0 = remaining as int;
    let ghost first = (y0 * width + x0) as int;
    // The segment's first pixel: painting it up front keeps the claim
    // about it independent of how the stepping loop exits.
    if x0 < width && y0 < height {
        proof {
            crate::fixed::lemma_mul_le(y0 as int, width as int, height as int - 1, width as int);
            crate::fixed::lemma_mul_le(height as int - 1, width as int, 16383, 16384);
            assert((height as int - 1) * (width as int) + (width as int) == (height as int) * (
            width as int)) by (nonlinear_arith);
            assert((height as int) * (width as int) == (width as int) * (height as int))
                by (nonlinear_arith);
            assert(y0 as int * (width as int) >= 0) by (nonlinear_arith);
        }
        buffer.set(y0 * width + x0, color);
    }
    loop
        invariant
            0 <= dx <= 1_000_000,
            -1_000_000 <= dy <= 0,
            0 < width <= 16384,
            0 < height <= 16384,
            buffer@.len() == old(buffer)@.len() == width * height,
            0 <= remaining <= fuel0 <= 2_000_002,
            -(2_000_000 + (fuel0 - remaining) * 2_000_000) <= err as int <= 2_000_000 + (fuel0
                - remaining) * 2_000_000,
            -(1_000_000 + (fuel0 - remaining)) <= cx as int <= 1_000_000 + (fuel0 - remaining),
            -(1_000_000 + (fuel0 - remaining)) <= cy as int <= 1_000_000 + (fuel0 - remaining),
            forall|idx: int|
                0 <= idx < buffer@.len() ==> #[trigger] buffer@[idx] == color || buffer@[idx]
                    == old(buffer)@[idx],
            x0 < width && y0 < height ==> 0 <= first < buffer@.len() && buffer@[first] == color,
        decreases remaining,
    {
        if 0 <= cx && cx < width as i64 && 0 <= cy && cy < height as i64 {
            let ux = cx as usize;
            let uy = cy as usize;
            proof {
                crate::fixed::lemma_mul_le(uy as int, width as int, height as int - 1, width as int);
                crate::fixed::lemma_mul_le(height as int - 1, width as int, 16383, 16384);
                assert((height as int - 1) * (width as int) + (width as int) == (height as int) * (
                width as int)) by (nonlinear_arith);
                assert((height as int) * (width as int) == (width as int) * (height as int))
                    by (nonlinear_arith);
                assert(uy as int * (width as int) >= 0) by (nonlinear_arith);
            }
            buffer.set(uy * width + ux, color);
        }
        if cx == tx && cy == ty {
            break ;
        }
        if remaining == 0 {
            break ;
        }
        remaining = remaining - 1;
        proof {
            assert(-8_000_008_000_000 <= 2 * (err as int) <= 8_000_008_000_000);
            assert(-3_000_003 <= cx as int + sx as int <= 3_000_003);
            assert(-3_000_003 <= cy as int + sy as int <= 3_000_003);
        }
        let e2 = 2 * err;
        if e2 >= dy {
            err = err + dy;
            cx = cx + sx;
        }
        if e2 <= dx {
            err = err + dx;
            cy = cy + sy;
        }
    }
}

} // verus!
