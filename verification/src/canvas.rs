//! The fixed-size canvas that the processor draws on: 376 x 240 pixels,
//! three bytes per pixel, rows from top to bottom.
use vstd::prelude::*;
use vstd::arithmetic::div_mod::lemma_fundamental_div_mod_converse;

verus! {

/// Width of the images that the SR-750 delivers.
pub const IMAGE_WIDTH: u32 = 376;

/// Height of the images that the SR-750 delivers.
pub const IMAGE_HEIGHT: u32 = 240;

/// Bytes of a canvas: three per pixel.
pub const CANVAS_LEN: usize = 376 * 240 * 3;

/// Whether `(x, y)` lies on the canvas.
pub open spec fn in_image(x: int, y: int) -> bool {
    0 <= x < IMAGE_WIDTH && 0 <= y < IMAGE_HEIGHT
}

/// Where channel `c` of pixel `(x, y)` is kept in a canvas.
pub open spec fn pixel_index(x: int, y: int, c: int) -> int {
    (y * IMAGE_WIDTH + x) * 3 + c
}

/// Channel indices of canvas pixels lie inside the canvas.
pub proof fn lemma_pixel_index_bounds(x: int, y: int, c: int)
    requires
        in_image(x, y),
        0 <= c < 3,
    ensures
        0 <= pixel_index(x, y, c) < CANVAS_LEN,
{
}

/// Distinct pixel channels are kept at distinct places.
pub proof fn lemma_pixel_index_distinct(x1: int, y1: int, c1: int, x2: int, y2: int, c2: int)
    requires
        in_image(x1, y1),
        0 <= c1 < 3,
        in_image(x2, y2),
        0 <= c2 < 3,
        pixel_index(x1, y1, c1) == pixel_index(x2, y2, c2),
    ensures
        x1 == x2,
        y1 == y2,
        c1 == c2,
{
}

/// The column of the pixel whose channel is kept at `k`.
pub open spec fn pixel_x(k: int) -> int {
    (k / 3) % (IMAGE_WIDTH as int)
}

/// The row of the pixel whose channel is kept at `k`.
pub open spec fn pixel_y(k: int) -> int {
    (k / 3) / (IMAGE_WIDTH as int)
}

/// The channel kept at `k`.
pub open spec fn channel(k: int) -> int {
    k % 3
}

/// Every place of the canvas holds one channel of one pixel.
pub proof fn lemma_pixel_decompose(k: int)
    requires
        0 <= k < CANVAS_LEN,
    ensures
        in_image(pixel_x(k), pixel_y(k)),
        0 <= channel(k) < 3,
        pixel_index(pixel_x(k), pixel_y(k), channel(k)) == k,
{
    let p = k / 3;
    lemma_fundamental_div_mod_converse(k, 3, p, k % 3);
    assert(k == p * 3 + k % 3) by {
        vstd::arithmetic::div_mod::lemma_fundamental_div_mod(k, 3);
    }
    vstd::arithmetic::div_mod::lemma_fundamental_div_mod(p, 376);
    assert(0 <= p < 376 * 240);
    assert(p % 376 < 376) by {
        vstd::arithmetic::div_mod::lemma_mod_pos_bound(p, 376);
    }
    assert(p / 376 < 240) by {
        if p / 376 >= 240 {
            vstd::arithmetic::div_mod::lemma_fundamental_div_mod(p, 376);
            assert(p >= 376 * 240) by (nonlinear_arith)
                requires
                    p == 376 * (p / 376) + p % 376,
                    p / 376 >= 240,
                    p % 376 >= 0,
            ;
        }
    }
    assert(p / 376 >= 0) by {
        vstd::arithmetic::div_mod::lemma_div_pos_is_pos(p, 376);
    }
    assert(k % 3 >= 0 && k % 3 < 3) by {
        vstd::arithmetic::div_mod::lemma_mod_pos_bound(k, 3);
    }
}

/// The place of a pixel channel decomposes back into that pixel and channel.
pub proof fn lemma_pixel_compose(x: int, y: int, c: int)
    requires
        in_image(x, y),
        0 <= c < 3,
    ensures
        pixel_x(pixel_index(x, y, c)) == x,
        pixel_y(pixel_index(x, y, c)) == y,
        channel(pixel_index(x, y, c)) == c,
{
    let k = pixel_index(x, y, c);
    let p = y * 376 + x;
    lemma_fundamental_div_mod_converse(k, 3, p, c);
    lemma_fundamental_div_mod_converse(p, 376, y, x);
}

} // verus!
