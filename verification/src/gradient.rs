//! The placeholder gradient image: a deterministic colour for every
//! pixel of a fixed-size grid, assembled into a flat row-major RGB888
//! buffer. Red rises with the column, green with the row, blue is fixed
//! at a quarter of full intensity.

use vstd::prelude::*;
use vstd::arithmetic::div_mod::{lemma_div_is_ordered, lemma_div_multiples_vanish};
use vstd::arithmetic::mul::lemma_mul_inequality;

verus! {

/// The largest level an 8-bit colour channel can hold.
pub const CHANNEL_MAX: u8 = 255;

/// The blue channel is fixed at a quarter of full intensity; truncating
/// `255 * 0.25` toward zero gives 63.
pub const BLUE_LEVEL: u8 = 63;

/// The 8-bit level of a channel whose intensity is the ratio
/// `coord / last` of full scale: `255 * coord / last`, truncated toward
/// zero (not rounded), which biases every channel slightly dark.
pub open spec fn channel_level(coord: int, last: int) -> int {
    (CHANNEL_MAX as int) * coord / last
}

/// The colour of the pixel at column `x`, row `y` of a `width` by
/// `height` gradient image, as (red, green, blue) levels.
pub open spec fn pixel_color(x: int, y: int, width: int, height: int) -> (int, int, int) {
    (channel_level(x, width - 1), channel_level(y, height - 1), BLUE_LEVEL as int)
}

/// The three bytes starting at the row-major offset of pixel `(x, y)`
/// in `data` hold that pixel's gradient colour.
pub open spec fn buffer_holds_pixel(data: Seq<u8>, x: int, y: int, width: int, height: int) -> bool {
    let base = 3 * (y * width + x);
    &&& data[base] == channel_level(x, width - 1)
    &&& data[base + 1] == channel_level(y, height - 1)
    &&& data[base + 2] == BLUE_LEVEL as int
}

/// On the reference scale, where the last coordinate is 255, the
/// gradient is the identity: a coordinate's channel level is the
/// coordinate itself. So in a 256 by 256 image the red level of a
/// pixel equals its column and the green level equals its row.
pub proof fn lemma_reference_channel_is_coord(coord: int)
    requires
        0 <= coord <= 255,
    ensures
        channel_level(coord, 255) == coord,
{
    lemma_div_multiples_vanish(coord, 255);
}

/// Converts a coordinate ratio `coord / last` to an 8-bit channel
/// level, truncating toward zero.
pub fn channel_value(coord: u32, last: u32) -> (level: u8)
    requires
        0 < last,
        coord <= last,
    ensures
        level == channel_level(coord as int, last as int),
{
    let wide: u64 = (CHANNEL_MAX as u64) * (coord as u64);
    let quotient: u64 = wide / (last as u64);
    proof {
        lemma_mul_inequality(coord as int, last as int, 255);
        lemma_div_is_ordered(255 * (coord as int), 255 * (last as int), last as int);
        lemma_div_multiples_vanish(255, last as int);
    }
    quotient as u8
}

/// The colour of the pixel at column `x`, row `y`: red is the ratio of
/// the column to the last column, green the ratio of the row to the
/// last row, blue a quarter of full intensity.
pub fn gradient_pixel(x: u32, y: u32, width: u32, height: u32) -> (rgb: (u8, u8, u8))
    requires
        2 <= width,
        2 <= height,
        x < width,
        y < height,
    ensures
        (rgb.0 as int, rgb.1 as int, rgb.2 as int) == pixel_color(
            x as int,
            y as int,
            width as int,
            height as int,
        ),
{
    let red = channel_value(x, width - 1);
    let green = channel_value(y, height - 1);
    (red, green, BLUE_LEVEL)
}

/// Builds the whole gradient image as a flat RGB888 buffer in row-major
/// order: three bytes per pixel, rows from `y == 0` upward, columns
/// from `x == 0` within each row.
pub fn generate(width: u32, height: u32) -> (data: Vec<u8>)
    requires
        2 <= width,
        2 <= height,
        3 * (width as int) * (height as int) <= usize::MAX,
    ensures
        data@.len() == 3 * (width as int) * (height as int),
        forall|x: int, y: int|
            0 <= x < width && 0 <= y < height ==> buffer_holds_pixel(
                data@,
                x,
                y,
                width as int,
                height as int,
            ),
{
    let ghost w = width as int;
    let ghost h = height as int;
    let mut data: Vec<u8> = Vec::new();
    let mut y: u32 = 0;
    while y < height
        invariant
            2 <= width,
            2 <= height,
            3 * w * h <= usize::MAX,
            w == width as int,
            h == height as int,
            y <= height,
            data@.len() == 3 * ((y as int) * w),
            forall|xx: int, yy: int|
                0 <= xx < width && 0 <= yy < y ==> buffer_holds_pixel(data@, xx, yy, w, h),
        decreases height - y,
    {
        let ghost row_start = data@.len() as int;
        let mut x: u32 = 0;
        while x < width
            invariant
                2 <= width,
                2 <= height,
                3 * w * h <= usize::MAX,
                w == width as int,
                h == height as int,
                y < height,
                x <= width,
                row_start == 3 * ((y as int) * w),
                data@.len() == row_start + 3 * (x as int),
                forall|xx: int, yy: int|
                    0 <= xx < width && 0 <= yy < y ==> buffer_holds_pixel(data@, xx, yy, w, h),
                forall|xx: int|
                    0 <= xx < x ==> buffer_holds_pixel(data@, xx, y as int, w, h),
            decreases width - x,
        {
            let rgb = gradient_pixel(x, y, width, height);
            let ghost before = data@;
            data.push(rgb.0);
            data.push(rgb.1);
            data.push(rgb.2);
            proof {
                assert forall|xx: int, yy: int|
                    0 <= xx < width && 0 <= yy < y implies buffer_holds_pixel(
                    data@,
                    xx,
                    yy,
                    w,
                    h,
                ) by {
                    assert(buffer_holds_pixel(before, xx, yy, w, h));
                    lemma_mul_inequality(yy + 1, y as int, w);
                    assert((yy + 1) * w == yy * w + w) by (nonlinear_arith);
                    assert(3 * (yy * w + xx) + 2 < before.len());
                }
                assert forall|xx: int| 0 <= xx < x + 1 implies buffer_holds_pixel(
                    data@,
                    xx,
                    y as int,
                    w,
                    h,
                ) by {
                    if xx < x {
                        assert(buffer_holds_pixel(before, xx, y as int, w, h));
                        assert(3 * ((y as int) * w + xx) + 2 < before.len());
                    } else {
                        assert(3 * ((y as int) * w + xx) == before.len());
                    }
                }
            }
            x = x + 1;
        }
        y = y + 1;
        proof {
            assert(data@.len() == 3 * ((y as int) * w)) by {
                assert(row_start + 3 * w == 3 * ((y as int) * w)) by (nonlinear_arith)
                    requires
                        row_start == 3 * ((y as int - 1) * w),
                ;
            }
        }
    }
    proof {
        assert(3 * ((height as int) * w) == 3 * w * h) by (nonlinear_arith)
            requires
                w == width as int,
                h == height as int,
        ;
    }
    data
}

} // verus!
