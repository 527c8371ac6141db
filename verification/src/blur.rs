//! What a box blur makes of an image: the mean of a square window around
//! every pixel that is far enough from the borders.

use vstd::prelude::*;
use crate::color::Channel;
use crate::image::Image;
use crate::image::grid_sum;
use crate::image::pack_channels;

verus! {

/// The number of pixels on one side of the square window of a radius.
pub open spec fn window_side(radius: nat) -> int {
    2 * (radius as int) + 1
}

/// Channel `c` of the pixels in the window around `(x, y)`: term `(i, j)` is
/// the pixel in row `i` and column `j` of the window, counted from its top left.
pub open spec fn window_channel(img: Image, radius: nat, x: int, y: int, c: Channel) -> spec_fn(
    int,
    int,
) -> int {
    |i: int, j: int| img.channel(x - radius + j, y - radius + i, c)
}

/// The mean of channel `c` over the window around `(x, y)`, rounded down.
pub open spec fn blur_channel(img: Image, radius: nat, x: int, y: int, c: Channel) -> int {
    let side = window_side(radius);
    grid_sum(window_channel(img, radius, x, y, c), side, side) / (side * side)
}

/// The box-blurred pixel at an interior coordinate: each channel is the mean
/// of that channel over the window.
pub open spec fn blur_pixel(img: Image, radius: nat, x: int, y: int) -> u32 {
    pack_channels(
        blur_channel(img, radius, x, y, Channel::Red),
        blur_channel(img, radius, x, y, Channel::Green),
        blur_channel(img, radius, x, y, Channel::Blue),
    )
}

/// What a box blur makes of each coordinate: the window mean in the interior,
/// the pixel itself within `radius` of a border.
pub open spec fn blur_map(img: Image, radius: nat) -> spec_fn(int, int) -> u32 {
    |x: int, y: int|
        if img.interior(radius, x, y) {
            blur_pixel(img, radius, x, y)
        } else {
            img.pixel(x, y)
        }
}

/// The box blur of an image.
pub open spec fn box_blurred(img: Image, radius: nat) -> Image {
    img.remapped(blur_map(img, radius))
}

} // verus!
