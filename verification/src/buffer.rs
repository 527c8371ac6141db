//! The pixel buffer: a row-major vector of packed colours, with its box blur.

use vstd::prelude::*;
use crate::blur::blur_map;
use crate::blur::blur_pixel;
use crate::blur::box_blurred;
use crate::blur::window_channel;
use crate::blur::window_side;
use crate::color::Channel;
use crate::color::Rgb;
use crate::color::pack_spec;
use crate::color::packed_color;
use crate::color::unpack_color;
use crate::image::Image;
use crate::image::grid_sum;
use crate::image::lemma_index_in_range;
use crate::image::lemma_index_unique;
use crate::image::lemma_remapped;
use crate::image::row_sum;

verus! {

/// A row-major buffer of packed pixels.
#[derive(Debug)]
pub struct Buffer {
    pub pixels: Vec<u32>,
    pub height: usize,
    pub width: usize,
}

impl View for Buffer {
    type V = Image;

    open spec fn view(&self) -> Image {
        Image { pixels: self.pixels@, width: self.width as nat, height: self.height as nat }
    }
}

impl Clone for Buffer {
    fn clone(&self) -> (copy: Buffer)
        ensures
            copy@ == self@,
            copy.width == self.width,
            copy.height == self.height,
            copy.wf() == self.wf(),
    {
        let pixels = self.pixels.clone();
        assert(pixels@ =~= self.pixels@);
        Buffer { pixels, height: self.height, width: self.width }
    }
}

/// A window term counted row after row stays below the size of the window.
proof fn lemma_window_count(side: int, i: int, j: int)
    requires
        0 <= i < side,
        0 <= j < side,
    ensures
        i * side + j < side * side,
        (i + 1) * side == i * side + side,
{
    assert(i * side + j < side * side && (i + 1) * side == i * side + side) by (nonlinear_arith)
        requires
            0 <= i < side,
            0 <= j < side,
    {
        assert((i + 1) * side <= side * side);
    }
}

/// A window that fits into an image has no more pixels than the image.
proof fn lemma_window_fits(side: int, width: int, height: int)
    requires
        0 <= side <= width,
        side <= height,
    ensures
        side * side <= width * height,
{
    assert(side * side <= width * height) by (nonlinear_arith)
        requires
            0 <= side <= width,
            side <= height,
    {
        assert(side * side <= side * height);
        assert(side * height <= width * height);
    }
}

impl Buffer {
    /// The buffer holds exactly `width * height` pixels.
    pub open spec fn wf(&self) -> bool {
        self.pixels.len() == self.width * self.height
    }

    /// A buffer of `height` rows of `width` pixels, all of them 0 (black).
    pub fn build(height: usize, width: usize) -> (buffer: Buffer)
        requires
            width * height <= usize::MAX,
        ensures
            buffer.height == height,
            buffer.width == width,
            buffer.wf(),
            forall|k: int| 0 <= k < buffer.pixels@.len() ==> buffer.pixels@[k] == 0,
    {
        Buffer { height, width, pixels: vec![0u32; width * height] }
    }

    /// Stores a colour, packed, in column `x` of row `y`.
    pub fn write_pixel(&mut self, x: usize, y: usize, color: Rgb)
        requires
            old(self).wf(),
            old(self)@.contains(x as int, y as int),
        ensures
            final(self).wf(),
            final(self).width == old(self).width,
            final(self).height == old(self).height,
            final(self).pixels@ == old(self).pixels@.update(y * old(self).width + x, pack_spec(color)),
    {
        proof {
            lemma_index_in_range(self.width as int, self.height as int, x as int, y as int);
        }
        let idx: usize = y * self.width + x;
        self.pixels.set(idx, packed_color(color));
    }

    /// The mean colour of the window of the given radius around an interior pixel.
    fn window_mean(&self, radius: usize, x: usize, y: usize) -> (mean: Rgb)
        requires
            self.wf(),
            self@.interior(radius as nat, x as int, y as int),
        ensures
            pack_spec(mean) == blur_pixel(self@, radius as nat, x as int, y as int),
    {
        let side: usize = 2 * radius + 1;
        let ghost img = self@;
        let ghost r = radius as nat;
        let ghost fr = window_channel(img, r, x as int, y as int, Channel::Red);
        let ghost fg = window_channel(img, r, x as int, y as int, Channel::Green);
        let ghost fb = window_channel(img, r, x as int, y as int, Channel::Blue);
        proof {
            lemma_window_fits(side as int, self.width as int, self.height as int);
        }
        let mut red: u128 = 0;
        let mut green: u128 = 0;
        let mut blue: u128 = 0;
        let mut count: u128 = 0;
        let mut i: usize = 0;
        while i < side
            invariant
                self@ == img,
                self.wf(),
                img.interior(r, x as int, y as int),
                r == radius,
                side == window_side(r),
                side * side <= usize::MAX,
                fr == window_channel(img, r, x as int, y as int, Channel::Red),
                fg == window_channel(img, r, x as int, y as int, Channel::Green),
                fb == window_channel(img, r, x as int, y as int, Channel::Blue),
                i <= side,
                count == i * side,
                red == grid_sum(fr, side as int, i as int),
                green == grid_sum(fg, side as int, i as int),
                blue == grid_sum(fb, side as int, i as int),
                red <= 255 * count,
                green <= 255 * count,
                blue <= 255 * count,
            decreases side - i,
        {
            let mut j: usize = 0;
            let ghost red0 = red;
            let ghost green0 = green;
            let ghost blue0 = blue;
            while j < side
                invariant
                    self@ == img,
                    self.wf(),
                    img.interior(r, x as int, y as int),
                    r == radius,
                    side == window_side(r),
                    side * side <= usize::MAX,
                    fr == window_channel(img, r, x as int, y as int, Channel::Red),
                    fg == window_channel(img, r, x as int, y as int, Channel::Green),
                    fb == window_channel(img, r, x as int, y as int, Channel::Blue),
                    i < side,
                    j <= side,
                    count == i * side + j,
                    red == red0 + row_sum(fr, i as int, j as int),
                    green == green0 + row_sum(fg, i as int, j as int),
                    blue == blue0 + row_sum(fb, i as int, j as int),
                    red <= 255 * count,
                    green <= 255 * count,
                    blue <= 255 * count,
                decreases side - j,
            {
                proof {
                    lemma_window_count(side as int, i as int, j as int);
                    lemma_index_in_range(
                        self.width as int,
                        self.height as int,
                        x - radius + j,
                        y - radius + i,
                    );
                }
                let idx: usize = (y - radius + i) * self.width + (x - radius + j);
                let rgb = unpack_color(self.pixels[idx]);
                red = red + rgb.red as u128;
                green = green + rgb.green as u128;
                blue = blue + rgb.blue as u128;
                count = count + 1;
                j = j + 1;
            }
            assert((i + 1) * side == i * side + side) by (nonlinear_arith);
            i = i + 1;
        }
        assert(count == side * side);
        assert(count > 0) by (nonlinear_arith)
            requires
                count == side * side,
                side > 0,
        ;
        proof {
            assert(red / count <= 255 && green / count <= 255 && blue / count <= 255)
                by (nonlinear_arith)
                requires
                    red <= 255 * count,
                    green <= 255 * count,
                    blue <= 255 * count,
                    count > 0,
            ;
        }
        Rgb { red: (red / count) as u8, green: (green / count) as u8, blue: (blue / count) as u8 }
    }

    /// Box blur: every pixel at least `radius` away from all four borders
    /// becomes the mean of the square window of that radius around it, each
    /// channel rounded down; the pixels nearer to a border keep their value.
    pub fn box_blur(&mut self, radius: usize)
        requires
            old(self).wf(),
        ensures
            final(self).wf(),
            final(self).width == old(self).width,
            final(self).height == old(self).height,
            final(self)@ == box_blurred(old(self)@, radius as nat),
    {
        let ghost img = self@;
        let ghost r = radius as nat;
        if radius > (usize::MAX - 1) / 2 || self.width < 2 * radius + 1 || self.height < 2 * radius
            + 1 {
            proof {
                lemma_remapped(img, img, blur_map(img, r));
            }
            return ;
        }
        let mut result = self.pixels.clone();
        assert(result@ =~= self.pixels@);
        let mut y: usize = radius;
        while y < self.height - radius
            invariant
                self@ == img,
                self.wf(),
                r == radius,
                2 * radius + 1 <= self.width,
                2 * radius + 1 <= self.height,
                radius <= y <= self.height - radius,
                result@.len() == img.pixels.len(),
                forall|px: int, py: int|
                    img.contains(px, py) ==> #[trigger] (Image {
                        pixels: result@,
                        width: img.width,
                        height: img.height,
                    }).pixel(px, py) == if py < y {
                        blur_map(img, r)(px, py)
                    } else {
                        img.pixel(px, py)
                    },
            decreases self.height - radius - y,
        {
            let mut x: usize = radius;
            while x < self.width - radius
                invariant
                    self@ == img,
                    self.wf(),
                    r == radius,
                    2 * radius + 1 <= self.width,
                    2 * radius + 1 <= self.height,
                    radius <= y < self.height - radius,
                    radius <= x <= self.width - radius,
                    result@.len() == img.pixels.len(),
                    forall|px: int, py: int|
                        img.contains(px, py) ==> #[trigger] (Image {
                            pixels: result@,
                            width: img.width,
                            height: img.height,
                        }).pixel(px, py) == if py < y || (py == y && px < x && radius <= px) {
                            blur_map(img, r)(px, py)
                        } else {
                            img.pixel(px, py)
                        },
                decreases self.width - radius - x,
            {
                let mean = self.window_mean(radius, x, y);
                proof {
                    lemma_index_in_range(self.width as int, self.height as int, x as int, y as int);
                }
                let idx: usize = y * self.width + x;
                let ghost before = Image { pixels: result@, width: img.width, height: img.height };
                result.set(idx, packed_color(mean));
                proof {
                    let after = Image { pixels: result@, width: img.width, height: img.height };
                    assert forall|px: int, py: int| img.contains(px, py) implies #[trigger] after.pixel(
                        px,
                        py,
                    ) == if py < y || (py == y && px < x + 1 && radius <= px) {
                        blur_map(img, r)(px, py)
                    } else {
                        img.pixel(px, py)
                    } by {
                        lemma_index_in_range(img.width as int, img.height as int, px, py);
                        if py * img.width + px == idx {
                            lemma_index_unique(img.width as int, px, py, x as int, y as int);
                        } else {
                            assert(after.pixel(px, py) == before.pixel(px, py));
                        }
                    }
                }
                x = x + 1;
            }
            proof {
                let after = Image { pixels: result@, width: img.width, height: img.height };
                assert forall|px: int, py: int| img.contains(px, py) implies #[trigger] after.pixel(
                    px,
                    py,
                ) == if py < y + 1 {
                    blur_map(img, r)(px, py)
                } else {
                    img.pixel(px, py)
                } by {}
            }
            y = y + 1;
        }
        self.pixels = result;
        proof {
            lemma_remapped(img, self@, blur_map(img, r));
        }
    }
}

} // verus!
