//! The denoiser: an iterated bilateral filter whose weights follow a blurred
//! guidance image. All of it is integer arithmetic: a weight is a whole number
//! of millionths, taken from two tables that the caller fills, one by the
//! distance of a neighbour in pixels and one by its distance in colour.

use vstd::prelude::*;
use crate::blur::box_blurred;
use crate::buffer::Buffer;
use crate::color::Channel;
use crate::color::Rgb;
use crate::color::pack_spec;
use crate::color::packed_color;
use crate::color::unpack_color;
use crate::color::unpack_spec;
use crate::image::Image;
use crate::image::grid_sum;
use crate::image::lemma_index_in_range;
use crate::image::lemma_index_unique;
use crate::image::lemma_remapped;
use crate::image::pack_channels;
use crate::image::row_sum;

verus! {

/// The radius of the square window that the denoiser reads around a pixel.
pub const DENOISE_RADIUS: usize = 3;

/// The number of pixels on one side of that window.
pub const DENOISE_SIDE: usize = 7;

/// The fixed-point value of the weight 1: a table entry `w` stands for `w / WEIGHT_ONE`.
pub const WEIGHT_ONE: u32 = 1_000_000;

/// The least divisor of a weighted sum: one ten-thousandth of a full weight,
/// on the scale of a product of two table entries.
pub const WEIGHT_FLOOR: u64 = 100_000_000;

/// The number of entries of a spatial table: one for each squared pixel
/// distance inside the window, 0 to 18.
pub const SPATIAL_ENTRIES: usize = 19;

/// The number of entries of a range table: one for each squared distance
/// between two colours, 0 to 3 * 255 * 255.
pub const RANGE_ENTRIES: usize = 195_076;

/// The two weight tables of one filter pass, as plain sequences.
pub struct KernelView {
    /// The weight of a neighbour by its squared pixel distance from the centre.
    pub spatial: Seq<u32>,
    /// The weight of a neighbour by the squared distance between its guidance
    /// colour and that of the centre.
    pub range: Seq<u32>,
}

impl KernelView {
    /// Both tables are complete and no entry exceeds the full weight.
    pub open spec fn wf(self) -> bool {
        &&& self.spatial.len() == SPATIAL_ENTRIES
        &&& self.range.len() == RANGE_ENTRIES
        &&& forall|d: int| 0 <= d < self.spatial.len() ==> #[trigger] self.spatial[d] <= WEIGHT_ONE
        &&& forall|d: int| 0 <= d < self.range.len() ==> #[trigger] self.range[d] <= WEIGHT_ONE
    }

    /// The weight of the centre pixel: both distances are 0 there.
    pub open spec fn centre_weight(self) -> int {
        self.spatial[0] as int * self.range[0] as int
    }
}

/// The weight tables of one filter pass.
#[derive(Debug)]
pub struct Kernel {
    spatial: Vec<u32>,
    range: Vec<u32>,
}

impl View for Kernel {
    type V = KernelView;

    closed spec fn view(&self) -> KernelView {
        KernelView { spatial: self.spatial@, range: self.range@ }
    }
}

impl Clone for Kernel {
    fn clone(&self) -> (copy: Kernel)
        ensures
            copy@ == self@,
    {
        proof {
            use_type_invariant(self);
        }
        let spatial = self.spatial.clone();
        let range = self.range.clone();
        assert(spatial@ =~= self.spatial@);
        assert(range@ =~= self.range@);
        Kernel { spatial, range }
    }
}

/// Whether every entry of a table is at most the full weight.
fn within_full_weight(table: &Vec<u32>) -> (ok: bool)
    ensures
        ok <==> forall|d: int| 0 <= d < table@.len() ==> #[trigger] table@[d] <= WEIGHT_ONE,
{
    let mut d: usize = 0;
    while d < table.len()
        invariant
            d <= table@.len(),
            forall|e: int| 0 <= e < d ==> #[trigger] table@[e] <= WEIGHT_ONE,
        decreases table@.len() - d,
    {
        if table[d] > WEIGHT_ONE {
            return false;
        }
        d = d + 1;
    }
    true
}

impl Kernel {
    #[verifier::type_invariant]
    spec fn inv(self) -> bool {
        self@.wf()
    }

    /// A kernel of the two tables, where they are complete and within the full weight.
    pub fn build(spatial: Vec<u32>, range: Vec<u32>) -> (kernel: Option<Kernel>)
        ensures
            kernel is Some <==> (KernelView { spatial: spatial@, range: range@ }).wf(),
            kernel is Some ==> kernel->Some_0@ == (KernelView { spatial: spatial@, range: range@ }),
    {
        if spatial.len() == SPATIAL_ENTRIES && range.len() == RANGE_ENTRIES && within_full_weight(
            &spatial,
        ) && within_full_weight(&range) {
            Some(Kernel { spatial, range })
        } else {
            None
        }
    }

    /// The entry of the spatial table for a squared pixel distance.
    pub fn spatial_weight(&self, distance: usize) -> (w: u32)
        requires
            distance < SPATIAL_ENTRIES,
        ensures
            w == self@.spatial[distance as int],
            w <= WEIGHT_ONE,
            self@.wf(),
    {
        proof {
            use_type_invariant(self);
        }
        self.spatial[distance]
    }

    /// The entry of the range table for a squared colour distance.
    pub fn range_weight(&self, distance: usize) -> (w: u32)
        requires
            distance < RANGE_ENTRIES,
        ensures
            w == self@.range[distance as int],
            w <= WEIGHT_ONE,
            self@.wf(),
    {
        proof {
            use_type_invariant(self);
        }
        self.range[distance]
    }
}

/// The squared distance between two colours: the sum of the squares of the
/// differences of their channels.
pub open spec fn color_distance(a: Rgb, b: Rgb) -> int {
    (a.red - b.red) * (a.red - b.red) + (a.green - b.green) * (a.green - b.green) + (a.blue
        - b.blue) * (a.blue - b.blue)
}

/// The squared distance of window term `(i, j)` from the centre of the window.
pub open spec fn pixel_distance(i: int, j: int) -> int {
    (i - DENOISE_RADIUS) * (i - DENOISE_RADIUS) + (j - DENOISE_RADIUS) * (j - DENOISE_RADIUS)
}

/// The weight of each neighbour in the window around `(x, y)`: the product of
/// its spatial weight and of the range weight of its guidance colour against
/// the guidance colour of the centre.
pub open spec fn pass_weight(guide: Image, kernel: KernelView, x: int, y: int) -> spec_fn(
    int,
    int,
) -> int {
    |i: int, j: int|
        kernel.spatial[pixel_distance(i, j)] as int * kernel.range[color_distance(
            unpack_spec(guide.pixel(x - DENOISE_RADIUS + j, y - DENOISE_RADIUS + i)),
            unpack_spec(guide.pixel(x, y)),
        )] as int
}

/// Channel `c` of each neighbour in the window around `(x, y)`, times its weight.
pub open spec fn pass_weighted(
    img: Image,
    guide: Image,
    kernel: KernelView,
    x: int,
    y: int,
    c: Channel,
) -> spec_fn(int, int) -> int {
    |i: int, j: int|
        pass_weight(guide, kernel, x, y)(i, j) * img.channel(
            x - DENOISE_RADIUS + j,
            y - DENOISE_RADIUS + i,
            c,
        )
}

/// The sum of the weights of the window around `(x, y)`.
pub open spec fn pass_total(guide: Image, kernel: KernelView, x: int, y: int) -> int {
    grid_sum(pass_weight(guide, kernel, x, y), DENOISE_SIDE as int, DENOISE_SIDE as int)
}

/// The divisor of the weighted sums: the sum of the weights, or the floor where it is below it.
pub open spec fn pass_divisor(guide: Image, kernel: KernelView, x: int, y: int) -> int {
    let total = pass_total(guide, kernel, x, y);
    if total < WEIGHT_FLOOR {
        WEIGHT_FLOOR as int
    } else {
        total
    }
}

/// The filtered value of channel `c` at `(x, y)`: the weighted sum of the
/// channel over the window, divided by the divisor and rounded down.
pub open spec fn pass_channel(
    img: Image,
    guide: Image,
    kernel: KernelView,
    x: int,
    y: int,
    c: Channel,
) -> int {
    grid_sum(pass_weighted(img, guide, kernel, x, y, c), DENOISE_SIDE as int, DENOISE_SIDE as int)
        / pass_divisor(guide, kernel, x, y)
}

/// The filtered pixel at an interior coordinate.
pub open spec fn pass_pixel(img: Image, guide: Image, kernel: KernelView, x: int, y: int) -> u32 {
    pack_channels(
        pass_channel(img, guide, kernel, x, y, Channel::Red),
        pass_channel(img, guide, kernel, x, y, Channel::Green),
        pass_channel(img, guide, kernel, x, y, Channel::Blue),
    )
}

/// What one pass makes of each coordinate: the filtered pixel in the interior,
/// the pixel itself within the radius of a border.
pub open spec fn pass_map(img: Image, guide: Image, kernel: KernelView) -> spec_fn(int, int) -> u32 {
    |x: int, y: int|
        if img.interior(DENOISE_RADIUS as nat, x, y) {
            pass_pixel(img, guide, kernel, x, y)
        } else {
            img.pixel(x, y)
        }
}

/// One pass of the filter over an image, with weights taken from a guidance image.
pub open spec fn guided_pass(img: Image, guide: Image, kernel: KernelView) -> Image {
    img.remapped(pass_map(img, guide, kernel))
}

/// One iteration of the denoiser: a pass guided by the box blur of the image itself.
pub open spec fn bilateral_pass(img: Image, kernel: KernelView) -> Image {
    guided_pass(img, box_blurred(img, DENOISE_RADIUS as nat), kernel)
}

/// The image after one iteration for each kernel, in their order.
pub open spec fn denoised(img: Image, kernels: Seq<Kernel>) -> Image
    decreases kernels.len(),
{
    if kernels.len() == 0 {
        img
    } else {
        bilateral_pass(denoised(img, kernels.drop_last()), kernels.last()@)
    }
}

/// The squared distance of window term `(i, j)` from the centre of the window.
fn offset_distance(i: usize, j: usize) -> (d: usize)
    requires
        i < DENOISE_SIDE,
        j < DENOISE_SIDE,
    ensures
        d == pixel_distance(i as int, j as int),
        d < SPATIAL_ENTRIES,
{
    let di: usize = if i >= DENOISE_RADIUS {
        i - DENOISE_RADIUS
    } else {
        DENOISE_RADIUS - i
    };
    let dj: usize = if j >= DENOISE_RADIUS {
        j - DENOISE_RADIUS
    } else {
        DENOISE_RADIUS - j
    };
    assert(di * di == (i - 3) * (i - 3) && di * di <= 9) by (nonlinear_arith)
        requires
            di <= 3,
            di == i - 3 || di == 3 - i,
    ;
    assert(dj * dj == (j - 3) * (j - 3) && dj * dj <= 9) by (nonlinear_arith)
        requires
            dj <= 3,
            dj == j - 3 || dj == 3 - j,
    ;
    di * di + dj * dj
}

/// The square of the difference of two channel values.
fn squared_difference(a: u8, b: u8) -> (d: usize)
    ensures
        d == (a - b) * (a - b),
        d <= 65025,
{
    let diff: usize = if a >= b {
        (a - b) as usize
    } else {
        (b - a) as usize
    };
    assert(diff * diff == (a - b) * (a - b) && diff * diff <= 65025) by (nonlinear_arith)
        requires
            diff <= 255,
            diff == a - b || diff == b - a,
    ;
    diff * diff
}

/// The squared distance between two colours.
pub fn squared_color_distance(a: Rgb, b: Rgb) -> (d: usize)
    ensures
        d == color_distance(a, b),
        d < RANGE_ENTRIES,
{
    squared_difference(a.red, b.red) + squared_difference(a.green, b.green) + squared_difference(
        a.blue,
        b.blue,
    )
}

impl Buffer {
    /// The weighted mean colour of the window around an interior pixel, with
    /// the weights that `kernel` gives for the colours of `guide`.
    fn weighted_mean(&self, guide: &Buffer, kernel: &Kernel, x: usize, y: usize) -> (mean: Rgb)
        requires
            self.wf(),
            guide.wf(),
            guide.width == self.width,
            guide.height == self.height,
            self@.interior(DENOISE_RADIUS as nat, x as int, y as int),
        ensures
            pack_spec(mean) == pass_pixel(self@, guide@, kernel@, x as int, y as int),
    {
        let ghost img = self@;
        let ghost gd = guide@;
        let ghost kv = kernel@;
        let ghost fw = pass_weight(gd, kv, x as int, y as int);
        let ghost fr = pass_weighted(img, gd, kv, x as int, y as int, Channel::Red);
        let ghost fg = pass_weighted(img, gd, kv, x as int, y as int, Channel::Green);
        let ghost fb = pass_weighted(img, gd, kv, x as int, y as int, Channel::Blue);
        proof {
            lemma_index_in_range(self.width as int, self.height as int, x as int, y as int);
        }
        let centre = unpack_color(guide.pixels[y * self.width + x]);
        let mut total: u64 = 0;
        let mut red: u64 = 0;
        let mut green: u64 = 0;
        let mut blue: u64 = 0;
        let mut i: usize = 0;
        while i < DENOISE_SIDE
            invariant
                self@ == img,
                guide@ == gd,
                kernel@ == kv,
                self.wf(),
                guide.wf(),
                gd.width == img.width,
                gd.height == img.height,
                img.interior(DENOISE_RADIUS as nat, x as int, y as int),
                centre == unpack_spec(gd.pixel(x as int, y as int)),
                fw == pass_weight(gd, kv, x as int, y as int),
                fr == pass_weighted(img, gd, kv, x as int, y as int, Channel::Red),
                fg == pass_weighted(img, gd, kv, x as int, y as int, Channel::Green),
                fb == pass_weighted(img, gd, kv, x as int, y as int, Channel::Blue),
                i <= DENOISE_SIDE,
                total == grid_sum(fw, DENOISE_SIDE as int, i as int),
                red == grid_sum(fr, DENOISE_SIDE as int, i as int),
                green == grid_sum(fg, DENOISE_SIDE as int, i as int),
                blue == grid_sum(fb, DENOISE_SIDE as int, i as int),
                total <= 7 * i * 1_000_000_000_000,
                red <= 255 * total,
                green <= 255 * total,
                blue <= 255 * total,
            decreases DENOISE_SIDE - i,
        {
            let ghost total0 = total;
            let ghost red0 = red;
            let ghost green0 = green;
            let ghost blue0 = blue;
            let mut j: usize = 0;
            while j < DENOISE_SIDE
                invariant
                    self@ == img,
                    guide@ == gd,
                    kernel@ == kv,
                    self.wf(),
                    guide.wf(),
                    gd.width == img.width,
                    gd.height == img.height,
                    img.interior(DENOISE_RADIUS as nat, x as int, y as int),
                    centre == unpack_spec(gd.pixel(x as int, y as int)),
                    fw == pass_weight(gd, kv, x as int, y as int),
                    fr == pass_weighted(img, gd, kv, x as int, y as int, Channel::Red),
                    fg == pass_weighted(img, gd, kv, x as int, y as int, Channel::Green),
                    fb == pass_weighted(img, gd, kv, x as int, y as int, Channel::Blue),
                    i < DENOISE_SIDE,
                    j <= DENOISE_SIDE,
                    total == total0 + row_sum(fw, i as int, j as int),
                    red == red0 + row_sum(fr, i as int, j as int),
                    green == green0 + row_sum(fg, i as int, j as int),
                    blue == blue0 + row_sum(fb, i as int, j as int),
                    total <= (7 * i + j) * 1_000_000_000_000,
                    red <= 255 * total,
                    green <= 255 * total,
                    blue <= 255 * total,
                decreases DENOISE_SIDE - j,
            {
                proof {
                    lemma_index_in_range(
                        self.width as int,
                        self.height as int,
                        x - DENOISE_RADIUS + j,
                        y - DENOISE_RADIUS + i,
                    );
                }
                let idx: usize = (y - DENOISE_RADIUS + i) * self.width + (x - DENOISE_RADIUS + j);
                let shade = unpack_color(self.pixels[idx]);
                let near = unpack_color(guide.pixels[idx]);
                let by_place: u64 = kernel.spatial_weight(offset_distance(i, j)) as u64;
                let by_color: u64 = kernel.range_weight(squared_color_distance(near, centre)) as u64;
                assert(by_place * by_color <= 1_000_000_000_000) by (nonlinear_arith)
                    requires
                        by_place <= 1_000_000,
                        by_color <= 1_000_000,
                ;
                let weight: u64 = by_place * by_color;
                assert(weight == fw(i as int, j as int));
                let r: u64 = shade.red as u64;
                let g: u64 = shade.green as u64;
                let b: u64 = shade.blue as u64;
                assert(weight * r <= 255 * weight && weight * g <= 255 * weight && weight * b <= 255
                    * weight) by (nonlinear_arith)
                    requires
                        r <= 255,
                        g <= 255,
                        b <= 255,
                        weight >= 0,
                ;
                assert(weight * r == fr(i as int, j as int));
                assert(weight * g == fg(i as int, j as int));
                assert(weight * b == fb(i as int, j as int));
                total = total + weight;
                red = red + weight * r;
                green = green + weight * g;
                blue = blue + weight * b;
                j = j + 1;
            }
            i = i + 1;
        }
        let divisor: u64 = if total < WEIGHT_FLOOR {
            WEIGHT_FLOOR
        } else {
            total
        };
        proof {
            assert(red / divisor <= 255 && green / divisor <= 255 && blue / divisor <= 255)
                by (nonlinear_arith)
                requires
                    red <= 255 * total,
                    green <= 255 * total,
                    blue <= 255 * total,
                    total <= divisor,
                    divisor > 0,
            ;
        }
        Rgb {
            red: (red / divisor) as u8,
            green: (green / divisor) as u8,
            blue: (blue / divisor) as u8,
        }
    }

    /// One pass of the filter: every pixel at least the denoiser's radius away
    /// from all four borders becomes the weighted mean of its window, with the
    /// weights that `kernel` gives for the colours of `guide`; the pixels
    /// nearer to a border keep their value.
    pub fn guided_filter(&mut self, guide: &Buffer, kernel: &Kernel)
        requires
            old(self).wf(),
            guide.wf(),
            guide.width == old(self).width,
            guide.height == old(self).height,
        ensures
            final(self).wf(),
            final(self).width == old(self).width,
            final(self).height == old(self).height,
            final(self)@ == guided_pass(old(self)@, guide@, kernel@),
    {
        let ghost img = self@;
        let ghost gd = guide@;
        let ghost kv = kernel@;
        if self.width < DENOISE_SIDE || self.height < DENOISE_SIDE {
            proof {
                lemma_remapped(img, img, pass_map(img, gd, kv));
            }
            return ;
        }
        let mut result = self.pixels.clone();
        assert(result@ =~= self.pixels@);
        let mut y: usize = DENOISE_RADIUS;
        while y < self.height - DENOISE_RADIUS
            invariant
                self@ == img,
                guide@ == gd,
                kernel@ == kv,
                self.wf(),
                guide.wf(),
                gd.width == img.width,
                gd.height == img.height,
                DENOISE_SIDE <= self.width,
                DENOISE_SIDE <= self.height,
                DENOISE_RADIUS <= y <= self.height - DENOISE_RADIUS,
                result@.len() == img.pixels.len(),
                forall|px: int, py: int|
                    img.contains(px, py) ==> #[trigger] (Image {
                        pixels: result@,
                        width: img.width,
                        height: img.height,
                    }).pixel(px, py) == if py < y {
                        pass_map(img, gd, kv)(px, py)
                    } else {
                        img.pixel(px, py)
                    },
            decreases self.height - DENOISE_RADIUS - y,
        {
            let mut x: usize = DENOISE_RADIUS;
            while x < self.width - DENOISE_RADIUS
                invariant
                    self@ == img,
                    guide@ == gd,
                    kernel@ == kv,
                    self.wf(),
                    guide.wf(),
                    gd.width == img.width,
                    gd.height == img.height,
                    DENOISE_SIDE <= self.width,
                    DENOISE_SIDE <= self.height,
                    DENOISE_RADIUS <= y < self.height - DENOISE_RADIUS,
                    DENOISE_RADIUS <= x <= self.width - DENOISE_RADIUS,
                    result@.len() == img.pixels.len(),
                    forall|px: int, py: int|
                        img.contains(px, py) ==> #[trigger] (Image {
                            pixels: result@,
                            width: img.width,
                            height: img.height,
                        }).pixel(px, py) == if py < y || (py == y && px < x && DENOISE_RADIUS
                            <= px) {
                            pass_map(img, gd, kv)(px, py)
                        } else {
                            img.pixel(px, py)
                        },
                decreases self.width - DENOISE_RADIUS - x,
            {
                let mean = self.weighted_mean(guide, kernel, x, y);
                proof {
                    lemma_index_in_range(self.width as int, self.height as int, x as int, y as int);
                }
                let idx: usize = y * self.width + x;
                let ghost before = Image { pixels: result@, width: img.width, height: img.height };
                result.set(idx, packed_color(mean));
                proof {
                    let after = Image { pixels: result@, width: img.width, height: img.height };
                    assert forall|px: int, py: int| img.contains(px, py) implies #[trigger] after.pixel(
                        px,
                        py,
                    ) == if py < y || (py == y && px < x + 1 && DENOISE_RADIUS <= px) {
                        pass_map(img, gd, kv)(px, py)
                    } else {
                        img.pixel(px, py)
                    } by {
                        lemma_index_in_range(img.width as int, img.height as int, px, py);
                        if py * img.width + px == idx {
                            lemma_index_unique(img.width as int, px, py, x as int, y as int);
                        } else {
                            assert(after.pixel(px, py) == before.pixel(px, py));
                        }
                    }
                }
                x = x + 1;
            }
            y = y + 1;
        }
        self.pixels = result;
        proof {
            lemma_remapped(img, self@, pass_map(img, gd, kv));
        }
    }

    /// The denoiser: one iteration for each kernel, in their order. An
    /// iteration box-blurs a copy of the buffer into a guidance image and then
    /// replaces every interior pixel by the weighted mean of its window, the
    /// weights taken from the kernel by pixel distance and by the distance of
    /// the guidance colours. With no kernel the buffer stays as it is.
    pub fn bilateral_denoise(&mut self, kernels: &Vec<Kernel>)
        requires
            old(self).wf(),
        ensures
            final(self).wf(),
            final(self).width == old(self).width,
            final(self).height == old(self).height,
            final(self)@ == denoised(old(self)@, kernels@),
    {
        let ghost img = self@;
        let mut k: usize = 0;
        while k < kernels.len()
            invariant
                k <= kernels@.len(),
                self.wf(),
                self.width == img.width,
                self.height == img.height,
                self@ == denoised(img, kernels@.take(k as int)),
            decreases kernels@.len() - k,
        {
            let mut guidance = self.clone();
            guidance.box_blur(DENOISE_RADIUS);
            self.guided_filter(&guidance, &kernels[k]);
            proof {
                let next = kernels@.take(k + 1);
                assert(next.drop_last() =~= kernels@.take(k as int));
                assert(next.last() == kernels@[k as int]);
            }
            k = k + 1;
        }
        assert(kernels@.take(k as int) =~= kernels@);
    }
}

} // verus!
