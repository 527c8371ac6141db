//! What the filters keep: they mix the colours of a window and make no new
//! one, so bounds on a channel survive them, and an image of one colour
//! comes out as it went in.

use vstd::prelude::*;
use crate::blur::blur_channel;
use crate::blur::blur_map;
use crate::blur::box_blurred;
use crate::blur::window_channel;
use crate::blur::window_side;
use crate::color::Channel;
use crate::color::Rgb;
use crate::color::lemma_pack_unpack;
use crate::color::lemma_unpack_pack;
use crate::color::unpack_spec;
use crate::denoise::DENOISE_RADIUS;
use crate::denoise::DENOISE_SIDE;
use crate::denoise::Kernel;
use crate::denoise::KernelView;
use crate::denoise::WEIGHT_FLOOR;
use crate::denoise::color_distance;
use crate::denoise::denoised;
use crate::denoise::guided_pass;
use crate::denoise::pass_channel;
use crate::denoise::pass_divisor;
use crate::denoise::pass_map;
use crate::denoise::pass_total;
use crate::denoise::pass_weight;
use crate::denoise::pass_weighted;
use crate::denoise::pixel_distance;
use crate::image::Image;
use crate::image::grid_sum;
use crate::image::lemma_coordinates;
use crate::image::lemma_grid_sum_between;
use crate::image::lemma_grid_sum_covers;
use crate::image::lemma_quotient_between;
use crate::image::lemma_remapped_pixel;
use crate::image::lemma_index_in_range;
use crate::image::pack_channels;
use crate::image::row_sum;

verus! {

/// Every pixel of the window of the given radius around `(x, y)` has channel
/// `c` between `lo` and `hi`.
pub open spec fn window_between(
    img: Image,
    radius: nat,
    x: int,
    y: int,
    c: Channel,
    lo: int,
    hi: int,
) -> bool {
    forall|nx: int, ny: int|
        x - radius <= nx <= x + radius && y - radius <= ny <= y + radius ==> lo
            <= #[trigger] img.channel(nx, ny, c) <= hi
}

/// Every pixel of the image has channel `c` between `lo` and `hi`.
pub open spec fn image_between(img: Image, c: Channel, lo: int, hi: int) -> bool {
    forall|x: int, y: int| img.contains(x, y) ==> lo <= #[trigger] img.channel(x, y, c) <= hi
}

/// A channel of a pixel packed from three channel values between 0 and 255 is that value.
pub proof fn lemma_pack_channels(red: int, green: int, blue: int)
    requires
        0 <= red <= 255,
        0 <= green <= 255,
        0 <= blue <= 255,
    ensures
        unpack_spec(pack_channels(red, green, blue)) == (Rgb {
            red: red as u8,
            green: green as u8,
            blue: blue as u8,
        }),
        unpack_spec(pack_channels(red, green, blue)).channel(Channel::Red) == red,
        unpack_spec(pack_channels(red, green, blue)).channel(Channel::Green) == green,
        unpack_spec(pack_channels(red, green, blue)).channel(Channel::Blue) == blue,
{
    lemma_unpack_pack(Rgb { red: red as u8, green: green as u8, blue: blue as u8 });
}

/// The box-blurred value of a channel at an interior pixel lies between 0 and
/// 255, and between any two bounds that hold of the channel over the window.
pub proof fn lemma_blur_channel_between(
    img: Image,
    radius: nat,
    x: int,
    y: int,
    c: Channel,
    lo: int,
    hi: int,
)
    requires
        window_between(img, radius, x, y, c, lo, hi),
    ensures
        0 <= blur_channel(img, radius, x, y, c) <= 255,
        lo <= blur_channel(img, radius, x, y, c) <= hi,
{
    let side = window_side(radius);
    let ones = |i: int, j: int| 1int;
    let f = window_channel(img, radius, x, y, c);
    let lo2 = if lo < 0 {
        0
    } else {
        lo
    };
    let hi2 = if hi > 255 {
        255
    } else {
        hi
    };
    assert forall|i: int, j: int| 0 <= i < side && 0 <= j < side implies lo2 * #[trigger] ones(i, j)
        <= f(i, j) by {
        assert(lo <= img.channel(x - radius + j, y - radius + i, c));
    }
    assert forall|i: int, j: int| 0 <= i < side && 0 <= j < side implies #[trigger] f(i, j) <= hi2
        * ones(i, j) by {
        assert(img.channel(x - radius + j, y - radius + i, c) <= hi);
        assert(f(i, j) == img.channel(x - radius + j, y - radius + i, c));
        assert(f(i, j) <= 255);
        assert(ones(i, j) == 1);
    }
    lemma_grid_sum_between(ones, f, side, side, lo2, hi2);
    assert forall|i: int, j: int| 0 <= i < side && 0 <= j < side implies 0 <= #[trigger] ones(
        i,
        j,
    ) by {}
    lemma_grid_sum_covers(ones, side, side, 0, 0);
    assert(ones(0, 0) == 1);
    lemma_count(side, side);
    assert(side * side > 0) by (nonlinear_arith)
        requires
            side > 0,
    ;
    lemma_quotient_between(grid_sum(f, side, side), side * side, lo2, hi2);
}

/// A grid of ones sums to the number of its terms.
proof fn lemma_count(side: int, m: int)
    requires
        0 <= side,
        0 <= m,
    ensures
        grid_sum(|i: int, j: int| 1int, side, m) == side * m,
    decreases m,
{
    let ones = |i: int, j: int| 1int;
    if m > 0 {
        lemma_count(side, m - 1);
        lemma_row_count(m - 1, side);
        assert(side * m == side * (m - 1) + side) by (nonlinear_arith);
    } else {
        assert(side * 0 == 0);
    }
}

/// A row of ones sums to the number of its terms.
proof fn lemma_row_count(i: int, n: int)
    requires
        0 <= n,
    ensures
        row_sum(|i: int, j: int| 1int, i, n) == n,
    decreases n,
{
    if n > 0 {
        lemma_row_count(i, n - 1);
    }
}

/// A box blur keeps every pixel that is within `radius` of a border.
pub proof fn lemma_blur_keeps_border(img: Image, radius: nat, x: int, y: int)
    requires
        img.wf(),
        img.contains(x, y),
        !img.interior(radius, x, y),
    ensures
        box_blurred(img, radius).pixel(x, y) == img.pixel(x, y),
{
    lemma_remapped_pixel(img, blur_map(img, radius), x, y);
}

/// A box blur is a mean: at an interior pixel, each channel of the result
/// lies between any two bounds that hold of that channel over the window
/// around the pixel, so between its least and its greatest value there.
pub proof fn lemma_blur_between(
    img: Image,
    radius: nat,
    x: int,
    y: int,
    c: Channel,
    lo: int,
    hi: int,
)
    requires
        img.wf(),
        img.interior(radius, x, y),
        window_between(img, radius, x, y, c, lo, hi),
    ensures
        lo <= box_blurred(img, radius).channel(x, y, c) <= hi,
{
    lemma_remapped_pixel(img, blur_map(img, radius), x, y);
    lemma_blur_channel_between(img, radius, x, y, Channel::Red, 0, 255);
    lemma_blur_channel_between(img, radius, x, y, Channel::Green, 0, 255);
    lemma_blur_channel_between(img, radius, x, y, Channel::Blue, 0, 255);
    lemma_blur_channel_between(img, radius, x, y, c, lo, hi);
    lemma_pack_channels(
        blur_channel(img, radius, x, y, Channel::Red),
        blur_channel(img, radius, x, y, Channel::Green),
        blur_channel(img, radius, x, y, Channel::Blue),
    );
}

/// An image of one 24-bit colour comes out of a box blur as it went in.
pub proof fn lemma_uniform_blur_kept(img: Image, radius: nat, color: u32)
    requires
        img.wf(),
        color < 0x100_0000,
        forall|k: int| 0 <= k < img.pixels.len() ==> img.pixels[k] == color,
    ensures
        box_blurred(img, radius) == img,
{
    let out = box_blurred(img, radius);
    let rgb = unpack_spec(color);
    assert forall|x: int, y: int| img.contains(x, y) implies #[trigger] img.pixel(x, y) == color by {
        lemma_index_in_range(img.width as int, img.height as int, x, y);
    }
    assert forall|k: int| 0 <= k < out.pixels.len() implies out.pixels[k] == img.pixels[k] by {
        let x = k % (img.width as int);
        let y = k / (img.width as int);
        lemma_coordinates(img, k);
        lemma_remapped_pixel(img, blur_map(img, radius), x, y);
        if img.interior(radius, x, y) {
            assert forall|nx: int, ny: int|
                x - radius <= nx <= x + radius && y - radius <= ny <= y + radius implies img.pixel(
                nx,
                ny,
            ) == color by {
                assert(img.contains(nx, ny));
            }
            lemma_blur_channel_between(img, radius, x, y, Channel::Red, rgb.red as int, rgb.red as int);
            lemma_blur_channel_between(
                img,
                radius,
                x,
                y,
                Channel::Green,
                rgb.green as int,
                rgb.green as int,
            );
            lemma_blur_channel_between(
                img,
                radius,
                x,
                y,
                Channel::Blue,
                rgb.blue as int,
                rgb.blue as int,
            );
            lemma_pack_unpack(color);
        }
    }
    assert(out.pixels =~= img.pixels);
}

/// The weights of a window are never negative, and neither are the weighted channel values.
proof fn lemma_weights_not_negative(
    img: Image,
    guide: Image,
    kernel: KernelView,
    x: int,
    y: int,
    c: Channel,
)
    ensures
        forall|i: int, j: int| 0 <= #[trigger] pass_weight(guide, kernel, x, y)(i, j),
        forall|i: int, j: int| 0 <= #[trigger] pass_weighted(img, guide, kernel, x, y, c)(i, j),
{
    assert forall|i: int, j: int| 0 <= #[trigger] pass_weight(guide, kernel, x, y)(i, j) by {
        let a = kernel.spatial[pixel_distance(i, j)] as int;
        let b = kernel.range[color_distance(
            unpack_spec(guide.pixel(x - DENOISE_RADIUS + j, y - DENOISE_RADIUS + i)),
            unpack_spec(guide.pixel(x, y)),
        )] as int;
        assert(0 <= a * b) by (nonlinear_arith)
            requires
                0 <= a,
                0 <= b,
        ;
    }
    assert forall|i: int, j: int| 0 <= #[trigger] pass_weighted(img, guide, kernel, x, y, c)(
        i,
        j,
    ) by {
        let w = pass_weight(guide, kernel, x, y)(i, j);
        let v = img.channel(x - DENOISE_RADIUS + j, y - DENOISE_RADIUS + i, c);
        assert(0 <= w * v) by (nonlinear_arith)
            requires
                0 <= w,
                0 <= v,
        ;
    }
}

/// The filtered value of a channel at a pixel lies between 0 and 255 and
/// under any upper bound that holds of the channel over the window; it lies
/// over any lower bound that holds there too, where the weights of the window
/// sum to the floor or more.
pub proof fn lemma_pass_channel_between(
    img: Image,
    guide: Image,
    kernel: KernelView,
    x: int,
    y: int,
    c: Channel,
    lo: int,
    hi: int,
)
    requires
        window_between(img, DENOISE_RADIUS as nat, x, y, c, lo, hi),
    ensures
        0 <= pass_channel(img, guide, kernel, x, y, c) <= 255,
        pass_channel(img, guide, kernel, x, y, c) <= hi,
        pass_total(guide, kernel, x, y) >= WEIGHT_FLOOR ==> lo <= pass_channel(
            img,
            guide,
            kernel,
            x,
            y,
            c,
        ),
{
    let side = DENOISE_SIDE as int;
    let fw = pass_weight(guide, kernel, x, y);
    let fc = pass_weighted(img, guide, kernel, x, y, c);
    let lo2 = if lo < 0 {
        0
    } else {
        lo
    };
    let hi2 = if hi > 255 {
        255
    } else {
        hi
    };
    lemma_weights_not_negative(img, guide, kernel, x, y, c);
    assert(lo <= img.channel(x, y, c) <= hi);
    assert(0 <= hi2);
    assert forall|i: int, j: int| 0 <= i < side && 0 <= j < side implies lo2 * #[trigger] fw(i, j)
        <= fc(i, j) by {
        let w = fw(i, j);
        let v = img.channel(x - DENOISE_RADIUS + j, y - DENOISE_RADIUS + i, c);
        assert(lo <= v);
        assert(fc(i, j) == w * v);
        assert(lo2 * w <= w * v) by (nonlinear_arith)
            requires
                0 <= w,
                lo2 <= v,
        ;
    }
    assert forall|i: int, j: int| 0 <= i < side && 0 <= j < side implies #[trigger] fc(i, j) <= hi2
        * fw(i, j) by {
        let w = fw(i, j);
        let v = img.channel(x - DENOISE_RADIUS + j, y - DENOISE_RADIUS + i, c);
        assert(v <= hi);
        assert(fc(i, j) == w * v);
        assert(w * v <= hi2 * w) by (nonlinear_arith)
            requires
                0 <= w,
                v <= hi2,
        ;
    }
    lemma_grid_sum_between(fw, fc, side, side, lo2, hi2);
    lemma_grid_sum_covers(fw, side, side, 0, 0);
    lemma_grid_sum_covers(fc, side, side, 0, 0);
    let total = pass_total(guide, kernel, x, y);
    let sum = grid_sum(fc, side, side);
    let divisor = pass_divisor(guide, kernel, x, y);
    assert(hi2 * total <= hi2 * divisor) by (nonlinear_arith)
        requires
            0 <= hi2,
            total <= divisor,
    ;
    assert(0 * divisor == 0);
    lemma_quotient_between(sum, divisor, 0, hi2);
    if total >= WEIGHT_FLOOR {
        lemma_quotient_between(sum, divisor, lo2, hi2);
    }
}

/// Where the weight of the centre pixel is the floor or more, so is the sum
/// of the weights of every window.
pub proof fn lemma_centre_weight_floors_total(guide: Image, kernel: KernelView, x: int, y: int)
    requires
        kernel.centre_weight() >= WEIGHT_FLOOR,
    ensures
        pass_total(guide, kernel, x, y) >= WEIGHT_FLOOR,
{
    let side = DENOISE_SIDE as int;
    let fw = pass_weight(guide, kernel, x, y);
    lemma_weights_not_negative(guide, guide, kernel, x, y, Channel::Red);
    lemma_grid_sum_covers(fw, side, side, 3, 3);
    assert(pixel_distance(3, 3) == 0);
    let centre = unpack_spec(guide.pixel(x, y));
    assert(color_distance(centre, centre) == 0);
    assert(fw(3, 3) == kernel.centre_weight());
}

/// A filter pass keeps every pixel that is within the radius of a border.
pub proof fn lemma_pass_keeps_border(img: Image, guide: Image, kernel: KernelView, x: int, y: int)
    requires
        img.wf(),
        img.contains(x, y),
        !img.interior(DENOISE_RADIUS as nat, x, y),
    ensures
        guided_pass(img, guide, kernel).pixel(x, y) == img.pixel(x, y),
{
    lemma_remapped_pixel(img, pass_map(img, guide, kernel), x, y);
}

/// A filter pass is a weighted mean: at an interior pixel, each channel of
/// the result lies under any upper bound that holds of that channel over the
/// window around the pixel, and, where the weights of that window sum to the
/// floor or more, over any lower bound that holds there. So the result lies
/// between the least and the greatest value of the window, whatever the
/// guidance image.
pub proof fn lemma_pass_between(
    img: Image,
    guide: Image,
    kernel: KernelView,
    x: int,
    y: int,
    c: Channel,
    lo: int,
    hi: int,
)
    requires
        img.wf(),
        img.interior(DENOISE_RADIUS as nat, x, y),
        window_between(img, DENOISE_RADIUS as nat, x, y, c, lo, hi),
    ensures
        guided_pass(img, guide, kernel).channel(x, y, c) <= hi,
        pass_total(guide, kernel, x, y) >= WEIGHT_FLOOR ==> lo <= guided_pass(
            img,
            guide,
            kernel,
        ).channel(x, y, c),
{
    lemma_remapped_pixel(img, pass_map(img, guide, kernel), x, y);
    lemma_pass_channel_between(img, guide, kernel, x, y, Channel::Red, 0, 255);
    lemma_pass_channel_between(img, guide, kernel, x, y, Channel::Green, 0, 255);
    lemma_pass_channel_between(img, guide, kernel, x, y, Channel::Blue, 0, 255);
    lemma_pass_channel_between(img, guide, kernel, x, y, c, lo, hi);
    lemma_pack_channels(
        pass_channel(img, guide, kernel, x, y, Channel::Red),
        pass_channel(img, guide, kernel, x, y, Channel::Green),
        pass_channel(img, guide, kernel, x, y, Channel::Blue),
    );
}

/// Bounds that hold of a channel over a whole image hold of it after a filter
/// pass, where the centre weight of the kernel is the floor or more.
pub proof fn lemma_pass_keeps_bounds(
    img: Image,
    guide: Image,
    kernel: KernelView,
    c: Channel,
    lo: int,
    hi: int,
)
    requires
        img.wf(),
        kernel.centre_weight() >= WEIGHT_FLOOR,
        image_between(img, c, lo, hi),
    ensures
        guided_pass(img, guide, kernel).wf(),
        image_between(guided_pass(img, guide, kernel), c, lo, hi),
{
    let out = guided_pass(img, guide, kernel);
    assert forall|x: int, y: int| out.contains(x, y) implies lo <= #[trigger] out.channel(x, y, c)
        <= hi by {
        lemma_remapped_pixel(img, pass_map(img, guide, kernel), x, y);
        if img.interior(DENOISE_RADIUS as nat, x, y) {
            assert forall|nx: int, ny: int|
                x - DENOISE_RADIUS <= nx <= x + DENOISE_RADIUS && y - DENOISE_RADIUS <= ny <= y
                    + DENOISE_RADIUS implies lo <= #[trigger] img.channel(nx, ny, c) <= hi by {
                assert(img.contains(nx, ny));
            }
            lemma_centre_weight_floors_total(guide, kernel, x, y);
            lemma_pass_between(img, guide, kernel, x, y, c, lo, hi);
        } else {
            assert(img.contains(x, y));
            assert(out.pixel(x, y) == img.pixel(x, y));
            assert(lo <= img.channel(x, y, c) <= hi);
        }
    }
}

/// The denoiser mixes colours and makes none: bounds that hold of a channel
/// over the whole image hold of it after any number of iterations, where the
/// centre weight of every kernel is the floor or more.
pub proof fn lemma_denoised_keeps_bounds(
    img: Image,
    kernels: Seq<Kernel>,
    c: Channel,
    lo: int,
    hi: int,
)
    requires
        img.wf(),
        forall|k: int| 0 <= k < kernels.len() ==> (#[trigger] kernels[k])@.centre_weight() >= WEIGHT_FLOOR,
        image_between(img, c, lo, hi),
    ensures
        denoised(img, kernels).wf(),
        image_between(denoised(img, kernels), c, lo, hi),
    decreases kernels.len(),
{
    if kernels.len() > 0 {
        let before = denoised(img, kernels.drop_last());
        assert forall|k: int| 0 <= k < kernels.drop_last().len() implies (
        #[trigger] kernels.drop_last()[k])@.centre_weight() >= WEIGHT_FLOOR by {
            assert(kernels.drop_last()[k] == kernels[k]);
        }
        lemma_denoised_keeps_bounds(img, kernels.drop_last(), c, lo, hi);
        lemma_pass_keeps_bounds(
            before,
            box_blurred(before, DENOISE_RADIUS as nat),
            kernels.last()@,
            c,
            lo,
            hi,
        );
    }
}

/// Without a kernel the denoiser runs no iteration and gives the image back.
pub proof fn lemma_no_iteration_keeps_image(img: Image, kernels: Seq<Kernel>)
    requires
        kernels.len() == 0,
    ensures
        denoised(img, kernels) == img,
{
}

/// Denoising with one list of kernels and then with another is denoising
/// with the two lists joined.
pub proof fn lemma_denoised_in_turn(img: Image, first: Seq<Kernel>, second: Seq<Kernel>)
    ensures
        denoised(denoised(img, first), second) == denoised(img, first + second),
    decreases second.len(),
{
    if second.len() == 0 {
        assert(first + second =~= first);
    } else {
        lemma_denoised_in_turn(img, first, second.drop_last());
        assert((first + second).drop_last() =~= first + second.drop_last());
        assert((first + second).last() == second.last());
    }
}

/// Every pixel of the image fits into 24 bits.
pub open spec fn image_24_bit(img: Image) -> bool {
    forall|k: int| 0 <= k < img.pixels.len() ==> #[trigger] img.pixels[k] < 0x100_0000
}

/// The denoiser keeps the dimensions of an image, and an image of 24-bit
/// pixels comes out as one.
pub proof fn lemma_denoised_shape(img: Image, kernels: Seq<Kernel>)
    requires
        img.wf(),
    ensures
        denoised(img, kernels).wf(),
        denoised(img, kernels).width == img.width,
        denoised(img, kernels).height == img.height,
        denoised(img, kernels).pixels.len() == img.pixels.len(),
        image_24_bit(img) ==> image_24_bit(denoised(img, kernels)),
    decreases kernels.len(),
{
    if kernels.len() > 0 {
        let before = denoised(img, kernels.drop_last());
        lemma_denoised_shape(img, kernels.drop_last());
        let out = denoised(img, kernels);
        if image_24_bit(img) {
            assert forall|k: int| 0 <= k < out.pixels.len() implies #[trigger] out.pixels[k]
                < 0x100_0000 by {
                lemma_coordinates(before, k);
                assert(before.pixels[k] < 0x100_0000);
            }
        }
    }
}

/// An image of one 24-bit colour comes out of the denoiser as it went in,
/// where the centre weight of every kernel is the floor or more.
pub proof fn lemma_uniform_image_kept(img: Image, kernels: Seq<Kernel>, color: u32)
    requires
        img.wf(),
        color < 0x100_0000,
        forall|k: int| 0 <= k < img.pixels.len() ==> img.pixels[k] == color,
        forall|k: int| 0 <= k < kernels.len() ==> (#[trigger] kernels[k])@.centre_weight() >= WEIGHT_FLOOR,
    ensures
        denoised(img, kernels) == img,
{
    let out = denoised(img, kernels);
    let rgb = unpack_spec(color);
    assert forall|x: int, y: int| img.contains(x, y) implies #[trigger] img.pixel(x, y) == color by {
        lemma_index_in_range(img.width as int, img.height as int, x, y);
    }
    lemma_denoised_keeps_bounds(img, kernels, Channel::Red, rgb.red as int, rgb.red as int);
    lemma_denoised_keeps_bounds(img, kernels, Channel::Green, rgb.green as int, rgb.green as int);
    lemma_denoised_keeps_bounds(img, kernels, Channel::Blue, rgb.blue as int, rgb.blue as int);
    lemma_denoised_shape(img, kernels);
    assert forall|k: int| 0 <= k < out.pixels.len() implies out.pixels[k] == img.pixels[k] by {
        let w = img.width as int;
        let x = k % w;
        let y = k / w;
        lemma_coordinates(img, k);
        assert(out.contains(x, y));
        assert(out.pixel(x, y) == out.pixels[k]);
        let p = out.pixels[k];
        assert(out.channel(x, y, Channel::Red) == rgb.red);
        assert(out.channel(x, y, Channel::Green) == rgb.green);
        assert(out.channel(x, y, Channel::Blue) == rgb.blue);
        assert(unpack_spec(p) == rgb);
        lemma_pack_unpack(p);
        lemma_pack_unpack(color);
    }
    assert(out.pixels =~= img.pixels);
}

} // verus!
