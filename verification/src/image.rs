//! The mathematical model of a pixel buffer, and sums over square windows.

use vstd::prelude::*;
use crate::color::Channel;
use crate::color::Rgb;
use crate::color::pack_spec;
use crate::color::unpack_spec;

verus! {

/// The mathematical model of a pixel buffer: `height` rows of `width` packed
/// pixels each, stored row after row.
pub struct Image {
    pub pixels: Seq<u32>,
    pub width: nat,
    pub height: nat,
}

impl Image {
    /// The pixel sequence holds exactly `width * height` pixels.
    pub open spec fn wf(self) -> bool {
        self.pixels.len() == self.width * self.height
    }

    /// The packed pixel in column `x` of row `y`.
    pub open spec fn pixel(self, x: int, y: int) -> u32 {
        self.pixels[y * self.width + x]
    }

    /// The value of channel `c` of the pixel in column `x` of row `y`.
    pub open spec fn channel(self, x: int, y: int, c: Channel) -> int {
        unpack_spec(self.pixel(x, y)).channel(c)
    }

    /// `(x, y)` names a pixel of the image.
    pub open spec fn contains(self, x: int, y: int) -> bool {
        0 <= x < self.width && 0 <= y < self.height
    }

    /// The square window of the given radius around `(x, y)` lies inside the
    /// image: the pixel is at least `radius` away from every border.
    pub open spec fn interior(self, radius: nat, x: int, y: int) -> bool {
        radius <= x < self.width - radius && radius <= y < self.height - radius
    }

    /// The image of the same dimensions whose pixel at `(x, y)` is `f(x, y)`.
    pub open spec fn remapped(self, f: spec_fn(int, int) -> u32) -> Image {
        Image {
            pixels: Seq::new(
                self.pixels.len(),
                |k: int| f(k % (self.width as int), k / (self.width as int)),
            ),
            width: self.width,
            height: self.height,
        }
    }
}

/// The sum of `f(i, 0), .., f(i, n - 1)`: the first `n` terms of row `i`.
pub open spec fn row_sum(f: spec_fn(int, int) -> int, i: int, n: int) -> int
    decreases n,
{
    if n <= 0 {
        0
    } else {
        row_sum(f, i, n - 1) + f(i, n - 1)
    }
}

/// The sum of `f(i, j)` over the rows `0 <= i < m` and the columns `0 <= j < side`.
pub open spec fn grid_sum(f: spec_fn(int, int) -> int, side: int, m: int) -> int
    decreases m,
{
    if m <= 0 {
        0
    } else {
        grid_sum(f, side, m - 1) + row_sum(f, m - 1, side)
    }
}

/// A packed pixel whose three channels are given as integers between 0 and 255.
pub open spec fn pack_channels(red: int, green: int, blue: int) -> u32 {
    pack_spec(Rgb { red: red as u8, green: green as u8, blue: blue as u8 })
}

/// Row-major indices are unique: two in-range coordinates with the same index are equal.
pub proof fn lemma_index_unique(width: int, x1: int, y1: int, x2: int, y2: int)
    requires
        0 <= x1 < width,
        0 <= x2 < width,
        y1 * width + x1 == y2 * width + x2,
    ensures
        x1 == x2,
        y1 == y2,
{
    assert(y1 == y2) by (nonlinear_arith)
        requires
            0 <= x1 < width,
            0 <= x2 < width,
            y1 * width + x1 == y2 * width + x2,
    {
        if y1 < y2 {
            assert((y2 - y1) * width >= width);
        } else if y2 < y1 {
            assert((y1 - y2) * width >= width);
        }
    }
}

/// The row-major index of an in-range coordinate is in range.
pub proof fn lemma_index_in_range(width: int, height: int, x: int, y: int)
    requires
        0 <= x < width,
        0 <= y < height,
    ensures
        0 <= y * width + x < width * height,
{
    assert(0 <= y * width + x < width * height) by (nonlinear_arith)
        requires
            0 <= x < width,
            0 <= y < height,
    {
        assert((y + 1) * width <= height * width);
    }
}

/// Every index of a pixel is the row-major index of its coordinates.
pub proof fn lemma_coordinates(img: Image, k: int)
    requires
        img.wf(),
        0 <= k < img.pixels.len(),
    ensures
        img.width > 0,
        img.contains(k % (img.width as int), k / (img.width as int)),
        (k / (img.width as int)) * img.width + k % (img.width as int) == k,
{
    let w = img.width as int;
    let h = img.height as int;
    assert(w > 0) by (nonlinear_arith)
        requires
            0 <= k < w * h,
            w >= 0,
    ;
    let x = k % w;
    let y = k / w;
    vstd::arithmetic::div_mod::lemma_fundamental_div_mod(k, w);
    assert(w * y == y * w) by (nonlinear_arith);
    assert(0 <= y < h) by (nonlinear_arith)
        requires
            k == y * w + x,
            0 <= x < w,
            0 <= k < w * h,
    ;
}

/// An image of the same dimensions whose pixels are `f` of their coordinates
/// is `remapped(f)`.
pub proof fn lemma_remapped(before: Image, after: Image, f: spec_fn(int, int) -> u32)
    requires
        before.wf(),
        after.width == before.width,
        after.height == before.height,
        after.pixels.len() == before.pixels.len(),
        forall|x: int, y: int| before.contains(x, y) ==> #[trigger] after.pixel(x, y) == f(x, y),
    ensures
        after == before.remapped(f),
{
    let w = before.width as int;
    assert forall|k: int| 0 <= k < after.pixels.len() implies after.pixels[k]
        == before.remapped(f).pixels[k] by {
        lemma_coordinates(before, k);
        assert(after.pixel(k % w, k / w) == f(k % w, k / w));
    }
    assert(after.pixels =~= before.remapped(f).pixels);
}

/// In an image given by `remapped(f)`, the pixel at an in-range coordinate is `f` of it.
pub proof fn lemma_remapped_pixel(img: Image, f: spec_fn(int, int) -> u32, x: int, y: int)
    requires
        img.wf(),
        img.contains(x, y),
    ensures
        img.remapped(f).pixel(x, y) == f(x, y),
        img.remapped(f).wf(),
{
    let w = img.width as int;
    let k = y * w + x;
    lemma_index_in_range(w, img.height as int, x, y);
    vstd::arithmetic::div_mod::lemma_fundamental_div_mod_converse(k, w, y, x);
}

/// A weighted row sum lies between `lo` and `hi` times the sum of the
/// weights, where every weighted term lies between `lo` and `hi` times its weight.
pub proof fn lemma_row_sum_between(
    weight: spec_fn(int, int) -> int,
    weighted: spec_fn(int, int) -> int,
    i: int,
    n: int,
    lo: int,
    hi: int,
)
    requires
        forall|j: int| 0 <= j < n ==> lo * #[trigger] weight(i, j) <= weighted(i, j),
        forall|j: int| 0 <= j < n ==> #[trigger] weighted(i, j) <= hi * weight(i, j),
    ensures
        lo * row_sum(weight, i, n) <= row_sum(weighted, i, n) <= hi * row_sum(weight, i, n),
    decreases n,
{
    if n > 0 {
        lemma_row_sum_between(weight, weighted, i, n - 1, lo, hi);
        let rest = row_sum(weight, i, n - 1);
        let last = weight(i, n - 1);
        assert(lo * last <= weighted(i, n - 1) <= hi * last);
        assert(lo * (rest + last) == lo * rest + lo * last) by (nonlinear_arith);
        assert(hi * (rest + last) == hi * rest + hi * last) by (nonlinear_arith);
    } else {
        assert(lo * 0 == 0 && hi * 0 == 0);
    }
}

/// A weighted grid sum lies between `lo` and `hi` times the sum of the
/// weights, where every weighted term lies between `lo` and `hi` times its weight.
pub proof fn lemma_grid_sum_between(
    weight: spec_fn(int, int) -> int,
    weighted: spec_fn(int, int) -> int,
    side: int,
    m: int,
    lo: int,
    hi: int,
)
    requires
        forall|i: int, j: int|
            0 <= i < m && 0 <= j < side ==> lo * #[trigger] weight(i, j) <= weighted(i, j),
        forall|i: int, j: int|
            0 <= i < m && 0 <= j < side ==> #[trigger] weighted(i, j) <= hi * weight(i, j),
    ensures
        lo * grid_sum(weight, side, m) <= grid_sum(weighted, side, m) <= hi * grid_sum(
            weight,
            side,
            m,
        ),
    decreases m,
{
    if m > 0 {
        lemma_grid_sum_between(weight, weighted, side, m - 1, lo, hi);
        lemma_row_sum_between(weight, weighted, m - 1, side, lo, hi);
        let rest = grid_sum(weight, side, m - 1);
        let last = row_sum(weight, m - 1, side);
        assert(lo * (rest + last) == lo * rest + lo * last) by (nonlinear_arith);
        assert(hi * (rest + last) == hi * rest + hi * last) by (nonlinear_arith);
    } else {
        assert(lo * 0 == 0 && hi * 0 == 0);
    }
}

/// A row sum of terms that are never negative is at least each of its terms.
pub proof fn lemma_row_sum_covers(f: spec_fn(int, int) -> int, i: int, n: int, j: int)
    requires
        forall|k: int| 0 <= k < n ==> 0 <= #[trigger] f(i, k),
    ensures
        0 <= row_sum(f, i, n),
        0 <= j < n ==> f(i, j) <= row_sum(f, i, n),
    decreases n,
{
    if n > 0 {
        lemma_row_sum_covers(f, i, n - 1, j);
        assert(0 <= f(i, n - 1));
    }
}

/// A grid sum of terms that are never negative is at least each of its terms.
pub proof fn lemma_grid_sum_covers(f: spec_fn(int, int) -> int, side: int, m: int, i: int, j: int)
    requires
        forall|a: int, b: int| 0 <= a < m && 0 <= b < side ==> 0 <= #[trigger] f(a, b),
    ensures
        0 <= grid_sum(f, side, m),
        0 <= i < m && 0 <= j < side ==> f(i, j) <= grid_sum(f, side, m),
    decreases m,
{
    if m > 0 {
        lemma_grid_sum_covers(f, side, m - 1, i, j);
        lemma_row_sum_covers(f, m - 1, side, j);
    }
}

/// A quotient lies between `lo` and `hi` where the dividend lies between
/// `lo` and `hi` times the divisor.
pub proof fn lemma_quotient_between(sum: int, divisor: int, lo: int, hi: int)
    requires
        divisor > 0,
        lo * divisor <= sum <= hi * divisor,
    ensures
        lo <= sum / divisor <= hi,
{
    vstd::arithmetic::div_mod::lemma_fundamental_div_mod(sum, divisor);
    let q = sum / divisor;
    let r = sum % divisor;
    assert(0 <= r < divisor);
    assert(lo <= q) by (nonlinear_arith)
        requires
            divisor > 0,
            lo * divisor <= divisor * q + r,
            r < divisor,
    ;
    assert(q <= hi) by (nonlinear_arith)
        requires
            divisor > 0,
            divisor * q + r <= hi * divisor,
            0 <= r,
    ;
}

} // verus!
