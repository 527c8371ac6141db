//! The plain-text pixel map: a header of three lines, then one line for each
//! row with the gamma-encoded channels of its pixels in decimal.

use vstd::prelude::*;
use crate::buffer::Buffer;
use crate::color::Rgb;
use crate::color::unpack_color;
use crate::color::unpack_spec;
use crate::image::Image;
use crate::image::lemma_index_in_range;

verus! {

/// The square of 255999: an encoded channel is scaled by 255.999, so that
/// full brightness encodes to 255.
pub const GAMMA_SCALE_SQUARED: u64 = 65_535_488_001;

/// `level` is the gamma encoding of the channel value `value`: the whole part
/// of 255.999 times the square root of `value / 255`.
pub open spec fn is_gamma_of(value: int, level: int) -> bool {
    &&& 0 <= level
    &&& level * level * 255_000_000 <= GAMMA_SCALE_SQUARED * value
    &&& GAMMA_SCALE_SQUARED * value < (level + 1) * (level + 1) * 255_000_000
}

/// The gamma encoding of a channel value.
pub open spec fn gamma_spec(value: u8) -> u8 {
    choose|level: u8| is_gamma_of(value as int, level as int)
}

/// A channel value has one gamma encoding only.
pub proof fn lemma_gamma_unique(value: int, a: int, b: int)
    requires
        is_gamma_of(value, a),
        is_gamma_of(value, b),
    ensures
        a == b,
{
    if a < b {
        assert((a + 1) * (a + 1) <= b * b) by (nonlinear_arith)
            requires
                0 <= a,
                a + 1 <= b,
        ;
    } else if b < a {
        assert((b + 1) * (b + 1) <= a * a) by (nonlinear_arith)
            requires
                0 <= b,
                b + 1 <= a,
        ;
    }
}

/// Black encodes to black and full brightness to full brightness.
pub proof fn lemma_gamma_keeps_ends()
    ensures
        gamma_spec(0) == 0,
        gamma_spec(255) == 255,
{
    assert(is_gamma_of(0, 0));
    assert(is_gamma_of(255, 255));
    let low = gamma_spec(0);
    let high = gamma_spec(255);
    assert(is_gamma_of(0, low as int));
    assert(is_gamma_of(255, high as int));
    lemma_gamma_unique(0, 0, low as int);
    lemma_gamma_unique(255, 255, high as int);
}

/// A brighter channel value never encodes to a darker level.
pub proof fn lemma_gamma_ordered(darker: u8, brighter: u8)
    requires
        darker <= brighter,
    ensures
        gamma_spec(darker) <= gamma_spec(brighter),
{
    lemma_gamma_exists(darker);
    lemma_gamma_exists(brighter);
    let a = gamma_spec(darker) as int;
    let b = gamma_spec(brighter) as int;
    if b < a {
        assert((b + 1) * (b + 1) <= a * a) by (nonlinear_arith)
            requires
                0 <= b,
                b + 1 <= a,
        ;
    }
}

/// Every channel value has a gamma encoding, and it is at most 255.
pub proof fn lemma_gamma_exists(value: u8)
    ensures
        is_gamma_of(value as int, gamma_spec(value) as int),
{
    let target = GAMMA_SCALE_SQUARED * value;
    let level = lemma_root_below(target, 256);
    assert(level < 256) by {
        if level >= 256 {
            assert(level * level >= 65_536) by (nonlinear_arith)
                requires
                    level >= 256,
            ;
        }
    }
    assert(is_gamma_of(value as int, (level as u8) as int));
}

/// The whole root of `target / 255000000`, where it is below `bound`.
proof fn lemma_root_below(target: int, bound: int) -> (level: int)
    requires
        0 <= target,
        0 < bound,
        target < bound * bound * 255_000_000,
    ensures
        0 <= level < bound,
        level * level * 255_000_000 <= target < (level + 1) * (level + 1) * 255_000_000,
    decreases bound,
{
    let below = bound - 1;
    if below * below * 255_000_000 <= target {
        below
    } else {
        assert(below > 0) by (nonlinear_arith)
            requires
                below >= 0,
                below * below * 255_000_000 > target,
                target >= 0,
        ;
        lemma_root_below(target, below)
    }
}

/// Whether the square of `level + 1` is already too large for `target`.
fn overshoots(level: u64, target: u64) -> (over: bool)
    requires
        level <= 255,
    ensures
        over == ((level + 1) * (level + 1) * 255_000_000 > target),
{
    let next: u64 = level + 1;
    assert(next * next <= 65_536) by (nonlinear_arith)
        requires
            next <= 256,
    ;
    next * next * 255_000_000 > target
}

/// Gamma-encodes a channel value by the square root: the result is the whole
/// part of 255.999 times the square root of `value / 255`.
pub fn gamma_encode(value: u8) -> (level: u8)
    ensures
        is_gamma_of(value as int, level as int),
        level == gamma_spec(value),
{
    let target: u64 = GAMMA_SCALE_SQUARED * (value as u64);
    let mut level: u64 = 0;
    while level < 255 && !overshoots(level, target)
        invariant
            level <= 255,
            target == GAMMA_SCALE_SQUARED * value,
            level * level * 255_000_000 <= target,
        decreases 255 - level,
    {
        level = level + 1;
    }
    proof {
        let found = level as u8;
        if level == 255 {
            assert((level + 1) * (level + 1) == 65_536) by (nonlinear_arith)
                requires
                    level == 255,
            ;
        }
        assert(is_gamma_of(value as int, found as int));
        let chosen = gamma_spec(value);
        assert(is_gamma_of(value as int, chosen as int));
        lemma_gamma_unique(value as int, found as int, chosen as int);
    }
    level as u8
}

/// The gamma encoding of each channel of a colour.
pub open spec fn gamma_color(color: Rgb) -> Rgb {
    Rgb {
        red: gamma_spec(color.red),
        green: gamma_spec(color.green),
        blue: gamma_spec(color.blue),
    }
}

/// The decimal digits of a number, in ASCII, without leading zeros.
pub open spec fn decimal(n: nat) -> Seq<u8>
    decreases n,
{
    if n < 10 {
        seq![(48 + n) as u8]
    } else {
        decimal(n / 10).push((48 + n % 10) as u8)
    }
}

/// The three header lines of an image of the given size: the magic word, the width and
/// the height, and the greatest channel value, 255.
pub open spec fn header_text(width: nat, height: nat) -> Seq<u8> {
    seq![80u8, 51u8, 10u8] + decimal(width) + seq![32u8] + decimal(height) + seq![
        10u8,
        50u8,
        53u8,
        53u8,
        10u8,
    ]
}

/// A colour as text: its three channels in decimal, a space after each.
pub open spec fn triplet_text(color: Rgb) -> Seq<u8> {
    decimal(color.red as nat) + seq![32u8] + decimal(color.green as nat) + seq![32u8] + decimal(
        color.blue as nat,
    ) + seq![32u8]
}

/// The text of the first `n` pixels of row `y`, each gamma-encoded.
pub open spec fn row_text(img: Image, y: int, n: int) -> Seq<u8>
    decreases n,
{
    if n <= 0 {
        Seq::empty()
    } else {
        row_text(img, y, n - 1) + triplet_text(gamma_color(unpack_spec(img.pixel(n - 1, y))))
    }
}

/// The text of the first `m` rows, each a line of its own.
pub open spec fn rows_text(img: Image, m: int) -> Seq<u8>
    decreases m,
{
    if m <= 0 {
        Seq::empty()
    } else {
        rows_text(img, m - 1) + row_text(img, m - 1, img.width as int) + seq![10u8]
    }
}

/// An image as a plain-text pixel map: the header, then one line for each
/// row, which holds the gamma-encoded colours of the row from left to right.
pub open spec fn image_text(img: Image) -> Seq<u8> {
    header_text(img.width, img.height) + rows_text(img, img.height as int)
}

/// Appends the decimal digits of `n`.
pub fn write_decimal(out: &mut Vec<u8>, n: usize)
    ensures
        final(out)@ == old(out)@ + decimal(n as nat),
    decreases n,
{
    if n >= 10 {
        write_decimal(out, n / 10);
    }
    let digit: u8 = (48 + n % 10) as u8;
    out.push(digit);
    assert(final(out)@ =~= old(out)@ + decimal(n as nat));
}

/// Appends the three header lines of an image of the given size.
pub fn write_header(out: &mut Vec<u8>, width: usize, height: usize)
    ensures
        final(out)@ == old(out)@ + header_text(width as nat, height as nat),
{
    out.push(80);
    out.push(51);
    out.push(10);
    write_decimal(out, width);
    out.push(32);
    write_decimal(out, height);
    out.push(10);
    out.push(50);
    out.push(53);
    out.push(53);
    out.push(10);
    assert(final(out)@ =~= old(out)@ + header_text(width as nat, height as nat));
}

/// Appends a colour as text: its three channels in decimal, a space after each.
pub fn write_triplet(out: &mut Vec<u8>, color: Rgb)
    ensures
        final(out)@ == old(out)@ + triplet_text(color),
{
    write_decimal(out, color.red as usize);
    out.push(32);
    write_decimal(out, color.green as usize);
    out.push(32);
    write_decimal(out, color.blue as usize);
    out.push(32);
    assert(final(out)@ =~= old(out)@ + triplet_text(color));
}

/// Appends a colour as text, each channel gamma-encoded first.
pub fn write_pixel_gammcorr(out: &mut Vec<u8>, color: Rgb)
    ensures
        final(out)@ == old(out)@ + triplet_text(gamma_color(color)),
{
    let encoded = Rgb {
        red: gamma_encode(color.red),
        green: gamma_encode(color.green),
        blue: gamma_encode(color.blue),
    };
    write_triplet(out, encoded);
}

/// The whole plain-text pixel map of a buffer.
pub fn encode_image(buffer: &Buffer) -> (text: Vec<u8>)
    requires
        buffer.wf(),
    ensures
        text@ == image_text(buffer@),
{
    let ghost img = buffer@;
    let mut text: Vec<u8> = Vec::new();
    write_header(&mut text, buffer.width, buffer.height);
    let ghost head = text@;
    let mut y: usize = 0;
    while y < buffer.height
        invariant
            buffer@ == img,
            buffer.wf(),
            y <= buffer.height,
            head == header_text(img.width, img.height),
            text@ == head + rows_text(img, y as int),
        decreases buffer.height - y,
    {
        let ghost above = text@;
        let mut x: usize = 0;
        while x < buffer.width
            invariant
                buffer@ == img,
                buffer.wf(),
                y < buffer.height,
                x <= buffer.width,
                text@ == above + row_text(img, y as int, x as int),
            decreases buffer.width - x,
        {
            proof {
                lemma_index_in_range(buffer.width as int, buffer.height as int, x as int, y as int);
            }
            write_pixel_gammcorr(&mut text, unpack_color(buffer.pixels[y * buffer.width + x]));
            assert(text@ =~= above + row_text(img, y as int, x + 1));
            x = x + 1;
        }
        text.push(10);
        assert(text@ =~= head + rows_text(img, y + 1));
        y = y + 1;
    }
    text
}

} // verus!
