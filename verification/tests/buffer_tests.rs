use path_tracer::buffer::Buffer;
use path_tracer::color::packed_color;
use path_tracer::color::unpack_color;
use path_tracer::color::Rgb;

fn gray(level: u8) -> u32 {
    packed_color(Rgb { red: level, green: level, blue: level })
}

#[test]
fn build_gives_black_pixels() {
    let buffer = Buffer::build(2, 3);
    assert_eq!(buffer.height, 2);
    assert_eq!(buffer.width, 3);
    assert_eq!(buffer.pixels, vec![0u32; 6]);
}

#[test]
fn build_of_no_rows_is_empty() {
    let buffer = Buffer::build(0, 5);
    assert_eq!(buffer.pixels.len(), 0);
}

#[test]
fn packed_color_puts_red_highest() {
    let packed = packed_color(Rgb { red: 0x12, green: 0x34, blue: 0x56 });
    assert_eq!(packed, 0x123456);
    assert_eq!(unpack_color(packed), Rgb { red: 0x12, green: 0x34, blue: 0x56 });
}

#[test]
fn packed_color_of_white_fills_24_bits() {
    assert_eq!(packed_color(Rgb { red: 255, green: 255, blue: 255 }), 0x00ff_ffff);
    assert_eq!(packed_color(Rgb { red: 0, green: 0, blue: 0 }), 0);
}

#[test]
fn unpack_color_ignores_top_byte() {
    assert_eq!(unpack_color(0xff01_0203), Rgb { red: 1, green: 2, blue: 3 });
}

#[test]
fn unpack_then_pack_round_trips_every_channel_value() {
    for level in 0..=255u8 {
        let color = Rgb { red: level, green: 255 - level, blue: level / 2 };
        assert_eq!(unpack_color(packed_color(color)), color);
    }
}

#[test]
fn write_pixel_stores_packed_color_in_row_major_order() {
    let mut buffer = Buffer::build(2, 3);
    buffer.write_pixel(1, 1, Rgb { red: 1, green: 2, blue: 3 });
    buffer.write_pixel(2, 0, Rgb { red: 255, green: 0, blue: 0 });
    assert_eq!(buffer.pixels, vec![0, 0, 0xff0000, 0, 0x010203, 0]);
}

#[test]
fn box_blur_centre_is_window_mean_rounded_down() {
    let mut buffer = Buffer::build(3, 3);
    for k in 0..9usize {
        let color = Rgb { red: (k * 10) as u8, green: 255, blue: if k == 0 { 8 } else { 0 } };
        buffer.write_pixel(k % 3, k / 3, color);
    }
    let before = buffer.pixels.clone();
    buffer.box_blur(1);
    // red: (0 + 10 + .. + 80) / 9 = 40; green: 255; blue: 8 / 9 = 0
    assert_eq!(unpack_color(buffer.pixels[4]), Rgb { red: 40, green: 255, blue: 0 });
    for k in 0..9usize {
        if k != 4 {
            assert_eq!(buffer.pixels[k], before[k]);
        }
    }
}

#[test]
fn box_blur_rounds_a_mean_down() {
    let mut buffer = Buffer::build(3, 3);
    buffer.write_pixel(0, 0, Rgb { red: 17, green: 9, blue: 26 });
    buffer.box_blur(1);
    // 17 / 9 = 1, 9 / 9 = 1, 26 / 9 = 2
    assert_eq!(unpack_color(buffer.pixels[4]), Rgb { red: 1, green: 1, blue: 2 });
}

#[test]
fn box_blur_keeps_pixels_near_a_border() {
    let mut buffer = Buffer::build(5, 6);
    for k in 0..30usize {
        buffer.pixels[k] = gray((k * 8) as u8);
    }
    let before = buffer.pixels.clone();
    buffer.box_blur(2);
    for y in 0..5usize {
        for x in 0..6usize {
            let interior = y == 2 && (x == 2 || x == 3);
            if !interior {
                assert_eq!(buffer.pixels[y * 6 + x], before[y * 6 + x]);
            }
        }
    }
    // the window of (2, 2) holds columns 0..5 of all five rows
    let mut sum = 0usize;
    for y in 0..5usize {
        for x in 0..5usize {
            sum += (y * 6 + x) * 8;
        }
    }
    assert_eq!(buffer.pixels[2 * 6 + 2], gray((sum / 25) as u8));
}

#[test]
fn box_blur_of_an_image_smaller_than_the_window_changes_nothing() {
    let mut buffer = Buffer::build(2, 2);
    buffer.pixels = vec![1, 2, 3, 0xff00_0004];
    buffer.box_blur(1);
    assert_eq!(buffer.pixels, vec![1, 2, 3, 0xff00_0004]);
    let mut empty = Buffer::build(0, 0);
    empty.box_blur(3);
    assert_eq!(empty.pixels.len(), 0);
}

#[test]
fn box_blur_with_the_greatest_radius_changes_nothing() {
    let mut buffer = Buffer::build(3, 3);
    buffer.pixels[4] = 77;
    buffer.box_blur(usize::MAX);
    assert_eq!(buffer.pixels[4], 77);
    buffer.box_blur(usize::MAX / 2);
    assert_eq!(buffer.pixels[4], 77);
}

#[test]
fn box_blur_of_a_uniform_image_changes_nothing() {
    let mut buffer = Buffer::build(9, 8);
    for pixel in buffer.pixels.iter_mut() {
        *pixel = 0x336699;
    }
    buffer.box_blur(3);
    assert_eq!(buffer.pixels, vec![0x336699u32; 72]);
}

#[test]
fn box_blur_with_radius_zero_keeps_colours_and_clears_the_top_byte() {
    let mut buffer = Buffer::build(1, 2);
    buffer.pixels = vec![0xff01_0203, 0x0004_0506];
    buffer.box_blur(0);
    assert_eq!(buffer.pixels, vec![0x0001_0203, 0x0004_0506]);
}

#[test]
fn box_blur_stays_within_the_window() {
    let mut buffer = Buffer::build(7, 7);
    let mut seed = 12345u32;
    for pixel in buffer.pixels.iter_mut() {
        seed = seed.wrapping_mul(1664525).wrapping_add(1013904223);
        *pixel = seed >> 8;
    }
    let before = buffer.clone();
    buffer.box_blur(2);
    for y in 2..5usize {
        for x in 2..5usize {
            let out = unpack_color(buffer.pixels[y * 7 + x]);
            let mut lo = 255u8;
            let mut hi = 0u8;
            for ny in y - 2..=y + 2 {
                for nx in x - 2..=x + 2 {
                    let red = unpack_color(before.pixels[ny * 7 + nx]).red;
                    lo = lo.min(red);
                    hi = hi.max(red);
                }
            }
            assert!(lo <= out.red && out.red <= hi);
        }
    }
}

#[test]
fn clone_copies_pixels_and_dimensions() {
    let mut buffer = Buffer::build(2, 3);
    buffer.write_pixel(2, 1, Rgb { red: 9, green: 8, blue: 7 });
    let mut copy = buffer.clone();
    assert_eq!(copy.pixels, buffer.pixels);
    assert_eq!((copy.width, copy.height), (3, 2));
    copy.write_pixel(0, 0, Rgb { red: 1, green: 1, blue: 1 });
    assert_eq!(buffer.pixels[0], 0);
}
