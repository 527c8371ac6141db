use path_tracer::buffer::Buffer;
use path_tracer::color::packed_color;
use path_tracer::color::unpack_color;
use path_tracer::color::Rgb;
use path_tracer::denoise::squared_color_distance;
use path_tracer::denoise::Kernel;
use path_tracer::denoise::DENOISE_RADIUS;
use path_tracer::denoise::DENOISE_SIDE;
use path_tracer::denoise::RANGE_ENTRIES;
use path_tracer::denoise::SPATIAL_ENTRIES;
use path_tracer::denoise::WEIGHT_FLOOR;
use path_tracer::denoise::WEIGHT_ONE;

fn flat_kernel() -> Kernel {
    Kernel::build(vec![WEIGHT_ONE; SPATIAL_ENTRIES], vec![WEIGHT_ONE; RANGE_ENTRIES]).unwrap()
}

fn gaussian_kernel(sigma_spatial: f64, sigma_color: f64) -> Kernel {
    let one = WEIGHT_ONE as f64;
    let spatial: Vec<u32> = (0..SPATIAL_ENTRIES)
        .map(|d| ((-(d as f64) / (2. * sigma_spatial * sigma_spatial)).exp() * one) as u32)
        .collect();
    let range: Vec<u32> = (0..RANGE_ENTRIES)
        .map(|d| ((-(d as f64 / 65025.) / (2. * sigma_color * sigma_color)).exp() * one) as u32)
        .collect();
    Kernel::build(spatial, range).unwrap()
}

fn schedule(iters: usize) -> Vec<Kernel> {
    let mut sigma_spatial = 2.0f64;
    let mut sigma_color = 0.1f64;
    let mut kernels = Vec::new();
    for _ in 0..iters {
        kernels.push(gaussian_kernel(sigma_spatial, sigma_color));
        sigma_color /= 1.2;
        sigma_spatial *= 1.2;
    }
    kernels
}

fn noisy(height: usize, width: usize) -> Buffer {
    let mut buffer = Buffer::build(height, width);
    let mut seed = 2024u32;
    for pixel in buffer.pixels.iter_mut() {
        seed = seed.wrapping_mul(1664525).wrapping_add(1013904223);
        *pixel = seed >> 8;
    }
    buffer
}

#[test]
fn constants_fit_the_window() {
    assert_eq!(DENOISE_SIDE, 2 * DENOISE_RADIUS + 1);
    assert_eq!(SPATIAL_ENTRIES, 2 * DENOISE_RADIUS * DENOISE_RADIUS + 1);
    assert_eq!(RANGE_ENTRIES, 3 * 255 * 255 + 1);
    assert_eq!(WEIGHT_FLOOR as f64, 1e-4 * (WEIGHT_ONE as f64) * (WEIGHT_ONE as f64));
}

#[test]
fn kernel_build_accepts_complete_tables() {
    let kernel = Kernel::build(vec![0; SPATIAL_ENTRIES], vec![WEIGHT_ONE; RANGE_ENTRIES]);
    assert!(kernel.is_some());
    let kernel = kernel.unwrap();
    assert_eq!(kernel.spatial_weight(18), 0);
    assert_eq!(kernel.range_weight(195_075), WEIGHT_ONE);
}

#[test]
fn kernel_build_rejects_a_short_or_long_table() {
    assert!(Kernel::build(vec![0; SPATIAL_ENTRIES - 1], vec![0; RANGE_ENTRIES]).is_none());
    assert!(Kernel::build(vec![0; SPATIAL_ENTRIES + 1], vec![0; RANGE_ENTRIES]).is_none());
    assert!(Kernel::build(vec![0; SPATIAL_ENTRIES], vec![0; RANGE_ENTRIES - 1]).is_none());
    assert!(Kernel::build(vec![0; SPATIAL_ENTRIES], Vec::new()).is_none());
}

#[test]
fn kernel_build_rejects_a_weight_over_one() {
    let mut spatial = vec![0; SPATIAL_ENTRIES];
    spatial[5] = WEIGHT_ONE + 1;
    assert!(Kernel::build(spatial, vec![0; RANGE_ENTRIES]).is_none());
    let mut range = vec![0; RANGE_ENTRIES];
    range[RANGE_ENTRIES - 1] = u32::MAX;
    assert!(Kernel::build(vec![0; SPATIAL_ENTRIES], range).is_none());
}

#[test]
fn squared_color_distance_sums_the_squares() {
    let a = Rgb { red: 10, green: 200, blue: 0 };
    let b = Rgb { red: 13, green: 196, blue: 12 };
    assert_eq!(squared_color_distance(a, b), 9 + 16 + 144);
    assert_eq!(squared_color_distance(b, a), 9 + 16 + 144);
    assert_eq!(squared_color_distance(a, a), 0);
    let black = Rgb { red: 0, green: 0, blue: 0 };
    let white = Rgb { red: 255, green: 255, blue: 255 };
    assert_eq!(squared_color_distance(black, white), 195_075);
}

#[test]
fn denoise_without_kernels_changes_nothing() {
    let mut buffer = noisy(9, 10);
    buffer.pixels[0] = 0xffff_ffff;
    let before = buffer.pixels.clone();
    buffer.bilateral_denoise(&Vec::new());
    assert_eq!(buffer.pixels, before);
    assert_eq!(buffer.width, 10);
    assert_eq!(buffer.height, 9);
}

#[test]
fn denoise_of_a_uniform_image_changes_nothing() {
    let mut buffer = Buffer::build(9, 11);
    for pixel in buffer.pixels.iter_mut() {
        *pixel = 0x20c0ff;
    }
    buffer.bilateral_denoise(&schedule(3));
    assert_eq!(buffer.pixels, vec![0x20c0ffu32; 99]);
}

#[test]
fn denoise_keeps_pixels_near_a_border() {
    let mut buffer = noisy(8, 9);
    let before = buffer.pixels.clone();
    buffer.bilateral_denoise(&schedule(2));
    for y in 0..8usize {
        for x in 0..9usize {
            let interior = 3 <= x && x < 6 && 3 <= y && y < 5;
            if !interior {
                assert_eq!(buffer.pixels[y * 9 + x], before[y * 9 + x]);
            }
        }
    }
}

#[test]
fn denoise_of_an_image_smaller_than_the_window_changes_nothing() {
    let mut buffer = noisy(6, 20);
    let before = buffer.pixels.clone();
    buffer.bilateral_denoise(&schedule(1));
    assert_eq!(buffer.pixels, before);
}

#[test]
fn denoise_stays_between_the_least_and_greatest_of_the_window() {
    let mut buffer = noisy(9, 9);
    let before = buffer.clone();
    buffer.bilateral_denoise(&schedule(1));
    for y in 3..6usize {
        for x in 3..6usize {
            let out = unpack_color(buffer.pixels[y * 9 + x]);
            let mut lo = Rgb { red: 255, green: 255, blue: 255 };
            let mut hi = Rgb { red: 0, green: 0, blue: 0 };
            for ny in y - 3..=y + 3 {
                for nx in x - 3..=x + 3 {
                    let c = unpack_color(before.pixels[ny * 9 + nx]);
                    lo = Rgb { red: lo.red.min(c.red), green: lo.green.min(c.green), blue: lo.blue.min(c.blue) };
                    hi = Rgb { red: hi.red.max(c.red), green: hi.green.max(c.green), blue: hi.blue.max(c.blue) };
                }
            }
            assert!(lo.red <= out.red && out.red <= hi.red);
            assert!(lo.green <= out.green && out.green <= hi.green);
            assert!(lo.blue <= out.blue && out.blue <= hi.blue);
        }
    }
}

#[test]
fn denoise_with_flat_weights_is_the_window_mean() {
    let mut buffer = noisy(8, 8);
    let mut blurred = buffer.clone();
    blurred.box_blur(DENOISE_RADIUS);
    buffer.bilateral_denoise(&vec![flat_kernel()]);
    assert_eq!(buffer.pixels, blurred.pixels);
}

#[test]
fn denoise_with_weight_at_the_centre_only_keeps_the_colours() {
    let mut spatial = vec![0; SPATIAL_ENTRIES];
    spatial[0] = WEIGHT_ONE;
    let kernel = Kernel::build(spatial, vec![WEIGHT_ONE; RANGE_ENTRIES]).unwrap();
    let mut buffer = noisy(8, 9);
    let before = buffer.pixels.clone();
    buffer.bilateral_denoise(&vec![kernel]);
    assert_eq!(buffer.pixels, before);
}

#[test]
fn denoise_weighs_neighbours_by_their_distance() {
    let mut spatial = vec![0; SPATIAL_ENTRIES];
    spatial[0] = WEIGHT_ONE;
    spatial[1] = WEIGHT_ONE / 2;
    let kernel = Kernel::build(spatial, vec![WEIGHT_ONE; RANGE_ENTRIES]).unwrap();
    let mut buffer = Buffer::build(7, 7);
    buffer.write_pixel(3, 3, Rgb { red: 200, green: 100, blue: 3 });
    buffer.write_pixel(3, 2, Rgb { red: 100, green: 0, blue: 0 });
    buffer.bilateral_denoise(&vec![kernel]);
    // weights: 1 at the centre, 1/2 at each of the four direct neighbours
    // red: (200 + 100 / 2) / 3 = 83; green: 100 / 3 = 33; blue: 3 / 3 = 1
    assert_eq!(unpack_color(buffer.pixels[3 * 7 + 3]), Rgb { red: 83, green: 33, blue: 1 });
    assert_eq!(unpack_color(buffer.pixels[2 * 7 + 3]), Rgb { red: 100, green: 0, blue: 0 });
}

#[test]
fn denoise_weighs_neighbours_by_their_guidance_colour() {
    let mut range = vec![0; RANGE_ENTRIES];
    range[0] = WEIGHT_ONE;
    let kernel = Kernel::build(vec![WEIGHT_ONE; SPATIAL_ENTRIES], range).unwrap();
    let mut buffer = Buffer::build(7, 7);
    for y in 0..7usize {
        for x in 0..7usize {
            let level = if x < 3 { 0 } else { 210 };
            buffer.write_pixel(x, y, Rgb { red: level, green: level, blue: level });
        }
    }
    // the guidance colour of the centre is the mean, 210 * 28 / 49 = 120, which
    // no neighbour has: the centre alone has weight
    buffer.bilateral_denoise(&vec![kernel]);
    assert_eq!(unpack_color(buffer.pixels[3 * 7 + 3]), Rgb { red: 210, green: 210, blue: 210 });
    let mut flat = Buffer::build(7, 7);
    for y in 0..7usize {
        for x in 0..7usize {
            let level = if x < 3 { 0 } else { 210 };
            flat.write_pixel(x, y, Rgb { red: level, green: level, blue: level });
        }
    }
    flat.bilateral_denoise(&vec![flat_kernel()]);
    assert_eq!(unpack_color(flat.pixels[3 * 7 + 3]), Rgb { red: 120, green: 120, blue: 120 });
}

#[test]
fn denoise_divides_by_the_floor_where_the_weights_sum_to_less() {
    let mut spatial = vec![0; SPATIAL_ENTRIES];
    spatial[0] = 10_000;
    let mut range = vec![0; RANGE_ENTRIES];
    range[0] = 5_000;
    // the centre alone has weight: 10000 * 5000 = half of the floor
    let kernel = Kernel::build(spatial, range).unwrap();
    let mut buffer = Buffer::build(7, 7);
    for pixel in buffer.pixels.iter_mut() {
        *pixel = packed_color(Rgb { red: 200, green: 101, blue: 1 });
    }
    buffer.bilateral_denoise(&vec![kernel]);
    assert_eq!(unpack_color(buffer.pixels[3 * 7 + 3]), Rgb { red: 100, green: 50, blue: 0 });
    assert_eq!(unpack_color(buffer.pixels[0]), Rgb { red: 200, green: 101, blue: 1 });
}

#[test]
fn denoise_with_no_weight_at_all_gives_black() {
    let kernel = Kernel::build(vec![0; SPATIAL_ENTRIES], vec![0; RANGE_ENTRIES]).unwrap();
    let mut buffer = Buffer::build(7, 7);
    for pixel in buffer.pixels.iter_mut() {
        *pixel = 0xffffff;
    }
    buffer.bilateral_denoise(&vec![kernel]);
    assert_eq!(buffer.pixels[3 * 7 + 3], 0);
    assert_eq!(buffer.pixels[3 * 7 + 2], 0xffffff);
}

#[test]
fn denoise_runs_the_kernels_in_their_order() {
    let kernels = schedule(2);
    let mut together = noisy(10, 10);
    let mut apart = together.clone();
    together.bilateral_denoise(&kernels);
    apart.bilateral_denoise(&schedule(1));
    let second = vec![gaussian_kernel(2.0 * 1.2, 0.1 / 1.2)];
    apart.bilateral_denoise(&second);
    assert_eq!(together.pixels, apart.pixels);
}

#[test]
fn guided_filter_reads_weights_from_the_guide() {
    let mut range = vec![0; RANGE_ENTRIES];
    range[0] = WEIGHT_ONE;
    let kernel = Kernel::build(vec![WEIGHT_ONE; SPATIAL_ENTRIES], range).unwrap();
    let mut buffer = Buffer::build(7, 7);
    for k in 0..49usize {
        buffer.pixels[k] = packed_color(Rgb { red: (k * 5) as u8, green: 0, blue: 0 });
    }
    // a uniform guide gives every neighbour the full weight
    let guide = Buffer::build(7, 7);
    buffer.guided_filter(&guide, &kernel);
    // the mean of 0, 5, .., 240 is 120
    assert_eq!(unpack_color(buffer.pixels[24]), Rgb { red: 120, green: 0, blue: 0 });
}

fn linear(pixel: u32) -> [f32; 3] {
    let c = unpack_color(pixel);
    [c.red as f32 / 255., c.green as f32 / 255., c.blue as f32 / 255.]
}

fn quantized(color: [f32; 3]) -> u32 {
    packed_color(Rgb {
        red: (color[0] * 255.) as u8,
        green: (color[1] * 255.) as u8,
        blue: (color[2] * 255.) as u8,
    })
}

fn blurred_in_single_precision(pixels: &[u32], width: usize, height: usize, radius: usize) -> Vec<u32> {
    let mut result = pixels.to_vec();
    if width < 2 * radius + 1 || height < 2 * radius + 1 {
        return result;
    }
    for y in radius..height - radius {
        for x in radius..width - radius {
            let mut sum = [0f32; 3];
            let mut count = 0f32;
            for ny in y - radius..=y + radius {
                for nx in x - radius..=x + radius {
                    let c = linear(pixels[ny * width + nx]);
                    for k in 0..3 {
                        sum[k] += c[k];
                    }
                    count += 1.;
                }
            }
            result[y * width + x] = quantized([sum[0] / count, sum[1] / count, sum[2] / count]);
        }
    }
    result
}

fn denoised_in_single_precision(pixels: &[u32], width: usize, height: usize, iters: usize) -> Vec<u32> {
    let radius = 3usize;
    let mut sigma_spatial = 2.0f32;
    let mut sigma_color = 0.1f32;
    let mut current = pixels.to_vec();
    for _ in 0..iters {
        let guidance = blurred_in_single_precision(&current, width, height, radius);
        let mut result = current.clone();
        for y in radius..height - radius {
            for x in radius..width - radius {
                let center = linear(guidance[y * width + x]);
                let mut color = [0f32; 3];
                let mut weight_sum = 0f32;
                for ny in y - radius..=y + radius {
                    for nx in x - radius..=x + radius {
                        let input = linear(current[ny * width + nx]);
                        let guide = linear(guidance[ny * width + nx]);
                        let dx = nx as f32 - x as f32;
                        let dy = ny as f32 - y as f32;
                        let spatial_dist = dx * dx + dy * dy;
                        let mut color_dist = 0f32;
                        for k in 0..3 {
                            color_dist += (guide[k] - center[k]) * (guide[k] - center[k]);
                        }
                        let weight = (-spatial_dist / (2. * sigma_spatial * sigma_spatial)).exp()
                            * (-color_dist / (2. * sigma_color * sigma_color)).exp();
                        for k in 0..3 {
                            color[k] += input[k] * weight;
                        }
                        weight_sum += weight;
                    }
                }
                let divisor = weight_sum.max(1e-4);
                result[y * width + x] = quantized([color[0] / divisor, color[1] / divisor, color[2] / divisor]);
            }
        }
        current = result;
        sigma_color /= 1.2;
        sigma_spatial *= 1.2;
    }
    current
}

fn greatest_difference(a: &[u32], b: &[u32]) -> u8 {
    let mut greatest = 0u8;
    for (p, q) in a.iter().zip(b.iter()) {
        let (c, d) = (unpack_color(*p), unpack_color(*q));
        greatest = greatest.max(c.red.abs_diff(d.red)).max(c.green.abs_diff(d.green)).max(c.blue.abs_diff(d.blue));
    }
    greatest
}

#[test]
fn box_blur_agrees_with_single_precision_arithmetic_within_one_level() {
    let mut buffer = noisy(12, 13);
    let expected = blurred_in_single_precision(&buffer.pixels, 13, 12, 3);
    buffer.box_blur(3);
    println!("greatest difference: {}", greatest_difference(&buffer.pixels, &expected));
    assert!(greatest_difference(&buffer.pixels, &expected) <= 1);
}

#[test]
fn denoise_agrees_with_single_precision_arithmetic_within_one_level() {
    let mut buffer = noisy(12, 13);
    for k in 0..buffer.pixels.len() {
        // a smooth image with some noise on it
        let level = (k * 3 % 200) as u32;
        buffer.pixels[k] = (buffer.pixels[k] & 0x0f0f0f) + level * 0x010101;
    }
    let expected = denoised_in_single_precision(&buffer.pixels, 13, 12, 1);
    buffer.bilateral_denoise(&schedule(1));
    println!("greatest difference: {}", greatest_difference(&buffer.pixels, &expected));
    assert!(greatest_difference(&buffer.pixels, &expected) <= 1);
}

#[test]
fn kernel_clone_keeps_the_tables() {
    let mut spatial = vec![0; SPATIAL_ENTRIES];
    spatial[3] = 17;
    let mut range = vec![0; RANGE_ENTRIES];
    range[100_000] = 23;
    let kernel = Kernel::build(spatial, range).unwrap();
    let copy = kernel.clone();
    assert_eq!(copy.spatial_weight(3), 17);
    assert_eq!(copy.spatial_weight(4), 0);
    assert_eq!(copy.range_weight(100_000), 23);
}
