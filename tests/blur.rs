use gaussian_blur::convolve::{blur, convolve_pixel};
use gaussian_blur::kernel::{build_kernel, Kernel};
use gaussian_blur::picture::{Channel, Picture};
use image::{Rgb, RgbImage};

fn picture(width: u32, height: u32, f: impl Fn(u32, u32) -> [u8; 3]) -> Picture {
    Picture { rgb: RgbImage::from_fn(width, height, |x, y| Rgb(f(x, y))) }
}

fn busy(x: u32, y: u32) -> [u8; 3] {
    [
        ((x * 37 + y * 11) % 256) as u8,
        ((x * 5 + y * 53 + 7) % 256) as u8,
        ((x * y * 3 + 200) % 256) as u8,
    ]
}

#[test]
fn sample_reads_each_channel() {
    let p = picture(2, 2, |x, y| [x as u8 + 10, y as u8 + 20, (x + y) as u8 + 30]);
    assert_eq!(p.sample(1, 0, Channel::Red), 11);
    assert_eq!(p.sample(1, 0, Channel::Green), 20);
    assert_eq!(p.sample(1, 1, Channel::Blue), 32);
    assert_eq!(p.sample(0, 1, Channel::Green), 21);
}

#[test]
fn width_and_height_are_reported() {
    let p = picture(7, 3, busy);
    assert_eq!(p.width(), 7);
    assert_eq!(p.height(), 3);
    let out = blur(&p, &build_kernel(3).unwrap());
    assert_eq!((out.width(), out.height()), (7, 3));
}

#[test]
fn blur_keeps_dimensions() {
    for (w, h) in [(7u32, 5u32), (1, 1), (2, 9), (12, 12)] {
        let p = picture(w, h, busy);
        for n in [3usize, 5, 9] {
            let out = blur(&p, &build_kernel(n).unwrap());
            assert_eq!(out.rgb.dimensions(), (w, h));
        }
    }
}

#[test]
fn border_pixels_are_black() {
    let p = picture(11, 8, |_, _| [255, 255, 255]);
    let k = build_kernel(5).unwrap();
    let out = blur(&p, &k);
    for y in 0..8u32 {
        for x in 0..11u32 {
            let border = x < 2 || y < 2 || x + 2 >= 11 || y + 2 >= 8;
            let px = out.rgb.get_pixel(x, y).0;
            if border {
                assert_eq!(px, [0, 0, 0]);
            } else {
                assert_eq!(px, [255, 255, 255]);
            }
        }
    }
}

#[test]
fn picture_smaller_than_kernel_is_all_black() {
    let p = picture(4, 4, busy);
    let out = blur(&p, &build_kernel(5).unwrap());
    assert!(out.rgb.pixels().all(|px| px.0 == [0, 0, 0]));
}

#[test]
fn identity_kernel_keeps_interior_pixels() {
    let p = picture(9, 7, busy);
    let k = Kernel::identity(3).unwrap();
    let out = blur(&p, &k);
    for y in 1..6u32 {
        for x in 1..8u32 {
            assert_eq!(out.rgb.get_pixel(x, y).0, busy(x, y));
        }
    }
    assert_eq!(out.rgb.get_pixel(0, 3).0, [0, 0, 0]);
}

#[test]
fn uniform_picture_stays_uniform() {
    let colour = [10u8, 200, 255];
    let p = picture(15, 13, |_, _| colour);
    for n in [3usize, 5, 7, 11] {
        let k = build_kernel(n).unwrap();
        let half = (n / 2) as u32;
        let out = blur(&p, &k);
        for y in half..13 - half {
            for x in half..15 - half {
                assert_eq!(out.rgb.get_pixel(x, y).0, colour);
            }
        }
    }
}

#[test]
fn red_gradient_centre_is_weighted_average() {
    let p = picture(10, 10, |x, _| [((x * 25) % 256) as u8, 0, 0]);
    let k = build_kernel(3).unwrap();
    let out = blur(&p, &k);
    let weights = [[1u32, 2, 1], [2, 4, 2], [1, 2, 1]];
    let mut sum: u32 = 0;
    for i in 0..3u32 {
        for j in 0..3u32 {
            sum += weights[i as usize][j as usize] * ((4 + i) * 25 % 256);
        }
    }
    assert_eq!(sum / 16, 125);
    assert_eq!(out.rgb.get_pixel(5, 5).0, [125, 0, 0]);
    assert_eq!(convolve_pixel(&p, 5, 5, Channel::Red, &k), 125);
}

#[test]
fn convolve_pixel_rounds_down() {
    let values = [[0u8, 10, 0], [10, 11, 10], [0, 10, 0]];
    let p = picture(3, 3, |x, y| [values[x as usize][y as usize], 0, 255]);
    let k = build_kernel(3).unwrap();
    // (4 * 10 * 2 + 4 * 11) / 16 = 124 / 16 = 7.75
    assert_eq!(convolve_pixel(&p, 1, 1, Channel::Red, &k), 7);
    assert_eq!(convolve_pixel(&p, 1, 1, Channel::Green, &k), 0);
    assert_eq!(convolve_pixel(&p, 1, 1, Channel::Blue, &k), 255);
}

#[test]
fn png_round_trip_keeps_size_and_black_ring() {
    let original = picture(8, 6, busy);
    let mut encoded: Vec<u8> = Vec::new();
    image::DynamicImage::ImageRgb8(original.rgb.clone())
        .write_to(&mut std::io::Cursor::new(&mut encoded), image::ImageOutputFormat::Png)
        .unwrap();
    let decoded = Picture { rgb: image::load_from_memory(&encoded).unwrap().to_rgb8() };
    assert_eq!(decoded.rgb, original.rgb);
    let out = blur(&decoded, &build_kernel(3).unwrap());
    let mut saved: Vec<u8> = Vec::new();
    image::DynamicImage::ImageRgb8(out.rgb.clone())
        .write_to(&mut std::io::Cursor::new(&mut saved), image::ImageOutputFormat::Png)
        .unwrap();
    let reread = image::load_from_memory(&saved).unwrap().to_rgb8();
    assert_eq!(reread.dimensions(), (8, 6));
    for (x, y, px) in reread.enumerate_pixels() {
        if x == 0 || y == 0 || x == 7 || y == 5 {
            assert_eq!(px.0, [0, 0, 0]);
        }
    }
    assert_eq!(reread, out.rgb);
}
