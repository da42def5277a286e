//! End-to-end and property tests for the pixel-sorting engine.

use pixelsort::keys::{extract, Key, Mode};
use pixelsort::pixel::{Image, Pixel, SortError};
use pixelsort::sort::{sort_pixel_seq, sort_pixels};

fn px(r: u8, g: u8, b: u8, a: u8) -> Pixel {
    Pixel { r, g, b, a }
}

const ALL_MODES: [Mode; 7] = [
    Mode::Red,
    Mode::Green,
    Mode::Blue,
    Mode::Alpha,
    Mode::Hue,
    Mode::Saturation,
    Mode::Lightness,
];

fn image_of(width: usize, height: usize, pixels: Vec<Pixel>) -> Image {
    Image { width, height, pixels }
}

fn sorted_pixels(img: Image, mode: Mode) -> Vec<Pixel> {
    sort_pixels(img, mode).expect("well-formed image must sort").pixels
}

#[test]
fn end_to_end_red() {
    let img = image_of(2, 1, vec![px(255, 0, 0, 255), px(0, 255, 0, 255)]);
    let out = sorted_pixels(img, Mode::Red);
    assert_eq!(out, vec![px(0, 255, 0, 255), px(255, 0, 0, 255)]);
}

#[test]
fn end_to_end_green() {
    let img = image_of(2, 1, vec![px(255, 0, 0, 255), px(0, 255, 0, 255)]);
    let out = sorted_pixels(img, Mode::Green);
    assert_eq!(out, vec![px(255, 0, 0, 255), px(0, 255, 0, 255)]);
}

#[test]
fn end_to_end_hue() {
    // red has hue 0, green has hue 120: already in hue order.
    let img = image_of(2, 1, vec![px(255, 0, 0, 255), px(0, 255, 0, 255)]);
    let out = sorted_pixels(img, Mode::Hue);
    assert_eq!(out, vec![px(255, 0, 0, 255), px(0, 255, 0, 255)]);
}

#[test]
fn one_pixel_image_sorts_to_itself_under_every_mode() {
    for mode in ALL_MODES {
        let img = image_of(1, 1, vec![px(13, 200, 77, 5)]);
        let out = sorted_pixels(img, mode);
        assert_eq!(out, vec![px(13, 200, 77, 5)]);
    }
}

#[test]
fn degenerate_image_is_rejected() {
    for mode in ALL_MODES {
        let img = image_of(0, 0, Vec::new());
        assert!(matches!(sort_pixels(img, mode), Err(SortError::InvalidDimensions)));
    }
}

#[test]
fn zero_width_image_is_rejected() {
    let img = image_of(0, 3, Vec::new());
    assert!(matches!(sort_pixels(img, Mode::Red), Err(SortError::InvalidDimensions)));
}

#[test]
fn mismatched_pixel_count_is_rejected() {
    let img = image_of(2, 2, vec![px(0, 0, 0, 0); 3]);
    assert!(matches!(sort_pixels(img, Mode::Blue), Err(SortError::InvalidDimensions)));
}

#[test]
fn image_new_accepts_matching_dimensions() {
    let img = Image::new(2, 3, vec![px(1, 2, 3, 4); 6]).expect("2 x 3 with 6 pixels is well-formed");
    assert_eq!(img.width, 2);
    assert_eq!(img.height, 3);
    assert_eq!(img.pixels.len(), 6);
}

#[test]
fn image_new_rejects_bad_dimensions() {
    assert!(matches!(Image::new(2, 3, vec![px(0, 0, 0, 0); 5]), Err(SortError::InvalidDimensions)));
    assert!(matches!(Image::new(0, 3, Vec::new()), Err(SortError::InvalidDimensions)));
}

#[test]
fn permutation_is_preserved() {
    let pixels = vec![
        px(9, 1, 4, 7),
        px(3, 3, 3, 3),
        px(9, 1, 4, 7),
        px(0, 255, 17, 80),
        px(120, 120, 240, 1),
    ];
    for mode in ALL_MODES {
        let img = image_of(5, 1, pixels.clone());
        let out = sorted_pixels(img, mode);
        assert_eq!(out.len(), pixels.len());
        let mut want: Vec<(u8, u8, u8, u8)> = pixels.iter().map(|p| (p.r, p.g, p.b, p.a)).collect();
        let mut got: Vec<(u8, u8, u8, u8)> = out.iter().map(|p| (p.r, p.g, p.b, p.a)).collect();
        want.sort();
        got.sort();
        assert_eq!(got, want);
    }
}

#[test]
fn sorting_twice_equals_sorting_once() {
    let pixels = vec![
        px(200, 10, 30, 255),
        px(5, 90, 90, 0),
        px(5, 90, 90, 200),
        px(77, 77, 77, 128),
        px(255, 255, 0, 64),
    ];
    for mode in ALL_MODES {
        let once = sorted_pixels(image_of(5, 1, pixels.clone()), mode);
        let twice = sorted_pixels(image_of(5, 1, once.clone()), mode);
        assert_eq!(twice, once);
    }
}

#[test]
fn equal_keys_keep_input_order() {
    // All four share red 5; the green channel tags their input order.
    let img = image_of(5, 1, vec![
        px(5, 1, 0, 0),
        px(9, 0, 0, 0),
        px(5, 2, 0, 0),
        px(1, 0, 0, 0),
        px(5, 3, 0, 0),
    ]);
    let out = sorted_pixels(img, Mode::Red);
    assert_eq!(out, vec![
        px(1, 0, 0, 0),
        px(5, 1, 0, 0),
        px(5, 2, 0, 0),
        px(5, 3, 0, 0),
        px(9, 0, 0, 0),
    ]);
}

#[test]
fn gray_pixels_all_tie_under_hue_and_saturation() {
    // Grays of any level keep their input order under hue and saturation.
    let grays = vec![px(200, 200, 200, 9), px(0, 0, 0, 8), px(77, 77, 77, 7)];
    let by_hue = sorted_pixels(image_of(3, 1, grays.clone()), Mode::Hue);
    assert_eq!(by_hue, grays);
    let by_sat = sorted_pixels(image_of(3, 1, grays.clone()), Mode::Saturation);
    assert_eq!(by_sat, grays);
}

#[test]
fn gray_pixel_hue_and_saturation_keys_are_zero() {
    for level in [0u8, 1, 77, 200, 255] {
        let p = px(level, level, level, 31);
        let hue = extract(Mode::Hue, p);
        assert_eq!(hue.num, 0);
        let sat = extract(Mode::Saturation, p);
        assert_eq!(sat.num, 0);
    }
}

#[test]
fn channel_modes_key_by_the_channel_byte() {
    let p = px(12, 34, 56, 78);
    assert_eq!(extract(Mode::Red, p), Key { num: 12, den: 1 });
    assert_eq!(extract(Mode::Green, p), Key { num: 34, den: 1 });
    assert_eq!(extract(Mode::Blue, p), Key { num: 56, den: 1 });
    assert_eq!(extract(Mode::Alpha, p), Key { num: 78, den: 1 });
}

#[test]
fn hue_keys_match_the_sector_formula() {
    // Pure red: hue 0.
    let red = extract(Mode::Hue, px(255, 0, 0, 0));
    assert_eq!(red.num, 0);
    // Pure green: hue 120, held as 30600 / 255.
    let green = extract(Mode::Hue, px(0, 255, 0, 0));
    assert_eq!((green.num, green.den), (30600, 255));
    assert_eq!(green.num, 120 * green.den);
    // Pure blue: hue 240, held as 61200 / 255.
    let blue = extract(Mode::Hue, px(0, 0, 255, 0));
    assert_eq!((blue.num, blue.den), (61200, 255));
    assert_eq!(blue.num, 240 * blue.den);
    // A red-max pixel with blue above green wraps past 300 degrees:
    // (255, 0, 128) gives 60 * (0 - 128 + 6 * 255) / 255 = 84120 / 255.
    let rose = extract(Mode::Hue, px(255, 0, 128, 0));
    assert_eq!((rose.num, rose.den), (84120, 255));
}

#[test]
fn saturation_keys_match_the_formula() {
    // chroma 50, channel sum 150 <= 255: 50 / 150 (one third).
    let dark = extract(Mode::Saturation, px(100, 50, 50, 0));
    assert_eq!((dark.num, dark.den), (50, 150));
    // chroma 100, channel sum 300 > 255: 100 / (510 - 300).
    let light = extract(Mode::Saturation, px(200, 100, 100, 0));
    assert_eq!((light.num, light.den), (100, 210));
    // A fully saturated primary: 255 / 255 = 1.
    let full = extract(Mode::Saturation, px(0, 255, 0, 0));
    assert_eq!((full.num, full.den), (255, 255));
}

#[test]
fn lightness_keys_match_the_formula() {
    // (max + min) / 510: here (30 + 10) / 510.
    let k = extract(Mode::Lightness, px(10, 20, 30, 0));
    assert_eq!((k.num, k.den), (40, 510));
    let white = extract(Mode::Lightness, px(255, 255, 255, 0));
    assert_eq!((white.num, white.den), (510, 510));
    let black = extract(Mode::Lightness, px(0, 0, 0, 0));
    assert_eq!((black.num, black.den), (0, 510));
}

#[test]
fn hue_orders_the_color_wheel() {
    let red = px(255, 0, 0, 0);
    let yellow = px(255, 255, 0, 0);
    let green = px(0, 255, 0, 0);
    let cyan = px(0, 255, 255, 0);
    let blue = px(0, 0, 255, 0);
    let magenta = px(255, 0, 255, 0);
    let img = image_of(2, 3, vec![magenta, cyan, red, blue, yellow, green]);
    let out = sorted_pixels(img, Mode::Hue);
    assert_eq!(out, vec![red, yellow, green, cyan, blue, magenta]);
}

#[test]
fn alpha_sorts_by_transparency() {
    let v = sort_pixel_seq(Mode::Alpha, &vec![px(1, 1, 1, 200), px(2, 2, 2, 10), px(3, 3, 3, 100)]);
    assert_eq!(v, vec![px(2, 2, 2, 10), px(3, 3, 3, 100), px(1, 1, 1, 200)]);
}

#[test]
fn empty_sequence_sorts_to_empty() {
    let out = sort_pixel_seq(Mode::Hue, &Vec::new());
    assert!(out.is_empty());
}

#[test]
fn output_dimensions_match_input() {
    let img = image_of(3, 2, vec![px(6, 5, 4, 3); 6]);
    let out = sort_pixels(img, Mode::Lightness).expect("well-formed image must sort");
    assert_eq!((out.width, out.height), (3, 2));
    assert_eq!(out.pixels.len(), 6);
}
