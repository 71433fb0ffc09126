use palette_generator::color_spaces::{
    linearalize, xyz_sums, HSVColor, RGBColor, XYZColor, YUVColor,
};
use palette_generator::lab::{cube_root_u64, LABColor};
use palette_generator::layout::PaletteError;
use palette_generator::parse::{colors_from_tokens, parse_color_list};
use palette_generator::layout::ColorSortOrder;
use palette_generator::sorter::{
    build_reference_gradient, color_distance_squared, find_nearest_index, sort_by_keys,
    sort_by_reference, sort_colors, sort_colors_colormap, sort_key_of, COLOR_MAP_SIZE,
};

fn rgb(r: u8, g: u8, b: u8) -> RGBColor {
    RGBColor { r, g, b }
}

#[test]
fn black_has_no_hue_and_no_saturation() {
    let hsv = rgb(0, 0, 0).to_hsv();
    assert_eq!(hsv, HSVColor { h: 0, s: 0, v: 0 });
}

#[test]
fn grays_have_no_hue() {
    assert_eq!(rgb(128, 128, 128).to_hsv(), HSVColor { h: 0, s: 0, v: 50 });
    assert_eq!(rgb(255, 255, 255).to_hsv(), HSVColor { h: 0, s: 0, v: 100 });
}

#[test]
fn primary_and_secondary_hues() {
    assert_eq!(rgb(255, 0, 0).to_hsv(), HSVColor { h: 0, s: 100, v: 100 });
    assert_eq!(rgb(255, 255, 0).to_hsv(), HSVColor { h: 60, s: 100, v: 100 });
    assert_eq!(rgb(0, 255, 0).to_hsv(), HSVColor { h: 120, s: 100, v: 100 });
    assert_eq!(rgb(0, 255, 255).to_hsv(), HSVColor { h: 180, s: 100, v: 100 });
    assert_eq!(rgb(0, 0, 255).to_hsv(), HSVColor { h: 240, s: 100, v: 100 });
    assert_eq!(rgb(255, 0, 255).to_hsv(), HSVColor { h: 300, s: 100, v: 100 });
}

#[test]
fn mixed_color_hsv() {
    assert_eq!(rgb(200, 100, 50).to_hsv(), HSVColor { h: 20, s: 75, v: 78 });
    assert_eq!(HSVColor::from(rgb(200, 100, 50)), HSVColor { h: 20, s: 75, v: 78 });
}

#[test]
fn hsv_stays_in_range_for_sampled_colors() {
    for r in (0u16..=255).step_by(15) {
        for g in (0u16..=255).step_by(15) {
            for b in (0u16..=255).step_by(15) {
                let hsv = rgb(r as u8, g as u8, b as u8).to_hsv();
                assert!(hsv.h < 360);
                assert!(hsv.s <= 100);
                assert!(hsv.v <= 100);
            }
        }
    }
}

#[test]
fn xyz_of_primaries_and_white() {
    assert_eq!(XYZColor::from_rgb(0, 0, 0), XYZColor { x: 0, y: 0, z: 0 });
    assert_eq!(XYZColor::from_rgb(255, 0, 0), XYZColor { x: 105, y: 54, z: 4 });
    assert_eq!(XYZColor::from_rgb(255, 255, 255), XYZColor { x: 242, y: 255, z: 277 });
    assert_eq!(XYZColor::from_rgb(0, 255, 255), XYZColor { x: 137, y: 200, z: 272 });
    assert_eq!(XYZColor::from_rgb(0, 0, 255), XYZColor { x: 46, y: 18, z: 242 });
    assert_eq!(XYZColor::from(rgb(255, 0, 0)), XYZColor { x: 105, y: 54, z: 4 });
}

#[test]
fn whole_number_normalisation() {
    assert_eq!(linearalize(255, 254, 0), (1, 0, 0));
    assert_eq!(rgb(255, 128, 255).normalize(), rgb(1, 0, 1));
    let mut c = rgb(1, 255, 254);
    c.normalized();
    assert_eq!(c, rgb(0, 1, 0));
}

#[test]
fn unsorted_is_the_identity() {
    let colors = vec![rgb(3, 2, 1), rgb(0, 0, 255), rgb(3, 2, 1), rgb(255, 0, 0)];
    assert_eq!(sort_colors(&colors, ColorSortOrder::Unsorted), colors);
}

#[test]
fn empty_and_single_lists_stay_as_they_are() {
    for order in [
        ColorSortOrder::Unsorted,
        ColorSortOrder::Hue,
        ColorSortOrder::Saturation,
        ColorSortOrder::Lightness,
        ColorSortOrder::Luminance,
    ] {
        assert_eq!(sort_colors(&vec![], order), vec![]);
        assert_eq!(sort_colors(&vec![rgb(9, 8, 7)], order), vec![rgb(9, 8, 7)]);
    }
    assert_eq!(sort_colors_colormap(&vec![]), vec![]);
    assert_eq!(sort_colors_colormap(&vec![rgb(9, 8, 7)]), vec![rgb(9, 8, 7)]);
}

#[test]
fn sort_by_hue_ascends() {
    let colors = vec![rgb(0, 0, 255), rgb(0, 255, 0), rgb(255, 0, 0)];
    assert_eq!(
        sort_colors(&colors, ColorSortOrder::Hue),
        vec![rgb(255, 0, 0), rgb(0, 255, 0), rgb(0, 0, 255)]
    );
}

#[test]
fn equal_keys_keep_their_order() {
    let colors = vec![rgb(0, 0, 255), rgb(128, 0, 0), rgb(255, 0, 0), rgb(64, 0, 0)];
    assert_eq!(
        sort_colors(&colors, ColorSortOrder::Hue),
        vec![rgb(128, 0, 0), rgb(255, 0, 0), rgb(64, 0, 0), rgb(0, 0, 255)]
    );
}

#[test]
fn sort_by_saturation_ascends() {
    let colors = vec![rgb(255, 0, 0), rgb(200, 100, 50), rgb(128, 128, 128)];
    assert_eq!(
        sort_colors(&colors, ColorSortOrder::Saturation),
        vec![rgb(128, 128, 128), rgb(200, 100, 50), rgb(255, 0, 0)]
    );
}

#[test]
fn sort_by_luminance_and_lightness_ascends() {
    let colors = vec![rgb(0, 255, 0), rgb(255, 0, 0), rgb(0, 0, 255)];
    let expected = vec![rgb(0, 0, 255), rgb(255, 0, 0), rgb(0, 255, 0)];
    assert_eq!(sort_colors(&colors, ColorSortOrder::Luminance), expected);
    assert_eq!(sort_colors(&colors, ColorSortOrder::Lightness), expected);
}

#[test]
fn sort_keys_have_their_exact_values() {
    let c = rgb(200, 100, 50);
    assert_eq!(sort_key_of(ColorSortOrder::Unsorted, c), 0);
    assert_eq!(sort_key_of(ColorSortOrder::Hue, c), 20);
    assert_eq!(sort_key_of(ColorSortOrder::Saturation, c), 75);
    assert_eq!(sort_key_of(ColorSortOrder::Luminance, c), 2126 * 200 + 7152 * 100 + 722 * 50);
    assert_eq!(sort_key_of(ColorSortOrder::Lightness, c), 7363);
}

#[test]
fn sort_by_keys_is_stable_and_ascending() {
    let colors = vec![rgb(1, 0, 0), rgb(2, 0, 0), rgb(3, 0, 0), rgb(4, 0, 0)];
    assert_eq!(
        sort_by_keys(&colors, &vec![5, 1, 5, 0]),
        vec![rgb(4, 0, 0), rgb(2, 0, 0), rgb(1, 0, 0), rgb(3, 0, 0)]
    );
}

#[test]
fn distance_is_the_sum_of_squares() {
    assert_eq!(color_distance_squared(rgb(0, 0, 0), rgb(255, 255, 255)), 195075);
    assert_eq!(color_distance_squared(rgb(10, 20, 30), rgb(13, 16, 30)), 25);
    assert_eq!(color_distance_squared(rgb(13, 16, 30), rgb(10, 20, 30)), 25);
}

#[test]
fn nearest_index_keeps_the_first_of_equals() {
    let samples = vec![rgb(10, 0, 0), rgb(0, 0, 0), rgb(0, 0, 0), rgb(2, 0, 0)];
    assert_eq!(find_nearest_index(rgb(0, 0, 0), &samples), 1);
    assert_eq!(find_nearest_index(rgb(1, 0, 0), &samples), 1);
    assert_eq!(find_nearest_index(rgb(3, 0, 0), &samples), 3);
    assert_eq!(find_nearest_index(rgb(200, 0, 0), &samples), 0);
    assert_eq!(find_nearest_index(rgb(200, 0, 0), &vec![]), 0);
}

#[test]
fn reference_sort_puts_the_latest_sample_first() {
    let samples = vec![rgb(0, 0, 0), rgb(100, 100, 100), rgb(200, 200, 200)];
    let colors = vec![rgb(10, 10, 10), rgb(190, 190, 190), rgb(0, 5, 0), rgb(90, 110, 100)];
    assert_eq!(
        sort_by_reference(&colors, &samples),
        vec![rgb(190, 190, 190), rgb(90, 110, 100), rgb(10, 10, 10), rgb(0, 5, 0)]
    );
    assert_eq!(sort_by_reference(&colors, &vec![]), colors);
}

#[test]
fn reference_gradient_is_a_hundred_turbo_samples() {
    let samples = build_reference_gradient();
    assert_eq!(samples.len(), COLOR_MAP_SIZE);
    assert_eq!(samples.len(), 100);
    assert_eq!(samples[0], rgb(34, 23, 27));
    assert_eq!(samples[99], rgb(144, 12, 0));
    assert_ne!(samples[0], samples[50]);
}

#[test]
fn colormap_sort_runs_the_ramp_backwards() {
    let start = rgb(34, 23, 27);
    let end = rgb(144, 12, 0);
    assert_eq!(sort_colors_colormap(&vec![start, end]), vec![end, start]);
    assert_eq!(sort_colors_colormap(&vec![end, start]), vec![end, start]);
    let samples = build_reference_gradient();
    let colors = vec![samples[10], samples[80], samples[40]];
    assert_eq!(sort_colors_colormap(&colors), vec![samples[80], samples[40], samples[10]]);
}

#[test]
fn yuv_of_sampled_colors() {
    assert_eq!(rgb(0, 0, 0).to_yuv(), YUVColor { y: 0, u: 128000, v: 128000 });
    assert_eq!(rgb(255, 255, 255).to_yuv(), YUVColor { y: 255000, u: 128000, v: 128000 });
    assert_eq!(rgb(255, 0, 0).to_yuv(), YUVColor { y: 76245, u: 90487, v: 284768 });
    assert_eq!(rgb(0, 255, 0).to_yuv(), YUVColor { y: 149685, u: 54354, v: -3274 });
    assert_eq!(YUVColor::from(rgb(200, 100, 50)), YUVColor { y: 124200, u: 91493, v: 194476 });
}

#[test]
fn rgb_of_yuv_rounds_down_and_saturates() {
    assert_eq!(RGBColor::from_yuv(YUVColor { y: 0, u: 128000, v: 128000 }), rgb(0, 0, 0));
    assert_eq!(
        RGBColor::from_yuv(YUVColor { y: 255000, u: 128000, v: 128000 }),
        rgb(255, 255, 255)
    );
    assert_eq!(RGBColor::from_yuv(YUVColor { y: 76245, u: 90487, v: 284768 }), rgb(255, 0, 9));
    assert_eq!(RGBColor::from(YUVColor { y: 124200, u: 91493, v: 194476 }), rgb(217, 89, 59));
    assert_eq!(
        RGBColor::from_yuv(YUVColor { y: i32::MAX, u: i32::MAX, v: i32::MIN }),
        rgb(0, 255, 255)
    );
    assert_eq!(
        RGBColor::from_yuv(YUVColor { y: i32::MIN, u: i32::MIN, v: i32::MAX }),
        rgb(255, 0, 0)
    );
}

#[test]
fn gray_survives_the_way_through_yuv() {
    for v in [0u8, 1, 17, 128, 254, 255] {
        assert_eq!(RGBColor::from_yuv(rgb(v, v, v).to_yuv()), rgb(v, v, v));
    }
}

#[test]
fn cube_roots_round_down() {
    assert_eq!(cube_root_u64(0), 0);
    assert_eq!(cube_root_u64(1), 1);
    assert_eq!(cube_root_u64(26), 2);
    assert_eq!(cube_root_u64(27), 3);
    assert_eq!(cube_root_u64(1_000_000_000_000), 10000);
    assert_eq!(cube_root_u64(i64::MAX as u64), 2097151);
}

#[test]
fn lab_of_sampled_colors() {
    assert_eq!(rgb(0, 0, 0).to_lab(), LABColor { l: 0, a: 0, b: 0 });
    assert_eq!(rgb(255, 0, 0).to_lab(), LABColor { l: 5324, a: 8005, b: 6722 });
    assert_eq!(rgb(0, 255, 0).to_lab(), LABColor { l: 8772, a: -8620, b: 8318 });
    assert_eq!(rgb(0, 0, 255).to_lab(), LABColor { l: 3229, a: 7920, b: -10786 });
    assert_eq!(rgb(0, 255, 255).to_lab(), LABColor { l: 9110, a: -4805, b: -1414 });
    assert_eq!(rgb(255, 255, 0).to_lab(), LABColor { l: 9713, a: -2155, b: 9448 });
    assert_eq!(rgb(255, 0, 255).to_lab(), LABColor { l: 6031, a: 9825, b: -6082 });
    assert_eq!(LABColor::from(rgb(200, 100, 50)), LABColor { l: 7363, a: 1700, b: 3238 });
}

#[test]
fn white_is_neutral_and_fully_light() {
    let white = rgb(255, 255, 255).to_lab();
    assert_eq!(white, LABColor { l: 10000, a: -5, b: 2 });
    assert!(white.a.abs() <= 5 && white.b.abs() <= 5);
}

#[test]
fn grays_are_neutral() {
    for v in 0u8..=255 {
        let lab = rgb(v, v, v).to_lab();
        assert!(lab.a.abs() <= 5);
        assert!(lab.b.abs() <= 5);
    }
    assert_eq!(rgb(128, 128, 128).to_lab(), LABColor { l: 7618, a: 0, b: 0 });
    assert_eq!(rgb(1, 1, 1).to_lab(), LABColor { l: 353, a: 0, b: 0 });
}

#[test]
fn lightness_stays_between_0_and_100() {
    for r in (0u16..=255).step_by(15) {
        for g in (0u16..=255).step_by(15) {
            for b in (0u16..=255).step_by(15) {
                let lab = rgb(r as u8, g as u8, b as u8).to_lab();
                assert!(0 <= lab.l && lab.l <= 10000);
            }
        }
    }
}

#[test]
fn color_list_of_hex_colors() {
    assert_eq!(
        parse_color_list("#FF0000,#00ff00,#0000FF"),
        Ok(vec![rgb(255, 0, 0), rgb(0, 255, 0), rgb(0, 0, 255)])
    );
    assert_eq!(parse_color_list("#abc"), Ok(vec![rgb(0xaa, 0xbb, 0xcc)]));
    assert_eq!(parse_color_list("#12345678"), Ok(vec![rgb(0x12, 0x34, 0x56)]));
    assert_eq!(parse_color_list(""), Ok(vec![]));
}

#[test]
fn malformed_color_lists_are_refused() {
    assert_eq!(parse_color_list("#FF0000,red"), Err(PaletteError::MalformedColorInput));
    assert_eq!(parse_color_list("FF0000"), Err(PaletteError::MalformedColorInput));
    assert_eq!(parse_color_list("#FF00"), Ok(vec![rgb(0xff, 0xff, 0x00)]));
    assert_eq!(parse_color_list("#FF00G0"), Err(PaletteError::MalformedColorInput));
    assert_eq!(parse_color_list("#FF0000,"), Err(PaletteError::MalformedColorInput));
    assert_eq!(
        parse_color_list("#FF0000,#00FF00\n#0000FF"),
        Err(PaletteError::MalformedColorInput)
    );
}

#[test]
fn tokens_parse_one_by_one() {
    let tokens = vec![String::from("#010203"), String::from("#fff")];
    assert_eq!(colors_from_tokens(&tokens), Ok(vec![rgb(1, 2, 3), rgb(255, 255, 255)]));
    let tokens = vec![String::from("#010203"), String::from("")];
    assert_eq!(colors_from_tokens(&tokens), Err(PaletteError::MalformedColorInput));
    assert_eq!(colors_from_tokens(&vec![]), Ok(vec![]));
}

#[test]
fn every_order_keeps_the_colors_and_ascends() {
    let colors: Vec<RGBColor> = (0u32..60)
        .map(|i| rgb((i * 37 % 256) as u8, (i * 91 % 256) as u8, (i * 53 % 256) as u8))
        .collect();
    for order in [
        ColorSortOrder::Hue,
        ColorSortOrder::Saturation,
        ColorSortOrder::Lightness,
        ColorSortOrder::Luminance,
    ] {
        let sorted = sort_colors(&colors, order);
        assert_eq!(sorted.len(), colors.len());
        for c in &colors {
            let before = colors.iter().filter(|x| *x == c).count();
            let after = sorted.iter().filter(|x| *x == c).count();
            assert_eq!(before, after);
        }
        for pair in sorted.windows(2) {
            assert!(sort_key_of(order, pair[0]) <= sort_key_of(order, pair[1]));
        }
    }
    let samples = build_reference_gradient();
    let sorted = sort_colors_colormap(&colors);
    assert_eq!(sorted.len(), colors.len());
    for pair in sorted.windows(2) {
        assert!(find_nearest_index(pair[0], &samples) >= find_nearest_index(pair[1], &samples));
    }
}

fn gamma_encoded(v: f64) -> f64 {
    if v <= 0.0031308 {
        v * 12.92
    } else {
        1.055 * v.powf(1.0 / 2.4) - 0.055
    }
}

fn channel_back(row: [f64; 3], xyz: XYZColor) -> i32 {
    let linear =
        (row[0] * xyz.x as f64 + row[1] * xyz.y as f64 + row[2] * xyz.z as f64) / 255.0;
    ((gamma_encoded(linear) * 255.0).round() as i32).clamp(0, 255)
}

#[test]
fn xyz_leads_back_to_the_sampled_colors() {
    for r in [0u8, 255] {
        for g in [0u8, 255] {
            for b in [0u8, 255] {
                let xyz = XYZColor::from_rgb(r, g, b);
                let back = [
                    channel_back([3.2404542, -1.5371385, -0.4985314], xyz),
                    channel_back([-0.9692660, 1.8760108, 0.0415560], xyz),
                    channel_back([0.0556434, -0.2040259, 1.0572252], xyz),
                ];
                assert!((back[0] - r as i32).abs() <= 13);
                assert!((back[1] - g as i32).abs() <= 13);
                assert!((back[2] - b as i32).abs() <= 13);
            }
        }
    }
    let xyz = XYZColor::from_rgb(255, 255, 255);
    assert_eq!(channel_back([0.0556434, -0.2040259, 1.0572252], xyz), 255);
}

#[test]
fn matrix_sums_are_exact() {
    assert_eq!(xyz_sums(0, 0, 0), (0, 0, 0));
    assert_eq!(xyz_sums(255, 255, 255), (2423698500, 2550000255, 2776516500));
    assert_eq!(xyz_sums(1, 2, 3), (16689211, 18595023, 31086302));
}
