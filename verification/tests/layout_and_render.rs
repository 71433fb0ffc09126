use palette_generator::canvas::Canvas;
use palette_generator::color_spaces::RGBColor;
use palette_generator::layout::{
    ceil_sqrt_u8, get_block_position, get_layout_cols, get_layout_dimensions, ColorBlockLayout,
    ColorSortOrder, PaletteError,
};
use palette_generator::render::{
    draw_block, generate_image, image_from_colors, image_from_colors_ordered, paint_drawn,
};

const RED: RGBColor = RGBColor { r: 255, g: 0, b: 0 };
const GREEN: RGBColor = RGBColor { r: 0, g: 255, b: 0 };
const BLUE: RGBColor = RGBColor { r: 0, g: 0, b: 255 };
const BLACK: RGBColor = RGBColor { r: 0, g: 0, b: 0 };

fn assert_block(canvas: &Canvas, left: u32, top: u32, size: u32, color: RGBColor) {
    for x in left..left + size {
        for y in top..top + size {
            assert_eq!(canvas.get_pixel(x, y), Some(color));
        }
    }
}

#[test]
fn linear_dimensions_are_count_times_block_size() {
    assert_eq!(get_layout_dimensions(3, 2, &ColorBlockLayout::Linear), Ok((6, 2)));
    assert_eq!(get_layout_dimensions(255, 65535, &ColorBlockLayout::Linear), Ok((255 * 65535, 65535)));
    assert_eq!(get_layout_dimensions(1, 1, &ColorBlockLayout::Linear), Ok((1, 1)));
}

#[test]
fn linear_with_no_colors_is_an_empty_canvas() {
    assert_eq!(get_layout_dimensions(0, 7, &ColorBlockLayout::Linear), Ok((0, 0)));
    let canvas = image_from_colors(&vec![], 7, ColorBlockLayout::Linear).unwrap();
    assert_eq!((canvas.width(), canvas.height()), (0, 0));
    assert_eq!(canvas.get_pixel(0, 0), None);
    assert_eq!(canvas.into_raw().len(), 0);
}

#[test]
fn grid_with_no_colors_is_an_empty_canvas() {
    assert_eq!(get_layout_dimensions(0, 7, &ColorBlockLayout::Grid), Ok((0, 0)));
    let canvas = image_from_colors(&vec![], 7, ColorBlockLayout::Grid).unwrap();
    assert_eq!((canvas.width(), canvas.height()), (0, 0));
}

#[test]
fn grid_of_three_is_two_by_two() {
    assert_eq!(get_layout_cols(3, &ColorBlockLayout::Grid), 2);
    assert_eq!(get_layout_dimensions(3, 2, &ColorBlockLayout::Grid), Ok((4, 4)));
}

#[test]
fn grid_of_five_is_three_by_two() {
    assert_eq!(get_layout_cols(5, &ColorBlockLayout::Grid), 3);
    assert_eq!(get_layout_dimensions(5, 2, &ColorBlockLayout::Grid), Ok((6, 4)));
}

#[test]
fn grid_shape_matches_the_rounded_square_root_for_every_count() {
    for n in 1u32..=255 {
        let cols = (n as f64).sqrt().ceil() as u32;
        let rows = (n as f64 / cols as f64).ceil() as u32;
        assert!(cols * rows >= n);
        assert!(rows <= cols);
        assert_eq!(ceil_sqrt_u8(n as u8) as u32, cols);
        assert_eq!(
            get_layout_dimensions(n as u8, 3, &ColorBlockLayout::Grid),
            Ok((cols * 3, rows * 3))
        );
    }
}

#[test]
fn dimensions_are_multiples_of_the_block_size() {
    for n in 0u8..=255 {
        for layout in [ColorBlockLayout::Linear, ColorBlockLayout::Grid] {
            let (w, h) = get_layout_dimensions(n, 5, &layout).unwrap();
            assert_eq!(w % 5, 0);
            assert_eq!(h % 5, 0);
            assert!((w / 5) * (h / 5) >= n as u32);
        }
    }
}

#[test]
fn exact_square_counts_get_an_exact_square() {
    assert_eq!(ceil_sqrt_u8(0), 0);
    assert_eq!(ceil_sqrt_u8(1), 1);
    assert_eq!(ceil_sqrt_u8(4), 2);
    assert_eq!(ceil_sqrt_u8(16), 4);
    assert_eq!(ceil_sqrt_u8(17), 5);
    assert_eq!(ceil_sqrt_u8(225), 15);
    assert_eq!(ceil_sqrt_u8(226), 16);
    assert_eq!(ceil_sqrt_u8(255), 16);
    assert_eq!(get_layout_dimensions(16, 1, &ColorBlockLayout::Grid), Ok((4, 4)));
    assert_eq!(get_layout_dimensions(255, 1, &ColorBlockLayout::Grid), Ok((16, 16)));
}

#[test]
fn zero_block_size_gives_an_empty_canvas() {
    assert_eq!(get_layout_dimensions(3, 0, &ColorBlockLayout::Linear), Ok((0, 0)));
    assert_eq!(get_layout_dimensions(3, 0, &ColorBlockLayout::Grid), Ok((0, 0)));
    let canvas = image_from_colors(&vec![RED, GREEN], 0, ColorBlockLayout::Grid).unwrap();
    assert_eq!((canvas.width(), canvas.height()), (0, 0));
}

#[test]
fn mason_layout_is_refused() {
    assert_eq!(
        get_layout_dimensions(3, 2, &ColorBlockLayout::Mason),
        Err(PaletteError::UnsupportedLayout)
    );
    assert_eq!(
        get_block_position(0, 3, 2, &ColorBlockLayout::Mason),
        Err(PaletteError::UnsupportedLayout)
    );
    let res = image_from_colors(&vec![RED, GREEN, BLUE], 2, ColorBlockLayout::Mason);
    assert!(matches!(res, Err(PaletteError::UnsupportedLayout)));
    let res = image_from_colors(&vec![], 2, ColorBlockLayout::Mason);
    assert!(matches!(res, Err(PaletteError::UnsupportedLayout)));
}

#[test]
fn more_than_255_colors_are_refused() {
    let colors = vec![RED; 256];
    let res = image_from_colors(&colors, 1, ColorBlockLayout::Linear);
    assert!(matches!(res, Err(PaletteError::InvalidColorCount)));
    let res = image_from_colors(&colors, 1, ColorBlockLayout::Mason);
    assert!(matches!(res, Err(PaletteError::InvalidColorCount)));
    let colors = vec![RED; 255];
    let canvas = image_from_colors(&colors, 1, ColorBlockLayout::Linear).unwrap();
    assert_eq!((canvas.width(), canvas.height()), (255, 1));
}

#[test]
fn linear_positions_run_along_one_row() {
    assert_eq!(get_block_position(0, 3, 2, &ColorBlockLayout::Linear), Ok((0, 0)));
    assert_eq!(get_block_position(1, 3, 2, &ColorBlockLayout::Linear), Ok((2, 0)));
    assert_eq!(get_block_position(2, 3, 2, &ColorBlockLayout::Linear), Ok((4, 0)));
}

#[test]
fn grid_positions_fill_row_by_row() {
    assert_eq!(get_block_position(0, 3, 2, &ColorBlockLayout::Grid), Ok((0, 0)));
    assert_eq!(get_block_position(1, 3, 2, &ColorBlockLayout::Grid), Ok((2, 0)));
    assert_eq!(get_block_position(2, 3, 2, &ColorBlockLayout::Grid), Ok((0, 2)));
    assert_eq!(get_block_position(4, 5, 10, &ColorBlockLayout::Grid), Ok((10, 10)));
}

#[test]
fn three_colors_in_a_line() {
    let canvas = image_from_colors(&vec![RED, GREEN, BLUE], 2, ColorBlockLayout::Linear).unwrap();
    assert_eq!((canvas.width(), canvas.height()), (6, 2));
    assert_block(&canvas, 0, 0, 2, RED);
    assert_block(&canvas, 2, 0, 2, GREEN);
    assert_block(&canvas, 4, 0, 2, BLUE);
    assert_eq!(canvas.get_pixel(6, 0), None);
    assert_eq!(canvas.get_pixel(0, 2), None);
}

#[test]
fn three_colors_in_a_grid() {
    let canvas = image_from_colors(&vec![RED, GREEN, BLUE], 2, ColorBlockLayout::Grid).unwrap();
    assert_eq!((canvas.width(), canvas.height()), (4, 4));
    assert_block(&canvas, 0, 0, 2, RED);
    assert_block(&canvas, 2, 0, 2, GREEN);
    assert_block(&canvas, 0, 2, 2, BLUE);
    assert_block(&canvas, 2, 2, 2, BLACK);
}

#[test]
fn five_colors_in_a_grid() {
    let colors = vec![RED, GREEN, BLUE, RED, GREEN];
    let canvas = image_from_colors(&colors, 2, ColorBlockLayout::Grid).unwrap();
    assert_eq!((canvas.width(), canvas.height()), (6, 4));
    assert_block(&canvas, 0, 2, 2, RED);
    assert_block(&canvas, 2, 2, 2, GREEN);
    assert_block(&canvas, 4, 2, 2, BLACK);
}

#[test]
fn every_color_gets_one_block_and_the_blocks_tile_the_canvas() {
    for layout in [ColorBlockLayout::Linear, ColorBlockLayout::Grid] {
        for n in 1u8..=20 {
            let colors: Vec<RGBColor> =
                (0..n).map(|i| RGBColor { r: i + 1, g: 7, b: 9 }).collect();
            let bs: u32 = 3;
            let canvas = image_from_colors(&colors, 3, layout).unwrap();
            let cols = canvas.width() / bs;
            let mut painted = vec![0u32; n as usize];
            let mut blank: u32 = 0;
            for y in 0..canvas.height() {
                for x in 0..canvas.width() {
                    let px = canvas.get_pixel(x, y).unwrap();
                    if px == BLACK {
                        blank += 1;
                    } else {
                        let index = (px.r - 1) as u32;
                        assert_eq!(index, (y / bs) * cols + x / bs);
                        painted[index as usize] += 1;
                    }
                }
            }
            assert!(painted.iter().all(|count| *count == bs * bs));
            assert_eq!(blank + n as u32 * bs * bs, canvas.width() * canvas.height());
            if layout == ColorBlockLayout::Linear {
                assert_eq!(blank, 0);
            }
        }
    }
}

#[test]
fn ordered_render_paints_in_sorted_order() {
    let colors = vec![GREEN, BLUE, RED];
    let canvas =
        image_from_colors_ordered(&colors, 1, ColorBlockLayout::Linear, ColorSortOrder::Hue)
            .unwrap();
    assert_eq!(canvas.get_pixel(0, 0), Some(RED));
    assert_eq!(canvas.get_pixel(1, 0), Some(GREEN));
    assert_eq!(canvas.get_pixel(2, 0), Some(BLUE));
    let canvas = image_from_colors_ordered(
        &colors,
        1,
        ColorBlockLayout::Linear,
        ColorSortOrder::Unsorted,
    )
    .unwrap();
    assert_eq!(canvas.get_pixel(0, 0), Some(GREEN));
    assert_eq!(canvas.get_pixel(1, 0), Some(BLUE));
    assert_eq!(canvas.get_pixel(2, 0), Some(RED));
}

#[test]
fn raw_bytes_are_row_major_rgb() {
    let canvas = image_from_colors(&vec![RED, GREEN, BLUE], 1, ColorBlockLayout::Grid).unwrap();
    assert_eq!(canvas.into_raw(), vec![255, 0, 0, 0, 255, 0, 0, 0, 255, 0, 0, 0]);
}

#[test]
fn fresh_canvas_is_black() {
    let canvas = Canvas::new(3, 2);
    assert_eq!((canvas.width(), canvas.height()), (3, 2));
    assert_block(&canvas, 0, 0, 2, BLACK);
    assert_eq!(canvas.get_pixel(2, 1), Some(BLACK));
    assert_eq!(canvas.get_pixel(3, 0), None);
    assert!(Canvas::try_new(0, 0).is_some());
}

#[test]
fn put_pixel_changes_one_pixel() {
    let mut canvas = Canvas::new(2, 2);
    canvas.put_pixel(1, 0, GREEN);
    assert_eq!(canvas.get_pixel(1, 0), Some(GREEN));
    assert_eq!(canvas.get_pixel(0, 0), Some(BLACK));
    assert_eq!(canvas.get_pixel(0, 1), Some(BLACK));
    assert_eq!(canvas.get_pixel(1, 1), Some(BLACK));
}

#[test]
fn draw_block_overwrites_only_its_square() {
    let mut canvas = Canvas::new(4, 4);
    draw_block(&mut canvas, RED, 4, (0, 0));
    draw_block(&mut canvas, BLUE, 2, (1, 2));
    assert_block(&canvas, 1, 2, 2, BLUE);
    assert_block(&canvas, 0, 0, 2, RED);
    assert_eq!(canvas.get_pixel(0, 2), Some(RED));
    assert_eq!(canvas.get_pixel(3, 3), Some(RED));
    draw_block(&mut canvas, GREEN, 0, (4, 4));
    assert_eq!(canvas.get_pixel(3, 3), Some(RED));
}

#[test]
fn random_image_uses_only_the_given_colors() {
    let canvas = generate_image(4, 3, &vec![RED]);
    assert_eq!((canvas.width(), canvas.height()), (4, 3));
    assert_block(&canvas, 0, 0, 3, RED);
    let colors = vec![GREEN, BLUE];
    let canvas = generate_image(8, 8, &colors);
    for x in 0..8 {
        for y in 0..8 {
            assert!(colors.contains(&canvas.get_pixel(x, y).unwrap()));
        }
    }
    let canvas = generate_image(0, 5, &vec![]);
    assert_eq!((canvas.width(), canvas.height()), (0, 5));
}

#[test]
fn oversized_canvas_is_not_made() {
    assert!(Canvas::try_new(u32::MAX, u32::MAX).is_none());
    assert!(Canvas::try_new(u32::MAX, 0).is_some());
}

#[test]
fn drawn_color_is_painted_at_its_pixel() {
    let colors = vec![RED, GREEN, BLUE];
    let mut canvas = Canvas::new(2, 2);
    paint_drawn(&mut canvas, 1, 1, &colors, 2);
    paint_drawn(&mut canvas, 0, 1, &colors, 1);
    assert_eq!(canvas.get_pixel(1, 1), Some(BLUE));
    assert_eq!(canvas.get_pixel(0, 1), Some(GREEN));
    assert_eq!(canvas.get_pixel(0, 0), Some(BLACK));
    assert_eq!(canvas.get_pixel(1, 0), Some(BLACK));
    assert_eq!((canvas.width(), canvas.height()), (2, 2));
}
