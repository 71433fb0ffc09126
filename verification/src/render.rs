//! Painting a palette: one solid square block per color, placed by the
//! layout, on a black canvas.

use crate::canvas::{black, Canvas};
use crate::color_spaces::RGBColor;
use crate::layout::{
    get_layout_cols, get_layout_dimensions, layout_cols, layout_dimensions, layout_rows,
    layout_supported, lemma_dimensions_are_multiples, block_position, ColorBlockLayout,
    ColorSortOrder, PaletteError,
};
use crate::sorter::{lemma_sort_orders, sort_colors, sorted_colors};
use rand::Rng;
use vstd::arithmetic::div_mod::{
    lemma_fundamental_div_mod, lemma_fundamental_div_mod_converse, lemma_mod_bound,
};
use vstd::prelude::*;

verus! {

/// Whether pixel `(x, y)` lies in the square of side `size` whose top-left
/// corner is `(left, top)`.
pub open spec fn in_block(x: int, y: int, left: int, top: int, size: int) -> bool {
    left <= x < left + size && top <= y < top + size
}

/// The index of the block whose cell holds pixel `(x, y)`, cells of side `bs`
/// counted row by row, `cols` to a row.
pub open spec fn cell_index(x: int, y: int, bs: int, cols: int) -> int {
    (y / bs) * cols + x / bs
}

/// The color that a palette shows at `(x, y)`: that of the block whose cell
/// holds the pixel, black where the cell has no block.
pub open spec fn palette_pixel(colors: Seq<RGBColor>, bs: int, cols: int, x: int, y: int) -> RGBColor {
    let index = cell_index(x, y, bs, cols);
    if 0 <= index < colors.len() {
        colors[index]
    } else {
        black()
    }
}

/// Whether `canvas` is the palette of `colors`: of the layout's size, every
/// pixel in the color of its block.
pub open spec fn is_palette(
    canvas: Canvas,
    colors: Seq<RGBColor>,
    bs: nat,
    layout: ColorBlockLayout,
) -> bool {
    &&& canvas.spec_width() == layout_dimensions(colors.len(), bs, layout).0
    &&& canvas.spec_height() == layout_dimensions(colors.len(), bs, layout).1
    &&& forall|x: int, y: int| #[trigger]
        canvas.contains(x, y) ==> canvas.spec_pixel(x, y) == palette_pixel(
            colors,
            bs as int,
            layout_cols(colors.len(), layout) as int,
            x,
            y,
        )
}

/// `x / d == q` exactly when `x` lies in the `q`-th stretch of length `d`.
pub proof fn lemma_quotient_stretch(x: int, d: int, q: int)
    requires
        d > 0,
    ensures
        x / d == q <==> q * d <= x < q * d + d,
{
    lemma_fundamental_div_mod(x, d);
    lemma_mod_bound(x, d);
    if q * d <= x < q * d + d {
        lemma_fundamental_div_mod_converse(x, d, q, x - q * d);
    } else {
        assert(d * (x / d) == (x / d) * d) by (nonlinear_arith);
    }
}

/// On a canvas of `cols` by `rows` cells of side `bs`, a pixel lies in the
/// square of block `i` exactly when its cell has index `i`; and the square
/// lies on the canvas.
pub proof fn lemma_block_cell(i: int, bs: int, cols: int, rows: int, x: int, y: int)
    requires
        bs > 0,
        cols > 0,
        0 <= i < cols * rows,
        0 <= x < cols * bs,
        0 <= y < rows * bs,
    ensures
        in_block(x, y, (i % cols) * bs, (i / cols) * bs, bs) <==> cell_index(x, y, bs, cols) == i,
        0 <= cell_index(x, y, bs, cols) < cols * rows,
{
    let a = x / bs;
    let b = y / bs;
    let c = i % cols;
    let r = i / cols;
    lemma_fundamental_div_mod(i, cols);
    lemma_mod_bound(i, cols);
    lemma_fundamental_div_mod(x, bs);
    lemma_mod_bound(x, bs);
    lemma_fundamental_div_mod(y, bs);
    lemma_mod_bound(y, bs);
    lemma_quotient_stretch(x, bs, c);
    lemma_quotient_stretch(y, bs, r);
    assert(0 <= a < cols && 0 <= b < rows) by (nonlinear_arith)
        requires
            x == bs * a + x % bs,
            y == bs * b + y % bs,
            0 <= x % bs < bs,
            0 <= y % bs < bs,
            0 <= x < cols * bs,
            0 <= y < rows * bs,
            bs > 0,
    ;
    assert(0 <= b * cols + a < cols * rows) by (nonlinear_arith)
        requires
            0 <= a < cols,
            0 <= b < rows,
    ;
    if b * cols + a == i {
        lemma_fundamental_div_mod_converse(i, cols, b, a);
    }
    if a == c && b == r {
        assert(b * cols == cols * r) by (nonlinear_arith)
            requires
                b == r,
        ;
    }
}

/// The square of every block lies on the canvas of its layout.
pub proof fn lemma_block_on_canvas(i: nat, n: nat, bs: nat, layout: ColorBlockLayout)
    requires
        i < n,
        layout_supported(layout),
    ensures
        block_position(i, n, bs, layout).0 + bs <= layout_dimensions(n, bs, layout).0,
        block_position(i, n, bs, layout).1 + bs <= layout_dimensions(n, bs, layout).1,
        layout_cols(n, layout) > 0,
{
    lemma_dimensions_are_multiples(n, bs, layout);
    let cols = layout_cols(n, layout) as int;
    let rows = layout_rows(n, layout) as int;
    assert(cols > 0) by (nonlinear_arith)
        requires
            cols * rows >= n,
            n > 0,
            cols >= 0,
            rows >= 0,
    ;
    lemma_fundamental_div_mod(i as int, cols);
    lemma_mod_bound(i as int, cols);
    let c = i as int % cols;
    let r = i as int / cols;
    assert(r < rows && r >= 0) by (nonlinear_arith)
        requires
            i == cols * r + c,
            0 <= c < cols,
            i < cols * rows,
            i >= 0,
    ;
    assert(c * bs + bs <= cols * bs && r * bs + bs <= rows * bs) by (nonlinear_arith)
        requires
            0 <= c < cols,
            0 <= r < rows,
            bs >= 0,
    ;
}

/// The blocks of a palette tile its canvas: each square lies on the canvas,
/// two different blocks share no pixel, and every pixel whose cell has a
/// block lies in that block's square. Where the blocks fill the grid, so for
/// every single row, each pixel of the canvas is covered.
pub proof fn lemma_blocks_tile(n: nat, bs: nat, layout: ColorBlockLayout)
    requires
        layout_supported(layout),
        bs > 0,
    ensures
        forall|i: nat|
            i < n ==> #[trigger] block_position(i, n, bs, layout).0 + bs <= layout_dimensions(
                n,
                bs,
                layout,
            ).0 && block_position(i, n, bs, layout).1 + bs <= layout_dimensions(n, bs, layout).1,
        forall|i: nat, j: nat, x: int, y: int|
            i < n && j < n && i != j && #[trigger] in_block(
                x,
                y,
                block_position(i, n, bs, layout).0 as int,
                block_position(i, n, bs, layout).1 as int,
                bs as int,
            ) ==> !#[trigger] in_block(
                x,
                y,
                block_position(j, n, bs, layout).0 as int,
                block_position(j, n, bs, layout).1 as int,
                bs as int,
            ),
        forall|x: int, y: int|
            0 <= x < layout_dimensions(n, bs, layout).0 && 0 <= y < layout_dimensions(
                n,
                bs,
                layout,
            ).1 && #[trigger] cell_index(x, y, bs as int, layout_cols(n, layout) as int) < n
                ==> in_block(
                x,
                y,
                block_position(
                    cell_index(x, y, bs as int, layout_cols(n, layout) as int) as nat,
                    n,
                    bs,
                    layout,
                ).0 as int,
                block_position(
                    cell_index(x, y, bs as int, layout_cols(n, layout) as int) as nat,
                    n,
                    bs,
                    layout,
                ).1 as int,
                bs as int,
            ),
        forall|x: int, y: int|
            n == layout_cols(n, layout) * layout_rows(n, layout) && 0 <= x < layout_dimensions(
                n,
                bs,
                layout,
            ).0 && 0 <= y < layout_dimensions(n, bs, layout).1 ==> 0 <= #[trigger] cell_index(
                x,
                y,
                bs as int,
                layout_cols(n, layout) as int,
            ) < n,
{
    lemma_dimensions_are_multiples(n, bs, layout);
    let cols = layout_cols(n, layout) as int;
    let rows = layout_rows(n, layout) as int;
    let w = layout_dimensions(n, bs, layout).0 as int;
    let h = layout_dimensions(n, bs, layout).1 as int;
    assert forall|i: nat| i < n implies #[trigger] block_position(i, n, bs, layout).0 + bs <= w
        && block_position(i, n, bs, layout).1 + bs <= h by {
        lemma_block_on_canvas(i, n, bs, layout);
    }
    assert forall|i: nat, j: nat, x: int, y: int|
        i < n && j < n && i != j && #[trigger] in_block(
            x,
            y,
            block_position(i, n, bs, layout).0 as int,
            block_position(i, n, bs, layout).1 as int,
            bs as int,
        ) implies !#[trigger] in_block(
        x,
        y,
        block_position(j, n, bs, layout).0 as int,
        block_position(j, n, bs, layout).1 as int,
        bs as int,
    ) by {
        lemma_block_on_canvas(i, n, bs, layout);
        lemma_block_on_canvas(j, n, bs, layout);
        if in_block(
            x,
            y,
            block_position(j, n, bs, layout).0 as int,
            block_position(j, n, bs, layout).1 as int,
            bs as int,
        ) {
            lemma_block_cell(i as int, bs as int, cols, rows, x, y);
            lemma_block_cell(j as int, bs as int, cols, rows, x, y);
        }
    }
    assert forall|x: int, y: int|
        0 <= x < w && 0 <= y < h && #[trigger] cell_index(x, y, bs as int, cols) < n implies in_block(
        x,
        y,
        block_position(cell_index(x, y, bs as int, cols) as nat, n, bs, layout).0 as int,
        block_position(cell_index(x, y, bs as int, cols) as nat, n, bs, layout).1 as int,
        bs as int,
    ) by {
        assert(cols > 0) by (nonlinear_arith)
            requires
                0 <= x < cols * bs,
                cols >= 0,
                bs > 0,
        ;
        assert(cols * rows > 0) by (nonlinear_arith)
            requires
                0 <= x < cols * bs,
                0 <= y < rows * bs,
                cols >= 0,
                rows >= 0,
                bs > 0,
        ;
        lemma_block_cell(0, bs as int, cols, rows, x, y);
        lemma_block_cell(cell_index(x, y, bs as int, cols), bs as int, cols, rows, x, y);
    }
    assert forall|x: int, y: int| n == cols * rows && 0 <= x < w && 0 <= y < h implies 0
        <= #[trigger] cell_index(x, y, bs as int, cols) < n by {
        assert(cols > 0) by (nonlinear_arith)
            requires
                0 <= x < cols * bs,
                cols >= 0,
                bs > 0,
        ;
        assert(cols * rows > 0) by (nonlinear_arith)
            requires
                0 <= x < cols * bs,
                0 <= y < rows * bs,
                cols >= 0,
                rows >= 0,
                bs > 0,
        ;
        lemma_block_cell(0, bs as int, cols, rows, x, y);
    }
}

/// What rendering `colors` returns: the failure, or the palette of the
/// colors in the requested order.
pub open spec fn render_outcome(
    res: Result<Canvas, PaletteError>,
    colors: Seq<RGBColor>,
    bs: nat,
    layout: ColorBlockLayout,
    order: ColorSortOrder,
) -> bool {
    if colors.len() > 255 {
        res is Err && res->Err_0 == PaletteError::InvalidColorCount
    } else if !layout_supported(layout) {
        res is Err && res->Err_0 == PaletteError::UnsupportedLayout
    } else if !Canvas::fits(
        layout_dimensions(colors.len(), bs, layout).0,
        layout_dimensions(colors.len(), bs, layout).1,
    ) {
        res is Err && res->Err_0 == PaletteError::CanvasTooLarge
    } else {
        res is Ok && is_palette(res->Ok_0, sorted_colors(colors, order), bs, layout)
    }
}

/// A canvas of at most `2^31 - 1` bytes fits a vector on every machine.
pub proof fn lemma_small_canvas_fits(width: nat, height: nat)
    requires
        3 * (width * height) <= 0x7fff_ffff,
    ensures
        Canvas::fits(width, height),
{
    assert(usize::MAX >= 0xffff_ffff);
}

/// Rendering at most 255 colors in a layout with geometry, on a canvas that
/// fits a vector, succeeds, and the blocks tile the canvas: the canvas is
/// `cols` by `rows` blocks large, the square of block `i` lies on it and
/// shows the `i`-th color of the requested order all over, and every pixel
/// shows the color of the block whose cell holds it, black where the cell
/// has none. In a single row no pixel is left black.
pub proof fn lemma_rendered_palette(
    res: Result<Canvas, PaletteError>,
    colors: Seq<RGBColor>,
    bs: nat,
    layout: ColorBlockLayout,
    order: ColorSortOrder,
)
    requires
        render_outcome(res, colors, bs, layout, order),
        colors.len() <= 255,
        layout_supported(layout),
        Canvas::fits(
            layout_dimensions(colors.len(), bs, layout).0,
            layout_dimensions(colors.len(), bs, layout).1,
        ),
    ensures
        res is Ok,
        res->Ok_0.spec_width() == layout_cols(colors.len(), layout) * bs,
        res->Ok_0.spec_height() == layout_rows(colors.len(), layout) * bs,
        sorted_colors(colors, order).len() == colors.len(),
        forall|i: nat, x: int, y: int|
            i < colors.len() && #[trigger] in_block(
                x,
                y,
                block_position(i, colors.len(), bs, layout).0 as int,
                block_position(i, colors.len(), bs, layout).1 as int,
                bs as int,
            ) ==> res->Ok_0.contains(x, y) && res->Ok_0.spec_pixel(x, y) == sorted_colors(
                colors,
                order,
            )[i as int],
        forall|x: int, y: int| #[trigger]
            res->Ok_0.contains(x, y) ==> res->Ok_0.spec_pixel(x, y) == palette_pixel(
                sorted_colors(colors, order),
                bs as int,
                layout_cols(colors.len(), layout) as int,
                x,
                y,
            ),
        layout == ColorBlockLayout::Linear ==> forall|x: int, y: int| #[trigger]
            res->Ok_0.contains(x, y) ==> 0 <= x / (bs as int) < colors.len()
                && res->Ok_0.spec_pixel(x, y) == sorted_colors(colors, order)[x / (bs as int)],
{
    let n = colors.len();
    let canvas = res->Ok_0;
    let sorted = sorted_colors(colors, order);
    let cols = layout_cols(n, layout) as int;
    let rows = layout_rows(n, layout) as int;
    lemma_sort_orders(colors, order);
    lemma_dimensions_are_multiples(n, bs, layout);
    assert forall|i: nat, x: int, y: int|
        i < n && #[trigger] in_block(
            x,
            y,
            block_position(i, n, bs, layout).0 as int,
            block_position(i, n, bs, layout).1 as int,
            bs as int,
        ) implies canvas.contains(x, y) && canvas.spec_pixel(x, y) == sorted[i as int] by {
        lemma_block_on_canvas(i, n, bs, layout);
        assert(canvas.contains(x, y));
        lemma_block_cell(i as int, bs as int, cols, rows, x, y);
    }
    if layout == ColorBlockLayout::Linear {
        assert forall|x: int, y: int| #[trigger] canvas.contains(x, y) implies 0 <= x / (bs as int)
            < n && canvas.spec_pixel(x, y) == sorted[x / (bs as int)] by {
            let b = bs as int;
            assert(b > 0 && cols > 0 && rows == 1) by (nonlinear_arith)
                requires
                    0 <= x < cols * b,
                    0 <= y < rows * b,
                    cols >= 0,
                    rows >= 0,
                    rows <= 1,
                    b >= 0,
            ;
            assert(0 * b == 0 && 0 * cols == 0 && cols * 1 == cols && 1 * b == b)
                by (nonlinear_arith);
            lemma_quotient_stretch(y, b, 0);
            assert(y / b == 0);
            lemma_block_cell(0, b, cols, rows, x, y);
            assert(cell_index(x, y, b, cols) == x / b);
        }
    }
}

/// Paints the square of side `size` at `pos` in one color; every pixel
/// outside the square stays as it was.
pub fn draw_block(img: &mut Canvas, color: RGBColor, size: u16, pos: (u32, u32))
    requires
        pos.0 + size <= old(img).spec_width(),
        pos.1 + size <= old(img).spec_height(),
    ensures
        final(img).spec_width() == old(img).spec_width(),
        final(img).spec_height() == old(img).spec_height(),
        forall|x: int, y: int|
            #[trigger] final(img).spec_pixel(x, y) == if in_block(
                x,
                y,
                pos.0 as int,
                pos.1 as int,
                size as int,
            ) {
                color
            } else {
                old(img).spec_pixel(x, y)
            },
{
    let (left, top) = pos;
    let width: u32 = img.width();
    let height: u32 = img.height();
    let ghost before = *img;
    let mut i: u16 = 0;
    while i < size
        invariant
            i <= size,
            left + size <= width,
            top + size <= height,
            img.spec_width() == width,
            img.spec_height() == height,
            forall|x: int, y: int|
                #[trigger] img.spec_pixel(x, y) == if left <= x < left + i && top <= y < top
                    + size {
                    color
                } else {
                    before.spec_pixel(x, y)
                },
        decreases size - i,
    {
        let mut j: u16 = 0;
        while j < size
            invariant
                i < size,
                j <= size,
                left + size <= width,
                top + size <= height,
                img.spec_width() == width,
                img.spec_height() == height,
                forall|x: int, y: int|
                    #[trigger] img.spec_pixel(x, y) == if (left <= x < left + i && top <= y < top
                        + size) || (x == left + i && top <= y < top + j) {
                        color
                    } else {
                        before.spec_pixel(x, y)
                    },
            decreases size - j,
        {
            let px: u32 = left + i as u32;
            let py: u32 = top + j as u32;
            img.put_pixel(px, py, color);
            j = j + 1;
        }
        i = i + 1;
    }
}

/// The palette of `colors` in the requested order: a black canvas of the
/// layout's size with one block of side `block_size` per color, placed row by
/// row. More than 255 colors are refused, then a layout without geometry,
/// then a canvas of more bytes than a vector can hold.
pub fn image_from_colors_ordered(
    colors: &Vec<RGBColor>,
    block_size: u16,
    layout: ColorBlockLayout,
    order: ColorSortOrder,
) -> (res: Result<Canvas, PaletteError>)
    ensures
        render_outcome(res, colors@, block_size as nat, layout, order),
{
    if colors.len() > 255 {
        return Err(PaletteError::InvalidColorCount);
    }
    let count: u8 = colors.len() as u8;
    let (width, height) = match get_layout_dimensions(count, block_size, &layout) {
        Ok(dimensions) => dimensions,
        Err(e) => {
            return Err(e);
        },
    };
    let mut canvas = match Canvas::try_new(width, height) {
        Some(canvas) => canvas,
        None => {
            return Err(PaletteError::CanvasTooLarge);
        },
    };
    let sorted = sort_colors(colors, order);
    let cols: u32 = get_layout_cols(count, &layout) as u32;
    let ghost n = colors@.len();
    let ghost bs = block_size as nat;
    let ghost rows = layout_rows(n, layout) as int;
    proof {
        lemma_dimensions_are_multiples(n, bs, layout);
    }
    let mut i: usize = 0;
    while i < sorted.len()
        invariant
            i <= sorted.len(),
            sorted.len() == n,
            n == count,
            n <= 255,
            cols == layout_cols(n, layout),
            rows == layout_rows(n, layout),
            bs == block_size,
            layout_supported(layout),
            width == cols * bs,
            height == rows * bs,
            cols * rows >= n,
            canvas.spec_width() == width,
            canvas.spec_height() == height,
            forall|x: int, y: int| #[trigger]
                canvas.contains(x, y) ==> canvas.spec_pixel(x, y) == palette_pixel(
                    sorted@.take(i as int),
                    bs as int,
                    cols as int,
                    x,
                    y,
                ),
        decreases sorted.len() - i,
    {
        proof {
            lemma_block_on_canvas(i as nat, n, bs, layout);
        }
        let col: u32 = i as u32 % cols;
        let row: u32 = i as u32 / cols;
        proof {
            lemma_fundamental_div_mod(i as int, cols as int);
            assert(col * block_size <= 255 * 65535 && row * block_size <= 255 * 65535)
                by (nonlinear_arith)
                requires
                    i == cols * row + col,
                    cols >= 1,
                    i <= 255,
                    row >= 0,
                    col >= 0,
                    block_size <= 65535,
            ;
        }
        let left: u32 = col * block_size as u32;
        let top: u32 = row * block_size as u32;
        let ghost before = canvas;
        draw_block(&mut canvas, sorted[i], block_size, (left, top));
        proof {
            let shown = sorted@.take(i as int);
            let next = sorted@.take(i + 1);
            assert forall|x: int, y: int| #[trigger] canvas.contains(x, y) implies canvas.spec_pixel(
                x,
                y,
            ) == palette_pixel(next, bs as int, cols as int, x, y) by {
                assert(before.contains(x, y));
                assert(bs > 0) by (nonlinear_arith)
                    requires
                        0 <= x < cols * bs,
                        cols >= 0,
                        bs >= 0,
                ;
                lemma_block_cell(i as int, bs as int, cols as int, rows, x, y);
                let cell = cell_index(x, y, bs as int, cols as int);
                if cell < i {
                    assert(next[cell] == shown[cell]);
                }
            }
        }
        i = i + 1;
    }
    assert(sorted@.take(n as int) =~= sorted@);
    Ok(canvas)
}

/// The palette of `colors` in the order given.
pub fn image_from_colors(colors: &Vec<RGBColor>, block_size: u16, layout: ColorBlockLayout) -> (res:
    Result<Canvas, PaletteError>)
    ensures
        render_outcome(res, colors@, block_size as nat, layout, ColorSortOrder::Unsorted),
{
    image_from_colors_ordered(colors, block_size, layout, ColorSortOrder::Unsorted)
}

/// `rand::Rng::gen_range` on the thread's generator: some index below `n`.
/// It panics on an empty range, which the precondition leaves out.
#[verifier::external_body]
fn random_index(n: usize) -> (i: usize)
    requires
        n > 0,
    ensures
        i < n,
{
    rand::thread_rng().gen_range(0..n)
}

/// Paints the pixel at `(x, y)` in the color that was drawn, `colors[pick]`;
/// every other pixel stays.
pub fn paint_drawn(canvas: &mut Canvas, x: u32, y: u32, colors: &Vec<RGBColor>, pick: usize)
    requires
        pick < colors.len(),
        old(canvas).contains(x as int, y as int),
    ensures
        final(canvas).spec_pixel(x as int, y as int) == colors@[pick as int],
        final(canvas).spec_width() == old(canvas).spec_width(),
        final(canvas).spec_height() == old(canvas).spec_height(),
        forall|a: int, b: int|
            !(a == x && b == y) ==> #[trigger] final(canvas).spec_pixel(a, b) == old(
                canvas,
            ).spec_pixel(a, b),
{
    canvas.put_pixel(x, y, colors[pick]);
}

/// A canvas of the given size on which every pixel has one of `colors`,
/// each drawn at random.
pub fn generate_image(width: u32, height: u32, colors: &Vec<RGBColor>) -> (canvas: Canvas)
    requires
        Canvas::fits(width as nat, height as nat),
        colors.len() > 0 || width == 0 || height == 0,
    ensures
        canvas.spec_width() == width,
        canvas.spec_height() == height,
        forall|x: int, y: int| #[trigger]
            canvas.contains(x, y) ==> colors@.contains(canvas.spec_pixel(x, y)),
{
    let mut canvas = Canvas::new(width, height);
    let mut y: u32 = 0;
    while y < height
        invariant
            y <= height,
            colors.len() > 0 || width == 0 || height == 0,
            canvas.spec_width() == width,
            canvas.spec_height() == height,
            forall|a: int, b: int|
                0 <= a < width && 0 <= b < y ==> colors@.contains(
                    #[trigger] canvas.spec_pixel(a, b),
                ),
        decreases height - y,
    {
        let mut x: u32 = 0;
        while x < width
            invariant
                x <= width,
                y < height,
                colors.len() > 0 || width == 0 || height == 0,
                canvas.spec_width() == width,
                canvas.spec_height() == height,
                forall|a: int, b: int|
                    0 <= a < width && (0 <= b < y || (b == y && a < x)) ==> colors@.contains(
                        #[trigger] canvas.spec_pixel(a, b),
                    ),
            decreases width - x,
        {
            let pick: usize = random_index(colors.len());
            paint_drawn(&mut canvas, x, y, colors, pick);
            x = x + 1;
        }
        y = y + 1;
    }
    canvas
}

} // verus!
