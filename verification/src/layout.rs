//! Canvas dimensions and block positions for each layout.

use vstd::prelude::*;

verus! {

/// How the color blocks are arranged on the canvas.
#[derive(Clone, Copy, Debug, PartialEq, Eq, Structural)]
pub enum ColorBlockLayout {
    /// A single row of blocks.
    Linear,
    /// A grid kept as close to square as the count allows, wider than tall.
    Grid,
    /// A gallery of blocks of unequal size. Recognised, but no geometry is
    /// defined for it.
    Mason,
}

/// The criterion by which colors are ordered before they are laid out.
#[derive(Clone, Copy, Debug, PartialEq, Eq, Structural)]
pub enum ColorSortOrder {
    /// Keep the order in which the colors were given.
    Unsorted,
    Hue,
    Saturation,
    Lightness,
    Luminance,
}

/// Why a palette could not be laid out or rendered.
#[derive(Clone, Copy, Debug, PartialEq, Eq, Structural)]
pub enum PaletteError {
    /// More than 255 colors were given.
    InvalidColorCount,
    /// The layout has no geometry defined.
    UnsupportedLayout,
    /// The canvas would hold more bytes than a vector can.
    CanvasTooLarge,
    /// The color list is not well formed, or one of its tokens is no hex
    /// color.
    MalformedColorInput,
}

/// The least `c >= from` with `c * c >= n`.
pub open spec fn ceil_sqrt_from(n: nat, from: nat) -> nat
    decreases n - from,
{
    if from >= n || from * from >= n {
        from
    } else {
        ceil_sqrt_from(n, from + 1)
    }
}

/// The square root of `n`, rounded up.
pub open spec fn ceil_sqrt(n: nat) -> nat {
    ceil_sqrt_from(n, 0)
}

/// Columns of the grid for `n` blocks.
pub open spec fn grid_cols(n: nat) -> nat {
    ceil_sqrt(n)
}

/// Rows of the grid for `n` blocks: `n` over the columns, rounded up.
pub open spec fn grid_rows(n: nat) -> nat {
    if n == 0 {
        0
    } else {
        ((n + grid_cols(n) - 1) / (grid_cols(n) as int)) as nat
    }
}

/// Whether a layout has a geometry.
pub open spec fn layout_supported(layout: ColorBlockLayout) -> bool {
    layout != ColorBlockLayout::Mason
}

/// Canvas width and height in pixels for `n` blocks of side `bs`.
pub open spec fn layout_dimensions(n: nat, bs: nat, layout: ColorBlockLayout) -> (nat, nat) {
    match layout {
        ColorBlockLayout::Linear => (n * bs, if n == 0 { 0 } else { bs }),
        ColorBlockLayout::Grid => (grid_cols(n) * bs, grid_rows(n) * bs),
        ColorBlockLayout::Mason => (0, 0),
    }
}

/// Columns of blocks on the canvas.
pub open spec fn layout_cols(n: nat, layout: ColorBlockLayout) -> nat {
    match layout {
        ColorBlockLayout::Linear => n,
        ColorBlockLayout::Grid => grid_cols(n),
        ColorBlockLayout::Mason => 0,
    }
}

/// Rows of blocks on the canvas.
pub open spec fn layout_rows(n: nat, layout: ColorBlockLayout) -> nat {
    match layout {
        ColorBlockLayout::Linear => if n == 0 { 0 } else { 1 },
        ColorBlockLayout::Grid => grid_rows(n),
        ColorBlockLayout::Mason => 0,
    }
}

/// Top-left pixel of block `index`: blocks fill the canvas row by row, left
/// to right and top to bottom.
pub open spec fn block_position(index: nat, n: nat, bs: nat, layout: ColorBlockLayout) -> (nat, nat) {
    let cols = layout_cols(n, layout);
    if cols == 0 {
        (0, 0)
    } else {
        ((index % cols) * bs, (index / cols) * bs)
    }
}

/// `ceil_sqrt_from` finds the least square not below `n`, when the search
/// starts at or below it.
pub proof fn lemma_ceil_sqrt_from(n: nat, from: nat)
    requires
        from == 0 || (from - 1) * (from - 1) < n,
    ensures
        ceil_sqrt_from(n, from) >= from,
        ceil_sqrt_from(n, from) * ceil_sqrt_from(n, from) >= n,
        ceil_sqrt_from(n, from) == 0 || (ceil_sqrt_from(n, from) - 1) * (ceil_sqrt_from(n, from)
            - 1) < n,
    decreases n - from,
{
    if from >= n || from * from >= n {
        assert(from * from >= n) by (nonlinear_arith)
            requires
                from >= n || from * from >= n,
        ;
    } else {
        lemma_ceil_sqrt_from(n, from + 1);
    }
}

/// The grid is wide enough: its columns are the rounded-up square root of the
/// block count, its rows the count over the columns, rounded up; it holds
/// every block and is never taller than wide.
pub proof fn lemma_grid_shape(n: nat)
    requires
        n >= 1,
    ensures
        grid_cols(n) >= 1,
        grid_cols(n) * grid_cols(n) >= n,
        (grid_cols(n) - 1) * (grid_cols(n) - 1) < n,
        grid_rows(n) >= 1,
        grid_rows(n) == (n + grid_cols(n) - 1) / (grid_cols(n) as int),
        grid_cols(n) * grid_rows(n) >= n,
        grid_cols(n) * (grid_rows(n) - 1) < n,
        grid_rows(n) <= grid_cols(n),
{
    lemma_ceil_sqrt_from(n, 0);
    let c = grid_cols(n) as int;
    let n = n as int;
    assert(c >= 1) by (nonlinear_arith)
        requires
            c * c >= n,
            n >= 1,
            c >= 0,
    ;
    let q = (n + c - 1) / c;
    vstd::arithmetic::div_mod::lemma_fundamental_div_mod(n + c - 1, c);
    vstd::arithmetic::div_mod::lemma_mod_bound(n + c - 1, c);
    assert(q >= 1 && c * q >= n && c * (q - 1) < n && q <= c) by (nonlinear_arith)
        requires
            n + c - 1 == c * q + (n + c - 1) % c,
            0 <= (n + c - 1) % c < c,
            c >= 1,
            n >= 1,
            c * c >= n,
    ;
}

/// Canvas dimensions are whole multiples of the block size, and the canvas
/// of a supported layout has room for every block.
pub proof fn lemma_dimensions_are_multiples(n: nat, bs: nat, layout: ColorBlockLayout)
    ensures
        layout_dimensions(n, bs, layout).0 == layout_cols(n, layout) * bs,
        layout_dimensions(n, bs, layout).1 == layout_rows(n, layout) * bs,
        layout_supported(layout) ==> layout_cols(n, layout) * layout_rows(n, layout) >= n,
{
    if n >= 1 {
        lemma_grid_shape(n);
    } else {
        assert(grid_cols(0) == 0);
    }
    assert(n * 1 >= n) by (nonlinear_arith);
    assert(1 * bs == bs) by (nonlinear_arith);
    assert(0 * bs == 0) by (nonlinear_arith);
}

/// In a single row, block `index` starts `index` block sizes from the left,
/// at the top.
pub proof fn lemma_linear_position(index: nat, n: nat, bs: nat)
    requires
        index < n,
    ensures
        block_position(index, n, bs, ColorBlockLayout::Linear) == (index * bs, 0nat),
{
    vstd::arithmetic::div_mod::lemma_fundamental_div_mod_converse(
        index as int,
        n as int,
        0,
        index as int,
    );
    assert(0 * bs == 0) by (nonlinear_arith);
}

/// The square root of `n`, rounded up.
pub fn ceil_sqrt_u8(n: u8) -> (c: u8)
    ensures
        c as nat == ceil_sqrt(n as nat),
        c <= 16,
{
    let mut c: u8 = 0;
    let mut square: u16 = 0;
    while square < n as u16
        invariant
            c <= 16,
            square == c * c,
            ceil_sqrt(n as nat) == ceil_sqrt_from(n as nat, c as nat),
        decreases 16 - c,
    {
        assert(c < 16 && c < n && (c + 1) * (c + 1) <= 256) by (nonlinear_arith)
            requires
                c * c < n,
                n <= 255,
                c >= 0,
        ;
        c = c + 1;
        square = (c as u16) * (c as u16);
    }
    c
}

/// Canvas width and height in pixels for `color_count` blocks of side
/// `block_size`. A layout without geometry is refused.
pub fn get_layout_dimensions(color_count: u8, block_size: u16, layout: &ColorBlockLayout) -> (res:
    Result<(u32, u32), PaletteError>)
    ensures
        layout_supported(*layout) <==> res is Ok,
        res is Err ==> res == Err::<(u32, u32), PaletteError>(PaletteError::UnsupportedLayout),
        res is Ok ==> (res->Ok_0.0 as nat, res->Ok_0.1 as nat) == layout_dimensions(
            color_count as nat,
            block_size as nat,
            *layout,
        ),
{
    let n: u32 = color_count as u32;
    let bs: u32 = block_size as u32;
    match layout {
        ColorBlockLayout::Linear => {
            assert(n * bs <= 255 * 65535) by (nonlinear_arith)
                requires
                    n <= 255,
                    bs <= 65535,
            ;
            Ok((n * bs, if n == 0 { 0 } else { bs }))
        },
        ColorBlockLayout::Grid => {
            let cols: u32 = ceil_sqrt_u8(color_count) as u32;
            proof {
                if n > 0 {
                    lemma_grid_shape(n as nat);
                }
            }
            let rows: u32 = if n == 0 { 0 } else { (n + cols - 1) / cols };
            proof {
                assert(cols * bs <= 16 * 65535 && rows * bs <= 16 * 65535) by (nonlinear_arith)
                    requires
                        cols <= 16,
                        rows <= cols,
                        bs <= 65535,
                ;
            }
            Ok((cols * bs, rows * bs))
        },
        ColorBlockLayout::Mason => Err(PaletteError::UnsupportedLayout),
    }
}

/// Columns of blocks on the canvas of a supported layout.
pub fn get_layout_cols(color_count: u8, layout: &ColorBlockLayout) -> (cols: u8)
    ensures
        cols as nat == layout_cols(color_count as nat, *layout),
{
    match layout {
        ColorBlockLayout::Linear => color_count,
        ColorBlockLayout::Grid => ceil_sqrt_u8(color_count),
        ColorBlockLayout::Mason => 0,
    }
}

/// Top-left pixel of block `index` among `color_count` blocks of side
/// `block_size`. A layout without geometry is refused.
pub fn get_block_position(index: u8, color_count: u8, block_size: u16, layout: &ColorBlockLayout) -> (res:
    Result<(u32, u32), PaletteError>)
    requires
        index < color_count,
    ensures
        layout_supported(*layout) <==> res is Ok,
        res is Err ==> res == Err::<(u32, u32), PaletteError>(PaletteError::UnsupportedLayout),
        res is Ok ==> (res->Ok_0.0 as nat, res->Ok_0.1 as nat) == block_position(
            index as nat,
            color_count as nat,
            block_size as nat,
            *layout,
        ),
{
    match layout {
        ColorBlockLayout::Mason => Err(PaletteError::UnsupportedLayout),
        _ => {
            let cols: u32 = get_layout_cols(color_count, layout) as u32;
            let i: u32 = index as u32;
            let bs: u32 = block_size as u32;
            proof {
                lemma_grid_shape(color_count as nat);
            }
            let col: u32 = i % cols;
            let row: u32 = i / cols;
            assert(col * bs <= 255 * 65535 && row * bs <= 255 * 65535) by (nonlinear_arith)
                requires
                    col <= 255,
                    row <= 255,
                    bs <= 65535,
            ;
            Ok((col * bs, row * bs))
        },
    }
}

} // verus!
