//! Swatch grids: each cell of a grid is a square of one HWB color.
use vstd::prelude::*;
use vstd::arithmetic::div_mod::lemma_fundamental_div_mod_converse;
use vstd::arithmetic::div_mod::lemma_fundamental_div_mod;
use crate::fixed::{hwb_rgb, hwb_to_rgb, Hwb};
use crate::pixels::{in_rect, Pixels};

verus! {

/// The permille level of step `i` when `steps` steps run from 0 to 1000.
pub open spec fn step_level(i: int, steps: int) -> int {
    1000 * i / (steps - 1)
}

/// The color of the pixel at column `px` and row `py` of an HWB grid: its
/// `rows` rows step whiteness and its `cols` columns step blackness, in cells
/// of `size` pixels.
pub open spec fn grid_color(hue: u32, rows: int, cols: int, size: int, px: int, py: int) -> Seq<u8> {
    hwb_rgb(hue, step_level(py / size, rows) as u16, step_level(px / size, cols) as u16)
}

/// The color of the pixel at column `px` and row `py` of the hue sweep:
/// columns step the hue by 15 degrees, rows step a value by 20 from black
/// to white, in cells of 16 pixels.
pub open spec fn hue_sweep_color(px: int, py: int) -> Seq<u8> {
    let hue = (px / 16) * 15;
    let value = (py / 16) * 20;
    let black = 100 - if value + 10 < 100 { value + 10 } else { 100 };
    let white = if value > 100 { value - 100 } else { 0 };
    hwb_rgb((hue * 10) as u32, (white * 10) as u16, (black * 10) as u16)
}

/// A pixel lies in the cell `k` of `size` pixels exactly when it divides down to `k`.
proof fn lemma_cell(p: int, size: int, k: int)
    requires
        size > 0,
        p >= 0,
        k >= 0,
    ensures
        (k * size <= p <= k * size + size - 1) <==> p / size == k,
{
    lemma_fundamental_div_mod(p, size);
    assert(k * size == size * k) by (nonlinear_arith);
    if k * size <= p <= k * size + size - 1 {
        lemma_fundamental_div_mod_converse(p, size, k, p - k * size);
    }
}

/// Every pixel of a side of `steps` cells of `size` pixels lies in one of them.
proof fn lemma_cells_cover(p: int, size: int, steps: int)
    requires
        size > 0,
        0 <= p < steps * size,
    ensures
        p / size < steps,
{
    lemma_fundamental_div_mod(p, size);
    let q = p / size;
    assert(q < steps) by (nonlinear_arith)
        requires
            p == size * q + p % size,
            0 <= p % size,
            p < steps * size,
            size > 0,
    ;
}

/// Fills the cell at column `col` and row `row` of a grid of square cells of
/// `size` pixels with `rgb`.
fn paint_cell(p: &mut Pixels, col: u32, row: u32, size: u32, rgb: [u8; 3])
    requires
        old(p)@.wf(),
        size >= 1,
        col * size + size <= old(p)@.width,
        row * size + size <= old(p)@.height,
    ensures
        final(p)@.wf(),
        final(p)@.same_shape(old(p)@),
        forall|px: int, py: int|
            #![trigger final(p)@.pixel(px, py)]
            old(p)@.contains(px, py) ==> final(p)@.pixel(px, py) == if (px / (size as int)) == col
                && (py / (size as int)) == row {
                rgb@
            } else {
                old(p)@.pixel(px, py)
            },
{
    let ghost before = p@;
    p.rect(col * size, row * size, size - 1, size - 1, rgb);
    assert forall|px: int, py: int|
        #![trigger p@.pixel(px, py)]
        before.contains(px, py) implies p@.pixel(px, py) == if (px / (size as int)) == col && (py / (size as int)) == row {
            rgb@
        } else {
            before.pixel(px, py)
        } by {
        lemma_cell(px, size as int, col as int);
        lemma_cell(py, size as int, row as int);
        assert(in_rect(
            (col * size) as int,
            (row * size) as int,
            (size - 1) as int,
            (size - 1) as int,
            px,
            py,
        ) == ((px / (size as int)) == col && (py / (size as int)) == row));
    }
}

/// A grid of `rows` by `cols` cells of `size` by `size` pixels for `hue`:
/// whiteness steps from 0 to 1000 down the rows and blackness from 0 to 1000
/// across the columns.
pub fn palette_grid(hue: u32, rows: u32, cols: u32, size: u32) -> (p: Pixels)
    requires
        rows >= 2,
        cols >= 2,
        size >= 1,
        (cols * size) * (rows * size) * 3 <= u32::MAX,
    ensures
        p@.wf(),
        p@.width == cols * size,
        p@.height == rows * size,
        p@.channels == 3,
        forall|px: int, py: int|
            #![trigger p@.pixel(px, py)]
            p@.contains(px, py) ==> p@.pixel(px, py) == grid_color(
                hue,
                rows as int,
                cols as int,
                size as int,
                px,
                py,
            ),
{
    assert(cols * size <= (cols * size) * (rows * size) && rows * size <= (cols * size) * (
    rows * size)) by (nonlinear_arith)
        requires
            rows >= 2,
            cols >= 2,
            size >= 1,
    ;
    let width = cols * size;
    let height = rows * size;
    let mut p = Pixels::new(width, height);
    let mut row: u32 = 0;
    while row < rows
        invariant
            p@.wf(),
            p@.width == width,
            p@.height == height,
            p@.channels == 3,
            width == cols * size,
            height == rows * size,
            rows >= 2,
            cols >= 2,
            size >= 1,
            row <= rows,
            forall|px: int, py: int|
                #![trigger p@.pixel(px, py)]
                p@.contains(px, py) && (py / (size as int)) < row ==> p@.pixel(px, py) == grid_color(
                    hue,
                    rows as int,
                    cols as int,
                    size as int,
                    px,
                    py,
                ),
        decreases rows - row,
    {
        let mut col: u32 = 0;
        while col < cols
            invariant
                p@.wf(),
                p@.width == width,
                p@.height == height,
                p@.channels == 3,
                width == cols * size,
                height == rows * size,
                rows >= 2,
                cols >= 2,
                size >= 1,
                row < rows,
                col <= cols,
                forall|px: int, py: int|
                    #![trigger p@.pixel(px, py)]
                    p@.contains(px, py) && ((py / (size as int)) < row || ((py / (size as int))
                        == row && (px / (size as int)) < col)) ==> p@.pixel(px, py) == grid_color(
                        hue,
                        rows as int,
                        cols as int,
                        size as int,
                        px,
                        py,
                    ),
            decreases cols - col,
        {
            assert(1000 * row / (rows - 1) <= 1000 && 1000 * col / (cols - 1) <= 1000) by (nonlinear_arith)
                requires
                    row < rows,
                    col < cols,
                    rows >= 2,
                    cols >= 2,
            ;
            assert(col * size + size <= width && row * size + size <= height) by (nonlinear_arith)
                requires
                    row < rows,
                    col < cols,
                    width == cols * size,
                    height == rows * size,
            ;
            let white = (1000 * row as u64 / (rows - 1) as u64) as u16;
            let black = (1000 * col as u64 / (cols - 1) as u64) as u16;
            let rgb = hwb_to_rgb((hue, white, black));
            paint_cell(&mut p, col, row, size, rgb);
            col = col + 1;
        }
        assert forall|px: int, py: int|
            #![trigger p@.pixel(px, py)]
            p@.contains(px, py) && (py / (size as int)) <= row implies p@.pixel(px, py) == grid_color(
                hue,
                rows as int,
                cols as int,
                size as int,
                px,
                py,
            ) by {
            lemma_cells_cover(px, size as int, cols as int);
        }
        row = row + 1;
    }
    assert forall|px: int, py: int|
        #![trigger p@.pixel(px, py)]
        p@.contains(px, py) implies p@.pixel(px, py) == grid_color(
            hue,
            rows as int,
            cols as int,
            size as int,
            px,
            py,
        ) by {
        lemma_cells_cover(py, size as int, rows as int);
    }
    p
}

/// The swatch grid of one hue: 8 by 8 cells of 16 pixels, whiteness stepping
/// down the rows and blackness across the columns. Whiteness and blackness
/// of `color` play no part.
pub fn palette(color: Hwb) -> (p: Pixels)
    ensures
        p@.wf(),
        p@.width == 128,
        p@.height == 128,
        p@.channels == 3,
        forall|px: int, py: int|
            #![trigger p@.pixel(px, py)]
            p@.contains(px, py) ==> p@.pixel(px, py) == grid_color(color.0, 8, 8, 16, px, py),
{
    palette_grid(color.0, 8, 8, 16)
}

/// The hue sweep: 24 columns of hues 15 degrees apart by 10 rows of values
/// 20 apart, in cells of 16 pixels. Going down, a value below 100 lightens
/// the pure hue out of black, and one above 100 adds white to it.
pub fn hue_palette() -> (p: Pixels)
    ensures
        p@.wf(),
        p@.width == 384,
        p@.height == 160,
        p@.channels == 3,
        forall|px: int, py: int|
            #![trigger p@.pixel(px, py)]
            p@.contains(px, py) ==> p@.pixel(px, py) == hue_sweep_color(px, py),
{
    let mut p = Pixels::new(384, 160);
    let mut col: u32 = 0;
    while col < 24
        invariant
            p@.wf(),
            p@.width == 384,
            p@.height == 160,
            p@.channels == 3,
            col <= 24,
            forall|px: int, py: int|
                #![trigger p@.pixel(px, py)]
                p@.contains(px, py) && (px / 16) < col ==> p@.pixel(px, py) == hue_sweep_color(px, py),
        decreases 24 - col,
    {
        let mut row: u32 = 0;
        while row < 10
            invariant
                p@.wf(),
                p@.width == 384,
                p@.height == 160,
                p@.channels == 3,
                col < 24,
                row <= 10,
                forall|px: int, py: int|
                    #![trigger p@.pixel(px, py)]
                    p@.contains(px, py) && ((px / 16) < col || ((px / 16) == col && (py / 16) < row))
                        ==> p@.pixel(px, py) == hue_sweep_color(px, py),
            decreases 10 - row,
        {
            let hue = col * 15;
            let value = row * 20;
            let black: u16 = 100 - if value + 10 < 100 { (value + 10) as u16 } else { 100 };
            let white: u16 = if value > 100 { (value - 100) as u16 } else { 0 };
            let rgb = hwb_to_rgb((hue * 10, white * 10, black * 10));
            paint_cell(&mut p, col, row, 16, rgb);
            row = row + 1;
        }
        assert forall|px: int, py: int|
            #![trigger p@.pixel(px, py)]
            p@.contains(px, py) && (px / 16) <= col implies p@.pixel(px, py) == hue_sweep_color(px, py) by {
            lemma_cells_cover(py, 16, 10);
        }
        col = col + 1;
    }
    assert forall|px: int, py: int|
        #![trigger p@.pixel(px, py)]
        p@.contains(px, py) implies p@.pixel(px, py) == hue_sweep_color(px, py) by {
        lemma_cells_cover(px, 16, 24);
    }
    p
}

} // verus!
