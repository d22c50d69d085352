//! Cutting a sheet of sprites into its tiles.
//!
//! A sheet is an image laid out as a grid that starts at its upper left
//! corner. This module says where the cells of the grid lie and whether a
//! mask, the rectangle that one sprite shows of the sheet, touches the sheet
//! at all.

use vstd::prelude::*;

verus! {

/// Why a mask shows nothing of its sheet.
#[derive(Clone, Copy, Debug, PartialEq, Eq, Structural)]
pub enum MaskError {
    /// The mask ends at or before the left edge of the sheet.
    TooFarLeft,
    /// The mask ends at or above the upper edge of the sheet.
    TooFarUp,
    /// The mask starts beyond the right edge of the sheet.
    TooFarRight,
    /// The mask starts beyond the lower edge of the sheet.
    TooFarDown,
}

impl MaskError {
    /// The error in words.
    pub fn message(&self) -> (text: &'static str)
        ensures
            text@ == match self {
                MaskError::TooFarLeft => "Mask is too far left"@,
                MaskError::TooFarUp => "Mask is too far up"@,
                MaskError::TooFarRight => "Mask is too far right"@,
                MaskError::TooFarDown => "Mask is too far down"@,
            },
    {
        match self {
            MaskError::TooFarLeft => "Mask is too far left",
            MaskError::TooFarUp => "Mask is too far up",
            MaskError::TooFarRight => "Mask is too far right",
            MaskError::TooFarDown => "Mask is too far down",
        }
    }
}

/// What is wrong with a mask from `(left, top)` to `(right, bottom)` on a
/// sheet of the given size, if anything: the first of the four faults that
/// holds, in the order left, up, right, down.
pub open spec fn mask_fault(
    left: int,
    top: int,
    right: int,
    bottom: int,
    sheet_width: int,
    sheet_height: int,
) -> Option<MaskError> {
    if right <= 0 {
        Some(MaskError::TooFarLeft)
    } else if bottom <= 0 {
        Some(MaskError::TooFarUp)
    } else if left > sheet_width {
        Some(MaskError::TooFarRight)
    } else if top > sheet_height {
        Some(MaskError::TooFarDown)
    } else {
        None
    }
}

/// Checks that a mask from `(left, top)` to `(right, bottom)` touches a sheet
/// of the given size.
pub fn check_mask(
    left: i32,
    top: i32,
    right: i32,
    bottom: i32,
    sheet_width: i32,
    sheet_height: i32,
) -> (checked: Result<(), MaskError>)
    ensures
        checked == match mask_fault(
            left as int,
            top as int,
            right as int,
            bottom as int,
            sheet_width as int,
            sheet_height as int,
        ) {
            Some(fault) => Err::<(), MaskError>(fault),
            None => Ok::<(), MaskError>(()),
        },
{
    if right <= 0 {
        Err(MaskError::TooFarLeft)
    } else if bottom <= 0 {
        Err(MaskError::TooFarUp)
    } else if left > sheet_width {
        Err(MaskError::TooFarRight)
    } else if top > sheet_height {
        Err(MaskError::TooFarDown)
    } else {
        Ok(())
    }
}

/// How many cells of side `grid` start below `extent`.
pub open spec fn cells_along(extent: int, grid: int) -> int {
    if extent <= 0 {
        0
    } else {
        (extent - 1) / grid + 1
    }
}

/// The cells start at the multiples of the grid, and the last one starts
/// below the extent.
pub proof fn lemma_cells_along(extent: int, grid: int, cell: int)
    requires
        grid > 0,
        cell >= 0,
    ensures
        cell * grid < extent <==> cell < cells_along(extent, grid),
{
    if extent > 0 {
        let last = (extent - 1) / grid;
        assert(last * grid <= extent - 1 < last * grid + grid) by (nonlinear_arith)
            requires
                grid > 0,
                last == (extent - 1) / grid,
        ;
        if cell <= last {
            assert(cell * grid <= last * grid) by (nonlinear_arith)
                requires
                    cell <= last,
                    grid > 0,
            ;
        } else {
            assert(cell * grid >= last * grid + grid) by (nonlinear_arith)
                requires
                    cell >= last + 1,
                    grid > 0,
            ;
        }
    } else {
        assert(cell * grid >= 0) by (nonlinear_arith)
            requires
                cell >= 0,
                grid > 0,
        ;
    }
}

/// Where cell number `index` of a grid with `columns` cells in a row starts,
/// the cells numbered row by row.
pub open spec fn cell_origin(index: int, columns: int, grid: int) -> (int, int) {
    ((index % columns) * grid, (index / columns) * grid)
}

/// The upper left corners of the cells of a grid of side `grid_size` on a
/// sheet of the given size, row by row from the top and from left to right
/// within a row.
pub fn grid_origins(width: u32, height: u32, grid_size: u32) -> (cells: Vec<(u32, u32)>)
    requires
        grid_size > 0,
    ensures
        cells@.len() == cells_along(height as int, grid_size as int) * cells_along(
            width as int,
            grid_size as int,
        ),
        forall|k: int|
            0 <= k < cells@.len() ==> ((#[trigger] cells@[k]).0 as int, cells@[k].1 as int)
                == cell_origin(k, cells_along(width as int, grid_size as int), grid_size as int),
{
    let ghost columns = cells_along(width as int, grid_size as int);
    let mut cells: Vec<(u32, u32)> = Vec::new();
    let mut y: u64 = 0;
    let ghost mut row: int = 0;
    while y < height as u64
        invariant
            grid_size > 0,
            columns == cells_along(width as int, grid_size as int),
            columns >= 0,
            0 <= row <= cells_along(height as int, grid_size as int),
            y == row * grid_size,
            y >= height ==> row == cells_along(height as int, grid_size as int),
            cells@.len() == row * columns,
            forall|k: int|
                0 <= k < cells@.len() ==> ((#[trigger] cells@[k]).0 as int, cells@[k].1 as int)
                    == cell_origin(k, columns, grid_size as int),
        decreases
                if y < height {
                    height - y
                } else {
                    0
                },
    {
        let mut x: u64 = 0;
        let ghost mut column: int = 0;
        while x < width as u64
            invariant
                grid_size > 0,
                columns == cells_along(width as int, grid_size as int),
                0 <= column <= columns,
                0 <= row,
                y == row * grid_size,
                y < height,
                x == column * grid_size,
                x >= width ==> column == columns,
                cells@.len() == row * columns + column,
                forall|k: int|
                    0 <= k < cells@.len() ==> ((#[trigger] cells@[k]).0 as int, cells@[k].1 as int)
                        == cell_origin(k, columns, grid_size as int),
            decreases
                    if x < width {
                        width - x
                    } else {
                        0
                    },
        {
            proof {
                lemma_cells_along(width as int, grid_size as int, column);
                lemma_cells_along(width as int, grid_size as int, column + 1);
                assert((column + 1) * grid_size == x + grid_size) by (nonlinear_arith)
                    requires
                        x == column * grid_size,
                ;
                vstd::arithmetic::div_mod::lemma_fundamental_div_mod_converse(
                    row * columns + column,
                    columns,
                    row,
                    column,
                );
            }
            cells.push((x as u32, y as u32));
            proof {
                column = column + 1;
            }
            x = x + grid_size as u64;
        }
        proof {
            lemma_cells_along(height as int, grid_size as int, row);
            lemma_cells_along(height as int, grid_size as int, row + 1);
            assert((row + 1) * grid_size == y + grid_size) by (nonlinear_arith)
                requires
                    y == row * grid_size,
            ;
            assert((row + 1) * columns == row * columns + columns) by (nonlinear_arith);
            row = row + 1;
        }
        y = y + grid_size as u64;
    }
    cells
}

} // verus!
