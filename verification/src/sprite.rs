//! Where a sprite lives on the loaded sprite sheet.

use vstd::prelude::*;

verus! {

/// The cell of the 1-based sprite `idx` on a sheet `width` by `height`
/// pixels cut into square cells of side `cell`, as (column, row, side),
/// counting cells left to right and then top to bottom; `None` for an
/// index below 1, a side below 1, a sheet narrower than one cell or a row
/// that starts at or below the sheet's bottom edge.
pub open spec fn cell_spec(width: int, height: int, idx: int, cell: int) -> Option<(int, int, int)> {
    if idx < 1 || cell < 1 || width < cell {
        None
    } else {
        let cols = width / cell;
        let row = (idx - 1) / cols;
        if row * cell >= height {
            None
        } else {
            Some(((idx - 1) % cols, row, cell))
        }
    }
}

/// The first pixel row of the row that holds sprite `idx` fits in an
/// `i32` (always so on a sheet that can be loaded; only a side or index
/// near `i32::MAX` on a sheet many cells wide breaks it).
pub open spec fn cell_row_fits(width: int, idx: int, cell: int) -> bool {
    idx >= 1 && cell >= 1 && width >= cell ==> ((idx - 1) / (width / cell)) * cell <= i32::MAX
}

/// Resolves a 1-based sprite index into its (column, row, side) on the
/// sheet, or `None` where there is no such sprite.
pub fn cell_for(width: i32, height: i32, idx: i32, cell: i32) -> (r: Option<(i32, i32, i32)>)
    requires
        cell_row_fits(width as int, idx as int, cell as int),
    ensures
        match r {
            Some((c, w, s)) => cell_spec(width as int, height as int, idx as int, cell as int)
                == Some((c as int, w as int, s as int)),
            None => cell_spec(width as int, height as int, idx as int, cell as int) is None,
        },
{
    if idx < 1 || cell < 1 {
        return None;
    }
    if width < cell {
        return None;
    }
    let cols = width / cell;
    assert(cols >= 1) by (nonlinear_arith)
        requires
            width >= cell,
            cell >= 1,
            cols == width / cell,
    ;
    let idx0 = idx - 1;
    let col = idx0 % cols;
    let row = idx0 / cols;
    assert(row * cell <= i32::MAX);
    if row * cell >= height {
        return None;
    }
    Some((col, row, cell))
}

} // verus!
