//! Grid slicing: the cell rectangles of a sprite sheet cut along given
//! horizontal and vertical lines.
//!
//! The line positions include the sheet boundaries. The cells are emitted
//! row by row, each as (x, y, width, height); line positions must be
//! non-decreasing, else no cell list exists.

use vstd::prelude::*;

verus! {

/// The positions are non-decreasing.
pub open spec fn spec_monotone(v: Seq<u32>) -> bool {
    forall|i: int| 0 <= i < v.len() - 1 ==> (#[trigger] v[i]) <= v[i + 1]
}

/// The first `c` cells of the row at `y` with height `h`.
pub open spec fn spec_row_cells(xs: Seq<u32>, y: u32, h: u32, c: int) -> Seq<(u32, u32, u32, u32)>
    decreases c,
{
    if c <= 0 {
        Seq::empty()
    } else {
        spec_row_cells(xs, y, h, c - 1).push((xs[c - 1], y, (xs[c] - xs[c - 1]) as u32, h))
    }
}

/// The cells of the first `r` rows, row by row.
pub open spec fn spec_grid_rows(xs: Seq<u32>, ys: Seq<u32>, r: int) -> Seq<(u32, u32, u32, u32)>
    decreases r,
{
    if r <= 0 {
        Seq::empty()
    } else {
        spec_grid_rows(xs, ys, r - 1) + spec_row_cells(
            xs,
            ys[r - 1],
            (ys[r] - ys[r - 1]) as u32,
            xs.len() - 1,
        )
    }
}

/// All cell rectangles of the grid, row by row.
pub open spec fn spec_grid_cells(xs: Seq<u32>, ys: Seq<u32>) -> Seq<(u32, u32, u32, u32)> {
    if ys.len() == 0 {
        Seq::empty()
    } else {
        spec_grid_rows(xs, ys, ys.len() - 1)
    }
}

/// Decides whether the positions are non-decreasing.
fn check_monotone(v: &Vec<u32>) -> (b: bool)
    ensures
        b == spec_monotone(v@),
{
    let n = v.len();
    let mut i: usize = 0;
    let mut ok = true;
    while i + 1 < n
        invariant
            n == v@.len(),
            0 <= i,
            i + 1 <= n || i == 0,
            ok == forall|k: int| 0 <= k < i ==> (#[trigger] v@[k]) <= v@[k + 1],
        decreases n - i,
    {
        ok = ok && v[i] <= v[i + 1];
        i += 1;
    }
    ok
}

/// Computes the cell rectangles of a sheet cut along the given vertical
/// (`xs`) and horizontal (`ys`) line positions, boundaries included: one
/// cell per row and column, in row-major order, or `None` when some
/// position list is not non-decreasing.
#[verifier::loop_isolation(false)]
pub fn grid_cells(xs: &Vec<u32>, ys: &Vec<u32>) -> (r: Option<Vec<(u32, u32, u32, u32)>>)
    ensures
        match r {
            Some(cells) => spec_monotone(xs@) && spec_monotone(ys@) && cells@ == spec_grid_cells(
                xs@,
                ys@,
            ),
            None => !(spec_monotone(xs@) && spec_monotone(ys@)),
        },
{
    if !check_monotone(xs) || !check_monotone(ys) {
        return None;
    }
    let mut cells: Vec<(u32, u32, u32, u32)> = Vec::new();
    if ys.len() == 0 {
        proof {
            assert(cells@ =~= spec_grid_cells(xs@, ys@));
        }
        return Some(cells);
    }
    let rows = ys.len() - 1;
    let cols = if xs.len() == 0 {
        0
    } else {
        xs.len() - 1
    };
    let mut row: usize = 0;
    while row < rows
        invariant
            0 <= row <= rows,
            cells@ == spec_grid_rows(xs@, ys@, row as int),
        decreases rows - row,
    {
        let y = ys[row];
        let h = ys[row + 1] - y;
        let mut col: usize = 0;
        while col < cols
            invariant
                0 <= col <= cols,
                0 <= row < rows,
                y == ys@[row as int],
                h == (ys@[row as int + 1] - ys@[row as int]) as u32,
                cells@ == spec_grid_rows(xs@, ys@, row as int) + spec_row_cells(
                    xs@,
                    y,
                    h,
                    col as int,
                ),
            decreases cols - col,
        {
            let x = xs[col];
            let w = xs[col + 1] - x;
            cells.push((x, y, w, h));
            proof {
                assert(cells@ =~= spec_grid_rows(xs@, ys@, row as int) + spec_row_cells(
                    xs@,
                    y,
                    h,
                    col + 1,
                ));
            }
            col += 1;
        }
        proof {
            assert(cells@ =~= spec_grid_rows(xs@, ys@, row as int + 1));
        }
        row += 1;
    }
    Some(cells)
}

} // verus!
