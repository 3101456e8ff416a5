//! Conversions between the flat cell lists of a level and grids.
use vstd::prelude::*;

use crate::grid::{grid_view, neighborhood, Matrix};
use crate::types::MatrixType;

verus! {

/// A row-major list of cells cut into `height` rows of `width` cells; a
/// size that is not positive gives no rows (or empty rows).
pub open spec fn csv_grid(csv: Seq<i64>, height: int, width: int) -> Seq<Seq<i64>> {
    Seq::new(
        if height > 0 { height as nat } else { 0 },
        |y: int| Seq::new(if width > 0 { width as nat } else { 0 }, |x: int| csv[y * width + x]),
    )
}

/// The semantic value of dirt.
pub const DIRT: i64 = 2;

/// What a dirt cell surrounded by dirt becomes.
pub const HIDDEN: i64 = -1;

/// Whether every cell of a window holds `v`.
pub open spec fn all_equal(w: Seq<Seq<i64>>, v: i64) -> bool {
    forall|i: int, j: int| 0 <= i < w.len() && 0 <= j < w[i].len() ==> #[trigger] w[i][j] == v
}

/// A grid where each dirt cell whose eight neighbors are dirt (or outside
/// the grid) is hidden.
pub open spec fn optimized(g: Seq<Seq<i64>>) -> Seq<Seq<i64>> {
    Seq::new(
        g.len(),
        |y: int|
            Seq::new(
                g[y].len(),
                |x: int|
                    if g[y][x] == DIRT && all_equal(neighborhood(g, x, y, 1, DIRT), DIRT) {
                        HIDDEN
                    } else {
                        g[y][x]
                    },
            ),
    )
}

/// Cuts a row-major list of cells into `height` rows of `width` cells.
pub fn inline_csv_to_matrix(csv: Vec<i64>, height: i64, width: i64) -> (r: MatrixType<i64>)
    requires
        height > 0 && width > 0 ==> height * width <= csv@.len(),
    ensures
        grid_view(r@) == csv_grid(csv@, height as int, width as int),
{
    let ghost hh: nat = if height > 0 { height as nat } else { 0 };
    let ghost ww: nat = if width > 0 { width as nat } else { 0 };
    let len = csv.len();
    let mut matrix: MatrixType<i64> = Vec::new();
    let mut y: i64 = 0;
    while y < height
        invariant
            hh == (if height > 0 { height as nat } else { 0 }),
            ww == (if width > 0 { width as nat } else { 0 }),
            height > 0 && width > 0 ==> height * width <= csv@.len(),
            csv@.len() == len,
            0 <= y <= hh,
            matrix@.len() == y,
            forall|k: int| 0 <= k < y ==> (#[trigger] matrix@[k])@ == csv_grid(csv@, height as int, width as int)[k],
        decreases height - y,
    {
        let mut row: Vec<i64> = Vec::new();
        let mut x: i64 = 0;
        while x < width
            invariant
                ww == (if width > 0 { width as nat } else { 0 }),
                height > 0 && width > 0 ==> height * width <= csv@.len(),
                csv@.len() == len,
                0 <= y < height,
                0 <= x <= ww,
                row@.len() == x,
                forall|k: int| 0 <= k < x ==> row@[k] == csv@[y * width + k],
            decreases width - x,
        {
            proof {
                assert(0 <= y * width <= y * width + x < height * width) by (nonlinear_arith)
                    requires 0 <= y < height, 0 <= x < width;
            }
            let index = ((y as i128) * (width as i128) + (x as i128)) as usize;
            row.push(csv[index]);
            x = x + 1;
        }
        assert(row@ =~= csv_grid(csv@, height as int, width as int)[y as int]);
        matrix.push(row);
        y = y + 1;
    }
    assert(grid_view(matrix@) =~= csv_grid(csv@, height as int, width as int));
    matrix
}

/// Whether every cell of a window holds `v`.
fn window_all_equal(w: &MatrixType<i64>, v: i64) -> (r: bool)
    ensures
        r == all_equal(grid_view(w@), v),
{
    let mut i: usize = 0;
    while i < w.len()
        invariant
            i <= w@.len(),
            forall|a: int, b: int| 0 <= a < i && 0 <= b < w@[a]@.len() ==> #[trigger] w@[a]@[b] == v,
        decreases w@.len() - i,
    {
        let row = &w[i];
        let mut j: usize = 0;
        while j < row.len()
            invariant
                i < w@.len(),
                *row == w@[i as int],
                j <= row@.len(),
                forall|a: int, b: int| 0 <= a < i && 0 <= b < w@[a]@.len() ==> #[trigger] w@[a]@[b] == v,
                forall|b: int| 0 <= b < j ==> row@[b] == v,
            decreases row@.len() - j,
        {
            if row[j] != v {
                assert(grid_view(w@)[i as int][j as int] != v);
                return false;
            }
            j = j + 1;
        }
        i = i + 1;
    }
    true
}

/// Hides every dirt cell whose eight neighbors are dirt, cells outside the
/// grid counting as dirt.
pub fn optimize_map(matrix: MatrixType<i64>) -> (r: MatrixType<i64>)
    ensures
        grid_view(r@) == optimized(grid_view(matrix@)),
{
    let ghost g = grid_view(matrix@);
    let map = Matrix::new(matrix);
    let mut result: MatrixType<i64> = Vec::new();
    let mut y: usize = 0;
    while y < map.0.len()
        invariant
            g == grid_view(map.0@),
            y <= map.0@.len(),
            result@.len() == y,
            forall|k: int| 0 <= k < y ==> (#[trigger] result@[k])@ == optimized(g)[k],
        decreases map.0@.len() - y,
    {
        let row = &map.0[y];
        let mut out: Vec<i64> = Vec::new();
        let mut x: usize = 0;
        while x < row.len()
            invariant
                g == grid_view(map.0@),
                y < map.0@.len(),
                *row == map.0@[y as int],
                x <= row@.len(),
                out@.len() == x,
                forall|k: int| 0 <= k < x ==> out@[k] == optimized(g)[y as int][k],
            decreases row@.len() - x,
        {
            let value = row[x];
            let mut cell = value;
            if value == DIRT {
                let surrounding = map.window(x as i128, y as i128, 1, value);
                if window_all_equal(&surrounding, DIRT) {
                    cell = HIDDEN;
                }
            }
            out.push(cell);
            x = x + 1;
        }
        assert(out@ =~= optimized(g)[y as int]);
        result.push(out);
        y = y + 1;
    }
    assert(grid_view(result@) =~= optimized(g));
    result
}

} // verus!
