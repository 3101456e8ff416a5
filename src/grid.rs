//! A rectangular grid with bounds-safe neighborhood extraction.
use vstd::prelude::*;

use crate::types::MatrixType;

verus! {

/// The rows of a grid, as sequences.
pub open spec fn grid_view<T>(m: Seq<Vec<T>>) -> Seq<Seq<T>> {
    m.map_values(|r: Vec<T>| r@)
}

/// Whether every row of a grid holds `width` cells.
pub open spec fn rows_have_len<T>(g: Seq<Seq<T>>, width: int) -> bool {
    forall|y: int| 0 <= y < g.len() ==> (#[trigger] g[y]).len() == width
}

/// The cell at (`row`, `col`), or `d` where there is none.
pub open spec fn cell_or<T>(g: Seq<Seq<T>>, row: int, col: int, d: T) -> T {
    if 0 <= row < g.len() && 0 <= col < g[row].len() {
        g[row][col]
    } else {
        d
    }
}

/// The `(2 * scope + 1)`-square window of `g` centered on column `x`, row
/// `y`, with `d` standing for every cell outside the grid.
pub open spec fn neighborhood<T>(g: Seq<Seq<T>>, x: int, y: int, scope: int, d: T) -> Seq<Seq<T>> {
    Seq::new(
        (2 * scope + 1) as nat,
        |i: int| Seq::new((2 * scope + 1) as nat, |j: int| cell_or(g, y - scope + i, x - scope + j, d)),
    )
}

/// A grid of `height` rows of `width` copies of `value`.
pub open spec fn filled<T>(width: nat, height: nat, value: T) -> Seq<Seq<T>> {
    Seq::new(height, |i: int| Seq::new(width, |j: int| value))
}

/// A grid of `height` rows of `width` copies of `value`.
pub fn filled_grid<T: Copy>(width: usize, height: usize, value: T) -> (r: MatrixType<T>)
    ensures
        grid_view(r@) == filled(width as nat, height as nat, value),
{
    let mut matrix: MatrixType<T> = Vec::new();
    let mut i: usize = 0;
    while i < height
        invariant
            i <= height,
            matrix@.len() == i,
            forall|k: int| 0 <= k < i ==> (#[trigger] matrix@[k])@ == Seq::new(width as nat, |j: int| value),
        decreases height - i,
    {
        let mut row: Vec<T> = Vec::new();
        let mut j: usize = 0;
        while j < width
            invariant
                j <= width,
                row@.len() == j,
                forall|k: int| 0 <= k < j ==> row@[k] == value,
            decreases width - j,
        {
            row.push(value);
            j = j + 1;
        }
        assert(row@ =~= Seq::new(width as nat, |j: int| value));
        matrix.push(row);
        i = i + 1;
    }
    assert(grid_view(matrix@) =~= filled(width as nat, height as nat, value));
    matrix
}

/// A grid addressed as `self.0[row][col]`.
pub struct Matrix<T>(pub MatrixType<T>);

impl<T: Copy> Matrix<T> {
    pub fn empty() -> (r: Matrix<T>)
        ensures
            r.0@.len() == 0,
    {
        Matrix(Vec::new())
    }

    pub fn new(matrix: MatrixType<T>) -> (r: Matrix<T>)
        ensures
            r.0 == matrix,
    {
        Matrix(matrix)
    }

    /// `height` rows of `width` copies of `value`; a negative size counts as 0.
    pub fn from_size(width: i64, height: i64, value: T) -> (r: Matrix<T>)
        ensures
            grid_view(r.0@) == filled(
                if width > 0 { width as nat } else { 0 },
                if height > 0 { height as nat } else { 0 },
                value,
            ),
    {
        let ghost w: nat = if width > 0 { width as nat } else { 0 };
        let ghost h: nat = if height > 0 { height as nat } else { 0 };
        let mut matrix: MatrixType<T> = Vec::new();
        let mut i: i64 = 0;
        while i < height
            invariant
                h == (if height > 0 { height as nat } else { 0 }),
                w == (if width > 0 { width as nat } else { 0 }),
                0 <= i,
                i <= h,
                matrix@.len() == i,
                forall|k: int| 0 <= k < i ==> (#[trigger] matrix@[k])@ == Seq::new(w, |j: int| value),
            decreases height - i,
        {
            let mut row: Vec<T> = Vec::new();
            let mut j: i64 = 0;
            while j < width
                invariant
                    w == (if width > 0 { width as nat } else { 0 }),
                    0 <= j,
                    j <= w,
                    row@.len() == j,
                    forall|k: int| 0 <= k < j ==> row@[k] == value,
                decreases width - j,
            {
                row.push(value);
                j = j + 1;
            }
            assert(row@ =~= Seq::new(w, |j: int| value));
            matrix.push(row);
            i = i + 1;
        }
        assert(grid_view(matrix@) =~= filled(w, h, value));
        Matrix(matrix)
    }

    /// The `(2 * scope + 1)`-square window centered on column `x`, row `y`;
    /// cells outside the grid read as `default_value`.
    pub fn get_surrounding_tiles(&self, x: i64, y: i64, scope: i64, default_value: T) -> (r: MatrixType<T>)
        requires
            0 <= scope,
        ensures
            grid_view(r@) == neighborhood(grid_view(self.0@), x as int, y as int, scope as int, default_value),
    {
        self.window(x as i128, y as i128, scope as i128, default_value)
    }

    /// The window of `get_surrounding_tiles`, on wide coordinates.
    pub fn window(&self, x: i128, y: i128, scope: i128, default_value: T) -> (r: MatrixType<T>)
        requires
            0 <= scope <= i64::MAX,
            -0x1_0000_0000_0000_0000 <= x <= 0x1_0000_0000_0000_0000,
            -0x1_0000_0000_0000_0000 <= y <= 0x1_0000_0000_0000_0000,
        ensures
            grid_view(r@) == neighborhood(grid_view(self.0@), x as int, y as int, scope as int, default_value),
    {
        let ghost g = grid_view(self.0@);
        let n: i128 = 2 * scope + 1;
        let mut matrix: MatrixType<T> = Vec::new();
        let mut i: i128 = 0;
        while i < n
            invariant
                g == grid_view(self.0@),
                n == 2 * scope + 1,
                0 <= scope <= i64::MAX,
                -0x1_0000_0000_0000_0000 <= x <= 0x1_0000_0000_0000_0000,
                -0x1_0000_0000_0000_0000 <= y <= 0x1_0000_0000_0000_0000,
                0 <= i <= n,
                matrix@.len() == i,
                forall|k: int| 0 <= k < i ==> (#[trigger] matrix@[k])@ == neighborhood(g, x as int, y as int, scope as int, default_value)[k],
            decreases n - i,
        {
            let dy: i128 = y - scope + i;
            let mut row: Vec<T> = Vec::new();
            let mut j: i128 = 0;
            while j < n
                invariant
                    g == grid_view(self.0@),
                    n == 2 * scope + 1,
                    0 <= scope <= i64::MAX,
                    -0x1_0000_0000_0000_0000 <= x <= 0x1_0000_0000_0000_0000,
                    0 <= i < n,
                    dy == y - scope + i,
                    0 <= j <= n,
                    row@.len() == j,
                    forall|k: int| 0 <= k < j ==> row@[k] == cell_or(g, dy as int, x - scope + k, default_value),
                decreases n - j,
            {
                let dx: i128 = x - scope + j;
                let mut value = default_value;
                if 0 <= dy && dy < self.0.len() as i128 {
                    let cells = &self.0[dy as usize];
                    if 0 <= dx && dx < cells.len() as i128 {
                        value = cells[dx as usize];
                    }
                }
                row.push(value);
                j = j + 1;
            }
            assert(row@ =~= neighborhood(g, x as int, y as int, scope as int, default_value)[i as int]);
            matrix.push(row);
            i = i + 1;
        }
        assert(grid_view(matrix@) =~= neighborhood(g, x as int, y as int, scope as int, default_value));
        matrix
    }

    /// Number of rows.
    pub fn height(&self) -> (r: usize)
        ensures
            r == self.0@.len(),
    {
        self.0.len()
    }

    /// Number of cells in the first row.
    pub fn width(&self) -> (r: usize)
        requires
            self.0@.len() > 0,
        ensures
            r == self.0@[0]@.len(),
    {
        self.0[0].len()
    }
}

} // verus!
