//! Pattern slots, rule patterns and the matching of a pattern (or one of its
//! mirror images) against an observed neighborhood.
use vstd::prelude::*;
use vstd::arithmetic::div_mod::lemma_fundamental_div_mod_converse;

use crate::ldtk::AutoLayerRuleDefinition;
use crate::types::MatrixType;

verus! {

/// How a single location of a pattern is matched against an observed cell.
#[derive(PartialEq, Eq, Structural, Clone, Copy, Debug, Hash, PartialOrd, Ord)]
pub enum TileStatus {
    /// Matches whatever is observed.
    Ignore,
    /// Matches an empty cell only.
    Nothing,
    /// Matches any present cell.
    Anything,
    /// Matches a present cell holding exactly this value.
    Is(usize),
    /// Matches a present cell holding any other value.
    IsNot(usize),
}

impl Default for TileStatus {
    fn default() -> (r: TileStatus)
        ensures
            r == TileStatus::Ignore,
    {
        TileStatus::Ignore
    }
}

/// Flat encoding of the `Anything` slot.
pub const ANYTHING_VALUE: i64 = 1000001;

/// Flat encoding of the `Nothing` slot.
pub const NOTHING_VALUE: i64 = -1000001;

/// Whether slot `s` accepts the observed cell `o` (`None` is an empty cell).
pub open spec fn accepts(s: TileStatus, o: Option<usize>) -> bool {
    match s {
        TileStatus::Ignore => true,
        TileStatus::Nothing => o.is_none(),
        TileStatus::Anything => o.is_some(),
        TileStatus::Is(v) => o == Some(v),
        TileStatus::IsNot(v) => o.is_some() && o != Some(v),
    }
}

/// Whether a slot can be written in the flat encoding.
pub open spec fn encodable(s: TileStatus) -> bool {
    match s {
        TileStatus::Is(v) => v <= i64::MAX,
        TileStatus::IsNot(v) => v <= i64::MAX,
        _ => true,
    }
}

/// The flat encoding of a slot.
pub open spec fn ldtk_value(s: TileStatus) -> int {
    match s {
        TileStatus::Ignore => 0,
        TileStatus::Nothing => NOTHING_VALUE as int,
        TileStatus::Anything => ANYTHING_VALUE as int,
        TileStatus::Is(v) => v as int,
        TileStatus::IsNot(v) => -(v as int),
    }
}

/// The slot a flat value decodes to.
pub open spec fn status_of(v: i64) -> TileStatus {
    if v == 0 {
        TileStatus::Ignore
    } else if v == ANYTHING_VALUE {
        TileStatus::Anything
    } else if v == NOTHING_VALUE {
        TileStatus::Nothing
    } else if v > 0 {
        TileStatus::Is(v as usize)
    } else {
        TileStatus::IsNot((-(v as int)) as usize)
    }
}

/// A slot whose flat encoding decodes back to it: `Is` and `IsNot` values
/// that are neither 0 nor the `Anything` sentinel, and that fit the encoding.
pub open spec fn round_trips(s: TileStatus) -> bool {
    match s {
        TileStatus::Is(v) => 1 <= v <= i64::MAX && v != ANYTHING_VALUE,
        TileStatus::IsNot(v) => 1 <= v <= i64::MAX && v != ANYTHING_VALUE,
        _ => true,
    }
}

impl TileStatus {
    /// Whether this slot accepts the observed cell.
    pub fn accepts(&self, observed: &Option<usize>) -> (r: bool)
        ensures
            r == accepts(*self, *observed),
    {
        match self {
            TileStatus::Ignore => true,
            TileStatus::Nothing => observed.is_none(),
            TileStatus::Anything => observed.is_some(),
            TileStatus::Is(value) => match observed {
                Some(o) => *o == *value,
                None => false,
            },
            TileStatus::IsNot(value) => match observed {
                Some(o) => *o != *value,
                None => false,
            },
        }
    }

    pub fn to_ldtk_value(&self) -> (r: i64)
        requires
            encodable(*self),
        ensures
            r == ldtk_value(*self),
    {
        match self {
            TileStatus::Ignore => 0,
            TileStatus::Nothing => NOTHING_VALUE,
            TileStatus::Anything => ANYTHING_VALUE,
            TileStatus::Is(value) => *value as i64,
            TileStatus::IsNot(value) => -(*value as i64),
        }
    }

    pub fn from_ldtk_value(value: i64) -> (r: TileStatus)
        ensures
            r == status_of(value),
    {
        if value == 0 {
            TileStatus::Ignore
        } else if value == ANYTHING_VALUE {
            TileStatus::Anything
        } else if value == NOTHING_VALUE {
            TileStatus::Nothing
        } else if value > 0 {
            TileStatus::Is(value as usize)
        } else {
            let magnitude: i128 = -(value as i128);
            TileStatus::IsNot(magnitude as usize)
        }
    }
}

/// Decoding a slot's flat encoding gives the slot back.
pub proof fn lemma_ldtk_round_trip(s: TileStatus)
    requires
        round_trips(s),
    ensures
        encodable(s),
        i64::MIN <= ldtk_value(s) <= i64::MAX,
        status_of(ldtk_value(s) as i64) == s,
{
}

/// The mirror axis of a pattern.
#[derive(PartialEq, Eq, Structural, Clone, Copy, Debug)]
pub enum FlipAxis {
    /// Columns reversed.
    X,
    /// Rows reversed.
    Y,
    /// Rows and columns reversed.
    XY,
}

/// Whether every slot accepts the observed cell at the same position.
pub open spec fn matches_spec(pattern: Seq<TileStatus>, layout: Seq<Option<usize>>) -> bool {
    pattern.len() == layout.len() && forall|k: int| 0 <= k < pattern.len() ==> accepts(#[trigger] pattern[k], layout[k])
}

/// Position, in a row-major `n` x `n` square, of the cell that lands at `k`
/// once the columns are reversed.
pub open spec fn flip_x_index(k: int, n: int) -> int {
    (k / n) * n + (n - 1 - k % n)
}

/// Position, in a row-major `n` x `n` square, of the cell that lands at `k`
/// once the rows are reversed.
pub open spec fn flip_y_index(k: int, n: int) -> int {
    (n - 1 - k / n) * n + k % n
}

/// A row-major `n` x `n` square with its columns reversed.
pub open spec fn flip_x_seq<A>(m: Seq<A>, n: int) -> Seq<A> {
    Seq::new(m.len(), |k: int| m[flip_x_index(k, n)])
}

/// A row-major `n` x `n` square with its rows reversed.
pub open spec fn flip_y_seq<A>(m: Seq<A>, n: int) -> Seq<A> {
    Seq::new(m.len(), |k: int| m[flip_y_index(k, n)])
}

/// A row-major `n` x `n` square mirrored along `axis`.
pub open spec fn flip_seq<A>(m: Seq<A>, n: int, axis: FlipAxis) -> Seq<A> {
    match axis {
        FlipAxis::X => flip_x_seq(m, n),
        FlipAxis::Y => flip_y_seq(m, n),
        FlipAxis::XY => flip_y_seq(flip_x_seq(m, n), n),
    }
}

pub(crate) proof fn lemma_row_col(k: int, n: int, r: int, c: int)
    requires
        0 < n,
        0 <= c < n,
        k == r * n + c,
    ensures
        k / n == r,
        k % n == c,
{
    lemma_fundamental_div_mod_converse(k, n, r, c);
}

proof fn lemma_flip_indices_in_range(k: int, n: int)
    requires
        0 < n,
        0 <= k < n * n,
    ensures
        0 <= flip_x_index(k, n) < n * n,
        0 <= flip_y_index(k, n) < n * n,
{
    let r = k / n;
    let c = k % n;
    assert(k == r * n + c && 0 <= c < n) by (nonlinear_arith)
        requires 0 < n, r == k / n, c == k % n;
    assert(0 <= r < n) by (nonlinear_arith)
        requires 0 < n, 0 <= k < n * n, k == r * n + c, 0 <= c < n;
    assert(0 <= r * n + (n - 1 - c) < n * n) by (nonlinear_arith)
        requires 0 <= r < n, 0 <= c < n;
    assert(0 <= (n - 1 - r) * n + c < n * n) by (nonlinear_arith)
        requires 0 <= r < n, 0 <= c < n;
}

/// Whether every slot of a pattern names a value.
pub open spec fn all_is(p: Seq<TileStatus>) -> bool {
    forall|k: int| 0 <= k < p.len() ==> (#[trigger] p[k]) is Is
}

/// The cells a pattern of `Is` slots names, as observed cells.
pub open spec fn named_cells(p: Seq<TileStatus>) -> Seq<Option<usize>> {
    p.map_values(
        |s: TileStatus|
            match s {
                TileStatus::Is(v) => Some(v),
                _ => None,
            },
    )
}

/// For a square pattern of `Is` slots, the layout that holds the cells of its
/// mirror image along X is matched by the X-mirrored pattern; the pattern
/// itself matches that layout only when it equals its mirror image, so an
/// asymmetric pattern never does.
pub proof fn lemma_flip_matching(p: Seq<TileStatus>, n: int)
    requires
        0 < n,
        p.len() == n * n,
        all_is(p),
    ensures
        matches_spec(flip_seq(p, n, FlipAxis::X), named_cells(flip_x_seq(p, n))),
        matches_spec(p, named_cells(flip_x_seq(p, n))) ==> p == flip_x_seq(p, n),
{
    let f = flip_x_seq(p, n);
    assert forall|k: int| 0 <= k < f.len() implies (#[trigger] f[k]) is Is by {
        lemma_flip_indices_in_range(k, n);
    }
    assert forall|k: int| 0 <= k < f.len() implies accepts(#[trigger] f[k], named_cells(f)[k]) by {}
    if matches_spec(p, named_cells(f)) {
        assert forall|k: int| 0 <= k < p.len() implies #[trigger] p[k] == f[k] by {
            assert(accepts(p[k], named_cells(f)[k]));
        }
        assert(p =~= f);
    }
}

proof fn lemma_side_fits(n: int, len: int)
    requires
        0 <= n,
        n * n == len,
        len <= usize::MAX,
    ensures
        n <= usize::MAX,
{
    if n >= 1 {
        assert(n <= n * n) by (nonlinear_arith)
            requires n >= 1;
    }
}

/// A rule pattern: `size` x `size` slots, row-major.
#[derive(Debug)]
pub struct TileMatcher {
    pub matcher: Vec<TileStatus>,
    pub size: i64,
}

/// The slots a rule's flat pattern decodes to.
pub open spec fn pattern_of(rule: AutoLayerRuleDefinition) -> Seq<TileStatus> {
    rule.pattern@.map_values(|v: i64| status_of(v))
}

/// A rule whose pattern is a square of odd side with a cell at its center.
pub open spec fn rule_wf(rule: AutoLayerRuleDefinition) -> bool {
    &&& 1 <= rule.size
    &&& rule.size % 2 == 1
    &&& rule.pattern@.len() == rule.size * rule.size
}

impl TileMatcher {
    /// The pattern holds exactly `size` x `size` slots.
    pub open spec fn wf(&self) -> bool {
        0 <= self.size && self.matcher@.len() == self.size * self.size
    }

    /// Decodes a rule's pattern.
    pub fn from_rule(rule: &AutoLayerRuleDefinition) -> (r: TileMatcher)
        requires
            0 <= rule.size,
            rule.pattern@.len() == rule.size * rule.size,
        ensures
            r.wf(),
            r.size == rule.size,
            r.matcher@ == pattern_of(*rule),
    {
        let mut matrix: Vec<TileStatus> = Vec::new();
        let mut k: usize = 0;
        while k < rule.pattern.len()
            invariant
                k <= rule.pattern@.len(),
                matrix@ == pattern_of(*rule).take(k as int),
            decreases rule.pattern@.len() - k,
        {
            matrix.push(TileStatus::from_ldtk_value(rule.pattern[k]));
            assert(matrix@ =~= pattern_of(*rule).take(k as int + 1));
            k = k + 1;
        }
        assert(matrix@ =~= pattern_of(*rule));
        TileMatcher { matcher: matrix, size: rule.size }
    }

    /// Whether every slot accepts the observed cell at the same position.
    pub fn matches(&self, layout: &TileLayout) -> (r: bool)
        requires
            layout.0@.len() == self.matcher@.len(),
        ensures
            r == matches_spec(self.matcher@, layout.0@),
    {
        let mut k: usize = 0;
        while k < self.matcher.len()
            invariant
                k <= self.matcher@.len(),
                layout.0@.len() == self.matcher@.len(),
                forall|j: int| 0 <= j < k ==> accepts(#[trigger] self.matcher@[j], layout.0@[j]),
            decreases self.matcher@.len() - k,
        {
            if !self.matcher[k].accepts(&layout.0[k]) {
                return false;
            }
            k = k + 1;
        }
        true
    }

    /// Whether the pattern mirrored along `flip_axis` matches the layout.
    pub fn matches_flip(&self, flip_axis: FlipAxis, layout: &TileLayout) -> (r: bool)
        requires
            self.wf(),
            layout.0@.len() == self.matcher@.len(),
        ensures
            r == matches_spec(flip_seq(self.matcher@, self.size as int, flip_axis), layout.0@),
    {
        match flip_axis {
            FlipAxis::X => self.flip_x().matches(layout),
            FlipAxis::Y => self.flip_y().matches(layout),
            FlipAxis::XY => self.flip_x().flip_y().matches(layout),
        }
    }

    /// The pattern with its columns reversed.
    pub fn flip_x(&self) -> (r: TileMatcher)
        requires
            self.wf(),
        ensures
            r.wf(),
            r.size == self.size,
            r.matcher@ == flip_x_seq(self.matcher@, self.size as int),
    {
        let rows = self.to_matrix();
        let total = self.matcher.len();
        proof {
            lemma_side_fits(self.size as int, total as int);
        }
        let n: usize = self.size as usize;
        let ghost m = self.matcher@;
        let ghost nn = self.size as int;
        let mut flipped: Vec<TileStatus> = Vec::new();
        let mut r: usize = 0;
        while r < n
            invariant
                n == nn,
                0 <= nn,
                m.len() == nn * nn,
                r <= n,
                rows@.len() == n,
                forall|i: int, j: int| 0 <= i < n && 0 <= j < n ==> (#[trigger] rows@[i]@[j]) == m[i * nn + j],
                forall|i: int| 0 <= i < n ==> (#[trigger] rows@[i]@.len()) == n,
                flipped@.len() == r * nn,
                forall|k: int| 0 <= k < flipped@.len() ==> #[trigger] flipped@[k] == m[flip_x_index(k, nn)],
            decreases n - r,
        {
            let row = &rows[r];
            let mut c: usize = 0;
            while c < n
                invariant
                    n == nn,
                    0 < nn,
                    m.len() == nn * nn,
                    r < n,
                    c <= n,
                    row@.len() == n,
                    forall|j: int| 0 <= j < n ==> (#[trigger] row@[j]) == m[r * nn + j],
                    flipped@.len() == r * nn + c,
                    forall|k: int| 0 <= k < flipped@.len() ==> #[trigger] flipped@[k] == m[flip_x_index(k, nn)],
                decreases n - c,
            {
                proof {
                    lemma_row_col(r * nn + c, nn, r as int, c as int);
                }
                flipped.push(row[n - 1 - c]);
                c = c + 1;
            }
            proof {
                assert((r + 1) * nn == r * nn + nn) by (nonlinear_arith);
            }
            r = r + 1;
        }
        assert(flipped@ =~= flip_x_seq(m, nn));
        TileMatcher { matcher: flipped, size: self.size }
    }

    /// The pattern with its rows reversed.
    pub fn flip_y(&self) -> (r: TileMatcher)
        requires
            self.wf(),
        ensures
            r.wf(),
            r.size == self.size,
            r.matcher@ == flip_y_seq(self.matcher@, self.size as int),
    {
        let rows = self.to_matrix();
        let total = self.matcher.len();
        proof {
            lemma_side_fits(self.size as int, total as int);
        }
        let n: usize = self.size as usize;
        let ghost m = self.matcher@;
        let ghost nn = self.size as int;
        let mut flipped: Vec<TileStatus> = Vec::new();
        let mut r: usize = 0;
        while r < n
            invariant
                n == nn,
                0 <= nn,
                m.len() == nn * nn,
                r <= n,
                rows@.len() == n,
                forall|i: int, j: int| 0 <= i < n && 0 <= j < n ==> (#[trigger] rows@[i]@[j]) == m[i * nn + j],
                forall|i: int| 0 <= i < n ==> (#[trigger] rows@[i]@.len()) == n,
                flipped@.len() == r * nn,
                forall|k: int| 0 <= k < flipped@.len() ==> #[trigger] flipped@[k] == m[flip_y_index(k, nn)],
            decreases n - r,
        {
            let row = &rows[n - 1 - r];
            let mut c: usize = 0;
            while c < n
                invariant
                    n == nn,
                    0 < nn,
                    m.len() == nn * nn,
                    r < n,
                    c <= n,
                    row@.len() == n,
                    forall|j: int| 0 <= j < n ==> (#[trigger] row@[j]) == m[(nn - 1 - r) * nn + j],
                    flipped@.len() == r * nn + c,
                    forall|k: int| 0 <= k < flipped@.len() ==> #[trigger] flipped@[k] == m[flip_y_index(k, nn)],
                decreases n - c,
            {
                proof {
                    lemma_row_col(r * nn + c, nn, r as int, c as int);
                }
                flipped.push(row[c]);
                c = c + 1;
            }
            proof {
                assert((r + 1) * nn == r * nn + nn) by (nonlinear_arith);
            }
            r = r + 1;
        }
        assert(flipped@ =~= flip_y_seq(m, nn));
        TileMatcher { matcher: flipped, size: self.size }
    }

    /// The pattern as `size` rows of `size` slots.
    pub fn to_matrix(&self) -> (r: MatrixType<TileStatus>)
        requires
            self.wf(),
        ensures
            r@.len() == self.size,
            forall|i: int| 0 <= i < self.size ==> (#[trigger] r@[i]@.len()) == self.size,
            forall|i: int, j: int| 0 <= i < self.size && 0 <= j < self.size ==> (#[trigger] r@[i]@[j]) == self.matcher@[i * self.size + j],
    {
        let total = self.matcher.len();
        proof {
            lemma_side_fits(self.size as int, total as int);
        }
        let n: usize = self.size as usize;
        let ghost nn = self.size as int;
        let mut matrix: MatrixType<TileStatus> = Vec::new();
        let mut y: usize = 0;
        while y < n
            invariant
                n == nn,
                0 <= nn,
                self.matcher@.len() == nn * nn,
                self.matcher@.len() <= usize::MAX,
                y <= n,
                matrix@.len() == y,
                forall|i: int| 0 <= i < y ==> (#[trigger] matrix@[i]@.len()) == n,
                forall|i: int, j: int| 0 <= i < y && 0 <= j < n ==> (#[trigger] matrix@[i]@[j]) == self.matcher@[i * nn + j],
            decreases n - y,
        {
            let mut row: Vec<TileStatus> = Vec::new();
            let mut x: usize = 0;
            while x < n
                invariant
                    n == nn,
                    0 <= nn,
                    self.matcher@.len() == nn * nn,
                    self.matcher@.len() <= usize::MAX,
                    y < n,
                    x <= n,
                    row@.len() == x,
                    forall|j: int| 0 <= j < x ==> (#[trigger] row@[j]) == self.matcher@[y * nn + j],
                decreases n - x,
            {
                proof {
                    assert(0 <= y * nn + x < nn * nn) by (nonlinear_arith)
                        requires 0 <= y < nn, 0 <= x < nn;
                }
                row.push(self.matcher[y * n + x]);
                x = x + 1;
            }
            matrix.push(row);
            y = y + 1;
        }
        matrix
    }
}

/// The observed neighborhood: row-major cells, `None` for an empty cell.
#[derive(Debug)]
pub struct TileLayout(pub Vec<Option<usize>>);

/// What a raw cell value is observed as: empty when it is one of `empty_values`.
pub open spec fn observe(v: i64, empty_values: Seq<i64>) -> Option<usize> {
    if empty_values.contains(v) {
        None
    } else {
        Some(v as usize)
    }
}

/// The observed cells of a grid, row after row.
pub open spec fn layout_of(grid: Seq<Seq<i64>>, empty_values: Seq<i64>) -> Seq<Option<usize>> {
    grid.map_values(|row: Seq<i64>| row.map_values(|v: i64| observe(v, empty_values))).flatten()
}

/// Whether `values` holds `v`.
fn contains_value(values: &Vec<i64>, v: i64) -> (r: bool)
    ensures
        r == values@.contains(v),
{
    let mut i: usize = 0;
    while i < values.len()
        invariant
            i <= values@.len(),
            forall|j: int| 0 <= j < i ==> values@[j] != v,
        decreases values@.len() - i,
    {
        if values[i] == v {
            return true;
        }
        i = i + 1;
    }
    false
}

impl TileLayout {
    /// Flattens a grid of raw values row by row, observing each of `empty_values` as empty.
    pub fn from_matrix(matrix: MatrixType<i64>, empty_values: Vec<i64>) -> (r: TileLayout)
        ensures
            r.0@ == layout_of(matrix@.map_values(|row: Vec<i64>| row@), empty_values@),
    {
        let ghost g = matrix@.map_values(|row: Vec<i64>| row@);
        let ghost e = empty_values@;
        let ghost rowmap = |row: Seq<i64>| row.map_values(|v: i64| observe(v, e));
        let mut cells: Vec<Option<usize>> = Vec::new();
        let mut y: usize = 0;
        while y < matrix.len()
            invariant
                g == matrix@.map_values(|row: Vec<i64>| row@),
                e == empty_values@,
                rowmap == (|row: Seq<i64>| row.map_values(|v: i64| observe(v, e))),
                y <= matrix@.len(),
                cells@ == g.take(y as int).map_values(rowmap).flatten(),
            decreases matrix@.len() - y,
        {
            let row = &matrix[y];
            let mut x: usize = 0;
            while x < row.len()
                invariant
                    g == matrix@.map_values(|row: Vec<i64>| row@),
                    e == empty_values@,
                    rowmap == (|row: Seq<i64>| row.map_values(|v: i64| observe(v, e))),
                    y < matrix@.len(),
                    *row == matrix@[y as int],
                    x <= row@.len(),
                    cells@ == g.take(y as int).map_values(rowmap).flatten() + row@.take(x as int).map_values(|v: i64| observe(v, e)),
                decreases row@.len() - x,
            {
                let v = row[x];
                let cell = if contains_value(&empty_values, v) {
                    None
                } else {
                    Some(v as usize)
                };
                cells.push(cell);
                assert(row@.take(x as int + 1).map_values(|v: i64| observe(v, e)) =~= row@.take(x as int).map_values(|v: i64| observe(v, e)).push(observe(v, e)));
                x = x + 1;
            }
            proof {
                assert(g.take(y as int + 1) =~= g.take(y as int).push(g[y as int]));
                assert(g.take(y as int + 1).map_values(rowmap) =~= g.take(y as int).map_values(rowmap).push(rowmap(g[y as int])));
                g.take(y as int).map_values(rowmap).lemma_flatten_push(rowmap(g[y as int]));
                assert(row@.take(x as int) =~= row@);
            }
            y = y + 1;
        }
        assert(g.take(y as int) =~= g);
        TileLayout(cells)
    }
}

} // verus!
