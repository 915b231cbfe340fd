//! Points and axis-aligned boxes on the integer grid that the database shards.
use vstd::prelude::*;

verus! {

/// A point of the grid.
#[derive(Clone, Copy, Debug, PartialEq, Eq)]
pub struct Coordinate {
    pub x: i64,
    pub y: i64,
}

pub open spec fn min_i64(a: i64, b: i64) -> i64 {
    if a <= b { a } else { b }
}

pub open spec fn max_i64(a: i64, b: i64) -> i64 {
    if a >= b { a } else { b }
}

impl Coordinate {
    pub fn new(x: i64, y: i64) -> (r: Self)
        ensures
            r.x == x,
            r.y == y,
    {
        Self { x, y }
    }

    /// The componentwise minimum of two points.
    pub fn min(&self, other: &Self) -> (r: Self)
        ensures
            r.x == min_i64(self.x, other.x),
            r.y == min_i64(self.y, other.y),
    {
        Self {
            x: if self.x <= other.x { self.x } else { other.x },
            y: if self.y <= other.y { self.y } else { other.y },
        }
    }

    /// The componentwise maximum of two points.
    pub fn max(&self, other: &Self) -> (r: Self)
        ensures
            r.x == max_i64(self.x, other.x),
            r.y == max_i64(self.y, other.y),
    {
        Self {
            x: if self.x >= other.x { self.x } else { other.x },
            y: if self.y >= other.y { self.y } else { other.y },
        }
    }
}

/// A closed box: every point whose coordinates lie between those of `min`
/// and `max`, both included.
#[derive(Clone, Copy, Debug, PartialEq, Eq)]
pub struct BoundingBox {
    pub min: Coordinate,
    pub max: Coordinate,
}

impl BoundingBox {
    pub open spec fn spec_contains(self, p: Coordinate) -> bool {
        &&& self.min.x <= p.x <= self.max.x
        &&& self.min.y <= p.y <= self.max.y
    }

    pub open spec fn spec_intersects(self, other: BoundingBox) -> bool {
        !(self.max.x < other.min.x || self.min.x > other.max.x || self.max.y < other.min.y
            || self.min.y > other.max.y)
    }

    pub open spec fn spec_is_zero(self) -> bool {
        self.min.x == 0 && self.min.y == 0 && self.max.x == 0 && self.max.y == 0
    }

    pub open spec fn spec_zero() -> BoundingBox {
        BoundingBox { min: Coordinate { x: 0, y: 0 }, max: Coordinate { x: 0, y: 0 } }
    }

    /// The smallest box holding both boxes' corners.
    pub open spec fn spec_union(self, other: BoundingBox) -> BoundingBox {
        BoundingBox {
            min: Coordinate {
                x: min_i64(self.min.x, other.min.x),
                y: min_i64(self.min.y, other.min.y),
            },
            max: Coordinate {
                x: max_i64(self.max.x, other.max.x),
                y: max_i64(self.max.y, other.max.y),
            },
        }
    }

    /// The box with both corners at the origin, which stands for "no area yet".
    pub fn zero() -> (r: Self)
        ensures
            r == Self::spec_zero(),
    {
        Self::new(Coordinate { x: 0, y: 0 }, Coordinate { x: 0, y: 0 })
    }

    pub fn is_zero(&self) -> (r: bool)
        ensures
            r == self.spec_is_zero(),
    {
        self.min.x == 0 && self.min.y == 0 && self.max.x == 0 && self.max.y == 0
    }

    pub fn new(min: Coordinate, max: Coordinate) -> (r: Self)
        ensures
            r.min == min,
            r.max == max,
    {
        Self { min, max }
    }


    /// Lays `count` cells out on a grid: the least number of columns whose square
    /// reaches `count`, and as many rows as those columns need.
    pub fn compute_grid(count: u64) -> (r: (u64, u64))
        ensures
            r.0 == grid_cols(count as nat),
            r.1 == grid_rows(count as nat),
            is_ceil_sqrt(count as int, r.0 as int),
    {
        let mut lo: u64 = 0;
        let mut hi: u64 = 0x1_0000_0000;
        assert((hi as int) * (hi as int) >= count) by (nonlinear_arith)
            requires hi == 0x1_0000_0000, count <= u64::MAX;
        while lo < hi
            invariant
                lo <= hi <= 0x1_0000_0000,
                (hi as int) * (hi as int) >= count,
                lo == 0 || ((lo - 1) as int) * ((lo - 1) as int) < count,
            decreases hi - lo,
        {
            let mid = lo + (hi - lo) / 2;
            assert((mid as int) * (mid as int) <= 0x1_0000_0000 * 0x1_0000_0000) by (nonlinear_arith)
                requires 0 <= mid <= 0x1_0000_0000;
            let sq: u128 = (mid as u128) * (mid as u128);
            if sq >= count as u128 {
                hi = mid;
            } else {
                lo = mid + 1;
            }
        }
        proof {
            assert(is_ceil_sqrt(count as int, lo as int));
            let c = choose|c: int| is_ceil_sqrt(count as int, c);
            lemma_ceil_sqrt_unique(count as int, c, lo as int);
        }
        let rows: u64 = if lo == 0 {
            0
        } else {
            let extra: u64 = if count % lo != 0 { 1 } else { 0 };
            proof {
                lemma_ceil_div(count as int, lo as int);
                if lo >= 2 {
                    assert(count / lo <= count / 2) by (nonlinear_arith)
                        requires lo >= 2, count >= 0;
                }
            }
            count / lo + extra
        };
        (lo, rows)
    }


    /// Cuts the box into `count` cells on the grid that `compute_grid` gives,
    /// numbered row by row.
    pub fn divide_bound_box(&self, count: u64) -> (boxes: Vec<BoundingBox>)
        ensures
            boxes.len() == count,
            forall|i: int|
                0 <= i < count ==> #[trigger] boxes[i] == grid_cell(
                    *self,
                    grid_cols(count as nat),
                    grid_rows(count as nat),
                    i,
                ),
    {
        let (cols, rows) = Self::compute_grid(count);
        let mut boxes: Vec<BoundingBox> = Vec::new();
        if count == 0 {
            return boxes;
        }
        proof {
            assert(cols > 0) by {
                if cols == 0 {
                    assert((cols as int) * (cols as int) == 0) by (nonlinear_arith)
                        requires cols == 0;
                }
            }
            lemma_grid_covers(count as int, cols as int);
        }
        let width: i128 = self.max.x as i128 - self.min.x as i128;
        let height: i128 = self.max.y as i128 - self.min.y as i128;
        let cell_w: i128 = if width >= 0 {
            width / (cols as i128)
        } else {
            -((-width) / (cols as i128))
        };
        let cell_h: i128 = if height >= 0 {
            height / (rows as i128)
        } else {
            -((-height) / (rows as i128))
        };
        let mut i: u64 = 0;
        while i < count
            invariant
                0 < cols,
                0 < rows,
                count <= (cols as int) * (rows as int),
                cols == grid_cols(count as nat),
                rows == grid_rows(count as nat),
                width == self.max.x - self.min.x,
                height == self.max.y - self.min.y,
                cell_w == trunc_div(width as int, cols as int),
                cell_h == trunc_div(height as int, rows as int),
                i <= count,
                boxes.len() == i,
                forall|j: int|
                    0 <= j < i ==> #[trigger] boxes[j] == grid_cell(*self, cols as int, rows as int, j),
            decreases count - i,
        {
            let row = i / cols;
            let col = i % cols;
            proof {
                assert(row < rows) by (nonlinear_arith)
                    requires row == i / cols, i < count, count <= cols * rows, cols > 0;
                assert(col < cols) by (nonlinear_arith)
                    requires col == i % cols, cols > 0;
                lemma_steps_within(width as int, cols as int, col as int);
                lemma_steps_within(width as int, cols as int, col as int + 1);
                lemma_steps_within(height as int, rows as int, row as int);
                lemma_steps_within(height as int, rows as int, row as int + 1);
            }
            let min_x: i128 = self.min.x as i128 + (col as i128) * cell_w;
            let min_y: i128 = self.min.y as i128 + (row as i128) * cell_h;
            let max_x: i64 = if col == cols - 1 {
                self.max.x
            } else {
                (self.min.x as i128 + (col as i128 + 1) * cell_w) as i64
            };
            let max_y: i64 = if row == rows - 1 {
                self.max.y
            } else {
                (self.min.y as i128 + (row as i128 + 1) * cell_h) as i64
            };
            let cell = BoundingBox::new(Coordinate::new(min_x as i64, min_y as i64), Coordinate::new(max_x, max_y));
            boxes.push(cell);
            i = i + 1;
        }
        boxes
    }

    pub fn contains(&self, point: &Coordinate) -> (r: bool)
        ensures
            r == self.spec_contains(*point),
    {
        point.x >= self.min.x && point.x <= self.max.x && point.y >= self.min.y && point.y
            <= self.max.y
    }

    pub fn intersects(&self, other: &BoundingBox) -> (r: bool)
        ensures
            r == self.spec_intersects(*other),
    {
        !(self.max.x < other.min.x || self.min.x > other.max.x || self.max.y < other.min.y
            || self.min.y > other.max.y)
    }
}


/// Whether `c` is the ceiling of the square root of `n`: the least `c` with `c * c >= n`.
pub open spec fn is_ceil_sqrt(n: int, c: int) -> bool {
    &&& 0 <= c
    &&& c * c >= n
    &&& (c == 0 || (c - 1) * (c - 1) < n)
}

/// The number of columns of the grid that `count` cells are laid out in.
pub open spec fn grid_cols(count: nat) -> int {
    choose|c: int| is_ceil_sqrt(count as int, c)
}

/// The number of rows of that grid: enough rows of `grid_cols(count)` cells for `count` cells.
pub open spec fn grid_rows(count: nat) -> int {
    let cols = grid_cols(count);
    if cols == 0 { 0 } else { (count + cols - 1) / cols }
}

proof fn lemma_ceil_sqrt_unique(n: int, c1: int, c2: int)
    requires
        is_ceil_sqrt(n, c1),
        is_ceil_sqrt(n, c2),
    ensures
        c1 == c2,
{
    if c1 < c2 {
        assert(c1 <= c2 - 1);
        assert(c1 * c1 <= (c2 - 1) * (c2 - 1)) by (nonlinear_arith)
            requires 0 <= c1 <= c2 - 1;
    } else if c2 < c1 {
        assert(c2 * c2 <= (c1 - 1) * (c1 - 1)) by (nonlinear_arith)
            requires 0 <= c2 <= c1 - 1;
    }
}

/// Division that rounds toward zero, as the machine's integer division does.
pub open spec fn trunc_div(a: int, b: int) -> int {
    if a >= 0 { a / b } else { -((-a) / b) }
}

/// The `i`-th cell when `b` is cut into a grid of `cols` columns and `rows` rows,
/// numbered row by row.  Cells of the last column and of the last row reach the
/// box's far edge.
pub open spec fn grid_cell(b: BoundingBox, cols: int, rows: int, i: int) -> BoundingBox {
    let cell_w = trunc_div(b.max.x - b.min.x, cols);
    let cell_h = trunc_div(b.max.y - b.min.y, rows);
    let row = i / cols;
    let col = i % cols;
    BoundingBox {
        min: Coordinate { x: (b.min.x + col * cell_w) as i64, y: (b.min.y + row * cell_h) as i64 },
        max: Coordinate {
            x: if col == cols - 1 { b.max.x } else { (b.min.x + (col + 1) * cell_w) as i64 },
            y: if row == rows - 1 { b.max.y } else { (b.min.y + (row + 1) * cell_h) as i64 },
        },
    }
}

/// `k` steps of `trunc_div(w, n)` stay between 0 and `w`.
proof fn lemma_steps_within(w: int, n: int, k: int)
    requires
        n > 0,
        0 <= k <= n,
    ensures
        w >= 0 ==> 0 <= k * trunc_div(w, n) <= w,
        w < 0 ==> w <= k * trunc_div(w, n) <= 0,
{
    if w >= 0 {
        let q = w / n;
        assert(q * n <= w) by (nonlinear_arith) requires q == w / n, n > 0, w >= 0;
        assert(0 <= q) by (nonlinear_arith) requires q == w / n, n > 0, w >= 0;
        assert(0 <= k * q <= w) by (nonlinear_arith) requires 0 <= q, q * n <= w, 0 <= k <= n;
    } else {
        let q = (-w) / n;
        assert(q * n <= -w) by (nonlinear_arith) requires q == (-w) / n, n > 0, w < 0;
        assert(0 <= q) by (nonlinear_arith) requires q == (-w) / n, n > 0, w < 0;
        assert(0 <= k * q <= -w) by (nonlinear_arith) requires 0 <= q, q * n <= -w, 0 <= k <= n;
        assert(k * (-q) == -(k * q)) by (nonlinear_arith);
    }
}


/// Rounding a quotient up adds one exactly when the division leaves a remainder.
proof fn lemma_ceil_div(n: int, d: int)
    requires
        n >= 0,
        d > 0,
    ensures
        (n + d - 1) / d == n / d + (if n % d != 0 { 1int } else { 0int }),
        n / d <= n,
        d == 1 ==> n % d == 0,
{
    let q = n / d;
    let r = n % d;
    assert(n == q * d + r && 0 <= r < d) by (nonlinear_arith) requires q == n / d, r == n % d, d > 0;
    if r == 0 {
        assert((n + d - 1) / d == q) by (nonlinear_arith)
            requires n == q * d, d > 0;
    } else {
        assert((n + d - 1) / d == q + 1) by (nonlinear_arith)
            requires n == q * d + r, 0 < r < d;
    }
    assert(q <= n) by (nonlinear_arith) requires n == q * d + r, 0 <= r < d, d > 0, n >= 0;
    if d == 1 {
        assert(r == 0);
    }
}


/// A grid of `cols` columns and `ceil(count / cols)` rows has room for `count` cells.
proof fn lemma_grid_covers(count: int, cols: int)
    requires
        count >= 0,
        cols > 0,
    ensures
        count <= cols * ((count + cols - 1) / cols),
        count > 0 ==> (count + cols - 1) / cols > 0,
{
    let q = count / cols;
    let r = count % cols;
    lemma_ceil_div(count, cols);
    assert(count == q * cols + r && 0 <= r < cols) by (nonlinear_arith)
        requires q == count / cols, r == count % cols, cols > 0;
    if r == 0 {
        assert(count <= cols * q) by (nonlinear_arith) requires count == q * cols + r, r == 0;
    } else {
        assert(count <= cols * (q + 1)) by (nonlinear_arith) requires count == q * cols + r, r < cols;
    }
    let rows = (count + cols - 1) / cols;
    if count > 0 && rows <= 0 {
        assert(cols * rows <= 0) by (nonlinear_arith) requires cols > 0, rows <= 0;
    }
}

/// Every count has a ceiling square root.
proof fn lemma_ceil_sqrt_exists(n: nat)
    ensures
        is_ceil_sqrt(n as int, grid_cols(n)),
    decreases n,
{
    if n == 0 {
        assert(is_ceil_sqrt(0, 0));
    } else {
        lemma_ceil_sqrt_exists((n - 1) as nat);
        let c = grid_cols((n - 1) as nat);
        if c * c >= n {
            assert(is_ceil_sqrt(n as int, c));
        } else {
            assert((c + 1) * (c + 1) >= n) by (nonlinear_arith)
                requires c * c >= n - 1, c >= 0;
            assert(is_ceil_sqrt(n as int, c + 1));
        }
    }
}

/// The column (or row) of a grid of `n` steps over `lo..=hi` that holds `v`.
proof fn axis_cell(lo: int, hi: int, n: int, v: int) -> (k: int)
    requires
        n > 0,
        lo <= v <= hi,
    ensures
        0 <= k < n,
        lo + k * trunc_div(hi - lo, n) <= v,
        v <= (if k == n - 1 { hi } else { lo + (k + 1) * trunc_div(hi - lo, n) }),
{
    let w = hi - lo;
    let cw = trunc_div(w, n);
    let d = v - lo;
    assert(cw == w / n);
    assert(0 <= cw) by (nonlinear_arith) requires cw == w / n, w >= 0, n > 0;
    if cw == 0 {
        if d == 0 {
            assert(0 * cw == 0) by (nonlinear_arith);
            assert(1 * cw == 0) by (nonlinear_arith) requires cw == 0;
            0
        } else {
            assert((n - 1) * cw == 0) by (nonlinear_arith) requires cw == 0;
            n - 1
        }
    } else {
        let q = d / cw;
        assert(q * cw <= d < (q + 1) * cw) by (nonlinear_arith) requires q == d / cw, cw > 0, d >= 0;
        assert(0 <= q) by (nonlinear_arith) requires q == d / cw, cw > 0, d >= 0;
        if q < n - 1 {
            q
        } else {
            assert((n - 1) * cw <= q * cw) by (nonlinear_arith) requires n - 1 <= q, cw > 0;
            n - 1
        }
    }
}

/// When the cells fill their grid (the last row is not left short), every
/// point of a box lies in one of the cells that `divide_bound_box` cuts it
/// into.
pub proof fn law_cells_cover_box(b: BoundingBox, count: nat, p: Coordinate)
    requires
        b.spec_contains(p),
        count > 0,
        grid_cols(count) * grid_rows(count) == count,
    ensures
        exists|i: int| 0 <= i < count && #[trigger] grid_cell(b, grid_cols(count), grid_rows(count), i).spec_contains(p),
{
    lemma_ceil_sqrt_exists(count);
    let cols = grid_cols(count);
    let rows = grid_rows(count);
    assert(cols > 0) by {
        if cols == 0 {
            assert(cols * cols == 0);
        }
    }
    lemma_grid_covers(count as int, cols);
    let kx = axis_cell(b.min.x as int, b.max.x as int, cols, p.x as int);
    let ky = axis_cell(b.min.y as int, b.max.y as int, rows, p.y as int);
    let i = ky * cols + kx;
    vstd::arithmetic::div_mod::lemma_fundamental_div_mod_converse(i, cols, ky, kx);
    assert(0 <= i < count) by (nonlinear_arith)
        requires i == ky * cols + kx, 0 <= kx < cols, 0 <= ky < rows, cols * rows == count;
    lemma_steps_within(b.max.x - b.min.x, cols, kx);
    lemma_steps_within(b.max.x - b.min.x, cols, kx + 1);
    lemma_steps_within(b.max.y - b.min.y, rows, ky);
    lemma_steps_within(b.max.y - b.min.y, rows, ky + 1);
    assert(grid_cell(b, cols, rows, i).spec_contains(p));
}

/// Two boxes that share a point intersect.
pub proof fn lemma_common_point_intersects(a: BoundingBox, b: BoundingBox, p: Coordinate)
    requires
        a.spec_contains(p),
        b.spec_contains(p),
    ensures
        a.spec_intersects(b),
        b.spec_intersects(a),
{
}

} // verus!
