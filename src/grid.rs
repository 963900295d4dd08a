//! The structured grid: cell centres, staggered face centres and the map from
//! a point to the cell that holds it.
use vstd::prelude::*;

verus! {

/// The largest magnitude of a grid extent, in lattice quanta.
pub const COORD_LIMIT: i64 = 1_099_511_627_776;

/// A rectangular grid of `nx` by `ny` cells over `[x0, x1) x [y0, y1)`.
///
/// Every cell has the same integer width and height, so all the geometry
/// below is exact.
#[derive(Clone, Copy, Debug, PartialEq, Eq)]
pub struct Grid {
    pub nx: usize,
    pub ny: usize,
    pub x0: i64,
    pub x1: i64,
    pub y0: i64,
    pub y1: i64,
}

/// Why a grid cannot be built from the given extents.
#[derive(Clone, Copy, Debug, PartialEq, Eq)]
pub enum GridError {
    /// `nx` or `ny` is zero.
    ZeroResolution,
    /// `x1 <= x0` or `y1 <= y0`.
    EmptyExtent,
    /// An extent lies beyond [`COORD_LIMIT`].
    OutOfRange,
    /// The width does not split into `nx` cells of the same even width, or
    /// the height into `ny` cells of the same even height.
    UnevenCells,
    /// The face arrays would hold more entries than memory can address.
    TooManyCells,
}

/// The error that [`Grid::new`] reports for these parameters, if any.
pub open spec fn grid_error(nx: usize, ny: usize, x0: i64, x1: i64, y0: i64, y1: i64) -> Option<GridError> {
    if nx == 0 || ny == 0 {
        Some(GridError::ZeroResolution)
    } else if x1 <= x0 || y1 <= y0 {
        Some(GridError::EmptyExtent)
    } else if x0 < -COORD_LIMIT || x1 > COORD_LIMIT || y0 < -COORD_LIMIT || y1 > COORD_LIMIT {
        Some(GridError::OutOfRange)
    } else if (x1 - x0) % (nx as int) != 0 || ((x1 - x0) / (nx as int)) % 2 != 0
        || (y1 - y0) % (ny as int) != 0 || ((y1 - y0) / (ny as int)) % 2 != 0 {
        Some(GridError::UnevenCells)
    } else if (nx + 1) * (ny + 1) > usize::MAX {
        Some(GridError::TooManyCells)
    } else {
        None
    }
}

/// The vector of length `n * m` that holds `(xs[i], ys[j])` at `i * m + j`.
pub open spec fn is_product(r: Seq<(i64, i64)>, xs: Seq<i64>, ys: Seq<i64>) -> bool {
    &&& r.len() == xs.len() * ys.len()
    &&& forall|i: int, j: int|
        0 <= i < xs.len() && 0 <= j < ys.len() ==> #[trigger] r[i * ys.len() + j] == (xs[i], ys[j])
}

impl Grid {
    /// At least one cell each way, cells of even whole width and height, and
    /// extents within [`COORD_LIMIT`].
    pub open spec fn wf(&self) -> bool {
        grid_error(self.nx, self.ny, self.x0, self.x1, self.y0, self.y1) is None
    }

    /// The width of one cell.
    pub open spec fn dx(&self) -> int {
        (self.x1 - self.x0) / (self.nx as int)
    }

    /// The height of one cell.
    pub open spec fn dy(&self) -> int {
        (self.y1 - self.y0) / (self.ny as int)
    }

    /// The middle of cell column `i`, `x0 + (i + 1/2) * dx`: a lattice point,
    /// since every cell width is even.
    pub open spec fn center_x(&self, i: int) -> int {
        self.x0 + i * self.dx() + self.dx() / 2
    }

    /// The middle of cell row `j`, `y0 + (j + 1/2) * dy`.
    pub open spec fn center_y(&self, j: int) -> int {
        self.y0 + j * self.dy() + self.dy() / 2
    }

    /// The x coordinate of the `i`-th column of x-faces.
    pub open spec fn face_x(&self, i: int) -> int {
        self.x0 + i * self.dx()
    }

    /// The y coordinate of the `j`-th row of y-faces.
    pub open spec fn face_y(&self, j: int) -> int {
        self.y0 + j * self.dy()
    }

    /// The column of the cell that holds `x`, for `x` in `[x0, x1)`.
    pub open spec fn column_of(&self, x: int) -> int {
        (x - self.x0) / self.dx()
    }

    /// The row of the cell that holds `y`, for `y` in `[y0, y1)`.
    pub open spec fn row_of(&self, y: int) -> int {
        (y - self.y0) / self.dy()
    }

    /// The half-open domain `[x0, x1) x [y0, y1)`.
    pub open spec fn contains(&self, x: int, y: int) -> bool {
        self.x0 <= x < self.x1 && self.y0 <= y < self.y1
    }

    /// The cell-centre coordinates along each axis, and the face coordinates.
    pub open spec fn center_xs(&self) -> Seq<i64> {
        Seq::new(self.nx as nat, |i: int| self.center_x(i) as i64)
    }

    pub open spec fn center_ys(&self) -> Seq<i64> {
        Seq::new(self.ny as nat, |j: int| self.center_y(j) as i64)
    }

    pub open spec fn face_xs(&self) -> Seq<i64> {
        Seq::new((self.nx + 1) as nat, |i: int| self.face_x(i) as i64)
    }

    pub open spec fn face_ys(&self) -> Seq<i64> {
        Seq::new((self.ny + 1) as nat, |j: int| self.face_y(j) as i64)
    }
}

/// Facts that follow from a well-formed grid.
pub proof fn lemma_grid_facts(g: Grid)
    requires
        g.wf(),
    ensures
        g.dx() >= 1,
        g.dy() >= 1,
        g.nx * g.dx() == g.x1 - g.x0,
        g.ny * g.dy() == g.y1 - g.y0,
        g.nx <= g.x1 - g.x0,
        g.ny <= g.y1 - g.y0,
        g.nx * g.ny <= usize::MAX,
        g.nx + 1 <= usize::MAX,
        g.ny + 1 <= usize::MAX,
        g.dx() % 2 == 0,
        g.dy() % 2 == 0,
{
    let w = g.x1 - g.x0;
    let h = g.y1 - g.y0;
    let nx = g.nx as int;
    let ny = g.ny as int;
    vstd::arithmetic::div_mod::lemma_fundamental_div_mod(w, nx);
    vstd::arithmetic::div_mod::lemma_fundamental_div_mod(h, ny);
    assert(g.dx() >= 1) by (nonlinear_arith)
        requires w == nx * g.dx(), w > 0, nx >= 1;
    assert(g.dy() >= 1) by (nonlinear_arith)
        requires h == ny * g.dy(), h > 0, ny >= 1;
    assert(nx <= w) by (nonlinear_arith)
        requires w == nx * g.dx(), g.dx() >= 1, nx >= 1;
    assert(ny <= h) by (nonlinear_arith)
        requires h == ny * g.dy(), g.dy() >= 1, ny >= 1;
    assert(nx * ny <= (nx + 1) * (ny + 1)) by (nonlinear_arith)
        requires nx >= 1, ny >= 1;
    assert(nx + 1 <= (nx + 1) * (ny + 1)) by (nonlinear_arith)
        requires nx >= 1, ny >= 1;
    assert(ny + 1 <= (nx + 1) * (ny + 1)) by (nonlinear_arith)
        requires nx >= 1, ny >= 1;
}

/// `count` points `start + k * step + offset`, for `k` in `0..count`.
fn lattice(start: i64, step: i64, offset: i64, count: usize) -> (r: Vec<i64>)
    requires
        start >= -COORD_LIMIT,
        step >= 0,
        offset >= 0,
        count >= 1,
        start + (count - 1) * step + offset <= COORD_LIMIT,
    ensures
        r@ == Seq::new(count as nat, |k: int| (start + k * step + offset) as i64),
{
    let mut r: Vec<i64> = Vec::new();
    let mut v: i64 = start + offset;
    let mut k: usize = 0;
    proof {
        assert(0 * step <= (count - 1) * step) by (nonlinear_arith)
            requires count >= 1, step >= 0;
    }
    while k < count
        invariant
            k <= count,
            count >= 1,
            step >= 0,
            start >= -COORD_LIMIT,
            offset >= 0,
            start + (count - 1) * step + offset <= COORD_LIMIT,
            k < count ==> v == start + k * step + offset,
            r@.len() == k,
            forall|m: int| 0 <= m < k ==> r@[m] == (start + m * step + offset) as i64,
        decreases count - k,
    {
        proof {
            assert(k * step <= (count - 1) * step) by (nonlinear_arith)
                requires k <= count - 1, step >= 0;
            assert((k + 1) * step == k * step + step) by (nonlinear_arith);
        }
        r.push(v);
        if k + 1 < count {
            proof {
                assert((k + 1) * step <= (count - 1) * step) by (nonlinear_arith)
                    requires k + 1 <= count - 1, step >= 0;
            }
            v = v + step;
        }
        k = k + 1;
    }
    assert(r@ =~= Seq::new(count as nat, |k: int| (start + k * step + offset) as i64));
    r
}

/// Every pair `(xs[i], ys[j])`, at index `i * ys.len() + j`.
fn cartesian_product(xs: &Vec<i64>, ys: &Vec<i64>) -> (r: Vec<(i64, i64)>)
    requires
        xs.len() * ys.len() <= usize::MAX,
    ensures
        is_product(r@, xs@, ys@),
{
    let n = xs.len();
    let m = ys.len();
    let mut r: Vec<(i64, i64)> = Vec::new();
    let mut i: usize = 0;
    while i < n
        invariant
            n == xs.len(),
            m == ys.len(),
            n * m <= usize::MAX,
            i <= n,
            r@.len() == i * m,
            forall|a: int, b: int|
                0 <= a < i && 0 <= b < m ==> #[trigger] r@[a * m + b] == (xs@[a], ys@[b]),
        decreases n - i,
    {
        let mut j: usize = 0;
        while j < m
            invariant
                n == xs.len(),
                m == ys.len(),
                n * m <= usize::MAX,
                i < n,
                j <= m,
                r@.len() == i * m + j,
                forall|a: int, b: int|
                    0 <= a < i && 0 <= b < m ==> #[trigger] r@[a * m + b] == (xs@[a], ys@[b]),
                forall|b: int| 0 <= b < j ==> #[trigger] r@[i * m + b] == (xs@[i as int], ys@[b]),
            decreases m - j,
        {
            proof {
                assert(i * m + j < n * m) by (nonlinear_arith)
                    requires i < n, j < m;
            }
            let ghost old_r = r@;
            r.push((xs[i], ys[j]));
            proof {
                assert forall|a: int, b: int|
                    0 <= a < i && 0 <= b < m implies #[trigger] r@[a * m + b] == (xs@[a], ys@[b]) by {
                    assert(a * m + b < i * m) by (nonlinear_arith)
                        requires a < i, b < m, 0 <= b;
                    assert(r@[a * m + b] == old_r[a * m + b]);
                }
            }
            j = j + 1;
        }
        proof {
            assert((i + 1) * m == i * m + m) by (nonlinear_arith);
            assert forall|a: int, b: int|
                0 <= a < i + 1 && 0 <= b < m implies #[trigger] r@[a * m + b] == (xs@[a], ys@[b]) by {
                if a == i {
                    assert(r@[i * m + b] == (xs@[i as int], ys@[b]));
                }
            }
        }
        i = i + 1;
    }
    r
}

impl Grid {
    /// Builds the grid, or says which requirement its parameters miss.
    pub fn new(nx: usize, ny: usize, x0: i64, x1: i64, y0: i64, y1: i64) -> (r: Result<Grid, GridError>)
        ensures
            match r {
                Ok(g) => grid_error(nx, ny, x0, x1, y0, y1) is None && g == (Grid { nx, ny, x0, x1, y0, y1 }),
                Err(e) => grid_error(nx, ny, x0, x1, y0, y1) == Some(e),
            },
    {
        if nx == 0 || ny == 0 {
            return Err(GridError::ZeroResolution);
        }
        if x1 <= x0 || y1 <= y0 {
            return Err(GridError::EmptyExtent);
        }
        if x0 < -COORD_LIMIT || x1 > COORD_LIMIT || y0 < -COORD_LIMIT || y1 > COORD_LIMIT {
            return Err(GridError::OutOfRange);
        }
        let w = (x1 - x0) as u64;
        let h = (y1 - y0) as u64;
        if w % (nx as u64) != 0 || (w / nx as u64) % 2 != 0 || h % (ny as u64) != 0 || (h / ny as u64) % 2 != 0 {
            return Err(GridError::UnevenCells);
        }
        proof {
            assert((nx + 1) <= (nx + 1) * (ny + 1) && (ny + 1) <= (nx + 1) * (ny + 1)) by (nonlinear_arith);
        }
        let fits = match (nx.checked_add(1), ny.checked_add(1)) {
            (Some(a), Some(b)) => match a.checked_mul(b) {
                Some(_) => true,
                None => false,
            },
            _ => false,
        };
        if !fits {
            return Err(GridError::TooManyCells);
        }
        Ok(Grid { nx, ny, x0, x1, y0, y1 })
    }

    /// The width of one cell.
    pub fn cell_width(&self) -> (r: i64)
        requires
            self.wf(),
        ensures
            r == self.dx(),
            r >= 1,
    {
        proof { lemma_grid_facts(*self); }
        ((self.x1 - self.x0) as u64 / self.nx as u64) as i64
    }

    /// The height of one cell.
    pub fn cell_height(&self) -> (r: i64)
        requires
            self.wf(),
        ensures
            r == self.dy(),
            r >= 1,
    {
        proof { lemma_grid_facts(*self); }
        ((self.y1 - self.y0) as u64 / self.ny as u64) as i64
    }

    /// The centre of every cell: `(center_x(i), center_y(j))` at `i * ny + j`.
    pub fn cell_centers(&self) -> (r: Vec<(i64, i64)>)
        requires
            self.wf(),
        ensures
            is_product(r@, self.center_xs(), self.center_ys()),
    {
        proof { lemma_grid_facts(*self); }
        let dx = self.cell_width();
        let dy = self.cell_height();
        proof { lemma_axis_bounds(*self); }
        let xs = lattice(self.x0, dx, dx / 2, self.nx);
        let ys = lattice(self.y0, dy, dy / 2, self.ny);
        assert(xs@ =~= self.center_xs());
        assert(ys@ =~= self.center_ys());
        cartesian_product(&xs, &ys)
    }

    /// The x-face centres: `(face_x(i), center_y(j))` at `i * ny + j`, `i` in `0..=nx`.
    pub fn face_centers_x(&self) -> (r: Vec<(i64, i64)>)
        requires
            self.wf(),
        ensures
            is_product(r@, self.face_xs(), self.center_ys()),
    {
        proof { lemma_grid_facts(*self); }
        let dx = self.cell_width();
        let dy = self.cell_height();
        proof { lemma_axis_bounds(*self); }
        let xs = lattice(self.x0, dx, 0, self.nx + 1);
        let ys = lattice(self.y0, dy, dy / 2, self.ny);
        assert(xs@ =~= self.face_xs());
        assert(ys@ =~= self.center_ys());
        proof {
            assert((self.nx + 1) * self.ny <= (self.nx + 1) * (self.ny + 1)) by (nonlinear_arith);
        }
        cartesian_product(&xs, &ys)
    }

    /// The y-face centres: `(center_x(i), face_y(j))` at `i * (ny + 1) + j`, `j` in `0..=ny`.
    pub fn face_centers_y(&self) -> (r: Vec<(i64, i64)>)
        requires
            self.wf(),
        ensures
            is_product(r@, self.center_xs(), self.face_ys()),
    {
        proof { lemma_grid_facts(*self); }
        let dx = self.cell_width();
        let dy = self.cell_height();
        proof { lemma_axis_bounds(*self); }
        let xs = lattice(self.x0, dx, dx / 2, self.nx);
        let ys = lattice(self.y0, dy, 0, self.ny + 1);
        assert(xs@ =~= self.center_xs());
        assert(ys@ =~= self.face_ys());
        proof {
            assert(self.nx * (self.ny + 1) <= (self.nx + 1) * (self.ny + 1)) by (nonlinear_arith);
        }
        cartesian_product(&xs, &ys)
    }
}

/// The points of each axis lie within the grid's extent.
pub proof fn lemma_axis_bounds(g: Grid)
    requires
        g.wf(),
    ensures
        g.x0 + (g.nx - 1) * g.dx() + g.dx() / 2 <= COORD_LIMIT,
        g.y0 + (g.ny - 1) * g.dy() + g.dy() / 2 <= COORD_LIMIT,
        g.x0 + g.nx * g.dx() <= COORD_LIMIT,
        g.y0 + g.ny * g.dy() <= COORD_LIMIT,
        forall|i: int| 0 <= i <= g.nx ==> g.x0 <= #[trigger] g.face_x(i) <= g.x1,
        forall|j: int| 0 <= j <= g.ny ==> g.y0 <= #[trigger] g.face_y(j) <= g.y1,
        forall|i: int| 0 <= i < g.nx ==> g.x0 <= #[trigger] g.center_x(i) < g.x1,
        forall|j: int| 0 <= j < g.ny ==> g.y0 <= #[trigger] g.center_y(j) < g.y1,
{
    lemma_grid_facts(g);
    let dx = g.dx();
    let dy = g.dy();
    let nx = g.nx as int;
    let ny = g.ny as int;
    assert((nx - 1) * dx + dx == nx * dx) by (nonlinear_arith);
    assert((ny - 1) * dy + dy == ny * dy) by (nonlinear_arith);
    assert forall|i: int| 0 <= i <= g.nx implies g.x0 <= #[trigger] g.face_x(i) <= g.x1 by {
        assert(0 <= i * dx <= nx * dx) by (nonlinear_arith)
            requires 0 <= i <= nx, dx >= 1;
    }
    assert forall|j: int| 0 <= j <= g.ny implies g.y0 <= #[trigger] g.face_y(j) <= g.y1 by {
        assert(0 <= j * dy <= ny * dy) by (nonlinear_arith)
            requires 0 <= j <= ny, dy >= 1;
    }
    assert forall|i: int| 0 <= i < g.nx implies g.x0 <= #[trigger] g.center_x(i) < g.x1 by {
        assert(0 <= i * dx && i * dx + dx <= nx * dx) by (nonlinear_arith)
            requires 0 <= i < nx, dx >= 1;
    }
    assert forall|j: int| 0 <= j < g.ny implies g.y0 <= #[trigger] g.center_y(j) < g.y1 by {
        assert(0 <= j * dy && j * dy + dy <= ny * dy) by (nonlinear_arith)
            requires 0 <= j < ny, dy >= 1;
    }
}

impl Grid {
    /// The staggered face node `(i, j)` of the given axis, `'x'` or `'y'`;
    /// `None` for any other axis or for an index past the last node.
    pub fn face_center(&self, i: usize, j: usize, dir: char) -> (r: Option<(i64, i64)>)
        requires
            self.wf(),
        ensures
            r == (if dir == 'x' && i <= self.nx && j < self.ny {
                Some((self.face_x(i as int) as i64, self.center_y(j as int) as i64))
            } else if dir == 'y' && i < self.nx && j <= self.ny {
                Some((self.center_x(i as int) as i64, self.face_y(j as int) as i64))
            } else {
                None
            }),
    {
        proof {
            lemma_grid_facts(*self);
            lemma_axis_bounds(*self);
        }
        let dx = self.cell_width();
        let dy = self.cell_height();
        if dir == 'x' && i <= self.nx && j < self.ny {
            proof {
                assert(self.face_x(i as int) <= self.x1);
                assert(self.center_y(j as int) < self.y1);
            }
            Some((self.x0 + i as i64 * dx, self.y0 + j as i64 * dy + dy / 2))
        } else if dir == 'y' && i < self.nx && j <= self.ny {
            proof {
                assert(self.center_x(i as int) < self.x1);
                assert(self.face_y(j as int) <= self.y1);
            }
            Some((self.x0 + i as i64 * dx + dx / 2, self.y0 + j as i64 * dy))
        } else {
            None
        }
    }

    /// The cell `(i, j)` that holds the point, or `None` when the point lies
    /// outside `[x0, x1) x [y0, y1)`: such a point was not wrapped, and no
    /// index is made up for it.
    pub fn get_cell_index(&self, x: i64, y: i64) -> (r: Option<(usize, usize)>)
        requires
            self.wf(),
        ensures
            r == (if self.contains(x as int, y as int) {
                Some((self.column_of(x as int) as usize, self.row_of(y as int) as usize))
            } else {
                None
            }),
            r matches Some((i, j)) ==> i < self.nx && j < self.ny,
    {
        if !(self.x0 <= x && x < self.x1 && self.y0 <= y && y < self.y1) {
            return None;
        }
        proof {
            lemma_cell_in_range(*self, x as int, y as int);
        }
        let dx = self.cell_width();
        let dy = self.cell_height();
        let i = ((x - self.x0) as u64 / dx as u64) as usize;
        let j = ((y - self.y0) as u64 / dy as u64) as usize;
        Some((i, j))
    }
}

/// A point of the domain lies in a cell of the grid.
pub proof fn lemma_cell_in_range(g: Grid, x: int, y: int)
    requires
        g.wf(),
        g.contains(x, y),
    ensures
        0 <= g.column_of(x) < g.nx,
        0 <= g.row_of(y) < g.ny,
{
    lemma_grid_facts(g);
    let dx = g.dx();
    let dy = g.dy();
    let nx = g.nx as int;
    let ny = g.ny as int;
    vstd::arithmetic::div_mod::lemma_fundamental_div_mod(x - g.x0, dx);
    vstd::arithmetic::div_mod::lemma_fundamental_div_mod(y - g.y0, dy);
    let c = g.column_of(x);
    let r = g.row_of(y);
    assert(0 <= c < nx) by (nonlinear_arith)
        requires x - g.x0 == dx * c + (x - g.x0) % dx, 0 <= (x - g.x0) % dx < dx,
            0 <= x - g.x0 < nx * dx, dx >= 1;
    assert(0 <= r < ny) by (nonlinear_arith)
        requires y - g.y0 == dy * r + (y - g.y0) % dy, 0 <= (y - g.y0) % dy < dy,
            0 <= y - g.y0 < ny * dy, dy >= 1;
}

/// In the centres that [`Grid::cell_centers`] returns, the entry of cell
/// `(i, j)` is its centre, and the centres of neighbouring cells lie exactly
/// one cell width apart along x and one cell height apart along y.
pub proof fn lemma_cell_center_spacing(g: Grid, centers: Seq<(i64, i64)>, i: int, j: int)
    requires
        g.wf(),
        is_product(centers, g.center_xs(), g.center_ys()),
        0 <= i < g.nx,
        0 <= j < g.ny,
    ensures
        centers.len() == g.nx * g.ny,
        centers[i * g.ny + j] == (g.center_x(i) as i64, g.center_y(j) as i64),
        i + 1 < g.nx ==> centers[(i + 1) * g.ny + j].0 - centers[i * g.ny + j].0 == g.dx(),
        j + 1 < g.ny ==> centers[i * g.ny + j + 1].1 - centers[i * g.ny + j].1 == g.dy(),
{
    lemma_axis_bounds(g);
    let ny = g.ny as int;
    assert(centers[i * ny + j] == (g.center_xs()[i], g.center_ys()[j]));
    assert((i + 1) * g.dx() == i * g.dx() + g.dx()) by (nonlinear_arith);
    assert((j + 1) * g.dy() == j * g.dy() + g.dy()) by (nonlinear_arith);
    if i + 1 < g.nx {
        assert(centers[(i + 1) * ny + j] == (g.center_xs()[i + 1], g.center_ys()[j]));
        assert(g.x0 <= g.center_x(i + 1) < g.x1);
    }
    if j + 1 < g.ny {
        assert(centers[i * ny + (j + 1)] == (g.center_xs()[i], g.center_ys()[j + 1]));
        assert(g.y0 <= g.center_y(j + 1) < g.y1);
    }
    assert(g.x0 <= g.center_x(i) < g.x1);
    assert(g.y0 <= g.center_y(j) < g.y1);
}

/// The centre of cell `(i, j)` is exactly `(x0 + (i + 1/2) * dx, y0 + (j + 1/2) * dy)`,
/// strictly between the x-faces `i` and `i + 1` and the y-faces `j` and `j + 1`.
pub proof fn lemma_center_between_faces(g: Grid, i: int, j: int)
    requires
        g.wf(),
    ensures
        2 * g.center_x(i) == 2 * g.x0 + (2 * i + 1) * g.dx(),
        2 * g.center_y(j) == 2 * g.y0 + (2 * j + 1) * g.dy(),
        g.face_x(i) < g.center_x(i) < g.face_x(i + 1),
        g.face_y(j) < g.center_y(j) < g.face_y(j + 1),
{
    lemma_grid_facts(g);
    let (dx, dy) = (g.dx(), g.dy());
    vstd::arithmetic::div_mod::lemma_fundamental_div_mod(dx, 2);
    vstd::arithmetic::div_mod::lemma_fundamental_div_mod(dy, 2);
    assert(2 * (i * dx) + dx == (2 * i + 1) * dx) by (nonlinear_arith);
    assert(2 * (j * dy) + dy == (2 * j + 1) * dy) by (nonlinear_arith);
    assert((i + 1) * dx == i * dx + dx) by (nonlinear_arith);
    assert((j + 1) * dy == j * dy + dy) by (nonlinear_arith);
}

/// The centre of cell `(i, j)` lies in the domain, and its cell is `(i, j)`.
pub proof fn lemma_index_of_center(g: Grid, i: int, j: int)
    requires
        g.wf(),
        0 <= i < g.nx,
        0 <= j < g.ny,
    ensures
        g.contains(g.center_x(i), g.center_y(j)),
        g.column_of(g.center_x(i)) == i,
        g.row_of(g.center_y(j)) == j,
{
    lemma_grid_facts(g);
    lemma_axis_bounds(g);
    assert(g.x0 <= g.center_x(i) < g.x1);
    assert(g.y0 <= g.center_y(j) < g.y1);
    vstd::arithmetic::div_mod::lemma_fundamental_div_mod_converse(
        g.center_x(i) - g.x0, g.dx(), i, g.dx() / 2);
    vstd::arithmetic::div_mod::lemma_fundamental_div_mod_converse(
        g.center_y(j) - g.y0, g.dy(), j, g.dy() / 2);
}

/// Entry `k` of a product is the pair of row `k / m` and column `k % m`.
pub proof fn lemma_product_entry(r: Seq<(i64, i64)>, xs: Seq<i64>, ys: Seq<i64>, k: int)
    requires
        is_product(r, xs, ys),
        0 <= k < r.len(),
    ensures
        ys.len() > 0,
        0 <= k / (ys.len() as int) < xs.len(),
        0 <= k % (ys.len() as int) < ys.len(),
        r[k] == (xs[k / (ys.len() as int)], ys[k % (ys.len() as int)]),
{
    let m = ys.len() as int;
    let n = xs.len() as int;
    if m == 0 {
        assert(r.len() == 0) by (nonlinear_arith)
            requires r.len() == n * m, m == 0;
    }
    vstd::arithmetic::div_mod::lemma_fundamental_div_mod(k, m);
    let q = k / m;
    assert(0 <= q < n) by (nonlinear_arith)
        requires k == m * q + k % m, 0 <= k % m < m, 0 <= k < n * m, m >= 1;
    assert(q * m + k % m == k) by (nonlinear_arith)
        requires k == m * q + k % m;
}
} // verus!
