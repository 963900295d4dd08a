//! The prescribed velocity field, sampled once at the staggered face centres,
//! and its interpolation at a point.
use vstd::prelude::*;
use crate::grid::{
    Grid, lemma_grid_facts, lemma_axis_bounds, lemma_cell_in_range, lemma_product_entry,
    COORD_LIMIT,
};

verus! {

/// The largest magnitude of a stored velocity sample.
pub const VELOCITY_LIMIT: i64 = 1_099_511_627_776;

/// The two staggered components of a velocity field, in row-major order:
/// `face_vx[i * ny + j]` at the x-face `(i, j)`, `i` in `0..=nx`, and
/// `face_vy[i * (ny + 1) + j]` at the y-face `(i, j)`, `j` in `0..=ny`.
#[derive(Clone, Debug)]
pub struct Velocities {
    pub face_vx: Vec<i64>,
    pub face_vy: Vec<i64>,
}

/// `((width - off) * v0 + off * v1) / width`, rounded down: the linear blend
/// of two samples at fractional distance `off / width` from the first.
pub open spec fn blend(v0: int, v1: int, off: int, width: int) -> int {
    ((width - off) * v0 + off * v1) / width
}

pub open spec fn fits_velocity(v: int) -> bool {
    -VELOCITY_LIMIT <= v <= VELOCITY_LIMIT
}

pub open spec fn within_limit(s: Seq<i64>) -> bool {
    forall|k: int| 0 <= k < s.len() ==> -VELOCITY_LIMIT <= #[trigger] s[k] <= VELOCITY_LIMIT
}

impl Velocities {
    /// The samples fit the grid's staggered layout and lie within [`VELOCITY_LIMIT`].
    pub open spec fn wf(&self, g: Grid) -> bool {
        &&& self.face_vx@.len() == (g.nx + 1) * g.ny
        &&& self.face_vy@.len() == g.nx * (g.ny + 1)
        &&& within_limit(self.face_vx@)
        &&& within_limit(self.face_vy@)
    }

    /// The x-velocity stored at x-face `(i, j)`.
    pub open spec fn vx_at(&self, g: Grid, i: int, j: int) -> int {
        self.face_vx@[i * g.ny + j] as int
    }

    /// The y-velocity stored at y-face `(i, j)`.
    pub open spec fn vy_at(&self, g: Grid, i: int, j: int) -> int {
        self.face_vy@[i * (g.ny + 1) + j] as int
    }

    /// The x-velocity at a point of the domain: a blend of the two x-faces
    /// that bracket its cell, weighted by its distance from the left one.
    /// This weighted form is the only one; there is no plain midpoint mode.
    pub open spec fn interp_vx(&self, g: Grid, x: int, y: int) -> int {
        let i = g.column_of(x);
        let j = g.row_of(y);
        blend(self.vx_at(g, i, j), self.vx_at(g, i + 1, j), x - g.face_x(i), g.dx())
    }

    /// The y-velocity at a point of the domain, from the two y-faces below
    /// and above its cell.
    pub open spec fn interp_vy(&self, g: Grid, x: int, y: int) -> int {
        let i = g.column_of(x);
        let j = g.row_of(y);
        blend(self.vy_at(g, i, j), self.vy_at(g, i, j + 1), y - g.face_y(j), g.dy())
    }
}

/// A blend of two samples within a bound stays within it.
proof fn lemma_blend_bounded(v0: int, v1: int, off: int, width: int)
    requires
        0 <= off < width,
        width <= 2 * COORD_LIMIT,
        -VELOCITY_LIMIT <= v0 <= VELOCITY_LIMIT,
        -VELOCITY_LIMIT <= v1 <= VELOCITY_LIMIT,
    ensures
        -VELOCITY_LIMIT <= blend(v0, v1, off, width) <= VELOCITY_LIMIT,
        -width * VELOCITY_LIMIT <= (width - off) * v0 + off * v1 <= width * VELOCITY_LIMIT,
{
    let l = VELOCITY_LIMIT as int;
    let n = (width - off) * v0 + off * v1;
    assert(-width * l <= n <= width * l) by (nonlinear_arith)
        requires 0 <= off < width, -l <= v0 <= l, -l <= v1 <= l, n == (width - off) * v0 + off * v1;
    vstd::arithmetic::div_mod::lemma_fundamental_div_mod(n, width);
    assert(-l <= n / width <= l) by (nonlinear_arith)
        requires n == width * (n / width) + n % width, 0 <= n % width < width,
            -width * l <= n <= width * l, width >= 1;
}

/// Negates the second coordinate of each point.
fn negated_ys(pts: &Vec<(i64, i64)>) -> (r: Vec<i64>)
    requires
        forall|k: int| 0 <= k < pts@.len() ==> -COORD_LIMIT <= #[trigger] pts@[k].1 <= COORD_LIMIT,
    ensures
        r@.len() == pts@.len(),
        forall|k: int| 0 <= k < pts@.len() ==> #[trigger] r@[k] == -pts@[k].1,
{
    let mut r: Vec<i64> = Vec::new();
    let mut k: usize = 0;
    while k < pts.len()
        invariant
            k <= pts@.len(),
            r@.len() == k,
            forall|m: int| 0 <= m < pts@.len() ==> -COORD_LIMIT <= #[trigger] pts@[m].1 <= COORD_LIMIT,
            forall|m: int| 0 <= m < k ==> #[trigger] r@[m] == -pts@[m].1,
        decreases pts@.len() - k,
    {
        r.push(-pts[k].1);
        k = k + 1;
    }
    r
}

/// The first coordinate of each point.
fn xs_of(pts: &Vec<(i64, i64)>) -> (r: Vec<i64>)
    ensures
        r@.len() == pts@.len(),
        forall|k: int| 0 <= k < pts@.len() ==> #[trigger] r@[k] == pts@[k].0,
{
    let mut r: Vec<i64> = Vec::new();
    let mut k: usize = 0;
    while k < pts.len()
        invariant
            k <= pts@.len(),
            r@.len() == k,
            forall|m: int| 0 <= m < k ==> #[trigger] r@[m] == pts@[m].0,
        decreases pts@.len() - k,
    {
        r.push(pts[k].0);
        k = k + 1;
    }
    r
}

/// `num * c / den`, rounded down: a coordinate scaled by a rational rate.
pub open spec fn scaled(c: int, num: int, den: int) -> int {
    (num * c) / den
}

/// Each coordinate scaled by `num / den`; `None` when a result lies beyond
/// [`VELOCITY_LIMIT`].
fn scale_all(cs: &Vec<i64>, num: i64, den: i64) -> (r: Option<Vec<i64>>)
    requires
        den >= 1,
        forall|k: int| 0 <= k < cs@.len() ==> -COORD_LIMIT <= #[trigger] cs@[k] <= COORD_LIMIT,
    ensures
        r is Some <==> forall|k: int| 0 <= k < cs@.len()
            ==> fits_velocity(#[trigger] scaled(cs@[k] as int, num as int, den as int)),
        r matches Some(v) ==> v@.len() == cs@.len()
            && forall|k: int| 0 <= k < cs@.len() ==> #[trigger] v@[k] == scaled(cs@[k] as int, num as int, den as int),
{
    let mut r: Vec<i64> = Vec::new();
    let mut k: usize = 0;
    while k < cs.len()
        invariant
            den >= 1,
            k <= cs@.len(),
            r@.len() == k,
            forall|m: int| 0 <= m < cs@.len() ==> -COORD_LIMIT <= #[trigger] cs@[m] <= COORD_LIMIT,
            forall|m: int| 0 <= m < k ==> #[trigger] r@[m] == scaled(cs@[m] as int, num as int, den as int),
            forall|m: int| 0 <= m < k ==> fits_velocity(#[trigger] scaled(cs@[m] as int, num as int, den as int)),
        decreases cs@.len() - k,
    {
        let c = cs[k];
        proof {
            let l = COORD_LIMIT as int;
            assert(-0x8000_0000_0000_0000 * l <= num * c <= 0x8000_0000_0000_0000 * l) by (nonlinear_arith)
                requires -0x8000_0000_0000_0000 <= num <= 0x7fff_ffff_ffff_ffff, -l <= c <= l, l > 0;
        }
        let p: i128 = num as i128 * c as i128;
        let q: i128 = match p.checked_div_euclid(den as i128) {
            Some(q) => q,
            None => {
                proof {
                    let (pi, d) = (p as int, den as int);
                    vstd::arithmetic::div_mod::lemma_fundamental_div_mod(pi, d);
                    assert(-0x8000_0000_0000_0000_0000_0000_0000_0000 <= pi / d
                        <= 0x7fff_ffff_ffff_ffff_ffff_ffff_ffff_ffff) by (nonlinear_arith)
                        requires pi == d * (pi / d) + pi % d, 0 <= pi % d < d, d >= 1,
                            -0x8000_0000_0000_0000 * 0x100_0000_0000 <= pi <= 0x8000_0000_0000_0000 * 0x100_0000_0000;
                }
                0
            },
        };
        assert(q == scaled(cs@[k as int] as int, num as int, den as int));
        if q < -VELOCITY_LIMIT as i128 || q > VELOCITY_LIMIT as i128 {
            return None;
        }
        r.push(q as i64);
        k = k + 1;
    }
    Some(r)
}

/// Whether every sample lies within [`VELOCITY_LIMIT`].
fn all_within_limit(s: &Vec<i64>) -> (b: bool)
    ensures
        b == within_limit(s@),
{
    let mut k: usize = 0;
    while k < s.len()
        invariant
            k <= s@.len(),
            forall|m: int| 0 <= m < k ==> -VELOCITY_LIMIT <= #[trigger] s@[m] <= VELOCITY_LIMIT,
        decreases s@.len() - k,
    {
        if s[k] < -VELOCITY_LIMIT || s[k] > VELOCITY_LIMIT {
            return false;
        }
        k = k + 1;
    }
    true
}

impl Velocities {
    /// Rigid rotation about the origin at unit angular rate: `vx = -y` at
    /// every x-face and `vy = x` at every y-face.
    pub fn initialize_rot_flow(grid: &Grid) -> (r: Velocities)
        requires
            grid.wf(),
        ensures
            r.wf(*grid),
            forall|i: int, j: int|
                0 <= i <= grid.nx && 0 <= j < grid.ny ==> #[trigger] r.vx_at(*grid, i, j) == -grid.center_y(j),
            forall|i: int, j: int|
                0 <= i < grid.nx && 0 <= j <= grid.ny ==> #[trigger] r.vy_at(*grid, i, j) == grid.center_x(i),
    {
        proof {
            lemma_grid_facts(*grid);
            lemma_axis_bounds(*grid);
        }
        let fx = grid.face_centers_x();
        let fy = grid.face_centers_y();
        proof {
            assert forall|k: int| 0 <= k < fx@.len() implies -COORD_LIMIT <= #[trigger] fx@[k].1 <= COORD_LIMIT by {
                lemma_product_entry(fx@, grid.face_xs(), grid.center_ys(), k);
                assert(grid.y0 <= grid.center_y(k % grid.ny as int) < grid.y1);
            }
        }
        let face_vx = negated_ys(&fx);
        let face_vy = xs_of(&fy);
        let r = Velocities { face_vx, face_vy };
        proof {
            let ny = grid.ny as int;
            let nx = grid.nx as int;
            assert forall|i: int, j: int|
                0 <= i <= grid.nx && 0 <= j < grid.ny implies #[trigger] r.vx_at(*grid, i, j) == -grid.center_y(j) by {
                assert(0 <= i * ny + j < (nx + 1) * ny) by (nonlinear_arith)
                    requires 0 <= i <= nx, 0 <= j < ny;
                assert(fx@[i * ny + j] == (grid.face_xs()[i], grid.center_ys()[j]));
            }
            assert forall|i: int, j: int|
                0 <= i < grid.nx && 0 <= j <= grid.ny implies #[trigger] r.vy_at(*grid, i, j) == grid.center_x(i) by {
                assert(0 <= i * (ny + 1) + j < nx * (ny + 1)) by (nonlinear_arith)
                    requires 0 <= i < nx, 0 <= j <= ny;
                assert(fy@[i * (ny + 1) + j] == (grid.center_xs()[i], grid.face_ys()[j]));
            }
            assert forall|k: int| 0 <= k < r.face_vx@.len() implies
                -VELOCITY_LIMIT <= #[trigger] r.face_vx@[k] <= VELOCITY_LIMIT by {
                assert(-COORD_LIMIT <= fx@[k].1 <= COORD_LIMIT);
            }
            assert forall|k: int| 0 <= k < r.face_vy@.len() implies
                -VELOCITY_LIMIT <= #[trigger] r.face_vy@[k] <= VELOCITY_LIMIT by {
                lemma_product_entry(fy@, grid.center_xs(), grid.face_ys(), k);
                assert(grid.x0 <= grid.center_x(k / (ny + 1)) < grid.x1);
            }
        }
        r
    }

    /// Rigid rotation about the origin at angular rate `num / den`:
    /// `vx = -rate * y` at every x-face and `vy = rate * x` at every y-face,
    /// each rounded down; `None` when a sample lies beyond [`VELOCITY_LIMIT`].
    pub fn initialize_rotation(grid: &Grid, num: i64, den: i64) -> (r: Option<Velocities>)
        requires
            grid.wf(),
            den >= 1,
        ensures
            r is Some <==> (forall|j: int| 0 <= j < grid.ny
                ==> fits_velocity(scaled(-#[trigger] grid.center_y(j), num as int, den as int)))
                && (forall|i: int| 0 <= i < grid.nx
                ==> fits_velocity(scaled(#[trigger] grid.center_x(i), num as int, den as int))),
            r matches Some(v) ==> v.wf(*grid)
                && (forall|i: int, j: int| 0 <= i <= grid.nx && 0 <= j < grid.ny
                    ==> #[trigger] v.vx_at(*grid, i, j) == scaled(-grid.center_y(j), num as int, den as int))
                && (forall|i: int, j: int| 0 <= i < grid.nx && 0 <= j <= grid.ny
                    ==> #[trigger] v.vy_at(*grid, i, j) == scaled(grid.center_x(i), num as int, den as int)),
    {
        let unit = Velocities::initialize_rot_flow(grid);
        proof {
            lemma_grid_facts(*grid);
            let ny = grid.ny as int;
            let nx = grid.nx as int;
            assert forall|k: int| 0 <= k < unit.face_vx@.len()
                implies #[trigger] unit.face_vx@[k] == -grid.center_y(k % ny) by {
                vstd::arithmetic::div_mod::lemma_fundamental_div_mod(k, ny);
                let (i, j) = (k / ny, k % ny);
                assert(0 <= i <= nx && i * ny + j == k) by (nonlinear_arith)
                    requires k == ny * i + j, 0 <= j < ny, 0 <= k < (nx + 1) * ny;
                assert(unit.vx_at(*grid, i, j) == -grid.center_y(j));
            }
            assert forall|k: int| 0 <= k < unit.face_vy@.len()
                implies #[trigger] unit.face_vy@[k] == grid.center_x(k / (ny + 1)) by {
                vstd::arithmetic::div_mod::lemma_fundamental_div_mod(k, ny + 1);
                let (i, j) = (k / (ny + 1), k % (ny + 1));
                assert(0 <= i < nx && i * (ny + 1) + j == k) by (nonlinear_arith)
                    requires k == (ny + 1) * i + j, 0 <= j < ny + 1, 0 <= k < nx * (ny + 1);
                assert(unit.vy_at(*grid, i, j) == grid.center_x(i));
            }
            assert forall|j: int| 0 <= j < ny implies #[trigger] unit.face_vx@[j] == -grid.center_y(j) by {
                assert(0 * ny + j == j);
                assert(unit.vx_at(*grid, 0, j) == -grid.center_y(j));
            }
            assert forall|i: int| 0 <= i < nx implies #[trigger] unit.face_vy@[i * (ny + 1)] == grid.center_x(i) by {
                assert(0 <= i * (ny + 1) < nx * (ny + 1)) by (nonlinear_arith)
                    requires 0 <= i < nx, ny >= 1;
                assert(i * (ny + 1) + 0 == i * (ny + 1));
                assert(unit.vy_at(*grid, i, 0) == grid.center_x(i));
            }
        }
        let vx = scale_all(&unit.face_vx, num, den);
        let vy = scale_all(&unit.face_vy, num, den);
        proof {
            let ny = grid.ny as int;
            let nx = grid.nx as int;
            let (n, d) = (num as int, den as int);
            if vx is Some {
                assert forall|j: int| 0 <= j < ny implies fits_velocity(scaled(-#[trigger] grid.center_y(j), n, d)) by {
                    assert(unit.face_vx@[j] == -grid.center_y(j));
                    assert(j < (nx + 1) * ny) by (nonlinear_arith)
                        requires 0 <= j < ny, nx >= 1;
                    assert(fits_velocity(scaled(unit.face_vx@[j] as int, n, d)));
                }
            }
            if forall|j: int| 0 <= j < ny ==> fits_velocity(scaled(-#[trigger] grid.center_y(j), n, d)) {
                assert forall|k: int| 0 <= k < unit.face_vx@.len()
                    implies fits_velocity(#[trigger] scaled(unit.face_vx@[k] as int, n, d)) by {
                    assert(unit.face_vx@[k] == -grid.center_y(k % ny));
                    vstd::arithmetic::div_mod::lemma_mod_bound(k, ny);
                }
            }
            if vy is Some {
                assert forall|i: int| 0 <= i < nx implies fits_velocity(scaled(#[trigger] grid.center_x(i), n, d)) by {
                    assert(unit.face_vy@[i * (ny + 1)] == grid.center_x(i));
                    assert(0 <= i * (ny + 1) < nx * (ny + 1)) by (nonlinear_arith)
                        requires 0 <= i < nx, ny >= 1;
                    assert(fits_velocity(scaled(unit.face_vy@[i * (ny + 1)] as int, n, d)));
                }
            }
            if forall|i: int| 0 <= i < nx ==> fits_velocity(scaled(#[trigger] grid.center_x(i), n, d)) {
                assert forall|k: int| 0 <= k < unit.face_vy@.len()
                    implies fits_velocity(#[trigger] scaled(unit.face_vy@[k] as int, n, d)) by {
                    assert(unit.face_vy@[k] == grid.center_x(k / (ny + 1)));
                    vstd::arithmetic::div_mod::lemma_fundamental_div_mod(k, ny + 1);
                    assert(0 <= k / (ny + 1) < nx) by (nonlinear_arith)
                        requires k == (ny + 1) * (k / (ny + 1)) + k % (ny + 1), 0 <= k % (ny + 1) < ny + 1,
                            0 <= k < nx * (ny + 1), ny >= 1;
                }
            }
            if vx is Some && vy is Some {
                let v = Velocities { face_vx: vx->Some_0, face_vy: vy->Some_0 };
                assert forall|i: int, j: int| 0 <= i <= nx && 0 <= j < ny
                    implies #[trigger] v.vx_at(*grid, i, j) == scaled(-grid.center_y(j), n, d) by {
                    assert(0 <= i * ny + j < (nx + 1) * ny) by (nonlinear_arith)
                        requires 0 <= i <= nx, 0 <= j < ny;
                    assert(unit.vx_at(*grid, i, j) == -grid.center_y(j));
                }
                assert forall|i: int, j: int| 0 <= i < nx && 0 <= j <= ny
                    implies #[trigger] v.vy_at(*grid, i, j) == scaled(grid.center_x(i), n, d) by {
                    assert(0 <= i * (ny + 1) + j < nx * (ny + 1)) by (nonlinear_arith)
                        requires 0 <= i < nx, 0 <= j <= ny;
                    assert(unit.vy_at(*grid, i, j) == grid.center_x(i));
                }
                assert forall|k: int| 0 <= k < v.face_vx@.len()
                    implies -VELOCITY_LIMIT <= #[trigger] v.face_vx@[k] <= VELOCITY_LIMIT by {
                    assert(fits_velocity(scaled(unit.face_vx@[k] as int, n, d)));
                }
                assert forall|k: int| 0 <= k < v.face_vy@.len()
                    implies -VELOCITY_LIMIT <= #[trigger] v.face_vy@[k] <= VELOCITY_LIMIT by {
                    assert(fits_velocity(scaled(unit.face_vy@[k] as int, n, d)));
                }
            }
        }
        match (vx, vy) {
            (Some(face_vx), Some(face_vy)) => Some(Velocities { face_vx, face_vy }),
            _ => None,
        }
    }

    /// A field from samples computed elsewhere, laid out as described on
    /// [`Velocities`]; `None` when a length does not fit the grid or a sample
    /// lies beyond [`VELOCITY_LIMIT`].
    pub fn from_samples(grid: &Grid, face_vx: Vec<i64>, face_vy: Vec<i64>) -> (r: Option<Velocities>)
        requires
            grid.wf(),
        ensures
            r is Some <==> (Velocities { face_vx, face_vy }).wf(*grid),
            r matches Some(v) ==> v.face_vx == face_vx && v.face_vy == face_vy,
    {
        proof {
            lemma_grid_facts(*grid);
            assert((grid.nx + 1) * grid.ny <= (grid.nx + 1) * (grid.ny + 1)) by (nonlinear_arith);
            assert(grid.nx * (grid.ny + 1) <= (grid.nx + 1) * (grid.ny + 1)) by (nonlinear_arith);
        }
        if face_vx.len() != (grid.nx + 1) * grid.ny || face_vy.len() != grid.nx * (grid.ny + 1) {
            return None;
        }
        if !all_within_limit(&face_vx) || !all_within_limit(&face_vy) {
            return None;
        }
        Some(Velocities { face_vx, face_vy })
    }
}
/// The blend of two bounded samples, computed exactly before rounding down.
fn blend_samples(v0: i64, v1: i64, off: i64, width: i64) -> (r: i64)
    requires
        0 <= off < width,
        width <= 2 * COORD_LIMIT,
        -VELOCITY_LIMIT <= v0 <= VELOCITY_LIMIT,
        -VELOCITY_LIMIT <= v1 <= VELOCITY_LIMIT,
    ensures
        r == blend(v0 as int, v1 as int, off as int, width as int),
        -VELOCITY_LIMIT <= r <= VELOCITY_LIMIT,
{
    proof {
        lemma_blend_bounded(v0 as int, v1 as int, off as int, width as int);
        let l = VELOCITY_LIMIT as int;
        assert(width * l <= 2 * COORD_LIMIT * l) by (nonlinear_arith)
            requires 0 < width <= 2 * COORD_LIMIT, l > 0;
        assert(-(width - off) * l <= (width - off) * v0 <= (width - off) * l) by (nonlinear_arith)
            requires 0 <= width - off, -l <= v0 <= l;
        assert(-off * l <= off * v1 <= off * l) by (nonlinear_arith)
            requires 0 <= off, -l <= v1 <= l;
        assert((width - off) * l <= 2 * COORD_LIMIT * l) by (nonlinear_arith)
            requires 0 <= width - off <= 2 * COORD_LIMIT, l > 0;
        assert(off * l <= 2 * COORD_LIMIT * l) by (nonlinear_arith)
            requires 0 <= off <= 2 * COORD_LIMIT, l > 0;
    }
    let n: i128 = (width - off) as i128 * v0 as i128 + off as i128 * v1 as i128;
    match n.checked_div_euclid(width as i128) {
        Some(q) => q as i64,
        None => {
            proof { assert(false); }
            0
        },
    }
}

impl Velocities {
    /// The interpolated velocity `(interp_vx, interp_vy)` at a point of the
    /// domain, or `None` for a point outside it.
    pub fn interpolate(&self, grid: &Grid, x: i64, y: i64) -> (r: Option<(i64, i64)>)
        requires
            grid.wf(),
            self.wf(*grid),
        ensures
            r == (if grid.contains(x as int, y as int) {
                Some((self.interp_vx(*grid, x as int, y as int) as i64, self.interp_vy(*grid, x as int, y as int) as i64))
            } else {
                None
            }),
            grid.contains(x as int, y as int) ==> -VELOCITY_LIMIT <= self.interp_vx(*grid, x as int, y as int) <= VELOCITY_LIMIT,
            grid.contains(x as int, y as int) ==> -VELOCITY_LIMIT <= self.interp_vy(*grid, x as int, y as int) <= VELOCITY_LIMIT,
    {
        match grid.get_cell_index(x, y) {
            None => None,
            Some((i, j)) => {
                let ghost g = *grid;
                proof {
                    lemma_grid_facts(g);
                    lemma_cell_in_range(g, x as int, y as int);
                }
                let dx = grid.cell_width();
                let dy = grid.cell_height();
                let nx = grid.nx;
                let ny = grid.ny;
                proof {
                    let (ii, jj, n, m) = (i as int, j as int, nx as int, ny as int);
                    assert(0 <= (ii + 1) * m + jj < (n + 1) * m && 0 <= ii * m + jj < (ii + 1) * m + jj)
                        by (nonlinear_arith) requires 0 <= ii < n, 0 <= jj < m;
                    assert(0 <= ii * (m + 1) + jj + 1 < n * (m + 1)) by (nonlinear_arith)
                        requires 0 <= ii < n, 0 <= jj < m;
                    assert((n + 1) * m <= (n + 1) * (m + 1) && n * (m + 1) <= (n + 1) * (m + 1))
                        by (nonlinear_arith) requires n >= 1, m >= 1;
                    assert(ii * dx <= n * dx && jj * dy <= m * dy) by (nonlinear_arith)
                        requires 0 <= ii < n, 0 <= jj < m, dx >= 1, dy >= 1;
                    vstd::arithmetic::div_mod::lemma_fundamental_div_mod(x - g.x0, g.dx());
                    vstd::arithmetic::div_mod::lemma_fundamental_div_mod(y - g.y0, g.dy());
                    assert(g.dx() * ii == ii * g.dx() && g.dy() * jj == jj * g.dy()) by (nonlinear_arith);
                }
                let v0 = self.face_vx[i * ny + j];
                let v1 = self.face_vx[(i + 1) * ny + j];
                let w0 = self.face_vy[i * (ny + 1) + j];
                let w1 = self.face_vy[i * (ny + 1) + j + 1];
                let off_x = x - (grid.x0 + i as i64 * dx);
                let off_y = y - (grid.y0 + j as i64 * dy);
                let vx = blend_samples(v0, v1, off_x, dx);
                let vy = blend_samples(w0, w1, off_y, dy);
                proof {
                    assert((i + 1) * ny == i * ny + ny) by (nonlinear_arith);
                }
                Some((vx, vy))
            },
        }
    }
}

/// A point exactly on a staggered face node takes that node's sample, with
/// no blending: at x-face `(i, j)` the x-velocity, at y-face `(i, j)` the
/// y-velocity.
pub proof fn lemma_face_node_exact(v: Velocities, g: Grid, i: int, j: int)
    requires
        g.wf(),
        v.wf(g),
        0 <= i < g.nx,
        0 <= j < g.ny,
    ensures
        g.contains(g.face_x(i), g.center_y(j)),
        v.interp_vx(g, g.face_x(i), g.center_y(j)) == v.vx_at(g, i, j),
        g.contains(g.center_x(i), g.face_y(j)),
        v.interp_vy(g, g.center_x(i), g.face_y(j)) == v.vy_at(g, i, j),
{
    lemma_grid_facts(g);
    lemma_axis_bounds(g);
    crate::grid::lemma_index_of_center(g, i, j);
    assert(g.face_x(i) <= g.center_x(i) < g.x1);
    assert(g.face_y(j) <= g.center_y(j) < g.y1);
    vstd::arithmetic::div_mod::lemma_fundamental_div_mod_converse(g.face_x(i) - g.x0, g.dx(), i, 0);
    vstd::arithmetic::div_mod::lemma_fundamental_div_mod_converse(g.face_y(j) - g.y0, g.dy(), j, 0);
    let a = v.vx_at(g, i, j);
    let b = v.vy_at(g, i, j);
    let dx = g.dx();
    let dy = g.dy();
    assert((dx - 0) * a + 0 * v.vx_at(g, i + 1, j) == dx * a) by (nonlinear_arith);
    assert((dy - 0) * b + 0 * v.vy_at(g, i, j + 1) == dy * b) by (nonlinear_arith);
    vstd::arithmetic::div_mod::lemma_fundamental_div_mod_converse(dx * a, dx, a, 0);
    vstd::arithmetic::div_mod::lemma_fundamental_div_mod_converse(dy * b, dy, b, 0);
    assert(a * dx == dx * a && b * dy == dy * b) by (nonlinear_arith);
}
} // verus!
