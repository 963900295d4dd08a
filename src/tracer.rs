//! Point tracers and the rule that advances one of them by a time step.
use vstd::prelude::*;
use crate::grid::Grid;
use crate::velocity::{Velocities, VELOCITY_LIMIT};

verus! {

/// Steps of simulated time per unit: a velocity is in lattice quanta per unit.
pub const TIME_SCALE: i64 = 1_000_000;

/// A massless particle with a stable identity.
#[derive(Clone, Copy, Debug, PartialEq, Eq)]
pub struct Tracer {
    pub id: usize,
    pub x: i64,
    pub y: i64,
}

/// Periodic wrap of a coordinate into `[lo, hi)`: one domain width is taken
/// off a value at or past `hi`, or added to a value below `lo`.
pub open spec fn wrap(v: int, lo: int, hi: int) -> int {
    if v >= hi {
        v - (hi - lo)
    } else if v < lo {
        v + (hi - lo)
    } else {
        v
    }
}

/// How far velocity `v` carries a tracer in `dt` time steps, rounded down.
pub open spec fn displacement(v: int, dt: int) -> int {
    (v * dt) / (TIME_SCALE as int)
}

/// The tracer one forward-Euler step later: moved by the interpolated
/// velocity, then wrapped into the domain; its id is kept.
pub open spec fn advanced(g: Grid, vf: Velocities, t: Tracer, dt: int) -> Tracer {
    Tracer {
        id: t.id,
        x: wrap(t.x + displacement(vf.interp_vx(g, t.x as int, t.y as int), dt), g.x0 as int, g.x1 as int) as i64,
        y: wrap(t.y + displacement(vf.interp_vy(g, t.x as int, t.y as int), dt), g.y0 as int, g.y1 as int) as i64,
    }
}

/// Wrapping leaves a point of `[lo, hi)` where it is, and a point one domain
/// width to either side of it lands back on it.
pub proof fn lemma_wrap_periodic(lo: int, hi: int, x: int, k: int)
    requires
        lo < hi,
        lo <= x < hi,
        -1 <= k <= 1,
    ensures
        wrap(x, lo, hi) == x,
        wrap(x + k * (hi - lo), lo, hi) == wrap(x, lo, hi),
{
    assert(k == -1 || k == 0 || k == 1);
}

/// A wrap lands in `[lo, hi)` whenever the value is less than one domain
/// width outside it: a step shorter than the domain keeps a tracer inside.
pub proof fn lemma_wrap_lands_inside(lo: int, hi: int, v: int)
    requires
        lo < hi,
        lo - (hi - lo) <= v < hi + (hi - lo),
    ensures
        lo <= wrap(v, lo, hi) < hi,
{
}

/// Relies on rand's `Rng::gen_range` on `thread_rng()`: a value of the
/// half-open range `lo..hi`, which must not be empty.
#[verifier::external_body]
fn random_in_range(lo: i64, hi: i64) -> (r: i64)
    requires
        lo < hi,
    ensures
        lo <= r < hi,
{
    rand::Rng::gen_range(&mut rand::thread_rng(), lo..hi)
}

/// Wraps a coordinate into `[lo, hi)` as [`wrap`] says.
fn wrap_coordinate(v: i64, lo: i64, hi: i64) -> (r: i64)
    requires
        lo < hi,
        hi - lo <= i64::MAX,
    ensures
        r == wrap(v as int, lo as int, hi as int),
{
    if v >= hi {
        v - (hi - lo)
    } else if v < lo {
        v + (hi - lo)
    } else {
        v
    }
}

/// The displacement of velocity `v` over `dt` time steps.
fn displacement_of(v: i64, dt: u32) -> (r: i64)
    requires
        -VELOCITY_LIMIT <= v <= VELOCITY_LIMIT,
    ensures
        r == displacement(v as int, dt as int),
        -0x20_0000_0000_0000 <= r <= 0x20_0000_0000_0000,
{
    let ghost b: int = 0x20_0000_0000_0000;
    let ghost n: int = v * dt;
    proof {
        let l = VELOCITY_LIMIT as int;
        let ts = TIME_SCALE as int;
        assert(-l * 0xffff_ffff <= n <= l * 0xffff_ffff) by (nonlinear_arith)
            requires n == v * dt, -l <= v <= l, 0 <= dt <= 0xffff_ffff, l >= 0;
        vstd::arithmetic::div_mod::lemma_fundamental_div_mod(n, ts);
        assert(-b <= n / ts <= b) by (nonlinear_arith)
            requires n == ts * (n / ts) + n % ts, 0 <= n % ts < ts, ts == 1_000_000,
                -l * 0xffff_ffff <= n <= l * 0xffff_ffff, l == 1_099_511_627_776, b == 0x20_0000_0000_0000;
    }
    let p: i128 = v as i128 * dt as i128;
    match p.checked_div_euclid(TIME_SCALE as i128) {
        Some(q) => q as i64,
        None => {
            proof { assert(false); }
            0
        },
    }
}

impl Tracer {
    pub fn default() -> (r: Tracer)
        ensures
            r == (Tracer { id: 0, x: 0, y: 0 }),
    {
        Tracer { id: 0, x: 0, y: 0 }
    }

    /// A tracer with the given id at a position drawn uniformly from
    /// `[-domain_radius, domain_radius)` on each axis.
    pub fn randomize(domain_radius: i64, id: usize) -> (r: Tracer)
        requires
            domain_radius > 0,
        ensures
            r.id == id,
            -domain_radius <= r.x < domain_radius,
            -domain_radius <= r.y < domain_radius,
    {
        let x = random_in_range(-domain_radius, domain_radius);
        let y = random_in_range(-domain_radius, domain_radius);
        Tracer { id, x, y }
    }

    /// The tracer one time step of `dt` later, as [`advanced`] says, or
    /// `None` when it lies outside the domain: such a tracer escaped an
    /// earlier wrap, and is reported rather than moved.
    pub fn update(&self, grid: &Grid, vfields: &Velocities, dt: u32) -> (r: Option<Tracer>)
        requires
            grid.wf(),
            vfields.wf(*grid),
        ensures
            r == (if grid.contains(self.x as int, self.y as int) {
                Some(advanced(*grid, *vfields, *self, dt as int))
            } else {
                None
            }),
            r matches Some(t) ==> t.id == self.id,
    {
        match vfields.interpolate(grid, self.x, self.y) {
            None => None,
            Some((vx, vy)) => {
                let moved = Tracer {
                    id: self.id,
                    x: self.x + displacement_of(vx, dt),
                    y: self.y + displacement_of(vy, dt),
                };
                Some(apply_boundary_condition(&moved, grid))
            },
        }
    }
}

/// The tracer with each coordinate wrapped into the grid's domain.
pub fn apply_boundary_condition(tracer: &Tracer, grid: &Grid) -> (r: Tracer)
    requires
        grid.wf(),
    ensures
        r == (Tracer {
            id: tracer.id,
            x: wrap(tracer.x as int, grid.x0 as int, grid.x1 as int) as i64,
            y: wrap(tracer.y as int, grid.y0 as int, grid.y1 as int) as i64,
        }),
{
    Tracer {
        id: tracer.id,
        x: wrap_coordinate(tracer.x, grid.x0, grid.x1),
        y: wrap_coordinate(tracer.y, grid.y0, grid.y1),
    }
}

} // verus!
