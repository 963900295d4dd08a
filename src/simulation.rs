//! The time-stepping loop as a state machine: each call of
//! [`Simulation::step`] advances every tracer once and says whether a
//! snapshot of the tracers is due. Writing the snapshot is left to the caller.
use vstd::prelude::*;
use crate::grid::Grid;
use crate::tracer::{Tracer, advanced, displacement, lemma_wrap_lands_inside};
use crate::velocity::Velocities;

verus! {

/// The checkpoint cadence and how many snapshots have been numbered so far.
#[derive(Clone, Copy, Debug, PartialEq, Eq)]
pub struct Tasks {
    pub tracer_output_interval: usize,
    pub tracer_output_count: usize,
}

impl Tasks {
    /// Whether a snapshot is due after `ticks` steps; an interval of zero
    /// turns snapshots off.
    pub open spec fn due(&self, ticks: int) -> bool {
        self.tracer_output_interval > 0 && ticks % (self.tracer_output_interval as int) == 0
    }

    pub fn is_due(&self, ticks: u64) -> (r: bool)
        ensures
            r == self.due(ticks as int),
    {
        self.tracer_output_interval > 0 && ticks % (self.tracer_output_interval as u64) == 0
    }

    /// The number of the next snapshot, counting from the current count;
    /// `None` once the count can grow no further.
    pub fn next_output(&mut self) -> (r: Option<usize>)
        ensures
            old(self).tracer_output_count < usize::MAX ==> r == Some(old(self).tracer_output_count)
                && *final(self) == (Tasks { tracer_output_count: (old(self).tracer_output_count + 1) as usize, ..*old(self) }),
            old(self).tracer_output_count == usize::MAX ==> r is None && *final(self) == *old(self),
    {
        if self.tracer_output_count == usize::MAX {
            return None;
        }
        let n = self.tracer_output_count;
        self.tracer_output_count = n + 1;
        Some(n)
    }
}

/// A snapshot every ten steps, numbered from zero.
pub fn initial_tasks() -> (r: Tasks)
    ensures
        r == (Tasks { tracer_output_interval: 10, tracer_output_count: 0 }),
{
    Tasks { tracer_output_interval: 10, tracer_output_count: 0 }
}

/// `ntracers` tracers with ids `0..ntracers`, each at a random position of
/// `[-domain_radius, domain_radius)` on both axes.
pub fn initial_tracer_list(domain_radius: i64, ntracers: usize) -> (r: Vec<Tracer>)
    requires
        domain_radius > 0,
    ensures
        r@.len() == ntracers,
        forall|k: int| 0 <= k < ntracers ==> (#[trigger] r@[k]).id == k,
        forall|k: int| 0 <= k < ntracers ==> -domain_radius <= (#[trigger] r@[k]).x < domain_radius,
        forall|k: int| 0 <= k < ntracers ==> -domain_radius <= (#[trigger] r@[k]).y < domain_radius,
{
    let mut r: Vec<Tracer> = Vec::new();
    let mut i: usize = 0;
    while i < ntracers
        invariant
            i <= ntracers,
            domain_radius > 0,
            r@.len() == i,
            forall|k: int| 0 <= k < i ==> (#[trigger] r@[k]).id == k,
            forall|k: int| 0 <= k < i ==> -domain_radius <= (#[trigger] r@[k]).x < domain_radius,
            forall|k: int| 0 <= k < i ==> -domain_radius <= (#[trigger] r@[k]).y < domain_radius,
        decreases ntracers - i,
    {
        r.push(Tracer::randomize(domain_radius, i));
        i = i + 1;
    }
    r
}

pub open spec fn inside(g: Grid, t: Tracer) -> bool {
    g.contains(t.x as int, t.y as int)
}

pub open spec fn all_inside(g: Grid, ts: Seq<Tracer>) -> bool {
    forall|k: int| 0 <= k < ts.len() ==> inside(g, #[trigger] ts[k])
}

/// Every tracer advanced by one step, in the same order.
pub open spec fn advanced_all(g: Grid, vf: Velocities, ts: Seq<Tracer>, dt: int) -> Seq<Tracer> {
    ts.map_values(|t: Tracer| advanced(g, vf, t, dt))
}

/// Replaces every tracer by its state one step later. When a tracer lies
/// outside the domain, nothing is advanced and the index of the first such
/// tracer is returned.
pub fn update(tracers: &Vec<Tracer>, grid: &Grid, vfields: &Velocities, dt: u32) -> (r: Result<Vec<Tracer>, usize>)
    requires
        grid.wf(),
        vfields.wf(*grid),
    ensures
        match r {
            Ok(v) => all_inside(*grid, tracers@) && v@ == advanced_all(*grid, *vfields, tracers@, dt as int),
            Err(k) => k < tracers@.len() && !inside(*grid, tracers@[k as int])
                && forall|m: int| 0 <= m < k ==> inside(*grid, #[trigger] tracers@[m]),
        },
        r matches Ok(v) ==> forall|k: int| 0 <= k < tracers@.len() ==> (#[trigger] v@[k]).id == tracers@[k].id,
{
    let mut r: Vec<Tracer> = Vec::new();
    let mut k: usize = 0;
    while k < tracers.len()
        invariant
            grid.wf(),
            vfields.wf(*grid),
            k <= tracers@.len(),
            r@.len() == k,
            forall|m: int| 0 <= m < k ==> inside(*grid, #[trigger] tracers@[m]),
            forall|m: int| 0 <= m < k ==> #[trigger] r@[m] == advanced(*grid, *vfields, tracers@[m], dt as int),
        decreases tracers@.len() - k,
    {
        match tracers[k].update(grid, vfields, dt) {
            Some(t) => r.push(t),
            None => return Err(k),
        }
        k = k + 1;
    }
    assert(r@ =~= advanced_all(*grid, *vfields, tracers@, dt as int));
    Ok(r)
}

/// Ids that count up from zero still do after a step: a set made by
/// [`initial_tracer_list`] holds ids `0..n`, in order, on every tick.
pub proof fn lemma_sequential_ids_kept(g: Grid, vf: Velocities, ts: Seq<Tracer>, dt: int)
    requires
        forall|k: int| 0 <= k < ts.len() ==> (#[trigger] ts[k]).id == k,
    ensures
        advanced_all(g, vf, ts, dt).len() == ts.len(),
        forall|k: int| 0 <= k < ts.len() ==> (#[trigger] advanced_all(g, vf, ts, dt)[k]).id == k,
{
}

/// A tracer of the domain stays in it when its step is shorter than the
/// domain on each axis: one wrap per axis is then enough.
pub proof fn lemma_step_stays_inside(g: Grid, vf: Velocities, t: Tracer, dt: int)
    requires
        g.wf(),
        inside(g, t),
        -(g.x1 - g.x0) < displacement(vf.interp_vx(g, t.x as int, t.y as int), dt) < g.x1 - g.x0,
        -(g.y1 - g.y0) < displacement(vf.interp_vy(g, t.x as int, t.y as int), dt) < g.y1 - g.y0,
    ensures
        inside(g, advanced(g, vf, t, dt)),
{
    lemma_wrap_lands_inside(g.x0 as int, g.x1 as int, t.x + displacement(vf.interp_vx(g, t.x as int, t.y as int), dt));
    lemma_wrap_lands_inside(g.y0 as int, g.y1 as int, t.y + displacement(vf.interp_vy(g, t.x as int, t.y as int), dt));
}

/// Why a simulation cannot start.
#[derive(Clone, Copy, Debug, PartialEq, Eq)]
pub enum SetupError {
    /// The time step is zero, so the run would never end.
    ZeroTimeStep,
    /// `t_final + dt` does not fit in a `u64`.
    TimeOutOfRange,
}

/// What one call of [`Simulation::step`] did.
#[derive(Clone, Copy, Debug, PartialEq, Eq)]
pub enum StepEvent {
    /// The final time was already reached; nothing changed.
    Done,
    /// Every tracer advanced by one step.
    Advanced,
    /// Every tracer advanced by one step, and the snapshot with this number
    /// is due: the tracers and the time should now be written out.
    Checkpoint(usize),
}

/// Why a step could not be taken; the simulation is left as it was.
#[derive(Clone, Copy, Debug, PartialEq, Eq)]
pub enum StepError {
    /// The tracer at this index lies outside the domain.
    OutsideDomain(usize),
    /// A snapshot is due but its number would overflow.
    OutputCountExhausted,
}

/// A running simulation: a fixed grid and velocity field, the current
/// tracers, and the time `t = ticks * dt`, in steps of [`crate::tracer::TIME_SCALE`]
/// per unit. It runs while `t < t_final`.
#[derive(Clone, Debug)]
pub struct Simulation {
    pub grid: Grid,
    pub vfields: Velocities,
    pub tracers: Vec<Tracer>,
    pub t: u64,
    pub dt: u32,
    pub t_final: u64,
    pub ticks: u64,
    pub tasks: Tasks,
}

impl Simulation {
    pub open spec fn wf(&self) -> bool {
        &&& self.grid.wf()
        &&& self.vfields.wf(self.grid)
        &&& self.dt >= 1
        &&& self.t_final + self.dt <= u64::MAX
        &&& self.t == self.ticks * self.dt
    }

    /// A simulation at time zero, or the reason it cannot run.
    pub fn new(grid: Grid, vfields: Velocities, tracers: Vec<Tracer>, dt: u32, t_final: u64, tasks: Tasks) -> (r: Result<Simulation, SetupError>)
        requires
            grid.wf(),
            vfields.wf(grid),
        ensures
            dt == 0 ==> r == Err::<Simulation, SetupError>(SetupError::ZeroTimeStep),
            dt > 0 && t_final + dt > u64::MAX ==> r == Err::<Simulation, SetupError>(SetupError::TimeOutOfRange),
            dt > 0 && t_final + dt <= u64::MAX ==> r == Ok::<Simulation, SetupError>(Simulation {
                grid, vfields, tracers, t: 0, dt, t_final, ticks: 0, tasks }),
            r matches Ok(s) ==> s.wf(),
    {
        if dt == 0 {
            return Err(SetupError::ZeroTimeStep);
        }
        if t_final > u64::MAX - dt as u64 {
            return Err(SetupError::TimeOutOfRange);
        }
        Ok(Simulation { grid, vfields, tracers, t: 0, dt, t_final, ticks: 0, tasks })
    }

    /// Whether the final time is still ahead.
    pub fn is_running(&self) -> (r: bool)
        ensures
            r == (self.t < self.t_final),
    {
        self.t < self.t_final
    }

    /// One tick: while running, replace every tracer by its state one step
    /// later, advance the time by `dt`, and say whether a snapshot is due.
    pub fn step(&mut self) -> (r: Result<StepEvent, StepError>)
        requires
            old(self).wf(),
        ensures
            final(self).wf(),
            old(self).t >= old(self).t_final <==> r == Ok::<StepEvent, StepError>(StepEvent::Done),
            old(self).t >= old(self).t_final ==> *final(self) == *old(self),
            r matches Err(_) ==> *final(self) == *old(self),
            r matches Err(StepError::OutsideDomain(k)) ==> old(self).t < old(self).t_final
                && k < old(self).tracers@.len()
                && !inside(old(self).grid, old(self).tracers@[k as int])
                && forall|m: int| 0 <= m < k ==> inside(old(self).grid, #[trigger] old(self).tracers@[m]),
            r matches Err(StepError::OutputCountExhausted) ==> old(self).t < old(self).t_final
                && all_inside(old(self).grid, old(self).tracers@)
                && old(self).tasks.due(old(self).ticks + 1)
                && old(self).tasks.tracer_output_count == usize::MAX,
            old(self).t < old(self).t_final && all_inside(old(self).grid, old(self).tracers@)
                && !(old(self).tasks.due(old(self).ticks + 1) && old(self).tasks.tracer_output_count == usize::MAX)
                ==> r is Ok,
            r is Ok && r != Ok::<StepEvent, StepError>(StepEvent::Done) ==> {
                &&& old(self).t < old(self).t_final
                &&& final(self).tracers@ == advanced_all(old(self).grid, old(self).vfields, old(self).tracers@, old(self).dt as int)
                &&& final(self).tracers@.len() == old(self).tracers@.len()
                &&& forall|k: int| 0 <= k < old(self).tracers@.len()
                    ==> (#[trigger] final(self).tracers@[k]).id == old(self).tracers@[k].id
                &&& final(self).t == old(self).t + old(self).dt
                &&& final(self).ticks == old(self).ticks + 1
                &&& final(self).grid == old(self).grid
                &&& final(self).vfields == old(self).vfields
                &&& final(self).dt == old(self).dt
                &&& final(self).t_final == old(self).t_final
                &&& final(self).tasks.tracer_output_interval == old(self).tasks.tracer_output_interval
                &&& if old(self).tasks.due(old(self).ticks + 1) {
                    r == Ok::<StepEvent, StepError>(StepEvent::Checkpoint(old(self).tasks.tracer_output_count))
                        && final(self).tasks.tracer_output_count == old(self).tasks.tracer_output_count + 1
                } else {
                    r == Ok::<StepEvent, StepError>(StepEvent::Advanced) && final(self).tasks == old(self).tasks
                }
            },
    {
        if self.t >= self.t_final {
            return Ok(StepEvent::Done);
        }
        proof {
            assert(self.ticks <= self.t) by (nonlinear_arith)
                requires self.t == self.ticks * self.dt, self.dt >= 1;
        }
        let next_ticks = self.ticks + 1;
        let due = self.tasks.is_due(next_ticks);
        let moved = match update(&self.tracers, &self.grid, &self.vfields, self.dt) {
            Ok(v) => v,
            Err(k) => return Err(StepError::OutsideDomain(k)),
        };
        if due && self.tasks.tracer_output_count == usize::MAX {
            return Err(StepError::OutputCountExhausted);
        }
        self.tracers = moved;
        self.t = self.t + self.dt as u64;
        self.ticks = next_ticks;
        proof {
            let (t0, k0, d) = (old(self).t as int, old(self).ticks as int, self.dt as int);
            assert(t0 + d == (k0 + 1) * d) by (nonlinear_arith)
                requires t0 == k0 * d;
        }
        if due {
            match self.tasks.next_output() {
                Some(n) => Ok(StepEvent::Checkpoint(n)),
                None => Err(StepError::OutputCountExhausted),
            }
        } else {
            Ok(StepEvent::Advanced)
        }
    }
}
} // verus!
