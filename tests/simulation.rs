use tracers::grid::Grid;
use tracers::simulation::{
    initial_tasks, initial_tracer_list, update, SetupError, Simulation, StepError, StepEvent, Tasks,
};
use tracers::tracer::{Tracer, TIME_SCALE};
use tracers::velocity::Velocities;

/// Lattice quanta per unit of length for a square domain of the given radius.
fn quanta_per_unit(radius_quanta: i64, radius: f64) -> f64 {
    radius_quanta as f64 / radius
}

/// The sine-shear field `vx = sin(x)`, `vy = -sin(y)`, sampled at the faces.
fn sine_shear(g: &Grid, qpu: f64) -> Velocities {
    let vx = g
        .face_centers_x()
        .iter()
        .map(|&(x, _)| ((x as f64 / qpu).sin() * qpu).round() as i64)
        .collect();
    let vy = g
        .face_centers_y()
        .iter()
        .map(|&(_, y)| (-(y as f64 / qpu).sin() * qpu).round() as i64)
        .collect();
    Velocities::from_samples(g, vx, vy).unwrap()
}

#[test]
fn end_to_end_sine_shear() {
    let radius = 2.0 * std::f64::consts::PI;
    let r: i64 = 32 << 20;
    let g = Grid::new(64, 64, -r, r, -r, r).unwrap();
    let v = sine_shear(&g, quanta_per_unit(r, radius));
    let tracers = initial_tracer_list(r, 100);
    let dt = (TIME_SCALE / 100) as u32;
    let t_final = TIME_SCALE as u64;
    let mut sim = Simulation::new(g, v, tracers, dt, t_final, initial_tasks()).unwrap();
    let mut ticks = 0;
    let mut snapshots = Vec::new();
    while sim.is_running() {
        match sim.step().unwrap() {
            StepEvent::Checkpoint(n) => snapshots.push(n),
            StepEvent::Advanced => {}
            StepEvent::Done => panic!("stepped past the end"),
        }
        ticks += 1;
    }
    assert_eq!(ticks, 100);
    assert_eq!(sim.ticks, 100);
    assert_eq!(sim.t, t_final);
    assert_eq!(snapshots, (0..10).collect::<Vec<usize>>());
    assert_eq!(sim.tracers.len(), 100);
    for (k, t) in sim.tracers.iter().enumerate() {
        assert_eq!(t.id, k);
        assert!(-r <= t.x && t.x < r);
        assert!(-r <= t.y && t.y < r);
    }
    assert_eq!(sim.step(), Ok(StepEvent::Done));
}

#[test]
fn rigid_rotation_returns_to_its_radius() {
    // one unit is 10^7 quanta; the domain is wide enough that nothing wraps
    let unit: i64 = 10_000_000;
    let g = Grid::new(1000, 1000, -2 * unit, 2 * unit, -2 * unit, 2 * unit).unwrap();
    let v = Velocities::initialize_rot_flow(&g);
    let tracer = Tracer { id: 0, x: unit, y: 0 };
    let dt = (TIME_SCALE / 1000) as u32;
    let period = (2.0 * std::f64::consts::PI * TIME_SCALE as f64).round() as u64;
    let mut sim = Simulation::new(g, v, vec![tracer], dt, period, Tasks {
        tracer_output_interval: 0,
        tracer_output_count: 0,
    })
    .unwrap();
    while sim.is_running() {
        assert_eq!(sim.step(), Ok(StepEvent::Advanced));
    }
    let t = sim.tracers[0];
    let rho = ((t.x as f64).powi(2) + (t.y as f64).powi(2)).sqrt() / unit as f64;
    assert!((rho - 1.0).abs() < 0.01, "final radius {}", rho);
    assert!(t.x > 0, "back near its start: {:?}", t);
}

#[test]
fn update_advances_the_whole_set_in_order() {
    let g = Grid::new(2, 2, 0, 20, 0, 20).unwrap();
    let v = Velocities::from_samples(&g, vec![1000; 6], vec![0; 6]).unwrap();
    let ts = vec![
        Tracer { id: 3, x: 1, y: 1 },
        Tracer { id: 1, x: 19, y: 5 },
    ];
    let out = update(&ts, &g, &v, 2000).unwrap();
    assert_eq!(out, vec![Tracer { id: 3, x: 3, y: 1 }, Tracer { id: 1, x: 1, y: 5 }]);
    let bad = vec![ts[0], Tracer { id: 8, x: 25, y: 0 }, Tracer { id: 9, x: -1, y: 0 }];
    assert_eq!(update(&bad, &g, &v, 2000), Err(1));
    assert_eq!(update(&Vec::new(), &g, &v, 2000), Ok(Vec::new()));
}

#[test]
fn initial_tracers_have_sequential_ids() {
    let ts = initial_tracer_list(500, 50);
    assert_eq!(ts.len(), 50);
    for (k, t) in ts.iter().enumerate() {
        assert_eq!(t.id, k);
        assert!(-500 <= t.x && t.x < 500 && -500 <= t.y && t.y < 500);
    }
    assert!(initial_tracer_list(500, 0).is_empty());
}

#[test]
fn tasks_number_snapshots() {
    let mut tasks = initial_tasks();
    assert_eq!(tasks, Tasks { tracer_output_interval: 10, tracer_output_count: 0 });
    assert!(tasks.is_due(0));
    assert!(!tasks.is_due(7));
    assert!(tasks.is_due(30));
    assert_eq!(tasks.next_output(), Some(0));
    assert_eq!(tasks.next_output(), Some(1));
    assert_eq!(tasks.tracer_output_count, 2);
    let mut full = Tasks { tracer_output_interval: 3, tracer_output_count: usize::MAX };
    assert_eq!(full.next_output(), None);
    assert_eq!(full.tracer_output_count, usize::MAX);
    let off = Tasks { tracer_output_interval: 0, tracer_output_count: 0 };
    assert!(!off.is_due(0));
    assert!(!off.is_due(10));
}

fn still_field() -> (Grid, Velocities) {
    let g = Grid::new(2, 2, 0, 20, 0, 20).unwrap();
    let v = Velocities::from_samples(&g, vec![0; 6], vec![0; 6]).unwrap();
    (g, v)
}

#[test]
fn setup_errors() {
    let (g, v) = still_field();
    assert_eq!(
        Simulation::new(g, v.clone(), Vec::new(), 0, 100, initial_tasks()).err(),
        Some(SetupError::ZeroTimeStep)
    );
    assert_eq!(
        Simulation::new(g, v.clone(), Vec::new(), 5, u64::MAX - 4, initial_tasks()).err(),
        Some(SetupError::TimeOutOfRange)
    );
    let s = Simulation::new(g, v, Vec::new(), 5, u64::MAX - 5, initial_tasks()).unwrap();
    assert_eq!((s.t, s.ticks, s.dt), (0, 0, 5));
}

#[test]
fn step_counts_time_and_snapshots() {
    let (g, v) = still_field();
    let tasks = Tasks { tracer_output_interval: 2, tracer_output_count: 7 };
    let mut s = Simulation::new(g, v, vec![Tracer { id: 0, x: 3, y: 4 }], 10, 45, tasks).unwrap();
    assert_eq!(s.step(), Ok(StepEvent::Advanced));
    assert_eq!(s.step(), Ok(StepEvent::Checkpoint(7)));
    assert_eq!(s.step(), Ok(StepEvent::Advanced));
    assert_eq!(s.step(), Ok(StepEvent::Checkpoint(8)));
    assert!(s.is_running());
    assert_eq!(s.step(), Ok(StepEvent::Advanced));
    assert!(!s.is_running());
    assert_eq!((s.t, s.ticks, s.tasks.tracer_output_count), (50, 5, 9));
    assert_eq!(s.step(), Ok(StepEvent::Done));
    assert_eq!(s.t, 50);
    assert_eq!(s.tracers, vec![Tracer { id: 0, x: 3, y: 4 }]);
}

#[test]
fn step_errors_leave_the_state_alone() {
    let (g, v) = still_field();
    let ts = vec![Tracer { id: 0, x: 3, y: 4 }, Tracer { id: 1, x: 3, y: 40 }];
    let mut s = Simulation::new(g, v.clone(), ts.clone(), 10, 100, initial_tasks()).unwrap();
    assert_eq!(s.step(), Err(StepError::OutsideDomain(1)));
    assert_eq!((s.t, s.ticks), (0, 0));
    assert_eq!(s.tracers, ts);
    let tasks = Tasks { tracer_output_interval: 1, tracer_output_count: usize::MAX };
    let mut s = Simulation::new(g, v, vec![ts[0]], 10, 100, tasks).unwrap();
    assert_eq!(s.step(), Err(StepError::OutputCountExhausted));
    assert_eq!((s.t, s.ticks), (0, 0));
}
