use tracers::grid::Grid;
use tracers::tracer::{apply_boundary_condition, Tracer, TIME_SCALE};
use tracers::velocity::{Velocities, VELOCITY_LIMIT};

/// A 2 x 2 grid over [0, 20) x [0, 20) with the given samples.
fn small_field(face_vx: Vec<i64>, face_vy: Vec<i64>) -> (Grid, Velocities) {
    let g = Grid::new(2, 2, 0, 20, 0, 20).unwrap();
    let v = Velocities::from_samples(&g, face_vx, face_vy).unwrap();
    (g, v)
}

#[test]
fn rotation_samples_the_face_centres() {
    let g = Grid::new(4, 2, -8, 8, -4, 4).unwrap();
    let v = Velocities::initialize_rot_flow(&g);
    let fx = g.face_centers_x();
    let fy = g.face_centers_y();
    assert_eq!(v.face_vx.len(), fx.len());
    assert_eq!(v.face_vy.len(), fy.len());
    for k in 0..fx.len() {
        assert_eq!(v.face_vx[k], -fx[k].1);
    }
    for k in 0..fy.len() {
        assert_eq!(v.face_vy[k], fy[k].0);
    }
    assert_eq!(v.face_vx[0], 2);
    assert_eq!(v.face_vy[0], -6);
}

#[test]
fn from_samples_checks_layout_and_range() {
    let g = Grid::new(2, 2, 0, 20, 0, 20).unwrap();
    assert!(Velocities::from_samples(&g, vec![0; 6], vec![0; 6]).is_some());
    assert!(Velocities::from_samples(&g, vec![0; 5], vec![0; 6]).is_none());
    assert!(Velocities::from_samples(&g, vec![0; 6], vec![0; 7]).is_none());
    let mut big = vec![0; 6];
    big[3] = VELOCITY_LIMIT + 1;
    assert!(Velocities::from_samples(&g, big, vec![0; 6]).is_none());
    let mut low = vec![0; 6];
    low[5] = -VELOCITY_LIMIT - 1;
    assert!(Velocities::from_samples(&g, vec![0; 6], low).is_none());
}

#[test]
fn interpolation_on_a_face_node_is_exact() {
    // x-faces (i, j) at i * 2 + j; y-faces (i, j) at i * 3 + j
    let (g, v) = small_field(vec![7, -3, 11, 5, -9, 4], vec![1, 2, 3, 4, 5, 6]);
    assert_eq!(v.interpolate(&g, 0, 5).unwrap().0, 7);
    assert_eq!(v.interpolate(&g, 10, 5).unwrap().0, 11);
    assert_eq!(v.interpolate(&g, 10, 15).unwrap().0, 5);
    assert_eq!(v.interpolate(&g, 5, 0).unwrap().1, 1);
    assert_eq!(v.interpolate(&g, 5, 10).unwrap().1, 2);
    assert_eq!(v.interpolate(&g, 15, 10).unwrap().1, 5);
}

#[test]
fn interpolation_is_weighted_by_distance() {
    let (g, v) = small_field(vec![0, 0, 100, 0, 0, 0], vec![0, 10, 0, 0, 0, 0]);
    // 3/10 of the way from x-face 0 (0) to x-face 1 (100)
    assert_eq!(v.interpolate(&g, 3, 1), Some((30, 1)));
    // 7/10 of the way
    assert_eq!(v.interpolate(&g, 7, 9), Some((70, 9)));
    assert_eq!(v.interpolate(&g, 20, 0), None);
}

#[test]
fn interpolation_rounds_down() {
    let (g, v) = small_field(vec![0, 0, -7, 0, 0, 0], vec![0; 6]);
    // 3/10 of -7 is -2.1, which rounds down to -3
    assert_eq!(v.interpolate(&g, 3, 0), Some((-3, 0)));
    let (g, v) = small_field(vec![0, 0, 7, 0, 0, 0], vec![0; 6]);
    assert_eq!(v.interpolate(&g, 3, 0), Some((2, 0)));
}

#[test]
fn wrap_keeps_points_inside() {
    let g = Grid::new(2, 2, -10, 10, 0, 20).unwrap();
    let t = Tracer { id: 4, x: -10, y: 19 };
    assert_eq!(apply_boundary_condition(&t, &g), t);
    let t = Tracer { id: 4, x: 10, y: 20 };
    assert_eq!(apply_boundary_condition(&t, &g), Tracer { id: 4, x: -10, y: 0 });
    let t = Tracer { id: 5, x: -11, y: -1 };
    assert_eq!(apply_boundary_condition(&t, &g), Tracer { id: 5, x: 9, y: 19 });
}

#[test]
fn wrap_of_a_shifted_point_returns_it() {
    let g = Grid::new(2, 2, -10, 10, 0, 20).unwrap();
    for x in -10..10 {
        for k in -1..=1i64 {
            let t = Tracer { id: 0, x: x + k * 20, y: 3 + k * 20 };
            assert_eq!(apply_boundary_condition(&t, &g), Tracer { id: 0, x, y: 3 });
        }
    }
}

#[test]
fn update_moves_by_forward_euler() {
    // uniform velocity of 2000 quanta per unit of time on every face
    let (g, v) = small_field(vec![2000; 6], vec![-500; 6]);
    let t = Tracer { id: 9, x: 4, y: 6 };
    // dt = 0.01 of a unit
    let dt = (TIME_SCALE / 100) as u32;
    // 4 + 20 = 24 lies past x1 = 20 and wraps to 4
    assert_eq!(t.update(&g, &v, dt), Some(Tracer { id: 9, x: 4, y: 1 }));
    // -500 * 0.003 = -1.5 rounds down to -2
    assert_eq!(t.update(&g, &v, 3000), Some(Tracer { id: 9, x: 10, y: 4 }));
}

#[test]
fn update_wraps_after_moving() {
    let (g, v) = small_field(vec![2000; 6], vec![-500; 6]);
    let t = Tracer { id: 1, x: 15, y: 2 };
    assert_eq!(t.update(&g, &v, 10_000), Some(Tracer { id: 1, x: 15, y: 17 }));
    let t = Tracer { id: 1, x: 19, y: 3 };
    assert_eq!(t.update(&g, &v, 1000), Some(Tracer { id: 1, x: 1, y: 2 }));
}

#[test]
fn update_keeps_the_id() {
    let g = Grid::new(4, 4, -8, 8, -8, 8).unwrap();
    let v = Velocities::initialize_rot_flow(&g);
    for id in [0usize, 1, 17, usize::MAX] {
        let t = Tracer { id, x: 3, y: -5 };
        assert_eq!(t.update(&g, &v, 123_456).unwrap().id, id);
    }
}

#[test]
fn update_reports_a_tracer_outside() {
    let (g, v) = small_field(vec![0; 6], vec![0; 6]);
    assert_eq!(Tracer { id: 0, x: 20, y: 0 }.update(&g, &v, 10), None);
    assert_eq!(Tracer { id: 0, x: 0, y: -1 }.update(&g, &v, 10), None);
}

#[test]
fn default_and_random_tracers() {
    assert_eq!(Tracer::default(), Tracer { id: 0, x: 0, y: 0 });
    let mut seen_negative = false;
    let mut xs = Vec::new();
    for id in 0..200 {
        let t = Tracer::randomize(1000, id);
        assert_eq!(t.id, id);
        assert!(-1000 <= t.x && t.x < 1000);
        assert!(-1000 <= t.y && t.y < 1000);
        seen_negative |= t.x < 0 || t.y < 0;
        xs.push(t.x);
    }
    assert!(seen_negative);
    xs.sort();
    xs.dedup();
    assert!(xs.len() > 1);
    let t = Tracer::randomize(1, 3);
    assert!(t.x == -1 || t.x == 0);
}

#[test]
fn rotation_at_a_rational_rate() {
    let g = Grid::new(4, 2, -8, 8, -4, 4).unwrap();
    let half = Velocities::initialize_rotation(&g, 1, 2).unwrap();
    // x-face (0, 0) sits at y = -2; y-face (0, 0) at x = -6
    assert_eq!(half.face_vx[0], 1);
    assert_eq!(half.face_vy[0], -3);
    let v = Velocities::initialize_rotation(&g, 3, 4).unwrap();
    assert_eq!(v.face_vx[0], 1);
    assert_eq!(v.face_vy[0], -5);
    assert_eq!(v.face_vx.len(), 10);
    assert_eq!(v.face_vy.len(), 12);
    let unit = Velocities::initialize_rotation(&g, 1, 1).unwrap();
    let plain = Velocities::initialize_rot_flow(&g);
    assert_eq!(unit.face_vx, plain.face_vx);
    assert_eq!(unit.face_vy, plain.face_vy);
}

#[test]
fn rotation_beyond_the_velocity_limit() {
    let r: i64 = 1 << 40;
    let g = Grid::new(2, 2, -r, r, -r, r).unwrap();
    // centres at +-2^39: a rate of 2 reaches the limit, a rate of 4 passes it
    assert!(Velocities::initialize_rotation(&g, 2, 1).is_some());
    assert!(Velocities::initialize_rotation(&g, 4, 1).is_none());
    assert!(Velocities::initialize_rotation(&g, -4, 1).is_none());
}
