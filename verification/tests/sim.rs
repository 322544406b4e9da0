use nbody::Fixed;
use nbody::SimParams;
use nbody::SimState;
use nbody::Vec3;
use nbody::render::project;

fn fin(v: i64) -> Fixed {
    Fixed::Finite(v)
}

fn v3(x: i64, y: i64, z: i64) -> Vec3 {
    Vec3 { x: fin(x), y: fin(y), z: fin(z) }
}

fn zero() -> Vec3 {
    v3(0, 0, 0)
}

/// Reference box with `G = 1000`, no drag: the two-body scenario constants.
fn two_body_params() -> SimParams {
    SimParams {
        g: 1_000_000,
        drag: 0,
        speed_cap: 10_000_000,
        x_min: 0,
        x_max: 100_000,
        y_min: 0,
        y_max: 100_000,
        z_min: 0,
        z_max: 100_000,
    }
}

fn in_box(p: &Vec3, prm: &SimParams) -> bool {
    match (p.x, p.y, p.z) {
        (Fixed::Finite(x), Fixed::Finite(y), Fixed::Finite(z)) => {
            prm.x_min <= x && x < prm.x_max && prm.y_min <= y && y < prm.y_max && prm.z_min <= z
                && z < prm.z_max
        }
        _ => false,
    }
}

#[test]
fn initialize_places_bodies_in_box_at_rest() {
    let prm = SimParams::reference();
    let s = SimState::initialize(10, &prm);
    assert_eq!(s.pos.len(), 10);
    assert_eq!(s.vel.len(), 10);
    assert_eq!(s.acc.len(), 10);
    for i in 0..10 {
        assert!(in_box(&s.pos[i], &prm));
        assert_eq!(s.vel[i], zero());
        assert_eq!(s.acc[i], zero());
    }
}

#[test]
fn initialize_zero_bodies() {
    let prm = SimParams::reference();
    let s = SimState::initialize(0, &prm);
    assert!(s.pos.is_empty() && s.vel.is_empty() && s.acc.is_empty());
}

#[test]
fn end_to_end_two_bodies_attract_symmetrically() {
    // Body 0 at (40, 50, 50), body 1 at (60, 50, 50), both at rest,
    // G = 1000, dt = 0.01: distance 20, so |a| = 1000 / 400 = 2.5 along x.
    let prm = two_body_params();
    let mut s = SimState {
        pos: vec![v3(40_000, 50_000, 50_000), v3(60_000, 50_000, 50_000)],
        vel: vec![zero(), zero()],
        acc: vec![zero(), zero()],
    };
    s.step(&prm, 10);
    // body 0 is pulled toward increasing x, body 1 toward decreasing x
    assert_eq!(s.acc[0], v3(2_500, 0, 0));
    assert_eq!(s.acc[1], v3(-2_500, 0, 0));
    // equal magnitudes
    assert_eq!(s.acc[0].x, fin(2_500));
    assert_eq!(s.acc[1].x, fin(-2_500));
    // explicit Euler: v += a * dt
    assert_eq!(s.vel[0], v3(25, 0, 0));
    assert_eq!(s.vel[1], v3(-25, 0, 0));
    // the position change 25 * 0.01 = 0.25 rounds to zero at this scale
    assert_eq!(s.pos[0], v3(40_000, 50_000, 50_000));
    assert_eq!(s.pos[1], v3(60_000, 50_000, 50_000));
}

#[test]
fn singularity_two_coincident_bodies_stay_finite() {
    // d^2 = 0 is clamped to 1.0 before the division, so nothing diverges.
    let prm = two_body_params();
    let mut s = SimState {
        pos: vec![v3(50_000, 50_000, 50_000), v3(50_000, 50_000, 50_000)],
        vel: vec![zero(), zero()],
        acc: vec![zero(), zero()],
    };
    s.step(&prm, 10);
    assert_eq!(s.acc[0], zero());
    assert_eq!(s.acc[1], zero());
    assert_eq!(s.vel[0], zero());
    assert_eq!(s.vel[1], zero());
    assert_eq!(s.pos[0], v3(50_000, 50_000, 50_000));
}

#[test]
fn conservation_no_nonfinite_from_rest() {
    let prm = SimParams::reference();
    let mut s = SimState {
        pos: vec![
            v3(10_000, 20_000, 30_000),
            v3(80_000, 70_000, 60_000),
            v3(50_000, 10_000, 90_000),
        ],
        vel: vec![zero(), zero(), zero()],
        acc: vec![zero(), zero(), zero()],
    };
    s.step(&prm, 10);
    for i in 0..3 {
        for f in [s.acc[i].x, s.acc[i].y, s.acc[i].z, s.vel[i].x, s.vel[i].y, s.vel[i].z,
            s.pos[i].x, s.pos[i].y, s.pos[i].z] {
            assert!(matches!(f, Fixed::Finite(_)));
        }
    }
}

#[test]
fn reflective_boundary_low_x() {
    let prm = SimParams::reference();
    let mut s = SimState {
        pos: vec![v3(-5_000, 50_000, 50_000)],
        vel: vec![v3(-100, 7, -8)],
        acc: vec![zero()],
    };
    s.boundary_check(&prm);
    assert_eq!(s.vel[0].x, fin(100));
    assert_eq!(s.vel[0].y, fin(7));
    assert_eq!(s.vel[0].z, fin(-8));
    assert_eq!(s.pos[0], v3(-5_000, 50_000, 50_000));
}

#[test]
fn reflective_boundary_high_x_and_y() {
    let prm = SimParams::reference();
    let mut s = SimState {
        pos: vec![v3(105_000, -2_000, 50_000)],
        vel: vec![v3(300, -40, 5)],
        acc: vec![zero()],
    };
    s.boundary_check(&prm);
    // above the x maximum the x velocity is forced non-positive
    assert_eq!(s.vel[0].x, fin(-300));
    // below the y minimum the y velocity is forced non-negative
    assert_eq!(s.vel[0].y, fin(40));
    assert_eq!(s.vel[0].z, fin(5));
}

#[test]
fn reset_on_nonfinite_velocity() {
    let prm = SimParams::reference();
    let mut s = SimState {
        pos: vec![v3(50_000, 50_000, 50_000)],
        vel: vec![Vec3 { x: Fixed::NonFinite, y: fin(0), z: fin(0) }],
        acc: vec![zero()],
    };
    s.boundary_check(&prm);
    assert!(in_box(&s.pos[0], &prm));
    assert_eq!(s.vel[0], zero());
}

#[test]
fn reset_on_nonfinite_position() {
    let prm = SimParams::reference();
    let mut s = SimState {
        pos: vec![Vec3 { x: fin(50_000), y: Fixed::NonFinite, z: fin(50_000) }],
        vel: vec![v3(1, 2, 3)],
        acc: vec![zero()],
    };
    s.boundary_check(&prm);
    assert!(in_box(&s.pos[0], &prm));
    assert_eq!(s.vel[0], zero());
}

#[test]
fn reset_on_speed_cap() {
    let prm = SimParams::reference();
    let mut s = SimState {
        pos: vec![v3(50_000, 50_000, 50_000)],
        vel: vec![v3(0, 0, 10_000_001)],
        acc: vec![zero()],
    };
    s.boundary_check(&prm);
    assert!(in_box(&s.pos[0], &prm));
    assert_eq!(s.vel[0], zero());
}

#[test]
fn step_is_deterministic_without_resets() {
    let prm = SimParams::reference();
    let mk = || SimState {
        pos: vec![v3(10_000, 20_000, 30_000), v3(80_000, 70_000, 60_000), v3(50_000, 10_000, 90_000)],
        vel: vec![v3(100, -200, 300), v3(0, 0, 0), v3(-50, 60, -70)],
        acc: vec![zero(), zero(), zero()],
    };
    let mut a = mk();
    let mut b = mk();
    a.step(&prm, 10);
    b.step(&prm, 10);
    assert_eq!(a.pos, b.pos);
    assert_eq!(a.vel, b.vel);
    assert_eq!(a.acc, b.acc);
}

#[test]
fn step_with_no_bodies_leaves_arrays_empty() {
    let prm = SimParams::reference();
    let mut s = SimState { pos: vec![], vel: vec![], acc: vec![] };
    s.step(&prm, 10);
    assert!(s.pos.is_empty() && s.vel.is_empty() && s.acc.is_empty());
}

#[test]
fn drag_slows_a_moving_body() {
    // one body, no gravity partner: a = -drag * v
    let prm = SimParams::reference();
    let mut s = SimState {
        pos: vec![v3(50_000, 50_000, 50_000)],
        vel: vec![v3(500_000, 0, 0)],
        acc: vec![zero()],
    };
    s.step(&prm, 10);
    // drag 0.001 * v 500 = 0.5; fixed: 1 * 500_000 / 1000 = 500
    assert_eq!(s.acc[0].x, fin(-500));
    // v += a * dt: 500_000 + (-500 * 10 / 1000) = 499_995
    assert_eq!(s.vel[0].x, fin(499_995));
    // x += v * dt: 50_000 + 499_995 * 10 / 1000 = 54_999
    assert_eq!(s.pos[0].x, fin(54_999));
}

#[test]
fn projection_maps_box_center_to_window_center() {
    let p = v3(50_000, 50_000, 50_000);
    // y - x = 0 and 0.5 * (x + y) - z = 0: dead center
    assert_eq!(project(&p, 800, 800), (400, 400));
}

#[test]
fn projection_exact_pixels() {
    let p = v3(40_000, 50_000, 50_000);
    // u: 866 * 10_000 * 800 / 200_000_000 = 34 (truncated), plus 400
    // v: (40_000 + 50_000 - 100_000) * 800 / 400_000 = -20, plus 400
    assert_eq!(project(&p, 800, 800), (434, 380));
}

#[test]
fn fast_body_leaves_box_and_is_reflected_by_step() {
    let prm = SimParams::reference();
    let mut s = SimState {
        pos: vec![v3(50_000, 50_000, 50_000)],
        vel: vec![v3(9_000_000, 0, 0)],
        acc: vec![zero()],
    };
    s.step(&prm, 10);
    // drag: a = -0.001 * 9000 = -9; v' = 9000 - 0.09 = 8999.91;
    // x' = 50 + 89.9991 = 139.9991, past the wall, so the recovery pass
    // flips the velocity sign while the position overshoots for one frame
    assert_eq!(s.pos[0].x, fin(139_999));
    assert_eq!(s.vel[0].x, fin(-8_999_910));
}
