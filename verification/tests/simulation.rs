use npendulum::fixed::SimError;
use npendulum::logic::NPendulumSolver;

const ONE: i64 = 4294967296;

#[test]
fn equilibrium_stays_at_rest() {
    let solver = NPendulumSolver::new(2, vec![ONE, ONE], vec![ONE, ONE]);
    let (t, sol) = solver.solve(vec![0, 0], vec![0, 0], 10 * ONE, 100).unwrap();
    assert_eq!(t.len(), 100);
    assert_eq!(sol.len(), 100);
    for state in &sol {
        for &v in state {
            assert_eq!(v, 0);
        }
    }
}

#[test]
fn dimension_mismatch_is_rejected() {
    let solver = NPendulumSolver::new(2, vec![ONE], vec![ONE, ONE]);
    let r = solver.solve(vec![0, 0], vec![0, 0], 10 * ONE, 100);
    assert_eq!(r, Err(SimError::InvalidDimension));
}

#[test]
fn simulate_is_deterministic() {
    let half_pi: i64 = 6746518852;
    let solver = NPendulumSolver::new(2, vec![ONE, ONE], vec![ONE, ONE]);
    let a = solver.solve(vec![half_pi, half_pi], vec![0, 0], 10 * ONE, 50);
    let b = solver.solve(vec![half_pi, half_pi], vec![0, 0], 10 * ONE, 50);
    assert_eq!(a, b);
}

fn to_f(raw: i64) -> f64 {
    raw as f64 / 4294967296.0
}

#[test]
fn two_pendulum_scenario_shape_and_times() {
    // n = 2, unit masses and lengths, both angles at a quarter turn,
    // released from rest, ten seconds, one thousand samples.
    let half_pi: i64 = 6746518852;
    let ten: i64 = 10 * ONE;
    let solver = NPendulumSolver::new(2, vec![ONE, ONE], vec![ONE, ONE]);
    let (t, sol) = solver
        .solve(vec![half_pi, half_pi], vec![0, 0], ten, 1000)
        .unwrap();
    assert_eq!(t.len(), 1000);
    assert_eq!(sol.len(), 1000);
    assert_eq!(t[0], 0);
    assert_eq!(sol[0], vec![half_pi, half_pi, 0, 0]);
    // The grid ends exactly at t_max, and sample k sits at k*t_max/999,
    // truncated toward zero.
    assert_eq!(t[999], ten);
    assert_eq!(t[1], (1i64 * ten as i64) / 999);
    assert_eq!(t[500], (500i128 * ten as i128 / 999) as i64);
    for state in &sol {
        assert_eq!(state.len(), 4);
    }
}

#[test]
fn linear_solver_round_trip() {
    // A well-conditioned symmetric system: applying the matrix to the
    // returned solution reproduces the right-hand side within tolerance.
    let a = vec![
        vec![4 * ONE, ONE, 0],
        vec![ONE, 3 * ONE, ONE],
        vec![0, ONE, 2 * ONE],
    ];
    let b = vec![ONE, 2 * ONE, 3 * ONE];
    let x = npendulum::logic::solve_linear_system(&a, &b).unwrap();
    assert_eq!(x.len(), 3);
    for i in 0..3 {
        let mut ax = 0.0_f64;
        for j in 0..3 {
            ax += to_f(a[i][j]) * to_f(x[j]);
        }
        let bi = to_f(b[i]);
        assert!((ax - bi).abs() <= 1e-6 * bi.abs().max(1.0));
    }
}

#[test]
fn energy_is_approximately_conserved() {
    // Small swing, fine step: total mechanical energy of the last sample
    // stays within a small relative bound of the first.
    let th1: i64 = 1288490189; // 0.3 rad
    let th2: i64 = 1717986918; // 0.4 rad
    let masses = [1.0_f64, 1.0];
    let lengths = [1.0_f64, 1.0];
    let g = to_f(npendulum::math::G_FX);
    let energy = |state: &Vec<i64>| -> f64 {
        let th = [to_f(state[0]), to_f(state[1])];
        let om = [to_f(state[2]), to_f(state[3])];
        let mut e = 0.0_f64;
        let mut vx = 0.0_f64;
        let mut vy = 0.0_f64;
        let mut y = 0.0_f64;
        for i in 0..2 {
            vx += lengths[i] * om[i] * th[i].cos();
            vy += lengths[i] * om[i] * th[i].sin();
            y -= lengths[i] * th[i].cos();
            e += 0.5 * masses[i] * (vx * vx + vy * vy) + masses[i] * g * y;
        }
        e
    };
    let solver = NPendulumSolver::new(2, vec![ONE, ONE], vec![ONE, ONE]);
    let (_t, sol) = solver
        .solve(vec![th1, th2], vec![0, 0], 2 * ONE, 2001)
        .unwrap();
    let e0 = energy(&sol[0]);
    let e1 = energy(&sol[sol.len() - 1]);
    assert!(((e1 - e0) / e0).abs() < 1e-3);
}

#[test]
fn zero_length_reports_singular_system() {
    let half_pi: i64 = 6746518852;
    let solver = NPendulumSolver::new(2, vec![ONE, ONE], vec![ONE, 0]);
    let r = solver.solve(vec![half_pi, half_pi], vec![0, 0], 10 * ONE, 100);
    assert_eq!(r, Err(SimError::SingularSystem));
}

#[test]
fn zero_last_mass_reports_singular_system() {
    let solver = NPendulumSolver::new(2, vec![ONE, 0], vec![ONE, ONE]);
    let r = solver.solve(vec![0, 0], vec![0, 0], 10 * ONE, 100);
    assert_eq!(r, Err(SimError::SingularSystem));
}

#[test]
fn out_of_range_angle_reports_numeric_fault() {
    let solver = NPendulumSolver::new(2, vec![ONE, ONE], vec![ONE, ONE]);
    let r = solver.solve(vec![i64::MAX, i64::MAX], vec![0, 0], 10 * ONE, 100);
    assert_eq!(r, Err(SimError::NumericFault));
}

#[test]
fn zero_gravity_at_rest_is_stationary() {
    // With the gravitational constant set to zero and no initial velocity,
    // the inertial-only dynamics leave every sample exactly at the initial
    // configuration.
    let th1: i64 = 1288490189; // 0.3 rad
    let th2: i64 = 1717986918; // 0.4 rad
    let solver = npendulum::logic::NPendulumSolver::with_gravity(
        2,
        vec![ONE, ONE],
        vec![ONE, ONE],
        0,
    );
    let (_t, sol) = solver.solve(vec![th1, th2], vec![0, 0], 5 * ONE, 200).unwrap();
    assert_eq!(sol.len(), 200);
    for state in &sol {
        assert_eq!(state, &vec![th1, th2, 0, 0]);
    }
}
