use easer::rat::Ratio;
use easer::easer::InterruptableEaser;
use easer::evaluator::{ease, vel_ease, ease_val_vel};
use easer::curve::{linear_position, linear_velocity};
use easer::sqrt::{isqrt, isqrt_ceil};

fn approx(r: Ratio) -> f64 {
    r.num as f64 / r.den as f64
}

#[test]
fn basic() {
    let mut ie = InterruptableEaser::new(Ratio::of_i64(-1));
    let dur = Ratio::new(1, 5);
    assert!(ie.v(Ratio::of_i64(20), dur).is_eq(Ratio::of_i64(-1)));
    ie.approach(Ratio::of_i64(1), Ratio::of_i64(20), dur);
    assert!(ie.v(Ratio::new(201, 10), dur).is_eq(Ratio::of_i64(0)));
    assert!(ie.v(Ratio::new(101, 5), dur).is_eq(Ratio::of_i64(1)));
    assert!(ie.v(Ratio::new(203, 10), dur).is_eq(Ratio::of_i64(1)));
}

#[test]
fn rest_state_reports_initial_value() {
    let ie = InterruptableEaser::new(Ratio::new(7, 3));
    assert!(ie.v(Ratio::of_i64(-100), Ratio::of_i64(1)).is_eq(Ratio::new(7, 3)));
    assert!(ie.v(Ratio::of_i64(0), Ratio::new(1, 10)).is_eq(Ratio::new(7, 3)));
    assert!(ie.v(Ratio::of_i64(12345), Ratio::of_i64(2)).is_eq(Ratio::new(7, 3)));
}

#[test]
fn boundary_conditions_parabolic() {
    // normalized velocity 3/10, the parabolic branch
    let sv = Ratio::of_i64(0);
    let ev = Ratio::of_i64(10);
    let st = Some(Ratio::of_i64(0));
    let et = Ratio::of_i64(1);
    let v0 = Ratio::of_i64(3);
    assert!(ease(sv, ev, st, et, Ratio::of_i64(0), v0).is_eq(sv));
    assert!(ease(sv, ev, st, et, Ratio::of_i64(1), v0).is_eq(ev));
    assert!(vel_ease(sv, ev, st, et, Ratio::of_i64(1), v0).is_eq(Ratio::of_i64(0)));
    assert!(vel_ease(sv, ev, st, et, Ratio::of_i64(0), v0).is_eq(v0));
}

#[test]
fn boundary_conditions_cubic() {
    // normalized velocity 5, the cubic branch
    let sv = Ratio::of_i64(0);
    let ev = Ratio::of_i64(10);
    let st = Some(Ratio::of_i64(0));
    let et = Ratio::of_i64(1);
    let v0 = Ratio::of_i64(50);
    assert!(ease(sv, ev, st, et, Ratio::of_i64(0), v0).is_eq(sv));
    assert!(ease(sv, ev, st, et, Ratio::of_i64(1), v0).is_eq(ev));
    assert!(vel_ease(sv, ev, st, et, Ratio::of_i64(1), v0).is_eq(Ratio::of_i64(0)));
    assert!(vel_ease(sv, ev, st, et, Ratio::of_i64(0), v0).is_eq(v0));
}

#[test]
fn combined_entry_point_agrees_exactly() {
    let cases: Vec<(i64, i64, i64, i64, i64, i64)> = vec![
        (0, 10, 0, 1, 0, 3),
        (0, 10, 0, 1, 1, 50),
        (-4, 6, 2, 4, 3, 1),
        (5, 5, 0, 1, 0, 2),
    ];
    for (a, b, c, d, e, f) in cases {
        let sv = Ratio::of_i64(a);
        let ev = Ratio::of_i64(b);
        let st = Some(Ratio::of_i64(c));
        let et = Ratio::of_i64(d);
        let ct = Ratio::of_i64(e);
        let v0 = Ratio::of_i64(f);
        let (pv, pw) = ease_val_vel(sv, ev, st, et, ct, v0);
        let v = ease(sv, ev, st, et, ct, v0);
        let w = vel_ease(sv, ev, st, et, ct, v0);
        assert_eq!(pv.num, v.num);
        assert_eq!(pv.den, v.den);
        assert_eq!(pw.num, w.num);
        assert_eq!(pw.den, w.den);
    }
    // the sentinel also agrees
    let (pv, pw) = ease_val_vel(
        Ratio::of_i64(1),
        Ratio::of_i64(9),
        None,
        Ratio::of_i64(1),
        Ratio::of_i64(0),
        Ratio::of_i64(0),
    );
    assert!(pv.is_eq(Ratio::of_i64(9)));
    assert!(pw.is_eq(Ratio::of_i64(0)));
}

#[test]
fn continuity_under_interruption() {
    let dur = Ratio::of_i64(1);
    let mut ie = InterruptableEaser::new(Ratio::of_i64(0));
    ie.approach(Ratio::of_i64(10), Ratio::of_i64(0), dur);
    let mid = Ratio::new(3, 10);
    let val_before = ie.v(mid, dur);
    let vel_before = vel_ease(
        ie.start_value,
        ie.end_value,
        ie.start_time,
        Ratio::of_i64(1),
        mid,
        ie.start_velocity,
    );
    ie.approach(Ratio::of_i64(5), mid, dur);
    let val_after = ie.v(mid, dur);
    let vel_after = vel_ease(
        ie.start_value,
        ie.end_value,
        ie.start_time,
        mid.add(dur),
        mid,
        ie.start_velocity,
    );
    assert!(val_before.is_eq(val_after));
    assert!(vel_before.is_eq(vel_after));
}

#[test]
fn threshold_switch_is_continuous() {
    // normalized velocity exactly 2: the parabolic family, evaluated at 1/4,
    // equals the cubic closed form 2t - t^2 = 7/16
    let sv = Ratio::of_i64(0);
    let ev = Ratio::of_i64(1);
    let st = Some(Ratio::of_i64(0));
    let et = Ratio::of_i64(1);
    let quarter = Ratio::new(1, 4);
    let at2 = ease(sv, ev, st, et, quarter, Ratio::of_i64(2));
    assert!(at2.is_eq(Ratio::new(7, 16)));
    // just above and just below the threshold the value barely moves
    let above = ease(sv, ev, st, et, quarter, Ratio::new(2001, 1000));
    let below = ease(sv, ev, st, et, quarter, Ratio::new(1999, 1000));
    assert!((approx(above) - 7.0 / 16.0).abs() < 1e-2);
    assert!((approx(below) - 7.0 / 16.0).abs() < 1e-2);
}

#[test]
fn velocity_matches_numerical_derivative() {
    // central differences on both branches, compared in double precision
    for &(v0n, v0d) in &[(1i64, 1i64), (3, 1), (-4, 1), (5, 2)] {
        let sv = Ratio::of_i64(0);
        let ev = Ratio::of_i64(1);
        let st = Some(Ratio::of_i64(0));
        let et = Ratio::of_i64(1);
        let v0 = Ratio::new(v0n, v0d);
        for k in 1..9i64 {
            let t = Ratio::new(k, 10);
            let h = Ratio::new(1, 100000);
            let va = ease(sv, ev, st, et, t.add(h), v0);
            let vb = ease(sv, ev, st, et, t.sub(h), v0);
            let num_deriv = (approx(va) - approx(vb)) / (2.0 * approx(h));
            let w = vel_ease(sv, ev, st, et, t, v0);
            assert!((approx(w) - num_deriv).abs() < 1e-3);
        }
    }
}

#[test]
fn normalized_primitives_exact_values() {
    // symmetric ease with zero initial velocity: position 1/2 at t = 1/2
    let half = Ratio::new(1, 2);
    let p = linear_position(half, Ratio::of_i64(0));
    assert!(p.is_eq(half));
    // cubic velocity at the start is the initial velocity
    let w = linear_velocity(Ratio::of_i64(0), Ratio::of_i64(3));
    assert!(w.is_eq(Ratio::of_i64(3)));
}

#[test]
fn degenerate_and_sentinel_cases() {
    // zero displacement: constant value, zero velocity
    let sv = Ratio::of_i64(4);
    let st = Some(Ratio::of_i64(0));
    assert!(ease(sv, sv, st, Ratio::of_i64(1), Ratio::new(1, 2), Ratio::of_i64(1)).is_eq(sv));
    assert!(
        vel_ease(sv, sv, st, Ratio::of_i64(1), Ratio::new(1, 2), Ratio::of_i64(1))
            .is_eq(Ratio::of_i64(0))
    );
    // sentinel: the resting target
    assert!(
        ease(Ratio::of_i64(1), Ratio::of_i64(9), None, Ratio::of_i64(1), Ratio::of_i64(5),
            Ratio::of_i64(0)).is_eq(Ratio::of_i64(9))
    );
}

#[test]
fn integer_square_roots() {
    assert_eq!(isqrt(0), 0);
    assert_eq!(isqrt(1), 1);
    assert_eq!(isqrt(10), 3);
    assert_eq!(isqrt(16), 4);
    assert_eq!(isqrt_ceil(10), 4);
    assert_eq!(isqrt_ceil(16), 4);
    assert_eq!(isqrt(u128::MAX), (1u128 << 64) - 1);
}
