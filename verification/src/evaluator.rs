//! Denormalized evaluator: maps a boundary-condition tuple (start value, end
//! value, start time, end time, current time, initial velocity) into the
//! normalized domain, dispatches to the cubic or the parabolic primitive, and
//! maps the result back. A `start_time` of `None` means that no transition has
//! ever begun, so queries return the resting target.

use vstd::prelude::*;
use crate::rat::{
    Rat, Ratio, rat_wf, rat_eq, rat_le, rat_lt, rat_of_int, rat_add, rat_sub, rat_mul, rat_div,
    add_fits, mul_fits, div_fits, cmp_fits,
};
use crate::curve::{
    spec_linear_pos, spec_linear_vel, spec_parab_pos, spec_parab_vel, linear_pos_fits,
    linear_vel_fits, params_fits, parab_pos_fits, parab_vel_fits, linear_position,
    linear_velocity, solve_params, parabolic_position, parabolic_velocity, lemma_linear_at_start,
    lemma_linear_at_one, lemma_parab_at_start,
};

verus! {

pub open spec fn opt_view(st: Option<Ratio>) -> Option<Rat> {
    match st {
        Option::Some(s) => Option::Some(s@),
        Option::None => Option::None,
    }
}

pub open spec fn opt_wf(st: Option<Rat>) -> bool {
    match st {
        Option::Some(s) => rat_wf(s),
        Option::None => true,
    }
}

/// `(current_time - start_time) / (end_time - start_time)`.
pub open spec fn spec_norm_time(s: Rat, et: Rat, ct: Rat) -> Rat {
    rat_div(rat_sub(ct, s), rat_sub(et, s))
}

/// `initial_velocity / (end_value - start_value) * (end_time - start_time)`.
pub open spec fn spec_norm_vel(sv: Rat, ev: Rat, s: Rat, et: Rat, v0: Rat) -> Rat {
    rat_mul(rat_div(v0, rat_sub(ev, sv)), rat_sub(et, s))
}

/// Value of the transition at `ct`: the resting target before any transition,
/// the constant value for a zero-displacement transition, otherwise the
/// denormalized dispatch (cubic above normalized velocity 2, parabolic at or
/// below it).
pub open spec fn spec_ease_value(sv: Rat, ev: Rat, st: Option<Rat>, et: Rat, ct: Rat, v0: Rat) -> Rat {
    match st {
        Option::None => ev,
        Option::Some(s) => {
            if rat_eq(sv, ev) {
                sv
            } else {
                let nt = spec_norm_time(s, et, ct);
                let nv = spec_norm_vel(sv, ev, s, et, v0);
                let po = if rat_lt(rat_of_int(2), nv) {
                    spec_linear_pos(nt, nv)
                } else {
                    spec_parab_pos(nt, nv)
                };
                rat_add(sv, rat_mul(po, rat_sub(ev, sv)))
            }
        },
    }
}

/// Velocity of the transition at `ct`, by the chain rule; zero before any
/// transition and for a zero-displacement transition.
pub open spec fn spec_ease_velocity(sv: Rat, ev: Rat, st: Option<Rat>, et: Rat, ct: Rat, v0: Rat) -> Rat {
    match st {
        Option::None => rat_of_int(0),
        Option::Some(s) => {
            if rat_eq(sv, ev) {
                rat_of_int(0)
            } else {
                let nt = spec_norm_time(s, et, ct);
                let nv = spec_norm_vel(sv, ev, s, et, v0);
                let vo = if rat_lt(rat_of_int(2), nv) {
                    spec_linear_vel(nt, nv)
                } else {
                    spec_parab_vel(nt, nv)
                };
                rat_div(rat_mul(vo, rat_sub(ev, sv)), rat_sub(et, s))
            }
        },
    }
}

/// The value and the velocity, as one pair.
pub open spec fn spec_ease_val_vel(sv: Rat, ev: Rat, st: Option<Rat>, et: Rat, ct: Rat, v0: Rat) -> (Rat, Rat) {
    (spec_ease_value(sv, ev, st, et, ct, v0), spec_ease_velocity(sv, ev, st, et, ct, v0))
}

/// All intermediate products of one evaluation fit in `i128`, and the
/// duration is not zero (rational arithmetic cannot divide by zero).
pub open spec fn ease_fits(sv: Rat, ev: Rat, s: Rat, et: Rat, ct: Rat, v0: Rat) -> bool {
    let dt = rat_sub(et, s);
    let dx = rat_sub(ev, sv);
    let nt = spec_norm_time(s, et, ct);
    let nv = spec_norm_vel(sv, ev, s, et, v0);
    let po = if rat_lt(rat_of_int(2), nv) {
        spec_linear_pos(nt, nv)
    } else {
        spec_parab_pos(nt, nv)
    };
    let vo = if rat_lt(rat_of_int(2), nv) {
        spec_linear_vel(nt, nv)
    } else {
        spec_parab_vel(nt, nv)
    };
    &&& add_fits(ct, s)
    &&& add_fits(et, s)
    &&& add_fits(ev, sv)
    &&& dt.n != 0
    &&& div_fits(rat_sub(ct, s), dt)
    &&& div_fits(v0, dx)
    &&& mul_fits(rat_div(v0, dx), dt)
    &&& cmp_fits(rat_of_int(2), nv)
    &&& (rat_lt(rat_of_int(2), nv) ==> linear_pos_fits(nt, nv) && linear_vel_fits(nt, nv))
    &&& (!rat_lt(rat_of_int(2), nv) ==> params_fits(nv) && parab_pos_fits(nt, nv) && parab_vel_fits(
        nt,
        nv,
    ))
    &&& mul_fits(po, dx)
    &&& add_fits(sv, rat_mul(po, dx))
    &&& mul_fits(vo, dx)
    &&& div_fits(rat_mul(vo, dx), dt)
}

/// Precondition shared by the three evaluator entry points.
pub open spec fn ease_req(sv: Rat, ev: Rat, st: Option<Rat>, et: Rat, ct: Rat, v0: Rat) -> bool {
    match st {
        Option::None => true,
        Option::Some(s) => cmp_fits(sv, ev) && (!rat_eq(sv, ev) ==> ease_fits(sv, ev, s, et, ct, v0)),
    }
}

/// Value of the transition described by the boundary conditions at
/// `current_time`.
pub fn ease(
    start_value: Ratio,
    end_value: Ratio,
    start_time: Option<Ratio>,
    end_time: Ratio,
    current_time: Ratio,
    initial_velocity: Ratio,
) -> (r: Ratio)
    requires
        start_value.wf(),
        end_value.wf(),
        opt_wf(opt_view(start_time)),
        end_time.wf(),
        current_time.wf(),
        initial_velocity.wf(),
        ease_req(start_value@, end_value@, opt_view(start_time), end_time@, current_time@, initial_velocity@),
    ensures
        r.wf(),
        r@ == spec_ease_value(
            start_value@,
            end_value@,
            opt_view(start_time),
            end_time@,
            current_time@,
            initial_velocity@,
        ),
{
    match start_time {
        None => end_value,
        Some(s) => {
            if start_value.is_eq(end_value) {
                start_value
            } else {
                let dt = end_time.sub(s);
                let dx = end_value.sub(start_value);
                let nt = current_time.sub(s).div(dt);
                let nv = initial_velocity.div(dx).mul(dt);
                let two = Ratio::of_i64(2);
                let po = if two.lt(nv) {
                    linear_position(nt, nv)
                } else {
                    let p = solve_params(nv);
                    parabolic_position(nt, nv, &p)
                };
                start_value.add(po.mul(dx))
            }
        },
    }
}

/// Velocity of the transition described by the boundary conditions at
/// `current_time`.
pub fn vel_ease(
    start_value: Ratio,
    end_value: Ratio,
    start_time: Option<Ratio>,
    end_time: Ratio,
    current_time: Ratio,
    initial_velocity: Ratio,
) -> (r: Ratio)
    requires
        start_value.wf(),
        end_value.wf(),
        opt_wf(opt_view(start_time)),
        end_time.wf(),
        current_time.wf(),
        initial_velocity.wf(),
        ease_req(start_value@, end_value@, opt_view(start_time), end_time@, current_time@, initial_velocity@),
    ensures
        r.wf(),
        r@ == spec_ease_velocity(
            start_value@,
            end_value@,
            opt_view(start_time),
            end_time@,
            current_time@,
            initial_velocity@,
        ),
{
    match start_time {
        None => Ratio::of_i64(0),
        Some(s) => {
            if start_value.is_eq(end_value) {
                Ratio::of_i64(0)
            } else {
                let dt = end_time.sub(s);
                let dx = end_value.sub(start_value);
                let nt = current_time.sub(s).div(dt);
                let nv = initial_velocity.div(dx).mul(dt);
                let two = Ratio::of_i64(2);
                let vo = if two.lt(nv) {
                    linear_velocity(nt, nv)
                } else {
                    let p = solve_params(nv);
                    parabolic_velocity(nt, nv, &p)
                };
                vo.mul(dx).div(dt)
            }
        },
    }
}

/// The value and the velocity in one pass; agrees exactly with `ease` and
/// `vel_ease` called separately on the same inputs.
pub fn ease_val_vel(
    start_value: Ratio,
    end_value: Ratio,
    start_time: Option<Ratio>,
    end_time: Ratio,
    current_time: Ratio,
    initial_velocity: Ratio,
) -> (r: (Ratio, Ratio))
    requires
        start_value.wf(),
        end_value.wf(),
        opt_wf(opt_view(start_time)),
        end_time.wf(),
        current_time.wf(),
        initial_velocity.wf(),
        ease_req(start_value@, end_value@, opt_view(start_time), end_time@, current_time@, initial_velocity@),
    ensures
        r.0.wf(),
        r.1.wf(),
        r.0@ == spec_ease_value(
            start_value@,
            end_value@,
            opt_view(start_time),
            end_time@,
            current_time@,
            initial_velocity@,
        ),
        r.1@ == spec_ease_velocity(
            start_value@,
            end_value@,
            opt_view(start_time),
            end_time@,
            current_time@,
            initial_velocity@,
        ),
{
    match start_time {
        None => (end_value, Ratio::of_i64(0)),
        Some(s) => {
            if start_value.is_eq(end_value) {
                (start_value, Ratio::of_i64(0))
            } else {
                let dt = end_time.sub(s);
                let dx = end_value.sub(start_value);
                let nt = current_time.sub(s).div(dt);
                let nv = initial_velocity.div(dx).mul(dt);
                let two = Ratio::of_i64(2);
                let (po, vo) = if two.lt(nv) {
                    (linear_position(nt, nv), linear_velocity(nt, nv))
                } else {
                    let p = solve_params(nv);
                    (parabolic_position(nt, nv, &p), parabolic_velocity(nt, nv, &p))
                };
                (start_value.add(po.mul(dx)), vo.mul(dx).div(dt))
            }
        },
    }
}

/// The combined entry point is the pair of the two separate entry points, on
/// every input.
pub proof fn lemma_combined_agreement(sv: Rat, ev: Rat, st: Option<Rat>, et: Rat, ct: Rat, v0: Rat)
    ensures
        spec_ease_val_vel(sv, ev, st, et, ct, v0) == (
            spec_ease_value(sv, ev, st, et, ct, v0),
            spec_ease_velocity(sv, ev, st, et, ct, v0),
        ),
{
}

/// Queried at the start time, a transition reports its start value, and — for
/// a transition with displacement — its initial velocity.
pub proof fn lemma_ease_at_start(sv: Rat, ev: Rat, s: Rat, et: Rat, v0: Rat)
    requires
        rat_wf(sv),
        rat_wf(ev),
        rat_wf(s),
        rat_wf(et),
        rat_wf(v0),
        rat_sub(et, s).n != 0,
    ensures
        rat_eq(spec_ease_value(sv, ev, Some(s), et, s, v0), sv),
        !rat_eq(sv, ev) ==> rat_eq(spec_ease_velocity(sv, ev, Some(s), et, s, v0), v0),
{
    if !rat_eq(sv, ev) {
        let dt = rat_sub(et, s);
        let dx = rat_sub(ev, sv);
        let nu = rat_sub(s, s);
        assert(nu.n == 0);
        assert(nu.d == s.d * s.d);
        assert(s.d * s.d > 0) by (nonlinear_arith)
            requires
                s.d > 0,
        ;
        let nt = spec_norm_time(s, et, s);
        assert(nt == rat_div(nu, dt));
        assert(nt.n == 0 && nt.d > 0) by {
            if dt.n >= 0 {
                assert(nt.n == nu.n * dt.d);
                assert(nu.n * dt.d == 0) by (nonlinear_arith)
                    requires
                        nu.n == 0,
                ;
                assert(nt.d == nu.d * dt.n);
                assert(nu.d * dt.n > 0) by (nonlinear_arith)
                    requires
                        nu.d > 0,
                        dt.n > 0,
                ;
            } else {
                assert(nt.n == -(nu.n * dt.d));
                assert(nu.n * dt.d == 0) by (nonlinear_arith)
                    requires
                        nu.n == 0,
                ;
                assert(nt.d == -(nu.d * dt.n));
                assert(-(nu.d * dt.n) > 0) by (nonlinear_arith)
                    requires
                        nu.d > 0,
                        dt.n < 0,
                ;
            }
        }
        assert(dx.n != 0);
        assert(dt.d == et.d * s.d);
        assert(et.d * s.d > 0) by (nonlinear_arith)
            requires
                et.d > 0,
                s.d > 0,
        ;
        assert(dx.d == ev.d * sv.d);
        assert(ev.d * sv.d > 0) by (nonlinear_arith)
            requires
                ev.d > 0,
                sv.d > 0,
        ;
        let iv = rat_div(v0, dx);
        assert(iv.d > 0) by {
            if dx.n >= 0 {
                assert(iv.d == v0.d * dx.n);
                assert(v0.d * dx.n > 0) by (nonlinear_arith)
                    requires
                        v0.d > 0,
                        dx.n > 0,
                ;
            } else {
                assert(iv.d == -(v0.d * dx.n));
                assert(-(v0.d * dx.n) > 0) by (nonlinear_arith)
                    requires
                        v0.d > 0,
                        dx.n < 0,
                ;
            }
        }
        let nv = spec_norm_vel(sv, ev, s, et, v0);
        assert(nv == rat_mul(iv, dt));
        assert(nv.d == iv.d * dt.d);
        assert(iv.d * dt.d > 0) by (nonlinear_arith)
            requires
                iv.d > 0,
                dt.d > 0,
        ;
        let po = if rat_lt(rat_of_int(2), nv) {
            spec_linear_pos(nt, nv)
        } else {
            spec_parab_pos(nt, nv)
        };
        let vo = if rat_lt(rat_of_int(2), nv) {
            spec_linear_vel(nt, nv)
        } else {
            spec_parab_vel(nt, nv)
        };
        if rat_lt(rat_of_int(2), nv) {
            lemma_linear_at_start(nt, nv);
        } else {
            assert(rat_le(nv, rat_of_int(2)));
            lemma_parab_at_start(nt, nv);
        }
        assert(rat_eq(po, rat_of_int(0)));
        assert(rat_eq(vo, nv));
        assert(po.n == 0);
        // value: sv plus zero displacement share
        let m1 = rat_mul(po, dx);
        assert(m1.n == po.n * dx.n);
        assert(po.n * dx.n == 0) by (nonlinear_arith)
            requires
                po.n == 0,
        ;
        let val = rat_add(sv, m1);
        assert(val.n == sv.n * m1.d + m1.n * sv.d);
        assert(m1.n * sv.d == 0) by (nonlinear_arith)
            requires
                m1.n == 0,
        ;
        assert(val.n == sv.n * m1.d);
        assert((sv.n * m1.d) * sv.d == sv.n * (sv.d * m1.d)) by (nonlinear_arith);
        assert(rat_eq(val, sv));
        // velocity: the denormalization cancels the normalization
        let m2 = rat_mul(vo, dx);
        assert(m2.n == vo.n * dx.n && m2.d == vo.d * dx.d);
        let vel = rat_div(m2, dt);
        if dx.n >= 0 {
            assert(vo.n * ((v0.d * dx.n) * dt.d) == ((v0.n * dx.d) * dt.n) * vo.d);
        } else {
            assert(vo.n * ((-(v0.d * dx.n)) * dt.d) == ((-(v0.n * dx.d)) * dt.n) * vo.d);
            assert(vo.n * ((-(v0.d * dx.n)) * dt.d) == -(vo.n * ((v0.d * dx.n) * dt.d)))
                by (nonlinear_arith);
            assert(((-(v0.n * dx.d)) * dt.n) * vo.d == -(((v0.n * dx.d) * dt.n) * vo.d))
                by (nonlinear_arith);
            assert(vo.n * ((v0.d * dx.n) * dt.d) == ((v0.n * dx.d) * dt.n) * vo.d);
        }
        assert((vo.n * dx.n) * dt.d * v0.d == v0.n * ((vo.d * dx.d) * dt.n)) by (nonlinear_arith)
            requires
                vo.n * ((v0.d * dx.n) * dt.d) == ((v0.n * dx.d) * dt.n) * vo.d,
        ;
        if dt.n >= 0 {
            assert(vel.n == m2.n * dt.d && vel.d == m2.d * dt.n);
            assert(vel.n * v0.d == v0.n * vel.d) by (nonlinear_arith)
                requires
                    vel.n == (vo.n * dx.n) * dt.d,
                    vel.d == (vo.d * dx.d) * dt.n,
                    (vo.n * dx.n) * dt.d * v0.d == v0.n * ((vo.d * dx.d) * dt.n),
            ;
        } else {
            assert(vel.n == -(m2.n * dt.d) && vel.d == -(m2.d * dt.n));
            assert(vel.n * v0.d == v0.n * vel.d) by (nonlinear_arith)
                requires
                    vel.n == -((vo.n * dx.n) * dt.d),
                    vel.d == -((vo.d * dx.d) * dt.n),
                    (vo.n * dx.n) * dt.d * v0.d == v0.n * ((vo.d * dx.d) * dt.n),
            ;
        }
        assert(rat_eq(vel, v0));
    }
}

/// Queried at the end time, a transition reports its end value and is at
/// rest.
pub proof fn lemma_ease_at_end(sv: Rat, ev: Rat, s: Rat, et: Rat, v0: Rat)
    requires
        rat_wf(sv),
        rat_wf(ev),
        rat_wf(s),
        rat_wf(et),
        rat_wf(v0),
        rat_sub(et, s).n != 0,
    ensures
        rat_eq(spec_ease_value(sv, ev, Some(s), et, et, v0), ev),
        rat_eq(spec_ease_velocity(sv, ev, Some(s), et, et, v0), rat_of_int(0)),
{
    if rat_eq(sv, ev) {
        assert(rat_eq(spec_ease_value(sv, ev, Some(s), et, et, v0), ev));
    } else {
        let dt = rat_sub(et, s);
        let dx = rat_sub(ev, sv);
        assert(dt.d == et.d * s.d);
        assert(et.d * s.d > 0) by (nonlinear_arith)
            requires
                et.d > 0,
                s.d > 0,
        ;
        let nt = spec_norm_time(s, et, et);
        assert(nt == rat_div(dt, dt));
        assert(nt.n == nt.d && nt.d > 0) by {
            if dt.n >= 0 {
                assert(nt.n == dt.n * dt.d && nt.d == dt.d * dt.n);
                assert(dt.n * dt.d == dt.d * dt.n && dt.d * dt.n > 0) by (nonlinear_arith)
                    requires
                        dt.n > 0,
                        dt.d > 0,
                ;
            } else {
                assert(nt.n == -(dt.n * dt.d) && nt.d == -(dt.d * dt.n));
                assert(dt.n * dt.d == dt.d * dt.n && -(dt.d * dt.n) > 0) by (nonlinear_arith)
                    requires
                        dt.n < 0,
                        dt.d > 0,
                ;
            }
        }
        assert(dx.d == ev.d * sv.d);
        assert(ev.d * sv.d > 0) by (nonlinear_arith)
            requires
                ev.d > 0,
                sv.d > 0,
        ;
        let iv = rat_div(v0, dx);
        assert(iv.d > 0) by {
            if dx.n >= 0 {
                assert(iv.d == v0.d * dx.n);
                assert(v0.d * dx.n > 0) by (nonlinear_arith)
                    requires
                        v0.d > 0,
                        dx.n > 0,
                ;
            } else {
                assert(iv.d == -(v0.d * dx.n));
                assert(-(v0.d * dx.n) > 0) by (nonlinear_arith)
                    requires
                        v0.d > 0,
                        dx.n < 0,
                ;
            }
        }
        let nv = spec_norm_vel(sv, ev, s, et, v0);
        assert(nv == rat_mul(iv, dt));
        assert(nv.d == iv.d * dt.d);
        assert(iv.d * dt.d > 0) by (nonlinear_arith)
            requires
                iv.d > 0,
                dt.d > 0,
        ;
        let po = if rat_lt(rat_of_int(2), nv) {
            spec_linear_pos(nt, nv)
        } else {
            spec_parab_pos(nt, nv)
        };
        let vo = if rat_lt(rat_of_int(2), nv) {
            spec_linear_vel(nt, nv)
        } else {
            spec_parab_vel(nt, nv)
        };
        if rat_lt(rat_of_int(2), nv) {
            lemma_linear_at_one(nt, nv);
        } else {
            assert(rat_le(rat_of_int(1), nt));
            assert(po == rat_of_int(1));
            assert(vo == rat_of_int(0));
        }
        assert(po.n * 1 == 1 * po.d);
        assert(po.n == po.d);
        assert(vo.n * 1 == 0 * vo.d);
        assert(vo.n == 0);
        // value: sv plus the whole displacement is ev
        let m1 = rat_mul(po, dx);
        let val = rat_add(sv, m1);
        assert(m1.n == po.n * dx.n && m1.d == po.d * dx.d);
        assert(m1.n == po.d * (ev.n * sv.d - sv.n * ev.d)) by (nonlinear_arith)
            requires
                m1.n == po.n * dx.n,
                po.n == po.d,
                dx.n == ev.n * sv.d - sv.n * ev.d,
        ;
        assert(m1.d == po.d * (ev.d * sv.d)) by (nonlinear_arith)
            requires
                m1.d == po.d * dx.d,
                dx.d == ev.d * sv.d,
        ;
        assert(po.d * (ev.n * sv.d - sv.n * ev.d) == po.d * (ev.n * sv.d) - po.d * (sv.n * ev.d))
            by (nonlinear_arith);
        assert((po.d * (ev.n * sv.d - sv.n * ev.d)) * sv.d == (po.d * (ev.n * sv.d) - po.d * (sv.n
            * ev.d)) * sv.d);
        assert((po.d * (ev.n * sv.d) - po.d * (sv.n * ev.d)) * sv.d == (po.d * (ev.n * sv.d))
            * sv.d - (po.d * (sv.n * ev.d)) * sv.d) by (nonlinear_arith);
        assert((po.d * (ev.n * sv.d)) * sv.d == po.d * (ev.n * (sv.d * sv.d))) by (nonlinear_arith);
        assert((po.d * (sv.n * ev.d)) * sv.d == sv.n * (po.d * (ev.d * sv.d))) by (nonlinear_arith);
        assert(sv.n * (po.d * (ev.d * sv.d)) + (po.d * (ev.n * sv.d - sv.n * ev.d)) * sv.d == po.d
            * (ev.n * (sv.d * sv.d)));
        assert((po.d * (ev.n * (sv.d * sv.d))) * ev.d == ev.n * (sv.d * (po.d * (ev.d * sv.d))))
            by (nonlinear_arith);
        assert((sv.n * m1.d + m1.n * sv.d) * ev.d == ev.n * (sv.d * m1.d));
        assert(rat_eq(val, ev));
        // velocity: zero times anything stays zero
        let m2 = rat_mul(vo, dx);
        assert(m2.n == vo.n * dx.n);
        assert(vo.n * dx.n == 0) by (nonlinear_arith)
            requires
                vo.n == 0,
        ;
        let vel = rat_div(m2, dt);
        assert(vel.n == 0) by {
            if dt.n >= 0 {
                assert(vel.n == m2.n * dt.d);
                assert(m2.n * dt.d == 0) by (nonlinear_arith)
                    requires
                        m2.n == 0,
                ;
            } else {
                assert(vel.n == -(m2.n * dt.d));
                assert(m2.n * dt.d == 0) by (nonlinear_arith)
                    requires
                        m2.n == 0,
                ;
            }
        }
        assert(rat_eq(vel, rat_of_int(0)));
    }
}

} // verus!
