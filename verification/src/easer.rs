//! Stateful interruptible easer: holds the current segment's boundary
//! conditions, retargets by sampling the in-flight value and velocity so that
//! both stay continuous across retargeting events.

use vstd::prelude::*;
use crate::rat::{Rat, Ratio, rat_wf, rat_eq, rat_of_int, rat_add, add_fits};
use crate::evaluator::{
    opt_view, opt_wf, ease_req, spec_ease_value, spec_ease_velocity, ease, ease_val_vel,
    lemma_ease_at_start,
};

verus! {

/// End time of the segment: the stored start time plus the supplied duration;
/// before any transition there is no segment and the value is unused.
pub open spec fn spec_end_time(st: Option<Rat>, ct: Rat, dur: Rat) -> Rat {
    match st {
        Option::Some(s) => rat_add(s, dur),
        Option::None => ct,
    }
}

/// Value the easer reports at `ct` when queried with duration `dur`.
pub open spec fn spec_easer_value(sv: Rat, ev: Rat, st: Option<Rat>, v0: Rat, ct: Rat, dur: Rat) -> Rat {
    spec_ease_value(sv, ev, st, spec_end_time(st, ct, dur), ct, v0)
}

pub struct InterruptableEaser {
    pub start_value: Ratio,
    pub end_value: Ratio,
    pub start_time: Option<Ratio>,
    pub start_velocity: Ratio,
}

impl InterruptableEaser {
    pub open spec fn wf(self) -> bool {
        &&& self.start_value.wf()
        &&& self.end_value.wf()
        &&& opt_wf(opt_view(self.start_time))
        &&& self.start_velocity.wf()
    }

    /// A resting easer holding value `v`: no transition has begun and the
    /// velocity is zero.
    pub fn new(v: Ratio) -> (e: Self)
        requires
            v.wf(),
        ensures
            e.wf(),
            e.start_value == v,
            e.end_value == v,
            e.start_time is None,
            e.start_velocity@ == rat_of_int(0),
    {
        InterruptableEaser {
            start_value: v,
            end_value: v,
            start_time: None,
            start_velocity: Ratio::of_i64(0),
        }
    }

    /// Begins the approach towards `v`: samples the current segment's value
    /// and velocity at `current_time` and makes them the new segment's start
    /// conditions, so the motion stays continuous.
    pub fn approach(&mut self, v: Ratio, current_time: Ratio, transition_duration: Ratio)
        requires
            old(self).wf(),
            v.wf(),
            current_time.wf(),
            transition_duration.wf(),
            match old(self).start_time {
                Option::Some(s) => add_fits(s@, transition_duration@),
                Option::None => true,
            },
            ease_req(
                old(self).start_value@,
                old(self).end_value@,
                opt_view(old(self).start_time),
                spec_end_time(opt_view(old(self).start_time), current_time@, transition_duration@),
                current_time@,
                old(self).start_velocity@,
            ),
        ensures
            final(self).wf(),
            final(self).end_value == v,
            final(self).start_time == Some(current_time),
            rat_eq(
                final(self).start_value@,
                spec_ease_value(
                    old(self).start_value@,
                    old(self).end_value@,
                    opt_view(old(self).start_time),
                    spec_end_time(
                        opt_view(old(self).start_time),
                        current_time@,
                        transition_duration@,
                    ),
                    current_time@,
                    old(self).start_velocity@,
                ),
            ),
            rat_eq(
                final(self).start_velocity@,
                spec_ease_velocity(
                    old(self).start_value@,
                    old(self).end_value@,
                    opt_view(old(self).start_time),
                    spec_end_time(
                        opt_view(old(self).start_time),
                        current_time@,
                        transition_duration@,
                    ),
                    current_time@,
                    old(self).start_velocity@,
                ),
            ),
    {
        let et = match self.start_time {
            Some(s) => s.add(transition_duration),
            None => current_time,
        };
        let (sampled_value, sampled_velocity) = ease_val_vel(
            self.start_value,
            self.end_value,
            self.start_time,
            et,
            current_time,
            self.start_velocity,
        );
        self.start_value = sampled_value.reduce();
        self.start_velocity = sampled_velocity.reduce();
        self.start_time = Some(current_time);
        self.end_value = v;
    }

    /// The value as it would be at `current_time`; read-only.
    pub fn v(&self, current_time: Ratio, transition_duration: Ratio) -> (r: Ratio)
        requires
            self.wf(),
            current_time.wf(),
            transition_duration.wf(),
            match self.start_time {
                Option::Some(s) => add_fits(s@, transition_duration@),
                Option::None => true,
            },
            ease_req(
                self.start_value@,
                self.end_value@,
                opt_view(self.start_time),
                spec_end_time(opt_view(self.start_time), current_time@, transition_duration@),
                current_time@,
                self.start_velocity@,
            ),
        ensures
            r.wf(),
            r@ == spec_easer_value(
                self.start_value@,
                self.end_value@,
                opt_view(self.start_time),
                self.start_velocity@,
                current_time@,
                transition_duration@,
            ),
    {
        let et = match self.start_time {
            Some(s) => s.add(transition_duration),
            None => current_time,
        };
        ease(
            self.start_value,
            self.end_value,
            self.start_time,
            et,
            current_time,
            self.start_velocity,
        )
    }
}

/// A freshly constructed easer reports its initial value at every time and
/// with every duration, until `approach` is called.
pub proof fn lemma_rest_state(v: Rat, ct: Rat, dur: Rat)
    ensures
        spec_easer_value(v, v, Option::None, rat_of_int(0), ct, dur) == v,
{
}

/// Continuity under interruption: a segment whose start conditions are the
/// value and velocity sampled at `now` reproduces exactly that value at
/// `now`, and — except when the sampled value already equals the new target,
/// where the degenerate transition reports velocity zero — exactly that
/// velocity as well. Since `approach` stores the sampled pair, retargeting is
/// free of jumps in value and velocity.
pub proof fn lemma_approach_continuity(sampled_v: Rat, sampled_w: Rat, target: Rat, now: Rat, dur: Rat)
    requires
        rat_wf(sampled_v),
        rat_wf(sampled_w),
        rat_wf(target),
        rat_wf(now),
        rat_wf(dur),
        dur.n != 0,
    ensures
        rat_eq(
            spec_ease_value(sampled_v, target, Some(now), rat_add(now, dur), now, sampled_w),
            sampled_v,
        ),
        !rat_eq(sampled_v, target) ==> rat_eq(
            spec_ease_velocity(sampled_v, target, Some(now), rat_add(now, dur), now, sampled_w),
            sampled_w,
        ),
{
    let et = rat_add(now, dur);
    assert(et.d == now.d * dur.d);
    assert(now.d * dur.d > 0) by (nonlinear_arith)
        requires
            now.d > 0,
            dur.d > 0,
    ;
    assert(rat_add(now, dur).n == now.n * dur.d + dur.n * now.d);
    assert((now.n * dur.d + dur.n * now.d) * now.d - now.n * (now.d * dur.d) == dur.n * (now.d
        * now.d)) by (nonlinear_arith);
    assert(dur.n * (now.d * now.d) != 0) by (nonlinear_arith)
        requires
            dur.n != 0,
            now.d > 0,
    ;
    lemma_ease_at_start(sampled_v, target, now, et, sampled_w);
}

} // verus!
