//! Normalized curve primitives on the unit domain: position and velocity of
//! the linear-acceleration (cubic) ease and of the two-segment
//! constant-acceleration (parabolic) ease with a given initial velocity.

use vstd::prelude::*;
use crate::rat::{
    Rat, Ratio, rat_wf, rat_eq, rat_le, rat_lt, rat_of_int, rat_add, rat_sub, rat_mul, rat_neg,
    rat_div, fits, add_fits, mul_fits, div_fits, cmp_fits, lemma_div_mul_cancel,
};
use crate::sqrt::{is_isqrt, sqrt_floor, sqrt_ceil, lemma_isqrt_unique, lemma_isqrt_exists, isqrt_ceil};

verus! {

/// Denominator scale of the approximated square root in the curvature
/// parameter.
pub const ROOT_SCALE: i128 = 1024;

// ---------------------------------------------------------------------------
// Linear-acceleration (cubic) primitives: position t*(t*((v-2)*t + (3-2v)) + v)
// and velocity t*((3v-6)*t + (6-4v)) + v.
// ---------------------------------------------------------------------------

pub open spec fn spec_linear_pos(t: Rat, v: Rat) -> Rat {
    rat_mul(
        t,
        rat_add(
            rat_mul(
                t,
                rat_add(
                    rat_mul(rat_sub(v, rat_of_int(2)), t),
                    rat_sub(rat_of_int(3), rat_mul(rat_of_int(2), v)),
                ),
            ),
            v,
        ),
    )
}

pub open spec fn spec_linear_vel(t: Rat, v: Rat) -> Rat {
    rat_add(
        rat_mul(
            t,
            rat_add(
                rat_mul(rat_sub(rat_mul(rat_of_int(3), v), rat_of_int(6)), t),
                rat_sub(rat_of_int(6), rat_mul(rat_of_int(4), v)),
            ),
        ),
        v,
    )
}

pub open spec fn linear_pos_fits(t: Rat, v: Rat) -> bool {
    let a = rat_sub(v, rat_of_int(2));
    let b = rat_mul(a, t);
    let c = rat_mul(rat_of_int(2), v);
    let e = rat_sub(rat_of_int(3), c);
    let f = rat_add(b, e);
    let g = rat_mul(t, f);
    let k = rat_add(g, v);
    &&& add_fits(v, rat_of_int(2))
    &&& mul_fits(a, t)
    &&& mul_fits(rat_of_int(2), v)
    &&& add_fits(rat_of_int(3), c)
    &&& add_fits(b, e)
    &&& mul_fits(t, f)
    &&& add_fits(g, v)
    &&& mul_fits(t, k)
}

pub open spec fn linear_vel_fits(t: Rat, v: Rat) -> bool {
    let a = rat_mul(rat_of_int(3), v);
    let b = rat_sub(a, rat_of_int(6));
    let c = rat_mul(b, t);
    let e = rat_mul(rat_of_int(4), v);
    let f = rat_sub(rat_of_int(6), e);
    let g = rat_add(c, f);
    let k = rat_mul(t, g);
    &&& mul_fits(rat_of_int(3), v)
    &&& add_fits(a, rat_of_int(6))
    &&& mul_fits(b, t)
    &&& mul_fits(rat_of_int(4), v)
    &&& add_fits(rat_of_int(6), e)
    &&& add_fits(c, f)
    &&& mul_fits(t, g)
    &&& add_fits(k, v)
}

/// Cubic ease position on the normalized domain.
pub fn linear_position(t: Ratio, v: Ratio) -> (r: Ratio)
    requires
        t.wf(),
        v.wf(),
        linear_pos_fits(t@, v@),
    ensures
        r.wf(),
        r@ == spec_linear_pos(t@, v@),
{
    let two = Ratio::of_i64(2);
    let three = Ratio::of_i64(3);
    let a = v.sub(two);
    let b = a.mul(t);
    let c = two.mul(v);
    let e = three.sub(c);
    let f = b.add(e);
    let g = t.mul(f);
    let k = g.add(v);
    t.mul(k)
}

/// Cubic ease velocity on the normalized domain; the formal derivative of
/// `linear_position` in `t`.
pub fn linear_velocity(t: Ratio, v: Ratio) -> (r: Ratio)
    requires
        t.wf(),
        v.wf(),
        linear_vel_fits(t@, v@),
    ensures
        r.wf(),
        r@ == spec_linear_vel(t@, v@),
{
    let three = Ratio::of_i64(3);
    let four = Ratio::of_i64(4);
    let six = Ratio::of_i64(6);
    let a = three.mul(v);
    let b = a.sub(six);
    let c = b.mul(t);
    let e = four.mul(v);
    let f = six.sub(e);
    let g = c.add(f);
    let k = t.mul(g);
    k.add(v)
}

// ---------------------------------------------------------------------------
// Constant-acceleration (two-segment parabolic) primitives.
// ---------------------------------------------------------------------------

/// Parameters of the two-segment parabola: curvature `m`, vertex `(ax, ay)` of
/// the first segment, joint time `h`.
pub ghost struct ParamsSpec {
    pub m: Rat,
    pub ax: Rat,
    pub ay: Rat,
    pub h: Rat,
}

/// Numerator of the discriminant `2 v^2 - 4 v + 4` over denominator `v.d^2`.
pub open spec fn disc_num(v: Rat) -> int {
    2 * (v.n * v.n) - 4 * (v.n * v.d) + 4 * (v.d * v.d)
}

/// Rounded-up square root of the discriminant numerator at scale `ROOT_SCALE`.
pub open spec fn root_scaled(v: Rat) -> int {
    sqrt_ceil(disc_num(v) * (ROOT_SCALE as int) * (ROOT_SCALE as int))
}

/// Curvature `(2 - v +/- sqrt(2 v^2 - 4 v + 4)) / 2`, the sign chosen positive
/// exactly when `v < 2`.
pub open spec fn spec_m(v: Rat) -> Rat {
    if rat_lt(v, rat_of_int(2)) {
        Rat {
            n: (2 * v.d - v.n) * (ROOT_SCALE as int) + root_scaled(v),
            d: (2 * v.d) * (ROOT_SCALE as int),
        }
    } else {
        Rat {
            n: (2 * v.d - v.n) * (ROOT_SCALE as int) - root_scaled(v),
            d: (2 * v.d) * (ROOT_SCALE as int),
        }
    }
}

/// Derived parameters: `ax = -v/(2m)`, `ay = v*ax/2`, `h = (ax+1)/2`.
pub open spec fn spec_params(v: Rat) -> ParamsSpec {
    let m = spec_m(v);
    let ax = rat_div(rat_neg(v), rat_mul(rat_of_int(2), m));
    let ay = rat_div(rat_mul(v, ax), rat_of_int(2));
    let h = rat_div(rat_add(ax, rat_of_int(1)), rat_of_int(2));
    ParamsSpec { m: m, ax: ax, ay: ay, h: h }
}

/// Parabolic ease position: clamped to 1 from `t >= 1`, first parabola with
/// vertex `(ax, ay)` before the joint, mirrored parabola with vertex `(1, 1)`
/// after it.
pub open spec fn spec_parab_pos(t: Rat, v: Rat) -> Rat {
    if rat_le(rat_of_int(1), t) {
        rat_of_int(1)
    } else {
        let p = spec_params(v);
        if rat_lt(t, p.h) {
            rat_add(rat_mul(p.m, rat_mul(rat_sub(t, p.ax), rat_sub(t, p.ax))), p.ay)
        } else {
            rat_sub(
                rat_of_int(1),
                rat_mul(p.m, rat_mul(rat_sub(t, rat_of_int(1)), rat_sub(t, rat_of_int(1)))),
            )
        }
    }
}

/// Parabolic ease velocity: 0 from `t >= 1`, `2m(t-ax)` before the joint,
/// `2m(1-t)` after it.
pub open spec fn spec_parab_vel(t: Rat, v: Rat) -> Rat {
    if rat_le(rat_of_int(1), t) {
        rat_of_int(0)
    } else {
        let p = spec_params(v);
        if rat_lt(t, p.h) {
            rat_mul(rat_mul(rat_of_int(2), p.m), rat_sub(t, p.ax))
        } else {
            rat_mul(rat_mul(rat_of_int(2), p.m), rat_sub(rat_of_int(1), t))
        }
    }
}

/// Executable curve parameters; mirrors `ParamsSpec`.
#[derive(Clone, Copy)]
pub struct CurveParams {
    pub m: Ratio,
    pub ax: Ratio,
    pub ay: Ratio,
    pub h: Ratio,
}

impl View for CurveParams {
    type V = ParamsSpec;

    open spec fn view(&self) -> ParamsSpec {
        ParamsSpec { m: self.m@, ax: self.ax@, ay: self.ay@, h: self.h@ }
    }
}

pub open spec fn params_fits(v: Rat) -> bool {
    let q = ROOT_SCALE as int;
    let dn = disc_num(v);
    let s = root_scaled(v);
    let m = spec_m(v);
    let ax = rat_div(rat_neg(v), rat_mul(rat_of_int(2), m));
    let ay0 = rat_mul(v, ax);
    &&& fits(v.n * v.n)
    &&& fits(v.n * v.d)
    &&& fits(v.d * v.d)
    &&& fits(2 * (v.n * v.n))
    &&& fits(4 * (v.n * v.d))
    &&& fits(2 * (v.n * v.n) - 4 * (v.n * v.d))
    &&& fits(4 * (v.d * v.d))
    &&& fits(dn)
    &&& fits(dn * q)
    &&& fits(dn * q * q)
    &&& fits(2 * v.d)
    &&& fits(2 * v.d - v.n)
    &&& fits((2 * v.d - v.n) * q)
    &&& fits((2 * v.d - v.n) * q + s)
    &&& fits((2 * v.d - v.n) * q - s)
    &&& fits((2 * v.d) * q)
    &&& fits(-v.n)
    &&& mul_fits(rat_of_int(2), m)
    &&& div_fits(rat_neg(v), rat_mul(rat_of_int(2), m))
    &&& mul_fits(v, ax)
    &&& div_fits(ay0, rat_of_int(2))
    &&& add_fits(ax, rat_of_int(1))
    &&& div_fits(rat_add(ax, rat_of_int(1)), rat_of_int(2))
}

/// Shape facts about the parameters for a normalized velocity at most 2: the
/// curvature is nonzero (positive below 2, negative at 2), all denominators
/// are positive, and the joint time is strictly positive.
pub proof fn lemma_params_wf(v: Rat)
    requires
        rat_wf(v),
        rat_le(v, rat_of_int(2)),
    ensures
        disc_num(v) >= 2,
        disc_num(v) * (ROOT_SCALE as int) * (ROOT_SCALE as int) >= 0,
        root_scaled(v) >= 1,
        spec_m(v).d > 0,
        spec_m(v).n != 0,
        rat_lt(v, rat_of_int(2)) ==> spec_m(v).n > 0,
        !rat_lt(v, rat_of_int(2)) ==> spec_m(v).n < 0,
        rat_wf(spec_params(v).ax),
        rat_wf(spec_params(v).ay),
        rat_wf(spec_params(v).h),
        spec_params(v).h.n > 0,
{
    let q = ROOT_SCALE as int;
    let vn = v.n;
    let vd = v.d;
    let dn = disc_num(v);
    assert(dn >= 2) by (nonlinear_arith)
        requires
            vd >= 1,
            dn == 2 * (vn * vn) - 4 * (vn * vd) + 4 * (vd * vd),
    ;
    assert(dn * q * q >= 2 * q * q && 2 * q * q > 0) by (nonlinear_arith)
        requires
            dn >= 2,
            q == 1024,
    ;
    lemma_isqrt_exists(dn * q * q);
    let f = sqrt_floor(dn * q * q);
    let s = root_scaled(v);
    assert(s == sqrt_ceil(dn * q * q));
    assert(s >= f && s * s >= dn * q * q && f * f <= dn * q * q) by {
        if f * f == dn * q * q {
            assert(s == f);
        } else {
            assert(s == f + 1);
            assert((f + 1) * (f + 1) > dn * q * q);
        }
    }
    assert(s >= 1) by {
        if f == 0 {
            assert(f * f == 0) by (nonlinear_arith)
                requires
                    f == 0,
            ;
            assert(s == f + 1);
        }
    }
    assert(spec_m(v).d == (2 * vd) * q);
    assert((2 * vd) * q > 0) by (nonlinear_arith)
        requires
            vd >= 1,
            q == 1024,
    ;
    if rat_lt(v, rat_of_int(2)) {
        // vn < 2 vd, curvature numerator (2vd - vn) q + s is positive
        assert(vn < 2 * vd);
        assert((2 * vd - vn) * q >= q) by (nonlinear_arith)
            requires
                2 * vd - vn >= 1,
                q == 1024,
        ;
        assert(spec_m(v).n == (2 * vd - vn) * q + s);
        assert(spec_m(v).n > 0);
        let mn = spec_m(v).n;
        let md = spec_m(v).d;
        // ax = (-vn * md) / (vd * (2 mn)), positive denominator
        let b = rat_mul(rat_of_int(2), spec_m(v));
        assert(b.n == 2 * mn && b.d == 1 * md);
        assert(b.n > 0);
        let ax = spec_params(v).ax;
        assert(ax.n == (-vn) * (1 * md) && ax.d == vd * (2 * mn));
        assert(vd * (2 * mn) > 0) by (nonlinear_arith)
            requires
                vd >= 1,
                mn > 0,
        ;
        assert(rat_wf(ax));
        let ay = spec_params(v).ay;
        assert(ay.d == (vd * ax.d) * 2);
        assert((vd * ax.d) * 2 > 0) by (nonlinear_arith)
            requires
                vd >= 1,
                ax.d > 0,
        ;
        let h = spec_params(v).h;
        assert(h.n == (ax.n * 1 + 1 * ax.d) * 1 && h.d == (ax.d * 1) * 2);
        assert(h.d > 0);
        // h.n == 2 vd ((2vd - 2vn) q + s) > 0
        assert(h.n == ax.n + ax.d);
        assert(ax.n + ax.d == 2 * vd * mn - vn * md) by (nonlinear_arith)
            requires
                ax.n == (-vn) * (1 * md),
                ax.d == vd * (2 * mn),
        ;
        assert(2 * vd * mn - vn * md == 2 * vd * ((2 * vd - 2 * vn) * q + s)) by (nonlinear_arith)
            requires
                mn == (2 * vd - vn) * q + s,
                md == (2 * vd) * q,
        ;
        if vn <= vd {
            assert((2 * vd - 2 * vn) * q >= 0) by (nonlinear_arith)
                requires
                    2 * vd - 2 * vn >= 0,
                    q == 1024,
            ;
            assert((2 * vd - 2 * vn) * q + s > 0);
        } else {
            let w = vn - vd;
            assert(w >= 1);
            assert(dn - 4 * (w * w) == 2 * vn * (2 * vd - vn)) by (nonlinear_arith)
                requires
                    w == vn - vd,
                    dn == 2 * (vn * vn) - 4 * (vn * vd) + 4 * (vd * vd),
            ;
            assert(2 * vn * (2 * vd - vn) > 0) by (nonlinear_arith)
                requires
                    vn >= 2,
                    2 * vd - vn >= 1,
            ;
            assert(s * s > (2 * w * q) * (2 * w * q)) by (nonlinear_arith)
                requires
                    s * s >= dn * q * q,
                    dn > 4 * (w * w),
                    q == 1024,
            ;
            assert(s > 2 * w * q) by (nonlinear_arith)
                requires
                    s * s > (2 * w * q) * (2 * w * q),
                    s >= 0,
                    w >= 1,
                    q == 1024,
            ;
            assert((2 * vd - 2 * vn) * q + s == s - 2 * w * q) by (nonlinear_arith)
                requires
                    w == vn - vd,
                    q == 1024,
            ;
            assert((2 * vd - 2 * vn) * q + s > 0);
        }
        assert(2 * vd * ((2 * vd - 2 * vn) * q + s) > 0) by (nonlinear_arith)
            requires
                vd >= 1,
                (2 * vd - 2 * vn) * q + s > 0,
        ;
        assert(h.n > 0);
    } else {
        // v equals 2 exactly: vn == 2 vd, the root is exact and m is -1
        assert(vn == 2 * vd);
        assert(dn == 4 * (vd * vd)) by (nonlinear_arith)
            requires
                vn == 2 * vd,
                dn == 2 * (vn * vn) - 4 * (vn * vd) + 4 * (vd * vd),
        ;
        assert(is_isqrt(dn * q * q, 2 * vd * q)) by (nonlinear_arith)
            requires
                dn == 4 * (vd * vd),
                vd >= 1,
                q == 1024,
        ;
        lemma_isqrt_unique(dn * q * q, f, 2 * vd * q);
        assert(f == 2 * vd * q);
        assert(f * f == dn * q * q) by (nonlinear_arith)
            requires
                f == 2 * vd * q,
                dn == 4 * (vd * vd),
        ;
        assert(s == f);
        let mn = spec_m(v).n;
        let md = spec_m(v).d;
        assert(mn == (2 * vd - vn) * q - s);
        assert(mn == -(2 * vd * q)) by (nonlinear_arith)
            requires
                mn == (2 * vd - vn) * q - s,
                vn == 2 * vd,
                s == 2 * vd * q,
        ;
        assert(2 * vd * q > 0) by (nonlinear_arith)
            requires
                vd >= 1,
                q == 1024,
        ;
        assert(mn < 0);
        let b = rat_mul(rat_of_int(2), spec_m(v));
        assert(b.n == 2 * mn && b.d == 1 * md);
        assert(b.n < 0);
        let ax = spec_params(v).ax;
        assert(ax.n == -((-vn) * (1 * md)) && ax.d == -(vd * (2 * mn)));
        assert(-(vd * (2 * mn)) > 0) by (nonlinear_arith)
            requires
                vd >= 1,
                mn < 0,
        ;
        assert(rat_wf(ax));
        assert(ax.n == vn * md) by (nonlinear_arith)
            requires
                ax.n == -((-vn) * (1 * md)),
        ;
        assert(ax.n > 0) by (nonlinear_arith)
            requires
                ax.n == vn * md,
                vn == 2 * vd,
                vd >= 1,
                md > 0,
        ;
        let ay = spec_params(v).ay;
        assert(ay.d == (vd * ax.d) * 2);
        assert((vd * ax.d) * 2 > 0) by (nonlinear_arith)
            requires
                vd >= 1,
                ax.d > 0,
        ;
        let h = spec_params(v).h;
        assert(h.n == (ax.n * 1 + 1 * ax.d) * 1 && h.d == (ax.d * 1) * 2);
        assert(h.d > 0);
        assert(h.n == ax.n + ax.d);
        assert(h.n > 0);
    }
}

/// Computes the curve parameters for a normalized velocity at most 2.
pub fn solve_params(v: Ratio) -> (p: CurveParams)
    requires
        v.wf(),
        rat_le(v@, rat_of_int(2)),
        params_fits(v@),
    ensures
        p.m.wf(),
        p.ax.wf(),
        p.ay.wf(),
        p.h.wf(),
        p@ == spec_params(v@),
{
    proof {
        lemma_params_wf(v@);
    }
    let t1 = v.num * v.num;
    let t2 = v.num * v.den;
    let t3 = v.den * v.den;
    let dn = 2 * t1 - 4 * t2 + 4 * t3;
    assert(dn as int == disc_num(v@));
    let scaled = dn * ROOT_SCALE * ROOT_SCALE;
    assert(scaled as int == disc_num(v@) * (ROOT_SCALE as int) * (ROOT_SCALE as int));
    assert(scaled >= 0);
    let s_u = isqrt_ceil(scaled as u128);
    let s: i128 = s_u as i128;
    assert(s as int == root_scaled(v@));
    let two = Ratio::of_i64(2);
    let m = if v.lt(two) {
        Ratio { num: (2 * v.den - v.num) * ROOT_SCALE + s, den: (2 * v.den) * ROOT_SCALE }
    } else {
        Ratio { num: (2 * v.den - v.num) * ROOT_SCALE - s, den: (2 * v.den) * ROOT_SCALE }
    };
    assert(m@ == spec_m(v@));
    let b = two.mul(m);
    let ax = v.neg().div(b);
    let ay = v.mul(ax).div(two);
    let one = Ratio::of_i64(1);
    let h = ax.add(one).div(two);
    CurveParams { m: m, ax: ax, ay: ay, h: h }
}

pub open spec fn parab_pos_fits(t: Rat, v: Rat) -> bool {
    let p = spec_params(v);
    let d1 = rat_sub(t, p.ax);
    let s1 = rat_mul(d1, d1);
    let a1 = rat_mul(p.m, s1);
    let d2 = rat_sub(t, rat_of_int(1));
    let s2 = rat_mul(d2, d2);
    let a2 = rat_mul(p.m, s2);
    &&& cmp_fits(rat_of_int(1), t)
    &&& cmp_fits(t, p.h)
    &&& add_fits(t, p.ax)
    &&& mul_fits(d1, d1)
    &&& mul_fits(p.m, s1)
    &&& add_fits(a1, p.ay)
    &&& add_fits(t, rat_of_int(1))
    &&& mul_fits(d2, d2)
    &&& mul_fits(p.m, s2)
    &&& add_fits(rat_of_int(1), a2)
}

pub open spec fn parab_vel_fits(t: Rat, v: Rat) -> bool {
    let p = spec_params(v);
    let m2 = rat_mul(rat_of_int(2), p.m);
    let d1 = rat_sub(t, p.ax);
    let d2 = rat_sub(rat_of_int(1), t);
    &&& cmp_fits(rat_of_int(1), t)
    &&& cmp_fits(t, p.h)
    &&& mul_fits(rat_of_int(2), p.m)
    &&& add_fits(t, p.ax)
    &&& mul_fits(m2, d1)
    &&& add_fits(rat_of_int(1), t)
    &&& mul_fits(m2, d2)
}

/// Parabolic ease position on the normalized domain.
pub fn parabolic_position(t: Ratio, v: Ratio, p: &CurveParams) -> (r: Ratio)
    requires
        t.wf(),
        v.wf(),
        p.m.wf(),
        p.ax.wf(),
        p.ay.wf(),
        p.h.wf(),
        p@ == spec_params(v@),
        parab_pos_fits(t@, v@),
    ensures
        r.wf(),
        r@ == spec_parab_pos(t@, v@),
{
    let one = Ratio::of_i64(1);
    if one.le(t) {
        one
    } else if t.lt(p.h) {
        let d1 = t.sub(p.ax);
        let s1 = d1.mul(d1);
        p.m.mul(s1).add(p.ay)
    } else {
        let d2 = t.sub(one);
        let s2 = d2.mul(d2);
        one.sub(p.m.mul(s2))
    }
}

/// Parabolic ease velocity on the normalized domain.
pub fn parabolic_velocity(t: Ratio, v: Ratio, p: &CurveParams) -> (r: Ratio)
    requires
        t.wf(),
        v.wf(),
        p.m.wf(),
        p.ax.wf(),
        p.ay.wf(),
        p.h.wf(),
        p@ == spec_params(v@),
        parab_vel_fits(t@, v@),
    ensures
        r.wf(),
        r@ == spec_parab_vel(t@, v@),
{
    let one = Ratio::of_i64(1);
    let two = Ratio::of_i64(2);
    if one.le(t) {
        Ratio::of_i64(0)
    } else {
        let m2 = two.mul(p.m);
        if t.lt(p.h) {
            m2.mul(t.sub(p.ax))
        } else {
            m2.mul(one.sub(t))
        }
    }
}

/// At the start of the normalized domain the cubic is at 0 and moves at the
/// requested initial velocity.
pub proof fn lemma_linear_at_start(t: Rat, v: Rat)
    requires
        rat_wf(t),
        rat_wf(v),
        t.n == 0,
    ensures
        rat_eq(spec_linear_pos(t, v), rat_of_int(0)),
        rat_eq(spec_linear_vel(t, v), v),
{
    let kp = rat_add(
        rat_mul(
            t,
            rat_add(
                rat_mul(rat_sub(v, rat_of_int(2)), t),
                rat_sub(rat_of_int(3), rat_mul(rat_of_int(2), v)),
            ),
        ),
        v,
    );
    let p = spec_linear_pos(t, v);
    assert(p == rat_mul(t, kp));
    assert(p.n == t.n * kp.n);
    assert(t.n * kp.n == 0) by (nonlinear_arith)
        requires
            t.n == 0,
    ;
    assert(p.n * 1 == 0 * p.d);
    assert(rat_eq(p, rat_of_int(0)));
    let g = rat_add(
        rat_mul(rat_sub(rat_mul(rat_of_int(3), v), rat_of_int(6)), t),
        rat_sub(rat_of_int(6), rat_mul(rat_of_int(4), v)),
    );
    let k = rat_mul(t, g);
    let w = spec_linear_vel(t, v);
    assert(w == rat_add(k, v));
    assert(k.n == t.n * g.n);
    assert(t.n * g.n == 0) by (nonlinear_arith)
        requires
            t.n == 0,
    ;
    assert(w.n == k.n * v.d + v.n * k.d);
    assert(k.n * v.d == 0) by (nonlinear_arith)
        requires
            k.n == 0,
    ;
    assert(w.n == v.n * k.d);
    assert(w.d == k.d * v.d);
    assert((v.n * k.d) * v.d == v.n * (k.d * v.d)) by (nonlinear_arith);
}

/// At the end of the normalized domain the cubic is at 1 and at rest.
pub proof fn lemma_linear_at_one(t: Rat, v: Rat)
    requires
        rat_wf(t),
        rat_wf(v),
        t.n == t.d,
    ensures
        rat_eq(spec_linear_pos(t, v), rat_of_int(1)),
        rat_eq(spec_linear_vel(t, v), rat_of_int(0)),
{
    let a = rat_sub(v, rat_of_int(2));
    let b = rat_mul(a, t);
    let c = rat_mul(rat_of_int(2), v);
    let e = rat_sub(rat_of_int(3), c);
    let f = rat_add(b, e);
    let g = rat_mul(t, f);
    let k = rat_add(g, v);
    let p = spec_linear_pos(t, v);
    assert(p == rat_mul(t, k));
    assert(p.n == t.n * k.n && p.d == t.d * k.d);
    assert(t.n * k.n == t.d * k.d) by (nonlinear_arith)
        requires
            t.n == t.d,
            k.n == g.n * v.d + v.n * g.d,
            k.d == g.d * v.d,
            g.n == t.n * f.n,
            g.d == t.d * f.d,
            f.n == b.n * v.d + (3 * v.d - 2 * v.n) * (v.d * t.d),
            f.d == (v.d * t.d) * v.d,
            b.n == (v.n - 2 * v.d) * t.n,
    ;
    assert(p.n * 1 == 1 * p.d);
    let a2 = rat_mul(rat_of_int(3), v);
    let b2 = rat_sub(a2, rat_of_int(6));
    let c2 = rat_mul(b2, t);
    let e2 = rat_mul(rat_of_int(4), v);
    let f2 = rat_sub(rat_of_int(6), e2);
    let g2 = rat_add(c2, f2);
    let k2 = rat_mul(t, g2);
    let w = spec_linear_vel(t, v);
    assert(w == rat_add(k2, v));
    assert(w.n == k2.n * v.d + v.n * k2.d);
    assert(k2.n * v.d + v.n * k2.d == 0) by (nonlinear_arith)
        requires
            t.n == t.d,
            k2.n == t.n * g2.n,
            k2.d == t.d * g2.d,
            g2.n == c2.n * v.d + (6 * v.d - 4 * v.n) * (v.d * t.d),
            g2.d == (v.d * t.d) * v.d,
            c2.n == (3 * v.n - 6 * v.d) * t.n,
    ;
    assert(w.n * 1 == 0 * w.d);
}

/// At the start of the normalized domain the parabolic curve is at 0 and
/// moves at the requested initial velocity, for any normalized velocity at
/// most 2.
pub proof fn lemma_parab_at_start(t: Rat, v: Rat)
    requires
        rat_wf(t),
        rat_wf(v),
        t.n == 0,
        rat_le(v, rat_of_int(2)),
    ensures
        rat_eq(spec_parab_pos(t, v), rat_of_int(0)),
        rat_eq(spec_parab_vel(t, v), v),
{
    lemma_params_wf(v);
    let p = spec_params(v);
    let mn = p.m.n;
    let md = p.m.d;
    let axn = p.ax.n;
    let axd = p.ax.d;
    let td = t.d;
    let vn = v.n;
    let vd = v.d;
    // not clamped, and before the joint
    assert(!rat_le(rat_of_int(1), t));
    assert(p.h.n * t.d > 0) by (nonlinear_arith)
        requires
            p.h.n > 0,
            t.d > 0,
    ;
    assert(rat_lt(t, p.h));
    // ax times 2m gives back -v
    let b = rat_mul(rat_of_int(2), p.m);
    assert(b.n == 2 * mn && b.d == 1 * md);
    assert(b.n != 0);
    lemma_div_mul_cancel(rat_neg(v), b);
    assert((axn * (2 * mn)) * vd == (-vn) * (axd * (1 * md)));
    assert(2 * axn * mn * vd == -(vn * (axd * md))) by (nonlinear_arith)
        requires
            (axn * (2 * mn)) * vd == (-vn) * (axd * (1 * md)),
    ;
    // position: m (t - ax)^2 + ay has numerator zero
    let d1 = rat_sub(t, p.ax);
    assert(d1.n == -(axn * td));
    assert(d1.d == td * axd);
    let sq = rat_mul(d1, d1);
    let ms = rat_mul(p.m, sq);
    let x = rat_add(ms, p.ay);
    assert(spec_parab_pos(t, v) == x);
    assert(p.ay.n == (vn * axn) * 1 && p.ay.d == (vd * axd) * 2);
    assert(x.n == ms.n * p.ay.d + p.ay.n * ms.d);
    assert(ms.n == mn * (d1.n * d1.n) && ms.d == md * (d1.d * d1.d));
    assert(mn * (d1.n * d1.n) == mn * ((axn * td) * (axn * td))) by (nonlinear_arith)
        requires
            d1.n == -(axn * td),
    ;
    assert(mn * ((axn * td) * (axn * td)) * ((vd * axd) * 2) == (2 * axn * mn * vd) * ((axn * (td
        * td)) * axd)) by (nonlinear_arith);
    assert(((vn * axn) * 1) * (md * ((td * axd) * (td * axd))) == (vn * (axd * md)) * ((axn * (td
        * td)) * axd)) by (nonlinear_arith);
    assert((2 * axn * mn * vd) * ((axn * (td * td)) * axd) + (vn * (axd * md)) * ((axn * (td * td))
        * axd) == 0) by (nonlinear_arith)
        requires
            2 * axn * mn * vd == -(vn * (axd * md)),
    ;
    assert(x.n == 0);
    assert(x.n * 1 == 0 * x.d);
    // velocity: 2m (t - ax) equals v
    let w = rat_mul(b, d1);
    assert(spec_parab_vel(t, v) == w);
    assert(w.n == (2 * mn) * d1.n && w.d == (1 * md) * (td * axd));
    assert(((2 * mn) * d1.n) * vd == vn * ((1 * md) * (td * axd))) by (nonlinear_arith)
        requires
            d1.n == -(axn * td),
            2 * axn * mn * vd == -(vn * (axd * md)),
    ;
}

/// At normalized velocity exactly 2 the parabolic and the cubic families
/// agree, so the dispatch threshold does not jump.
pub proof fn lemma_threshold_switch(t: Rat, v: Rat)
    requires
        rat_wf(t),
        rat_wf(v),
        rat_eq(v, rat_of_int(2)),
        rat_le(t, rat_of_int(1)),
    ensures
        rat_eq(spec_parab_pos(t, v), spec_linear_pos(t, v)),
        rat_eq(spec_parab_vel(t, v), spec_linear_vel(t, v)),
{
    lemma_params_wf(v);
    let vn = v.n;
    let vd = v.d;
    let tn = t.n;
    let td = t.d;
    assert(vn == 2 * vd);
    assert(!rat_lt(v, rat_of_int(2)));
    let p = spec_params(v);
    let q = ROOT_SCALE as int;
    // the root is exact here, so m = -1, ax = 1, ay = 1, h = 1
    assert(p.m.n == -(2 * vd * q) && p.m.d == (2 * vd) * q) by {
        let dn = disc_num(v);
        assert(dn == 4 * (vd * vd)) by (nonlinear_arith)
            requires
                vn == 2 * vd,
                dn == 2 * (vn * vn) - 4 * (vn * vd) + 4 * (vd * vd),
        ;
        lemma_isqrt_exists(dn * q * q);
        assert(is_isqrt(dn * q * q, 2 * vd * q)) by (nonlinear_arith)
            requires
                dn == 4 * (vd * vd),
                vd >= 1,
                q == 1024,
        ;
        lemma_isqrt_unique(dn * q * q, sqrt_floor(dn * q * q), 2 * vd * q);
        assert(sqrt_floor(dn * q * q) * sqrt_floor(dn * q * q) == dn * q * q) by (nonlinear_arith)
            requires
                sqrt_floor(dn * q * q) == 2 * vd * q,
                dn == 4 * (vd * vd),
        ;
        assert(root_scaled(v) == 2 * vd * q);
        assert(p.m.n == (2 * vd - vn) * q - (2 * vd * q));
        assert((2 * vd - vn) * q - (2 * vd * q) == -(2 * vd * q)) by (nonlinear_arith)
            requires
                vn == 2 * vd,
        ;
    }
    let mn = p.m.n;
    let md = p.m.d;
    assert(mn == -md) by (nonlinear_arith)
        requires
            mn == -(2 * vd * q),
            md == (2 * vd) * q,
    ;
    let axn = p.ax.n;
    let axd = p.ax.d;
    assert(axn == -((-vn) * (1 * md)) && axd == -(vd * (2 * mn)));
    assert(axn == axd) by (nonlinear_arith)
        requires
            axn == -((-vn) * (1 * md)),
            axd == -(vd * (2 * mn)),
            vn == 2 * vd,
            mn == -md,
    ;
    let ayn = p.ay.n;
    let ayd = p.ay.d;
    assert(ayn == (vn * axn) * 1 && ayd == (vd * axd) * 2);
    assert(ayn == ayd) by (nonlinear_arith)
        requires
            ayn == (vn * axn) * 1,
            ayd == (vd * axd) * 2,
            vn == 2 * vd,
            axn == axd,
    ;
    let hn = p.h.n;
    let hd = p.h.d;
    assert(hn == (axn * 1 + 1 * axd) * 1 && hd == (axd * 1) * 2);
    assert(hn == hd);
    if rat_le(rat_of_int(1), t) {
        // t is exactly 1: both families sit at the end point, at rest
        assert(tn == td);
        lemma_linear_at_one(t, v);
        assert(spec_parab_pos(t, v) == rat_of_int(1));
        assert(spec_parab_vel(t, v) == rat_of_int(0));
        assert(spec_linear_pos(t, v).n * 1 == 1 * spec_linear_pos(t, v).d);
        assert(spec_linear_vel(t, v).n * 1 == 0 * spec_linear_vel(t, v).d);
    } else {
        assert(tn < td);
        // before the joint, which sits exactly at 1 here
        assert(tn * hd < hn * td) by (nonlinear_arith)
            requires
                tn < td,
                hn == hd,
                hd > 0,
        ;
        assert(rat_lt(t, p.h));
        let d1 = rat_sub(t, p.ax);
        let sq = rat_mul(d1, d1);
        let ms = rat_mul(p.m, sq);
        let x = rat_add(ms, p.ay);
        assert(spec_parab_pos(t, v) == x);
        // cubic structure
        let a = rat_sub(v, rat_of_int(2));
        let b = rat_mul(a, t);
        let c = rat_mul(rat_of_int(2), v);
        let e = rat_sub(rat_of_int(3), c);
        let f = rat_add(b, e);
        let g = rat_mul(t, f);
        let k = rat_add(g, v);
        let pl = spec_linear_pos(t, v);
        assert(pl == rat_mul(t, k));
        // reduce the parabolic side
        assert(d1.n == axd * (tn - td)) by (nonlinear_arith)
            requires
                d1.n == tn * axd - axn * td,
                axn == axd,
        ;
        assert(ms.n == -(md * ((axd * axd) * ((tn - td) * (tn - td))))) by (nonlinear_arith)
            requires
                ms.n == mn * (d1.n * d1.n),
                mn == -md,
                d1.n == axd * (tn - td),
        ;
        assert(ms.d == md * ((td * axd) * (td * axd)));
        assert(x.n == ayd * (ms.n + ms.d)) by (nonlinear_arith)
            requires
                x.n == ms.n * ayd + ayn * ms.d,
                ayn == ayd,
        ;
        assert(ms.n + ms.d == md * ((axd * axd) * (tn * (2 * td - tn)))) by (nonlinear_arith)
            requires
                ms.n == -(md * ((axd * axd) * ((tn - td) * (tn - td)))),
                ms.d == md * ((td * axd) * (td * axd)),
        ;
        assert(x.d == ms.d * ayd);
        // reduce the cubic side
        assert(b.n == 0) by (nonlinear_arith)
            requires
                b.n == (vn - 2 * vd) * tn,
                vn == 2 * vd,
        ;
        assert(f.n == -(vd * (vd * td))) by (nonlinear_arith)
            requires
                f.n == b.n * vd + (3 * vd - 2 * vn) * (vd * td),
                b.n == 0,
                vn == 2 * vd,
        ;
        assert(k.n == (vd * (vd * vd)) * (td * (2 * td - tn))) by (nonlinear_arith)
            requires
                k.n == g.n * vd + vn * g.d,
                g.n == tn * f.n,
                f.n == -(vd * (vd * td)),
                g.d == td * f.d,
                f.d == (vd * td) * vd,
                vn == 2 * vd,
        ;
        assert(k.d == (vd * (vd * vd)) * (td * td)) by (nonlinear_arith)
            requires
                k.d == g.d * vd,
                g.d == td * f.d,
                f.d == (vd * td) * vd,
        ;
        assert(pl.n == tn * k.n && pl.d == td * k.d);
        // both sides carry the same factors
        let a2 = axd * axd;
        let t2 = td * td;
        let w3 = vd * (vd * vd);
        let p2 = tn * (2 * td - tn);
        let u1 = a2 * p2;
        let v1 = w3 * t2;
        let r1 = t2 * a2;
        let s1 = td * p2;
        assert(x.n == ayd * (md * u1));
        assert(pl.d == td * v1);
        assert((td * axd) * (td * axd) == t2 * a2) by (nonlinear_arith)
            requires
                t2 == td * td,
                a2 == axd * axd,
        ;
        assert(x.d == (md * r1) * ayd);
        assert(pl.n == tn * (w3 * (td * (2 * td - tn))));
        assert(tn * (w3 * (td * (2 * td - tn))) == w3 * s1) by (nonlinear_arith)
            requires
                s1 == td * p2,
                p2 == tn * (2 * td - tn),
        ;
        assert(x.n * pl.d == ((md * u1) * (td * v1)) * ayd) by (nonlinear_arith)
            requires
                x.n == ayd * (md * u1),
                pl.d == td * v1,
        ;
        assert(pl.n * x.d == ((md * r1) * (w3 * s1)) * ayd) by (nonlinear_arith)
            requires
                pl.n == w3 * s1,
                x.d == (md * r1) * ayd,
        ;
        assert((md * u1) * (td * v1) == (md * r1) * (w3 * s1)) by (nonlinear_arith)
            requires
                u1 == a2 * p2,
                v1 == w3 * t2,
                r1 == t2 * a2,
                s1 == td * p2,
        ;
        assert(x.n * pl.d == pl.n * x.d);
        // velocities
        let b2m = rat_mul(rat_of_int(2), p.m);
        let wv = rat_mul(b2m, d1);
        assert(spec_parab_vel(t, v) == wv);
        let a2 = rat_mul(rat_of_int(3), v);
        let b2 = rat_sub(a2, rat_of_int(6));
        let c2 = rat_mul(b2, t);
        let e2 = rat_mul(rat_of_int(4), v);
        let f2 = rat_sub(rat_of_int(6), e2);
        let g2 = rat_add(c2, f2);
        let k2 = rat_mul(t, g2);
        let wl = spec_linear_vel(t, v);
        assert(wl == rat_add(k2, v));
        assert(wv.n == (2 * mn) * d1.n && wv.d == (1 * md) * d1.d);
        assert(wv.n == (2 * md) * (axd * (td - tn))) by (nonlinear_arith)
            requires
                wv.n == (2 * mn) * d1.n,
                mn == -md,
                d1.n == axd * (tn - td),
        ;
        assert(c2.n == 0) by (nonlinear_arith)
            requires
                c2.n == (3 * vn - 6 * vd) * tn,
                vn == 2 * vd,
        ;
        assert(g2.n == -((2 * vd) * (vd * td))) by (nonlinear_arith)
            requires
                g2.n == c2.n * vd + (6 * vd - 4 * vn) * (vd * td),
                c2.n == 0,
                vn == 2 * vd,
        ;
        assert(wl.n == (2 * (vd * (vd * vd))) * (td * (td - tn))) by (nonlinear_arith)
            requires
                wl.n == k2.n * vd + vn * k2.d,
                k2.n == tn * g2.n,
                g2.n == -((2 * vd) * (vd * td)),
                k2.d == td * g2.d,
                g2.d == (vd * td) * vd,
                vn == 2 * vd,
        ;
        assert(k2.d == td * ((vd * td) * vd));
        assert(wl.d == k2.d * vd);
        let dtn = td - tn;
        let w3v = vd * (vd * vd);
        let t2v = td * td;
        assert(wv.n == (2 * md) * (axd * dtn));
        assert((td * ((vd * td) * vd)) * vd == t2v * w3v) by (nonlinear_arith)
            requires
                t2v == td * td,
                w3v == vd * (vd * vd),
        ;
        assert(wl.d == t2v * w3v) by (nonlinear_arith)
            requires
                wl.d == k2.d * vd,
                k2.d == td * ((vd * td) * vd),
                (td * ((vd * td) * vd)) * vd == t2v * w3v,
        ;
        assert(wv.n * wl.d == ((2 * md) * (axd * dtn)) * (t2v * w3v));
        assert(wl.n * wv.d == ((2 * w3v) * (td * dtn)) * ((1 * md) * (td * axd))) by (nonlinear_arith)
            requires
                wl.n == (2 * (vd * (vd * vd))) * (td * (td - tn)),
                wv.d == (1 * md) * (td * axd),
                w3v == vd * (vd * vd),
                dtn == td - tn,
        ;
        assert(((2 * md) * (axd * dtn)) * (t2v * w3v) == ((2 * w3v) * (td * dtn)) * ((1 * md) * (td
            * axd))) by (nonlinear_arith)
            requires
                t2v == td * td,
        ;
        assert(wv.n * wl.d == wl.n * wv.d);
    }
}

} // verus!
