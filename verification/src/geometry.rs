//! Geometric primitives over fixed-point coordinates: points, vectors,
//! segments, triangles, planar quads and spheres, each with ray intersection
//! and specular reflection, plus the box assembler.
//!
//! Coordinates are fixed-point values at scale `2^32` (`UNIT`). Every
//! operation mirrors a spec function over `int` exactly, so contracts state
//! the arithmetic of each result including its rounding and saturation.

use vstd::prelude::*;

use crate::fixed::{clamp, fits, iabs, sat_add, sat_div, sat_mul, sat_sqrt, sat_sub, tdiv};

verus! {

/// The raw value that stands for `1`: coordinates carry `2^32` fractional
/// steps per unit.
pub const UNIT: i64 = 4294967296;

/// Containment tolerance for segments and triangles (`1e-5` in units).
pub const EPS_CONTAIN: i64 = 42950;

/// Raw result of adding two coordinate values.
pub open spec fn gadd(a: int, b: int) -> int {
    clamp(a + b)
}

/// Raw result of subtracting two coordinate values.
pub open spec fn gsub(a: int, b: int) -> int {
    clamp(a - b)
}

/// Raw result of multiplying two coordinate values.
pub open spec fn gmul(a: int, b: int) -> int {
    clamp(tdiv(a * b, UNIT as int))
}

/// Raw result of dividing one coordinate value by another.
pub open spec fn gdiv(a: int, b: int) -> int {
    clamp(tdiv(a * UNIT, b))
}

/// `r` is the floor square root of the value that the raw `a` carries.
pub open spec fn is_sqrt_of(r: int, a: int) -> bool {
    0 <= r && r * r <= a * UNIT < (r + 1) * (r + 1)
}

/// Raw result of the square root of a coordinate value (unspecified for
/// negative input).
pub open spec fn gsqrt(a: int) -> int {
    choose|r: int| is_sqrt_of(r, a)
}

/// The floor square root is unique, so any witness equals `gsqrt`.
pub proof fn lemma_gsqrt(r: int, a: int)
    requires
        is_sqrt_of(r, a),
    ensures
        gsqrt(a) == r,
{
    let r2 = gsqrt(a);
    assert(is_sqrt_of(r2, a));
    if r < r2 {
        assert((r + 1) * (r + 1) <= r2 * r2) by (nonlinear_arith)
            requires
                0 <= r + 1 <= r2,
        ;
    }
    if r2 < r {
        assert((r2 + 1) * (r2 + 1) <= r * r) by (nonlinear_arith)
            requires
                0 <= r2 + 1 <= r,
        ;
    }
}

/// A fixed-point coordinate value: `raw / UNIT` in room units.
#[derive(Clone, Copy, PartialEq, Eq, Structural, Debug)]
pub struct Fx {
    pub raw: i64,
}

impl View for Fx {
    type V = int;

    open spec fn view(&self) -> int {
        self.raw as int
    }
}

impl Fx {
    /// The raw value is within the representable band.
    pub open spec fn wf(self) -> bool {
        fits(self@)
    }

    pub fn zero() -> (r: Fx)
        ensures
            r@ == 0,
    {
        Fx { raw: 0 }
    }

    pub fn one() -> (r: Fx)
        ensures
            r@ == UNIT,
    {
        Fx { raw: UNIT }
    }

    /// The value `i`, for integers small enough to carry exactly.
    pub fn from_int(i: i64) -> (r: Fx)
        requires
            -1073741824 <= i <= 1073741824,  // 2^30
        ensures
            r@ == i * UNIT,
            r.wf(),
    {
        Fx { raw: i * UNIT }
    }

    /// The value `n / d`, rounded toward zero.
    pub fn from_ratio(n: i64, d: i64) -> (r: Fx)
        requires
            fits(n as int),
            fits(d as int),
            d != 0,
        ensures
            r@ == gdiv(n as int, d as int),
            r.wf(),
    {
        Fx { raw: sat_div(n, d, UNIT) }
    }

    /// The raw value, for callers that inspect results directly.
    pub fn raw_value(self) -> (r: i64)
        ensures
            r == self@,
    {
        self.raw
    }

    pub fn add(self, o: Fx) -> (r: Fx)
        requires
            self.wf(),
            o.wf(),
        ensures
            r@ == gadd(self@, o@),
            r.wf(),
    {
        Fx { raw: sat_add(self.raw, o.raw) }
    }

    pub fn sub(self, o: Fx) -> (r: Fx)
        requires
            self.wf(),
            o.wf(),
        ensures
            r@ == gsub(self@, o@),
            r.wf(),
    {
        Fx { raw: sat_sub(self.raw, o.raw) }
    }

    pub fn mul(self, o: Fx) -> (r: Fx)
        requires
            self.wf(),
            o.wf(),
        ensures
            r@ == gmul(self@, o@),
            r.wf(),
    {
        Fx { raw: sat_mul(self.raw, o.raw, UNIT) }
    }

    pub fn div(self, o: Fx) -> (r: Fx)
        requires
            self.wf(),
            o.wf(),
            o@ != 0,
        ensures
            r@ == gdiv(self@, o@),
            r.wf(),
    {
        Fx { raw: sat_div(self.raw, o.raw, UNIT) }
    }

    pub fn neg(self) -> (r: Fx)
        requires
            self.wf(),
        ensures
            r@ == -self@,
            r.wf(),
    {
        Fx { raw: -self.raw }
    }

    pub fn abs(self) -> (r: Fx)
        requires
            self.wf(),
        ensures
            r@ == iabs(self@),
            r.wf(),
    {
        if self.raw < 0 {
            Fx { raw: -self.raw }
        } else {
            self
        }
    }

    pub fn sqrt(self) -> (r: Fx)
        requires
            self.wf(),
            self@ >= 0,
        ensures
            r@ == gsqrt(self@),
            is_sqrt_of(r@, self@),
            r.wf(),
    {
        let raw = sat_sqrt(self.raw, UNIT);
        proof {
            lemma_gsqrt(raw as int, self@);
        }
        Fx { raw }
    }

    pub fn le(self, o: Fx) -> (r: bool)
        ensures
            r == (self@ <= o@),
    {
        self.raw <= o.raw
    }

    pub fn lt(self, o: Fx) -> (r: bool)
        ensures
            r == (self@ < o@),
    {
        self.raw < o.raw
    }
}

/// A position in space.
#[derive(Clone, Copy, PartialEq, Eq, Structural, Debug)]
pub struct P {
    pub x: Fx,
    pub y: Fx,
    pub z: Fx,
}

/// A displacement or direction in space.
#[derive(Clone, Copy, PartialEq, Eq, Structural, Debug)]
pub struct V {
    pub x: Fx,
    pub y: Fx,
    pub z: Fx,
}

/// The raw components of a vector.
pub open spec fn v3(v: V) -> (int, int, int) {
    (v.x@, v.y@, v.z@)
}

/// The raw components of a point.
pub open spec fn p3(p: P) -> (int, int, int) {
    (p.x@, p.y@, p.z@)
}

/// All three raw components are within the representable band.
pub open spec fn wf3(t: (int, int, int)) -> bool {
    fits(t.0) && fits(t.1) && fits(t.2)
}

pub open spec fn s_vadd(u: (int, int, int), v: (int, int, int)) -> (int, int, int) {
    (gadd(u.0, v.0), gadd(u.1, v.1), gadd(u.2, v.2))
}

pub open spec fn s_vsub(u: (int, int, int), v: (int, int, int)) -> (int, int, int) {
    (gsub(u.0, v.0), gsub(u.1, v.1), gsub(u.2, v.2))
}

pub open spec fn s_scale(u: (int, int, int), f: int) -> (int, int, int) {
    (gmul(u.0, f), gmul(u.1, f), gmul(u.2, f))
}

pub open spec fn s_neg(u: (int, int, int)) -> (int, int, int) {
    (-u.0, -u.1, -u.2)
}

/// Dot product, summed left to right.
pub open spec fn s_dot(u: (int, int, int), v: (int, int, int)) -> int {
    gadd(gadd(gmul(u.0, v.0), gmul(u.1, v.1)), gmul(u.2, v.2))
}

pub open spec fn s_cross(u: (int, int, int), v: (int, int, int)) -> (int, int, int) {
    (
        gsub(gmul(u.1, v.2), gmul(u.2, v.1)),
        gsub(gmul(u.2, v.0), gmul(u.0, v.2)),
        gsub(gmul(u.0, v.1), gmul(u.1, v.0)),
    )
}

/// Squared norm.
pub open spec fn s_n2(u: (int, int, int)) -> int {
    s_dot(u, u)
}

/// Norm: square root of the squared norm.
pub open spec fn s_norm(u: (int, int, int)) -> int {
    gsqrt(s_n2(u))
}

/// Projection of `u` onto `v`: `v` scaled by `u.v / v.v`.
pub open spec fn s_proj(u: (int, int, int), v: (int, int, int)) -> (int, int, int) {
    s_scale(v, gdiv(s_dot(u, v), s_n2(v)))
}

/// The unit vector of `u`: each component divided by the norm.
pub open spec fn s_unit(u: (int, int, int)) -> (int, int, int) {
    let n = s_norm(u);
    (gdiv(u.0, n), gdiv(u.1, n), gdiv(u.2, n))
}

/// Double cross product `u x (u x v)`: a vector in the plane of `u` and `v`
/// perpendicular to `u`.
pub open spec fn s_pnormal(u: (int, int, int), v: (int, int, int)) -> (int, int, int) {
    s_cross(u, s_cross(u, v))
}

impl V {
    pub open spec fn wf(self) -> bool {
        self.x.wf() && self.y.wf() && self.z.wf()
    }

    pub fn new(x: Fx, y: Fx, z: Fx) -> (r: V)
        ensures
            r == (V { x, y, z }),
    {
        V { x, y, z }
    }

    /// Norm (length) of the vector.
    pub fn n(&self) -> (r: Fx)
        requires
            self.wf(),
        ensures
            r@ == s_norm(v3(*self)),
            is_sqrt_of(r@, s_n2(v3(*self))),
            r.wf(),
    {
        self.n2().sqrt()
    }

    /// Squared norm of the vector.
    pub fn n2(&self) -> (r: Fx)
        requires
            self.wf(),
        ensures
            r@ == s_n2(v3(*self)),
            r@ >= 0,
            r.wf(),
    {
        let r = self.dot(self);
        proof {
            lemma_sqr_nonneg(self.x@, UNIT as int);
            lemma_sqr_nonneg(self.y@, UNIT as int);
            lemma_sqr_nonneg(self.z@, UNIT as int);
        }
        r
    }

    pub fn dot(&self, v: &V) -> (r: Fx)
        requires
            self.wf(),
            v.wf(),
        ensures
            r@ == s_dot(v3(*self), v3(*v)),
            r.wf(),
    {
        self.x.mul(v.x).add(self.y.mul(v.y)).add(self.z.mul(v.z))
    }

    pub fn cross(&self, v: &V) -> (r: V)
        requires
            self.wf(),
            v.wf(),
        ensures
            v3(r) == s_cross(v3(*self), v3(*v)),
            r.wf(),
    {
        V {
            x: self.y.mul(v.z).sub(self.z.mul(v.y)),
            y: self.z.mul(v.x).sub(self.x.mul(v.z)),
            z: self.x.mul(v.y).sub(self.y.mul(v.x)),
        }
    }

    /// Projection of `self` onto `v`; the divisor is the computed squared
    /// norm of `v`, which the caller must know to be nonzero.
    pub fn proj(&self, v: &V) -> (r: V)
        requires
            self.wf(),
            v.wf(),
            s_n2(v3(*v)) != 0,
        ensures
            v3(r) == s_proj(v3(*self), v3(*v)),
            r.wf(),
    {
        let f = self.dot(v).div(v.n2());
        v.scale(f)
    }

    /// Double cross product `self x (self x pv)`.
    pub fn pnormal(&self, pv: &V) -> (r: V)
        requires
            self.wf(),
            pv.wf(),
        ensures
            v3(r) == s_pnormal(v3(*self), v3(*pv)),
            r.wf(),
    {
        let c = self.cross(pv);
        self.cross(&c)
    }

    /// Unit vector; the divisor is the computed norm, which the caller must
    /// know to be nonzero.
    pub fn u(&self) -> (r: V)
        requires
            self.wf(),
            s_norm(v3(*self)) != 0,
        ensures
            v3(r) == s_unit(v3(*self)),
            r.wf(),
    {
        let n = self.n();
        V { x: self.x.div(n), y: self.y.div(n), z: self.z.div(n) }
    }

    pub fn add(&self, v: &V) -> (r: V)
        requires
            self.wf(),
            v.wf(),
        ensures
            v3(r) == s_vadd(v3(*self), v3(*v)),
            r.wf(),
    {
        V { x: self.x.add(v.x), y: self.y.add(v.y), z: self.z.add(v.z) }
    }

    pub fn sub(&self, v: &V) -> (r: V)
        requires
            self.wf(),
            v.wf(),
        ensures
            v3(r) == s_vsub(v3(*self), v3(*v)),
            r.wf(),
    {
        V { x: self.x.sub(v.x), y: self.y.sub(v.y), z: self.z.sub(v.z) }
    }

    /// Each component multiplied by `f`.
    pub fn scale(&self, f: Fx) -> (r: V)
        requires
            self.wf(),
            f.wf(),
        ensures
            v3(r) == s_scale(v3(*self), f@),
            r.wf(),
    {
        V { x: self.x.mul(f), y: self.y.mul(f), z: self.z.mul(f) }
    }

    pub fn neg(&self) -> (r: V)
        requires
            self.wf(),
        ensures
            v3(r) == s_neg(v3(*self)),
            r.wf(),
    {
        V { x: self.x.neg(), y: self.y.neg(), z: self.z.neg() }
    }
}

/// A square of a value at the coordinate scale is never negative.
pub proof fn lemma_sqr_nonneg(a: int, scale: int)
    requires
        scale >= 1,
    ensures
        gmul(a, a) >= 0,
        clamp(tdiv(a * a, scale)) >= 0,
{
    crate::fixed::lemma_mul_sign(a, a);
    assert(iabs(a * a) / scale >= 0);
}


/// Minimum of two raw values.
pub open spec fn imin(a: int, b: int) -> int {
    if a <= b {
        a
    } else {
        b
    }
}

/// Distance between two points.
pub open spec fn s_dist(p: (int, int, int), q: (int, int, int)) -> int {
    s_norm(s_vsub(p, q))
}

/// Projection of `p` onto the line through `la` and `lb`.
pub open spec fn s_lproj(p: (int, int, int), la: (int, int, int), lb: (int, int, int)) -> (
    int,
    int,
    int,
) {
    s_vadd(la, s_proj(s_vsub(p, la), s_vsub(lb, la)))
}

/// Distance from `p` to the line through `la` and `lb`.
pub open spec fn s_ray_dist(p: (int, int, int), la: (int, int, int), lb: (int, int, int)) -> int {
    s_dist(p, s_lproj(p, la, lb))
}

/// Distance from `p` to the segment from `la` to `lb`: the distance to the
/// nearer endpoint outside the segment's band, else to the line.
pub open spec fn s_line_dist(p: (int, int, int), la: (int, int, int), lb: (int, int, int)) -> int {
    let lv = s_vsub(lb, la);
    let ac = s_vsub(p, la);
    if s_dot(ac, lv) > 0 {
        let bc = s_vsub(p, lb);
        if s_dot(bc, lv) > 0 {
            s_dist(p, lb)
        } else {
            s_ray_dist(p, la, lb)
        }
    } else {
        s_dist(p, la)
    }
}

/// Distance from `p` to the plane through `q` with normal `n`.
pub open spec fn s_plane_dist(p: (int, int, int), q: (int, int, int), n: (int, int, int)) -> int {
    s_norm(s_proj(s_vsub(p, q), n))
}

/// Distance from `p` to the triangle `(a, b, c)`: the plane distance when
/// the barycentric coordinates of `p` lie in `[0, 1]`, else the distance to
/// the nearest vertex.
pub open spec fn s_triangle_dist(
    p: (int, int, int),
    a: (int, int, int),
    b: (int, int, int),
    c: (int, int, int),
) -> int {
    let u = s_vsub(b, a);
    let v = s_vsub(c, a);
    let w = s_vsub(p, a);
    let n = s_cross(u, v);
    let n2 = s_n2(n);
    let vertex_dist = imin(s_dist(p, a), imin(s_dist(p, b), s_dist(p, c)));
    let gamma = gdiv(s_dot(s_cross(u, w), n), n2);
    if 0 <= gamma <= UNIT {
        let beta = gdiv(s_dot(s_cross(w, v), n), n2);
        if 0 <= beta <= UNIT {
            let alpha = gsub(gsub(UNIT as int, gamma), beta);
            if 0 <= alpha <= UNIT {
                s_plane_dist(p, a, n)
            } else {
                vertex_dist
            }
        } else {
            vertex_dist
        }
    } else {
        vertex_dist
    }
}


impl P {
    pub open spec fn wf(self) -> bool {
        self.x.wf() && self.y.wf() && self.z.wf()
    }

    /// Distance to another point.
    pub fn dist(&self, p: &P) -> (r: Fx)
        requires
            self.wf(),
            p.wf(),
        ensures
            r@ == s_dist(p3(*self), p3(*p)),
            r@ >= 0,
            r.wf(),
    {
        self.sub(p).n()
    }

    /// Projection onto the line of `l`; the divisor is the computed squared
    /// norm of `l`'s direction.
    pub fn lproj(&self, l: &L) -> (r: P)
        requires
            self.wf(),
            l.wf(),
            s_n2(s_lv(*l)) != 0,
        ensures
            p3(r) == s_lproj(p3(*self), p3(l.a), p3(l.b)),
            r.wf(),
    {
        let lv = l.v();
        l.a.add(&self.sub(&l.a).proj(&lv))
    }

    /// Projection onto the plane through `p` with normal `n`.
    pub fn pproj(&self, p: &P, n: &V) -> (r: P)
        requires
            self.wf(),
            p.wf(),
            n.wf(),
            s_n2(v3(*n)) != 0,
        ensures
            p3(r) == s_vadd(
                p3(*p),
                s_vsub(s_vsub(p3(*self), p3(*p)), s_proj(s_vsub(p3(*self), p3(*p)), v3(*n))),
            ),
            r.wf(),
    {
        let pa = self.sub(p);
        p.add(&pa.sub(&pa.proj(n)))
    }

    /// Distance to the line of `r`.
    pub fn ray_dist(&self, r: &L) -> (res: Fx)
        requires
            self.wf(),
            r.wf(),
            s_n2(s_lv(*r)) != 0,
        ensures
            res@ == s_ray_dist(p3(*self), p3(r.a), p3(r.b)),
            res.wf(),
    {
        self.sub(&self.lproj(r)).n()
    }

    /// Distance to the segment `l`.
    pub fn line_dist(&self, l: &L) -> (r: Fx)
        requires
            self.wf(),
            l.wf(),
            s_n2(s_lv(*l)) != 0,
        ensures
            r@ == s_line_dist(p3(*self), p3(l.a), p3(l.b)),
            r.wf(),
    {
        let lv = l.v();
        let ac = self.sub(&l.a);
        if ac.dot(&lv).raw > 0 {
            let bc = self.sub(&l.b);
            if bc.dot(&lv).raw > 0 {
                self.dist(&l.b)
            } else {
                self.ray_dist(l)
            }
        } else {
            self.dist(&l.a)
        }
    }

    /// Distance to the plane through `p` with normal `n`.
    pub fn plane_dist(&self, p: &P, n: &V) -> (r: Fx)
        requires
            self.wf(),
            p.wf(),
            n.wf(),
            s_n2(v3(*n)) != 0,
        ensures
            r@ == s_plane_dist(p3(*self), p3(*p), v3(*n)),
            r.wf(),
    {
        self.sub(p).proj(n).n()
    }

    /// Distance to the triangle `t`.
    pub fn triangle_dist(&self, t: &T) -> (r: Fx)
        requires
            self.wf(),
            t.wf(),
            tri_nsq(*t) != 0,
        ensures
            r@ == s_triangle_dist(p3(*self), p3(t.a), p3(t.b), p3(t.c)),
            r.wf(),
    {
        let u = t.b.sub(&t.a);
        let v = t.c.sub(&t.a);
        let w = self.sub(&t.a);
        let n = u.cross(&v);
        let n2 = n.n2();

        let gamma = u.cross(&w).dot(&n).div(n2);
        if 0 <= gamma.raw && gamma.raw <= UNIT {
            let beta = w.cross(&v).dot(&n).div(n2);
            if 0 <= beta.raw && beta.raw <= UNIT {
                let alpha = Fx::one().sub(gamma).sub(beta);
                if 0 <= alpha.raw && alpha.raw <= UNIT {
                    return self.plane_dist(&t.a, &n);
                }
            }
        }
        let da = self.dist(&t.a);
        let db = self.dist(&t.b);
        let dc = self.dist(&t.c);
        let dbc = if db.raw <= dc.raw {
            db
        } else {
            dc
        };
        if da.raw <= dbc.raw {
            da
        } else {
            dbc
        }
    }

    /// The point displaced by `v`.
    pub fn add(&self, v: &V) -> (r: P)
        requires
            self.wf(),
            v.wf(),
        ensures
            p3(r) == s_vadd(p3(*self), v3(*v)),
            r.wf(),
    {
        P { x: self.x.add(v.x), y: self.y.add(v.y), z: self.z.add(v.z) }
    }

    /// The displacement from `p` to this point.
    pub fn sub(&self, p: &P) -> (r: V)
        requires
            self.wf(),
            p.wf(),
        ensures
            v3(r) == s_vsub(p3(*self), p3(*p)),
            r.wf(),
    {
        V { x: self.x.sub(p.x), y: self.y.sub(p.y), z: self.z.sub(p.z) }
    }
}

/// A segment from `a` to `b`; also used as a ray with origin `a` and
/// direction `b - a`.
#[derive(Clone, Copy, PartialEq, Eq, Structural, Debug)]
pub struct L {
    pub a: P,
    pub b: P,
}

/// The direction of a segment or ray.
pub open spec fn s_lv(l: L) -> (int, int, int) {
    s_vsub(p3(l.b), p3(l.a))
}

impl L {
    pub open spec fn wf(self) -> bool {
        self.a.wf() && self.b.wf()
    }

    /// The segment's computed squared direction norm is nonzero, which every
    /// projection onto its line divides by.
    pub open spec fn nondeg(self) -> bool {
        s_n2(s_lv(self)) != 0
    }

    /// The direction vector `b - a`.
    pub fn v(&self) -> (r: V)
        requires
            self.wf(),
        ensures
            v3(r) == s_lv(*self),
            r.wf(),
    {
        self.b.sub(&self.a)
    }

    /// Whether `p` lies within the containment tolerance of the segment.
    pub fn contains(&self, p: &P) -> (r: bool)
        requires
            self.wf(),
            p.wf(),
            self.nondeg(),
        ensures
            r == (s_line_dist(p3(*p), p3(self.a), p3(self.b)) < EPS_CONTAIN),
    {
        p.line_dist(self).raw < EPS_CONTAIN
    }

    /// The segment's length.
    pub fn len(&self) -> (r: Fx)
        requires
            self.wf(),
        ensures
            r@ == s_norm(s_lv(*self)),
            r.wf(),
    {
        self.v().n()
    }
}

/// A triangle with vertices `a`, `b`, `c` and normal `(b - a) x (c - a)`.
#[derive(Clone, Copy, PartialEq, Eq, Structural, Debug)]
pub struct T {
    pub a: P,
    pub b: P,
    pub c: P,
}

/// The raw components of a triangle's normal.
pub open spec fn tri_n(t: T) -> (int, int, int) {
    s_cross(s_vsub(p3(t.b), p3(t.a)), s_vsub(p3(t.c), p3(t.a)))
}

/// The computed squared norm of a triangle's normal; every barycentric
/// coordinate divides by it.
pub open spec fn tri_nsq(t: T) -> int {
    s_n2(tri_n(t))
}

impl T {
    pub open spec fn wf(self) -> bool {
        self.a.wf() && self.b.wf() && self.c.wf()
    }

    /// The face normal `(b - a) x (c - a)`.
    pub fn normal(&self) -> (r: V)
        requires
            self.wf(),
        ensures
            v3(r) == tri_n(*self),
            r.wf(),
    {
        self.b.sub(&self.a).cross(&self.c.sub(&self.a))
    }

    /// Whether `p` lies within the containment tolerance of the triangle.
    pub fn contains(&self, p: &P) -> (r: bool)
        requires
            self.wf(),
            p.wf(),
            tri_nsq(*self) != 0,
        ensures
            r == (s_triangle_dist(p3(*p), p3(self.a), p3(self.b), p3(self.c)) < EPS_CONTAIN),
    {
        p.triangle_dist(self).raw < EPS_CONTAIN
    }
}


/// A coordinate value built from an in-range raw value.
pub open spec fn fx_of(v: int) -> Fx {
    Fx { raw: v as i64 }
}

/// A value whose view matches an in-range raw value is that raw value.
pub proof fn lemma_fx_of(f: Fx, v: int)
    requires
        f@ == v,
        fits(v),
    ensures
        f == fx_of(v),
{
}

/// A point built from raw components (which must be in range to carry over).
pub open spec fn p_of(t: (int, int, int)) -> P {
    P { x: Fx { raw: t.0 as i64 }, y: Fx { raw: t.1 as i64 }, z: Fx { raw: t.2 as i64 } }
}

/// A vector built from raw components.
pub open spec fn v_of(t: (int, int, int)) -> V {
    V { x: Fx { raw: t.0 as i64 }, y: Fx { raw: t.1 as i64 }, z: Fx { raw: t.2 as i64 } }
}

/// A point whose components match in-range raw values is that raw point.
pub proof fn lemma_p_of(p: P, t: (int, int, int))
    requires
        p3(p) == t,
        wf3(t),
    ensures
        p == p_of(t),
{
}

/// The specular bounce at point `q`: the reflected direction is the unit
/// incoming direction `vu` minus twice its projection onto the unit surface
/// normal `nu`; reported as a miss if the normal's computed squared norm
/// underflowed to zero.
pub open spec fn s_specular(q: (int, int, int), vu: (int, int, int), nu: (int, int, int)) -> Option<
    L,
> {
    if s_n2(nu) == 0 {
        None
    } else {
        let dir = s_vsub(vu, s_scale(s_proj(vu, nu), 2 * (UNIT as int)));
        Some(L { a: p_of(q), b: p_of(s_vadd(q, dir)) })
    }
}

/// Intersection of a ray with a segment: the closest-approach point of the
/// two lines, accepted if the ray parameter is positive and the point lies
/// within tolerance of the segment.
#[verifier::opaque]
pub open spec fn seg_hit(l: L, r: L) -> Option<P> {
    let sv = s_lv(l);
    let rv = s_lv(r);
    let n = s_pnormal(sv, rv);
    let num = s_dot(s_vsub(p3(l.a), p3(r.a)), n);
    let den = s_dot(rv, n);
    if den == 0 && num != 0 {
        None
    } else {
        let d = if den == 0 {
            0int
        } else {
            gdiv(num, den)
        };
        let i = s_vadd(p3(r.a), s_scale(rv, d));
        if s_dot(rv, s_vsub(i, p3(r.a))) > 0 && s_line_dist(i, p3(l.a), p3(l.b)) < EPS_CONTAIN {
            Some(p_of(i))
        } else {
            None
        }
    }
}

/// Reflection of a ray off a segment, anchored at the intersection point;
/// the surface normal is the double cross product of the segment direction
/// with the unit incoming direction.
#[verifier::opaque]
pub open spec fn seg_bounce(l: L, r: L) -> Option<L> {
    match seg_hit(l, r) {
        None => None,
        Some(q) => {
            let rv = s_lv(r);
            if s_norm(rv) == 0 {
                None
            } else {
                let vu = s_unit(rv);
                let pn = s_pnormal(s_lv(l), vu);
                if s_norm(pn) == 0 {
                    None
                } else {
                    s_specular(p3(q), vu, s_unit(pn))
                }
            }
        },
    }
}

/// Intersection of a ray with a triangle: the plane hit at parameter
/// `nd / nv`, accepted if the ray parameter is positive and the point lies
/// within tolerance of the triangle.
#[verifier::opaque]
pub open spec fn tri_hit(t: T, r: L) -> Option<P> {
    let n = tri_n(t);
    let rv = s_lv(r);
    let nd = s_dot(s_vsub(p3(t.a), p3(r.a)), n);
    let nv = s_dot(rv, n);
    if nv == 0 && nd != 0 {
        None
    } else {
        let tt = if nv == 0 {
            0int
        } else {
            gdiv(nd, nv)
        };
        let i = s_vadd(p3(r.a), s_scale(rv, tt));
        if s_dot(rv, s_vsub(i, p3(r.a))) > 0 && s_triangle_dist(i, p3(t.a), p3(t.b), p3(t.c))
            < EPS_CONTAIN {
            Some(p_of(i))
        } else {
            None
        }
    }
}

/// Reflection of a ray off a triangle, using the precomputed face normal.
#[verifier::opaque]
pub open spec fn tri_bounce(t: T, r: L) -> Option<L> {
    match tri_hit(t, r) {
        None => None,
        Some(q) => {
            let rv = s_lv(r);
            if s_norm(rv) == 0 {
                None
            } else {
                let n = tri_n(t);
                if s_norm(n) == 0 {
                    None
                } else {
                    s_specular(p3(q), s_unit(rv), s_unit(n))
                }
            }
        },
    }
}

/// Intersection of a ray with a quad: the first triangle's hit wins.
#[verifier::opaque]
pub open spec fn quad_hit(q: Q, r: L) -> Option<P> {
    match tri_hit(q.ta, r) {
        Some(p) => Some(p),
        None => tri_hit(q.tb, r),
    }
}

/// Reflection of a ray off a quad: the first triangle's reflection wins.
#[verifier::opaque]
pub open spec fn quad_bounce(q: Q, r: L) -> Option<L> {
    match tri_bounce(q.ta, r) {
        Some(l) => Some(l),
        None => tri_bounce(q.tb, r),
    }
}

/// Intersection of a ray with a sphere: project the center onto the ray
/// line, reject if the perpendicular distance exceeds the radius, else take
/// the chord intersection nearer the ray origin.
#[verifier::opaque]
pub open spec fn ball_hit(s: S, r: L) -> Option<P> {
    let rv = s_lv(r);
    if s_n2(rv) == 0 {
        None
    } else {
        let p = s_lproj(p3(s.c), p3(r.a), p3(r.b));
        let d = s_dist(p, p3(s.c));
        if s.r@ < d {
            None
        } else {
            let offset = gsqrt(gsub(gmul(s.r@, s.r@), gmul(d, d)));
            let u0 = s_vsub(p, p3(r.a));
            if s_norm(u0) == 0 {
                None
            } else {
                let uu = s_unit(u0);
                let i1 = s_vadd(p, s_scale(uu, offset));
                let i2 = s_vadd(p, s_scale(s_neg(uu), offset));
                if s_dist(i1, p3(r.a)) < s_dist(i2, p3(r.a)) {
                    Some(p_of(i1))
                } else {
                    Some(p_of(i2))
                }
            }
        }
    }
}

/// Reflection of a ray off a sphere; the normal is the unit vector from the
/// center to the hit point.
#[verifier::opaque]
pub open spec fn ball_bounce(s: S, r: L) -> Option<L> {
    match ball_hit(s, r) {
        None => None,
        Some(q) => {
            let rv = s_lv(r);
            if s_norm(rv) == 0 {
                None
            } else {
                let n0 = s_vsub(p3(q), p3(s.c));
                if s_norm(n0) == 0 {
                    None
                } else {
                    s_specular(p3(q), s_unit(rv), s_unit(n0))
                }
            }
        },
    }
}

/// The shared contract of every primitive: `ray_intersection` returns the
/// nearest forward hit on this primitive only, `ray_reflection` the specular
/// bounce anchored there, each pinned to the primitive's spec function.
pub trait Visible: Sized {
    /// Coordinates are in band and the divisors the primitive's formulas
    /// use are nonzero.
    spec fn vis_wf(&self) -> bool;

    /// The point `ray_intersection` returns.
    spec fn spec_hit(&self, r: L) -> Option<P>;

    /// The ray `ray_reflection` returns.
    spec fn spec_bounce(&self, r: L) -> Option<L>;

    fn ray_intersection(&self, r: &L) -> (res: Option<P>)
        requires
            self.vis_wf(),
            r.wf(),
        ensures
            res == self.spec_hit(*r),
            res matches Some(p) ==> p.wf(),
    ;

    fn ray_reflection(&self, r: &L) -> (res: Option<L>)
        requires
            self.vis_wf(),
            r.wf(),
        ensures
            res == self.spec_bounce(*r),
            res matches Some(l) ==> l.wf(),
    ;
}

/// Reflected ray at `q` for unit incoming `vu` and unit normal `nu`.
fn specular(q: &P, vu: &V, nu: &V) -> (res: Option<L>)
    requires
        q.wf(),
        vu.wf(),
        nu.wf(),
    ensures
        res == s_specular(p3(*q), v3(*vu), v3(*nu)),
        res matches Some(l) ==> l.wf(),
{
    let pn2 = nu.n2();
    if pn2.raw == 0 {
        None
    } else {
        let dir = vu.sub(&vu.proj(nu).scale(Fx::from_int(2)));
        let end = q.add(&dir);
        Some(L { a: *q, b: end })
    }
}

impl Visible for L {
    open spec fn vis_wf(&self) -> bool {
        self.wf() && self.nondeg()
    }

    open spec fn spec_hit(&self, r: L) -> Option<P> {
        seg_hit(*self, r)
    }

    open spec fn spec_bounce(&self, r: L) -> Option<L> {
        seg_bounce(*self, r)
    }

    fn ray_intersection(&self, r: &L) -> (res: Option<P>) {
        proof {
            reveal(seg_hit);
        }
        let sv = self.v();
        let rv = r.v();
        let n = sv.pnormal(&rv);
        let num = self.a.sub(&r.a).dot(&n);
        let den = rv.dot(&n);
        if den.raw == 0 && num.raw != 0 {
            return None;
        }
        let d = if den.raw == 0 {
            Fx::zero()
        } else {
            num.div(den)
        };
        let i = r.a.add(&rv.scale(d));
        if rv.dot(&i.sub(&r.a)).raw > 0 && self.contains(&i) {
            Some(i)
        } else {
            None
        }
    }

    fn ray_reflection(&self, r: &L) -> (res: Option<L>) {
        proof {
            reveal(seg_bounce);
        }
        match self.ray_intersection(r) {
            None => None,
            Some(q) => {
                let rv = r.v();
                let rn = rv.n();
                if rn.raw == 0 {
                    return None;
                }
                let vu = rv.u();
                let pn = self.v().pnormal(&vu);
                let pnn = pn.n();
                if pnn.raw == 0 {
                    return None;
                }
                specular(&q, &vu, &pn.u())
            },
        }
    }
}

impl Visible for T {
    open spec fn vis_wf(&self) -> bool {
        self.wf() && tri_nsq(*self) != 0
    }

    open spec fn spec_hit(&self, r: L) -> Option<P> {
        tri_hit(*self, r)
    }

    open spec fn spec_bounce(&self, r: L) -> Option<L> {
        tri_bounce(*self, r)
    }

    fn ray_intersection(&self, r: &L) -> (res: Option<P>) {
        proof {
            reveal(tri_hit);
        }
        let n = self.normal();
        let rv = r.v();
        let nd = self.a.sub(&r.a).dot(&n);
        let nv = rv.dot(&n);
        if nv.raw == 0 && nd.raw != 0 {
            return None;
        }
        let tt = if nv.raw == 0 {
            Fx::zero()
        } else {
            nd.div(nv)
        };
        let i = r.a.add(&rv.scale(tt));
        if rv.dot(&i.sub(&r.a)).raw > 0 && self.contains(&i) {
            Some(i)
        } else {
            None
        }
    }

    fn ray_reflection(&self, r: &L) -> (res: Option<L>) {
        proof {
            reveal(tri_bounce);
        }
        match self.ray_intersection(r) {
            None => None,
            Some(q) => {
                let rv = r.v();
                let rn = rv.n();
                if rn.raw == 0 {
                    return None;
                }
                let n = self.normal();
                let nn = n.n();
                if nn.raw == 0 {
                    return None;
                }
                specular(&q, &rv.u(), &n.u())
            },
        }
    }
}

/// A planar quad given clockwise, stored as the two triangles that share
/// the diagonal from its first to its third corner.
#[derive(Clone, Copy, PartialEq, Eq, Structural, Debug)]
pub struct Q {
    pub ta: T,
    pub tb: T,
}

/// The quad with corners `a`, `b`, `c`, `d` in clockwise order.
pub open spec fn s_cw(a: P, b: P, c: P, d: P) -> Q {
    Q { ta: T { a, b, c }, tb: T { a, b: c, c: d } }
}

impl Q {
    pub open spec fn wf(self) -> bool {
        self.ta.wf() && self.tb.wf()
    }

    /// Build a quad from clockwise corners starting at the top left,
    /// splitting along the diagonal from the first to the third corner.
    pub fn cw(a: P, b: P, c: P, d: P) -> (r: Q)
        ensures
            r == s_cw(a, b, c, d),
    {
        Q { ta: T { a, b, c }, tb: T { a, b: c, c: d } }
    }
}

impl Visible for Q {
    open spec fn vis_wf(&self) -> bool {
        self.wf() && tri_nsq(self.ta) != 0 && tri_nsq(self.tb) != 0
    }

    open spec fn spec_hit(&self, r: L) -> Option<P> {
        quad_hit(*self, r)
    }

    open spec fn spec_bounce(&self, r: L) -> Option<L> {
        quad_bounce(*self, r)
    }

    fn ray_intersection(&self, r: &L) -> (res: Option<P>) {
        proof {
            reveal(quad_hit);
        }
        match self.ta.ray_intersection(r) {
            Some(p) => Some(p),
            None => self.tb.ray_intersection(r),
        }
    }

    fn ray_reflection(&self, r: &L) -> (res: Option<L>) {
        proof {
            reveal(quad_bounce);
        }
        match self.ta.ray_reflection(r) {
            Some(l) => Some(l),
            None => self.tb.ray_reflection(r),
        }
    }
}

/// A sphere with center `c` and radius `r`.
#[derive(Clone, Copy, PartialEq, Eq, Structural, Debug)]
pub struct S {
    pub c: P,
    pub r: Fx,
}

impl S {
    pub open spec fn wf(self) -> bool {
        self.c.wf() && self.r.wf()
    }
}

/// Squaring at the coordinate scale is monotone on `[0, b]`.
pub proof fn lemma_gmul_sqr_mono(a: int, b: int)
    requires
        0 <= a <= b,
    ensures
        0 <= gmul(a, a) <= gmul(b, b),
{
    lemma_sqr_nonneg(a, UNIT as int);
    lemma_sqr_nonneg(b, UNIT as int);
    assert(a * a <= b * b) by (nonlinear_arith)
        requires
            0 <= a <= b,
    ;
    vstd::arithmetic::div_mod::lemma_div_is_ordered(a * a, b * b, UNIT as int);
}

impl Visible for S {
    open spec fn vis_wf(&self) -> bool {
        self.wf()
    }

    open spec fn spec_hit(&self, r: L) -> Option<P> {
        ball_hit(*self, r)
    }

    open spec fn spec_bounce(&self, r: L) -> Option<L> {
        ball_bounce(*self, r)
    }

    fn ray_intersection(&self, r: &L) -> (res: Option<P>) {
        proof {
            reveal(ball_hit);
        }
        let rv = r.v();
        if rv.n2().raw == 0 {
            return None;
        }
        let p = self.c.lproj(r);
        let d = p.dist(&self.c);
        if self.r.raw < d.raw {
            None
        } else {
            proof {
                lemma_gmul_sqr_mono(d@, self.r@);
            }
            let offset = self.r.mul(self.r).sub(d.mul(d)).sqrt();
            let u0 = p.sub(&r.a);
            let un = u0.n();
            if un.raw == 0 {
                return None;
            }
            let uu = u0.u();
            let i1 = p.add(&uu.scale(offset));
            let i2 = p.add(&uu.neg().scale(offset));
            if i1.dist(&r.a).raw < i2.dist(&r.a).raw {
                Some(i1)
            } else {
                Some(i2)
            }
        }
    }

    fn ray_reflection(&self, r: &L) -> (res: Option<L>) {
        proof {
            reveal(ball_bounce);
        }
        match self.ray_intersection(r) {
            None => None,
            Some(q) => {
                let rv = r.v();
                let rn = rv.n();
                if rn.raw == 0 {
                    return None;
                }
                let n0 = q.sub(&self.c);
                let nn = n0.n();
                if nn.raw == 0 {
                    return None;
                }
                specular(&q, &rv.u(), &n0.u())
            },
        }
    }
}

/// A scene primitive: any shape a wall or a target may be.
#[derive(Clone, Copy, PartialEq, Eq, Structural, Debug)]
pub enum Shape {
    Seg(L),
    Tri(T),
    Quad(Q),
    Ball(S),
}

impl Visible for Shape {
    open spec fn vis_wf(&self) -> bool {
        match *self {
            Shape::Seg(l) => l.vis_wf(),
            Shape::Tri(t) => t.vis_wf(),
            Shape::Quad(q) => q.vis_wf(),
            Shape::Ball(s) => s.vis_wf(),
        }
    }

    open spec fn spec_hit(&self, r: L) -> Option<P> {
        match *self {
            Shape::Seg(l) => l.spec_hit(r),
            Shape::Tri(t) => t.spec_hit(r),
            Shape::Quad(q) => q.spec_hit(r),
            Shape::Ball(s) => s.spec_hit(r),
        }
    }

    open spec fn spec_bounce(&self, r: L) -> Option<L> {
        match *self {
            Shape::Seg(l) => l.spec_bounce(r),
            Shape::Tri(t) => t.spec_bounce(r),
            Shape::Quad(q) => q.spec_bounce(r),
            Shape::Ball(s) => s.spec_bounce(r),
        }
    }

    fn ray_intersection(&self, r: &L) -> (res: Option<P>) {
        match self {
            Shape::Seg(l) => l.ray_intersection(r),
            Shape::Tri(t) => t.ray_intersection(r),
            Shape::Quad(q) => q.ray_intersection(r),
            Shape::Ball(s) => s.ray_intersection(r),
        }
    }

    fn ray_reflection(&self, r: &L) -> (res: Option<L>) {
        match self {
            Shape::Seg(l) => l.ray_reflection(r),
            Shape::Tri(t) => t.ray_reflection(r),
            Shape::Quad(q) => q.ray_reflection(r),
            Shape::Ball(s) => s.ray_reflection(r),
        }
    }
}


/// A point displaced by a vector, at the raw level.
pub open spec fn s_padd(p: P, v: V) -> P {
    p_of(s_vadd(p3(p), v3(v)))
}

/// The sum of two vectors, at the raw level.
pub open spec fn s_vv(u: V, v: V) -> V {
    v_of(s_vadd(v3(u), v3(v)))
}

/// The five or six wall quads of a box at corner `c` with width, height and
/// depth offsets; the flag controls the sixth ("front") face.
pub open spec fn spec_make_box(w: Fx, h: Fx, d: Fx, c: P, front: bool) -> Seq<Q> {
    let woff = V { x: w, y: Fx { raw: 0 }, z: Fx { raw: 0 } };
    let hoff = V { x: Fx { raw: 0 }, y: h, z: Fx { raw: 0 } };
    let doff = V { x: Fx { raw: 0 }, y: Fx { raw: 0 }, z: d };
    let back = s_cw(c, s_padd(c, woff), s_padd(c, s_vv(woff, hoff)), s_padd(c, hoff));
    let right = s_cw(
        s_padd(c, woff),
        s_padd(c, s_vv(woff, hoff)),
        s_padd(c, s_vv(woff, s_vv(hoff, doff))),
        s_padd(c, s_vv(woff, doff)),
    );
    let left = s_cw(c, s_padd(c, hoff), s_padd(c, s_vv(hoff, doff)), s_padd(c, doff));
    let top = s_cw(c, s_padd(c, doff), s_padd(c, s_vv(woff, doff)), s_padd(c, woff));
    let bottom = s_cw(
        s_padd(c, hoff),
        s_padd(c, s_vv(hoff, doff)),
        s_padd(c, s_vv(woff, s_vv(hoff, doff))),
        s_padd(c, s_vv(woff, hoff)),
    );
    let face = s_cw(
        s_padd(c, doff),
        s_padd(c, s_vv(woff, doff)),
        s_padd(c, s_vv(woff, s_vv(hoff, doff))),
        s_padd(c, s_vv(hoff, doff)),
    );
    if front {
        seq![back, right, left, top, bottom, face]
    } else {
        seq![back, right, left, top, bottom]
    }
}

/// Assemble the walls of a box from a corner point and width, height and
/// depth offsets; `front` controls whether the sixth face is included.
pub fn make_box(w: Fx, h: Fx, d: Fx, c: P, front: bool) -> (r: Vec<Q>)
    requires
        w.wf(),
        h.wf(),
        d.wf(),
        c.wf(),
    ensures
        r@ == spec_make_box(w, h, d, c, front),
        r@.len() == if front { 6int } else { 5int },
        forall|i: int| 0 <= i < r@.len() ==> (#[trigger] r@[i]).wf(),
{
    let zero = Fx::zero();
    let woff = V::new(w, zero, zero);
    let hoff = V::new(zero, h, zero);
    let doff = V::new(zero, zero, d);
    let mut r: Vec<Q> = Vec::new();
    r.push(Q::cw(c, c.add(&woff), c.add(&woff.add(&hoff)), c.add(&hoff)));
    r.push(
        Q::cw(
            c.add(&woff),
            c.add(&woff.add(&hoff)),
            c.add(&woff.add(&hoff.add(&doff))),
            c.add(&woff.add(&doff)),
        ),
    );
    r.push(Q::cw(c, c.add(&hoff), c.add(&hoff.add(&doff)), c.add(&doff)));
    r.push(Q::cw(c, c.add(&doff), c.add(&woff.add(&doff)), c.add(&woff)));
    r.push(
        Q::cw(
            c.add(&hoff),
            c.add(&hoff.add(&doff)),
            c.add(&woff.add(&hoff.add(&doff))),
            c.add(&woff.add(&hoff)),
        ),
    );
    if front {
        r.push(
            Q::cw(
                c.add(&doff),
                c.add(&woff.add(&doff)),
                c.add(&woff.add(&hoff.add(&doff))),
                c.add(&hoff.add(&doff)),
            ),
        );
    }
    proof {
        assert(r@ =~= spec_make_box(w, h, d, c, front));
    }
    r
}

/// Exact (unrounded) componentwise difference, used only to state laws.
pub open spec fn x_sub(u: (int, int, int), v: (int, int, int)) -> (int, int, int) {
    (u.0 - v.0, u.1 - v.1, u.2 - v.2)
}

/// Exact componentwise sum.
pub open spec fn x_add(u: (int, int, int), v: (int, int, int)) -> (int, int, int) {
    (u.0 + v.0, u.1 + v.1, u.2 + v.2)
}

/// Exact cross product.
pub open spec fn x_cross(u: (int, int, int), v: (int, int, int)) -> (int, int, int) {
    (u.1 * v.2 - u.2 * v.1, u.2 * v.0 - u.0 * v.2, u.0 * v.1 - u.1 * v.0)
}

/// Exact dot product.
pub open spec fn x_dot(u: (int, int, int), v: (int, int, int)) -> int {
    u.0 * v.0 + u.1 * v.1 + u.2 * v.2
}

/// The three exact barycentric numerators of a point `p` against a triangle
/// `(a, b, c)` sum to the squared normal `n . n`.
pub open spec fn bary_sum_holds(
    a: (int, int, int),
    b: (int, int, int),
    c: (int, int, int),
    p: (int, int, int),
) -> bool {
    let u = x_sub(b, a);
    let v = x_sub(c, a);
    let w = x_sub(p, a);
    let n = x_cross(u, v);
    x_dot(x_cross(u, w), n) + x_dot(x_cross(w, v), n) + x_dot(x_cross(x_sub(c, b), x_sub(p, b)), n)
        == x_dot(n, n)
}

/// The barycentric coordinates of any point against a non-degenerate
/// triangle sum to one: their three numerators, each the triple product the
/// containment test divides by the squared normal, sum exactly to the
/// squared normal itself. This holds for every point, in or out of the
/// triangle's plane, because the off-plane component cancels against the
/// normal in each triple product.
pub proof fn lemma_barycentric_sum(
    a: (int, int, int),
    b: (int, int, int),
    c: (int, int, int),
    p: (int, int, int),
)
    ensures
        bary_sum_holds(a, b, c, p),
{
    let u = x_sub(b, a);
    let v = x_sub(c, a);
    let w = x_sub(p, a);
    let n = x_cross(u, v);
    // The three cross products sum to the normal itself, componentwise.
    assert(u.1 * w.2 - u.2 * w.1 + (w.1 * v.2 - w.2 * v.1) + ((v.1 - u.1) * (w.2 - u.2) - (v.2
        - u.2) * (w.1 - u.1)) == u.1 * v.2 - u.2 * v.1) by (nonlinear_arith);
    assert(u.2 * w.0 - u.0 * w.2 + (w.2 * v.0 - w.0 * v.2) + ((v.2 - u.2) * (w.0 - u.0) - (v.0
        - u.0) * (w.2 - u.2)) == u.2 * v.0 - u.0 * v.2) by (nonlinear_arith);
    assert(u.0 * w.1 - u.1 * w.0 + (w.0 * v.1 - w.1 * v.0) + ((v.0 - u.0) * (w.1 - u.1) - (v.1
        - u.1) * (w.0 - u.0)) == u.0 * v.1 - u.1 * v.0) by (nonlinear_arith);
    assert(x_add(x_add(x_cross(u, w), x_cross(w, v)), x_cross(x_sub(v, u), x_sub(w, u)))
        == x_cross(u, v));
    // Dotting with `n` distributes over that sum.
    lemma_x_dot_linear(x_cross(u, w), x_cross(w, v), n);
    lemma_x_dot_linear(x_add(x_cross(u, w), x_cross(w, v)), x_cross(x_sub(v, u), x_sub(w, u)), n);
    assert(x_sub(c, b) == x_sub(v, u));
    assert(x_sub(p, b) == x_sub(w, u));
}

/// The barycentric-sum law stated on a triangle and a point directly.
pub proof fn lemma_triangle_barycentric(t: T, p: P)
    ensures
        bary_sum_holds(p3(t.a), p3(t.b), p3(t.c), p3(p)),
{
    lemma_barycentric_sum(p3(t.a), p3(t.b), p3(t.c), p3(p));
}

/// Dotting against a fixed vector distributes over vector addition.
pub proof fn lemma_x_dot_linear(u: (int, int, int), v: (int, int, int), n: (int, int, int))
    ensures
        x_dot(x_add(u, v), n) == x_dot(u, n) + x_dot(v, n),
{
    assert((u.0 + v.0) * n.0 == u.0 * n.0 + v.0 * n.0) by (nonlinear_arith);
    assert((u.1 + v.1) * n.1 == u.1 * n.1 + v.1 * n.1) by (nonlinear_arith);
    assert((u.2 + v.2) * n.2 == u.2 * n.2 + v.2 * n.2) by (nonlinear_arith);
}

} // verus!
