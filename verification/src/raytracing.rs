//! The bounce-limited, distance-limited forward ray tracer and the Monte
//! Carlo room profiler that bins its hits into an impulse-response kernel.

use vstd::prelude::*;

use crate::fixed::{iabs, tdiv};
use crate::geometry::{
    fx_of, gadd, gdiv, gmul, gsub, p3, p_of, s_dist, s_lv, s_scale, s_vadd, v3, Fx, Shape, Visible,
    L, P, V, UNIT,
};

verus! {

/// A wall hit this close to the ray origin is discarded as a self-hit
/// (`1e-7` in units).
pub const EPS_SELF: i64 = 429;

/// Reflected rays start this far along their direction from the surface, to
/// avoid self-occlusion (`1e-5` in units).
pub const EPS_OFFSET: i64 = 42950;

/// One accepted target intersection: the accumulated distance and the
/// number of bounces the ray had taken.
#[derive(Clone, Copy, PartialEq, Eq, Structural, Debug)]
pub struct Hit {
    pub distance: Fx,
    pub bounces: u32,
}

/// The remaining bounce budget, used as the tracer's termination measure.
pub open spec fn bounce_budget(bounce: int, max_bounce: int) -> int {
    if bounce <= max_bounce {
        max_bounce + 1 - bounce
    } else {
        0
    }
}

/// Every primitive of a scene is well formed.
pub open spec fn scene_wf(s: Seq<Shape>) -> bool {
    forall|i: int| 0 <= i < s.len() ==> (#[trigger] s[i]).vis_wf()
}

/// The distance at which a ray hits a shape, if it hits it farther than the
/// self-hit tolerance.
pub open spec fn shape_hit_dist(sh: Shape, r: L) -> Option<int> {
    match sh.spec_hit(r) {
        None => None,
        Some(p) => {
            let d = s_dist(p3(r.a), p3(p));
            if d > EPS_SELF {
                Some(d)
            } else {
                None
            }
        },
    }
}

/// The first shape of the scene achieving the least hit distance, scanned
/// front to back (a later shape wins only by a strictly smaller distance),
/// with that distance.
pub open spec fn s_nearest(scene: Seq<Shape>, r: L) -> Option<(int, int)>
    decreases scene.len(),
{
    if scene.len() == 0 {
        None
    } else {
        let prev = s_nearest(scene.drop_last(), r);
        let li = scene.len() - 1;
        match shape_hit_dist(scene.last(), r) {
            None => prev,
            Some(dl) => match prev {
                None => Some((li as int, dl)),
                Some(w) => if dl < w.1 {
                    Some((li as int, dl))
                } else {
                    Some(w)
                },
            },
        }
    }
}

/// The spec view of the scan state.
pub open spec fn opt_view(o: Option<(usize, Fx)>) -> Option<(int, int)> {
    match o {
        None => None,
        Some(p) => Some((p.0 as int, p.1@)),
    }
}

/// Scan all scene primitives and keep the nearest intersection farther from
/// the ray origin than the self-hit tolerance.
#[verifier::rlimit(60)]
pub fn nearest_wall(scene: &Vec<Shape>, r: &L) -> (res: Option<(usize, Fx)>)
    requires
        scene_wf(scene@),
        r.wf(),
    ensures
        opt_view(res) == s_nearest(scene@, *r),
        res matches Some(p) ==> p.0 < scene@.len() && p.1.wf(),
{
    let mut best: Option<(usize, Fx)> = None;
    let mut i: usize = 0;
    while i < scene.len()
        invariant
            scene_wf(scene@),
            r.wf(),
            i <= scene@.len(),
            opt_view(best) == s_nearest(scene@.subrange(0, i as int), *r),
            best matches Some(p) ==> p.0 < i && p.1.wf(),
        decreases scene@.len() - i,
    {
        let ghost prefix = scene@.subrange(0, i as int);
        match scene[i].ray_intersection(r) {
            Some(p) => {
                let d = r.a.dist(&p);
                if d.raw > EPS_SELF {
                    match best {
                        None => {
                            best = Some((i, d));
                        },
                        Some(b) => {
                            if d.raw < b.1.raw {
                                best = Some((i, d));
                            }
                        },
                    }
                }
            },
            None => {},
        }
        proof {
            let next = scene@.subrange(0, i + 1);
            assert(next.drop_last() =~= prefix);
            assert(next.last() == scene@[i as int]);
        }
        i = i + 1;
    }
    proof {
        assert(scene@.subrange(0, scene@.len() as int) =~= scene@);
    }
    best
}

/// The hit records the tracer produces from the given state: nothing once
/// the distance or bounce budget is exhausted; otherwise the target is
/// tested against the nearest wall hit, a record is kept when the target is
/// not occluded, and the ray reflects off the wall and goes on. The record
/// accumulates the distance so far, the wall-hit distance and the target-hit
/// distance, as the profiler's delay metric is defined.
pub open spec fn spec_trace(
    scene: Seq<Shape>,
    target: Shape,
    r: L,
    bounce: int,
    max_bounce: int,
    dist: int,
    max_dist: int,
) -> Seq<Hit>
    decreases max_bounce + 1 - bounce,
{
    if dist > max_dist || bounce > max_bounce {
        Seq::empty()
    } else {
        let wall = s_nearest(scene, r);
        let trec: Seq<Hit> = match target.spec_hit(r) {
            None => Seq::empty(),
            Some(p) => {
                let td = s_dist(p3(r.a), p3(p));
                match wall {
                    None => seq![Hit { distance: fx_of(gadd(dist, td)), bounces: bounce as u32 }],
                    Some(w) => if td <= w.1 {
                        seq![
                            Hit {
                                distance: fx_of(gadd(gadd(dist, w.1), td)),
                                bounces: bounce as u32,
                            },
                        ]
                    } else {
                        Seq::empty()
                    },
                }
            },
        };
        let deeper: Seq<Hit> = match wall {
            None => Seq::empty(),
            Some(w) => match scene[w.0].spec_bounce(r) {
                None => Seq::empty(),
                Some(refl) => {
                    let off = s_scale(s_lv(refl), EPS_OFFSET as int);
                    let r2 = L {
                        a: p_of(s_vadd(p3(refl.a), off)),
                        b: p_of(s_vadd(p3(refl.b), off)),
                    };
                    spec_trace(
                        scene,
                        target,
                        r2,
                        bounce + 1,
                        max_bounce,
                        gadd(dist, w.1),
                        max_dist,
                    )
                },
            },
        };
        trec + deeper
    }
}

/// Trace a ray through the scene, recording each unoccluded target hit,
/// reflecting off the nearest wall, until the bounce or distance budget is
/// exhausted or the ray escapes.
#[verifier::rlimit(60)]
pub fn forward_ray_trace(
    ray: &L,
    scene: &Vec<Shape>,
    target: &Shape,
    bounces: u32,
    max_bounces: u32,
    distance: Fx,
    max_distance: Fx,
) -> (hits: Vec<Hit>)
    requires
        ray.wf(),
        scene_wf(scene@),
        target.vis_wf(),
        distance.wf(),
        max_distance.wf(),
        max_bounces < 4294967295,
    ensures
        hits@ == spec_trace(
            scene@,
            *target,
            *ray,
            bounces as int,
            max_bounces as int,
            distance@,
            max_distance@,
        ),
        forall|i: int|
            0 <= i < hits@.len() ==> bounces <= (#[trigger] hits@[i]).bounces <= max_bounces,
        hits@.len() <= bounce_budget(bounces as int, max_bounces as int),
{
    proof {
        lemma_trace_bounds(
            scene@,
            *target,
            *ray,
            bounces as int,
            max_bounces as int,
            distance@,
            max_distance@,
        );
    }
    let mut hits: Vec<Hit> = Vec::new();
    let mut cur: L = *ray;
    let mut dist: Fx = distance;
    let mut bounce: u32 = bounces;
    proof {
        assert(hits@ + spec_trace(
            scene@,
            *target,
            *ray,
            bounces as int,
            max_bounces as int,
            distance@,
            max_distance@,
        ) =~= spec_trace(
            scene@,
            *target,
            *ray,
            bounces as int,
            max_bounces as int,
            distance@,
            max_distance@,
        ));
    }
    loop
        invariant_except_break
            spec_trace(
                scene@,
                *target,
                *ray,
                bounces as int,
                max_bounces as int,
                distance@,
                max_distance@,
            ) == hits@ + spec_trace(
                scene@,
                *target,
                cur,
                bounce as int,
                max_bounces as int,
                dist@,
                max_distance@,
            ),
        invariant
            scene_wf(scene@),
            target.vis_wf(),
            cur.wf(),
            dist.wf(),
            max_distance.wf(),
            max_bounces < 4294967295,
            bounces <= bounce,
        ensures
            hits@ == spec_trace(
                scene@,
                *target,
                *ray,
                bounces as int,
                max_bounces as int,
                distance@,
                max_distance@,
            ),
        decreases bounce_budget(bounce as int, max_bounces as int),
    {
        let ghost rem = spec_trace(
            scene@,
            *target,
            cur,
            bounce as int,
            max_bounces as int,
            dist@,
            max_distance@,
        );
        if dist.raw > max_distance.raw || bounce > max_bounces {
            proof {
                assert(rem =~= Seq::<Hit>::empty());
                assert(hits@ + rem =~= hits@);
            }
            break;
        }
        let ghost hits0 = hits@;
        let wall = nearest_wall(scene, &cur);
        let ghost trec: Seq<Hit> = match target.spec_hit(cur) {
            None => Seq::empty(),
            Some(p) => {
                let td = s_dist(p3(cur.a), p3(p));
                match s_nearest(scene@, cur) {
                    None => seq![
                        Hit { distance: fx_of(gadd(dist@, td)), bounces: bounce as u32 },
                    ],
                    Some(w) => if td <= w.1 {
                        seq![
                            Hit {
                                distance: fx_of(gadd(gadd(dist@, w.1), td)),
                                bounces: bounce as u32,
                            },
                        ]
                    } else {
                        Seq::empty()
                    },
                }
            },
        };
        match target.ray_intersection(&cur) {
            Some(p) => {
                let td = cur.a.dist(&p);
                match wall {
                    None => {
                        let total = dist.add(td);
                        hits.push(Hit { distance: total, bounces: bounce });
                        proof {
                            crate::geometry::lemma_fx_of(total, gadd(dist@, td@));
                            assert(hits@ =~= hits0 + trec);
                        }
                    },
                    Some(w) => {
                        if td.raw <= w.1.raw {
                            let total = dist.add(w.1).add(td);
                            hits.push(Hit { distance: total, bounces: bounce });
                            proof {
                                crate::geometry::lemma_fx_of(
                                    total,
                                    gadd(gadd(dist@, w.1@), td@),
                                );
                                assert(hits@ =~= hits0 + trec);
                            }
                        } else {
                            proof {
                                assert(hits@ =~= hits0 + trec);
                            }
                        }
                    },
                }
            },
            None => {
                proof {
                    assert(hits@ =~= hits0 + trec);
                }
            },
        }
        match wall {
            None => {
                proof {
                    assert(rem =~= trec);
                    assert(hits@ + Seq::<Hit>::empty() =~= hits@);
                    assert(hits0 + rem =~= hits@);
                }
                break;
            },
            Some(w) => {
                match scene[w.0].ray_reflection(&cur) {
                    None => {
                        proof {
                            assert(rem =~= trec);
                            assert(hits0 + rem =~= hits@);
                        }
                        break;
                    },
                    Some(refl) => {
                        let dv = refl.v();
                        let off = dv.scale(Fx { raw: EPS_OFFSET });
                        let next = L { a: refl.a.add(&off), b: refl.b.add(&off) };
                        let ghost deeper = spec_trace(
                            scene@,
                            *target,
                            next,
                            bounce + 1 as int,
                            max_bounces as int,
                            gadd(dist@, w.1@),
                            max_distance@,
                        );
                        proof {
                            let spec_off = s_scale(s_lv(refl), EPS_OFFSET as int);
                            crate::geometry::lemma_p_of(next.a, s_vadd(p3(refl.a), spec_off));
                            crate::geometry::lemma_p_of(next.b, s_vadd(p3(refl.b), spec_off));
                            assert(rem == trec + deeper);
                            assert(hits0 + rem =~= hits@ + deeper);
                        }
                        dist = dist.add(w.1);
                        bounce = bounce + 1;
                        cur = next;
                    },
                }
            },
        }
    }
    hits
}


/// Every record the tracer produces carries a bounce count between the
/// starting count and the limit, and there is at most one record per
/// allowed bounce.
pub proof fn lemma_trace_bounds(
    scene: Seq<Shape>,
    target: Shape,
    r: L,
    bounce: int,
    max_bounce: int,
    dist: int,
    max_dist: int,
)
    requires
        0 <= bounce,
        max_bounce < 4294967296,
    ensures
        spec_trace(scene, target, r, bounce, max_bounce, dist, max_dist).len() <= bounce_budget(
            bounce,
            max_bounce,
        ),
        forall|i: int|
            0 <= i < spec_trace(scene, target, r, bounce, max_bounce, dist, max_dist).len()
                ==> bounce <= (#[trigger] spec_trace(
                scene,
                target,
                r,
                bounce,
                max_bounce,
                dist,
                max_dist,
            )[i]).bounces <= max_bounce,
        forall|i: int|
            0 <= i < spec_trace(scene, target, r, bounce, max_bounce, dist, max_dist).len() ==> (
            #[trigger] spec_trace(scene, target, r, bounce, max_bounce, dist, max_dist)[i]).distance.wf(),
    decreases max_bounce + 1 - bounce,
{
    let h = spec_trace(scene, target, r, bounce, max_bounce, dist, max_dist);
    if dist > max_dist || bounce > max_bounce {
    } else {
        let wall = s_nearest(scene, r);
        let trec: Seq<Hit> = match target.spec_hit(r) {
            None => Seq::empty(),
            Some(p) => {
                let td = s_dist(p3(r.a), p3(p));
                match wall {
                    None => seq![Hit { distance: fx_of(gadd(dist, td)), bounces: bounce as u32 }],
                    Some(w) => if td <= w.1 {
                        seq![
                            Hit {
                                distance: fx_of(gadd(gadd(dist, w.1), td)),
                                bounces: bounce as u32,
                            },
                        ]
                    } else {
                        Seq::empty()
                    },
                }
            },
        };
        let deeper: Seq<Hit> = match wall {
            None => Seq::empty(),
            Some(w) => match scene[w.0].spec_bounce(r) {
                None => Seq::empty(),
                Some(refl) => {
                    let off = s_scale(s_lv(refl), EPS_OFFSET as int);
                    let r2 = L {
                        a: p_of(s_vadd(p3(refl.a), off)),
                        b: p_of(s_vadd(p3(refl.b), off)),
                    };
                    spec_trace(scene, target, r2, bounce + 1, max_bounce, gadd(dist, w.1), max_dist)
                },
            },
        };
        assert(h == trec + deeper);
        match wall {
            None => {},
            Some(w) => {
                match scene[w.0].spec_bounce(r) {
                    None => {},
                    Some(refl) => {
                        let off = s_scale(s_lv(refl), EPS_OFFSET as int);
                        let r2 = L {
                            a: p_of(s_vadd(p3(refl.a), off)),
                            b: p_of(s_vadd(p3(refl.b), off)),
                        };
                        lemma_trace_bounds(
                            scene,
                            target,
                            r2,
                            bounce + 1,
                            max_bounce,
                            gadd(dist, w.1),
                            max_dist,
                        );
                    },
                }
            },
        }
        assert forall|i: int|
            0 <= i < h.len() implies bounce <= (#[trigger] h[i]).bounces <= max_bounce && h[
            i].distance.wf() by {
            if i < trec.len() {
                assert(h[i] == trec[i]);
            } else {
                assert(h[i] == deeper[i - trec.len()]);
            }
        }
    }
}

/// With the bounce limit zero, only a direct line-of-sight hit on the
/// target can be recorded: at most one record, and its bounce count is
/// zero, so no reflection contributes.
pub proof fn lemma_trace_direct_only(
    scene: Seq<Shape>,
    target: Shape,
    r: L,
    dist: int,
    max_dist: int,
)
    ensures
        spec_trace(scene, target, r, 0, 0, dist, max_dist).len() <= 1,
        forall|i: int|
            0 <= i < spec_trace(scene, target, r, 0, 0, dist, max_dist).len() ==> (
            #[trigger] spec_trace(scene, target, r, 0, 0, dist, max_dist)[i]).bounces == 0,
{
    lemma_trace_bounds(scene, target, r, 0, 0, dist, max_dist);
}

/// Relies on rand::random_range on a half-open `i64` range: the result is a
/// value of that range ("Generate a random value in the given range"; the
/// call panics only on an empty range, which the precondition excludes).
#[verifier::external_body]
fn random_in_range(lo: i64, hi: i64) -> (r: i64)
    requires
        lo < hi,
    ensures
        lo <= r < hi,
{
    rand::random_range(lo..hi)
}

/// Half a turn at the coordinate scale: angles are drawn from `[0, pi)`.
pub const PI_G: i64 = 13493037705;

/// The direction the profiler shoots for draws `u` (the vertical component,
/// in `[-1, 1]`) and `t` (an angle in `[0, pi)`):
/// `((1 - u^2) cos t, (1 - u^2) sin t, u)`.
pub open spec fn spec_direction(u: int, t: int) -> (int, int, int) {
    let c = tdiv(crate::trig::spec_cos_rad(t * 65536), 65536);
    let sn = tdiv(crate::trig::spec_sin_rad(t * 65536), 65536);
    let f = gsub(UNIT as int, gmul(u, u));
    (gmul(f, c), gmul(f, sn), u)
}

/// The sample direction for the draws `u` and `t`.
pub fn direction_from(u: Fx, t: Fx) -> (r: V)
    requires
        u.wf(),
        t.wf(),
        0 <= t@ < PI_G,
    ensures
        v3(r) == spec_direction(u@, t@),
        r.wf(),
{
    let t48 = crate::trig::widen_raw(t.raw);
    let c = Fx { raw: crate::trig::narrow_raw(crate::trig::cos_rad(t48)) };
    let sn = Fx { raw: crate::trig::narrow_raw(crate::trig::sin_rad(t48)) };
    let f = Fx::one().sub(u.mul(u));
    V { x: f.mul(c), y: f.mul(sn), z: u }
}

/// Draw a direction from the unit sphere: `u` uniform on `[-1, 1]` and an
/// angle `t` uniform on `[0, pi)` give `((1 - u^2) cos t, (1 - u^2) sin t, u)`.
/// (This sampler is not a true uniform-sphere distribution; the density
/// favors the poles, which is the distribution the profiler is defined
/// over.) Every outcome is some draw's direction.
pub fn random_spherical_direction() -> (r: V)
    ensures
        r.wf(),
        exists|u: int, t: int|
            -(UNIT as int) <= u <= UNIT as int && 0 <= t < PI_G && v3(r) == #[trigger] spec_direction(
                u,
                t,
            ),
{
    let u = Fx { raw: random_in_range(-UNIT, UNIT + 1) };
    let t = Fx { raw: random_in_range(0, PI_G) };
    let r = direction_from(u, t);
    proof {
        assert(v3(r) == spec_direction(u@, t@));
    }
    r
}


/// The raw values a kernel's entries carry.
pub open spec fn kview(s: Seq<Fx>) -> Seq<int> {
    Seq::new(s.len(), |i: int| s[i]@)
}

/// `base` raised to the `n`-th power at the coordinate scale, multiplied up
/// from one.
pub open spec fn spec_fxpow(b: int, n: nat) -> int
    decreases n,
{
    if n == 0 {
        UNIT as int
    } else {
        gmul(spec_fxpow(b, (n - 1) as nat), b)
    }
}

/// `base^n` at the coordinate scale.
pub fn fx_pow(base: Fx, n: u32) -> (r: Fx)
    requires
        base.wf(),
    ensures
        r@ == spec_fxpow(base@, n as nat),
        r.wf(),
{
    let mut acc = Fx::one();
    let mut i: u32 = 0;
    while i < n
        invariant
            base.wf(),
            acc.wf(),
            i <= n,
            acc@ == spec_fxpow(base@, i as nat),
        decreases n - i,
    {
        acc = acc.mul(base);
        i = i + 1;
    }
    acc
}

/// The output-sample index of a hit: the delay `rate * d / c` rounded to
/// the nearest whole sample.
pub open spec fn spec_round_index(d: int, c: int, rate: int) -> int {
    (gdiv(gmul(rate, d), c) + 2147483648) / 4294967296
}

/// The pressure contribution of a hit: the base amplitude over the total
/// distance, decayed once per bounce.
pub open spec fn spec_contrib(h: Hit, c: int, decay: int, base: int) -> int {
    gmul(gdiv(base, h.distance@), spec_fxpow(gsub(UNIT as int, decay), h.bounces as nat))
}

/// The kernel the hits bin into: each hit with positive distance adds its
/// contribution at its sample index, growing the kernel with zero entries
/// as needed; hits with nonpositive distance contribute nothing.
pub open spec fn spec_bin(hits: Seq<Hit>, c: int, decay: int, base: int, rate: int) -> Seq<int>
    decreases hits.len(),
{
    if hits.len() == 0 {
        Seq::empty()
    } else {
        let prev = spec_bin(hits.drop_last(), c, decay, base, rate);
        let h = hits.last();
        if h.distance@ <= 0 {
            prev
        } else {
            let idx = spec_round_index(h.distance@, c, rate);
            let grown = if prev.len() > idx {
                prev
            } else {
                prev + Seq::new((idx + 1 - prev.len()) as nat, |j: int| 0int)
            };
            grown.update(idx, gadd(grown[idx], spec_contrib(h, c, decay, base)))
        }
    }
}

/// Bin accepted hits into a time-indexed kernel: index = the rounded delay
/// in output samples, value = the summed pressure contributions.
#[verifier::rlimit(60)]
pub fn bin_hits(
    hits: &Vec<Hit>,
    speed_of_sound: Fx,
    decay: Fx,
    base_impulse: Fx,
    sample_rate: Fx,
) -> (kernel: Vec<Fx>)
    requires
        speed_of_sound.wf(),
        decay.wf(),
        base_impulse.wf(),
        sample_rate.wf(),
        speed_of_sound@ > 0,
        sample_rate@ > 0,
        forall|i: int| 0 <= i < hits@.len() ==> (#[trigger] hits@[i]).distance.wf(),
    ensures
        kview(kernel@) == spec_bin(hits@, speed_of_sound@, decay@, base_impulse@, sample_rate@),
        forall|i: int| 0 <= i < kernel@.len() ==> (#[trigger] kernel@[i]).wf(),
{
    let mut kernel: Vec<Fx> = Vec::new();
    let mut k: usize = 0;
    proof {
        assert(kview(kernel@) =~= spec_bin(
            hits@.subrange(0, 0),
            speed_of_sound@,
            decay@,
            base_impulse@,
            sample_rate@,
        ));
    }
    while k < hits.len()
        invariant
            speed_of_sound.wf(),
            decay.wf(),
            base_impulse.wf(),
            sample_rate.wf(),
            speed_of_sound@ > 0,
            sample_rate@ > 0,
            forall|i: int| 0 <= i < hits@.len() ==> (#[trigger] hits@[i]).distance.wf(),
            k <= hits@.len(),
            kview(kernel@) == spec_bin(
                hits@.subrange(0, k as int),
                speed_of_sound@,
                decay@,
                base_impulse@,
                sample_rate@,
            ),
            forall|i: int| 0 <= i < kernel@.len() ==> (#[trigger] kernel@[i]).wf(),
        decreases hits@.len() - k,
    {
        let ghost prefix = hits@.subrange(0, k as int);
        let ghost prev = kernel@;
        let h = hits[k];
        if h.distance.raw > 0 {
            let idx_fx = sample_rate.mul(h.distance).div(speed_of_sound);
            proof {
                crate::fixed::lemma_mul_sign(sample_rate@, h.distance@);
                crate::fixed::lemma_mul_sign(
                    gmul(sample_rate@, h.distance@) * UNIT,
                    speed_of_sound@,
                );
                crate::fixed::lemma_mul_sign(gmul(sample_rate@, h.distance@), UNIT as int);
            }
            let idx: usize = (((idx_fx.raw as u64) + 2147483648) / 4294967296) as usize;
            let decay_factor = fx_pow(Fx::one().sub(decay), h.bounces);
            let pressure = base_impulse.div(h.distance).mul(decay_factor);
            while kernel.len() <= idx
                invariant
                    prev.len() <= kernel@.len(),
                    kernel@.len() > prev.len() ==> kernel@.len() <= idx + 1,
                    kernel@ =~= prev + Seq::new(
                        (kernel@.len() - prev.len()) as nat,
                        |j: int| Fx { raw: 0 },
                    ),
                    forall|i: int| 0 <= i < kernel@.len() ==> (#[trigger] kernel@[i]).wf(),
                decreases idx + 1 - kernel@.len(),
            {
                kernel.push(Fx { raw: 0 });
                proof {
                    assert(kernel@ =~= prev + Seq::new(
                        (kernel@.len() - prev.len()) as nat,
                        |j: int| Fx { raw: 0 },
                    ));
                }
            }
            let cur = kernel[idx];
            let updated = cur.add(pressure);
            kernel.set(idx, updated);
            proof {
                let c = speed_of_sound@;
                let dc = decay@;
                let ba = base_impulse@;
                let ra = sample_rate@;
                let next = hits@.subrange(0, k + 1);
                assert(next.drop_last() =~= prefix);
                assert(next.last() == hits@[k as int]);
                let prevk = spec_bin(prefix, c, dc, ba, ra);
                let grown = if prevk.len() > spec_round_index(h.distance@, c, ra) {
                    prevk
                } else {
                    prevk + Seq::new(
                        (spec_round_index(h.distance@, c, ra) + 1 - prevk.len()) as nat,
                        |j: int| 0int,
                    )
                };
                assert(idx == spec_round_index(h.distance@, c, ra));
                assert(kview(kernel@) =~= grown.update(
                    idx as int,
                    gadd(grown[idx as int], spec_contrib(h, c, dc, ba)),
                ));
                assert(kview(kernel@) =~= spec_bin(next, c, dc, ba, ra));
            }
        } else {
            proof {
                let next = hits@.subrange(0, k + 1);
                assert(next.drop_last() =~= prefix);
                assert(next.last() == hits@[k as int]);
            }
        }
        k = k + 1;
    }
    proof {
        assert(hits@.subrange(0, hits@.len() as int) =~= hits@);
    }
    kernel
}


/// The largest magnitude among a kernel's raw entries (zero for an empty
/// kernel).
pub open spec fn max_abs(s: Seq<int>) -> int
    decreases s.len(),
{
    if s.len() == 0 {
        0
    } else {
        let m = max_abs(s.drop_last());
        if iabs(s.last()) > m {
            iabs(s.last())
        } else {
            m
        }
    }
}

/// Peak normalization: every entry divided by the kernel's largest
/// magnitude; a kernel with no nonzero entry is returned unchanged.
pub open spec fn spec_normalize(s: Seq<int>) -> Seq<int> {
    let m = max_abs(s);
    if m == 0 {
        s
    } else {
        Seq::new(s.len(), |i: int| gdiv(s[i], m))
    }
}

pub proof fn lemma_max_abs_nonneg(s: Seq<int>)
    ensures
        max_abs(s) >= 0,
    decreases s.len(),
{
    if s.len() > 0 {
        lemma_max_abs_nonneg(s.drop_last());
    }
}

/// Every entry's magnitude is bounded by the kernel's largest magnitude.
pub proof fn lemma_max_abs_ge(s: Seq<int>, i: int)
    requires
        0 <= i < s.len(),
    ensures
        iabs(s[i]) <= max_abs(s),
    decreases s.len(),
{
    if i + 1 < s.len() {
        lemma_max_abs_ge(s.drop_last(), i);
    }
}

/// A bound on every entry bounds the largest magnitude.
pub proof fn lemma_max_abs_le(s: Seq<int>, b: int)
    requires
        0 <= b,
        forall|i: int| 0 <= i < s.len() ==> iabs(#[trigger] s[i]) <= b,
    ensures
        max_abs(s) <= b,
    decreases s.len(),
{
    if s.len() > 0 {
        assert forall|i: int| 0 <= i < s.drop_last().len() implies iabs(#[trigger] s.drop_last()[
            i]) <= b by {
            assert(s.drop_last()[i] == s[i]);
        }
        lemma_max_abs_le(s.drop_last(), b);
    }
}

/// Some entry achieves the largest magnitude.
pub proof fn lemma_max_abs_witness(s: Seq<int>)
    requires
        s.len() > 0,
    ensures
        exists|i: int| 0 <= i < s.len() && iabs(#[trigger] s[i]) == max_abs(s),
    decreases s.len(),
{
    if iabs(s.last()) >= max_abs(s.drop_last()) {
        assert(iabs(s[s.len() - 1]) == max_abs(s));
    } else {
        lemma_max_abs_witness(s.drop_last());
        let j = choose|i: int|
            0 <= i < s.drop_last().len() && iabs(#[trigger] s.drop_last()[i]) == max_abs(
                s.drop_last(),
            );
        assert(iabs(s[j]) == max_abs(s));
    }
}

/// Dividing an entry by a bound at least its magnitude yields a magnitude
/// of at most one, and exactly one when the entry achieves the bound.
pub proof fn lemma_gdiv_bound(e: int, m: int)
    requires
        0 < m,
        iabs(e) <= m,
    ensures
        iabs(gdiv(e, m)) <= UNIT,
        iabs(e) == m ==> iabs(gdiv(e, m)) == UNIT as int,
{
    crate::fixed::lemma_iabs_mul(e, UNIT as int);
    assert(iabs(e) * (UNIT as int) <= m * (UNIT as int)) by (nonlinear_arith)
        requires
            iabs(e) <= m,
    ;
    vstd::arithmetic::div_mod::lemma_div_is_ordered(
        iabs(e) * (UNIT as int),
        m * (UNIT as int),
        m,
    );
    vstd::arithmetic::div_mod::lemma_div_multiples_vanish(UNIT as int, m);
    assert(m * (UNIT as int) / m == UNIT as int);
    vstd::arithmetic::div_mod::lemma_div_is_ordered(0, iabs(e) * (UNIT as int), m);
}

/// Dividing a magnitude-bounded entry by one is the identity.
pub proof fn lemma_gdiv_unit(e: int)
    requires
        iabs(e) <= UNIT,
    ensures
        gdiv(e, UNIT as int) == e,
{
    crate::fixed::lemma_iabs_mul(e, UNIT as int);
    vstd::arithmetic::div_mod::lemma_div_multiples_vanish(iabs(e), UNIT as int);
    assert((UNIT as int) * iabs(e) == iabs(e) * (UNIT as int)) by (nonlinear_arith);
}

/// Peak normalization is idempotent: a kernel already scaled so that its
/// largest magnitude is one comes out of normalization unchanged, so
/// normalizing twice is the same as normalizing once.
pub proof fn lemma_normalize_idempotent(s: Seq<int>)
    ensures
        spec_normalize(spec_normalize(s)) == spec_normalize(s),
{
    let m = max_abs(s);
    lemma_max_abs_nonneg(s);
    if m != 0 {
        let s1 = spec_normalize(s);
        assert forall|i: int| 0 <= i < s1.len() implies iabs(#[trigger] s1[i]) <= UNIT by {
            lemma_max_abs_ge(s, i);
            lemma_gdiv_bound(s[i], m);
        }
        lemma_max_abs_le(s1, UNIT as int);
        if s.len() == 0 {
            assert(max_abs(s) == 0);
        }
        lemma_max_abs_witness(s);
        let j = choose|i: int| 0 <= i < s.len() && iabs(#[trigger] s[i]) == max_abs(s);
        lemma_max_abs_ge(s, j);
        lemma_gdiv_bound(s[j], m);
        lemma_max_abs_ge(s1, j);
        assert(max_abs(s1) == UNIT as int);
        let s2 = spec_normalize(s1);
        assert forall|i: int| 0 <= i < s2.len() implies #[trigger] s2[i] == s1[i] by {
            lemma_gdiv_unit(s1[i]);
        }
        assert(s2 =~= s1);
    }
}

/// Scale a kernel so that its largest magnitude becomes one; a kernel with
/// no nonzero entry is returned unchanged.
pub fn normalize_kernel(kernel: &Vec<Fx>) -> (out: Vec<Fx>)
    requires
        forall|i: int| 0 <= i < kernel@.len() ==> (#[trigger] kernel@[i]).wf(),
    ensures
        kview(out@) == spec_normalize(kview(kernel@)),
        out@.len() == kernel@.len(),
        forall|i: int| 0 <= i < out@.len() ==> (#[trigger] out@[i]).wf(),
        max_abs(kview(out@)) == if max_abs(kview(kernel@)) == 0 {
            0int
        } else {
            UNIT as int
        },
{
    let ghost kv = kview(kernel@);
    let mut m: i64 = 0;
    let mut i: usize = 0;
    proof {
        assert(kv.subrange(0, 0) =~= Seq::<int>::empty());
    }
    while i < kernel.len()
        invariant
            forall|j: int| 0 <= j < kernel@.len() ==> (#[trigger] kernel@[j]).wf(),
            kv == kview(kernel@),
            i <= kernel@.len(),
            m as int == max_abs(kv.subrange(0, i as int)),
            0 <= m <= crate::fixed::CAP,
        decreases kernel@.len() - i,
    {
        let a = kernel[i].raw;
        let ab: i64 = if a < 0 {
            -a
        } else {
            a
        };
        if ab > m {
            m = ab;
        }
        proof {
            assert(kv.subrange(0, i + 1).drop_last() =~= kv.subrange(0, i as int));
            assert(kv.subrange(0, i + 1).last() == kv[i as int]);
        }
        i = i + 1;
    }
    proof {
        assert(kv.subrange(0, kv.len() as int) =~= kv);
    }
    let mut out: Vec<Fx> = Vec::new();
    if m == 0 {
        let mut j: usize = 0;
        while j < kernel.len()
            invariant
                forall|i2: int| 0 <= i2 < kernel@.len() ==> (#[trigger] kernel@[i2]).wf(),
                j <= kernel@.len(),
                out@ =~= kernel@.subrange(0, j as int),
            decreases kernel@.len() - j,
        {
            out.push(kernel[j]);
            j = j + 1;
        }
        proof {
            assert(out@ =~= kernel@);
            assert(kview(out@) =~= kview(kernel@));
            lemma_max_abs_nonneg(kv);
        }
        out
    } else {
        let divisor = Fx { raw: m };
        let mut j: usize = 0;
        while j < kernel.len()
            invariant
                forall|i2: int| 0 <= i2 < kernel@.len() ==> (#[trigger] kernel@[i2]).wf(),
                kv == kview(kernel@),
                j <= kernel@.len(),
                out@.len() == j,
                divisor.wf(),
                divisor@ == m,
                m as int == max_abs(kv),
                0 < m <= crate::fixed::CAP,
                forall|i2: int|
                    0 <= i2 < j ==> (#[trigger] out@[i2])@ == gdiv(kv[i2], m as int)
                        && out@[i2].wf(),
            decreases kernel@.len() - j,
        {
            out.push(kernel[j].div(divisor));
            j = j + 1;
        }
        proof {
            let ov = kview(out@);
            assert(ov =~= spec_normalize(kv));
            assert forall|i2: int| 0 <= i2 < ov.len() implies iabs(#[trigger] ov[i2])
                <= UNIT by {
                lemma_max_abs_ge(kv, i2);
                lemma_gdiv_bound(kv[i2], m as int);
            }
            lemma_max_abs_le(ov, UNIT as int);
            lemma_max_abs_witness(kv);
            let w = choose|i2: int| 0 <= i2 < kv.len() && iabs(#[trigger] kv[i2]) == max_abs(kv);
            lemma_gdiv_bound(kv[w], m as int);
            lemma_max_abs_ge(ov, w);
        }
        out
    }
}

/// Estimate a room's impulse response by Monte Carlo ray tracing: shoot
/// rays from the speaker in random directions, trace each against the room
/// with the microphone as target, bin the accepted hits by delay, and peak
/// normalize. With no recorded hit the kernel is a single zero entry.
/// Whatever the random draws, the result is nonempty and normalized: its
/// largest magnitude is one unless every entry is zero.
pub fn profile_room(
    room: &Vec<Shape>,
    speaker: &P,
    microphone: &Shape,
    samples: usize,
    max_bounces: u32,
    max_delay: Fx,
    speed_of_sound: Fx,
    decay: Fx,
    base_impulse: Fx,
    sample_rate: Fx,
) -> (kernel: Vec<Fx>)
    requires
        scene_wf(room@),
        microphone.vis_wf(),
        speaker.wf(),
        max_delay.wf(),
        speed_of_sound.wf(),
        decay.wf(),
        base_impulse.wf(),
        sample_rate.wf(),
        speed_of_sound@ > 0,
        sample_rate@ > 0,
        max_bounces < 4294967295,
        samples < usize::MAX,
    ensures
        kernel@.len() >= 1,
        forall|i: int| 0 <= i < kernel@.len() ==> (#[trigger] kernel@[i]).wf(),
        max_abs(kview(kernel@)) == UNIT || max_abs(kview(kernel@)) == 0,
{
    let max_distance = max_delay.mul(speed_of_sound);
    let mut all_hits: Vec<Hit> = Vec::new();
    let mut s: usize = 0;
    while s <= samples
        invariant
            scene_wf(room@),
            microphone.vis_wf(),
            speaker.wf(),
            max_distance.wf(),
            max_bounces < 4294967295,
            samples < usize::MAX,
            s <= samples + 1,
            forall|i: int| 0 <= i < all_hits@.len() ==> (#[trigger] all_hits@[i]).distance.wf(),
        decreases samples + 1 - s,
    {
        let dir = random_spherical_direction();
        let ray = L { a: *speaker, b: speaker.add(&dir) };
        let mut hits = forward_ray_trace(
            &ray,
            room,
            microphone,
            0,
            max_bounces,
            Fx { raw: 0 },
            max_distance,
        );
        proof {
            lemma_trace_bounds(
                room@,
                *microphone,
                ray,
                0,
                max_bounces as int,
                0,
                max_distance@,
            );
        }
        all_hits.append(&mut hits);
        s = s + 1;
    }
    if all_hits.len() == 0 {
        let mut kernel: Vec<Fx> = Vec::new();
        kernel.push(Fx { raw: 0 });
        proof {
            let kv = kview(kernel@);
            assert(max_abs(Seq::<int>::empty()) == 0);
            assert(kv.drop_last() =~= Seq::<int>::empty());
            assert(kv.last() == 0);
            assert(max_abs(kv) == 0);
        }
        return kernel;
    }
    let binned = bin_hits(&all_hits, speed_of_sound, decay, base_impulse, sample_rate);
    if binned.len() == 0 {
        let mut kernel: Vec<Fx> = Vec::new();
        kernel.push(Fx { raw: 0 });
        proof {
            let kv = kview(kernel@);
            assert(max_abs(Seq::<int>::empty()) == 0);
            assert(kv.drop_last() =~= Seq::<int>::empty());
            assert(kv.last() == 0);
            assert(max_abs(kv) == 0);
        }
        return kernel;
    }
    normalize_kernel(&binned)
}

} // verus!
