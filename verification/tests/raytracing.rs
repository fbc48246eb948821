use rayverb::geometry::{make_box, Fx, Shape, L, P, Q, S};
use rayverb::raytracing::{
    bin_hits, forward_ray_trace, normalize_kernel, profile_room, random_spherical_direction, Hit,
};

const UNIT: i64 = 4294967296;

fn fx(i: i64) -> Fx {
    Fx::from_int(i)
}

fn pt(x: i64, y: i64, z: i64) -> P {
    P { x: fx(x), y: fx(y), z: fx(z) }
}

fn closed_box_walls() -> Vec<Shape> {
    make_box(fx(10), fx(10), fx(10), pt(0, 0, 0), true)
        .iter()
        .map(|&q| Shape::Quad(q))
        .collect()
}

#[test]
fn test_forward_ray_trace() {
    let walls = closed_box_walls();
    let microphone = Shape::Quad(Q::cw(
        P { x: Fx::from_ratio(41, 10), y: Fx::from_ratio(59, 10), z: fx(9) },
        P { x: Fx::from_ratio(59, 10), y: Fx::from_ratio(59, 10), z: fx(9) },
        P { x: Fx::from_ratio(59, 10), y: Fx::from_ratio(41, 10), z: fx(9) },
        P { x: Fx::from_ratio(41, 10), y: Fx::from_ratio(41, 10), z: fx(9) },
    ));
    let ray = L {
        a: pt(5, 5, 5),
        b: P { x: fx(5), y: Fx::from_ratio(521, 100), z: fx(6) },
    };
    let hits = forward_ray_trace(&ray, &walls, &microphone, 0, 50, Fx::zero(), fx(1000));
    // the slightly tilted ray crosses the microphone plaque on eight of its
    // passes before the distance and bounce budgets run out
    assert_eq!(hits.len(), 8);
    for h in &hits {
        assert!(h.bounces <= 50);
        assert!(h.distance.raw_value() > 0);
    }
}

#[test]
fn test_trace_direct_only() {
    // With no bounces allowed only the direct line of sight can record:
    // at most one hit, with bounce count zero.
    let walls = closed_box_walls();
    let ball = Shape::Ball(S { c: pt(5, 5, 8), r: fx(1) });
    let toward = L { a: pt(5, 5, 1), b: pt(5, 5, 2) };
    let hits = forward_ray_trace(&toward, &walls, &ball, 0, 0, Fx::zero(), fx(1000));
    assert_eq!(hits.len(), 1);
    assert_eq!(hits[0].bounces, 0);
    // the recorded delay metric adds the wall-hit and target-hit distances:
    // wall at z = 10 is 9 away, the sphere surface is 6 away
    let expected = fx(15);
    assert!(hits[0].distance.sub(expected).abs().raw_value() < 4300);
    // pointing away from the target, nothing can be recorded without a bounce
    let away = L { a: pt(5, 5, 1), b: pt(5, 4, 1) };
    let none = forward_ray_trace(&away, &walls, &ball, 0, 0, Fx::zero(), fx(1000));
    assert_eq!(none.len(), 0);
}

#[test]
fn test_trace_occluded_target() {
    // A target farther than the nearest wall is not recorded on the direct
    // leg: the wall hit bounds the target test.
    let walls = closed_box_walls();
    let hidden = Shape::Ball(S { c: pt(5, 5, 20), r: fx(1) });
    let ray = L { a: pt(5, 5, 1), b: pt(5, 5, 2) };
    let hits = forward_ray_trace(&ray, &walls, &hidden, 0, 0, Fx::zero(), fx(1000));
    assert_eq!(hits.len(), 0);
}

#[test]
fn test_bin_hits_exact() {
    // One hit at distance 2 with speed 1 and rate 1 lands in bin 2 with
    // pressure base / distance = 1/2, exactly.
    let hits = vec![Hit { distance: fx(2), bounces: 0 }];
    let kernel = bin_hits(&hits, fx(1), Fx::zero(), fx(1), fx(1));
    assert_eq!(kernel.len(), 3);
    assert_eq!(kernel[0], Fx::zero());
    assert_eq!(kernel[1], Fx::zero());
    assert_eq!(kernel[2], Fx::from_ratio(1, 2));
}

#[test]
fn test_bin_hits_decay() {
    // Each bounce multiplies the pressure by (1 - decay): one bounce at
    // decay 1/2 halves the contribution.
    let hits = vec![Hit { distance: fx(1), bounces: 1 }];
    let kernel = bin_hits(&hits, fx(1), Fx::from_ratio(1, 2), fx(1), fx(1));
    assert_eq!(kernel.len(), 2);
    assert_eq!(kernel[1], Fx::from_ratio(1, 2));
}

#[test]
fn test_normalize_kernel() {
    // peak normalization scales the largest magnitude to one
    let kernel = vec![Fx::from_ratio(1, 2), Fx::from_ratio(1, 4)];
    let normed = normalize_kernel(&kernel);
    assert_eq!(normed[0], Fx::one());
    assert_eq!(normed[1], Fx::from_ratio(1, 2));
    // negative entries normalize by magnitude
    let signed = vec![fx(-2), fx(1)];
    let normed2 = normalize_kernel(&signed);
    assert_eq!(normed2[0], fx(-1));
    assert_eq!(normed2[1], Fx::from_ratio(1, 2));
    // an all-zero kernel is returned unchanged
    let zeros = vec![Fx::zero(), Fx::zero()];
    assert_eq!(normalize_kernel(&zeros), zeros);
}

#[test]
fn test_normalize_idempotent() {
    // normalizing an already peak-normalized kernel changes nothing
    let kernel = vec![Fx::from_ratio(3, 7), Fx::from_ratio(-2, 9), Fx::from_ratio(1, 3)];
    let once = normalize_kernel(&kernel);
    let twice = normalize_kernel(&once);
    assert_eq!(once, twice);
}

#[test]
fn test_random_spherical_direction() {
    let mut first_z: Option<i64> = None;
    let mut varied = false;
    for _ in 0..200 {
        let d = random_spherical_direction();
        assert!(-UNIT <= d.z.raw_value() && d.z.raw_value() <= UNIT);
        // the direction never exceeds the unit sphere (up to rounding)
        let n2 = d.dot(&d);
        assert!(n2.raw_value() <= UNIT + 4300);
        match first_z {
            None => first_z = Some(d.z.raw_value()),
            Some(z0) => {
                if d.z.raw_value() != z0 {
                    varied = true;
                }
            },
        }
    }
    // the draws come from a random source, not a constant
    assert!(varied);
}

#[test]
fn test_profile_room() {
    // Closed 10 x 10 x 10 box, source near the floor, spherical target of
    // radius 5 centered at (5, 5, 9.5). The kernel is nonempty, peak
    // normalized, and its global maximum sits at the bin of the direct
    // path's recorded delay.
    let walls = closed_box_walls();
    let ball = Shape::Ball(S {
        c: P { x: fx(5), y: fx(5), z: Fx::from_ratio(19, 2) },
        r: fx(5),
    });
    let kernel = profile_room(
        &walls,
        &pt(5, 5, 1),
        &ball,
        100000,
        1,
        fx(1),
        fx(343),
        Fx::from_ratio(1, 10),
        fx(1),
        fx(44100),
    );
    assert!(kernel.len() > 1);
    let mut max_idx = 0usize;
    let mut max_val = i64::MIN;
    for (i, k) in kernel.iter().enumerate() {
        if k.raw_value() > max_val {
            max_val = k.raw_value();
            max_idx = i;
        }
    }
    // the peak is scaled to exactly one
    assert_eq!(max_val, UNIT);
    // The direct path records the wall-hit plus target-hit distances: 9
    // units to the far wall plus 3.5 to the sphere surface, 12.5 in all,
    // and 44100 * 12.5 / 343 rounds to bin 1607. Direct arrivals start
    // there and decay least, so the global maximum sits in the first bins
    // of the direct band; the sampling noise splits it between the two.
    assert!(max_idx == 1607 || max_idx == 1608, "peak at {}", max_idx);
}


