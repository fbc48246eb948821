use rayverb::geometry::{make_box, Fx, Shape, Visible, L, P, Q, S, T, V};

/// `1e-7` at the coordinate scale (`2^32`).
const TOL: i64 = 429;

fn fx(i: i64) -> Fx {
    Fx::from_int(i)
}

fn pt(x: i64, y: i64, z: i64) -> P {
    P { x: fx(x), y: fx(y), z: fx(z) }
}

fn assert_near(a: Fx, b: Fx, tol: i64) {
    let diff = a.sub(b).abs();
    assert!(
        diff.raw_value() <= tol,
        "values differ: {} vs {} (diff {})",
        a.raw_value(),
        b.raw_value(),
        diff.raw_value()
    );
}

#[test]
fn test_fx_arithmetic() {
    let two = fx(2);
    let half = Fx::from_ratio(1, 2);
    assert_eq!(two.mul(half), Fx::one());
    assert_eq!(fx(4).sqrt(), two);
    assert_eq!(fx(-3).abs(), fx(3));
    assert_eq!(fx(5).sub(fx(7)), fx(-2));
    // saturation: squaring the largest representable integer clamps
    let big = fx(1073741824);
    assert_eq!(big.mul(big).raw_value(), 4611686018427387904);
}

#[test]
fn test_point_distance() {
    let a = pt(0, 0, 0);
    let b = pt(3, 4, 0);
    assert_near(a.dist(&b), fx(5), TOL);
    let l = L { a: pt(0, 0, 0), b: pt(10, 0, 0) };
    assert_near(pt(5, 7, 0).ray_dist(&l), fx(7), TOL);
    assert_near(pt(5, 7, 0).line_dist(&l), fx(7), TOL);
    // beyond the far endpoint the segment distance goes to the endpoint
    assert_near(pt(13, 4, 0).line_dist(&l), fx(5), TOL);
}

#[test]
fn test_triangle_intersection() {
    let t = T { a: pt(0, 0, 0), b: pt(4, 0, 0), c: pt(0, 4, 0) };
    let ray = L { a: pt(1, 1, 5), b: pt(1, 1, 4) };
    let hit = t.ray_intersection(&ray).expect("ray points at the triangle");
    assert_near(hit.x, fx(1), TOL);
    assert_near(hit.y, fx(1), TOL);
    assert_near(hit.z, fx(0), TOL);
    // a ray pointing away misses
    let away = L { a: pt(1, 1, 5), b: pt(1, 1, 6) };
    assert!(t.ray_intersection(&away).is_none());
    // a plane hit outside the barycentric bounds misses
    let outside = L { a: pt(5, 5, 5), b: pt(5, 5, 4) };
    assert!(t.ray_intersection(&outside).is_none());
}

#[test]
fn test_triangle_contains() {
    let t = T { a: pt(0, 0, 0), b: pt(4, 0, 0), c: pt(0, 4, 0) };
    assert!(t.contains(&pt(1, 1, 0)));
    assert!(!t.contains(&pt(3, 3, 0)));
    assert!(!t.contains(&pt(1, 1, 1)));
}

#[test]
fn test_triangle_reflection() {
    // a ray falling straight down onto the floor reflects straight up
    let t = T { a: pt(0, 0, 0), b: pt(8, 0, 0), c: pt(0, 8, 0) };
    let ray = L { a: pt(1, 1, 3), b: pt(1, 1, 2) };
    let refl = t.ray_reflection(&ray).expect("reflects");
    assert_near(refl.a.x, fx(1), TOL);
    assert_near(refl.a.y, fx(1), TOL);
    assert_near(refl.a.z, fx(0), TOL);
    let dir = refl.v();
    assert_near(dir.x, fx(0), TOL);
    assert_near(dir.y, fx(0), TOL);
    assert_near(dir.z, fx(1), TOL);
}

#[test]
fn test_segment_intersection() {
    let seg = L { a: pt(0, -2, 0), b: pt(0, 2, 0) };
    let ray = L { a: pt(-3, 0, 0), b: pt(-2, 0, 0) };
    let hit = seg.ray_intersection(&ray).expect("ray crosses the segment");
    assert_near(hit.x, fx(0), TOL);
    assert_near(hit.y, fx(0), TOL);
    assert_near(hit.z, fx(0), TOL);
    // pointing the other way misses
    let away = L { a: pt(-3, 0, 0), b: pt(-4, 0, 0) };
    assert!(seg.ray_intersection(&away).is_none());
}

#[test]
fn test_segment_reflection() {
    // a ray meeting a segment head on in its plane bounces straight back
    let seg = L { a: pt(0, -2, 0), b: pt(0, 2, 0) };
    let ray = L { a: pt(-2, 0, 0), b: pt(-1, 0, 0) };
    let refl = seg.ray_reflection(&ray).expect("reflects");
    let dir = refl.v();
    assert_near(dir.x, fx(-1), TOL);
    assert_near(dir.y, fx(0), TOL);
    assert_near(dir.z, fx(0), TOL);
}

#[test]
fn test_sphere_hit_distance() {
    // closest approach 1 is below the radius 2, so the ray hits; the hit
    // point lies on the surface: its distance to the center is the radius
    // within 1e-7.
    let s = S { c: pt(0, 0, 5), r: fx(2) };
    let ray = L { a: pt(1, 0, -3), b: pt(1, 0, -2) };
    let hit = s.ray_intersection(&ray).expect("closest approach below radius");
    assert_near(hit.dist(&s.c), fx(2), TOL);
    // the nearer chord point is returned: it lies before the center
    assert!(hit.z.raw_value() < fx(5).raw_value());
    // a ray passing farther than the radius misses
    let miss = L { a: pt(3, 0, -3), b: pt(3, 0, -2) };
    assert!(s.ray_intersection(&miss).is_none());
}

#[test]
fn test_sphere_reflection() {
    // a ray at the sphere from straight below reflects straight back
    let s = S { c: pt(0, 0, 10), r: fx(2) };
    let ray = L { a: pt(0, 0, 0), b: pt(0, 0, 1) };
    let refl = s.ray_reflection(&ray).expect("reflects");
    assert_near(refl.a.z, fx(8), TOL);
    let dir = refl.v();
    assert_near(dir.x, fx(0), TOL);
    assert_near(dir.y, fx(0), TOL);
    assert_near(dir.z, fx(-1), TOL);
}

#[test]
fn test_quad_intersection() {
    let q = Q::cw(pt(0, 4, 0), pt(4, 4, 0), pt(4, 0, 0), pt(0, 0, 0));
    // both triangles of the quad are reachable
    let hit1 = q.ray_intersection(&L { a: pt(1, 3, 2), b: pt(1, 3, 1) });
    assert!(hit1.is_some());
    let hit2 = q.ray_intersection(&L { a: pt(3, 1, 2), b: pt(3, 1, 1) });
    assert!(hit2.is_some());
    let miss = q.ray_intersection(&L { a: pt(5, 5, 2), b: pt(5, 5, 1) });
    assert!(miss.is_none());
}

#[test]
fn test_make_box() {
    let open_walls = make_box(fx(10), fx(10), fx(10), pt(0, 0, 0), false);
    assert_eq!(open_walls.len(), 5);
    let closed = make_box(fx(10), fx(10), fx(10), pt(0, 0, 0), true);
    assert_eq!(closed.len(), 6);
    // from inside the box, a ray in any axis direction hits a wall
    let walls: Vec<Shape> = closed.iter().map(|&q| Shape::Quad(q)).collect();
    let center = pt(5, 5, 5);
    for target in [pt(5, 5, 9), pt(5, 5, 1), pt(9, 5, 5), pt(1, 5, 5), pt(5, 9, 5), pt(5, 1, 5)] {
        let ray = L { a: center, b: target };
        let hit = walls.iter().filter_map(|w| w.ray_intersection(&ray)).next();
        assert!(hit.is_some());
    }
}

#[test]
fn test_vector_algebra() {
    let u = V { x: fx(1), y: fx(0), z: fx(0) };
    let v = V { x: fx(0), y: fx(1), z: fx(0) };
    let w = u.cross(&v);
    assert_near(w.x, fx(0), TOL);
    assert_near(w.y, fx(0), TOL);
    assert_near(w.z, fx(1), TOL);
    assert_eq!(u.dot(&v).raw_value(), 0);
    let d = V { x: fx(3), y: fx(4), z: fx(0) };
    assert_near(d.n(), fx(5), TOL);
    let un = d.u();
    assert_near(un.n(), fx(1), TOL);
    // projection of (3,4,0) onto the x axis is (3,0,0)
    let p = d.proj(&u);
    assert_near(p.x, fx(3), TOL);
    assert_near(p.y, fx(0), TOL);
}
