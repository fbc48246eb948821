use rayverb::trig::{cos_rad, sin_rad, DSCALE, HALF_PI_D, PI_D};

/// about 1e-12 at the signal scale
const TOL: i64 = 300;

#[test]
fn test_trig_exact_points() {
    assert_eq!(cos_rad(0), DSCALE);
    assert_eq!(sin_rad(0), 0);
    // cos(pi) is -1 and sin(pi) is 0, up to the polynomial's error
    assert!((cos_rad(PI_D) + DSCALE).abs() <= TOL);
    assert!(sin_rad(PI_D).abs() <= TOL);
    // cos(pi/2) is 0 and sin(pi/2) is 1
    assert!(cos_rad(HALF_PI_D).abs() <= TOL);
    assert!((sin_rad(HALF_PI_D) - DSCALE).abs() <= TOL);
}

#[test]
fn test_trig_pythagorean() {
    // cos^2 + sin^2 stays within a tight band of one across the turn
    let mut ang: i64 = 0;
    while ang < 2 * PI_D {
        let c = cos_rad(ang) as i128;
        let s = sin_rad(ang) as i128;
        let one = (c * c + s * s) / (DSCALE as i128);
        let err = (one - DSCALE as i128).abs();
        assert!(err <= 1000, "angle {}: err {}", ang, err);
        ang += 12345678901;
    }
}
