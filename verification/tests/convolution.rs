use rayverb::convolution::{fft_convolve, rfft_convolve, rfft_convolve_real_time, Cpx, Sp};

/// `1e-7` at the signal scale (`2^48`).
const TOL: i64 = 28147497;

fn sp_signal(reps: usize, take: usize) -> Vec<Sp> {
    let mut v: Vec<Sp> = Vec::new();
    for _ in 0..reps {
        for i in 1..=8i64 {
            v.push(Sp::from_int(i));
        }
    }
    v.truncate(take);
    v
}

fn assert_close(actual: &[Sp], expected: &[i64]) {
    assert_eq!(actual.len(), expected.len());
    for (k, (&a, &e)) in actual.iter().zip(expected.iter()).enumerate() {
        let want = Sp::from_int(e);
        let diff = a.sub(want).abs();
        assert!(
            diff.le(Sp { raw: TOL }),
            "entry {} off: got raw {}, want {} (diff raw {})",
            k,
            a.raw_value(),
            e,
            diff.raw_value()
        );
    }
}

const EXPECTED: [i64; 94] = [
    1, 4, 10, 20, 35, 56, 84, 120, 149, 172, 190, 204, 215, 224, 232, 240,
    296, 336, 360, 368, 360, 336, 296, 240, 296, 336, 360, 368, 360, 336, 296, 240,
    296, 336, 360, 368, 360, 336, 296, 240, 296, 336, 360, 368, 360, 336, 296, 240,
    296, 336, 360, 368, 360, 336, 296, 240, 296, 336, 360, 368, 360, 336, 296, 240,
    296, 336, 360, 368, 360, 336, 296, 240, 296, 336, 360, 368, 360, 336, 296, 232,
    279, 308, 318, 308, 277, 224, 148, 112, 131, 140, 138, 124, 97, 56,
];

#[test]
fn test_rfft_convolve() {
    let signal = sp_signal(10, 79);
    let kernel = sp_signal(2, 16);
    let convolved = rfft_convolve(&signal, &kernel);
    assert_eq!(EXPECTED.len(), convolved.len());
    assert_close(&convolved, &EXPECTED);
}

#[test]
fn test_rfft_convolve_real_time() {
    let signal = sp_signal(10, 79);
    let kernel = sp_signal(2, 16);
    let convolved = rfft_convolve_real_time(&signal, &kernel, 5);
    assert!(convolved.len() >= EXPECTED.len() - 16);
    for (k, (&a, &e)) in convolved.iter().zip(EXPECTED.iter()).enumerate() {
        let want = Sp::from_int(e);
        let diff = a.sub(want).abs();
        assert!(
            diff.le(Sp { raw: TOL }),
            "entry {} off: got raw {}, want {} (diff raw {})",
            k,
            a.raw_value(),
            e,
            diff.raw_value()
        );
    }
}

#[test]
fn test_fft_convolve_identity_kernel() {
    // Convolving with the unit impulse returns the signal unchanged up to
    // the engine's rounding.
    let signal: Vec<Cpx> = (1..=13i64).map(|i| Cpx::from_re(Sp::from_int(i))).collect();
    let kernel = vec![Cpx::from_re(Sp::from_int(1))];
    let out = fft_convolve(&signal, &kernel);
    assert_eq!(out.len(), 13);
    for (k, c) in out.iter().enumerate() {
        let want = Sp::from_int((k + 1) as i64);
        assert!(c.re.sub(want).abs().le(Sp { raw: TOL }));
        assert!(c.im.abs().le(Sp { raw: TOL }));
    }
}

#[test]
fn test_rfft_convolve_matches_direct() {
    // The frequency-domain result equals the direct time-domain convolution
    // within tolerance.
    let sig: [i64; 7] = [3, -1, 4, 1, -5, 9, 2];
    let ker: [i64; 4] = [2, 0, -7, 1];
    let signal: Vec<Sp> = sig.iter().map(|&i| Sp::from_int(i)).collect();
    let kernel: Vec<Sp> = ker.iter().map(|&i| Sp::from_int(i)).collect();
    let out = rfft_convolve(&signal, &kernel);
    assert_eq!(out.len(), 10);
    for n in 0..10usize {
        let mut want: i64 = 0;
        for m in 0..4usize {
            if n >= m && n - m < 7 {
                want += ker[m] * sig[n - m];
            }
        }
        let diff = out[n].sub(Sp::from_int(want)).abs();
        assert!(diff.le(Sp { raw: TOL }), "entry {} diff raw {}", n, diff.raw_value());
    }
}
