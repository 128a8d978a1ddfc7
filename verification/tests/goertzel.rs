use goertzel::fixed::SCALE;
use goertzel::{kernel, power, ConfigError, Filter, ProcessError, Vn, COEF_LIMIT, STATE_LIMIT};

/// The Goertzel coefficient `2 * cos(2*pi*f/fs)` rendered in Q30
/// fixed point, as a caller of the library computes it.
fn koef_q30(f: f64, fs: f64) -> i64 {
    let k = 2.0 * (2.0 * std::f64::consts::PI * f / fs).cos();
    (k * SCALE as f64).round() as i64
}

/// Returns the dBm of the given power of a signal.
fn dbm(power: f64) -> f64 {
    10.0 * (2.0 * power * 1000.0 / 600.0).log10()
}

#[test]
fn coefficient_correctness() {
    // for f = 2000 and fs = 8000 the coefficient is 2 * cos(pi / 2) = 0
    let k = 2.0 * (2.0 * std::f64::consts::PI * 2000.0 / 8000.0).cos();
    assert!(k.abs() < 1e-9);
    assert_eq!(koef_q30(2000.0, 8000.0), 0);
    let flt = Filter::new(2000, 8000, koef_q30(2000.0, 8000.0)).unwrap();
    assert_eq!(flt.koef, 0);
}

#[test]
fn nyquist_rejection_at_half() {
    assert_eq!(
        Filter::new(4000, 8000, 0),
        Err(ConfigError::FrequencyAboveNyquist)
    );
}

#[test]
fn nyquist_rejection_above_half() {
    assert_eq!(
        Filter::new(5000, 8000, 0),
        Err(ConfigError::FrequencyAboveNyquist)
    );
}

#[test]
fn zero_sampling_frequency_rejected() {
    assert_eq!(
        Filter::new(100, 0, 0),
        Err(ConfigError::NonPositiveSamplingFrequency)
    );
}

#[test]
fn coefficient_out_of_range_rejected() {
    assert_eq!(
        Filter::new(1000, 8000, COEF_LIMIT + 1),
        Err(ConfigError::CoefficientOutOfRange)
    );
    assert_eq!(
        Filter::new(1000, 8000, -COEF_LIMIT - 1),
        Err(ConfigError::CoefficientOutOfRange)
    );
}

#[test]
fn reset_idempotence() {
    // on a freshly constructed filter
    let mut flt = Filter::new(2000, 8000, 0).unwrap();
    assert_eq!(flt.vn, Vn { v1: 0, v2: 0 });
    flt.reset();
    assert_eq!(flt.vn, Vn { v1: 0, v2: 0 });
    // twice in a row, after the state has accumulated something
    flt.process(&[0, 1, 0, -1][..]).unwrap();
    flt.reset();
    assert_eq!(flt.vn, Vn { v1: 0, v2: 0 });
    flt.reset();
    assert_eq!(flt.vn, Vn { v1: 0, v2: 0 });
    // the configuration is untouched
    assert_eq!(flt.f, 2000);
    assert_eq!(flt.fs, 8000);
    assert_eq!(flt.koef, 0);
}

#[test]
fn kernel_determinism() {
    let samples: [i64; 5] = [3, -7, 11, 0, 5];
    let k = koef_q30(1000.0, 8000.0);
    let mut a = Vn { v1: 2, v2: -3 };
    let mut b = Vn { v1: 2, v2: -3 };
    kernel(&samples[..], k, &mut a).unwrap();
    kernel(&samples[..], k, &mut b).unwrap();
    assert_eq!(a, b);
}

#[test]
fn kernel_empty_buffer_is_noop() {
    let empty: [i64; 0] = [];
    let mut vn = Vn { v1: 17, v2: -4 };
    let r = kernel(&empty[..], 12345, &mut vn);
    assert_eq!(r, Ok(()));
    assert_eq!(vn, Vn { v1: 17, v2: -4 });
}

#[test]
fn power_floor_on_silence() {
    // all-zero samples leave the registers at zero, so the raw power
    // cancels to zero and the floor of one epsilon takes over
    let mut flt = Filter::new(2000, 8000, 0).unwrap();
    let p = flt.process(&[0, 0, 0, 0][..]).unwrap();
    assert_eq!(p.num, 1);
    assert_eq!(p.den, 16);
}

#[test]
fn power_of_plain_registers() {
    // with a zero coefficient the raw power is v1^2 + v2^2
    let p = power(0, Vn { v1: 3, v2: 4 }, 5);
    assert_eq!(p.num, 25);
    assert_eq!(p.den, 25);
}

#[test]
fn end_to_end_scenario() {
    // f = 2000 Hz sampled at 8000 Hz: coefficient 2 * cos(pi / 2) = 0,
    // so the recursion degenerates to t = -v2 + x:
    //   0 -> (0, 0); 1 -> (1, 0); 0 -> (0, 1); -1 -> (-2, 0)
    // raw = 4 + 0 - 0 = 4 and power = 4 / 16, one quarter; this also
    // equals |X|^2 / n^2 of the length-4 DFT bin at one quarter of fs
    let mut flt = Filter::new(2000, 8000, koef_q30(2000.0, 8000.0)).unwrap();
    let p = flt.process(&[0, 1, 0, -1][..]).unwrap();
    assert_eq!(flt.vn, Vn { v1: -2, v2: 0 });
    assert_eq!(p.num, 4);
    assert_eq!(p.den, 16);
    let d = dbm(p.num as f64 / p.den as f64);
    // 10 * log10(2 * 0.25 * 1000 / 600) = 10 * log10(5/6)
    assert!((d - (-0.791812460476248)).abs() < 1e-9);
}

#[test]
fn accumulation_across_calls() {
    // two chunks without a reset reach the same state as one call
    let k = koef_q30(1000.0, 8000.0);
    let mut chunked = Filter::new(1000, 8000, k).unwrap();
    chunked.process(&[5, -3][..]).unwrap();
    let p2 = chunked.process(&[8, 1][..]).unwrap();
    let mut oneshot = Filter::new(1000, 8000, k).unwrap();
    let p1 = oneshot.process(&[5, -3, 8, 1][..]).unwrap();
    assert_eq!(chunked.vn, oneshot.vn);
    // the normalization uses this call's sample count, so the
    // numerators agree while the denominators differ
    assert_eq!(p2.num, p1.num);
    assert_eq!(p2.den, 4);
    assert_eq!(p1.den, 16);
}

#[test]
fn nonzero_coefficient_exact_power() {
    // koef = SCALE is exactly 1.0 in Q30, the coefficient of a filter
    // at one sixth of the sampling rate (2 * cos(pi / 3) = 1):
    //   1 -> (1, 0); 1 -> (1 * 1 - 0 + 1, 1) = (2, 1)
    // raw = 4 + 1 - 1 * 2 * 1 = 3 over n^2 = 4
    let mut flt = Filter::new(1000, 6000, SCALE).unwrap();
    let p = flt.process(&[1, 1][..]).unwrap();
    assert_eq!(flt.vn, Vn { v1: 2, v2: 1 });
    assert_eq!(p.num, 3);
    assert_eq!(p.den, 4);
}

#[test]
fn state_overflow_reported_and_state_kept() {
    // koef = 2 * SCALE is 2.0: each step doubles v1, so full-scale
    // samples push the registers over STATE_LIMIT quickly
    let mut vn = Vn { v1: 0, v2: 0 };
    let r = kernel(&[STATE_LIMIT, STATE_LIMIT][..], COEF_LIMIT, &mut vn);
    assert_eq!(r, Err(ProcessError::StateOverflow));
    // the registers are left as they were before the call
    assert_eq!(vn, Vn { v1: 0, v2: 0 });

    let mut flt = Filter::new(1000, 8000, COEF_LIMIT).unwrap();
    flt.process(&[STATE_LIMIT][..]).unwrap();
    let before = flt;
    let r = flt.process(&[STATE_LIMIT, STATE_LIMIT][..]);
    assert_eq!(r, Err(ProcessError::StateOverflow));
    assert_eq!(flt, before);
}
