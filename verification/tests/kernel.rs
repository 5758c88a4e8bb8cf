use fir_lowpass::dsp::convolution::design_tap;
use fir_lowpass::dsp::convolution::windowed_sinc_filter;
use fir_lowpass::dsp::convolution::HAMMING_LEVEL;
use fir_lowpass::dsp::convolution::HAMMING_SWING;
use fir_lowpass::dsp::convolution::TAP_LIMIT;
use fir_lowpass::dsp::convolution::TWO_PI;
use fir_lowpass::fixed::fx_mul;
use fir_lowpass::fixed::HALF;
use fir_lowpass::fixed::ONE;

fn to_raw(value: f64) -> i64 {
    (value * 4294967296.0).round() as i64
}

fn as_real(raw: i64) -> f64 {
    raw as f64 / 4294967296.0
}

fn designed(cutoff: i64, len: usize) -> Vec<i64> {
    let mut kernel = vec![0i64; len];
    windowed_sinc_filter(cutoff, &mut kernel);
    kernel
}

fn real_tap(cutoff: f64, i: usize, len: usize) -> f64 {
    let two_pi = 2.0 * std::f64::consts::PI;
    let offset = i as f64 - (len / 2) as f64;
    if offset == 0.0 {
        two_pi * cutoff
    } else {
        let sinc = (two_pi * cutoff * offset).sin() / offset;
        sinc * (0.54 - 0.46 * (two_pi * (i as f64) / ((len - 1) as f64)).cos())
    }
}

#[test]
fn constants_are_the_nearest_raw_values() {
    assert_eq!(TWO_PI, to_raw(2.0 * std::f64::consts::PI));
    assert_eq!(HAMMING_LEVEL, to_raw(0.54));
    assert_eq!(HAMMING_SWING, to_raw(0.46));
    assert_eq!(HAMMING_LEVEL + HAMMING_SWING, ONE);
    assert_eq!(TAP_LIMIT, 4 * ONE);
}

#[test]
fn five_taps_at_a_quarter_are_exactly_these() {
    assert_eq!(designed(ONE / 4, 5), vec![0, 2_319_282_340, 6_746_518_852, 2_319_282_340, 0]);
}

#[test]
fn five_taps_at_an_eighth_are_exactly_these() {
    assert_eq!(
        designed(ONE / 8, 5),
        vec![171_798_692, 1_639_980_270, 3_373_259_426, 1_639_980_270, 171_798_692]
    );
}

#[test]
fn three_taps_at_the_ends_of_the_range() {
    assert_eq!(designed(HALF, 3), vec![0, 13_493_037_704, 0]);
    assert_eq!(designed(0, 3), vec![0, 0, 0]);
}

#[test]
fn short_kernels() {
    assert_eq!(designed(ONE / 4, 0), Vec::<i64>::new());
    assert_eq!(designed(ONE / 4, 1), vec![6_746_518_852]);
    assert_eq!(designed(ONE / 4, 2), vec![343_597_384, 6_746_518_852]);
}

#[test]
fn every_tap_is_overwritten() {
    let mut kernel = vec![i64::MAX, i64::MIN, 12345, -1, 99];
    windowed_sinc_filter(ONE / 4, &mut kernel);
    assert_eq!(kernel, designed(ONE / 4, 5));
    let mut again = kernel.clone();
    windowed_sinc_filter(ONE / 4, &mut again);
    assert_eq!(again, kernel);
}

#[test]
fn kernel_of_odd_length_is_symmetric() {
    for len in [1usize, 3, 5, 7, 31, 127, 255] {
        for cutoff in [0, 1, ONE / 100, ONE / 8, ONE / 4, to_raw(0.3), HALF - 1, HALF] {
            let kernel = designed(cutoff, len);
            for i in 0..len {
                assert_eq!(kernel[i], kernel[len - 1 - i], "len {} cutoff {} tap {}", len, cutoff, i);
            }
        }
    }
}

#[test]
fn kernel_of_even_length_has_its_centre_off_the_middle() {
    let kernel = designed(ONE / 4, 4);
    assert_eq!(kernel, vec![0, 3_307_124_817, 6_746_518_852, 343_597_384]);
    assert_ne!(kernel[0], kernel[3]);
}

#[test]
fn middle_tap_is_two_pi_times_the_cutoff() {
    for len in [1usize, 2, 5, 64, 127] {
        for cutoff in [0, 1, ONE / 8, ONE / 4, to_raw(0.4), HALF] {
            let kernel = designed(cutoff, len);
            assert_eq!(kernel[len / 2], fx_mul(TWO_PI, cutoff));
        }
    }
    assert_eq!(designed(ONE / 4, 127)[63], 6_746_518_852);
    assert_eq!(designed(ONE / 8, 127)[63], 3_373_259_426);
}

#[test]
fn cutoff_is_clamped() {
    for len in [1usize, 5, 127] {
        assert_eq!(designed(-ONE, len), designed(0, len));
        assert_eq!(designed(10 * ONE, len), designed(HALF, len));
        assert_eq!(designed(-1, len), designed(0, len));
        assert_eq!(designed(HALF + 1, len), designed(HALF, len));
        assert_eq!(designed(i64::MIN, len), designed(0, len));
        assert_eq!(designed(i64::MAX, len), designed(HALF, len));
    }
}

#[test]
fn taps_follow_the_real_formula() {
    for len in [5usize, 33, 127] {
        for cutoff in [0.01, 0.1, 0.125, 0.25, 0.3, 0.5] {
            let raw = to_raw(cutoff);
            let kernel = designed(raw, len);
            for i in 0..len {
                let want = real_tap(as_real(raw), i, len);
                let got = as_real(kernel[i]);
                assert!(
                    (got - want).abs() < 2.0e-9,
                    "len {} cutoff {} tap {}: {} against {}",
                    len,
                    cutoff,
                    i,
                    got,
                    want
                );
            }
        }
    }
}

#[test]
fn taps_stay_within_the_limit() {
    for cutoff in [0, ONE / 8, ONE / 4, HALF] {
        for tap in designed(cutoff, 127) {
            assert!(-TAP_LIMIT <= tap && tap <= TAP_LIMIT);
        }
    }
}

#[test]
fn single_tap_matches_the_whole_kernel() {
    let kernel = designed(to_raw(0.2), 31);
    for i in 0..31 {
        assert_eq!(design_tap(to_raw(0.2), i, 31), kernel[i]);
    }
}

#[test]
fn design_is_deterministic() {
    assert_eq!(designed(to_raw(0.17), 127), designed(to_raw(0.17), 127));
}

#[test]
fn single_tap_clamps_the_cutoff_too() {
    let low = designed(0, 9);
    let high = designed(HALF, 9);
    for i in 0..9 {
        assert_eq!(design_tap(-ONE, i, 9), low[i]);
        assert_eq!(design_tap(7 * ONE, i, 9), high[i]);
    }
}
