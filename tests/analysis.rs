use fourier_viewer::{
    centre_in_frame, centre_offset, frame_count, half_len, hop, interleave, peak_bins,
    split_frames, windowed_len, Session, WindowFunction,
};
use rustfft::num_complex::Complex;
use rustfft::FFTplanner;

use std::f32::consts::PI;

fn weights(shape: WindowFunction, length: usize) -> Vec<f32> {
    let (a0, a1, a2) = shape.coefficients();
    let (a0, a1, a2) = (a0 as f32 / 100.0, a1 as f32 / 100.0, a2 as f32 / 100.0);
    (0..length)
        .map(|i| {
            let t = 2.0 * PI * i as f32 / length as f32;
            a0 - a1 * t.cos() + a2 * (2.0 * t).cos()
        })
        .collect()
}

fn transform(samples: &[f32], size: usize, shape: WindowFunction) -> Session<f32, Complex<f32>> {
    let mut session: Session<f32, Complex<f32>> = Session::new(samples.to_vec());
    let n = windowed_len(size, samples.len());
    let window = weights(shape, n);
    let windowed: Vec<f32> = session
        .leading(size)
        .iter()
        .zip(window.iter())
        .map(|(x, w)| x * w)
        .collect();
    let centred = centre_in_frame(&windowed, size, 0.0);
    let mut input: Vec<Complex<f32>> = centred.iter().map(|x| Complex::new(*x, 0.0)).collect();
    let mut output = vec![Complex::new(0.0, 0.0); size];
    FFTplanner::new(false).plan_fft(size).process(&mut input, &mut output);
    let power = output.iter().map(|c| c.norm_sqr().to_bits()).collect();
    session.store_spectrum(output, power);
    session
}

#[test]
fn coefficients_of_each_shape() {
    assert_eq!(WindowFunction::Blackman.coefficients(), (42, 50, 8));
    assert_eq!(WindowFunction::Hamming.coefficients(), (54, 46, 0));
    assert_eq!(WindowFunction::Hann.coefficients(), (50, 50, 0));
    assert_eq!(WindowFunction::Rectangle.coefficients(), (100, 0, 0));
}

#[test]
fn window_weights_lie_in_unit_range() {
    for shape in [
        WindowFunction::Blackman,
        WindowFunction::Hamming,
        WindowFunction::Hann,
        WindowFunction::Rectangle,
    ] {
        for length in [1usize, 2, 7, 64] {
            let w = weights(shape, length);
            assert_eq!(w.len(), length);
            for x in w {
                assert!(x >= -1e-6 && x <= 1.0 + 1e-6);
                if shape == WindowFunction::Rectangle {
                    assert_eq!(x, 1.0);
                }
            }
        }
    }
}

#[test]
fn hann_weights_of_four() {
    let w = weights(WindowFunction::Hann, 4);
    let expected = [0.0, 0.5, 1.0, 0.5];
    for (x, e) in w.iter().zip(expected.iter()) {
        assert!((x - e).abs() < 1e-6);
    }
}

#[test]
fn windowed_len_takes_the_shorter() {
    assert_eq!(windowed_len(8, 3), 3);
    assert_eq!(windowed_len(4, 10), 4);
    assert_eq!(windowed_len(5, 5), 5);
    assert_eq!(windowed_len(5, 0), 0);
}

#[test]
fn centre_offset_rounds_down() {
    assert_eq!(centre_offset(8, 3), 2);
    assert_eq!(centre_offset(8, 8), 0);
    assert_eq!(centre_offset(7, 0), 3);
}

#[test]
fn short_content_is_centred() {
    let r = centre_in_frame(&vec![1, 2, 3], 8, 0);
    assert_eq!(r, vec![0, 0, 1, 2, 3, 0, 0, 0]);
}

#[test]
fn full_content_is_left_alone() {
    let r = centre_in_frame(&vec![5, 6, 7, 8], 4, 0);
    assert_eq!(r, vec![5, 6, 7, 8]);
}

#[test]
fn empty_content_gives_zeros() {
    let r = centre_in_frame(&Vec::<i32>::new(), 3, 9);
    assert_eq!(r, vec![9, 9, 9]);
}

#[test]
fn spectrum_has_size_values_whatever_the_signal_length() {
    for len in [0usize, 3, 8, 20] {
        let samples: Vec<f32> = (0..len).map(|i| i as f32).collect();
        let session = transform(&samples, 8, WindowFunction::Hann);
        assert_eq!(session.spectrum().unwrap().len(), 8);
    }
}

#[test]
fn half_len_rounds_down() {
    assert_eq!(half_len(8), 4);
    assert_eq!(half_len(7), 3);
    assert_eq!(half_len(0), 0);
}

#[test]
fn peaks_are_strongest_first() {
    let power = vec![1, 9, 4, 7, 100, 100, 100, 100];
    assert_eq!(peak_bins(&power, 3), vec![1, 3, 2]);
}

#[test]
fn equal_powers_keep_bin_order() {
    let power = vec![5, 2, 5, 5, 0, 0];
    assert_eq!(peak_bins(&power, 3), vec![0, 2, 1]);
}

#[test]
fn peaks_are_capped_at_half_the_spectrum() {
    let power = vec![3, 1, 2, 8, 8, 8];
    let r = peak_bins(&power, 10);
    assert_eq!(r, vec![0, 2, 1]);
    assert!(r.len() <= half_len(power.len()));
}

#[test]
fn peaks_of_nothing() {
    assert_eq!(peak_bins(&vec![], 3), Vec::<usize>::new());
    assert_eq!(peak_bins(&vec![4, 5], 0), Vec::<usize>::new());
    assert_eq!(peak_bins(&vec![4], 2), Vec::<usize>::new());
}

#[test]
fn peaks_descend_in_power() {
    let power: Vec<u32> = (0..40u32).map(|i| (i * 37) % 11).collect();
    let r = peak_bins(&power, 7);
    assert_eq!(r.len(), 7);
    for w in r.windows(2) {
        let (a, b) = (w[0], w[1]);
        assert!(power[a] > power[b] || (power[a] == power[b] && a < b));
    }
}

#[test]
fn hop_is_half_a_frame() {
    assert_eq!(hop(8), 4);
    assert_eq!(hop(5), 2);
}

#[test]
fn frame_count_of_signals() {
    assert_eq!(frame_count(10, 4), 4);
    assert_eq!(frame_count(4, 4), 1);
    assert_eq!(frame_count(3, 4), 0);
    assert_eq!(frame_count(11, 5), 4);
}

#[test]
fn frames_overlap_by_half() {
    let signal = vec![0, 1, 2, 3, 4, 5, 6, 7, 8];
    let frames = split_frames(&signal, 4);
    assert_eq!(
        frames,
        vec![vec![0, 1, 2, 3], vec![2, 3, 4, 5], vec![4, 5, 6, 7]]
    );
}

#[test]
fn short_signal_has_no_frames() {
    assert!(split_frames(&vec![1, 2, 3], 4).is_empty());
}

#[test]
fn interleave_lays_frames_end_to_end() {
    let frames = vec![vec![(1, 2), (3, 4)], vec![(5, 6), (7, 8)]];
    assert_eq!(interleave(&frames, 2), vec![1, 2, 3, 4, 5, 6, 7, 8]);
}

#[test]
fn spectrogram_length() {
    for (len, size) in [(20usize, 4usize), (9, 4), (3, 4), (16, 16), (17, 5)] {
        let signal: Vec<f32> = (0..len).map(|i| (i as f32).sin()).collect();
        let frames = split_frames(&signal, size);
        let transformed: Vec<Vec<(f32, f32)>> =
            frames.iter().map(|f| f.iter().map(|x| (*x, 0.0)).collect()).collect();
        let out = interleave(&transformed, size);
        let expected = if len < size {
            0
        } else {
            ((len - size) / (size / 2) + 1) * size * 2
        };
        assert_eq!(out.len(), expected);
    }
}

#[test]
fn fresh_session_reports_nothing() {
    let session: Session<f32, Complex<f32>> = Session::new(vec![1.0, 2.0]);
    assert!(session.spectrum().is_none());
    assert!(session.peak_bins(3).is_none());
    assert_eq!(session.samples(), &vec![1.0, 2.0]);
}

#[test]
fn stored_spectrum_replaces_the_last() {
    let mut session: Session<i32, i32> = Session::new(vec![1, 2, 3]);
    session.store_spectrum(vec![10, 20, 30, 40], vec![1, 2, 3, 4]);
    assert_eq!(session.peak_bins(2), Some(vec![1, 0]));
    session.store_spectrum(vec![7, 8], vec![5, 5]);
    assert_eq!(session.spectrum(), Some(&vec![7, 8]));
    assert_eq!(session.peak_bins(2), Some(vec![0]));
}

#[test]
fn leading_takes_at_most_size_samples() {
    let session: Session<i32, i32> = Session::new(vec![1, 2, 3, 4, 5]);
    assert_eq!(session.leading(3), vec![1, 2, 3]);
    assert_eq!(session.leading(9), vec![1, 2, 3, 4, 5]);
}

#[test]
fn alternating_signal_peaks_at_two_hertz() {
    let signal = [1.0, 0.0, -1.0, 0.0, 1.0, 0.0, -1.0, 0.0];
    let sample_rate = 8.0f32;
    let session = transform(&signal, 8, WindowFunction::Rectangle);
    let bins = session.peak_bins(1).unwrap();
    assert_eq!(bins, vec![2]);
    let df = sample_rate / session.spectrum().unwrap().len() as f32;
    assert!((bins[0] as f32 * df - 2.0).abs() < 1e-6);
}

#[test]
fn sinusoid_peak_within_one_bin() {
    let sample_rate = 64.0f32;
    let f = 5.0f32;
    let size = 64usize;
    let signal: Vec<f32> = (0..size)
        .map(|i| (2.0 * PI * f * i as f32 / sample_rate).sin())
        .collect();
    let session = transform(&signal, size, WindowFunction::Hann);
    let bins = session.peak_bins(1).unwrap();
    let freq = bins[0] as f32 * sample_rate / size as f32;
    assert!((freq - f).abs() <= sample_rate / size as f32);
}
