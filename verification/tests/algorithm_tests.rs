use mfcc_profile::algorithm::downsample;
use mfcc_profile::algorithm::is_finite_sample;
use mfcc_profile::algorithm::all_samples_finite;
use mfcc_profile::algorithm::low_pass_kernel_len;
use mfcc_profile::algorithm::select_coefficients;
use mfcc_profile::algorithm::split_frames;

fn bits_of(values: &[f32]) -> Vec<u32> {
    values.iter().map(|v| v.to_bits()).collect()
}

fn floats_of(bits: &[u32]) -> Vec<f32> {
    bits.iter().map(|b| f32::from_bits(*b)).collect()
}

#[test]
fn downsample_same_rate_is_identity() {
    let input = bits_of(&[0.5, -0.25, 0.125, 1.0e-7, -3.5]);
    let mut out: Vec<u32> = Vec::new();
    downsample(&input, 16000, 16000, &mut out);
    assert_eq!(out, input);
}

#[test]
fn downsample_never_upsamples() {
    let input = bits_of(&[1.0, 2.0, 3.0]);
    let mut out: Vec<u32> = Vec::new();
    downsample(&input, 8000, 44100, &mut out);
    assert_eq!(out, input);
}

#[test]
fn downsample_halving_keeps_every_second_sample() {
    let input = bits_of(&[0.0, 1.0, 2.0, 3.0, 4.0, 5.0, 6.0]);
    let mut out: Vec<u32> = Vec::new();
    downsample(&input, 32000, 16000, &mut out);
    assert_eq!(out.len(), 3);
    for i in 0..out.len() {
        assert_eq!(out[i], input[2 * i]);
    }
}

#[test]
fn downsample_triple_ratio_decimates() {
    let input = bits_of(&[0.0, 1.0, 2.0, 3.0, 4.0, 5.0, 6.0, 7.0, 8.0]);
    let mut out: Vec<u32> = Vec::new();
    downsample(&input, 48000, 16000, &mut out);
    assert_eq!(out, vec![input[0], input[3], input[6]]);
}

#[test]
fn downsample_fractional_picks_floored_indices() {
    // ratio 3/2: output length = round(5 * 2 / 3) = round(3.33..) = 3,
    // source indices floor(j * 3 / 2) = 0, 1, 3.
    let input = bits_of(&[10.0, 11.0, 12.0, 13.0, 14.0]);
    let mut out: Vec<u32> = Vec::new();
    downsample(&input, 3, 2, &mut out);
    assert_eq!(out, vec![input[0], input[1], input[3]]);
}

#[test]
fn downsample_fractional_rounds_ties_to_even() {
    // ratio 4/3 and 6 samples: 6 * 3 / 4 = 4.5, an exact tie, rounded to the
    // even length 4; source indices floor(j * 4 / 3) = 0, 1, 2, 4.
    let input = bits_of(&[0.0, 1.0, 2.0, 3.0, 4.0, 5.0]);
    let mut out: Vec<u32> = Vec::new();
    downsample(&input, 4, 3, &mut out);
    assert_eq!(out, vec![input[0], input[1], input[2], input[4]]);

    // 2 samples: 2 * 3 / 4 = 1.5, tie rounded up to the even length 2.
    let input2 = bits_of(&[7.0, 8.0]);
    let mut out2: Vec<u32> = Vec::new();
    downsample(&input2, 4, 3, &mut out2);
    assert_eq!(out2, vec![input2[0], input2[1]]);
}

#[test]
fn downsample_empty_input() {
    let input: Vec<u32> = Vec::new();
    let mut out = bits_of(&[9.0]);
    downsample(&input, 44100, 16000, &mut out);
    assert!(out.is_empty());
}

#[test]
fn finiteness_matches_ieee_semantics() {
    let cases: [f32; 9] = [
        0.0,
        -0.0,
        1.0,
        -123.456,
        f32::MIN_POSITIVE / 2.0, // subnormal
        f32::MAX,
        f32::INFINITY,
        f32::NEG_INFINITY,
        f32::NAN,
    ];
    for v in cases {
        assert_eq!(is_finite_sample(v.to_bits()), v.is_finite(), "value {v}");
    }
}

#[test]
fn vector_finiteness_screen() {
    assert!(all_samples_finite(&bits_of(&[0.0, 1.0, -2.0])));
    assert!(!all_samples_finite(&bits_of(&[0.0, f32::NAN, -2.0])));
    assert!(!all_samples_finite(&bits_of(&[f32::INFINITY])));
    assert!(all_samples_finite(&Vec::new()));
}

#[test]
fn split_frames_discards_trailing_remainder() {
    let audio = bits_of(&[0.0, 1.0, 2.0, 3.0, 4.0, 5.0, 6.0, 7.0, 8.0, 9.0]);
    let frames = split_frames(&audio, 4);
    assert_eq!(frames.len(), 2);
    assert_eq!(frames[0], audio[0..4].to_vec());
    assert_eq!(frames[1], audio[4..8].to_vec());
}

#[test]
fn split_frames_short_audio_yields_nothing() {
    let audio = bits_of(&[1.0, 2.0, 3.0]);
    let frames = split_frames(&audio, 4);
    assert!(frames.is_empty());
}

#[test]
fn split_frames_exact_multiple() {
    let audio = bits_of(&[1.0, 2.0, 3.0, 4.0]);
    let frames = split_frames(&audio, 2);
    assert_eq!(frames.len(), 2);
    assert_eq!(floats_of(&frames[1]), vec![3.0, 4.0]);
}

#[test]
fn select_coefficients_drops_zeroth_and_truncates() {
    let cepstrum: Vec<u32> = (0..16u32).collect();
    let out = select_coefficients(&cepstrum);
    assert_eq!(out, (1..13u32).collect::<Vec<u32>>());
}

#[test]
fn select_coefficients_short_cepstrum() {
    let cepstrum: Vec<u32> = (0..5u32).collect();
    let out = select_coefficients(&cepstrum);
    assert_eq!(out, vec![1, 2, 3, 4]);

    assert!(select_coefficients(&Vec::new()).is_empty());
    assert!(select_coefficients(&vec![42u32]).is_empty());
}

#[test]
fn kernel_len_matches_transition_width() {
    // 31 * 16000 / (10 * 500) = 99.2, rounds to the odd 99.
    assert_eq!(low_pass_kernel_len(16000, 500), 99);
    // 31 * 48000 / (10 * 500) = 297.6, rounds to 298, forced odd to 299.
    assert_eq!(low_pass_kernel_len(48000, 500), 299);
}

#[test]
fn downsample_fractional_can_round_to_empty() {
    // ratio 7/2 and a single sample: round(1 * 2 / 7) = 0 output samples.
    let input = bits_of(&[1.5]);
    let mut out: Vec<u32> = Vec::new();
    downsample(&input, 7, 2, &mut out);
    assert!(out.is_empty());
}

#[test]
fn kernel_len_of_wide_transition_is_one() {
    // 31 * 100 / (10 * 50000) rounds to zero; forcing odd yields a
    // single-tap kernel.
    assert_eq!(low_pass_kernel_len(100, 50000), 1);
}

#[test]
fn kernel_len_is_always_odd() {
    for rate in [8000u32, 11025, 16000, 22050, 44100, 48000] {
        for range in [100u32, 250, 500, 1000] {
            assert_eq!(low_pass_kernel_len(rate, range) % 2, 1);
        }
    }
}
