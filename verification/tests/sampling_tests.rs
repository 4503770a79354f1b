use signal::sampling::{
    condense_bounds, excerpt, excerpt_bounds, genre_name, m_random_sample, s_random_sample,
    BINS_PER_FRAME,
};

#[test]
fn genre_names() {
    assert_eq!(genre_name(0), "rk");
    assert_eq!(genre_name(1), "grm");
    assert_eq!(genre_name(2), "jazz");
    assert_eq!(genre_name(3), "ele");
    assert_eq!(genre_name(4), "dnb");
    assert_eq!(genre_name(5), "");
}

#[test]
fn excerpt_bounds_ten_seconds() {
    assert_eq!(excerpt_bounds(4000, 44100), (441_000, 512_000 - 441_000));
    assert_eq!(excerpt_bounds(3446, 44100), (441_000, 88));
}

#[test]
fn excerpt_bounds_truncates_span_to_32_bits() {
    let n_frames: usize = (1usize << 32) / 128 + 1;
    assert_eq!(excerpt_bounds(n_frames, 0), (0, 128));
}

#[test]
fn condense_bounds_partition() {
    let b = condense_bounds(250, 100);
    assert_eq!(b.len(), 100);
    assert_eq!(b[0], (0, 2));
    assert_eq!(b[1], (2, 5));
    assert_eq!(b[3], (7, 10));
    assert_eq!(b[99], (247, 250));
    for i in 0..99 {
        assert_eq!(b[i].1, b[i + 1].0);
        assert!(b[i].0 < b[i].1);
    }
}

#[test]
fn condense_bounds_too_few_frames() {
    let b = condense_bounds(50, 100);
    assert_eq!(b[0], (0, 0));
    assert_eq!(b[1], (0, 1));
    assert_eq!(b[99], (49, 50));
    assert!(condense_bounds(10, 0).is_empty());
}

fn spectrogram(n: usize) -> Vec<Vec<f32>> {
    (0..n).map(|i| vec![i as f32 + 1.0; BINS_PER_FRAME]).collect()
}

#[test]
fn excerpt_zeroes_frames_before_start() {
    let s = spectrogram(5);
    let e = excerpt(&s, 512, 2, 0.0f32);
    assert_eq!(e.len(), 4);
    assert_eq!(e[0], vec![0.0; BINS_PER_FRAME]);
    assert_eq!(e[1], vec![0.0; BINS_PER_FRAME]);
    assert_eq!(e[2], s[2]);
    assert_eq!(e[3], s[3]);
}

#[test]
fn excerpt_start_past_end_is_all_zero() {
    let s: Vec<Vec<u8>> = Vec::new();
    let e = excerpt(&s, 300, 7, 0u8);
    assert_eq!(e, vec![vec![0u8; BINS_PER_FRAME]; 2]);
}

#[test]
fn random_sample_with_one_start_copies_everything() {
    let s = spectrogram(3);
    let e = m_random_sample(&s, 384, 1, 0.0f32);
    assert_eq!(e, s);
}

#[test]
fn random_sample_start_is_below_range() {
    let s = spectrogram(6);
    for _ in 0..20 {
        let e = m_random_sample(&s, 768, 3, 0.0f32);
        let start = e.iter().position(|f| f[0] != 0.0).unwrap();
        assert!(start < 3);
        for (i, f) in e.iter().enumerate().skip(start) {
            assert_eq!(f, &s[i]);
        }
    }
}

#[test]
fn stereo_random_sample_with_one_start() {
    let s: Vec<Vec<(i16, i16)>> = (0..2).map(|i| vec![(i + 1, -(i + 1)); BINS_PER_FRAME]).collect();
    let e = s_random_sample(&s, 256, 1, (0, 0));
    assert_eq!(e, s);
}
