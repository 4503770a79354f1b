use signal::framing::{inverse_len, split_frames, HOP, WIN_SIZE};

#[test]
fn split_frames_keeps_whole_frames_only() {
    let v: Vec<u8> = vec![1, 2, 3, 4, 5, 6, 7];
    let f = split_frames(&v, 4, 2);
    assert_eq!(f, vec![vec![1, 2, 3, 4], vec![3, 4, 5, 6]]);
}

#[test]
fn split_frames_short_signal_has_no_frame() {
    let v: Vec<u8> = vec![1, 2, 3];
    assert!(split_frames(&v, 4, 2).is_empty());
    let e: Vec<u8> = Vec::new();
    assert!(split_frames(&e, 4, 2).is_empty());
}

#[test]
fn split_frames_exact_fit_is_one_frame() {
    let v: Vec<u8> = vec![9, 8, 7, 6];
    assert_eq!(split_frames(&v, 4, 3), vec![vec![9, 8, 7, 6]]);
}

#[test]
fn split_frames_hop_larger_than_window() {
    let v: Vec<u32> = (0..10).collect();
    let f = split_frames(&v, 2, 4);
    assert_eq!(f, vec![vec![0, 1], vec![4, 5], vec![8, 9]]);
}

#[test]
fn split_frames_default_sizes_on_floats() {
    let v: Vec<f32> = (0..2100).map(|i| i as f32 * 0.5).collect();
    let f = split_frames(&v, WIN_SIZE, HOP);
    assert_eq!(f.len(), 3);
    for (k, frame) in f.iter().enumerate() {
        assert_eq!(frame.len(), WIN_SIZE);
        assert_eq!(frame[0], (k * HOP) as f32 * 0.5);
        assert_eq!(frame[WIN_SIZE - 1], (k * HOP + WIN_SIZE - 1) as f32 * 0.5);
    }
}

#[test]
fn split_frames_stereo_pairs() {
    let v: Vec<(i16, i16)> = (0..6).map(|i| (i, -i)).collect();
    let f = split_frames(&v, 4, 2);
    assert_eq!(f, vec![vec![(0, 0), (1, -1), (2, -2), (3, -3)], vec![(2, -2), (3, -3), (4, -4), (5, -5)]]);
}

#[test]
fn inverse_len_values() {
    assert_eq!(inverse_len(1, WIN_SIZE, HOP), 1024);
    assert_eq!(inverse_len(3, WIN_SIZE, HOP), 2048);
    assert_eq!(inverse_len(4, 4, 2), 10);
}

#[test]
fn reconstruction_length_loses_less_than_a_hop() {
    for len in [1024usize, 1500, 2048, 2100, 5000] {
        let v: Vec<u8> = vec![0; len];
        let n = split_frames(&v, WIN_SIZE, HOP).len();
        let r = inverse_len(n, WIN_SIZE, HOP);
        assert_eq!(r, len - (len - WIN_SIZE) % HOP);
        assert!(len - r < HOP);
    }
}

#[test]
fn frames_cover_every_rebuilt_sample() {
    let v: Vec<u32> = (0..11).collect();
    let f = split_frames(&v, 4, 3);
    let r = inverse_len(f.len(), 4, 3);
    assert_eq!(r, 10);
    for p in 0..r as u32 {
        assert!(f.iter().any(|frame| frame.contains(&p)));
    }
}

#[test]
fn adjacent_frames_overlap() {
    let v: Vec<u32> = (0..20).collect();
    let f = split_frames(&v, 6, 4);
    for k in 0..f.len() - 1 {
        assert_eq!(f[k + 1][0..2], f[k][4..6]);
    }
}

#[test]
fn every_frame_bin_lands_inside_rebuilt_signal() {
    let n = 5;
    let r = inverse_len(n, 8, 3);
    assert_eq!(r, 20);
    for i in 0..n {
        for j in 0..8 {
            assert!(i * 3 + j < r);
        }
    }
}
