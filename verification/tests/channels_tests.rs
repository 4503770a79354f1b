use signal::channels::{interleave, join_channels, pair_up, split_channels};

#[test]
fn pair_up_drops_lone_last_sample() {
    let v: Vec<i32> = vec![1, 2, 3, 4, 5];
    assert_eq!(pair_up(&v), vec![(1, 2), (3, 4)]);
    let e: Vec<i32> = Vec::new();
    assert!(pair_up(&e).is_empty());
}

#[test]
fn interleave_left_first() {
    let p: Vec<(f32, f32)> = vec![(0.5, -0.5), (1.0, -1.0)];
    assert_eq!(interleave(&p), vec![0.5, -0.5, 1.0, -1.0]);
}

#[test]
fn pair_up_undoes_interleave() {
    let p: Vec<(u8, u8)> = vec![(1, 2), (3, 4), (5, 6)];
    assert_eq!(pair_up(&interleave(&p)), p);
}

#[test]
fn interleave_undoes_pair_up_on_even_stream() {
    let v: Vec<u8> = vec![7, 8, 9, 10];
    assert_eq!(interleave(&pair_up(&v)), v);
}

#[test]
fn split_and_join_channels() {
    let f: Vec<(i8, i8)> = vec![(1, -1), (2, -2), (3, -3)];
    let (l, r) = split_channels(&f);
    assert_eq!(l, vec![1, 2, 3]);
    assert_eq!(r, vec![-1, -2, -3]);
    assert_eq!(join_channels(l, r), f);
}

#[test]
fn join_channels_stops_at_shorter() {
    let l: Vec<u8> = vec![1, 2, 3];
    let r: Vec<u8> = vec![4, 5];
    assert_eq!(join_channels(l, r), vec![(1, 4), (2, 5)]);
}
