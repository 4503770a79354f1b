use signal::format::{channel_layout, full_scale, sample_encoding, ChannelLayout, SampleEncoding, SampleKind};

#[test]
fn encodings_by_depth() {
    assert_eq!(sample_encoding(16, SampleKind::Int), Some(SampleEncoding::Int16));
    assert_eq!(sample_encoding(16, SampleKind::Float), Some(SampleEncoding::Int16));
    assert_eq!(sample_encoding(24, SampleKind::Int), Some(SampleEncoding::Int24));
    assert_eq!(sample_encoding(24, SampleKind::Float), Some(SampleEncoding::Int24));
    assert_eq!(sample_encoding(32, SampleKind::Float), Some(SampleEncoding::Float32));
    assert_eq!(sample_encoding(32, SampleKind::Int), Some(SampleEncoding::Int32));
}

#[test]
fn unhandled_depths() {
    assert_eq!(sample_encoding(8, SampleKind::Int), None);
    assert_eq!(sample_encoding(0, SampleKind::Float), None);
    assert_eq!(sample_encoding(64, SampleKind::Float), None);
}

#[test]
fn full_scales() {
    assert_eq!(full_scale(SampleEncoding::Int16), Some(i16::MAX as u32));
    assert_eq!(full_scale(SampleEncoding::Int24), Some(8_388_608));
    assert_eq!(full_scale(SampleEncoding::Int32), Some(i32::MAX as u32));
    assert_eq!(full_scale(SampleEncoding::Float32), None);
}

#[test]
fn layouts() {
    assert_eq!(channel_layout(1), Some(ChannelLayout::Mono));
    assert_eq!(channel_layout(2), Some(ChannelLayout::Stereo));
    assert_eq!(channel_layout(0), None);
    assert_eq!(channel_layout(6), None);
}
