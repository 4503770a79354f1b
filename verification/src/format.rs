//! Which sample encoding and which channel layout a WAV stream is read
//! with, and the full-scale value that brings its integer samples into
//! the range [-1, 1].

use vstd::prelude::*;

verus! {

/// How the samples of a WAV stream are stored, as its header says.
#[derive(Debug, Clone, Copy, PartialEq, Eq, Structural)]
pub enum SampleKind {
    Float,
    Int,
}

/// The sample type a WAV stream is decoded with.
#[derive(Debug, Clone, Copy, PartialEq, Eq, Structural)]
pub enum SampleEncoding {
    /// 16-bit integer samples.
    Int16,
    /// 24-bit integer samples, read into 32-bit integers.
    Int24,
    /// 32-bit float samples, already in [-1, 1].
    Float32,
    /// 32-bit integer samples.
    Int32,
}

/// The channel layouts that the toolkit handles.
#[derive(Debug, Clone, Copy, PartialEq, Eq, Structural)]
pub enum ChannelLayout {
    Mono,
    Stereo,
}

/// The encoding for a bit depth and sample kind: 16 and 24 bits are read
/// as integers whatever the kind, 32 bits as floats or integers by the
/// kind; no other depth is handled.
pub open spec fn encoding_of(bits_per_sample: u16, kind: SampleKind) -> Option<SampleEncoding> {
    if bits_per_sample == 16 {
        Some(SampleEncoding::Int16)
    } else if bits_per_sample == 24 {
        Some(SampleEncoding::Int24)
    } else if bits_per_sample == 32 {
        if kind == SampleKind::Float {
            Some(SampleEncoding::Float32)
        } else {
            Some(SampleEncoding::Int32)
        }
    } else {
        None
    }
}

/// The value that an integer sample of the encoding is divided by to
/// bring it into [-1, 1]; float samples are taken as they are.
pub open spec fn full_scale_of(enc: SampleEncoding) -> Option<u32> {
    match enc {
        SampleEncoding::Int16 => Some(32767u32),
        SampleEncoding::Int24 => Some(8388608u32),
        SampleEncoding::Float32 => None,
        SampleEncoding::Int32 => Some(2147483647u32),
    }
}

/// The layout for a channel count: one channel is mono, two are stereo,
/// no other count is handled.
pub open spec fn layout_of(channels: u16) -> Option<ChannelLayout> {
    if channels == 1 {
        Some(ChannelLayout::Mono)
    } else if channels == 2 {
        Some(ChannelLayout::Stereo)
    } else {
        None
    }
}

/// Picks the sample encoding for a stream's bit depth and sample kind;
/// `None` for a depth that is not handled.
pub fn sample_encoding(bits_per_sample: u16, kind: SampleKind) -> (enc: Option<SampleEncoding>)
    ensures
        enc == encoding_of(bits_per_sample, kind),
        bits_per_sample == 16 ==> enc == Some(SampleEncoding::Int16),
        bits_per_sample == 24 ==> enc == Some(SampleEncoding::Int24),
        bits_per_sample == 32 && kind == SampleKind::Float ==> enc == Some(SampleEncoding::Float32),
        bits_per_sample == 32 && kind == SampleKind::Int ==> enc == Some(SampleEncoding::Int32),
        bits_per_sample != 16 && bits_per_sample != 24 && bits_per_sample != 32 ==> enc is None,
{
    match bits_per_sample {
        16 => Some(SampleEncoding::Int16),
        24 => Some(SampleEncoding::Int24),
        32 => {
            match kind {
                SampleKind::Float => Some(SampleEncoding::Float32),
                SampleKind::Int => Some(SampleEncoding::Int32),
            }
        },
        _ => None,
    }
}

/// The full-scale divisor of an encoding: `i16::MAX` for 16-bit samples,
/// 2^23 for 24-bit samples, `i32::MAX` for 32-bit integer samples, and
/// `None` for float samples, which need no scaling.
pub fn full_scale(enc: SampleEncoding) -> (scale: Option<u32>)
    ensures
        scale == full_scale_of(enc),
        enc == SampleEncoding::Int16 ==> scale == Some(32767u32),
        enc == SampleEncoding::Int24 ==> scale == Some(8388608u32),
        enc == SampleEncoding::Int32 ==> scale == Some(2147483647u32),
        enc == SampleEncoding::Float32 ==> scale is None,
{
    match enc {
        SampleEncoding::Int16 => Some(32767u32),
        SampleEncoding::Int24 => Some(8388608u32),
        SampleEncoding::Float32 => None,
        SampleEncoding::Int32 => Some(2147483647u32),
    }
}

/// The channel layout for a stream's channel count; `None` for a count
/// that is not handled.
pub fn channel_layout(channels: u16) -> (layout: Option<ChannelLayout>)
    ensures
        layout == layout_of(channels),
        channels == 1 ==> layout == Some(ChannelLayout::Mono),
        channels == 2 ==> layout == Some(ChannelLayout::Stereo),
        channels != 1 && channels != 2 ==> layout is None,
{
    match channels {
        1 => Some(ChannelLayout::Mono),
        2 => Some(ChannelLayout::Stereo),
        _ => None,
    }
}

/// Law: only float samples go unscaled, and every other encoding has a
/// positive full-scale divisor, so scaling never divides by zero.
pub proof fn lemma_full_scale_positive(enc: SampleEncoding)
    ensures
        full_scale_of(enc) is None <==> enc == SampleEncoding::Float32,
        full_scale_of(enc) matches Some(d) ==> d > 0,
{
}

} // verus!
