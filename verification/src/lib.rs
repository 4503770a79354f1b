//! Index, framing and format logic of a small spectrogram toolkit:
//! cutting a signal into overlapping analysis frames, the length of the
//! overlap-add reconstruction, stereo pairing, sample-format dispatch,
//! and the bookkeeping of the preprocessing step that condenses
//! spectrograms into fixed-size matrices.

pub mod framing;
pub mod channels;
pub mod format;
pub mod sampling;
