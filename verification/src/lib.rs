//! Signal-analysis core of a software demodulator for a tone-multiplexed,
//! error-coded audio data mode.
//!
//! Amplitudes and reference-tone values are carried as fixed-point integers,
//! so that every arithmetic step of the analysis is exact and verified.
//! Decoding an audio container, evaluating transcendental functions and
//! exporting results live outside this crate.

pub mod analysis;
pub mod audio;
pub mod encoding;
pub mod error;
