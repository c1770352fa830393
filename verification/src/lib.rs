//! A small monophonic waveform synthesizer.
//!
//! A [`timeline::Timeline`] holds scheduled tone events (wave shape, onset,
//! duration, pitch) and renders them into a sampled amplitude buffer by
//! additive mixing of periodic oscillator functions.
//!
//! All arithmetic is exact integer arithmetic: times are microseconds,
//! frequencies are millihertz, and amplitudes are fixed-point values scaled
//! so that `oscillator::MAX_AMPLITUDE` stands for a full-scale amplitude of
//! one. This keeps rendering deterministic and lets every step of the
//! pipeline carry a precise contract.

pub mod oscillator;
pub mod pitch;
pub mod timeline;
