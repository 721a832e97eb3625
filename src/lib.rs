//! A small synthesizer core: oscillators with envelopes and an amplitude filter,
//! pull access to decoded PCM streams, and a mixer that sums the live sources
//! once per output sample and drops those whose time is over.
//!
//! All arithmetic is in integers. Amplitudes are fixed point with `fixed::ONE`
//! standing for 1.0, frequencies are in millihertz, durations in milliseconds,
//! and time is counted in samples at a sample rate given by the caller.
#![allow(non_snake_case)]

pub mod fixed;
pub mod generator;
pub mod audio_file;
pub mod sound_source;
pub mod mixer;
