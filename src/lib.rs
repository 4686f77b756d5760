//! A multi-carrier differential phase-shift-keyed modem for short acoustic
//! links: bytes become tones on a few DFT bins, and windows of microphone
//! spectra become bytes again.
//!
//! The library holds the modem's logic over plain integers: the bit packer,
//! the channel plan, the schedule of tone commands and the generator's
//! envelope on the sending side, and the per-carrier demodulators and the
//! symbol decoder on the receiving side. Synthesis of the samples and the
//! transform of each window are left to the caller.

pub mod bit_org;
pub mod color;
pub mod config;
pub mod data_decode;
pub mod differential_decode;
pub mod differential_encode;
pub mod fft;
pub mod ringbuf;
pub mod round_trip;
pub mod soundgen;
