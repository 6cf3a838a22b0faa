//! Core of an audio engine: native DSD and PCM delivery, DoP packing, container
//! and cue-sheet parsing, tag repair, stream detectors and the decisions of the
//! output back ends, all stated and proved in Verus.

pub mod alsa_mmap_sink;
pub mod audio_output;
pub mod bytes;
pub mod cue;
pub mod direct_dsd;
pub mod direct_pcm;
pub mod direct_runtime;
pub mod diretta;
pub mod diretta_output;
pub mod dsd;
pub mod dts;
pub mod encoding;
pub mod fft;
pub mod hdcd;
pub mod metadata;
pub mod midi;
pub mod mqa;
pub mod number;
pub mod path;
pub mod playback;
pub mod text;
