# audio_engine_core

The core of an audio engine as a Verus library. What it decides and computes is
executable Rust whose behaviour is stated in contracts and proved by Verus.

- `src/` is the library.
  - `text`, `number`, `path`, `bytes`, `encoding`: what the rest is built on.
  - `dsd`, `direct_dsd`: DSF and DFF files, DoP, and native DSD through a ring of
    blocks, bit for bit.
  - `direct_pcm`: decoded frames on the wire, accurate seeking, fades, and PCM
    through a ring of blocks.
  - `direct_runtime`: which source plays where, and positions in it.
  - `diretta`, `diretta_output`, `audio_output`, `alsa_mmap_sink`, `playback`:
    the decisions of the outputs, step by step.
  - `cue`, `metadata`: cue sheets, tags and covers.
  - `dts`, `mqa`, `hdcd`, `midi`, `fft`: detectors, and the samples of a spectrum.
- `tests/` runs the library on concrete values.
- `app/` is what surrounds it: files, threads, floating-point samples, and the
  traits behind which sound cards, targets and decoders stand.

Public proof functions named `law_..` state what holds of several functions
together. Times are whole microseconds, frames or bits; seconds belong to `app/`.
