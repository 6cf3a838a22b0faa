//! Control of a stream that plays.

use vstd::prelude::*;

verus! {

/// Ways of output.
#[derive(Debug, Clone, Copy, PartialEq, Eq, Structural)]
pub enum PlaybackBackend {
    /// A device of the system, which asks for sound.
    Cpal,
    /// A sound card that is written to.
    Alsa,
    /// A sound card that takes DSD.
    AlsaDsd,
}

/// Milliseconds that a device of the system gets to play the silence that follows
/// a stop.
pub const STOP_SETTLE_MS: u64 = 120;

/// A stream, as its control sees it.
#[derive(Debug, Clone, Copy, PartialEq, Eq, Structural)]
pub struct PlaybackControl {
    pub backend: PlaybackBackend,
    pub started: bool,
    pub stopped: bool,
}

impl PlaybackControl {
    /// A stream that was attached. It starts at once unless it is paused.
    pub fn attach(backend: PlaybackBackend, paused: bool) -> (r: Self)
        ensures
            r == (PlaybackControl { backend, started: !paused, stopped: false }),
    {
        PlaybackControl { backend, started: !paused, stopped: false }
    }

    /// Starts the stream.
    pub fn play(&mut self)
        ensures
            *final(self) == (PlaybackControl { started: true, ..*old(self) }),
    {
        self.started = true;
    }

    /// Pauses the stream.
    pub fn pause(&mut self)
        ensures
            *final(self) == (PlaybackControl { started: false, ..*old(self) }),
    {
        self.started = false;
    }

    /// Stops the stream, and tells how many milliseconds to wait before it goes:
    /// a device of the system hears of it late, a sound card plays itself out.
    pub fn stop(&mut self) -> (r: u64)
        ensures
            *final(self) == (PlaybackControl { stopped: true, ..*old(self) }),
            r == if old(self).backend == PlaybackBackend::Cpal {
                STOP_SETTLE_MS
            } else {
                0
            },
    {
        self.stopped = true;
        if self.backend == PlaybackBackend::Cpal {
            STOP_SETTLE_MS
        } else {
            0
        }
    }
}

} // verus!
