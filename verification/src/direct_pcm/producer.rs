//! The producer of PCM blocks: fills the ring with what the decoder gives,
//! follows seeks and changes of source, and joins a staged source without a gap.

use vstd::prelude::*;

use super::ring::{
    DirectPcmMonitor, DirectPcmRing, PcmFrame, PcmRingView, PcmSlotView, DIRECT_RING_DEPTH,
};
use super::{same_pcm_transport, same_transport, DirectPcmError, DirectPcmFormat};
use crate::direct_dsd::ring::{SlotState, PRE_MUTE_WINDOW_MS};

verus! {

/// A source that waits for the current one to end: its first frame is decoded.
pub struct StagedPcmSource {
    pub first_frame: PcmFrame,
    pub duration_micros: u64,
    pub generation: u64,
}

/// The first frame of a source, from what decoding gave; `missing` where it gave
/// none.
pub open spec fn first_of(
    decoded: Result<Option<PcmFrame>, DirectPcmError>,
    missing: DirectPcmError,
) -> Result<PcmFrame, DirectPcmError> {
    match decoded {
        Ok(Some(frame)) => Ok(frame),
        Ok(None) => Err(missing),
        Err(e) => Err(e),
    }
}

fn first_frame(decoded: Result<Option<PcmFrame>, DirectPcmError>, missing: DirectPcmError) -> (r:
    Result<PcmFrame, DirectPcmError>)
    ensures
        r == first_of(decoded, missing),
{
    match decoded {
        Ok(Some(frame)) => Ok(frame),
        Ok(None) => Err(missing),
        Err(e) => Err(e),
    }
}

/// The first frame of a source that is to follow on a connection, or why the
/// source is refused.
pub open spec fn fitting_frame(
    decoded: Result<Option<PcmFrame>, DirectPcmError>,
    current_format: DirectPcmFormat,
) -> Result<PcmFrame, DirectPcmError> {
    match first_of(decoded, DirectPcmError::NoFrame) {
        Ok(frame) => if same_transport(current_format, frame.format) {
            Ok(frame)
        } else {
            Err(DirectPcmError::TransportMismatch)
        },
        Err(e) => Err(e),
    }
}

fn fit_frame(
    decoded: Result<Option<PcmFrame>, DirectPcmError>,
    current_format: DirectPcmFormat,
) -> (r: Result<PcmFrame, DirectPcmError>)
    ensures
        r == fitting_frame(decoded, current_format),
{
    match first_frame(decoded, DirectPcmError::NoFrame) {
        Ok(frame) => {
            if same_pcm_transport(current_format, frame.format) {
                Ok(frame)
            } else {
                Err(DirectPcmError::TransportMismatch)
            }
        },
        Err(e) => Err(e),
    }
}

/// Readies a source to follow the current one; refused where it holds no frame
/// or does not fit the connection.
pub fn prepare_staged_pcm_source(
    decoded: Result<Option<PcmFrame>, DirectPcmError>,
    current_format: DirectPcmFormat,
    duration_micros: u64,
    generation: u64,
) -> (r: Result<StagedPcmSource, DirectPcmError>)
    ensures
        r == match fitting_frame(decoded, current_format) {
            Ok(first_frame) => Ok::<StagedPcmSource, DirectPcmError>(
                StagedPcmSource { first_frame, duration_micros, generation },
            ),
            Err(e) => Err(e),
        },
{
    match fit_frame(decoded, current_format) {
        Ok(first_frame) => Ok(StagedPcmSource { first_frame, duration_micros, generation }),
        Err(e) => Err(e),
    }
}

/// What a step of production came to.
#[derive(Debug, Clone, Copy, PartialEq, Eq, Structural)]
pub enum PcmStep {
    /// The stream has failed: wait for a command or a reset.
    WaitFailed,
    /// The source has ended and none is staged: wait for one, a fade or a
    /// command.
    WaitFinished,
    /// The next slot is not free: wait for the device or a command.
    WaitSlot,
    /// No block was decoded yet, so the length of silence is not known: wait for
    /// a command.
    WaitCommand,
    /// The next slot is claimed: decode a frame for it.
    Decode,
    /// A slot was filled with a frame.
    Filled,
    /// A slot was filled with silence.
    Silenced,
    /// The staged source took over: its decoder is the decoder from now on.
    Installed,
    /// Nothing follows: the source has finished.
    Ended,
    /// The stream has failed with this step.
    Failed,
    /// The format changed in mid-stream: the stream has failed, and production
    /// stops.
    Stopped,
}

/// A PCM source: the ring it fills and the source staged to follow.
pub struct DirectPcmSource {
    pub monitor: DirectPcmMonitor,
    pub format: DirectPcmFormat,
    pub active_format: DirectPcmFormat,
    pub staged: Option<StagedPcmSource>,
    pub next_slot: usize,
}

/// The slot after another.
pub open spec fn slot_after(i: int) -> int {
    (i + 1) % DIRECT_RING_DEPTH as int
}

impl DirectPcmSource {
    /// The state of the ring.
    pub open spec fn ring(&self) -> PcmRingView {
        self.monitor.ring@
    }

    /// The source's invariant.
    pub open spec fn wf(&self) -> bool {
        &&& self.ring().wf()
        &&& self.next_slot < DIRECT_RING_DEPTH
        &&& self.format.valid_bits <= self.format.storage_bits
    }

    /// The slot that production fills next.
    pub open spec fn slot(&self) -> PcmSlotView {
        self.ring().slots[self.next_slot as int]
    }

    /// Whether the control side's part is as before.
    pub open spec fn keeps_rest(&self, before: &DirectPcmSource) -> bool {
        &&& self.format == before.format
        &&& self.monitor.sample_rate == before.monitor.sample_rate
    }

    /// Whether all but the ring is as before.
    pub open spec fn keeps_all_but_ring(&self, before: &DirectPcmSource) -> bool {
        &&& self.keeps_rest(before)
        &&& self.active_format == before.active_format
        &&& self.staged == before.staged
        &&& self.next_slot == before.next_slot
    }

    /// Whether the source was just opened with a first frame.
    pub open spec fn opened_with(&self, frame: PcmFrame) -> bool {
        &&& self.wf()
        &&& self.format == frame.format
        &&& self.active_format == frame.format
        &&& self.monitor.sample_rate == frame.format.sample_rate
        &&& self.staged is None
        &&& self.next_slot == 1
        &&& self.ring() == PcmRingView::fresh().with_slot(
            0,
            PcmSlotView::fresh().filled(frame.payload@, frame.frames),
        )
    }

    /// Opens a source with what decoding its first frame gave, after an accurate
    /// seek where `seeking`: its ring holds that frame.
    pub fn open_with_decoder(
        decoded: Result<Option<PcmFrame>, DirectPcmError>,
        seeking: bool,
    ) -> (r: Result<Self, DirectPcmError>)
        requires
            decoded matches Ok(Some(frame)) ==> frame.format.valid_bits
                <= frame.format.storage_bits,
        ensures
            ({
                let missing = if seeking {
                    DirectPcmError::EmptyFrame
                } else {
                    DirectPcmError::NoFrame
                };
                match first_of(decoded, missing) {
                    Ok(frame) => {
                        &&& r matches Ok(source) && source.opened_with(frame)
                    },
                    Err(e) => r == Err::<Self, DirectPcmError>(e),
                }
            }),
    {
        let missing = if seeking {
            DirectPcmError::EmptyFrame
        } else {
            DirectPcmError::NoFrame
        };
        let frame = match first_frame(decoded, missing) {
            Ok(frame) => frame,
            Err(e) => {
                return Err(e);
            },
        };
        let format = frame.format;
        let mut ring = DirectPcmRing::new();
        let ghost empty = ring@;
        assert(empty.slots[0].wf());
        ring.slots[0].fill_frame(frame);
        assert(ring@.slots =~= empty.slots.update(0, ring.slots@[0]@));
        assert(ring@ =~= empty.with_slot(0, ring.slots@[0]@));
        Ok(
            DirectPcmSource {
                monitor: DirectPcmMonitor { ring, sample_rate: format.sample_rate },
                format,
                active_format: format,
                staged: None,
                next_slot: 1,
            },
        )
    }

    /// The ring with its first slot claimed for a new position.
    pub open spec fn awaiting_seek(ring: PcmRingView, now_ms: u64) -> PcmRingView {
        let empty = ring.pre_muted(now_ms).reset();
        empty.with_slot(0, empty.slots[0].turned(SlotState::Filling))
    }

    /// Begins a move to another position: silence covers the gap, the ring is
    /// emptied, and its first slot is claimed for the frame there.
    pub fn begin_seek(&mut self, now_ms: u64)
        requires
            old(self).wf(),
            now_ms <= u64::MAX - PRE_MUTE_WINDOW_MS,
        ensures
            final(self).wf(),
            final(self).keeps_rest(old(self)),
            final(self).active_format == old(self).active_format,
            final(self).staged == old(self).staged,
            final(self).next_slot == 1,
            final(self).ring() == Self::awaiting_seek(old(self).ring(), now_ms),
    {
        self.monitor.ring.trigger_pre_mute(now_ms);
        self.monitor.ring.reset_for_transition();
        let ghost empty = self.ring();
        assert(empty.slots[0].wf());
        self.monitor.ring.slots[0].state = SlotState::Filling;
        self.next_slot = 1;
        proof {
            let want = Self::awaiting_seek(old(self).ring(), now_ms);
            assert(self.monitor.ring.slots@[0]@ =~= want.slots[0]);
            assert(self.ring().slots =~= want.slots);
            assert(self.ring() =~= want);
        }
    }

    /// Ends a move with what decoding at the new position gave. The format may
    /// not change; a move that finds no frame, or another format, fails the
    /// stream.
    pub fn seek_while_paused(&mut self, decoded: Result<Option<PcmFrame>, DirectPcmError>) -> (r:
        Result<(), DirectPcmError>)
        requires
            old(self).wf(),
        ensures
            final(self).wf(),
            final(self).keeps_all_but_ring(old(self)),
            match first_of(decoded, DirectPcmError::EmptyFrame) {
                Ok(frame) => if frame.format == old(self).active_format {
                    &&& r is Ok
                    &&& final(self).ring() == old(self).ring().with_slot(
                        0,
                        old(self).ring().slots[0].filled(frame.payload@, frame.frames),
                    )
                } else {
                    &&& r == Err::<(), DirectPcmError>(DirectPcmError::FormatChanged)
                    &&& final(self).ring() == (PcmRingView { failed: true, ..old(self).ring() })
                },
                Err(e) => {
                    &&& r == Err::<(), DirectPcmError>(e)
                    &&& final(self).ring() == (PcmRingView { failed: true, ..old(self).ring() })
                },
            },
    {
        let frame = match first_frame(decoded, DirectPcmError::EmptyFrame) {
            Ok(frame) => frame,
            Err(e) => {
                self.monitor.ring.failed = true;
                return Err(e);
            },
        };
        if frame.format != self.active_format {
            self.monitor.ring.failed = true;
            return Err(DirectPcmError::FormatChanged);
        }
        self.fill(0, frame);
        Ok(())
    }

    /// Fills a slot with a frame.
    fn fill(&mut self, index: usize, frame: PcmFrame)
        requires
            old(self).wf(),
            index < DIRECT_RING_DEPTH,
        ensures
            final(self).wf(),
            final(self).keeps_all_but_ring(old(self)),
            final(self).ring() == old(self).ring().with_slot(
                index as int,
                old(self).ring().slots[index as int].filled(frame.payload@, frame.frames),
            ),
    {
        let ghost before = self.ring();
        assert(before.slots[index as int].wf());
        self.monitor.ring.slots[index].fill_frame(frame);
        proof {
            let slot = self.monitor.ring.slots@[index as int]@;
            assert(self.ring().slots =~= before.slots.update(index as int, slot));
            assert(self.ring() =~= before.with_slot(index as int, slot));
        }
    }

    /// Gives a slot another state.
    fn turn(&mut self, index: usize, state: SlotState)
        requires
            old(self).wf(),
            index < DIRECT_RING_DEPTH,
        ensures
            final(self).wf(),
            final(self).keeps_all_but_ring(old(self)),
            final(self).ring() == old(self).ring().with_slot(
                index as int,
                old(self).ring().slots[index as int].turned(state),
            ),
    {
        let ghost before = self.ring();
        assert(before.slots[index as int].wf());
        self.monitor.ring.slots[index].state = state;
        proof {
            let slot = before.slots[index as int].turned(state);
            assert(self.monitor.ring.slots@[index as int]@ =~= slot);
            assert(self.ring().slots =~= before.slots.update(index as int, slot));
            assert(self.ring() =~= before.with_slot(index as int, slot));
        }
    }

    /// The ring with a first frame in place of all it held.
    pub open spec fn replaced_by(ring: PcmRingView, frame: PcmFrame, now_ms: u64) -> PcmRingView {
        let empty = ring.pre_muted(now_ms).reset();
        empty.with_slot(
            0,
            empty.slots[0].filled_at_boundary(
                frame.payload@,
                frame.frames,
                ring.duration_micros,
                (ring.boundary_generation + 1) as u64,
            ),
        )
    }

    /// Puts another source in place of the current one: silence covers the gap,
    /// the ring is emptied, and the first slot gets the source's first frame,
    /// marked as a boundary. A refused source changes nothing.
    pub fn replace_drained_local(
        &mut self,
        decoded: Result<Option<PcmFrame>, DirectPcmError>,
        now_ms: u64,
    ) -> (r: Result<DirectPcmFormat, DirectPcmError>)
        requires
            old(self).wf(),
            old(self).ring().boundary_generation < u64::MAX,
            now_ms <= u64::MAX - PRE_MUTE_WINDOW_MS,
            decoded matches Ok(Some(frame)) ==> frame.format.valid_bits
                <= frame.format.storage_bits,
        ensures
            final(self).wf(),
            final(self).monitor.sample_rate == old(self).monitor.sample_rate,
            match fitting_frame(decoded, old(self).active_format) {
                Ok(frame) => {
                    &&& r == Ok::<DirectPcmFormat, DirectPcmError>(frame.format)
                    &&& final(self).format == frame.format
                    &&& final(self).active_format == frame.format
                    &&& final(self).staged is None
                    &&& final(self).next_slot == 1
                    &&& final(self).ring() == Self::replaced_by(old(self).ring(), frame, now_ms)
                },
                Err(e) => {
                    &&& r == Err::<DirectPcmFormat, DirectPcmError>(e)
                    &&& *final(self) == *old(self)
                },
            },
    {
        let frame = match fit_frame(decoded, self.active_format) {
            Ok(frame) => frame,
            Err(e) => {
                return Err(e);
            },
        };
        let new_format = frame.format;
        self.monitor.ring.trigger_pre_mute(now_ms);
        self.monitor.ring.reset_for_transition();
        let ghost empty = self.ring();
        assert(empty.slots[0].wf());
        let duration_micros: u64 = self.monitor.ring.duration_micros;
        let generation: u64 = self.monitor.ring.boundary_generation + 1;
        self.monitor.ring.slots[0].fill_boundary(frame, duration_micros, generation);
        proof {
            let slot = self.monitor.ring.slots@[0]@;
            assert(self.ring().slots =~= empty.slots.update(0, slot));
            assert(self.ring() =~= empty.with_slot(0, slot));
        }
        self.active_format = new_format;
        self.format = new_format;
        self.staged = None;
        self.next_slot = 1;
        Ok(new_format)
    }

    /// Stages a source to follow the current one, from what decoding its first
    /// frame gave. A refused source leaves the one that was staged.
    pub fn stage_local(
        &mut self,
        decoded: Result<Option<PcmFrame>, DirectPcmError>,
        duration_micros: u64,
        generation: u64,
    ) -> (r: Result<(), DirectPcmError>)
        requires
            old(self).wf(),
        ensures
            final(self).wf(),
            final(self).ring() == old(self).ring(),
            final(self).keeps_rest(old(self)),
            final(self).active_format == old(self).active_format,
            final(self).next_slot == old(self).next_slot,
            match fitting_frame(decoded, old(self).active_format) {
                Ok(first_frame) => r is Ok && final(self).staged == Some(
                    StagedPcmSource { first_frame, duration_micros, generation },
                ),
                Err(e) => r == Err::<(), DirectPcmError>(e) && final(self).staged == old(
                    self).staged,
            },
    {
        match prepare_staged_pcm_source(decoded, self.active_format, duration_micros, generation) {
            Ok(candidate) => {
                self.staged = Some(candidate);
                Ok(())
            },
            Err(e) => Err(e),
        }
    }

    /// Takes the first frame of the staged source to put it in place of the current
    /// one, where it is the one of this generation.
    pub fn take_staged(&mut self, generation: u64) -> (r: Option<PcmFrame>)
        requires
            old(self).wf(),
        ensures
            final(self).wf(),
            final(self).ring() == old(self).ring(),
            final(self).keeps_rest(old(self)),
            final(self).active_format == old(self).active_format,
            final(self).next_slot == old(self).next_slot,
            match old(self).staged {
                Some(staged) => if staged.generation == generation {
                    r == Some(staged.first_frame) && final(self).staged is None
                } else {
                    r is None && final(self).staged == old(self).staged
                },
                None => r is None && final(self).staged is None,
            },
    {
        let candidate: Option<StagedPcmSource> = self.staged.take();
        match candidate {
            Some(staged) => {
                if staged.generation == generation {
                    return Some(staged.first_frame);
                }
                self.staged = Some(staged);
                None
            },
            None => None,
        }
    }

    /// Drops the staged source.
    pub fn cancel(&mut self)
        requires
            old(self).wf(),
        ensures
            final(self).wf(),
            final(self).staged is None,
            final(self).ring() == old(self).ring(),
            final(self).keeps_rest(old(self)),
            final(self).active_format == old(self).active_format,
            final(self).next_slot == old(self).next_slot,
    {
        self.staged = None;
    }

    /// What installing a staged source does: its first frame is in the slot,
    /// marked as a boundary, and it is the source from now on.
    pub open spec fn took_over(
        &self,
        before: PcmRingView,
        index: usize,
        staged: StagedPcmSource,
    ) -> bool {
        let first = staged.first_frame;
        &&& self.active_format == first.format
        &&& self.staged is None
        &&& self.next_slot == slot_after(index as int)
        &&& self.ring() == (PcmRingView {
            finished: false,
            ..before.with_slot(
                index as int,
                before.slots[index as int].filled_at_boundary(
                    first.payload@,
                    first.frames,
                    staged.duration_micros,
                    staged.generation,
                ),
            )
        })
    }

    /// Puts the staged source into the next slot.
    fn install(&mut self, staged: StagedPcmSource)
        requires
            old(self).wf(),
        ensures
            final(self).wf(),
            final(self).keeps_rest(old(self)),
            final(self).took_over(old(self).ring(), old(self).next_slot, staged),
    {
        let index: usize = self.next_slot;
        let ghost before = self.ring();
        assert(before.slots[index as int].wf());
        self.active_format = staged.first_frame.format;
        self.staged = None;
        self.monitor.ring.slots[index].fill_boundary(
            staged.first_frame,
            staged.duration_micros,
            staged.generation,
        );
        self.monitor.ring.finished = false;
        self.next_slot = (index + 1) % DIRECT_RING_DEPTH;
        proof {
            let slot = self.monitor.ring.slots@[index as int]@;
            assert(self.ring().slots =~= before.slots.update(index as int, slot));
            assert(self.ring() =~= (PcmRingView {
                finished: false,
                ..before.with_slot(index as int, slot)
            }));
        }
    }

    /// What a step of production does.
    pub open spec fn produced(&self, before: &DirectPcmSource, r: PcmStep) -> bool {
        let ring = before.ring();
        let i = before.next_slot as int;
        let slot = before.slot();
        let same = self.ring() == ring && self.keeps_all_but_ring(before);
        let fading = ring.fade.active();
        if ring.failed {
            r == PcmStep::WaitFailed && same
        } else if ring.finished && !fading && before.staged is None {
            r == PcmStep::WaitFinished && same
        } else if slot.state != SlotState::Free {
            r == PcmStep::WaitSlot && same
        } else if ring.finished && !fading {
            &&& r == PcmStep::Installed
            &&& self.took_over(ring, before.next_slot, before.staged->0)
        } else if ring.finished && (ring.last_block_bytes == 0 || ring.last_block_frames
            == 0) {
            r == PcmStep::WaitCommand && same
        } else if ring.finished {
            &&& r == PcmStep::Silenced
            &&& self.ring() == ring.with_slot(
                i,
                slot.silenced(ring.last_block_bytes, ring.last_block_frames),
            )
            &&& self.active_format == before.active_format
            &&& self.staged == before.staged
            &&& self.next_slot == slot_after(i)
        } else {
            &&& r == PcmStep::Decode
            &&& self.ring() == ring.with_slot(i, slot.turned(SlotState::Filling))
            &&& self.keeps_all_but_ring(before)
        }
    }

    /// One step of production, after commands were taken in. A source at its end
    /// goes on with silence while a fade is under way, and else with the staged
    /// source.
    pub fn produce(&mut self) -> (r: PcmStep)
        requires
            old(self).wf(),
        ensures
            final(self).wf(),
            final(self).keeps_rest(old(self)),
            final(self).produced(old(self), r),
    {
        if self.monitor.ring.failed {
            return PcmStep::WaitFailed;
        }
        let index: usize = self.next_slot;
        if self.monitor.ring.finished {
            let fade_active: bool = self.monitor.ring.fade.ramping || self.monitor.ring.fade.silent;
            if !fade_active && self.staged.is_none() {
                return PcmStep::WaitFinished;
            }
            if self.monitor.ring.slots[index].state != SlotState::Free {
                return PcmStep::WaitSlot;
            }
            if !fade_active {
                let candidate: Option<StagedPcmSource> = self.staged.take();
                match candidate {
                    Some(candidate) => {
                        self.install(candidate);
                        return PcmStep::Installed;
                    },
                    None => {
                        return PcmStep::WaitFinished;
                    },
                }
            }
            let bytes: usize = self.monitor.ring.last_block_bytes;
            let frames: usize = self.monitor.ring.last_block_frames;
            if bytes == 0 || frames == 0 {
                return PcmStep::WaitCommand;
            }
            let ghost before = self.ring();
            assert(before.slots[index as int].wf());
            self.monitor.ring.slots[index].fill_silence(bytes, frames);
            self.next_slot = (index + 1) % DIRECT_RING_DEPTH;
            proof {
                let slot = self.monitor.ring.slots@[index as int]@;
                assert(self.ring().slots =~= before.slots.update(index as int, slot));
                assert(self.ring() =~= before.with_slot(index as int, slot));
            }
            return PcmStep::Silenced;
        }
        if self.monitor.ring.slots[index].state != SlotState::Free {
            return PcmStep::WaitSlot;
        }
        self.turn(index, SlotState::Filling);
        PcmStep::Decode
    }

    /// What taking in a decoder's answer does.
    pub open spec fn took_in(
        &self,
        before: &DirectPcmSource,
        outcome: Result<Option<PcmFrame>, DirectPcmError>,
        r: PcmStep,
    ) -> bool {
        let ring = before.ring();
        let i = before.next_slot as int;
        let freed = ring.with_slot(i, before.slot().turned(SlotState::Free));
        let broken = PcmRingView { failed: true, ..freed };
        match outcome {
            Ok(Some(frame)) => if frame.format != before.active_format {
                &&& r == PcmStep::Stopped
                &&& self.ring() == broken
                &&& self.keeps_all_but_ring(before)
            } else {
                &&& r == PcmStep::Filled
                &&& self.ring() == (PcmRingView {
                    last_block_bytes: frame.payload@.len() as usize,
                    last_block_frames: frame.frames,
                    ..ring.with_slot(i, before.slot().filled(frame.payload@, frame.frames))
                })
                &&& self.active_format == before.active_format
                &&& self.staged == before.staged
                &&& self.next_slot == slot_after(i)
            },
            Ok(None) => match before.staged {
                Some(staged) => {
                    &&& r == PcmStep::Installed
                    &&& self.took_over(ring, before.next_slot, staged)
                },
                None => {
                    &&& r == PcmStep::Ended
                    &&& self.ring() == (PcmRingView { finished: true, ..freed })
                    &&& self.keeps_all_but_ring(before)
                },
            },
            Err(_) => {
                &&& r == PcmStep::Failed
                &&& self.ring() == broken
                &&& self.keeps_all_but_ring(before)
            },
        }
    }

    /// Takes in what decoding gave for the claimed next slot: a frame fills it,
    /// the end of the source hands over to the staged one, and a failure frees
    /// it and fails the stream. A frame of another format also stops production.
    pub fn decoded(&mut self, outcome: Result<Option<PcmFrame>, DirectPcmError>) -> (r: PcmStep)
        requires
            old(self).wf(),
        ensures
            final(self).wf(),
            final(self).keeps_rest(old(self)),
            final(self).took_in(old(self), outcome, r),
    {
        let index: usize = self.next_slot;
        match outcome {
            Ok(Some(frame)) => {
                if frame.format != self.active_format {
                    self.turn(index, SlotState::Free);
                    self.monitor.ring.failed = true;
                    return PcmStep::Stopped;
                }
                let bytes: usize = frame.payload.len();
                let frames: usize = frame.frames;
                self.fill(index, frame);
                self.monitor.ring.last_block_bytes = bytes;
                self.monitor.ring.last_block_frames = frames;
                self.next_slot = (index + 1) % DIRECT_RING_DEPTH;
                PcmStep::Filled
            },
            Ok(None) => {
                let candidate: Option<StagedPcmSource> = self.staged.take();
                match candidate {
                    Some(candidate) => {
                        self.install(candidate);
                        PcmStep::Installed
                    },
                    None => {
                        self.turn(index, SlotState::Free);
                        self.monitor.ring.finished = true;
                        PcmStep::Ended
                    },
                }
            },
            Err(_) => {
                self.turn(index, SlotState::Free);
                self.monitor.ring.failed = true;
                PcmStep::Failed
            },
        }
    }

    /// The format of the source.
    pub fn format(&self) -> (r: DirectPcmFormat)
        ensures
            r == self.format,
    {
        self.format
    }

    /// Sets the duration of the source.
    pub fn set_duration(&mut self, duration_micros: u64)
        requires
            old(self).wf(),
        ensures
            final(self).wf(),
            final(self).ring() == (PcmRingView { duration_micros, ..old(self).ring() }),
            final(self).keeps_all_but_ring(old(self)),
    {
        self.monitor.ring.duration_micros = duration_micros;
    }

    /// Whether the stream has failed.
    pub fn failed(&self) -> (r: bool)
        ensures
            r == self.ring().failed,
    {
        self.monitor.failed()
    }

    /// Whether the source is at its end and the device has played all of it.
    pub fn finished(&self) -> (r: bool)
        ensures
            r == self.ring().played_out(),
    {
        self.monitor.finished()
    }

    /// Asks for the fade that ends the stream.
    pub fn begin_fade_out(&mut self)
        requires
            old(self).wf(),
        ensures
            final(self).wf(),
            final(self).ring() == (PcmRingView {
                fade: old(self).ring().fade.begun(
                    old(self).format.storage_bits,
                    old(self).format.valid_bits,
                    old(self).format.sample_rate,
                ),
                ..old(self).ring()
            }),
            final(self).keeps_all_but_ring(old(self)),
    {
        let format = self.format;
        self.monitor.ring.fade.begin_fade_out(
            format.storage_bits,
            format.valid_bits,
            format.sample_rate,
        );
    }

    /// Whether every block from now on is silence.
    pub fn is_faded_out(&self) -> (r: bool)
        ensures
            r == self.ring().fade.silent,
    {
        self.monitor.ring.fade.silent()
    }

    /// Silent blocks that the fade has handed out.
    pub fn silence_blocks_handed(&self) -> (r: u32)
        ensures
            r == self.ring().fade.silence_blocks,
    {
        self.monitor.silence_blocks()
    }

    /// Whether a wait for the fade to drain is over.
    pub fn wait_fade_drained(&self, min_blocks: u32) -> (r: bool)
        ensures
            r == (self.ring().fade.silent && self.ring().fade.silence_blocks >= min_blocks),
    {
        self.monitor.wait_fade_drained(min_blocks)
    }
}

/// The block that follows the last one of a source is the staged source's first,
/// bit for bit; it alone carries the boundary, and no other slot changes.
pub proof fn law_staged_pcm_follows_without_a_gap(
    before: PcmRingView,
    after: DirectPcmSource,
    index: usize,
    staged: StagedPcmSource,
)
    requires
        before.wf(),
        index < DIRECT_RING_DEPTH,
        after.took_over(before, index, staged),
    ensures
        ({
            let slot = after.ring().slots[index as int];
            &&& slot.state == SlotState::Ready
            &&& slot.bytes() == staged.first_frame.payload@
            &&& slot.boundary && slot.boundary_generation == staged.generation
                && slot.boundary_duration_micros == staged.duration_micros
            &&& forall|k: int|
                0 <= k < DIRECT_RING_DEPTH && k != index ==> #[trigger] after.ring().slots[k]
                    == before.slots[k]
        }),
{
    assert(staged.first_frame.payload.len() == staged.first_frame.payload@.len());
    assert(after.ring().slots[index as int].bytes() =~= staged.first_frame.payload@);
}

/// A source that does not fit the connection is refused, whatever its frame
/// holds; one that fits keeps the transport.
pub proof fn law_refused_transport_never_takes_over(
    decoded: Result<Option<PcmFrame>, DirectPcmError>,
    current: DirectPcmFormat,
)
    ensures
        fitting_frame(decoded, current) matches Ok(frame) ==> same_transport(current, frame.format),
        decoded matches Ok(Some(frame)) && !same_transport(current, frame.format) ==> fitting_frame(
            decoded,
            current,
        ) == Err::<PcmFrame, DirectPcmError>(DirectPcmError::TransportMismatch),
{
}

/// The first frame of a source is what the decoder gave; where it gave none, that
/// is the error.
pub proof fn law_a_source_needs_a_first_frame(
    decoded: Result<Option<PcmFrame>, DirectPcmError>,
    missing: DirectPcmError,
)
    ensures
        first_of(decoded, missing) matches Ok(frame) ==> decoded == Ok::<
            Option<PcmFrame>,
            DirectPcmError,
        >(Some(frame)),
        decoded matches Ok(Some(_)) ==> first_of(decoded, missing) is Ok,
        decoded matches Ok(None) ==> first_of(decoded, missing) == Err::<
            PcmFrame,
            DirectPcmError,
        >(missing),
        decoded matches Err(e) ==> first_of(decoded, missing) == Err::<PcmFrame, DirectPcmError>(e),
{
}

/// A producer fills free slots in turn and no others. It stands still while the
/// ring has failed, and while the next slot is still the device's.
pub proof fn law_a_pcm_producer_fills_free_slots_in_turn(
    before: DirectPcmSource,
    after: DirectPcmSource,
    r: PcmStep,
)
    requires
        before.wf(),
        after.produced(&before, r),
    ensures
        r == PcmStep::WaitFailed <==> before.ring().failed,
        before.ring().failed || before.slot().state != SlotState::Free ==> after.ring()
            == before.ring() && after.next_slot == before.next_slot,
        r == PcmStep::Installed || r == PcmStep::Silenced ==> {
            &&& before.slot().state == SlotState::Free
            &&& before.ring().finished
            &&& after.ring().slots[before.next_slot as int].state == SlotState::Ready
            &&& after.next_slot == if before.next_slot == 7 {
                0
            } else {
                before.next_slot + 1
            }
        },
        r == PcmStep::Decode ==> !before.ring().finished
            && after.ring().slots[before.next_slot as int].state == SlotState::Filling,
        r == PcmStep::Installed ==> before.staged is Some && !before.ring().fade.active(),
        r == PcmStep::WaitFinished ==> before.ring().finished && before.staged is None,
        !before.ring().failed && !before.ring().finished && before.slot().state == SlotState::Free
            ==> r == PcmStep::Decode,
        forall|k: int|
            0 <= k < 8 && k != before.next_slot ==> #[trigger] after.ring().slots[k]
                == before.ring().slots[k],
{
}

/// Silence that covers a fade at the end of a source is as long as its last block
/// and all zeros.
pub proof fn law_a_fade_at_the_end_is_covered(
    before: DirectPcmSource,
    after: DirectPcmSource,
    r: PcmStep,
)
    requires
        before.wf(),
        before.slot().wf(),
        after.produced(&before, r),
        r == PcmStep::Silenced,
    ensures
        ({
            let slot = after.ring().slots[before.next_slot as int];
            &&& slot.payload_len == before.ring().last_block_bytes
            &&& slot.sample_frames == before.ring().last_block_frames
            &&& slot.bytes().len() == slot.payload_len
            &&& before.slot().silence.len() < slot.payload_len ==> forall|k: int|
                0 <= k < slot.payload_len ==> #[trigger] slot.bytes()[k] == 0
        }),
{
}

/// A decoded frame comes into the slot that was kept for it, byte for byte. At the
/// source's end the staged one takes over, or the stream is finished; an error, or
/// a frame of another format, fails the stream, and its slot is free again.
pub proof fn law_a_decoded_frame_fills_its_slot(
    before: DirectPcmSource,
    after: DirectPcmSource,
    outcome: Result<Option<PcmFrame>, DirectPcmError>,
    r: PcmStep,
)
    requires
        before.wf(),
        after.took_in(&before, outcome, r),
    ensures
        ({
            let slot = after.ring().slots[before.next_slot as int];
            let ring = after.ring();
            &&& r == PcmStep::Filled ==> {
                &&& outcome matches Ok(Some(frame))
                &&& frame.format == before.active_format
                &&& slot.state == SlotState::Ready
                &&& slot.sample_frames == frame.frames
                &&& slot.bytes() == frame.payload@
                &&& !ring.failed || before.ring().failed
                &&& after.next_slot == if before.next_slot == 7 {
                    0
                } else {
                    before.next_slot + 1
                }
                &&& ring.last_block_bytes == frame.payload@.len()
                &&& ring.last_block_frames == frame.frames
            }
            &&& r == PcmStep::Ended ==> (outcome matches Ok(None)) && before.staged is None
                && ring.finished && slot.state == SlotState::Free
            &&& r == PcmStep::Installed ==> (outcome matches Ok(None)) && before.staged is Some
            &&& outcome is Err ==> r == PcmStep::Failed && ring.failed && slot.state
                == SlotState::Free
            &&& (outcome matches Ok(Some(frame)) ==> (frame.format != before.active_format
                ==> r == PcmStep::Stopped && ring.failed && slot.state == SlotState::Free))
            &&& (outcome matches Ok(Some(frame)) ==> (frame.format == before.active_format
                ==> r == PcmStep::Filled))
        }),
        forall|k: int|
            0 <= k < 8 && k != before.next_slot ==> #[trigger] after.ring().slots[k]
                == before.ring().slots[k],
{
    if let Ok(Some(frame)) = outcome {
        assert(frame.payload.len() == frame.payload@.len());
        if frame.format == before.active_format {
            assert(after.ring().slots[before.next_slot as int].bytes() =~= frame.payload@);
        }
    }
}

/// A source that replaces another begins at a boundary of a new generation, with
/// nothing else in the ring; one that awaits a seek has nothing at all.
pub proof fn law_a_replaced_ring_holds_the_new_source_alone(
    ring: PcmRingView,
    frame: PcmFrame,
    now_ms: u64,
)
    requires
        ring.wf(),
        now_ms <= u64::MAX - 80,
        ring.boundary_generation < u64::MAX,
    ensures
        ({
            let after = DirectPcmSource::replaced_by(ring, frame, now_ms);
            let waiting = DirectPcmSource::awaiting_seek(ring, now_ms);
            &&& after.slots[0].state == SlotState::Ready
            &&& after.slots[0].bytes() == frame.payload@
            &&& after.slots[0].boundary
            &&& after.slots[0].boundary_generation == ring.boundary_generation + 1
            &&& after.slots[0].boundary_duration_micros == ring.duration_micros
            &&& forall|k: int|
                0 < k < 8 ==> (#[trigger] after.slots[k]).state == SlotState::Free
                    && waiting.slots[k].state == SlotState::Free
            &&& waiting.slots[0].state == SlotState::Filling
            &&& after.muting(now_ms) && waiting.muting(now_ms)
            &&& after.consumed_frames == 0 && waiting.consumed_frames == 0
            &&& after.in_flight is None && waiting.in_flight is None
        }),
{
    assert(frame.payload.len() == frame.payload@.len());
    let after = DirectPcmSource::replaced_by(ring, frame, now_ms);
    assert(after.slots[0].bytes() =~= frame.payload@);
}

/// What changes nothing but the ring leaves the formats, the rate, what is staged and
/// the next slot.
pub proof fn law_all_but_the_pcm_ring_is_kept(before: DirectPcmSource, after: DirectPcmSource)
    requires
        after.keeps_all_but_ring(&before),
    ensures
        after.format == before.format,
        after.monitor.sample_rate == before.monitor.sample_rate,
        after.active_format == before.active_format,
        after.staged == before.staged,
        after.next_slot == before.next_slot,
{
}

} // verus!
