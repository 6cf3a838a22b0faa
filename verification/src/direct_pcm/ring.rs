//! The ring of blocks between the decoder and the device that pulls them, with
//! its silence, fade and boundary accounting.

use vstd::prelude::*;

use super::fade::{DirectPcmFadeState, FadeAction, UNITY_GAIN_MICRO};
use super::DirectPcmFormat;
use crate::direct_dsd::ring::{counter_sum, SlotState, PRE_MUTE_WINDOW_MS};

verus! {

/// Slots of a ring.
pub const DIRECT_RING_DEPTH: usize = 8;

/// A decoded frame as it goes to the wire.
pub struct PcmFrame {
    pub format: DirectPcmFormat,
    pub payload: Vec<u8>,
    /// Samples of each channel.
    pub frames: usize,
}

/// Where the bytes of a slot lie.
#[derive(Debug, Clone, Copy, PartialEq, Eq, Structural)]
pub enum PcmPayload {
    Missing,
    Frame,
    Silence,
}

/// One slot of the ring. Its silence is storage of its own, so that a block in
/// the hands of the device never moves when another slot grows.
pub struct DirectPcmSlot {
    pub state: SlotState,
    pub payload: PcmPayload,
    pub payload_len: usize,
    pub sample_frames: usize,
    pub boundary: bool,
    pub boundary_duration_micros: u64,
    pub boundary_generation: u64,
    pub frame: Vec<u8>,
    pub silence: Vec<u8>,
}

/// The state of a slot.
#[verifier::ext_equal]
pub struct PcmSlotView {
    pub state: SlotState,
    pub payload: PcmPayload,
    pub payload_len: usize,
    pub sample_frames: usize,
    pub boundary: bool,
    pub boundary_duration_micros: u64,
    pub boundary_generation: u64,
    pub frame: Seq<u8>,
    pub silence: Seq<u8>,
}

impl View for DirectPcmSlot {
    type V = PcmSlotView;

    open spec fn view(&self) -> PcmSlotView {
        PcmSlotView {
            state: self.state,
            payload: self.payload,
            payload_len: self.payload_len,
            sample_frames: self.sample_frames,
            boundary: self.boundary,
            boundary_duration_micros: self.boundary_duration_micros,
            boundary_generation: self.boundary_generation,
            frame: self.frame@,
            silence: self.silence@,
        }
    }
}

/// `len` zero bytes, the silence of signed samples.
pub open spec fn zeros(len: int) -> Seq<u8> {
    Seq::new(len as nat, |i: int| 0u8)
}

impl PcmSlotView {
    /// A slot that has held nothing yet.
    pub open spec fn fresh() -> PcmSlotView {
        PcmSlotView {
            state: SlotState::Free,
            payload: PcmPayload::Missing,
            payload_len: 0,
            sample_frames: 0,
            boundary: false,
            boundary_duration_micros: 0,
            boundary_generation: 0,
            frame: Seq::empty(),
            silence: Seq::empty(),
        }
    }

    /// The slot, emptied. Its silence stays.
    pub open spec fn cleared(self) -> PcmSlotView {
        PcmSlotView { silence: self.silence, ..PcmSlotView::fresh() }
    }

    /// The slot once the device has given it back.
    pub open spec fn returned(self) -> PcmSlotView {
        PcmSlotView { state: SlotState::Free, sample_frames: 0, ..self }
    }

    /// The slot in another state.
    pub open spec fn turned(self, state: SlotState) -> PcmSlotView {
        PcmSlotView { state, ..self }
    }

    /// The slot with a frame to play.
    pub open spec fn filled(self, payload: Seq<u8>, frames: usize) -> PcmSlotView {
        PcmSlotView {
            state: SlotState::Ready,
            payload: PcmPayload::Frame,
            payload_len: payload.len() as usize,
            sample_frames: frames,
            frame: payload,
            ..self
        }
    }

    /// The slot with a frame that begins a new source.
    pub open spec fn filled_at_boundary(
        self,
        payload: Seq<u8>,
        frames: usize,
        duration_micros: u64,
        generation: u64,
    ) -> PcmSlotView {
        PcmSlotView {
            boundary: true,
            boundary_duration_micros: duration_micros,
            boundary_generation: generation,
            ..self.filled(payload, frames)
        }
    }

    /// The slot with silence to play.
    pub open spec fn silenced(self, bytes: usize, frames: usize) -> PcmSlotView {
        PcmSlotView {
            state: SlotState::Ready,
            payload: PcmPayload::Silence,
            payload_len: bytes,
            sample_frames: frames,
            silence: if self.silence.len() < bytes {
                zeros(bytes as int)
            } else {
                self.silence
            },
            ..self
        }
    }

    /// The bytes to play.
    pub open spec fn bytes(self) -> Seq<u8> {
        match self.payload {
            PcmPayload::Missing => Seq::empty(),
            PcmPayload::Frame => self.frame.take(self.payload_len as int),
            PcmPayload::Silence => self.silence.take(self.payload_len as int),
        }
    }

    /// The payload lies in the slot, and its silence is silent.
    pub open spec fn wf(self) -> bool {
        &&& self.silence =~= zeros(self.silence.len() as int)
        &&& match self.payload {
            PcmPayload::Missing => true,
            PcmPayload::Frame => self.payload_len <= self.frame.len(),
            PcmPayload::Silence => self.payload_len <= self.silence.len(),
        }
    }
}

impl DirectPcmSlot {
    /// A slot that has held nothing yet.
    pub fn new() -> (r: Self)
        ensures
            r@ == PcmSlotView::fresh(),
    {
        let r = DirectPcmSlot {
            state: SlotState::Free,
            payload: PcmPayload::Missing,
            payload_len: 0,
            sample_frames: 0,
            boundary: false,
            boundary_duration_micros: 0,
            boundary_generation: 0,
            frame: Vec::new(),
            silence: Vec::new(),
        };
        assert(r@ =~= PcmSlotView::fresh());
        r
    }

    /// Fills a claimed slot with a frame.
    pub fn fill_frame(&mut self, frame: PcmFrame)
        requires
            old(self)@.wf(),
        ensures
            final(self)@ == old(self)@.filled(frame.payload@, frame.frames),
            final(self)@.wf(),
    {
        self.payload = PcmPayload::Frame;
        self.payload_len = frame.payload.len();
        self.sample_frames = frame.frames;
        self.frame = frame.payload;
        self.state = SlotState::Ready;
    }

    /// Fills a claimed slot with the first frame of a new source.
    pub fn fill_boundary(&mut self, frame: PcmFrame, duration_micros: u64, generation: u64)
        requires
            old(self)@.wf(),
        ensures
            final(self)@ == old(self)@.filled_at_boundary(
                frame.payload@,
                frame.frames,
                duration_micros,
                generation,
            ),
            final(self)@.wf(),
    {
        self.fill_frame(frame);
        self.boundary_duration_micros = duration_micros;
        self.boundary_generation = generation;
        self.boundary = true;
    }

    /// Fills a claimed slot with silence of the given length.
    pub fn fill_silence(&mut self, bytes: usize, frames: usize)
        requires
            old(self)@.wf(),
        ensures
            final(self)@ == old(self)@.silenced(bytes, frames),
            final(self)@.wf(),
    {
        if self.silence.len() < bytes {
            let quiet: Vec<u8> = vec![0u8; bytes];
            assert(quiet@ =~= zeros(bytes as int));
            self.silence = quiet;
        }
        self.payload = PcmPayload::Silence;
        self.payload_len = bytes;
        self.sample_frames = frames;
        self.state = SlotState::Ready;
    }
}

// ---------------------------------------------------------------------------
// The ring
// ---------------------------------------------------------------------------

/// A block handed to the device: a slot of the ring, or silence.
#[derive(Debug, Clone, Copy, PartialEq, Eq, Structural)]
pub struct DirectPcmBlock {
    /// The slot that holds the bytes; `None` for the silence of the ring.
    pub slot: Option<usize>,
    pub len: usize,
}

/// Slots between the decoder and the device, and what both of them report.
pub struct DirectPcmRing {
    pub slots: Vec<DirectPcmSlot>,
    /// The slot to be pulled next.
    pub consumer_index: usize,
    /// The slot in the hands of the device.
    pub in_flight: Option<usize>,
    /// Samples of each channel that the device has given back.
    pub consumed_frames: u64,
    pub duration_micros: u64,
    /// Changes of source that the device has reached.
    pub transition_count: u64,
    /// Generation of the last change of source that the device has reached.
    pub boundary_generation: u64,
    /// The source is at its end.
    pub finished: bool,
    pub failed: bool,
    pub stopped: bool,
    pub fade: DirectPcmFadeState,
    /// Length of the last block that was decoded.
    pub last_block_bytes: usize,
    /// Samples of each channel of the last block that was decoded.
    pub last_block_frames: usize,
    /// End of the window in which missing blocks are answered with silence.
    pub pre_mute_until_ms: u64,
    pub pre_mute_buf: Vec<u8>,
    pub command_pending: bool,
}

/// The state of a ring.
#[verifier::ext_equal]
pub struct PcmRingView {
    pub slots: Seq<PcmSlotView>,
    pub consumer_index: usize,
    pub in_flight: Option<usize>,
    pub consumed_frames: u64,
    pub duration_micros: u64,
    pub transition_count: u64,
    pub boundary_generation: u64,
    pub finished: bool,
    pub failed: bool,
    pub stopped: bool,
    pub fade: DirectPcmFadeState,
    pub last_block_bytes: usize,
    pub last_block_frames: usize,
    pub pre_mute_until_ms: u64,
    pub pre_mute_buf: Seq<u8>,
    pub command_pending: bool,
}

/// The states of a row of slots.
pub open spec fn pcm_slot_views(slots: Seq<DirectPcmSlot>) -> Seq<PcmSlotView> {
    slots.map_values(|s: DirectPcmSlot| s@)
}

impl View for DirectPcmRing {
    type V = PcmRingView;

    open spec fn view(&self) -> PcmRingView {
        PcmRingView {
            slots: pcm_slot_views(self.slots@),
            consumer_index: self.consumer_index,
            in_flight: self.in_flight,
            consumed_frames: self.consumed_frames,
            duration_micros: self.duration_micros,
            transition_count: self.transition_count,
            boundary_generation: self.boundary_generation,
            finished: self.finished,
            failed: self.failed,
            stopped: self.stopped,
            fade: self.fade,
            last_block_bytes: self.last_block_bytes,
            last_block_frames: self.last_block_frames,
            pre_mute_until_ms: self.pre_mute_until_ms,
            pre_mute_buf: self.pre_mute_buf@,
            command_pending: self.command_pending,
        }
    }
}

impl PcmRingView {
    /// The ring's invariant.
    pub open spec fn wf(self) -> bool {
        &&& self.slots.len() == DIRECT_RING_DEPTH
        &&& self.consumer_index < DIRECT_RING_DEPTH
        &&& (self.in_flight matches Some(i) ==> i < DIRECT_RING_DEPTH)
        &&& self.fade.wf()
        &&& self.pre_mute_buf =~= zeros(self.pre_mute_buf.len() as int)
        &&& forall|i: int| 0 <= i < self.slots.len() ==> (#[trigger] self.slots[i]).wf()
    }

    /// A ring that has delivered nothing.
    pub open spec fn fresh() -> PcmRingView {
        PcmRingView {
            slots: Seq::new(DIRECT_RING_DEPTH as nat, |i: int| PcmSlotView::fresh()),
            consumer_index: 0,
            in_flight: None,
            consumed_frames: 0,
            duration_micros: 0,
            transition_count: 0,
            boundary_generation: 0,
            finished: false,
            failed: false,
            stopped: false,
            fade: DirectPcmFadeState {
                gain_start_micro: UNITY_GAIN_MICRO,
                gain_end_micro: UNITY_GAIN_MICRO,
                ramping: false,
                silent: false,
                silence_blocks: 0,
                sample_bits: 0,
                valid_bits: 0,
                window_samples: 0,
            },
            last_block_bytes: 0,
            last_block_frames: 0,
            pre_mute_until_ms: 0,
            pre_mute_buf: Seq::empty(),
            command_pending: false,
        }
    }

    /// The ring with one slot replaced.
    pub open spec fn with_slot(self, i: int, slot: PcmSlotView) -> PcmRingView {
        PcmRingView { slots: self.slots.update(i, slot), ..self }
    }

    /// The ring once the device has given its block back: the block's samples
    /// count as consumed and its slot is free.
    pub open spec fn released(self) -> PcmRingView {
        match self.in_flight {
            None => self,
            Some(i) => PcmRingView {
                in_flight: None,
                consumed_frames: counter_sum(
                    self.consumed_frames,
                    self.slots[i as int].sample_frames as int,
                ),
                slots: self.slots.update(i as int, self.slots[i as int].returned()),
                ..self
            },
        }
    }

    /// The ring, emptied for another source or position.
    pub open spec fn reset(self) -> PcmRingView {
        PcmRingView {
            slots: self.slots.map_values(|s: PcmSlotView| s.cleared()),
            consumer_index: 0,
            in_flight: None,
            consumed_frames: 0,
            finished: false,
            failed: false,
            fade: self.fade.cleared(),
            ..self
        }
    }

    /// The ring with its silence window opened.
    pub open spec fn pre_muted(self, now_ms: u64) -> PcmRingView {
        PcmRingView { pre_mute_until_ms: (now_ms + PRE_MUTE_WINDOW_MS) as u64, ..self }
    }

    /// Whether the silence window is open.
    pub open spec fn muting(self, now_ms: u64) -> bool {
        self.pre_mute_until_ms > now_ms
    }

    /// The ring with room for `len` bytes of silence.
    pub open spec fn widened(self, len: int) -> PcmRingView {
        PcmRingView {
            pre_mute_buf: if self.pre_mute_buf.len() < len {
                zeros(len)
            } else {
                self.pre_mute_buf
            },
            ..self
        }
    }

    /// The slot that is pulled next.
    pub open spec fn next_slot(self) -> PcmSlotView {
        self.slots[self.consumer_index as int]
    }

    /// The ring with the next slot handed to the device. At the first block of a
    /// new source, position, duration and generation change with it.
    pub open spec fn delivered(self) -> PcmRingView {
        let i = self.consumer_index as int;
        let slot = self.next_slot();
        let moved = PcmRingView {
            slots: self.slots.update(
                i,
                PcmSlotView { state: SlotState::InFlight, boundary: false, ..slot },
            ),
            in_flight: Some(self.consumer_index),
            consumer_index: ((i + 1) % DIRECT_RING_DEPTH as int) as usize,
            ..self
        };
        if slot.boundary {
            PcmRingView {
                consumed_frames: 0,
                duration_micros: slot.boundary_duration_micros,
                boundary_generation: slot.boundary_generation,
                transition_count: counter_sum(self.transition_count, 1),
                ..moved
            }
        } else {
            moved
        }
    }

    /// What a pull leads to, once the last block has been given back: the ring
    /// afterwards and the block.
    pub open spec fn pulled(self, now_ms: u64) -> (PcmRingView, Option<DirectPcmBlock>) {
        let slot = self.next_slot();
        if self.failed {
            (self, None)
        } else if slot.state != SlotState::Ready {
            if self.muting(now_ms) && self.last_block_bytes > 0 {
                (
                    self.widened(self.last_block_bytes as int),
                    Some(DirectPcmBlock { slot: None, len: self.last_block_bytes }),
                )
            } else {
                (self, None)
            }
        } else if slot.payload == PcmPayload::Missing || slot.payload_len == 0 {
            (
                PcmRingView {
                    failed: true,
                    ..self.with_slot(self.consumer_index as int, slot.turned(SlotState::Free))
                },
                None,
            )
        } else {
            (
                self.delivered(),
                Some(DirectPcmBlock { slot: Some(self.consumer_index), len: slot.payload_len }),
            )
        }
    }

    /// Whether a block handed out lies in the ring.
    pub open spec fn holds(self, block: DirectPcmBlock) -> bool {
        match block.slot {
            Some(i) => i < self.slots.len() && self.slots[i as int].payload
                != PcmPayload::Missing && block.len == self.slots[i as int].payload_len,
            None => block.len <= self.pre_mute_buf.len(),
        }
    }

    /// The bytes of a block handed out.
    pub open spec fn bytes(self, block: DirectPcmBlock) -> Seq<u8> {
        match block.slot {
            Some(i) => self.slots[i as int].bytes(),
            None => self.pre_mute_buf.take(block.len as int),
        }
    }

    /// The ring with the bytes of a block replaced.
    pub open spec fn rewritten(self, block: DirectPcmBlock, bytes: Seq<u8>) -> PcmRingView {
        match block.slot {
            Some(i) => {
                let slot = self.slots[i as int];
                if slot.payload == PcmPayload::Frame {
                    self.with_slot(
                        i as int,
                        PcmSlotView { frame: bytes + slot.frame.skip(block.len as int), ..slot },
                    )
                } else {
                    self
                }
            },
            None => self,
        }
    }

    /// The ring once the fade has acted on a block: silenced where the fade is
    /// done.
    pub open spec fn faded(self, block: DirectPcmBlock) -> PcmRingView {
        let action = self.fade.action(block.len);
        let quiet = if action == FadeAction::Silence {
            self.rewritten(block, zeros(block.len as int))
        } else {
            self
        };
        PcmRingView { fade: self.fade.advanced(action), ..quiet }
    }

    /// Slots that wait for the device or are in its hands.
    pub open spec fn pending(self) -> int {
        self.slots.filter(
            |s: PcmSlotView| s.state == SlotState::Ready || s.state == SlotState::InFlight,
        ).len() as int
    }

    /// Whether the source is at its end and the device has played all of it.
    pub open spec fn played_out(self) -> bool {
        &&& self.finished
        &&& self.in_flight is None
        &&& forall|i: int|
            0 <= i < self.slots.len() ==> (#[trigger] self.slots[i]).state == SlotState::Free
    }
}

impl DirectPcmRing {
    /// The ring's invariant.
    pub open spec fn wf(&self) -> bool {
        self@.wf()
    }

    /// A ring that has delivered nothing.
    pub fn new() -> (r: Self)
        ensures
            r@ == PcmRingView::fresh(),
            r.wf(),
    {
        let mut slots: Vec<DirectPcmSlot> = Vec::new();
        let mut i: usize = 0;
        while i < DIRECT_RING_DEPTH
            invariant
                i <= DIRECT_RING_DEPTH,
                slots@.len() == i,
                forall|k: int| 0 <= k < i ==> (#[trigger] slots@[k])@ == PcmSlotView::fresh(),
            decreases DIRECT_RING_DEPTH - i,
        {
            slots.push(DirectPcmSlot::new());
            i += 1;
        }
        let r = DirectPcmRing {
            slots,
            consumer_index: 0,
            in_flight: None,
            consumed_frames: 0,
            duration_micros: 0,
            transition_count: 0,
            boundary_generation: 0,
            finished: false,
            failed: false,
            stopped: false,
            fade: DirectPcmFadeState::new(),
            last_block_bytes: 0,
            last_block_frames: 0,
            pre_mute_until_ms: 0,
            pre_mute_buf: Vec::new(),
            command_pending: false,
        };
        assert(r@ =~= PcmRingView::fresh());
        r
    }

    /// Notes that a command waits for the producer.
    pub fn signal_command(&mut self)
        ensures
            final(self)@ == (PcmRingView { command_pending: true, ..old(self)@ }),
    {
        self.command_pending = true;
    }

    /// Opens the silence window, as before a change of source or position.
    pub fn trigger_pre_mute(&mut self, now_ms: u64)
        requires
            now_ms <= u64::MAX - PRE_MUTE_WINDOW_MS,
        ensures
            final(self)@ == old(self)@.pre_muted(now_ms),
    {
        self.pre_mute_until_ms = now_ms + PRE_MUTE_WINDOW_MS;
    }

    /// Whether the silence window is open.
    pub fn pre_mute_active(&self, now_ms: u64) -> (r: bool)
        ensures
            r == self@.muting(now_ms),
    {
        self.pre_mute_until_ms > now_ms
    }

    /// A block of silence as long as the last decoded block, or `None` before
    /// there was one.
    pub fn pre_mute_block(&mut self) -> (r: Option<DirectPcmBlock>)
        requires
            old(self).wf(),
        ensures
            final(self).wf(),
            ({
                let len = old(self)@.last_block_bytes;
                if len == 0 {
                    r is None && final(self)@ == old(self)@
                } else {
                    &&& r == Some(DirectPcmBlock { slot: None, len })
                    &&& final(self)@ == old(self)@.widened(len as int)
                }
            }),
    {
        let len: usize = self.last_block_bytes;
        if len == 0 {
            return None;
        }
        if self.pre_mute_buf.len() < len {
            let ghost quiet = self.pre_mute_buf@;
            self.pre_mute_buf.resize(len, 0);
            assert forall|i: int| 0 <= i < len implies self.pre_mute_buf@[i] == 0 by {
                if i < quiet.len() {
                    assert(zeros(quiet.len() as int)[i] == 0);
                }
            }
            assert(self.pre_mute_buf@ =~= zeros(len as int));
        }
        Some(DirectPcmBlock { slot: None, len })
    }

    /// Takes back the block that the device holds.
    pub fn release_in_flight(&mut self)
        requires
            old(self).wf(),
        ensures
            final(self)@ == old(self)@.released(),
            final(self).wf(),
    {
        if let Some(index) = self.in_flight {
            self.in_flight = None;
            let frames: usize = self.slots[index].sample_frames;
            self.slots[index].sample_frames = 0;
            self.consumed_frames = self.consumed_frames.wrapping_add(frames as u64);
            self.slots[index].state = SlotState::Free;
            assert(self@.slots =~= old(self)@.released().slots);
            assert(self@ =~= old(self)@.released());
        }
    }

    /// Hands the next block to the device, after taking back the last one. With
    /// no block ready it hands out silence in the silence window, and nothing
    /// outside it.
    pub fn next_block(&mut self, now_ms: u64) -> (r: Option<DirectPcmBlock>)
        requires
            old(self).wf(),
        ensures
            (final(self)@, r) == old(self)@.released().pulled(now_ms),
            final(self).wf(),
            r matches Some(block) ==> final(self)@.holds(block) && block.len > 0,
    {
        self.release_in_flight();
        if self.failed {
            return None;
        }
        let ghost before = self@;
        let index: usize = self.consumer_index;
        if self.slots[index].state != SlotState::Ready {
            if self.pre_mute_active(now_ms) {
                return self.pre_mute_block();
            }
            return None;
        }
        let len: usize = self.slots[index].payload_len;
        if self.slots[index].payload == PcmPayload::Missing || len == 0 {
            self.slots[index].state = SlotState::Free;
            self.failed = true;
            assert(self@.slots =~= before.pulled(now_ms).0.slots);
            assert(self@ =~= before.pulled(now_ms).0);
            return None;
        }
        self.slots[index].state = SlotState::InFlight;
        if self.slots[index].boundary {
            self.slots[index].boundary = false;
            self.consumed_frames = 0;
            self.duration_micros = self.slots[index].boundary_duration_micros;
            self.boundary_generation = self.slots[index].boundary_generation;
            self.transition_count = self.transition_count.wrapping_add(1);
        }
        self.in_flight = Some(index);
        self.consumer_index = (index + 1) % DIRECT_RING_DEPTH;
        proof {
            assert(self@.slots =~= before.delivered().slots);
            assert(self@ =~= before.delivered());
        }
        Some(DirectPcmBlock { slot: Some(index), len })
    }

    /// The bytes of a block handed out.
    pub fn block_bytes(&self, block: DirectPcmBlock) -> (r: &[u8])
        requires
            self.wf(),
            self@.holds(block),
        ensures
            r@ == self@.bytes(block),
    {
        match block.slot {
            Some(i) => {
                assert(self@.slots[i as int].wf());
                if self.slots[i].payload == PcmPayload::Frame {
                    let r = vstd::slice::slice_subrange(
                        self.slots[i].frame.as_slice(),
                        0,
                        block.len,
                    );
                    assert(r@ =~= self@.bytes(block));
                    r
                } else {
                    let r = vstd::slice::slice_subrange(
                        self.slots[i].silence.as_slice(),
                        0,
                        block.len,
                    );
                    assert(r@ =~= self@.bytes(block));
                    r
                }
            },
            None => {
                let r = vstd::slice::slice_subrange(self.pre_mute_buf.as_slice(), 0, block.len);
                assert(r@ =~= self@.bytes(block));
                r
            },
        }
    }

    /// Replaces the bytes of a block that holds a frame, as with the scaled
    /// samples of a ramp. Silence stays silence.
    pub fn rewrite_block(&mut self, block: DirectPcmBlock, bytes: &[u8])
        requires
            old(self).wf(),
            old(self)@.holds(block),
            bytes@.len() == block.len,
        ensures
            final(self)@ == old(self)@.rewritten(block, bytes@),
            final(self).wf(),
            final(self)@.holds(block),
    {
        if let Some(index) = block.slot {
            assert(self@.slots[index as int].wf());
            if self.slots[index].payload == PcmPayload::Frame {
                overwrite(&mut self.slots[index].frame, bytes);
                proof {
                    let want = old(self)@.rewritten(block, bytes@);
                    assert(self.slots@[index as int]@ =~= want.slots[index as int]);
                    assert(self@.slots =~= want.slots);
                    assert(self@ =~= want);
                }
            }
        }
    }

    /// Lets the fade act on a block that is about to be handed out. A block that
    /// is to be silent is silenced here; a ramp is returned, to be applied to the
    /// samples of the block.
    pub fn apply_fade(&mut self, block: DirectPcmBlock) -> (r: FadeAction)
        requires
            old(self).wf(),
            old(self)@.holds(block),
        ensures
            r == old(self)@.fade.action(block.len),
            final(self)@ == old(self)@.faded(block),
            final(self).wf(),
            final(self)@.holds(block),
    {
        let action = self.fade.step(block.len);
        if let FadeAction::Silence = action {
            let quiet: Vec<u8> = vec![0u8; block.len];
            assert(quiet@ =~= zeros(block.len as int));
            self.rewrite_block(block, quiet.as_slice());
        }
        action
    }

    /// Empties the ring for another source or position.
    pub fn reset_for_transition(&mut self)
        requires
            old(self).wf(),
        ensures
            final(self)@ == old(self)@.reset(),
            final(self).wf(),
    {
        self.consumer_index = 0;
        self.in_flight = None;
        self.consumed_frames = 0;
        self.finished = false;
        self.failed = false;
        self.fade.reset();
        let ghost before = old(self)@.slots;
        let ghost rest = self@;
        let mut i: usize = 0;
        while i < DIRECT_RING_DEPTH
            invariant
                i <= DIRECT_RING_DEPTH,
                DIRECT_RING_DEPTH == self.slots@.len(),
                DIRECT_RING_DEPTH == before.len(),
                self@ == (PcmRingView { slots: self@.slots, ..rest }),
                forall|k: int| 0 <= k < i ==> (#[trigger] self.slots@[k])@ == before[k].cleared(),
                forall|k: int|
                    i <= k < DIRECT_RING_DEPTH ==> (#[trigger] self.slots@[k])@ == before[k],
            decreases DIRECT_RING_DEPTH - i,
        {
            let ghost slot = self.slots@[i as int]@;
            self.slots[i].state = SlotState::Free;
            self.slots[i].payload = PcmPayload::Missing;
            self.slots[i].payload_len = 0;
            self.slots[i].sample_frames = 0;
            self.slots[i].boundary = false;
            self.slots[i].boundary_duration_micros = 0;
            self.slots[i].boundary_generation = 0;
            self.slots[i].frame = Vec::new();
            assert(self.slots@[i as int]@ =~= slot.cleared());
            i += 1;
        }
        assert(self@.slots =~= old(self)@.reset().slots);
        assert(self@ =~= old(self)@.reset());
    }
}

/// Overwrites the first bytes of a buffer.
fn overwrite(buffer: &mut Vec<u8>, bytes: &[u8])
    requires
        bytes@.len() <= old(buffer)@.len(),
    ensures
        final(buffer)@ == bytes@ + old(buffer)@.skip(bytes@.len() as int),
{
    let mut i: usize = 0;
    while i < bytes.len()
        invariant
            i <= bytes@.len() <= buffer@.len(),
            buffer@.len() == old(buffer)@.len(),
            forall|k: int| 0 <= k < i ==> buffer@[k] == bytes@[k],
            forall|k: int| i <= k < buffer@.len() ==> buffer@[k] == old(buffer)@[k],
        decreases bytes@.len() - i,
    {
        buffer.set(i, bytes[i]);
        i += 1;
    }
    assert(buffer@ =~= bytes@ + old(buffer)@.skip(bytes@.len() as int));
}

// ---------------------------------------------------------------------------
// What the device calls, and what observers see
// ---------------------------------------------------------------------------

/// The device asks for a block: the next one, after the fade has acted on it.
pub fn direct_pcm_next_block(ring: &mut DirectPcmRing, now_ms: u64) -> (r: Option<
    (DirectPcmBlock, FadeAction),
>)
    requires
        old(ring).wf(),
    ensures
        ({
            let (after, block) = old(ring)@.released().pulled(now_ms);
            match block {
                Some(b) => {
                    &&& r == Some((b, after.fade.action(b.len)))
                    &&& final(ring)@ == after.faded(b)
                    &&& final(ring)@.holds(b)
                },
                None => r is None && final(ring)@ == after,
            }
        }),
        final(ring).wf(),
{
    match ring.next_block(now_ms) {
        Some(block) => {
            let action = ring.apply_fade(block);
            Some((block, action))
        },
        None => None,
    }
}

/// The device gives its block back.
pub fn direct_pcm_release_block(ring: &mut DirectPcmRing)
    requires
        old(ring).wf(),
    ensures
        final(ring)@ == old(ring)@.released(),
        final(ring).wf(),
{
    ring.release_in_flight();
}

/// The ring as the control side sees it.
pub struct DirectPcmMonitor {
    pub ring: DirectPcmRing,
    pub sample_rate: u32,
}

impl DirectPcmMonitor {
    /// Samples of each channel in a second.
    pub fn sample_rate(&self) -> (r: u32)
        ensures
            r == self.sample_rate,
    {
        self.sample_rate
    }

    /// Samples of each channel that the device has played; over the sample rate
    /// this is the position in seconds.
    pub fn consumed_frames(&self) -> (r: u64)
        ensures
            r == self.ring@.consumed_frames,
    {
        self.ring.consumed_frames
    }

    /// Whether the stream has failed.
    pub fn failed(&self) -> (r: bool)
        ensures
            r == self.ring@.failed,
    {
        self.ring.failed
    }

    /// Blocks that wait for the device or are in its hands.
    pub fn pending_blocks(&self) -> (r: usize)
        ensures
            r == self.ring@.pending(),
    {
        let n: usize = self.ring.slots.len();
        let mut count: usize = 0;
        let mut i: usize = 0;
        let ghost slots = self.ring@.slots;
        let ghost waiting = |s: PcmSlotView|
            s.state == SlotState::Ready || s.state == SlotState::InFlight;
        assert(slots.take(0).filter(waiting) =~= Seq::empty()) by {
            reveal(Seq::filter);
        }
        while i < n
            invariant
                i <= n,
                n == self.ring.slots@.len(),
                slots == self.ring@.slots,
                waiting == (|s: PcmSlotView|
                    s.state == SlotState::Ready || s.state == SlotState::InFlight),
                count == slots.take(i as int).filter(waiting).len(),
                count <= i,
            decreases n - i,
        {
            proof {
                assert(slots.take(i + 1).drop_last() =~= slots.take(i as int));
                assert(slots[i as int] == self.ring.slots@[i as int]@);
                reveal(Seq::filter);
            }
            let state = self.ring.slots[i].state;
            if state == SlotState::Ready || state == SlotState::InFlight {
                count += 1;
            }
            i += 1;
        }
        assert(slots.take(n as int) =~= slots);
        count
    }

    /// Whether the source is at its end and the device has played all of it.
    pub fn finished(&self) -> (r: bool)
        ensures
            r == self.ring@.played_out(),
    {
        if !self.ring.finished || self.ring.in_flight.is_some() {
            return false;
        }
        let n: usize = self.ring.slots.len();
        let mut i: usize = 0;
        while i < n
            invariant
                i <= n,
                n == self.ring.slots@.len(),
                self.ring.finished,
                self.ring.in_flight is None,
                forall|k: int|
                    0 <= k < i ==> (#[trigger] self.ring@.slots[k]).state == SlotState::Free,
            decreases n - i,
        {
            assert(self.ring@.slots[i as int] == self.ring.slots@[i as int]@);
            if self.ring.slots[i].state != SlotState::Free {
                return false;
            }
            i += 1;
        }
        true
    }

    /// Whether a wait for the first block to be played is over: something was
    /// played, the stream failed, or its source ended.
    pub fn wait_first_consumed(&self) -> (r: bool)
        ensures
            r == (self.ring@.consumed_frames > 0 || self.ring@.failed || self.ring@.finished),
    {
        self.ring.consumed_frames > 0 || self.ring.failed || self.ring.finished
    }

    /// Changes of source that the device has reached.
    pub fn transition_count(&self) -> (r: u64)
        ensures
            r == self.ring@.transition_count,
    {
        self.ring.transition_count
    }

    /// Silent blocks that a fade has handed out.
    pub fn silence_blocks(&self) -> (r: u32)
        ensures
            r == self.ring@.fade.silence_blocks,
    {
        self.ring.fade.silence_blocks
    }

    /// Duration of what is played, in microseconds.
    pub fn duration_micros(&self) -> (r: u64)
        ensures
            r == self.ring@.duration_micros,
    {
        self.ring.duration_micros
    }

    /// Generation of the last change of source that the device has reached.
    pub fn boundary_generation(&self) -> (r: u64)
        ensures
            r == self.ring@.boundary_generation,
    {
        self.ring.boundary_generation
    }

    /// Whether a wait for a fade to drain is over: it is done, and `min_blocks`
    /// of silence were handed out.
    pub fn wait_fade_drained(&self, min_blocks: u32) -> (r: bool)
        ensures
            r == (self.ring@.fade.silent && self.ring@.fade.silence_blocks >= min_blocks),
    {
        self.ring.fade.drained(min_blocks)
    }
}

// ---------------------------------------------------------------------------
// Laws
// ---------------------------------------------------------------------------

/// A pull that finds no block ready outside the silence window hands out
/// nothing and moves nothing: no silence is made up.
pub proof fn law_pcm_underrun_hands_out_nothing(ring: PcmRingView, now_ms: u64)
    requires
        ring.wf(),
        !ring.muting(now_ms),
        ring.next_slot().state != SlotState::Ready,
    ensures
        ring.pulled(now_ms) == (ring, None::<DirectPcmBlock>),
{
}

/// In the silence window a pull that finds no block ready hands out zeros as long
/// as the last decoded block, and moves neither position nor boundary.
pub proof fn law_pre_mute_hands_out_silence(ring: PcmRingView, now_ms: u64)
    requires
        ring.wf(),
        !ring.failed,
        ring.muting(now_ms),
        ring.next_slot().state != SlotState::Ready,
        ring.last_block_bytes > 0,
    ensures
        ({
            let (out, block) = ring.pulled(now_ms);
            &&& block == Some(DirectPcmBlock { slot: None, len: ring.last_block_bytes })
            &&& out.bytes(block->0) == zeros(ring.last_block_bytes as int)
            &&& out.slots == ring.slots
            &&& out.consumed_frames == ring.consumed_frames
            &&& out.transition_count == ring.transition_count
            &&& out.consumer_index == ring.consumer_index
        }),
{
    let (out, block) = ring.pulled(now_ms);
    assert(out.bytes(block->0) =~= zeros(ring.last_block_bytes as int));
}

/// The silence window never holds a block back: what is ready is handed out in it
/// as outside it.
pub proof fn law_pre_mute_holds_no_block_back(ring: PcmRingView, now_ms: u64, later_ms: u64)
    requires
        ring.wf(),
        ring.next_slot().state == SlotState::Ready,
    ensures
        ring.pulled(now_ms) == ring.pulled(later_ms),
{
}

/// Handing a block out does not move the position, except back to the start at
/// the first block of a new source; giving it back moves it by its samples.
pub proof fn law_pcm_position_moves_when_a_block_is_given_back(ring: PcmRingView, now_ms: u64)
    requires
        ring.wf(),
        ring.in_flight is None,
        ring.pulled(now_ms).1 matches Some(b) && b.slot is Some,
    ensures
        ({
            let out = ring.pulled(now_ms).0;
            let slot = ring.next_slot();
            &&& out.consumed_frames == if slot.boundary {
                0
            } else {
                ring.consumed_frames
            }
            &&& out.released().consumed_frames == counter_sum(
                out.consumed_frames,
                slot.sample_frames as int,
            )
            &&& out.released().in_flight is None
        }),
{
}

/// Without a fade, the bytes handed out are those that were filled in.
pub proof fn law_frames_pass_bit_for_bit(ring: PcmRingView, now_ms: u64)
    requires
        ring.wf(),
        ring.in_flight is None,
        !ring.fade.active(),
        ring.pulled(now_ms).1 matches Some(b) && b.slot is Some,
    ensures
        ({
            let (out, block) = ring.pulled(now_ms);
            out.faded(block->0).bytes(block->0) == ring.next_slot().bytes()
        }),
{
}

/// Once the fade is done, every block handed out is zeros.
pub proof fn law_silent_fade_hands_out_zeros(ring: PcmRingView, block: DirectPcmBlock)
    requires
        ring.wf(),
        ring.holds(block),
        ring.fade.silent,
        block.len > 0,
    ensures
        ring.faded(block).bytes(block) == zeros(block.len as int),
        ring.faded(block).fade.silent,
{
    assert(ring.faded(block).bytes(block) =~= zeros(block.len as int));
}

/// A ring that was reset holds no block of the old source, no failure and no
/// fade.
pub proof fn law_pcm_reset_forgets_the_old_source(ring: PcmRingView, now_ms: u64)
    requires
        ring.wf(),
    ensures
        ring.reset().wf(),
        ring.reset().released() == ring.reset(),
        ring.reset().pulled(now_ms).1 matches Some(b) ==> b.slot is None,
        !ring.reset().failed,
        !ring.reset().fade.active(),
{
}

/// Whether a slot waits for the device or is in its hands.
pub open spec fn is_owed(slot: PcmSlotView) -> bool {
    slot.state == SlotState::Ready || slot.state == SlotState::InFlight
}

/// One more slot that waits, one more block owed to the device; where none waits,
/// none is owed.
pub proof fn law_each_filled_pcm_slot_is_owed(ring: PcmRingView, i: int, slot: PcmSlotView)
    requires
        0 <= i < ring.slots.len(),
        !is_owed(ring.slots[i]),
        is_owed(slot),
    ensures
        ring.with_slot(i, slot).pending() == ring.pending() + 1,
        (forall|k: int| 0 <= k < ring.slots.len() ==> !is_owed(#[trigger] ring.slots[k]))
            ==> ring.pending() == 0,
{
    let owed = |s: PcmSlotView| s.state == SlotState::Ready || s.state == SlotState::InFlight;
    let front = ring.slots.take(i);
    let back = ring.slots.skip(i + 1);
    let old_one = seq![ring.slots[i]];
    let new_one = seq![slot];
    assert(ring.slots =~= front + old_one + back);
    assert(ring.slots.update(i, slot) =~= front + new_one + back);
    Seq::filter_distributes_over_add(front + old_one, back, owed);
    Seq::filter_distributes_over_add(front, old_one, owed);
    Seq::filter_distributes_over_add(front + new_one, back, owed);
    Seq::filter_distributes_over_add(front, new_one, owed);
    reveal(Seq::filter);
    reveal_with_fuel(Seq::filter, 2);
    assert(old_one.drop_last() =~= Seq::empty());
    assert(new_one.drop_last() =~= Seq::empty());
    assert(old_one.filter(owed).len() == 0);
    assert(new_one.filter(owed).len() == 1);
    if forall|k: int| 0 <= k < ring.slots.len() ==> !is_owed(#[trigger] ring.slots[k]) {
        lemma_none_owed(ring.slots);
    }
}

proof fn lemma_none_owed(slots: Seq<PcmSlotView>)
    requires
        forall|k: int| 0 <= k < slots.len() ==> !is_owed(#[trigger] slots[k]),
    ensures
        slots.filter(
            |s: PcmSlotView| s.state == SlotState::Ready || s.state == SlotState::InFlight,
        ).len() == 0,
    decreases slots.len(),
{
    reveal(Seq::filter);
    if slots.len() > 0 {
        assert forall|k: int| 0 <= k < slots.len() - 1 implies !is_owed(
            #[trigger] slots.drop_last()[k],
        ) by {
            assert(slots.drop_last()[k] == slots[k]);
        }
        lemma_none_owed(slots.drop_last());
        assert(!is_owed(slots[slots.len() - 1]));
    }
}

/// A slot that is ready and holds nothing fails the ring and is free again; any other
/// that is ready is handed out whole.
pub proof fn law_ready_slots_are_handed_out(ring: PcmRingView, now_ms: u64)
    requires
        ring.wf(),
        !ring.failed,
        ring.next_slot().state == SlotState::Ready,
    ensures
        ({
            let slot = ring.next_slot();
            let (out, given) = ring.pulled(now_ms);
            &&& slot.payload == PcmPayload::Missing || slot.payload_len == 0 ==> given is None
                && out.failed && out.slots[ring.consumer_index as int].state == SlotState::Free
            &&& slot.payload != PcmPayload::Missing && slot.payload_len > 0 ==> given == Some(
                DirectPcmBlock { slot: Some(ring.consumer_index), len: slot.payload_len },
            ) && !out.failed && out.slots[ring.consumer_index as int].state == SlotState::InFlight
        }),
{
}

} // verus!
