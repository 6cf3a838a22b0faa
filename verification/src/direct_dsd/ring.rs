//! The ring of blocks between the producer of native DSD and the device that
//! pulls it, with its silence, drain and boundary accounting.

use vstd::prelude::*;

use super::repack::{adapt_dsd_bit_order, adapted};
use super::reader::DirectDsdReader;
use super::{DirectDsdBitOrder, DirectDsdError, DirectDsdFormat};
use crate::direct_runtime::DIRECT_FADE_DRAIN_MIN_MICROS;

verus! {

/// The byte that stands for silence in a DSD stream. All zeros would be full
/// negative deflection; this pattern has as many ones as zeros.
pub const DSD_SILENCE_BYTE: u8 = 0x69;

/// Fewest slots of a ring.
pub const DIRECT_DSD_RING_DEPTH_MIN: usize = 8;

/// Most slots of a ring.
pub const DIRECT_DSD_RING_DEPTH_MAX: usize = 256;

/// Milliseconds for which a pull that finds no block is answered with silence
/// after a change of source or position.
pub const PRE_MUTE_WINDOW_MS: u64 = 80;

/// Longest block whose duration can be counted in microseconds: beyond it the
/// number of its bits, times a million, exceeds 64 bits.
pub const MAX_COUNTED_LEN: u64 = 2_305_843_009_213;

/// Whole number at or above `a / b`.
pub open spec fn ceil_div(a: int, b: int) -> int {
    (a + b - 1) / b
}

/// Slots that a ring needs to hold 400 ms of a stream whose slots take
/// `slot_capacity` bytes, between the least and the most.
pub open spec fn ring_depth(format: DirectDsdFormat, slot_capacity: int) -> int {
    let ch = if format.channels == 0 {
        1
    } else {
        format.channels as int
    };
    let bits = slot_capacity / ch * 8;
    let wanted = ceil_div(2 * format.bit_rate, 5 * bits);
    if format.bit_rate == 0 || bits == 0 || wanted < DIRECT_DSD_RING_DEPTH_MIN {
        DIRECT_DSD_RING_DEPTH_MIN as int
    } else if wanted > DIRECT_DSD_RING_DEPTH_MAX {
        DIRECT_DSD_RING_DEPTH_MAX as int
    } else {
        wanted
    }
}

/// The number of slots for a format and a slot capacity.
pub fn ring_depth_for(format: DirectDsdFormat, slot_capacity: usize) -> (r: usize)
    ensures
        r == ring_depth(format, slot_capacity as int),
        DIRECT_DSD_RING_DEPTH_MIN <= r <= DIRECT_DSD_RING_DEPTH_MAX,
{
    let channels: usize = if format.channels == 0 {
        1
    } else {
        format.channels as usize
    };
    let per_channel: usize = slot_capacity / channels;
    if format.bit_rate == 0 || per_channel == 0 {
        return DIRECT_DSD_RING_DEPTH_MIN;
    }
    let bits: u128 = per_channel as u128 * 8;
    let need: u128 = 2 * format.bit_rate as u128;
    let unit: u128 = 5 * bits;
    let wanted: u128 = (need + unit - 1) / unit;
    if wanted < 8 {
        DIRECT_DSD_RING_DEPTH_MIN
    } else if wanted > 256 {
        DIRECT_DSD_RING_DEPTH_MAX
    } else {
        wanted as usize
    }
}

/// A ring short of its largest depth holds at least 400 ms of its stream.
pub proof fn law_ring_covers_the_buffer_target(format: DirectDsdFormat, slot_capacity: int)
    requires
        0 < format.bit_rate,
        0 < format.channels,
        slot_capacity >= format.channels,
        ring_depth(format, slot_capacity) < DIRECT_DSD_RING_DEPTH_MAX,
    ensures
        ({
            let bits = slot_capacity / (format.channels as int) * 8;
            1000 * (ring_depth(format, slot_capacity) * bits) >= 400 * format.bit_rate
        }),
{
    let ch = format.channels as int;
    let bits = slot_capacity / ch * 8;
    let need = 2 * format.bit_rate;
    let unit = 5 * bits;
    assert(slot_capacity / ch >= 1) by (nonlinear_arith)
        requires
            slot_capacity >= ch,
            0 < ch,
    ;
    let wanted = ceil_div(need, unit);
    vstd::arithmetic::div_mod::lemma_fundamental_div_mod(need + unit - 1, unit);
    let depth = ring_depth(format, slot_capacity);
    assert(unit * wanted >= need);
    assert(unit * wanted <= unit * depth) by (nonlinear_arith)
        requires
            wanted <= depth,
            0 < unit,
    ;
    assert(unit * depth == 5 * (depth * bits)) by (nonlinear_arith)
        requires
            unit == 5 * bits,
    ;
}

/// What a slot of the ring is being used for.
#[derive(Debug, Clone, Copy, PartialEq, Eq, Structural)]
pub enum SlotState {
    /// To be filled.
    Free,
    /// Claimed by the producer.
    Filling,
    /// Filled, to be pulled.
    Ready,
    /// In the hands of the device.
    InFlight,
}

/// One slot of the ring.
pub struct DirectDsdSlot {
    pub state: SlotState,
    pub has_payload: bool,
    pub payload_len: usize,
    pub bits_per_channel: u64,
    pub boundary: bool,
    pub boundary_duration_micros: u64,
    pub boundary_generation: u64,
    pub buffer: Vec<u8>,
}

/// The state of a slot.
#[verifier::ext_equal]
pub struct SlotView {
    pub state: SlotState,
    pub has_payload: bool,
    pub payload_len: usize,
    pub bits_per_channel: u64,
    pub boundary: bool,
    pub boundary_duration_micros: u64,
    pub boundary_generation: u64,
    pub buffer: Seq<u8>,
}

impl View for DirectDsdSlot {
    type V = SlotView;

    open spec fn view(&self) -> SlotView {
        SlotView {
            state: self.state,
            has_payload: self.has_payload,
            payload_len: self.payload_len,
            bits_per_channel: self.bits_per_channel,
            boundary: self.boundary,
            boundary_duration_micros: self.boundary_duration_micros,
            boundary_generation: self.boundary_generation,
            buffer: self.buffer@,
        }
    }
}

impl SlotView {
    /// A slot that has held nothing yet.
    pub open spec fn fresh(capacity: int) -> SlotView {
        SlotView {
            state: SlotState::Free,
            has_payload: false,
            payload_len: 0,
            bits_per_channel: 0,
            boundary: false,
            boundary_duration_micros: 0,
            boundary_generation: 0,
            buffer: Seq::new(capacity as nat, |i: int| DSD_SILENCE_BYTE),
        }
    }

    /// The slot, emptied. Its buffer stays.
    pub open spec fn cleared(self) -> SlotView {
        SlotView { buffer: self.buffer, ..SlotView::fresh(0) }
    }

    /// The slot once the device has given it back.
    pub open spec fn returned(self) -> SlotView {
        SlotView { state: SlotState::Free, bits_per_channel: 0, ..self }
    }

    /// The bytes to play.
    pub open spec fn payload(self) -> Seq<u8> {
        self.buffer.take(self.payload_len as int)
    }

    /// The slot's payload lies in its buffer.
    pub open spec fn wf(self) -> bool {
        self.payload_len <= self.buffer.len()
    }
}

/// `capacity` bytes of silence.
fn silence(capacity: usize, byte: u8) -> (r: Vec<u8>)
    ensures
        r@ == Seq::new(capacity as nat, |i: int| byte),
{
    let r: Vec<u8> = vec![byte; capacity];
    assert(r@ =~= Seq::new(capacity as nat, |i: int| byte));
    r
}

impl DirectDsdSlot {
    /// A slot that takes `capacity` bytes, all silence.
    pub fn new(capacity: usize) -> (r: Self)
        ensures
            r@ == SlotView::fresh(capacity as int),
    {
        DirectDsdSlot {
            state: SlotState::Free,
            has_payload: false,
            payload_len: 0,
            bits_per_channel: 0,
            boundary: false,
            boundary_duration_micros: 0,
            boundary_generation: 0,
            buffer: silence(capacity, DSD_SILENCE_BYTE),
        }
    }

    /// Makes room for `capacity` bytes: a buffer that is too small is replaced
    /// by silence.
    pub fn reserve(&mut self, capacity: usize)
        ensures
            final(self)@ == reserved(old(self)@, capacity as int),
    {
        if self.buffer.len() < capacity {
            self.buffer = silence(capacity, DSD_SILENCE_BYTE);
        }
    }
}

/// A slot with room for `capacity` bytes.
pub open spec fn reserved(slot: SlotView, capacity: int) -> SlotView {
    if slot.buffer.len() < capacity {
        SlotView { buffer: Seq::new(capacity as nat, |i: int| DSD_SILENCE_BYTE), ..slot }
    } else {
        slot
    }
}

/// A slot filled with the next block of a reader, in the bit order of the wire.
pub open spec fn filled(
    slot: SlotView,
    reader: DirectDsdReader,
    wire: DirectDsdBitOrder,
) -> SlotView {
    let count = reader.next_count();
    let len = count * reader.ch();
    SlotView {
        state: SlotState::Ready,
        has_payload: true,
        payload_len: len as usize,
        bits_per_channel: (8 * count) as u64,
        buffer: adapted(
            reader.payload(reader.pos(), count),
            reader.format_spec().bit_order,
            wire,
        ) + slot.buffer.skip(len),
        ..slot
    }
}

/// Fills a claimed slot with the next block of a reader. At the end of the
/// stream, and where the slot is too small, the slot stays as it is.
pub fn fill_claimed_slot(
    reader: &mut DirectDsdReader,
    slot: &mut DirectDsdSlot,
    wire_bit_order: DirectDsdBitOrder,
) -> (r: Result<Option<()>, DirectDsdError>)
    requires
        old(reader).wf(),
    ensures
        final(reader).wf(),
        final(reader).same_file(old(reader)),
        ({
            let count = old(reader).next_count();
            let len = count * old(reader).ch();
            if old(reader).pos() == old(reader).total() {
                &&& r == Ok::<Option<()>, DirectDsdError>(None)
                &&& final(slot)@ == old(slot)@
                &&& final(reader).pos() == old(reader).pos()
            } else if old(slot)@.buffer.len() < len {
                &&& r == Err::<Option<()>, DirectDsdError>(DirectDsdError::OutputTooSmall)
                &&& final(slot)@ == old(slot)@
                &&& final(reader).pos() == old(reader).pos()
            } else {
                &&& r == Ok::<Option<()>, DirectDsdError>(Some(()))
                &&& final(slot)@ == filled(old(slot)@, *old(reader), wire_bit_order)
                &&& final(slot)@.wf()
                &&& 0 < final(slot)@.payload_len
                &&& final(reader).pos() == old(reader).pos() + count
            }
        }),
{
    let format = reader.format();
    let ghost start = *reader;
    let ghost before = slot@.buffer;
    let len: usize = match reader.read_block(slot.buffer.as_mut_slice()) {
        Ok(Some(len)) => len,
        Ok(None) => {
            assert(slot@ =~= old(slot)@);
            return Ok(None);
        },
        Err(e) => {
            assert(slot@ =~= old(slot)@);
            return Err(e);
        },
    };
    adapt_dsd_bit_order(&mut slot.buffer, len, format.bit_order, wire_bit_order);
    slot.has_payload = true;
    slot.payload_len = len;
    let ghost count = start.next_count();
    proof {
        assert(8 * len == (8 * count) * start.ch()) by (nonlinear_arith)
            requires
                len == count * start.ch(),
        ;
        start.lemma_channels();
        vstd::arithmetic::div_mod::lemma_fundamental_div_mod_converse(
            8 * len as int,
            start.ch(),
            8 * count,
            0,
        );
    }
    slot.bits_per_channel = 8 * len as u64 / format.channels as u64;
    slot.state = SlotState::Ready;
    proof {
        let b = slot.buffer@;
        assert(b =~= b.take(len as int) + b.skip(len as int));
        assert(slot@ =~= filled(old(slot)@, start, wire_bit_order));
    }
    Ok(Some(()))
}

// ---------------------------------------------------------------------------
// The ring
// ---------------------------------------------------------------------------

/// A block handed to the device: a slot of the ring, or silence.
#[derive(Debug, Clone, Copy, PartialEq, Eq, Structural)]
pub struct DirectDsdBlock {
    /// The slot that holds the bytes; `None` for the silence of the ring.
    pub slot: Option<usize>,
    pub len: usize,
}

/// Slots between a producer and the device, and what both of them report.
pub struct DirectDsdRing {
    pub slots: Vec<DirectDsdSlot>,
    /// The slot to be pulled next.
    pub consumer_index: usize,
    /// The slot in the hands of the device.
    pub in_flight: Option<usize>,
    /// Bits of each channel that the device has given back.
    pub consumed_bits_per_channel: u64,
    pub duration_micros: u64,
    /// Changes of source that the device has reached.
    pub transition_count: u64,
    /// Generation of the last change of source that the device has reached.
    pub boundary_generation: u64,
    /// The source is at its end.
    pub finished: bool,
    pub failed: bool,
    pub stopped: bool,
    pub command_pending: bool,
    /// A next source was accepted and is not in the ring yet.
    pub stage_pending: bool,
    /// Counts what makes a staged source outdated.
    pub stage_epoch: u64,
    pub staged_ready: bool,
    /// End of the window in which missing blocks are answered with silence.
    pub pre_mute_until_ms: u64,
    pub pre_mute_buf: Vec<u8>,
    /// Length of the last block that was handed out.
    pub last_delivered_len: usize,
    /// Blocks are to be replaced by silence.
    pub drain_requested: bool,
    /// Silent blocks handed out since the drain began.
    pub silence_blocks: u32,
    /// Microseconds of silence handed out since the drain began.
    pub silence_micros: u64,
    /// Microseconds of silence that complete a drain; 0 where none was set.
    pub drain_target_micros: u64,
    /// The device's silence byte; 0 where none was set.
    pub mute_byte: u8,
    pub bit_rate: u32,
    pub channels: u16,
}

/// The state of a ring.
#[verifier::ext_equal]
pub struct RingView {
    pub slots: Seq<SlotView>,
    pub consumer_index: usize,
    pub in_flight: Option<usize>,
    pub consumed_bits_per_channel: u64,
    pub duration_micros: u64,
    pub transition_count: u64,
    pub boundary_generation: u64,
    pub finished: bool,
    pub failed: bool,
    pub stopped: bool,
    pub command_pending: bool,
    pub stage_pending: bool,
    pub stage_epoch: u64,
    pub staged_ready: bool,
    pub pre_mute_until_ms: u64,
    pub pre_mute_buf: Seq<u8>,
    pub last_delivered_len: usize,
    pub drain_requested: bool,
    pub silence_blocks: u32,
    pub silence_micros: u64,
    pub drain_target_micros: u64,
    pub mute_byte: u8,
    pub bit_rate: u32,
    pub channels: u16,
}

/// The states of a row of slots.
pub open spec fn slot_views(slots: Seq<DirectDsdSlot>) -> Seq<SlotView> {
    slots.map_values(|s: DirectDsdSlot| s@)
}

impl View for DirectDsdRing {
    type V = RingView;

    open spec fn view(&self) -> RingView {
        RingView {
            slots: slot_views(self.slots@),
            consumer_index: self.consumer_index,
            in_flight: self.in_flight,
            consumed_bits_per_channel: self.consumed_bits_per_channel,
            duration_micros: self.duration_micros,
            transition_count: self.transition_count,
            boundary_generation: self.boundary_generation,
            finished: self.finished,
            failed: self.failed,
            stopped: self.stopped,
            command_pending: self.command_pending,
            stage_pending: self.stage_pending,
            stage_epoch: self.stage_epoch,
            staged_ready: self.staged_ready,
            pre_mute_until_ms: self.pre_mute_until_ms,
            pre_mute_buf: self.pre_mute_buf@,
            last_delivered_len: self.last_delivered_len,
            drain_requested: self.drain_requested,
            silence_blocks: self.silence_blocks,
            silence_micros: self.silence_micros,
            drain_target_micros: self.drain_target_micros,
            mute_byte: self.mute_byte,
            bit_rate: self.bit_rate,
            channels: self.channels,
        }
    }
}

/// Sum of two 64-bit counters, which start again at 0 after their largest value.
pub open spec fn counter_sum(a: u64, b: int) -> u64 {
    ((a + b) % 0x1_0000_0000_0000_0000) as u64
}

impl RingView {
    /// The ring's invariant.
    pub open spec fn wf(self) -> bool {
        &&& 0 < self.slots.len() <= usize::MAX
        &&& self.consumer_index < self.slots.len()
        &&& (self.in_flight matches Some(i) ==> i < self.slots.len())
        &&& forall|i: int| 0 <= i < self.slots.len() ==> (#[trigger] self.slots[i]).wf()
        &&& forall|i: int|
            0 <= i < self.pre_mute_buf.len() ==> #[trigger] self.pre_mute_buf[i] == self.silence()
    }

    /// Channels that a block is split between.
    pub open spec fn ch(self) -> int {
        if self.channels == 0 {
            1
        } else {
            self.channels as int
        }
    }

    /// Microseconds that a block of so many bytes plays: each channel has its
    /// share of them, at the bit rate.
    pub open spec fn play_micros(self, len: int) -> int {
        len / self.ch() * 8_000_000 / self.bit_rate as int
    }

    /// A ring that has delivered nothing.
    pub open spec fn fresh(capacity: int, format: DirectDsdFormat) -> RingView {
        RingView {
            slots: Seq::new(
                ring_depth(format, capacity) as nat,
                |i: int| SlotView::fresh(capacity),
            ),
            consumer_index: 0,
            in_flight: None,
            consumed_bits_per_channel: 0,
            duration_micros: 0,
            transition_count: 0,
            boundary_generation: 0,
            finished: false,
            failed: false,
            stopped: false,
            command_pending: false,
            stage_pending: false,
            stage_epoch: 0,
            staged_ready: false,
            pre_mute_until_ms: 0,
            pre_mute_buf: Seq::empty(),
            last_delivered_len: 0,
            drain_requested: false,
            silence_blocks: 0,
            silence_micros: 0,
            drain_target_micros: 0,
            mute_byte: 0,
            bit_rate: format.bit_rate,
            channels: format.channels,
        }
    }

    /// The ring once the device has given its block back: the block's bits count
    /// as consumed and its slot is free.
    pub open spec fn released(self) -> RingView {
        match self.in_flight {
            None => self,
            Some(i) => RingView {
                in_flight: None,
                consumed_bits_per_channel: counter_sum(
                    self.consumed_bits_per_channel,
                    self.slots[i as int].bits_per_channel as int,
                ),
                slots: self.slots.update(i as int, self.slots[i as int].returned()),
                ..self
            },
        }
    }

    /// The ring, emptied for another source or position.
    pub open spec fn reset(self) -> RingView {
        RingView {
            slots: self.slots.map_values(|s: SlotView| s.cleared()),
            consumer_index: 0,
            in_flight: None,
            consumed_bits_per_channel: 0,
            finished: false,
            failed: false,
            drain_requested: false,
            silence_blocks: 0,
            silence_micros: 0,
            ..self
        }
    }

    /// The byte that this ring uses for silence.
    pub open spec fn silence(self) -> u8 {
        if self.mute_byte == 0 {
            DSD_SILENCE_BYTE
        } else {
            self.mute_byte
        }
    }

    /// The ring with another silence byte of the device.
    pub open spec fn with_mute_byte(self, byte: u8) -> RingView {
        let named = RingView { mute_byte: byte, ..self };
        RingView {
            pre_mute_buf: Seq::new(self.pre_mute_buf.len(), |i: int| named.silence()),
            ..named
        }
    }

    /// The buffer of silence, with room for `len` bytes.
    pub open spec fn muted_buffer(self, len: int) -> Seq<u8> {
        if self.pre_mute_buf.len() < len {
            self.pre_mute_buf + Seq::new(
                (len - self.pre_mute_buf.len()) as nat,
                |i: int| self.silence(),
            )
        } else {
            self.pre_mute_buf
        }
    }

    /// The slot that is pulled next.
    pub open spec fn next_slot(self) -> SlotView {
        self.slots[self.consumer_index as int]
    }

    /// Whether the slot that is pulled next is filled.
    pub open spec fn slot_ready(self) -> bool {
        self.next_slot().state == SlotState::Ready
    }

    /// Whether the silence window is open.
    pub open spec fn muting(self, now_ms: u64) -> bool {
        self.pre_mute_until_ms > now_ms
    }

    /// Whether a pull finds a gap at the boundary of two sources, worth a short
    /// wait before it is filled with silence.
    pub open spec fn boundary_gap(self, now_ms: u64) -> bool {
        &&& !self.failed
        &&& !self.slot_ready()
        &&& !self.muting(now_ms)
        &&& self.finished || self.stage_pending
    }

    /// The ring with the next slot handed to the device. At the first block of a
    /// new source, position, duration and generation change with it.
    pub open spec fn delivered(self) -> RingView {
        let i = self.consumer_index as int;
        let slot = self.next_slot();
        let moved = RingView {
            slots: self.slots.update(
                i,
                SlotView { state: SlotState::InFlight, boundary: false, ..slot },
            ),
            in_flight: Some(self.consumer_index),
            consumer_index: ((i + 1) % self.slots.len() as int) as usize,
            last_delivered_len: slot.payload_len,
            ..self
        };
        if slot.boundary {
            RingView {
                consumed_bits_per_channel: 0,
                duration_micros: slot.boundary_duration_micros,
                boundary_generation: slot.boundary_generation,
                transition_count: counter_sum(self.transition_count, 1),
                ..moved
            }
        } else {
            moved
        }
    }

    /// What a pull leads to, once the last block has been given back: the ring
    /// afterwards and the block.
    pub open spec fn pulled(self) -> (RingView, Option<DirectDsdBlock>) {
        let slot = self.next_slot();
        if self.failed {
            (self, None)
        } else if !self.slot_ready() {
            if self.last_delivered_len == 0 {
                (self, None)
            } else {
                (
                    RingView {
                        pre_mute_buf: self.muted_buffer(self.last_delivered_len as int),
                        ..self
                    },
                    Some(DirectDsdBlock { slot: None, len: self.last_delivered_len }),
                )
            }
        } else if !slot.has_payload || slot.payload_len == 0 {
            (
                RingView {
                    slots: self.slots.update(
                        self.consumer_index as int,
                        SlotView { state: SlotState::Free, ..slot },
                    ),
                    failed: true,
                    ..self
                },
                None,
            )
        } else {
            (
                self.delivered(),
                Some(DirectDsdBlock { slot: Some(self.consumer_index), len: slot.payload_len }),
            )
        }
    }

    /// Whether a block handed out lies in the ring.
    pub open spec fn holds(self, block: DirectDsdBlock) -> bool {
        match block.slot {
            Some(i) => i < self.slots.len() && block.len <= self.slots[i as int].buffer.len(),
            None => block.len <= self.pre_mute_buf.len(),
        }
    }

    /// The bytes of a block handed out.
    pub open spec fn bytes(self, block: DirectDsdBlock) -> Seq<u8> {
        match block.slot {
            Some(i) => self.slots[i as int].buffer.take(block.len as int),
            None => self.pre_mute_buf.take(block.len as int),
        }
    }

    /// The ring with a block silenced while it drains, and the silence counted.
    pub open spec fn drained(self, block: DirectDsdBlock) -> RingView {
        if !self.drain_requested {
            self
        } else {
            let quiet = Seq::new(block.len as nat, |i: int| self.silence());
            let counted = RingView {
                silence_blocks: ((self.silence_blocks + 1) % 0x1_0000_0000) as u32,
                silence_micros: if self.bit_rate > 0 {
                    counter_sum(self.silence_micros, self.play_micros(block.len as int))
                } else {
                    self.silence_micros
                },
                ..self
            };
            match block.slot {
                Some(i) => {
                    let slot = self.slots[i as int];
                    RingView {
                        slots: self.slots.update(
                            i as int,
                            SlotView { buffer: quiet + slot.buffer.skip(block.len as int), ..slot },
                        ),
                        ..counted
                    }
                },
                None => RingView {
                    pre_mute_buf: quiet + self.pre_mute_buf.skip(block.len as int),
                    ..counted
                },
            }
        }
    }

    /// Microseconds of silence that complete a drain.
    pub open spec fn drain_target(self) -> u64 {
        if self.drain_target_micros == 0 {
            DIRECT_FADE_DRAIN_MIN_MICROS
        } else {
            self.drain_target_micros
        }
    }

    /// Whether a drain has delivered enough silence, in blocks and in time. No
    /// drain is a completed one.
    pub open spec fn drain_done(self, min_blocks: u32) -> bool {
        ||| !self.drain_requested
        ||| self.silence_blocks >= min_blocks && (self.bit_rate == 0 || self.silence_micros
            >= self.drain_target())
    }

    /// Slots that wait for the device or are in its hands.
    pub open spec fn pending(self) -> int {
        self.slots.filter(
            |s: SlotView| s.state == SlotState::Ready || s.state == SlotState::InFlight,
        ).len() as int
    }

    /// Whether the source is at its end and the device has played all of it.
    pub open spec fn played_out(self) -> bool {
        &&& self.finished
        &&& self.in_flight is None
        &&& forall|i: int|
            0 <= i < self.slots.len() ==> (#[trigger] self.slots[i]).state == SlotState::Free
    }

    /// Whether a wait for the first block to be played is over.
    pub open spec fn started(self) -> bool {
        self.consumed_bits_per_channel > 0 || self.failed || self.finished
    }
}

impl DirectDsdRing {
    /// The ring's invariant.
    pub open spec fn wf(&self) -> bool {
        self@.wf()
    }

    /// A ring for a format whose blocks take up to `capacity` bytes.
    pub fn new(capacity: usize, format: DirectDsdFormat) -> (r: Self)
        ensures
            r@ == RingView::fresh(capacity as int, format),
            r.wf(),
    {
        let depth: usize = ring_depth_for(format, capacity);
        let mut slots: Vec<DirectDsdSlot> = Vec::new();
        let mut i: usize = 0;
        while i < depth
            invariant
                i <= depth,
                slots@.len() == i,
                forall|k: int| 0 <= k < i ==> (#[trigger] slots@[k])@ == SlotView::fresh(
                    capacity as int,
                ),
            decreases depth - i,
        {
            slots.push(DirectDsdSlot::new(capacity));
            i += 1;
        }
        let r = DirectDsdRing {
            slots,
            consumer_index: 0,
            in_flight: None,
            consumed_bits_per_channel: 0,
            duration_micros: 0,
            transition_count: 0,
            boundary_generation: 0,
            finished: false,
            failed: false,
            stopped: false,
            command_pending: false,
            stage_pending: false,
            stage_epoch: 0,
            staged_ready: false,
            pre_mute_until_ms: 0,
            pre_mute_buf: Vec::new(),
            last_delivered_len: 0,
            drain_requested: false,
            silence_blocks: 0,
            silence_micros: 0,
            drain_target_micros: 0,
            mute_byte: 0,
            bit_rate: format.bit_rate,
            channels: format.channels,
        };
        assert(r@ =~= RingView::fresh(capacity as int, format));
        r
    }

    /// Notes that a command waits for the producer.
    pub fn signal_command(&mut self)
        ensures
            final(self)@ == (RingView { command_pending: true, ..old(self)@ }),
    {
        self.command_pending = true;
    }

    /// The byte that this ring uses for silence: the device's, or the standard
    /// one where the device named none.
    pub fn silence_byte(&self) -> (r: u8)
        ensures
            r == self@.silence(),
    {
        if self.mute_byte == 0 {
            DSD_SILENCE_BYTE
        } else {
            self.mute_byte
        }
    }

    /// Whether the silence window is open.
    pub fn pre_mute_active(&self, now_ms: u64) -> (r: bool)
        ensures
            r == self@.muting(now_ms),
    {
        self.pre_mute_until_ms > now_ms
    }

    fn widen_mute(&mut self, len: usize)
        ensures
            final(self)@ == (RingView {
                pre_mute_buf: old(self)@.muted_buffer(len as int),
                ..old(self)@
            }),
    {
        if self.pre_mute_buf.len() < len {
            let byte: u8 = self.silence_byte();
            self.pre_mute_buf.resize(len, byte);
            assert(self.pre_mute_buf@ =~= old(self)@.muted_buffer(len as int));
        }
    }

    /// Opens the silence window, as before a change of source or position.
    pub fn trigger_pre_mute(&mut self, now_ms: u64)
        requires
            now_ms <= u64::MAX - PRE_MUTE_WINDOW_MS,
        ensures
            final(self)@ == (RingView {
                pre_mute_until_ms: (now_ms + PRE_MUTE_WINDOW_MS) as u64,
                pre_mute_buf: old(self)@.muted_buffer(old(self)@.last_delivered_len as int),
                ..old(self)@
            }),
    {
        let len: usize = self.last_delivered_len;
        if len > 0 {
            self.widen_mute(len);
        }
        self.pre_mute_until_ms = now_ms + PRE_MUTE_WINDOW_MS;
    }

    /// A block of silence as long as the last block, or `None` before there was
    /// one.
    pub fn pre_mute_block(&mut self) -> (r: Option<DirectDsdBlock>)
        ensures
            ({
                let len = old(self)@.last_delivered_len;
                if len == 0 {
                    r is None && final(self)@ == old(self)@
                } else {
                    &&& r == Some(DirectDsdBlock { slot: None, len })
                    &&& final(self)@ == (RingView {
                        pre_mute_buf: old(self)@.muted_buffer(len as int),
                        ..old(self)@
                    })
                }
            }),
    {
        let len: usize = self.last_delivered_len;
        if len == 0 {
            return None;
        }
        self.widen_mute(len);
        Some(DirectDsdBlock { slot: None, len })
    }

    /// Takes back the block that the device holds.
    pub fn release_in_flight(&mut self)
        requires
            old(self).wf(),
        ensures
            final(self)@ == old(self)@.released(),
            final(self).wf(),
    {
        if let Some(index) = self.in_flight {
            self.in_flight = None;
            let bits: u64 = self.slots[index].bits_per_channel;
            self.consumed_bits_per_channel = self.consumed_bits_per_channel.wrapping_add(bits);
            self.slots[index].bits_per_channel = 0;
            self.slots[index].state = SlotState::Free;
            assert(self@.slots =~= old(self)@.released().slots);
            assert(self@ =~= old(self)@.released());
        }
    }

    /// Whether a pull at this time finds a gap at the boundary of two sources.
    pub fn at_boundary_gap(&self, now_ms: u64) -> (r: bool)
        requires
            self.wf(),
        ensures
            r == self@.boundary_gap(now_ms),
    {
        !self.failed && self.slots[self.consumer_index].state != SlotState::Ready
            && !self.pre_mute_active(now_ms) && (self.finished || self.stage_pending)
    }

    /// Whether a wait at such a gap is over: a block has come, the ring has
    /// failed, or there is no boundary any more.
    pub fn boundary_wait_over(&self) -> (r: bool)
        requires
            self.wf(),
        ensures
            r == (self@.slot_ready() || self@.failed || (!self@.finished && !self@.stage_pending)),
    {
        self.slots[self.consumer_index].state == SlotState::Ready || self.failed || (!self.finished
            && !self.stage_pending)
    }

    /// Hands the next block to the device, after taking back the last one. With
    /// no block ready it hands out silence as long as the last block, and
    /// nothing before there was one.
    pub fn next_block(&mut self) -> (r: Option<DirectDsdBlock>)
        requires
            old(self).wf(),
        ensures
            (final(self)@, r) == old(self)@.released().pulled(),
            final(self).wf(),
            r matches Some(block) ==> final(self)@.holds(block) && block.len > 0,
    {
        self.release_in_flight();
        if self.failed {
            return None;
        }
        let ghost before = self@;
        let index: usize = self.consumer_index;
        if self.slots[index].state != SlotState::Ready {
            return self.pre_mute_block();
        }
        let len: usize = self.slots[index].payload_len;
        if !self.slots[index].has_payload || len == 0 {
            self.slots[index].state = SlotState::Free;
            self.failed = true;
            assert(self@.slots =~= before.pulled().0.slots);
            assert(self@ =~= before.pulled().0);
            return None;
        }
        self.slots[index].state = SlotState::InFlight;
        if self.slots[index].boundary {
            self.slots[index].boundary = false;
            self.consumed_bits_per_channel = 0;
            self.duration_micros = self.slots[index].boundary_duration_micros;
            self.boundary_generation = self.slots[index].boundary_generation;
            self.transition_count = self.transition_count.wrapping_add(1);
        }
        self.in_flight = Some(index);
        self.consumer_index = if index + 1 == self.slots.len() {
            0
        } else {
            index + 1
        };
        self.last_delivered_len = len;
        proof {
            lemma_next_index(index as int, before.slots.len() as int);
            assert(self@.slots =~= before.delivered().slots);
            assert(self@ =~= before.delivered());
        }
        Some(DirectDsdBlock { slot: Some(index), len })
    }

    /// The bytes of a block handed out.
    pub fn block_bytes(&self, block: DirectDsdBlock) -> (r: &[u8])
        requires
            self@.holds(block),
        ensures
            r@ == self@.bytes(block),
    {
        match block.slot {
            Some(i) => {
                let r = vstd::slice::slice_subrange(self.slots[i].buffer.as_slice(), 0, block.len);
                assert(r@ =~= self@.bytes(block));
                r
            },
            None => {
                let r = vstd::slice::slice_subrange(self.pre_mute_buf.as_slice(), 0, block.len);
                assert(r@ =~= self@.bytes(block));
                r
            },
        }
    }

    /// Asks for silence in place of every further block.
    pub fn begin_drain(&mut self)
        ensures
            final(self)@ == (RingView { drain_requested: true, ..old(self)@ }),
    {
        self.drain_requested = true;
    }

    /// Ends the silence, as before playback goes on.
    pub fn clear_drain(&mut self)
        ensures
            final(self)@ == (RingView {
                drain_requested: false,
                silence_blocks: 0,
                silence_micros: 0,
                ..old(self)@
            }),
    {
        self.drain_requested = false;
        self.silence_blocks = 0;
        self.silence_micros = 0;
    }

    /// Whether a pause may stop the device: it has been handed silence.
    pub fn soft_pause_ready(&self) -> (r: bool)
        ensures
            r == (self@.drain_requested && self@.silence_blocks >= 1),
    {
        self.drain_requested && self.silence_blocks >= 1
    }

    /// Silences a block that is about to be handed out, while the ring drains.
    pub fn apply_drain(&mut self, block: DirectDsdBlock)
        requires
            old(self).wf(),
            old(self)@.holds(block),
            block.len <= MAX_COUNTED_LEN,
        ensures
            final(self)@ == old(self)@.drained(block),
            final(self).wf(),
            final(self)@.holds(block),
    {
        if !self.drain_requested {
            return ;
        }
        let byte: u8 = self.silence_byte();
        match block.slot {
            Some(i) => {
                overwrite(&mut self.slots[i].buffer, block.len, byte);
            },
            None => {
                overwrite(&mut self.pre_mute_buf, block.len, byte);
            },
        }
        self.silence_blocks = self.silence_blocks.wrapping_add(1);
        if self.bit_rate > 0 {
            let channels: usize = if self.channels == 0 {
                1
            } else {
                self.channels as usize
            };
            let share: usize = block.len / channels;
            assert(share <= block.len) by (nonlinear_arith)
                requires
                    share == block.len as int / channels as int,
                    1 <= channels,
            ;
            assert(share * 8_000_000 <= u64::MAX);
            let micros: u64 = share as u64 * 8_000_000 / self.bit_rate as u64;
            self.silence_micros = self.silence_micros.wrapping_add(micros);
        }
        assert(self@.slots =~= old(self)@.drained(block).slots);
        assert(self@ =~= old(self)@.drained(block));
    }

    /// Microseconds of silence that complete a drain.
    pub fn drain_target_micros(&self) -> (r: u64)
        ensures
            r == self@.drain_target(),
    {
        if self.drain_target_micros == 0 {
            DIRECT_FADE_DRAIN_MIN_MICROS
        } else {
            self.drain_target_micros
        }
    }

    /// Whether a drain has delivered enough silence.
    pub fn drain_complete(&self, min_blocks: u32) -> (r: bool)
        ensures
            r == self@.drain_done(min_blocks),
    {
        if !self.drain_requested {
            return true;
        }
        if self.silence_blocks < min_blocks {
            return false;
        }
        self.bit_rate == 0 || self.silence_micros >= self.drain_target_micros()
    }

    /// Empties the ring for another source or position.
    pub fn reset_for_transition(&mut self)
        requires
            old(self).wf(),
        ensures
            final(self)@ == old(self)@.reset(),
            final(self).wf(),
    {
        self.consumer_index = 0;
        self.in_flight = None;
        self.consumed_bits_per_channel = 0;
        self.finished = false;
        self.failed = false;
        self.drain_requested = false;
        self.silence_blocks = 0;
        self.silence_micros = 0;
        let n: usize = self.slots.len();
        let ghost before = old(self)@.slots;
        let ghost rest = self@;
        let mut i: usize = 0;
        while i < n
            invariant
                i <= n,
                n == self.slots@.len(),
                n == before.len(),
                self@ == (RingView { slots: self@.slots, ..rest }),
                forall|k: int| 0 <= k < i ==> (#[trigger] self.slots@[k])@ == before[k].cleared(),
                forall|k: int| i <= k < n ==> (#[trigger] self.slots@[k])@ == before[k],
            decreases n - i,
        {
            let ghost slot = self.slots@[i as int]@;
            self.slots[i].state = SlotState::Free;
            self.slots[i].has_payload = false;
            self.slots[i].payload_len = 0;
            self.slots[i].bits_per_channel = 0;
            self.slots[i].boundary = false;
            self.slots[i].boundary_duration_micros = 0;
            self.slots[i].boundary_generation = 0;
            assert(self.slots@[i as int]@ =~= slot.cleared());
            i += 1;
        }
        assert(self@.slots =~= old(self)@.reset().slots);
        assert(self@ =~= old(self)@.reset());
    }

    /// Makes room for `capacity` bytes in every slot.
    pub fn ensure_capacity(&mut self, capacity: usize)
        requires
            old(self).wf(),
            forall|i: int|
                0 <= i < old(self)@.slots.len() ==> (#[trigger] old(self)@.slots[i]).payload_len
                    == 0,
        ensures
            final(self)@ == (RingView {
                slots: old(self)@.slots.map_values(|s: SlotView| reserved(s, capacity as int)),
                ..old(self)@
            }),
            final(self).wf(),
    {
        let n: usize = self.slots.len();
        let ghost before = old(self)@.slots;
        let ghost rest = self@;
        let mut i: usize = 0;
        while i < n
            invariant
                i <= n,
                n == self.slots@.len(),
                n == before.len(),
                self@ == (RingView { slots: self@.slots, ..rest }),
                forall|k: int|
                    0 <= k < i ==> (#[trigger] self.slots@[k])@ == reserved(
                        before[k],
                        capacity as int,
                    ),
                forall|k: int| i <= k < n ==> (#[trigger] self.slots@[k])@ == before[k],
            decreases n - i,
        {
            self.slots[i].reserve(capacity);
            i += 1;
        }
        assert(self@.slots =~= before.map_values(|s: SlotView| reserved(s, capacity as int)));
    }
}

proof fn lemma_next_index(i: int, n: int)
    requires
        0 <= i < n,
    ensures
        (i + 1) % n == if i + 1 == n {
            0
        } else {
            i + 1
        },
{
    if i + 1 == n {
        vstd::arithmetic::div_mod::lemma_mod_self_0(n);
    } else {
        vstd::arithmetic::div_mod::lemma_small_mod((i + 1) as nat, n as nat);
    }
}

/// Overwrites the first `len` bytes.
fn overwrite(buffer: &mut Vec<u8>, len: usize, byte: u8)
    requires
        len <= old(buffer)@.len(),
    ensures
        final(buffer)@ == Seq::new(len as nat, |i: int| byte) + old(buffer)@.skip(len as int),
{
    let mut i: usize = 0;
    while i < len
        invariant
            i <= len <= buffer@.len(),
            buffer@.len() == old(buffer)@.len(),
            forall|k: int| 0 <= k < i ==> buffer@[k] == byte,
            forall|k: int| i <= k < buffer@.len() ==> buffer@[k] == old(buffer)@[k],
        decreases len - i,
    {
        buffer.set(i, byte);
        i += 1;
    }
    assert(buffer@ =~= Seq::new(len as nat, |i: int| byte) + old(buffer)@.skip(len as int));
}

// ---------------------------------------------------------------------------
// What the device calls, and what observers see
// ---------------------------------------------------------------------------

/// The device asks for a block: the next one, silenced while the ring drains.
pub fn direct_dsd_next_block(ring: &mut DirectDsdRing) -> (r: Option<DirectDsdBlock>)
    requires
        old(ring).wf(),
        old(ring)@.last_delivered_len <= MAX_COUNTED_LEN,
        forall|i: int|
            0 <= i < old(ring)@.slots.len() ==> (#[trigger] old(ring)@.slots[i]).payload_len
                <= MAX_COUNTED_LEN,
    ensures
        ({
            let (after, block) = old(ring)@.released().pulled();
            &&& r == block
            &&& final(ring)@ == match block {
                Some(b) => after.drained(b),
                None => after,
            }
        }),
        final(ring).wf(),
        r matches Some(block) ==> final(ring)@.holds(block),
{
    match ring.next_block() {
        Some(block) => {
            ring.apply_drain(block);
            Some(block)
        },
        None => None,
    }
}

/// The device gives its block back.
pub fn direct_dsd_release_block(ring: &mut DirectDsdRing)
    requires
        old(ring).wf(),
    ensures
        final(ring)@ == old(ring)@.released(),
        final(ring).wf(),
{
    ring.release_in_flight();
}

/// The ring as the control side sees it.
pub struct DirectDsdMonitor {
    pub ring: DirectDsdRing,
    pub bit_rate: u32,
}

impl DirectDsdMonitor {
    /// Bits of each channel that the device has played; over the bit rate this is
    /// the position in seconds.
    pub fn consumed_bits(&self) -> (r: u64)
        ensures
            r == self.ring@.consumed_bits_per_channel,
    {
        self.ring.consumed_bits_per_channel
    }

    /// Whether the stream has failed.
    pub fn failed(&self) -> (r: bool)
        ensures
            r == self.ring@.failed,
    {
        self.ring.failed
    }

    /// Blocks that wait for the device or are in its hands.
    pub fn pending_blocks(&self) -> (r: usize)
        ensures
            r == self.ring@.pending(),
    {
        let n: usize = self.ring.slots.len();
        let mut count: usize = 0;
        let mut i: usize = 0;
        let ghost slots = self.ring@.slots;
        let ghost waiting = |s: SlotView|
            s.state == SlotState::Ready || s.state == SlotState::InFlight;
        assert(slots.take(0).filter(waiting) =~= Seq::empty()) by {
            reveal(Seq::filter);
        }
        while i < n
            invariant
                i <= n,
                n == self.ring.slots@.len(),
                slots == self.ring@.slots,
                waiting == (|s: SlotView|
                    s.state == SlotState::Ready || s.state == SlotState::InFlight),
                count == slots.take(i as int).filter(waiting).len(),
                count <= i,
            decreases n - i,
        {
            proof {
                assert(slots.take(i + 1).drop_last() =~= slots.take(i as int));
                assert(slots[i as int] == self.ring.slots@[i as int]@);
                reveal(Seq::filter);
            }
            let state = self.ring.slots[i].state;
            if state == SlotState::Ready || state == SlotState::InFlight {
                count += 1;
            }
            i += 1;
        }
        assert(slots.take(n as int) =~= slots);
        count
    }

    /// Whether the source is at its end and the device has played all of it.
    pub fn finished(&self) -> (r: bool)
        ensures
            r == self.ring@.played_out(),
    {
        if !self.ring.finished || self.ring.in_flight.is_some() {
            return false;
        }
        let n: usize = self.ring.slots.len();
        let mut i: usize = 0;
        while i < n
            invariant
                i <= n,
                n == self.ring.slots@.len(),
                self.ring.finished,
                self.ring.in_flight is None,
                forall|k: int|
                    0 <= k < i ==> (#[trigger] self.ring@.slots[k]).state == SlotState::Free,
            decreases n - i,
        {
            assert(self.ring@.slots[i as int] == self.ring.slots@[i as int]@);
            if self.ring.slots[i].state != SlotState::Free {
                return false;
            }
            i += 1;
        }
        true
    }

    /// Whether a next source was accepted and is not in the ring yet: until then
    /// the end of the source is not the end of playback.
    pub fn staging(&self) -> (r: bool)
        ensures
            r == self.ring@.stage_pending,
    {
        self.ring.stage_pending
    }

    /// Sets the microseconds of silence that complete a drain; 0 for the default.
    pub fn set_drain_target_micros(&mut self, micros: u64)
        ensures
            final(self).ring@ == (RingView { drain_target_micros: micros, ..old(self).ring@ }),
            final(self).bit_rate == old(self).bit_rate,
    {
        self.ring.drain_target_micros = micros;
    }

    /// Microseconds of silence that complete a drain.
    pub fn drain_target_micros(&self) -> (r: u64)
        ensures
            r == self.ring@.drain_target(),
    {
        self.ring.drain_target_micros()
    }

    /// Sets the device's silence byte; 0 for the standard one. Silence that is
    /// held ready becomes silence of that byte.
    pub fn set_mute_byte(&mut self, byte: u8)
        ensures
            final(self).ring@ == old(self).ring@.with_mute_byte(byte),
            final(self).bit_rate == old(self).bit_rate,
            old(self).ring.wf() ==> final(self).ring.wf(),
    {
        self.ring.mute_byte = byte;
        let silence: u8 = self.ring.silence_byte();
        let len: usize = self.ring.pre_mute_buf.len();
        overwrite(&mut self.ring.pre_mute_buf, len, silence);
        assert(self.ring@.pre_mute_buf =~= old(self).ring@.with_mute_byte(byte).pre_mute_buf);
        assert(self.ring@ =~= old(self).ring@.with_mute_byte(byte));
    }

    /// Whether a wait for the first block to be played is over: something was
    /// played, the stream failed, or its source ended.
    pub fn wait_first_consumed(&self) -> (r: bool)
        ensures
            r == self.ring@.started(),
    {
        self.ring.consumed_bits_per_channel > 0 || self.ring.failed || self.ring.finished
    }

    /// Changes of source that the device has reached.
    pub fn transition_count(&self) -> (r: u64)
        ensures
            r == self.ring@.transition_count,
    {
        self.ring.transition_count
    }

    /// Duration of what is played, in microseconds.
    pub fn duration_micros(&self) -> (r: u64)
        ensures
            r == self.ring@.duration_micros,
    {
        self.ring.duration_micros
    }

    /// Generation of the last change of source that the device has reached.
    pub fn boundary_generation(&self) -> (r: u64)
        ensures
            r == self.ring@.boundary_generation,
    {
        self.ring.boundary_generation
    }
}

// ---------------------------------------------------------------------------
// Laws
// ---------------------------------------------------------------------------

/// Handing a block out does not move the position, except back to the start at
/// the first block of a new source; giving it back moves it by the block's bits.
pub proof fn law_position_moves_when_a_block_is_given_back(ring: RingView)
    requires
        ring.wf(),
        ring.in_flight is None,
        ring.pulled().1 matches Some(b) && b.slot is Some,
    ensures
        ({
            let out = ring.pulled().0;
            let slot = ring.next_slot();
            &&& out.consumed_bits_per_channel == if slot.boundary {
                0
            } else {
                ring.consumed_bits_per_channel
            }
            &&& out.released().consumed_bits_per_channel == counter_sum(
                out.consumed_bits_per_channel,
                slot.bits_per_channel as int,
            )
        }),
{
}

/// With no block ready, a pull never hands out data: what comes is nothing, or
/// the ring's silence, and neither position nor boundary moves.
pub proof fn law_underrun_hands_out_no_data(ring: RingView)
    requires
        ring.wf(),
        ring.in_flight is None,
        !ring.slot_ready(),
    ensures
        ({
            let (out, block) = ring.pulled();
            &&& block is Some <==> !ring.failed && ring.last_delivered_len > 0
            &&& block matches Some(b) ==> b.len == ring.last_delivered_len && b.slot is None && (
            forall|i: int| 0 <= i < b.len ==> #[trigger] out.bytes(b)[i] == ring.silence())
            &&& out.consumed_bits_per_channel == ring.consumed_bits_per_channel
            &&& out.transition_count == ring.transition_count
            &&& out.slots == ring.slots
        }),
{
}

/// A boundary is reached with exactly the block that carries it, and once: the
/// duration and the generation change with that block and the mark is gone.
pub proof fn law_boundary_is_reached_once(ring: RingView)
    requires
        ring.wf(),
        ring.in_flight is None,
        ring.pulled().1 matches Some(b) && b.slot is Some,
        ring.transition_count < u64::MAX,
    ensures
        ({
            let out = ring.pulled().0;
            let slot = ring.next_slot();
            &&& !out.slots[ring.consumer_index as int].boundary
            &&& out.transition_count == ring.transition_count + if slot.boundary {
                1int
            } else {
                0
            }
            &&& slot.boundary ==> out.boundary_generation == slot.boundary_generation
                && out.duration_micros == slot.boundary_duration_micros
            &&& !slot.boundary ==> out.boundary_generation == ring.boundary_generation
                && out.duration_micros == ring.duration_micros
        }),
{
}

/// A ring that was reset holds no block of the old source.
pub proof fn law_reset_forgets_the_old_source(ring: RingView)
    requires
        ring.wf(),
    ensures
        ring.reset().wf(),
        !ring.reset().slot_ready(),
        ring.reset().released() == ring.reset(),
        ring.reset().pulled().1 matches Some(b) ==> b.slot is None,
        !ring.reset().failed,
        !ring.reset().drain_requested,
{
}

/// While a ring drains, every block is silence; once the drain is cleared,
/// blocks pass as they are.
pub proof fn law_drain_silences_and_clearing_ends_it(ring: RingView, block: DirectDsdBlock)
    requires
        ring.wf(),
        ring.holds(block),
    ensures
        ring.drain_requested ==> forall|i: int|
            0 <= i < block.len ==> #[trigger] ring.drained(block).bytes(block)[i] == ring.silence(),
        (RingView { drain_requested: false, ..ring }).drained(block).bytes(block) == ring.bytes(
            block,
        ),
{
}

/// A drain counts each block as long as it plays, however many channels share
/// its bytes.
pub proof fn law_drain_counts_the_time_played(
    ring: RingView,
    block: DirectDsdBlock,
    per_channel: int,
)
    requires
        ring.drain_requested,
        0 < ring.bit_rate,
        0 < ring.channels,
        0 <= per_channel,
        block.len == per_channel * ring.channels,
        ring.silence_micros + per_channel * 8_000_000 / ring.bit_rate as int <= u64::MAX,
    ensures
        ring.drained(block).silence_micros == ring.silence_micros + per_channel * 8_000_000
            / ring.bit_rate as int,
{
    vstd::arithmetic::div_mod::lemma_fundamental_div_mod_converse(
        block.len as int,
        ring.channels as int,
        per_channel,
        0,
    );
    assert(0 <= per_channel * 8_000_000 / ring.bit_rate as int) by (nonlinear_arith)
        requires
            0 <= per_channel,
            0 < ring.bit_rate,
    ;
}

/// A failed ring hands out nothing until it is reset.
pub proof fn law_failed_ring_hands_out_nothing(ring: RingView)
    requires
        ring.wf(),
        ring.failed,
    ensures
        ring.released().pulled().1 is None,
        ring.released().pulled().0.failed,
{
}

/// A ring is no deeper than 400 ms of its stream ask for, but for its least depth
/// of eight slots, and stops at 256.
pub proof fn law_ring_is_no_deeper_than_it_needs(format: DirectDsdFormat, slot_capacity: int)
    requires
        0 < format.bit_rate,
        0 < format.channels,
        slot_capacity >= format.channels,
    ensures
        ({
            let bits = slot_capacity / (format.channels as int) * 8;
            let depth = ring_depth(format, slot_capacity);
            &&& 8 <= depth <= 256
            &&& 8 < depth ==> 1000 * ((depth - 1) * bits) < 400 * format.bit_rate
            &&& depth < 256 ==> 1000 * (depth * bits) >= 400 * format.bit_rate
        }),
{
    let ch = format.channels as int;
    let bits = slot_capacity / ch * 8;
    let need = 2 * format.bit_rate;
    let unit = 5 * bits;
    let depth = ring_depth(format, slot_capacity);
    assert(slot_capacity / ch >= 1) by (nonlinear_arith)
        requires
            slot_capacity >= ch,
            0 < ch,
    ;
    let wanted = ceil_div(need, unit);
    vstd::arithmetic::div_mod::lemma_fundamental_div_mod(need + unit - 1, unit);
    if depth < 256 {
        law_ring_covers_the_buffer_target(format, slot_capacity);
    }
    if 8 < depth {
        assert(unit * (wanted - 1) < need) by (nonlinear_arith)
            requires
                unit * wanted <= need + unit - 1,
        ;
        assert(unit * (depth - 1) <= unit * (wanted - 1)) by (nonlinear_arith)
            requires
                depth <= wanted,
                0 < unit,
        ;
        assert(unit * (depth - 1) == 5 * ((depth - 1) * bits)) by (nonlinear_arith)
            requires
                unit == 5 * bits,
        ;
    }
}

/// Silence is the byte that the device names, or a pattern with as many ones as
/// zeros where it names none. A new byte fills what was laid by for silence and
/// changes nothing else.
pub proof fn law_silence_is_the_devices_own(
    ring: RingView,
    slot: SlotView,
    byte: u8,
    format: DirectDsdFormat,
    capacity: int,
)
    requires
        0 <= capacity,
    ensures
        ring.with_mute_byte(byte).silence() == if byte == 0 {
            0x69
        } else {
            byte
        },
        RingView::fresh(capacity, format).silence() == 0x69,
        ({
            let named = ring.with_mute_byte(byte);
            &&& named.slots == ring.slots
            &&& named.consumed_bits_per_channel == ring.consumed_bits_per_channel
            &&& named.pre_mute_buf.len() == ring.pre_mute_buf.len()
            &&& forall|i: int|
                0 <= i < named.pre_mute_buf.len() ==> #[trigger] named.pre_mute_buf[i]
                    == named.silence()
        }),
        slot.buffer.len() < capacity ==> reserved(slot, capacity).buffer.len() == capacity && (
        forall|i: int|
            0 <= i < capacity ==> #[trigger] reserved(slot, capacity).buffer[i] == 0x69),
        slot.buffer.len() >= capacity ==> reserved(slot, capacity) == slot,
{
}

/// A drain is over once both its blocks and its time are: 200 milliseconds of
/// silence where no other target was set. What does not drain is drained.
pub proof fn law_a_drain_lasts_its_time(ring: RingView, min_blocks: u32)
    ensures
        !ring.drain_requested ==> ring.drain_done(min_blocks),
        ring.drain_requested && ring.silence_blocks < min_blocks ==> !ring.drain_done(min_blocks),
        ring.drain_requested && ring.silence_blocks >= min_blocks && ring.bit_rate > 0
            ==> ring.drain_done(min_blocks) == (ring.silence_micros >= if ring.drain_target_micros
            == 0 {
            200_000
        } else {
            ring.drain_target_micros
        }),
        ring.drain_requested && ring.silence_blocks >= min_blocks && ring.bit_rate == 0
            ==> ring.drain_done(min_blocks),
{
}

/// Whether a slot waits for the device or is in its hands.
pub open spec fn is_owed(slot: SlotView) -> bool {
    slot.state == SlotState::Ready || slot.state == SlotState::InFlight
}

/// One more slot that waits, one more block owed to the device; where none waits,
/// none is owed.
pub proof fn law_each_filled_slot_is_owed(ring: RingView, i: int, slot: SlotView)
    requires
        0 <= i < ring.slots.len(),
        !is_owed(ring.slots[i]),
        is_owed(slot),
    ensures
        (RingView { slots: ring.slots.update(i, slot), ..ring }).pending() == ring.pending() + 1,
        (forall|k: int| 0 <= k < ring.slots.len() ==> !is_owed(#[trigger] ring.slots[k]))
            ==> ring.pending() == 0,
{
    let owed = |s: SlotView| s.state == SlotState::Ready || s.state == SlotState::InFlight;
    let front = ring.slots.take(i);
    let back = ring.slots.skip(i + 1);
    let old_one = seq![ring.slots[i]];
    let new_one = seq![slot];
    assert(ring.slots =~= front + old_one + back);
    assert(ring.slots.update(i, slot) =~= front + new_one + back);
    Seq::filter_distributes_over_add(front + old_one, back, owed);
    Seq::filter_distributes_over_add(front, old_one, owed);
    Seq::filter_distributes_over_add(front + new_one, back, owed);
    Seq::filter_distributes_over_add(front, new_one, owed);
    reveal(Seq::filter);
    reveal_with_fuel(Seq::filter, 2);
    assert(old_one.filter(owed).len() == 0) by {
        assert(old_one.drop_last() =~= Seq::empty());
    }
    assert(new_one.filter(owed).len() == 1) by {
        assert(new_one.drop_last() =~= Seq::empty());
    }
    if forall|k: int| 0 <= k < ring.slots.len() ==> !is_owed(#[trigger] ring.slots[k]) {
        lemma_none_owed(ring.slots);
    }
}

proof fn lemma_none_owed(slots: Seq<SlotView>)
    requires
        forall|k: int| 0 <= k < slots.len() ==> !is_owed(#[trigger] slots[k]),
    ensures
        slots.filter(
            |s: SlotView| s.state == SlotState::Ready || s.state == SlotState::InFlight,
        ).len() == 0,
    decreases slots.len(),
{
    reveal(Seq::filter);
    if slots.len() > 0 {
        assert forall|k: int| 0 <= k < slots.len() - 1 implies !is_owed(
            #[trigger] slots.drop_last()[k],
        ) by {
            assert(slots.drop_last()[k] == slots[k]);
        }
        lemma_none_owed(slots.drop_last());
        assert(!is_owed(slots[slots.len() - 1]));
    }
}

/// A gap at the boundary of two sources is worth a wait only while a pull would
/// find nothing to hand out and no silence was asked for.
pub proof fn law_a_boundary_gap_has_nothing_to_hand_out(ring: RingView, now_ms: u64)
    requires
        ring.wf(),
        ring.boundary_gap(now_ms),
    ensures
        ring.pre_mute_until_ms <= now_ms,
        ring.finished || ring.stage_pending,
        ring.pulled().1 matches Some(b) ==> b.slot is None,
        ring.pulled().0.slots == ring.slots,
{
}

/// While a ring drains, each block that goes by counts once. A slot that is ready and
/// holds nothing fails the ring and is free again.
pub proof fn law_each_silent_block_counts(ring: RingView, block: DirectDsdBlock)
    requires
        ring.wf(),
    ensures
        ring.drain_requested && ring.silence_blocks < u32::MAX ==> ring.drained(
            block,
        ).silence_blocks == ring.silence_blocks + 1,
        ring.drain_requested && ring.silence_blocks == u32::MAX ==> ring.drained(
            block,
        ).silence_blocks == 0,
        !ring.drain_requested ==> ring.drained(block) == ring,
        !ring.failed && ring.slot_ready() && (!ring.next_slot().has_payload
            || ring.next_slot().payload_len == 0) ==> {
            let (out, given) = ring.pulled();
            &&& given is None
            &&& out.failed
            &&& out.slots[ring.consumer_index as int].state == SlotState::Free
        },
        !ring.failed && ring.slot_ready() && ring.next_slot().has_payload
            && ring.next_slot().payload_len > 0 ==> {
            let (out, given) = ring.pulled();
            &&& given matches Some(b)
            &&& b.slot == Some(ring.consumer_index)
            &&& b.len == ring.next_slot().payload_len
            &&& out.bytes(b) == ring.next_slot().payload()
            &&& out.last_delivered_len == b.len
        },
{
    if !ring.failed && ring.slot_ready() && ring.next_slot().has_payload
        && ring.next_slot().payload_len > 0 {
        let (out, given) = ring.pulled();
        assert(out.bytes(given->0) =~= ring.next_slot().payload());
    }
}

} // verus!
