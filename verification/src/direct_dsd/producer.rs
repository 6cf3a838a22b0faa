//! The producer of native DSD blocks: fills the ring from a reader, follows
//! seeks and changes of source, and joins a staged source without a gap.

use vstd::prelude::*;

use super::reader::{at_most_u64, seek_target, DirectDsdReader};
use super::ring::{
    counter_sum, fill_claimed_slot, filled, reserved, DirectDsdMonitor, DirectDsdRing,
    DirectDsdSlot, RingView, SlotState, SlotView, PRE_MUTE_WINDOW_MS,
};
use super::{
    same_dsd_transport, same_transport, DirectDsdBitOrder, DirectDsdError, DirectDsdFormat,
};

verus! {

/// A source that waits for the current one to end.
pub struct StagedDsdSource {
    pub reader: DirectDsdReader,
    pub format: DirectDsdFormat,
    pub duration_micros: u64,
    pub generation: u64,
}

/// How the preparation of a staged source went, with the stage epoch at which
/// it began.
pub enum StagePrepareOutcome {
    Ready(u64, StagedDsdSource),
    Failed(u64),
}

impl StagedDsdSource {
    /// The staged source's invariant.
    pub open spec fn wf(&self) -> bool {
        self.reader.wf() && self.format == self.reader.format_spec()
    }
}

/// Whether an optional staged source satisfies its invariant.
pub open spec fn staged_wf(staged: Option<StagedDsdSource>) -> bool {
    staged matches Some(s) ==> s.wf()
}

/// The ring with one slot replaced.
pub open spec fn with_slot(ring: RingView, i: int, slot: SlotView) -> RingView {
    RingView { slots: ring.slots.update(i, slot), ..ring }
}

/// A slot claimed by the producer.
pub open spec fn claimed(slot: SlotView) -> SlotView {
    SlotView { state: SlotState::Filling, ..slot }
}

/// A slot that is free to be filled again.
pub open spec fn freed(slot: SlotView) -> SlotView {
    SlotView { state: SlotState::Free, ..slot }
}

/// The ring with its silence window opened.
pub open spec fn pre_muted(ring: RingView, now_ms: u64) -> RingView {
    RingView {
        pre_mute_until_ms: (now_ms + PRE_MUTE_WINDOW_MS) as u64,
        pre_mute_buf: ring.muted_buffer(ring.last_delivered_len as int),
        ..ring
    }
}

/// Claims a free slot and fills it with the next block of a reader.
pub fn fill_slot(
    reader: &mut DirectDsdReader,
    ring: &mut DirectDsdRing,
    index: usize,
    wire_bit_order: DirectDsdBitOrder,
) -> (r: Result<Option<()>, DirectDsdError>)
    requires
        old(reader).wf(),
        old(ring).wf(),
        index < old(ring)@.slots.len(),
    ensures
        final(reader).wf(),
        final(reader).same_file(old(reader)),
        final(ring).wf(),
        ({
            let slot = old(ring)@.slots[index as int];
            let count = old(reader).next_count();
            let len = count * old(reader).ch();
            if slot.state != SlotState::Free {
                &&& r == Err::<Option<()>, DirectDsdError>(DirectDsdError::SlotBusy)
                &&& final(ring)@ == old(ring)@
                &&& final(reader).pos() == old(reader).pos()
            } else if old(reader).pos() == old(reader).total() {
                &&& r == Ok::<Option<()>, DirectDsdError>(None)
                &&& final(ring)@ == with_slot(old(ring)@, index as int, claimed(slot))
                &&& final(reader).pos() == old(reader).pos()
            } else if slot.buffer.len() < len {
                &&& r == Err::<Option<()>, DirectDsdError>(DirectDsdError::OutputTooSmall)
                &&& final(ring)@ == old(ring)@
                &&& final(reader).pos() == old(reader).pos()
            } else {
                &&& r == Ok::<Option<()>, DirectDsdError>(Some(()))
                &&& final(ring)@ == with_slot(
                    old(ring)@,
                    index as int,
                    filled(slot, *old(reader), wire_bit_order),
                )
                &&& final(reader).pos() == old(reader).pos() + count
            }
        }),
{
    if ring.slots[index].state != SlotState::Free {
        return Err(DirectDsdError::SlotBusy);
    }
    let ghost slot = old(ring)@.slots[index as int];
    ring.slots[index].state = SlotState::Filling;
    assert(ring.slots@[index as int]@ =~= claimed(slot));
    let r = fill_claimed_slot(reader, &mut ring.slots[index], wire_bit_order);
    if r.is_err() {
        ring.slots[index].state = SlotState::Free;
    }
    proof {
        assert(ring@.slots =~= old(ring)@.slots.update(index as int, ring.slots@[index as int]@));
        assert(ring@ =~= with_slot(old(ring)@, index as int, ring.slots@[index as int]@));
        if r is Err {
            assert(ring.slots@[index as int]@ =~= slot);
            assert(ring@.slots =~= old(ring)@.slots);
            assert(ring@ =~= old(ring)@);
        } else if r->Ok_0 is None {
            assert(ring@ =~= with_slot(old(ring)@, index as int, claimed(slot)));
        } else {
            assert(filled(claimed(slot), *old(reader), wire_bit_order) =~= filled(
                slot,
                *old(reader),
                wire_bit_order,
            ));
            assert(ring@ =~= with_slot(
                old(ring)@,
                index as int,
                filled(slot, *old(reader), wire_bit_order),
            ));
        }
    }
    r
}

/// Moves a reader to a bit and the ring with it: silence covers the gap, the
/// ring is emptied, and the first slot gets the block at the new position.
pub fn seek_dsd_ring(
    reader: &mut DirectDsdReader,
    ring: &mut DirectDsdRing,
    wire_bit_order: DirectDsdBitOrder,
    requested_bits: u64,
    now_ms: u64,
) -> (r: Result<u64, DirectDsdError>)
    requires
        old(reader).wf(),
        old(ring).wf(),
        now_ms <= u64::MAX - PRE_MUTE_WINDOW_MS,
    ensures
        final(reader).wf(),
        final(reader).same_file(old(reader)),
        final(ring).wf(),
        ({
            let target = seek_target(requested_bits as int, old(reader).total());
            let empty = pre_muted(old(ring)@, now_ms).reset();
            let slot = empty.slots[0];
            let at = DirectDsdReader::moved(*old(reader), target);
            if target == old(reader).total() {
                &&& r == Err::<u64, DirectDsdError>(DirectDsdError::NoPayload)
                &&& final(ring)@ == with_slot(empty, 0, claimed(slot))
                &&& final(reader).pos() == target
            } else if slot.buffer.len() < at.next_count() * at.ch() {
                &&& r == Err::<u64, DirectDsdError>(DirectDsdError::OutputTooSmall)
                &&& final(ring)@ == empty
                &&& final(reader).pos() == target
            } else {
                &&& r == Ok::<u64, DirectDsdError>(at_most_u64(8 * target) as u64)
                &&& final(ring)@ == with_slot(empty, 0, filled(slot, at, wire_bit_order))
                &&& final(reader).pos() == target + at.next_count()
            }
        }),
{
    ring.trigger_pre_mute(now_ms);
    ring.reset_for_transition();
    let actual_bits: u64 = reader.seek_bits(requested_bits);
    proof {
        let target = seek_target(requested_bits as int, old(reader).total());
        DirectDsdReader::lemma_moved(*old(reader), *reader, target);
    }
    match fill_slot(reader, ring, 0, wire_bit_order) {
        Ok(Some(())) => Ok(actual_bits),
        Ok(None) => Err(DirectDsdError::NoPayload),
        Err(e) => Err(e),
    }
}

/// Readies a source to follow the current one: moved to its start, and refused
/// where it does not fit the connection. A duration of 0 stands for the
/// source's own.
pub fn prepare_staged_dsd_source(
    reader: DirectDsdReader,
    start_bits: u64,
    current_format: DirectDsdFormat,
    duration_micros: u64,
    own_duration_micros: u64,
    generation: u64,
) -> (r: Result<StagedDsdSource, DirectDsdError>)
    requires
        reader.wf(),
    ensures
        match r {
            Ok(staged) => {
                &&& same_transport(current_format, reader.format_spec())
                &&& staged.wf()
                &&& staged.reader.same_file(&reader)
                &&& staged.reader.pos() == started_at(reader, start_bits)
                &&& staged.duration_micros == if duration_micros > 0 {
                    duration_micros
                } else {
                    own_duration_micros
                }
                &&& staged.generation == generation
            },
            Err(e) => !same_transport(current_format, reader.format_spec()) && e
                == DirectDsdError::TransportMismatch,
        },
{
    let mut reader = reader;
    if start_bits > 0 {
        let _ = reader.seek_bits(start_bits);
    }
    let format = reader.format();
    if !same_dsd_transport(current_format, format) {
        return Err(DirectDsdError::TransportMismatch);
    }
    let duration_micros: u64 = if duration_micros > 0 {
        duration_micros
    } else {
        own_duration_micros
    };
    Ok(StagedDsdSource { reader, format, duration_micros, generation })
}

/// Where a reader stands once it was started at a bit; 0 leaves it alone.
pub open spec fn started_at(reader: DirectDsdReader, start_bits: u64) -> int {
    if start_bits > 0 {
        seek_target(start_bits as int, reader.total())
    } else {
        reader.pos()
    }
}

/// A slot that holds the first block of a staged source and marks the boundary.
pub open spec fn installed(
    slot: SlotView,
    staged: StagedDsdSource,
    wire: DirectDsdBitOrder,
) -> SlotView {
    SlotView {
        boundary: true,
        boundary_duration_micros: staged.duration_micros,
        boundary_generation: staged.generation,
        ..filled(reserved(slot, staged.reader.max_len()), staged.reader, wire)
    }
}

/// Fills a claimed slot with the first block of a staged source and marks the
/// boundary; refused where the source has no payload, with the slot free again.
fn install_staged_dsd_slot(
    staged: StagedDsdSource,
    slot: &mut DirectDsdSlot,
    wire_bit_order: DirectDsdBitOrder,
) -> (r: Result<(DirectDsdReader, DirectDsdFormat), DirectDsdError>)
    requires
        staged.wf(),
        old(slot)@.wf(),
        old(slot)@.state == SlotState::Filling,
    ensures
        final(slot)@.wf(),
        ({
            let count = staged.reader.next_count();
            if staged.reader.pos() == staged.reader.total() {
                &&& r == Err::<(DirectDsdReader, DirectDsdFormat), DirectDsdError>(
                    DirectDsdError::NoPayload,
                )
                &&& final(slot)@ == freed(reserved(old(slot)@, staged.reader.max_len()))
            } else {
                &&& r matches Ok((reader, format)) && {
                    &&& reader.wf()
                    &&& reader.same_file(&staged.reader)
                    &&& reader.pos() == staged.reader.pos() + count
                    &&& format == staged.format
                }
                &&& final(slot)@ == installed(old(slot)@, staged, wire_bit_order)
            }
        }),
{
    let mut staged = staged;
    let ghost first = staged.reader;
    proof {
        staged.reader.lemma_channels();
        staged.reader.lemma_next_fits();
    }
    let required: usize = staged.reader.max_output_len();
    slot.reserve(required);
    match fill_claimed_slot(&mut staged.reader, slot, wire_bit_order) {
        Ok(Some(())) => {
            slot.boundary_duration_micros = staged.duration_micros;
            slot.boundary_generation = staged.generation;
            slot.boundary = true;
            Ok((staged.reader, staged.format))
        },
        Ok(None) => {
            slot.state = SlotState::Free;
            Err(DirectDsdError::NoPayload)
        },
        Err(e) => {
            slot.state = SlotState::Free;
            Err(e)
        },
    }
}

/// The ring, emptied and ready for the first block of another source.
pub open spec fn awaiting_source(
    ring: RingView,
    max_len: int,
    duration_micros: u64,
    now_ms: u64,
) -> RingView {
    let empty = pre_muted(ring, now_ms).reset();
    let roomy = RingView {
        slots: empty.slots.map_values(|s: SlotView| reserved(s, max_len)),
        ..empty
    };
    with_slot(
        roomy,
        0,
        SlotView {
            boundary: true,
            boundary_duration_micros: duration_micros,
            boundary_generation: (ring.boundary_generation + 1) as u64,
            ..roomy.slots[0]
        },
    )
}

/// Puts another source in place of the current one: silence covers the gap, the
/// ring is emptied, and the first slot gets the source's first block, marked as
/// a boundary. Refused without a change where the source does not fit the
/// connection.
pub fn replace_dsd_ring(
    reader: DirectDsdReader,
    start_bits: u64,
    duration_micros: u64,
    ring: &mut DirectDsdRing,
    current_format: DirectDsdFormat,
    wire_bit_order: DirectDsdBitOrder,
    now_ms: u64,
) -> (r: Result<(DirectDsdReader, DirectDsdFormat), DirectDsdError>)
    requires
        reader.wf(),
        old(ring).wf(),
        old(ring)@.boundary_generation < u64::MAX,
        now_ms <= u64::MAX - PRE_MUTE_WINDOW_MS,
    ensures
        final(ring).wf(),
        ({
            let at = DirectDsdReader::moved(reader, started_at(reader, start_bits));
            let empty = awaiting_source(old(ring)@, at.max_len(), duration_micros, now_ms);
            let count = at.next_count();
            if !same_transport(current_format, reader.format_spec()) {
                &&& r == Err::<(DirectDsdReader, DirectDsdFormat), DirectDsdError>(
                    DirectDsdError::TransportMismatch,
                )
                &&& final(ring)@ == old(ring)@
            } else if at.pos() == at.total() {
                &&& r == Err::<(DirectDsdReader, DirectDsdFormat), DirectDsdError>(
                    DirectDsdError::NoPayload,
                )
                &&& final(ring)@ == with_slot(empty, 0, claimed(empty.slots[0]))
            } else {
                &&& r matches Ok((new_reader, format)) && {
                    &&& new_reader.wf()
                    &&& new_reader.same_file(&reader)
                    &&& new_reader.pos() == at.pos() + count
                    &&& format == reader.format_spec()
                }
                &&& final(ring)@ == (RingView {
                    last_delivered_len: (count * at.ch()) as usize,
                    ..with_slot(empty, 0, filled(empty.slots[0], at, wire_bit_order))
                })
            }
        }),
{
    let mut reader = reader;
    let ghost given = reader;
    if start_bits > 0 {
        let _ = reader.seek_bits(start_bits);
    }
    let new_format = reader.format();
    if !same_dsd_transport(current_format, new_format) {
        return Err(DirectDsdError::TransportMismatch);
    }
    let ghost at = reader;
    proof {
        DirectDsdReader::lemma_moved(given, reader, started_at(given, start_bits));
        reader.lemma_channels();
        reader.lemma_next_fits();
    }
    ring.trigger_pre_mute(now_ms);
    ring.reset_for_transition();
    ring.ensure_capacity(reader.max_output_len());
    let ghost roomy = ring@;
    ring.slots[0].boundary_duration_micros = duration_micros;
    ring.slots[0].boundary_generation = ring.boundary_generation + 1;
    ring.slots[0].boundary = true;
    proof {
        assert(ring@.slots =~= awaiting_source(
            old(ring)@,
            at.max_len(),
            duration_micros,
            now_ms,
        ).slots);
        assert(ring@ =~= awaiting_source(old(ring)@, at.max_len(), duration_micros, now_ms));
    }
    match fill_slot(&mut reader, ring, 0, wire_bit_order) {
        Ok(Some(())) => {},
        Ok(None) => {
            return Err(DirectDsdError::NoPayload);
        },
        Err(e) => {
            return Err(e);
        },
    }
    let first_len: usize = ring.slots[0].payload_len;
    if first_len > 0 {
        ring.last_delivered_len = first_len;
    }
    proof {
        let there = DirectDsdReader::moved(given, started_at(given, start_bits));
        let empty = awaiting_source(old(ring)@, there.max_len(), duration_micros, now_ms);
        assert(filled(empty.slots[0], at, wire_bit_order) =~= filled(
            empty.slots[0],
            there,
            wire_bit_order,
        ));
        let want = RingView {
            last_delivered_len: (there.next_count() * there.ch()) as usize,
            ..with_slot(empty, 0, filled(empty.slots[0], there, wire_bit_order))
        };
        assert(ring@.slots[0] == ring.slots@[0]@);
        assert(first_len == want.last_delivered_len);
        assert(first_len > 0);
        assert(ring@.slots =~= want.slots);
        assert(ring@ =~= want);
    }
    Ok((reader, new_format))
}

// ---------------------------------------------------------------------------
// The source: a reader, its ring, and what comes next
// ---------------------------------------------------------------------------

/// What a step of production came to.
#[derive(Debug, Clone, Copy, PartialEq, Eq, Structural)]
pub enum ProducerStep {
    /// The stream has failed: wait for a command or a reset.
    WaitFailed,
    /// The source has ended and none is staged: wait for one or a command.
    WaitFinished,
    /// The next slot is not free: wait for the device or a command.
    WaitSlot,
    /// A slot was filled.
    Filled,
    /// The staged source took over.
    Installed,
    /// The source is at its end; the next slot is claimed until it is settled
    /// what follows.
    AtEnd,
    /// Nothing follows: the source has finished.
    Ended,
    /// The stream has failed with this step.
    Failed,
}

/// A native DSD source: the reader it plays, the ring it fills, and the source
/// staged to follow.
pub struct DirectDsdSource {
    pub monitor: DirectDsdMonitor,
    pub format: DirectDsdFormat,
    pub reader: DirectDsdReader,
    pub active_format: DirectDsdFormat,
    pub wire_bit_order: DirectDsdBitOrder,
    pub staged: Option<StagedDsdSource>,
    pub next_slot: usize,
}

impl DirectDsdSource {
    /// The state of the ring.
    pub open spec fn ring(&self) -> RingView {
        self.monitor.ring@
    }

    /// The source's invariant.
    pub open spec fn wf(&self) -> bool {
        &&& self.ring().wf()
        &&& self.reader.wf()
        &&& self.active_format == self.reader.format_spec()
        &&& staged_wf(self.staged)
        &&& self.next_slot < self.ring().slots.len()
    }

    /// The slot that production fills next.
    pub open spec fn slot(&self) -> SlotView {
        self.ring().slots[self.next_slot as int]
    }

    /// The slot after the next one.
    pub open spec fn following_slot(&self) -> int {
        (self.next_slot + 1) % self.ring().slots.len() as int
    }

    /// The slot that follows the first.
    pub open spec fn second_slot(&self) -> int {
        1int % self.ring().slots.len() as int
    }

    /// Whether everything but the ring, the reader, the staged source and the
    /// next slot is as before.
    pub open spec fn keeps_rest(&self, before: &DirectDsdSource) -> bool {
        &&& self.format == before.format
        &&& self.wire_bit_order == before.wire_bit_order
        &&& self.monitor.bit_rate == before.monitor.bit_rate
    }

    /// Whether all but the ring is as before.
    pub open spec fn keeps_all_but_ring(&self, before: &DirectDsdSource) -> bool {
        &&& self.keeps_rest(before)
        &&& self.reader == before.reader
        &&& self.active_format == before.active_format
        &&& self.staged == before.staged
        &&& self.next_slot == before.next_slot
    }

    /// A source that was opened at a bit of each channel of a reader: its ring
    /// holds the first block and nothing else.
    pub open spec fn opened_at(
        &self,
        reader: DirectDsdReader,
        position_bits: u64,
        duration_micros: u64,
    ) -> bool {
        let at = DirectDsdReader::moved(reader, started_at(reader, position_bits));
        &&& self.wf()
        &&& self.reader.same_file(&reader)
        &&& self.reader.pos() == at.pos() + at.next_count()
        &&& self.format == reader.format_spec()
        &&& self.wire_bit_order == reader.format_spec().bit_order
        &&& self.monitor.bit_rate == reader.format_spec().bit_rate
        &&& self.staged is None
        &&& self.next_slot == 1
        &&& self.ring() == with_slot(
            RingView { duration_micros, ..RingView::fresh(at.max_len(), reader.format_spec()) },
            0,
            filled(SlotView::fresh(at.max_len()), at, reader.format_spec().bit_order),
        )
    }

    /// Opens a source at a bit of each channel: its ring holds the first block.
    /// Returns the bit that was reached. Refused where there is nothing to play.
    pub fn open_local_at(reader: DirectDsdReader, position_bits: u64, duration_micros: u64) -> (r:
        Result<(Self, u64), DirectDsdError>)
        requires
            reader.wf(),
        ensures
            ({
                let at = DirectDsdReader::moved(reader, started_at(reader, position_bits));
                match r {
                    Ok((source, actual_bits)) => {
                        &&& at.pos() < at.total()
                        &&& source.opened_at(reader, position_bits, duration_micros)
                        &&& actual_bits == if position_bits > 0 {
                            at_most_u64(8 * at.pos())
                        } else {
                            0
                        }
                    },
                    Err(e) => at.pos() == at.total() && e == DirectDsdError::NoPayload,
                }
            }),
    {
        let mut reader = reader;
        let ghost given = reader;
        let actual_bits: u64 = if position_bits > 0 {
            reader.seek_bits(position_bits)
        } else {
            0
        };
        let ghost there = DirectDsdReader::moved(given, started_at(given, position_bits));
        let ghost at = reader;
        proof {
            DirectDsdReader::lemma_moved(given, reader, started_at(given, position_bits));
            reader.lemma_channels();
            reader.lemma_next_fits();
        }
        let format = reader.format();
        let mut ring = DirectDsdRing::new(reader.max_output_len(), format);
        ring.duration_micros = duration_micros;
        let ghost empty = ring@;
        match fill_slot(&mut reader, &mut ring, 0, format.bit_order) {
            Ok(Some(())) => {},
            Ok(None) => {
                return Err(DirectDsdError::NoPayload);
            },
            Err(e) => {
                return Err(e);
            },
        }
        proof {
            assert(filled(empty.slots[0], at, format.bit_order) =~= filled(
                SlotView::fresh(there.max_len()),
                there,
                format.bit_order,
            ));
            assert(empty =~= (RingView {
                duration_micros,
                ..RingView::fresh(there.max_len(), format)
            }));
        }
        let source = DirectDsdSource {
            monitor: DirectDsdMonitor { ring, bit_rate: format.bit_rate },
            format,
            reader,
            active_format: format,
            wire_bit_order: format.bit_order,
            staged: None,
            next_slot: 1,
        };
        Ok((source, actual_bits))
    }

    /// Opens a source at its start.
    pub fn open_local(reader: DirectDsdReader, duration_micros: u64) -> (r: Result<
        Self,
        DirectDsdError,
    >)
        requires
            reader.wf(),
            reader.pos() == 0,
        ensures
            match r {
                Ok(source) => {
                    &&& 0 < reader.total()
                    &&& source.wf()
                    &&& source.reader.same_file(&reader)
                    &&& source.format == reader.format_spec()
                    &&& source.wire_bit_order == reader.format_spec().bit_order
                    &&& source.staged is None
                    &&& source.next_slot == 1
                    &&& source.ring().slots[0].payload() == reader.payload(0, reader.next_count())
                    &&& source.ring().slots[0].state == SlotState::Ready
                    &&& source.ring().duration_micros == duration_micros
                },
                Err(e) => reader.total() == 0 && e == DirectDsdError::NoPayload,
            },
    {
        proof {
            DirectDsdReader::lemma_moved(reader, reader, 0);
            reader.lemma_channels();
            reader.lemma_next_fits();
        }
        match Self::open_local_at(reader, 0, duration_micros) {
            Ok((source, _)) => {
                assert(source.ring().slots[0].payload() =~= reader.payload(
                    0,
                    reader.next_count(),
                ));
                Ok(source)
            },
            Err(e) => Err(e),
        }
    }

    /// Moves to a bit of each channel, in the present bit order. A move that
    /// finds no payload fails the stream.
    pub fn seek_while_paused(&mut self, requested_bits: u64, now_ms: u64) -> (r: Result<
        u64,
        DirectDsdError,
    >)
        requires
            old(self).wf(),
            now_ms <= u64::MAX - PRE_MUTE_WINDOW_MS,
        ensures
            final(self).wf(),
            final(self).keeps_rest(old(self)),
            final(self).moved_from(old(self), r, requested_bits, now_ms),
    {
        let r = seek_dsd_ring(
            &mut self.reader,
            &mut self.monitor.ring,
            self.wire_bit_order,
            requested_bits,
            now_ms,
        );
        if r.is_err() {
            self.monitor.ring.failed = true;
        }
        self.next_slot = 1 % self.monitor.ring.slots.len();
        r
    }

    /// Changes the bit order of the wire, and moves to a bit of each channel.
    pub fn set_wire_bit_order_while_paused(
        &mut self,
        bit_order: DirectDsdBitOrder,
        requested_bits: u64,
        now_ms: u64,
    ) -> (r: Result<u64, DirectDsdError>)
        requires
            old(self).wf(),
            now_ms <= u64::MAX - PRE_MUTE_WINDOW_MS,
        ensures
            final(self).wf(),
            final(self).wire_bit_order == bit_order,
            final(self).format == old(self).format,
            final(self).moved_from(old(self), r, requested_bits, now_ms),
    {
        self.wire_bit_order = bit_order;
        self.seek_while_paused(requested_bits, now_ms)
    }

    /// What a move to a bit does: the ring holds the block there, in the bit
    /// order of the wire, and nothing else; or the stream has failed.
    pub open spec fn moved_from(
        &self,
        before: &DirectDsdSource,
        r: Result<u64, DirectDsdError>,
        requested_bits: u64,
        now_ms: u64,
    ) -> bool {
        let target = seek_target(requested_bits as int, before.reader.total());
        let at = DirectDsdReader::moved(before.reader, target);
        let empty = pre_muted(before.ring(), now_ms).reset();
        let slot = empty.slots[0];
        &&& self.reader.same_file(&before.reader)
        &&& self.active_format == before.active_format
        &&& self.staged == before.staged
        &&& self.next_slot == self.second_slot()
        &&& if target == before.reader.total() {
            &&& r == Err::<u64, DirectDsdError>(DirectDsdError::NoPayload)
            &&& self.ring() == with_slot(RingView { failed: true, ..empty }, 0, claimed(slot))
            &&& self.reader.pos() == target
        } else if slot.buffer.len() < at.next_count() * at.ch() {
            &&& r == Err::<u64, DirectDsdError>(DirectDsdError::OutputTooSmall)
            &&& self.ring() == (RingView { failed: true, ..empty })
            &&& self.reader.pos() == target
        } else {
            &&& r == Ok::<u64, DirectDsdError>(at_most_u64(8 * target) as u64)
            &&& self.ring() == with_slot(empty, 0, filled(slot, at, self.wire_bit_order))
            &&& self.reader.pos() == target + at.next_count()
        }
    }

    /// Puts another source in place of the current one. A refused source leaves
    /// the stream on the one it has, and a staged one too; an accepted one makes
    /// what was staged outdated.
    pub fn replace_drained_local(
        &mut self,
        reader: DirectDsdReader,
        start_bits: u64,
        duration_micros: u64,
        now_ms: u64,
    ) -> (r: Result<DirectDsdFormat, DirectDsdError>)
        requires
            old(self).wf(),
            reader.wf(),
            old(self).ring().boundary_generation < u64::MAX,
            now_ms <= u64::MAX - PRE_MUTE_WINDOW_MS,
        ensures
            final(self).wf(),
            final(self).wire_bit_order == old(self).wire_bit_order,
            ({
                let at = DirectDsdReader::moved(reader, started_at(reader, start_bits));
                let count = at.next_count();
                let empty = awaiting_source(old(self).ring(), at.max_len(), duration_micros, now_ms);
                if !same_transport(old(self).active_format, reader.format_spec()) {
                    &&& r == Err::<DirectDsdFormat, DirectDsdError>(
                        DirectDsdError::TransportMismatch,
                    )
                    &&& *final(self) == *old(self)
                } else if at.pos() == at.total() {
                    &&& r == Err::<DirectDsdFormat, DirectDsdError>(DirectDsdError::NoPayload)
                    &&& final(self).ring() == with_slot(empty, 0, claimed(empty.slots[0]))
                    &&& final(self).reader == old(self).reader
                    &&& final(self).staged == old(self).staged
                    &&& final(self).next_slot == old(self).next_slot
                    &&& final(self).keeps_rest(old(self))
                } else {
                    &&& r == Ok::<DirectDsdFormat, DirectDsdError>(reader.format_spec())
                    &&& final(self).format == reader.format_spec()
                    &&& final(self).reader.same_file(&reader)
                    &&& final(self).reader.pos() == at.pos() + count
                    &&& final(self).staged is None
                    &&& final(self).next_slot == final(self).second_slot()
                    &&& final(self).ring() == (RingView {
                        last_delivered_len: (count * at.ch()) as usize,
                        stage_epoch: counter_sum(old(self).ring().stage_epoch, 1),
                        stage_pending: false,
                        ..with_slot(
                            empty,
                            0,
                            filled(empty.slots[0], at, old(self).wire_bit_order),
                        )
                    })
                }
            }),
    {
        let fits: bool = same_dsd_transport(self.active_format, reader.format());
        if !fits {
            return Err(DirectDsdError::TransportMismatch);
        }
        match replace_dsd_ring(
            reader,
            start_bits,
            duration_micros,
            &mut self.monitor.ring,
            self.active_format,
            self.wire_bit_order,
            now_ms,
        ) {
            Ok((new_reader, new_format)) => {
                self.reader = new_reader;
                self.active_format = new_format;
                self.staged = None;
                self.monitor.ring.stage_epoch = self.monitor.ring.stage_epoch.wrapping_add(1);
                self.monitor.ring.stage_pending = false;
                self.next_slot = 1 % self.monitor.ring.slots.len();
                self.format = new_format;
                Ok(new_format)
            },
            Err(e) => Err(e),
        }
    }

    /// Accepts a source to be staged and returns the epoch that its preparation
    /// belongs to.
    pub fn begin_stage(&mut self) -> (epoch: u64)
        requires
            old(self).wf(),
        ensures
            final(self).wf(),
            epoch == old(self).ring().stage_epoch,
            final(self).ring() == (RingView { stage_pending: true, ..old(self).ring() }),
            final(self).reader == old(self).reader,
            final(self).staged == old(self).staged,
            final(self).next_slot == old(self).next_slot,
            final(self).keeps_rest(old(self)),
    {
        self.monitor.ring.stage_pending = true;
        self.monitor.ring.stage_epoch
    }

    /// Takes in how the preparation of a staged source went. What belongs to an
    /// earlier epoch is dropped.
    pub fn collect_stage_outcome(&mut self, outcome: StagePrepareOutcome)
        requires
            old(self).wf(),
            outcome matches StagePrepareOutcome::Ready(_, staged) ==> staged.wf(),
        ensures
            final(self).wf(),
            final(self).reader == old(self).reader,
            final(self).next_slot == old(self).next_slot,
            final(self).keeps_rest(old(self)),
            match outcome {
                StagePrepareOutcome::Ready(epoch, staged) => {
                    &&& final(self).ring() == old(self).ring()
                    &&& final(self).staged == if epoch == old(self).ring().stage_epoch {
                        Some(staged)
                    } else {
                        old(self).staged
                    }
                },
                StagePrepareOutcome::Failed(epoch) => {
                    &&& final(self).staged == old(self).staged
                    &&& final(self).ring() == if epoch == old(self).ring().stage_epoch {
                        RingView { stage_pending: false, ..old(self).ring() }
                    } else {
                        old(self).ring()
                    }
                },
            },
    {
        match outcome {
            StagePrepareOutcome::Ready(epoch, candidate) => {
                if epoch == self.monitor.ring.stage_epoch {
                    self.staged = Some(candidate);
                }
            },
            StagePrepareOutcome::Failed(epoch) => {
                if epoch == self.monitor.ring.stage_epoch {
                    self.monitor.ring.stage_pending = false;
                }
            },
        }
    }

    /// Drops the staged source, and with the epoch any that is still being
    /// prepared.
    pub fn cancel_staged(&mut self)
        requires
            old(self).wf(),
        ensures
            final(self).wf(),
            final(self).staged is None,
            final(self).ring() == (RingView {
                stage_epoch: counter_sum(old(self).ring().stage_epoch, 1),
                stage_pending: false,
                ..old(self).ring()
            }),
            final(self).reader == old(self).reader,
            final(self).next_slot == old(self).next_slot,
            final(self).keeps_rest(old(self)),
    {
        self.staged = None;
        self.monitor.ring.stage_epoch = self.monitor.ring.stage_epoch.wrapping_add(1);
        self.monitor.ring.stage_pending = false;
    }

    /// Asks for silence in place of every further block.
    pub fn begin_drain(&mut self)
        ensures
            final(self).ring() == (RingView { drain_requested: true, ..old(self).ring() }),
            final(self).keeps_all_but_ring(old(self)),
    {
        self.monitor.ring.begin_drain();
    }

    /// Ends the silence, as before playback goes on.
    pub fn clear_drain(&mut self)
        ensures
            final(self).ring() == (RingView {
                drain_requested: false,
                silence_blocks: 0,
                silence_micros: 0,
                ..old(self).ring()
            }),
            final(self).keeps_all_but_ring(old(self)),
    {
        self.monitor.ring.clear_drain();
    }

    /// Whether a wait for a soft pause is over: the device was handed silence.
    pub fn wait_soft_pause(&self) -> (r: bool)
        ensures
            r == (self.ring().drain_requested && self.ring().silence_blocks >= 1),
    {
        self.monitor.ring.soft_pause_ready()
    }

    /// The format of the source.
    pub fn format(&self) -> (r: DirectDsdFormat)
        ensures
            r == self.format,
    {
        self.format
    }

    /// Whether the stream has failed.
    pub fn failed(&self) -> (r: bool)
        ensures
            r == self.ring().failed,
    {
        self.monitor.failed()
    }

    /// Whether the source is at its end and the device has played all of it.
    pub fn finished(&self) -> (r: bool)
        ensures
            r == self.ring().played_out(),
    {
        self.monitor.finished()
    }

    /// Puts the staged source into the claimed next slot.
    fn install(&mut self, staged: StagedDsdSource) -> (r: ProducerStep)
        requires
            old(self).wf(),
            old(self).staged is None,
            staged.wf(),
            old(self).slot().state == SlotState::Filling,
        ensures
            final(self).wf(),
            final(self).staged is None,
            final(self).took_over(old(self), staged, r),
    {
        let index: usize = self.next_slot;
        let ghost before = self.ring();
        let ghost slot = self.slot();
        let done = install_staged_dsd_slot(
            staged,
            &mut self.monitor.ring.slots[index],
            self.wire_bit_order,
        );
        proof {
            assert(self.ring().slots =~= before.slots.update(
                index as int,
                self.monitor.ring.slots@[index as int]@,
            ));
        }
        match done {
            Ok((reader, format)) => {
                self.reader = reader;
                self.active_format = format;
                self.monitor.ring.finished = false;
                self.monitor.ring.stage_pending = false;
                self.next_slot = (index + 1) % self.monitor.ring.slots.len();
                proof {
                    assert(self.ring() =~= with_slot(
                        RingView { finished: false, stage_pending: false, ..before },
                        index as int,
                        installed(slot, staged, self.wire_bit_order),
                    ));
                }
                ProducerStep::Installed
            },
            Err(_) => {
                self.monitor.ring.failed = true;
                self.monitor.ring.stage_pending = false;
                proof {
                    assert(self.ring() =~= with_slot(
                        RingView { failed: true, stage_pending: false, ..before },
                        index as int,
                        freed(reserved(slot, staged.reader.max_len())),
                    ));
                }
                ProducerStep::Failed
            },
        }
    }

    /// What installing a staged source does: its first block is in the slot,
    /// marked as a boundary, and it is the source from now on; or it had nothing
    /// to play and the stream has failed.
    pub open spec fn took_over(
        &self,
        before: &DirectDsdSource,
        staged: StagedDsdSource,
        r: ProducerStep,
    ) -> bool {
        let i = before.next_slot as int;
        let slot = before.slot();
        &&& self.keeps_rest(before)
        &&& if staged.reader.pos() == staged.reader.total() {
            &&& r == ProducerStep::Failed
            &&& self.ring() == with_slot(
                RingView { failed: true, stage_pending: false, ..before.ring() },
                i,
                freed(reserved(slot, staged.reader.max_len())),
            )
            &&& self.reader == before.reader
            &&& self.next_slot == before.next_slot
        } else {
            &&& r == ProducerStep::Installed
            &&& self.ring() == with_slot(
                RingView { finished: false, stage_pending: false, ..before.ring() },
                i,
                installed(slot, staged, before.wire_bit_order),
            )
            &&& self.reader.same_file(&staged.reader)
            &&& self.reader.pos() == staged.reader.pos() + staged.reader.next_count()
            &&& self.next_slot == before.following_slot()
        }
    }

    /// The source with its next slot claimed and nothing staged.
    pub open spec fn claiming(&self, step: &DirectDsdSource) -> bool {
        &&& step.ring() == with_slot(self.ring(), self.next_slot as int, claimed(self.slot()))
        &&& step.next_slot == self.next_slot
        &&& step.reader == self.reader
        &&& step.wire_bit_order == self.wire_bit_order
        &&& step.format == self.format
        &&& step.monitor.bit_rate == self.monitor.bit_rate
    }

    /// What a step of production does.
    pub open spec fn produced(&self, before: &DirectDsdSource, r: ProducerStep) -> bool {
        let i = before.next_slot as int;
        let slot = before.slot();
        let reader = before.reader;
        let count = reader.next_count();
        let unchanged = self.ring() == before.ring() && self.reader
            == reader && self.staged == before.staged && self.next_slot
            == before.next_slot;
        if before.ring().failed {
            r == ProducerStep::WaitFailed && unchanged
        } else if before.ring().finished && before.staged is None {
            r == ProducerStep::WaitFinished && unchanged
        } else if slot.state != SlotState::Free {
            r == ProducerStep::WaitSlot && unchanged
        } else if before.ring().finished {
            &&& self.staged is None
            &&& exists|step: DirectDsdSource| #[trigger]
                before.claiming(&step) && self.took_over(
                    &step,
                    before.staged->0,
                    r,
                )
        } else if reader.pos() == reader.total() {
            &&& r == ProducerStep::AtEnd
            &&& self.ring() == with_slot(before.ring(), i, claimed(slot))
            &&& self.reader.same_file(&reader)
            &&& self.reader.pos() == reader.pos()
            &&& self.staged == before.staged
            &&& self.next_slot == before.next_slot
        } else if slot.buffer.len() < count * reader.ch() {
            &&& r == ProducerStep::Failed
            &&& self.ring() == (RingView { failed: true, ..before.ring() })
            &&& self.reader.same_file(&reader)
            &&& self.reader.pos() == reader.pos()
            &&& self.staged == before.staged
            &&& self.next_slot == before.next_slot
        } else {
            &&& r == ProducerStep::Filled
            &&& self.ring() == with_slot(
                before.ring(),
                i,
                filled(slot, reader, before.wire_bit_order),
            )
            &&& self.reader.same_file(&reader)
            &&& self.reader.pos() == reader.pos() + count
            &&& self.staged == before.staged
            &&& self.next_slot == before.following_slot()
        }
    }

    /// One step of production, after commands and prepared sources were taken in.
    pub fn produce(&mut self) -> (r: ProducerStep)
        requires
            old(self).wf(),
        ensures
            final(self).wf(),
            final(self).keeps_rest(old(self)),
            final(self).produced(old(self), r),
    {
        if self.monitor.ring.failed {
            return ProducerStep::WaitFailed;
        }
        let index: usize = self.next_slot;
        if self.monitor.ring.finished {
            if self.staged.is_none() {
                return ProducerStep::WaitFinished;
            }
            if self.monitor.ring.slots[index].state != SlotState::Free {
                return ProducerStep::WaitSlot;
            }
            let ghost slot = self.slot();
            match self.staged.take() {
                Some(candidate) => {
                    self.monitor.ring.slots[index].state = SlotState::Filling;
                    let ghost step = *self;
                    proof {
                        assert(self.ring().slots =~= old(self).ring().slots.update(
                            index as int,
                            claimed(slot),
                        ));
                        assert(self.ring() =~= with_slot(
                            old(self).ring(),
                            index as int,
                            claimed(slot),
                        ));
                        assert(old(self).claiming(&step));
                    }
                    return self.install(candidate);
                },
                None => {
                    return ProducerStep::WaitFinished;
                },
            }
        }
        if self.monitor.ring.slots[index].state != SlotState::Free {
            return ProducerStep::WaitSlot;
        }
        match fill_slot(&mut self.reader, &mut self.monitor.ring, index, self.wire_bit_order) {
            Ok(Some(())) => {
                self.next_slot = (index + 1) % self.monitor.ring.slots.len();
                ProducerStep::Filled
            },
            Ok(None) => ProducerStep::AtEnd,
            Err(_) => {
                self.monitor.ring.failed = true;
                ProducerStep::Failed
            },
        }
    }

    /// What settling the end of a source does.
    pub open spec fn ended(&self, before: &DirectDsdSource, r: ProducerStep) -> bool {
        &&& self.staged is None
        &&& match before.staged {
            Some(staged) => self.took_over(before, staged, r),
            None => {
                &&& r == ProducerStep::Ended
                &&& self.ring() == with_slot(
                    RingView { finished: true, ..before.ring() },
                    before.next_slot as int,
                    freed(before.slot()),
                )
                &&& self.reader == before.reader
                &&& self.next_slot == before.next_slot
            },
        }
    }

    /// Settles what follows the end of the source, with its next slot claimed:
    /// the staged source takes over, or the source has finished.
    pub fn end_of_source(&mut self) -> (r: ProducerStep)
        requires
            old(self).wf(),
            old(self).slot().state == SlotState::Filling,
        ensures
            final(self).wf(),
            final(self).keeps_rest(old(self)),
            final(self).ended(old(self), r),
    {
        let index: usize = self.next_slot;
        let ghost before = self.ring();
        let ghost slot = self.slot();
        match self.staged.take() {
            Some(candidate) => self.install(candidate),
            None => {
                self.monitor.ring.slots[index].state = SlotState::Free;
                self.monitor.ring.finished = true;
                proof {
                    assert(self.ring().slots =~= before.slots.update(index as int, freed(slot)));
                    assert(self.ring() =~= with_slot(
                        RingView { finished: true, ..before },
                        index as int,
                        freed(slot),
                    ));
                }
                ProducerStep::Ended
            },
        }
    }
}

/// Blocks read one after the other hold the stream without a gap or an overlap.
pub proof fn law_consecutive_blocks_join(
    reader: DirectDsdReader,
    from: int,
    first: int,
    second: int,
)
    requires
        reader.wf(),
        0 <= first,
        first % 4 == 0,
        0 <= second,
    ensures
        reader.payload(from, first) + reader.payload(from + first, second) == reader.payload(
            from,
            first + second,
        ),
{
    reader.lemma_channels();
    super::repack::law_l4r4_joins(
        |c: int, i: int| reader.channel_byte(c, i),
        reader.ch(),
        from,
        first,
        second,
    );
}

/// The block that follows the last one of a source is the staged source's first,
/// bit for bit, and it alone carries the boundary.
pub proof fn law_staged_source_follows_without_a_gap(
    before: DirectDsdSource,
    after: DirectDsdSource,
    staged: StagedDsdSource,
)
    requires
        before.wf(),
        staged.wf(),
        before.staged == Some(staged),
        before.slot().state == SlotState::Filling,
        staged.reader.pos() < staged.reader.total(),
        after.took_over(&before, staged, ProducerStep::Installed),
    ensures
        ({
            let i = before.next_slot as int;
            let slot = after.ring().slots[i];
            &&& slot.state == SlotState::Ready
            &&& slot.payload() == super::repack::adapted(
                staged.reader.payload(staged.reader.pos(), staged.reader.next_count()),
                staged.format.bit_order,
                before.wire_bit_order,
            )
            &&& slot.boundary && slot.boundary_generation == staged.generation
                && slot.boundary_duration_micros == staged.duration_micros
            &&& forall|k: int|
                0 <= k < before.ring().slots.len() && k != i ==> #[trigger] after.ring().slots[k]
                    == before.ring().slots[k]
        }),
{
    staged.reader.lemma_channels();
    staged.reader.lemma_next_fits();
    let i = before.next_slot as int;
    assert(after.ring().slots[i].payload() =~= super::repack::adapted(
        staged.reader.payload(staged.reader.pos(), staged.reader.next_count()),
        staged.format.bit_order,
        before.wire_bit_order,
    ));
}

/// What was being prepared when the staged source was cancelled never becomes
/// the staged source.
pub proof fn law_cancelled_preparation_is_outdated(epoch: u64)
    ensures
        counter_sum(epoch, 1) != epoch,
{
}

/// A source that was moved tells where it stands: at the 32-bit group of the bit
/// that was asked for. Nothing of the old place is left in the ring, and what the
/// device pulls until the new blocks come is silence, for 80 milliseconds.
pub proof fn law_a_moved_source_tells_where_it_stands(
    before: DirectDsdSource,
    after: DirectDsdSource,
    r: Result<u64, DirectDsdError>,
    requested_bits: u64,
    now_ms: u64,
)
    requires
        before.wf(),
        before.reader.total() % 4 == 0,
        8 * before.reader.total() <= u64::MAX,
        now_ms <= u64::MAX - 80,
        after.moved_from(&before, r, requested_bits, now_ms),
    ensures
        r matches Ok(bits) ==> {
            &&& bits % 32 == 0
            &&& bits <= requested_bits < bits + 32
            &&& after.ring().slots[0].state == SlotState::Ready
        },
        requested_bits >= 8 * before.reader.total() ==> r is Err,
        r is Err ==> after.ring().failed,
        after.ring().consumed_bits_per_channel == 0,
        after.ring().in_flight is None,
        !after.ring().finished && !after.ring().drain_requested,
        after.ring().pre_mute_until_ms == now_ms + 80,
        after.active_format == before.active_format,
        after.staged == before.staged,
        after.reader.same_file(&before.reader),
        before.ring().slots.len() > 1 ==> after.next_slot == 1,
        forall|k: int|
            0 < k < after.ring().slots.len() ==> (#[trigger] after.ring().slots[k]).state
                == SlotState::Free,
{
    let total = before.reader.total();
    super::reader::law_seek_lands_on_the_group_of_the_bit(requested_bits as int, total);
    let n = before.ring().slots.len();
    if n > 1 {
        vstd::arithmetic::div_mod::lemma_small_mod(1, n);
    }
}

/// A producer fills free slots in turn and no others. It stands still while the
/// ring has failed, while it is at its end with nothing staged, and while the next
/// slot is still the device's.
pub proof fn law_a_producer_fills_free_slots_in_turn(
    before: DirectDsdSource,
    after: DirectDsdSource,
    r: ProducerStep,
)
    requires
        before.wf(),
        after.produced(&before, r),
    ensures
        r == ProducerStep::WaitFailed <==> before.ring().failed,
        before.ring().failed || before.slot().state != SlotState::Free || (before.ring().finished
            && before.staged is None) ==> after.ring() == before.ring() && after.next_slot
            == before.next_slot && after.reader == before.reader,
        r == ProducerStep::Filled || r == ProducerStep::Installed ==> {
            &&& before.slot().state == SlotState::Free
            &&& after.ring().slots[before.next_slot as int].state == SlotState::Ready
            &&& after.next_slot == if before.next_slot + 1 == before.ring().slots.len() {
                0
            } else {
                before.next_slot + 1
            }
        },
        r == ProducerStep::Filled ==> after.reader.pos() > before.reader.pos(),
        r == ProducerStep::AtEnd ==> before.reader.pos() == before.reader.total(),
        forall|k: int|
            0 <= k < before.ring().slots.len() && k != before.next_slot
                ==> #[trigger] after.ring().slots[k] == before.ring().slots[k],
{
    let n = before.ring().slots.len() as int;
    let i = before.next_slot as int;
    before.reader.lemma_channels();
    if i + 1 == n {
        assert((i + 1) % n == 0) by (nonlinear_arith)
            requires
                i + 1 == n,
                0 < n,
        ;
    } else {
        vstd::arithmetic::div_mod::lemma_small_mod((i + 1) as nat, n as nat);
    }
}

/// A ring that awaits another source is empty and has room for its blocks. Its
/// first slot will carry the boundary to a new generation; until it comes the
/// device gets silence, for 80 milliseconds.
pub proof fn law_an_awaiting_ring_is_empty(
    ring: RingView,
    max_len: int,
    duration_micros: u64,
    now_ms: u64,
)
    requires
        ring.wf(),
        0 <= max_len,
        now_ms <= u64::MAX - 80,
        ring.boundary_generation < u64::MAX,
    ensures
        ({
            let empty = awaiting_source(ring, max_len, duration_micros, now_ms);
            &&& empty.slots.len() == ring.slots.len()
            &&& forall|k: int|
                0 <= k < empty.slots.len() ==> (#[trigger] empty.slots[k]).state == SlotState::Free
                    && empty.slots[k].buffer.len() >= max_len && empty.slots[k].boundary == (k
                    == 0)
            &&& empty.slots[0].boundary_generation == ring.boundary_generation + 1
            &&& empty.slots[0].boundary_duration_micros == duration_micros
            &&& empty.pre_mute_until_ms == now_ms + 80
            &&& empty.consumed_bits_per_channel == 0
            &&& !empty.finished && !empty.failed
        }),
{
}

/// A source that ends with nothing staged ends the stream; its slot is free again
/// and the reader stays.
pub proof fn law_an_ended_source_ends_the_stream(
    before: DirectDsdSource,
    after: DirectDsdSource,
    r: ProducerStep,
)
    requires
        before.wf(),
        before.staged is None,
        after.ended(&before, r),
    ensures
        r == ProducerStep::Ended,
        after.ring().finished,
        after.ring().failed == before.ring().failed,
        after.ring().slots[before.next_slot as int].state == SlotState::Free,
        after.reader == before.reader,
{
}

/// What changes nothing but the ring leaves the format, the wire, the reader, what is
/// staged and the next slot.
pub proof fn law_all_but_the_ring_is_kept(before: DirectDsdSource, after: DirectDsdSource)
    requires
        after.keeps_all_but_ring(&before),
    ensures
        after.format == before.format,
        after.wire_bit_order == before.wire_bit_order,
        after.monitor.bit_rate == before.monitor.bit_rate,
        after.reader == before.reader,
        after.active_format == before.active_format,
        after.staged == before.staged,
        after.next_slot == before.next_slot,
{
}

} // verus!
