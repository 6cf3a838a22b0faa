//! What a whole run of a PCM source comes to: the blocks that the device gets are
//! the decoded frames, one by one and in order, across sources that follow each
//! other.

use vstd::prelude::*;

use super::producer::{slot_after, DirectPcmSource, PcmStep, StagedPcmSource};
use super::ring::{
    DirectPcmBlock, PcmFrame, PcmPayload, PcmRingView, PcmSlotView, DIRECT_RING_DEPTH,
};
use super::DirectPcmError;
use crate::direct_dsd::ring::{counter_sum, SlotState, PRE_MUTE_WINDOW_MS};

verus! {

/// A frame as it is played: its bytes, its samples of each channel, and whether a
/// source that follows another begins with it.
#[verifier::ext_equal]
pub struct PcmPart {
    pub bytes: Seq<u8>,
    pub frames: usize,
    pub first: bool,
}

/// The part that a frame is.
pub open spec fn part_of(frame: PcmFrame, first: bool) -> PcmPart {
    PcmPart { bytes: frame.payload@, frames: frame.frames, first }
}

/// Samples of each channel from the beginning of the last source on.
pub open spec fn position_after(parts: Seq<PcmPart>) -> int
    decreases parts.len(),
{
    if parts.len() == 0 {
        0
    } else if parts.last().first {
        parts.last().frames as int
    } else {
        position_after(parts.drop_last()) + parts.last().frames
    }
}

/// What happens to a source that plays: it may be followed by others, and is not
/// moved, replaced or faded out.
pub enum PcmPlayEvent {
    /// A step of production.
    Produce(PcmStep),
    /// The answer of the decoder for the claimed slot.
    Decoded(Result<Option<PcmFrame>, DirectPcmError>, PcmStep),
    /// Another source is staged, or none any more.
    Stage,
    /// The device asks for a block at a time.
    Pull(u64, Option<DirectPcmBlock>),
    /// The device gives its block back.
    Release,
}

/// Whether an event leads from one state of a source to another.
pub open spec fn plays_on(
    before: DirectPcmSource,
    event: PcmPlayEvent,
    after: DirectPcmSource,
) -> bool {
    match event {
        PcmPlayEvent::Produce(r) => {
            &&& after.wf()
            &&& after.produced(&before, r)
        },
        PcmPlayEvent::Decoded(outcome, r) => {
            &&& before.slot().state == SlotState::Filling
            &&& after.wf()
            &&& after.took_in(&before, outcome, r)
        },
        PcmPlayEvent::Stage => {
            &&& after.wf()
            &&& after.ring() == before.ring()
            &&& after.next_slot == before.next_slot
        },
        PcmPlayEvent::Pull(now_ms, block) => {
            let (pulled, given) = before.ring().released().pulled(now_ms);
            &&& after.keeps_all_but_ring(&before)
            &&& block == given
            &&& after.ring() == match given {
                Some(b) => pulled.faded(b),
                None => pulled,
            }
        },
        PcmPlayEvent::Release => {
            &&& after.keeps_all_but_ring(&before)
            &&& after.ring() == before.ring().released()
        },
    }
}

/// Whether an event is an answer of the decoder that breaks the stream.
pub open spec fn breaks(event: PcmPlayEvent) -> bool {
    event matches PcmPlayEvent::Decoded(_, r) && (r == PcmStep::Failed || r == PcmStep::Stopped)
}

/// Whether event `i` of a row leads from one state to the next.
pub open spec fn plays_at(
    states: Seq<DirectPcmSource>,
    events: Seq<PcmPlayEvent>,
    i: int,
) -> bool {
    plays_on(states[i], events[i], states[i + 1])
}

/// Whether events follow each other: the source before each and after the last.
pub open spec fn is_playing(states: Seq<DirectPcmSource>, events: Seq<PcmPlayEvent>) -> bool {
    &&& states.len() == events.len() + 1
    &&& forall|i: int| 0 <= i < events.len() ==> #[trigger] plays_at(states, events, i)
}

/// The parts that come in with an event: a decoded frame, or the first frame of
/// the source that takes over.
pub open spec fn taken_with(before: DirectPcmSource, event: PcmPlayEvent) -> Seq<PcmPart> {
    match event {
        PcmPlayEvent::Produce(PcmStep::Installed) => {
            seq![part_of(before.staged->0.first_frame, true)]
        },
        PcmPlayEvent::Decoded(_, PcmStep::Installed) => {
            seq![part_of(before.staged->0.first_frame, true)]
        },
        PcmPlayEvent::Decoded(Ok(Some(frame)), PcmStep::Filled) => seq![part_of(frame, false)],
        _ => Seq::empty(),
    }
}

/// The parts that came in with a row of events, behind the one at its start.
pub open spec fn taken(
    start: PcmPart,
    states: Seq<DirectPcmSource>,
    events: Seq<PcmPlayEvent>,
) -> Seq<PcmPart>
    decreases events.len(),
{
    if events.len() == 0 {
        seq![start]
    } else {
        taken(start, states.drop_last(), events.drop_last()) + taken_with(
            states[events.len() - 1],
            events.last(),
        )
    }
}

/// The block of the source that the device gets with an event: silence that covers
/// a gap is none.
pub open spec fn given_with(event: PcmPlayEvent, after: DirectPcmSource) -> Seq<Seq<u8>> {
    match event {
        PcmPlayEvent::Pull(_, Some(block)) => if block.slot is Some {
            seq![after.ring().bytes(block)]
        } else {
            Seq::empty()
        },
        _ => Seq::empty(),
    }
}

/// The blocks of the source that the device got with a row of events, in order.
pub open spec fn handed_out(
    states: Seq<DirectPcmSource>,
    events: Seq<PcmPlayEvent>,
) -> Seq<Seq<u8>>
    decreases events.len(),
{
    if events.len() == 0 {
        Seq::empty()
    } else {
        handed_out(states.drop_last(), events.drop_last()) + given_with(
            events.last(),
            states[events.len() as int],
        )
    }
}

/// Samples of each channel in the block that the device holds.
pub open spec fn held_frames(ring: PcmRingView) -> int {
    match ring.in_flight {
        Some(i) => ring.slots[i as int].sample_frames as int,
        None => 0,
    }
}

/// Whether a slot holds a part to be played.
pub open spec fn holds_part(slot: PcmSlotView, part: PcmPart) -> bool {
    &&& slot.state == SlotState::Ready
    &&& slot.payload == PcmPayload::Frame
    &&& slot.payload_len == part.bytes.len()
    &&& slot.bytes() == part.bytes
    &&& slot.sample_frames == part.frames
    &&& slot.boundary == part.first
}

/// Whether a source stands at a beginning: one part waits, and nothing was played.
pub open spec fn stands_at_start(source: DirectPcmSource, start: PcmPart) -> bool {
    let ring = source.ring();
    &&& source.wf()
    &&& source.next_slot == 1
    &&& ring.consumer_index == 0
    &&& ring.in_flight is None
    &&& ring.consumed_frames == 0
    &&& !ring.fade.active()
    &&& !ring.failed
    &&& !ring.finished
    &&& holds_part(ring.slots[0], start)
    &&& forall|i: int|
        1 <= i < DIRECT_RING_DEPTH ==> (#[trigger] ring.slots[i]).state == SlotState::Free
            && !ring.slots[i].boundary
}

/// The slot `j` places behind another.
spec fn behind(c: int, j: int) -> int {
    if c + j < DIRECT_RING_DEPTH {
        c + j
    } else {
        c + j - DIRECT_RING_DEPTH
    }
}

/// Whether the slot `j` places behind the one to be pulled is in order: it waits
/// with its part, is in the hands of the device, or is free.
spec fn slot_in_order(ring: PcmRingView, parts: Seq<PcmPart>, done: int, j: int) -> bool {
    let queue = parts.len() - done;
    let slot = ring.slots[behind(ring.consumer_index as int, j)];
    if j < queue {
        holds_part(slot, parts[done + j])
    } else if j == DIRECT_RING_DEPTH - 1 && ring.in_flight is Some {
        slot.state == SlotState::InFlight && !slot.boundary
    } else {
        !slot.boundary && (slot.state == SlotState::Free || j == queue && slot.state
            == SlotState::Filling)
    }
}

/// The order of a ring that plays, `done` of its parts having been handed out.
spec fn in_order(ring: PcmRingView, next_slot: int, parts: Seq<PcmPart>, done: int) -> bool {
    let c = ring.consumer_index as int;
    let queue = parts.len() - done;
    &&& ring.wf()
    &&& !ring.fade.active()
    &&& 0 <= done <= parts.len()
    &&& queue <= DIRECT_RING_DEPTH
    &&& next_slot == behind(c, queue)
    &&& (ring.in_flight matches Some(i) ==> i == behind(c, DIRECT_RING_DEPTH - 1) && queue
        < DIRECT_RING_DEPTH)
    &&& held_frames(ring) <= position_after(parts.take(done))
    &&& ring.consumed_frames == counter_sum(
        0,
        position_after(parts.take(done)) - held_frames(ring),
    )
    &&& forall|j: int| 0 <= j < DIRECT_RING_DEPTH ==> #[trigger] slot_in_order(ring, parts, done, j)
}

/// Whether parts can be played: none is empty.
pub open spec fn playable(parts: Seq<PcmPart>) -> bool {
    forall|i: int| 0 <= i < parts.len() ==> (#[trigger] parts[i]).bytes.len() > 0
}

proof fn lemma_release_in_order(ring: PcmRingView, next_slot: int, parts: Seq<PcmPart>, done: int)
    requires
        in_order(ring, next_slot, parts, done),
        playable(parts),
    ensures
        in_order(ring.released(), next_slot, parts, done),
        ring.released().in_flight is None,
        ring.released().failed == ring.failed,
{
    let after = ring.released();
    if let Some(i) = ring.in_flight {
        assert(slot_in_order(ring, parts, done, DIRECT_RING_DEPTH - 1));
        assert forall|k: int| 0 <= k < DIRECT_RING_DEPTH implies (#[trigger] after.slots[k]).wf() by {
            assert(ring.slots[k].wf());
        }
        assert forall|j: int| 0 <= j < DIRECT_RING_DEPTH implies #[trigger] slot_in_order(
            after,
            parts,
            done,
            j,
        ) by {
            assert(slot_in_order(ring, parts, done, j));
        }
    }
}

/// One more part counts from the last beginning on.
proof fn lemma_position_grows(parts: Seq<PcmPart>, done: int)
    requires
        0 <= done < parts.len(),
    ensures
        position_after(parts.take(done + 1)) == if parts[done].first {
            parts[done].frames as int
        } else {
            position_after(parts.take(done)) + parts[done].frames
        },
{
    assert(parts.take(done + 1).drop_last() =~= parts.take(done));
}

proof fn lemma_deliver_in_order(ring: PcmRingView, next_slot: int, parts: Seq<PcmPart>, done: int)
    requires
        in_order(ring, next_slot, parts, done),
        ring.in_flight is None,
        done < parts.len(),
    ensures
        in_order(ring.delivered(), next_slot, parts, done + 1),
        ring.delivered().slots[ring.consumer_index as int].bytes() == parts[done].bytes,
{
    let after = ring.delivered();
    let c = ring.consumer_index as int;
    assert(slot_in_order(ring, parts, done, 0));
    assert(behind(c, 0) == c);
    assert(after.consumer_index == behind(c, 1));
    assert(behind(behind(c, 1), DIRECT_RING_DEPTH - 1) == c);
    lemma_position_grows(parts, done);
    assert forall|k: int| 0 <= k < DIRECT_RING_DEPTH implies (#[trigger] after.slots[k]).wf() by {
        assert(ring.slots[k].wf());
    }
    assert forall|j: int| 0 <= j < DIRECT_RING_DEPTH implies #[trigger] slot_in_order(
        after,
        parts,
        done + 1,
        j,
    ) by {
        if j < DIRECT_RING_DEPTH - 1 {
            assert(slot_in_order(ring, parts, done, j + 1));
            assert(behind(behind(c, 1), j) == behind(c, j + 1));
            assert(behind(c, j + 1) != c);
        }
    }
}

proof fn lemma_pull_in_order(
    ring: PcmRingView,
    next_slot: int,
    parts: Seq<PcmPart>,
    done: int,
    now_ms: u64,
) -> (more: int)
    requires
        in_order(ring, next_slot, parts, done),
        ring.in_flight is None,
        playable(parts),
    ensures
        in_order(ring.pulled(now_ms).0, next_slot, parts, more),
        ({
            let (after, block) = ring.pulled(now_ms);
            if block matches Some(b) && b.slot is Some {
                &&& more == done + 1
                &&& done < parts.len()
                &&& after.bytes(block->0) == parts[done].bytes
            } else {
                more == done
            }
        }),
        ring.pulled(now_ms).0.failed == ring.failed,
{
    let (after, block) = ring.pulled(now_ms);
    let c = ring.consumer_index as int;
    let queue = parts.len() - done;
    assert(slot_in_order(ring, parts, done, 0));
    assert(behind(c, 0) == c);
    assert forall|k: int| 0 <= k < DIRECT_RING_DEPTH implies (#[trigger] after.slots[k]).wf() by {
        assert(ring.slots[k].wf());
    }
    if !ring.failed && ring.next_slot().state == SlotState::Ready {
        assert(queue > 0);
        assert(parts[done].bytes.len() > 0);
        lemma_deliver_in_order(ring, next_slot, parts, done);
        assert(after == ring.delivered());
        done + 1
    } else {
        assert(after.pre_mute_buf.len() == 0 || after.pre_mute_buf =~= super::ring::zeros(
            after.pre_mute_buf.len() as int,
        ));
        assert forall|j: int| 0 <= j < DIRECT_RING_DEPTH implies #[trigger] slot_in_order(
            after,
            parts,
            done,
            j,
        ) by {
            assert(slot_in_order(ring, parts, done, j));
        }
        done
    }
}

/// A slot that is claimed for production is in its turn.
proof fn lemma_turn_in_order(
    ring: PcmRingView,
    out: PcmRingView,
    next_slot: int,
    parts: Seq<PcmPart>,
    done: int,
)
    requires
        in_order(ring, next_slot, parts, done),
        out.slots == ring.slots.update(next_slot, out.slots[next_slot]),
        out.slots[next_slot] == ring.slots[next_slot].turned(out.slots[next_slot].state),
        out.slots[next_slot].state == SlotState::Free || out.slots[next_slot].state
            == SlotState::Filling,
        ring.slots[next_slot].state == SlotState::Free || ring.slots[next_slot].state
            == SlotState::Filling,
        out.consumer_index == ring.consumer_index,
        out.in_flight == ring.in_flight,
        out.consumed_frames == ring.consumed_frames,
        out.fade == ring.fade,
        out.wf(),
    ensures
        in_order(out, next_slot, parts, done),
{
    let c = ring.consumer_index as int;
    let queue = parts.len() - done;
    lemma_next_is_behind(ring, next_slot, parts, done);
    assert forall|j: int| 0 <= j < DIRECT_RING_DEPTH implies #[trigger] slot_in_order(
        out,
        parts,
        done,
        j,
    ) by {
        assert(slot_in_order(ring, parts, done, j));
        if j != queue {
            assert(behind(c, j) != next_slot);
        }
    }
}

/// Where the next slot is not waiting, the queue ends before it.
proof fn lemma_next_is_behind(ring: PcmRingView, next_slot: int, parts: Seq<PcmPart>, done: int)
    requires
        in_order(ring, next_slot, parts, done),
        ring.slots[next_slot].state == SlotState::Free || ring.slots[next_slot].state
            == SlotState::Filling,
    ensures
        parts.len() - done < DIRECT_RING_DEPTH,
        !ring.slots[next_slot].boundary,
        ring.in_flight is Some ==> ring.in_flight->0 != next_slot,
{
    let c = ring.consumer_index as int;
    let queue = parts.len() - done;
    assert(slot_in_order(ring, parts, done, 0));
    if queue == DIRECT_RING_DEPTH {
        assert(behind(c, queue) == behind(c, 0));
    } else {
        assert(slot_in_order(ring, parts, done, queue));
    }
}

proof fn lemma_fill_in_order(
    ring: PcmRingView,
    out: PcmRingView,
    next_slot: int,
    parts: Seq<PcmPart>,
    done: int,
    part: PcmPart,
)
    requires
        in_order(ring, next_slot, parts, done),
        ring.slots[next_slot].state == SlotState::Free || ring.slots[next_slot].state
            == SlotState::Filling,
        out.slots == ring.slots.update(next_slot, out.slots[next_slot]),
        holds_part(out.slots[next_slot], part),
        out.consumer_index == ring.consumer_index,
        out.in_flight == ring.in_flight,
        out.consumed_frames == ring.consumed_frames,
        out.fade == ring.fade,
        out.wf(),
    ensures
        in_order(out, slot_after(next_slot), parts.push(part), done),
{
    let c = ring.consumer_index as int;
    let queue = parts.len() - done;
    let more = parts.push(part);
    lemma_next_is_behind(ring, next_slot, parts, done);
    assert(more.take(done) =~= parts.take(done));
    assert(slot_after(next_slot) == behind(c, queue + 1));
    assert(slot_in_order(ring, parts, done, queue));
    assert forall|j: int| 0 <= j < DIRECT_RING_DEPTH implies #[trigger] slot_in_order(
        out,
        more,
        done,
        j,
    ) by {
        assert(slot_in_order(ring, parts, done, j));
        if j != queue {
            assert(behind(c, j) != next_slot);
        }
    }
}

/// Whether a source that plays is in order, with the blocks it has handed out.
spec fn source_in_order(
    source: DirectPcmSource,
    parts: Seq<PcmPart>,
    out: Seq<Seq<u8>>,
) -> bool {
    &&& source.wf()
    &&& in_order(source.ring(), source.next_slot as int, parts, out.len() as int)
    &&& forall|i: int| 0 <= i < out.len() ==> #[trigger] out[i] == parts[i].bytes
}

proof fn lemma_installed_in_order(
    before: DirectPcmSource,
    after: DirectPcmSource,
    staged: StagedPcmSource,
    parts: Seq<PcmPart>,
    done: int,
)
    requires
        in_order(before.ring(), before.next_slot as int, parts, done),
        before.slot().state == SlotState::Free || before.slot().state == SlotState::Filling,
        after.wf(),
        after.took_over(before.ring(), before.next_slot, staged),
    ensures
        in_order(
            after.ring(),
            after.next_slot as int,
            parts.push(part_of(staged.first_frame, true)),
            done,
        ),
{
    let slot = after.ring().slots[before.next_slot as int];
    assert(staged.first_frame.payload.len() == staged.first_frame.payload@.len());
    assert(slot.bytes() =~= staged.first_frame.payload@);
    lemma_fill_in_order(
        before.ring(),
        after.ring(),
        before.next_slot as int,
        parts,
        done,
        part_of(staged.first_frame, true),
    );
}

proof fn lemma_event_in_order(
    before: DirectPcmSource,
    event: PcmPlayEvent,
    after: DirectPcmSource,
    parts: Seq<PcmPart>,
    out: Seq<Seq<u8>>,
)
    requires
        before.wf(),
        source_in_order(before, parts, out),
        playable(parts),
        plays_on(before, event, after),
    ensures
        source_in_order(after, parts + taken_with(before, event), out + given_with(event, after)),
        after.ring().failed ==> before.ring().failed || breaks(event),
{
    let ring = before.ring();
    let p = before.next_slot as int;
    let done = out.len() as int;
    assert(parts + Seq::<PcmPart>::empty() =~= parts);
    assert(out + Seq::<Seq<u8>>::empty() =~= out);
    match event {
        PcmPlayEvent::Produce(r) => {
            if r == PcmStep::Installed {
                let staged = before.staged->0;
                let part = part_of(staged.first_frame, true);
                lemma_installed_in_order(before, after, staged, parts, done);
                assert(parts + seq![part] =~= parts.push(part));
            } else if r == PcmStep::Decode {
                lemma_turn_in_order(ring, after.ring(), p, parts, done);
            }
        },
        PcmPlayEvent::Decoded(outcome, r) => {
            if r == PcmStep::Installed {
                let staged = before.staged->0;
                let part = part_of(staged.first_frame, true);
                lemma_installed_in_order(before, after, staged, parts, done);
                assert(parts + seq![part] =~= parts.push(part));
            } else if r == PcmStep::Filled {
                let frame = outcome->Ok_0->0;
                let part = part_of(frame, false);
                lemma_next_is_behind(ring, p, parts, done);
                assert(frame.payload.len() == frame.payload@.len());
                assert(after.ring().slots[p].bytes() =~= frame.payload@);
                lemma_fill_in_order(ring, after.ring(), p, parts, done, part);
                assert(parts + seq![part] =~= parts.push(part));
            } else {
                lemma_turn_in_order(ring, after.ring(), p, parts, done);
            }
        },
        PcmPlayEvent::Stage => {},
        PcmPlayEvent::Release => {
            lemma_release_in_order(ring, p, parts, done);
        },
        PcmPlayEvent::Pull(now_ms, block) => {
            lemma_release_in_order(ring, p, parts, done);
            let more = lemma_pull_in_order(ring.released(), p, parts, done, now_ms);
            let (pulled, given) = ring.released().pulled(now_ms);
            if let Some(b) = given {
                assert(pulled.faded(b) =~= pulled);
            }
        },
    }
}

proof fn lemma_start_in_order(source: DirectPcmSource, start: PcmPart)
    requires
        stands_at_start(source, start),
    ensures
        source_in_order(source, seq![start], Seq::empty()),
{
    let ring = source.ring();
    let parts = seq![start];
    assert(parts.take(0) =~= Seq::<PcmPart>::empty());
    assert forall|j: int| 0 <= j < DIRECT_RING_DEPTH implies #[trigger] slot_in_order(
        ring,
        parts,
        0,
        j,
    ) by {
        assert(behind(0, j) == j);
    }
}

proof fn lemma_run_in_order(
    start: PcmPart,
    states: Seq<DirectPcmSource>,
    events: Seq<PcmPlayEvent>,
)
    requires
        is_playing(states, events),
        stands_at_start(states[0], start),
        playable(taken(start, states, events)),
    ensures
        source_in_order(
            states.last(),
            taken(start, states, events),
            handed_out(states, events),
        ),
        states.last().ring().failed ==> exists|i: int|
            0 <= i < events.len() && breaks(#[trigger] events[i]),
    decreases events.len(),
{
    if events.len() == 0 {
        lemma_start_in_order(states[0], start);
    } else {
        let n = events.len() as int;
        let fewer = events.drop_last();
        let earlier = states.drop_last();
        let parts = taken(start, earlier, fewer);
        let all = taken(start, states, events);
        assert forall|i: int| 0 <= i < fewer.len() implies #[trigger] plays_at(
            earlier,
            fewer,
            i,
        ) by {
            assert(plays_at(states, events, i));
        }
        assert(playable(parts)) by {
            assert forall|i: int| 0 <= i < parts.len() implies (#[trigger] parts[i]).bytes.len()
                > 0 by {
                assert(all[i] == parts[i]);
            }
        }
        lemma_run_in_order(start, earlier, fewer);
        assert(plays_at(states, events, n - 1));
        lemma_event_in_order(
            states[n - 1],
            events[n - 1],
            states[n],
            parts,
            handed_out(earlier, fewer),
        );
        if states[n].ring().failed && !breaks(events[n - 1]) {
            let i = choose|i: int| 0 <= i < fewer.len() && breaks(#[trigger] fewer[i]);
            assert(events[i] == fewer[i]);
        }
    }
}

/// A source that plays from a beginning hands out the frames that were decoded,
/// each in a block of its own, bit for bit and in order, and so across sources that
/// follow each other. Once it is played out, those were all. Its position counts
/// the samples of the source that were handed out and are no longer in the hands
/// of the device. Only the decoder's answers can break the stream.
pub proof fn law_pcm_source_hands_out_its_frames_in_order(
    start: PcmPart,
    states: Seq<DirectPcmSource>,
    events: Seq<PcmPlayEvent>,
)
    requires
        is_playing(states, events),
        stands_at_start(states[0], start),
        playable(taken(start, states, events)),
    ensures
        ({
            let parts = taken(start, states, events);
            let out = handed_out(states, events);
            let ring = states.last().ring();
            &&& out.len() <= parts.len()
            &&& forall|i: int| 0 <= i < out.len() ==> #[trigger] out[i] == parts[i].bytes
            &&& held_frames(ring) <= position_after(parts.take(out.len() as int))
            &&& ring.consumed_frames == counter_sum(
                0,
                position_after(parts.take(out.len() as int)) - held_frames(ring),
            )
            &&& ring.played_out() ==> out.len() == parts.len()
            &&& ring.failed ==> exists|i: int|
                0 <= i < events.len() && breaks(#[trigger] events[i])
        }),
{
    lemma_run_in_order(start, states, events);
    let parts = taken(start, states, events);
    let done = handed_out(states, events).len() as int;
    let ring = states.last().ring();
    if ring.played_out() {
        assert(slot_in_order(ring, parts, done, 0));
    }
}

/// A source keeps the rate by which its position counts.
pub proof fn law_pcm_source_keeps_its_rate(
    states: Seq<DirectPcmSource>,
    events: Seq<PcmPlayEvent>,
)
    requires
        is_playing(states, events),
        forall|i: int|
            0 <= i < events.len() ==> (#[trigger] states[i + 1]).keeps_rest(&states[i]),
    ensures
        states.last().monitor.sample_rate == states[0].monitor.sample_rate,
    decreases events.len(),
{
    if events.len() > 0 {
        let n = events.len() as int;
        let fewer = events.drop_last();
        let earlier = states.drop_last();
        assert forall|i: int| 0 <= i < fewer.len() implies #[trigger] plays_at(
            earlier,
            fewer,
            i,
        ) by {
            assert(plays_at(states, events, i));
        }
        assert forall|i: int| 0 <= i < fewer.len() implies (#[trigger] earlier[i + 1]).keeps_rest(
            &earlier[i],
        ) by {
            assert(states[i + 1].keeps_rest(&states[i]));
        }
        law_pcm_source_keeps_its_rate(earlier, fewer);
        assert(states[n - 1 + 1].keeps_rest(&states[n - 1]));
    }
}

/// A source that was opened with a frame stands at its beginning.
pub proof fn law_opened_pcm_stands_at_its_start(source: DirectPcmSource, frame: PcmFrame)
    requires
        source.opened_with(frame),
    ensures
        stands_at_start(source, part_of(frame, false)),
{
    assert(frame.payload.len() == frame.payload@.len());
    assert(source.ring().slots[0].bytes() =~= frame.payload@);
}

/// A source that was moved to another position plays on from the frame there, and
/// counts from there: nothing is left of what waited, of a failure or of a fade.
pub proof fn law_moved_pcm_stands_at_its_start(
    before: DirectPcmSource,
    now_ms: u64,
    awaiting: DirectPcmSource,
    after: DirectPcmSource,
    frame: PcmFrame,
)
    requires
        before.wf(),
        now_ms <= u64::MAX - PRE_MUTE_WINDOW_MS,
        awaiting.next_slot == 1,
        awaiting.ring() == DirectPcmSource::awaiting_seek(before.ring(), now_ms),
        after.wf(),
        after.keeps_all_but_ring(&awaiting),
        after.ring() == awaiting.ring().with_slot(
            0,
            awaiting.ring().slots[0].filled(frame.payload@, frame.frames),
        ),
    ensures
        stands_at_start(after, part_of(frame, false)),
{
    assert(frame.payload.len() == frame.payload@.len());
    assert(after.ring().slots[0].bytes() =~= frame.payload@);
}

/// A source that took the place of another stands at its beginning.
pub proof fn law_replaced_pcm_stands_at_its_start(
    before: DirectPcmSource,
    now_ms: u64,
    after: DirectPcmSource,
    frame: PcmFrame,
)
    requires
        before.wf(),
        after.wf(),
        after.next_slot == 1,
        after.ring() == DirectPcmSource::replaced_by(before.ring(), frame, now_ms),
    ensures
        stands_at_start(after, part_of(frame, true)),
{
    assert(frame.payload.len() == frame.payload@.len());
    assert(after.ring().slots[0].bytes() =~= frame.payload@);
}

} // verus!
