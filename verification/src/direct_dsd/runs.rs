//! What whole runs come to: all reads of a file one after the other, and all
//! blocks that a source hands to the device from its opening to its end.

use vstd::prelude::*;

use super::producer::{law_consecutive_blocks_join, started_at, DirectDsdSource, ProducerStep};
use super::reader::{seek_target, DirectDsdReader};
use super::repack::lemma_l4r4_index;
use super::ring::{counter_sum, filled, DirectDsdBlock, RingView, SlotState, SlotView};
use super::DirectDsdError;

verus! {

// ---------------------------------------------------------------------------
// Reading
// ---------------------------------------------------------------------------

/// One read: what the output held before it, what it holds after it, and what was
/// returned.
pub struct Reading {
    pub room: Seq<u8>,
    pub filled: Seq<u8>,
    pub result: Result<Option<usize>, DirectDsdError>,
}

impl Reading {
    /// The bytes that were read.
    pub open spec fn bytes(self) -> Seq<u8> {
        match self.result {
            Ok(Some(len)) => self.filled.take(len as int),
            _ => Seq::empty(),
        }
    }
}

/// Whether read `i` of a row leads from one state of the reader to the next, with
/// room for any block.
pub open spec fn reads_on(
    readers: Seq<DirectDsdReader>,
    reads: Seq<Reading>,
    i: int,
) -> bool {
    &&& readers[i + 1].wf()
    &&& readers[i + 1].same_file(&readers[i])
    &&& readers[i + 1].read_from(&readers[i], reads[i].room, reads[i].filled, reads[i].result)
    &&& readers[i].max_len() <= reads[i].room.len()
}

/// Whether reads follow each other: the reader before each and after the last.
pub open spec fn is_reading(readers: Seq<DirectDsdReader>, reads: Seq<Reading>) -> bool {
    &&& readers.len() == reads.len() + 1
    &&& readers[0].wf()
    &&& forall|i: int| 0 <= i < reads.len() ==> #[trigger] reads_on(readers, reads, i)
}

/// The bytes of reads, joined in order.
pub open spec fn joined(reads: Seq<Reading>) -> Seq<u8>
    decreases reads.len(),
{
    if reads.len() == 0 {
        Seq::empty()
    } else {
        joined(reads.drop_last()) + reads.last().bytes()
    }
}

/// Two readers on one file hand out the same bytes.
proof fn lemma_same_payload(a: DirectDsdReader, b: DirectDsdReader, from: int, count: int)
    requires
        a.same_file(&b),
    ensures
        a.payload(from, count) == b.payload(from, count),
{
    assert(a.payload(from, count) =~= b.payload(from, count));
}

proof fn lemma_reading(readers: Seq<DirectDsdReader>, reads: Seq<Reading>)
    requires
        is_reading(readers, reads),
    ensures
        ({
            let first = readers[0];
            let last = readers[reads.len() as int];
            &&& last.wf()
            &&& last.same_file(&first)
            &&& first.pos() <= last.pos() <= first.total()
            &&& (last.pos() - first.pos()) % 4 == 0
            &&& last.pos() == first.total() || 4 * reads.len() <= last.pos() - first.pos()
            &&& joined(reads) == first.payload(first.pos(), last.pos() - first.pos())
        }),
    decreases reads.len(),
{
    let first = readers[0];
    first.lemma_channels();
    first.lemma_next_aligned();
    if reads.len() == 0 {
        assert(first.payload(first.pos(), 0) =~= Seq::<u8>::empty());
    } else {
        let n = reads.len() as int;
        let fewer = reads.drop_last();
        assert forall|i: int| 0 <= i < fewer.len() implies #[trigger] reads_on(
            readers.drop_last(),
            fewer,
            i,
        ) by {
            assert(reads_on(readers, reads, i));
        }
        lemma_reading(readers.drop_last(), fewer);
        let before = readers[n - 1];
        let after = readers[n];
        assert(reads_on(readers, reads, n - 1));
        before.lemma_channels();
        before.lemma_next_fits();
        before.lemma_next_aligned();
        let done = before.pos() - first.pos();
        if before.pos() == before.total() {
            assert(joined(reads) =~= joined(fewer));
        } else {
            let count = before.next_count();
            lemma_same_payload(before, first, before.pos(), count);
            law_consecutive_blocks_join(first, first.pos(), done, count);
        }
    }
}

/// Every byte of every channel stands in what is handed out, and nothing else:
/// groups of four bytes of each channel in turn, in order.
pub proof fn law_payload_places_every_byte(
    reader: DirectDsdReader,
    from: int,
    count: int,
    group: int,
    c: int,
    j: int,
)
    requires
        reader.wf(),
        0 <= count,
        count % 4 == 0,
        0 <= group < count / 4,
        0 <= c < reader.ch(),
        0 <= j < 4,
    ensures
        reader.payload(from, count).len() == count * reader.ch(),
        reader.payload(from, count)[4 * (group * reader.ch() + c) + j] == reader.channel_byte(
            c,
            from + 4 * group + j,
        ),
{
    let ch = reader.ch();
    reader.lemma_channels();
    lemma_l4r4_index(group, c, j, ch);
    let n = 4 * (group * ch + c) + j;
    let groups = count / 4;
    assert(0 <= group * ch && group * ch + ch <= groups * ch) by (nonlinear_arith)
        requires
            0 <= group < groups,
            0 < ch,
    ;
    assert(count * ch == 4 * (groups * ch)) by (nonlinear_arith)
        requires
            count == 4 * groups,
    ;
    assert(0 <= n < count * ch);
}

/// Reading on, with room for any block, gives the stream from where the reader
/// stands: every read gives bytes until the end is reached, nothing is lost, added
/// or moved, and from then on there is nothing. The end is reached after finitely
/// many reads.
pub proof fn law_reads_give_the_whole_stream(
    readers: Seq<DirectDsdReader>,
    reads: Seq<Reading>,
)
    requires
        is_reading(readers, reads),
    ensures
        ({
            let first = readers[0];
            let last = readers.last();
            let left = first.total() - first.pos();
            &&& joined(reads) == first.payload(first.pos(), last.pos() - first.pos())
            &&& last.pos() == first.total() ==> joined(reads) == first.payload(first.pos(), left)
            &&& 4 * reads.len() >= left ==> last.pos() == first.total()
        }),
        forall|i: int|
            0 <= i < reads.len() ==> if readers[i].pos() == readers[0].total() {
                (#[trigger] reads[i]).result == Ok::<Option<usize>, DirectDsdError>(None)
            } else {
                reads[i].result matches Ok(Some(len)) && len > 0
            },
        forall|i: int, k: int|
            0 <= i <= k < reads.len() && (#[trigger] reads[i]).result == Ok::<
                Option<usize>,
                DirectDsdError,
            >(None) ==> (#[trigger] reads[k]).result == Ok::<Option<usize>, DirectDsdError>(None),
        reads.len() > 0 && reads.last().result == Ok::<Option<usize>, DirectDsdError>(None)
            ==> joined(reads) == readers[0].payload(
            readers[0].pos(),
            readers[0].total() - readers[0].pos(),
        ),
{
    lemma_reading(readers, reads);
    assert forall|i: int| 0 <= i < reads.len() implies if readers[i].pos() == readers[0].total() {
        (#[trigger] reads[i]).result == Ok::<Option<usize>, DirectDsdError>(None)
    } else {
        reads[i].result matches Ok(Some(len)) && len > 0
    } by {
        lemma_read_part(readers, reads, i);
        assert(reads_on(readers, reads, i));
        readers[i].lemma_next_fits();
    }
    assert forall|i: int, k: int|
        0 <= i <= k < reads.len() && (#[trigger] reads[i]).result == Ok::<
            Option<usize>,
            DirectDsdError,
        >(None) implies (#[trigger] reads[k]).result == Ok::<Option<usize>, DirectDsdError>(
        None,
    ) by {
        lemma_end_stays(readers, reads, i, k);
    }
    if reads.len() > 0 && reads.last().result == Ok::<Option<usize>, DirectDsdError>(None) {
        let n = reads.len() as int;
        lemma_read_part(readers, reads, n - 1);
        assert(reads_on(readers, reads, n - 1));
    }
}

/// The first `i` reads of a row are a row.
proof fn lemma_read_part(readers: Seq<DirectDsdReader>, reads: Seq<Reading>, i: int)
    requires
        is_reading(readers, reads),
        0 <= i <= reads.len(),
    ensures
        readers[i].wf(),
        readers[i].same_file(&readers[0]),
        readers[i].pos() <= readers[0].total(),
{
    assert forall|k: int| 0 <= k < i implies #[trigger] reads_on(
        readers.take(i + 1),
        reads.take(i),
        k,
    ) by {
        assert(reads_on(readers, reads, k));
    }
    lemma_reading(readers.take(i + 1), reads.take(i));
}

/// Once a reader is at its end it stays there.
proof fn lemma_end_stays(readers: Seq<DirectDsdReader>, reads: Seq<Reading>, i: int, k: int)
    requires
        is_reading(readers, reads),
        0 <= i <= k < reads.len(),
        reads[i].result == Ok::<Option<usize>, DirectDsdError>(None),
    ensures
        readers[k].pos() == readers[0].total(),
        reads[k].result == Ok::<Option<usize>, DirectDsdError>(None),
    decreases k,
{
    lemma_read_part(readers, reads, k);
    assert(reads_on(readers, reads, k));
    if i < k {
        lemma_end_stays(readers, reads, i, k - 1);
        lemma_read_part(readers, reads, k - 1);
        assert(reads_on(readers, reads, k - 1));
    }
}

/// The reads that follow a seek give every bit of every channel from the place
/// where it landed to the end, and together with what lies before that place the
/// whole stream. A seek to the end is followed by nothing.
pub proof fn law_reads_after_a_seek_give_the_tail(
    before: DirectDsdReader,
    requested_bits: u64,
    readers: Seq<DirectDsdReader>,
    reads: Seq<Reading>,
)
    requires
        before.wf(),
        is_reading(readers, reads),
        readers[0].same_file(&before),
        readers[0].pos() == seek_target(requested_bits as int, before.total()),
        reads.len() > 0,
        reads.last().result == Ok::<Option<usize>, DirectDsdError>(None),
    ensures
        ({
            let landed = seek_target(requested_bits as int, before.total());
            &&& joined(reads) == before.payload(landed, before.total() - landed)
            &&& before.payload(0, landed) + joined(reads) == before.payload(0, before.total())
            &&& landed == before.total() ==> reads[0].result == Ok::<
                Option<usize>,
                DirectDsdError,
            >(None)
        }),
{
    let landed = seek_target(requested_bits as int, before.total());
    law_reads_give_the_whole_stream(readers, reads);
    lemma_same_payload(readers[0], before, landed, before.total() - landed);
    before.lemma_channels();
    readers[0].lemma_channels();
    readers[0].lemma_next_aligned();
    law_consecutive_blocks_join(before, 0, landed, before.total() - landed);
    if landed == before.total() {
        assert(reads[0].result == Ok::<Option<usize>, DirectDsdError>(None));
    }
}

// ---------------------------------------------------------------------------
// Playing
// ---------------------------------------------------------------------------

/// What happens to a source that plays without a command.
pub enum PlayEvent {
    /// A step of production.
    Produce(ProducerStep),
    /// The end of the source is settled.
    Settle(ProducerStep),
    /// The device asks for a block.
    Pull(Option<DirectDsdBlock>),
    /// The device gives its block back.
    Release,
}

/// Whether an event leads from one state of a source to another.
pub open spec fn plays_on(
    before: DirectDsdSource,
    event: PlayEvent,
    after: DirectDsdSource,
) -> bool {
    match event {
        PlayEvent::Produce(r) => {
            &&& after.wf()
            &&& after.keeps_rest(&before)
            &&& after.produced(&before, r)
        },
        PlayEvent::Settle(r) => {
            &&& before.slot().state == SlotState::Filling
            &&& after.wf()
            &&& after.keeps_rest(&before)
            &&& after.ended(&before, r)
        },
        PlayEvent::Pull(block) => {
            let (pulled, given) = before.ring().released().pulled();
            &&& after.keeps_all_but_ring(&before)
            &&& block == given
            &&& after.ring() == match given {
                Some(b) => pulled.drained(b),
                None => pulled,
            }
        },
        PlayEvent::Release => {
            &&& after.keeps_all_but_ring(&before)
            &&& after.ring() == before.ring().released()
        },
    }
}

/// Whether event `i` of a row leads from one state to the next.
pub open spec fn plays_at(
    states: Seq<DirectDsdSource>,
    events: Seq<PlayEvent>,
    i: int,
) -> bool {
    plays_on(states[i], events[i], states[i + 1])
}

/// Whether events follow each other: the source before each and after the last.
pub open spec fn is_playing(states: Seq<DirectDsdSource>, events: Seq<PlayEvent>) -> bool {
    &&& states.len() == events.len() + 1
    &&& forall|i: int| 0 <= i < events.len() ==> #[trigger] plays_at(states, events, i)
}

/// The bytes of the source that the device gets with an event: silence of the
/// ring is none.
pub open spec fn given_with(event: PlayEvent, after: DirectDsdSource) -> Seq<u8> {
    match event {
        PlayEvent::Pull(Some(block)) => if block.slot is Some {
            after.ring().bytes(block)
        } else {
            Seq::empty()
        },
        _ => Seq::empty(),
    }
}

/// The bytes of the source that the device got with a row of events, in order.
pub open spec fn handed_out(states: Seq<DirectDsdSource>, events: Seq<PlayEvent>) -> Seq<u8>
    decreases events.len(),
{
    if events.len() == 0 {
        Seq::empty()
    } else {
        handed_out(states.drop_last(), events.drop_last()) + given_with(
            events.last(),
            states[events.len() as int],
        )
    }
}

/// Bits of each channel in the block that the device holds.
pub open spec fn held_bits(ring: RingView) -> int {
    match ring.in_flight {
        Some(i) => ring.slots[i as int].bits_per_channel as int,
        None => 0,
    }
}

/// The slot `j` places behind another, in a ring of `n`.
spec fn place(c: int, j: int, n: int) -> int {
    if c + j < n {
        c + j
    } else {
        c + j - n
    }
}

/// Whether a slot holds the bytes `from` up to `to` of each channel.
spec fn holds_part(slot: SlotView, reader: DirectDsdReader, from: int, to: int) -> bool {
    &&& slot.state == SlotState::Ready
    &&& slot.has_payload
    &&& from < to
    &&& to % 4 == 0
    &&& slot.payload_len == (to - from) * reader.ch()
    &&& slot.bits_per_channel == 8 * (to - from)
    &&& slot.payload() == reader.payload(from, to - from)
}

/// Whether the slot `j` places behind the one to be pulled is in order: it waits
/// with its part of the stream, is in the hands of the device, or is free.
spec fn slot_in_order(
    ring: RingView,
    pos: int,
    reader: DirectDsdReader,
    marks: Seq<int>,
    j: int,
) -> bool {
    let n = ring.slots.len() as int;
    let queue = marks.len() - 1;
    let slot = ring.slots[place(ring.consumer_index as int, j, n)];
    &&& reader.max_len() <= slot.buffer.len()
    &&& !slot.boundary
    &&& if j < queue {
        holds_part(slot, reader, marks[j], marks[j + 1])
    } else if j == n - 1 && ring.in_flight is Some {
        slot.state == SlotState::InFlight
    } else {
        slot.state == SlotState::Free || (j == queue && slot.state == SlotState::Filling && pos
            == reader.total())
    }
}

/// The order of a ring that plays: `marks` are the places in the stream, in bytes
/// of each channel, where the waiting blocks begin, and where the next will.
spec fn in_order(
    ring: RingView,
    next_slot: int,
    pos: int,
    reader: DirectDsdReader,
    start: int,
    marks: Seq<int>,
) -> bool {
    let n = ring.slots.len() as int;
    let c = ring.consumer_index as int;
    let queue = marks.len() - 1;
    &&& ring.wf()
    &&& 2 <= n
    &&& !ring.failed
    &&& !ring.drain_requested
    &&& 0 <= queue <= n
    &&& 0 <= start <= marks[0]
    &&& start % 4 == 0
    &&& marks[0] % 4 == 0
    &&& marks[0] <= pos <= reader.total()
    &&& pos % 4 == 0
    &&& marks[queue] == pos
    &&& next_slot == place(c, queue, n)
    &&& (ring.in_flight matches Some(i) ==> i == place(c, n - 1, n) && queue <= n - 1)
    &&& held_bits(ring) <= 8 * (marks[0] - start)
    &&& ring.consumed_bits_per_channel == counter_sum(0, 8 * (marks[0] - start) - held_bits(ring))
    &&& ring.finished ==> pos == reader.total()
    &&& forall|j: int| 0 <= j < n ==> #[trigger] slot_in_order(ring, pos, reader, marks, j)
}

proof fn lemma_release_in_order(
    ring: RingView,
    next_slot: int,
    pos: int,
    reader: DirectDsdReader,
    start: int,
    marks: Seq<int>,
)
    requires
        in_order(ring, next_slot, pos, reader, start, marks),
    ensures
        in_order(ring.released(), next_slot, pos, reader, start, marks),
        ring.released().in_flight is None,
{
    let after = ring.released();
    let n = ring.slots.len() as int;
    if let Some(i) = ring.in_flight {
        assert(slot_in_order(ring, pos, reader, marks, n - 1));
        assert(after.wf()) by {
            assert forall|k: int| 0 <= k < n implies (#[trigger] after.slots[k]).wf() by {
                assert(ring.slots[k].wf());
            }
        }
        assert forall|j: int| 0 <= j < n implies #[trigger] slot_in_order(
            after,
            pos,
            reader,
            marks,
            j,
        ) by {
            assert(slot_in_order(ring, pos, reader, marks, j));
        }
    }
}

proof fn lemma_pull_in_order(
    ring: RingView,
    next_slot: int,
    pos: int,
    reader: DirectDsdReader,
    start: int,
    marks: Seq<int>,
) -> (more: Seq<int>)
    requires
        in_order(ring, next_slot, pos, reader, start, marks),
        ring.in_flight is None,
        reader.wf(),
    ensures
        in_order(ring.pulled().0, next_slot, pos, reader, start, more),
        ({
            let (after, block) = ring.pulled();
            if block matches Some(b) && b.slot is Some {
                &&& marks[0] <= more[0]
                &&& after.bytes(block->0) == reader.payload(marks[0], more[0] - marks[0])
            } else {
                more == marks
            }
        }),
{
    let (after, block) = ring.pulled();
    let n = ring.slots.len() as int;
    let queue = marks.len() - 1;
    let c = ring.consumer_index as int;
    assert(slot_in_order(ring, pos, reader, marks, 0));
    assert(place(c, 0, n) == c);
    if ring.slot_ready() {
        assert(queue > 0);
        let slot = ring.next_slot();
        reader.lemma_channels();
        assert(slot.payload_len > 0) by (nonlinear_arith)
            requires
                slot.payload_len == (marks[1] - marks[0]) * reader.ch(),
                marks[0] < marks[1],
                0 < reader.ch(),
        ;
        let more = marks.skip(1);
        lemma_wraps(c, n);
        assert(after == ring.delivered());
        assert(after.consumer_index == place(c, 1, n));
        assert(after.wf()) by {
            assert forall|k: int| 0 <= k < n implies (#[trigger] after.slots[k]).wf() by {
                assert(ring.slots[k].wf());
            }
        }
        assert(more[0] == marks[1]);
        lemma_marks_rise(ring, next_slot, pos, reader, start, marks, 1);
        assert(more[queue - 1] == marks[queue]);
        assert forall|j: int| 0 <= j < n implies #[trigger] slot_in_order(
            after,
            pos,
            reader,
            more,
            j,
        ) by {
            if j < n - 1 {
                assert(slot_in_order(ring, pos, reader, marks, j + 1));
                assert(place(place(c, 1, n), j, n) == place(c, j + 1, n));
                assert(place(c, j + 1, n) != c);
                if j < queue - 1 {
                    assert(more[j] == marks[j + 1] && more[j + 1] == marks[j + 2]);
                }
            } else {
                assert(place(place(c, 1, n), j, n) == c);
            }
        }
        assert(after.bytes(block->0) =~= slot.payload());
        more
    } else {
        assert(queue == 0 || !slot_in_order(ring, pos, reader, marks, 0));
        assert(after.wf());
        assert forall|j: int| 0 <= j < n implies #[trigger] slot_in_order(
            after,
            pos,
            reader,
            marks,
            j,
        ) by {
            assert(slot_in_order(ring, pos, reader, marks, j));
        }
        marks
    }
}

/// Marks rise up to where the reader stands.
proof fn lemma_marks_rise(
    ring: RingView,
    next_slot: int,
    pos: int,
    reader: DirectDsdReader,
    start: int,
    marks: Seq<int>,
    i: int,
)
    requires
        in_order(ring, next_slot, pos, reader, start, marks),
        0 <= i < marks.len(),
    ensures
        marks[0] <= marks[i] <= pos,
        marks[i] % 4 == 0,
    decreases marks.len() - i,
{
    let queue = marks.len() - 1;
    if i < queue {
        lemma_marks_rise(ring, next_slot, pos, reader, start, marks, i + 1);
        assert(slot_in_order(ring, pos, reader, marks, i));
    }
    lemma_marks_start(ring, next_slot, pos, reader, start, marks, i);
}

proof fn lemma_marks_start(
    ring: RingView,
    next_slot: int,
    pos: int,
    reader: DirectDsdReader,
    start: int,
    marks: Seq<int>,
    i: int,
)
    requires
        in_order(ring, next_slot, pos, reader, start, marks),
        0 <= i < marks.len(),
    ensures
        marks[0] <= marks[i],
        marks[i] % 4 == 0,
    decreases i,
{
    if i > 0 {
        lemma_marks_start(ring, next_slot, pos, reader, start, marks, i - 1);
        assert(slot_in_order(ring, pos, reader, marks, i - 1));
    }
}

proof fn lemma_wraps(i: int, n: int)
    requires
        0 <= i < n,
    ensures
        (i + 1) % n == if i + 1 == n {
            0
        } else {
            i + 1
        },
{
    if i + 1 == n {
        vstd::arithmetic::div_mod::lemma_mod_self_0(n);
    } else {
        vstd::arithmetic::div_mod::lemma_small_mod((i + 1) as nat, n as nat);
    }
}

proof fn lemma_fill_in_order(
    before: DirectDsdSource,
    after: DirectDsdSource,
    reader: DirectDsdReader,
    start: int,
    marks: Seq<int>,
) -> (more: Seq<int>)
    requires
        reader.wf(),
        before.wf(),
        after.wf(),
        before.reader.same_file(&reader),
        before.wire_bit_order == reader.format_spec().bit_order,
        in_order(
            before.ring(),
            before.next_slot as int,
            before.reader.pos(),
            reader,
            start,
            marks,
        ),
        before.slot().state == SlotState::Free,
        before.reader.pos() < before.reader.total(),
        after.ring() == super::producer::with_slot(
            before.ring(),
            before.next_slot as int,
            filled(before.slot(), before.reader, before.wire_bit_order),
        ),
        after.reader.same_file(&before.reader),
        after.reader.pos() == before.reader.pos() + before.reader.next_count(),
        after.next_slot == before.following_slot(),
        !before.ring().finished,
    ensures
        in_order(after.ring(), after.next_slot as int, after.reader.pos(), reader, start, more),
        more[0] == marks[0],
{
    let ring = before.ring();
    let out = after.ring();
    let n = ring.slots.len() as int;
    let c = ring.consumer_index as int;
    let queue = marks.len() - 1;
    let pos = before.reader.pos();
    let count = before.reader.next_count();
    let p = before.next_slot as int;
    before.reader.lemma_channels();
    before.reader.lemma_next_fits();
    before.reader.lemma_next_aligned();
    after.reader.lemma_channels();
    after.reader.lemma_next_aligned();
    assert(slot_in_order(ring, pos, reader, marks, 0));
    if queue == n {
        assert(place(c, n, n) == c);
        assert(false);
    }
    assert(slot_in_order(ring, pos, reader, marks, queue));
    let slot = before.slot();
    let full = filled(slot, before.reader, before.wire_bit_order);
    lemma_same_payload(before.reader, reader, pos, count);
    assert(count <= count * before.reader.ch()) by (nonlinear_arith)
        requires
            0 <= count,
            1 <= before.reader.ch(),
    ;
    assert(full.bits_per_channel == 8 * count);
    assert(full.payload_len == count * reader.ch());
    assert(full.payload() =~= reader.payload(pos, count));
    assert(pos + count - pos == count);
    assert(reader.max_len() <= full.buffer.len());
    let more = marks.push(pos + count);
    lemma_wraps(p, n);
    assert(after.next_slot == place(c, queue + 1, n));
    assert forall|j: int| 0 <= j < n implies #[trigger] slot_in_order(
        out,
        pos + count,
        reader,
        more,
        j,
    ) by {
        assert(slot_in_order(ring, pos, reader, marks, j));
        if j < queue {
            assert(more[j] == marks[j] && more[j + 1] == marks[j + 1]);
            assert(place(c, j, n) != p);
        } else if j == queue {
            assert(more[j] == pos && more[j + 1] == pos + count);
            assert(holds_part(full, reader, pos, pos + count));
        } else {
            assert(place(c, j, n) != p);
        }
    }
    more
}

/// A slot that is turned from free to claimed at the end of the source, or back,
/// leaves the order.
proof fn lemma_turn_in_order(
    ring: RingView,
    out: RingView,
    state: SlotState,
    next_slot: int,
    pos: int,
    reader: DirectDsdReader,
    start: int,
    marks: Seq<int>,
)
    requires
        in_order(ring, next_slot, pos, reader, start, marks),
        pos == reader.total(),
        state == SlotState::Free || state == SlotState::Filling,
        ring.slots[next_slot].state == SlotState::Free || ring.slots[next_slot].state
            == SlotState::Filling,
        out == (RingView {
            slots: ring.slots.update(
                next_slot,
                SlotView { state, ..ring.slots[next_slot] },
            ),
            finished: out.finished,
            ..ring
        }),
    ensures
        in_order(out, next_slot, pos, reader, start, marks),
{
    let n = ring.slots.len() as int;
    let c = ring.consumer_index as int;
    let queue = marks.len() - 1;
    assert(slot_in_order(ring, pos, reader, marks, 0));
    if queue == n {
        assert(place(c, n, n) == c);
        assert(false);
    }
    assert(slot_in_order(ring, pos, reader, marks, queue));
    assert(out.wf()) by {
        assert forall|k: int| 0 <= k < n implies (#[trigger] out.slots[k]).wf() by {
            assert(ring.slots[k].wf());
        }
    }
    assert forall|j: int| 0 <= j < n implies #[trigger] slot_in_order(out, pos, reader, marks, j) by {
        assert(slot_in_order(ring, pos, reader, marks, j));
        if j != queue {
            assert(place(c, j, n) != next_slot);
        }
    }
}

/// Whether a source that plays is in order, with what it has handed out.
spec fn source_in_order(
    source: DirectDsdSource,
    reader: DirectDsdReader,
    start: int,
    marks: Seq<int>,
    out: Seq<u8>,
) -> bool {
    &&& source.wf()
    &&& source.reader.same_file(&reader)
    &&& source.staged is None
    &&& source.wire_bit_order == reader.format_spec().bit_order
    &&& in_order(
        source.ring(),
        source.next_slot as int,
        source.reader.pos(),
        reader,
        start,
        marks,
    )
    &&& out == reader.payload(start, marks[0] - start)
}

proof fn lemma_event_in_order(
    before: DirectDsdSource,
    event: PlayEvent,
    after: DirectDsdSource,
    reader: DirectDsdReader,
    start: int,
    marks: Seq<int>,
    out: Seq<u8>,
) -> (more: Seq<int>)
    requires
        reader.wf(),
        source_in_order(before, reader, start, marks, out),
        plays_on(before, event, after),
    ensures
        source_in_order(after, reader, start, more, out + given_with(event, after)),
{
    let ring = before.ring();
    let p = before.next_slot as int;
    let pos = before.reader.pos();
    assert(out + Seq::<u8>::empty() =~= out);
    match event {
        PlayEvent::Produce(r) => {
            if ring.finished || before.slot().state != SlotState::Free {
                marks
            } else if pos == before.reader.total() {
                assert(after.ring() =~= (RingView {
                    slots: ring.slots.update(
                        p,
                        SlotView { state: SlotState::Filling, ..ring.slots[p] },
                    ),
                    finished: after.ring().finished,
                    ..ring
                }));
                lemma_turn_in_order(
                    ring,
                    after.ring(),
                    SlotState::Filling,
                    p,
                    pos,
                    reader,
                    start,
                    marks,
                );
                marks
            } else {
                before.reader.lemma_channels();
                before.reader.lemma_next_fits();
                assert(slot_in_order(ring, pos, reader, marks, 0));
                lemma_next_has_room(before, reader, start, marks);
                lemma_fill_in_order(before, after, reader, start, marks)
            }
        },
        PlayEvent::Settle(r) => {
            lemma_claimed_at_end(before, reader, start, marks);
            assert(after.ring() =~= (RingView {
                slots: ring.slots.update(p, SlotView { state: SlotState::Free, ..ring.slots[p] }),
                finished: after.ring().finished,
                ..ring
            }));
            lemma_turn_in_order(
                ring,
                after.ring(),
                SlotState::Free,
                p,
                pos,
                reader,
                start,
                marks,
            );
            marks
        },
        PlayEvent::Release => {
            lemma_release_in_order(ring, p, pos, reader, start, marks);
            marks
        },
        PlayEvent::Pull(block) => {
            lemma_release_in_order(ring, p, pos, reader, start, marks);
            let more = lemma_pull_in_order(ring.released(), p, pos, reader, start, marks);
            let (pulled, given) = ring.released().pulled();
            assert(after.ring() == pulled);
            if given matches Some(b) && b.slot is Some {
                law_consecutive_blocks_join(
                    reader,
                    start,
                    marks[0] - start,
                    more[0] - marks[0],
                );
            }
            more
        },
    }
}

proof fn lemma_next_has_room(
    source: DirectDsdSource,
    reader: DirectDsdReader,
    start: int,
    marks: Seq<int>,
)
    requires
        in_order(
            source.ring(),
            source.next_slot as int,
            source.reader.pos(),
            reader,
            start,
            marks,
        ),
    ensures
        reader.max_len() <= source.slot().buffer.len(),
{
    let ring = source.ring();
    let n = ring.slots.len() as int;
    let c = ring.consumer_index as int;
    let queue = marks.len() - 1;
    assert(slot_in_order(ring, source.reader.pos(), reader, marks, 0));
    if queue < n {
        assert(slot_in_order(ring, source.reader.pos(), reader, marks, queue));
    } else {
        assert(place(c, n, n) == c);
    }
}

proof fn lemma_claimed_at_end(
    source: DirectDsdSource,
    reader: DirectDsdReader,
    start: int,
    marks: Seq<int>,
)
    requires
        in_order(
            source.ring(),
            source.next_slot as int,
            source.reader.pos(),
            reader,
            start,
            marks,
        ),
        source.slot().state == SlotState::Filling,
    ensures
        source.reader.pos() == reader.total(),
{
    let ring = source.ring();
    let n = ring.slots.len() as int;
    let c = ring.consumer_index as int;
    let queue = marks.len() - 1;
    assert(slot_in_order(ring, source.reader.pos(), reader, marks, 0));
    if queue < n {
        assert(slot_in_order(ring, source.reader.pos(), reader, marks, queue));
    } else {
        assert(place(c, n, n) == c);
    }
}

/// A source that was just opened is in order and has handed out nothing.
proof fn lemma_opened_in_order(
    source: DirectDsdSource,
    reader: DirectDsdReader,
    position_bits: u64,
    duration_micros: u64,
) -> (marks: Seq<int>)
    requires
        reader.wf(),
        source.opened_at(reader, position_bits, duration_micros),
        started_at(reader, position_bits) < reader.total(),
    ensures
        source_in_order(
            source,
            reader,
            started_at(reader, position_bits),
            marks,
            Seq::<u8>::empty(),
        ),
{
    let start = started_at(reader, position_bits);
    let at = DirectDsdReader::moved(reader, start);
    reader.lemma_channels();
    reader.lemma_next_aligned();
    DirectDsdReader::lemma_stands(reader, start);
    at.lemma_channels();
    at.lemma_next_fits();
    at.lemma_next_aligned();
    source.reader.lemma_channels();
    source.reader.lemma_next_aligned();
    let count = at.next_count();
    let marks = seq![start, start + count];
    let ring = source.ring();
    let n = ring.slots.len() as int;
    let slot = ring.slots[0];
    lemma_same_payload(at, reader, start, count);
    assert(count <= count * at.ch()) by (nonlinear_arith)
        requires
            0 <= count,
            1 <= at.ch(),
    ;
    assert(slot.bits_per_channel == 8 * count);
    assert(slot.payload_len == count * reader.ch());
    assert(slot.payload() =~= reader.payload(start, count));
    assert(start + count - start == count);
    assert(holds_part(slot, reader, start, start + count));
    assert forall|j: int| 0 <= j < n implies #[trigger] slot_in_order(
        ring,
        source.reader.pos(),
        reader,
        marks,
        j,
    ) by {
        assert(place(0, j, n) == j);
    }
    assert(reader.payload(start, 0) =~= Seq::<u8>::empty());
    marks
}

proof fn lemma_run_in_order(
    reader: DirectDsdReader,
    position_bits: u64,
    duration_micros: u64,
    states: Seq<DirectDsdSource>,
    events: Seq<PlayEvent>,
) -> (marks: Seq<int>)
    requires
        reader.wf(),
        started_at(reader, position_bits) < reader.total(),
        is_playing(states, events),
        states[0].opened_at(reader, position_bits, duration_micros),
    ensures
        source_in_order(
            states.last(),
            reader,
            started_at(reader, position_bits),
            marks,
            handed_out(states, events),
        ),
    decreases events.len(),
{
    if events.len() == 0 {
        lemma_opened_in_order(states[0], reader, position_bits, duration_micros)
    } else {
        let n = events.len() as int;
        let fewer = events.drop_last();
        let earlier = states.drop_last();
        assert forall|i: int| 0 <= i < fewer.len() implies #[trigger] plays_at(
            earlier,
            fewer,
            i,
        ) by {
            assert(plays_at(states, events, i));
        }
        let marks = lemma_run_in_order(reader, position_bits, duration_micros, earlier, fewer);
        assert(plays_at(states, events, n - 1));
        lemma_event_in_order(
            states[n - 1],
            events[n - 1],
            states[n],
            reader,
            started_at(reader, position_bits),
            marks,
            handed_out(earlier, fewer),
        )
    }
}

/// A source that was opened at a bit and plays without a command hands out the
/// stream from there on, block after block, without a gap, an overlap or a change,
/// and never fails. Once it is played out, that was all of it. Its position counts
/// exactly what was handed out and is no longer in the hands of the device: it
/// starts at 0 and grows by a block's bits when the block is given back.
pub proof fn law_source_hands_out_the_stream_in_order(
    reader: DirectDsdReader,
    position_bits: u64,
    duration_micros: u64,
    states: Seq<DirectDsdSource>,
    events: Seq<PlayEvent>,
)
    requires
        reader.wf(),
        started_at(reader, position_bits) < reader.total(),
        is_playing(states, events),
        states[0].opened_at(reader, position_bits, duration_micros),
    ensures
        ({
            let start = started_at(reader, position_bits);
            let out = handed_out(states, events);
            let ring = states.last().ring();
            let count = out.len() as int / reader.ch();
            &&& out == reader.payload(start, count)
            &&& start + count <= reader.total()
            &&& !ring.failed
            &&& held_bits(ring) <= 8 * count
            &&& ring.consumed_bits_per_channel == counter_sum(0, 8 * count - held_bits(ring))
            &&& ring.played_out() ==> out == reader.payload(start, reader.total() - start)
        }),
{
    let start = started_at(reader, position_bits);
    let marks = lemma_run_in_order(reader, position_bits, duration_micros, states, events);
    let last = states.last();
    let ring = last.ring();
    let n = ring.slots.len() as int;
    let count = marks[0] - start;
    reader.lemma_channels();
    vstd::arithmetic::div_mod::lemma_fundamental_div_mod_converse(
        count * reader.ch(),
        reader.ch(),
        count,
        0,
    );
    assert(0 <= count * reader.ch()) by (nonlinear_arith)
        requires
            0 <= count,
            0 <= reader.ch(),
    ;
    if ring.played_out() {
        let c = ring.consumer_index as int;
        assert(slot_in_order(ring, last.reader.pos(), reader, marks, 0));
        assert(ring.slots[place(c, 0, n)].state == SlotState::Free);
        assert(marks.len() == 1);
    }
}

/// A source keeps the rate by which its position counts.
pub proof fn law_source_keeps_its_rate(states: Seq<DirectDsdSource>, events: Seq<PlayEvent>)
    requires
        is_playing(states, events),
    ensures
        states.last().monitor.bit_rate == states[0].monitor.bit_rate,
    decreases events.len(),
{
    if events.len() > 0 {
        let n = events.len() as int;
        let fewer = events.drop_last();
        let earlier = states.drop_last();
        assert forall|i: int| 0 <= i < fewer.len() implies #[trigger] plays_at(
            earlier,
            fewer,
            i,
        ) by {
            assert(plays_at(states, events, i));
        }
        law_source_keeps_its_rate(earlier, fewer);
        assert(plays_at(states, events, n - 1));
    }
}

/// A source that was just opened has played nothing, and only a block that goes
/// back moves its position: production and the end of the source do not.
pub proof fn law_position_waits_for_the_device(
    before: DirectDsdSource,
    event: PlayEvent,
    after: DirectDsdSource,
)
    requires
        before.wf(),
        before.staged is None,
        plays_on(before, event, after),
    ensures
        event is Produce || event is Settle ==> after.ring().consumed_bits_per_channel
            == before.ring().consumed_bits_per_channel,
        event is Release ==> after.ring().consumed_bits_per_channel == counter_sum(
            before.ring().consumed_bits_per_channel,
            held_bits(before.ring()),
        ),
{
}

} // verus!
