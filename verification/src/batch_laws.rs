//! Whole batches and whole drains: over regions and segments they hold what single reads
//! would give.
use vstd::prelude::*;

use crate::batch::{
    batch_fits, batch_records, places, records_at, take, take_end, BatchScan, Take, TakeStop,
};
use crate::error::Error;
use crate::log::{channel_log, record_at, regions_of, seg_walk, walk, Hit, Record};
use crate::message::OwnedMessage;
use crate::reader::{BatchSeg, MsgPos, ReaderView};
use crate::reader_laws::{channel_left, left_from};

verus! {

/// Why a batch ends.
pub enum BatchEnd {
    /// It holds as many messages as it may.
    Full,
    /// The next slot is not published yet.
    CaughtUp,
    /// The next region or the next segment is not there.
    Missing,
    /// A slot makes no sense.
    Bad { error: Error },
}

/// A batch: its messages, where it ends, and why.
#[verifier::ext_equal]
pub struct Batch {
    pub records: Seq<Record>,
    pub segment: int,
    pub region: int,
    pub off: int,
    pub end: BatchEnd,
}

impl Batch {
    /// The batch with more messages before its own.
    pub open spec fn behind(self, first: Seq<Record>) -> Batch {
        Batch { records: first + self.records, ..self }
    }
}

/// The batch of at most `n` messages from offset `off` of region `idx` of segment `i` on:
/// what is taken from that region, then from the next one, and where the segment was
/// rolled from the next segment.
pub open spec fn batch_from(
    segments: Seq<Seq<Seq<u8>>>,
    i: int,
    idx: int,
    off: int,
    n: int,
) -> Batch
    decreases segments.len() - i, segments[i].len() - idx,
{
    if i < 0 || i >= segments.len() || idx < 0 || idx >= segments[i].len() {
        Batch { records: seq![], segment: i, region: idx, off, end: BatchEnd::Missing }
    } else {
        let r = segments[i][idx];
        let t = take(r, off, r.len() as int, n);
        let here = records_at(r, t.offs);
        let more = n - t.offs.len();
        match t.stop {
            TakeStop::Full { off: at } => Batch {
                records: here,
                segment: i,
                region: idx,
                off: at,
                end: BatchEnd::Full,
            },
            TakeStop::Tail { off: at } => Batch {
                records: here,
                segment: i,
                region: idx,
                off: at,
                end: BatchEnd::CaughtUp,
            },
            TakeStop::Edge => batch_from(segments, i, idx + 1, 0, more).behind(here),
            TakeStop::Roll { off: at } => batch_from(segments, i + 1, 0, 0, more).behind(here),
            TakeStop::Bad { off: at, error } => Batch {
                records: here,
                segment: i,
                region: idx,
                off: at,
                end: BatchEnd::Bad { error },
            },
        }
    }
}

/// Only a full take has as many messages as it may have.
proof fn lemma_take_is_short(r: Seq<u8>, off: int, visible: int, n: int)
    requires
        n >= 1,
    ensures
        take(r, off, visible, n).stop is Full || take(r, off, visible, n).offs.len() < n,
    decreases crate::log::room(r, off),
{
    if off < r.len() {
        match crate::log::slot_at(r, off, visible) {
            crate::log::Slot::Service { next } => {
                lemma_take_is_short(r, next, visible, n);
            },
            crate::log::Slot::User { next } => {
                if n > 1 {
                    lemma_take_is_short(r, next, visible, n - 1);
                }
            },
            _ => {},
        }
    }
}

/// A batch holds the first messages that are left to read, in their order: as many as it
/// may hold, or all that there are. What is left behind it is what is left to the reads
/// that follow. It does not matter how many regions and segments it goes over.
#[verifier::spinoff_prover]
#[verifier::rlimit(40)]
pub proof fn law_batch_is_what_reads_give(
    segments: Seq<Seq<Seq<u8>>>,
    i: int,
    idx: int,
    off: int,
    n: int,
)
    requires
        n >= 1,
    ensures
        ({
            let b = batch_from(segments, i, idx, off, n);
            let left = left_from(segments, i, idx, off);
            &&& left == b.records + left_from(segments, b.segment, b.region, b.off)
            &&& b.records.len() == if left.len() < n {
                left.len() as int
            } else {
                n
            }
            &&& b.records == left.subrange(0, b.records.len() as int)
            &&& !(b.end is Full) ==> left_from(segments, b.segment, b.region, b.off).len() == 0
        }),
    decreases segments.len() - i, segments[i].len() - idx,
{
    let b = batch_from(segments, i, idx, off, n);
    let left = left_from(segments, i, idx, off);
    if 0 <= i < segments.len() && 0 <= idx < segments[i].len() {
        let regions = segments[i];
        let r = regions[idx];
        let all = r.len() as int;
        let t = take(r, off, all, n);
        let here = records_at(r, t.offs);
        let more = n - t.offs.len();
        crate::batch::law_batch_takes_what_reads_take(r, off, all, n);
        lemma_take_is_short(r, off, all, n);
        match t.stop {
            TakeStop::Edge => {
                law_batch_is_what_reads_give(segments, i, idx + 1, 0, more);
                crate::batch::law_batch_goes_on_in_the_next_region(regions, idx, off, n);
                let next = left_from(segments, i, idx + 1, 0);
                let rest = batch_from(segments, i, idx + 1, 0, more);
                let tail = left_from(segments, rest.segment, rest.region, rest.off);
                let w = seg_walk(regions, idx + 1, 0);
                let log = channel_log(segments, i + 1);
                assert((here + w.records) + log =~= here + (w.records + log));
                assert(left =~= here + next);
                assert(here + (rest.records + tail) =~= (here + rest.records) + tail);
            },
            TakeStop::Roll { off: at } => {
                law_batch_is_what_reads_give(segments, i + 1, 0, 0, more);
                let next = left_from(segments, i + 1, 0, 0);
                let rest = batch_from(segments, i + 1, 0, 0, more);
                let tail = left_from(segments, rest.segment, rest.region, rest.off);
                assert(next =~= channel_log(segments, i + 1));
                assert(left =~= here + next);
                assert(here + (rest.records + tail) =~= (here + rest.records) + tail);
            },
            TakeStop::Full { off: at } => {
                let w = walk(r, at, all);
                let rest = seg_walk(regions, idx + 1, 0).records;
                let log = channel_log(segments, i + 1);
                assert((here + w.records) + rest =~= here + (w.records + rest));
                assert((here + (w.records + rest)) + log =~= here + ((w.records + rest) + log));
                assert((here + w.records) + log =~= here + (w.records + log));
                assert(left =~= here + left_from(segments, i, idx, at));
            },
            TakeStop::Tail { off: at } => {
                lemma_rest_is_empty(r, off, all);
                assert(left =~= here + left_from(segments, i, idx, at));
            },
            TakeStop::Bad { off: at, error } => {
                lemma_rest_is_empty(r, off, all);
                assert(left =~= here + left_from(segments, i, idx, at));
            },
        }
    } else {
        assert(left =~= b.records + left_from(segments, b.segment, b.region, b.off));
    }
    assert(b.records =~= left.subrange(0, b.records.len() as int));
}

/// Nothing is met behind the slot where a walk comes to rest.
proof fn lemma_rest_is_empty(r: Seq<u8>, off: int, visible: int)
    ensures
        match walk(r, off, visible).stop {
            Hit::Tail { off: at } => walk(r, at, visible).records.len() == 0 && walk(
                r,
                at,
                visible,
            ).stop == (Hit::Tail { off: at }),
            Hit::Bad { off: at, error } => walk(r, at, visible).records.len() == 0 && walk(
                r,
                at,
                visible,
            ).stop == (Hit::Bad { off: at, error }),
            _ => true,
        },
    decreases crate::log::room(r, off),
{
    if off < r.len() {
        match crate::log::slot_at(r, off, visible) {
            crate::log::Slot::Service { next } => {
                lemma_rest_is_empty(r, next, visible);
            },
            crate::log::Slot::User { next } => {
                lemma_rest_is_empty(r, next, visible);
            },
            _ => {},
        }
    }
}

/// A leg of a batch or of a drain: the scan of one region. It begins at a position of a
/// segment and may take `n` messages.
pub struct Leg {
    pub segment: int,
    pub position: int,
    pub n: int,
}

impl Leg {
    /// The region that is scanned.
    pub open spec fn region(self, segments: Seq<Seq<Seq<u8>>>, size: int) -> Seq<u8> {
        segments[self.segment][self.position / size]
    }

    /// What is taken from it.
    pub open spec fn taken(self, segments: Seq<Seq<Seq<u8>>>, size: int) -> Take {
        take(self.region(segments, size), self.position % size, size, self.n)
    }

    /// The messages that are taken.
    pub open spec fn records(self, segments: Seq<Seq<Seq<u8>>>, size: int) -> Seq<Record> {
        records_at(self.region(segments, size), self.taken(segments, size).offs)
    }

    /// The position that the scan comes to.
    pub open spec fn end(self, segments: Seq<Seq<Seq<u8>>>, size: int) -> int {
        self.position / size * size + take_end(
            self.region(segments, size),
            self.taken(segments, size),
        )
    }

    /// The leg has a region to scan.
    pub open spec fn wf(self, segments: Seq<Seq<Seq<u8>>>, size: int) -> bool {
        &&& self.n >= 1
        &&& 0 <= self.segment < segments.len()
        &&& regions_of(segments[self.segment], size)
        &&& 0 <= self.position
        &&& self.position % 8 == 0
        &&& self.position / size < segments[self.segment].len()
    }

    /// `next` goes on where this leg stops: in the next region, or behind the mark at the
    /// beginning of the next segment.
    pub open spec fn leads_to(
        self,
        next: Leg,
        segments: Seq<Seq<Seq<u8>>>,
        size: int,
    ) -> bool {
        let t = self.taken(segments, size);
        &&& next.n == self.n - t.offs.len()
        &&& match t.stop {
            TakeStop::Edge => next.segment == self.segment && next.position == self.end(
                segments,
                size,
            ),
            TakeStop::Roll { .. } => next.segment == self.segment + 1 && next.position == 0,
            _ => false,
        }
    }
}

/// Legs that follow one another, up to one that is full or caught up.
pub open spec fn tour(legs: Seq<Leg>, segments: Seq<Seq<Seq<u8>>>, size: int) -> bool {
    &&& legs.len() > 0
    &&& forall|k: int| 0 <= k < legs.len() ==> (#[trigger] legs[k]).wf(segments, size)
    &&& forall|k: int|
        0 <= k < legs.len() - 1 ==> (#[trigger] legs[k]).leads_to(legs[k + 1], segments, size)
}

/// The messages that legs take, one leg after the other.
pub open spec fn tour_records(
    legs: Seq<Leg>,
    segments: Seq<Seq<Seq<u8>>>,
    size: int,
) -> Seq<Record>
    decreases legs.len(),
{
    if legs.len() == 0 {
        seq![]
    } else {
        tour_records(legs.drop_last(), segments, size) + legs.last().records(segments, size)
    }
}

/// A leg takes the first of the messages that are left, and leaves the others.
proof fn lemma_leg(leg: Leg, segments: Seq<Seq<Seq<u8>>>, size: int)
    requires
        leg.wf(segments, size),
        size > 0,
        size % 8 == 0,
    ensures
        ({
            let t = leg.taken(segments, size);
            let here = leg.records(segments, size);
            let left = channel_left(segments, size, leg.segment, leg.position);
            let end = leg.end(segments, size);
            let behind = channel_left(segments, size, leg.segment, end);
            &&& here.len() == t.offs.len()
            &&& match t.stop {
                TakeStop::Full { .. } => here.len() == leg.n && left == here + behind,
                TakeStop::Tail { .. } => {
                    &&& here.len() < leg.n
                    &&& left == here + behind
                    &&& behind.len() == 0
                },
                TakeStop::Edge => here.len() < leg.n && left == here + behind,
                TakeStop::Roll { .. } => here.len() < leg.n && left == here + channel_left(
                    segments,
                    size,
                    leg.segment + 1,
                    0,
                ),
                TakeStop::Bad { .. } => true,
            }
        }),
{
    let i = leg.segment;
    let idx = leg.position / size;
    let off = leg.position % size;
    let r = leg.region(segments, size);
    let t = leg.taken(segments, size);
    let here = leg.records(segments, size);
    let more = leg.n - t.offs.len();
    crate::layout::lemma_split(leg.position, size);
    crate::layout::lemma_region_start_aligned(idx, size);
    crate::layout::lemma_next_region(idx, size);
    crate::layout::lemma_position(idx + 1, 0, size);
    crate::layout::lemma_position(0, 0, size);
    crate::batch::lemma_taken_fit(r, off, size, leg.n);
    crate::batch::law_batch_takes_what_reads_take(r, off, size, leg.n);
    lemma_take_is_short(r, off, size, leg.n);
    law_batch_is_what_reads_give(segments, i, idx, off, leg.n);
    match t.stop {
        TakeStop::Full { off: at } => {
            if at < size {
                crate::layout::lemma_position(idx, at, size);
            } else {
                crate::reader_laws::lemma_edge(segments[i], size, idx);
            }
        },
        TakeStop::Tail { off: at } => {
            crate::layout::lemma_position(idx, at, size);
        },
        TakeStop::Edge => {
            law_batch_is_what_reads_give(segments, i, idx + 1, 0, more);
            let rest = batch_from(segments, i, idx + 1, 0, more);
            let tail = left_from(segments, rest.segment, rest.region, rest.off);
            assert(here + (rest.records + tail) =~= (here + rest.records) + tail);
        },
        TakeStop::Roll { off: at } => {
            law_batch_is_what_reads_give(segments, i + 1, 0, 0, more);
            let rest = batch_from(segments, i + 1, 0, 0, more);
            let tail = left_from(segments, rest.segment, rest.region, rest.off);
            assert(here + (rest.records + tail) =~= (here + rest.records) + tail);
        },
        TakeStop::Bad { .. } => {},
    }
}

/// Before its last leg, a tour has taken the first of the messages that were left, and
/// the last leg may take what is left of the bound.
proof fn lemma_tour(legs: Seq<Leg>, segments: Seq<Seq<Seq<u8>>>, size: int)
    requires
        tour(legs, segments, size),
        size > 0,
        size % 8 == 0,
    ensures
        ({
            let before = tour_records(legs.drop_last(), segments, size);
            &&& channel_left(segments, size, legs[0].segment, legs[0].position) == before
                + channel_left(segments, size, legs.last().segment, legs.last().position)
            &&& legs[0].n == before.len() + legs.last().n
        }),
    decreases legs.len(),
{
    let first = legs.drop_last();
    let before = tour_records(first, segments, size);
    let left = channel_left(segments, size, legs[0].segment, legs[0].position);
    if legs.len() == 1 {
        assert(before =~= seq![]);
        assert(left =~= before + left);
    } else {
        let leg = first.last();
        assert(leg == legs[legs.len() - 2]);
        assert(leg.leads_to(legs[legs.len() - 2 + 1], segments, size));
        assert forall|k: int| 0 <= k < first.len() - 1 implies (#[trigger] first[k]).leads_to(
            first[k + 1],
            segments,
            size,
        ) by {
            assert(legs[k].leads_to(legs[k + 1], segments, size));
        }
        assert forall|k: int| 0 <= k < first.len() implies (#[trigger] first[k]).wf(
            segments,
            size,
        ) by {
            assert(legs[k].wf(segments, size));
        }
        lemma_tour(first, segments, size);
        lemma_leg(leg, segments, size);
        let earlier = tour_records(first.drop_last(), segments, size);
        let here = leg.records(segments, size);
        let next = channel_left(segments, size, legs.last().segment, legs.last().position);
        assert(earlier + (here + next) =~= (earlier + here) + next);
    }
}

/// A whole batch, and a whole drain, is what single reads would give. However many
/// regions and segments it goes over, it takes the first messages that are left, in their
/// order: as many as it may take, or all that there are. What is left behind it is what
/// the next read finds.
pub proof fn law_tour_takes_what_reads_give(
    legs: Seq<Leg>,
    segments: Seq<Seq<Seq<u8>>>,
    size: int,
)
    requires
        tour(legs, segments, size),
        size > 0,
        size % 8 == 0,
        legs.last().taken(segments, size).stop is Full || legs.last().taken(
            segments,
            size,
        ).stop is Tail,
    ensures
        ({
            let all = tour_records(legs, segments, size);
            let left = channel_left(segments, size, legs[0].segment, legs[0].position);
            let behind = channel_left(
                segments,
                size,
                legs.last().segment,
                legs.last().end(segments, size),
            );
            &&& all.len() == if left.len() < legs[0].n {
                left.len() as int
            } else {
                legs[0].n
            }
            &&& all == left.subrange(0, all.len() as int)
            &&& left == all + behind
        }),
{
    lemma_tour(legs, segments, size);
    lemma_leg(legs.last(), segments, size);
    let before = tour_records(legs.drop_last(), segments, size);
    let here = legs.last().records(segments, size);
    let all = tour_records(legs, segments, size);
    let left = channel_left(segments, size, legs[0].segment, legs[0].position);
    let behind = channel_left(
        segments,
        size,
        legs.last().segment,
        legs.last().end(segments, size),
    );
    assert(before + (here + behind) =~= (before + here) + behind);
    assert(all =~= left.subrange(0, all.len() as int));
}

/// A batch in the making, about to scan a region: the reader, the scan, and the bytes of
/// the regions that are mapped.
#[verifier::reject_recursive_types(M)]
pub struct Stage<M> {
    pub reader: ReaderView<M>,
    pub scan: BatchScan,
    pub bytes: Seq<Seq<u8>>,
}

impl<M> Stage<M> {
    /// Region size.
    pub open spec fn size(self) -> int {
        self.reader.region_size_cached as int
    }

    /// The leg that is ahead, in a channel whose first segment is at sequence `first`.
    pub open spec fn leg(self, first: int) -> Leg {
        Leg {
            segment: self.scan.sequence - first,
            position: self.scan.cursor as int,
            n: self.scan.max - self.reader.batch_pos.len(),
        }
    }

    /// The places of the messages when the region is scanned.
    pub open spec fn places_after(self) -> Seq<MsgPos> {
        self.reader.batch_pos + places(
            (self.reader.batch_segs.len() - 1) as usize,
            self.reader.taken(self.scan, self.bytes.last(), self.size()).offs,
        )
    }

    /// The scan can begin, on a region of the channel.
    pub open spec fn ready(self, segments: Seq<Seq<Seq<u8>>>, first: int) -> bool {
        &&& self.reader.ready_to_batch(self.scan, self.bytes.last())
        &&& self.reader.batch_segs.len() <= usize::MAX
        &&& self.bytes.len() == self.reader.maps.len()
        &&& self.reader.batch_segs.last().map_idx == self.bytes.len() - 1
        &&& self.leg(first).wf(segments, self.size())
        &&& self.bytes.last() == self.leg(first).region(segments, self.size())
    }

    /// `next` is this stage when its region is scanned, the next region is mapped and a
    /// stretch is begun there.
    pub open spec fn leads_to(self, next: Stage<M>) -> bool {
        &&& next.reader.region_size_cached == self.reader.region_size_cached
        &&& next.scan.max == self.scan.max
        &&& next.reader.batch_pos == self.places_after()
        &&& next.reader.batch_segs.len() == self.reader.batch_segs.len() + 1
        &&& forall|k: int|
            0 <= k < self.reader.batch_segs.len() ==> (#[trigger] next.reader.batch_segs[k]).map_idx
                == self.reader.batch_segs[k].map_idx
        &&& next.bytes == self.bytes.push(next.bytes.last())
    }
}

/// A batch holds what its legs take. The stages are those of a batch from its beginning to
/// its last scan, after which its stretches are `segs`; [`law_tour_takes_what_reads_give`]
/// says what the legs take.
pub proof fn law_batch_holds_what_its_legs_take<M>(
    stages: Seq<Stage<M>>,
    segs: Seq<BatchSeg>,
    segments: Seq<Seq<Seq<u8>>>,
    first: int,
)
    requires
        stages.len() > 0,
        stages[0].reader.batch_pos.len() == 0,
        forall|k: int| 0 <= k < stages.len() ==> (#[trigger] stages[k]).ready(segments, first),
        forall|k: int|
            0 <= k < stages.len() - 1 ==> (#[trigger] stages[k]).leads_to(stages[k + 1]),
        segs.len() == stages.last().reader.batch_segs.len(),
        forall|k: int|
            0 <= k < segs.len() ==> (#[trigger] segs[k]).map_idx
                == stages.last().reader.batch_segs[k].map_idx,
    ensures
        ({
            let last = stages.last();
            let legs = Seq::new(stages.len(), |k: int| stages[k].leg(first));
            &&& batch_fits(segs, last.places_after(), last.bytes)
            &&& batch_records(segs, last.places_after(), last.bytes) == tour_records(
                legs,
                segments,
                last.size(),
            )
        }),
    decreases stages.len(),
{
    let last = stages.last();
    let size = last.size();
    let legs = Seq::new(stages.len(), |k: int| stages[k].leg(first));
    let held = batch_records(last.reader.batch_segs, last.reader.batch_pos, last.bytes);
    if stages.len() == 1 {
        assert(legs.drop_last() =~= seq![]);
        assert(held =~= seq![]);
    } else {
        let before = stages.drop_last();
        let prior = before.last();
        let kept = last.reader.batch_segs.drop_last();
        assert(prior == stages[stages.len() - 2]);
        assert(prior.leads_to(stages[stages.len() - 2 + 1]));
        assert forall|k: int| 0 <= k < before.len() - 1 implies (#[trigger] before[k]).leads_to(
            before[k + 1],
        ) by {
            assert(stages[k].leads_to(stages[k + 1]));
        }
        assert forall|k: int| 0 <= k < before.len() implies (#[trigger] before[k]).ready(
            segments,
            first,
        ) by {
            assert(stages[k].ready(segments, first));
        }
        law_batch_holds_what_its_legs_take(before, kept, segments, first);
        crate::batch::law_batch_keeps_its_messages(
            kept,
            last.reader.batch_pos,
            prior.bytes,
            seq![last.reader.batch_segs.last()],
            seq![last.bytes.last()],
        );
        assert(kept + seq![last.reader.batch_segs.last()] =~= last.reader.batch_segs);
        assert(prior.bytes + seq![last.bytes.last()] =~= last.bytes);
        assert(legs.drop_last() =~= Seq::new(before.len(), |k: int| before[k].leg(first)));
    }
    assert(last.ready(segments, first));
    crate::batch::law_scan_adds_its_messages(last.reader, last.scan, last.bytes, size, segs);
    assert(legs.last() == last.leg(first));
    assert(held == tour_records(legs.drop_last(), segments, size));
    assert(last.leg(first).taken(segments, size) == last.reader.taken(
        last.scan,
        last.bytes.last(),
        size,
    ));
    assert(batch_records(segs, last.places_after(), last.bytes) == held + last.leg(first).records(
        segments,
        size,
    ));
}

/// What the scan of a leg appends to the messages of a drain.
pub open spec fn appends<M>(
    leg: Leg,
    segments: Seq<Seq<Seq<u8>>>,
    size: int,
    out: Seq<OwnedMessage<M>>,
    next: Seq<OwnedMessage<M>>,
) -> bool {
    let r = leg.region(segments, size);
    let offs = leg.taken(segments, size).offs;
    &&& next.len() == out.len() + offs.len()
    &&& forall|i: int| 0 <= i < out.len() ==> #[trigger] next[i] == out[i]
    &&& forall|i: int|
        0 <= i < offs.len() ==> (#[trigger] next[out.len() + i]).shows(r, record_at(r, offs[i]))
}

/// `m` is the message `record` of a region that is scanned by one of the legs.
pub open spec fn is_of<M>(
    m: OwnedMessage<M>,
    record: Record,
    legs: Seq<Leg>,
    segments: Seq<Seq<Seq<u8>>>,
    size: int,
) -> bool {
    exists|k: int|
        0 <= k < legs.len() && m.shows((#[trigger] legs[k]).region(segments, size), record)
}

/// A drain appends what its legs take, and leaves alone what was there. `outs` are the
/// messages before each leg and after the last one;
/// [`law_tour_takes_what_reads_give`] says what the legs take.
pub proof fn law_drain_appends_what_its_legs_take<M>(
    outs: Seq<Seq<OwnedMessage<M>>>,
    legs: Seq<Leg>,
    segments: Seq<Seq<Seq<u8>>>,
    size: int,
)
    requires
        outs.len() == legs.len() + 1,
        forall|k: int|
            0 <= k < legs.len() ==> appends(
                #[trigger] legs[k],
                segments,
                size,
                outs[k],
                outs[k + 1],
            ),
    ensures
        ({
            let before = outs[0].len();
            let all = tour_records(legs, segments, size);
            &&& outs.last().len() == before + all.len()
            &&& forall|i: int| 0 <= i < before ==> #[trigger] outs.last()[i] == outs[0][i]
            &&& forall|i: int|
                0 <= i < all.len() ==> is_of(
                    outs.last()[before + i],
                    #[trigger] all[i],
                    legs,
                    segments,
                    size,
                )
        }),
    decreases legs.len(),
{
    if legs.len() > 0 {
        let first = legs.drop_last();
        let leg = legs.last();
        let start = outs.drop_last();
        let prior = start.last();
        let end = outs.last();
        let before = outs[0].len();
        let earlier = tour_records(first, segments, size);
        let all = tour_records(legs, segments, size);
        assert forall|k: int| 0 <= k < first.len() implies appends(
            #[trigger] first[k],
            segments,
            size,
            start[k],
            start[k + 1],
        ) by {
            assert(appends(legs[k], segments, size, outs[k], outs[k + 1]));
        }
        law_drain_appends_what_its_legs_take(start, first, segments, size);
        assert(appends(legs[legs.len() - 1], segments, size, prior, end));
        assert forall|i: int| 0 <= i < all.len() implies is_of(
            end[before + i],
            #[trigger] all[i],
            legs,
            segments,
            size,
        ) by {
            if i < earlier.len() {
                assert(is_of(prior[before + i], earlier[i], first, segments, size));
                let k = choose|k: int|
                    0 <= k < first.len() && prior[before + i].shows(
                        (#[trigger] first[k]).region(segments, size),
                        earlier[i],
                    );
                assert(legs[k] == first[k]);
                assert(end[before + i] == prior[before + i]);
            } else {
                let o = i - earlier.len();
                assert(end[prior.len() + o].shows(leg.region(segments, size), all[i]));
                assert(legs[legs.len() - 1] == leg);
            }
        }
    }
}

} // verus!
