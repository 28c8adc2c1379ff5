//! What readers get of what writers leave.
use vstd::prelude::*;

use crate::builder::ReaderMode;
use crate::channel::{generation_at, next_index_at, FIRST_SLOT, HEADER_SLOT};
use crate::layout::MAX_FILE_OFFSET;
use crate::log::{
    after, channel_log, record_at, regions_of, seek, seg_log, seg_walk, segment_head, slot_at,
    walk, Hit, Record, SegStop, SegWalk, Slot,
};
use crate::reader::{opening_fault, start_position, ReaderView};
use crate::segment::prepared;
use crate::writer::{counted, roll_header, WriterState};
use crate::writer_laws::{
    committed, law_channel_grows_at_its_last_segment, ready_to_commit, rolled, rolled_over,
    rolled_up_to_last,
};

verus! {

/// What is left to read of a segment from a position on.
pub open spec fn left_at(regions: Seq<Seq<u8>>, size: int, position: int) -> SegWalk {
    seg_walk(regions, position / size, position % size)
}

impl<M> ReaderView<M> {
    /// What the reader has left to read of its segment.
    pub open spec fn left(self, regions: Seq<Seq<u8>>) -> SegWalk {
        left_at(regions, self.region_size_cached as int, self.read_position as int)
    }
}

/// Starting behind the last byte of a region is starting the next region.
pub proof fn lemma_edge(regions: Seq<Seq<u8>>, size: int, idx: int)
    requires
        regions_of(regions, size),
        0 <= idx < regions.len(),
    ensures
        seg_walk(regions, idx, size) == seg_walk(regions, idx + 1, 0),
{
    let rest = seg_walk(regions, idx + 1, 0);
    assert(walk(regions[idx], size, size).records =~= seq![]);
    assert(Seq::<Record>::empty() + rest.records =~= rest.records);
}

/// Walking a segment on from where a reader comes to rest.
proof fn lemma_seg_seek(regions: Seq<Seq<u8>>, size: int, idx: int, off: int)
    requires
        regions_of(regions, size),
        0 <= idx < regions.len(),
        0 <= off <= size,
        off % 8 == 0,
    ensures
        match seek(regions[idx], off, size) {
            Hit::User { off: at } => {
                let rest = seg_walk(regions, idx, after(regions[idx], at));
                &&& seg_walk(regions, idx, off) == seg_walk(regions, idx, at)
                &&& seg_walk(regions, idx, off).records == seq![record_at(regions[idx], at)]
                    + rest.records
                &&& seg_walk(regions, idx, off).stop == rest.stop
            },
            Hit::Tail { off: at } => seg_walk(regions, idx, off) == (SegWalk {
                records: seq![],
                stop: SegStop::Tail { region: idx, off: at },
            }),
            Hit::Edge => seg_walk(regions, idx, off) == seg_walk(regions, idx + 1, 0),
            Hit::Roll { off: at } => seg_walk(regions, idx, off) == (SegWalk {
                records: seq![],
                stop: SegStop::Roll { region: idx, off: at },
            }),
            Hit::Bad { off: at, error } => seg_walk(regions, idx, off) == (SegWalk {
                records: seq![],
                stop: SegStop::Bad { region: idx, off: at, error },
            }),
        },
{
    let r = regions[idx];
    crate::log::lemma_walk_is_seek(r, off, size);
    crate::log::lemma_seek_bounds(r, off, size);
    let rest = seg_walk(regions, idx + 1, 0);
    match seek(r, off, size) {
        Hit::User { off: at } => {
            let here = seq![record_at(r, at)];
            let next = after(r, at);
            let w = walk(r, next, size);
            crate::log::lemma_stop_bounds(r, next, size);
            assert(here + (w.records + rest.records) =~= (here + w.records) + rest.records);
            assert(seg_walk(regions, idx, off).records =~= here + seg_walk(
                regions,
                idx,
                next,
            ).records);
            assert(walk(r, at, size) =~= walk(r, off, size));
            assert(seg_walk(regions, idx, at) =~= seg_walk(regions, idx, off));
        },
        Hit::Edge => {
            assert(Seq::<Record>::empty() + rest.records =~= rest.records);
        },
        _ => {},
    }
}

/// A reader reads the log. Taking a message takes the first one that is left and
/// leaves the others; peeking takes none; being caught up means that none is left;
/// and moving on to the next region changes nothing of what is left.
///
/// `position` is where the scan leaves the reader.
pub proof fn law_reading_takes_the_first_message<M>(
    reader: ReaderView<M>,
    regions: Seq<Seq<u8>>,
    consume: bool,
)
    requires
        reader.wf(),
        regions_of(regions, reader.region_size_cached as int),
        reader.region() < regions.len(),
    ensures
        ({
            let size = reader.region_size_cached as int;
            let bytes = regions[reader.region()];
            let position = reader.rest_at(bytes, size, consume);
            let before = reader.left(regions);
            let now = left_at(regions, size, position);
            match reader.hit(bytes, size) {
                Hit::User { off } => {
                    &&& before.records.len() > 0
                    &&& before.records[0] == record_at(bytes, off)
                    &&& now.records == if consume {
                        before.records.drop_first()
                    } else {
                        before.records
                    }
                    &&& now.stop == before.stop
                },
                Hit::Tail { off } => {
                    &&& before == (SegWalk {
                        records: seq![],
                        stop: SegStop::Tail { region: reader.region(), off },
                    })
                    &&& now == before
                },
                Hit::Edge => now == before,
                Hit::Roll { off } => {
                    &&& before == (SegWalk {
                        records: seq![],
                        stop: SegStop::Roll { region: reader.region(), off },
                    })
                    &&& now == before
                },
                Hit::Bad { off, error } => {
                    &&& before == (SegWalk {
                        records: seq![],
                        stop: SegStop::Bad { region: reader.region(), off, error },
                    })
                    &&& now == before
                },
            }
        }),
{
    let size = reader.region_size_cached as int;
    let idx = reader.region();
    let r = regions[idx];
    let off = reader.off();
    reader.lemma_at();
    crate::layout::lemma_next_region(idx, size);
    crate::layout::lemma_position(idx + 1, 0, size);
    lemma_seg_seek(regions, size, idx, off);
    crate::log::lemma_seek_bounds(r, off, size);
    lemma_edge(regions, size, idx);
    match reader.hit(r, size) {
        Hit::User { off: at } => {
            let next = after(r, at);
            crate::layout::lemma_position(idx, at, size);
            if next < size {
                crate::layout::lemma_position(idx, next, size);
            }
            let before = reader.left(regions).records;
            let rest = seg_walk(regions, idx, next).records;
            assert(before.drop_first() =~= rest);
        },
        Hit::Tail { off: at } => {
            crate::layout::lemma_position(idx, at, size);
            lemma_rest_is_seek(r, off, size);
            lemma_seg_seek(regions, size, idx, at);
        },
        Hit::Roll { off: at } => {
            crate::layout::lemma_position(idx, at, size);
            lemma_rest_is_seek(r, off, size);
            lemma_seg_seek(regions, size, idx, at);
        },
        Hit::Bad { off: at, error } => {
            crate::layout::lemma_position(idx, at, size);
            lemma_rest_is_seek(r, off, size);
            lemma_seg_seek(regions, size, idx, at);
        },
        Hit::Edge => {},
    }
}

/// A reader that has come to rest stays there.
proof fn lemma_rest_is_seek(r: Seq<u8>, off: int, visible: int)
    ensures
        match seek(r, off, visible) {
            Hit::User { off: at } => seek(r, at, visible) == (Hit::User { off: at }),
            Hit::Tail { off: at } => seek(r, at, visible) == (Hit::Tail { off: at }),
            Hit::Edge => true,
            Hit::Roll { off: at } => seek(r, at, visible) == (Hit::Roll { off: at }),
            Hit::Bad { off: at, error } => seek(r, at, visible) == (Hit::Bad { off: at, error }),
        },
    decreases crate::log::room(r, off),
{
    if off < r.len() {
        match slot_at(r, off, visible) {
            Slot::Service { next } => {
                lemma_rest_is_seek(r, next, visible);
            },
            _ => {},
        }
    }
}

/// Peeking is repeatable, and says what the next read will say: a reader that has
/// peeked at a message finds the same message again, whether it peeks or reads.
pub proof fn law_peeking_is_repeatable<M>(
    reader: ReaderView<M>,
    peeked: ReaderView<M>,
    bytes: Seq<u8>,
    visible: int,
)
    requires
        reader.ready_to_scan(bytes),
        reader.scanned(peeked, bytes, visible, false),
        !(reader.hit(bytes, visible) is Edge),
    ensures
        peeked.on_map(),
        peeked.hit(bytes, visible) == reader.hit(bytes, visible),
        peeked.found(bytes, visible) == reader.found(bytes, visible),
        peeked.rest_at(bytes, visible, true) == reader.rest_at(bytes, visible, true),
        peeked.rest_at(bytes, visible, false) == peeked.read_position,
{
    let size = reader.region_size_cached as int;
    let idx = reader.region();
    reader.lemma_at();
    crate::log::lemma_seek_bounds(bytes, reader.off(), visible);
    lemma_rest_is_seek(bytes, reader.off(), visible);
    let at = reader.rest_at(bytes, visible, false) - idx * size;
    crate::layout::lemma_position(idx, at, size);
}

/// A reader that joins late reads every message of the segment that it opens.
pub proof fn law_late_join_reads_everything(regions: Seq<Seq<u8>>, size: int)
    requires
        regions_of(regions, size),
        regions.len() > 0,
    ensures
        left_at(regions, size, start_position(regions[0], ReaderMode::LateJoin) as int) == seg_log(
            regions,
        ),
{
    crate::layout::lemma_position(0, 0, size);
}

/// A segment in order can be opened by readers of both modes, and one that joins
/// live starts at the tail: it has no message to read, and the next one that is
/// committed will be its first.
pub proof fn law_live_reader_starts_at_the_tail(
    w: WriterState,
    regions: Seq<Seq<u8>>,
    mode: ReaderMode,
)
    requires
        w.in_order(regions),
    ensures
        opening_fault(regions[0], mode, w.file_sequence) is None,
        start_position(regions[0], ReaderMode::Live) == w.next_hdr_pos,
        left_at(
            regions,
            w.region_size as int,
            start_position(regions[0], ReaderMode::Live) as int,
        ) == (SegWalk {
            records: seq![],
            stop: SegStop::Tail { region: w.current_region_index as int, off: w.off() },
        }),
{
    w.lemma_at();
    crate::log::lemma_seg_stop_bounds(regions, w.region_size as int, 0, 0);
    let r = regions[w.current_region_index as int];
    assert(slot_at(r, w.off(), w.region_size as int) == Slot::Waiting);
}

/// A reader that has come to the end of a rolled segment is let into the next one,
/// and finds the numbering of the messages continued there.
pub proof fn law_roll_is_followed<M>(
    reader: ReaderView<M>,
    w: WriterState,
    regions: Seq<Seq<u8>>,
    z: Seq<Seq<u8>>,
    now_ns: u64,
    file_len: u64,
)
    requires
        w.wf(),
        w.at_tail(regions),
        segment_head(regions[0]),
        w.file_sequence < u64::MAX,
        next_index_at(regions[0]) <= u64::MAX,
        FIRST_SLOT + HEADER_SLOT <= w.region_size <= file_len <= MAX_FILE_OFFSET,
        regions_of(z, w.region_size as int),
        z.len() > 0,
        reader.file_sequence == w.file_sequence,
        reader.region_size_cached == w.region_size,
        reader.generation_cached == generation_at(regions[0]),
    ensures
        ({
            let before = rolled(w, regions, now_ns);
            let fresh = z.update(0, prepared(z[0], w.spec_next_segment(regions[0])));
            &&& next_index_at(before[0]) <= u64::MAX
            &&& reader.next_segment_fault(before[0], fresh[0]) is None
        }),
{
    crate::writer_laws::law_file_roll_keeps_the_log(w, regions, z, now_ns, file_len);
}

/// What a reader at offset `off` of region `idx` of segment `i` has left to read of a
/// channel.
pub open spec fn left_from(
    segments: Seq<Seq<Seq<u8>>>,
    i: int,
    idx: int,
    off: int,
) -> Seq<Record> {
    if i < 0 || i >= segments.len() {
        seq![]
    } else {
        let w = seg_walk(segments[i], idx, off);
        match w.stop {
            SegStop::Roll { .. } => w.records + channel_log(segments, i + 1),
            _ => w.records,
        }
    }
}

/// What a reader at a position of segment `i` has left to read of a channel.
pub open spec fn channel_left(
    segments: Seq<Seq<Seq<u8>>>,
    size: int,
    i: int,
    position: int,
) -> Seq<Record> {
    left_from(segments, i, position / size, position % size)
}

/// Following the mark at the end of a segment loses no message and repeats none: what
/// is left to read is the same at the mark and at the beginning of the next segment.
pub proof fn law_following_a_roll_keeps_what_is_left(
    segments: Seq<Seq<Seq<u8>>>,
    size: int,
    i: int,
    position: int,
)
    requires
        0 <= i,
        i + 1 < segments.len(),
        size > 0,
        left_at(segments[i], size, position).records.len() == 0,
        left_at(segments[i], size, position).stop is Roll,
    ensures
        channel_left(segments, size, i, position) == channel_left(segments, size, i + 1, 0),
        channel_left(segments, size, i + 1, 0) == channel_log(segments, i + 1),
{
    crate::layout::lemma_position(0, 0, size);
    let rest = channel_log(segments, i + 1);
    assert(left_at(segments[i], size, position).records + rest =~= rest);
}

/// A reader reads the channel, segment after segment. Taking a message takes the first
/// one that is left; where a scan takes none, nothing of what is left has changed.
pub proof fn law_reading_takes_from_the_channel<M>(
    reader: ReaderView<M>,
    segments: Seq<Seq<Seq<u8>>>,
    i: int,
    consume: bool,
)
    requires
        reader.wf(),
        0 <= i < segments.len(),
        regions_of(segments[i], reader.region_size_cached as int),
        reader.region() < segments[i].len(),
    ensures
        ({
            let size = reader.region_size_cached as int;
            let bytes = segments[i][reader.region()];
            let position = reader.rest_at(bytes, size, consume);
            let before = channel_left(segments, size, i, reader.read_position as int);
            let now = channel_left(segments, size, i, position);
            match reader.hit(bytes, size) {
                Hit::User { off } => {
                    &&& before.len() > 0
                    &&& before[0] == record_at(bytes, off)
                    &&& now == if consume {
                        before.drop_first()
                    } else {
                        before
                    }
                },
                Hit::Tail { .. } => before.len() == 0 && now == before,
                _ => now == before,
            }
        }),
{
    let size = reader.region_size_cached as int;
    let bytes = segments[i][reader.region()];
    let position = reader.rest_at(bytes, size, consume);
    law_reading_takes_the_first_message(reader, segments[i], consume);
    let before = reader.left(segments[i]);
    let rest = channel_log(segments, i + 1);
    match reader.hit(bytes, size) {
        Hit::User { off } => {
            assert((before.records + rest).drop_first() =~= before.records.drop_first() + rest);
        },
        _ => {},
    }
}

/// Positions that are aligned split into a region and an aligned offset.
proof fn lemma_place(position: int, size: int)
    requires
        0 <= position,
        position % 8 == 0,
        0 < size,
        size % 8 == 0,
    ensures
        0 <= position / size,
        0 <= position % size < size,
        (position % size) % 8 == 0,
{
    crate::layout::lemma_split(position, size);
    crate::layout::lemma_region_start_aligned(position / size, size);
}

/// What a writer publishes is left to every reader of its segment, behind what was left
/// before.
pub proof fn law_commit_is_left_to_every_reader(
    w: WriterState,
    regions: Seq<Seq<u8>>,
    filled: Seq<u8>,
    message_type: u16,
    length: u32,
    user_meta: u64,
    position: int,
)
    requires
        w.wf(),
        w.at_tail(regions),
        ready_to_commit(w, regions, filled),
        w.commit_fault(length) is None,
        0 <= position,
        position % 8 == 0,
        left_at(regions, w.region_size as int, position).stop == (SegStop::Tail {
            region: w.current_region_index as int,
            off: w.off(),
        }),
    ensures
        left_at(
            committed(w, regions, filled, message_type, length, user_meta),
            w.region_size as int,
            position,
        ) == (SegWalk {
            records: left_at(regions, w.region_size as int, position).records.push(
                Record {
                    message_type,
                    user_meta,
                    payload: filled.subrange(
                        w.off() + HEADER_SLOT,
                        w.off() + HEADER_SLOT + length,
                    ),
                },
            ),
            stop: SegStop::Tail {
                region: w.current_region_index as int,
                off: w.moved(length).off(),
            },
        }),
{
    let size = w.region_size as int;
    let cur = w.current_region_index as int;
    let b = committed(w, regions, filled, message_type, length, user_meta);
    lemma_place(position, size);
    crate::writer_laws::lemma_committed_tail(w, regions, filled, message_type, length, user_meta);
    crate::log::lemma_seg_prefix(
        regions,
        b,
        size,
        position / size,
        position % size,
        cur,
        w.off(),
    );
    let before = left_at(regions, size, position).records;
    let record = record_at(b[cur], w.off());
    assert(before + seq![record] =~= before.push(record));
}

/// A change inside the channel header of a segment, such as counting a message, changes
/// nothing of what is left to a reader.
pub proof fn law_counting_keeps_what_is_left(
    regions: Seq<Seq<u8>>,
    size: int,
    t: Seq<u8>,
    position: int,
)
    requires
        regions_of(regions, size),
        regions.len() > 0,
        segment_head(regions[0]),
        t.len() == size,
        forall|i: int| 0 <= i < HEADER_SLOT ==> regions[0][i] == t[i],
        forall|i: int| FIRST_SLOT <= i < size ==> regions[0][i] == t[i],
        0 <= position,
        position < size ==> position == 0 || position >= FIRST_SLOT,
    ensures
        left_at(regions.update(0, t), size, position) == left_at(regions, size, position),
{
    let b = regions.update(0, t);
    let idx = position / size;
    let off = position % size;
    crate::layout::lemma_split(position, size);
    if position < size {
        crate::layout::lemma_position(0, position, size);
        if position == 0 {
            crate::log::lemma_head_update(regions[0], t);
        } else {
            crate::log::lemma_walk_frame(regions[0], t, off, size);
        }
    } else {
        assert(idx >= 1) by (nonlinear_arith)
            requires
                position == idx * size + off,
                off < size,
                position >= size,
                size > 0,
        ;
    }
    if idx < regions.len() {
        crate::log::lemma_seg_frame(b, regions, idx, off, off);
    }
}

/// Moving on to the next region changes nothing of what is left to a reader.
pub proof fn law_region_roll_keeps_what_is_left(
    w: WriterState,
    regions: Seq<Seq<u8>>,
    position: int,
)
    requires
        w.wf(),
        w.at_tail(regions),
        w.current_region_index + 1 < regions.len(),
        (w.current_region_index + 2) * w.region_size <= w.file_len,
        0 <= position,
        position % 8 == 0,
        left_at(regions, w.region_size as int, position).stop == (SegStop::Tail {
            region: w.current_region_index as int,
            off: w.off(),
        }),
    ensures
        left_at(rolled_over(w, regions), w.region_size as int, position) == (SegWalk {
            records: left_at(regions, w.region_size as int, position).records,
            stop: SegStop::Tail { region: w.current_region_index + 1, off: 0 },
        }),
{
    let size = w.region_size as int;
    let cur = w.current_region_index as int;
    let off = w.off();
    let b = rolled_over(w, regions);
    let before = left_at(regions, size, position).records;
    lemma_place(position, size);
    w.lemma_at();
    crate::log::lemma_seg_stop_bounds(regions, size, position / size, position % size);
    crate::writer_laws::law_region_roll_keeps_the_log(w, regions);
    crate::log::lemma_seg_prefix(
        regions,
        b,
        size,
        position / size,
        position % size,
        cur,
        off,
    );
    let t = b[cur];
    crate::layout::law_align_up(off + HEADER_SLOT + w.skip_len(), 0);
    assert(slot_at(t, off, size) == Slot::Service { next: size });
    assert(walk(t, size, size).records =~= seq![]);
    assert(slot_at(b[cur + 1], 0, size) == Slot::Waiting);
    assert(seg_walk(b, cur + 1, 0).records =~= seq![]);
    assert(seg_walk(b, cur, off).records =~= seq![]);
    assert(before + Seq::<Record>::empty() =~= before);
}

/// Marking the end of a segment changes nothing of what is left to a reader; it leads
/// the reader on to the next segment.
pub proof fn law_roll_keeps_what_is_left(
    w: WriterState,
    regions: Seq<Seq<u8>>,
    now_ns: u64,
    position: int,
)
    requires
        w.wf(),
        w.at_tail(regions),
        0 <= position,
        position % 8 == 0,
        left_at(regions, w.region_size as int, position).stop == (SegStop::Tail {
            region: w.current_region_index as int,
            off: w.off(),
        }),
    ensures
        left_at(rolled(w, regions, now_ns), w.region_size as int, position) == (SegWalk {
            records: left_at(regions, w.region_size as int, position).records,
            stop: SegStop::Roll { region: w.current_region_index as int, off: w.off() },
        }),
{
    let size = w.region_size as int;
    let cur = w.current_region_index as int;
    let off = w.off();
    let b = rolled(w, regions, now_ns);
    let h = roll_header(0, now_ns);
    let s = crate::bytes::put(regions[cur], off, h.bytes());
    let before = left_at(regions, size, position).records;
    lemma_place(position, size);
    w.lemma_at();
    crate::log::lemma_seg_stop_bounds(regions, size, position / size, position % size);
    crate::channel::law_message_header_round_trip(regions[cur], off, h);
    crate::channel::law_commit_sets_the_flag_only(s, off);
    crate::log::lemma_seg_prefix(
        regions,
        b,
        size,
        position / size,
        position % size,
        cur,
        off,
    );
    assert(slot_at(b[cur], off, size) == Slot::Roll);
    assert(seg_walk(b, cur, off).records =~= seq![]);
    assert(before + Seq::<Record>::empty() =~= before);
}

/// What is appended to the last segment of a channel is left to every reader of the
/// channel, whichever segment it is in, behind what was left before.
pub proof fn law_channel_left_grows(
    segments: Seq<Seq<Seq<u8>>>,
    last: Seq<Seq<u8>>,
    record: Record,
    size: int,
    i: int,
    position: int,
)
    requires
        0 <= i < segments.len(),
        rolled_up_to_last(segments),
        !(seg_log(segments.last()).stop is Roll),
        !(seg_log(last).stop is Roll),
        seg_log(last).records == seg_log(segments.last()).records.push(record),
        i < segments.len() - 1 ==> left_at(segments[i], size, position).stop is Roll,
        i == segments.len() - 1 ==> {
            &&& !(left_at(segments[i], size, position).stop is Roll)
            &&& !(left_at(last, size, position).stop is Roll)
            &&& left_at(last, size, position).records == left_at(
                segments[i],
                size,
                position,
            ).records.push(record)
        },
    ensures
        channel_left(segments.update(segments.len() - 1, last), size, i, position)
            == channel_left(segments, size, i, position).push(record),
{
    if i < segments.len() - 1 {
        law_channel_grows_at_its_last_segment(segments, last, record, i + 1);
        let here = left_at(segments[i], size, position).records;
        let rest = channel_log(segments, i + 1);
        assert(here + rest.push(record) =~= (here + rest).push(record));
    }
}

/// Rolling to the next segment changes nothing of what is left to a reader of the
/// channel, whichever segment it is in.
pub proof fn law_channel_left_survives_a_roll(
    segments: Seq<Seq<Seq<u8>>>,
    ended: Seq<Seq<u8>>,
    fresh: Seq<Seq<u8>>,
    size: int,
    i: int,
    position: int,
)
    requires
        0 <= i < segments.len(),
        rolled_up_to_last(segments),
        !(seg_log(segments.last()).stop is Roll),
        seg_log(ended).stop is Roll,
        seg_log(ended).records == seg_log(segments.last()).records,
        seg_log(fresh).records.len() == 0,
        !(seg_log(fresh).stop is Roll),
        i < segments.len() - 1 ==> left_at(segments[i], size, position).stop is Roll,
        i == segments.len() - 1 ==> {
            &&& !(left_at(segments[i], size, position).stop is Roll)
            &&& left_at(ended, size, position).stop is Roll
            &&& left_at(ended, size, position).records == left_at(
                segments[i],
                size,
                position,
            ).records
        },
    ensures
        channel_left(segments.update(segments.len() - 1, ended).push(fresh), size, i, position)
            == channel_left(segments, size, i, position),
{
    let after = segments.update(segments.len() - 1, ended).push(fresh);
    let n = segments.len() as int;
    assert(channel_log(after, n) =~= seq![]);
    if i < n - 1 {
        lemma_log_survives_a_roll(segments, ended, fresh, i + 1);
    } else {
        let here = left_at(ended, size, position).records;
        assert(here + Seq::<Record>::empty() =~= here);
    }
}

proof fn lemma_log_survives_a_roll(
    segments: Seq<Seq<Seq<u8>>>,
    ended: Seq<Seq<u8>>,
    fresh: Seq<Seq<u8>>,
    from: int,
)
    requires
        0 <= from < segments.len(),
        rolled_up_to_last(segments),
        !(seg_log(segments.last()).stop is Roll),
        seg_log(ended).stop is Roll,
        seg_log(ended).records == seg_log(segments.last()).records,
        seg_log(fresh).records.len() == 0,
        !(seg_log(fresh).stop is Roll),
    ensures
        channel_log(segments.update(segments.len() - 1, ended).push(fresh), from) == channel_log(
            segments,
            from,
        ),
    decreases segments.len() - from,
{
    let after = segments.update(segments.len() - 1, ended).push(fresh);
    let n = segments.len() as int;
    if from < n - 1 {
        lemma_log_survives_a_roll(segments, ended, fresh, from + 1);
        assert(seg_log(segments[from]).stop is Roll);
    } else {
        assert(channel_log(after, n) =~= seq![]);
        let here = seg_log(ended).records;
        assert(here + Seq::<Record>::empty() =~= here);
    }
}

/// A reader that joins late yields every message of the series, from the segment that it
/// opens to the last one.
pub proof fn law_late_join_yields_the_series(segments: Seq<Seq<Seq<u8>>>, size: int, i: int)
    requires
        size > 0,
        0 <= i < segments.len(),
        segments[i].len() > 0,
    ensures
        channel_left(
            segments,
            size,
            i,
            start_position(segments[i][0], ReaderMode::LateJoin) as int,
        ) == channel_log(segments, i),
{
    crate::layout::lemma_position(0, 0, size);
}

/// A reader that joins live yields nothing from before, and the next message that is
/// committed, counted or not, is the first that it yields.
pub proof fn law_live_join_yields_what_comes_after(
    w: WriterState,
    regions: Seq<Seq<u8>>,
    filled: Seq<u8>,
    message_type: u16,
    length: u32,
    user_meta: u64,
)
    requires
        w.in_order(regions),
        ready_to_commit(w, regions, filled),
        w.commit_fault(length) is None,
    ensures
        ({
            let size = w.region_size as int;
            let position = start_position(regions[0], ReaderMode::Live) as int;
            let b = committed(w, regions, filled, message_type, length, user_meta);
            let after = b.update(
                0,
                counted(b[0], (w.next_pos(length) + HEADER_SLOT) as u64),
            );
            let record = Record {
                message_type,
                user_meta,
                payload: filled.subrange(w.off() + HEADER_SLOT, w.off() + HEADER_SLOT + length),
            };
            &&& channel_left(seq![regions], size, 0, position) == Seq::<Record>::empty()
            &&& channel_left(seq![b], size, 0, position) == seq![record]
            &&& channel_left(seq![after], size, 0, position) == seq![record]
        }),
{
    broadcast use crate::bytes::group_le_len;

    let size = w.region_size as int;
    let position = start_position(regions[0], ReaderMode::Live) as int;
    let b = committed(w, regions, filled, message_type, length, user_meta);
    let t = counted(b[0], (w.next_pos(length) + HEADER_SLOT) as u64);
    law_live_reader_starts_at_the_tail(w, regions, ReaderMode::Live);
    law_commit_is_left_to_every_reader(
        w,
        regions,
        filled,
        message_type,
        length,
        user_meta,
        position,
    );
    let record = left_at(b, size, position).records[0];
    assert(Seq::<Record>::empty().push(record) =~= seq![record]);
    w.lemma_at();
    crate::writer_laws::lemma_committed_tail(w, regions, filled, message_type, length, user_meta);
    crate::writer_laws::lemma_tail_behind_head(
        regions,
        size,
        w.current_region_index as int,
        w.off(),
    );
    crate::writer_laws::lemma_commit_keeps_head(
        w,
        regions,
        filled,
        message_type,
        length,
        user_meta,
    );
    crate::channel::lemma_header_frame(regions[0], b[0], 0);
    if position < size {
        crate::layout::lemma_position(0, position, size);
    }
    law_counting_keeps_what_is_left(b, size, t, position);
}

/// A reader that has read everything stands where the writer stands, and being caught up
/// means just that.
pub proof fn law_caught_up_is_at_the_writer<M>(
    reader: ReaderView<M>,
    w: WriterState,
    regions: Seq<Seq<u8>>,
)
    requires
        reader.wf(),
        w.wf(),
        w.at_tail(regions),
        reader.region_size_cached == w.region_size,
        reader.region() < regions.len(),
        reader.left(regions).stop == seg_log(regions).stop,
    ensures
        reader.hit(regions[reader.region()], w.region_size as int) is Tail ==> reader.rest_at(
            regions[reader.region()],
            w.region_size as int,
            true,
        ) == w.next_hdr_pos,
{
    law_reading_takes_the_first_message(reader, regions, true);
    w.lemma_at();
}

/// After a commit the next read of a reader that has read everything is that message, and
/// the read after that finds nothing.
pub proof fn law_commit_is_the_next_read<M>(
    reader: ReaderView<M>,
    w: WriterState,
    regions: Seq<Seq<u8>>,
    filled: Seq<u8>,
    message_type: u16,
    length: u32,
    user_meta: u64,
)
    requires
        reader.wf(),
        reader.region_size_cached == w.region_size,
        reader.read_position == w.next_hdr_pos,
        w.wf(),
        w.at_tail(regions),
        ready_to_commit(w, regions, filled),
        w.commit_fault(length) is None,
    ensures
        ({
            let size = w.region_size as int;
            let bytes = committed(
                w,
                regions,
                filled,
                message_type,
                length,
                user_meta,
            )[w.current_region_index as int];
            let next = ReaderView { read_position: w.moved(length).next_hdr_pos, ..reader };
            &&& reader.region() == w.current_region_index
            &&& reader.hit(bytes, size) == (Hit::User { off: w.off() })
            &&& record_at(bytes, w.off()) == Record {
                message_type,
                user_meta,
                payload: filled.subrange(w.off() + HEADER_SLOT, w.off() + HEADER_SLOT + length),
            }
            &&& reader.rest_at(bytes, size, true) == next.read_position
            &&& next.region() == w.current_region_index
            &&& next.hit(bytes, size) is Tail
        }),
{
    w.lemma_at();
    crate::writer_laws::lemma_committed_tail(w, regions, filled, message_type, length, user_meta);
    w.moved(length).lemma_at();
    crate::layout::law_align_up(HEADER_SLOT + length, w.off());
}

/// A reader that has observed fewer commit flags sees fewer messages, never others:
/// what it sees is a beginning of what is there.
pub proof fn law_observing_less_shows_a_prefix(r: Seq<u8>, off: int, seen: int, more: int)
    requires
        seen <= more,
    ensures
        walk(r, off, seen).records.is_prefix_of(walk(r, off, more).records),
    decreases crate::log::room(r, off),
{
    if off < r.len() && off < seen {
        assert(slot_at(r, off, seen) == slot_at(r, off, more));
        match slot_at(r, off, seen) {
            Slot::Service { next } => {
                law_observing_less_shows_a_prefix(r, next, seen, more);
            },
            Slot::User { next } => {
                law_observing_less_shows_a_prefix(r, next, seen, more);
                let a = walk(r, next, seen).records;
                let b = walk(r, next, more).records;
                let here = seq![record_at(r, off)];
                assert((here + b).subrange(0, 1 + a.len() as int) =~= here + b.subrange(
                    0,
                    a.len() as int,
                ));
            },
            _ => {},
        }
    } else {
        assert(walk(r, off, seen).records =~= seq![]);
    }
}

} // verus!
