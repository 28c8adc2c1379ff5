//! What holds of a segment whatever its writer does.
use vstd::prelude::*;

use crate::channel::{
    base_record_index_at, generation_at, header_at, message_count_at, next_index_at,
    preinstalled_header, segment_fault, write_position_at, HeaderType, COMMITTED, FIRST_SLOT,
    HEADER_SLOT,
};
use crate::error::Error;
use crate::layout::MAX_FILE_OFFSET;
use crate::log::{
    channel_log, record_at, regions_of, seg_log, seg_walk, segment_head, slot_at, walk, Hit,
    Record, SegStop, SegWalk, Slot, Walk,
};
use crate::segment::{
    prepared, recovered, recovered_slot, recovery, reopen_fits, reopening, Recovery, Reopen,
    SegmentSpec,
};
use crate::writer::{
    counted, preinstalled_at, record_span, roll_header, settled, skip_header, staged_at,
    user_header, Reserve, WriterState,
};

verus! {

broadcast use crate::channel::group_header_len;

impl WriterState {
    /// The regions of the segment have the writer's size, and the messages in them
    /// end at the slot where the writer stands.
    pub open spec fn at_tail(self, regions: Seq<Seq<u8>>) -> bool {
        &&& regions_of(regions, self.region_size as int)
        &&& seg_log(regions).stop == SegStop::Tail {
            region: self.current_region_index as int,
            off: self.off(),
        }
    }

    /// The segment is as its writer leaves it between two calls: the writer stands
    /// at the tail, the slot there is pre-installed, the channel header is valid, it
    /// counts the messages, and it leads to the tail.
    pub open spec fn in_order(self, regions: Seq<Seq<u8>>) -> bool {
        &&& self.wf()
        &&& self.at_tail(regions)
        &&& header_at(regions[self.current_region_index as int], self.off())
            == preinstalled_header()
        &&& segment_head(regions[0])
        &&& segment_fault(regions[0], self.region_size, self.file_sequence) is None
        &&& message_count_at(regions[0]) == seg_log(regions).records.len()
        &&& write_position_at(regions[0]) == self.next_hdr_pos + HEADER_SLOT
    }
}

/// Nothing that happens at or behind the tail is seen while the slot at the tail
/// stays unpublished: reserving, filling in a payload and staging a header show no
/// reader anything.
pub proof fn law_unpublished_is_invisible(
    regions: Seq<Seq<u8>>,
    size: int,
    region: int,
    off: int,
    t: Seq<u8>,
)
    requires
        regions_of(regions, size),
        seg_log(regions).stop == (SegStop::Tail { region, off }),
        t.len() == size,
        forall|i: int| 0 <= i < off ==> t[i] == regions[region][i],
        header_at(t, off).committed == 0,
    ensures
        seg_log(regions.update(region, t)) == seg_log(regions),
{
    let b = regions.update(region, t);
    crate::log::lemma_seg_stop_bounds(regions, size, 0, 0);
    crate::log::lemma_seg_prefix(regions, b, size, 0, 0, region, off);
    assert(slot_at(t, off, size) == Slot::Waiting);
    assert(seg_walk(b, region, off).records =~= seq![]);
    assert(seg_log(regions).records + Seq::<Record>::empty() =~= seg_log(regions).records);
}

/// A writer touches nothing that is published: whatever it does to its current region,
/// the bytes before the tail stay as they are.
pub proof fn law_published_bytes_stay(
    w: WriterState,
    r: Seq<u8>,
    msg_size: usize,
    message_type: u16,
    length: u32,
    meta: u64,
    i: int,
)
    requires
        w.wf(),
        r.len() == w.region_size,
        0 <= i < w.off(),
    ensures
        preinstalled_at(r, w.off() + record_span(msg_size as int))[i] == r[i],
        staged_at(r, w.off(), msg_size, message_type, length, meta)[i] == r[i],
        crate::bytes::put(r, w.off(), skip_header(0, w.skip_len() as u32).bytes())[i] == r[i],
        crate::bytes::put(r, w.off(), roll_header(0, meta).bytes())[i] == r[i],
        r.update(w.off(), COMMITTED)[i] == r[i],
{
    w.lemma_at();
}

/// What the header slots say after a commit.
proof fn lemma_committed_region(
    r: Seq<u8>,
    off: int,
    reserved: usize,
    message_type: u16,
    length: u32,
    user_meta: u64,
)
    requires
        0 <= off,
        off % 8 == 0,
        r.len() % 8 == 0,
        length <= reserved,
        off + record_span(reserved as int) + HEADER_SLOT <= r.len(),
        header_at(r, off + record_span(reserved as int)) == preinstalled_header(),
    ensures
        ({
            let t = staged_at(r, off, reserved, message_type, length, user_meta).update(
                off,
                COMMITTED,
            );
            let next = off + record_span(length as int);
            &&& t.len() == r.len()
            &&& forall|i: int| 0 <= i < off ==> t[i] == r[i]
            &&& header_at(t, off) == user_header(1, message_type, length, user_meta)
            &&& header_at(t, next) == preinstalled_header()
            &&& slot_at(t, off, t.len() as int) == Slot::User { next }
            &&& slot_at(t, next, t.len() as int) == Slot::Waiting
            &&& next + HEADER_SLOT <= r.len()
            &&& next % 8 == 0
            &&& record_at(t, off) == Record {
                message_type,
                user_meta,
                payload: r.subrange(off + HEADER_SLOT, off + HEADER_SLOT + length),
            }
        }),
{
    let h = user_header(0, message_type, length, user_meta);
    let a = crate::bytes::put(r, off, h.bytes());
    let s = staged_at(r, off, reserved, message_type, length, user_meta);
    let t = s.update(off, COMMITTED);
    let next = off + record_span(length as int);
    crate::layout::law_align_up(HEADER_SLOT + length, off);
    crate::layout::law_align_up(HEADER_SLOT + reserved, off);
    crate::channel::law_message_header_round_trip(r, off, h);
    assert(h.bytes().len() == 16);
    crate::channel::law_message_header_round_trip(a, next, preinstalled_header());
    assert(preinstalled_header().bytes().len() == 16);
    assert(forall|i: int| off <= i < off + 16 ==> s[i] == a[i]);
    crate::log::lemma_slot_frame(a, s, off, r.len() as int);
    crate::channel::law_commit_sets_the_flag_only(s, off);
    if length < reserved {
        assert(forall|i: int| next <= i < next + 16 ==> t[i] == preinstalled_at(a, next)[i]);
        crate::log::lemma_slot_frame(preinstalled_at(a, next), t, next, r.len() as int);
    } else {
        assert(forall|i: int| next <= i < next + 16 ==> t[i] == r[i]);
        crate::log::lemma_slot_frame(r, t, next, r.len() as int);
    }
    assert(t.subrange(off + HEADER_SLOT, off + HEADER_SLOT + length) =~= r.subrange(
        off + HEADER_SLOT,
        off + HEADER_SLOT + length,
    ));
}

/// A commit appends its message to the log and does nothing else to it: what stood
/// there before stands there still, and the writer stands at the new tail.
///
/// `filled` is the current region as it is when the commit is called: before the
/// tail as it was, and with a free slot behind the reservation.
pub proof fn law_commit_appends(
    w: WriterState,
    regions: Seq<Seq<u8>>,
    filled: Seq<u8>,
    message_type: u16,
    length: u32,
    user_meta: u64,
)
    requires
        w.wf(),
        w.at_tail(regions),
        w.commit_fault(length) is None,
        filled.len() == w.region_size,
        forall|i: int|
            0 <= i < w.off() ==> filled[i] == regions[w.current_region_index as int][i],
        header_at(filled, w.off() + record_span(w.pending_msg_size->Some_0 as int))
            == preinstalled_header(),
    ensures
        ({
            let t = staged_at(
                filled,
                w.off(),
                w.pending_msg_size->Some_0,
                message_type,
                length,
                user_meta,
            ).update(w.off(), COMMITTED);
            let after = regions.update(w.current_region_index as int, t);
            &&& seg_log(after).records == seg_log(regions).records.push(
                Record {
                    message_type,
                    user_meta,
                    payload: filled.subrange(
                        w.off() + HEADER_SLOT,
                        w.off() + HEADER_SLOT + length,
                    ),
                },
            )
            &&& w.moved(length).wf()
            &&& w.moved(length).at_tail(after)
            &&& header_at(t, w.moved(length).off()) == preinstalled_header()
            &&& forall|i: int|
                0 <= i < w.off() ==> t[i] == regions[w.current_region_index as int][i]
        }),
{
    let reserved = w.pending_msg_size->Some_0;
    let region = w.current_region_index as int;
    let off = w.off();
    let size = w.region_size as int;
    let t = staged_at(filled, off, reserved, message_type, length, user_meta).update(
        off,
        COMMITTED,
    );
    let after = regions.update(region, t);
    let next = off + record_span(length as int);
    w.lemma_at();
    crate::log::lemma_seg_stop_bounds(regions, size, 0, 0);
    lemma_committed_region(filled, off, reserved, message_type, length, user_meta);
    crate::layout::lemma_position(region, next, size);
    crate::log::lemma_seg_push(regions, size, region, off, t, next);
}

/// What is written is what is appended: after reserving room, filling in a payload
/// and committing it, the log has one message more, with that payload.
pub proof fn law_write_appends_the_payload(
    w: WriterState,
    regions: Seq<Seq<u8>>,
    msg_size: usize,
    payload: Seq<u8>,
    message_type: u16,
    user_meta: u64,
)
    requires
        w.wf(),
        w.at_tail(regions),
        w.reservation(msg_size) matches Ok(Reserve::Ready { .. }),
        payload.len() <= msg_size,
    ensures
        ({
            let region = w.current_region_index as int;
            let length = payload.len() as u32;
            let waiting = WriterState { pending_msg_size: Some(msg_size), ..w };
            let reserved = preinstalled_at(
                regions[region],
                w.off() + record_span(msg_size as int),
            );
            let filled = crate::bytes::put(reserved, w.off() + HEADER_SLOT, payload);
            let t = staged_at(
                filled,
                w.off(),
                msg_size,
                message_type,
                length,
                user_meta,
            ).update(w.off(), COMMITTED);
            &&& waiting.commit_fault(length) is None
            &&& seg_log(regions.update(region, t)).records == seg_log(regions).records.push(
                Record { message_type, user_meta, payload },
            )
            &&& waiting.moved(length).at_tail(regions.update(region, t))
        }),
{
    let region = w.current_region_index as int;
    let length = payload.len() as u32;
    let off = w.off();
    let waiting = WriterState { pending_msg_size: Some(msg_size), ..w };
    let slot = off + record_span(msg_size as int);
    let reserved = preinstalled_at(regions[region], slot);
    let filled = crate::bytes::put(reserved, off + HEADER_SLOT, payload);
    w.lemma_at();
    crate::log::lemma_seg_stop_bounds(regions, w.region_size as int, 0, 0);
    crate::layout::law_align_up(HEADER_SLOT + msg_size, off);
    crate::channel::law_message_header_round_trip(regions[region], slot, preinstalled_header());
    assert(preinstalled_header().bytes().len() == 16);
    crate::log::lemma_slot_frame(reserved, filled, slot, w.region_size as int);
    law_commit_appends(waiting, regions, filled, message_type, length, user_meta);
    assert(filled.subrange(off + HEADER_SLOT, off + HEADER_SLOT + length) =~= payload);
}

/// The channel header fields of a segment are its own bytes.
proof fn lemma_head_frame(r: Seq<u8>, t: Seq<u8>, region_size: usize, sequence: u64)
    requires
        FIRST_SLOT <= r.len(),
        r.len() == t.len(),
        forall|i: int| 0 <= i < FIRST_SLOT ==> r[i] == t[i],
    ensures
        segment_head(r) == segment_head(t),
        segment_fault(r, region_size, sequence) == segment_fault(t, region_size, sequence),
        message_count_at(r) == message_count_at(t),
        write_position_at(r) == write_position_at(t),
        base_record_index_at(r) == base_record_index_at(t),
        generation_at(r) == generation_at(t),
{
    crate::channel::lemma_header_frame(r, t, 0);
    crate::bytes::lemma_le64_frame(r, t, 16);
    crate::bytes::lemma_le64_frame(r, t, 24);
    lemma_identity_frame(r, t, region_size, sequence);
}

/// What a channel header says beside its count and its write position.
proof fn lemma_identity_frame(r: Seq<u8>, t: Seq<u8>, region_size: usize, sequence: u64)
    requires
        FIRST_SLOT <= r.len(),
        r.len() == t.len(),
        forall|i: int| 32 <= i < FIRST_SLOT ==> r[i] == t[i],
    ensures
        segment_fault(r, region_size, sequence) == segment_fault(t, region_size, sequence),
        base_record_index_at(r) == base_record_index_at(t),
        generation_at(r) == generation_at(t),
{
    crate::bytes::lemma_le64_frame(r, t, 32);
    crate::bytes::lemma_le64_frame(r, t, 40);
    crate::bytes::lemma_le32_frame(r, t, 48);
    crate::bytes::lemma_le16_frame(r, t, 56);
    crate::bytes::lemma_le32_frame(r, t, 60);
    crate::bytes::lemma_le64_frame(r, t, 136);
}

/// The tail of a segment is not inside its channel header.
pub proof fn lemma_tail_behind_head(regions: Seq<Seq<u8>>, size: int, region: int, off: int)
    requires
        regions_of(regions, size),
        regions.len() > 0,
        segment_head(regions[0]),
        seg_log(regions).stop == (SegStop::Tail { region, off }),
    ensures
        0 <= region < regions.len(),
        region == 0 ==> off >= FIRST_SLOT,
        off + HEADER_SLOT <= size,
        off % 8 == 0,
{
    crate::log::lemma_seg_stop_bounds(regions, size, 0, 0);
    crate::log::lemma_head_is_skipped(regions[0]);
    crate::log::lemma_stop_bounds(regions[0], FIRST_SLOT as int, size);
    if walk(regions[0], 0, size).stop is Edge {
        crate::log::lemma_seg_stop_bounds(regions, size, 1, 0);
    }
}

/// Storing a write position changes the write position and nothing else that a
/// segment says.
pub proof fn law_store_wp_keeps_the_log(
    regions: Seq<Seq<u8>>,
    size: int,
    position: u64,
    region_size: usize,
    sequence: u64,
)
    requires
        regions_of(regions, size),
        regions.len() > 0,
        segment_head(regions[0]),
    ensures
        ({
            let t = crate::bytes::put(regions[0], 16, crate::bytes::le64_bytes(position));
            let after = regions.update(0, t);
            &&& regions_of(after, size)
            &&& seg_log(after) == seg_log(regions)
            &&& segment_head(t)
            &&& write_position_at(t) == position
            &&& message_count_at(t) == message_count_at(regions[0])
            &&& base_record_index_at(t) == base_record_index_at(regions[0])
            &&& generation_at(t) == generation_at(regions[0])
            &&& segment_fault(t, region_size, sequence) == segment_fault(
                regions[0],
                region_size,
                sequence,
            )
            &&& forall|i: int| FIRST_SLOT <= i < size ==> t[i] == regions[0][i]
        }),
{
    broadcast use crate::bytes::group_le_len;

    let r = regions[0];
    let t = crate::bytes::put(r, 16, crate::bytes::le64_bytes(position));
    crate::log::lemma_head_update(r, t);
    crate::log::lemma_seg_frame(regions.update(0, t), regions, 0, 0, 0);
    crate::segment::lemma_stored_wp(r, position);
    lemma_identity_frame(r, t, region_size, sequence);
}

/// Counting a message changes the count and the write position of a segment and
/// nothing else that it says.
pub proof fn law_counting_keeps_the_log(
    regions: Seq<Seq<u8>>,
    size: int,
    position: u64,
    region_size: usize,
    sequence: u64,
)
    requires
        regions_of(regions, size),
        regions.len() > 0,
        segment_head(regions[0]),
        message_count_at(regions[0]) < u64::MAX,
    ensures
        ({
            let t = counted(regions[0], position);
            let after = regions.update(0, t);
            &&& regions_of(after, size)
            &&& seg_log(after) == seg_log(regions)
            &&& segment_head(t)
            &&& write_position_at(t) == position
            &&& message_count_at(t) == message_count_at(regions[0]) + 1
            &&& base_record_index_at(t) == base_record_index_at(regions[0])
            &&& generation_at(t) == generation_at(regions[0])
            &&& segment_fault(t, region_size, sequence) == segment_fault(
                regions[0],
                region_size,
                sequence,
            )
            &&& forall|i: int| FIRST_SLOT <= i < size ==> t[i] == regions[0][i]
        }),
{
    broadcast use crate::bytes::group_le_len;

    let r = regions[0];
    let t = counted(r, position);
    crate::writer::lemma_counted(r, position);
    crate::log::lemma_head_update(r, t);
    crate::log::lemma_seg_frame(regions.update(0, t), regions, 0, 0, 0);
    lemma_identity_frame(r, t, region_size, sequence);
}

/// The slot behind a message is free before the message is published, so that a
/// reader that steps over the message always comes to a sound slot.
pub proof fn law_next_slot_is_free_before_publication(
    w: WriterState,
    filled: Seq<u8>,
    message_type: u16,
    length: u32,
    user_meta: u64,
)
    requires
        w.wf(),
        w.commit_fault(length) is None,
        filled.len() == w.region_size,
        header_at(filled, w.off() + record_span(w.pending_msg_size->Some_0 as int))
            == preinstalled_header(),
    ensures
        ({
            let staged = staged_at(
                filled,
                w.off(),
                w.pending_msg_size->Some_0,
                message_type,
                length,
                user_meta,
            );
            &&& header_at(staged, w.off()).committed == 0
            &&& header_at(staged, w.off() + record_span(length as int)) == preinstalled_header()
        }),
{
    let reserved = w.pending_msg_size->Some_0;
    let off = w.off();
    let next = off + record_span(length as int);
    let h = user_header(0, message_type, length, user_meta);
    let a = crate::bytes::put(filled, off, h.bytes());
    let s = staged_at(filled, off, reserved, message_type, length, user_meta);
    w.lemma_at();
    crate::layout::law_align_up(HEADER_SLOT + length, off);
    crate::layout::law_align_up(HEADER_SLOT + reserved, off);
    crate::channel::law_message_header_round_trip(filled, off, h);
    if length < reserved {
        crate::channel::law_message_header_round_trip(a, next, preinstalled_header());
        crate::channel::lemma_header_frame(a, s, off);
    } else {
        crate::channel::lemma_header_frame(filled, s, next);
    }
}

/// The segment after a commit whose message is published but not yet counted.
pub open spec fn committed(
    w: WriterState,
    regions: Seq<Seq<u8>>,
    filled: Seq<u8>,
    message_type: u16,
    length: u32,
    user_meta: u64,
) -> Seq<Seq<u8>> {
    regions.update(
        w.current_region_index as int,
        staged_at(
            filled,
            w.off(),
            w.pending_msg_size->Some_0,
            message_type,
            length,
            user_meta,
        ).update(w.off(), COMMITTED),
    )
}

/// The current region as it may be when a commit is called: before the tail as it
/// was, and with a free slot behind the reservation.
pub open spec fn ready_to_commit(w: WriterState, regions: Seq<Seq<u8>>, filled: Seq<u8>) -> bool {
    &&& filled.len() == w.region_size
    &&& forall|i: int|
        0 <= i < w.off() ==> filled[i] == regions[w.current_region_index as int][i]
    &&& w.pending_msg_size is Some
    &&& header_at(filled, w.off() + record_span(w.pending_msg_size->Some_0 as int))
        == preinstalled_header()
}

/// A commit leaves the head of its segment alone.
pub proof fn lemma_commit_keeps_head(
    w: WriterState,
    regions: Seq<Seq<u8>>,
    filled: Seq<u8>,
    message_type: u16,
    length: u32,
    user_meta: u64,
)
    requires
        w.in_order(regions),
        ready_to_commit(w, regions, filled),
        w.commit_fault(length) is None,
    ensures
        ({
            let b = committed(w, regions, filled, message_type, length, user_meta);
            &&& b.len() == regions.len()
            &&& b[0].len() == w.region_size
            &&& forall|i: int| 0 <= i < FIRST_SLOT ==> b[0][i] == regions[0][i]
        }),
{
    w.lemma_at();
    crate::log::lemma_seg_stop_bounds(regions, w.region_size as int, 0, 0);
    lemma_tail_behind_head(
        regions,
        w.region_size as int,
        w.current_region_index as int,
        w.off(),
    );
    lemma_committed_region(
        filled,
        w.off(),
        w.pending_msg_size->Some_0,
        message_type,
        length,
        user_meta,
    );
}

/// A commit, counted, leaves the segment in order: one message more, counted, and
/// the stored write position leads to the new tail.
pub proof fn law_commit_keeps_order(
    w: WriterState,
    regions: Seq<Seq<u8>>,
    filled: Seq<u8>,
    message_type: u16,
    length: u32,
    user_meta: u64,
)
    requires
        w.in_order(regions),
        ready_to_commit(w, regions, filled),
        w.commit_fault(length) is None,
        message_count_at(regions[0]) < u64::MAX,
    ensures
        ({
            let b = committed(w, regions, filled, message_type, length, user_meta);
            let after = b.update(
                0,
                counted(b[0], (w.next_pos(length) + HEADER_SLOT) as u64),
            );
            &&& w.moved(length).in_order(after)
            &&& seg_log(after).records == seg_log(regions).records.push(
                Record {
                    message_type,
                    user_meta,
                    payload: filled.subrange(
                        w.off() + HEADER_SLOT,
                        w.off() + HEADER_SLOT + length,
                    ),
                },
            )
            &&& next_index_at(after[0]) == next_index_at(regions[0]) + 1
        }),
{
    let b = committed(w, regions, filled, message_type, length, user_meta);
    let position = (w.next_pos(length) + HEADER_SLOT) as u64;
    let after = b.update(0, counted(b[0], position));
    let m = w.moved(length);
    let cur = w.current_region_index as int;
    law_commit_appends(w, regions, filled, message_type, length, user_meta);
    lemma_commit_keeps_head(w, regions, filled, message_type, length, user_meta);
    lemma_head_frame(regions[0], b[0], w.region_size, w.file_sequence);
    law_counting_keeps_the_log(
        b,
        w.region_size as int,
        position,
        w.region_size,
        w.file_sequence,
    );
    w.lemma_at();
    m.lemma_at();
    lemma_tail_behind_head(b, w.region_size as int, cur, m.off());
    crate::channel::lemma_header_frame(b[cur], after[cur], m.off());
}

/// Growing the file of a segment changes no message.
pub proof fn law_growing_keeps_the_log(a: Seq<Seq<u8>>, b: Seq<Seq<u8>>, size: int)
    requires
        regions_of(a, size),
        regions_of(b, size),
        a.len() <= b.len(),
        forall|i: int| 0 <= i < a.len() ==> a[i] == b[i],
        seg_log(a).stop is Tail,
    ensures
        seg_log(b) == seg_log(a),
{
    let region = seg_log(a).stop->Tail_region;
    let off = seg_log(a).stop->Tail_off;
    crate::log::lemma_seg_stop_bounds(a, size, 0, 0);
    crate::log::lemma_seg_prefix(a, b, size, 0, 0, region, off);
    lemma_tail_walk(a, size, region, off);
    assert(seg_walk(b, region, off) == (SegWalk {
        records: seq![],
        stop: SegStop::Tail { region, off },
    }));
    assert(seg_log(a).records + Seq::<Record>::empty() =~= seg_log(a).records);
}

/// At the tail of a segment there is a slot that is not published.
proof fn lemma_tail_walk(regions: Seq<Seq<u8>>, size: int, region: int, off: int)
    requires
        regions_of(regions, size),
        seg_log(regions).stop == (SegStop::Tail { region, off }),
    ensures
        0 <= region < regions.len(),
        walk(regions[region], off, size) == (Walk { records: seq![], stop: Hit::Tail { off } }),
{
    crate::log::lemma_seg_stop_bounds(regions, size, 0, 0);
    lemma_tail_walk_from(regions, size, 0, 0, region, off);
}

proof fn lemma_tail_walk_from(
    regions: Seq<Seq<u8>>,
    size: int,
    idx: int,
    start: int,
    region: int,
    off: int,
)
    requires
        regions_of(regions, size),
        0 <= idx,
        0 <= start,
        start % 8 == 0,
        seg_walk(regions, idx, start).stop == (SegStop::Tail { region, off }),
    ensures
        walk(regions[region], off, size) == (Walk { records: seq![], stop: Hit::Tail { off } }),
    decreases regions.len() - idx,
{
    crate::log::lemma_seg_stop_bounds(regions, size, idx, start);
    let r = regions[idx];
    if walk(r, start, size).stop is Edge {
        lemma_tail_walk_from(regions, size, idx + 1, 0, region, off);
    } else {
        lemma_region_tail(r, start, off);
    }
}

proof fn lemma_region_tail(r: Seq<u8>, start: int, off: int)
    requires
        r.len() % 8 == 0,
        0 <= start,
        start % 8 == 0,
        walk(r, start, r.len() as int).stop == (Hit::Tail { off }),
    ensures
        walk(r, off, r.len() as int) == (Walk { records: seq![], stop: Hit::Tail { off } }),
    decreases crate::log::room(r, start),
{
    match slot_at(r, start, r.len() as int) {
        Slot::Service { next } => {
            lemma_region_tail(r, next, off);
        },
        Slot::User { next } => {
            lemma_region_tail(r, next, off);
        },
        _ => {},
    }
}

/// The segment after its writer has padded the current region and moved on to the
/// next one, before the write position is stored.
pub open spec fn rolled_over(w: WriterState, regions: Seq<Seq<u8>>) -> Seq<Seq<u8>> {
    let cur = w.current_region_index as int;
    regions.update(
        cur,
        crate::bytes::put(
            regions[cur],
            w.off(),
            skip_header(0, w.skip_len() as u32).bytes(),
        ).update(w.off(), COMMITTED),
    ).update(cur + 1, preinstalled_at(regions[cur + 1], 0))
}

/// Moving on to the next region changes no message: the padding leads readers
/// there, and the writer stands at its first slot.
pub proof fn law_region_roll_keeps_the_log(w: WriterState, regions: Seq<Seq<u8>>)
    requires
        w.wf(),
        w.at_tail(regions),
        w.current_region_index + 1 < regions.len(),
        (w.current_region_index + 2) * w.region_size <= w.file_len,
    ensures
        seg_log(rolled_over(w, regions)).records == seg_log(regions).records,
        w.in_next_region().wf(),
        w.in_next_region().at_tail(rolled_over(w, regions)),
        header_at(rolled_over(w, regions)[w.current_region_index + 1], 0)
            == preinstalled_header(),
        header_at(rolled_over(w, regions)[w.current_region_index as int], w.off())
            == skip_header(1, w.skip_len() as u32),
{
    let cur = w.current_region_index as int;
    let off = w.off();
    let size = w.region_size as int;
    let b = rolled_over(w, regions);
    let h = skip_header(0, w.skip_len() as u32);
    let s = crate::bytes::put(regions[cur], off, h.bytes());
    let t = s.update(off, COMMITTED);
    w.lemma_at();
    crate::layout::lemma_position(cur + 1, 0, size);
    crate::layout::lemma_region_start_aligned(cur + 1, size);
    crate::log::lemma_seg_stop_bounds(regions, size, 0, 0);
    crate::channel::law_message_header_round_trip(regions[cur], off, h);
    crate::channel::law_commit_sets_the_flag_only(s, off);
    crate::channel::law_message_header_round_trip(regions[cur + 1], 0, preinstalled_header());
    crate::log::lemma_seg_prefix(regions, b, size, 0, 0, cur, off);
    assert(slot_at(t, off, size) == Slot::Service { next: size });
    assert(walk(t, size, size) == (Walk { records: seq![], stop: Hit::Edge }));
    assert(slot_at(b[cur + 1], 0, size) == Slot::Waiting);
    assert(walk(b[cur + 1], 0, size) == (Walk { records: seq![], stop: Hit::Tail { off: 0 } }));
    assert(seg_walk(b, cur + 1, 0) == (SegWalk {
        records: seq![],
        stop: SegStop::Tail { region: cur + 1, off: 0 },
    }));
    assert(seg_walk(b, cur, off).records =~= seq![]);
    assert(seg_log(regions).records + Seq::<Record>::empty() =~= seg_log(regions).records);
}

/// Moving on to the next region, with the write position stored, leaves the segment
/// in order; padding is not counted.
pub proof fn law_region_roll_keeps_order(w: WriterState, regions: Seq<Seq<u8>>)
    requires
        w.in_order(regions),
        w.current_region_index + 1 < regions.len(),
        (w.current_region_index + 2) * w.region_size <= w.file_len,
    ensures
        ({
            let b = rolled_over(w, regions);
            let position = (w.current_region_index + 1) * w.region_size + HEADER_SLOT;
            let after = b.update(
                0,
                crate::bytes::put(b[0], 16, crate::bytes::le64_bytes(position as u64)),
            );
            &&& w.in_next_region().in_order(after)
            &&& seg_log(after).records == seg_log(regions).records
            &&& next_index_at(after[0]) == next_index_at(regions[0])
        }),
{
    let b = rolled_over(w, regions);
    let size = w.region_size as int;
    let cur = w.current_region_index as int;
    let position = ((cur + 1) * size + HEADER_SLOT) as u64;
    let m = w.in_next_region();
    w.lemma_at();
    crate::log::lemma_seg_stop_bounds(regions, size, 0, 0);
    lemma_tail_behind_head(regions, size, cur, w.off());
    law_region_roll_keeps_the_log(w, regions);
    m.lemma_at();
    crate::layout::lemma_position(cur + 1, 0, size);
    assert(forall|i: int| 0 <= i < FIRST_SLOT ==> b[0][i] == regions[0][i]);
    lemma_head_frame(regions[0], b[0], w.region_size, w.file_sequence);
    law_store_wp_keeps_the_log(b, size, position, w.region_size, w.file_sequence);
}

/// A fresh segment is in order, holds no message, and numbers its first message with
/// the base that it was given.
pub proof fn law_fresh_segment_is_in_order(w: WriterState, z: Seq<Seq<u8>>, spec: SegmentSpec)
    requires
        regions_of(z, w.region_size as int),
        z.len() > 0,
        FIRST_SLOT + HEADER_SLOT <= w.region_size,
        w.wf(),
        w.next_hdr_pos == FIRST_SLOT,
        spec.region_size == w.region_size,
        spec.sequence == w.file_sequence,
    ensures
        w.in_order(z.update(0, prepared(z[0], spec))),
        seg_log(z.update(0, prepared(z[0], spec))).records == Seq::<Record>::empty(),
        next_index_at(prepared(z[0], spec)) == spec.base_record_index,
        base_record_index_at(prepared(z[0], spec)) == spec.base_record_index,
        generation_at(prepared(z[0], spec)) == spec.generation,
{
    crate::layout::lemma_position(0, FIRST_SLOT as int, w.region_size as int);
    crate::segment::law_prepared_segment(z[0], spec);
}

/// The segment after its end has been marked.
pub open spec fn rolled(w: WriterState, regions: Seq<Seq<u8>>, now_ns: u64) -> Seq<Seq<u8>> {
    let cur = w.current_region_index as int;
    regions.update(
        cur,
        crate::bytes::put(regions[cur], w.off(), roll_header(0, now_ns).bytes()).update(
            w.off(),
            COMMITTED,
        ),
    )
}

/// Rolling to the next segment changes no message. The old segment keeps its
/// messages and ends with the mark; the new one is in order and empty, comes next
/// in the series, belongs to the same incarnation, and numbers its first message
/// with the number that the old one would have given; and the channel as a whole
/// holds what it held.
pub proof fn law_file_roll_keeps_the_log(
    w: WriterState,
    regions: Seq<Seq<u8>>,
    z: Seq<Seq<u8>>,
    now_ns: u64,
    file_len: u64,
)
    requires
        w.wf(),
        w.at_tail(regions),
        segment_head(regions[0]),
        w.file_sequence < u64::MAX,
        next_index_at(regions[0]) <= u64::MAX,
        FIRST_SLOT + HEADER_SLOT <= w.region_size <= file_len <= MAX_FILE_OFFSET,
        regions_of(z, w.region_size as int),
        z.len() > 0,
    ensures
        ({
            let before = rolled(w, regions, now_ns);
            let fresh = z.update(0, prepared(z[0], w.spec_next_segment(regions[0])));
            let m = w.in_next_segment(file_len);
            &&& seg_log(before) == (SegWalk {
                records: seg_log(regions).records,
                stop: SegStop::Roll { region: w.current_region_index as int, off: w.off() },
            })
            &&& m.in_order(fresh)
            &&& seg_log(fresh).records == Seq::<Record>::empty()
            &&& m.file_sequence == w.file_sequence + 1
            &&& base_record_index_at(fresh[0]) == next_index_at(regions[0])
            &&& next_index_at(fresh[0]) == next_index_at(regions[0])
            &&& generation_at(fresh[0]) == generation_at(regions[0])
            &&& next_index_at(before[0]) == next_index_at(regions[0])
            &&& channel_log(seq![before, fresh], 0) == channel_log(seq![regions], 0)
        }),
{
    let cur = w.current_region_index as int;
    let off = w.off();
    let size = w.region_size as int;
    let b = rolled(w, regions, now_ns);
    let h = roll_header(0, now_ns);
    let s = crate::bytes::put(regions[cur], off, h.bytes());
    let t = s.update(off, COMMITTED);
    let spec = w.spec_next_segment(regions[0]);
    let fresh = z.update(0, prepared(z[0], spec));
    let m = w.in_next_segment(file_len);
    w.lemma_at();
    crate::log::lemma_seg_stop_bounds(regions, size, 0, 0);
    lemma_tail_behind_head(regions, size, cur, off);
    crate::channel::law_message_header_round_trip(regions[cur], off, h);
    crate::channel::law_commit_sets_the_flag_only(s, off);
    crate::log::lemma_seg_prefix(regions, b, size, 0, 0, cur, off);
    assert(slot_at(t, off, size) == Slot::Roll);
    assert(seg_walk(b, cur, off) == (SegWalk {
        records: seq![],
        stop: SegStop::Roll { region: cur, off },
    }));
    assert(seg_log(regions).records + Seq::<Record>::empty() =~= seg_log(regions).records);
    crate::layout::lemma_position(0, FIRST_SLOT as int, size);
    crate::layout::lemma_next_region(0, size);
    law_fresh_segment_is_in_order(m, z, spec);
    assert(forall|i: int| 0 <= i < FIRST_SLOT ==> b[0][i] == regions[0][i]);
    lemma_head_frame(regions[0], b[0], w.region_size, w.file_sequence);
    let segments = seq![b, fresh];
    assert(channel_log(segments, 1) == seg_log(fresh).records);
    assert(channel_log(segments, 0) =~= seg_log(b).records + seg_log(fresh).records);
    assert(channel_log(seq![regions], 0) == seg_log(regions).records);
}

/// A roll that fails before it is published leaves everything as it was: the mark that
/// was written is not seen, the reservation that the writer holds is still there, and a
/// commit finds its payload and the free slot behind it.
pub proof fn law_failed_roll_changes_nothing(
    w: WriterState,
    regions: Seq<Seq<u8>>,
    filled: Seq<u8>,
    now_ns: u64,
)
    requires
        w.wf(),
        w.at_tail(regions),
        ready_to_commit(w, regions, filled),
    ensures
        ({
            let marked = crate::bytes::put(filled, w.off(), roll_header(0, now_ns).bytes());
            &&& seg_log(regions.update(w.current_region_index as int, marked)) == seg_log(regions)
            &&& ready_to_commit(w, regions, marked)
            &&& forall|i: int|
                w.off() + HEADER_SLOT <= i < w.region_size ==> marked[i] == filled[i]
        }),
{
    let m = w.pending_msg_size->Some_0;
    let off = w.off();
    let slot = off + record_span(m as int);
    let marked = crate::bytes::put(filled, off, roll_header(0, now_ns).bytes());
    w.lemma_at();
    crate::log::lemma_seg_stop_bounds(regions, w.region_size as int, 0, 0);
    crate::layout::law_align_up(HEADER_SLOT + m, 0);
    crate::channel::law_message_header_round_trip(filled, off, roll_header(0, now_ns));
    crate::channel::lemma_header_frame(filled, marked, slot);
    law_unpublished_is_invisible(
        regions,
        w.region_size as int,
        w.current_region_index as int,
        off,
        marked,
    );
}

/// The first message after a roll is the first of the new segment, has the number that
/// it would have had in the old one, and stands in the channel right behind the last
/// message before the roll. A reservation from before the roll is gone.
pub proof fn law_first_message_after_a_roll(
    w: WriterState,
    regions: Seq<Seq<u8>>,
    z: Seq<Seq<u8>>,
    now_ns: u64,
    file_len: u64,
    msg_size: usize,
    filled: Seq<u8>,
    message_type: u16,
    length: u32,
    user_meta: u64,
)
    requires
        w.wf(),
        w.at_tail(regions),
        segment_head(regions[0]),
        w.file_sequence < u64::MAX,
        next_index_at(regions[0]) <= u64::MAX,
        FIRST_SLOT + HEADER_SLOT <= w.region_size <= file_len <= MAX_FILE_OFFSET,
        regions_of(z, w.region_size as int),
        z.len() > 0,
        ({
            let m = WriterState {
                pending_msg_size: Some(msg_size),
                ..w.in_next_segment(file_len)
            };
            let fresh = z.update(0, prepared(z[0], w.spec_next_segment(regions[0])));
            &&& m.wf()
            &&& m.commit_fault(length) is None
            &&& ready_to_commit(m, fresh, filled)
        }),
    ensures
        ({
            let m = WriterState {
                pending_msg_size: Some(msg_size),
                ..w.in_next_segment(file_len)
            };
            let before = rolled(w, regions, now_ns);
            let fresh = z.update(0, prepared(z[0], w.spec_next_segment(regions[0])));
            let b = committed(m, fresh, filled, message_type, length, user_meta);
            let after = b.update(0, counted(b[0], (m.next_pos(length) + HEADER_SLOT) as u64));
            let record = Record {
                message_type,
                user_meta,
                payload: filled.subrange(
                    m.off() + HEADER_SLOT,
                    m.off() + HEADER_SLOT + length,
                ),
            };
            &&& w.in_next_segment(file_len).commit_fault(length) == Some(
                Error::CommitWithoutReserve,
            )
            &&& m.moved(length).in_order(after)
            &&& seg_log(after).records == seq![record]
            &&& base_record_index_at(after[0]) == next_index_at(regions[0])
            &&& next_index_at(after[0]) == next_index_at(regions[0]) + 1
            &&& channel_log(seq![before, after], 0) == seg_log(regions).records.push(record)
        }),
{
    let m = WriterState { pending_msg_size: Some(msg_size), ..w.in_next_segment(file_len) };
    let before = rolled(w, regions, now_ns);
    let fresh = z.update(0, prepared(z[0], w.spec_next_segment(regions[0])));
    law_file_roll_keeps_the_log(w, regions, z, now_ns, file_len);
    assert(m.in_order(fresh));
    law_commit_keeps_order(m, fresh, filled, message_type, length, user_meta);
    let b = committed(m, fresh, filled, message_type, length, user_meta);
    let after = b.update(0, counted(b[0], (m.next_pos(length) + HEADER_SLOT) as u64));
    let records = seg_log(after).records;
    assert(Seq::<Record>::empty().push(records[0]) =~= records);
    let segments = seq![before, after];
    assert(channel_log(segments, 1) == records);
    assert(channel_log(segments, 0) =~= seg_log(regions).records + records);
    assert(seg_log(regions).records + records =~= seg_log(regions).records.push(records[0]));
}

/// Behind the tail of a segment there is the message that a commit has published there,
/// and then the new tail.
pub proof fn lemma_committed_tail(
    w: WriterState,
    regions: Seq<Seq<u8>>,
    filled: Seq<u8>,
    message_type: u16,
    length: u32,
    user_meta: u64,
)
    requires
        w.wf(),
        w.at_tail(regions),
        ready_to_commit(w, regions, filled),
        w.commit_fault(length) is None,
    ensures
        ({
            let cur = w.current_region_index as int;
            let b = committed(w, regions, filled, message_type, length, user_meta);
            let size = w.region_size as int;
            &&& 0 <= cur < regions.len()
            &&& regions_of(b, size)
            &&& b.len() == regions.len()
            &&& forall|i: int| 0 <= i < w.off() ==> b[cur][i] == regions[cur][i]
            &&& record_at(b[cur], w.off()) == Record {
                message_type,
                user_meta,
                payload: filled.subrange(w.off() + HEADER_SLOT, w.off() + HEADER_SLOT + length),
            }
            &&& slot_at(b[cur], w.off(), size) == Slot::User { next: w.moved(length).off() }
            &&& slot_at(b[cur], w.moved(length).off(), size) == Slot::Waiting
            &&& w.moved(length).wf()
            &&& seg_walk(b, cur, w.off()) == (SegWalk {
                records: seq![record_at(b[cur], w.off())],
                stop: SegStop::Tail { region: cur, off: w.moved(length).off() },
            })
        }),
{
    let cur = w.current_region_index as int;
    let off = w.off();
    let size = w.region_size as int;
    let reserved = w.pending_msg_size->Some_0;
    let b = committed(w, regions, filled, message_type, length, user_meta);
    let next = off + record_span(length as int);
    w.lemma_at();
    crate::log::lemma_seg_stop_bounds(regions, size, 0, 0);
    law_commit_appends(w, regions, filled, message_type, length, user_meta);
    lemma_committed_region(filled, off, reserved, message_type, length, user_meta);
    crate::layout::lemma_position(cur, next, size);
    let t = b[cur];
    assert(walk(t, next, size) == (Walk { records: seq![], stop: Hit::Tail { off: next } }));
    assert(walk(t, off, size).records =~= seq![record_at(t, off)]);
}

/// Every segment of a channel but the last one has been rolled.
pub open spec fn rolled_up_to_last(segments: Seq<Seq<Seq<u8>>>) -> bool {
    forall|i: int|
        0 <= i < segments.len() - 1 ==> seg_log(#[trigger] segments[i]).stop is Roll
}

/// What is appended to the last segment of a channel is appended to the channel.
pub proof fn law_channel_grows_at_its_last_segment(
    segments: Seq<Seq<Seq<u8>>>,
    last: Seq<Seq<u8>>,
    record: Record,
    from: int,
)
    requires
        0 <= from < segments.len(),
        rolled_up_to_last(segments),
        !(seg_log(segments.last()).stop is Roll),
        !(seg_log(last).stop is Roll),
        seg_log(last).records == seg_log(segments.last()).records.push(record),
    ensures
        channel_log(segments.update(segments.len() - 1, last), from) == channel_log(
            segments,
            from,
        ).push(record),
    decreases segments.len() - from,
{
    let after = segments.update(segments.len() - 1, last);
    if from < segments.len() - 1 {
        law_channel_grows_at_its_last_segment(segments, last, record, from + 1);
        assert(seg_log(segments[from]).stop is Roll);
        assert(seg_log(segments[from]).records + channel_log(segments, from + 1).push(record)
            =~= (seg_log(segments[from]).records + channel_log(segments, from + 1)).push(record));
    }
}

/// A segment in order says how many messages have come before its next one: those of
/// the segments before it, and its own.
pub proof fn law_next_index_counts_the_messages(w: WriterState, regions: Seq<Seq<u8>>)
    requires
        w.in_order(regions),
    ensures
        next_index_at(regions[0]) == base_record_index_at(regions[0]) + seg_log(
            regions,
        ).records.len(),
        HeaderType::spec_from_raw(header_at(regions[0], 0).header_type) == Ok::<HeaderType, Error>(
            HeaderType::Channel,
        ),
{
}

/// Every segment of a channel but the last one has been rolled and has counted its
/// messages, and the one behind it goes on with the numbering.
pub open spec fn numbered(segments: Seq<Seq<Seq<u8>>>) -> bool {
    forall|i: int|
        0 <= i < segments.len() - 1 ==> {
            &&& seg_log(#[trigger] segments[i]).stop is Roll
            &&& message_count_at(segments[i][0]) == seg_log(segments[i]).records.len()
            &&& base_record_index_at(segments[i + 1][0]) == next_index_at(segments[i][0])
        }
}

/// Record numbers run through the whole channel: a segment's base is that of an earlier
/// segment plus the number of messages in between.
pub proof fn law_numbers_run_through_the_channel(
    segments: Seq<Seq<Seq<u8>>>,
    first: int,
    later: int,
)
    requires
        numbered(segments),
        0 <= first <= later < segments.len(),
    ensures
        base_record_index_at(segments[later][0]) + channel_log(segments, later).len()
            == base_record_index_at(segments[first][0]) + channel_log(segments, first).len(),
    decreases later - first,
{
    if first < later {
        law_numbers_run_through_the_channel(segments, first + 1, later);
        assert(seg_log(segments[first]).stop is Roll);
    }
}

/// A segment in order is taken up where it was left: the stored write position leads
/// to the tail, and the slot there is free.
pub proof fn law_reopening_resumes(w: WriterState, regions: Seq<Seq<u8>>)
    requires
        w.in_order(regions),
        crate::layout::preallocation(w.region_size, w.file_roll_size) is Ok,
    ensures
        ({
            let plan = reopening(regions[0], w.file_sequence, w.region_size, w.file_roll_size);
            &&& plan is Ok
            &&& plan->Ok_0.next_hdr == w.next_hdr_pos
            &&& plan->Ok_0.region_index == w.current_region_index
            &&& reopen_fits(plan->Ok_0, w.region_size as int, w.file_len)
            &&& recovery(regions[w.current_region_index as int], plan->Ok_0, w.file_len) == Ok::<
                Recovery,
                Error,
            >(Recovery::Clean)
        }),
{
    w.lemma_at();
    crate::log::lemma_seg_stop_bounds(regions, w.region_size as int, 0, 0);
}

/// What a crash inside a commit leaves behind: the message is published, and the write
/// position is the old one. With `counted_first` the message is counted already: counting
/// comes before the write position.
pub open spec fn crashed(regions: Seq<Seq<u8>>, counted_first: bool) -> Seq<Seq<u8>> {
    if counted_first {
        regions.update(
            0,
            counted(regions[0], write_position_at(regions[0])),
        )
    } else {
        regions
    }
}

/// Of what a crash inside a commit leaves behind only the count can differ.
proof fn lemma_crashed(
    regions: Seq<Seq<u8>>,
    size: int,
    counted_first: bool,
    region_size: usize,
    sequence: u64,
)
    requires
        regions_of(regions, size),
        regions.len() > 0,
        segment_head(regions[0]),
        message_count_at(regions[0]) < u64::MAX,
    ensures
        ({
            let c = crashed(regions, counted_first);
            &&& regions_of(c, size)
            &&& c.len() == regions.len()
            &&& seg_log(c) == seg_log(regions)
            &&& forall|i: int| 0 < i < c.len() ==> c[i] == regions[i]
            &&& forall|i: int| FIRST_SLOT <= i < size ==> c[0][i] == regions[0][i]
            &&& write_position_at(c[0]) == write_position_at(regions[0])
            &&& segment_fault(c[0], region_size, sequence) == segment_fault(
                regions[0],
                region_size,
                sequence,
            )
            &&& forall|records: u64, position: u64|
                #![trigger settled(c[0], records, position)]
                settled(c[0], records, position) == settled(regions[0], records, position)
        }),
{
    broadcast use crate::bytes::group_le_len;

    let wp = write_position_at(regions[0]);
    let c = crashed(regions, counted_first);
    if counted_first {
        law_counting_keeps_the_log(regions, size, wp, region_size, sequence);
        crate::writer::lemma_counted(regions[0], wp);
        assert forall|records: u64, position: u64|
            #![trigger settled(c[0], records, position)]
            settled(c[0], records, position) == settled(regions[0], records, position) by {
            assert(settled(c[0], records, position) =~= settled(regions[0], records, position));
        }
    }
}

/// A writer that dies inside a commit, after it has published the message, is made good,
/// whether or not it has counted the message: recovery steps over that one message and
/// stands at the tail, where the dead writer would have stood. The regions up to there
/// hold all messages of the segment, and with their number stored the segment is in order
/// again: record numbers go on, and no message is counted twice or left out.
#[verifier::spinoff_prover]
#[verifier::rlimit(40)]
pub proof fn law_crash_after_commit_is_recovered(
    w: WriterState,
    regions: Seq<Seq<u8>>,
    filled: Seq<u8>,
    message_type: u16,
    length: u32,
    user_meta: u64,
    counted_first: bool,
)
    requires
        w.in_order(regions),
        crate::layout::preallocation(w.region_size, w.file_roll_size) is Ok,
        ready_to_commit(w, regions, filled),
        w.commit_fault(length) is None,
        message_count_at(regions[0]) < u64::MAX,
    ensures
        ({
            let b = committed(w, regions, filled, message_type, length, user_meta);
            let c = crashed(b, counted_first);
            let found = Recovery::User { next_hdr: w.moved(length).next_hdr_pos };
            let plan = reopening(c[0], w.file_sequence, w.region_size, w.file_roll_size);
            let seen = seg_log(c.subrange(0, w.current_region_index + 1));
            &&& plan is Ok
            &&& plan->Ok_0.next_hdr == w.next_hdr_pos
            &&& plan->Ok_0.region_index == w.current_region_index
            &&& recovery(c[w.current_region_index as int], plan->Ok_0, w.file_len) == Ok::<
                Recovery,
                Error,
            >(found)
            &&& recovered_slot(w.region_size as int, plan->Ok_0, found) == w.moved(
                length,
            ).next_hdr_pos
            &&& seen.stop is Tail
            &&& seen.records == seg_log(b).records
            &&& seen.records.len() == seg_log(regions).records.len() + 1 <= u64::MAX
            &&& ({
                let after = c.update(
                    0,
                    recovered(c[0], plan->Ok_0, found, seen.records.len() as u64),
                );
                &&& w.moved(length).in_order(after)
                &&& seg_log(after).records == seg_log(b).records
                &&& next_index_at(after[0]) == next_index_at(regions[0]) + 1
            })
        }),
{
    let b = committed(w, regions, filled, message_type, length, user_meta);
    let c = crashed(b, counted_first);
    let size = w.region_size as int;
    let cur = w.current_region_index as int;
    let reserved = w.pending_msg_size->Some_0;
    let next = w.off() + record_span(length as int);
    let position = (w.next_pos(length) + HEADER_SLOT) as u64;
    w.lemma_at();
    crate::log::lemma_seg_stop_bounds(regions, size, 0, 0);
    lemma_tail_behind_head(regions, size, cur, w.off());
    lemma_commit_keeps_head(w, regions, filled, message_type, length, user_meta);
    lemma_head_frame(regions[0], b[0], w.region_size, w.file_sequence);
    law_commit_appends(w, regions, filled, message_type, length, user_meta);
    lemma_committed_region(filled, w.off(), reserved, message_type, length, user_meta);
    crate::layout::law_align_up(HEADER_SLOT + length, 0);
    crate::layout::law_align_up(length as int, HEADER_SLOT as int);
    crate::layout::law_align_up(HEADER_SLOT + reserved, 0);
    law_commit_keeps_order(w, regions, filled, message_type, length, user_meta);
    lemma_crashed(b, size, counted_first, w.region_size, w.file_sequence);
    crate::tally::law_regions_up_to_the_tail_suffice(c, 0, 0, cur + 1);
    crate::channel::lemma_header_frame(b[cur], c[cur], w.off());
    crate::channel::lemma_header_frame(b[cur], c[cur], next);
    let records = (message_count_at(regions[0]) + 1) as u64;
    assert(settled(c[0], records, position) == counted(b[0], position));
    assert(c.update(0, counted(b[0], position)) =~= b.update(0, counted(b[0], position)));
}

/// A writer that dies after it has padded a region and before it has stored the
/// write position is made good too: recovery steps into the next region and stands
/// at its first slot. With the write position stored, the segment is in order again.
#[verifier::spinoff_prover]
#[verifier::rlimit(40)]
pub proof fn law_crash_after_padding_is_recovered(
    w: WriterState,
    regions: Seq<Seq<u8>>,
    records: u64,
)
    requires
        w.in_order(regions),
        crate::layout::preallocation(w.region_size, w.file_roll_size) is Ok,
        w.current_region_index + 1 < regions.len(),
        (w.current_region_index + 2) * w.region_size <= w.file_len,
    ensures
        ({
            let b = rolled_over(w, regions);
            let found = Recovery::Skip { region_index: (w.current_region_index + 1) as u64 };
            let plan = reopening(b[0], w.file_sequence, w.region_size, w.file_roll_size);
            &&& plan is Ok
            &&& plan->Ok_0.next_hdr == w.next_hdr_pos
            &&& recovery(b[w.current_region_index as int], plan->Ok_0, w.file_len) == Ok::<
                Recovery,
                Error,
            >(found)
            &&& crate::channel::preinstall_fault(
                header_at(b[w.current_region_index + 1], 0),
            ) is None
            &&& w.in_next_region().at_tail(b)
            &&& recovered_slot(w.region_size as int, plan->Ok_0, found)
                == w.in_next_region().next_hdr_pos
            &&& w.in_next_region().in_order(
                b.update(0, recovered(b[0], plan->Ok_0, found, records)),
            )
        }),
{
    let b = rolled_over(w, regions);
    let size = w.region_size as int;
    let cur = w.current_region_index as int;
    law_region_roll_keeps_order(w, regions);
    w.lemma_at();
    crate::log::lemma_seg_stop_bounds(regions, size, 0, 0);
    lemma_tail_behind_head(regions, size, cur, w.off());
    law_region_roll_keeps_the_log(w, regions);
    assert(forall|i: int| 0 <= i < FIRST_SLOT ==> b[0][i] == regions[0][i]);
    lemma_head_frame(regions[0], b[0], w.region_size, w.file_sequence);
    crate::layout::law_align_up(w.skip_len(), HEADER_SLOT as int);
}

/// A write position that is two published records behind is refused.
pub proof fn law_two_records_behind_is_refused(r: Seq<u8>, plan: Reopen, file_len: u64)
    requires
        reopen_fits(plan, r.len() as int, file_len),
        ({
            let off = plan.next_hdr as int % r.len() as int;
            let next = off + crate::segment::advance(r, off);
            &&& header_at(r, off).committed == COMMITTED
            &&& header_at(r, off).header_type == 1
            &&& next + HEADER_SLOT <= r.len()
            &&& header_at(r, next).committed == COMMITTED
        }),
    ensures
        recovery(r, plan, file_len) == Err::<Recovery, Error>(Error::AdvancedSlotCommitted),
{
}

/// A reservation is settled after at most three rolls: one to another region, one
/// to the next segment, and one more to that segment's second region.
pub proof fn law_reservation_settles(w: WriterState, msg_size: usize, file_len: u64)
    requires
        w.wf(),
        FIRST_SLOT + HEADER_SLOT <= w.region_size,
        w.reservation(msg_size) is Ok,
        (w.current_region_index + 2) * w.region_size <= MAX_FILE_OFFSET,
    ensures
        w.reservation(msg_size) == Ok::<Reserve, Error>(Reserve::RollRegion)
            ==> (w.in_next_region().reservation(msg_size) matches Ok(after) && after
            != Reserve::RollRegion),
        w.in_next_segment(file_len).reservation(msg_size) matches Ok(after) && after
            != Reserve::RollFile,
        w.in_next_segment(file_len).in_next_region().reservation(msg_size) matches Ok(
            Reserve::Ready { .. },
        ),
{
    let size = w.region_size as int;
    w.lemma_at();
    crate::layout::lemma_position(w.current_region_index + 1, 0, size);
    crate::layout::lemma_position(0, FIRST_SLOT as int, size);
    crate::layout::lemma_position(1, 0, size);
    crate::layout::lemma_next_region(0, size);
    crate::layout::law_align_up(HEADER_SLOT + msg_size, 0);
}

/// Where segments roll, a file has its full length from the start: moving on to the
/// next region never asks for a longer one, and no message reaches behind the roll
/// size.
pub proof fn law_rolling_segments_do_not_grow(w: WriterState, msg_size: usize)
    requires
        w.wf(),
        w.file_roll_size > 0,
        crate::layout::preallocation(w.region_size, w.file_roll_size) matches Ok(len) && len
            <= w.file_len,
    ensures
        w.reservation(msg_size) == Ok::<Reserve, Error>(Reserve::RollRegion)
            ==> w.spec_next_region().needed_end <= w.file_len,
        w.reservation(msg_size) matches Ok(Reserve::Ready { .. }) ==> w.next_hdr_pos + record_span(
            msg_size as int,
        ) + HEADER_SLOT <= w.file_roll_size,
{
    let len = crate::layout::preallocation(w.region_size, w.file_roll_size)->Ok_0 as int;
    let size = w.region_size as int;
    let next = w.current_region_index + 1;
    let k = len / size;
    w.lemma_at();
    crate::layout::law_preallocation(w.region_size, w.file_roll_size);
    crate::layout::lemma_split(len, size);
    if w.reservation(msg_size) == Ok::<Reserve, Error>(Reserve::RollRegion) {
        assert(next + 1 <= k) by (nonlinear_arith)
            requires
                next * size < k * size,
                size > 0,
        ;
        assert((next + 1) * size <= k * size) by (nonlinear_arith)
            requires
                next + 1 <= k,
                size > 0,
        ;
    }
}

/// The segments that are kept when `n` are kept and `latest` is the latest one.
pub open spec fn retained(latest: int, n: int) -> Set<int> {
    Set::new(|i: int| 0 <= i <= latest && latest - n < i)
}

/// Retention is a window over the latest segments: when a roll adds a segment, the
/// one that it removes is the one that leaves the window.
pub proof fn law_retention_window(w: WriterState, n: u64)
    requires
        w.keep_files == Some(n),
        n >= 1,
    ensures
        ({
            let next = w.file_sequence + 1;
            let all = retained(w.file_sequence as int, n as int).insert(next);
            retained(next, n as int) =~= match w.pruned_by(next) {
                Some(gone) => all.remove(gone as int),
                None => all,
            }
        }),
{
}

} // verus!
