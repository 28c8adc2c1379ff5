//! What the calls of the two ends of a channel come to together: what one end writes, the
//! other reads.
//!
//! Each law takes a row of calls with their arguments and results, and says what holds
//! between the first and the last.
use vstd::prelude::*;

use crate::builder::ReaderMode;
use crate::bytes::{le16, le32, le64};
use crate::calls_files::law_fresh_segment;
use crate::calls_format::fields_at;
use crate::calls_reader::{
    law_opening_a_segment, law_reading_a_slot, law_reading_steps_over_service_records,
};
use crate::calls_writer::{law_commit, law_region_roll, law_reservation, law_roll};
use crate::channel::{header_at, ChannelHeader};
use crate::error::Error;
use crate::message::MessageRef;
use crate::reader::{check_continuation, read_channel_header, Opening, Outcome, Reader, ReaderView};
use crate::segment::{plan_reopen, prepare_segment_at, Reopen, SegmentSpec};
use crate::writer::{publish_wp, Reserve, Writer};

verus! {

/// A reservation that was granted can be committed, in full or in part, and leaves the
/// payload bytes to the caller.
pub proof fn law_granted_reservations_can_be_committed(
    w: &mut Writer,
    region: &mut [u8],
    msg_size: usize,
    payload_off: usize,
    v: &mut Writer,
    filled: &mut [u8],
    message_type: u16,
    length: u32,
    user_meta: u64,
    r: Result<u64, Error>,
)
    requires
        old(w)@.wf(),
        old(region)@.len() == old(w)@.region_size,
        call_ensures(
            Writer::try_reserve,
            (w, region, msg_size),
            Ok::<Reserve, Error>(Reserve::Ready { payload_off }),
        ),
        old(v)@ == final(w)@,
        old(filled)@.len() == old(w)@.region_size,
        call_ensures(Writer::commit, (v, filled, message_type, length, user_meta), r),
    ensures
        r is Ok <==> length <= msg_size,
        payload_off == old(w)@.next_hdr_pos as int % old(w)@.region_size as int + 16,
        payload_off + msg_size + 16 <= old(w)@.region_size,
        r is Ok ==> final(filled)@.len() == old(filled)@.len() && forall|i: int|
            payload_off <= i < payload_off + length ==> final(filled)@[i] == old(filled)@[i],
{
    law_reservation(
        w,
        region,
        msg_size,
        Ok::<Reserve, Error>(Reserve::Ready { payload_off }),
    );
    law_commit(v, filled, message_type, length, user_meta, r);
    crate::layout::law_align_up(16 + length, 0);
    crate::layout::law_align_up(16 + msg_size, 0);
}

/// What is committed is read: a reader at the writer's slot reads the message with the
/// type, the metadata and the payload that were committed, and comes to the slot that the
/// writer has come to.
pub proof fn law_what_is_committed_is_read<'a, M>(
    w: &mut Writer,
    region: &mut [u8],
    message_type: u16,
    length: u32,
    user_meta: u64,
    wp: u64,
    reader: &mut Reader<M>,
    bytes: &'a [u8],
    visible: usize,
    r: Result<Outcome<MessageRef<'a>>, Error>,
    i: int,
)
    requires
        old(w)@.wf(),
        old(region)@.len() == old(w)@.region_size,
        call_ensures(
            Writer::commit,
            (w, region, message_type, length, user_meta),
            Ok::<u64, Error>(wp),
        ),
        bytes@ == final(region)@,
        old(reader)@.ready_to_scan(bytes@),
        old(reader)@.read_position == old(w)@.next_hdr_pos,
        visible > old(w)@.next_hdr_pos as int % old(w)@.region_size as int,
        call_ensures(Reader::<M>::try_read, (reader, bytes, visible), r),
    ensures
        r matches Ok(Outcome::Ready(m)) && {
            &&& m.payload_len == length
            &&& le16(m.mapping@, m.header_offset + 2) == message_type
            &&& le32(m.mapping@, m.header_offset + 4) == length
            &&& le64(m.mapping@, m.header_offset + 8) == user_meta
            &&& 0 <= i < length ==> {
                let at = m.header_offset + 16 + i;
                m.mapping@[at] == old(region)@[at]
            }
        },
        final(reader)@.read_position == final(w)@.next_hdr_pos,
        wp == final(w)@.next_hdr_pos + 16,
{
    let s = old(w)@;
    s.lemma_at();
    law_commit(w, region, message_type, length, user_meta, Ok::<u64, Error>(wp));
    law_reading_a_slot(reader, bytes, visible, r);
    let off = s.off();
    crate::layout::law_align_up(16 + length, off);
    crate::layout::law_align_up(16 + s.pending_msg_size->Some_0, off);
    assert(header_at(bytes@, off).length == length);
}

/// Padding leads on: a reader that comes to it is sent to the region that the writer has
/// moved on to.
pub proof fn law_padding_leads_to_the_next_region<'a, M>(
    w: &mut Writer,
    region: &mut [u8],
    next_region: &mut [u8],
    wp: u64,
    reader: &mut Reader<M>,
    behind: &mut Reader<M>,
    bytes: &'a [u8],
    visible: usize,
    r: Result<Outcome<MessageRef<'a>>, Error>,
    q: Result<Outcome<MessageRef<'a>>, Error>,
)
    requires
        old(w)@.wf(),
        (old(w)@.current_region_index + 2) * old(w)@.region_size <= old(w)@.file_len,
        old(region)@.len() == old(w)@.region_size,
        old(next_region)@.len() == old(w)@.region_size,
        call_ensures(Writer::roll_over_region, (w, region, next_region), wp),
        bytes@ == final(region)@,
        old(reader)@.ready_to_scan(bytes@),
        old(reader)@.read_position == old(w)@.next_hdr_pos,
        visible > old(w)@.next_hdr_pos as int % old(w)@.region_size as int,
        call_ensures(Reader::<M>::try_read, (reader, bytes, visible), r),
        old(behind)@ == (ReaderView {
            read_position: final(w)@.next_hdr_pos,
            ..old(reader)@
        }),
    ensures
        r matches Ok(Outcome::SwitchRegion { index }) && index == final(w)@.current_region_index,
        final(reader)@.read_position == final(w)@.next_hdr_pos,
{
    let s = old(w)@;
    s.lemma_at();
    law_region_roll(w, region, next_region, wp);
    let off = s.off();
    let h = header_at(bytes@, off);
    crate::layout::law_align_up(16 + h.length, off);
    crate::layout::lemma_next_region(s.current_region_index as int, s.region_size as int);
    law_reading_steps_over_service_records(reader, behind, bytes, visible, r, q);
}

/// The mark of a roll leads on: a reader that comes to it is sent to the segment that the
/// writer has moved on to.
pub proof fn law_roll_leads_to_the_next_segment<'a, M>(
    w: &mut Writer,
    region: &mut [u8],
    now_ns: u64,
    file_len: u64,
    prune: Option<u64>,
    reader: &mut Reader<M>,
    bytes: &'a [u8],
    visible: usize,
    r: Result<Outcome<MessageRef<'a>>, Error>,
)
    requires
        old(w)@.wf(),
        old(w)@.file_sequence < u64::MAX,
        old(region)@.len() == old(w)@.region_size,
        call_ensures(Writer::roll_file, (w, region, now_ns, file_len), prune),
        bytes@ == final(region)@,
        old(reader)@.ready_to_scan(bytes@),
        old(reader)@.file_sequence == old(w)@.file_sequence,
        old(reader)@.read_position == old(w)@.next_hdr_pos,
        visible > old(w)@.next_hdr_pos as int % old(w)@.region_size as int,
        call_ensures(Reader::<M>::try_read, (reader, bytes, visible), r),
    ensures
        r matches Ok(Outcome::NextSegment { sequence }) && sequence == final(w)@.file_sequence,
        final(reader)@.read_position == old(reader)@.read_position,
{
    old(w)@.lemma_at();
    law_roll(w, region, now_ns, file_len, prune);
    law_reading_a_slot(reader, bytes, visible, r);
}

/// A fresh segment is fit for use: readers of both modes open it with what it was asked to
/// say, a writer takes it up at its first slot, and it is accepted as the continuation of a
/// segment that ends where it begins.
pub proof fn law_fresh_segments_are_fit_for_use(
    region0: &mut [u8],
    spec: &SegmentSpec,
    ch: ChannelHeader,
    page: &[u8],
    mode: ReaderMode,
    opened: Result<Opening, Error>,
    taken: Result<Reopen, Error>,
    current: &[u8],
    followed: Result<ChannelHeader, Error>,
)
    requires
        160 <= old(region0)@.len() == spec.region_size <= u32::MAX,
        call_ensures(prepare_segment_at, (region0, spec), Ok::<u64, Error>(144)),
        call_ensures(SegmentSpec::channel_header, (spec,), ch),
        page@ == final(region0)@,
        call_ensures(read_channel_header, (page, mode, spec.sequence), opened),
        call_ensures(plan_reopen, (page, spec.sequence, spec.region_size, 0u64), taken),
        le64(current@, 32) + le64(current@, 24) == spec.base_record_index,
        call_ensures(
            check_continuation,
            (spec.sequence, spec.region_size, spec.generation, current, page),
            followed,
        ),
    ensures
        opened matches Ok(o) && {
            &&& o.read_pos == if mode is LateJoin {
                0int
            } else {
                144
            }
            &&& o.region_size == spec.region_size
            &&& o.channel_name@ == spec.channel_name@
            &&& o.base_record_index == spec.base_record_index
            &&& o.mtu == spec.mtu as u32
            &&& o.generation == spec.generation
        },
        taken matches Ok(plan) && plan.next_hdr == 144 && plan.region_index == 0
            && plan.target_len == spec.region_size,
        followed is Ok,
{
    law_fresh_segment(region0, spec, Ok::<u64, Error>(144), ch);
    law_opening_a_segment(page, ch, mode, spec.sequence, opened);
    assert(fields_at(ch, page@));
    crate::layout::lemma_position(0, 144, spec.region_size as int);
    assert(1 * spec.region_size == spec.region_size);
}

/// A reader that joins live starts one slot before the write position that the writer has
/// published last, and that is the slot of the next message.
pub proof fn law_live_readers_start_at_the_published_position(
    region0: &mut [u8],
    position: u64,
    page: &[u8],
    sequence: u64,
    o: Opening,
)
    requires
        144 <= old(region0)@.len(),
        16 <= position,
        call_ensures(publish_wp, (region0, position), ()),
        page@ == final(region0)@,
        call_ensures(
            read_channel_header,
            (page, ReaderMode::Live, sequence),
            Ok::<Opening, Error>(o),
        ),
    ensures
        o.read_pos == position - 16,
{
}

} // verus!
