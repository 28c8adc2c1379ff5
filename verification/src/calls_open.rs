//! Which calls are open: what has to hold before an operation is called, and that nothing
//! more has to.
use vstd::prelude::*;

use crate::batch::{BatchScan, Drain, MessageBatch};
use crate::builder::{ReaderMode, WriterBuilder, WriterPlan};
use crate::bytes::le64;
use crate::channel::{generation_of, header_at, next_index, ChannelHeader, MessageHeader};
use crate::layout::{align_up, check_geometry, preallocation_len};
use crate::message::{MessageRef, OwnedMessage};
use crate::migrate::migrate_file_v2_to_v3;
use crate::reader::{
    check_continuation, head_record_index, message_header_info, read_channel_header, Opening,
    Reader,
};
use crate::region::{check_alignment, required_len};
use crate::segment::{
    finish_recovery, plan_reopen, prepare_segment_at, recover, recover_skip, store_wp, Recovery,
    Reopen, SegmentSpec,
};
use crate::tally::count_records;
use crate::wait::{wait_step, Backoff};
use crate::writer::{fetch_add_wp, publish_wp, NamedRoll, StagedCommit, Writer};

verus! {

/// A writer is handed its region, whole, and accepts any size, type, length and metadata;
/// it moves on once its file holds the next region, or once the next segment does.
pub proof fn law_writer_calls_are_open(
    w: &mut Writer,
    v: &Writer,
    region: &mut [u8],
    next_region: &mut [u8],
    msg_size: usize,
    message_type: u16,
    length: u32,
    user_meta: u64,
    want: u64,
    now_ns: u64,
    file_len: u64,
    named: NamedRoll,
)
    requires
        old(region)@.len() == old(w)@.region_size,
        old(next_region)@.len() == old(w)@.region_size,
        v@ == old(w)@,
    ensures
        call_requires(Writer::try_reserve, (w, region, msg_size)),
        call_requires(Writer::stage_commit, (w, region, message_type, length, user_meta)),
        call_requires(Writer::commit, (w, region, message_type, length, user_meta)),
        call_requires(Writer::plan_region_roll, (w,)),
        call_requires(Writer::growth, (v, want)),
        want <= 0x7fff_ffff_ffff_ffff ==> call_requires(Writer::ensure_len, (w, want)),
        call_requires(Writer::stage_region_roll, (v, region, next_region)),
        call_requires(Writer::slot_off, (v,)),
        call_requires(Writer::stage_roll, (v, region, now_ns)),
        (old(w)@.current_region_index + 2) * old(w)@.region_size <= old(w)@.file_len ==> {
            &&& call_requires(Writer::settle_region_roll, (w,))
            &&& call_requires(Writer::publish_region_roll, (w, region))
            &&& call_requires(Writer::roll_over_region, (w, region, next_region))
        },
        old(w)@.file_sequence < u64::MAX && 160 <= old(w)@.region_size && old(w)@.region_size
            <= file_len && file_len <= 0x7fff_ffff_ffff_ffff ==> {
            &&& call_requires(Writer::settle_roll, (w, named, file_len))
            &&& named.off() == old(w)@.next_hdr_pos as int % old(w)@.region_size as int
                ==> call_requires(Writer::publish_roll, (w, region, named, file_len))
            &&& call_requires(Writer::roll_file, (w, region, now_ns, file_len))
        },
{
}

/// A staged commit can be published, and a planned roll be looked up, whenever the writer
/// stands where it was staged.
pub proof fn law_staged_commits_are_open(
    w: &mut Writer,
    v: &Writer,
    region: &mut [u8],
    staged: StagedCommit,
    region0: &[u8],
    a: &mut [u8],
    position: u64,
)
    requires
        old(w)@.wf(),
        old(region)@.len() == old(w)@.region_size,
        staged.off() == old(w)@.next_hdr_pos as int % old(w)@.region_size as int,
        staged.next() % 8 == 0,
        old(w)@.next_hdr_pos <= staged.next(),
        staged.next() - old(w)@.next_hdr_pos + staged.off() + 16 <= old(w)@.region_size,
        144 <= region0@.len(),
        144 <= old(a)@.len(),
        le64(region0@, 32) + le64(region0@, 24) <= u64::MAX,
    ensures
        call_requires(Writer::settle_commit, (w, staged)),
        call_requires(Writer::publish_commit, (w, region, staged)),
        call_requires(Writer::next_record_index, (v, region0)),
        call_requires(Writer::generation, (v, region0)),
        v@.file_sequence < u64::MAX ==> call_requires(Writer::plan_roll, (v, region0)),
        call_requires(next_index, (region0,)),
        call_requires(generation_of, (region0,)),
        call_requires(publish_wp, (a, position)),
        call_requires(fetch_add_wp, (a, position)),
        call_requires(store_wp, (a, position)),
{
    old(w)@.lemma_at();
}

/// A writer is made of any accepted settings with sound regions, on a file that holds its
/// first region, and at any aligned slot of a region that the file holds.
pub proof fn law_writers_can_be_made<P>(
    b: WriterBuilder<P>,
    plan: &WriterPlan<P>,
    sequence: u64,
    file_len: u64,
    next_hdr: u64,
    n: u64,
)
    requires
        plan.settings.file_roll_size == 0 || plan.settings.file_roll_size >= 2
            * plan.settings.region_size,
        160 <= plan.settings.region_size <= 0xffff_ffff,
        plan.settings.region_size % 8 == 0,
        file_len <= 0x7fff_ffff_ffff_ffff,
    ensures
        plan.settings.region_size <= file_len ==> call_requires(
            Writer::fresh::<P>,
            (plan, sequence, file_len),
        ),
        next_hdr % 8 == 0 && next_hdr as int % plan.settings.region_size as int + 16
            <= plan.settings.region_size && (next_hdr as int / plan.settings.region_size as int
            + 1) * plan.settings.region_size <= file_len ==> call_requires(
            Writer::adopted::<P>,
            (plan, sequence, file_len, next_hdr),
        ),
        n >= 1 ==> call_requires(WriterBuilder::<P>::keep_files, (b, n)),
        call_requires(WriterBuilder::<P>::build, (b,)),
{
}

/// A reader reads its region, whole, wherever it stands there and however far the flags
/// have been observed; it moves on with any region or segment that is handed to it.
pub proof fn law_reader_calls_are_open<M: Clone>(
    reader: &mut Reader<M>,
    same: &Reader<M>,
    region: &[u8],
    visible: usize,
    consume: bool,
    max: Option<u16>,
    out: &mut Vec<OwnedMessage<M>>,
    drain: &mut Drain,
    current: &[u8],
    region0: &[u8],
    mapping: M,
)
    requires
        ({
            let s = old(reader)@;
            let size = s.region_size_cached as int;
            &&& 144 <= size <= 0xffff_ffff
            &&& size % 8 == 0
            &&& s.read_position % 8 == 0
            &&& s.read_position - s.read_position as int % size + size <= 0x7fff_ffff_ffff_ffff
            &&& s.file_sequence < u64::MAX
            &&& s.maps.len() > 0
            &&& s.maps.last().file_sequence == s.file_sequence
            &&& s.maps.last().region_idx == s.read_position as int / size
            &&& region@.len() == size
            &&& region0@.len() == size
        }),
        same@ == old(reader)@,
        0 <= old(drain).taken() <= old(drain).max() <= usize::MAX,
        144 <= current@.len(),
        le64(current@, 32) + le64(current@, 24) <= u64::MAX,
    ensures
        call_requires(Reader::<M>::scan_to_user_record, (reader, region, visible, consume)),
        call_requires(Reader::<M>::try_read, (reader, region, visible)),
        call_requires(Reader::<M>::try_read_owned, (reader, region, visible)),
        call_requires(Reader::<M>::peek_header, (reader, region, visible)),
        call_requires(Reader::<M>::poll_for_user_message, (reader, region, visible)),
        call_requires(Reader::<M>::read_owned_into, (reader, region, visible, out, drain)),
        call_requires(Reader::<M>::begin_batch, (reader, max)),
        call_requires(Reader::<M>::needs_region, (same,)),
        call_requires(Reader::<M>::switch_region, (reader, mapping)),
        call_requires(Reader::<M>::prune_to_current, (reader,)),
        call_requires(Reader::<M>::open_next_file, (reader, current, region0, mapping)),
{
    let s = old(reader)@;
    crate::layout::lemma_split(s.read_position as int, s.region_size_cached as int);
}

/// A batch scan goes over its region, whole, while it has a stretch there and room for a
/// message, and can be ended and led on from wherever it has come to.
pub proof fn law_batch_calls_are_open<M>(
    reader: &mut Reader<M>,
    same: &Reader<M>,
    scan: &mut BatchScan,
    here: BatchScan,
    region: &[u8],
    visible: usize,
    current: &[u8],
    region0: &[u8],
    mapping: M,
)
    requires
        ({
            let s = old(reader)@;
            let size = s.region_size_cached as int;
            let c = old(scan).cursor as int;
            &&& 144 <= size <= 0xffff_ffff
            &&& size % 8 == 0
            &&& s.read_position % 8 == 0
            &&& s.read_position <= 0x7fff_ffff_ffff_ffff
            &&& c % 8 == 0
            &&& c - c % size + size <= 0x7fff_ffff_ffff_ffff
            &&& old(scan).sequence < u64::MAX
            &&& s.maps.len() > 0
            &&& s.maps.last().file_sequence == old(scan).sequence
            &&& s.maps.last().region_idx == c / size
            &&& s.batch_segs.len() > 0
            &&& s.batch_pos.len() < old(scan).max
            &&& region@.len() == size
        }),
        same@ == old(reader)@,
        here == *old(scan),
        144 <= current@.len(),
        144 <= region0@.len(),
        le64(current@, 32) + le64(current@, 24) <= u64::MAX,
    ensures
        call_requires(Reader::<M>::ensure_scan_region_mapped, (same, &here)),
        call_requires(Reader::<M>::map_scan_region, (reader, &here, mapping)),
        call_requires(Reader::<M>::begin_batch_seg, (reader, &here)),
        call_requires(Reader::<M>::scan_batch_region, (reader, scan, region, visible)),
        call_requires(Reader::<M>::finish_batch, (reader, here)),
        call_requires(BatchScan::enter_next_file::<M>, (scan, same, current, region0)),
{
    let s = old(reader)@;
    crate::layout::lemma_split(old(scan).cursor as int, s.region_size_cached as int);
}

/// A segment can be looked at, laid out, taken up and recovered with any region that holds
/// a channel header, and a reader can be opened at any aligned position.
pub proof fn law_segment_calls_are_open<M>(
    page: &[u8],
    mode: ReaderMode,
    sequence: u64,
    region_size: usize,
    roll: u64,
    generation: u64,
    current: &[u8],
    r0: &mut [u8],
    spec: &SegmentSpec,
    plan: &Reopen,
    found: &Recovery,
    records: u64,
    opening: &Opening,
    mapping: M,
)
    requires
        144 <= page@.len(),
        144 <= current@.len(),
        144 <= old(r0)@.len(),
        le64(current@, 32) + le64(current@, 24) <= u64::MAX,
        page@[1] == 0 ==> le64(page@, 32) + le64(page@, 24) <= u64::MAX,
    ensures
        call_requires(read_channel_header, (page, mode, sequence)),
        call_requires(head_record_index, (page,)),
        call_requires(check_continuation, (sequence, region_size, generation, current, page)),
        0 < region_size <= 0xffff_ffff ==> call_requires(
            plan_reopen,
            (page, sequence, region_size, roll),
        ),
        call_requires(prepare_segment_at, (r0, spec)),
        call_requires(ChannelHeader::read, (page,)),
        match *found {
            Recovery::Clean => plan.next_hdr + 16 <= u64::MAX,
            Recovery::User { next_hdr } => next_hdr + 16 <= u64::MAX,
            Recovery::Skip { region_index } => region_index * old(r0)@.len() + 16 <= u64::MAX,
        } ==> call_requires(finish_recovery, (plan, found, records, r0)),
        144 <= opening.region_size && opening.region_size <= 0xffff_ffff && opening.region_size
            % 8 == 0 && opening.read_pos % 8 == 0 && opening.read_pos <= 0x7fff_ffff_ffff_ffff
            ==> call_requires(Reader::<M>::open_at, (opening, sequence, mapping)),
{
}

/// Recovery looks at any aligned slot of a region that the file holds.
pub proof fn law_recovery_calls_are_open(plan: &Reopen, region: &[u8], file_len: u64)
    requires
        ({
            let size = region@.len() as int;
            &&& 0 < size <= 0xffff_ffff
            &&& size % 8 == 0
            &&& plan.next_hdr % 8 == 0
            &&& plan.region_index == plan.next_hdr as int / size
            &&& plan.next_hdr as int % size + 16 <= size
            &&& (plan.region_index + 1) * size <= file_len
            &&& file_len <= 0x7fff_ffff_ffff_ffff
        }),
    ensures
        call_requires(recover, (plan, region, file_len)),
        call_requires(recover_skip, (plan, region)),
{
}

/// Headers, messages and batches can be read wherever they fit.
pub proof fn law_message_calls_are_open<'a, M: Clone>(
    bytes: &'a [u8],
    off: usize,
    visible: usize,
    m: &MessageRef<'a>,
    o: &OwnedMessage<M>,
    b: &MessageBatch<'a, M>,
    index: usize,
)
    requires
        b.maps@.len() == b.bytes@.len(),
        forall|i: int| #![trigger b.pos@[i]]
            0 <= i < b.pos@.len() ==> {
                let p = b.pos@[i];
                let map = b.segs@[p.seg as int].map_idx as int;
                let r = b.bytes@[map]@;
                &&& p.seg < b.segs@.len()
                &&& map < b.bytes@.len()
                &&& p.off + 16 + header_at(r, p.off as int).length <= r.len()
            },
    ensures
        off + 16 <= bytes@.len() ==> {
            &&& call_requires(MessageHeader::read, (bytes, off))
            &&& call_requires(message_header_info, (bytes, off, visible))
        },
        m.header_offset + 16 + m.payload_len <= m.mapping@.len() ==> {
            &&& call_requires(MessageRef::<'a>::header, (m,))
            &&& call_requires(MessageRef::<'a>::payload, (m,))
        },
        o.header_offset + 16 + o.payload_len <= bytes@.len() ==> {
            &&& call_requires(OwnedMessage::<M>::header, (o, bytes))
            &&& call_requires(OwnedMessage::<M>::payload, (o, bytes))
        },
        bytes@.len() % 8 == 0 && off % 8 == 0 ==> call_requires(count_records, (bytes, off)),
        call_requires(MessageBatch::<'a, M>::get, (b, index)),
        call_requires(MessageBatch::<'a, M>::get_owned, (b, index)),
        call_requires(MessageBatch::<'a, M>::iter, (b,)),
        index < b.pos@.len() ==> call_requires(
            MessageBatch::<'a, M>::get_unchecked,
            (b, index),
        ),
{
    let regions = crate::batch::region_bytes(b.bytes@);
    assert forall|i: int| 0 <= i < b.pos@.len() implies crate::batch::place_fits(
        b.segs@,
        regions,
        #[trigger] b.pos@[i],
    ) by {
        let map = b.segs@[b.pos@[i].seg as int].map_idx as int;
        assert(regions[map] == b.bytes@[map]@);
    }
}

/// Sizes can be asked for whatever they are, files of any length be migrated, and a wait
/// goes on from any pace that it has come to.
pub proof fn law_other_calls_are_open(
    region_size: usize,
    page: usize,
    base: u64,
    roll: u64,
    len: u64,
    exists_already: bool,
    prefix: &mut [u8],
    pace: &mut Backoff,
    left: Option<u64>,
    found: bool,
)
    requires
        len >= 80 ==> old(prefix)@.len() == 80,
        1 <= old(pace).us <= 10000,
    ensures
        region_size + 7 <= usize::MAX ==> call_requires(align_up, (region_size,)),
        region_size > 0 ==> call_requires(preallocation_len, (region_size, roll)),
        page > 0 ==> {
            &&& call_requires(check_geometry, (region_size, page))
            &&& call_requires(check_alignment, (base, region_size, page))
        },
        base + region_size <= u64::MAX ==> call_requires(required_len, (base, region_size)),
        call_requires(migrate_file_v2_to_v3, (len, exists_already, prefix)),
        call_requires(Backoff::next_sleep, (pace, left)),
        call_requires(wait_step, (pace, found, left)),
{
}

} // verus!
