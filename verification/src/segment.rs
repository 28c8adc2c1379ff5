//! The life of a segment file before its writer appends: a fresh one is laid out,
//! an existing one is adopted, and what a crash left behind is stepped over.
use vstd::prelude::*;

use crate::bytes::put_u64;
use crate::channel::{
    base_record_index_at, generation_at, header_at, message_count_at, next_index_at,
    preinstall_fault, preinstalled_header, segment_fault, validate_channel_header,
    verify_preinstall_signature, write_position_at, ChannelHeader, HeaderType, MessageHeader,
    CHANNEL_NAME_MAX, ENDIANNESS_LE, FIRST_SLOT, FORMAT_VERSION, HEADER_SLOT, SYSTEM_HEADER_SIZE,
    USER_HEADER_KIND_DEFAULT, USER_HEADER_SIZE,
};
use crate::error::Error;
use crate::layout::{align8, preallocation, preallocation_len, MAX_FILE_OFFSET};
use crate::log::{channel_record, segment_head, slot_at, walk, Hit, Slot, Walk};
use crate::writer::settled;

verus! {

broadcast use {vstd::slice::group_slice_axioms, crate::channel::group_header_len};

/// What a fresh segment is to say of itself.
#[derive(Debug, Clone, Copy)]
pub struct SegmentSpec {
    /// Position in the series.
    pub sequence: u64,
    /// Region size in bytes.
    pub region_size: usize,
    /// Maximum payload size; 0 is unlimited.
    pub mtu: u64,
    /// Channel name, zero-padded.
    pub channel_name: [u8; CHANNEL_NAME_MAX],
    /// Absolute index of the first user record.
    pub base_record_index: u64,
    /// Incarnation id of the channel.
    pub generation: u64,
}

impl SegmentSpec {
    /// The channel header of the fresh segment.
    pub open spec fn spec_channel_header(self) -> ChannelHeader {
        ChannelHeader {
            write_position: 160,
            message_count: 0,
            base_record_index: self.base_record_index,
            channel_sequence: self.sequence,
            region_size: self.region_size as u32,
            mtu: self.mtu as u32,
            format_version: FORMAT_VERSION,
            endianness: ENDIANNESS_LE,
            system_header_size: SYSTEM_HEADER_SIZE,
            user_header_kind: USER_HEADER_KIND_DEFAULT,
            user_header_size: USER_HEADER_SIZE,
            channel_name: self.channel_name,
            generation: self.generation,
        }
    }

    /// The channel header of the fresh segment: no record yet, and the first slot
    /// right behind the header.
    pub fn channel_header(&self) -> (ch: ChannelHeader)
        ensures
            ch == self.spec_channel_header(),
    {
        ChannelHeader {
            write_position: 160,
            message_count: 0,
            base_record_index: self.base_record_index,
            channel_sequence: self.sequence,
            region_size: self.region_size as u32,
            mtu: self.mtu as u32,
            format_version: FORMAT_VERSION,
            endianness: ENDIANNESS_LE,
            system_header_size: SYSTEM_HEADER_SIZE,
            user_header_kind: USER_HEADER_KIND_DEFAULT,
            user_header_size: USER_HEADER_SIZE,
            channel_name: self.channel_name,
            generation: self.generation,
        }
    }
}

/// Region 0 of a fresh segment: the Channel record with its header, and the first
/// user slot pre-installed. The other bytes stay what they were.
pub open spec fn prepared(r: Seq<u8>, spec: SegmentSpec) -> Seq<u8> {
    crate::bytes::put(
        crate::bytes::put(
            crate::bytes::put(r, 0, channel_record().bytes()),
            16,
            spec.spec_channel_header().bytes(),
        ),
        FIRST_SLOT as int,
        preinstalled_header().bytes(),
    )
}

/// Lays out region 0 of a fresh segment, and returns the position of the first
/// user slot. A region without room for that slot is refused and left alone.
pub fn prepare_segment_at(region0: &mut [u8], spec: &SegmentSpec) -> (r: Result<u64, Error>)
    requires
        FIRST_SLOT <= old(region0)@.len(),
    ensures
        if old(region0)@.len() < FIRST_SLOT + HEADER_SLOT {
            &&& r == Err::<u64, Error>(Error::FirstHeaderOutside)
            &&& final(region0)@ == old(region0)@
        } else {
            &&& r == Ok::<u64, Error>(FIRST_SLOT as u64)
            &&& final(region0)@ == prepared(old(region0)@, *spec)
        },
{
    if region0.len() < FIRST_SLOT + HEADER_SLOT {
        return Err(Error::FirstHeaderOutside);
    }
    let head = MessageHeader {
        committed: 1,
        header_type: HeaderType::Channel.code(),
        message_type: 0,
        length: 128,
        user_meta_u64: 0,
    };
    head.write(region0, 0);
    spec.channel_header().write(region0);
    MessageHeader::preinstalled().write(region0, FIRST_SLOT);
    Ok(FIRST_SLOT as u64)
}

/// A fresh segment holds no message, its tail is the first user slot, its channel
/// header says what was asked for, and that header is valid for the segment.
pub proof fn law_prepared_segment(r: Seq<u8>, spec: SegmentSpec)
    requires
        FIRST_SLOT + HEADER_SLOT <= r.len(),
        r.len() == spec.region_size <= u32::MAX,
    ensures
        segment_head(prepared(r, spec)),
        prepared(r, spec).len() == r.len(),
        spec.spec_channel_header().stored_in(prepared(r, spec)),
        segment_fault(prepared(r, spec), spec.region_size, spec.sequence) is None,
        header_at(prepared(r, spec), FIRST_SLOT as int) == preinstalled_header(),
        walk(prepared(r, spec), 0, r.len() as int) == (Walk {
            records: seq![],
            stop: Hit::Tail { off: FIRST_SLOT as int },
        }),
{
    let a = crate::bytes::put(r, 0, channel_record().bytes());
    let b = crate::bytes::put(a, 16, spec.spec_channel_header().bytes());
    let c = prepared(r, spec);
    crate::channel::law_message_header_round_trip(r, 0, channel_record());
    crate::channel::law_channel_header_round_trip(a, spec.spec_channel_header());
    crate::channel::law_message_header_round_trip(b, FIRST_SLOT as int, preinstalled_header());
    assert(forall|i: int| 0 <= i < 16 ==> a[i] == c[i]);
    assert(forall|i: int| 16 <= i < 144 ==> b[i] == c[i]);
    crate::log::lemma_slot_frame(a, c, 0, r.len() as int);
    lemma_stored_frame(b, c, spec.spec_channel_header());
    crate::log::lemma_head_is_skipped(c);
    assert(slot_at(c, FIRST_SLOT as int, r.len() as int) == Slot::Waiting);
}

/// A stored channel header depends on its own bytes.
pub proof fn lemma_stored_frame(r: Seq<u8>, t: Seq<u8>, ch: ChannelHeader)
    requires
        FIRST_SLOT <= r.len(),
        r.len() == t.len(),
        ch.stored_in(r),
        forall|i: int| 16 <= i < 144 ==> r[i] == t[i],
    ensures
        ch.stored_in(t),
{
    crate::bytes::lemma_le64_frame(r, t, 16);
    crate::bytes::lemma_le64_frame(r, t, 24);
    crate::bytes::lemma_le64_frame(r, t, 32);
    crate::bytes::lemma_le64_frame(r, t, 40);
    crate::bytes::lemma_le32_frame(r, t, 48);
    crate::bytes::lemma_le32_frame(r, t, 52);
    crate::bytes::lemma_le16_frame(r, t, 56);
    crate::bytes::lemma_le32_frame(r, t, 60);
    crate::bytes::lemma_le64_frame(r, t, 136);
    assert(r.subrange(65, 113) =~= t.subrange(65, 113));
}

/// What is to be done about the file of the latest segment before a writer has it.
#[derive(Debug, Clone, Copy, PartialEq, Eq, Structural)]
pub enum OpenStep {
    /// There is none: lay out a fresh segment.
    Create,
    /// There is an empty one: remove it and lay out a fresh segment.
    Replace,
    /// There is a segment: take it up.
    Reopen,
}

/// Decides how a writer comes to its segment. `existing_len` is the length of the
/// segment's file, if there is one.
pub fn open_step(existing_len: Option<u64>) -> (s: OpenStep)
    ensures
        s == match existing_len {
            None => OpenStep::Create,
            Some(len) => if len == 0 {
                OpenStep::Replace
            } else {
                OpenStep::Reopen
            },
        },
{
    match existing_len {
        None => OpenStep::Create,
        Some(len) => if len == 0 {
            OpenStep::Replace
        } else {
            OpenStep::Reopen
        },
    }
}

/// How an existing segment is taken up again.
#[derive(Debug, Clone, Copy, PartialEq, Eq, Structural)]
pub struct Reopen {
    /// Position of the next header slot, as far as the write position tells.
    pub next_hdr: u64,
    /// The region that holds it.
    pub region_index: u64,
    /// The length that the file must have at least.
    pub target_len: u64,
}

/// How the segment that starts with `r` is taken up again, or why it is not.
pub open spec fn reopening(
    r: Seq<u8>,
    sequence: u64,
    region_size: usize,
    file_roll_size: u64,
) -> Result<Reopen, Error> {
    let wp = crate::channel::write_position_at(r);
    let next_hdr = if wp < HEADER_SLOT {
        0
    } else {
        wp - HEADER_SLOT
    };
    let region_index = next_hdr / region_size as int;
    let off = next_hdr % region_size as int;
    let needed_end = (region_index + 1) * region_size;
    match preallocation(region_size, file_roll_size) {
        Err(e) => Err(e),
        Ok(initial_len) => match segment_fault(r, region_size, sequence) {
            Some(e) => Err(e),
            None => if next_hdr % 8 != 0 || off + HEADER_SLOT > region_size || needed_end
                > MAX_FILE_OFFSET {
                Err(Error::InvalidWritePosition { position: wp })
            } else {
                Ok(
                    Reopen {
                        next_hdr: next_hdr as u64,
                        region_index: region_index as u64,
                        target_len: if needed_end > initial_len {
                            needed_end as u64
                        } else {
                            initial_len
                        },
                    },
                )
            },
        },
    }
}

/// Decides how an existing segment is taken up again: checks its channel header and
/// finds the next header slot from the stored write position. A file that is
/// shorter than a fresh one would be is to be grown to `target_len`.
pub fn plan_reopen(
    region0: &[u8],
    sequence: u64,
    region_size: usize,
    file_roll_size: u64,
) -> (r: Result<Reopen, Error>)
    requires
        FIRST_SLOT <= region0@.len(),
        0 < region_size <= u32::MAX,
    ensures
        r == reopening(region0@, sequence, region_size, file_roll_size),
{
    let initial_len = match preallocation_len(region_size, file_roll_size) {
        Ok(len) => len,
        Err(e) => {
            return Err(e);
        },
    };
    let ch = ChannelHeader::read(region0);
    match validate_channel_header(&ch, region_size, sequence) {
        Ok(_) => {},
        Err(e) => {
            return Err(e);
        },
    }
    let wp = ch.write_position;
    let next_hdr = wp.saturating_sub(HEADER_SLOT as u64);
    let size = region_size as u64;
    let region_index = next_hdr / size;
    let off = next_hdr % size;
    proof {
        crate::layout::lemma_split(next_hdr as int, size as int);
        crate::layout::lemma_next_region(region_index as int, size as int);
    }
    let start = region_index * size;
    if next_hdr % 8 != 0 || off + HEADER_SLOT as u64 > size || start > MAX_FILE_OFFSET || start
        + size > MAX_FILE_OFFSET {
        return Err(Error::InvalidWritePosition { position: wp });
    }
    let needed_end = start + size;
    let target_len = if needed_end > initial_len {
        needed_end
    } else {
        initial_len
    };
    Ok(Reopen { next_hdr, region_index, target_len })
}

/// What is found at the slot that the write position leads to.
#[derive(Debug, Clone, Copy, PartialEq, Eq, Structural)]
pub enum Recovery {
    /// The slot is free: the last writer left in good order.
    Clean,
    /// The slot holds a message; the next slot is the one to use.
    User { next_hdr: u64 },
    /// The slot holds padding; the first slot of the next region is to be looked at.
    Skip { region_index: u64 },
}

/// Bytes from a header to the next one.
pub open spec fn advance(r: Seq<u8>, off: int) -> int {
    HEADER_SLOT + align8(header_at(r, off).length as int)
}

/// What is to be done about the slot at offset `off` of the region `plan` names.
pub open spec fn recovery(r: Seq<u8>, plan: Reopen, file_len: u64) -> Result<Recovery, Error> {
    let size = r.len() as int;
    let off = plan.next_hdr as int % size;
    let h = header_at(r, off);
    match h.spec_is_committed() {
        Err(e) => Err(e),
        Ok(false) => Ok(Recovery::Clean),
        Ok(true) => match HeaderType::spec_from_raw(h.header_type) {
            Err(e) => Err(e),
            Ok(HeaderType::User) => if off + advance(r, off) + HEADER_SLOT > size {
                Err(Error::RecoveryCrossesRegion)
            } else {
                match preinstall_fault(header_at(r, off + advance(r, off))) {
                    Some(e) => Err(e),
                    None => Ok(
                        Recovery::User { next_hdr: (plan.next_hdr + advance(r, off)) as u64 },
                    ),
                }
            },
            Ok(HeaderType::Skip) => if off + advance(r, off) != size {
                Err(Error::SkipNotAligned)
            } else if (plan.region_index + 2) * size > file_len {
                Err(Error::SkipPastEnd)
            } else {
                Ok(Recovery::Skip { region_index: (plan.region_index + 1) as u64 })
            },
            Ok(kind) => Err(Error::UnexpectedStaleHeader { kind }),
        },
    }
}

/// A plan that fits regions of `size` bytes and a file of `file_len` bytes.
pub open spec fn reopen_fits(plan: Reopen, size: int, file_len: u64) -> bool {
    &&& 0 < size <= u32::MAX
    &&& size % 8 == 0
    &&& plan.next_hdr % 8 == 0
    &&& plan.region_index == plan.next_hdr as int / size
    &&& plan.next_hdr as int % size + HEADER_SLOT <= size
    &&& (plan.region_index + 1) * size <= file_len
    &&& file_len <= MAX_FILE_OFFSET
}

/// Looks at the slot that the write position leads to, in the region that holds it.
///
/// A writer publishes a record first and the write position after it, so a crash
/// in between leaves at most one published record behind the write position. That
/// one record is stepped over; anything else is refused.
pub fn recover(plan: &Reopen, region: &[u8], file_len: u64) -> (r: Result<Recovery, Error>)
    requires
        reopen_fits(*plan, region@.len() as int, file_len),
    ensures
        r == recovery(region@, *plan, file_len),
{
    let size = region.len() as u64;
    let off = (plan.next_hdr % size) as usize;
    proof {
        crate::layout::lemma_split(plan.next_hdr as int, size as int);
        crate::layout::lemma_next_region(plan.region_index as int, size as int);
    }
    let hdr = MessageHeader::read(region, off);
    match hdr.is_committed() {
        Err(e) => {
            return Err(e);
        },
        Ok(committed) => {
            if !committed {
                return Ok(Recovery::Clean);
            }
        },
    }
    let kind = match hdr.parsed_header_type() {
        Err(e) => {
            return Err(e);
        },
        Ok(kind) => kind,
    };
    let step: u64 = HEADER_SLOT as u64 + crate::layout::align_up_pos(hdr.length as u64);
    match kind {
        HeaderType::User => {
            if off as u64 + step + HEADER_SLOT as u64 > size {
                return Err(Error::RecoveryCrossesRegion);
            }
            let next = MessageHeader::read(region, off + step as usize);
            match verify_preinstall_signature(&next) {
                Err(e) => Err(e),
                Ok(_) => Ok(Recovery::User { next_hdr: plan.next_hdr + step }),
            }
        },
        HeaderType::Skip => {
            if off as u64 + step != size {
                return Err(Error::SkipNotAligned);
            }
            let start = plan.region_index * size;
            if start + 2 * size > file_len {
                return Err(Error::SkipPastEnd);
            }
            Ok(Recovery::Skip { region_index: plan.region_index + 1 })
        },
        _ => Err(Error::UnexpectedStaleHeader { kind }),
    }
}

/// Steps over padding: `next_region` is the region behind it, and its first slot
/// must be a pre-installed one. Returns the position of that slot.
pub fn recover_skip(plan: &Reopen, next_region: &[u8]) -> (r: Result<u64, Error>)
    requires
        reopen_fits(*plan, next_region@.len() as int, MAX_FILE_OFFSET),
    ensures
        match preinstall_fault(header_at(next_region@, 0)) {
            Some(e) => r == Err::<u64, Error>(e),
            None => r == Ok::<u64, Error>(
                ((plan.region_index + 1) * next_region@.len()) as u64,
            ),
        },
{
    let size = next_region.len() as u64;
    proof {
        crate::layout::lemma_split(plan.next_hdr as int, size as int);
        crate::layout::lemma_next_region(plan.region_index as int, size as int);
    }
    let hdr = MessageHeader::read(next_region, 0);
    match verify_preinstall_signature(&hdr) {
        Err(e) => Err(e),
        Ok(_) => Ok(plan.region_index * size + size),
    }
}

/// What a region 0 with another write position says.
pub proof fn lemma_stored_wp(r: Seq<u8>, position: u64)
    requires
        FIRST_SLOT <= r.len(),
    ensures
        ({
            let t = crate::bytes::put(r, 16, crate::bytes::le64_bytes(position));
            &&& write_position_at(t) == position
            &&& message_count_at(t) == message_count_at(r)
            &&& base_record_index_at(t) == base_record_index_at(r)
            &&& generation_at(t) == generation_at(r)
        }),
{
    broadcast use crate::bytes::group_le_len;

    let t = crate::bytes::put(r, 16, crate::bytes::le64_bytes(position));
    assert(t.subrange(16, 24) =~= crate::bytes::le64_bytes(position));
    crate::bytes::law_le64_round_trip(t, 16, position);
    crate::bytes::lemma_le64_frame(r, t, 24);
    crate::bytes::lemma_le64_frame(r, t, 32);
    crate::bytes::lemma_le64_frame(r, t, 136);
}

/// Stores the write position of a segment whose region 0 is `region0`.
pub fn store_wp(region0: &mut [u8], position: u64)
    requires
        FIRST_SLOT <= old(region0)@.len(),
    ensures
        final(region0)@ == crate::bytes::put(
            old(region0)@,
            16,
            crate::bytes::le64_bytes(position),
        ),
        write_position_at(final(region0)@) == position,
        message_count_at(final(region0)@) == message_count_at(old(region0)@),
        base_record_index_at(final(region0)@) == base_record_index_at(old(region0)@),
        generation_at(final(region0)@) == generation_at(old(region0)@),
{
    proof {
        lemma_stored_wp(region0@, position);
    }
    put_u64(region0, 16, position);
}

/// Region 0 of a segment after recovery: where a message was stepped over, it counts
/// `records` messages, and the write position leads to the slot that recovery has come to.
pub open spec fn recovered(r: Seq<u8>, plan: Reopen, found: Recovery, records: u64) -> Seq<u8> {
    match found {
        Recovery::Clean => r,
        Recovery::User { next_hdr } => settled(r, records, (next_hdr + HEADER_SLOT) as u64),
        Recovery::Skip { region_index } => crate::bytes::put(
            r,
            16,
            crate::bytes::le64_bytes((region_index * r.len() + HEADER_SLOT) as u64),
        ),
    }
}

/// The position of the slot that recovery has come to.
pub open spec fn recovered_slot(size: int, plan: Reopen, found: Recovery) -> int {
    match found {
        Recovery::Clean => plan.next_hdr as int,
        Recovery::User { next_hdr } => next_hdr as int,
        Recovery::Skip { region_index } => region_index * size,
    }
}

/// Ends recovery: stores in region 0 what was found, and returns the position of the
/// next header slot. Padding is to have been stepped over with [`recover_skip`].
///
/// A message is stepped over for a writer that died after it had published the message
/// and before it had stored the write position. Whether it had counted the message cannot
/// be told from the channel header, so the count is taken from the segment itself:
/// `records` is the number of its messages, from a [`Tally`](crate::tally::Tally) of its
/// regions up to the recovered one.
pub fn finish_recovery(plan: &Reopen, found: &Recovery, records: u64, region0: &mut [u8]) -> (
    next_hdr: u64)
    requires
        FIRST_SLOT <= old(region0)@.len(),
        recovered_slot(old(region0)@.len() as int, *plan, *found) + HEADER_SLOT <= u64::MAX,
    ensures
        next_hdr == recovered_slot(old(region0)@.len() as int, *plan, *found),
        final(region0)@ == recovered(old(region0)@, *plan, *found, records),
        !(found is Clean) ==> write_position_at(final(region0)@) == next_hdr + HEADER_SLOT,
        !(found is User) ==> next_index_at(final(region0)@) == next_index_at(old(region0)@),
        found is User ==> message_count_at(final(region0)@) == records,
        base_record_index_at(final(region0)@) == base_record_index_at(old(region0)@),
        generation_at(final(region0)@) == generation_at(old(region0)@),
{
    match *found {
        Recovery::Clean => plan.next_hdr,
        Recovery::User { next_hdr } => {
            proof {
                crate::writer::lemma_settled(
                    region0@,
                    records,
                    (next_hdr + HEADER_SLOT) as u64,
                );
            }
            put_u64(region0, 24, records);
            put_u64(region0, 16, next_hdr + HEADER_SLOT as u64);
            next_hdr
        },
        Recovery::Skip { region_index } => {
            let next_hdr = region_index * region0.len() as u64;
            store_wp(region0, next_hdr + HEADER_SLOT as u64);
            next_hdr
        },
    }
}

/// A plan to take up a segment fits its file once the file has the length that the
/// plan asks for.
pub proof fn law_reopening_fits(
    r: Seq<u8>,
    sequence: u64,
    region_size: usize,
    file_roll_size: u64,
    file_len: u64,
)
    requires
        0 < region_size <= u32::MAX,
        region_size % 8 == 0,
        reopening(r, sequence, region_size, file_roll_size) is Ok,
        reopening(r, sequence, region_size, file_roll_size)->Ok_0.target_len <= file_len,
        file_len <= MAX_FILE_OFFSET,
    ensures
        reopen_fits(
            reopening(r, sequence, region_size, file_roll_size)->Ok_0,
            region_size as int,
            file_len,
        ),
{
    let wp = crate::channel::write_position_at(r);
    let next_hdr = if wp < HEADER_SLOT {
        0
    } else {
        wp - HEADER_SLOT
    };
    let index = next_hdr / region_size as int;
    crate::layout::lemma_split(next_hdr, region_size as int);
    assert(index <= index * region_size) by (nonlinear_arith)
        requires
            region_size >= 1,
            index >= 0,
    ;
}

/// Recovery ends at the tail: behind a free slot there is nothing, behind a
/// stepped-over message there is a free slot, and behind stepped-over padding there
/// is the next region. The slot that it leads to is aligned and inside the file.
pub proof fn law_recovery_reaches_the_tail(r: Seq<u8>, plan: Reopen, file_len: u64)
    requires
        reopen_fits(plan, r.len() as int, file_len),
        recovery(r, plan, file_len) is Ok,
    ensures
        ({
            let off = plan.next_hdr as int % r.len() as int;
            let w = walk(r, off, r.len() as int);
            match recovery(r, plan, file_len)->Ok_0 {
                Recovery::Clean => w == (Walk { records: seq![], stop: Hit::Tail { off } }),
                Recovery::User { next_hdr } => {
                    let at = off + advance(r, off);
                    &&& w == (Walk {
                        records: seq![crate::log::record_at(r, off)],
                        stop: Hit::Tail { off: at },
                    })
                    &&& next_hdr == plan.region_index * r.len() + at
                    &&& next_hdr % 8 == 0
                    &&& next_hdr as int / r.len() as int == plan.region_index
                    &&& next_hdr as int % r.len() as int + HEADER_SLOT <= r.len()
                },
                Recovery::Skip { region_index } => {
                    &&& w == (Walk { records: seq![], stop: Hit::Edge })
                    &&& region_index == plan.region_index + 1
                    &&& (region_index * r.len()) % 8 == 0
                    &&& (region_index + 1) * r.len() <= file_len
                },
            }
        }),
{
    let size = r.len() as int;
    let off = plan.next_hdr as int % size;
    crate::layout::lemma_split(plan.next_hdr as int, size);
    crate::layout::lemma_next_region(plan.region_index as int, size);
    crate::layout::lemma_region_start_aligned(plan.region_index as int, size);
    crate::layout::law_align_up(header_at(r, off).length as int, off + HEADER_SLOT);
    match recovery(r, plan, file_len)->Ok_0 {
        Recovery::Clean => {},
        Recovery::User { next_hdr } => {
            let at = off + advance(r, off);
            crate::layout::lemma_position(plan.region_index as int, at, size);
            assert(slot_at(r, off, size) == Slot::User { next: at });
            assert(slot_at(r, at, size) == Slot::Waiting);
            assert(walk(r, at, size) == (Walk { records: seq![], stop: Hit::Tail { off: at } }));
            let here = seq![crate::log::record_at(r, off)];
            assert(here + Seq::<crate::log::Record>::empty() =~= here);
        },
        Recovery::Skip { region_index } => {
            crate::layout::lemma_region_start_aligned(plan.region_index + 1, size);
            assert(slot_at(r, off, size) == Slot::Service { next: size });
            assert(walk(r, size, size) == (Walk { records: seq![], stop: Hit::Edge }));
            assert(plan.region_index + 1 <= (plan.region_index + 1) * size) by (nonlinear_arith)
                requires
                    size >= 1,
                    plan.region_index >= 0,
            ;
        },
    }
}

} // verus!
