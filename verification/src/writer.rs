//! The writing end: reserving, committing, moving on to the next region and to the
//! next segment.
use vstd::prelude::*;

use crate::builder::WriterPlan;
use crate::bytes::{get_u64, put_u64};
use crate::channel::{
    base_record_index_at, generation_at, generation_of, message_count_at, next_index,
    next_index_at, preinstalled_header, write_position_at, HeaderType, MessageHeader,
    CHANNEL_NAME_MAX, COMMITTED, FIRST_SLOT, HEADER_SLOT,
};
use crate::error::Error;
use crate::layout::{align8, align_up, align_up_pos, MAX_FILE_OFFSET};
use crate::segment::SegmentSpec;

verus! {

broadcast use {vstd::slice::group_slice_axioms, crate::channel::group_header_len};

/// The writing end of a channel, on its current segment.
///
/// The writer holds no memory: every step is handed the bytes of the region that
/// it works on.
#[derive(Debug)]
pub struct Writer {
    state: WriterState,
}

/// Where a writer stands, and what it goes by. Region 0 holds the channel header;
/// `current_region_index` names the region that holds the next header slot.
#[derive(Debug, Clone, Copy)]
pub struct WriterState {
    /// Position of the current segment in the series.
    pub file_sequence: u64,
    /// Length of the current segment's file.
    pub file_len: u64,
    /// The region that holds the next header slot.
    pub current_region_index: u64,
    /// Region size in bytes.
    pub region_size: usize,
    /// Bytes after which a segment is rolled; 0 is never.
    pub file_roll_size: u64,
    /// Maximum payload size; 0 is unlimited.
    pub mtu: u64,
    /// How many segments to keep; all of them if not given.
    pub keep_files: Option<u64>,
    /// Channel name, zero-padded.
    pub channel_name: [u8; CHANNEL_NAME_MAX],
    /// Position of the pre-installed header slot that the next record will take.
    pub next_hdr_pos: u64,
    /// Size of the reservation that waits for its commit.
    pub pending_msg_size: Option<usize>,
}

/// What became of a reservation.
#[derive(Debug, Clone, Copy, PartialEq, Eq, Structural)]
pub enum Reserve {
    /// The payload may be written at `payload_off` of the current region.
    Ready { payload_off: usize },
    /// The current region is full: move on to the next one and try again.
    RollRegion,
    /// The current segment is full: move on to the next one and try again.
    RollFile,
}

/// A commit whose header is written but not published.
#[derive(Debug)]
pub struct StagedCommit {
    hdr_off: usize,
    next_pos: u64,
}

impl StagedCommit {
    /// Offset of the record's header, and of its commit flag, in the current region.
    pub closed spec fn off(self) -> int {
        self.hdr_off as int
    }

    /// Position of the slot behind the record.
    pub closed spec fn next(self) -> int {
        self.next_pos as int
    }

    /// Offset of the commit flag in the current region.
    pub fn flag_off(&self) -> (off: usize)
        ensures
            off == self.off(),
    {
        self.hdr_off
    }
}

/// The mark that ends a segment, written but not published.
#[derive(Debug)]
pub struct StagedRoll {
    hdr_off: usize,
}

/// The mark that ends a segment, written but not published, with the next segment in
/// place under its final name.
#[derive(Debug)]
pub struct NamedRoll {
    hdr_off: usize,
}

impl StagedRoll {
    /// Offset of the mark in its region.
    pub closed spec fn off(self) -> int {
        self.hdr_off as int
    }

    /// To be called once the next segment has been renamed to its final name.
    pub fn renamed(self) -> (named: NamedRoll)
        ensures
            named.off() == self.off(),
    {
        NamedRoll { hdr_off: self.hdr_off }
    }
}

impl NamedRoll {
    /// Offset of the mark in its region.
    pub closed spec fn off(self) -> int {
        self.hdr_off as int
    }

    /// Offset of the mark's commit flag in its region.
    pub fn flag_off(&self) -> (off: usize)
        ensures
            off == self.off(),
    {
        self.hdr_off
    }
}

/// The region that a writer is about to move on to.
#[derive(Debug, Clone, Copy, PartialEq, Eq, Structural)]
pub struct RegionRoll {
    /// Index of the next region.
    pub region_index: u64,
    /// The length that the file must have to hold it.
    pub needed_end: u64,
}

/// Bytes that a record with `msg_size` payload bytes takes, up to the next header.
pub open spec fn record_span(msg_size: int) -> int {
    align8(HEADER_SLOT + msg_size)
}

/// The header of a message.
pub open spec fn user_header(
    committed: u8,
    message_type: u16,
    length: u32,
    user_meta_u64: u64,
) -> MessageHeader {
    MessageHeader { committed, header_type: 1, message_type, length, user_meta_u64 }
}

/// The header of padding with `length` bytes.
pub open spec fn skip_header(committed: u8, length: u32) -> MessageHeader {
    MessageHeader { committed, header_type: 2, message_type: 0, length, user_meta_u64: 0 }
}

/// The header that ends a segment.
pub open spec fn roll_header(committed: u8, now_ns: u64) -> MessageHeader {
    MessageHeader {
        committed,
        header_type: 3,
        message_type: 0,
        length: 0,
        user_meta_u64: now_ns,
    }
}

/// A region with a free header slot laid down at `off`.
pub open spec fn preinstalled_at(r: Seq<u8>, off: int) -> Seq<u8> {
    crate::bytes::put(r, off, preinstalled_header().bytes())
}

/// A region with the header of a message at `off`, not published, and a free slot
/// behind the message where the reservation had it further on.
pub open spec fn staged_at(
    r: Seq<u8>,
    off: int,
    reserved: usize,
    message_type: u16,
    length: u32,
    user_meta_u64: u64,
) -> Seq<u8> {
    let t = crate::bytes::put(
        r,
        off,
        user_header(0, message_type, length, user_meta_u64).bytes(),
    );
    if length < reserved {
        preinstalled_at(t, off + record_span(length as int))
    } else {
        t
    }
}

/// A region 0 with the given count and write position.
pub open spec fn settled(r: Seq<u8>, records: u64, position: u64) -> Seq<u8> {
    crate::bytes::put(
        crate::bytes::put(r, 24, crate::bytes::le64_bytes(records)),
        16,
        crate::bytes::le64_bytes(position),
    )
}

/// A region 0 with one message more counted and a new write position.
pub open spec fn counted(r: Seq<u8>, position: u64) -> Seq<u8> {
    let n = crate::channel::message_count_at(r);
    let next = if n == u64::MAX {
        0
    } else {
        (n + 1) as u64
    };
    settled(r, next, position)
}

/// What a settled region 0 says.
pub proof fn lemma_settled(r: Seq<u8>, records: u64, position: u64)
    requires
        FIRST_SLOT <= r.len(),
    ensures
        ({
            let t = settled(r, records, position);
            &&& t.len() == r.len()
            &&& forall|i: int| 0 <= i < 16 || 32 <= i < r.len() ==> t[i] == r[i]
            &&& write_position_at(t) == position
            &&& message_count_at(t) == records
            &&& base_record_index_at(t) == base_record_index_at(r)
            &&& generation_at(t) == generation_at(r)
        }),
{
    broadcast use crate::bytes::group_le_len;

    let t = settled(r, records, position);
    assert(t.subrange(16, 24) =~= crate::bytes::le64_bytes(position));
    crate::bytes::law_le64_round_trip(t, 16, position);
    assert(t.subrange(24, 32) =~= crate::bytes::le64_bytes(records));
    crate::bytes::law_le64_round_trip(t, 24, records);
    crate::bytes::lemma_le64_frame(r, t, 32);
    crate::bytes::lemma_le64_frame(r, t, 136);
}

/// What a counted region 0 says.
pub proof fn lemma_counted(r: Seq<u8>, position: u64)
    requires
        FIRST_SLOT <= r.len(),
    ensures
        counted(r, position).len() == r.len(),
        forall|i: int| 0 <= i < 16 || 32 <= i < r.len() ==> counted(r, position)[i] == r[i],
        write_position_at(counted(r, position)) == position,
        message_count_at(r) < u64::MAX ==> {
            &&& message_count_at(counted(r, position)) == message_count_at(r) + 1
            &&& next_index_at(counted(r, position)) == next_index_at(r) + 1
        },
        base_record_index_at(counted(r, position)) == base_record_index_at(r),
        generation_at(counted(r, position)) == generation_at(r),
{
    let n: u64 = if message_count_at(r) == u64::MAX {
        0
    } else {
        (message_count_at(r) + 1) as u64
    };
    lemma_settled(r, n, position);
}

impl View for Writer {
    type V = WriterState;

    closed spec fn view(&self) -> WriterState {
        self.state
    }
}

impl WriterState {
    /// Offset of the next header slot in its region.
    pub open spec fn off(self) -> int {
        self.next_hdr_pos as int % self.region_size as int
    }

    /// The writer stands at an aligned slot inside its region and its file, and the
    /// waiting reservation fits behind that slot.
    pub open spec fn wf(self) -> bool {
        &&& FIRST_SLOT <= self.region_size <= u32::MAX
        &&& self.region_size % 8 == 0
        &&& self.file_roll_size == 0 || self.file_roll_size >= 2 * self.region_size
        &&& self.current_region_index == self.next_hdr_pos as int / self.region_size as int
        &&& self.next_hdr_pos % 8 == 0
        &&& self.off() + HEADER_SLOT <= self.region_size
        &&& (self.current_region_index + 1) * self.region_size <= self.file_len
        &&& self.file_len <= MAX_FILE_OFFSET
        &&& self.pending_msg_size matches Some(m) ==> self.off() + record_span(m as int)
            + HEADER_SLOT <= self.region_size
    }

    /// A well-formed writer's position is its region's start plus an aligned offset.
    pub proof fn lemma_at(self)
        requires
            self.wf(),
        ensures
            self.next_hdr_pos == self.current_region_index * self.region_size + self.off(),
            0 <= self.off(),
            self.off() % 8 == 0,
            (self.current_region_index + 1) * self.region_size == self.current_region_index
                * self.region_size + self.region_size,
            (self.current_region_index + 2) * self.region_size == self.current_region_index
                * self.region_size + 2 * self.region_size,
            (self.current_region_index * self.region_size) % 8 == 0,
            0 <= self.current_region_index * self.region_size,
            self.current_region_index < MAX_FILE_OFFSET,
    {
        let i = self.current_region_index as int;
        let size = self.region_size as int;
        crate::layout::lemma_split(self.next_hdr_pos as int, size);
        crate::layout::lemma_next_region(i, size);
        crate::layout::lemma_region_start_aligned(i, size);
        assert(i <= i * size) by (nonlinear_arith)
            requires
                size >= 1,
                i >= 0,
        ;
    }

    /// What becomes of a reservation of `msg_size` bytes.
    pub open spec fn reservation(self, msg_size: usize) -> Result<Reserve, Error> {
        let needed = record_span(msg_size as int) + HEADER_SLOT;
        if self.mtu > 0 && msg_size > self.mtu {
            Err(Error::MtuExceeded)
        } else if needed > self.region_size {
            Err(
                Error::ReservationExceedsRegion {
                    msg_size,
                    region_size: self.region_size,
                    needed: if needed > usize::MAX {
                        usize::MAX
                    } else {
                        needed as usize
                    },
                },
            )
        } else if self.file_roll_size > 0 && needed > self.file_roll_size {
            Err(
                Error::ReservationExceedsFile {
                    msg_size,
                    file_roll_size: self.file_roll_size,
                    needed: needed as usize,
                },
            )
        } else if self.file_roll_size > 0 && self.next_hdr_pos + needed > self.file_roll_size {
            Ok(Reserve::RollFile)
        } else if self.off() + needed > self.region_size {
            Ok(Reserve::RollRegion)
        } else {
            Ok(Reserve::Ready { payload_off: (self.off() + HEADER_SLOT) as usize })
        }
    }

    /// Why a commit of `length` bytes is refused, if it is.
    pub open spec fn commit_fault(self, length: u32) -> Option<Error> {
        match self.pending_msg_size {
            None => Some(Error::CommitWithoutReserve),
            Some(reserved) => if length > reserved {
                Some(Error::CommitExceedsReservation { length, reserved })
            } else {
                None
            },
        }
    }

    /// The position behind a record with `length` payload bytes.
    pub open spec fn next_pos(self, length: u32) -> int {
        self.next_hdr_pos + record_span(length as int)
    }

    /// The writer behind a record with `length` payload bytes.
    pub open spec fn moved(self, length: u32) -> WriterState {
        WriterState { next_hdr_pos: self.next_pos(length) as u64, pending_msg_size: None, ..self }
    }

    /// The region to move on to when the current one is full.
    pub open spec fn spec_next_region(self) -> RegionRoll {
        RegionRoll {
            region_index: (self.current_region_index + 1) as u64,
            needed_end: ((self.current_region_index + 2) * self.region_size) as u64,
        }
    }

    /// Payload bytes of the padding that fills the current region.
    pub open spec fn skip_len(self) -> int {
        self.region_size - self.off() - HEADER_SLOT
    }

    /// The writer at the start of the next region.
    pub open spec fn in_next_region(self) -> WriterState {
        WriterState {
            current_region_index: (self.current_region_index + 1) as u64,
            next_hdr_pos: ((self.current_region_index + 1) * self.region_size) as u64,
            pending_msg_size: None,
            ..self
        }
    }

    /// What the next segment is to say of itself, given region 0 of the current one.
    pub open spec fn spec_next_segment(self, region0: Seq<u8>) -> SegmentSpec {
        SegmentSpec {
            sequence: (self.file_sequence + 1) as u64,
            region_size: self.region_size,
            mtu: self.mtu,
            channel_name: self.channel_name,
            base_record_index: crate::channel::next_index_at(region0) as u64,
            generation: crate::channel::generation_at(region0),
        }
    }

    /// The writer at the start of the next segment, whose file has `file_len` bytes.
    pub open spec fn in_next_segment(self, file_len: u64) -> WriterState {
        WriterState {
            file_sequence: (self.file_sequence + 1) as u64,
            file_len,
            current_region_index: 0,
            next_hdr_pos: FIRST_SLOT as u64,
            pending_msg_size: None,
            ..self
        }
    }

    /// The segment that leaves the retention window when `sequence` enters it.
    pub open spec fn pruned_by(self, sequence: int) -> Option<u64> {
        match self.keep_files {
            Some(n) => if sequence >= n {
                Some((sequence - n) as u64)
            } else {
                None
            },
            None => None,
        }
    }
}

impl Writer {
    #[verifier::type_invariant]
    closed spec fn sound(self) -> bool {
        self.state.wf()
    }

    /// Reserves room for a payload of up to `msg_size` bytes behind the next header
    /// slot of the current region, and lays down the slot behind it.
    ///
    /// Where the record, the padding and the slot behind it do not fit in what is
    /// left of the region or of the segment, nothing changes and the result says
    /// what to move on to. A size that fits in no region is refused; an error that names
    /// the bytes needed names the largest number where they are more.
    pub fn try_reserve(&mut self, region: &mut [u8], msg_size: usize) -> (r: Result<Reserve, Error>)
        requires
            old(region)@.len() == old(self)@.region_size,
        ensures
            r == old(self)@.reservation(msg_size),
            match r {
                Ok(Reserve::Ready { .. }) => {
                    &&& final(self)@ == (WriterState {
                        pending_msg_size: Some(msg_size),
                        ..old(self)@
                    })
                    &&& final(region)@ == preinstalled_at(
                        old(region)@,
                        old(self)@.off() + record_span(msg_size as int),
                    )
                },
                _ => final(self)@ == old(self)@ && final(region)@ == old(region)@,
            },
            final(self)@.wf(),
    {
        proof {
            use_type_invariant(&*self);
            self@.lemma_at();
        }
        if self.state.mtu > 0 && msg_size as u64 > self.state.mtu {
            return Err(Error::MtuExceeded);
        }
        if msg_size > usize::MAX - 39 {
            return Err(
                Error::ReservationExceedsRegion {
                    msg_size,
                    region_size: self.state.region_size,
                    needed: usize::MAX,
                },
            );
        }
        let record_with_padding = align_up(HEADER_SLOT + msg_size);
        let needed_total = record_with_padding + HEADER_SLOT;
        if needed_total > self.state.region_size {
            return Err(
                Error::ReservationExceedsRegion {
                    msg_size,
                    region_size: self.state.region_size,
                    needed: needed_total,
                },
            );
        }
        if self.state.file_roll_size > 0 && needed_total as u64 > self.state.file_roll_size {
            return Err(
                Error::ReservationExceedsFile {
                    msg_size,
                    file_roll_size: self.state.file_roll_size,
                    needed: needed_total,
                },
            );
        }
        let off = (self.state.next_hdr_pos % self.state.region_size as u64) as usize;
        if self.state.file_roll_size > 0 && self.state.next_hdr_pos + needed_total as u64
            > self.state.file_roll_size {
            return Ok(Reserve::RollFile);
        }
        if needed_total > self.state.region_size - off {
            return Ok(Reserve::RollRegion);
        }
        MessageHeader::preinstalled().write(region, off + record_with_padding);
        self.state.pending_msg_size = Some(msg_size);
        Ok(Reserve::Ready { payload_off: off + HEADER_SLOT })
    }

    /// Writes the header of the reserved record without publishing it, and makes
    /// sure that a free slot stands behind the record. The reservation is spent,
    /// whether the commit is accepted or not.
    pub fn stage_commit(
        &mut self,
        region: &mut [u8],
        msg_type: u16,
        length: u32,
        user_meta_u64: u64,
    ) -> (r: Result<StagedCommit, Error>)
        requires
            old(region)@.len() == old(self)@.region_size,
        ensures
            final(self)@ == (WriterState { pending_msg_size: None, ..old(self)@ }),
            final(self)@.wf(),
            match old(self)@.commit_fault(length) {
                Some(e) => {
                    &&& r matches Err(f) && f == e
                    &&& final(region)@ == old(region)@
                },
                None => {
                    &&& r matches Ok(staged) && staged.off() == old(self)@.off() && staged.next()
                        == old(self)@.next_pos(length)
                    &&& final(region)@ == staged_at(
                        old(region)@,
                        old(self)@.off(),
                        old(self)@.pending_msg_size->Some_0,
                        msg_type,
                        length,
                        user_meta_u64,
                    )
                },
            },
    {
        proof {
            use_type_invariant(&*self);
            self@.lemma_at();
        }
        let reserved = match self.state.pending_msg_size {
            None => {
                return Err(Error::CommitWithoutReserve);
            },
            Some(reserved) => reserved,
        };
        self.state.pending_msg_size = None;
        if length as usize > reserved {
            return Err(Error::CommitExceedsReservation { length, reserved });
        }
        let hdr_off = (self.state.next_hdr_pos % self.state.region_size as u64) as usize;
        let hdr = MessageHeader {
            committed: 0,
            header_type: HeaderType::User.code(),
            message_type: msg_type,
            length,
            user_meta_u64,
        };
        hdr.write(region, hdr_off);
        proof {
            let start = self.state.current_region_index * self.state.region_size;
            crate::layout::law_align_up(
                HEADER_SLOT + length,
                self.state.next_hdr_pos as int,
            );
            crate::layout::law_align_up(HEADER_SLOT + reserved, 0);
        }
        let next_pos = align_up_pos(self.state.next_hdr_pos + HEADER_SLOT as u64 + length as u64);
        if (length as usize) < reserved {
            let next_off = hdr_off + (next_pos - self.state.next_hdr_pos) as usize;
            MessageHeader::preinstalled().write(region, next_off);
        }
        Ok(StagedCommit { hdr_off, next_pos })
    }

    /// Moves on behind a staged record, whose commit flag has been set. Returns the write
    /// position to store.
    pub fn settle_commit(&mut self, staged: StagedCommit) -> (wp: u64)
        requires
            staged.next() % 8 == 0,
            old(self)@.next_hdr_pos <= staged.next(),
            staged.next() + HEADER_SLOT <= (old(self)@.current_region_index + 1)
                * old(self)@.region_size,
        ensures
            final(self)@ == (WriterState {
                next_hdr_pos: staged.next() as u64,
                pending_msg_size: None,
                ..old(self)@
            }),
            final(self)@.wf(),
            wp == staged.next() + HEADER_SLOT,
    {
        proof {
            use_type_invariant(&*self);
            self@.lemma_at();
            let at = staged.next_pos - self.state.current_region_index * self.state.region_size;
            crate::layout::lemma_position(
                self.state.current_region_index as int,
                at,
                self.state.region_size as int,
            );
        }
        let mut state = self.state;
        state.next_hdr_pos = staged.next_pos;
        state.pending_msg_size = None;
        self.state = state;
        staged.next_pos + HEADER_SLOT as u64
    }

    /// Publishes a staged record and moves on behind it. Returns the write position
    /// to store.
    pub fn publish_commit(&mut self, region: &mut [u8], staged: StagedCommit) -> (wp: u64)
        requires
            old(region)@.len() == old(self)@.region_size,
            staged.off() == old(self)@.off(),
            staged.next() % 8 == 0,
            old(self)@.next_hdr_pos <= staged.next(),
            staged.next() + HEADER_SLOT <= (old(self)@.current_region_index + 1)
                * old(self)@.region_size,
        ensures
            final(self)@ == (WriterState {
                next_hdr_pos: staged.next() as u64,
                pending_msg_size: None,
                ..old(self)@
            }),
            final(self)@.wf(),
            final(region)@ == old(region)@.update(staged.off(), COMMITTED),
            wp == staged.next() + HEADER_SLOT,
    {
        proof {
            use_type_invariant(&*self);
            self@.lemma_at();
        }
        MessageHeader::commit(region, staged.flag_off());
        self.settle_commit(staged)
    }

    /// Commits the reserved record: writes its header, makes sure that a free slot
    /// stands behind it, and publishes it. Returns the write position to store with
    /// [`publish_wp`].
    #[verifier::spinoff_prover]
    pub fn commit(
        &mut self,
        region: &mut [u8],
        msg_type: u16,
        length: u32,
        user_meta_u64: u64,
    ) -> (r: Result<u64, Error>)
        requires
            old(region)@.len() == old(self)@.region_size,
        ensures
            final(self)@.wf(),
            match old(self)@.commit_fault(length) {
                Some(e) => {
                    &&& r == Err::<u64, Error>(e)
                    &&& final(region)@ == old(region)@
                    &&& final(self)@ == (WriterState { pending_msg_size: None, ..old(self)@ })
                },
                None => {
                    &&& r == Ok::<u64, Error>((old(self)@.next_pos(length) + HEADER_SLOT) as u64)
                    &&& final(region)@ == staged_at(
                        old(region)@,
                        old(self)@.off(),
                        old(self)@.pending_msg_size->Some_0,
                        msg_type,
                        length,
                        user_meta_u64,
                    ).update(old(self)@.off(), COMMITTED)
                    &&& final(self)@ == old(self)@.moved(length)
                },
            },
    {
        proof {
            use_type_invariant(&*self);
            self@.lemma_at();
            crate::layout::law_align_up(HEADER_SLOT + length, 0);
            if self@.commit_fault(length) is None {
                let reserved = self.state.pending_msg_size->Some_0;
                crate::layout::law_align_up(HEADER_SLOT + reserved, 0);
                assert(self@.off() + record_span(length as int) + HEADER_SLOT
                    <= self.state.region_size);
            }
        }
        let ghost before = self@;
        match self.stage_commit(region, msg_type, length, user_meta_u64) {
            Err(e) => Err(e),
            Ok(staged) => {
                assert(staged.next() == before.next_pos(length));
                assert(self@.off() == before.off());
                Ok(self.publish_commit(region, staged))
            },
        }
    }

    /// Absolute index of the next message that this writer will commit. `region0` is
    /// region 0 of the current segment.
    pub fn next_record_index(&self, region0: &[u8]) -> (i: u64)
        requires
            FIRST_SLOT <= region0@.len(),
            crate::channel::next_index_at(region0@) <= u64::MAX,
        ensures
            i == crate::channel::next_index_at(region0@),
    {
        next_index(region0)
    }

    /// Incarnation id of the channel. `region0` is region 0 of the current segment.
    pub fn generation(&self, region0: &[u8]) -> (g: u64)
        requires
            FIRST_SLOT <= region0@.len(),
        ensures
            g == crate::channel::generation_at(region0@),
    {
        generation_of(region0)
    }

    /// Gives up the waiting reservation and says which region to move on to and how
    /// long the file must be to hold it.
    pub fn plan_region_roll(&mut self) -> (roll: RegionRoll)
        ensures
            final(self)@ == (WriterState { pending_msg_size: None, ..old(self)@ }),
            final(self)@.wf(),
            roll == old(self)@.spec_next_region(),
            roll.needed_end == (old(self)@.current_region_index + 2) * old(self)@.region_size,
            roll.region_index == old(self)@.current_region_index + 1,
    {
        proof {
            use_type_invariant(&*self);
            self@.lemma_at();
        }
        self.state.pending_msg_size = None;
        let size = self.state.region_size as u64;
        RegionRoll {
            region_index: self.state.current_region_index + 1,
            needed_end: self.state.current_region_index * size + 2 * size,
        }
    }

    /// The length to grow the file to, if it is shorter than `want`.
    pub fn growth(&self, want: u64) -> (r: Option<u64>)
        ensures
            r == if want > self@.file_len {
                Some(want)
            } else {
                None::<u64>
            },
    {
        if want > self.state.file_len {
            Some(want)
        } else {
            None
        }
    }

    /// Takes note that the file has been grown to hold `want` bytes. A file is never
    /// taken to be shorter than it was.
    pub fn ensure_len(&mut self, want: u64)
        requires
            want <= MAX_FILE_OFFSET,
        ensures
            final(self)@ == (WriterState {
                file_len: if want > old(self)@.file_len {
                    want
                } else {
                    old(self)@.file_len
                },
                ..old(self)@
            }),
            final(self)@.wf(),
    {
        proof {
            use_type_invariant(&*self);
        }
        if want > self.state.file_len {
            self.state.file_len = want;
        }
    }

    /// Lays down a free slot at the start of the next region, and padding over the
    /// rest of the current one without publishing it.
    pub fn stage_region_roll(&self, region: &mut [u8], next_region: &mut [u8])
        requires
            old(region)@.len() == self@.region_size,
            old(next_region)@.len() == self@.region_size,
        ensures
            final(next_region)@ == preinstalled_at(old(next_region)@, 0),
            final(region)@ == crate::bytes::put(
                old(region)@,
                self@.off(),
                skip_header(0, self@.skip_len() as u32).bytes(),
            ),
    {
        proof {
            use_type_invariant(self);
            self@.lemma_at();
        }
        let off = (self.state.next_hdr_pos % self.state.region_size as u64) as usize;
        MessageHeader::preinstalled().write(next_region, 0);
        let hdr = MessageHeader {
            committed: 0,
            header_type: HeaderType::Skip.code(),
            message_type: 0,
            length: (self.state.region_size - off - HEADER_SLOT) as u32,
            user_meta_u64: 0,
        };
        hdr.write(region, off);
    }

    /// Offset of the next header slot in the current region.
    pub fn slot_off(&self) -> (off: usize)
        ensures
            off == self@.off(),
    {
        proof {
            use_type_invariant(self);
            self@.lemma_at();
        }
        (self.state.next_hdr_pos % self.state.region_size as u64) as usize
    }

    /// Moves on to the next region; the commit flag of the padding has been set. Returns
    /// the write position to store; padding is not counted as a message.
    pub fn settle_region_roll(&mut self) -> (wp: u64)
        requires
            (old(self)@.current_region_index + 2) * old(self)@.region_size <= old(self)@.file_len,
        ensures
            final(self)@ == old(self)@.in_next_region(),
            final(self)@.wf(),
            final(self)@.off() == 0,
            wp == (old(self)@.current_region_index + 1) * old(self)@.region_size + HEADER_SLOT,
    {
        proof {
            use_type_invariant(&*self);
            self@.lemma_at();
            crate::layout::lemma_position(
                self.state.current_region_index + 1,
                0,
                self.state.region_size as int,
            );
            crate::layout::lemma_region_start_aligned(
                self.state.current_region_index + 1,
                self.state.region_size as int,
            );
        }
        let mut state = self.state;
        let size = state.region_size as u64;
        state.next_hdr_pos = state.current_region_index * size + size;
        state.current_region_index = state.current_region_index + 1;
        state.pending_msg_size = None;
        self.state = state;
        state.next_hdr_pos + HEADER_SLOT as u64
    }

    /// Publishes the padding and moves on to the next region. Returns the write
    /// position to store; padding is not counted as a message.
    pub fn publish_region_roll(&mut self, region: &mut [u8]) -> (wp: u64)
        requires
            old(region)@.len() == old(self)@.region_size,
            (old(self)@.current_region_index + 2) * old(self)@.region_size <= old(self)@.file_len,
        ensures
            final(self)@ == old(self)@.in_next_region(),
            final(self)@.wf(),
            final(self)@.off() == 0,
            final(region)@ == old(region)@.update(old(self)@.off(), COMMITTED),
            wp == (old(self)@.current_region_index + 1) * old(self)@.region_size + HEADER_SLOT,
    {
        proof {
            use_type_invariant(&*self);
            self@.lemma_at();
        }
        MessageHeader::commit(region, self.slot_off());
        self.settle_region_roll()
    }

    /// Moves on to the next region: lays down a free slot there, pads the current
    /// region and publishes the padding. Returns the write position to store.
    pub fn roll_over_region(&mut self, region: &mut [u8], next_region: &mut [u8]) -> (wp: u64)
        requires
            old(region)@.len() == old(self)@.region_size,
            old(next_region)@.len() == old(self)@.region_size,
            (old(self)@.current_region_index + 2) * old(self)@.region_size <= old(self)@.file_len,
        ensures
            final(self)@ == old(self)@.in_next_region(),
            final(self)@.wf(),
            final(self)@.off() == 0,
            final(next_region)@ == preinstalled_at(old(next_region)@, 0),
            final(region)@ == crate::bytes::put(
                old(region)@,
                old(self)@.off(),
                skip_header(0, old(self)@.skip_len() as u32).bytes(),
            ).update(old(self)@.off(), COMMITTED),
            wp == (old(self)@.current_region_index + 1) * old(self)@.region_size + HEADER_SLOT,
    {
        self.stage_region_roll(region, next_region);
        self.publish_region_roll(region)
    }

    /// What the next segment is to say of itself: it goes on with the record numbering
    /// and keeps the incarnation id. The writer stays as it is, with the reservation that
    /// it holds, until the roll is published.
    pub fn plan_roll(&self, region0: &[u8]) -> (spec: SegmentSpec)
        requires
            FIRST_SLOT <= region0@.len(),
            self@.file_sequence < u64::MAX,
            crate::channel::next_index_at(region0@) <= u64::MAX,
        ensures
            spec == self@.spec_next_segment(region0@),
    {
        SegmentSpec {
            sequence: self.state.file_sequence + 1,
            region_size: self.state.region_size,
            mtu: self.state.mtu,
            channel_name: self.state.channel_name,
            base_record_index: next_index(region0),
            generation: generation_of(region0),
        }
    }

    /// Writes the mark that ends the current segment without publishing it.
    pub fn stage_roll(&self, region: &mut [u8], now_ns: u64) -> (staged: StagedRoll)
        requires
            old(region)@.len() == self@.region_size,
        ensures
            staged.off() == self@.off(),
            final(region)@ == crate::bytes::put(
                old(region)@,
                self@.off(),
                roll_header(0, now_ns).bytes(),
            ),
    {
        proof {
            use_type_invariant(self);
            self@.lemma_at();
        }
        let off = (self.state.next_hdr_pos % self.state.region_size as u64) as usize;
        let hdr = MessageHeader {
            committed: 0,
            header_type: HeaderType::Roll.code(),
            message_type: 0,
            length: 0,
            user_meta_u64: now_ns,
        };
        hdr.write(region, off);
        StagedRoll { hdr_off: off }
    }

    /// Moves on to the next segment, which is in place under its final name; the commit
    /// flag of the mark that ends the current one has been set. Returns the sequence number
    /// of the segment to remove, if the retention window has moved past one.
    pub fn settle_roll(&mut self, named: NamedRoll, file_len: u64) -> (prune: Option<u64>)
        requires
            old(self)@.file_sequence < u64::MAX,
            FIRST_SLOT + HEADER_SLOT <= old(self)@.region_size <= file_len <= MAX_FILE_OFFSET,
        ensures
            final(self)@ == old(self)@.in_next_segment(file_len),
            final(self)@.wf(),
            final(self)@.off() == FIRST_SLOT,
            prune == old(self)@.pruned_by(old(self)@.file_sequence + 1),
    {
        proof {
            use_type_invariant(&*self);
            crate::layout::lemma_position(0, FIRST_SLOT as int, self.state.region_size as int);
            crate::layout::lemma_next_region(0, self.state.region_size as int);
        }
        let mut state = self.state;
        state.file_sequence = state.file_sequence + 1;
        state.file_len = file_len;
        state.current_region_index = 0;
        state.next_hdr_pos = FIRST_SLOT as u64;
        state.pending_msg_size = None;
        self.state = state;
        match state.keep_files {
            Some(n) => if state.file_sequence >= n {
                Some(state.file_sequence - n)
            } else {
                None
            },
            None => None,
        }
    }

    /// Publishes the mark that ends the current segment and moves on to the next one,
    /// which is in place under its final name. Returns the sequence number of the
    /// segment to remove, if the retention window has moved past one.
    ///
    /// A reader that sees the mark opens the next segment at once. That is why this
    /// takes a [`NamedRoll`], and why nothing in it can fail.
    pub fn publish_roll(&mut self, region: &mut [u8], named: NamedRoll, file_len: u64) -> (prune:
        Option<u64>)
        requires
            old(region)@.len() == old(self)@.region_size,
            named.off() == old(self)@.off(),
            old(self)@.file_sequence < u64::MAX,
            FIRST_SLOT + HEADER_SLOT <= old(self)@.region_size <= file_len <= MAX_FILE_OFFSET,
        ensures
            final(self)@ == old(self)@.in_next_segment(file_len),
            final(self)@.wf(),
            final(self)@.off() == FIRST_SLOT,
            final(region)@ == old(region)@.update(old(self)@.off(), COMMITTED),
            prune == old(self)@.pruned_by(old(self)@.file_sequence + 1),
    {
        proof {
            use_type_invariant(&*self);
            self@.lemma_at();
        }
        MessageHeader::commit(region, named.flag_off());
        self.settle_roll(named, file_len)
    }

    /// Ends the current segment with a published mark and moves on to the next one,
    /// which is in place under its final name. Returns the sequence number of the
    /// segment to remove, if any.
    pub fn roll_file(&mut self, region: &mut [u8], now_ns: u64, file_len: u64) -> (prune: Option<
        u64,
    >)
        requires
            old(region)@.len() == old(self)@.region_size,
            old(self)@.file_sequence < u64::MAX,
            FIRST_SLOT + HEADER_SLOT <= old(self)@.region_size <= file_len <= MAX_FILE_OFFSET,
        ensures
            final(self)@ == old(self)@.in_next_segment(file_len),
            final(self)@.wf(),
            final(self)@.off() == FIRST_SLOT,
            final(region)@ == crate::bytes::put(
                old(region)@,
                old(self)@.off(),
                roll_header(0, now_ns).bytes(),
            ).update(old(self)@.off(), COMMITTED),
            prune == old(self)@.pruned_by(old(self)@.file_sequence + 1),
    {
        let staged = self.stage_roll(region, now_ns);
        self.publish_roll(region, staged.renamed(), file_len)
    }

    /// The writer of a fresh segment at `sequence`, whose file has `file_len` bytes.
    pub fn fresh<P>(plan: &WriterPlan<P>, sequence: u64, file_len: u64) -> (w: Writer)
        requires
            plan.settings.fault() is None,
            FIRST_SLOT + HEADER_SLOT <= plan.settings.region_size <= u32::MAX,
            plan.settings.region_size % 8 == 0,
            plan.settings.region_size <= file_len <= MAX_FILE_OFFSET,
        ensures
            w@.wf(),
            w@.off() == FIRST_SLOT,
            w@ == writer_at(*plan, sequence, file_len, FIRST_SLOT as u64),
    {
        proof {
            crate::layout::lemma_position(0, FIRST_SLOT as int, plan.settings.region_size as int);
            crate::layout::lemma_next_region(0, plan.settings.region_size as int);
        }
        Self::adopted(plan, sequence, file_len, FIRST_SLOT as u64)
    }

    /// The writer of a segment at `sequence` whose next header slot is at `next_hdr`.
    pub fn adopted<P>(
        plan: &WriterPlan<P>,
        sequence: u64,
        file_len: u64,
        next_hdr: u64,
    ) -> (w: Writer)
        requires
            plan.settings.fault() is None,
            FIRST_SLOT <= plan.settings.region_size <= u32::MAX,
            plan.settings.region_size % 8 == 0,
            next_hdr % 8 == 0,
            next_hdr as int % plan.settings.region_size as int + HEADER_SLOT
                <= plan.settings.region_size,
            (next_hdr as int / plan.settings.region_size as int + 1) * plan.settings.region_size
                <= file_len,
            file_len <= MAX_FILE_OFFSET,
        ensures
            w@.wf(),
            w@ == writer_at(*plan, sequence, file_len, next_hdr),
    {
        let state = WriterState {
            file_sequence: sequence,
            file_len,
            current_region_index: next_hdr / plan.settings.region_size as u64,
            region_size: plan.settings.region_size,
            file_roll_size: plan.settings.file_roll_size,
            mtu: plan.settings.mtu,
            keep_files: plan.settings.keep_files,
            channel_name: plan.settings.channel_name,
            next_hdr_pos: next_hdr,
            pending_msg_size: None,
        };
        Writer { state }
    }

    /// Where the writer stands, and what it goes by.
    pub fn state(&self) -> (s: WriterState)
        ensures
            s == self@,
            s.wf(),
    {
        proof {
            use_type_invariant(self);
        }
        self.state
    }
}

/// The writer with the given settings at the given place.
pub open spec fn writer_at<P>(
    plan: WriterPlan<P>,
    sequence: u64,
    file_len: u64,
    next_hdr: u64,
) -> WriterState {
    WriterState {
        file_sequence: sequence,
        file_len,
        current_region_index: (next_hdr as int / plan.settings.region_size as int) as u64,
        region_size: plan.settings.region_size,
        file_roll_size: plan.settings.file_roll_size,
        mtu: plan.settings.mtu,
        keep_files: plan.settings.keep_files,
        channel_name: plan.settings.channel_name,
        next_hdr_pos: next_hdr,
        pending_msg_size: None,
    }
}

/// Moves the stored write position of a segment on by `delta`.
pub fn fetch_add_wp(region0: &mut [u8], delta: u64) -> (before: u64)
    requires
        FIRST_SLOT <= old(region0)@.len(),
    ensures
        before == crate::channel::write_position_at(old(region0)@),
        final(region0)@ == crate::bytes::put(
            old(region0)@,
            16,
            crate::bytes::le64_bytes(
                if before + delta > u64::MAX {
                    (before + delta - 0x1_0000_0000_0000_0000) as u64
                } else {
                    (before + delta) as u64
                },
            ),
        ),
        next_index_at(final(region0)@) == next_index_at(old(region0)@),
        generation_at(final(region0)@) == generation_at(old(region0)@),
{
    proof {
        crate::segment::lemma_stored_wp(
            region0@,
            write_position_at(region0@).wrapping_add(delta),
        );
    }
    let before = get_u64(region0, 16);
    put_u64(region0, 16, before.wrapping_add(delta));
    before
}

/// Counts one message more in the channel header of a segment, and stores its write
/// position.
pub fn publish_wp(region0: &mut [u8], position: u64)
    requires
        FIRST_SLOT <= old(region0)@.len(),
    ensures
        final(region0)@ == counted(old(region0)@, position),
        write_position_at(final(region0)@) == position,
        message_count_at(old(region0)@) < u64::MAX ==> next_index_at(final(region0)@)
            == next_index_at(old(region0)@) + 1,
        generation_at(final(region0)@) == generation_at(old(region0)@),
{
    proof {
        lemma_counted(region0@, position);
    }
    let n = get_u64(region0, 24);
    put_u64(region0, 24, n.wrapping_add(1));
    put_u64(region0, 16, position);
}

} // verus!
