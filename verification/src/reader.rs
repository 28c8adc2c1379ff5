//! The reading end: opening a segment, walking from message to message, following
//! regions and segments.
use vstd::prelude::*;
use vstd::slice::slice_subrange;

use crate::builder::ReaderMode;
use crate::channel::{
    header_at, next_index, segment_fault, validate_channel_header, ChannelHeader, HeaderType,
    MessageHeader, CHANNEL_NAME_MAX, FIRST_SLOT, HEADER_SLOT,
};
use crate::error::Error;
use crate::layout::{align_up, MAX_FILE_OFFSET};
use crate::log::{after, record_at, seek, Hit};
use crate::message::{MessageRef, OwnedMessage, PeekedHeader};
use crate::text::lossy_text;

verus! {

broadcast use vstd::slice::group_slice_axioms;

/// A region that a reader has mapped. `M` is the caller's handle of mapped memory.
#[derive(Debug)]
pub struct MappedRegion<M> {
    pub file_sequence: u64,
    pub region_idx: u64,
    pub mapping: M,
}

/// What a reader learns from the head of the segment that it opens.
#[derive(Debug, Clone, Copy)]
pub struct Opening {
    /// Where to start reading.
    pub read_pos: u64,
    pub region_size: usize,
    pub channel_name: [u8; CHANNEL_NAME_MAX],
    pub base_record_index: u64,
    pub mtu: u32,
    pub generation: u64,
}

/// Where a reader of the given mode starts in the segment that starts with `r`.
pub open spec fn start_position(r: Seq<u8>, mode: ReaderMode) -> u64 {
    let wp = crate::channel::write_position_at(r);
    match mode {
        ReaderMode::LateJoin => 0,
        ReaderMode::Live => if wp < HEADER_SLOT {
            0
        } else {
            (wp - HEADER_SLOT) as u64
        },
    }
}

/// Why a segment cannot be opened for reading, if it cannot.
pub open spec fn opening_fault(r: Seq<u8>, mode: ReaderMode, sequence: u64) -> Option<Error> {
    match HeaderType::spec_from_raw(header_at(r, 0).header_type) {
        Err(e) => Some(e),
        Ok(HeaderType::Channel) => match segment_fault(
            r,
            crate::bytes::le32(r, 48) as usize,
            sequence,
        ) {
            Some(e) => Some(e),
            None => if start_position(r, mode) % 8 != 0 {
                Some(
                    Error::InvalidWritePosition {
                        position: crate::channel::write_position_at(r),
                    },
                )
            } else {
                None
            },
        },
        Ok(kind) => Some(Error::FirstRecordNotChannel { kind }),
    }
}

/// Checks the head of the segment at `expected_sequence` and says what a reader needs
/// of it. `page` is the beginning of the segment.
pub fn read_channel_header(page: &[u8], mode: ReaderMode, expected_sequence: u64) -> (r: Result<
    Opening,
    Error,
>)
    requires
        FIRST_SLOT <= page@.len(),
    ensures
        match opening_fault(page@, mode, expected_sequence) {
            Some(e) => r == Err::<Opening, Error>(e),
            None => r matches Ok(o) && {
                &&& o.read_pos == start_position(page@, mode)
                &&& o.region_size == crate::bytes::le32(page@, 48)
                &&& o.channel_name@ == page@.subrange(65, 113)
                &&& o.base_record_index == crate::channel::base_record_index_at(page@)
                &&& o.mtu == crate::bytes::le32(page@, 52)
                &&& o.generation == crate::channel::generation_at(page@)
            },
        },
{
    let mh = MessageHeader::read(page, 0);
    let header_type = match mh.parsed_header_type() {
        Err(e) => {
            return Err(e);
        },
        Ok(kind) => kind,
    };
    if header_type != HeaderType::Channel {
        return Err(Error::FirstRecordNotChannel { kind: header_type });
    }
    let ch = ChannelHeader::read(page);
    let region_size = ch.region_size as usize;
    match validate_channel_header(&ch, region_size, expected_sequence) {
        Err(e) => {
            return Err(e);
        },
        Ok(_) => {},
    }
    let read_pos: u64 = match mode {
        ReaderMode::LateJoin => 0,
        ReaderMode::Live => ch.write_position.saturating_sub(HEADER_SLOT as u64),
    };
    if read_pos % 8 != 0 {
        return Err(Error::InvalidWritePosition { position: ch.write_position });
    }
    Ok(
        Opening {
            read_pos,
            region_size,
            channel_name: ch.channel_name,
            base_record_index: ch.base_record_index,
            mtu: ch.mtu,
            generation: ch.generation,
        },
    )
}

/// Why the segment that starts with `region0` does not go on at `sequence` where the one
/// that starts with `current` ends, if it does not. Both are to be of the incarnation
/// `generation` and to have regions of `region_size` bytes.
pub open spec fn continuation_fault(
    sequence: u64,
    region_size: usize,
    generation: u64,
    current: Seq<u8>,
    region0: Seq<u8>,
) -> Option<Error> {
    let base = crate::channel::base_record_index_at(region0);
    let expected = crate::channel::next_index_at(current) as u64;
    let found = crate::channel::generation_at(region0);
    match HeaderType::spec_from_raw(header_at(region0, 0).header_type) {
        Err(e) => Some(e),
        Ok(HeaderType::Channel) => match segment_fault(region0, region_size, sequence) {
            Some(e) => Some(e),
            None => if base != expected {
                Some(Error::BaseDiscontinuity { sequence, found: base, expected })
            } else if found != generation {
                Some(Error::GenerationMismatch { sequence, found, expected: generation })
            } else {
                None
            },
        },
        Ok(kind) => Some(Error::NextSegmentNotChannel),
    }
}

/// Checks that the segment that starts with `region0` goes on at `sequence` where the one
/// that starts with `current` ends, and returns its channel header.
pub fn check_continuation(
    sequence: u64,
    region_size: usize,
    generation: u64,
    current: &[u8],
    region0: &[u8],
) -> (r: Result<ChannelHeader, Error>)
    requires
        FIRST_SLOT <= current@.len(),
        FIRST_SLOT <= region0@.len(),
        crate::channel::next_index_at(current@) <= u64::MAX,
    ensures
        match continuation_fault(sequence, region_size, generation, current@, region0@) {
            Some(e) => r matches Err(f) && f == e,
            None => r matches Ok(ch) && ch.stored_in(region0@),
        },
{
    let mh = MessageHeader::read(region0, 0);
    match mh.parsed_header_type() {
        Err(e) => {
            return Err(e);
        },
        Ok(kind) => {
            if kind != HeaderType::Channel {
                return Err(Error::NextSegmentNotChannel);
            }
        },
    }
    let ch = ChannelHeader::read(region0);
    match validate_channel_header(&ch, region_size, sequence) {
        Err(e) => {
            return Err(e);
        },
        Ok(_) => {},
    }
    let expected = next_index(current);
    if ch.base_record_index != expected {
        return Err(
            Error::BaseDiscontinuity { sequence, found: ch.base_record_index, expected },
        );
    }
    if ch.generation != generation {
        return Err(
            Error::GenerationMismatch { sequence, found: ch.generation, expected: generation },
        );
    }
    Ok(ch)
}

/// Where a message was found.
#[derive(Debug, Clone, Copy, PartialEq, Eq, Structural)]
pub struct RecordLoc {
    /// Which of the reader's regions.
    pub map_idx: usize,
    /// Offset of its header there.
    pub header_offset: usize,
    /// Payload length in bytes.
    pub payload_len: usize,
}

/// A message that was found, with what its header says.
#[derive(Debug, Clone, Copy, PartialEq, Eq, Structural)]
pub struct FoundRecord {
    pub loc: RecordLoc,
    pub message_type: u16,
    pub user_meta_u64: u64,
}

/// The part of a header that a scan goes by.
#[derive(Debug, Clone, Copy, PartialEq, Eq, Structural)]
pub struct ScannedHeader {
    pub is_committed: bool,
    pub header_type: HeaderType,
    pub payload_len: usize,
    pub message_type: u16,
    pub user_meta_u64: u64,
}

/// What a step of a reader comes to.
#[derive(Debug, Clone, Copy, PartialEq, Eq, Structural)]
pub enum Outcome<T> {
    /// A message.
    Ready(T),
    /// The next slot is not published yet.
    CaughtUp,
    /// The region is read: map the one with this index and go on there.
    SwitchRegion { index: u64 },
    /// The segment is read: open the one with this sequence number and go on there.
    NextSegment { sequence: u64 },
}

/// Reads the header at `off` as far as a scan goes by it. Commit flags at or behind
/// `visible` have not been observed by the caller and count as not set.
pub fn message_header_info(region: &[u8], off: usize, visible: usize) -> (r: Result<
    ScannedHeader,
    Error,
>)
    requires
        off + HEADER_SLOT <= region@.len(),
    ensures
        ({
            let h = header_at(region@, off as int);
            let unset = Ok::<ScannedHeader, Error>(
                ScannedHeader {
                    is_committed: false,
                    header_type: HeaderType::User,
                    payload_len: 0,
                    message_type: 0,
                    user_meta_u64: 0,
                },
            );
            if off >= visible {
                r == unset
            } else {
                match h.spec_is_committed() {
                    Err(e) => r == Err::<ScannedHeader, Error>(e),
                    Ok(false) => r == unset,
                    Ok(true) => match HeaderType::spec_from_raw(h.header_type) {
                        Err(e) => r == Err::<ScannedHeader, Error>(e),
                        Ok(header_type) => r == Ok::<ScannedHeader, Error>(
                            ScannedHeader {
                                is_committed: true,
                                header_type,
                                payload_len: h.length as usize,
                                message_type: h.message_type,
                                user_meta_u64: h.user_meta_u64,
                            },
                        ),
                    },
                }
            }
        }),
{
    let unset = ScannedHeader {
        is_committed: false,
        header_type: HeaderType::User,
        payload_len: 0,
        message_type: 0,
        user_meta_u64: 0,
    };
    if off >= visible {
        return Ok(unset);
    }
    let mh = MessageHeader::read(region, off);
    match mh.is_committed() {
        Err(e) => {
            return Err(e);
        },
        Ok(committed) => {
            if !committed {
                return Ok(unset);
            }
        },
    }
    match mh.parsed_header_type() {
        Err(e) => Err(e),
        Ok(header_type) => Ok(
            ScannedHeader {
                is_committed: true,
                header_type,
                payload_len: mh.length as usize,
                message_type: mh.message_type,
                user_meta_u64: mh.user_meta_u64,
            },
        ),
    }
}

/// The name in a name field: the field without its trailing zero bytes.
pub open spec fn trimmed(field: Seq<u8>) -> Seq<u8>
    decreases field.len(),
{
    if field.len() > 0 && field.last() == 0 {
        trimmed(field.drop_last())
    } else {
        field
    }
}

/// A name ends behind the last byte of its field that is not zero.
pub proof fn lemma_trimmed(field: Seq<u8>, n: int)
    requires
        0 <= n <= field.len(),
        n == 0 || field[n - 1] != 0,
        forall|i: int| n <= i < field.len() ==> field[i] == 0,
    ensures
        trimmed(field) == field.subrange(0, n),
    decreases field.len(),
{
    if n == field.len() {
        assert(field.subrange(0, n) =~= field);
    } else {
        let rest = field.drop_last();
        lemma_trimmed(rest, n);
        assert(rest.subrange(0, n) =~= field.subrange(0, n));
    }
}

/// A name that does not end in a zero byte is read back from its padded field.
pub proof fn law_name_round_trip(name: Seq<char>)
    requires
        vstd::utf8::encode_utf8(name).len() <= CHANNEL_NAME_MAX,
        vstd::utf8::encode_utf8(name).len() > 0 ==> vstd::utf8::encode_utf8(name).last() != 0,
    ensures
        ({
            let field = crate::builder::padded(vstd::utf8::encode_utf8(name));
            &&& trimmed(field) == vstd::utf8::encode_utf8(name)
            &&& vstd::utf8::valid_utf8(trimmed(field))
            &&& vstd::utf8::decode_utf8(trimmed(field)) == name
        }),
{
    let bytes = vstd::utf8::encode_utf8(name);
    let field = crate::builder::padded(bytes);
    lemma_trimmed(field, bytes.len() as int);
    assert(field.subrange(0, bytes.len() as int) =~= bytes);
    vstd::utf8::encode_utf8_valid_utf8(name);
    vstd::utf8::encode_utf8_decode_utf8(name);
}

/// Part of a batch: a stretch of one mapped region.
#[derive(Debug, Clone, Copy, PartialEq, Eq, Structural)]
pub struct BatchSeg {
    /// Which of the reader's regions.
    pub map_idx: usize,
    /// Start offset (inclusive).
    pub start: u32,
    /// End offset (exclusive).
    pub end: u32,
}

/// A message of a batch.
#[derive(Debug, Clone, Copy, PartialEq, Eq, Structural)]
pub struct MsgPos {
    /// Which of the batch's stretches.
    pub seg: usize,
    /// Offset of its header in that stretch's region.
    pub off: u32,
}

/// The state of a reader.
///
/// The reader holds handles of the regions that it has mapped, never their bytes:
/// every step is handed the bytes of the current region. The last handle is the
/// current one; older ones are kept for the messages of a batch.
#[derive(Debug)]
pub struct Reader<M> {
    pub(crate) file_sequence: u64,
    pub(crate) read_position: u64,
    pub(crate) region_size_cached: usize,
    pub(crate) mtu_cached: u32,
    pub(crate) channel_name_cached: [u8; CHANNEL_NAME_MAX],
    pub(crate) base_record_index_cached: u64,
    pub(crate) generation_cached: u64,
    pub(crate) batch_limit: Option<u16>,
    pub(crate) batch_segs: Vec<BatchSeg>,
    pub(crate) batch_pos: Vec<MsgPos>,
    pub(crate) maps: Vec<MappedRegion<M>>,
}

/// What there is to know of a reader.
#[verifier::ext_equal]
pub struct ReaderView<M> {
    /// Position of the current segment in the series.
    pub file_sequence: u64,
    /// Position in the current segment.
    pub read_position: u64,
    /// Region size in bytes.
    pub region_size_cached: usize,
    /// Maximum payload size; 0 is unlimited.
    pub mtu_cached: u32,
    /// The name field of the current segment.
    pub channel_name_cached: [u8; CHANNEL_NAME_MAX],
    /// Absolute index of the current segment's first message.
    pub base_record_index_cached: u64,
    /// Incarnation id of the channel.
    pub generation_cached: u64,
    /// How many messages a batch holds at most where the read does not say.
    pub batch_limit: Option<u16>,
    /// The stretches of the batch.
    pub batch_segs: Seq<BatchSeg>,
    /// The messages of the batch.
    pub batch_pos: Seq<MsgPos>,
    /// The mapped regions.
    pub maps: Seq<MappedRegion<M>>,
}

impl<M> View for Reader<M> {
    type V = ReaderView<M>;

    open(crate) spec fn view(&self) -> ReaderView<M> {
        ReaderView {
            file_sequence: self.file_sequence,
            read_position: self.read_position,
            region_size_cached: self.region_size_cached,
            mtu_cached: self.mtu_cached,
            channel_name_cached: self.channel_name_cached,
            base_record_index_cached: self.base_record_index_cached,
            generation_cached: self.generation_cached,
            batch_limit: self.batch_limit,
            batch_segs: self.batch_segs@,
            batch_pos: self.batch_pos@,
            maps: self.maps@,
        }
    }
}

impl<M> ReaderView<M> {
    /// The reader stands at an aligned position of a segment with sound regions.
    pub open spec fn wf(self) -> bool {
        &&& FIRST_SLOT <= self.region_size_cached <= u32::MAX
        &&& self.region_size_cached % 8 == 0
        &&& self.read_position % 8 == 0
        &&& self.read_position <= MAX_FILE_OFFSET
    }

    /// The region that the reader stands in.
    pub open spec fn region(self) -> int {
        self.read_position as int / self.region_size_cached as int
    }

    /// The offset in that region.
    pub open spec fn off(self) -> int {
        self.read_position as int % self.region_size_cached as int
    }

    /// The last mapped region is the one that the reader stands in.
    pub open spec fn on_map(self) -> bool {
        &&& self.maps.len() > 0
        &&& self.maps.last().file_sequence == self.file_sequence
        &&& self.maps.last().region_idx == self.region()
    }

    /// A well-formed reader's position is its region's start plus an aligned offset.
    pub proof fn lemma_at(self)
        requires
            self.wf(),
        ensures
            self.read_position == self.region() * self.region_size_cached + self.off(),
            0 <= self.off() < self.region_size_cached,
            self.off() % 8 == 0,
            0 <= self.region() <= self.read_position,
            0 <= self.region() * self.region_size_cached <= self.read_position,
            (self.region() * self.region_size_cached) % 8 == 0,
            (self.region() + 1) * self.region_size_cached == self.region()
                * self.region_size_cached + self.region_size_cached,
    {
        let i = self.region();
        let size = self.region_size_cached as int;
        crate::layout::lemma_split(self.read_position as int, size);
        crate::layout::lemma_next_region(i, size);
        crate::layout::lemma_region_start_aligned(i, size);
        assert(i <= i * size) by (nonlinear_arith)
            requires
                size >= 1,
                i >= 0,
        ;
    }

    /// Where the reader comes to rest in its region.
    pub open spec fn hit(self, bytes: Seq<u8>, visible: int) -> Hit {
        seek(bytes, self.off(), visible)
    }

    /// The position at which a scan leaves the reader: behind the message where it
    /// takes one, and where it came to rest otherwise.
    pub open spec fn rest_at(self, bytes: Seq<u8>, visible: int, consume: bool) -> int {
        self.region() * self.region_size_cached + match self.hit(bytes, visible) {
            Hit::User { off } => if consume {
                after(bytes, off)
            } else {
                off
            },
            Hit::Tail { off } => off,
            Hit::Edge => self.region_size_cached as int,
            Hit::Roll { off } => off,
            Hit::Bad { off, error } => off,
        }
    }

    /// What a scan says of where the reader came to rest.
    pub open spec fn found(self, bytes: Seq<u8>, visible: int) -> Result<
        Outcome<FoundRecord>,
        Error,
    > {
        match self.hit(bytes, visible) {
            Hit::User { off } => {
                let h = header_at(bytes, off);
                Ok(
                    Outcome::Ready(
                        FoundRecord {
                            loc: RecordLoc {
                                map_idx: 0,
                                header_offset: off as usize,
                                payload_len: h.length as usize,
                            },
                            message_type: h.message_type,
                            user_meta_u64: h.user_meta_u64,
                        },
                    ),
                )
            },
            Hit::Tail { off } => Ok(Outcome::CaughtUp),
            Hit::Edge => Ok(Outcome::SwitchRegion { index: (self.region() + 1) as u64 }),
            Hit::Roll { off } => Ok(
                Outcome::NextSegment { sequence: (self.file_sequence + 1) as u64 },
            ),
            Hit::Bad { off, error } => Err(error),
        }
    }

    /// What a scan needs: the current region is mapped, `bytes` are its bytes, and it
    /// ends inside the file offsets.
    pub open spec fn ready_to_scan(self, bytes: Seq<u8>) -> bool {
        &&& self.wf()
        &&& self.on_map()
        &&& self.file_sequence < u64::MAX
        &&& bytes.len() == self.region_size_cached
        &&& self.region() * self.region_size_cached + self.region_size_cached <= MAX_FILE_OFFSET
    }

    /// A scan leaves `self` as `after`: only the current region stays mapped, and
    /// nothing else but the position has changed.
    pub open spec fn scanned(
        self,
        after: Self,
        bytes: Seq<u8>,
        visible: int,
        consume: bool,
    ) -> bool {
        &&& after.wf()
        &&& after.read_position == self.rest_at(bytes, visible, consume)
        &&& after.maps == seq![self.maps.last()]
        &&& after == (ReaderView { maps: after.maps, read_position: after.read_position, ..self })
    }

    /// Why the segment that starts with `region0` does not continue the one at `sequence`,
    /// which starts with `current`, if it does not.
    pub open spec fn segment_after_fault(
        self,
        sequence: u64,
        current: Seq<u8>,
        region0: Seq<u8>,
    ) -> Option<Error> {
        continuation_fault(
            (sequence + 1) as u64,
            self.region_size_cached,
            self.generation_cached,
            current,
            region0,
        )
    }

    /// Why the segment that starts with `region0` does not continue the one that the
    /// reader is in, which starts with `current`, if it does not.
    pub open spec fn next_segment_fault(self, current: Seq<u8>, region0: Seq<u8>) -> Option<
        Error,
    > {
        self.segment_after_fault(self.file_sequence, current, region0)
    }
}

impl<M> Reader<M> {
    /// A reader at the place that `opening` names, in the segment at `sequence`.
    /// `mapping` is the handle of the region that holds the place.
    pub fn open_at(opening: &Opening, sequence: u64, mapping: M) -> (reader: Self)
        requires
            FIRST_SLOT <= opening.region_size <= u32::MAX,
            opening.region_size % 8 == 0,
            opening.read_pos % 8 == 0,
            opening.read_pos <= MAX_FILE_OFFSET,
        ensures
            reader@.wf(),
            reader@.on_map(),
            reader@.file_sequence == sequence,
            reader@.read_position == opening.read_pos,
            reader@.region_size_cached == opening.region_size,
            reader@.mtu_cached == opening.mtu,
            reader@.channel_name_cached == opening.channel_name,
            reader@.base_record_index_cached == opening.base_record_index,
            reader@.generation_cached == opening.generation,
            reader@.batch_limit is None,
            reader@.batch_segs.len() == 0,
            reader@.batch_pos.len() == 0,
            reader@.maps == seq![
                MappedRegion {
                    file_sequence: sequence,
                    region_idx: (opening.read_pos as int / opening.region_size as int) as u64,
                    mapping,
                },
            ],
    {
        let mut maps: Vec<MappedRegion<M>> = Vec::with_capacity(16);
        maps.push(
            MappedRegion {
                file_sequence: sequence,
                region_idx: opening.read_pos / opening.region_size as u64,
                mapping,
            },
        );
        let reader = Reader {
            file_sequence: sequence,
            read_position: opening.read_pos,
            region_size_cached: opening.region_size,
            mtu_cached: opening.mtu,
            channel_name_cached: opening.channel_name,
            base_record_index_cached: opening.base_record_index,
            generation_cached: opening.generation,
            batch_limit: None,
            batch_segs: Vec::with_capacity(16),
            batch_pos: Vec::with_capacity(1024),
            maps,
        };
        proof {
            reader@.lemma_at();
        }
        reader
    }

    /// Sets how many messages a batch holds at most where the read does not say.
    pub fn set_batch_limit(&mut self, limit: Option<u16>)
        ensures
            final(self)@ == (ReaderView { batch_limit: limit, ..old(self)@ }),
    {
        self.batch_limit = limit;
    }

    /// Lets go of all mapped regions but the current one.
    pub fn prune_to_current(&mut self)
        requires
            old(self)@.on_map(),
        ensures
            final(self)@.maps == seq![old(self)@.maps.last()],
            final(self)@.on_map(),
            final(self)@ == (ReaderView { maps: final(self)@.maps, ..old(self)@ }),
    {
        if self.maps.len() > 1 {
            let last = self.maps.pop();
            self.maps.clear();
            match last {
                Some(map) => {
                    self.maps.push(map);
                },
                None => {},
            }
        }
        assert(self.maps@ =~= seq![old(self)@.maps.last()]);
    }

    /// Walks from the reader's place to the next message, stepping over records that
    /// carry none. With `consume` the reader is left behind the message, without at
    /// it.
    ///
    /// `region` is the bytes of the current region; commit flags at or behind
    /// `visible` have not been observed by the caller and count as not set.
    #[verifier::spinoff_prover]
    #[verifier::rlimit(60)]
    pub fn scan_to_user_record(&mut self, region: &[u8], visible: usize, consume: bool) -> (r:
        Result<Outcome<FoundRecord>, Error>)
        requires
            old(self)@.ready_to_scan(region@),
        ensures
            r == old(self)@.found(region@, visible as int),
            old(self)@.scanned(final(self)@, region@, visible as int, consume),
    {
        self.prune_to_current();
        let ghost begun = self@;
        proof {
            begun.lemma_at();
        }
        let size = region.len();
        let start = self.read_position - self.read_position % size as u64;
        let off0 = (self.read_position % size as u64) as usize;
        let mut off: usize = off0;
        while off < size
            invariant
                size == region@.len() == begun.region_size_cached,
                begun.wf(),
                begun.file_sequence < u64::MAX,
                start == begun.region() * size,
                start % 8 == 0,
                start + size <= MAX_FILE_OFFSET,
                off % 8 == 0,
                off <= size,
                size % 8 == 0,
                begun.maps == seq![old(self)@.maps.last()],
                begun == (ReaderView { maps: begun.maps, ..old(self)@ }),
                self@ == (ReaderView { read_position: self.read_position, ..begun }),
                self.read_position == start + off,
                seek(region@, off as int, visible as int) == seek(
                    region@,
                    begun.off(),
                    visible as int,
                ),
            decreases size - off,
        {
            let leftover = size - off;
            if leftover < HEADER_SLOT {
                return Err(Error::BoundaryHole);
            }
            let hdr = match message_header_info(region, off, visible) {
                Err(e) => {
                    return Err(e);
                },
                Ok(hdr) => hdr,
            };
            if !hdr.is_committed {
                return Ok(Outcome::CaughtUp);
            }
            if hdr.payload_len > leftover - HEADER_SLOT {
                return Err(Error::PayloadPastRegion);
            }
            proof {
                crate::layout::law_align_up(
                    off + HEADER_SLOT + hdr.payload_len,
                    size as int,
                );
            }
            let end = off + HEADER_SLOT + hdr.payload_len;
            let next_off = if end > size - 8 {
                size
            } else {
                align_up(end)
            };
            assert(next_off == after(region@, off as int));
            match hdr.header_type {
                HeaderType::User => {
                    if consume {
                        self.read_position = start + next_off as u64;
                    }
                    return Ok(
                        Outcome::Ready(
                            FoundRecord {
                                loc: RecordLoc {
                                    map_idx: 0,
                                    header_offset: off,
                                    payload_len: hdr.payload_len,
                                },
                                message_type: hdr.message_type,
                                user_meta_u64: hdr.user_meta_u64,
                            },
                        ),
                    );
                },
                HeaderType::Roll => {
                    return Ok(Outcome::NextSegment { sequence: self.file_sequence + 1 });
                },
                _ => {
                    off = next_off;
                    self.read_position = start + next_off as u64;
                },
            }
        }
        proof {
            crate::layout::lemma_next_region(begun.region(), size as int);
            crate::layout::lemma_position(begun.region() + 1, 0, size as int);
        }
        Ok(Outcome::SwitchRegion { index: self.read_position / size as u64 })
    }

    /// Reads the next message of the current region, if one is published.
    pub fn try_read<'a>(&mut self, region: &'a [u8], visible: usize) -> (r: Result<
        Outcome<MessageRef<'a>>,
        Error,
    >)
        requires
            old(self)@.ready_to_scan(region@),
        ensures
            old(self)@.scanned(final(self)@, region@, visible as int, true),
            match old(self)@.hit(region@, visible as int) {
                Hit::User { off } => r matches Ok(Outcome::Ready(m)) && m.mapping@ == region@
                    && m.header_offset == off && m.shows(record_at(region@, off)),
                _ => match old(self)@.found(region@, visible as int) {
                    Err(e) => r matches Err(e2) && e == e2,
                    Ok(Outcome::SwitchRegion { index }) => r matches Ok(
                        Outcome::SwitchRegion { index: i },
                    ) && i == index,
                    Ok(Outcome::NextSegment { sequence }) => r matches Ok(
                        Outcome::NextSegment { sequence: q },
                    ) && q == sequence,
                    Ok(_) => r matches Ok(Outcome::CaughtUp),
                },
            },
    {
        proof {
            self@.lemma_at();
            crate::log::lemma_seek_bounds(region@, self@.off(), visible as int);
        }
        match self.scan_to_user_record(region, visible, true) {
            Err(e) => Err(e),
            Ok(Outcome::Ready(found)) => {
                let m = MessageRef {
                    mapping: region,
                    header_offset: found.loc.header_offset,
                    payload_len: found.loc.payload_len,
                };
                Ok(Outcome::Ready(m))
            },
            Ok(Outcome::CaughtUp) => Ok(Outcome::CaughtUp),
            Ok(Outcome::SwitchRegion { index }) => Ok(Outcome::SwitchRegion { index }),
            Ok(Outcome::NextSegment { sequence }) => Ok(Outcome::NextSegment { sequence }),
        }
    }

    /// What the next message of the current region says about itself, without taking
    /// it.
    pub fn peek_header(&mut self, region: &[u8], visible: usize) -> (r: Result<
        Outcome<PeekedHeader>,
        Error,
    >)
        requires
            old(self)@.ready_to_scan(region@),
        ensures
            old(self)@.scanned(final(self)@, region@, visible as int, false),
            match old(self)@.found(region@, visible as int) {
                Err(e) => r == Err::<Outcome<PeekedHeader>, Error>(e),
                Ok(Outcome::Ready(found)) => r == Ok::<Outcome<PeekedHeader>, Error>(
                    Outcome::Ready(
                        PeekedHeader {
                            message_type: found.message_type,
                            user_meta_u64: found.user_meta_u64,
                            length: found.loc.payload_len as u32,
                        },
                    ),
                ),
                Ok(Outcome::CaughtUp) => r == Ok::<Outcome<PeekedHeader>, Error>(
                    Outcome::CaughtUp,
                ),
                Ok(Outcome::SwitchRegion { index }) => r == Ok::<Outcome<PeekedHeader>, Error>(
                    Outcome::SwitchRegion { index },
                ),
                Ok(Outcome::NextSegment { sequence }) => r == Ok::<Outcome<PeekedHeader>, Error>(
                    Outcome::NextSegment { sequence },
                ),
            },
    {
        match self.scan_to_user_record(region, visible, false) {
            Err(e) => Err(e),
            Ok(Outcome::Ready(found)) => Ok(
                Outcome::Ready(
                    PeekedHeader {
                        message_type: found.message_type,
                        user_meta_u64: found.user_meta_u64,
                        length: found.loc.payload_len as u32,
                    },
                ),
            ),
            Ok(Outcome::CaughtUp) => Ok(Outcome::CaughtUp),
            Ok(Outcome::SwitchRegion { index }) => Ok(Outcome::SwitchRegion { index }),
            Ok(Outcome::NextSegment { sequence }) => Ok(Outcome::NextSegment { sequence }),
        }
    }

    /// Whether the next message of the current region is published. The message is
    /// not taken.
    pub fn poll_for_user_message(&mut self, region: &[u8], visible: usize) -> (r: Result<
        Outcome<()>,
        Error,
    >)
        requires
            old(self)@.ready_to_scan(region@),
        ensures
            old(self)@.scanned(final(self)@, region@, visible as int, false),
            match old(self)@.found(region@, visible as int) {
                Err(e) => r == Err::<Outcome<()>, Error>(e),
                Ok(Outcome::Ready(found)) => r == Ok::<Outcome<()>, Error>(Outcome::Ready(())),
                Ok(Outcome::CaughtUp) => r == Ok::<Outcome<()>, Error>(Outcome::CaughtUp),
                Ok(Outcome::SwitchRegion { index }) => r == Ok::<Outcome<()>, Error>(
                    Outcome::SwitchRegion { index },
                ),
                Ok(Outcome::NextSegment { sequence }) => r == Ok::<Outcome<()>, Error>(
                    Outcome::NextSegment { sequence },
                ),
            },
    {
        match self.scan_to_user_record(region, visible, false) {
            Err(e) => Err(e),
            Ok(Outcome::Ready(_)) => Ok(Outcome::Ready(())),
            Ok(Outcome::CaughtUp) => Ok(Outcome::CaughtUp),
            Ok(Outcome::SwitchRegion { index }) => Ok(Outcome::SwitchRegion { index }),
            Ok(Outcome::NextSegment { sequence }) => Ok(Outcome::NextSegment { sequence }),
        }
    }

    /// The region to map before the reader can go on, if the current one is not
    /// mapped.
    pub fn needs_region(&self) -> (r: Option<u64>)
        requires
            self@.wf(),
        ensures
            r == if self@.on_map() {
                None
            } else {
                Some(self@.region() as u64)
            },
    {
        proof {
            self@.lemma_at();
        }
        let idx = self.read_position / self.region_size_cached as u64;
        let n = self.maps.len();
        if n > 0 && self.maps[n - 1].file_sequence == self.file_sequence && self.maps[n
            - 1].region_idx == idx {
            None
        } else {
            Some(idx)
        }
    }

    /// Takes over the handle of the region that the reader stands in.
    pub fn switch_region(&mut self, mapping: M)
        requires
            old(self)@.wf(),
        ensures
            final(self)@.wf(),
            final(self)@.on_map(),
            final(self)@.maps == old(self)@.maps.push(
                MappedRegion {
                    file_sequence: old(self)@.file_sequence,
                    region_idx: old(self)@.region() as u64,
                    mapping,
                },
            ),
            final(self)@ == (ReaderView { maps: final(self)@.maps, ..old(self)@ }),
    {
        proof {
            self@.lemma_at();
        }
        let idx = self.read_position / self.region_size_cached as u64;
        self.maps.push(
            MappedRegion { file_sequence: self.file_sequence, region_idx: idx, mapping },
        );
    }

    /// Moves on to the next segment. `current_region0` is the beginning of the segment
    /// that the reader is in, `region0` the bytes of the next one's region 0, and `mapping`
    /// the handle of that region.
    ///
    /// The next segment must follow in the series, go on with the record numbering,
    /// and belong to the same incarnation of the channel. Where it does not, the
    /// reader stays as it is.
    pub fn open_next_file(&mut self, current_region0: &[u8], region0: &[u8], mapping: M) -> (r:
        Result<(), Error>)
        requires
            old(self)@.wf(),
            old(self)@.file_sequence < u64::MAX,
            FIRST_SLOT <= current_region0@.len(),
            crate::channel::next_index_at(current_region0@) <= u64::MAX,
            region0@.len() == old(self)@.region_size_cached,
        ensures
            match old(self)@.next_segment_fault(current_region0@, region0@) {
                Some(e) => r == Err::<(), Error>(e) && *final(self) == *old(self),
                None => {
                    &&& r == Ok::<(), Error>(())
                    &&& final(self)@.wf()
                    &&& final(self)@.on_map()
                    &&& final(self)@.channel_name_cached@ == region0@.subrange(65, 113)
                    &&& final(self)@ == (ReaderView {
                        file_sequence: (old(self)@.file_sequence + 1) as u64,
                        read_position: 0,
                        channel_name_cached: final(self)@.channel_name_cached,
                        base_record_index_cached: crate::channel::next_index_at(
                            current_region0@,
                        ) as u64,
                        maps: seq![
                            MappedRegion {
                                file_sequence: (old(self)@.file_sequence + 1) as u64,
                                region_idx: 0,
                                mapping,
                            },
                        ],
                        ..old(self)@
                    })
                },
            },
    {
        let next_sequence = self.file_sequence + 1;
        let ch = match check_continuation(
            next_sequence,
            self.region_size_cached,
            self.generation_cached,
            current_region0,
            region0,
        ) {
            Err(e) => {
                return Err(e);
            },
            Ok(ch) => ch,
        };
        self.file_sequence = next_sequence;
        self.channel_name_cached = ch.channel_name;
        self.base_record_index_cached = ch.base_record_index;
        self.read_position = 0;
        self.maps.clear();
        self.maps.push(MappedRegion { file_sequence: next_sequence, region_idx: 0, mapping });
        proof {
            crate::layout::lemma_position(0, 0, self.region_size_cached as int);
            assert(self.maps@ =~= seq![
                MappedRegion { file_sequence: next_sequence, region_idx: 0, mapping },
            ]);
        }
        Ok(())
    }

    /// The channel's name: the name field without its trailing zero bytes. Bytes that are
    /// not UTF-8 are replaced.
    pub fn channel_name(&self) -> (s: String)
        ensures
            s@ == crate::text::utf8_lossy(trimmed(self@.channel_name_cached@)),
            vstd::utf8::valid_utf8(trimmed(self@.channel_name_cached@)) ==> s@
                == vstd::utf8::decode_utf8(trimmed(self@.channel_name_cached@)),
    {
        let field = self.channel_name_cached;
        let mut end: usize = CHANNEL_NAME_MAX;
        while end > 0 && field[end - 1] == 0
            invariant
                end <= CHANNEL_NAME_MAX,
                field@.len() == CHANNEL_NAME_MAX,
                forall|i: int| end <= i < CHANNEL_NAME_MAX ==> field@[i] == 0,
            decreases end,
        {
            end = end - 1;
        }
        proof {
            lemma_trimmed(field@, end as int);
        }
        lossy_text(slice_subrange(field.as_slice(), 0, end))
    }

    /// The mapped regions; the last one is the current one.
    pub fn maps(&self) -> (m: &[MappedRegion<M>])
        ensures
            m@ == self@.maps,
    {
        self.maps.as_slice()
    }

    /// Position in the current segment.
    pub fn read_position(&self) -> (p: u64)
        ensures
            p == self@.read_position,
    {
        self.read_position
    }

    /// Absolute index of the first message in the current segment.
    pub fn base_record_index(&self) -> (i: u64)
        ensures
            i == self@.base_record_index_cached,
    {
        self.base_record_index_cached
    }

    /// Incarnation id of the channel.
    pub fn generation(&self) -> (g: u64)
        ensures
            g == self@.generation_cached,
    {
        self.generation_cached
    }

    /// Position of the current segment in the series.
    pub fn file_sequence(&self) -> (s: u64)
        ensures
            s == self@.file_sequence,
    {
        self.file_sequence
    }

    /// Maximum payload size of the channel; 0 is unlimited.
    pub fn mtu(&self) -> (m: u32)
        ensures
            m == self@.mtu_cached,
    {
        self.mtu_cached
    }

    /// Region size of the channel in bytes.
    pub fn region_size(&self) -> (s: usize)
        ensures
            s == self@.region_size_cached,
    {
        self.region_size_cached
    }
}

impl<M: Clone> Reader<M> {
    /// Like [`Reader::try_read`], with a message that owns a share of its region.
    pub fn try_read_owned(&mut self, region: &[u8], visible: usize) -> (r: Result<
        Outcome<OwnedMessage<M>>,
        Error,
    >)
        requires
            old(self)@.ready_to_scan(region@),
        ensures
            old(self)@.scanned(final(self)@, region@, visible as int, true),
            match old(self)@.hit(region@, visible as int) {
                Hit::User { off } => r matches Ok(Outcome::Ready(m)) && {
                    &&& cloned(old(self)@.maps.last().mapping, m.region)
                    &&& m.header_offset == off
                    &&& m.shows(region@, record_at(region@, off))
                },
                _ => match old(self)@.found(region@, visible as int) {
                    Err(e) => r matches Err(e2) && e == e2,
                    Ok(Outcome::SwitchRegion { index }) => r matches Ok(
                        Outcome::SwitchRegion { index: i },
                    ) && i == index,
                    Ok(Outcome::NextSegment { sequence }) => r matches Ok(
                        Outcome::NextSegment { sequence: q },
                    ) && q == sequence,
                    Ok(_) => r matches Ok(Outcome::CaughtUp),
                },
            },
    {
        proof {
            self@.lemma_at();
            crate::log::lemma_seek_bounds(region@, self@.off(), visible as int);
        }
        match self.scan_to_user_record(region, visible, true) {
            Err(e) => Err(e),
            Ok(Outcome::Ready(found)) => Ok(
                Outcome::Ready(
                    OwnedMessage {
                        region: self.maps[found.loc.map_idx].mapping.clone(),
                        header_offset: found.loc.header_offset,
                        payload_len: found.loc.payload_len,
                    },
                ),
            ),
            Ok(Outcome::CaughtUp) => Ok(Outcome::CaughtUp),
            Ok(Outcome::SwitchRegion { index }) => Ok(Outcome::SwitchRegion { index }),
            Ok(Outcome::NextSegment { sequence }) => Ok(Outcome::NextSegment { sequence }),
        }
    }
}

/// Absolute index of the next message of the channel, given the beginning of its
/// latest segment.
pub fn head_record_index(page: &[u8]) -> (r: Result<u64, Error>)
    requires
        FIRST_SLOT <= page@.len(),
        HeaderType::spec_from_raw(header_at(page@, 0).header_type) == Ok::<HeaderType, Error>(
            HeaderType::Channel,
        ) ==> crate::channel::next_index_at(page@) <= u64::MAX,
    ensures
        match HeaderType::spec_from_raw(header_at(page@, 0).header_type) {
            Err(e) => r == Err::<u64, Error>(e),
            Ok(HeaderType::Channel) => r == Ok::<u64, Error>(
                crate::channel::next_index_at(page@) as u64,
            ),
            Ok(_) => r == Err::<u64, Error>(Error::LatestSegmentNotChannel),
        },
{
    let mh = MessageHeader::read(page, 0);
    match mh.parsed_header_type() {
        Err(e) => Err(e),
        Ok(kind) => {
            if kind != HeaderType::Channel {
                Err(Error::LatestSegmentNotChannel)
            } else {
                Ok(next_index(page))
            }
        },
    }
}

} // verus!
