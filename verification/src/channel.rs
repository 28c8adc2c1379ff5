//! The wire format: record headers and the channel header.
use vstd::prelude::*;

use crate::bytes::{get_u16, get_u32, get_u64, put_u16, put_u32, put_u64};
use crate::error::Error;

verus! {

broadcast use {vstd::slice::group_slice_axioms, crate::bytes::group_le_len};

/// Size of a [`MessageHeader`] on the wire.
pub const MESSAGE_HEADER_SIZE: usize = 16;

/// Size of a [`ChannelHeader`] on the wire.
pub const CHANNEL_HEADER_SIZE: usize = 128;

/// Bytes that a record's header takes.
pub const HEADER_SLOT: usize = 16;

/// Alignment of header slots.
pub const ALIGN: usize = 8;

/// Offset of a segment's first user slot: behind the channel header.
pub const FIRST_SLOT: usize = 144;

/// Maximum bytes available for a channel name in a [`ChannelHeader`].
pub const CHANNEL_NAME_MAX: usize = 48;

/// Wire format version emitted and accepted.
pub const FORMAT_VERSION: u16 = 3;

/// The only defined framing: little-endian.
pub const ENDIANNESS_LE: u8 = 1;

/// The only defined layout of the user-owned header bytes.
pub const USER_HEADER_KIND_DEFAULT: u32 = 0;

/// System-owned bytes inside a [`MessageHeader`].
pub const SYSTEM_HEADER_SIZE: u8 = 8;

/// User-owned bytes inside a [`MessageHeader`].
pub const USER_HEADER_SIZE: u8 = 8;

/// Value of the commit flag of a record that is not published yet.
pub const NOT_COMMITTED: u8 = 0;

/// Value of the commit flag of a published record.
pub const COMMITTED: u8 = 1;

/// The kind of record at the current offset.
#[derive(Debug, Clone, Copy, PartialEq, Eq, Structural)]
pub enum HeaderType {
    /// First record of a segment, followed by a [`ChannelHeader`].
    Channel,
    /// A message.
    User,
    /// Padding to the end of the region.
    Skip,
    /// Last record of a segment: the channel goes on in the next one.
    Roll,
}

impl HeaderType {
    /// The byte that stands for this kind.
    pub open spec fn spec_code(self) -> u8 {
        match self {
            HeaderType::Channel => 0,
            HeaderType::User => 1,
            HeaderType::Skip => 2,
            HeaderType::Roll => 3,
        }
    }

    /// The kind that a byte stands for.
    pub open spec fn spec_from_raw(raw: u8) -> Result<HeaderType, Error> {
        if raw == 0 {
            Ok(HeaderType::Channel)
        } else if raw == 1 {
            Ok(HeaderType::User)
        } else if raw == 2 {
            Ok(HeaderType::Skip)
        } else if raw == 3 {
            Ok(HeaderType::Roll)
        } else {
            Err(Error::InvalidHeaderType { raw })
        }
    }

    /// The byte that stands for this kind.
    pub fn code(self) -> (c: u8)
        ensures
            c == self.spec_code(),
    {
        match self {
            HeaderType::Channel => 0,
            HeaderType::User => 1,
            HeaderType::Skip => 2,
            HeaderType::Roll => 3,
        }
    }

    /// The kind that `raw` stands for.
    pub fn from_raw(raw: u8) -> (r: Result<Self, Error>)
        ensures
            r == Self::spec_from_raw(raw),
    {
        match raw {
            0 => Ok(HeaderType::Channel),
            1 => Ok(HeaderType::User),
            2 => Ok(HeaderType::Skip),
            3 => Ok(HeaderType::Roll),
            _ => Err(Error::InvalidHeaderType { raw }),
        }
    }
}

/// A kind's byte parses back to the kind, and no other byte does.
pub proof fn law_header_type_round_trip(kind: HeaderType, raw: u8)
    ensures
        HeaderType::spec_from_raw(raw) == Ok::<HeaderType, Error>(kind) <==> raw
            == kind.spec_code(),
        HeaderType::spec_from_raw(raw) is Err <==> raw > 3,
{
}

/// Header written before every record.
///
/// | offset | size | field           | owner  |
/// |-------:|-----:|-----------------|--------|
/// |      0 |    1 | `committed`     | system |
/// |      1 |    1 | `header_type`   | system |
/// |      2 |    2 | `message_type`  | user   |
/// |      4 |    4 | `length`        | system |
/// |      8 |    8 | `user_meta_u64` | user   |
#[derive(Debug, Clone, Copy, PartialEq, Eq, Structural)]
pub struct MessageHeader {
    pub committed: u8,
    pub header_type: u8,
    pub message_type: u16,
    pub length: u32,
    pub user_meta_u64: u64,
}

/// The header whose sixteen bytes stand at `off`.
pub open spec fn header_at(s: Seq<u8>, off: int) -> MessageHeader {
    MessageHeader {
        committed: s[off],
        header_type: s[off + 1],
        message_type: crate::bytes::le16(s, off + 2),
        length: crate::bytes::le32(s, off + 4),
        user_meta_u64: crate::bytes::le64(s, off + 8),
    }
}

/// What a slot holds before its record: an uncommitted, empty User header.
pub open spec fn preinstalled_header() -> MessageHeader {
    MessageHeader {
        committed: NOT_COMMITTED,
        header_type: 1,
        message_type: 0,
        length: 0,
        user_meta_u64: 0,
    }
}

impl MessageHeader {
    /// The sixteen bytes of this header.
    #[verifier::opaque]
    pub open spec fn bytes(self) -> Seq<u8> {
        seq![self.committed, self.header_type] + crate::bytes::le16_bytes(self.message_type)
            + crate::bytes::le32_bytes(self.length) + crate::bytes::le64_bytes(self.user_meta_u64)
    }

    /// Whether the record is published.
    pub open spec fn spec_is_committed(self) -> Result<bool, Error> {
        if self.committed == NOT_COMMITTED {
            Ok(false)
        } else if self.committed == COMMITTED {
            Ok(true)
        } else {
            Err(Error::InvalidCommittedFlag)
        }
    }

    /// Whether the record is published.
    pub fn is_committed(&self) -> (r: Result<bool, Error>)
        ensures
            r == self.spec_is_committed(),
    {
        match self.committed {
            0 => Ok(false),
            1 => Ok(true),
            _ => Err(Error::InvalidCommittedFlag),
        }
    }

    /// The kind of the record.
    pub fn parsed_header_type(&self) -> (r: Result<HeaderType, Error>)
        ensures
            r == HeaderType::spec_from_raw(self.header_type),
    {
        HeaderType::from_raw(self.header_type)
    }

    /// A slot's content before its record is written.
    pub fn preinstalled() -> (h: MessageHeader)
        ensures
            h == preinstalled_header(),
    {
        MessageHeader {
            committed: NOT_COMMITTED,
            header_type: 1,
            message_type: 0,
            length: 0,
            user_meta_u64: 0,
        }
    }

    /// The header at `off`.
    pub fn read(region: &[u8], off: usize) -> (h: MessageHeader)
        requires
            off + HEADER_SLOT <= region@.len(),
        ensures
            h == header_at(region@, off as int),
    {
        assert(off + HEADER_SLOT <= region.len());
        MessageHeader {
            committed: region[off],
            header_type: region[off + 1],
            message_type: get_u16(region, off + 2),
            length: get_u32(region, off + 4),
            user_meta_u64: get_u64(region, off + 8),
        }
    }

    /// Lays this header down at `off`.
    pub fn write(&self, region: &mut [u8], off: usize)
        requires
            off + HEADER_SLOT <= old(region)@.len(),
        ensures
            final(region)@ == crate::bytes::put(old(region)@, off as int, self.bytes()),
    {
        assert(off + HEADER_SLOT <= region.len());
        proof {
            reveal(MessageHeader::bytes);
        }
        region[off] = self.committed;
        region[off + 1] = self.header_type;
        put_u16(region, off + 2, self.message_type);
        put_u32(region, off + 4, self.length);
        put_u64(region, off + 8, self.user_meta_u64);
        assert(region@ =~= crate::bytes::put(old(region)@, off as int, self.bytes()));
    }

    /// Publishes the record at `off`: sets its commit flag and nothing else.
    pub fn commit(region: &mut [u8], off: usize)
        requires
            off < old(region)@.len(),
        ensures
            final(region)@ == old(region)@.update(off as int, COMMITTED),
    {
        region[off] = COMMITTED;
    }
}

/// A header has sixteen bytes.
pub broadcast proof fn lemma_message_header_len(h: MessageHeader)
    ensures
        (#[trigger] h.bytes()).len() == HEADER_SLOT,
{
    reveal(MessageHeader::bytes);
}

/// Headers depend on their own bytes.
pub proof fn lemma_header_frame(s: Seq<u8>, t: Seq<u8>, off: int)
    requires
        forall|i: int| off <= i < off + HEADER_SLOT ==> s[i] == t[i],
    ensures
        header_at(s, off) == header_at(t, off),
{
    crate::bytes::lemma_le16_frame(s, t, off + 2);
    crate::bytes::lemma_le32_frame(s, t, off + 4);
    crate::bytes::lemma_le64_frame(s, t, off + 8);
}

/// A header laid down at an offset is the header read there.
pub proof fn law_message_header_round_trip(s: Seq<u8>, off: int, h: MessageHeader)
    requires
        0 <= off,
        off + HEADER_SLOT <= s.len(),
    ensures
        h.bytes().len() == HEADER_SLOT,
        header_at(crate::bytes::put(s, off, h.bytes()), off) == h,
{
    reveal(MessageHeader::bytes);
    let t = crate::bytes::put(s, off, h.bytes());
    let b = h.bytes();
    assert(t[off] == b[0] && t[off + 1] == b[1]);
    assert(t.subrange(off + 2, off + 4) =~= crate::bytes::le16_bytes(h.message_type));
    assert(t.subrange(off + 4, off + 8) =~= crate::bytes::le32_bytes(h.length));
    assert(t.subrange(off + 8, off + 16) =~= crate::bytes::le64_bytes(h.user_meta_u64));
    crate::bytes::law_le16_round_trip(t, off + 2, h.message_type);
    crate::bytes::law_le32_round_trip(t, off + 4, h.length);
    crate::bytes::law_le64_round_trip(t, off + 8, h.user_meta_u64);
}

/// Setting the commit flag changes that field of the header and no other.
pub proof fn law_commit_sets_the_flag_only(s: Seq<u8>, off: int)
    requires
        0 <= off,
        off + HEADER_SLOT <= s.len(),
    ensures
        header_at(s.update(off, COMMITTED), off) == (MessageHeader {
            committed: COMMITTED,
            ..header_at(s, off)
        }),
{
    let t = s.update(off, COMMITTED);
    crate::bytes::lemma_le16_frame(s, t, off + 2);
    crate::bytes::lemma_le32_frame(s, t, off + 4);
    crate::bytes::lemma_le64_frame(s, t, off + 8);
}

/// The slot that recovery advanced to must bear the pre-install signature.
pub open spec fn preinstall_fault(hdr: MessageHeader) -> Option<Error> {
    match hdr.spec_is_committed() {
        Err(e) => Some(e),
        Ok(true) => Some(Error::AdvancedSlotCommitted),
        Ok(false) => if hdr == preinstalled_header() {
            None
        } else {
            Some(Error::AdvancedSlotNotPreinstalled)
        },
    }
}

/// Accepts `hdr` if it is what a writer lays down one slot ahead of itself, and
/// rejects raw bytes, a committed record or a half-written header.
pub fn verify_preinstall_signature(hdr: &MessageHeader) -> (r: Result<(), Error>)
    ensures
        match r {
            Ok(_) => preinstall_fault(*hdr) is None,
            Err(e) => preinstall_fault(*hdr) == Some(e),
        },
{
    match hdr.is_committed() {
        Err(e) => {
            return Err(e);
        },
        Ok(committed) => {
            if committed {
                return Err(Error::AdvancedSlotCommitted);
            }
        },
    }
    if hdr.header_type != 1 || hdr.length != 0 || hdr.message_type != 0 || hdr.user_meta_u64 != 0 {
        return Err(Error::AdvancedSlotNotPreinstalled);
    }
    Ok(())
}

/// The header of a segment, behind the Channel record that opens it.
///
/// | offset | size | field                |
/// |-------:|-----:|----------------------|
/// |      0 |    8 | `write_position`     |
/// |      8 |    8 | `message_count`      |
/// |     16 |    8 | `base_record_index`  |
/// |     24 |    8 | `channel_sequence`   |
/// |     32 |    4 | `region_size`        |
/// |     36 |    4 | `mtu`                |
/// |     40 |    2 | `format_version`     |
/// |     42 |    1 | `endianness`         |
/// |     43 |    1 | `system_header_size` |
/// |     44 |    4 | `user_header_kind`   |
/// |     48 |    1 | `user_header_size`   |
/// |     49 |   48 | `channel_name`       |
/// |     97 |   23 | reserved, zero       |
/// |    120 |    8 | `generation`         |
#[derive(Debug, Clone, Copy)]
pub struct ChannelHeader {
    /// Advisory: offset of the next record's payload, one slot past its header.
    pub write_position: u64,
    /// Advisory: user records published in this file.
    pub message_count: u64,
    /// Absolute index of this file's first user record.
    pub base_record_index: u64,
    /// Position of this file in the series.
    pub channel_sequence: u64,
    /// Region size in bytes.
    pub region_size: u32,
    /// Maximum payload size; 0 is unlimited.
    pub mtu: u32,
    /// Wire format version.
    pub format_version: u16,
    /// Framing discriminant.
    pub endianness: u8,
    /// System-owned bytes inside a message header.
    pub system_header_size: u8,
    /// Layout of the user-owned bytes inside a message header.
    pub user_header_kind: u32,
    /// User-owned bytes inside a message header.
    pub user_header_size: u8,
    /// Channel name, zero-padded.
    pub channel_name: [u8; CHANNEL_NAME_MAX],
    /// Incarnation id of the channel.
    pub generation: u64,
}

/// The stored write position of a segment.
pub open spec fn write_position_at(s: Seq<u8>) -> u64 {
    crate::bytes::le64(s, 16)
}

/// The stored message count of a segment.
pub open spec fn message_count_at(s: Seq<u8>) -> u64 {
    crate::bytes::le64(s, 24)
}

/// The absolute index of a segment's first user record.
pub open spec fn base_record_index_at(s: Seq<u8>) -> u64 {
    crate::bytes::le64(s, 32)
}

/// The incarnation id stored in a segment.
pub open spec fn generation_at(s: Seq<u8>) -> u64 {
    crate::bytes::le64(s, 136)
}

/// The absolute index of the next user record of a segment.
pub open spec fn next_index_at(s: Seq<u8>) -> int {
    base_record_index_at(s) + message_count_at(s)
}

impl ChannelHeader {
    /// The 128 bytes of this header.
    #[verifier::opaque]
    pub open spec fn bytes(self) -> Seq<u8> {
        crate::bytes::le64_bytes(self.write_position) + crate::bytes::le64_bytes(self.message_count)
            + crate::bytes::le64_bytes(self.base_record_index) + crate::bytes::le64_bytes(
            self.channel_sequence,
        ) + crate::bytes::le32_bytes(self.region_size) + crate::bytes::le32_bytes(self.mtu)
            + crate::bytes::le16_bytes(self.format_version) + seq![
            self.endianness,
            self.system_header_size,
        ] + crate::bytes::le32_bytes(self.user_header_kind) + seq![self.user_header_size]
            + self.channel_name@ + Seq::new(23, |i: int| 0u8) + crate::bytes::le64_bytes(
            self.generation,
        )
    }

    /// This header is the one stored in the segment that starts with `s`.
    pub open spec fn stored_in(self, s: Seq<u8>) -> bool {
        &&& self.write_position == write_position_at(s)
        &&& self.message_count == message_count_at(s)
        &&& self.base_record_index == base_record_index_at(s)
        &&& self.channel_sequence == crate::bytes::le64(s, 40)
        &&& self.region_size == crate::bytes::le32(s, 48)
        &&& self.mtu == crate::bytes::le32(s, 52)
        &&& self.format_version == crate::bytes::le16(s, 56)
        &&& self.endianness == s[58]
        &&& self.system_header_size == s[59]
        &&& self.user_header_kind == crate::bytes::le32(s, 60)
        &&& self.user_header_size == s[64]
        &&& self.channel_name@ == s.subrange(65, 113)
        &&& self.generation == generation_at(s)
    }

    /// Reads the header of the segment that starts with `region`.
    pub fn read(region: &[u8]) -> (ch: ChannelHeader)
        requires
            FIRST_SLOT <= region@.len(),
        ensures
            ch.stored_in(region@),
    {
        let mut channel_name: [u8; CHANNEL_NAME_MAX] = [0;CHANNEL_NAME_MAX];
        let mut i: usize = 0;
        while i < CHANNEL_NAME_MAX
            invariant
                i <= CHANNEL_NAME_MAX,
                FIRST_SLOT <= region@.len(),
                forall|k: int| 0 <= k < i ==> channel_name@[k] == region@[65 + k],
            decreases CHANNEL_NAME_MAX - i,
        {
            channel_name[i] = region[65 + i];
            i = i + 1;
        }
        assert(channel_name@ =~= region@.subrange(65, 113));
        ChannelHeader {
            write_position: get_u64(region, 16),
            message_count: get_u64(region, 24),
            base_record_index: get_u64(region, 32),
            channel_sequence: get_u64(region, 40),
            region_size: get_u32(region, 48),
            mtu: get_u32(region, 52),
            format_version: get_u16(region, 56),
            endianness: region[58],
            system_header_size: region[59],
            user_header_kind: get_u32(region, 60),
            user_header_size: region[64],
            channel_name,
            generation: get_u64(region, 136),
        }
    }

    /// Lays this header down in the segment that starts with `region`.
    pub fn write(&self, region: &mut [u8])
        requires
            FIRST_SLOT <= old(region)@.len(),
        ensures
            final(region)@ == crate::bytes::put(old(region)@, 16, self.bytes()),
    {
        proof {
            reveal(ChannelHeader::bytes);
        }
        put_u64(region, 16, self.write_position);
        put_u64(region, 24, self.message_count);
        put_u64(region, 32, self.base_record_index);
        put_u64(region, 40, self.channel_sequence);
        put_u32(region, 48, self.region_size);
        put_u32(region, 52, self.mtu);
        put_u16(region, 56, self.format_version);
        region[58] = self.endianness;
        region[59] = self.system_header_size;
        put_u32(region, 60, self.user_header_kind);
        region[64] = self.user_header_size;
        let mut i: usize = 0;
        let ghost before = region@;
        while i < CHANNEL_NAME_MAX
            invariant
                i <= CHANNEL_NAME_MAX,
                region@.len() == before.len(),
                FIRST_SLOT <= region@.len(),
                region@ == crate::bytes::put(before, 65, self.channel_name@.subrange(0, i as int)),
            decreases CHANNEL_NAME_MAX - i,
        {
            region[65 + i] = self.channel_name[i];
            i = i + 1;
            assert(region@ =~= crate::bytes::put(
                before,
                65,
                self.channel_name@.subrange(0, i as int),
            ));
        }
        assert(self.channel_name@.subrange(0, 48) =~= self.channel_name@);
        let mut j: usize = 0;
        let ghost named = region@;
        while j < 23
            invariant
                j <= 23,
                region@.len() == named.len(),
                FIRST_SLOT <= region@.len(),
                region@ == crate::bytes::put(named, 113, Seq::new(j as nat, |k: int| 0u8)),
            decreases 23 - j,
        {
            region[113 + j] = 0;
            j = j + 1;
            assert(region@ =~= crate::bytes::put(named, 113, Seq::new(j as nat, |k: int| 0u8)));
        }
        put_u64(region, 136, self.generation);
        assert(region@ =~= crate::bytes::put(old(region)@, 16, self.bytes()));
    }
}

/// A channel header has 128 bytes.
pub broadcast proof fn lemma_channel_header_len(ch: ChannelHeader)
    ensures
        (#[trigger] ch.bytes()).len() == CHANNEL_HEADER_SIZE,
{
    reveal(ChannelHeader::bytes);
}

pub broadcast group group_header_len {
    lemma_message_header_len,
    lemma_channel_header_len,
}

/// The bytes of a channel header, read at some offset, are its fields.
proof fn lemma_channel_bytes_front(ch: ChannelHeader)
    ensures
        ch.bytes().len() == CHANNEL_HEADER_SIZE,
        ch.bytes().subrange(0, 8) == crate::bytes::le64_bytes(ch.write_position),
        ch.bytes().subrange(8, 16) == crate::bytes::le64_bytes(ch.message_count),
        ch.bytes().subrange(16, 24) == crate::bytes::le64_bytes(ch.base_record_index),
        ch.bytes().subrange(24, 32) == crate::bytes::le64_bytes(ch.channel_sequence),
        ch.bytes().subrange(32, 36) == crate::bytes::le32_bytes(ch.region_size),
        ch.bytes().subrange(36, 40) == crate::bytes::le32_bytes(ch.mtu),
{
    reveal(ChannelHeader::bytes);
    let b = ch.bytes();
    assert(b.subrange(0, 8) =~= crate::bytes::le64_bytes(ch.write_position));
    assert(b.subrange(8, 16) =~= crate::bytes::le64_bytes(ch.message_count));
    assert(b.subrange(16, 24) =~= crate::bytes::le64_bytes(ch.base_record_index));
    assert(b.subrange(24, 32) =~= crate::bytes::le64_bytes(ch.channel_sequence));
    assert(b.subrange(32, 36) =~= crate::bytes::le32_bytes(ch.region_size));
    assert(b.subrange(36, 40) =~= crate::bytes::le32_bytes(ch.mtu));
}

proof fn lemma_channel_bytes_back(ch: ChannelHeader)
    ensures
        ch.bytes().len() == CHANNEL_HEADER_SIZE,
        ch.bytes().subrange(40, 42) == crate::bytes::le16_bytes(ch.format_version),
        ch.bytes()[42] == ch.endianness,
        ch.bytes()[43] == ch.system_header_size,
        ch.bytes().subrange(44, 48) == crate::bytes::le32_bytes(ch.user_header_kind),
        ch.bytes()[48] == ch.user_header_size,
        ch.bytes().subrange(49, 97) == ch.channel_name@,
        ch.bytes().subrange(120, 128) == crate::bytes::le64_bytes(ch.generation),
{
    reveal(ChannelHeader::bytes);
    let b = ch.bytes();
    assert(b.subrange(40, 42) =~= crate::bytes::le16_bytes(ch.format_version));
    assert(b.subrange(44, 48) =~= crate::bytes::le32_bytes(ch.user_header_kind));
    assert(b.subrange(49, 97) =~= ch.channel_name@);
    assert(b.subrange(120, 128) =~= crate::bytes::le64_bytes(ch.generation));
}

/// What was put at `at` is found there.
pub proof fn lemma_put_subrange(s: Seq<u8>, at: int, patch: Seq<u8>, i: int, j: int)
    requires
        0 <= at,
        at + patch.len() <= s.len(),
        0 <= i <= j <= patch.len(),
    ensures
        crate::bytes::put(s, at, patch).subrange(at + i, at + j) == patch.subrange(i, j),
{
    assert(crate::bytes::put(s, at, patch).subrange(at + i, at + j) =~= patch.subrange(i, j));
}

/// A channel header laid down in a segment is the one read there.
pub proof fn law_channel_header_round_trip(s: Seq<u8>, ch: ChannelHeader)
    requires
        FIRST_SLOT <= s.len(),
    ensures
        ch.bytes().len() == CHANNEL_HEADER_SIZE,
        ch.stored_in(crate::bytes::put(s, 16, ch.bytes())),
{
    let b = ch.bytes();
    let t = crate::bytes::put(s, 16, b);
    lemma_channel_bytes_front(ch);
    lemma_channel_bytes_back(ch);
    assert(crate::bytes::le64(t, 16) == ch.write_position) by {
        lemma_put_subrange(s, 16, b, 0, 8);
        crate::bytes::law_le64_round_trip(t, 16, ch.write_position);
    }
    assert(crate::bytes::le64(t, 24) == ch.message_count) by {
        lemma_put_subrange(s, 16, b, 8, 16);
        crate::bytes::law_le64_round_trip(t, 24, ch.message_count);
    }
    assert(crate::bytes::le64(t, 32) == ch.base_record_index) by {
        lemma_put_subrange(s, 16, b, 16, 24);
        crate::bytes::law_le64_round_trip(t, 32, ch.base_record_index);
    }
    assert(crate::bytes::le64(t, 40) == ch.channel_sequence) by {
        lemma_put_subrange(s, 16, b, 24, 32);
        crate::bytes::law_le64_round_trip(t, 40, ch.channel_sequence);
    }
    assert(crate::bytes::le32(t, 48) == ch.region_size) by {
        lemma_put_subrange(s, 16, b, 32, 36);
        crate::bytes::law_le32_round_trip(t, 48, ch.region_size);
    }
    assert(crate::bytes::le32(t, 52) == ch.mtu) by {
        lemma_put_subrange(s, 16, b, 36, 40);
        crate::bytes::law_le32_round_trip(t, 52, ch.mtu);
    }
    assert(crate::bytes::le16(t, 56) == ch.format_version) by {
        lemma_put_subrange(s, 16, b, 40, 42);
        crate::bytes::law_le16_round_trip(t, 56, ch.format_version);
    }
    assert(crate::bytes::le32(t, 60) == ch.user_header_kind) by {
        lemma_put_subrange(s, 16, b, 44, 48);
        crate::bytes::law_le32_round_trip(t, 60, ch.user_header_kind);
    }
    assert(t.subrange(65, 113) == ch.channel_name@) by {
        lemma_put_subrange(s, 16, b, 49, 97);
    }
    assert(crate::bytes::le64(t, 136) == ch.generation) by {
        lemma_put_subrange(s, 16, b, 120, 128);
        crate::bytes::law_le64_round_trip(t, 136, ch.generation);
    }
}

/// Absolute index of the next message of the segment whose region 0 is `region0`.
pub fn next_index(region0: &[u8]) -> (i: u64)
    requires
        FIRST_SLOT <= region0@.len(),
        next_index_at(region0@) <= u64::MAX,
    ensures
        i == next_index_at(region0@),
{
    get_u64(region0, 32) + get_u64(region0, 24)
}

/// Incarnation id of the channel that the segment with region 0 `region0` is of.
pub fn generation_of(region0: &[u8]) -> (g: u64)
    requires
        FIRST_SLOT <= region0@.len(),
    ensures
        g == generation_at(region0@),
{
    get_u64(region0, 136)
}

/// What is wrong with a channel header that says the given things of its segment, if
/// anything: the first of the format rules that it breaks.
pub open spec fn format_fault(
    format_version: u16,
    endianness: u8,
    sizes: (u8, u8),
    user_header_kind: u32,
    region_size: (u32, usize),
    sequence: (u64, u64),
) -> Option<Error> {
    if format_version != FORMAT_VERSION {
        Some(Error::UnsupportedFormatVersion { found: format_version })
    } else if endianness != ENDIANNESS_LE {
        Some(Error::UnsupportedEndianness { found: endianness })
    } else if sizes != (SYSTEM_HEADER_SIZE, USER_HEADER_SIZE) {
        Some(Error::HeaderSizeMismatch { system: sizes.0, user: sizes.1 })
    } else if user_header_kind != USER_HEADER_KIND_DEFAULT {
        Some(Error::UnsupportedUserHeaderKind { found: user_header_kind })
    } else if region_size.0 != region_size.1 {
        Some(Error::RegionSizeMismatch { found: region_size.0, expected: region_size.1 })
    } else if sequence.0 != sequence.1 {
        Some(Error::SequenceMismatch { found: sequence.0, expected: sequence.1 })
    } else {
        None
    }
}

/// What is wrong with a channel header, if anything.
pub open spec fn header_fault(
    ch: ChannelHeader,
    expected_region_size: usize,
    expected_sequence: u64,
) -> Option<Error> {
    format_fault(
        ch.format_version,
        ch.endianness,
        (ch.system_header_size, ch.user_header_size),
        ch.user_header_kind,
        (ch.region_size, expected_region_size),
        (ch.channel_sequence, expected_sequence),
    )
}

/// What is wrong with the channel header of the segment that starts with `s`, if
/// anything.
pub open spec fn segment_fault(s: Seq<u8>, region_size: usize, sequence: u64) -> Option<Error> {
    format_fault(
        crate::bytes::le16(s, 56),
        s[58],
        (s[59], s[64]),
        crate::bytes::le32(s, 60),
        (crate::bytes::le32(s, 48), region_size),
        (crate::bytes::le64(s, 40), sequence),
    )
}

/// Checks a channel header against the format and against the region size and the
/// sequence number that the segment is expected to have.
pub fn validate_channel_header(
    ch: &ChannelHeader,
    expected_region_size: usize,
    expected_sequence: u64,
) -> (r: Result<(), Error>)
    ensures
        match r {
            Ok(_) => header_fault(*ch, expected_region_size, expected_sequence) is None,
            Err(e) => header_fault(*ch, expected_region_size, expected_sequence) == Some(e),
        },
{
    if ch.format_version != FORMAT_VERSION {
        return Err(Error::UnsupportedFormatVersion { found: ch.format_version });
    }
    if ch.endianness != ENDIANNESS_LE {
        return Err(Error::UnsupportedEndianness { found: ch.endianness });
    }
    if ch.system_header_size != SYSTEM_HEADER_SIZE || ch.user_header_size != USER_HEADER_SIZE {
        return Err(
            Error::HeaderSizeMismatch { system: ch.system_header_size, user: ch.user_header_size },
        );
    }
    if ch.user_header_kind != USER_HEADER_KIND_DEFAULT {
        return Err(Error::UnsupportedUserHeaderKind { found: ch.user_header_kind });
    }
    if ch.region_size as usize != expected_region_size {
        return Err(
            Error::RegionSizeMismatch { found: ch.region_size, expected: expected_region_size },
        );
    }
    if ch.channel_sequence != expected_sequence {
        return Err(
            Error::SequenceMismatch { found: ch.channel_sequence, expected: expected_sequence },
        );
    }
    Ok(())
}

} // verus!
