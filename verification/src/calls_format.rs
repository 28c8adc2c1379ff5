//! What the calls that read and write the wire format come to, said byte by byte.
//!
//! Each law takes a call of the named operation with its arguments and its result, and
//! says what holds between them.
use vstd::prelude::*;

use crate::bytes::{
    get_u16, get_u32, get_u64, le16, le32, le64, put_u16, put_u32, put_u64,
};
use crate::channel::{
    generation_of, header_at, next_index, validate_channel_header, verify_preinstall_signature,
    ChannelHeader, HeaderType, MessageHeader,
};
use crate::error::Error;
use crate::migrate::migrate_file_v2_to_v3;

verus! {

broadcast use {crate::bytes::group_le_len, crate::channel::group_header_len};

/// Two regions differ at most in the `n` bytes from `at` on.
pub open spec fn same_but(a: Seq<u8>, b: Seq<u8>, at: int, n: int) -> bool {
    &&& a.len() == b.len()
    &&& forall|i: int| 0 <= i < a.len() && !(at <= i < at + n) ==> a[i] == b[i]
}

/// A header that waits for its record: not committed, of a message, and empty.
pub open spec fn is_free(h: MessageHeader) -> bool {
    &&& h.committed == 0
    &&& h.header_type == 1
    &&& h.message_type == 0
    &&& h.length == 0
    &&& h.user_meta_u64 == 0
}

/// Integers are little-endian: every byte weighs 256 times the one before it.
pub proof fn law_bytes_weigh(s: Seq<u8>, at: int)
    ensures
        le16(s, at) == s[at] + 256 * s[at + 1],
        le32(s, at) == s[at] + 256 * s[at + 1] + 65536 * s[at + 2] + 16777216 * s[at + 3],
        le64(s, at) == s[at] + 256 * s[at + 1] + 65536 * s[at + 2] + 16777216 * s[at + 3]
            + 4294967296 * (s[at + 4] + 256 * s[at + 5] + 65536 * s[at + 6] + 16777216 * s[at
            + 7]),
{
    reveal(le16);
    reveal(le32);
    reveal(le64);
}

/// An integer is read from its own bytes.
pub proof fn law_integers_are_read(b: &[u8], at: usize, x: u16, y: u32, z: u64)
    requires
        call_ensures(get_u16, (b, at), x),
        call_ensures(get_u32, (b, at), y),
        call_ensures(get_u64, (b, at), z),
    ensures
        ({
            let s = b@;
            let i = at as int;
            &&& x == s[i] + 256 * s[i + 1]
            &&& y == s[i] + 256 * s[i + 1] + 65536 * s[i + 2] + 16777216 * s[i + 3]
            &&& z == s[i] + 256 * s[i + 1] + 65536 * s[i + 2] + 16777216 * s[i + 3]
                + 4294967296 * (s[i + 4] + 256 * s[i + 5] + 65536 * s[i + 6] + 16777216 * s[i
                + 7])
        }),
{
    law_bytes_weigh(b@, at as int);
}

/// A stored integer is the one that is read there, and no byte beside it changes.
pub proof fn law_integers_are_stored(
    a: &mut [u8],
    b: &mut [u8],
    c: &mut [u8],
    at: usize,
    x: u16,
    y: u32,
    z: u64,
)
    requires
        at + 2 <= old(a)@.len(),
        at + 4 <= old(b)@.len(),
        at + 8 <= old(c)@.len(),
        call_ensures(put_u16, (a, at, x), ()),
        call_ensures(put_u32, (b, at, y), ()),
        call_ensures(put_u64, (c, at, z), ()),
    ensures
        le16(final(a)@, at as int) == x,
        same_but(old(a)@, final(a)@, at as int, 2),
        le32(final(b)@, at as int) == y,
        same_but(old(b)@, final(b)@, at as int, 4),
        le64(final(c)@, at as int) == z,
        same_but(old(c)@, final(c)@, at as int, 8),
{
    let i = at as int;
    assert(final(a)@.subrange(i, i + 2) =~= crate::bytes::le16_bytes(x));
    assert(final(b)@.subrange(i, i + 4) =~= crate::bytes::le32_bytes(y));
    assert(final(c)@.subrange(i, i + 8) =~= crate::bytes::le64_bytes(z));
    crate::bytes::law_le16_round_trip(final(a)@, i, x);
    crate::bytes::law_le32_round_trip(final(b)@, i, y);
    crate::bytes::law_le64_round_trip(final(c)@, i, z);
}

/// A record's header is read from its sixteen bytes: the flag, the kind, the type, the
/// length and the metadata.
pub proof fn law_header_is_read(region: &[u8], off: usize, h: MessageHeader)
    requires
        call_ensures(MessageHeader::read, (region, off), h),
    ensures
        h.committed == region@[off as int],
        h.header_type == region@[off + 1],
        h.message_type == le16(region@, off + 2),
        h.length == le32(region@, off + 4),
        h.user_meta_u64 == le64(region@, off + 8),
        h == header_at(region@, off as int),
{
}

/// A header that is laid down is the one that is read there, no byte beside it changes,
/// and publishing it sets its first byte to one and changes no other.
pub proof fn law_header_is_stored(
    h: &MessageHeader,
    a: &mut [u8],
    b: &mut [u8],
    off: usize,
)
    requires
        off + 16 <= old(a)@.len(),
        off < old(b)@.len(),
        call_ensures(MessageHeader::write, (h, a, off), ()),
        call_ensures(MessageHeader::commit, (b, off), ()),
    ensures
        header_at(final(a)@, off as int) == *h,
        same_but(old(a)@, final(a)@, off as int, 16),
        final(b)@[off as int] == 1,
        same_but(old(b)@, final(b)@, off as int, 1),
{
    crate::channel::law_message_header_round_trip(old(a)@, off as int, *h);
}

/// There are four kinds of record, and each has its byte.
pub proof fn law_kinds_have_bytes(
    kind: HeaderType,
    c: u8,
    raw: u8,
    r: Result<HeaderType, Error>,
    h: &MessageHeader,
    q: Result<HeaderType, Error>,
)
    requires
        call_ensures(HeaderType::code, (kind,), c),
        call_ensures(HeaderType::from_raw, (raw,), r),
        call_ensures(MessageHeader::parsed_header_type, (h,), q),
    ensures
        kind is Channel <==> c == 0,
        kind is User <==> c == 1,
        kind is Skip <==> c == 2,
        kind is Roll <==> c == 3,
        r == Ok::<HeaderType, Error>(kind) <==> raw == c,
        r is Err <==> raw > 3,
        r matches Err(e) ==> e == (Error::InvalidHeaderType { raw }),
        raw == h.header_type ==> q == r,
{
}

/// A record is published where its flag is one, not published where it is zero, and makes
/// no sense otherwise. A slot that waits for its record is not published, is of a message
/// and is empty, and only such a slot passes for one.
pub proof fn law_flags_and_free_slots(
    h: &MessageHeader,
    published: Result<bool, Error>,
    free: MessageHeader,
    r: Result<(), Error>,
)
    requires
        call_ensures(MessageHeader::is_committed, (h,), published),
        call_ensures(MessageHeader::preinstalled, (), free),
        call_ensures(verify_preinstall_signature, (h,), r),
    ensures
        published == Ok::<bool, Error>(true) <==> h.committed == 1,
        published == Ok::<bool, Error>(false) <==> h.committed == 0,
        published == Err::<bool, Error>(Error::InvalidCommittedFlag) <==> h.committed > 1,
        is_free(free),
        r is Ok <==> is_free(*h),
        h.committed == 1 ==> r == Err::<(), Error>(Error::AdvancedSlotCommitted),
        h.committed > 1 ==> r == Err::<(), Error>(Error::InvalidCommittedFlag),
        h.committed == 0 && !is_free(*h) ==> r == Err::<(), Error>(
            Error::AdvancedSlotNotPreinstalled,
        ),
{
}

/// The fields of a channel header stand at their places in the segment.
pub open spec fn fields_at(ch: ChannelHeader, s: Seq<u8>) -> bool {
    &&& ch.write_position == le64(s, 16)
    &&& ch.message_count == le64(s, 24)
    &&& ch.base_record_index == le64(s, 32)
    &&& ch.channel_sequence == le64(s, 40)
    &&& ch.region_size == le32(s, 48)
    &&& ch.mtu == le32(s, 52)
    &&& ch.format_version == le16(s, 56)
    &&& ch.endianness == s[58]
    &&& ch.system_header_size == s[59]
    &&& ch.user_header_kind == le32(s, 60)
    &&& ch.user_header_size == s[64]
    &&& ch.channel_name@ == s.subrange(65, 113)
    &&& ch.generation == le64(s, 136)
}

/// The reserved bytes of a channel header are zero.
proof fn lemma_reserved(ch: ChannelHeader)
    ensures
        ch.bytes().len() == 128,
        forall|i: int| 97 <= i < 120 ==> ch.bytes()[i] == 0,
{
    reveal(ChannelHeader::bytes);
}

/// A channel header is read from its places, is read back where it was laid down, fills
/// its reserved bytes with zero and touches no byte outside its own.
pub proof fn law_channel_header_is_stored(
    page: &[u8],
    read: ChannelHeader,
    ch: &ChannelHeader,
    r: &mut [u8],
)
    requires
        144 <= old(r)@.len(),
        call_ensures(ChannelHeader::read, (page,), read),
        call_ensures(ChannelHeader::write, (ch, r), ()),
    ensures
        fields_at(read, page@),
        fields_at(*ch, final(r)@),
        forall|i: int| 113 <= i < 136 ==> final(r)@[i] == 0,
        same_but(old(r)@, final(r)@, 16, 128),
{
    crate::channel::law_channel_header_round_trip(old(r)@, *ch);
    lemma_reserved(*ch);
}

/// A channel header is valid for a segment with the given region size and place.
pub open spec fn header_valid(ch: ChannelHeader, region_size: usize, sequence: u64) -> bool {
    &&& ch.format_version == 3
    &&& ch.endianness == 1
    &&& ch.system_header_size == 8
    &&& ch.user_header_size == 8
    &&& ch.user_header_kind == 0
    &&& ch.region_size == region_size
    &&& ch.channel_sequence == sequence
}

/// A channel header is valid exactly when it has the wire version 3, little-endian
/// framing, two header halves of 8 bytes, the one layout of user bytes there is, and the
/// region size and the sequence number that are expected. What it says of its messages,
/// its name and its numbering is not judged.
pub proof fn law_validation(
    ch: &ChannelHeader,
    region_size: usize,
    sequence: u64,
    r: Result<(), Error>,
)
    requires
        call_ensures(validate_channel_header, (ch, region_size, sequence), r),
    ensures
        r is Ok <==> header_valid(*ch, region_size, sequence),
        r matches Err(e) ==> header_error(*ch, region_size, sequence, e),
{
}

/// The error that is told of a channel header: the first thing that is wrong with it.
pub open spec fn header_error(
    ch: ChannelHeader,
    region_size: usize,
    sequence: u64,
    e: Error,
) -> bool {
    match e {
        Error::UnsupportedFormatVersion { found } => found == ch.format_version && found != 3,
        Error::UnsupportedEndianness { found } => {
            &&& ch.format_version == 3
            &&& found == ch.endianness
            &&& found != 1
        },
        Error::HeaderSizeMismatch { system, user } => {
            &&& ch.format_version == 3 && ch.endianness == 1
            &&& system == ch.system_header_size
            &&& user == ch.user_header_size
            &&& system != 8 || user != 8
        },
        Error::UnsupportedUserHeaderKind { found } => {
            &&& ch.format_version == 3 && ch.endianness == 1
            &&& ch.system_header_size == 8 && ch.user_header_size == 8
            &&& found == ch.user_header_kind
            &&& found != 0
        },
        Error::RegionSizeMismatch { found, expected } => {
            &&& ch.format_version == 3 && ch.endianness == 1
            &&& ch.system_header_size == 8 && ch.user_header_size == 8
            &&& ch.user_header_kind == 0
            &&& found == ch.region_size
            &&& expected == region_size
            &&& found != expected
        },
        Error::SequenceMismatch { found, expected } => {
            &&& ch.format_version == 3 && ch.endianness == 1
            &&& ch.system_header_size == 8 && ch.user_header_size == 8
            &&& ch.user_header_kind == 0
            &&& ch.region_size == region_size
            &&& found == ch.channel_sequence
            &&& expected == sequence
            &&& found != expected
        },
        _ => false,
    }
}

/// The next message is numbered by the base and the count of its segment, and a segment
/// is of the incarnation that it says.
pub proof fn law_numbering(region0: &[u8], i: u64, g: u64)
    requires
        call_ensures(next_index, (region0,), i),
        call_ensures(generation_of, (region0,), g),
    ensures
        i == le64(region0@, 32) + le64(region0@, 24),
        g == le64(region0@, 136),
{
}

/// Every file of the old format is migrated, and no other file: one of 80 bytes or more
/// that begins with a published Channel record of 64 bytes, has no wire version at byte 48
/// and has a region size at byte 40 that is not zero. An existing destination is left
/// alone.
pub proof fn law_old_files_are_migrated(
    len: u64,
    dst_exists: bool,
    prefix: &mut [u8],
    r: Result<(), Error>,
)
    requires
        len >= 80 ==> old(prefix)@.len() == 80,
        call_ensures(migrate_file_v2_to_v3, (len, dst_exists, prefix), r),
    ensures
        ({
            let p = old(prefix)@;
            r is Ok <==> {
                &&& !dst_exists
                &&& len >= 80
                &&& p[0] == 1 && p[1] == 0
                &&& p[4] == 64 && p[5] == 0 && p[6] == 0 && p[7] == 0
                &&& p[40] != 0 || p[41] != 0 || p[42] != 0 || p[43] != 0
                &&& p[48] == 0 && p[49] == 0
            }
        }),
        r is Err ==> final(prefix)@ == old(prefix)@,
        r matches Err(e) ==> migration_error(len, dst_exists, old(prefix)@, e),
{
    let p = old(prefix)@;
    law_bytes_weigh(p, 4);
    law_bytes_weigh(p, 40);
    law_bytes_weigh(p, 48);
    law_bytes_weigh(p, 56);
}

/// The error that is told of a file that is not migrated.
pub open spec fn migration_error(len: u64, dst_exists: bool, p: Seq<u8>, e: Error) -> bool {
    let version = p[48] + 256 * p[49];
    let current = p[56] + 256 * p[57];
    let length = p[4] + 256 * p[5] + 65536 * p[6] + 16777216 * p[7];
    if dst_exists {
        e == Error::DestinationExists
    } else if len < 80 {
        e == (Error::SourceTooSmall { len })
    } else if p[0] != 1 {
        e == Error::SourceNotCommitted
    } else if p[1] != 0 {
        e == (Error::SourceNotChannel { raw: p[1] })
    } else if version != 0 {
        e == (Error::SourceNotV2 { probe: version as u16 })
    } else if length == 128 && current != 0 {
        e == (Error::SourceNotV2 { probe: current as u16 })
    } else if length != 64 {
        e == (Error::SourceRecordLength { found: length as u32 })
    } else {
        e == Error::SourceRegionSizeZero
    }
}

/// Migration keeps the first 48 bytes, writes the wire version 1 with its framing and
/// header sizes into the next twelve, and keeps the first twenty bytes of the name behind
/// them.
pub proof fn law_migrated_bytes(len: u64, prefix: &mut [u8])
    requires
        old(prefix)@.len() == 80,
        call_ensures(migrate_file_v2_to_v3, (len, false, prefix), Ok::<(), Error>(())),
    ensures
        final(prefix)@.len() == 80,
        forall|i: int| 0 <= i < 48 ==> final(prefix)@[i] == old(prefix)@[i],
        final(prefix)@[48] == 1 && final(prefix)@[49] == 0,
        final(prefix)@[50] == 1,
        final(prefix)@[51] == 8 && final(prefix)@[52] == 8,
        forall|i: int| 53 <= i < 60 ==> final(prefix)@[i] == 0,
        forall|i: int| 60 <= i < 80 ==> final(prefix)@[i] == old(prefix)@[i - 12],
{
    reveal(crate::bytes::le16_bytes);
    reveal(crate::bytes::le32_bytes);
    let half = crate::migrate::migrated_half(old(prefix)@.subrange(48, 80));
    assert(half.len() == 32);
    assert(forall|i: int| 48 <= i < 80 ==> final(prefix)@[i] == half[i - 48]);
}

} // verus!
