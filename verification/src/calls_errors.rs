//! What errors say of themselves.
use vstd::prelude::*;

use crate::channel::HeaderType;
use crate::error::{Error, ErrorKind};
use crate::text::{decimal_text, hex_text};

verus! {

/// `part` stands somewhere in `text`.
pub open spec fn mentions(text: Seq<char>, part: Seq<char>) -> bool {
    exists|i: int|
        0 <= i <= text.len() - part.len() && #[trigger] text.subrange(i, i + part.len()) == part
}

/// What ends a text stands in it.
proof fn lemma_ending(a: Seq<char>, part: Seq<char>)
    ensures
        mentions(a + part, part),
{
    let i = a.len() as int;
    assert((a + part).subrange(i, i + part.len()) =~= part);
}

/// What stands in a text stands there with more behind it.
proof fn lemma_more(text: Seq<char>, part: Seq<char>, b: Seq<char>)
    requires
        mentions(text, part),
    ensures
        mentions(text + b, part),
{
    let i = choose|i: int|
        0 <= i <= text.len() - part.len() && #[trigger] text.subrange(i, i + part.len()) == part;
    assert((text + b).subrange(i, i + part.len()) =~= text.subrange(i, i + part.len()));
}

/// A number stands between two texts.
proof fn lemma_one(a: Seq<char>, x: Seq<char>, b: Seq<char>)
    ensures
        mentions(a + x + b, x),
{
    lemma_ending(a, x);
    lemma_more(a + x, x, b);
}

/// Two numbers stand among three texts.
proof fn lemma_two(a: Seq<char>, x: Seq<char>, b: Seq<char>, y: Seq<char>, c: Seq<char>)
    ensures
        mentions(a + x + b + y, x),
        mentions(a + x + b + y, y),
        mentions(a + x + b + y + c, x),
        mentions(a + x + b + y + c, y),
{
    lemma_one(a, x, b);
    lemma_more(a + x + b, x, y);
    lemma_ending(a + x + b, y);
    lemma_more(a + x + b + y, x, c);
    lemma_more(a + x + b + y, y, c);
}

/// Three numbers stand among four texts.
proof fn lemma_three(
    a: Seq<char>,
    x: Seq<char>,
    b: Seq<char>,
    y: Seq<char>,
    c: Seq<char>,
    z: Seq<char>,
    d: Seq<char>,
)
    ensures
        mentions(a + x + b + y + c + z + d, x),
        mentions(a + x + b + y + c + z + d, y),
        mentions(a + x + b + y + c + z + d, z),
{
    let t = a + x + b + y + c;
    lemma_two(a, x, b, y, c);
    lemma_more(t, x, z);
    lemma_more(t, y, z);
    lemma_ending(t, z);
    lemma_more(t + z, x, d);
    lemma_more(t + z, y, d);
    lemma_more(t + z, z, d);
}

/// `text` mentions the number `n` in decimal.
pub open spec fn tells(text: Seq<char>, n: int) -> bool {
    mentions(text, decimal_text(n as nat))
}

/// `text` mentions the kind of a record by its name.
pub open spec fn names_kind(text: Seq<char>, kind: HeaderType) -> bool {
    &&& kind is Channel ==> mentions(text, "Channel"@)
    &&& kind is User ==> mentions(text, "User"@)
    &&& kind is Skip ==> mentions(text, "Skip"@)
    &&& kind is Roll ==> mentions(text, "Roll"@)
}

/// The message of an error tells every number and names every kind that the error carries.
pub proof fn law_messages_tell_their_numbers(e: &Error, s: String)
    requires
        call_ensures(Error::message, (e,), s),
    ensures
        match *e {
            Error::UnsupportedFormatVersion { found } => tells(s@, found as int),
            Error::UnsupportedEndianness { found } => mentions(s@, hex_text(found as nat, 2)),
            Error::HeaderSizeMismatch { system, user } => tells(s@, system as int) && tells(
                s@,
                user as int,
            ),
            Error::UnsupportedUserHeaderKind { found } => mentions(s@, hex_text(found as nat, 8)),
            Error::RegionSizeMismatch { found, expected } => tells(s@, found as int) && tells(
                s@,
                expected as int,
            ),
            Error::SequenceMismatch { found, expected } => tells(s@, found as int) && tells(
                s@,
                expected as int,
            ),
            Error::InvalidHeaderType { raw } => tells(s@, raw as int),
            Error::FirstRecordNotChannel { kind } => names_kind(s@, kind),
            Error::UnexpectedStaleHeader { kind } => names_kind(s@, kind),
            Error::BaseDiscontinuity { sequence, found, expected } => tells(
                s@,
                sequence as int,
            ) && tells(s@, found as int) && tells(s@, expected as int),
            Error::GenerationMismatch { sequence, found, expected } => tells(
                s@,
                sequence as int,
            ) && tells(s@, found as int) && tells(s@, expected as int),
            Error::InvalidWritePosition { position } => tells(s@, position as int),
            Error::ChannelNameTooLong { len } => tells(s@, len as int),
            Error::RollSizeBelowTwoRegions { file_roll_size, minimum } => tells(
                s@,
                file_roll_size as int,
            ) && tells(s@, minimum as int),
            Error::RollSizeOverflow { file_roll_size, region_size } => tells(
                s@,
                file_roll_size as int,
            ) && tells(s@, region_size as int),
            Error::RollSizePastOffsetLimit { file_roll_size, len } => tells(
                s@,
                file_roll_size as int,
            ) && tells(s@, len as int),
            Error::RegionNotPageMultiple { region_size, page } => tells(s@, region_size as int)
                && tells(s@, page as int),
            Error::OffsetNotPageAligned { base_offset, page } => tells(s@, base_offset as int)
                && tells(s@, page as int),
            Error::RegionNotAligned { region_size } => tells(s@, region_size as int),
            Error::RegionTooSmall { region_size } => tells(s@, region_size as int),
            Error::ReservationExceedsRegion { msg_size, region_size, needed } => tells(
                s@,
                msg_size as int,
            ) && tells(s@, region_size as int) && tells(s@, needed as int),
            Error::ReservationExceedsFile { msg_size, file_roll_size, needed } => tells(
                s@,
                msg_size as int,
            ) && tells(s@, file_roll_size as int) && tells(s@, needed as int),
            Error::CommitExceedsReservation { length, reserved } => tells(s@, length as int)
                && tells(s@, reserved as int),
            Error::SourceTooSmall { len } => tells(s@, len as int),
            Error::SourceNotChannel { raw } => tells(s@, raw as int),
            Error::SourceRecordLength { found } => tells(s@, found as int),
            Error::SourceNotV2 { probe } => tells(s@, probe as int),
            _ => true,
        },
{
    match *e {
        Error::UnsupportedFormatVersion { found } => {
            lemma_one(
                "unsupported format_version "@,
                decimal_text(found as nat),
                " (this build expects 3)"@,
            );
        },
        Error::UnsupportedEndianness { found } => {
            lemma_one(
                "unsupported endianness 0x"@,
                hex_text(found as nat, 2),
                " (this build expects 0x01)"@,
            );
        },
        Error::HeaderSizeMismatch { system, user } => {
            lemma_two(
                "header-size mismatch: file=("@,
                decimal_text(system as nat),
                "/"@,
                decimal_text(user as nat),
                ") build=(8/8)"@,
            );
        },
        Error::UnsupportedUserHeaderKind { found } => {
            lemma_one(
                "unsupported user_header_kind 0x"@,
                hex_text(found as nat, 8),
                " (this build only reads 0x00000000)"@,
            );
        },
        Error::RegionSizeMismatch { found, expected } => {
            lemma_two(
                "region_size mismatch: file="@,
                decimal_text(found as nat),
                " expected="@,
                decimal_text(expected as nat),
                ""@,
            );
        },
        Error::SequenceMismatch { found, expected } => {
            lemma_two(
                "channel_sequence mismatch: header="@,
                decimal_text(found as nat),
                " but file is at sequence "@,
                decimal_text(expected as nat),
                " (renamed, misplaced, or swapped segment file?)"@,
            );
        },
        Error::InvalidHeaderType { raw } => {
            lemma_ending("invalid header_type: "@, decimal_text(raw as nat));
        },
        Error::FirstRecordNotChannel { kind } => {
            lemma_one(
                "file has first "@,
                crate::error::kind_name(kind),
                ", expected Channel header"@,
            );
        },
        Error::UnexpectedStaleHeader { kind } => {
            lemma_one(
                "crashed writer: unexpected header_type "@,
                crate::error::kind_name(kind),
                " at write_position slot; clean up the channel files and start fresh"@,
            );
        },
        Error::BaseDiscontinuity { sequence, found, expected } => {
            lemma_three(
                "base_record_index discontinuity: segment "@,
                decimal_text(sequence as nat),
                " starts at "@,
                decimal_text(found as nat),
                " but the previous segment ends at "@,
                decimal_text(expected as nat),
                " (segments from a different series?)"@,
            );
        },
        Error::GenerationMismatch { sequence, found, expected } => {
            lemma_three(
                "generation mismatch: segment "@,
                decimal_text(sequence as nat),
                " has generation "@,
                decimal_text(found as nat),
                " but the channel is "@,
                decimal_text(expected as nat),
                " (segments from a different incarnation of this path?)"@,
            );
        },
        Error::InvalidWritePosition { position } => {
            lemma_one(
                "write_position "@,
                decimal_text(position as nat),
                " does not lead to a header slot"@,
            );
        },
        Error::ChannelNameTooLong { len } => {
            lemma_one("channel_name is "@, decimal_text(len as nat), " bytes; max is 48"@);
        },
        Error::RollSizeBelowTwoRegions { file_roll_size, minimum } => {
            lemma_two(
                "file_roll_size "@,
                decimal_text(file_roll_size as nat),
                " must be 0 or span at least two regions (2 * region_size = "@,
                decimal_text(minimum as nat),
                ")"@,
            );
        },
        Error::RollSizeOverflow { file_roll_size, region_size } => {
            lemma_two(
                "file_roll_size "@,
                decimal_text(file_roll_size as nat),
                " cannot be rounded up to a region_size "@,
                decimal_text(region_size as nat),
                " multiple without overflowing u64"@,
            );
        },
        Error::RollSizePastOffsetLimit { file_roll_size, len } => {
            lemma_two(
                "file_roll_size "@,
                decimal_text(file_roll_size as nat),
                " (region-aligned to "@,
                decimal_text(len as nat),
                ") exceeds the max file offset i64::MAX; use 0 to disable rolling"@,
            );
        },
        Error::RegionNotPageMultiple { region_size, page } => {
            lemma_two(
                "region_size ("@,
                decimal_text(region_size as nat),
                ") must be a multiple of OS page size ("@,
                decimal_text(page as nat),
                ")"@,
            );
        },
        Error::OffsetNotPageAligned { base_offset, page } => {
            lemma_two(
                "base_offset ("@,
                decimal_text(base_offset as nat),
                ") must be page-aligned (page="@,
                decimal_text(page as nat),
                ")"@,
            );
        },
        Error::RegionNotAligned { region_size } => {
            lemma_one(
                "region_size ("@,
                decimal_text(region_size as nat),
                ") must be a multiple of header alignment (8)"@,
            );
        },
        Error::RegionTooSmall { region_size } => {
            lemma_one(
                "region_size ("@,
                decimal_text(region_size as nat),
                ") must be >= header space (144)"@,
            );
        },
        Error::ReservationExceedsRegion { msg_size, region_size, needed } => {
            lemma_three(
                "reservation size "@,
                decimal_text(msg_size as nat),
                " cannot fit in region_size "@,
                decimal_text(region_size as nat),
                " (needs "@,
                decimal_text(needed as nat),
                " bytes including header + padding + next-header slot)"@,
            );
        },
        Error::ReservationExceedsFile { msg_size, file_roll_size, needed } => {
            lemma_three(
                "reservation size "@,
                decimal_text(msg_size as nat),
                " cannot fit in file_roll_size "@,
                decimal_text(file_roll_size as nat),
                " (needs "@,
                decimal_text(needed as nat),
                " bytes)"@,
            );
        },
        Error::CommitExceedsReservation { length, reserved } => {
            lemma_two(
                "commit length "@,
                decimal_text(length as nat),
                " exceeds try_reserve size "@,
                decimal_text(reserved as nat),
                ""@,
            );
        },
        Error::SourceTooSmall { len } => {
            lemma_one(
                "source too small to be a channel file ("@,
                decimal_text(len as nat),
                " bytes)"@,
            );
        },
        Error::SourceNotChannel { raw } => {
            lemma_one(
                "source: first record header_type is "@,
                decimal_text(raw as nat),
                " (expected Channel=0)"@,
            );
        },
        Error::SourceRecordLength { found } => {
            lemma_one(
                "source: Channel record length is "@,
                decimal_text(found as nat),
                " (expected 64)"@,
            );
        },
        Error::SourceNotV2 { probe } => {
            lemma_one(
                "source does not look like v2 (format_version probe = "@,
                decimal_text(probe as nat),
                "); only v2 -> v3 migration is supported"@,
            );
        },
        _ => {},
    }
}

/// Where an error is about a file or a channel, its message goes on with the path; any
/// other message is the same with a path as without.
pub proof fn law_messages_tell_their_path(e: &Error, path: &str, s: String, at: String)
    requires
        call_ensures(Error::message, (e,), s),
        call_ensures(Error::message_at, (e, path), at),
    ensures
        at@.len() >= s@.len(),
        at@.subrange(0, s@.len() as int) == s@,
        e is SourceTooSmall || e is NoChannelFiles || e is DestinationExists
            || e is DestinationOccupied ==> {
            &&& at@.len() > s@.len() + path@.len()
            &&& at@.subrange(at@.len() - path@.len(), at@.len() as int) == path@
        },
        !(e is SourceTooSmall || e is NoChannelFiles || e is DestinationExists
            || e is DestinationOccupied) ==> at@ == s@,
{
    reveal_strlit(": ");
    reveal_strlit(" ");
    assert(at@.subrange(0, s@.len() as int) =~= s@);
    if e is SourceTooSmall || e is NoChannelFiles || e is DestinationExists
        || e is DestinationOccupied {
        assert(at@.subrange(at@.len() - path@.len(), at@.len() as int) =~= path@);
    }
}

/// Settings that cannot be had are invalid input; what is missing is not found; what is in
/// the way already exists; a writer that is misused, and a next segment that is none, fall
/// under none of these; and all else is invalid data.
pub proof fn law_kinds_of_errors(e: &Error, k: ErrorKind)
    requires
        call_ensures(Error::kind, (e,), k),
    ensures
        k is InvalidInput <==> {
            ||| e is ChannelNameTooLong
            ||| e is RollSizeBelowTwoRegions
            ||| e is RollSizeOverflow
            ||| e is RollSizePastOffsetLimit
            ||| e is RegionSizeZero
            ||| e is RegionNotPageMultiple
            ||| e is OffsetNotPageAligned
            ||| e is RegionNotAligned
            ||| e is RegionTooSmall
            ||| e is RegionTooLarge
        },
        k is NotFound <==> e is NoChannelFiles,
        k is AlreadyExists <==> e is DestinationExists || e is DestinationOccupied,
        k is Other <==> {
            ||| e is NextSegmentNotChannel
            ||| e is MtuExceeded
            ||| e is ReservationExceedsRegion
            ||| e is ReservationExceedsFile
            ||| e is CommitWithoutReserve
            ||| e is CommitExceedsReservation
            ||| e is FirstHeaderOutside
        },
{
}

} // verus!
