//! What can go wrong, with its kind and its message.
use vstd::prelude::*;

use crate::channel::HeaderType;
use crate::text::{decimal, hex};

verus! {

/// The broad class of an [`Error`].
#[derive(Debug, Clone, Copy, PartialEq, Eq, Structural)]
pub enum ErrorKind {
    /// What was read breaks the channel format.
    InvalidData,
    /// A parameter is not acceptable.
    InvalidInput,
    /// Something that was asked for is not there.
    NotFound,
    /// Something that was to be made is there already.
    AlreadyExists,
    /// Anything else.
    Other,
}

/// Why an operation on a channel was refused.
#[allow(inconsistent_fields)]
#[derive(Debug, Clone, Copy, PartialEq, Eq, Structural)]
pub enum Error {
    /// The segment was written in another wire version.
    UnsupportedFormatVersion { found: u16 },
    /// The segment is not framed little-endian.
    UnsupportedEndianness { found: u8 },
    /// The message header is split differently.
    HeaderSizeMismatch { system: u8, user: u8 },
    /// The user-owned header bytes have an unknown layout.
    UnsupportedUserHeaderKind { found: u32 },
    /// The segment has another region size.
    RegionSizeMismatch { found: u32, expected: usize },
    /// The segment's header names another position in the series.
    SequenceMismatch { found: u64, expected: u64 },
    /// A commit flag is neither 0 nor 1.
    InvalidCommittedFlag,
    /// A record kind is not one of the four known ones.
    InvalidHeaderType { raw: u8 },
    /// A segment does not begin with its channel header.
    FirstRecordNotChannel { kind: HeaderType },
    /// The newest segment does not begin with its channel header.
    LatestSegmentNotChannel,
    /// The segment after a roll does not begin with its channel header.
    NextSegmentNotChannel,
    /// The segment after a roll does not continue the record numbering.
    BaseDiscontinuity { sequence: u64, found: u64, expected: u64 },
    /// The segment after a roll belongs to another incarnation of the channel.
    GenerationMismatch { sequence: u64, found: u64, expected: u64 },
    /// Recovery stepped over one record and met another committed one.
    AdvancedSlotCommitted,
    /// Recovery stepped over one record and met no pre-installed slot.
    AdvancedSlotNotPreinstalled,
    /// The record to step over leaves no slot in its region.
    RecoveryCrossesRegion,
    /// The Skip to step over does not end with its region.
    SkipNotAligned,
    /// The Skip to step over leads out of the file.
    SkipPastEnd,
    /// The committed record at the write position is no User or Skip record.
    UnexpectedStaleHeader { kind: HeaderType },
    /// The stored write position leads to no header slot.
    InvalidWritePosition { position: u64 },
    /// A channel name does not fit its header field.
    ChannelNameTooLong { len: usize },
    /// A roll size that is not zero holds fewer than two regions.
    RollSizeBelowTwoRegions { file_roll_size: u64, minimum: u64 },
    /// A roll size cannot be rounded up to whole regions.
    RollSizeOverflow { file_roll_size: u64, region_size: usize },
    /// A rounded roll size is no file offset.
    RollSizePastOffsetLimit { file_roll_size: u64, len: u64 },
    /// A region has no bytes.
    RegionSizeZero,
    /// A region does not consist of whole pages.
    RegionNotPageMultiple { region_size: usize, page: usize },
    /// A region does not start on a page.
    OffsetNotPageAligned { base_offset: u64, page: usize },
    /// A region does not consist of whole header alignments.
    RegionNotAligned { region_size: usize },
    /// A region cannot hold the channel header.
    RegionTooSmall { region_size: usize },
    /// A region size does not fit its header field.
    RegionTooLarge,
    /// A reservation is larger than the channel's MTU.
    MtuExceeded,
    /// A reservation fits in no region.
    ReservationExceedsRegion { msg_size: usize, region_size: usize, needed: usize },
    /// A reservation fits in no segment.
    ReservationExceedsFile { msg_size: usize, file_roll_size: u64, needed: usize },
    /// There is no reservation to commit.
    CommitWithoutReserve,
    /// A commit is longer than its reservation.
    CommitExceedsReservation { length: u32, reserved: usize },
    /// A region has no room for its first record header.
    FirstHeaderOutside,
    /// A read position leaves no room for a record header in its region.
    BoundaryHole,
    /// A record is longer than what is left of its region.
    PayloadPastRegion,
    /// A record met by a batch scan is longer than what is left of its region.
    BatchPayloadPastRegion,
    /// A batch scan came to an offset with no room for a header.
    BatchInvalidSlot,
    /// A batch scan asked for a region behind the one it has mapped.
    BatchMovedBackward,
    /// A file to migrate does not hold a channel header.
    SourceTooSmall { len: u64 },
    /// A file to migrate begins with an uncommitted record.
    SourceNotCommitted,
    /// A file to migrate does not begin with a channel header.
    SourceNotChannel { raw: u8 },
    /// A file to migrate has a channel header of another length.
    SourceRecordLength { found: u32 },
    /// A file to migrate already carries a wire version.
    SourceNotV2 { probe: u16 },
    /// A file to migrate has regions without bytes.
    SourceRegionSizeZero,
    /// There is no channel to migrate.
    NoChannelFiles,
    /// There is a file already where one is to be migrated to.
    DestinationExists,
    /// There is a channel already where one is to be migrated to.
    DestinationOccupied,
}

/// The name of a record kind.
pub open spec fn kind_name(kind: HeaderType) -> Seq<char> {
    match kind {
        HeaderType::Channel => "Channel"@,
        HeaderType::User => "User"@,
        HeaderType::Skip => "Skip"@,
        HeaderType::Roll => "Roll"@,
    }
}

fn kind_str(kind: HeaderType) -> (s: &'static str)
    ensures
        s@ == kind_name(kind),
{
    match kind {
        HeaderType::Channel => "Channel",
        HeaderType::User => "User",
        HeaderType::Skip => "Skip",
        HeaderType::Roll => "Roll",
    }
}

impl Error {
    /// The class of this error.
    pub open spec fn spec_kind(self) -> ErrorKind {
        match self {
            Error::ChannelNameTooLong { .. } => ErrorKind::InvalidInput,
            Error::RollSizeBelowTwoRegions { .. } => ErrorKind::InvalidInput,
            Error::RollSizeOverflow { .. } => ErrorKind::InvalidInput,
            Error::RollSizePastOffsetLimit { .. } => ErrorKind::InvalidInput,
            Error::RegionSizeZero => ErrorKind::InvalidInput,
            Error::RegionNotPageMultiple { .. } => ErrorKind::InvalidInput,
            Error::OffsetNotPageAligned { .. } => ErrorKind::InvalidInput,
            Error::RegionNotAligned { .. } => ErrorKind::InvalidInput,
            Error::RegionTooSmall { .. } => ErrorKind::InvalidInput,
            Error::RegionTooLarge => ErrorKind::InvalidInput,
            Error::NoChannelFiles => ErrorKind::NotFound,
            Error::DestinationExists => ErrorKind::AlreadyExists,
            Error::DestinationOccupied => ErrorKind::AlreadyExists,
            Error::NextSegmentNotChannel => ErrorKind::Other,
            Error::MtuExceeded => ErrorKind::Other,
            Error::ReservationExceedsRegion { .. } => ErrorKind::Other,
            Error::ReservationExceedsFile { .. } => ErrorKind::Other,
            Error::CommitWithoutReserve => ErrorKind::Other,
            Error::CommitExceedsReservation { .. } => ErrorKind::Other,
            Error::FirstHeaderOutside => ErrorKind::Other,
            _ => ErrorKind::InvalidData,
        }
    }

    /// What this error says.
    pub open spec fn text(self) -> Seq<char> {
        match self {
            Error::UnsupportedFormatVersion { found } => "unsupported format_version "@
                + crate::text::decimal_text(found as nat)
                + " (this build expects 3)"@,
            Error::UnsupportedEndianness { found } => "unsupported endianness 0x"@
                + crate::text::hex_text(found as nat, 2)
                + " (this build expects 0x01)"@,
            Error::HeaderSizeMismatch { system, user } => "header-size mismatch: file=("@
                + crate::text::decimal_text(system as nat)
                + "/"@
                + crate::text::decimal_text(user as nat)
                + ") build=(8/8)"@,
            Error::UnsupportedUserHeaderKind { found } => "unsupported user_header_kind 0x"@
                + crate::text::hex_text(found as nat, 8)
                + " (this build only reads 0x00000000)"@,
            Error::RegionSizeMismatch { found, expected } => "region_size mismatch: file="@
                + crate::text::decimal_text(found as nat)
                + " expected="@
                + crate::text::decimal_text(expected as nat),
            Error::SequenceMismatch { found, expected } => "channel_sequence mismatch: header="@
                + crate::text::decimal_text(found as nat)
                + " but file is at sequence "@
                + crate::text::decimal_text(expected as nat)
                + " (renamed, misplaced, or swapped segment file?)"@,
            Error::InvalidCommittedFlag => "invalid committed flag"@,
            Error::InvalidHeaderType { raw } => "invalid header_type: "@
                + crate::text::decimal_text(raw as nat),
            Error::FirstRecordNotChannel { kind } => "file has first "@
                + kind_name(kind)
                + ", expected Channel header"@,
            Error::LatestSegmentNotChannel => "head_record_index: latest segment does not begin with a Channel header"@,
            Error::NextSegmentNotChannel => "next file missing Channel header"@,
            Error::BaseDiscontinuity { sequence, found, expected } => "base_record_index discontinuity: segment "@
                + crate::text::decimal_text(sequence as nat)
                + " starts at "@
                + crate::text::decimal_text(found as nat)
                + " but the previous segment ends at "@
                + crate::text::decimal_text(expected as nat)
                + " (segments from a different series?)"@,
            Error::GenerationMismatch { sequence, found, expected } => "generation mismatch: segment "@
                + crate::text::decimal_text(sequence as nat)
                + " has generation "@
                + crate::text::decimal_text(found as nat)
                + " but the channel is "@
                + crate::text::decimal_text(expected as nat)
                + " (segments from a different incarnation of this path?)"@,
            Error::AdvancedSlotCommitted => "crashed writer recovery: advanced slot is committed (multi-record publish_wp lag, unsupported)"@,
            Error::AdvancedSlotNotPreinstalled => "crashed writer recovery: advanced slot is not a pre-installed header"@,
            Error::RecoveryCrossesRegion => "crashed writer: User-record recovery would cross region boundary; clean up the channel files and start fresh"@,
            Error::SkipNotAligned => "crashed writer: Skip length does not align to region boundary"@,
            Error::SkipPastEnd => "crashed writer: Skip points past end of file"@,
            Error::UnexpectedStaleHeader { kind } => "crashed writer: unexpected header_type "@
                + kind_name(kind)
                + " at write_position slot; clean up the channel files and start fresh"@,
            Error::InvalidWritePosition { position } => "write_position "@
                + crate::text::decimal_text(position as nat)
                + " does not lead to a header slot"@,
            Error::ChannelNameTooLong { len } => "channel_name is "@
                + crate::text::decimal_text(len as nat)
                + " bytes; max is 48"@,
            Error::RollSizeBelowTwoRegions { file_roll_size, minimum } => "file_roll_size "@
                + crate::text::decimal_text(file_roll_size as nat)
                + " must be 0 or span at least two regions (2 * region_size = "@
                + crate::text::decimal_text(minimum as nat)
                + ")"@,
            Error::RollSizeOverflow { file_roll_size, region_size } => "file_roll_size "@
                + crate::text::decimal_text(file_roll_size as nat)
                + " cannot be rounded up to a region_size "@
                + crate::text::decimal_text(region_size as nat)
                + " multiple without overflowing u64"@,
            Error::RollSizePastOffsetLimit { file_roll_size, len } => "file_roll_size "@
                + crate::text::decimal_text(file_roll_size as nat)
                + " (region-aligned to "@
                + crate::text::decimal_text(len as nat)
                + ") exceeds the max file offset i64::MAX; use 0 to disable rolling"@,
            Error::RegionSizeZero => "region_size must be > 0"@,
            Error::RegionNotPageMultiple { region_size, page } => "region_size ("@
                + crate::text::decimal_text(region_size as nat)
                + ") must be a multiple of OS page size ("@
                + crate::text::decimal_text(page as nat)
                + ")"@,
            Error::OffsetNotPageAligned { base_offset, page } => "base_offset ("@
                + crate::text::decimal_text(base_offset as nat)
                + ") must be page-aligned (page="@
                + crate::text::decimal_text(page as nat)
                + ")"@,
            Error::RegionNotAligned { region_size } => "region_size ("@
                + crate::text::decimal_text(region_size as nat)
                + ") must be a multiple of header alignment (8)"@,
            Error::RegionTooSmall { region_size } => "region_size ("@
                + crate::text::decimal_text(region_size as nat)
                + ") must be >= header space (144)"@,
            Error::RegionTooLarge => "region_size too large for u32"@,
            Error::MtuExceeded => "MTU exceeded"@,
            Error::ReservationExceedsRegion { msg_size, region_size, needed } => "reservation size "@
                + crate::text::decimal_text(msg_size as nat)
                + " cannot fit in region_size "@
                + crate::text::decimal_text(region_size as nat)
                + " (needs "@
                + crate::text::decimal_text(needed as nat)
                + " bytes including header + padding + next-header slot)"@,
            Error::ReservationExceedsFile { msg_size, file_roll_size, needed } => "reservation size "@
                + crate::text::decimal_text(msg_size as nat)
                + " cannot fit in file_roll_size "@
                + crate::text::decimal_text(file_roll_size as nat)
                + " (needs "@
                + crate::text::decimal_text(needed as nat)
                + " bytes)"@,
            Error::CommitWithoutReserve => "commit without preceding try_reserve"@,
            Error::CommitExceedsReservation { length, reserved } => "commit length "@
                + crate::text::decimal_text(length as nat)
                + " exceeds try_reserve size "@
                + crate::text::decimal_text(reserved as nat),
            Error::FirstHeaderOutside => "prepare_segment_at: cannot pre-install first header"@,
            Error::BoundaryHole => "xchannel: read_position in impossible boundary hole; writer invariants violated or file corrupted"@,
            Error::PayloadPastRegion => "message payload extends past remaining region bytes"@,
            Error::BatchPayloadPastRegion => "message payload extends past region boundary"@,
            Error::BatchInvalidSlot => "batch scan landed in an invalid header slot"@,
            Error::BatchMovedBackward => "batch scan moved backward across regions"@,
            Error::SourceTooSmall { len } => "source too small to be a channel file ("@
                + crate::text::decimal_text(len as nat)
                + " bytes)"@,
            Error::SourceNotCommitted => "source: first MessageHeader is not committed"@,
            Error::SourceNotChannel { raw } => "source: first record header_type is "@
                + crate::text::decimal_text(raw as nat)
                + " (expected Channel=0)"@,
            Error::SourceRecordLength { found } => "source: Channel record length is "@
                + crate::text::decimal_text(found as nat)
                + " (expected 64)"@,
            Error::SourceNotV2 { probe } => "source does not look like v2 (format_version probe = "@
                + crate::text::decimal_text(probe as nat)
                + "); only v2 -> v3 migration is supported"@,
            Error::SourceRegionSizeZero => "source: ChannelHeader.region_size is zero"@,
            Error::NoChannelFiles => "no channel files found at base path"@,
            Error::DestinationExists => "destination already exists"@,
            Error::DestinationOccupied => "channel files already exist at base path"@,
        }
    }

    /// What this error says where it is about the file or the channel at `path`.
    pub open spec fn text_at(self, path: Seq<char>) -> Seq<char> {
        match self {
            Error::SourceTooSmall { .. } => self.text() + ": "@ + path,
            Error::NoChannelFiles => self.text() + " "@ + path,
            Error::DestinationExists => self.text() + ": "@ + path,
            Error::DestinationOccupied => self.text() + " "@ + path,
            _ => self.text(),
        }
    }

    /// The class of this error.
    pub fn kind(&self) -> (k: ErrorKind)
        ensures
            k == self.spec_kind(),
    {
        match self {
            Error::ChannelNameTooLong { .. } => ErrorKind::InvalidInput,
            Error::RollSizeBelowTwoRegions { .. } => ErrorKind::InvalidInput,
            Error::RollSizeOverflow { .. } => ErrorKind::InvalidInput,
            Error::RollSizePastOffsetLimit { .. } => ErrorKind::InvalidInput,
            Error::RegionSizeZero => ErrorKind::InvalidInput,
            Error::RegionNotPageMultiple { .. } => ErrorKind::InvalidInput,
            Error::OffsetNotPageAligned { .. } => ErrorKind::InvalidInput,
            Error::RegionNotAligned { .. } => ErrorKind::InvalidInput,
            Error::RegionTooSmall { .. } => ErrorKind::InvalidInput,
            Error::RegionTooLarge => ErrorKind::InvalidInput,
            Error::NoChannelFiles => ErrorKind::NotFound,
            Error::DestinationExists => ErrorKind::AlreadyExists,
            Error::DestinationOccupied => ErrorKind::AlreadyExists,
            Error::NextSegmentNotChannel => ErrorKind::Other,
            Error::MtuExceeded => ErrorKind::Other,
            Error::ReservationExceedsRegion { .. } => ErrorKind::Other,
            Error::ReservationExceedsFile { .. } => ErrorKind::Other,
            Error::CommitWithoutReserve => ErrorKind::Other,
            Error::CommitExceedsReservation { .. } => ErrorKind::Other,
            Error::FirstHeaderOutside => ErrorKind::Other,
            _ => ErrorKind::InvalidData,
        }
    }

    /// The message of this error.
    pub fn message(&self) -> (s: String)
        ensures
            s@ == self.text(),
    {
        match *self {
            Error::UnsupportedFormatVersion { found } => "unsupported format_version ".to_owned()
                .concat(decimal(found as u64).as_str())
                .concat(" (this build expects 3)"),
            Error::UnsupportedEndianness { found } => "unsupported endianness 0x".to_owned()
                .concat(hex(found as u64, 2).as_str())
                .concat(" (this build expects 0x01)"),
            Error::HeaderSizeMismatch { system, user } => "header-size mismatch: file=(".to_owned()
                .concat(decimal(system as u64).as_str())
                .concat("/")
                .concat(decimal(user as u64).as_str())
                .concat(") build=(8/8)"),
            Error::UnsupportedUserHeaderKind { found } => "unsupported user_header_kind 0x".to_owned()
                .concat(hex(found as u64, 8).as_str())
                .concat(" (this build only reads 0x00000000)"),
            Error::RegionSizeMismatch { found, expected } => "region_size mismatch: file=".to_owned()
                .concat(decimal(found as u64).as_str())
                .concat(" expected=")
                .concat(decimal(expected as u64).as_str()),
            Error::SequenceMismatch { found, expected } => "channel_sequence mismatch: header=".to_owned()
                .concat(decimal(found as u64).as_str())
                .concat(" but file is at sequence ")
                .concat(decimal(expected as u64).as_str())
                .concat(" (renamed, misplaced, or swapped segment file?)"),
            Error::InvalidCommittedFlag => "invalid committed flag".to_owned(),
            Error::InvalidHeaderType { raw } => "invalid header_type: ".to_owned()
                .concat(decimal(raw as u64).as_str()),
            Error::FirstRecordNotChannel { kind } => "file has first ".to_owned()
                .concat(kind_str(kind))
                .concat(", expected Channel header"),
            Error::LatestSegmentNotChannel => "head_record_index: latest segment does not begin with a Channel header".to_owned(),
            Error::NextSegmentNotChannel => "next file missing Channel header".to_owned(),
            Error::BaseDiscontinuity { sequence, found, expected } => "base_record_index discontinuity: segment ".to_owned()
                .concat(decimal(sequence as u64).as_str())
                .concat(" starts at ")
                .concat(decimal(found as u64).as_str())
                .concat(" but the previous segment ends at ")
                .concat(decimal(expected as u64).as_str())
                .concat(" (segments from a different series?)"),
            Error::GenerationMismatch { sequence, found, expected } => "generation mismatch: segment ".to_owned()
                .concat(decimal(sequence as u64).as_str())
                .concat(" has generation ")
                .concat(decimal(found as u64).as_str())
                .concat(" but the channel is ")
                .concat(decimal(expected as u64).as_str())
                .concat(" (segments from a different incarnation of this path?)"),
            Error::AdvancedSlotCommitted => "crashed writer recovery: advanced slot is committed (multi-record publish_wp lag, unsupported)".to_owned(),
            Error::AdvancedSlotNotPreinstalled => "crashed writer recovery: advanced slot is not a pre-installed header".to_owned(),
            Error::RecoveryCrossesRegion => "crashed writer: User-record recovery would cross region boundary; clean up the channel files and start fresh".to_owned(),
            Error::SkipNotAligned => "crashed writer: Skip length does not align to region boundary".to_owned(),
            Error::SkipPastEnd => "crashed writer: Skip points past end of file".to_owned(),
            Error::UnexpectedStaleHeader { kind } => "crashed writer: unexpected header_type ".to_owned()
                .concat(kind_str(kind))
                .concat(" at write_position slot; clean up the channel files and start fresh"),
            Error::InvalidWritePosition { position } => "write_position ".to_owned()
                .concat(decimal(position as u64).as_str())
                .concat(" does not lead to a header slot"),
            Error::ChannelNameTooLong { len } => "channel_name is ".to_owned()
                .concat(decimal(len as u64).as_str())
                .concat(" bytes; max is 48"),
            Error::RollSizeBelowTwoRegions { file_roll_size, minimum } => "file_roll_size ".to_owned()
                .concat(decimal(file_roll_size as u64).as_str())
                .concat(" must be 0 or span at least two regions (2 * region_size = ")
                .concat(decimal(minimum as u64).as_str())
                .concat(")"),
            Error::RollSizeOverflow { file_roll_size, region_size } => "file_roll_size ".to_owned()
                .concat(decimal(file_roll_size as u64).as_str())
                .concat(" cannot be rounded up to a region_size ")
                .concat(decimal(region_size as u64).as_str())
                .concat(" multiple without overflowing u64"),
            Error::RollSizePastOffsetLimit { file_roll_size, len } => "file_roll_size ".to_owned()
                .concat(decimal(file_roll_size as u64).as_str())
                .concat(" (region-aligned to ")
                .concat(decimal(len as u64).as_str())
                .concat(") exceeds the max file offset i64::MAX; use 0 to disable rolling"),
            Error::RegionSizeZero => "region_size must be > 0".to_owned(),
            Error::RegionNotPageMultiple { region_size, page } => "region_size (".to_owned()
                .concat(decimal(region_size as u64).as_str())
                .concat(") must be a multiple of OS page size (")
                .concat(decimal(page as u64).as_str())
                .concat(")"),
            Error::OffsetNotPageAligned { base_offset, page } => "base_offset (".to_owned()
                .concat(decimal(base_offset as u64).as_str())
                .concat(") must be page-aligned (page=")
                .concat(decimal(page as u64).as_str())
                .concat(")"),
            Error::RegionNotAligned { region_size } => "region_size (".to_owned()
                .concat(decimal(region_size as u64).as_str())
                .concat(") must be a multiple of header alignment (8)"),
            Error::RegionTooSmall { region_size } => "region_size (".to_owned()
                .concat(decimal(region_size as u64).as_str())
                .concat(") must be >= header space (144)"),
            Error::RegionTooLarge => "region_size too large for u32".to_owned(),
            Error::MtuExceeded => "MTU exceeded".to_owned(),
            Error::ReservationExceedsRegion { msg_size, region_size, needed } => "reservation size ".to_owned()
                .concat(decimal(msg_size as u64).as_str())
                .concat(" cannot fit in region_size ")
                .concat(decimal(region_size as u64).as_str())
                .concat(" (needs ")
                .concat(decimal(needed as u64).as_str())
                .concat(" bytes including header + padding + next-header slot)"),
            Error::ReservationExceedsFile { msg_size, file_roll_size, needed } => "reservation size ".to_owned()
                .concat(decimal(msg_size as u64).as_str())
                .concat(" cannot fit in file_roll_size ")
                .concat(decimal(file_roll_size as u64).as_str())
                .concat(" (needs ")
                .concat(decimal(needed as u64).as_str())
                .concat(" bytes)"),
            Error::CommitWithoutReserve => "commit without preceding try_reserve".to_owned(),
            Error::CommitExceedsReservation { length, reserved } => "commit length ".to_owned()
                .concat(decimal(length as u64).as_str())
                .concat(" exceeds try_reserve size ")
                .concat(decimal(reserved as u64).as_str()),
            Error::FirstHeaderOutside => "prepare_segment_at: cannot pre-install first header".to_owned(),
            Error::BoundaryHole => "xchannel: read_position in impossible boundary hole; writer invariants violated or file corrupted".to_owned(),
            Error::PayloadPastRegion => "message payload extends past remaining region bytes".to_owned(),
            Error::BatchPayloadPastRegion => "message payload extends past region boundary".to_owned(),
            Error::BatchInvalidSlot => "batch scan landed in an invalid header slot".to_owned(),
            Error::BatchMovedBackward => "batch scan moved backward across regions".to_owned(),
            Error::SourceTooSmall { len } => "source too small to be a channel file (".to_owned()
                .concat(decimal(len as u64).as_str())
                .concat(" bytes)"),
            Error::SourceNotCommitted => "source: first MessageHeader is not committed".to_owned(),
            Error::SourceNotChannel { raw } => "source: first record header_type is ".to_owned()
                .concat(decimal(raw as u64).as_str())
                .concat(" (expected Channel=0)"),
            Error::SourceRecordLength { found } => "source: Channel record length is ".to_owned()
                .concat(decimal(found as u64).as_str())
                .concat(" (expected 64)"),
            Error::SourceNotV2 { probe } => "source does not look like v2 (format_version probe = ".to_owned()
                .concat(decimal(probe as u64).as_str())
                .concat("); only v2 -> v3 migration is supported"),
            Error::SourceRegionSizeZero => "source: ChannelHeader.region_size is zero".to_owned(),
            Error::NoChannelFiles => "no channel files found at base path".to_owned(),
            Error::DestinationExists => "destination already exists".to_owned(),
            Error::DestinationOccupied => "channel files already exist at base path".to_owned(),
        }
    }

    /// The message of this error where it is about the file or the channel at `path`.
    pub fn message_at(&self, path: &str) -> (s: String)
        ensures
            s@ == self.text_at(path@),
    {
        match *self {
            Error::SourceTooSmall { .. } => self.message().concat(": ").concat(path),
            Error::NoChannelFiles => self.message().concat(" ").concat(path),
            Error::DestinationExists => self.message().concat(": ").concat(path),
            Error::DestinationOccupied => self.message().concat(" ").concat(path),
            _ => self.message(),
        }
    }
}

} // verus!
