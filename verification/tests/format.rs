//! Exact bytes, exact numbers, exact messages.

use xchannel::bytes::{get_u16, get_u32, get_u64, put_u16, put_u32, put_u64};
use xchannel::channel::{
    generation_of, next_index, validate_channel_header, verify_preinstall_signature,
};
use xchannel::layout::{align_up, align_up_pos, check_geometry, preallocation_len};
use xchannel::migrate::{migrate_channel_v2_to_v3, migrate_file_v2_to_v3};
use xchannel::names::{
    find_all_sequences, find_earliest_sequence, find_latest_sequence, is_channel_file_name,
    is_partial_segment_name, make_channel_file_path, make_partial_channel_file_path,
    parse_sequence,
};
use xchannel::reader::{head_record_index, read_channel_header};
use xchannel::region::{check_alignment, get_bytes_mut, required_len};
use xchannel::segment::{prepare_segment_at, SegmentSpec};
use xchannel::text::{decimal, hex, parse_u64};
use xchannel::wait::{retry_open, Backoff};
use xchannel::{
    page_size, ChannelHeader, Error, ErrorKind, HeaderType, MessageHeader, Reader, ReaderBuilder,
    ReaderMode, RegionMapping, WriterBuilder,
};

fn spec() -> SegmentSpec {
    let mut channel_name = [0u8; 48];
    channel_name[..4].copy_from_slice(b"fill");
    SegmentSpec {
        sequence: 3,
        region_size: 4096,
        mtu: 1500,
        channel_name,
        base_record_index: 70,
        generation: 0x0102_0304_0506_0708,
    }
}

fn segment() -> Vec<u8> {
    let mut r = vec![0xEEu8; 4096];
    assert_eq!(prepare_segment_at(&mut r, &spec()), Ok(144));
    r
}

#[test]
fn integers_are_little_endian() {
    let mut b = vec![0u8; 16];
    put_u16(&mut b, 1, 0x1234);
    put_u32(&mut b, 3, 0x89AB_CDEF);
    put_u64(&mut b, 7, 0x0102_0304_0506_0708);
    assert_eq!(
        b,
        vec![0, 0x34, 0x12, 0xEF, 0xCD, 0xAB, 0x89, 8, 7, 6, 5, 4, 3, 2, 1, 0]
    );
    assert_eq!(get_u16(&b, 1), 0x1234);
    assert_eq!(get_u32(&b, 3), 0x89AB_CDEF);
    assert_eq!(get_u64(&b, 7), 0x0102_0304_0506_0708);
}

#[test]
fn message_header_layout() {
    let h = MessageHeader {
        committed: 1,
        header_type: HeaderType::Skip.code(),
        message_type: 0x0A0B,
        length: 0x0102_0304,
        user_meta_u64: 0x1112_1314_1516_1718,
    };
    let mut r = vec![9u8; 32];
    h.write(&mut r, 8);
    assert_eq!(
        &r[8..24],
        &[
            1, 2, 0x0B, 0x0A, 4, 3, 2, 1, 0x18, 0x17, 0x16, 0x15, 0x14, 0x13, 0x12, 0x11
        ]
    );
    assert_eq!(&r[..8], &[9; 8]);
    assert_eq!(&r[24..], &[9; 8]);
    assert_eq!(MessageHeader::read(&r, 8), h);
    assert_eq!(h.is_committed(), Ok(true));
    assert_eq!(h.parsed_header_type(), Ok(HeaderType::Skip));
    r[8] = 0;
    assert_eq!(MessageHeader::read(&r, 8).is_committed(), Ok(false));
    MessageHeader::commit(&mut r, 8);
    assert_eq!(MessageHeader::read(&r, 8), h);
    r[8] = 7;
    assert_eq!(
        MessageHeader::read(&r, 8).is_committed(),
        Err(Error::InvalidCommittedFlag)
    );
}

#[test]
fn header_types_have_four_codes() {
    for (raw, kind) in [
        (0u8, HeaderType::Channel),
        (1, HeaderType::User),
        (2, HeaderType::Skip),
        (3, HeaderType::Roll),
    ] {
        assert_eq!(HeaderType::from_raw(raw), Ok(kind));
        assert_eq!(kind.code(), raw);
    }
    assert_eq!(
        HeaderType::from_raw(99),
        Err(Error::InvalidHeaderType { raw: 99 })
    );
}

#[test]
fn fresh_segment_layout() {
    let r = segment();
    assert_eq!(&r[..16], &[1, 0, 0, 0, 128, 0, 0, 0, 0, 0, 0, 0, 0, 0, 0, 0]);
    assert_eq!(get_u64(&r, 16), 160); // write position
    assert_eq!(get_u64(&r, 24), 0); // message count
    assert_eq!(get_u64(&r, 32), 70); // base record index
    assert_eq!(get_u64(&r, 40), 3); // sequence
    assert_eq!(get_u32(&r, 48), 4096); // region size
    assert_eq!(get_u32(&r, 52), 1500); // mtu
    assert_eq!(get_u16(&r, 56), 3); // wire version
    assert_eq!(r[58], 1); // little-endian
    assert_eq!(r[59], 8);
    assert_eq!(get_u32(&r, 60), 0);
    assert_eq!(r[64], 8);
    assert_eq!(&r[65..69], b"fill");
    assert!(r[69..136].iter().all(|&b| b == 0));
    assert_eq!(&r[136..144], &[8, 7, 6, 5, 4, 3, 2, 1]);
    assert_eq!(&r[144..160], &[0, 1, 0, 0, 0, 0, 0, 0, 0, 0, 0, 0, 0, 0, 0, 0]);
    assert!(r[160..].iter().all(|&b| b == 0xEE));
    assert_eq!(next_index(&r), 70);
    assert_eq!(generation_of(&r), 0x0102_0304_0506_0708);
}

#[test]
fn fresh_segment_needs_room_for_its_first_slot() {
    let mut r = vec![5u8; 152];
    assert_eq!(
        prepare_segment_at(&mut r, &spec()),
        Err(Error::FirstHeaderOutside)
    );
    assert!(r.iter().all(|&b| b == 5));
}

#[test]
fn channel_header_is_read_back() {
    let mut r = vec![1u8; 200];
    let ch = spec().channel_header();
    ch.write(&mut r);
    let back = ChannelHeader::read(&r);
    assert_eq!(back.write_position, 160);
    assert_eq!(back.mtu, 1500);
    assert_eq!(back.channel_name, ch.channel_name);
    assert_eq!(back.generation, ch.generation);
    assert_eq!(r[15], 1);
    assert_eq!(r[144], 1);
}

#[test]
fn channel_header_checks_come_in_order() {
    let good = spec().channel_header();
    assert_eq!(validate_channel_header(&good, 4096, 3), Ok(()));
    let mut ch = good;
    ch.format_version = 2;
    ch.endianness = 2;
    assert_eq!(
        validate_channel_header(&ch, 4096, 3),
        Err(Error::UnsupportedFormatVersion { found: 2 })
    );
    ch.format_version = 3;
    assert_eq!(
        validate_channel_header(&ch, 4096, 3),
        Err(Error::UnsupportedEndianness { found: 2 })
    );
    let mut ch = good;
    ch.user_header_size = 4;
    ch.user_header_kind = 5;
    assert_eq!(
        validate_channel_header(&ch, 4096, 3),
        Err(Error::HeaderSizeMismatch { system: 8, user: 4 })
    );
    ch.user_header_size = 8;
    assert_eq!(
        validate_channel_header(&ch, 4096, 3),
        Err(Error::UnsupportedUserHeaderKind { found: 5 })
    );
    assert_eq!(
        validate_channel_header(&good, 8192, 4),
        Err(Error::RegionSizeMismatch {
            found: 4096,
            expected: 8192
        })
    );
    assert_eq!(
        validate_channel_header(&good, 4096, 4),
        Err(Error::SequenceMismatch {
            found: 3,
            expected: 4
        })
    );
}

#[test]
fn preinstalled_slots_are_told_from_others() {
    let free = MessageHeader::preinstalled();
    assert_eq!(verify_preinstall_signature(&free), Ok(()));
    let mut h = free;
    h.committed = 1;
    assert_eq!(
        verify_preinstall_signature(&h),
        Err(Error::AdvancedSlotCommitted)
    );
    h.committed = 3;
    assert_eq!(
        verify_preinstall_signature(&h),
        Err(Error::InvalidCommittedFlag)
    );
    for broken in [
        MessageHeader { header_type: 0, ..free },
        MessageHeader { length: 1, ..free },
        MessageHeader { message_type: 1, ..free },
        MessageHeader { user_meta_u64: 1, ..free },
    ] {
        assert_eq!(
            verify_preinstall_signature(&broken),
            Err(Error::AdvancedSlotNotPreinstalled)
        );
    }
}

#[test]
fn rounding_and_preallocation() {
    assert_eq!(align_up(0), 0);
    assert_eq!(align_up(1), 8);
    assert_eq!(align_up(16), 16);
    assert_eq!(align_up_pos(4081), 4088);
    assert_eq!(preallocation_len(4096, 0), Ok(4096));
    assert_eq!(preallocation_len(4096, 8192), Ok(8192));
    assert_eq!(preallocation_len(4096, 8193), Ok(12288));
    assert_eq!(
        preallocation_len(4096, u64::MAX),
        Err(Error::RollSizeOverflow {
            file_roll_size: u64::MAX,
            region_size: 4096
        })
    );
    assert_eq!(
        preallocation_len(4096, i64::MAX as u64),
        Err(Error::RollSizePastOffsetLimit {
            file_roll_size: i64::MAX as u64,
            len: 1 << 63
        })
    );
}

#[test]
fn geometry_is_checked() {
    assert_eq!(check_geometry(4096, 4096), Ok(()));
    assert_eq!(
        check_geometry(4097, 4096),
        Err(Error::RegionNotPageMultiple {
            region_size: 4097,
            page: 4096
        })
    );
    assert_eq!(
        check_geometry(12, 4),
        Err(Error::RegionNotAligned { region_size: 12 })
    );
    assert_eq!(
        check_geometry(136, 8),
        Err(Error::RegionTooSmall { region_size: 136 })
    );
    assert_eq!(check_geometry(144, 8), Ok(()));
    assert_eq!(check_geometry(1 << 33, 4096), Err(Error::RegionTooLarge));
}

#[test]
fn regions_and_pages() {
    assert_eq!(page_size(16384), 16384);
    assert_eq!(page_size(-1), 4096);
    assert_eq!(page_size(0), 4096);
    assert_eq!(check_alignment(8192, 4096, 4096), Ok(()));
    assert_eq!(check_alignment(8192, 0, 4096), Err(Error::RegionSizeZero));
    assert_eq!(
        check_alignment(0, 100, 4096),
        Err(Error::RegionNotPageMultiple {
            region_size: 100,
            page: 4096
        })
    );
    assert_eq!(
        check_alignment(100, 4096, 4096),
        Err(Error::OffsetNotPageAligned {
            base_offset: 100,
            page: 4096
        })
    );
    let m = RegionMapping::new("handle", 8192, 4096);
    assert_eq!((m.region_offset(), m.region_size()), (8192, 4096));
    assert_eq!(required_len(m.region_offset(), m.region_size()), 12288);
    let mut r = vec![0u8; 32];
    get_bytes_mut(&mut r, 8, 4).expect("four bytes").fill(3);
    assert_eq!(&r[6..14], &[0, 0, 3, 3, 3, 3, 0, 0]);
    assert!(get_bytes_mut(&mut r, 29, 4).is_none());
    assert!(get_bytes_mut(&mut r, usize::MAX, 4).is_none());
    assert_eq!(get_bytes_mut(&mut r, 32, 0).expect("nothing").len(), 0);
}

#[test]
fn numbers_as_text() {
    assert_eq!(decimal(0), "0");
    assert_eq!(decimal(u64::MAX), "18446744073709551615");
    assert_eq!(hex(0x2A, 2), "2a");
    assert_eq!(hex(0xDEADBEEF, 8), "deadbeef");
    assert_eq!(parse_u64("18446744073709551615"), Some(u64::MAX));
    assert_eq!(parse_u64("18446744073709551616"), None);
    assert_eq!(parse_u64("+007"), Some(7));
    for bad in ["", "+", "-1", "1a", " 1", "١"] {
        assert_eq!(parse_u64(bad), None, "{bad:?}");
        assert_eq!(bad.parse::<u64>().ok(), None, "{bad:?}");
    }
}

#[test]
fn file_names() {
    assert_eq!(make_channel_file_path("foo.log", 0), "foo.log");
    assert_eq!(make_channel_file_path("foo.log", 12), "foo.log.12");
    assert_eq!(make_partial_channel_file_path("foo.log", 0), "foo.log.partial");
    assert_eq!(
        make_partial_channel_file_path("foo.log", 12),
        "foo.log.12.partial"
    );
    assert_eq!(parse_sequence("foo.log", "foo.log"), Some(0));
    assert_eq!(parse_sequence("foo.log.12", "foo.log"), Some(12));
    assert_eq!(parse_sequence("foo.log.012", "foo.log"), Some(12));
    assert_eq!(parse_sequence("foo.log.x", "foo.log"), None);
    assert_eq!(parse_sequence("foo.log.", "foo.log"), None);
    assert_eq!(parse_sequence("foo.lo", "foo.log"), None);
    assert_eq!(parse_sequence("foo.log-12", "foo.log"), None);
    assert_eq!(parse_sequence("foo.log.1.partial", "foo.log"), None);
    assert!(is_partial_segment_name("foo.log.partial", "foo.log"));
    assert!(is_partial_segment_name("foo.log.7.partial", "foo.log"));
    assert!(!is_partial_segment_name("foo.log.notes.partial", "foo.log"));
    assert!(!is_partial_segment_name("foo.log.7", "foo.log"));
    assert!(!is_partial_segment_name("foo.log.7.partially", "foo.log"));
    assert!(is_channel_file_name("foo.log.7", "foo.log"));
    assert!(is_channel_file_name("foo.log.partial", "foo.log"));
    assert!(!is_channel_file_name("foo.log.keep.partial", "foo.log"));
}

#[test]
fn sequences_are_found_in_any_order() {
    let names: Vec<String> = ["c.10", "other", "c.2", "c", "c.2.partial", "c.junk", "cc.3", "c.7"]
        .iter()
        .map(|s| s.to_string())
        .collect();
    assert_eq!(find_all_sequences(&names, "c"), vec![0, 2, 7, 10]);
    assert_eq!(find_earliest_sequence(&names, "c"), 0);
    assert_eq!(find_latest_sequence(&names, "c"), 10);
    assert_eq!(find_all_sequences(&names, "d"), Vec::<u64>::new());
    assert_eq!(find_latest_sequence(&names, "d"), 0);
    assert_eq!(
        migrate_channel_v2_to_v3(&names, "c", &names, "d"),
        Ok(vec![0, 2, 7, 10])
    );
    assert_eq!(
        migrate_channel_v2_to_v3(&names, "d", &names, "e"),
        Err(Error::NoChannelFiles)
    );
    let there: Vec<String> = vec!["e.7".to_string()];
    let err = migrate_channel_v2_to_v3(&names, "c", &there, "e").expect_err("occupied");
    assert_eq!(err, Error::DestinationOccupied);
    assert_eq!(err.kind(), ErrorKind::AlreadyExists);
    assert_eq!(
        err.message_at("\"e\""),
        "channel files already exist at base path \"e\""
    );
    assert_eq!(
        Error::NoChannelFiles.message_at("\"d\""),
        "no channel files found at base path \"d\""
    );
    assert_eq!(
        Error::SourceTooSmall { len: 12 }.message_at("\"f\""),
        "source too small to be a channel file (12 bytes): \"f\""
    );
    assert_eq!(Error::MtuExceeded.message_at("\"f\""), "MTU exceeded");
}

#[test]
fn opening_for_reading() {
    let mut r = segment();
    let late = read_channel_header(&r, ReaderMode::LateJoin, 3).expect("opens");
    assert_eq!(late.read_pos, 0);
    assert_eq!(late.region_size, 4096);
    assert_eq!(late.base_record_index, 70);
    assert_eq!(late.mtu, 1500);
    assert_eq!(late.generation, 0x0102_0304_0506_0708);
    let live = read_channel_header(&r, ReaderMode::Live, 3).expect("opens");
    assert_eq!(live.read_pos, 144);
    assert_eq!(
        read_channel_header(&r, ReaderMode::Live, 2).err(),
        Some(Error::SequenceMismatch {
            found: 3,
            expected: 2
        })
    );
    put_u64(&mut r, 16, 163);
    assert_eq!(
        read_channel_header(&r, ReaderMode::Live, 3).err(),
        Some(Error::InvalidWritePosition { position: 163 })
    );
    assert!(read_channel_header(&r, ReaderMode::LateJoin, 3).is_ok());
    put_u64(&mut r, 16, 5);
    assert_eq!(
        read_channel_header(&r, ReaderMode::Live, 3)
            .expect("opens")
            .read_pos,
        0
    );
    r[1] = 2;
    assert_eq!(
        read_channel_header(&r, ReaderMode::LateJoin, 3).err(),
        Some(Error::FirstRecordNotChannel {
            kind: HeaderType::Skip
        })
    );
    assert_eq!(head_record_index(&r), Err(Error::LatestSegmentNotChannel));
    r[1] = 9;
    assert_eq!(
        read_channel_header(&r, ReaderMode::LateJoin, 3).err(),
        Some(Error::InvalidHeaderType { raw: 9 })
    );
    assert_eq!(head_record_index(&r), Err(Error::InvalidHeaderType { raw: 9 }));
    r[1] = 0;
    put_u64(&mut r, 24, 5);
    assert_eq!(head_record_index(&r), Ok(75));
}

#[test]
fn names_end_behind_their_last_byte_and_are_made_text() {
    let mut r = segment();
    let name = |r: &[u8]| {
        let o = read_channel_header(r, ReaderMode::LateJoin, 3).expect("opens");
        Reader::open_at(&o, 3, ()).channel_name()
    };
    assert_eq!(name(&r), "fill");
    r[69..75].copy_from_slice("é€x".as_bytes());
    assert_eq!(name(&r), "fillé€x");
    r[65..113].fill(b'n');
    assert_eq!(name(&r), "n".repeat(48));
    r[66] = 0xFF;
    r[67] = 0;
    assert_eq!(name(&r), format!("n\u{FFFD}\0{}", "n".repeat(45)));
    r[68..113].fill(0);
    assert_eq!(name(&r), "n\u{FFFD}");
    r[65..67].fill(0);
    assert_eq!(name(&r), "");
    r[112] = b'n';
    assert_eq!(name(&r), format!("{}n", "\0".repeat(47)));
}

#[test]
fn builders_hold_what_they_are_given() {
    let b = WriterBuilder::new("p");
    assert_eq!(b.region_size, 1024 * 1024);
    assert_eq!((b.file_roll_size, b.mtu, b.keep_files), (0, 0, None));
    assert_eq!((b.base_record_index, b.generation), (0, 0));
    let b = b
        .region_size(8192)
        .file_roll_size(16384)
        .mtu(9)
        .keep_files(4)
        .base_record_index(5)
        .generation(6);
    let b = b.channel_name("näme").expect("short enough");
    assert_eq!(&b.channel_name[..6], "näme\0".as_bytes());
    let plan = b.build().expect("two regions");
    let s = plan.segment(11);
    assert_eq!((s.sequence, s.region_size, s.mtu), (11, 8192, 9));
    assert_eq!((s.base_record_index, s.generation), (5, 6));
    assert_eq!(plan.settings.keep_files, Some(4));
    assert_eq!(
        WriterBuilder::new("p").file_roll_size(3).build().err(),
        Some(Error::RollSizeBelowTwoRegions {
            file_roll_size: 3,
            minimum: 2097152
        })
    );
    assert_eq!(
        WriterBuilder::new("p")
            .region_size(usize::MAX)
            .file_roll_size(3)
            .build()
            .err(),
        Some(Error::RollSizeBelowTwoRegions {
            file_roll_size: 3,
            minimum: u64::MAX
        })
    );
    assert_eq!(
        WriterBuilder::new("p").channel_name(&"é".repeat(25)).err(),
        Some(Error::ChannelNameTooLong { len: 50 })
    );
    let r = ReaderBuilder::new("q");
    assert_eq!((r.mode, r.batch_limit), (ReaderMode::LateJoin, None));
    let r = r.live().batch_limit(12);
    assert_eq!((r.mode, r.batch_limit), (ReaderMode::Live, Some(12)));
    assert_eq!(r.clone().late_join().mode, ReaderMode::LateJoin);
    assert_eq!(r.mode(ReaderMode::LateJoin).mode, ReaderMode::LateJoin);
}

#[test]
fn sleeps_double_up_to_ten_milliseconds() {
    let mut pace = Backoff::new();
    let sleeps: Vec<u64> = (0..16).map(|_| pace.next_sleep(None).unwrap()).collect();
    assert_eq!(
        sleeps,
        vec![1, 2, 4, 8, 16, 32, 64, 128, 256, 512, 1024, 2048, 4096, 8192, 10_000, 10_000]
    );
    let mut pace = Backoff::new();
    assert_eq!(pace.next_sleep(Some(100)), Some(1));
    assert_eq!(pace.next_sleep(Some(100)), Some(2));
    assert_eq!(pace.next_sleep(Some(3)), Some(3));
    assert_eq!(pace.next_sleep(Some(0)), None);
    assert_eq!(pace.us, 8);
}

#[test]
fn only_late_joiners_try_again() {
    assert!(retry_open(ReaderMode::LateJoin, 1, true));
    assert!(retry_open(ReaderMode::LateJoin, 7, true));
    assert!(!retry_open(ReaderMode::LateJoin, 8, true));
    assert!(!retry_open(ReaderMode::LateJoin, 1, false));
    assert!(!retry_open(ReaderMode::Live, 1, true));
}

#[test]
fn migration_rewrites_the_second_half() {
    let mut p: Vec<u8> = (0..80).collect();
    p[0] = 1;
    p[1] = 0;
    p[4..8].copy_from_slice(&[64, 0, 0, 0]);
    p[48] = 0;
    p[49] = 0;
    let before = p.clone();
    assert_eq!(migrate_file_v2_to_v3(5000, false, &mut p), Ok(()));
    assert_eq!(&p[..48], &before[..48]);
    assert_eq!(&p[48..60], &[1, 0, 1, 8, 8, 0, 0, 0, 0, 0, 0, 0]);
    assert_eq!(&p[60..80], &before[48..68]);

    let mut q = before.clone();
    assert_eq!(
        migrate_file_v2_to_v3(5000, true, &mut q),
        Err(Error::DestinationExists)
    );
    assert_eq!(q, before);
    assert_eq!(
        Error::DestinationExists.message_at("\"f\""),
        "destination already exists: \"f\""
    );
    assert_eq!(
        migrate_file_v2_to_v3(79, false, &mut q),
        Err(Error::SourceTooSmall { len: 79 })
    );
    q[0] = 0;
    assert_eq!(
        migrate_file_v2_to_v3(80, false, &mut q),
        Err(Error::SourceNotCommitted)
    );
    q[0] = 1;
    q[1] = 1;
    assert_eq!(
        migrate_file_v2_to_v3(80, false, &mut q),
        Err(Error::SourceNotChannel { raw: 1 })
    );
    q[1] = 0;
    q[4] = 96;
    assert_eq!(
        migrate_file_v2_to_v3(80, false, &mut q),
        Err(Error::SourceRecordLength { found: 96 })
    );
    q[4] = 128;
    assert_eq!(
        migrate_file_v2_to_v3(80, false, &mut q),
        Err(Error::SourceNotV2 { probe: 57 * 256 + 56 })
    );
    q[56..58].fill(0);
    assert_eq!(
        migrate_file_v2_to_v3(80, false, &mut q),
        Err(Error::SourceRecordLength { found: 128 })
    );
    q[4] = 64;
    q[49] = 2;
    assert_eq!(
        migrate_file_v2_to_v3(80, false, &mut q),
        Err(Error::SourceNotV2 { probe: 512 })
    );
    q[49] = 0;
    q[40..44].fill(0);
    assert_eq!(
        migrate_file_v2_to_v3(80, false, &mut q),
        Err(Error::SourceRegionSizeZero)
    );
}

#[test]
fn errors_say_what_is_wrong() {
    let cases = [
        (
            Error::UnsupportedFormatVersion { found: 2 },
            ErrorKind::InvalidData,
            "unsupported format_version 2 (this build expects 3)",
        ),
        (
            Error::UnsupportedEndianness { found: 10 },
            ErrorKind::InvalidData,
            "unsupported endianness 0x0a (this build expects 0x01)",
        ),
        (
            Error::HeaderSizeMismatch { system: 4, user: 12 },
            ErrorKind::InvalidData,
            "header-size mismatch: file=(4/12) build=(8/8)",
        ),
        (
            Error::UnsupportedUserHeaderKind { found: 0xBEEF },
            ErrorKind::InvalidData,
            "unsupported user_header_kind 0x0000beef (this build only reads 0x00000000)",
        ),
        (
            Error::InvalidHeaderType { raw: 99 },
            ErrorKind::InvalidData,
            "invalid header_type: 99",
        ),
        (
            Error::UnexpectedStaleHeader { kind: HeaderType::Roll },
            ErrorKind::InvalidData,
            "crashed writer: unexpected header_type Roll at write_position slot; clean up the channel files and start fresh",
        ),
        (
            Error::GenerationMismatch { sequence: 4, found: 7, expected: 8 },
            ErrorKind::InvalidData,
            "generation mismatch: segment 4 has generation 7 but the channel is 8 (segments from a different incarnation of this path?)",
        ),
        (
            Error::RegionTooSmall { region_size: 128 },
            ErrorKind::InvalidInput,
            "region_size (128) must be >= header space (144)",
        ),
        (
            Error::ReservationExceedsRegion { msg_size: 8192, region_size: 4096, needed: 8224 },
            ErrorKind::Other,
            "reservation size 8192 cannot fit in region_size 4096 (needs 8224 bytes including header + padding + next-header slot)",
        ),
        (Error::MtuExceeded, ErrorKind::Other, "MTU exceeded"),
        (
            Error::NoChannelFiles,
            ErrorKind::NotFound,
            "no channel files found at base path",
        ),
    ];
    for (error, kind, message) in cases {
        assert_eq!(error.kind(), kind);
        assert_eq!(error.message(), message);
    }
}
