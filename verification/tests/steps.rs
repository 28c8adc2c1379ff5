//! Single steps of writers and readers, on bare regions.

use xchannel::batch::{BatchStep, Drain};
use xchannel::bytes::{get_u64, put_u64};
use xchannel::channel::FIRST_SLOT;
use xchannel::reader::{read_channel_header, Outcome};
use xchannel::segment::{
    finish_recovery, open_step, plan_reopen, prepare_segment_at, recover, recover_skip, store_wp,
    OpenStep, Recovery,
};
use xchannel::tally::{count_records, Rest};
use xchannel::wait::{wait_step, Backoff, WaitStep};
use xchannel::writer::{fetch_add_wp, publish_wp, Reserve};
use xchannel::{
    Error, HeaderType, MessageHeader, PeekedHeader, Reader, ReaderMode, Tally, Writer,
    WriterBuilder, WriterPlan,
};

const SIZE: usize = 256;

fn plan(roll: u64) -> WriterPlan<()> {
    WriterBuilder::new(())
        .region_size(SIZE)
        .file_roll_size(roll)
        .generation(9)
        .build()
        .expect("valid settings")
}

/// A writer on a fresh segment of `n` regions.
fn fresh(n: usize, roll: u64) -> (Writer, Vec<Vec<u8>>) {
    fresh_by(plan(roll), n)
}

fn fresh_by(plan: WriterPlan<()>, n: usize) -> (Writer, Vec<Vec<u8>>) {
    let mut regions = vec![vec![0u8; SIZE]; n];
    assert_eq!(prepare_segment_at(&mut regions[0], &plan.segment(0)), Ok(144));
    (Writer::fresh(&plan, 0, (n * SIZE) as u64), regions)
}

/// Appends a message to the current region.
fn append(w: &mut Writer, regions: &mut [Vec<u8>], message_type: u16, payload: &[u8], meta: u64) {
    let i = w.state().current_region_index as usize;
    let at = match w.try_reserve(&mut regions[i], payload.len()) {
        Ok(Reserve::Ready { payload_off }) => payload_off,
        other => panic!("no room: {other:?}"),
    };
    regions[i][at..at + payload.len()].copy_from_slice(payload);
    let wp = w
        .commit(&mut regions[i], message_type, payload.len() as u32, meta)
        .expect("committed");
    publish_wp(&mut regions[0], wp);
}

fn open(region0: &[u8], mode: ReaderMode) -> Reader<usize> {
    let o = read_channel_header(region0, mode, 0).expect("opens");
    Reader::open_at(&o, 0, (o.read_pos / SIZE as u64) as usize)
}

/// Reads all that is published in a segment.
fn read_all(regions: &[Vec<u8>], mode: ReaderMode) -> Vec<(u16, Vec<u8>, u64)> {
    let mut r = open(&regions[0], mode);
    let mut out = Vec::new();
    loop {
        let i = r.maps().last().expect("a region").mapping;
        match r.try_read(&regions[i], SIZE).expect("sound") {
            Outcome::Ready(m) => {
                let h = m.header();
                assert_eq!(m.len(), h.length as usize);
                out.push((h.message_type, m.payload().to_vec(), h.user_meta_u64));
            }
            Outcome::SwitchRegion { index } => r.switch_region(index as usize),
            _ => return out,
        }
    }
}

#[test]
fn what_is_written_is_read() {
    let (mut w, mut regions) = fresh(1, 0);
    append(&mut w, &mut regions, 5, b"abc", 77);
    append(&mut w, &mut regions, 6, b"", 78);
    assert_eq!(w.state().next_hdr_pos, 144 + 24 + 16);
    assert_eq!(get_u64(&regions[0], 16), w.state().next_hdr_pos + 16);
    assert_eq!(get_u64(&regions[0], 24), 2);
    assert_eq!(w.next_record_index(&regions[0]), 2);
    assert_eq!(w.generation(&regions[0]), 9);
    assert_eq!(
        read_all(&regions, ReaderMode::LateJoin),
        vec![(5, b"abc".to_vec(), 77), (6, vec![], 78)]
    );
    assert!(read_all(&regions, ReaderMode::Live).is_empty());
}

#[test]
fn nothing_is_seen_before_it_is_published() {
    let (mut w, mut regions) = fresh(1, 0);
    append(&mut w, &mut regions, 1, b"first", 1);
    let seen = |regions: &[Vec<u8>]| read_all(regions, ReaderMode::LateJoin).len();
    assert_eq!(
        w.try_reserve(&mut regions[0], 20),
        Ok(Reserve::Ready { payload_off: 184 })
    );
    assert_eq!(MessageHeader::read(&regions[0], 208), MessageHeader::preinstalled());
    assert_eq!(seen(&regions), 1);
    regions[0][184..204].fill(0xFF);
    assert_eq!(seen(&regions), 1);
    let staged = w.stage_commit(&mut regions[0], 2, 7, 2).expect("staged");
    assert_eq!(staged.flag_off(), 168);
    // The slot behind the shorter message is free before the message is published.
    assert_eq!(MessageHeader::read(&regions[0], 192), MessageHeader::preinstalled());
    assert_eq!(seen(&regions), 1);
    assert_eq!(w.publish_commit(&mut regions[0], staged), 208);
    assert_eq!(seen(&regions), 2);
    assert_eq!(w.state().next_hdr_pos, 192);
}

#[test]
fn reservations_are_bounded() {
    let mut limited = plan(512);
    limited.settings.mtu = 100;
    let (mut w, mut regions) = fresh_by(limited, 2);
    assert_eq!(w.try_reserve(&mut regions[0], 101), Err(Error::MtuExceeded));
    let (mut w, mut regions) = fresh(2, 512);
    assert_eq!(
        w.try_reserve(&mut regions[0], 225),
        Err(Error::ReservationExceedsRegion {
            msg_size: 225,
            region_size: 256,
            needed: 264
        })
    );
    // 144 + 16 + 80 + 16 is the whole region.
    assert_eq!(
        w.try_reserve(&mut regions[0], 80),
        Ok(Reserve::Ready { payload_off: 160 })
    );
    assert_eq!(w.try_reserve(&mut regions[0], 81), Ok(Reserve::RollRegion));
    assert_eq!(w.state().pending_msg_size, Some(80));
    let mut w = Writer::adopted(&plan(512), 0, 512, 400);
    assert_eq!(w.try_reserve(&mut regions[1], 81), Ok(Reserve::RollFile));
}

#[test]
fn commits_are_checked() {
    let (mut w, mut regions) = fresh(1, 0);
    let before = regions.clone();
    assert_eq!(
        w.commit(&mut regions[0], 1, 0, 0),
        Err(Error::CommitWithoutReserve)
    );
    assert_eq!(regions, before);
    assert!(w.try_reserve(&mut regions[0], 8).is_ok());
    let before = regions.clone();
    assert_eq!(
        w.commit(&mut regions[0], 1, 9, 0),
        Err(Error::CommitExceedsReservation {
            length: 9,
            reserved: 8
        })
    );
    assert_eq!(regions, before);
    assert_eq!(
        w.commit(&mut regions[0], 1, 8, 0),
        Err(Error::CommitWithoutReserve)
    );
}

#[test]
fn padding_leads_to_the_next_region() {
    let (mut w, mut regions) = fresh(1, 0);
    regions.push(vec![0u8; SIZE]);
    append(&mut w, &mut regions, 1, &[1; 40], 1);
    assert!(w.try_reserve(&mut regions[0], 8).is_ok());
    let roll = w.plan_region_roll();
    assert_eq!((roll.region_index, roll.needed_end), (1, 512));
    assert_eq!(w.state().pending_msg_size, None);
    assert_eq!(w.growth(roll.needed_end), Some(512));
    w.ensure_len(roll.needed_end);
    assert_eq!(w.growth(roll.needed_end), None);
    w.ensure_len(100);
    assert_eq!(w.state().file_len, 512);
    let (a, b) = regions.split_at_mut(1);
    let wp = w.roll_over_region(&mut a[0], &mut b[0]);
    store_wp(&mut a[0], wp);
    assert_eq!(wp, 272);
    assert_eq!((w.state().current_region_index, w.state().next_hdr_pos), (1, 256));
    let skip = MessageHeader::read(&regions[0], 200);
    assert_eq!(
        skip,
        MessageHeader {
            committed: 1,
            header_type: HeaderType::Skip.code(),
            message_type: 0,
            length: 40,
            user_meta_u64: 0
        }
    );
    assert_eq!(MessageHeader::read(&regions[1], 0), MessageHeader::preinstalled());
    assert_eq!(get_u64(&regions[0], 24), 1, "padding is not counted");
    append(&mut w, &mut regions, 2, &[2; 200], 2);
    assert_eq!(
        read_all(&regions, ReaderMode::LateJoin),
        vec![(1, vec![1; 40], 1), (2, vec![2; 200], 2)]
    );
}

#[test]
fn rolling_continues_the_channel() {
    let mut kept = plan(512);
    kept.settings.keep_files = Some(1);
    let (mut w, mut regions) = fresh_by(kept, 2);
    append(&mut w, &mut regions, 1, b"one", 1);
    append(&mut w, &mut regions, 2, b"two", 2);
    assert!(w.try_reserve(&mut regions[0], 8).is_ok());
    let spec = w.plan_roll(&regions[0]);
    assert_eq!(w.state().pending_msg_size, Some(8));
    assert_eq!((spec.sequence, spec.base_record_index, spec.generation), (1, 2, 9));
    let mut next = vec![vec![0u8; SIZE]; 2];
    assert_eq!(prepare_segment_at(&mut next[0], &spec), Ok(144));
    let at = w.state().next_hdr_pos as usize;
    let staged = w.stage_roll(&mut regions[0], 4242);
    assert_eq!(MessageHeader::read(&regions[0], at).committed, 0);
    assert_eq!(read_all(&regions, ReaderMode::LateJoin).len(), 2);
    let prune = w.publish_roll(&mut regions[0], staged.renamed(), 512);
    assert_eq!(prune, Some(0));
    assert_eq!(fetch_add_wp(&mut regions[0], 16), at as u64 + 16);
    assert_eq!(get_u64(&regions[0], 16), at as u64 + 32);
    assert_eq!(
        MessageHeader::read(&regions[0], at),
        MessageHeader {
            committed: 1,
            header_type: 3,
            message_type: 0,
            length: 0,
            user_meta_u64: 4242
        }
    );
    assert_eq!((w.state().file_sequence, w.state().next_hdr_pos, w.state().current_region_index), (1, 144, 0));

    let mut r = open(&regions[0], ReaderMode::LateJoin);
    assert!(matches!(r.try_read(&regions[0], SIZE), Ok(Outcome::Ready(_))));
    assert!(matches!(r.try_read(&regions[0], SIZE), Ok(Outcome::Ready(_))));
    assert!(matches!(
        r.try_read(&regions[0], SIZE),
        Ok(Outcome::NextSegment { sequence: 1 })
    ));
    let stuck = (r.file_sequence(), r.read_position());
    let mut foreign = next[0].clone();
    put_u64(&mut foreign, 136, 10);
    assert_eq!(
        r.open_next_file(&regions[0], &foreign, 7),
        Err(Error::GenerationMismatch {
            sequence: 1,
            found: 10,
            expected: 9
        })
    );
    let mut longer = regions[0].clone();
    put_u64(&mut longer, 24, 3);
    assert_eq!(
        r.open_next_file(&longer, &next[0], 7),
        Err(Error::BaseDiscontinuity {
            sequence: 1,
            found: 2,
            expected: 3
        })
    );
    foreign[1] = 1;
    assert_eq!(
        r.open_next_file(&regions[0], &foreign, 7),
        Err(Error::NextSegmentNotChannel)
    );
    assert_eq!((r.file_sequence(), r.read_position()), stuck);
    assert_eq!(r.maps()[0].mapping, 0);
    assert_eq!(r.open_next_file(&regions[0], &next[0], 7), Ok(()));
    assert_eq!((r.file_sequence(), r.read_position(), r.base_record_index()), (1, 0, 2));
    assert_eq!(r.maps()[0].mapping, 7);
    assert!(matches!(r.try_read(&next[0], SIZE), Ok(Outcome::CaughtUp)));
}

#[test]
fn roll_file_in_one_go() {
    let (mut w, mut regions) = fresh(1, 0);
    append(&mut w, &mut regions, 1, b"one", 1);
    assert_eq!(w.roll_file(&mut regions[0], 5, 256), None);
    assert_eq!(w.state().file_sequence, 1);
    assert_eq!(MessageHeader::read(&regions[0], 168).header_type, 3);
}

#[test]
fn retention_keeps_a_window() {
    let mut three = plan(0);
    three.settings.keep_files = Some(3);
    let (mut w, _) = fresh_by(three, 1);
    let mut kept = vec![0u64];
    for _ in 0..6 {
        let mut region = vec![0u8; SIZE];
        let gone = w.roll_file(&mut region, 0, 256);
        kept.push(w.state().file_sequence);
        kept.retain(|s| Some(*s) != gone);
        assert!(kept.len() <= 3);
    }
    assert_eq!(kept, vec![4, 5, 6]);
}

#[test]
fn reopening_resumes_and_recovers() {
    let (mut w, mut regions) = fresh(2, 512);
    append(&mut w, &mut regions, 1, b"one", 1);
    let re = plan_reopen(&regions[0], 0, SIZE, 512).expect("adopted");
    assert_eq!((re.next_hdr, re.region_index, re.target_len), (168, 0, 512));
    assert_eq!(recover(&re, &regions[0], 512), Ok(Recovery::Clean));

    // A message that is published and not counted.
    assert!(w.try_reserve(&mut regions[0], 10).is_ok());
    assert_eq!(w.commit(&mut regions[0], 2, 10, 2), Ok(216));
    let re = plan_reopen(&regions[0], 0, SIZE, 512).expect("adopted");
    assert_eq!(re.next_hdr, 168);
    assert_eq!(
        recover(&re, &regions[0], 512),
        Ok(Recovery::User { next_hdr: 200 })
    );
    let again = Writer::adopted(&plan(512), 0, 512, 200);
    assert_eq!(
        (again.state().next_hdr_pos, again.state().current_region_index),
        (200, 0)
    );

    // One more: two behind.
    assert!(w.try_reserve(&mut regions[0], 8).is_ok());
    assert!(w.commit(&mut regions[0], 3, 8, 3).is_ok());
    assert_eq!(
        recover(&re, &regions[0], 512),
        Err(Error::AdvancedSlotCommitted)
    );
}

#[test]
fn reopening_steps_over_padding() {
    let (mut w, mut regions) = fresh(2, 0);
    append(&mut w, &mut regions, 1, &[1; 40], 1);
    let (a, b) = regions.split_at_mut(1);
    w.roll_over_region(&mut a[0], &mut b[0]);
    let re = plan_reopen(&regions[0], 0, SIZE, 0).expect("adopted");
    assert_eq!((re.next_hdr, re.target_len), (200, 256));
    assert_eq!(recover(&re, &regions[0], 256), Err(Error::SkipPastEnd));
    assert_eq!(
        recover(&re, &regions[0], 512),
        Ok(Recovery::Skip { region_index: 1 })
    );
    assert_eq!(recover_skip(&re, &regions[1]), Ok(256));
    regions[1][2] = 1;
    assert_eq!(
        recover_skip(&re, &regions[1]),
        Err(Error::AdvancedSlotNotPreinstalled)
    );
    let mut bent = regions[0].clone();
    bent[204] = 32;
    assert_eq!(recover(&re, &bent, 512), Err(Error::SkipNotAligned));
}

#[test]
fn reopening_refuses_what_makes_no_sense() {
    let (_, regions) = fresh(1, 0);
    let mut r = regions[0].clone();
    for wp in [161u64, 266, 264, u64::MAX, u64::MAX - 7] {
        store_wp(&mut r, wp);
        assert_eq!(
            plan_reopen(&r, 0, SIZE, 0),
            Err(Error::InvalidWritePosition { position: wp }),
            "{wp}"
        );
    }
    store_wp(&mut r, 8);
    let re = plan_reopen(&r, 0, SIZE, 0).expect("the first byte");
    assert_eq!(
        recover(&re, &r, 256),
        Err(Error::UnexpectedStaleHeader {
            kind: HeaderType::Channel
        })
    );
    store_wp(&mut r, 160);
    r[144] = 1;
    r[148] = 90;
    let re = plan_reopen(&r, 0, SIZE, 0).expect("adopted");
    assert_eq!(recover(&re, &r, 256), Err(Error::RecoveryCrossesRegion));
    r[145] = 200;
    assert_eq!(
        recover(&re, &r, 256),
        Err(Error::InvalidHeaderType { raw: 200 })
    );
    r[144] = 9;
    assert_eq!(recover(&re, &r, 256), Err(Error::InvalidCommittedFlag));
    assert_eq!(
        plan_reopen(&r, 1, SIZE, 0),
        Err(Error::SequenceMismatch {
            found: 0,
            expected: 1
        })
    );
}

#[test]
fn only_observed_flags_count() {
    let (mut w, mut regions) = fresh(1, 0);
    append(&mut w, &mut regions, 1, b"one", 1);
    append(&mut w, &mut regions, 2, b"two", 2);
    let mut r = open(&regions[0], ReaderMode::LateJoin);
    assert!(matches!(r.try_read(&regions[0], 0), Ok(Outcome::CaughtUp)));
    assert_eq!(r.read_position(), 0);
    assert!(matches!(r.try_read(&regions[0], 1), Ok(Outcome::CaughtUp)));
    assert_eq!(r.read_position(), 144);
    assert!(matches!(r.try_read(&regions[0], 145), Ok(Outcome::Ready(_))));
    assert!(matches!(r.try_read(&regions[0], 145), Ok(Outcome::CaughtUp)));
    assert!(matches!(r.try_read(&regions[0], SIZE), Ok(Outcome::Ready(_))));

    let mut r = open(&regions[0], ReaderMode::LateJoin);
    let mut scan = r.begin_batch(None).expect("begun");
    r.begin_batch_seg(&scan);
    assert_eq!(
        r.scan_batch_region(&mut scan, &regions[0], 145),
        Ok(BatchStep::Waiting)
    );
    assert_eq!(r.batch(&[&regions[0][..]]).len(), 1);
    assert_eq!(
        r.scan_batch_region(&mut scan, &regions[0], SIZE),
        Ok(BatchStep::Waiting)
    );
    assert_eq!(r.batch(&[&regions[0][..]]).len(), 2);
    assert!(r.finish_batch(scan));
    assert_eq!(r.read_position(), 192);
}

#[test]
fn peeking_and_polling_take_nothing() {
    let (mut w, mut regions) = fresh(1, 0);
    append(&mut w, &mut regions, 3, b"xyz", 30);
    let mut r = open(&regions[0], ReaderMode::LateJoin);
    let peeked = Ok(Outcome::Ready(PeekedHeader {
        message_type: 3,
        user_meta_u64: 30,
        length: 3,
    }));
    assert_eq!(r.peek_header(&regions[0], SIZE), peeked);
    assert_eq!(r.read_position(), 144);
    assert_eq!(r.peek_header(&regions[0], SIZE), peeked);
    assert_eq!(
        r.poll_for_user_message(&regions[0], SIZE),
        Ok(Outcome::Ready(()))
    );
    assert!(matches!(r.try_read(&regions[0], SIZE), Ok(Outcome::Ready(_))));
    assert_eq!(r.peek_header(&regions[0], SIZE), Ok(Outcome::CaughtUp));
    assert_eq!(
        r.poll_for_user_message(&regions[0], SIZE),
        Ok(Outcome::CaughtUp)
    );
}

#[test]
fn damaged_regions_are_reported() {
    let (mut w, mut regions) = fresh(1, 0);
    append(&mut w, &mut regions, 1, &[7; 40], 1);
    let start = |r: &Vec<u8>| open(r, ReaderMode::LateJoin);

    let mut long = regions[0].clone();
    long[148] = 255;
    let mut r = start(&long);
    assert!(matches!(
        r.try_read(&long, SIZE),
        Err(Error::PayloadPastRegion)
    ));
    assert_eq!(r.read_position(), 144);
    let mut r = start(&long);
    let mut scan = r.begin_batch(None).expect("begun");
    r.begin_batch_seg(&scan);
    assert_eq!(
        r.scan_batch_region(&mut scan, &long, SIZE),
        Err(Error::BatchPayloadPastRegion)
    );

    // A message that leaves eight bytes behind it.
    let mut hole = regions[0].clone();
    hole[148] = 88;
    let mut r = start(&hole);
    assert!(matches!(r.try_read(&hole, SIZE), Ok(Outcome::Ready(_))));
    assert_eq!(r.read_position(), 248);
    assert!(matches!(r.try_read(&hole, SIZE), Err(Error::BoundaryHole)));
    let mut r = start(&hole);
    let mut scan = r.begin_batch(None).expect("begun");
    r.begin_batch_seg(&scan);
    assert_eq!(
        r.scan_batch_region(&mut scan, &hole, SIZE),
        Err(Error::BatchInvalidSlot)
    );

    // A message that fills its region to the last byte.
    let mut brim = regions[0].clone();
    brim[148] = 96;
    let mut r = start(&brim);
    assert!(matches!(r.try_read(&brim, SIZE), Ok(Outcome::Ready(_))));
    assert_eq!((r.read_position(), r.needs_region()), (256, Some(1)));
    let mut r = start(&brim);
    let mut out = Vec::new();
    let mut drain = Drain::new(None);
    assert_eq!(
        r.read_owned_into(&brim, SIZE, &mut out, &mut drain),
        Ok(Outcome::SwitchRegion { index: 1 })
    );
    assert_eq!(drain.count(), 1);
    assert_eq!((out[0].header_offset, out[0].len()), (144, 96));
}

#[test]
fn batches_do_not_go_back() {
    let (mut w, mut regions) = fresh(1, 0);
    append(&mut w, &mut regions, 1, b"one", 1);
    let mut r = open(&regions[0], ReaderMode::LateJoin);
    let scan = r.begin_batch(Some(5)).expect("begun");
    assert_eq!(r.ensure_scan_region_mapped(&scan), Ok(None));
    let mut ahead = scan;
    ahead.cursor = 512;
    assert_eq!(r.ensure_scan_region_mapped(&ahead), Ok(Some(2)));
    r.map_scan_region(&ahead, 2);
    assert_eq!(
        r.ensure_scan_region_mapped(&scan),
        Err(Error::BatchMovedBackward)
    );
}

#[test]
fn batches_go_over_any_number_of_regions() {
    const N: usize = 65_536;
    let (mut w, mut regions) = fresh(3, 0);
    let payload = [7u8; 224];
    // Region 0 is padding behind the channel header; one message fills each other region.
    for i in 0..2 {
        if i > 0 {
            append(&mut w, &mut regions, 1, &payload, 5);
        }
        let (a, b) = regions.split_at_mut(i + 1);
        w.roll_over_region(&mut a[i], &mut b[0]);
    }
    let mut r = open(&regions[0], ReaderMode::LateJoin);
    let mut scan = r.begin_batch(None).expect("begun");
    let region_of = |index: usize| match index {
        0 => &regions[0],
        i if i <= N => &regions[1],
        _ => &regions[2],
    };
    for index in 0..=N + 1 {
        let wanted = r.ensure_scan_region_mapped(&scan).expect("ahead");
        if index == 0 {
            assert_eq!(wanted, None);
        } else {
            assert_eq!(wanted, Some(index as u64));
            r.map_scan_region(&scan, index);
        }
        r.begin_batch_seg(&scan);
        let step = r.scan_batch_region(&mut scan, region_of(index), SIZE);
        let expected = if index <= N {
            BatchStep::NextRegion
        } else {
            BatchStep::Waiting
        };
        assert_eq!(step, Ok(expected));
    }
    assert!(r.finish_batch(scan));
    assert_eq!(r.read_position(), ((N + 1) * SIZE) as u64);
    let bytes: Vec<&[u8]> = r.maps().iter().map(|m| &region_of(m.mapping)[..]).collect();
    let batch = r.batch(&bytes);
    assert_eq!(batch.len(), N);
    for i in [0, 1, N - 1] {
        let m = batch.get(i).expect("a message");
        assert_eq!((m.payload(), m.header().user_meta_u64), (&payload[..], 5));
    }
    assert_eq!(batch.get_owned(N - 1).expect("a message").region, N);
    assert!(batch.get(N).is_none());
}

#[test]
fn drains_stop_at_their_bound() {
    let (mut w, mut regions) = fresh(1, 0);
    for i in 0..3u16 {
        append(&mut w, &mut regions, i, &[i as u8; 3], i as u64);
    }
    let mut r = open(&regions[0], ReaderMode::LateJoin);
    let mut out = Vec::new();
    let mut drain = |r: &mut Reader<usize>, max: usize| {
        let mut d = Drain::new(Some(max));
        let outcome = r.read_owned_into(&regions[0], SIZE, &mut out, &mut d);
        assert_eq!(d.is_full(), d.count() == max);
        (d.count(), outcome.expect("sound"))
    };
    assert_eq!(drain(&mut r, 0), (0, Outcome::Ready(())));
    assert_eq!(r.read_position(), 0);
    assert_eq!(drain(&mut r, 2), (2, Outcome::Ready(())));
    assert_eq!(drain(&mut r, 2), (1, Outcome::CaughtUp));
    let types: Vec<u16> = out.iter().map(|m| m.header(&regions[0]).message_type).collect();
    assert_eq!(types, vec![0, 1, 2]);
    assert_eq!(out[2].payload(&regions[0]), &[2, 2, 2]);
}

#[test]
fn published_bytes_stay() {
    let (mut w, mut regions) = fresh(2, 0);
    append(&mut w, &mut regions, 1, b"settled", 1);
    let tail = w.state().next_hdr_pos as usize;
    let before = regions[0][FIRST_SLOT..tail].to_vec();
    append(&mut w, &mut regions, 2, &[7; 20], 2);
    assert_eq!(regions[0][FIRST_SLOT..tail], before[..]);
    let mut ended = regions.clone();
    let (a, b) = regions.split_at_mut(1);
    let mut other = Writer::adopted(&plan(0), 0, 512, w.state().next_hdr_pos);
    other.roll_over_region(&mut a[0], &mut b[0]);
    assert_eq!(regions[0][FIRST_SLOT..tail], before[..]);
    w.roll_file(&mut ended[0], 3, 512);
    assert_eq!(ended[0][FIRST_SLOT..tail], before[..]);
}

#[test]
fn rolling_segments_do_not_grow() {
    let (mut w, mut regions) = fresh(3, 700);
    append(&mut w, &mut regions, 1, &[1; 40], 1);
    assert_eq!(w.try_reserve(&mut regions[0], 150), Ok(Reserve::RollRegion));
    let roll = w.plan_region_roll();
    assert_eq!((roll.region_index, roll.needed_end), (1, 512));
    assert_eq!(w.growth(roll.needed_end), None);
    let (a, b) = regions.split_at_mut(1);
    w.roll_over_region(&mut a[0], &mut b[0]);
    append(&mut w, &mut regions, 2, &[2; 200], 2);
    assert_eq!(w.try_reserve(&mut regions[1], 150), Ok(Reserve::RollRegion));
    let roll = w.plan_region_roll();
    assert_eq!((roll.needed_end, w.growth(roll.needed_end)), (768, None));
    // 472 + 16 + 200 + 16 is past the roll size.
    assert_eq!(w.try_reserve(&mut regions[1], 200), Ok(Reserve::RollFile));
}

#[test]
fn recovery_counts_what_it_steps_over() {
    let (mut w, mut regions) = fresh(1, 0);
    append(&mut w, &mut regions, 1, b"counted", 1);
    assert!(w.try_reserve(&mut regions[0], 4).is_ok());
    assert!(w.commit(&mut regions[0], 2, 4, 2).is_ok());
    let re = plan_reopen(&regions[0], 0, SIZE, 0).expect("adopted");
    let found = recover(&re, &regions[0], 256).expect("recovered");
    assert_eq!(found, Recovery::User { next_hdr: 192 });
    let mut tally = Tally::new();
    assert_eq!((tally.records(), tally.count_or(7)), (0, 7));
    tally.add_region(&regions[0]);
    assert_eq!((tally.records(), tally.count_or(7)), (2, 2));
    assert_eq!(finish_recovery(&re, &found, tally.count_or(1), &mut regions[0]), 192);
    assert_eq!((get_u64(&regions[0], 16), get_u64(&regions[0], 24)), (208, 2));
    let mut again = Writer::adopted(&plan(0), 0, 256, 192);
    assert_eq!(again.next_record_index(&regions[0]), 2);
    assert_eq!(read_all(&regions, ReaderMode::LateJoin).len(), 2);
    append(&mut again, &mut regions, 3, b"more", 3);
    assert_eq!(again.next_record_index(&regions[0]), 3);
    assert_eq!(read_all(&regions, ReaderMode::LateJoin).len(), 3);

    let re = plan_reopen(&regions[0], 0, SIZE, 0).expect("adopted");
    let before = regions[0].clone();
    assert_eq!(finish_recovery(&re, &Recovery::Clean, 9, &mut regions[0]), re.next_hdr);
    assert_eq!(regions[0], before);
    let skip = Recovery::Skip { region_index: 1 };
    assert_eq!(finish_recovery(&re, &skip, 9, &mut regions[0]), 256);
    assert_eq!((get_u64(&regions[0], 16), get_u64(&regions[0], 24)), (272, 3));
}

#[test]
fn messages_are_counted_as_far_as_readers_get() {
    let (mut w, mut regions) = fresh(3, 0);
    append(&mut w, &mut regions, 1, b"one", 1);
    append(&mut w, &mut regions, 2, b"two", 2);
    let (a, b) = regions.split_at_mut(1);
    w.roll_over_region(&mut a[0], &mut b[0]);
    append(&mut w, &mut regions, 3, &[3; 100], 3);
    let count = |r: &[u8], off| {
        let c = count_records(r, off);
        (c.records, c.rest)
    };
    assert_eq!(count(&regions[0], 0), (2, Rest::Edge));
    assert_eq!(count(&regions[0], 168), (1, Rest::Edge));
    assert_eq!(count(&regions[0], SIZE), (0, Rest::Edge));
    assert_eq!(count(&regions[1], 0), (1, Rest::Tail));
    assert_eq!(count(&regions[2], 0), (0, Rest::Tail));
    let tally = |regions: &[Vec<u8>]| {
        let mut t = Tally::new();
        for r in regions {
            t.add_region(r);
        }
        (t.records(), t.count_or(99))
    };
    assert_eq!(tally(&regions[..1]), (2, 99));
    assert_eq!(tally(&regions[..2]), (3, 3));
    assert_eq!(tally(&regions), (3, 3));
    // A slot that makes no sense bars the way.
    regions[0][169] = 9;
    assert_eq!(count(&regions[0], 0), (1, Rest::Barred));
    assert_eq!(tally(&regions), (1, 99));
    regions[0][169] = 3;
    assert_eq!(count(&regions[0], 0), (1, Rest::Barred));
    regions[0][169] = 1;
    regions[0][172] = 255;
    assert_eq!(count(&regions[0], 0), (1, Rest::Barred));
    regions[0][172] = 3;
    regions[0][168] = 2;
    assert_eq!(count(&regions[0], 0), (1, Rest::Barred));
}

#[test]
fn opening_and_waiting_decide_by_what_is_there() {
    assert_eq!(open_step(None), OpenStep::Create);
    assert_eq!(open_step(Some(0)), OpenStep::Replace);
    assert_eq!(open_step(Some(1)), OpenStep::Reopen);
    let mut pace = Backoff::new();
    assert_eq!(wait_step(&mut pace, true, Some(0)), WaitStep::Ready);
    assert_eq!(wait_step(&mut pace, false, Some(0)), WaitStep::TimedOut);
    assert_eq!(wait_step(&mut pace, false, None), WaitStep::Sleep { us: 1 });
    assert_eq!(wait_step(&mut pace, false, Some(100)), WaitStep::Sleep { us: 2 });
    assert_eq!(wait_step(&mut pace, false, Some(3)), WaitStep::Sleep { us: 3 });
    assert_eq!(pace.us, 8);
}

#[test]
fn flags_can_be_set_from_outside() {
    let (mut w, mut regions) = fresh(2, 0);
    assert!(w.try_reserve(&mut regions[0], 3).is_ok());
    regions[0][160..163].copy_from_slice(b"abc");
    let staged = w.stage_commit(&mut regions[0], 1, 3, 4).expect("staged");
    regions[0][staged.flag_off()] = 1;
    assert_eq!(w.settle_commit(staged), 184);
    assert_eq!(read_all(&regions, ReaderMode::LateJoin), vec![(1, b"abc".to_vec(), 4)]);
    let (a, b) = regions.split_at_mut(1);
    w.stage_region_roll(&mut a[0], &mut b[0]);
    a[0][w.slot_off()] = 1;
    assert_eq!(w.settle_region_roll(), 272);
    assert_eq!((w.slot_off(), w.state().current_region_index), (0, 1));
    let named = w.stage_roll(&mut regions[1], 5).renamed();
    regions[1][named.flag_off()] = 1;
    assert_eq!(w.settle_roll(named, 512), None);
    assert_eq!(w.state().file_sequence, 1);
    assert_eq!(MessageHeader::read(&regions[1], 0).header_type, 3);
}
