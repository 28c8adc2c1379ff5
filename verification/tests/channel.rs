//! Channels end to end, on a disk that is kept in memory.

use std::cell::{Ref, RefCell, RefMut};
use std::collections::BTreeMap;
use std::rc::Rc;
use std::sync::Arc;

use xchannel::batch::{BatchStep, Drain, MessageBatch};
use xchannel::bytes::get_u64;
use xchannel::channel::{ALIGN, CHANNEL_HEADER_SIZE, HEADER_SLOT, MESSAGE_HEADER_SIZE};
use xchannel::layout::{align_up, check_geometry, preallocation_len};
use xchannel::migrate::{migrate_channel_v2_to_v3, migrate_file_v2_to_v3};
use xchannel::names::{
    find_all_sequences, find_earliest_sequence, find_latest_sequence, is_channel_file_name,
    is_partial_segment_name, make_channel_file_path, make_partial_channel_file_path,
};
use xchannel::reader::{head_record_index, read_channel_header, Outcome};
use xchannel::region::get_bytes_mut;
use xchannel::segment::{
    finish_recovery, open_step, plan_reopen, prepare_segment_at, recover, recover_skip, store_wp,
    OpenStep, Recovery,
};
use xchannel::wait::{retry_open, wait_step, Backoff, WaitStep};
use xchannel::writer::{fetch_add_wp, publish_wp, Reserve};
use xchannel::{
    Error, ErrorKind, HeaderType, MessageHeader, MessageRef, OwnedMessage, PeekedHeader, Reader,
    ReaderBuilder, ReaderMode, Tally, Writer, WriterBuilder, CHANNEL_NAME_MAX,
};

const PAGE: usize = 4096;

// ---------- a disk in memory ----------

type Inode = Rc<RefCell<Vec<u8>>>;

#[derive(Clone)]
struct Disk(Rc<RefCell<BTreeMap<String, Inode>>>);

impl Disk {
    fn new() -> Disk {
        Disk(Rc::new(RefCell::new(BTreeMap::new())))
    }
    fn names(&self) -> Vec<String> {
        self.0.borrow().keys().cloned().collect()
    }
    fn open(&self, name: &str) -> Result<Inode, Fail> {
        self.0.borrow().get(name).cloned().ok_or(Fail::NotFound)
    }
    fn create(&self, name: &str, len: u64) -> Inode {
        let file: Inode = Rc::new(RefCell::new(vec![0u8; len as usize]));
        self.0.borrow_mut().insert(name.to_string(), file.clone());
        file
    }
    fn write(&self, name: &str, bytes: &[u8]) {
        let file: Inode = Rc::new(RefCell::new(bytes.to_vec()));
        self.0.borrow_mut().insert(name.to_string(), file);
    }
    fn rename(&self, from: &str, to: &str) {
        let file = self.0.borrow_mut().remove(from).expect("file to rename");
        self.0.borrow_mut().insert(to.to_string(), file);
    }
    fn copy(&self, from: &str, to: &str) {
        let bytes = self.open(from).expect("file to copy").borrow().clone();
        self.write(to, &bytes);
    }
    fn remove(&self, name: &str) {
        self.0.borrow_mut().remove(name);
    }
    fn has(&self, name: &str) -> bool {
        self.0.borrow().contains_key(name)
    }
    fn len(&self, name: &str) -> u64 {
        self.open(name).expect("file").borrow().len() as u64
    }
    fn cleanup(&self, base: &str) {
        for name in self.names() {
            if is_channel_file_name(&name, base) {
                self.remove(&name);
            }
        }
    }
}

fn grow(file: &Inode, len: u64) {
    let mut bytes = file.borrow_mut();
    if (bytes.len() as u64) < len {
        bytes.resize(len as usize, 0);
    }
}

fn region_mut(bytes: &mut [u8], index: u64, size: usize) -> &mut [u8] {
    let start = index as usize * size;
    &mut bytes[start..start + size]
}

// ---------- errors ----------

#[derive(Debug)]
enum Fail {
    Core(Error),
    NotFound,
}

impl From<Error> for Fail {
    fn from(e: Error) -> Fail {
        Fail::Core(e)
    }
}

impl Fail {
    fn kind(&self) -> ErrorKind {
        match self {
            Fail::Core(e) => e.kind(),
            Fail::NotFound => ErrorKind::NotFound,
        }
    }
    fn text(&self) -> String {
        match self {
            Fail::Core(e) => e.message(),
            Fail::NotFound => "no such file".to_string(),
        }
    }
}

// ---------- the writing end ----------

struct Producer {
    disk: Disk,
    base: String,
    core: Writer,
    file: Inode,
}

fn writer(base: &str) -> WriterBuilder<String> {
    WriterBuilder::new(base.to_string())
}

impl Producer {
    fn build(disk: &Disk, builder: WriterBuilder<String>) -> Result<Producer, Fail> {
        let plan = builder.build()?;
        let base = plan.settings.path.clone();
        for name in disk.names() {
            if is_partial_segment_name(&name, &base) {
                disk.remove(&name);
            }
        }
        let size = plan.settings.region_size;
        let roll = plan.settings.file_roll_size;
        check_geometry(size, PAGE)?;
        let sequence = find_latest_sequence(&disk.names(), &base);
        let name = make_channel_file_path(&base, sequence);
        let existing = disk.open(&name).ok();
        let step = open_step(existing.as_ref().map(|f| f.borrow().len() as u64));
        let (core, file) = match (step, existing) {
            (OpenStep::Reopen, Some(file)) => {
                grow(&file, size as u64);
                let re = {
                    let bytes = file.borrow();
                    plan_reopen(&bytes[..size], sequence, size, roll)?
                };
                grow(&file, re.target_len);
                let len = file.borrow().len() as u64;
                let mut bytes = file.borrow_mut();
                let found = recover(&re, region_mut(&mut bytes, re.region_index, size), len)?;
                if let Recovery::Skip { region_index } = found {
                    recover_skip(&re, region_mut(&mut bytes, region_index, size))?;
                }
                let mut tally = Tally::new();
                for index in 0..=re.region_index {
                    tally.add_region(region_mut(&mut bytes, index, size));
                }
                let region0 = region_mut(&mut bytes, 0, size);
                let records = tally.count_or(get_u64(region0, 24));
                let next = finish_recovery(&re, &found, records, region0);
                drop(bytes);
                (Writer::adopted(&plan, sequence, len, next), file)
            }
            (step, _) => {
                if step == OpenStep::Replace {
                    disk.remove(&name);
                }
                let partial = make_partial_channel_file_path(&base, sequence);
                let len = preallocation_len(size, roll)?;
                let file = disk.create(&partial, len);
                prepare_segment_at(
                    region_mut(&mut file.borrow_mut(), 0, size),
                    &plan.segment(sequence),
                )?;
                disk.rename(&partial, &name);
                (Writer::fresh(&plan, sequence, len), file)
            }
        };
        Ok(Producer {
            disk: disk.clone(),
            base,
            core,
            file,
        })
    }

    fn try_reserve(&mut self, n: usize) -> Result<RefMut<'_, [u8]>, Fail> {
        let size = self.core.state().region_size;
        loop {
            let index = self.core.state().current_region_index;
            let step = {
                let mut bytes = self.file.borrow_mut();
                self.core.try_reserve(region_mut(&mut bytes, index, size), n)?
            };
            match step {
                Reserve::RollFile => self.roll_file()?,
                Reserve::RollRegion => self.roll_region(),
                Reserve::Ready { payload_off } => {
                    return Ok(RefMut::map(self.file.borrow_mut(), |bytes| {
                        get_bytes_mut(region_mut(bytes, index, size), payload_off, n)
                            .expect("reserved bytes")
                    }));
                }
            }
        }
    }

    fn commit(&mut self, message_type: u16, length: u32, meta: u64) -> Result<(), Fail> {
        let size = self.core.state().region_size;
        let index = self.core.state().current_region_index;
        let mut bytes = self.file.borrow_mut();
        let wp = self.core.commit(
            region_mut(&mut bytes, index, size),
            message_type,
            length,
            meta,
        )?;
        publish_wp(region_mut(&mut bytes, 0, size), wp);
        Ok(())
    }

    fn send(&mut self, message_type: u16, payload: &[u8], meta: u64) -> Result<(), Fail> {
        self.try_reserve(payload.len())?.copy_from_slice(payload);
        self.commit(message_type, payload.len() as u32, meta)
    }

    fn roll_region(&mut self) {
        let size = self.core.state().region_size;
        let roll = self.core.plan_region_roll();
        if let Some(len) = self.core.growth(roll.needed_end) {
            grow(&self.file, len);
        }
        self.core.ensure_len(roll.needed_end);
        let mut bytes = self.file.borrow_mut();
        let wp = {
            let (head, tail) = bytes.split_at_mut(roll.region_index as usize * size);
            let old = region_mut(head, roll.region_index - 1, size);
            self.core.roll_over_region(old, &mut tail[..size])
        };
        store_wp(region_mut(&mut bytes, 0, size), wp);
    }

    fn roll_file(&mut self) -> Result<(), Fail> {
        let size = self.core.state().region_size;
        let index = self.core.state().current_region_index;
        let spec = {
            let bytes = self.file.borrow();
            self.core.plan_roll(&bytes[..size])
        };
        let partial = make_partial_channel_file_path(&self.base, spec.sequence);
        let name = make_channel_file_path(&self.base, spec.sequence);
        let len = preallocation_len(size, self.core.state().file_roll_size)?;
        let next = self.disk.create(&partial, len);
        prepare_segment_at(region_mut(&mut next.borrow_mut(), 0, size), &spec)?;
        let prune = {
            let mut bytes = self.file.borrow_mut();
            let staged = self
                .core
                .stage_roll(region_mut(&mut bytes, index, size), 123);
            self.disk.rename(&partial, &name);
            let prune = self.core.publish_roll(
                region_mut(&mut bytes, index, size),
                staged.renamed(),
                len,
            );
            fetch_add_wp(region_mut(&mut bytes, 0, size), HEADER_SLOT as u64);
            prune
        };
        self.file = next;
        if let Some(sequence) = prune {
            self.disk
                .remove(&make_channel_file_path(&self.base, sequence));
        }
        Ok(())
    }

    fn next_record_index(&self) -> u64 {
        self.core.next_record_index(&self.file.borrow())
    }

    fn generation(&self) -> u64 {
        self.core.generation(&self.file.borrow())
    }
}

// ---------- the reading end ----------

#[derive(Clone, Debug)]
struct Window {
    file: Inode,
    start: usize,
    size: usize,
}

impl Window {
    fn of(file: &Inode, index: u64, size: usize) -> Window {
        Window {
            file: file.clone(),
            start: index as usize * size,
            size,
        }
    }
    fn bytes(&self) -> Ref<'_, [u8]> {
        Ref::map(self.file.borrow(), |v| &v[self.start..self.start + self.size])
    }
}

type Owned = OwnedMessage<Window>;

fn owned_header(m: &Owned) -> MessageHeader {
    m.header(&m.region.bytes())
}

fn owned_payload(m: &Owned) -> Vec<u8> {
    m.payload(&m.region.bytes()).to_vec()
}

struct Msg {
    header: MessageHeader,
    payload: Vec<u8>,
    header_offset: usize,
}

impl Msg {
    fn of(m: &MessageRef<'_>) -> Msg {
        Msg {
            header: m.header(),
            payload: m.payload().to_vec(),
            header_offset: m.header_offset,
        }
    }
}

struct Consumer {
    disk: Disk,
    base: String,
    core: Reader<Window>,
    file: Inode,
}

fn reader(base: &str) -> ReaderBuilder<String> {
    ReaderBuilder::new(base.to_string())
}

impl Consumer {
    fn build(disk: &Disk, builder: ReaderBuilder<String>) -> Result<Consumer, Fail> {
        let mut c = Consumer::open(disk, &builder.path, builder.mode)?;
        c.core.set_batch_limit(builder.batch_limit);
        Ok(c)
    }

    fn open(disk: &Disk, base: &str, mode: ReaderMode) -> Result<Consumer, Fail> {
        let mut attempt = 1;
        loop {
            let sequence = match mode {
                ReaderMode::LateJoin => find_earliest_sequence(&disk.names(), base),
                ReaderMode::Live => find_latest_sequence(&disk.names(), base),
            };
            match Consumer::open_sequence(disk, base, sequence, mode) {
                Ok(c) => return Ok(c),
                Err(e) => {
                    if !retry_open(mode, attempt, e.kind() == ErrorKind::NotFound) {
                        return Err(e);
                    }
                }
            }
            attempt += 1;
        }
    }

    fn open_sequence(
        disk: &Disk,
        base: &str,
        sequence: u64,
        mode: ReaderMode,
    ) -> Result<Consumer, Fail> {
        let file = disk.open(&make_channel_file_path(base, sequence))?;
        let opening = {
            let bytes = file.borrow();
            read_channel_header(&bytes[..PAGE], mode, sequence)?
        };
        let index = opening.read_pos / opening.region_size as u64;
        let map = Window::of(&file, index, opening.region_size);
        Ok(Consumer {
            disk: disk.clone(),
            base: base.to_string(),
            core: Reader::open_at(&opening, sequence, map),
            file,
        })
    }

    fn current(&mut self) -> Window {
        if let Some(index) = self.core.needs_region() {
            let map = Window::of(&self.file, index, self.core.region_size());
            self.core.switch_region(map);
        }
        self.core.maps().last().expect("a mapped region").mapping.clone()
    }

    fn next_segment(&mut self, sequence: u64) -> Result<(), Fail> {
        let file = self
            .disk
            .open(&make_channel_file_path(&self.base, sequence))?;
        let map = Window::of(&file, 0, self.core.region_size());
        self.core
            .open_next_file(&self.file.borrow(), &map.bytes(), map.clone())?;
        self.file = file;
        Ok(())
    }

    /// Runs `step` on the current region until it is done with it.
    fn drive<T>(
        &mut self,
        step: impl Fn(&mut Reader<Window>, &[u8]) -> Result<Outcome<T>, Error>,
    ) -> Result<Option<T>, Fail> {
        loop {
            let map = self.current();
            let outcome = {
                let bytes = map.bytes();
                step(&mut self.core, &bytes)?
            };
            match outcome {
                Outcome::Ready(x) => return Ok(Some(x)),
                Outcome::CaughtUp => return Ok(None),
                Outcome::SwitchRegion { index } => {
                    assert_eq!(self.core.needs_region(), Some(index));
                }
                Outcome::NextSegment { sequence } => self.next_segment(sequence)?,
            }
        }
    }

    fn try_read(&mut self) -> Result<Option<Msg>, Fail> {
        self.drive(|core, bytes| {
            Ok(match core.try_read(bytes, bytes.len())? {
                Outcome::Ready(m) => Outcome::Ready(Msg::of(&m)),
                Outcome::CaughtUp => Outcome::CaughtUp,
                Outcome::SwitchRegion { index } => Outcome::SwitchRegion { index },
                Outcome::NextSegment { sequence } => Outcome::NextSegment { sequence },
            })
        })
    }

    fn peek_header(&mut self) -> Result<Option<PeekedHeader>, Fail> {
        self.drive(|core, bytes| core.peek_header(bytes, bytes.len()))
    }

    fn poll(&mut self) -> Result<bool, Fail> {
        Ok(self
            .drive(|core, bytes| core.poll_for_user_message(bytes, bytes.len()))?
            .is_some())
    }

    fn try_read_owned(&mut self) -> Result<Option<Owned>, Fail> {
        self.drive(|core, bytes| core.try_read_owned(bytes, bytes.len()))
    }

    fn read_owned_into(&mut self, out: &mut Vec<Owned>, max: Option<usize>) -> Result<usize, Fail> {
        let mut drain = Drain::new(max);
        while !drain.is_full() {
            let map = self.current();
            let outcome = {
                let bytes = map.bytes();
                self.core
                    .read_owned_into(&bytes, bytes.len(), out, &mut drain)?
            };
            match outcome {
                Outcome::Ready(()) | Outcome::CaughtUp => break,
                Outcome::SwitchRegion { .. } => {}
                Outcome::NextSegment { sequence } => self.next_segment(sequence)?,
            }
        }
        Ok(drain.count())
    }

    fn owned_batch(&mut self, max: Option<usize>) -> Result<Vec<Owned>, Fail> {
        let mut out = Vec::new();
        self.read_owned_into(&mut out, max)?;
        Ok(out)
    }

    fn with_batch<R>(
        &mut self,
        max: Option<u16>,
        f: impl FnOnce(&MessageBatch<'_, Window>) -> R,
    ) -> Result<Option<R>, Fail> {
        let mut scan = match self.core.begin_batch(max) {
            None => return Ok(None),
            Some(scan) => scan,
        };
        let size = self.core.region_size();
        let mut scan_file: Option<Inode> = None;
        loop {
            if let Some(index) = self.core.ensure_scan_region_mapped(&scan)? {
                let file = scan_file.as_ref().unwrap_or(&self.file);
                let map = Window::of(file, index, size);
                self.core.map_scan_region(&scan, map);
            }
            self.core.begin_batch_seg(&scan);
            let map = self.core.maps().last().expect("a mapped region").mapping.clone();
            let step = {
                let bytes = map.bytes();
                self.core
                    .scan_batch_region(&mut scan, &bytes, bytes.len())?
            };
            match step {
                BatchStep::Waiting | BatchStep::Full => break,
                BatchStep::NextRegion => {}
                BatchStep::NextFile { sequence } => {
                    let name = make_channel_file_path(&self.base, sequence);
                    let next = self.disk.open(&name)?;
                    {
                        let current = scan_file.as_ref().unwrap_or(&self.file).borrow();
                        let region0 = Window::of(&next, 0, size);
                        let entered = region0.bytes();
                        scan.enter_next_file(&self.core, &current, &entered)?;
                    }
                    scan_file = Some(next);
                }
            }
        }
        let full = self.core.finish_batch(scan);
        if let Some(file) = scan_file {
            self.file = file;
        }
        if !full {
            return Ok(None);
        }
        let guards: Vec<Ref<'_, [u8]>> = self.core.maps().iter().map(|m| m.mapping.bytes()).collect();
        let slices: Vec<&[u8]> = guards.iter().map(|g| &**g).collect();
        Ok(Some(f(&self.core.batch(&slices))))
    }

    fn try_read_batch(&mut self, max: Option<u16>) -> Result<Option<Vec<Msg>>, Fail> {
        self.with_batch(max, |b| b.iter().iter().map(Msg::of).collect())
    }

    /// Waits on a clock that only sleeping moves; says what came of it and how many
    /// microseconds went by.
    fn wait_for_message(&mut self, timeout_us: Option<u64>) -> Result<(bool, u64), Fail> {
        let mut pace = Backoff::new();
        let mut slept: u64 = 0;
        loop {
            let found = self.poll()?;
            let left = timeout_us.map(|t| t - slept);
            match wait_step(&mut pace, found, left) {
                WaitStep::Ready => return Ok((true, slept)),
                WaitStep::TimedOut => return Ok((false, slept)),
                WaitStep::Sleep { us } => slept += us,
            }
        }
    }

    fn head_record_index(&self) -> Result<u64, Fail> {
        let latest = find_latest_sequence(&self.disk.names(), &self.base);
        let file = self.disk.open(&make_channel_file_path(&self.base, latest))?;
        let bytes = file.borrow();
        Ok(head_record_index(&bytes[..PAGE])?)
    }
}

fn types(msgs: &[Owned]) -> Vec<u16> {
    msgs.iter().map(|m| owned_header(m).message_type).collect()
}

fn write_msgs(disk: &Disk, base: &str, ids: &[u16], fill: u8) -> Result<(), Fail> {
    let mut w = Producer::build(
        disk,
        writer(base)
            .region_size(PAGE)
            .file_roll_size((PAGE as u64) * 8)
            .mtu(0),
    )?;
    for (i, id) in ids.iter().enumerate() {
        w.try_reserve(64)?.fill(fill.wrapping_add(i as u8));
        w.commit(*id, 64, i as u64)?;
    }
    Ok(())
}

fn rewind_write_position(disk: &Disk, base: &str, rewind_bytes: u64) {
    let file = disk.open(&make_channel_file_path(base, 0)).expect("segment");
    let mut bytes = file.borrow_mut();
    let mut wp = [0u8; 8];
    wp.copy_from_slice(&bytes[16..24]);
    let rewound = u64::from_le_bytes(wp) - rewind_bytes;
    store_wp(&mut bytes, rewound);
}

// ---------- peeking ----------

#[test]
fn peek_header_does_not_consume() -> Result<(), Fail> {
    let disk = Disk::new();
    let base = "test_peek_header";
    let mut w = Producer::build(&disk, writer(base))?;
    for (i, body) in [b"one".as_slice(), b"two".as_slice()].iter().enumerate() {
        w.try_reserve(body.len())?.copy_from_slice(body);
        w.commit(7 + i as u16, body.len() as u32, 1_000 + i as u64)?;
    }

    let mut r = Consumer::build(&disk, reader(base).mode(ReaderMode::LateJoin))?;
    let first = r.peek_header()?.expect("a record is there");
    assert_eq!(first.message_type, 7);
    assert_eq!(first.user_meta_u64, 1_000);
    assert_eq!(first.length, 3);

    assert_eq!(r.peek_header()?.expect("still there"), first);

    let msg = r.try_read()?.expect("still there");
    assert_eq!(msg.header.message_type, 7);
    assert_eq!(msg.payload, b"one");

    let second = r.peek_header()?.expect("the second");
    assert_eq!(second.message_type, 8);
    assert_eq!(second.user_meta_u64, 1_001);
    Ok(())
}

#[test]
fn peek_header_when_caught_up() -> Result<(), Fail> {
    let disk = Disk::new();
    let base = "test_peek_header_empty";
    let mut w = Producer::build(&disk, writer(base))?;
    let mut r = Consumer::build(&disk, reader(base).mode(ReaderMode::LateJoin))?;
    assert!(r.peek_header()?.is_none());

    w.try_reserve(2)?.copy_from_slice(b"hi");
    w.commit(1, 2, 42)?;

    assert_eq!(r.peek_header()?.expect("arrived").user_meta_u64, 42);
    assert_eq!(r.try_read()?.expect("arrived").payload, b"hi");
    Ok(())
}

// ---------- following segments ----------

#[test]
fn failed_roll_is_reported_not_fatal() -> Result<(), Fail> {
    let disk = Disk::new();
    let base = "test_failed_roll_no_poison";
    let mut w = Producer::build(&disk, writer(base))?;
    w.send(1, b"a1", 0)?;
    w.roll_file()?;
    w.send(2, b"b1", 0)?;

    let mut r = Consumer::build(&disk, reader(base).mode(ReaderMode::LateJoin))?;
    assert_eq!(r.try_read()?.expect("first segment").payload, b"a1");

    let next = make_channel_file_path(base, 1);
    disk.rename(&next, "stashed");

    assert!(r.try_read().is_err(), "the roll must surface the error");
    assert!(r.try_read().is_err(), "the error must repeat");
    assert!(r.peek_header().is_err(), "peeking must repeat it too");
    assert!(r.try_read_batch(None).is_err(), "so must the batch path");

    disk.rename("stashed", &next);
    assert_eq!(r.try_read()?.expect("second segment").payload, b"b1");
    Ok(())
}

#[test]
fn test_earliest_and_latest_sequences() -> Result<(), Fail> {
    let disk = Disk::new();
    let base = "test_rolling_seq";
    let mut w = Producer::build(
        &disk,
        writer(base)
            .region_size(PAGE)
            .file_roll_size((PAGE as u64) * 100)
            .mtu(0),
    )?;
    w.try_reserve(500)?.fill(0xAA);
    w.commit(101, 500, 0)?;
    w.roll_file()?;
    w.try_reserve(600)?.fill(0xBB);
    w.commit(102, 600, 1)?;
    w.try_reserve(300)?.fill(0xCC);
    w.commit(103, 300, 2)?;

    disk.remove(base);

    let mut r = Consumer::build(&disk, reader(base).mode(ReaderMode::LateJoin))?;
    let msg1 = r.try_read()?.expect("missing msg #102");
    assert_eq!(msg1.header.message_type, 102);
    assert_eq!(msg1.header.length, 600);
    for &b in &msg1.payload {
        assert_eq!(b, 0xBB);
    }
    let msg2 = r.try_read()?.expect("missing msg #103");
    assert_eq!(msg2.header.message_type, 103);
    assert_eq!(msg2.header.length, 300);
    for &b in &msg2.payload {
        assert_eq!(b, 0xCC);
    }
    assert!(r.try_read()?.is_none());

    let mut r = Consumer::open(&disk, base, ReaderMode::Live)?;
    assert!(r.try_read()?.is_none());
    Ok(())
}

#[test]
fn test_reader_exposes_region_size_and_mtu() -> Result<(), Fail> {
    let disk = Disk::new();
    let base = "test_geometry_accessors";
    let mut w = Producer::build(&disk, writer(base).region_size(PAGE).mtu(4096))?;
    w.send(1, &[0u8; 8], 0)?;
    let r = Consumer::open(&disk, base, ReaderMode::LateJoin)?;
    assert_eq!(r.core.region_size(), PAGE);
    assert_eq!(r.core.mtu(), 4096);
    Ok(())
}

#[test]
fn test_head_record_index_across_rolls() -> Result<(), Fail> {
    let disk = Disk::new();
    let base = "test_head_record_index";
    let mut w = Producer::build(
        &disk,
        writer(base)
            .region_size(PAGE)
            .file_roll_size((PAGE as u64) * 2)
            .mtu(0),
    )?;
    let n = 200u64;
    for i in 0..n {
        w.try_reserve(500)?.fill(0xAB);
        w.commit((i % 7) as u16, 500, i)?;
    }
    assert_eq!(w.next_record_index(), n);

    let r = Consumer::build(&disk, reader(base).mode(ReaderMode::LateJoin))?;
    assert_eq!(r.core.base_record_index(), 0, "reader parked at genesis file");
    assert_eq!(
        r.head_record_index()?,
        n,
        "head must reflect the channel frontier (latest file), not the reader's file"
    );
    Ok(())
}

#[test]
fn test_file_sequence_locates_roll_boundaries() -> Result<(), Fail> {
    let disk = Disk::new();
    let base = "test_file_sequence";
    let mut w = Producer::build(&disk, writer(base).region_size(PAGE))?;
    for i in 0..6u64 {
        if i > 0 && i % 2 == 0 {
            w.roll_file()?;
        }
        w.try_reserve(32)?.fill(0xC3);
        w.commit(1, 32, i)?;
    }
    assert_eq!(w.core.state().file_sequence, 2, "two rolls ⇒ writer on segment 2");

    let mut r = Consumer::open(&disk, base, ReaderMode::LateJoin)?;
    assert_eq!(r.core.file_sequence(), 0, "LateJoin starts at the earliest");
    let mut boundaries = Vec::new();
    for expected in 0..6u64 {
        let before = r.core.file_sequence();
        let meta = r.try_read()?.expect("expected 6 records").header.user_meta_u64;
        if r.core.file_sequence() != before {
            boundaries.push(meta);
        }
        assert_eq!(meta, expected, "records must replay in order");
    }
    assert_eq!(
        boundaries,
        vec![2, 4],
        "a change must land on the first record of each new segment"
    );
    assert_eq!(r.core.file_sequence(), 2, "reader followed both rolls");

    disk.remove(&make_channel_file_path(base, 0));
    let late = Consumer::open(&disk, base, ReaderMode::LateJoin)?;
    assert_eq!(late.core.file_sequence(), 1);
    Ok(())
}

#[test]
fn test_generation_is_stamped_and_survives_rolls_and_reopen() -> Result<(), Fail> {
    let disk = Disk::new();
    let base = "test_generation";
    {
        let mut w = Producer::build(
            &disk,
            writer(base).region_size(PAGE).generation(0xFEED_1234),
        )?;
        assert_eq!(w.generation(), 0xFEED_1234);
        w.send(1, &[0x7E; 32], 0)?;
        w.roll_file()?;
        w.send(1, &[0x7E; 32], 1)?;
        assert_eq!(w.generation(), 0xFEED_1234, "carried into the rolled segment");
    }
    {
        let mut w = Producer::build(&disk, writer(base).region_size(PAGE).generation(0xBAD))?;
        assert_eq!(w.generation(), 0xFEED_1234);
        w.send(1, &[0x7E; 32], 2)?;
    }
    let mut r = Consumer::open(&disk, base, ReaderMode::LateJoin)?;
    assert_eq!(r.core.generation(), 0xFEED_1234);
    for _ in 0..3 {
        assert!(r.try_read()?.is_some());
    }
    assert_eq!(r.core.file_sequence(), 1, "reader followed the roll");
    assert_eq!(r.core.generation(), 0xFEED_1234);
    Ok(())
}

#[test]
fn test_generation_distinguishes_a_recreated_channel() -> Result<(), Fail> {
    let disk = Disk::new();
    let base = "test_generation_recreate";
    for generation in [7u64, 8] {
        disk.cleanup(base);
        let mut w = Producer::build(&disk, writer(base).region_size(PAGE).generation(generation))?;
        w.send(1, &[0x11; 16], 0)?;
        drop(w);
        let r = Consumer::open(&disk, base, ReaderMode::LateJoin)?;
        assert_eq!(
            r.core.base_record_index(),
            0,
            "both incarnations start at genesis"
        );
        assert_eq!(
            r.core.generation(),
            generation,
            "only the generation tells the two apart"
        );
    }
    Ok(())
}

#[test]
fn test_roll_into_a_foreign_segment_is_refused() -> Result<(), Fail> {
    let disk = Disk::new();
    let write_segments = |base: &str, start: u64, first: u64, second: u64| -> Result<(), Fail> {
        let mut w = Producer::build(
            &disk,
            writer(base).region_size(PAGE).base_record_index(start),
        )?;
        for _ in 0..first {
            w.send(1, &[0x2C; 16], 0)?;
        }
        w.roll_file()?;
        for _ in 0..second {
            w.send(1, &[0x2C; 16], 0)?;
        }
        Ok(())
    };
    let ours = "test_continuity_ours";
    let theirs = "test_continuity_theirs";
    write_segments(ours, 0, 2, 2)?;
    write_segments(theirs, 100, 5, 1)?;

    let mut r = Consumer::open(&disk, ours, ReaderMode::LateJoin)?;
    let mut seen = 0;
    while r.try_read()?.is_some() {
        seen += 1;
    }
    assert_eq!(seen, 4);

    disk.copy(
        &make_channel_file_path(theirs, 1),
        &make_channel_file_path(ours, 1),
    );
    let mut r = Consumer::open(&disk, ours, ReaderMode::LateJoin)?;
    assert!(r.try_read()?.is_some());
    assert!(r.try_read()?.is_some());
    let err = match r.try_read() {
        Ok(_) => panic!("following the roll must refuse the foreign segment"),
        Err(e) => e,
    };
    assert_eq!(err.kind(), ErrorKind::InvalidData);
    assert!(
        err.text().contains("discontinuity"),
        "unexpected error: {}",
        err.text()
    );
    Ok(())
}

// ---------- retention ----------

#[test]
fn test_keep_files_retention() -> Result<(), Fail> {
    let disk = Disk::new();
    let base = "test_keep_files_retention";
    let mut w = Producer::build(
        &disk,
        writer(base)
            .region_size(PAGE)
            .file_roll_size((PAGE as u64) * 100)
            .keep_files(2),
    )?;
    for ts in 0..5u64 {
        w.send(1, &[0x5A; 64], ts)?;
        w.roll_file()?;
    }
    for seq in 0..=3u64 {
        assert!(
            !disk.has(&make_channel_file_path(base, seq)),
            "expected pruned file to be gone: (seq {})",
            seq
        );
    }
    for seq in 4..=5u64 {
        assert!(
            disk.has(&make_channel_file_path(base, seq)),
            "expected retained file to exist: (seq {})",
            seq
        );
    }
    Ok(())
}

#[test]
fn test_keep_files_default_unlimited() -> Result<(), Fail> {
    let disk = Disk::new();
    let base = "test_keep_files_default";
    let mut w = Producer::build(
        &disk,
        writer(base)
            .region_size(PAGE)
            .file_roll_size((PAGE as u64) * 100),
    )?;
    for _ in 0..3 {
        w.send(1, &[0xC3; 32], 0)?;
        w.roll_file()?;
    }
    for seq in 0..=3u64 {
        assert!(
            disk.has(&make_channel_file_path(base, seq)),
            "default retention should keep all files; missing (seq {})",
            seq
        );
    }
    Ok(())
}

// ---------- waiting ----------

#[test]
fn test_read_blocking_times_out() -> Result<(), Fail> {
    let disk = Disk::new();
    let base = "test_read_blocking_timeout";
    Producer::build(&disk, writer(base).region_size(PAGE))?;
    let mut r = Consumer::build(&disk, reader(base).live())?;
    let (ready, elapsed) = r.wait_for_message(Some(50_000))?;
    assert!(!ready, "expected timeout, got message");
    assert!(elapsed >= 45_000, "returned too early: {elapsed:?}");
    assert!(elapsed < 200_000, "returned too late: {elapsed:?}");
    Ok(())
}

#[test]
fn test_wait_for_message_ready() -> Result<(), Fail> {
    let disk = Disk::new();
    let base = "test_wait_for_message_ready";
    let mut w = Producer::build(&disk, writer(base).region_size(PAGE))?;
    w.send(7, b"abcdefgh", 0)?;
    drop(w);
    let mut r = Consumer::build(&disk, reader(base))?;
    assert!(r.wait_for_message(Some(100_000))?.0);
    let msg = r.try_read()?.expect("try_read after ready must return Some");
    assert_eq!(msg.header.message_type, 7);
    assert_eq!(msg.payload, b"abcdefgh");
    Ok(())
}

#[test]
fn test_wait_for_message_times_out() -> Result<(), Fail> {
    let disk = Disk::new();
    let base = "test_wait_for_message_timeout";
    Producer::build(&disk, writer(base).region_size(PAGE))?;
    let mut r = Consumer::build(&disk, reader(base).live())?;
    let (ready, elapsed) = r.wait_for_message(Some(50_000))?;
    assert!(!ready, "expected timeout, got ready");
    assert!(elapsed >= 45_000, "early: {elapsed:?}");
    assert!(elapsed < 200_000, "late: {elapsed:?}");
    Ok(())
}

#[test]
fn test_wait_for_message_skips_service_records() -> Result<(), Fail> {
    let disk = Disk::new();
    let base = "test_wait_for_message_skips_service";
    let big = vec![0xAAu8; 3968];
    let small: [u8; 8] = [0xBB; 8];
    let mut w = Producer::build(&disk, writer(base).region_size(PAGE))?;
    w.send(1, &big, 0)?;
    w.send(2, &small, 0)?;
    drop(w);

    let mut r = Consumer::build(&disk, reader(base))?;
    let first = r.try_read()?.expect("first message");
    assert_eq!(first.payload.len(), 3968);
    assert!(r.wait_for_message(Some(100_000))?.0);
    let second = r.try_read()?.expect("second message after Skip");
    assert_eq!(second.header.message_type, 2);
    assert_eq!(second.payload, &small);
    Ok(())
}

#[test]
fn test_reader_open_missing_channel_returns_notfound() {
    let disk = Disk::new();
    let base = "test_reader_open_missing_channel";
    let err = Consumer::open(&disk, base, ReaderMode::LateJoin)
        .err()
        .expect("must fail for missing channel");
    assert_eq!(err.kind(), ErrorKind::NotFound);
    let err = Consumer::open(&disk, base, ReaderMode::Live)
        .err()
        .expect("must fail for missing channel");
    assert_eq!(err.kind(), ErrorKind::NotFound);
}

// ---------- writing and reading ----------

#[test]
fn test_write_and_read_full_payload() -> Result<(), Fail> {
    let disk = Disk::new();
    let base = "test_write_read_payload";
    let mut w = Producer::build(
        &disk,
        writer(base)
            .region_size(PAGE)
            .file_roll_size((PAGE as u64) * 100),
    )?;
    let msg1: Vec<u8> = (0..100).map(|i| i as u8).collect();
    let msg2: Vec<u8> = vec![0x55; 200];
    let msg3: Vec<u8> = vec![1, 2, 3, 4, 5, 6, 7, 8, 9];
    w.send(201, &msg1, 0)?;
    w.roll_file()?;
    w.send(202, &msg2, 1)?;
    w.roll_file()?;
    w.send(203, &msg3, 2)?;

    let mut r = Consumer::open(&disk, base, ReaderMode::LateJoin)?;
    let msg = r.try_read()?.expect("missing msg1");
    assert_eq!(msg.header.message_type, 201);
    assert_eq!(msg.payload, &msg1[..]);
    let msg = r.try_read()?.expect("missing msg2");
    assert_eq!(msg.header.message_type, 202);
    assert_eq!(msg.payload, &msg2[..]);
    let msg = r.try_read()?.expect("missing msg3");
    assert_eq!(msg.header.message_type, 203);
    assert_eq!(msg.payload, &msg3[..]);
    assert!(r.try_read()?.is_none());
    Ok(())
}

#[test]
fn test_live_roll_reads_new_file_from_start() -> Result<(), Fail> {
    let disk = Disk::new();
    let base = "test_live_roll_from_start";
    let mut w = Producer::build(
        &disk,
        writer(base)
            .region_size(PAGE)
            .file_roll_size((PAGE as u64) * 10),
    )?;
    w.send(1, &[0x10; 16], 0)?;
    let mut r = Consumer::open(&disk, base, ReaderMode::Live)?;
    w.roll_file()?;
    let payload1 = vec![0x22; 24];
    let payload2 = vec![0x33; 8];
    w.send(2, &payload1, 0)?;
    w.send(3, &payload2, 0)?;

    assert_eq!(r.try_read()?.expect("missing msg1").payload, &payload1[..]);
    assert_eq!(r.try_read()?.expect("missing msg2").payload, &payload2[..]);
    assert!(r.try_read()?.is_none());
    Ok(())
}

#[test]
fn test_boundary_skip_and_alignment() -> Result<(), Fail> {
    let disk = Disk::new();
    let base = "test_boundary_skip";
    let mut w = Producer::build(
        &disk,
        writer(base)
            .region_size(PAGE)
            .file_roll_size((PAGE as u64) * 10),
    )?;
    let record_with_padding = PAGE - HEADER_SLOT;
    assert_eq!(record_with_padding % ALIGN, 0);
    let len = record_with_padding - HEADER_SLOT;
    w.try_reserve(len)?.fill(0xAB);
    w.commit(1, len as u32, 0)?;
    w.try_reserve(32)?.fill(0xCD);
    w.commit(2, 32, 1)?;

    let mut r = Consumer::open(&disk, base, ReaderMode::LateJoin)?;
    let m1 = r.try_read()?.expect("m1");
    assert_eq!(m1.header.message_type, 1);
    assert_eq!(m1.header_offset % ALIGN, 0);
    let m2 = r.try_read()?.expect("m2");
    assert_eq!(m2.header.message_type, 2);
    assert_eq!(m2.header_offset % ALIGN, 0);
    Ok(())
}

// ---------- batches ----------

fn rolling(base: &str) -> WriterBuilder<String> {
    writer(base)
        .region_size(PAGE)
        .file_roll_size((PAGE as u64) * 10)
}

#[test]
fn test_try_read_batch_skips_service_messages() -> Result<(), Fail> {
    let disk = Disk::new();
    let base = "test_batch_skip_service";
    let mut w = Producer::build(&disk, rolling(base))?;
    let payload1 = vec![0xA1; 32];
    let payload2 = vec![0xB2; 48];
    w.send(1, &payload1, 0)?;
    w.send(2, &payload2, 0)?;

    let mut r = Consumer::open(&disk, base, ReaderMode::LateJoin)?;
    r.with_batch(None, |batch| {
        assert_eq!(batch.len(), 2);
        let msg0 = batch.get(0).unwrap();
        assert_eq!(msg0.header().parsed_header_type(), Ok(HeaderType::User));
        assert_eq!(msg0.payload(), &payload1[..]);
        let msg1 = batch.get(1).unwrap();
        assert_eq!(msg1.header().parsed_header_type(), Ok(HeaderType::User));
        assert_eq!(msg1.payload(), &payload2[..]);
    })?
    .expect("missing batch");
    assert!(r.try_read_batch(None)?.is_none());
    Ok(())
}

#[test]
fn test_try_read_batch_across_regions() -> Result<(), Fail> {
    let disk = Disk::new();
    let base = "test_batch_across_regions";
    let mut w = Producer::build(&disk, rolling(base))?;
    let start = align_up(MESSAGE_HEADER_SIZE + CHANNEL_HEADER_SIZE);
    let record_with_padding = PAGE - start - HEADER_SLOT;
    assert_eq!(record_with_padding % ALIGN, 0);
    let len = record_with_padding - HEADER_SLOT;
    let payload1 = vec![0x11; len];
    let payload2 = vec![0x22; 32];
    w.send(10, &payload1, 0)?;
    w.send(11, &payload2, 0)?;

    let mut r = Consumer::open(&disk, base, ReaderMode::LateJoin)?;
    r.with_batch(None, |batch| {
        assert_eq!(batch.len(), 2);
        assert!(batch.maps.len() > 1);
        let file_seq = batch.maps[0].file_sequence;
        assert!(batch.maps.iter().all(|m| m.file_sequence == file_seq));
        assert_eq!(batch.get(0).unwrap().payload(), &payload1[..]);
        assert_eq!(batch.get(1).unwrap().payload(), &payload2[..]);
    })?
    .expect("missing batch");
    Ok(())
}

#[test]
fn test_try_read_batch_across_files() -> Result<(), Fail> {
    let disk = Disk::new();
    let base = "test_batch_across_files";
    let mut w = Producer::build(&disk, rolling(base))?;
    let payload1 = vec![0x3A; 64];
    let payload2 = vec![0x7B; 48];
    w.send(20, &payload1, 0)?;
    w.roll_file()?;
    w.send(21, &payload2, 0)?;

    let mut r = Consumer::open(&disk, base, ReaderMode::LateJoin)?;
    r.with_batch(None, |batch| {
        assert_eq!(batch.len(), 2);
        assert!(batch.maps.len() > 1);
        let file_seq = batch.maps[0].file_sequence;
        assert!(batch.maps.iter().any(|m| m.file_sequence != file_seq));
        assert_eq!(batch.get(0).unwrap().payload(), &payload1[..]);
        assert_eq!(batch.get(1).unwrap().payload(), &payload2[..]);
    })?
    .expect("missing batch");
    Ok(())
}

#[test]
fn test_try_read_batch_empty_does_not_advance() -> Result<(), Fail> {
    let disk = Disk::new();
    let base = "test_batch_empty";
    let _w = Producer::build(&disk, rolling(base))?;
    let mut r = Consumer::open(&disk, base, ReaderMode::Live)?;
    let before = r.core.read_position();
    assert!(r.try_read_batch(None)?.is_none());
    assert_eq!(r.core.read_position(), before);
    Ok(())
}

#[test]
fn test_try_read_batch_service_only_advances() -> Result<(), Fail> {
    let disk = Disk::new();
    let base = "test_batch_service_only_advances";
    let _w = Producer::build(&disk, rolling(base))?;
    let mut r = Consumer::open(&disk, base, ReaderMode::LateJoin)?;
    let before = r.core.read_position();
    assert!(r.try_read_batch(None)?.is_none());
    assert!(r.core.read_position() > before);
    Ok(())
}

#[test]
fn batch_limits_are_obeyed() -> Result<(), Fail> {
    let disk = Disk::new();
    let base = "batch_limits";
    let mut w = Producer::build(&disk, rolling(base))?;
    for i in 0..7u16 {
        w.send(i, &[i as u8; 5], i as u64)?;
    }
    let mut r = Consumer::build(&disk, reader(base).batch_limit(3))?;
    assert!(r.try_read_batch(Some(0))?.is_none());
    assert_eq!(r.core.read_position(), 0);
    let first = r.try_read_batch(None)?.expect("three by the reader's own limit");
    assert_eq!(first.len(), 3);
    let second = r.try_read_batch(Some(2))?.expect("two by the read's limit");
    assert_eq!(second.iter().map(|m| m.header.message_type).collect::<Vec<_>>(), vec![3, 4]);
    let rest = r.try_read_batch(Some(100))?.expect("the rest");
    assert_eq!(rest.iter().map(|m| m.payload.clone()).collect::<Vec<_>>(), vec![vec![5u8; 5], vec![6u8; 5]]);
    assert!(r.try_read_batch(None)?.is_none());
    Ok(())
}

#[test]
fn batches_and_single_reads_agree() -> Result<(), Fail> {
    let disk = Disk::new();
    let base = "batches_agree";
    let mut w = Producer::build(
        &disk,
        writer(base)
            .region_size(PAGE)
            .file_roll_size((PAGE as u64) * 2),
    )?;
    for i in 0..150u64 {
        let payload = vec![i as u8; (i as usize * 37) % 400];
        w.send(i as u16, &payload, i * 3)?;
    }
    let mut single = Consumer::open(&disk, base, ReaderMode::LateJoin)?;
    let mut one_by_one = Vec::new();
    while let Some(m) = single.try_read()? {
        one_by_one.push((m.header, m.payload));
    }
    assert_eq!(one_by_one.len(), 150);
    let mut batched = Consumer::open(&disk, base, ReaderMode::LateJoin)?;
    let mut in_batches = Vec::new();
    while let Some(batch) = batched.try_read_batch(Some(7))? {
        for m in batch {
            in_batches.push((m.header, m.payload));
        }
    }
    assert_eq!(one_by_one, in_batches);
    assert_eq!(single.core.read_position(), batched.core.read_position());
    assert_eq!(single.core.file_sequence(), batched.core.file_sequence());
    Ok(())
}

// ---------- damaged slots ----------

fn damage(disk: &Disk, base: &str, at: usize, bytes: &[u8]) {
    let file = disk.open(base).expect("segment");
    file.borrow_mut()[at..at + bytes.len()].copy_from_slice(bytes);
}

#[test]
fn test_invalid_committed_flag_returns_error() -> Result<(), Fail> {
    let disk = Disk::new();
    let base = "test_invalid_committed_flag";
    Producer::build(&disk, rolling(base))?;
    let start = align_up(MESSAGE_HEADER_SIZE + CHANNEL_HEADER_SIZE);
    damage(&disk, base, start, &[2]);

    let mut r = Consumer::open(&disk, base, ReaderMode::LateJoin)?;
    let err = match r.try_read() {
        Ok(_) => panic!("invalid committed flag should error"),
        Err(err) => err,
    };
    assert_eq!(err.kind(), ErrorKind::InvalidData);
    let mut r = Consumer::open(&disk, base, ReaderMode::LateJoin)?;
    let err = match r.try_read_batch(None) {
        Ok(_) => panic!("invalid committed flag should error"),
        Err(err) => err,
    };
    assert_eq!(err.kind(), ErrorKind::InvalidData);
    Ok(())
}

#[test]
fn test_invalid_header_type_returns_error() -> Result<(), Fail> {
    let disk = Disk::new();
    let base = "test_invalid_header_type";
    Producer::build(&disk, rolling(base))?;
    let start = align_up(MESSAGE_HEADER_SIZE + CHANNEL_HEADER_SIZE);
    damage(&disk, base, start, &[1, 99]);

    let mut r = Consumer::open(&disk, base, ReaderMode::LateJoin)?;
    let err = match r.try_read() {
        Ok(_) => panic!("invalid header_type should error"),
        Err(err) => err,
    };
    assert_eq!(err.kind(), ErrorKind::InvalidData);
    let mut r = Consumer::open(&disk, base, ReaderMode::LateJoin)?;
    let err = match r.try_read_batch(None) {
        Ok(_) => panic!("invalid header_type should error"),
        Err(err) => err,
    };
    assert_eq!(err.kind(), ErrorKind::InvalidData);
    Ok(())
}

#[test]
fn test_channel_name_round_trip() -> Result<(), Fail> {
    let disk = Disk::new();
    let base = "test_channel_name_round_trip";
    const NAME: &str = "fills.prod.options-mm.emea-1";
    let _w = Producer::build(&disk, writer(base).region_size(PAGE).channel_name(NAME)?)?;
    let r = Consumer::build(&disk, reader(base))?;
    assert_eq!(r.core.channel_name(), NAME);

    let too_long = "x".repeat(CHANNEL_NAME_MAX + 1);
    let err = writer(base).channel_name(&too_long).err().unwrap();
    assert_eq!(err.kind(), ErrorKind::InvalidInput);
    Ok(())
}

// ---------- crashes ----------

#[test]
fn test_writer_recovers_single_step_user_crash() -> Result<(), Fail> {
    let disk = Disk::new();
    let base = "test_writer_recovers_single_step_user_crash";
    let payload0: [u8; 8] = [0xAB; 8];
    let payload1: [u8; 8] = [0xCD; 8];
    {
        let mut w = Producer::build(&disk, writer(base).region_size(PAGE))?;
        w.send(1, &payload0, 0)?;
    }
    let record_size = (HEADER_SLOT + payload0.len()).next_multiple_of(ALIGN) as u64;
    rewind_write_position(&disk, base, record_size);

    let mut w = Producer::build(&disk, writer(base).region_size(PAGE))?;
    assert_eq!(w.next_record_index(), 1);
    w.send(2, &payload1, 0)?;
    assert_eq!(w.next_record_index(), 2);
    drop(w);

    let mut r = Consumer::open(&disk, base, ReaderMode::LateJoin)?;
    let m0 = r.try_read()?.expect("message 0 should be visible");
    assert_eq!(m0.payload, &payload0);
    assert_eq!(m0.header.message_type, 1);
    let m1 = r
        .try_read()?
        .expect("message 1 (post-recovery) should be visible");
    assert_eq!(m1.payload, &payload1);
    assert_eq!(m1.header.message_type, 2);
    assert!(r.try_read()?.is_none(), "no further messages");
    Ok(())
}

#[test]
fn test_writer_recovers_single_step_skip_crash() -> Result<(), Fail> {
    let disk = Disk::new();
    let base = "test_writer_recovers_single_step_skip_crash";
    let big = vec![0x77u8; 3904];
    let small_payload: [u8; 8] = [0xEE; 8];
    {
        let mut w = Producer::build(&disk, writer(base).region_size(PAGE))?;
        w.send(1, &big, 0)?;
        let _ = w.try_reserve(small_payload.len())?;
    }
    rewind_write_position(&disk, base, 32);

    let mut w = Producer::build(&disk, writer(base).region_size(PAGE))?;
    w.send(2, &small_payload, 0)?;
    drop(w);

    let mut r = Consumer::open(&disk, base, ReaderMode::LateJoin)?;
    let m0 = r.try_read()?.expect("big message should be visible");
    assert_eq!(m0.payload, &big[..]);
    let m1 = r.try_read()?.expect("small message should be visible");
    assert_eq!(m1.payload, &small_payload);
    assert_eq!(m1.header.message_type, 2);
    assert!(r.try_read()?.is_none());
    Ok(())
}

#[test]
fn test_base_record_index_accumulates_across_rolls() -> Result<(), Fail> {
    let disk = Disk::new();
    let base = "test_base_record_index_accumulates";
    let file_roll_size = (PAGE as u64) * 2;
    let payload = [0x5Au8; 64];
    let n = 200u64;
    let settings = || writer(base).region_size(PAGE).file_roll_size(file_roll_size);
    {
        let mut w = Producer::build(&disk, settings())?;
        for i in 0..n {
            assert_eq!(w.next_record_index(), i, "head before commit #{i}");
            w.send(0, &payload, i)?;
        }
        assert_eq!(w.next_record_index(), n);
    }
    {
        let w = Producer::build(&disk, settings())?;
        assert_eq!(w.next_record_index(), n, "head survives reopen across rolls");
    }
    let mut r = Consumer::build(&disk, reader(base))?;
    assert_eq!(r.core.base_record_index(), 0, "earliest (genesis) file base is 0");
    let mut count = 0u64;
    let mut max_base = 0u64;
    while let Some(m) = r.try_read()? {
        assert_eq!(m.header.user_meta_u64, count, "records contiguous");
        max_base = max_base.max(r.core.base_record_index());
        count += 1;
    }
    assert_eq!(count, n);
    assert!(max_base > 0, "expected a roll so a later file reports base > 0");
    Ok(())
}

#[test]
fn test_rejects_segment_with_wrong_sequence() -> Result<(), Fail> {
    let disk = Disk::new();
    let base = "test_rejects_wrong_sequence";
    {
        let mut w = Producer::build(&disk, writer(base).region_size(PAGE))?;
        w.send(0, &[1u8; 8], 0)?;
    }
    let p0 = make_channel_file_path(base, 0);
    let p1 = make_channel_file_path(base, 1);
    disk.copy(&p0, &p1);
    disk.remove(&p0);

    let werr = Producer::build(&disk, writer(base).region_size(PAGE))
        .err()
        .expect("writer must reject sequence-mismatched segment");
    assert_eq!(werr.kind(), ErrorKind::InvalidData);
    assert!(werr.text().contains("channel_sequence"));

    let rerr = Consumer::build(&disk, reader(base))
        .err()
        .expect("reader must reject sequence-mismatched segment");
    assert_eq!(rerr.kind(), ErrorKind::InvalidData);
    assert!(rerr.text().contains("channel_sequence"));
    Ok(())
}

#[test]
fn test_writer_refuses_multi_step_crash() -> Result<(), Fail> {
    let disk = Disk::new();
    let base = "test_writer_refuses_multi_step_crash";
    let payload: [u8; 8] = [0xAB; 8];
    {
        let mut w = Producer::build(&disk, writer(base).region_size(PAGE))?;
        for n in 0..2 {
            w.send(n as u16, &payload, 0)?;
        }
    }
    let record_size = (HEADER_SLOT + payload.len()).next_multiple_of(ALIGN) as u64;
    rewind_write_position(&disk, base, 2 * record_size);

    let err = Producer::build(&disk, writer(base).region_size(PAGE))
        .err()
        .expect("writer must refuse multi-step crash state");
    assert_eq!(err.kind(), ErrorKind::InvalidData);
    assert!(
        err.text().contains("multi-record publish_wp lag")
            || err.text().contains("not a pre-installed header"),
        "unexpected error: {}",
        err.text()
    );

    let mut r = Consumer::open(&disk, base, ReaderMode::LateJoin)?;
    assert!(r.try_read()?.is_some());
    assert!(r.try_read()?.is_some());
    assert!(r.try_read()?.is_none());
    Ok(())
}

#[test]
fn test_writer_reopens_after_commit_without_publish_wp() -> Result<(), Fail> {
    let disk = Disk::new();
    let base = "test_writer_reopens_after_commit_without_publish_wp";
    let payload: [u8; 16] = [0xCD; 16];
    {
        let mut w = Producer::build(&disk, writer(base).region_size(PAGE))?;
        for n in 0..2 {
            w.send(n as u16, &payload, 0)?;
        }
    }
    let record_size = (HEADER_SLOT + payload.len()).next_multiple_of(ALIGN) as u64;
    rewind_write_position(&disk, base, record_size);
    let w = Producer::build(&disk, writer(base).region_size(PAGE))?;
    assert_eq!(w.next_record_index(), 2);
    let mut r = Consumer::open(&disk, base, ReaderMode::LateJoin)?;
    assert!(r.try_read()?.is_some());
    assert!(r.try_read()?.is_some());
    assert!(r.try_read()?.is_none());
    Ok(())
}

// ---------- files of a channel ----------

#[test]
fn test_partial_sweep_and_invisibility() -> Result<(), Fail> {
    let disk = Disk::new();
    let base = "test_partial_sweep_and_invisibility";
    let partial0 = make_partial_channel_file_path(base, 0);
    let partial1 = make_partial_channel_file_path(base, 1);
    assert_eq!(partial0, format!("{base}.partial"));
    assert_eq!(partial1, format!("{base}.1.partial"));
    disk.write(&partial0, b"stale-bytes");
    disk.write(&partial1, b"stale-bytes");

    let sequences = find_all_sequences(&disk.names(), base);
    assert!(
        sequences.is_empty(),
        "find_all_sequences leaked partial sibling: {sequences:?}"
    );

    let mut w = Producer::build(&disk, writer(base).region_size(PAGE))?;
    assert!(
        !disk.has(&partial0),
        "sweep_stale_partial_files did not unlink seq-0 orphan"
    );
    assert!(
        !disk.has(&partial1),
        "sweep_stale_partial_files did not unlink seq-1 orphan"
    );
    w.send(7, &[0xCD_u8; 8], 0)?;
    drop(w);

    let mut r = Consumer::open(&disk, base, ReaderMode::LateJoin)?;
    let msg = r.try_read()?.expect("first message visible");
    assert_eq!(msg.header.message_type, 7);
    assert!(r.try_read()?.is_none());
    Ok(())
}

#[test]
fn test_preallocation_rejects_overflowing_roll_size() {
    let disk = Disk::new();
    let base = "test_preallocation_rejects_overflowing_roll_size";
    let err = Producer::build(&disk, writer(base).region_size(PAGE).file_roll_size(u64::MAX))
        .err()
        .expect("must refuse u64::MAX roll size");
    assert_eq!(err.kind(), ErrorKind::InvalidInput);
    assert!(
        err.text().contains("overflowing u64"),
        "unexpected error: {}",
        err.text()
    );
    assert!(
        !disk.has(&format!("{base}.partial")),
        "validation failure leaked a .partial orphan"
    );
}

#[test]
fn test_preallocation_rejects_roll_size_past_i64_max() {
    let disk = Disk::new();
    let base = "test_preallocation_rejects_roll_size_past_i64_max";
    let err = Producer::build(
        &disk,
        writer(base).region_size(PAGE).file_roll_size(i64::MAX as u64),
    )
    .err()
    .expect("must refuse a roll size past i64::MAX");
    assert_eq!(err.kind(), ErrorKind::InvalidInput);
    assert!(
        err.text().contains("i64::MAX"),
        "unexpected error: {}",
        err.text()
    );
    assert!(!disk.has(&format!("{base}.partial")));
}

#[test]
fn test_build_rejects_roll_size_below_two_regions() {
    let disk = Disk::new();
    let base = "test_build_rejects_roll_size_below_two_regions";
    let err = Producer::build(
        &disk,
        writer(base).region_size(PAGE).file_roll_size(PAGE as u64),
    )
    .err()
    .expect("must refuse a sub-two-region roll size");
    assert_eq!(err.kind(), ErrorKind::InvalidInput);
    assert!(
        err.text().contains("two regions"),
        "unexpected error: {}",
        err.text()
    );
    assert!(!disk.has(&format!("{base}.partial")));
}

#[test]
fn test_preallocation_rounds_up_to_region_boundary() -> Result<(), Fail> {
    let disk = Disk::new();
    let base = "test_preallocation_rounds_up_to_region_boundary";
    let file_roll_size: u64 = 10_000_000;
    let expected = file_roll_size.div_ceil(PAGE as u64) * PAGE as u64;
    assert_ne!(expected, file_roll_size, "test premise: roll size unaligned");
    let _w = Producer::build(
        &disk,
        writer(base).region_size(PAGE).file_roll_size(file_roll_size),
    )?;
    assert_eq!(disk.len(base), expected);
    Ok(())
}

#[test]
fn test_writer_does_not_shrink_preallocation_on_region_roll() -> Result<(), Fail> {
    let disk = Disk::new();
    let base = "test_writer_does_not_shrink_preallocation_on_region_roll";
    let file_roll_size = (PAGE as u64) * 4;
    let settings = || writer(base).region_size(PAGE).file_roll_size(file_roll_size);
    Producer::build(&disk, settings())?;
    assert_eq!(disk.len(base), file_roll_size);

    let mut w = Producer::build(&disk, settings())?;
    let payload = vec![0xAB_u8; PAGE / 2 + 64];
    for n in 0..3 {
        w.send(n as u16, &payload, 0)?;
    }
    drop(w);
    let after_size = disk.len(base);
    assert_eq!(
        after_size, file_roll_size,
        "preallocation was undone: file shrank from {file_roll_size} to {after_size}"
    );
    Ok(())
}

#[test]
fn test_existing_file_reopen_promotes_to_preallocation() -> Result<(), Fail> {
    let disk = Disk::new();
    let base = "test_existing_file_reopen_promotes_to_preallocation";
    let file_roll_size = (PAGE as u64) * 4;
    Producer::build(&disk, writer(base).region_size(PAGE))?;
    assert_eq!(disk.len(base), PAGE as u64);
    let _w = Producer::build(
        &disk,
        writer(base).region_size(PAGE).file_roll_size(file_roll_size),
    )?;
    assert_eq!(disk.len(base), file_roll_size);
    Ok(())
}

#[test]
fn test_partial_sweep_does_not_match_non_numeric() -> Result<(), Fail> {
    let disk = Disk::new();
    let base = "test_partial_sweep_does_not_match_non_numeric";
    let unrelated = format!("{base}.notes.partial");
    disk.write(&unrelated, b"user notes - keep me");
    let _w = Producer::build(
        &disk,
        writer(base)
            .region_size(PAGE)
            .file_roll_size((PAGE as u64) * 2),
    )?;
    assert!(disk.has(&unrelated), "sweep destroyed a non-segment sibling");
    Ok(())
}

#[test]
fn test_cleanup_removes_partial_siblings() {
    let disk = Disk::new();
    let base = "test_cleanup_removes_partial_siblings";
    disk.write(&format!("{base}.partial"), b"seq0");
    disk.write(&format!("{base}.1.partial"), b"seq1");
    disk.write(&format!("{base}.2.partial"), b"seq2");
    disk.write(&format!("{base}.keep.partial"), b"unrelated");
    disk.cleanup(base);
    assert!(!disk.has(&format!("{base}.partial")));
    assert!(!disk.has(&format!("{base}.1.partial")));
    assert!(!disk.has(&format!("{base}.2.partial")));
    assert!(
        disk.has(&format!("{base}.keep.partial")),
        "cleanup destroyed an unrelated sibling"
    );
}

#[test]
fn test_fresh_file_preallocates_to_file_roll_size() -> Result<(), Fail> {
    let disk = Disk::new();
    let base = "test_fresh_file_preallocates_to_file_roll_size";
    let file_roll_size = (PAGE as u64) * 8;
    let _w = Producer::build(
        &disk,
        writer(base).region_size(PAGE).file_roll_size(file_roll_size),
    )?;
    assert_eq!(
        disk.len(base),
        file_roll_size,
        "preallocation: fresh file size mismatch"
    );
    disk.cleanup(base);
    let _w = Producer::build(&disk, writer(base).region_size(PAGE))?;
    assert_eq!(
        disk.len(base),
        PAGE as u64,
        "no-roll case should fall back to one region"
    );
    Ok(())
}

// ---------- reservations ----------

#[test]
fn test_try_reserve_rejects_oversized_payload() -> Result<(), Fail> {
    let disk = Disk::new();
    let base = "test_try_reserve_rejects_oversized_payload";
    let mut w = Producer::build(&disk, writer(base).region_size(PAGE))?;
    let err = w
        .try_reserve(PAGE * 2)
        .err()
        .expect("oversized reservation must error");
    assert!(
        err.text().contains("cannot fit in region_size"),
        "unexpected error: {}",
        err.text()
    );
    Ok(())
}

#[test]
fn test_commit_length_contract() -> Result<(), Fail> {
    let disk = Disk::new();
    let base = "test_commit_length_contract";
    let mut w = Producer::build(&disk, writer(base).region_size(PAGE))?;

    w.try_reserve(64)?;
    let err = w
        .commit(0, 128, 0)
        .expect_err("commit length > reserved must error");
    assert!(
        err.text()
            .contains("commit length 128 exceeds try_reserve size 64"),
        "unexpected error: {}",
        err.text()
    );

    let err = w
        .commit(0, 0, 0)
        .expect_err("commit with no preceding reserve must error");
    assert!(
        err.text().contains("commit without preceding try_reserve"),
        "unexpected error: {}",
        err.text()
    );

    w.try_reserve(128)?[..16].copy_from_slice(&[0xAA_u8; 16]);
    w.commit(11, 16, 0)?;
    w.try_reserve(8)?.copy_from_slice(&[0xBB_u8; 8]);
    w.commit(22, 8, 0)?;
    drop(w);

    let mut r = Consumer::open(&disk, base, ReaderMode::LateJoin)?;
    let m = r.try_read()?.expect("first record");
    assert_eq!(m.header.message_type, 11);
    assert_eq!(m.header.length, 16);
    let m = r.try_read()?.expect("second record");
    assert_eq!(m.header.message_type, 22);
    assert_eq!(m.header.length, 8);
    assert!(r.try_read()?.is_none());
    Ok(())
}

#[test]
fn test_abandoned_reservation_does_not_survive_roll() -> Result<(), Fail> {
    let disk = Disk::new();
    let base = "test_abandoned_reservation_does_not_survive_roll";
    let mut w = Producer::build(
        &disk,
        writer(base)
            .region_size(PAGE)
            .file_roll_size((PAGE as u64) * 4),
    )?;
    w.try_reserve(8)?;
    w.roll_file()?;
    let err = w
        .commit(0, 8, 0)
        .expect_err("commit must require a fresh reserve after roll_file");
    assert!(
        err.text().contains("commit without preceding try_reserve"),
        "unexpected error: {}",
        err.text()
    );
    w.send(9, &[0xCD_u8; 8], 0)?;
    Ok(())
}

// ---------- owned messages ----------

#[test]
fn owned_message_outlives_its_reader() -> Result<(), Fail> {
    let disk = Disk::new();
    let base = "test_owned_outlives_reader";
    write_msgs(&disk, base, &[7], 0xA1)?;
    let msg = {
        let mut r = Consumer::open(&disk, base, ReaderMode::LateJoin)?;
        r.try_read_owned()?
            .expect("one committed user record is available")
    };
    disk.cleanup(base);
    assert_eq!(msg.len(), 64);
    assert_eq!(owned_header(&msg).message_type, 7);
    assert!(owned_payload(&msg).iter().all(|&b| b == 0xA1));
    assert_eq!(
        msg.as_ref(&msg.region.bytes()).payload(),
        owned_payload(&msg)
    );
    Ok(())
}

#[test]
fn owned_message_survives_prune_and_region_switch() -> Result<(), Fail> {
    let disk = Disk::new();
    let base = "test_owned_survives_prune";
    let ids: Vec<u16> = (0..(PAGE / 64) * 3).map(|i| i as u16).collect();
    write_msgs(&disk, base, &ids, 0xB2)?;
    let mut r = Consumer::open(&disk, base, ReaderMode::LateJoin)?;
    let first = r.try_read_owned()?.expect("first record");
    let first_payload = owned_payload(&first);
    let mut drained = 0usize;
    while r.try_read_owned()?.is_some() {
        drained += 1;
    }
    assert!(
        drained >= ids.len() - 1,
        "expected to drain the remaining records, got {drained} of {}",
        ids.len() - 1
    );
    assert_eq!(owned_payload(&first), first_payload);
    assert!(first_payload.iter().all(|&b| b == 0xB2));
    Ok(())
}

#[test]
fn read_owned_into_resumes_after_more_writes() -> Result<(), Fail> {
    let disk = Disk::new();
    let base = "test_owned_drain_resumes";
    let mut w = Producer::build(
        &disk,
        writer(base)
            .region_size(PAGE)
            .file_roll_size((PAGE as u64) * 8)
            .mtu(0),
    )?;
    let publish = |w: &mut Producer, id: u16| w.send(id, &[id as u8; 64], id as u64);
    publish(&mut w, 1)?;
    publish(&mut w, 2)?;

    let mut r = Consumer::open(&disk, base, ReaderMode::LateJoin)?;
    let mut buf: Vec<Owned> = Vec::new();
    assert_eq!(r.read_owned_into(&mut buf, None)?, 2);
    assert_eq!(types(&buf), vec![1, 2], "first pass drains what was there");
    buf.clear();
    assert_eq!(r.read_owned_into(&mut buf, None)?, 0);
    assert!(buf.is_empty());
    publish(&mut w, 3)?;
    assert_eq!(r.read_owned_into(&mut buf, None)?, 1);
    assert_eq!(types(&buf), vec![3], "draining resumes after a zero count");
    Ok(())
}

#[test]
fn read_owned_into_bounds_a_pass_and_appends() -> Result<(), Fail> {
    let disk = Disk::new();
    let base = "test_owned_drain_max";
    write_msgs(&disk, base, &[10, 11, 12, 13], 0xC3)?;
    let mut r = Consumer::open(&disk, base, ReaderMode::LateJoin)?;
    let mut buf: Vec<Owned> = Vec::new();
    assert_eq!(r.read_owned_into(&mut buf, Some(2))?, 2);
    assert_eq!(types(&buf), vec![10, 11]);
    assert_eq!(r.read_owned_into(&mut buf, Some(2))?, 2);
    assert_eq!(types(&buf), vec![10, 11, 12, 13]);
    assert_eq!(
        r.read_owned_into(&mut buf, Some(0))?,
        0,
        "Some(0) is a no-op"
    );
    assert_eq!(types(&buf), vec![10, 11, 12, 13]);
    assert_eq!(
        r.read_owned_into(&mut buf, None)?,
        0,
        "and there is nothing left for an unbounded pass"
    );
    Ok(())
}

#[test]
fn draining_buffer_survives_peekable() -> Result<(), Fail> {
    let disk = Disk::new();
    let base = "test_owned_drain_peekable";
    write_msgs(&disk, base, &[21, 22, 23], 0xD4)?;
    let mut r = Consumer::open(&disk, base, ReaderMode::LateJoin)?;
    let mut buf = r.owned_batch(None)?;
    assert_eq!(types(&buf), vec![21, 22, 23]);
    {
        let mut it = buf.iter().peekable();
        assert_eq!(it.peek().map(|m| owned_header(m).message_type), Some(21));
    }
    assert_eq!(types(&buf), vec![21, 22, 23]);
    let mut seen = Vec::new();
    let mut it = buf.drain(..).peekable();
    while let Some(msg) = it.next() {
        let next_type = it.peek().map(|m| owned_header(m).message_type);
        seen.push((owned_header(&msg).message_type, next_type));
    }
    assert_eq!(seen, vec![(21, Some(22)), (22, Some(23)), (23, None)]);
    Ok(())
}

#[test]
fn owned_batch_matches_read_owned_into() -> Result<(), Fail> {
    let disk = Disk::new();
    let base = "test_owned_batch_wrapper";
    write_msgs(&disk, base, &[41, 42, 43, 44], 0xF6)?;
    let mut r = Consumer::open(&disk, base, ReaderMode::LateJoin)?;
    assert_eq!(types(&r.owned_batch(Some(2))?), vec![41, 42]);
    assert_eq!(types(&r.owned_batch(None)?), vec![43, 44]);
    assert!(r.owned_batch(None)?.is_empty());
    Ok(())
}

#[test]
fn batch_get_owned_outlives_the_batch_and_reader() -> Result<(), Fail> {
    let disk = Disk::new();
    let base = "test_batch_get_owned";
    write_msgs(&disk, base, &[51, 52, 53], 0x17)?;
    let kept = {
        let mut r = Consumer::open(&disk, base, ReaderMode::LateJoin)?;
        r.with_batch(None, |batch| {
            assert_eq!(batch.len(), 3);
            assert!(batch.get_owned(3).is_none(), "out of range");
            let kept = batch.get_owned(1).expect("second record");
            assert_eq!(
                owned_payload(&kept),
                batch.get(1).expect("second").payload()
            );
            kept
        })?
        .expect("three records")
    };
    disk.cleanup(base);
    assert_eq!(owned_header(&kept).message_type, 52);
    assert_eq!(kept.len(), 64);
    assert!(owned_payload(&kept)
        .iter()
        .all(|&b| b == 0x17u8.wrapping_add(1)));
    Ok(())
}

#[test]
fn borrowed_and_owned_reads_share_one_cursor() -> Result<(), Fail> {
    let disk = Disk::new();
    let base = "test_owned_borrowed_interleave";
    write_msgs(&disk, base, &[21, 22, 23], 0xD4)?;
    let mut r = Consumer::open(&disk, base, ReaderMode::LateJoin)?;
    let a = r.try_read()?.expect("first").header.message_type;
    let b = owned_header(&r.try_read_owned()?.expect("second")).message_type;
    let c = r.try_read()?.expect("third").header.message_type;
    assert_eq!((a, b, c), (21, 22, 23));
    assert!(r.try_read()?.is_none());
    Ok(())
}

#[test]
fn owned_message_and_reader_are_send_and_sync() {
    fn assert_send_sync<T: Send + Sync>() {}
    assert_send_sync::<OwnedMessage<Arc<Vec<u8>>>>();
    assert_send_sync::<Reader<Arc<Vec<u8>>>>();
    assert_send_sync::<MessageRef<'static>>();
}

// ---------- files without a wire version ----------

#[test]
fn test_migrate_refuses_v3_source() -> Result<(), Fail> {
    let disk = Disk::new();
    let v3_src = "test_migrate_refuses_v3_src";
    Producer::build(&disk, writer(v3_src).region_size(PAGE))?;
    let file = disk.open(&make_channel_file_path(v3_src, 0))?;
    let mut p = file.borrow()[..80].to_vec();
    let err =
        migrate_file_v2_to_v3(disk.len(v3_src), false, &mut p).expect_err("must refuse v3 source");
    assert_eq!(err.kind(), ErrorKind::InvalidData);
    assert!(err.message().contains("does not look like v2"));
    assert_eq!(p, file.borrow()[..80]);
    Ok(())
}

#[test]
fn test_migrate_refuses_existing_dst() -> Result<(), Fail> {
    let disk = Disk::new();
    let v2_src = "test_migrate_refuses_existing_src";
    let v3_dst = "test_migrate_refuses_existing_dst";
    Producer::build(&disk, writer(v2_src).region_size(PAGE))?;
    disk.open(v2_src)?.borrow_mut()[48..80].fill(0);
    Producer::build(&disk, writer(v3_dst).region_size(PAGE))?;
    let mut p = disk.open(v2_src)?.borrow()[..80].to_vec();
    let err = migrate_file_v2_to_v3(disk.len(v2_src), disk.open(v3_dst).is_ok(), &mut p)
        .expect_err("must refuse existing dst");
    assert_eq!(err.kind(), ErrorKind::AlreadyExists);
    Ok(())
}

#[test]
fn segments_of_any_region_size_are_not_migrated() -> Result<(), Fail> {
    let disk = Disk::new();
    for size in [PAGE, 16 * PAGE, 1 << 20] {
        Producer::build(&disk, writer("c").region_size(size))?;
        let mut p = disk.open("c")?.borrow()[..80].to_vec();
        let err =
            migrate_file_v2_to_v3(disk.len("c"), false, &mut p).expect_err("current version");
        assert!(err.message().contains("does not look like v2"));
        disk.cleanup("c");
    }
    Ok(())
}

#[test]
fn test_migrate_channel_missing_source_returns_notfound() {
    let names: Vec<String> = Vec::new();
    let err = migrate_channel_v2_to_v3(
        &names,
        "test_migrate_channel_missing_src",
        &names,
        "test_migrate_channel_missing_dst",
    )
    .err()
    .unwrap();
    assert_eq!(err.kind(), ErrorKind::NotFound);
}

// ---------- what spans calls ----------

#[test]
fn batches_without_a_limit_have_none() -> Result<(), Fail> {
    let disk = Disk::new();
    let mut w = Producer::build(&disk, writer("big").region_size(1 << 21))?;
    for i in 0..65_536u64 {
        w.send(1, &[], i)?;
    }
    let mut r = Consumer::build(&disk, reader("big"))?;
    let metas = r
        .with_batch(None, |b| {
            assert_eq!(b.len(), 65_536);
            b.get(65_535).expect("the last one").header().user_meta_u64
        })?
        .expect("a batch");
    assert_eq!(metas, 65_535);
    assert!(r.try_read()?.is_none());
    Ok(())
}

#[test]
fn batches_do_not_enter_foreign_segments() -> Result<(), Fail> {
    let disk = Disk::new();
    let mut w = Producer::build(&disk, writer("c").region_size(PAGE).generation(7))?;
    w.send(1, b"old", 1)?;
    w.roll_file()?;
    w.send(2, b"new", 2)?;
    let next = disk.open("c.1")?;
    let sound = next.borrow().clone();
    // Bytes of the base index, of the generation and of the sequence number.
    for at in [32usize, 136, 40] {
        next.borrow_mut()[at] = 99;
        let mut r = Consumer::build(&disk, reader("c"))?;
        let err = r.try_read_batch(None).err().expect("a foreign segment");
        assert_eq!(err.kind(), ErrorKind::InvalidData);
        assert_eq!((r.core.file_sequence(), r.core.base_record_index()), (0, 0));
        assert_eq!(r.try_read()?.expect("still there").payload, b"old");
        assert_eq!(r.try_read().err().map(|e| e.kind()), Some(ErrorKind::InvalidData));
        next.borrow_mut().copy_from_slice(&sound);
    }
    let mut r = Consumer::build(&disk, reader("c"))?;
    assert_eq!(r.try_read_batch(None)?.expect("both").len(), 2);
    Ok(())
}

#[test]
fn base_and_name_follow_a_batch_over_a_roll() -> Result<(), Fail> {
    let disk = Disk::new();
    let mut w = Producer::build(&disk, writer("c").region_size(PAGE).channel_name("feed")?)?;
    w.send(1, b"a", 1)?;
    w.send(1, b"b", 2)?;
    w.roll_file()?;
    w.send(1, b"c", 3)?;
    let mut r = Consumer::build(&disk, reader("c"))?;
    assert_eq!(r.core.base_record_index(), 0);
    assert_eq!(r.try_read_batch(None)?.expect("all").len(), 3);
    assert_eq!((r.core.file_sequence(), r.core.base_record_index()), (1, 2));
    assert_eq!(r.core.channel_name(), "feed");
    Ok(())
}

#[test]
fn failed_rolls_leave_the_writer_as_it_was() -> Result<(), Fail> {
    let disk = Disk::new();
    let mut w = Producer::build(&disk, writer("c").region_size(PAGE).generation(3))?;
    w.send(1, b"first", 1)?;
    w.try_reserve(8)?.copy_from_slice(b"reserved");
    let before = (w.core.state().file_sequence, w.next_record_index(), w.generation());
    // The roll gets as far as the mark; the next segment never gets its name.
    {
        let mut bytes = w.file.borrow_mut();
        let spec = w.core.plan_roll(&bytes[..PAGE]);
        assert_eq!((spec.sequence, spec.base_record_index), (1, 1));
        let _abandoned = w.core.stage_roll(&mut bytes[..PAGE], 123);
    }
    assert_eq!(
        (w.core.state().file_sequence, w.next_record_index(), w.generation()),
        before
    );
    assert_eq!(find_all_sequences(&disk.names(), "c"), vec![0]);
    let mut r = Consumer::build(&disk, reader("c"))?;
    assert_eq!(r.try_read()?.expect("the first").payload, b"first");
    assert!(r.try_read()?.is_none());
    w.commit(1, 8, 0)?;
    assert_eq!(r.try_read()?.expect("the second").payload, b"reserved");
    assert!(r.try_read()?.is_none());
    Ok(())
}

#[test]
fn record_numbers_survive_a_crash() -> Result<(), Fail> {
    let disk = Disk::new();
    {
        let mut w = Producer::build(&disk, writer("c").region_size(PAGE))?;
        for i in 0..3u64 {
            w.send(1, &i.to_le_bytes(), i)?;
        }
        w.try_reserve(8)?.fill(9);
        // Published, and neither counted nor led to.
        let mut bytes = w.file.borrow_mut();
        w.core.commit(&mut bytes[..PAGE], 1, 8, 3)?;
    }
    let mut w = Producer::build(&disk, writer("c").region_size(PAGE))?;
    assert_eq!(w.next_record_index(), 4);
    let mut r = Consumer::build(&disk, reader("c"))?;
    assert_eq!(r.try_read_batch(None)?.expect("all").len(), 4);
    assert_eq!(r.head_record_index()?, 4);
    w.roll_file()?;
    w.send(1, b"next", 4)?;
    assert_eq!(w.next_record_index(), 5);
    assert_eq!(r.try_read()?.expect("behind the roll").payload, b"next");
    assert_eq!(r.core.base_record_index(), 4);
    Ok(())
}

#[test]
fn record_numbers_survive_a_crash_at_either_point() -> Result<(), Fail> {
    let disk = Disk::new();
    for counted in [false, true] {
        {
            let mut w = Producer::build(&disk, writer("c").region_size(PAGE))?;
            for i in 0..9u64 {
                w.send(1, &[i as u8; 1000], i)?;
            }
            w.try_reserve(8)?.fill(9);
            let at = w.core.state().current_region_index as usize * PAGE;
            assert!(at >= 2 * PAGE);
            let mut bytes = w.file.borrow_mut();
            w.core.commit(&mut bytes[at..at + PAGE], 1, 8, 9)?;
            if counted {
                // The writer dies with the count raised and the write position not stored.
                bytes[24..32].copy_from_slice(&10u64.to_le_bytes());
            }
        }
        let mut w = Producer::build(&disk, writer("c").region_size(PAGE))?;
        assert_eq!(w.next_record_index(), 10);
        let mut r = Consumer::build(&disk, reader("c"))?;
        assert_eq!(r.try_read_batch(None)?.expect("all").len(), 10);
        w.roll_file()?;
        w.send(1, b"next", 10)?;
        assert_eq!(w.next_record_index(), 11);
        assert_eq!(r.try_read()?.expect("behind the roll").payload, b"next");
        assert_eq!(r.core.base_record_index(), 10);
        disk.cleanup("c");
    }
    Ok(())
}

#[test]
fn names_keep_their_inner_zero_bytes() -> Result<(), Fail> {
    let disk = Disk::new();
    for name in ["a\0b", "", "plain", "\0\0x"] {
        Producer::build(&disk, writer("c").region_size(PAGE).channel_name(name)?)?;
        assert_eq!(Consumer::build(&disk, reader("c"))?.core.channel_name(), name);
        disk.cleanup("c");
    }
    Ok(())
}

#[test]
fn sizes_that_never_fit_are_refused() -> Result<(), Fail> {
    let disk = Disk::new();
    let mut w = Producer::build(&disk, writer("c").region_size(PAGE))?;
    for size in [usize::MAX, usize::MAX - 39, usize::MAX - 40, PAGE] {
        match w.try_reserve(size).err().expect("too large") {
            Fail::Core(Error::ReservationExceedsRegion { msg_size, region_size, needed }) => {
                assert_eq!((msg_size, region_size), (size, PAGE));
                assert!(needed > PAGE);
            }
            other => panic!("another error: {other:?}"),
        }
        assert!(w.commit(1, 8, 0).is_err());
    }
    Ok(())
}

#[test]
fn drains_keep_their_bound_over_regions_and_segments() -> Result<(), Fail> {
    let disk = Disk::new();
    let mut w = Producer::build(
        &disk,
        writer("c").region_size(PAGE).file_roll_size(2 * PAGE as u64),
    )?;
    for i in 0..20u64 {
        w.send(i as u16, &[i as u8; 900], i)?;
    }
    assert!(w.core.state().file_sequence >= 2);
    let mut r = Consumer::build(&disk, reader("c"))?;
    let mut out = Vec::new();
    assert_eq!(r.read_owned_into(&mut out, Some(13))?, 13);
    assert_eq!(r.read_owned_into(&mut out, Some(13))?, 7);
    let expected: Vec<u16> = (0..20).collect();
    assert_eq!(types(&out), expected);
    let mut b = Consumer::build(&disk, reader("c"))?;
    let first = b.try_read_batch(Some(13))?.expect("a batch");
    assert_eq!(first.len(), 13);
    assert_eq!(b.try_read()?.expect("the next one").header.message_type, 13);
    Ok(())
}

#[test]
fn joining_late_and_live() -> Result<(), Fail> {
    let disk = Disk::new();
    let mut w = Producer::build(&disk, writer("c").region_size(PAGE))?;
    w.send(1, b"before", 0)?;
    w.roll_file()?;
    w.send(2, b"before", 0)?;
    let mut live = Consumer::build(&disk, reader("c").live())?;
    assert!(live.try_read()?.is_none());
    w.send(3, b"after", 0)?;
    assert_eq!(live.try_read()?.expect("the next one").header.message_type, 3);
    assert!(live.try_read()?.is_none());
    w.roll_file()?;
    w.send(4, b"after", 0)?;
    assert_eq!(live.try_read()?.expect("behind the roll").header.message_type, 4);
    assert!(live.try_read()?.is_none());
    let mut late = Consumer::build(&disk, reader("c").late_join())?;
    let all = late.owned_batch(None)?;
    assert_eq!(types(&all), vec![1, 2, 3, 4]);
    Ok(())
}
