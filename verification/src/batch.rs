//! Reading many messages at once.
//!
//! A batch is scanned region by region. Between the steps the caller maps the
//! regions and opens the segments that the scan asks for.
use vstd::prelude::*;

use crate::channel::{
    header_at, HeaderType, MessageHeader, CHANNEL_NAME_MAX, FIRST_SLOT, HEADER_SLOT,
};
use crate::error::Error;
use crate::layout::{align_up, MAX_FILE_OFFSET};
use crate::log::{after, record_at, room, seek, seg_walk, slot_at, walk, Hit, Record, Slot};
use crate::message::{MessageRef, OwnedMessage};
use crate::reader::{
    check_continuation, message_header_info, BatchSeg, MappedRegion, MsgPos, Outcome, Reader,
    ReaderView,
};

verus! {

broadcast use vstd::slice::group_slice_axioms;

/// A batch in the making.
#[derive(Debug, Clone, Copy)]
pub struct BatchScan {
    /// How many messages the batch holds at most.
    pub max: usize,
    /// The segment that the scan has come to.
    pub sequence: u64,
    /// Absolute index of that segment's first message.
    pub base_record_index: u64,
    /// The name field of that segment.
    pub channel_name: [u8; CHANNEL_NAME_MAX],
    /// The position there that it has come to.
    pub cursor: u64,
    /// Whether it has stepped over any record.
    pub progressed: bool,
}

/// What a step of a batch scan comes to.
#[derive(Debug, Clone, Copy, PartialEq, Eq, Structural)]
pub enum BatchStep {
    /// The next slot is not published yet.
    Waiting,
    /// The batch holds as many messages as it may.
    Full,
    /// The region is read: the scan goes on in the next one.
    NextRegion,
    /// The segment is read: the scan goes on in the one with this sequence number.
    NextFile { sequence: u64 },
}

/// Why a batch scan stops in a region.
pub enum TakeStop {
    /// Behind the last message that the batch may hold.
    Full { off: int },
    /// At a slot that is not published yet.
    Tail { off: int },
    /// At the end of the region.
    Edge,
    /// At the mark that the channel goes on in the next segment.
    Roll { off: int },
    /// At a slot that makes no sense.
    Bad { off: int, error: Error },
}

/// What a batch scan takes from a region: the offsets of messages.
#[verifier::ext_equal]
pub struct Take {
    pub offs: Seq<int>,
    pub stop: TakeStop,
}

/// What a batch scan from `off` on takes, if it may take `n` messages.
pub open spec fn take(r: Seq<u8>, off: int, visible: int, n: int) -> Take
    decreases room(r, off),
{
    if off >= r.len() {
        Take { offs: seq![], stop: TakeStop::Edge }
    } else {
        match slot_at(r, off, visible) {
            Slot::Waiting => Take { offs: seq![], stop: TakeStop::Tail { off } },
            Slot::Service { next } => take(r, next, visible, n),
            Slot::User { next } => if n <= 1 {
                Take { offs: seq![off], stop: TakeStop::Full { off: next } }
            } else {
                let rest = take(r, next, visible, n - 1);
                Take { offs: seq![off] + rest.offs, stop: rest.stop }
            },
            Slot::Roll => Take { offs: seq![], stop: TakeStop::Roll { off } },
            Slot::Bad { error } => Take { offs: seq![], stop: TakeStop::Bad { off, error } },
        }
    }
}

/// The messages at the given offsets.
pub open spec fn records_at(r: Seq<u8>, offs: Seq<int>) -> Seq<Record> {
    Seq::new(offs.len(), |i: int| record_at(r, offs[i]))
}

/// A batch scan takes the messages that single reads would hand out, in the same
/// order: all of them where it comes to rest as they would, and the first `n` of them
/// where it stops because it is full.
pub proof fn law_batch_takes_what_reads_take(r: Seq<u8>, off: int, visible: int, n: int)
    requires
        n >= 1,
    ensures
        ({
            let t = take(r, off, visible, n);
            let w = walk(r, off, visible);
            match t.stop {
                TakeStop::Full { off: next } => {
                    &&& t.offs.len() == n
                    &&& w.records == records_at(r, t.offs) + walk(r, next, visible).records
                    &&& w.stop == walk(r, next, visible).stop
                },
                TakeStop::Tail { off: at } => {
                    &&& w.records == records_at(r, t.offs)
                    &&& w.stop == Hit::Tail { off: at }
                },
                TakeStop::Edge => w.records == records_at(r, t.offs) && w.stop == Hit::Edge,
                TakeStop::Roll { off: at } => {
                    &&& w.records == records_at(r, t.offs)
                    &&& w.stop == Hit::Roll { off: at }
                },
                TakeStop::Bad { off: at, error } => {
                    &&& w.records == records_at(r, t.offs)
                    &&& w.stop == Hit::Bad { off: at, error }
                },
            }
        }),
        take(r, off, visible, n).offs.len() <= n,
    decreases room(r, off),
{
    let t = take(r, off, visible, n);
    if off < r.len() {
        match slot_at(r, off, visible) {
            Slot::Service { next } => {
                law_batch_takes_what_reads_take(r, next, visible, n);
            },
            Slot::User { next } => {
                if n <= 1 {
                    assert(records_at(r, t.offs) =~= seq![record_at(r, off)]);
                } else {
                    law_batch_takes_what_reads_take(r, next, visible, n - 1);
                    let rest = take(r, next, visible, n - 1);
                    assert(records_at(r, t.offs) =~= seq![record_at(r, off)] + records_at(
                        r,
                        rest.offs,
                    ));
                    match rest.stop {
                        TakeStop::Full { off: last } => {
                            let tail = walk(r, last, visible).records;
                            assert(seq![record_at(r, off)] + (records_at(r, rest.offs) + tail)
                                =~= records_at(r, t.offs) + tail);
                        },
                        _ => {},
                    }
                }
            },
            _ => {
                assert(records_at(r, t.offs) =~= seq![]);
            },
        }
    } else {
        assert(records_at(r, t.offs) =~= seq![]);
    }
}

/// A batch that comes to the end of a region goes on in the next one with the
/// messages that follow in the segment.
pub proof fn law_batch_goes_on_in_the_next_region(
    regions: Seq<Seq<u8>>,
    idx: int,
    off: int,
    n: int,
)
    requires
        n >= 1,
        0 <= idx < regions.len(),
        take(regions[idx], off, regions[idx].len() as int, n).stop is Edge,
    ensures
        seg_walk(regions, idx, off).records == records_at(
            regions[idx],
            take(regions[idx], off, regions[idx].len() as int, n).offs,
        ) + seg_walk(regions, idx + 1, 0).records,
        seg_walk(regions, idx, off).stop == seg_walk(regions, idx + 1, 0).stop,
{
    law_batch_takes_what_reads_take(regions[idx], off, regions[idx].len() as int, n);
}

/// Messages that are taken stand inside the region, behind the start.
#[verifier::spinoff_prover]
pub proof fn lemma_taken_fit(r: Seq<u8>, off: int, visible: int, n: int)
    requires
        0 <= off,
        off % 8 == 0,
        r.len() % 8 == 0,
    ensures
        ({
            let t = take(r, off, visible, n);
            &&& forall|i: int|
                0 <= i < t.offs.len() ==> {
                    &&& off <= #[trigger] t.offs[i]
                    &&& t.offs[i] + HEADER_SLOT + header_at(r, t.offs[i]).length <= r.len()
                }
            &&& match t.stop {
                TakeStop::Full { off: at } => off <= at <= r.len() && at % 8 == 0,
                TakeStop::Tail { off: at } => off <= at < r.len() && at % 8 == 0,
                TakeStop::Edge => true,
                TakeStop::Roll { off: at } => off <= at < r.len() && at % 8 == 0 && after(r, at)
                    <= r.len(),
                TakeStop::Bad { off: at, error } => off <= at < r.len() && at % 8 == 0,
            }
        }),
    decreases room(r, off),
{
    if off < r.len() {
        match slot_at(r, off, visible) {
            Slot::Service { next } => {
                lemma_taken_fit(r, next, visible, n);
            },
            Slot::User { next } => {
                if n > 1 {
                    lemma_taken_fit(r, next, visible, n - 1);
                    let t = take(r, off, visible, n);
                    let rest = take(r, next, visible, n - 1);
                    assert forall|i: int| 0 <= i < t.offs.len() implies off <= #[trigger] t.offs[i]
                        && t.offs[i] + HEADER_SLOT + header_at(r, t.offs[i]).length <= r.len() by {
                        if i > 0 {
                            assert(t.offs[i] == rest.offs[i - 1]);
                        }
                    }
                }
            },
            _ => {},
        }
    }
}

/// Taking messages is seeking the first one and taking on behind it.
pub proof fn lemma_take_is_seek(r: Seq<u8>, off: int, visible: int, n: int)
    ensures
        match seek(r, off, visible) {
            Hit::User { off: at } => if n <= 1 {
                take(r, off, visible, n) == (Take {
                    offs: seq![at],
                    stop: TakeStop::Full { off: after(r, at) },
                })
            } else {
                let rest = take(r, after(r, at), visible, n - 1);
                take(r, off, visible, n) == (Take {
                    offs: seq![at] + rest.offs,
                    stop: rest.stop,
                })
            },
            Hit::Tail { off: at } => take(r, off, visible, n) == (Take {
                offs: seq![],
                stop: TakeStop::Tail { off: at },
            }),
            Hit::Edge => take(r, off, visible, n) == (Take { offs: seq![], stop: TakeStop::Edge }),
            Hit::Roll { off: at } => take(r, off, visible, n) == (Take {
                offs: seq![],
                stop: TakeStop::Roll { off: at },
            }),
            Hit::Bad { off: at, error } => take(r, off, visible, n) == (Take {
                offs: seq![],
                stop: TakeStop::Bad { off: at, error },
            }),
        },
    decreases room(r, off),
{
    if off < r.len() {
        match slot_at(r, off, visible) {
            Slot::Service { next } => {
                lemma_take_is_seek(r, next, visible, n);
            },
            _ => {},
        }
    }
}

/// How a batch scan reports an error of a slot.
pub open spec fn batch_error(e: Error) -> Error {
    match e {
        Error::BoundaryHole => Error::BatchInvalidSlot,
        Error::PayloadPastRegion => Error::BatchPayloadPastRegion,
        _ => e,
    }
}

/// The places of the messages at the given offsets, in the batch's stretch `seg`.
pub open spec fn places(seg: usize, offs: Seq<int>) -> Seq<MsgPos> {
    Seq::new(offs.len(), |i: int| MsgPos { seg, off: offs[i] as u32 })
}

/// The position of a scan in its region when it has stopped.
pub open spec fn take_end(r: Seq<u8>, t: Take) -> int {
    match t.stop {
        TakeStop::Full { off } => off,
        TakeStop::Tail { off } => off,
        TakeStop::Edge => r.len() as int,
        TakeStop::Roll { off } => off,
        TakeStop::Bad { off, error } => off,
    }
}

/// Where a stretch ends when its scan has stopped.
pub open spec fn seg_end(r: Seq<u8>, t: Take) -> int {
    match t.stop {
        TakeStop::Roll { off } => after(r, off),
        _ => take_end(r, t),
    }
}

impl<M> ReaderView<M> {
    /// How many messages a batch may hold: what the read says, else the reader's own
    /// limit, else any number.
    pub open spec fn spec_batch_max(self, max_batch: Option<u16>) -> usize {
        match max_batch {
            Some(n) => n as usize,
            None => match self.batch_limit {
                Some(n) => n as usize,
                None => usize::MAX,
            },
        }
    }

    /// The region that a batch scan has come to.
    pub open spec fn scan_region(self, scan: BatchScan) -> int {
        scan.cursor as int / self.region_size_cached as int
    }

    /// The offset there.
    pub open spec fn scan_off(self, scan: BatchScan) -> int {
        scan.cursor as int % self.region_size_cached as int
    }

    /// The last mapped region is the one that the batch scan has come to.
    pub open spec fn scan_on_map(self, scan: BatchScan) -> bool {
        &&& self.maps.len() > 0
        &&& self.maps.last().file_sequence == scan.sequence
        &&& self.maps.last().region_idx == self.scan_region(scan)
    }

    /// A batch scan at an aligned position of a file.
    pub open spec fn scan_wf(self, scan: BatchScan) -> bool {
        &&& self.wf()
        &&& scan.cursor % 8 == 0
        &&& scan.cursor <= MAX_FILE_OFFSET
    }

    /// What a batch scan needs: its region is the last one mapped, `bytes` are its
    /// bytes, a stretch is begun, and the batch has room for a message.
    pub open spec fn ready_to_batch(self, scan: BatchScan, bytes: Seq<u8>) -> bool {
        &&& self.scan_wf(scan)
        &&& self.scan_on_map(scan)
        &&& scan.sequence < u64::MAX
        &&& bytes.len() == self.region_size_cached
        &&& self.scan_region(scan) * self.region_size_cached + self.region_size_cached
            <= MAX_FILE_OFFSET
        &&& 0 < self.batch_segs.len()
        &&& self.batch_pos.len() < scan.max
    }

    /// What the scan takes from its region.
    pub open spec fn taken(self, scan: BatchScan, bytes: Seq<u8>, visible: int) -> Take {
        take(bytes, self.scan_off(scan), visible, scan.max - self.batch_pos.len())
    }
}

impl<M> Reader<M> {
    /// Begins a batch at the reader's place. A batch that may hold no message is not
    /// begun.
    pub fn begin_batch(&mut self, max_batch: Option<u16>) -> (r: Option<BatchScan>)
        requires
            old(self)@.wf(),
            old(self)@.on_map(),
        ensures
            if old(self)@.spec_batch_max(max_batch) == 0 {
                r is None && *final(self) == *old(self)
            } else {
                &&& r == Some(
                    BatchScan {
                        max: old(self)@.spec_batch_max(max_batch),
                        sequence: old(self)@.file_sequence,
                        base_record_index: old(self)@.base_record_index_cached,
                        channel_name: old(self)@.channel_name_cached,
                        cursor: old(self)@.read_position,
                        progressed: false,
                    },
                )
                &&& final(self)@.batch_segs.len() == 0
                &&& final(self)@.batch_pos.len() == 0
                &&& final(self)@.maps == seq![old(self)@.maps.last()]
                &&& final(self)@ == (ReaderView {
                    maps: final(self)@.maps,
                    batch_segs: final(self)@.batch_segs,
                    batch_pos: final(self)@.batch_pos,
                    ..old(self)@
                })
            },
    {
        let max: usize = match max_batch {
            Some(n) => n as usize,
            None => match self.batch_limit {
                Some(n) => n as usize,
                None => usize::MAX,
            },
        };
        if max == 0 {
            return None;
        }
        self.batch_segs.clear();
        self.batch_pos.clear();
        self.prune_to_current();
        Some(
            BatchScan {
                max,
                sequence: self.file_sequence,
                base_record_index: self.base_record_index_cached,
                channel_name: self.channel_name_cached,
                cursor: self.read_position,
                progressed: false,
            },
        )
    }

    /// Says which region the scan needs mapped, if it is not the last one that was. A
    /// scan never goes back inside a segment.
    pub fn ensure_scan_region_mapped(&self, scan: &BatchScan) -> (r: Result<Option<u64>, Error>)
        requires
            self@.scan_wf(*scan),
        ensures
            r == if self@.scan_on_map(*scan) {
                Ok::<Option<u64>, Error>(None)
            } else if self@.maps.len() > 0 && self@.maps.last().file_sequence == scan.sequence
                && self@.maps.last().region_idx > self@.scan_region(*scan) {
                Err(Error::BatchMovedBackward)
            } else {
                Ok(Some(self@.scan_region(*scan) as u64))
            },
    {
        let idx = scan.cursor / self.region_size_cached as u64;
        let n = self.maps.len();
        if n > 0 {
            let last = &self.maps[n - 1];
            if last.file_sequence == scan.sequence && last.region_idx == idx {
                return Ok(None);
            }
            if last.file_sequence == scan.sequence && last.region_idx > idx {
                return Err(Error::BatchMovedBackward);
            }
        }
        Ok(Some(idx))
    }

    /// Takes over the handle of the region that the scan has come to.
    pub fn map_scan_region(&mut self, scan: &BatchScan, mapping: M)
        requires
            old(self)@.scan_wf(*scan),
        ensures
            final(self)@.scan_wf(*scan),
            final(self)@.scan_on_map(*scan),
            final(self)@.maps == old(self)@.maps.push(
                MappedRegion {
                    file_sequence: scan.sequence,
                    region_idx: old(self)@.scan_region(*scan) as u64,
                    mapping,
                },
            ),
            final(self)@ == (ReaderView { maps: final(self)@.maps, ..old(self)@ }),
    {
        let region_idx = scan.cursor / self.region_size_cached as u64;
        self.maps.push(MappedRegion { file_sequence: scan.sequence, region_idx, mapping });
    }

    /// Begins a stretch of the batch at the place that the scan has come to.
    pub fn begin_batch_seg(&mut self, scan: &BatchScan)
        requires
            old(self)@.scan_wf(*scan),
            old(self)@.scan_on_map(*scan),
        ensures
            final(self)@.batch_segs == old(self)@.batch_segs.push(
                BatchSeg {
                    map_idx: (old(self)@.maps.len() - 1) as usize,
                    start: old(self)@.scan_off(*scan) as u32,
                    end: old(self)@.scan_off(*scan) as u32,
                },
            ),
            final(self)@.batch_segs.len() <= usize::MAX,
            final(self)@ == (ReaderView { batch_segs: final(self)@.batch_segs, ..old(self)@ }),
    {
        let off = (scan.cursor % self.region_size_cached as u64) as u32;
        let map_idx = self.maps.len() - 1;
        self.batch_segs.push(BatchSeg { map_idx, start: off, end: off });
        assert(self.batch_segs.len() <= usize::MAX);
    }

    /// Scans the region that the batch has come to, message by message.
    ///
    /// `region` is the bytes of that region; commit flags at or behind `visible` have
    /// not been observed by the caller and count as not set. A scan that waits can be
    /// taken up again once more flags have been observed.
    #[verifier::spinoff_prover]
    #[verifier::rlimit(60)]
    pub fn scan_batch_region(
        &mut self,
        scan: &mut BatchScan,
        region: &[u8],
        visible: usize,
    ) -> (r: Result<BatchStep, Error>)
        requires
            old(self)@.ready_to_batch(*old(scan), region@),
        ensures
            ({
                let t = old(self)@.taken(*old(scan), region@, visible as int);
                let start = old(self)@.scan_region(*old(scan)) * old(self)@.region_size_cached;
                let seg = (old(self)@.batch_segs.len() - 1) as usize;
                let last = old(self)@.batch_segs.last();
                &&& r == match t.stop {
                    TakeStop::Full { off } => Ok::<BatchStep, Error>(BatchStep::Full),
                    TakeStop::Tail { off } => Ok(BatchStep::Waiting),
                    TakeStop::Edge => Ok(BatchStep::NextRegion),
                    TakeStop::Roll { off } => Ok(
                        BatchStep::NextFile { sequence: (old(scan).sequence + 1) as u64 },
                    ),
                    TakeStop::Bad { off, error } => Err(batch_error(error)),
                }
                &&& final(self)@.batch_pos == old(self)@.batch_pos + places(seg, t.offs)
                &&& *final(scan) == (BatchScan {
                    cursor: (start + take_end(region@, t)) as u64,
                    progressed: old(scan).progressed || take_end(region@, t)
                        != old(self)@.scan_off(*old(scan)),
                    ..*old(scan)
                })
                &&& final(self)@.batch_segs == if r is Ok {
                    old(self)@.batch_segs.update(
                        old(self)@.batch_segs.len() - 1,
                        BatchSeg { end: seg_end(region@, t) as u32, ..last },
                    )
                } else {
                    old(self)@.batch_segs
                }
                &&& final(self)@ == (ReaderView {
                    batch_pos: final(self)@.batch_pos,
                    batch_segs: final(self)@.batch_segs,
                    ..old(self)@
                })
                &&& final(self)@.scan_wf(*final(scan))
            }),
    {
        let size = region.len();
        let ghost begun = self@;
        let ghost begun_scan = *scan;
        let ghost whole = begun.taken(begun_scan, region@, visible as int);
        proof {
            crate::layout::lemma_split(scan.cursor as int, size as int);
            crate::layout::lemma_region_start_aligned(
                begun.scan_region(begun_scan),
                size as int,
            );
        }
        let off0 = (scan.cursor % size as u64) as usize;
        let start = scan.cursor - off0 as u64;
        let seg_idx = self.batch_segs.len() - 1;
        let mut off: usize = off0;
        assert(self.batch_pos@ =~= begun.batch_pos + places(seg_idx, Seq::<int>::empty()));
        let ghost mut offs: Seq<int> = seq![];
        while off < size
            invariant
                size == region@.len() == begun.region_size_cached,
                begun == old(self)@,
                begun_scan == *old(scan),
                begun.ready_to_batch(begun_scan, region@),
                start == begun.scan_region(begun_scan) * size,
                start % 8 == 0,
                size % 8 == 0,
                off % 8 == 0,
                off0 == begun.scan_off(begun_scan),
                off0 <= off <= size,
                seg_idx == begun.batch_segs.len() - 1,
                self@ == (ReaderView { batch_pos: self.batch_pos@, ..begun }),
                self.batch_pos@ == begun.batch_pos + places(seg_idx, offs),
                self.batch_pos@.len() < scan.max,
                *scan == (BatchScan {
                    cursor: (start + off) as u64,
                    progressed: begun_scan.progressed || off != off0,
                    ..begun_scan
                }),
                whole == begun.taken(begun_scan, region@, visible as int),
                ({
                    let t = take(
                        region@,
                        off as int,
                        visible as int,
                        scan.max - self.batch_pos@.len(),
                    );
                    &&& whole.offs == offs + t.offs
                    &&& whole.stop == t.stop
                }),
            decreases size - off,
        {
            let ghost t = take(
                region@,
                off as int,
                visible as int,
                scan.max - self.batch_pos@.len(),
            );
            let leftover = size - off;
            if leftover < HEADER_SLOT {
                assert(offs + t.offs =~= offs);
                return Err(Error::BatchInvalidSlot);
            }
            let hdr = match message_header_info(region, off, visible) {
                Err(e) => {
                    assert(offs + t.offs =~= offs);
                    return Err(e);
                },
                Ok(hdr) => hdr,
            };
            if !hdr.is_committed {
                assert(offs + t.offs =~= offs);
                let last = self.batch_segs[seg_idx];
                self.batch_segs.set(seg_idx, BatchSeg { end: off as u32, ..last });
                return Ok(BatchStep::Waiting);
            }
            if hdr.payload_len > leftover - HEADER_SLOT {
                assert(offs + t.offs =~= offs);
                return Err(Error::BatchPayloadPastRegion);
            }
            proof {
                crate::layout::law_align_up(off + HEADER_SLOT + hdr.payload_len, size as int);
            }
            let end = off + HEADER_SLOT + hdr.payload_len;
            let next_off = if end > size - 8 {
                size
            } else {
                align_up(end)
            };
            assert(next_off == after(region@, off as int));
            match hdr.header_type {
                HeaderType::User => {
                    let ghost before = self.batch_pos@;
                    let ghost offs0 = offs;
                    self.batch_pos.push(MsgPos { seg: seg_idx, off: off as u32 });
                    proof {
                        offs = offs.push(off as int);
                        assert(before.push(MsgPos { seg: seg_idx, off: off as u32 })
                            =~= begun.batch_pos + places(seg_idx, offs));
                    }
                    if self.batch_pos.len() >= scan.max {
                        assert(offs0 + t.offs =~= offs);
                        scan.progressed = true;
                        scan.cursor = start + next_off as u64;
                        let last = self.batch_segs[seg_idx];
                        self.batch_segs.set(seg_idx, BatchSeg { end: next_off as u32, ..last });
                        return Ok(BatchStep::Full);
                    }
                    proof {
                        let rest = take(
                            region@,
                            next_off as int,
                            visible as int,
                            scan.max - self.batch_pos@.len(),
                        );
                        assert(offs0 + t.offs =~= offs + rest.offs);
                    }
                },
                HeaderType::Roll => {
                    assert(offs + t.offs =~= offs);
                    let last = self.batch_segs[seg_idx];
                    self.batch_segs.set(seg_idx, BatchSeg { end: next_off as u32, ..last });
                    return Ok(BatchStep::NextFile { sequence: scan.sequence + 1 });
                },
                _ => {},
            }
            scan.progressed = true;
            scan.cursor = start + next_off as u64;
            off = next_off;
        }
        proof {
            let t = take(region@, off as int, visible as int, scan.max - self.batch_pos@.len());
            assert(offs + t.offs =~= offs);
        }
        let last = self.batch_segs[seg_idx];
        self.batch_segs.set(seg_idx, BatchSeg { end: size as u32, ..last });
        Ok(BatchStep::NextRegion)
    }

    /// Ends a batch scan. A scan that has stepped over records moves the reader to
    /// where it came to, with what that segment says of itself. Returns whether the batch
    /// holds a message; where it holds none, it is given up, and only the current region
    /// stays mapped.
    pub fn finish_batch(&mut self, scan: BatchScan) -> (r: bool)
        requires
            old(self)@.scan_wf(scan),
            scan.progressed && old(self)@.batch_pos.len() == 0 ==> old(self)@.scan_on_map(scan),
        ensures
            r == (scan.progressed && old(self)@.batch_pos.len() > 0),
            final(self)@.wf(),
            ({
                let moved = if scan.progressed {
                    ReaderView {
                        read_position: scan.cursor,
                        file_sequence: scan.sequence,
                        base_record_index_cached: scan.base_record_index,
                        channel_name_cached: scan.channel_name,
                        ..old(self)@
                    }
                } else {
                    old(self)@
                };
                final(self)@ == if r {
                    moved
                } else {
                    ReaderView {
                        batch_segs: seq![],
                        batch_pos: seq![],
                        maps: if scan.progressed {
                            seq![old(self)@.maps.last()]
                        } else {
                            old(self)@.maps
                        },
                        ..moved
                    }
                }
            }),
    {
        if !scan.progressed {
            self.batch_segs.clear();
            self.batch_pos.clear();
            return false;
        }
        self.read_position = scan.cursor;
        self.file_sequence = scan.sequence;
        self.base_record_index_cached = scan.base_record_index;
        self.channel_name_cached = scan.channel_name;
        if self.batch_pos.len() == 0 {
            self.batch_segs.clear();
            self.batch_pos.clear();
            self.prune_to_current();
            return false;
        }
        true
    }

    /// The batch that the last scan has left, given the bytes of the mapped regions.
    pub fn batch<'a>(&'a self, bytes: &'a [&'a [u8]]) -> (b: MessageBatch<'a, M>)
        ensures
            b.segs@ == self@.batch_segs,
            b.pos@ == self@.batch_pos,
            b.maps@ == self@.maps,
            b.bytes@ == bytes@,
    {
        MessageBatch {
            segs: self.batch_segs.as_slice(),
            pos: self.batch_pos.as_slice(),
            maps: self.maps.as_slice(),
            bytes,
        }
    }
}

impl BatchScan {
    /// Moves the scan to the beginning of the next segment. `current_region0` is the
    /// beginning of the segment that the scan has come to the end of, and `region0` the
    /// bytes of the next one's region 0.
    ///
    /// The next segment must follow in the series, go on with the record numbering, and
    /// belong to the same incarnation of the channel as `reader`. Where it does not, the
    /// scan stays as it is.
    pub fn enter_next_file<M>(
        &mut self,
        reader: &Reader<M>,
        current_region0: &[u8],
        region0: &[u8],
    ) -> (r: Result<(), Error>)
        requires
            old(self).sequence < u64::MAX,
            FIRST_SLOT <= current_region0@.len(),
            crate::channel::next_index_at(current_region0@) <= u64::MAX,
            FIRST_SLOT <= region0@.len(),
        ensures
            match reader@.segment_after_fault(old(self).sequence, current_region0@, region0@) {
                Some(e) => r == Err::<(), Error>(e) && *final(self) == *old(self),
                None => {
                    &&& r == Ok::<(), Error>(())
                    &&& final(self).channel_name@ == region0@.subrange(65, 113)
                    &&& *final(self) == (BatchScan {
                        sequence: (old(self).sequence + 1) as u64,
                        base_record_index: crate::channel::base_record_index_at(region0@),
                        channel_name: final(self).channel_name,
                        cursor: 0,
                        progressed: true,
                        ..*old(self)
                    })
                },
            },
    {
        let ch = match check_continuation(
            self.sequence + 1,
            reader.region_size_cached,
            reader.generation_cached,
            current_region0,
            region0,
        ) {
            Err(e) => {
                return Err(e);
            },
            Ok(ch) => ch,
        };
        self.sequence = self.sequence + 1;
        self.base_record_index = ch.base_record_index;
        self.channel_name = ch.channel_name;
        self.cursor = 0;
        self.progressed = true;
        Ok(())
    }
}

/// The bound of a drain, and how far it is used up.
#[derive(Debug, Clone, Copy)]
pub struct Drain {
    max: usize,
    count: usize,
}

impl Drain {
    /// How many messages the drain may take in all.
    pub closed spec fn max(self) -> int {
        self.max as int
    }

    /// How many messages it has taken.
    pub closed spec fn taken(self) -> int {
        self.count as int
    }

    /// It has taken no more than it may.
    pub open spec fn wf(self) -> bool {
        0 <= self.taken() <= self.max() <= usize::MAX
    }

    /// How many messages it may still take.
    pub open spec fn left(self) -> int {
        self.max() - self.taken()
    }

    /// A drain of at most `max` messages, or of any number.
    pub fn new(max: Option<usize>) -> (d: Drain)
        ensures
            d.wf(),
            d.taken() == 0,
            d.max() == match max {
                Some(n) => n,
                None => usize::MAX,
            },
    {
        let max: usize = match max {
            Some(n) => n,
            None => usize::MAX,
        };
        Drain { max, count: 0 }
    }

    /// How many messages the drain has taken.
    pub fn count(&self) -> (n: usize)
        ensures
            n == self.taken(),
    {
        self.count
    }

    /// Whether the drain may take no more.
    pub fn is_full(&self) -> (b: bool)
        requires
            self.wf(),
        ensures
            b == (self.left() == 0),
    {
        self.count == self.max
    }
}

impl<M: Clone> Reader<M> {
    /// Appends the published messages of the current region to `out`, in their order,
    /// as many as `drain` may still take. A drain that may take no more does not touch the
    /// reader. `Ready` says that the bound is reached.
    ///
    /// On an error the messages that were read before it stay in `out`, and the reader
    /// has gone past them.
    #[verifier::spinoff_prover]
    #[verifier::rlimit(60)]
    pub fn read_owned_into(
        &mut self,
        region: &[u8],
        visible: usize,
        out: &mut Vec<OwnedMessage<M>>,
        drain: &mut Drain,
    ) -> (r: Result<Outcome<()>, Error>)
        requires
            old(self)@.ready_to_scan(region@),
            old(drain).wf(),
        ensures
            final(self)@.wf(),
            final(drain).wf(),
            final(drain).max() == old(drain).max(),
            if old(drain).left() == 0 {
                &&& r == Ok::<Outcome<()>, Error>(Outcome::Ready(()))
                &&& *final(self) == *old(self)
                &&& final(out)@ == old(out)@
                &&& final(drain).taken() == old(drain).taken()
            } else {
                let t = take(region@, old(self)@.off(), visible as int, old(drain).left());
                &&& r == match t.stop {
                    TakeStop::Full { off } => Ok::<Outcome<()>, Error>(Outcome::Ready(())),
                    TakeStop::Tail { off } => Ok(Outcome::CaughtUp),
                    TakeStop::Edge => Ok(
                        Outcome::SwitchRegion { index: (old(self)@.region() + 1) as u64 },
                    ),
                    TakeStop::Roll { off } => Ok(
                        Outcome::NextSegment { sequence: (old(self)@.file_sequence + 1) as u64 },
                    ),
                    TakeStop::Bad { off, error } => Err(error),
                }
                &&& final(drain).taken() == old(drain).taken() + t.offs.len()
                &&& final(self)@ == (ReaderView {
                    read_position: (old(self)@.region() * old(self)@.region_size_cached + take_end(
                        region@,
                        t,
                    )) as u64,
                    maps: seq![old(self)@.maps.last()],
                    ..old(self)@
                })
                &&& final(out)@.len() == old(out)@.len() + t.offs.len()
                &&& forall|i: int|
                    0 <= i < old(out)@.len() ==> #[trigger] final(out)@[i] == old(out)@[i]
                &&& forall|i: int|
                    0 <= i < t.offs.len() ==> owned_at(
                        #[trigger] final(out)@[old(out)@.len() + i],
                        old(self)@.maps.last().mapping,
                        region@,
                        t.offs[i],
                    )
            },
    {
        if drain.count == drain.max {
            return Ok(Outcome::Ready(()));
        }
        let ghost begun = self@;
        let ghost out0 = out@;
        let ghost count0 = drain.count as int;
        let ghost limit = drain.left();
        let ghost whole = take(region@, begun.off(), visible as int, limit);
        let size = region.len();
        proof {
            begun.lemma_at();
        }
        let start = self.read_position - self.read_position % size as u64;
        let ghost mut offs: Seq<int> = seq![];
        let ghost mut at: int = begun.off();
        self.prune_to_current();
        while drain.count < drain.max
            invariant
                size == region@.len() == begun.region_size_cached,
                begun == old(self)@,
                begun.ready_to_scan(region@),
                begun.wf(),
                start == begun.region() * size,
                start + size <= MAX_FILE_OFFSET,
                out0 == old(out)@,
                count0 == old(drain).taken(),
                drain.max() == old(drain).max(),
                limit == old(drain).left(),
                limit == drain.max() - count0,
                limit > 0,
                drain.wf(),
                count0 <= drain.count < drain.max,
                offs.len() == drain.count - count0,
                0 <= at < size,
                at % 8 == 0,
                self.read_position == start + at,
                self.maps@ == seq![begun.maps.last()],
                self@ == (ReaderView {
                    maps: self.maps@,
                    read_position: self.read_position,
                    ..begun
                }),
                out@.len() == out0.len() + offs.len(),
                forall|i: int| 0 <= i < out0.len() ==> #[trigger] out@[i] == out0[i],
                forall|i: int|
                    0 <= i < offs.len() ==> owned_at(
                        #[trigger] out@[out0.len() + i],
                        begun.maps.last().mapping,
                        region@,
                        offs[i],
                    ),
                whole == take(region@, begun.off(), visible as int, limit),
                ({
                    let t = take(region@, at, visible as int, drain.left());
                    &&& whole.offs == offs + t.offs
                    &&& whole.stop == t.stop
                }),
            decreases drain.max - drain.count,
        {
            let ghost t = take(region@, at, visible as int, drain.left());
            let ghost left = drain.left();
            proof {
                crate::layout::lemma_position(begun.region(), at, size as int);
                lemma_take_is_seek(region@, at, visible as int, left);
                crate::log::lemma_seek_bounds(region@, at, visible as int);
                begun.lemma_at();
                crate::layout::lemma_region_start_aligned(begun.region(), size as int);
            }
            match self.try_read_owned(region, visible) {
                Err(e) => {
                    assert(offs + t.offs =~= offs);
                    return Err(e);
                },
                Ok(Outcome::Ready(msg)) => {
                    let ghost hit = msg.header_offset as int;
                    let ghost offs0 = offs;
                    out.push(msg);
                    drain.count = drain.count + 1;
                    proof {
                        offs = offs.push(hit);
                        at = after(region@, hit);
                        if drain.count < drain.max {
                            let rest = take(region@, at, visible as int, drain.left());
                            assert(offs0 + t.offs =~= offs + rest.offs);
                        } else {
                            assert(offs0 + t.offs =~= offs);
                        }
                    }
                    if drain.count == drain.max {
                        return Ok(Outcome::Ready(()));
                    }
                    if self.read_position == start + size as u64 {
                        proof {
                            let rest = take(region@, at, visible as int, drain.left());
                            assert(offs + rest.offs =~= offs);
                            crate::layout::lemma_position(begun.region(), 0, size as int);
                        }
                        return Ok(Outcome::SwitchRegion { index: start / size as u64 + 1 });
                    }
                },
                Ok(Outcome::CaughtUp) => {
                    assert(offs + t.offs =~= offs);
                    return Ok(Outcome::CaughtUp);
                },
                Ok(Outcome::SwitchRegion { index }) => {
                    assert(offs + t.offs =~= offs);
                    return Ok(Outcome::SwitchRegion { index });
                },
                Ok(Outcome::NextSegment { sequence }) => {
                    assert(offs + t.offs =~= offs);
                    return Ok(Outcome::NextSegment { sequence });
                },
            }
        }
        Ok(Outcome::Ready(()))
    }
}

/// `m` is the message at `off` of the region with bytes `r`, with a share of the
/// handle `mapping`.
pub open spec fn owned_at<M: Clone>(
    m: OwnedMessage<M>,
    mapping: M,
    r: Seq<u8>,
    off: int,
) -> bool {
    &&& cloned(mapping, m.region)
    &&& m.header_offset == off
    &&& m.shows(r, record_at(r, off))
}

/// The place `p` of a batch with stretches `segs` is a message inside its region;
/// `bytes` are the bytes of the regions.
pub open spec fn place_fits(segs: Seq<BatchSeg>, bytes: Seq<Seq<u8>>, p: MsgPos) -> bool {
    let r = bytes[segs[p.seg as int].map_idx as int];
    &&& p.seg < segs.len()
    &&& segs[p.seg as int].map_idx < bytes.len()
    &&& p.off + HEADER_SLOT + header_at(r, p.off as int).length <= r.len()
}

/// All places of a batch are messages inside their regions.
pub open spec fn batch_fits(
    segs: Seq<BatchSeg>,
    pos: Seq<MsgPos>,
    bytes: Seq<Seq<u8>>,
) -> bool {
    forall|i: int| 0 <= i < pos.len() ==> place_fits(segs, bytes, #[trigger] pos[i])
}

/// The messages of a batch.
pub open spec fn batch_records(
    segs: Seq<BatchSeg>,
    pos: Seq<MsgPos>,
    bytes: Seq<Seq<u8>>,
) -> Seq<Record> {
    Seq::new(
        pos.len(),
        |i: int| record_at(bytes[segs[pos[i].seg as int].map_idx as int], pos[i].off as int),
    )
}

/// Scanning a region adds its messages to the batch, and all of them stand inside
/// their regions.
pub proof fn law_scan_adds_its_messages<M>(
    reader: ReaderView<M>,
    scan: BatchScan,
    bytes: Seq<Seq<u8>>,
    visible: int,
    segs: Seq<BatchSeg>,
)
    requires
        reader.ready_to_batch(scan, bytes.last()),
        reader.batch_segs.len() <= usize::MAX,
        bytes.len() == reader.maps.len(),
        reader.batch_segs.last().map_idx == bytes.len() - 1,
        batch_fits(reader.batch_segs, reader.batch_pos, bytes),
        segs.len() == reader.batch_segs.len(),
        forall|i: int|
            0 <= i < segs.len() ==> (#[trigger] segs[i]).map_idx == reader.batch_segs[i].map_idx,
    ensures
        ({
            let t = reader.taken(scan, bytes.last(), visible);
            let pos = reader.batch_pos + places((segs.len() - 1) as usize, t.offs);
            &&& batch_fits(segs, pos, bytes)
            &&& batch_records(segs, pos, bytes) == batch_records(
                reader.batch_segs,
                reader.batch_pos,
                bytes,
            ) + records_at(bytes.last(), t.offs)
        }),
{
    let r = bytes.last();
    let t = reader.taken(scan, r, visible);
    let seg = (segs.len() - 1) as usize;
    let pos = reader.batch_pos + places(seg, t.offs);
    let size = reader.region_size_cached as int;
    crate::layout::lemma_split(scan.cursor as int, size);
    crate::layout::lemma_region_start_aligned(reader.scan_region(scan), size);
    lemma_taken_fit(r, reader.scan_off(scan), visible, scan.max - reader.batch_pos.len());
    let n = reader.batch_pos.len() as int;
    assert forall|i: int| 0 <= i < pos.len() implies place_fits(segs, bytes, #[trigger] pos[i]) by {
        if i < n {
            assert(place_fits(reader.batch_segs, bytes, reader.batch_pos[i]));
            let k = reader.batch_pos[i].seg as int;
            assert(segs[k].map_idx == reader.batch_segs[k].map_idx);
        } else {
            let o = t.offs[i - n];
            assert(pos[i] == MsgPos { seg, off: o as u32 });
            assert(segs[seg as int].map_idx == reader.batch_segs[seg as int].map_idx);
        }
    }
    let all = batch_records(segs, pos, bytes);
    let before = batch_records(reader.batch_segs, reader.batch_pos, bytes);
    assert forall|i: int| 0 <= i < pos.len() implies all[i] == (before + records_at(
        r,
        t.offs,
    ))[i] by {
        if i < n {
            assert(place_fits(reader.batch_segs, bytes, reader.batch_pos[i]));
            let k = reader.batch_pos[i].seg as int;
            assert(segs[k].map_idx == reader.batch_segs[k].map_idx);
        } else {
            let o = t.offs[i - n];
            assert(pos[i] == MsgPos { seg, off: o as u32 });
            assert(segs[seg as int].map_idx == reader.batch_segs[seg as int].map_idx);
        }
    }
    assert(all =~= before + records_at(r, t.offs));
}

/// A batch keeps its messages while more regions are mapped and more stretches begun
/// for it. An empty batch has none.
pub proof fn law_batch_keeps_its_messages(
    segs: Seq<BatchSeg>,
    pos: Seq<MsgPos>,
    bytes: Seq<Seq<u8>>,
    more_segs: Seq<BatchSeg>,
    more_bytes: Seq<Seq<u8>>,
)
    requires
        batch_fits(segs, pos, bytes),
    ensures
        batch_fits(segs + more_segs, pos, bytes + more_bytes),
        batch_records(segs + more_segs, pos, bytes + more_bytes) == batch_records(segs, pos, bytes),
        batch_records(segs, Seq::<MsgPos>::empty(), bytes) == Seq::<Record>::empty(),
{
    let all_segs = segs + more_segs;
    let all_bytes = bytes + more_bytes;
    assert forall|i: int| 0 <= i < pos.len() implies place_fits(
        all_segs,
        all_bytes,
        #[trigger] pos[i],
    ) by {
        assert(place_fits(segs, bytes, pos[i]));
    }
    let now = batch_records(all_segs, pos, all_bytes);
    let before = batch_records(segs, pos, bytes);
    assert forall|i: int| 0 <= i < pos.len() implies now[i] == before[i] by {
        assert(place_fits(segs, bytes, pos[i]));
    }
    assert(now =~= before);
}

/// Borrowed view over a batch of messages.
///
/// `maps` are the handles of the reader's regions and `bytes` their bytes.
#[derive(Debug)]
pub struct MessageBatch<'a, M> {
    pub segs: &'a [BatchSeg],
    pub pos: &'a [MsgPos],
    pub maps: &'a [MappedRegion<M>],
    pub bytes: &'a [&'a [u8]],
}

/// The bytes of the regions.
pub open spec fn region_bytes(bytes: Seq<&[u8]>) -> Seq<Seq<u8>> {
    Seq::new(bytes.len(), |i: int| bytes[i]@)
}

impl<'a, M> MessageBatch<'a, M> {
    /// All messages stand inside the regions of the batch.
    pub open spec fn wf(self) -> bool {
        &&& self.maps@.len() == self.bytes@.len()
        &&& batch_fits(self.segs@, self.pos@, region_bytes(self.bytes@))
    }

    /// The messages of the batch. [`MessageBatch::handle_of`] names the handles of the
    /// regions that they stand in.
    pub open spec fn records(self) -> Seq<Record> {
        batch_records(self.segs@, self.pos@, region_bytes(self.bytes@))
    }

    /// The bytes of the region that the message at `i` stands in.
    pub open spec fn region_of(self, i: int) -> Seq<u8> {
        self.bytes@[self.segs@[self.pos@[i].seg as int].map_idx as int]@
    }

    /// The handle of the region that the message at `i` stands in.
    pub open spec fn handle_of(self, i: int) -> M {
        self.maps@[self.segs@[self.pos@[i].seg as int].map_idx as int].mapping
    }

    /// Number of messages.
    pub fn len(&self) -> (n: usize)
        ensures
            n == self.records().len(),
    {
        self.pos.len()
    }

    /// Whether there is no message.
    pub fn is_empty(&self) -> (b: bool)
        ensures
            b == (self.records().len() == 0),
    {
        self.pos.len() == 0
    }

    fn message_at(&self, pos: MsgPos) -> (m: MessageRef<'a>)
        requires
            place_fits(self.segs@, region_bytes(self.bytes@), pos),
        ensures
            m.mapping@ == self.bytes@[self.segs@[pos.seg as int].map_idx as int]@,
            m.header_offset == pos.off,
            m.shows(record_at(m.mapping@, pos.off as int)),
    {
        let seg = self.segs[pos.seg];
        let mapping = self.bytes[seg.map_idx];
        assert(mapping@ == region_bytes(self.bytes@)[seg.map_idx as int]);
        assert(pos.off + HEADER_SLOT <= mapping.len());
        let mh = MessageHeader::read(mapping, pos.off as usize);
        MessageRef { mapping, header_offset: pos.off as usize, payload_len: mh.length as usize }
    }

    /// The message at `index` in scan order, if there is one.
    pub fn get(&self, index: usize) -> (r: Option<MessageRef<'a>>)
        requires
            self.wf(),
        ensures
            match r {
                Some(m) => index < self.records().len() && m.shows(self.records()[index as int]),
                None => index >= self.records().len(),
            },
    {
        if index < self.pos.len() {
            Some(self.get_unchecked(index))
        } else {
            None
        }
    }

    /// The message at `index` in scan order.
    pub fn get_unchecked(&self, index: usize) -> (m: MessageRef<'a>)
        requires
            self.wf(),
            index < self.records().len(),
        ensures
            m.shows(self.records()[index as int]),
    {
        let pos = self.pos[index];
        assert(place_fits(self.segs@, region_bytes(self.bytes@), self.pos@[index as int]));
        self.message_at(pos)
    }

    /// The messages in scan order.
    pub fn iter(&self) -> (v: Vec<MessageRef<'a>>)
        requires
            self.wf(),
        ensures
            v@.len() == self.records().len(),
            forall|i: int| 0 <= i < v@.len() ==> (#[trigger] v@[i]).shows(self.records()[i]),
    {
        let mut v: Vec<MessageRef<'a>> = Vec::new();
        let mut i: usize = 0;
        while i < self.pos.len()
            invariant
                self.wf(),
                i <= self.pos@.len(),
                v@.len() == i,
                forall|k: int| 0 <= k < i ==> (#[trigger] v@[k]).shows(self.records()[k]),
            decreases self.pos@.len() - i,
        {
            v.push(self.get_unchecked(i));
            i = i + 1;
        }
        v
    }
}

impl<'a, M: Clone> MessageBatch<'a, M> {
    /// The message at `index` with a share of its region, if there is one.
    pub fn get_owned(&self, index: usize) -> (r: Option<OwnedMessage<M>>)
        requires
            self.wf(),
        ensures
            match r {
                Some(m) => {
                    &&& index < self.records().len()
                    &&& cloned(self.handle_of(index as int), m.region)
                    &&& m.shows(self.region_of(index as int), self.records()[index as int])
                },
                None => index >= self.records().len(),
            },
    {
        if index >= self.pos.len() {
            return None;
        }
        let pos = self.pos[index];
        assert(place_fits(self.segs@, region_bytes(self.bytes@), self.pos@[index as int]));
        let m = self.message_at(pos);
        let seg = self.segs[pos.seg];
        Some(
            OwnedMessage {
                region: self.maps[seg.map_idx].mapping.clone(),
                header_offset: m.header_offset,
                payload_len: m.payload_len,
            },
        )
    }
}

} // verus!
