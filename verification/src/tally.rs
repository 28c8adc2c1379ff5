//! Counting the messages of a segment.
use vstd::prelude::*;

use crate::channel::{HeaderType, HEADER_SLOT};
use crate::layout::align_up;
use crate::log::{after, seg_log, seg_walk, slot_at, walk, Hit, SegStop, Slot};
use crate::reader::message_header_info;

verus! {

broadcast use vstd::slice::group_slice_axioms;

/// Where counting comes to rest.
#[derive(Debug, Clone, Copy, PartialEq, Eq, Structural)]
pub enum Rest {
    /// Behind the last byte.
    Edge,
    /// At a slot that is not published yet.
    Tail,
    /// At a mark, or at a slot that makes no sense.
    Barred,
}

/// The messages of a region, counted.
#[derive(Debug, Clone, Copy, PartialEq, Eq, Structural)]
pub struct RegionCount {
    pub records: u64,
    pub rest: Rest,
}

/// Where a walk comes to rest.
pub open spec fn rest_of(stop: Hit) -> Rest {
    match stop {
        Hit::Edge => Rest::Edge,
        Hit::Tail { .. } => Rest::Tail,
        _ => Rest::Barred,
    }
}

/// Where the messages of a segment end.
pub open spec fn segment_rest(stop: SegStop) -> Rest {
    match stop {
        SegStop::End => Rest::Edge,
        SegStop::Tail { .. } => Rest::Tail,
        _ => Rest::Barred,
    }
}

/// A walk goes slot by slot.
proof fn lemma_slot_by_slot(r: Seq<u8>, at: int)
    requires
        at < r.len(),
    ensures
        ({
            let all = r.len() as int;
            let w = walk(r, at, all);
            match slot_at(r, at, all) {
                Slot::Waiting => w.records.len() == 0 && rest_of(w.stop) == Rest::Tail,
                Slot::Service { next } => next == after(r, at) && w == walk(r, next, all),
                Slot::User { next } => {
                    &&& next == after(r, at)
                    &&& w.records.len() == 1 + walk(r, next, all).records.len()
                    &&& w.stop == walk(r, next, all).stop
                },
                _ => w.records.len() == 0 && rest_of(w.stop) == Rest::Barred,
            }
        }),
{
}

/// Counts the published messages of a region from offset `off` on.
#[verifier::spinoff_prover]
pub fn count_records(region: &[u8], off: usize) -> (c: RegionCount)
    requires
        region@.len() % 8 == 0,
        off % 8 == 0,
    ensures
        c.records == walk(region@, off as int, region@.len() as int).records.len(),
        c.rest == rest_of(walk(region@, off as int, region@.len() as int).stop),
        c.records <= region@.len(),
{
    let size = region.len();
    let mut at: usize = off;
    let mut records: u64 = 0;
    while at < size
        invariant
            size == region@.len(),
            size % 8 == 0,
            at % 8 == 0,
            at > size ==> records == 0,
            records <= at,
            walk(region@, off as int, size as int).records.len() == records + walk(
                region@,
                at as int,
                size as int,
            ).records.len(),
            walk(region@, off as int, size as int).stop == walk(
                region@,
                at as int,
                size as int,
            ).stop,
        decreases size - at,
    {
        proof {
            lemma_slot_by_slot(region@, at as int);
        }
        if size - at < HEADER_SLOT {
            return RegionCount { records, rest: Rest::Barred };
        }
        let hdr = match message_header_info(region, at, size) {
            Err(_) => {
                return RegionCount { records, rest: Rest::Barred };
            },
            Ok(hdr) => hdr,
        };
        if !hdr.is_committed {
            return RegionCount { records, rest: Rest::Tail };
        }
        if hdr.payload_len > size - at - HEADER_SLOT {
            return RegionCount { records, rest: Rest::Barred };
        }
        proof {
            crate::layout::law_align_up(at + HEADER_SLOT + hdr.payload_len, size as int);
        }
        let end = at + HEADER_SLOT + hdr.payload_len;
        let next = if end > size - 8 {
            size
        } else {
            align_up(end)
        };
        assert(next == after(region@, at as int));
        match hdr.header_type {
            HeaderType::User => {
                records = records + 1;
            },
            HeaderType::Roll => {
                return RegionCount { records, rest: Rest::Barred };
            },
            _ => {},
        }
        at = next;
    }
    RegionCount { records, rest: Rest::Edge }
}

/// What one region more adds to the messages of a segment.
pub proof fn lemma_one_region_more(regions: Seq<Seq<u8>>, r: Seq<u8>, idx: int, off: int)
    requires
        forall|i: int| 0 <= i < regions.len() ==> (#[trigger] regions[i]).len() % 8 == 0,
        r.len() % 8 == 0,
        0 <= idx <= regions.len(),
        off % 8 == 0,
        idx == regions.len() ==> off == 0,
    ensures
        ({
            let a = seg_walk(regions, idx, off);
            let b = seg_walk(regions.push(r), idx, off);
            let w = walk(r, 0, r.len() as int);
            if a.stop is End {
                &&& b.records == a.records + w.records
                &&& segment_rest(b.stop) == rest_of(w.stop)
            } else {
                b == a
            }
        }),
    decreases regions.len() - idx,
{
    let more = regions.push(r);
    let a = seg_walk(regions, idx, off);
    let w = walk(r, 0, r.len() as int);
    if idx == regions.len() {
        crate::log::lemma_stop_bounds(r, 0, r.len() as int);
        assert(seg_walk(more, idx + 1, 0).records =~= seq![]);
        assert(a.records + w.records =~= w.records);
        assert(w.records + seg_walk(more, idx + 1, 0).records =~= w.records);
    } else {
        let here = walk(regions[idx], off, regions[idx].len() as int);
        crate::log::lemma_stop_bounds(regions[idx], off, regions[idx].len() as int);
        assert(more[idx] == regions[idx]);
        if here.stop is Edge {
            lemma_one_region_more(regions, r, idx + 1, 0);
            let rest = seg_walk(regions, idx + 1, 0).records;
            assert(here.records + (rest + w.records) =~= (here.records + rest) + w.records);
        }
    }
}

/// A count of the messages of a segment, region after region from the first one on.
pub struct Tally {
    records: u64,
    rest: Rest,
    seen: Ghost<Seq<Seq<u8>>>,
}

impl Tally {
    #[verifier::type_invariant]
    spec fn sound(self) -> bool {
        &&& self.records == seg_log(self.seen@).records.len()
        &&& self.rest == segment_rest(seg_log(self.seen@).stop)
        &&& forall|i: int| 0 <= i < self.seen@.len() ==> (#[trigger] self.seen@[i]).len() % 8 == 0
    }

    /// The regions that have been counted.
    pub closed spec fn seen(self) -> Seq<Seq<u8>> {
        self.seen@
    }

    /// A count of no region.
    pub fn new() -> (t: Tally)
        ensures
            t.seen() == Seq::<Seq<u8>>::empty(),
    {
        let seen: Ghost<Seq<Seq<u8>>> = Ghost(Seq::empty());
        Tally { records: 0, rest: Rest::Edge, seen }
    }

    /// Counts the next region of the segment. Messages behind a region that is not read to
    /// its end are out of a reader's reach, and are not counted.
    pub fn add_region(&mut self, region: &[u8])
        requires
            region@.len() % 8 == 0,
            seg_log(old(self).seen()).records.len() + region@.len() <= u64::MAX,
        ensures
            final(self).seen() == old(self).seen().push(region@),
    {
        proof {
            use_type_invariant(&*self);
            lemma_one_region_more(self.seen@, region@, 0, 0);
        }
        let seen: Ghost<Seq<Seq<u8>>> = Ghost(self.seen@.push(region@));
        let mut records = self.records;
        let mut rest = self.rest;
        if rest == Rest::Edge {
            let c = count_records(region, 0);
            records = records + c.records;
            rest = c.rest;
        }
        *self = Tally { records, rest, seen };
    }

    /// How many messages have been counted.
    pub fn records(&self) -> (n: u64)
        ensures
            n == seg_log(self.seen()).records.len(),
    {
        proof {
            use_type_invariant(self);
        }
        self.records
    }

    /// The count to go by in a segment that stores the count `stored`: the messages that
    /// have been counted, if they lead to the tail. Where a slot bars the way to it,
    /// nothing better is known than what is stored.
    pub fn count_or(&self, stored: u64) -> (n: u64)
        ensures
            n == if seg_log(self.seen()).stop is Tail {
                seg_log(self.seen()).records.len() as u64
            } else {
                stored
            },
    {
        proof {
            use_type_invariant(self);
        }
        if self.rest == Rest::Tail {
            self.records
        } else {
            stored
        }
    }
}

/// The regions up to the one with the tail hold all messages of a segment.
pub proof fn law_regions_up_to_the_tail_suffice(regions: Seq<Seq<u8>>, idx: int, off: int, n: int)
    requires
        0 <= idx,
        n <= regions.len(),
        seg_walk(regions, idx, off).stop matches SegStop::Tail { region, .. } && region < n,
    ensures
        seg_walk(regions.subrange(0, n), idx, off) == seg_walk(regions, idx, off),
    decreases regions.len() - idx,
{
    lemma_tail_is_ahead(regions, idx, off);
    let first = regions.subrange(0, n);
    assert(first[idx] == regions[idx]);
    let here = walk(regions[idx], off, regions[idx].len() as int);
    if here.stop is Edge {
        law_regions_up_to_the_tail_suffice(regions, idx + 1, 0, n);
    }
}

/// The tail is not before the start.
proof fn lemma_tail_is_ahead(regions: Seq<Seq<u8>>, idx: int, off: int)
    requires
        0 <= idx,
        seg_walk(regions, idx, off).stop is Tail,
    ensures
        seg_walk(regions, idx, off).stop matches SegStop::Tail { region, .. } && idx <= region
            < regions.len(),
    decreases regions.len() - idx,
{
    if walk(regions[idx], off, regions[idx].len() as int).stop is Edge {
        lemma_tail_is_ahead(regions, idx + 1, 0);
    }
}

} // verus!
