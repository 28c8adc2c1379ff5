//! What the bytes of a region, of a segment and of a channel say: which records
//! stand there, in which order, and where they end.
use vstd::prelude::*;

use crate::channel::{header_at, HeaderType, MessageHeader, FIRST_SLOT, HEADER_SLOT};
use crate::error::Error;
use crate::layout::align8;

verus! {

/// A message of the log.
#[verifier::ext_equal]
pub struct Record {
    pub message_type: u16,
    pub user_meta: u64,
    pub payload: Seq<u8>,
}

/// The message whose header stands at `off`.
pub open spec fn record_at(r: Seq<u8>, off: int) -> Record {
    let h = header_at(r, off);
    Record {
        message_type: h.message_type,
        user_meta: h.user_meta_u64,
        payload: r.subrange(off + HEADER_SLOT, off + HEADER_SLOT + h.length),
    }
}

/// What a header slot says to a reader.
pub enum Slot {
    /// Nothing is published here yet.
    Waiting,
    /// A record without a message: the channel header or padding.
    Service { next: int },
    /// A message.
    User { next: int },
    /// The channel goes on in the next segment.
    Roll,
    /// Not a slot that a writer leaves behind.
    Bad { error: Error },
}

/// What the slot at `off` says to a reader that has observed the commit flags
/// below `visible`.
pub open spec fn slot_at(r: Seq<u8>, off: int, visible: int) -> Slot {
    let h = header_at(r, off);
    let next = align8(off + HEADER_SLOT + h.length);
    if off + HEADER_SLOT > r.len() {
        Slot::Bad { error: Error::BoundaryHole }
    } else if off >= visible {
        Slot::Waiting
    } else {
        match h.spec_is_committed() {
            Err(error) => Slot::Bad { error },
            Ok(false) => Slot::Waiting,
            Ok(true) => match HeaderType::spec_from_raw(h.header_type) {
                Err(error) => Slot::Bad { error },
                Ok(kind) => if off + HEADER_SLOT + h.length > r.len() {
                    Slot::Bad { error: Error::PayloadPastRegion }
                } else {
                    match kind {
                        HeaderType::User => Slot::User { next },
                        HeaderType::Skip => Slot::Service { next },
                        HeaderType::Channel => Slot::Service { next },
                        HeaderType::Roll => Slot::Roll,
                    }
                },
            },
        }
    }
}

/// Bytes from `off` to the end.
pub open spec fn room(r: Seq<u8>, off: int) -> nat {
    if off < r.len() {
        (r.len() - off) as nat
    } else {
        0
    }
}

/// Where a reader comes to rest.
pub enum Hit {
    /// At a message.
    User { off: int },
    /// At a slot that is not published yet.
    Tail { off: int },
    /// At the end of the region.
    Edge,
    /// At the mark that the channel goes on in the next segment.
    Roll { off: int },
    /// At a slot that makes no sense.
    Bad { off: int, error: Error },
}

/// Where a reader that starts at `off` and steps over service records comes to
/// rest.
pub open spec fn seek(r: Seq<u8>, off: int, visible: int) -> Hit
    decreases room(r, off),
{
    if off >= r.len() {
        Hit::Edge
    } else {
        match slot_at(r, off, visible) {
            Slot::Waiting => Hit::Tail { off },
            Slot::Service { next } => seek(r, next, visible),
            Slot::User { next } => Hit::User { off },
            Slot::Roll => Hit::Roll { off },
            Slot::Bad { error } => Hit::Bad { off, error },
        }
    }
}

/// The messages that a reader meets, and where it comes to rest behind the last.
#[verifier::ext_equal]
pub struct Walk {
    pub records: Seq<Record>,
    pub stop: Hit,
}

/// What a reader that starts at `off` meets in a region.
pub open spec fn walk(r: Seq<u8>, off: int, visible: int) -> Walk
    decreases room(r, off),
{
    if off >= r.len() {
        Walk { records: seq![], stop: Hit::Edge }
    } else {
        match slot_at(r, off, visible) {
            Slot::Waiting => Walk { records: seq![], stop: Hit::Tail { off } },
            Slot::Service { next } => walk(r, next, visible),
            Slot::User { next } => {
                let rest = walk(r, next, visible);
                Walk { records: seq![record_at(r, off)] + rest.records, stop: rest.stop }
            },
            Slot::Roll => Walk { records: seq![], stop: Hit::Roll { off } },
            Slot::Bad { error } => Walk { records: seq![], stop: Hit::Bad { off, error } },
        }
    }
}

/// The offset behind the record at `off`.
pub open spec fn after(r: Seq<u8>, off: int) -> int {
    align8(off + HEADER_SLOT + header_at(r, off).length)
}

/// Walking is seeking the first message and walking on behind it.
pub proof fn lemma_walk_is_seek(r: Seq<u8>, off: int, visible: int)
    ensures
        match seek(r, off, visible) {
            Hit::User { off: at } => {
                &&& slot_at(r, at, visible) == Slot::User { next: after(r, at) }
                &&& walk(r, off, visible).records == seq![record_at(r, at)] + walk(
                    r,
                    after(r, at),
                    visible,
                ).records
                &&& walk(r, off, visible).stop == walk(r, after(r, at), visible).stop
            },
            stop => walk(r, off, visible) == (Walk { records: seq![], stop }),
        },
    decreases room(r, off),
{
    if off < r.len() {
        match slot_at(r, off, visible) {
            Slot::Service { next } => {
                lemma_walk_is_seek(r, next, visible);
            },
            _ => {},
        }
    }
}

/// A message that a reader comes to stands inside the region, not before the start.
pub proof fn lemma_seek_bounds(r: Seq<u8>, off: int, visible: int)
    requires
        off % 8 == 0,
        r.len() % 8 == 0,
    ensures
        match seek(r, off, visible) {
            Hit::User { off: at } => {
                &&& off <= at
                &&& at % 8 == 0
                &&& at + HEADER_SLOT + header_at(r, at).length <= after(r, at) <= r.len()
                &&& after(r, at) % 8 == 0
            },
            Hit::Tail { off: at } => off <= at && at % 8 == 0 && at + HEADER_SLOT <= r.len(),
            Hit::Edge => true,
            Hit::Roll { off: at } => off <= at && at % 8 == 0 && at + HEADER_SLOT <= r.len(),
            Hit::Bad { off: at, error } => off <= at && at % 8 == 0 && at < r.len(),
        },
    decreases room(r, off),
{
    if off < r.len() {
        match slot_at(r, off, visible) {
            Slot::Service { next } => {
                lemma_seek_bounds(r, next, visible);
            },
            _ => {},
        }
    }
}

/// Where a walk comes to rest, there is a slot or the end of the region, and it is
/// not before the start.
pub proof fn lemma_stop_bounds(r: Seq<u8>, off: int, visible: int)
    requires
        off % 8 == 0,
        r.len() % 8 == 0,
    ensures
        match walk(r, off, visible).stop {
            Hit::User { .. } => false,
            Hit::Tail { off: at } => off <= at && at + HEADER_SLOT <= r.len() && at % 8 == 0,
            Hit::Edge => true,
            Hit::Roll { off: at } => off <= at && at + HEADER_SLOT <= r.len() && at % 8 == 0,
            Hit::Bad { off: at, error } => off <= at && at < r.len() && at % 8 == 0,
        },
    decreases room(r, off),
{
    if off < r.len() {
        match slot_at(r, off, visible) {
            Slot::Service { next } => {
                lemma_stop_bounds(r, next, visible);
            },
            Slot::User { next } => {
                lemma_stop_bounds(r, next, visible);
            },
            _ => {},
        }
    }
}

/// Headers, and the slots they make, depend on their own bytes.
pub proof fn lemma_slot_frame(r: Seq<u8>, t: Seq<u8>, off: int, visible: int)
    requires
        r.len() == t.len(),
        0 <= off,
        off + HEADER_SLOT <= r.len(),
        forall|i: int| off <= i < off + HEADER_SLOT ==> r[i] == t[i],
    ensures
        header_at(r, off) == header_at(t, off),
        slot_at(r, off, visible) == slot_at(t, off, visible),
        after(r, off) == after(t, off),
{
    crate::channel::lemma_header_frame(r, t, off);
}

/// What a walk meets depends only on the bytes from its start on.
pub proof fn lemma_walk_frame(r: Seq<u8>, t: Seq<u8>, off: int, visible: int)
    requires
        r.len() == t.len(),
        0 <= off,
        forall|i: int| off <= i < r.len() ==> r[i] == t[i],
    ensures
        walk(r, off, visible) == walk(t, off, visible),
    decreases room(r, off),
{
    if off + HEADER_SLOT <= r.len() {
        lemma_slot_frame(r, t, off, visible);
        match slot_at(r, off, visible) {
            Slot::Service { next } => {
                lemma_walk_frame(r, t, next, visible);
            },
            Slot::User { next } => {
                lemma_walk_frame(r, t, next, visible);
                assert(record_at(r, off) =~= record_at(t, off));
            },
            _ => {},
        }
    }
}

/// A walk that comes to rest at the unpublished slot `tail` meets the same messages
/// in any region that agrees on the bytes before `tail`, and then goes on from
/// there.
pub proof fn lemma_walk_prefix(r: Seq<u8>, t: Seq<u8>, off: int, tail: int)
    requires
        r.len() == t.len(),
        r.len() % 8 == 0,
        0 <= off,
        off % 8 == 0,
        walk(r, off, r.len() as int).stop == (Hit::Tail { off: tail }),
        forall|i: int| off <= i < tail ==> r[i] == t[i],
    ensures
        walk(t, off, t.len() as int) == (Walk {
            records: walk(r, off, r.len() as int).records + walk(t, tail, t.len() as int).records,
            stop: walk(t, tail, t.len() as int).stop,
        }),
    decreases room(r, off),
{
    let all = r.len() as int;
    lemma_stop_bounds(r, off, all);
    let first = walk(r, off, all).records;
    let second = walk(t, tail, all).records;
    match slot_at(r, off, all) {
        Slot::Waiting => {
            assert(first + second =~= second);
        },
        Slot::Service { next } => {
            lemma_stop_bounds(r, next, all);
            lemma_slot_frame(r, t, off, all);
            lemma_walk_prefix(r, t, next, tail);
        },
        Slot::User { next } => {
            lemma_stop_bounds(r, next, all);
            lemma_slot_frame(r, t, off, all);
            lemma_walk_prefix(r, t, next, tail);
            assert(record_at(r, off) =~= record_at(t, off));
            assert(first + second =~= seq![record_at(r, off)] + (walk(r, next, all).records
                + second));
        },
        _ => {},
    }
}

/// The regions of a segment all have `size` bytes.
pub open spec fn regions_of(regions: Seq<Seq<u8>>, size: int) -> bool {
    &&& size > 0
    &&& size % 8 == 0
    &&& forall|i: int| 0 <= i < regions.len() ==> (#[trigger] regions[i]).len() == size
}

/// Where the messages of a segment end.
pub enum SegStop {
    /// At a slot that is not published yet.
    Tail { region: int, off: int },
    /// Behind the last region.
    End,
    /// At the mark that the channel goes on in the next segment.
    Roll { region: int, off: int },
    /// At a slot that makes no sense.
    Bad { region: int, off: int, error: Error },
}

/// The messages of a segment, and where they end.
#[verifier::ext_equal]
pub struct SegWalk {
    pub records: Seq<Record>,
    pub stop: SegStop,
}

/// What a reader meets in a segment from offset `off` of region `idx` on.
pub open spec fn seg_walk(regions: Seq<Seq<u8>>, idx: int, off: int) -> SegWalk
    decreases regions.len() - idx,
{
    if idx < 0 || idx >= regions.len() {
        SegWalk { records: seq![], stop: SegStop::End }
    } else {
        let r = regions[idx];
        let w = walk(r, off, r.len() as int);
        match w.stop {
            Hit::Edge => {
                let rest = seg_walk(regions, idx + 1, 0);
                SegWalk { records: w.records + rest.records, stop: rest.stop }
            },
            Hit::Tail { off: at } => SegWalk {
                records: w.records,
                stop: SegStop::Tail { region: idx, off: at },
            },
            Hit::Roll { off: at } => SegWalk {
                records: w.records,
                stop: SegStop::Roll { region: idx, off: at },
            },
            Hit::Bad { off: at, error } => SegWalk {
                records: w.records,
                stop: SegStop::Bad { region: idx, off: at, error },
            },
            Hit::User { off: at } => SegWalk { records: w.records, stop: SegStop::End },
        }
    }
}

/// The log of a segment: all its messages, and where they end.
pub open spec fn seg_log(regions: Seq<Seq<u8>>) -> SegWalk {
    seg_walk(regions, 0, 0)
}

/// The log of a channel: the messages of segment `i` and, where it was rolled, of
/// those behind it.
pub open spec fn channel_log(segments: Seq<Seq<Seq<u8>>>, i: int) -> Seq<Record>
    decreases segments.len() - i,
{
    if i < 0 || i >= segments.len() {
        seq![]
    } else {
        let w = seg_log(segments[i]);
        match w.stop {
            SegStop::Roll { .. } => w.records + channel_log(segments, i + 1),
            _ => w.records,
        }
    }
}

/// Where a segment's messages end, there is a slot.
pub proof fn lemma_seg_stop_bounds(regions: Seq<Seq<u8>>, size: int, idx: int, off: int)
    requires
        regions_of(regions, size),
        0 <= idx,
        0 <= off,
        off % 8 == 0,
    ensures
        match seg_walk(regions, idx, off).stop {
            SegStop::Tail { region, off: at } => {
                &&& idx <= region < regions.len()
                &&& 0 <= at
                &&& at + HEADER_SLOT <= size
                &&& at % 8 == 0
                &&& region == idx ==> off <= at
            },
            SegStop::Roll { region, off: at } => idx <= region < regions.len() && 0 <= at && at
                + HEADER_SLOT <= size,
            _ => true,
        },
    decreases regions.len() - idx,
{
    if idx < regions.len() {
        let r = regions[idx];
        lemma_stop_bounds(r, off, r.len() as int);
        if walk(r, off, r.len() as int).stop is Edge {
            lemma_seg_stop_bounds(regions, size, idx + 1, 0);
        }
    }
}

/// A segment walk that ends at an unpublished slot meets the same messages in any
/// segment that agrees on the bytes before that slot, and then goes on from there.
pub proof fn lemma_seg_prefix(
    a: Seq<Seq<u8>>,
    b: Seq<Seq<u8>>,
    size: int,
    idx: int,
    off: int,
    region: int,
    tail: int,
)
    requires
        regions_of(a, size),
        regions_of(b, size),
        a.len() <= b.len(),
        0 <= idx,
        0 <= off,
        off % 8 == 0,
        seg_walk(a, idx, off).stop == (SegStop::Tail { region, off: tail }),
        forall|j: int| idx <= j < region ==> a[j] == b[j],
        forall|i: int|
            (if region == idx {
                off
            } else {
                0
            }) <= i < tail ==> a[region][i] == b[region][i],
    ensures
        seg_walk(b, idx, off) == (SegWalk {
            records: seg_walk(a, idx, off).records + seg_walk(b, region, tail).records,
            stop: seg_walk(b, region, tail).stop,
        }),
    decreases region - idx,
{
    lemma_seg_stop_bounds(a, size, idx, off);
    let first = seg_walk(a, idx, off).records;
    let second = seg_walk(b, region, tail).records;
    if region == idx {
        let r = a[idx];
        let t = b[idx];
        let all = size;
        lemma_stop_bounds(r, off, all);
        if walk(r, off, all).stop is Edge {
            lemma_seg_stop_bounds(a, size, idx + 1, 0);
        }
        lemma_walk_prefix(r, t, off, tail);
        let wt = walk(t, tail, all);
        lemma_stop_bounds(t, tail, all);
        let next = seg_walk(b, idx + 1, 0).records;
        assert(first + (wt.records + next) =~= (first + wt.records) + next);
    } else {
        let r = a[idx];
        lemma_stop_bounds(r, off, size);
        assert(walk(r, off, size).stop is Edge);
        lemma_seg_prefix(a, b, size, idx + 1, 0, region, tail);
        let here = walk(r, off, size).records;
        let rest = seg_walk(a, idx + 1, 0).records;
        assert((here + rest) + second =~= here + (rest + second));
    }
}

/// A published message at the tail of a segment, with an unpublished slot behind it,
/// is the one message more.
pub proof fn lemma_seg_push(
    regions: Seq<Seq<u8>>,
    size: int,
    region: int,
    off: int,
    t: Seq<u8>,
    next: int,
)
    requires
        regions_of(regions, size),
        seg_log(regions).stop == (SegStop::Tail { region, off }),
        t.len() == size,
        forall|i: int| 0 <= i < off ==> t[i] == regions[region][i],
        slot_at(t, off, size) == (Slot::User { next }),
        slot_at(t, next, size) == Slot::Waiting,
        next < size,
    ensures
        regions_of(regions.update(region, t), size),
        seg_log(regions.update(region, t)) == (SegWalk {
            records: seg_log(regions).records.push(record_at(t, off)),
            stop: SegStop::Tail { region, off: next },
        }),
{
    let after = regions.update(region, t);
    lemma_seg_stop_bounds(regions, size, 0, 0);
    lemma_seg_prefix(regions, after, size, 0, 0, region, off);
    assert(walk(t, next, size) == (Walk { records: seq![], stop: Hit::Tail { off: next } }));
    assert(walk(t, off, size).records =~= seq![record_at(t, off)]);
    assert(seg_log(regions).records + seq![record_at(t, off)] =~= seg_log(regions).records.push(
        record_at(t, off),
    ));
}

/// A segment walk depends on what it meets in its first region and on the regions
/// behind that one.
pub proof fn lemma_seg_frame(a: Seq<Seq<u8>>, b: Seq<Seq<u8>>, idx: int, off: int, other: int)
    requires
        a.len() == b.len(),
        0 <= idx < a.len(),
        a[idx].len() == b[idx].len(),
        walk(a[idx], off, a[idx].len() as int) == walk(b[idx], other, b[idx].len() as int),
        forall|j: int| idx < j < a.len() ==> a[j] == b[j],
    ensures
        seg_walk(a, idx, off) == seg_walk(b, idx, other),
    decreases a.len() - idx,
{
    if idx + 1 < a.len() {
        lemma_seg_frame(a, b, idx + 1, 0, 0);
    }
    assert(seg_walk(a, idx + 1, 0) == seg_walk(b, idx + 1, 0));
}

/// The head of a segment: a committed Channel record that holds the channel header.
pub open spec fn segment_head(r: Seq<u8>) -> bool {
    &&& FIRST_SLOT <= r.len()
    &&& header_at(r, 0) == channel_record()
}

/// The header of the record that holds the channel header.
pub open spec fn channel_record() -> MessageHeader {
    MessageHeader {
        committed: 1,
        header_type: 0,
        message_type: 0,
        length: 128,
        user_meta_u64: 0,
    }
}

/// A reader steps over the channel header, whatever it holds.
pub proof fn lemma_head_is_skipped(r: Seq<u8>)
    requires
        segment_head(r),
    ensures
        walk(r, 0, r.len() as int) == walk(r, FIRST_SLOT as int, r.len() as int),
{
    assert(slot_at(r, 0, r.len() as int) == Slot::Service { next: 144 });
}

/// A change inside the channel header changes no message.
pub proof fn lemma_head_update(r: Seq<u8>, t: Seq<u8>)
    requires
        segment_head(r),
        r.len() == t.len(),
        forall|i: int| 0 <= i < 16 ==> r[i] == t[i],
        forall|i: int| FIRST_SLOT <= i < r.len() ==> r[i] == t[i],
    ensures
        segment_head(t),
        walk(t, 0, t.len() as int) == walk(r, 0, r.len() as int),
{
    lemma_slot_frame(r, t, 0, r.len() as int);
    lemma_head_is_skipped(r);
    lemma_head_is_skipped(t);
    lemma_walk_frame(r, t, FIRST_SLOT as int, r.len() as int);
}

} // verus!
