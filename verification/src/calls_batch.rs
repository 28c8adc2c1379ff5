//! What the calls that read many messages at once, and those that count messages, come to.
//!
//! Each law takes calls of the named operations with their arguments and results, and says
//! what holds between them.
use vstd::prelude::*;

use crate::batch::{
    place_fits, region_bytes, take, BatchScan, BatchStep, Drain, MessageBatch,
};
use crate::bytes::{le16, le32, le64};
use crate::calls_format::fields_at;
use crate::calls_reader::{continuation_error, continues};
use crate::channel::{header_at, ChannelHeader};
use crate::error::Error;
use crate::log::{seg_log, slot_at, Slot};
use crate::message::{MessageRef, OwnedMessage};
use crate::reader::{BatchSeg, MsgPos, Outcome, Reader, ReaderView};
use crate::tally::{count_records, RegionCount, Rest, Tally};

verus! {

/// A batch holds at most what the read says, else what the reader says, else any number,
/// and none is begun where that is nothing. It is begun empty, at the reader's place, with
/// only the current region mapped, and nothing else of the reader changes.
pub proof fn law_beginning_a_batch<M>(
    reader: &mut Reader<M>,
    max_batch: Option<u16>,
    r: Option<BatchScan>,
)
    requires
        old(reader)@.wf(),
        old(reader)@.on_map(),
        call_ensures(Reader::<M>::begin_batch, (reader, max_batch), r),
    ensures
        ({
            let s = old(reader)@;
            let t = final(reader)@;
            let limit = if max_batch is Some {
                max_batch
            } else {
                s.batch_limit
            };
            &&& r is None <==> limit == Some(0u16)
            &&& r is None ==> t == s
            &&& r matches Some(scan) ==> {
                &&& limit is Some ==> scan.max == limit->Some_0
                &&& limit is None ==> scan.max == usize::MAX
                &&& scan.sequence == s.file_sequence
                &&& scan.base_record_index == s.base_record_index_cached
                &&& scan.channel_name@ == s.channel_name_cached@
                &&& scan.cursor == s.read_position
                &&& !scan.progressed
                &&& t == (ReaderView {
                    maps: seq![s.maps.last()],
                    batch_segs: seq![],
                    batch_pos: seq![],
                    ..s
                })
            }
        }),
{
}

/// A scan needs the region of its cursor, unless that is the last one mapped, and does not
/// go back inside a segment. The region is taken over behind the others, and a stretch is
/// begun there at the cursor.
pub proof fn law_regions_of_a_batch<M>(
    a: &Reader<M>,
    scan: &BatchScan,
    need: Result<Option<u64>, Error>,
    b: &mut Reader<M>,
    mapping: M,
    c: &mut Reader<M>,
)
    requires
        a@.scan_wf(*scan),
        call_ensures(Reader::<M>::ensure_scan_region_mapped, (a, scan), need),
        old(b)@.scan_wf(*scan),
        call_ensures(Reader::<M>::map_scan_region, (b, scan, mapping), ()),
        old(c)@.scan_wf(*scan),
        old(c)@.maps.len() > 0,
        call_ensures(Reader::<M>::begin_batch_seg, (c, scan), ()),
    ensures
        ({
            let index = scan.cursor as int / a@.region_size_cached as int;
            let there = a@.maps.len() > 0 && a@.maps.last().file_sequence == scan.sequence;
            &&& need == Ok::<Option<u64>, Error>(None) <==> there && a@.maps.last().region_idx
                == index
            &&& need is Err <==> there && a@.maps.last().region_idx > index
            &&& need matches Err(e) ==> e == Error::BatchMovedBackward
            &&& need matches Ok(Some(i)) ==> i == index
        }),
        final(b)@.maps.len() == old(b)@.maps.len() + 1,
        final(b)@.maps.drop_last() == old(b)@.maps,
        final(b)@.maps.last().file_sequence == scan.sequence,
        final(b)@.maps.last().region_idx == scan.cursor as int
            / old(b)@.region_size_cached as int,
        final(b)@.maps.last().mapping == mapping,
        final(b)@ == (ReaderView { maps: final(b)@.maps, ..old(b)@ }),
        final(c)@.batch_segs.len() == old(c)@.batch_segs.len() + 1,
        final(c)@.batch_segs.drop_last() == old(c)@.batch_segs,
        old(c)@.maps.len() <= usize::MAX ==> final(c)@.batch_segs.last().map_idx
            == old(c)@.maps.len() - 1,
        final(c)@.batch_segs.last().start == scan.cursor as int
            % old(c)@.region_size_cached as int,
        final(c)@.batch_segs.last().end == scan.cursor as int % old(c)@.region_size_cached as int,
        final(c)@ == (ReaderView { batch_segs: final(c)@.batch_segs, ..old(c)@ }),
{
    let size = a@.region_size_cached as int;
    crate::layout::lemma_split(scan.cursor as int, size);
    lemma_index_fits(scan.cursor, size);
    lemma_index_fits(scan.cursor, old(b)@.region_size_cached as int);
    crate::layout::lemma_split(scan.cursor as int, old(b)@.region_size_cached as int);
    crate::layout::lemma_split(scan.cursor as int, old(c)@.region_size_cached as int);
    assert(final(b)@.maps.drop_last() =~= old(b)@.maps);
    assert(final(c)@.batch_segs.drop_last() =~= old(c)@.batch_segs);
}

/// The index of a region is no larger than the position.
proof fn lemma_index_fits(cursor: u64, size: int)
    requires
        size >= 1,
    ensures
        0 <= cursor as int / size <= cursor,
{
    let i = cursor as int / size;
    crate::layout::lemma_split(cursor as int, size);
    assert(i <= i * size) by (nonlinear_arith)
        requires
            size >= 1,
            i >= 0,
    ;
}

/// What a batch scan does at the slot that it has come to, where it ends there: the last
/// message that fits is added and stepped over, and anything else but a message or a
/// service record is reported and left where it is.
pub proof fn law_batching_a_slot<M>(
    reader: &mut Reader<M>,
    scan: &mut BatchScan,
    region: &[u8],
    visible: usize,
    r: Result<BatchStep, Error>,
)
    requires
        old(reader)@.ready_to_batch(*old(scan), region@),
        old(reader)@.batch_segs.len() <= usize::MAX,
        call_ensures(Reader::<M>::scan_batch_region, (reader, scan, region, visible), r),
    ensures
        ({
            let s = old(reader)@;
            let t = final(reader)@;
            let size = s.region_size_cached as int;
            let off = old(scan).cursor as int % size;
            let h = header_at(region@, off);
            let end = off + 16 + h.length;
            let next = (end + 7) / 8 * 8;
            let n = s.batch_segs.len() - 1;
            let last = s.batch_segs.last();
            let stays = *final(scan) == *old(scan);
            if off + 16 > size {
                stays && t == s && r == Err::<BatchStep, Error>(Error::BatchInvalidSlot)
            } else if off >= visible || h.committed == 0 {
                &&& stays && r == Ok::<BatchStep, Error>(BatchStep::Waiting)
                &&& t == (ReaderView {
                    batch_segs: s.batch_segs.update(n, BatchSeg { end: off as u32, ..last }),
                    ..s
                })
            } else if h.committed > 1 {
                stays && t == s && r == Err::<BatchStep, Error>(Error::InvalidCommittedFlag)
            } else if h.header_type > 3 {
                stays && t == s && r == Err::<BatchStep, Error>(
                    Error::InvalidHeaderType { raw: h.header_type },
                )
            } else if end > size {
                stays && t == s && r == Err::<BatchStep, Error>(Error::BatchPayloadPastRegion)
            } else if h.header_type == 3 {
                &&& stays && r == Ok::<BatchStep, Error>(
                    BatchStep::NextFile { sequence: (old(scan).sequence + 1) as u64 },
                )
                &&& t == (ReaderView {
                    batch_segs: s.batch_segs.update(n, BatchSeg { end: next as u32, ..last }),
                    ..s
                })
            } else if h.header_type == 1 && s.batch_pos.len() + 1 == old(scan).max {
                &&& r == Ok::<BatchStep, Error>(BatchStep::Full)
                &&& *final(scan) == (BatchScan {
                    cursor: (old(scan).cursor - off + next) as u64,
                    progressed: true,
                    ..*old(scan)
                })
                &&& t == (ReaderView {
                    batch_pos: s.batch_pos.push(MsgPos { seg: n as usize, off: off as u32 }),
                    batch_segs: s.batch_segs.update(n, BatchSeg { end: next as u32, ..last }),
                    ..s
                })
            } else {
                true
            }
        }),
{
    let s = old(reader)@;
    let size = s.region_size_cached as int;
    let off = s.scan_off(*old(scan));
    let h = header_at(region@, off);
    let n = old(scan).max - s.batch_pos.len();
    crate::layout::lemma_split(old(scan).cursor as int, size);
    crate::calls_reader::law_slots(region@, off, visible as int);
    crate::layout::law_align_up(off + 16 + h.length, 0);
    let none = crate::batch::places((s.batch_segs.len() - 1) as usize, Seq::<int>::empty());
    assert(s.batch_pos + none =~= s.batch_pos);
    let one = crate::batch::places((s.batch_segs.len() - 1) as usize, seq![off]);
    assert(s.batch_pos + one =~= s.batch_pos.push(
        MsgPos { seg: (s.batch_segs.len() - 1) as usize, off: off as u32 },
    ));
    let t = take(region@, off, visible as int, n);
    match slot_at(region@, off, visible as int) {
        Slot::User { next } => {
            if n == 1 {
                assert(t.offs =~= seq![off]);
            }
        },
        Slot::Service { next } => {},
        _ => {
            assert(t.offs =~= Seq::<int>::empty());
        },
    }
}

/// A batch scan steps over service records, and adds a message and goes on behind it while
/// the batch has room: it comes to what it comes to from the slot behind, or asks for the
/// next region where the record ends its region.
#[verifier::spinoff_prover]
#[verifier::rlimit(60)]
pub proof fn law_batching_goes_on<M>(
    reader: &mut Reader<M>,
    scan: &mut BatchScan,
    behind: &mut Reader<M>,
    later: &mut BatchScan,
    region: &[u8],
    visible: usize,
    r: Result<BatchStep, Error>,
    q: Result<BatchStep, Error>,
)
    requires
        old(reader)@.ready_to_batch(*old(scan), region@),
        old(reader)@.batch_segs.len() <= usize::MAX,
        call_ensures(Reader::<M>::scan_batch_region, (reader, scan, region, visible), r),
        ({
            let s = old(reader)@;
            let off = old(scan).cursor as int % s.region_size_cached as int;
            let h = header_at(region@, off);
            let one = MsgPos { seg: (s.batch_segs.len() - 1) as usize, off: off as u32 };
            &&& off < visible && h.committed == 1
            &&& h.header_type <= 2
            &&& h.header_type == 1 ==> s.batch_pos.len() + 1 < old(scan).max
            &&& off + 16 + h.length <= region@.len()
            &&& *old(later) == (BatchScan {
                cursor: (old(scan).cursor + (16 + h.length + 7) / 8 * 8) as u64,
                progressed: true,
                ..*old(scan)
            })
            &&& old(behind)@ == (ReaderView {
                batch_pos: if h.header_type == 1 {
                    s.batch_pos.push(one)
                } else {
                    s.batch_pos
                },
                ..s
            })
            &&& off + (16 + h.length + 7) / 8 * 8 < region@.len() ==> call_ensures(
                Reader::<M>::scan_batch_region,
                (behind, later, region, visible),
                q,
            )
        }),
    ensures
        ({
            let s = old(reader)@;
            let off = old(scan).cursor as int % s.region_size_cached as int;
            let h = header_at(region@, off);
            let next = off + (16 + h.length + 7) / 8 * 8;
            if next < region@.len() {
                &&& r == q
                &&& *final(scan) == *final(later)
                &&& final(reader)@ == final(behind)@
            } else {
                &&& r == Ok::<BatchStep, Error>(BatchStep::NextRegion)
                &&& *final(scan) == *old(later)
                &&& final(reader)@ == (ReaderView {
                    batch_segs: s.batch_segs.update(
                        s.batch_segs.len() - 1,
                        BatchSeg { end: s.region_size_cached as u32, ..s.batch_segs.last() },
                    ),
                    ..old(behind)@
                })
            }
        }),
{
    let s = old(reader)@;
    let b = old(behind)@;
    let size = s.region_size_cached as int;
    let idx = s.scan_region(*old(scan));
    let off = s.scan_off(*old(scan));
    let h = header_at(region@, off);
    let next = off + (16 + h.length + 7) / 8 * 8;
    let n = old(scan).max - s.batch_pos.len();
    let seg = (s.batch_segs.len() - 1) as usize;
    crate::layout::lemma_split(old(scan).cursor as int, size);
    crate::layout::lemma_region_start_aligned(idx, size);
    crate::layout::law_align_up(16 + h.length, off);
    let user = h.header_type == 1;
    let m = if user {
        n - 1
    } else {
        n
    };
    let whole = take(region@, off, visible as int, n);
    let rest = take(region@, next, visible as int, m);
    let here = if user {
        seq![off]
    } else {
        Seq::<int>::empty()
    };
    if user {
        assert(slot_at(region@, off, visible as int) == Slot::User { next });
    } else {
        assert(slot_at(region@, off, visible as int) == Slot::Service { next });
    }
    assert(whole.offs =~= here + rest.offs);
    assert(whole.stop == rest.stop);
    assert(s.batch_pos + crate::batch::places(seg, whole.offs) =~= b.batch_pos
        + crate::batch::places(seg, rest.offs));
    crate::batch::lemma_taken_fit(region@, next, visible as int, m);
    if next < size {
        crate::layout::lemma_position(idx, next, size);
    } else {
        assert(rest.offs =~= Seq::<int>::empty());
        assert(b.batch_pos + crate::batch::places(seg, rest.offs) =~= b.batch_pos);
    }
}

/// A scan that has stepped over something moves the reader to where it came to, with the
/// numbering and the name found there. The batch is kept where it holds a message and given
/// up where it holds none, with only the current region mapped then.
pub proof fn law_ending_a_batch<M>(reader: &mut Reader<M>, scan: BatchScan, r: bool)
    requires
        call_ensures(Reader::<M>::finish_batch, (reader, scan), r),
    ensures
        ({
            let s = old(reader)@;
            let t = final(reader)@;
            &&& r <==> scan.progressed && s.batch_pos.len() > 0
            &&& scan.progressed ==> {
                &&& t.read_position == scan.cursor
                &&& t.file_sequence == scan.sequence
                &&& t.base_record_index_cached == scan.base_record_index
                &&& t.channel_name_cached@ == scan.channel_name@
            }
            &&& !scan.progressed ==> {
                &&& t.read_position == s.read_position
                &&& t.file_sequence == s.file_sequence
                &&& t.base_record_index_cached == s.base_record_index_cached
                &&& t.channel_name_cached@ == s.channel_name_cached@
                &&& t.maps == s.maps
            }
            &&& r ==> t.batch_pos == s.batch_pos && t.batch_segs == s.batch_segs && t.maps
                == s.maps
            &&& !r ==> t.batch_pos.len() == 0 && t.batch_segs.len() == 0
            &&& !r && scan.progressed ==> t.maps.len() == 1 && t.maps[0] == s.maps.last()
            &&& t.region_size_cached == s.region_size_cached
            &&& t.mtu_cached == s.mtu_cached
            &&& t.generation_cached == s.generation_cached
            &&& t.batch_limit == s.batch_limit
        }),
{
}

/// A batch scan moves on to the next segment exactly when that continues the one that it
/// has come to the end of, whatever has been written there since, and then stands at its
/// beginning.
pub proof fn law_batch_moves_on_to_the_next_segment<M>(
    scan: &mut BatchScan,
    reader: &Reader<M>,
    current: &[u8],
    region0: &[u8],
    ch: ChannelHeader,
    r: Result<(), Error>,
)
    requires
        old(scan).sequence < u64::MAX,
        le64(current@, 32) + le64(current@, 24) <= u64::MAX,
        fields_at(ch, region0@),
        call_ensures(BatchScan::enter_next_file::<M>, (scan, reader, current, region0), r),
    ensures
        ({
            let base = le64(current@, 32) + le64(current@, 24);
            &&& r is Ok <==> continues(
                region0@,
                old(scan).sequence + 1,
                reader@.region_size_cached,
                reader@.generation_cached,
                base,
            )
            &&& r is Ok ==> {
                &&& final(scan).sequence == old(scan).sequence + 1
                &&& final(scan).base_record_index == base
                &&& final(scan).channel_name@ == ch.channel_name@
                &&& final(scan).cursor == 0
                &&& final(scan).progressed
                &&& final(scan).max == old(scan).max
            }
            &&& r matches Err(e) ==> *final(scan) == *old(scan) && continuation_error(
                ch,
                region0@[1],
                (old(scan).sequence + 1) as u64,
                reader@.region_size_cached,
                reader@.generation_cached,
                base,
                e,
            )
        }),
{
}

/// A drain begins with nothing taken, bounded by what it is told or by nothing, and is
/// full when it has taken what it may.
pub proof fn law_drains(max: Option<usize>, d: Drain, e: &Drain, n: usize, full: bool)
    requires
        call_ensures(Drain::new, (max,), d),
        call_ensures(Drain::count, (e,), n),
        call_ensures(Drain::is_full, (e,), full),
    ensures
        d.taken() == 0,
        max is Some ==> d.max() == max->Some_0,
        max is None ==> d.max() == usize::MAX,
        n == e.taken(),
        full <==> e.taken() == e.max(),
{
}

/// Draining is reading one message after the other. A full drain does nothing. Otherwise
/// it does what one owned read does, and where that takes a message it goes on behind it,
/// until the bound is reached or the region is read.
#[verifier::spinoff_prover]
#[verifier::rlimit(60)]
pub proof fn law_draining_is_repeated_reading<M: Clone>(
    a: &mut Reader<M>,
    out: &mut Vec<OwnedMessage<M>>,
    drain: &mut Drain,
    b: &mut Reader<M>,
    c: &mut Reader<M>,
    rest: &mut Vec<OwnedMessage<M>>,
    less: &mut Drain,
    region: &[u8],
    visible: usize,
    r: Result<Outcome<()>, Error>,
    one: Result<Outcome<OwnedMessage<M>>, Error>,
    q: Result<Outcome<()>, Error>,
)
    requires
        old(a)@.ready_to_scan(region@),
        old(drain).wf(),
        call_ensures(Reader::<M>::read_owned_into, (a, region, visible, out, drain), r),
        old(b)@ == old(a)@,
        call_ensures(Reader::<M>::try_read_owned, (b, region, visible), one),
        old(c)@ == final(b)@,
        old(drain).taken() < old(drain).max() ==> {
            &&& old(less).max() == old(drain).max()
            &&& old(less).taken() == old(drain).taken() + 1
            &&& old(rest)@.len() == 0
            &&& call_ensures(Reader::<M>::read_owned_into, (c, region, visible, rest, less), q)
        },
    ensures
        forall|i: int| 0 <= i < old(out)@.len() ==> #[trigger] final(out)@[i] == old(out)@[i],
        final(out)@.len() == old(out)@.len() + final(drain).taken() - old(drain).taken(),
        final(drain).max() == old(drain).max(),
        if old(drain).taken() == old(drain).max() {
            &&& r == Ok::<Outcome<()>, Error>(Outcome::Ready(()))
            &&& final(a)@ == old(a)@
            &&& final(drain).taken() == old(drain).taken()
        } else {
            match one {
                Ok(Outcome::Ready(m)) => {
                    let at = old(out)@.len() as int;
                    &&& final(out)@.len() > at
                    &&& final(out)@[at].header_offset == m.header_offset
                    &&& final(out)@[at].payload_len == m.payload_len
                    &&& cloned(old(a)@.maps.last().mapping, final(out)@[at].region)
                    &&& if old(drain).taken() + 1 == old(drain).max() {
                        &&& r == Ok::<Outcome<()>, Error>(Outcome::Ready(()))
                        &&& final(a)@ == final(b)@
                        &&& final(drain).taken() == old(drain).taken() + 1
                    } else if final(b)@.read_position as int
                        / old(a)@.region_size_cached as int != old(a)@.region() {
                        &&& r == Ok::<Outcome<()>, Error>(
                            Outcome::SwitchRegion { index: (old(a)@.region() + 1) as u64 },
                        )
                        &&& final(a)@ == final(b)@
                        &&& final(drain).taken() == old(drain).taken() + 1
                    } else {
                        &&& r == q
                        &&& final(a)@ == final(c)@
                        &&& final(drain).taken() == final(less).taken()
                        &&& forall|i: int|
                            0 <= i < final(rest)@.len() ==> {
                                let m = #[trigger] final(rest)@[i];
                                &&& final(out)@[at + 1 + i].header_offset == m.header_offset
                                &&& final(out)@[at + 1 + i].payload_len == m.payload_len
                            }
                    }
                },
                _ => {
                    &&& crate::calls_reader::same_report(r, one)
                    &&& final(a)@ == final(b)@
                    &&& final(drain).taken() == old(drain).taken()
                },
            }
        },
{
    let s = old(a)@;
    let size = s.region_size_cached as int;
    let idx = s.region();
    let all = visible as int;
    s.lemma_at();
    crate::layout::lemma_next_region(idx, size);
    if old(drain).left() > 0 {
        let n = old(drain).left();
        let whole = take(region@, s.off(), all, n);
        crate::batch::lemma_take_is_seek(region@, s.off(), all, n);
        crate::log::lemma_seek_bounds(region@, s.off(), all);
        if one matches Ok(Outcome::Ready(m)) {
            let m = one->Ok_0->Ready_0;
            let at = m.header_offset as int;
            let next = crate::log::after(region@, at);
            let tail = take(region@, next, all, n - 1);
            assert(whole.offs.len() > 0 && whole.offs[0] == at);
            assert(final(out)@[old(out)@.len() + 0int].header_offset == at);
            if next < size {
                crate::layout::lemma_position(idx, next, size);
                if n > 1 {
                    assert(old(c)@.off() == next);
                    assert(whole.offs =~= seq![at] + tail.offs);
                    assert forall|i: int| 0 <= i < tail.offs.len() implies {
                        let m = #[trigger] final(rest)@[i];
                        &&& final(out)@[old(out)@.len() + 1 + i].header_offset == m.header_offset
                        &&& final(out)@[old(out)@.len() + 1 + i].payload_len == m.payload_len
                    } by {
                        assert(whole.offs[i + 1] == tail.offs[i]);
                        assert(final(out)@[old(out)@.len() + (i + 1)].header_offset
                            == whole.offs[i + 1]);
                        assert(final(rest)@[old(rest)@.len() + i].header_offset == tail.offs[i]);
                    }
                }
            } else {
                crate::layout::lemma_position(idx + 1, 0, size);
                if n > 1 {
                    assert(tail.offs =~= Seq::<int>::empty());
                    assert(whole.offs =~= seq![at]);
                }
            }
        }
    }
}

/// A batch holds the messages that its places name: the one at each place has the type,
/// the metadata and the bytes that stand there in the region of the place's stretch.
pub proof fn law_messages_of_a_batch<'a, M: Clone>(
    b: &MessageBatch<'a, M>,
    n: usize,
    empty: bool,
    index: usize,
    r: Option<MessageRef<'a>>,
    o: Option<OwnedMessage<M>>,
    all: Vec<MessageRef<'a>>,
    u: MessageRef<'a>,
)
    requires
        b.wf(),
        call_ensures(MessageBatch::<'a, M>::len, (b,), n),
        call_ensures(MessageBatch::<'a, M>::is_empty, (b,), empty),
        call_ensures(MessageBatch::<'a, M>::get, (b, index), r),
        call_ensures(MessageBatch::<'a, M>::get_owned, (b, index), o),
        call_ensures(MessageBatch::<'a, M>::iter, (b,), all),
        call_ensures(MessageBatch::<'a, M>::get_unchecked, (b, index), u),
    ensures
        n == b.pos@.len(),
        empty <==> b.pos@.len() == 0,
        r is Some <==> index < b.pos@.len(),
        o is Some <==> index < b.pos@.len(),
        all@.len() == b.pos@.len(),
        index < b.pos@.len() ==> {
            let p = b.pos@[index as int];
            let map = b.segs@[p.seg as int].map_idx as int;
            let bytes = b.bytes@[map]@;
            let off = p.off as int;
            &&& stands_at(r->Some_0, bytes, off)
            &&& stands_at(all@[index as int], bytes, off)
            &&& stands_at(u, bytes, off)
            &&& cloned(b.maps@[map].mapping, o->Some_0.region)
            &&& o->Some_0.payload_len == le32(bytes, off + 4)
            &&& same_message(bytes, o->Some_0.header_offset as int, bytes, off)
        },
{
    if index < b.pos@.len() {
        let p = b.pos@[index as int];
        let bytes = region_bytes(b.bytes@);
        assert(place_fits(b.segs@, bytes, p));
        let map = b.segs@[p.seg as int].map_idx as int;
        assert(bytes[map] == b.bytes@[map]@);
        let record = b.records()[index as int];
        assert(all@[index as int].shows(record));
        lemma_stands(r->Some_0, bytes[map], p.off as int);
        lemma_stands(all@[index as int], bytes[map], p.off as int);
        lemma_stands(u, bytes[map], p.off as int);
        lemma_same(bytes[map], o->Some_0.header_offset as int, bytes[map], p.off as int);
    }
}

/// Two slots hold the same message.
pub open spec fn same_message(a: Seq<u8>, i: int, b: Seq<u8>, j: int) -> bool {
    &&& le16(a, i + 2) == le16(b, j + 2)
    &&& le64(a, i + 8) == le64(b, j + 8)
    &&& le32(a, i + 4) == le32(b, j + 4)
    &&& forall|k: int| 0 <= k < le32(b, j + 4) ==> a[i + 16 + k] == #[trigger] b[j + 16 + k]
}

/// The message that is handed out is the one that stands at `off`.
pub open spec fn stands_at<'a>(m: MessageRef<'a>, bytes: Seq<u8>, off: int) -> bool {
    &&& m.payload_len == le32(bytes, off + 4)
    &&& same_message(m.mapping@, m.header_offset as int, bytes, off)
}

/// Equal records are the same message.
proof fn lemma_same(a: Seq<u8>, i: int, b: Seq<u8>, j: int)
    requires
        0 <= i,
        0 <= j,
        i + 16 + le32(a, i + 4) <= a.len(),
        j + 16 + le32(b, j + 4) <= b.len(),
        crate::log::record_at(a, i) == crate::log::record_at(b, j),
    ensures
        same_message(a, i, b, j),
{
    let x = crate::log::record_at(a, i);
    let y = crate::log::record_at(b, j);
    assert(x.payload.len() == y.payload.len());
    assert forall|k: int| 0 <= k < le32(b, j + 4) implies a[i + 16 + k] == #[trigger] b[j + 16
        + k] by {
        assert(x.payload[k] == a[i + 16 + k]);
        assert(y.payload[k] == b[j + 16 + k]);
    }
}

/// A view that shows the record of a slot shows the message there.
proof fn lemma_stands<'a>(m: MessageRef<'a>, bytes: Seq<u8>, off: int)
    requires
        0 <= off,
        off + 16 + le32(bytes, off + 4) <= bytes.len(),
        m.shows(crate::log::record_at(bytes, off)),
    ensures
        stands_at(m, bytes, off),
{
    lemma_same(m.mapping@, m.header_offset as int, bytes, off);
}

/// A batch is the places, the stretches and the regions that the scan has left.
pub proof fn law_batch_is_what_the_scan_left<'a, M>(
    reader: &'a Reader<M>,
    bytes: &'a [&'a [u8]],
    b: MessageBatch<'a, M>,
)
    requires
        call_ensures(Reader::<M>::batch, (reader, bytes), b),
    ensures
        b.segs@ == reader@.batch_segs,
        b.pos@ == reader@.batch_pos,
        b.maps@ == reader@.maps,
        b.bytes@ == bytes@,
{
}

/// Counting goes slot by slot: a published message counts one, a service record none, and
/// both are stepped over. The end of the region, a slot that waits, and anything else end
/// the count.
pub proof fn law_counting_goes_slot_by_slot(
    region: &[u8],
    off: usize,
    next: usize,
    c: RegionCount,
    d: RegionCount,
)
    requires
        region@.len() % 8 == 0,
        off % 8 == 0,
        call_ensures(count_records, (region, off), c),
        call_ensures(count_records, (region, next), d),
        off + 16 <= region@.len() ==> next == (off + 16 + header_at(
            region@,
            off as int,
        ).length + 7) / 8 * 8,
    ensures
        ({
            let h = header_at(region@, off as int);
            let end = off + 16 + h.length;
            if off >= region@.len() {
                c == (RegionCount { records: 0, rest: Rest::Edge })
            } else if off + 16 > region@.len() {
                c == (RegionCount { records: 0, rest: Rest::Barred })
            } else if h.committed == 0 {
                c == (RegionCount { records: 0, rest: Rest::Tail })
            } else if h.committed > 1 || h.header_type > 2 || end > region@.len() {
                c == (RegionCount { records: 0, rest: Rest::Barred })
            } else {
                &&& c.rest == d.rest
                &&& c.records == d.records + if h.header_type == 1 {
                    1int
                } else {
                    0
                }
            }
        }),
{
    crate::calls_reader::law_slots(region@, off as int, region@.len() as int);
    crate::layout::law_align_up(off + 16 + header_at(region@, off as int).length, 0);
}

/// A tally starts at nothing, and adds the messages of one region after the other, as long
/// as every region before was read to its end. It goes by what it has counted where it has
/// come to the tail, and by what is stored otherwise.
pub proof fn law_tallying(
    fresh: Tally,
    zero: u64,
    t: &mut Tally,
    region: &[u8],
    before: u64,
    now: u64,
    c: RegionCount,
    stored: u64,
    n: u64,
)
    requires
        call_ensures(Tally::new, (), fresh),
        call_ensures(Tally::records, (&fresh,), zero),
        region@.len() % 8 == 0,
        forall|i: int| 0 <= i < old(t).seen().len() ==> (#[trigger] old(t).seen()[i]).len() % 8
            == 0,
        call_ensures(Tally::add_region, (t, region), ()),
        call_ensures(Tally::records, (&*old(t),), before),
        call_ensures(Tally::records, (&*final(t),), now),
        call_ensures(count_records, (region, 0usize), c),
        call_ensures(Tally::count_or, (&*final(t), stored), n),
    ensures
        zero == 0,
        seg_log(old(t).seen()).stop is End ==> now == before + c.records,
        !(seg_log(old(t).seen()).stop is End) ==> now == before,
        seg_log(final(t).seen()).stop is Tail ==> n == now,
        !(seg_log(final(t).seen()).stop is Tail) ==> n == stored,
        seg_log(old(t).seen()).stop is End ==> (seg_log(final(t).seen()).stop is Tail <==> c.rest
            == Rest::Tail),
        seg_log(fresh.seen()).stop is End,
{
    crate::tally::lemma_one_region_more(old(t).seen(), region@, 0, 0);
}

} // verus!
