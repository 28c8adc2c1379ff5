//! What the calls of a reader come to, said slot by slot and byte by byte.
//!
//! Each law takes calls of the named operations with their arguments and results, and says
//! what holds between them.
use vstd::prelude::*;

use crate::builder::ReaderMode;
use crate::bytes::{le16, le32, le64};
use crate::calls_format::{fields_at, header_error, header_valid};
use crate::channel::{header_at, ChannelHeader, MessageHeader};
use crate::error::Error;
use crate::log::{record_at, regions_of, seek, slot_at, Hit, Slot};
use crate::message::{MessageRef, OwnedMessage, PeekedHeader};
use crate::reader::{
    check_continuation, head_record_index, message_header_info, read_channel_header, FoundRecord,
    MappedRegion, Opening, Outcome, Reader, ReaderView, ScannedHeader,
};
use crate::writer::WriterState;
use crate::writer_laws::rolled;

verus! {

/// What a slot says. A slot that does not fit in the region is a hole. One whose flag is
/// zero, or has not been observed, waits. A published message or service record leads to
/// the next multiple of eight behind its payload. The mark of a roll leads out of the
/// segment. Any other flag, kind or length makes no sense.
pub proof fn law_slots(r: Seq<u8>, off: int, visible: int)
    ensures
        ({
            let h = header_at(r, off);
            let end = off + 16 + h.length;
            match slot_at(r, off, visible) {
                Slot::Waiting => off + 16 <= r.len() && (off >= visible || h.committed == 0),
                Slot::Service { next } => {
                    &&& end <= r.len() && off < visible && h.committed == 1
                    &&& h.header_type == 0 || h.header_type == 2
                    &&& next % 8 == 0 && end <= next < end + 8
                },
                Slot::User { next } => {
                    &&& end <= r.len() && off < visible && h.committed == 1
                    &&& h.header_type == 1
                    &&& next % 8 == 0 && end <= next < end + 8
                },
                Slot::Roll => {
                    &&& end <= r.len() && off < visible && h.committed == 1
                    &&& h.header_type == 3
                },
                Slot::Bad { error } => if off + 16 > r.len() {
                    error == Error::BoundaryHole
                } else if h.committed > 1 {
                    off < visible && error == Error::InvalidCommittedFlag
                } else if h.header_type > 3 {
                    &&& off < visible && h.committed == 1
                    &&& error == (Error::InvalidHeaderType { raw: h.header_type })
                } else {
                    &&& off < visible && h.committed == 1 && end > r.len()
                    &&& error == Error::PayloadPastRegion
                },
            }
        }),
{
}

/// A message is what stands at its slot: the type and the metadata of the header, and as
/// many bytes behind the header as it says.
pub proof fn law_messages_stand_at_their_slots(r: Seq<u8>, off: int, i: int)
    requires
        0 <= off,
        off + 16 + le32(r, off + 4) <= r.len(),
    ensures
        record_at(r, off).message_type == le16(r, off + 2),
        record_at(r, off).user_meta == le64(r, off + 8),
        record_at(r, off).payload.len() == le32(r, off + 4),
        0 <= i < le32(r, off + 4) ==> record_at(r, off).payload[i] == r[off + 16 + i],
{
}

/// A header is scanned as it stands there: nothing is said of one that is not published or
/// whose flag has not been observed.
pub proof fn law_headers_are_scanned(
    region: &[u8],
    off: usize,
    visible: usize,
    r: Result<ScannedHeader, Error>,
)
    requires
        call_ensures(message_header_info, (region, off, visible), r),
    ensures
        ({
            let h = header_at(region@, off as int);
            let shown = off < visible && h.committed != 0;
            &&& r is Err <==> shown && (h.committed > 1 || h.header_type > 3)
            &&& r matches Err(e) ==> if h.committed > 1 {
                e == Error::InvalidCommittedFlag
            } else {
                e == (Error::InvalidHeaderType { raw: h.header_type })
            }
            &&& r matches Ok(s) ==> {
                &&& s.is_committed <==> shown
                &&& shown ==> {
                    &&& s.header_type.spec_code() == h.header_type
                    &&& s.payload_len == h.length
                    &&& s.message_type == h.message_type
                    &&& s.user_meta_u64 == h.user_meta_u64
                }
            }
        }),
{
}

/// What a single read does at the slot that the reader stands at, where that slot is no
/// service record: a published message is handed out and stepped over, and anything else
/// is reported and left where it is.
pub proof fn law_reading_a_slot<'a, M>(
    reader: &mut Reader<M>,
    region: &'a [u8],
    visible: usize,
    r: Result<Outcome<MessageRef<'a>>, Error>,
)
    requires
        old(reader)@.ready_to_scan(region@),
        call_ensures(Reader::<M>::try_read, (reader, region, visible), r),
    ensures
        ({
            let s = old(reader)@;
            let t = final(reader)@;
            let size = s.region_size_cached as int;
            let off = s.read_position as int % size;
            let h = header_at(region@, off);
            let end = off + 16 + h.length;
            let shown = off < visible && h.committed != 0;
            let stays = t == (ReaderView { maps: seq![s.maps.last()], ..s });
            if off + 16 > size {
                stays && (r matches Err(e) && e == Error::BoundaryHole)
            } else if !shown {
                stays && r matches Ok(Outcome::CaughtUp)
            } else if h.committed > 1 {
                stays && (r matches Err(e) && e == Error::InvalidCommittedFlag)
            } else if h.header_type > 3 {
                stays && (r matches Err(e) && e == (Error::InvalidHeaderType {
                    raw: h.header_type,
                }))
            } else if end > size {
                stays && (r matches Err(e) && e == Error::PayloadPastRegion)
            } else if h.header_type == 3 {
                stays && (r matches Ok(Outcome::NextSegment { sequence }) && sequence
                    == s.file_sequence + 1)
            } else if h.header_type == 1 {
                &&& r matches Ok(Outcome::Ready(m)) && {
                    &&& m.mapping@ == region@
                    &&& m.header_offset == off
                    &&& m.payload_len == h.length
                }
                &&& t == (ReaderView {
                    maps: seq![s.maps.last()],
                    read_position: (s.read_position - off + (end + 7) / 8 * 8) as u64,
                    ..s
                })
            } else {
                true
            }
        }),
{
    let s = old(reader)@;
    s.lemma_at();
    law_slots(region@, s.off(), visible as int);
    crate::layout::law_align_up(s.off() + 16 + header_at(region@, s.off()).length, 0);
}

/// A service record is stepped over: a read gives what it gives from the slot behind it,
/// or asks for the next region where the record ends its region.
pub proof fn law_reading_steps_over_service_records<'a, M>(
    reader: &mut Reader<M>,
    behind: &mut Reader<M>,
    region: &'a [u8],
    visible: usize,
    r: Result<Outcome<MessageRef<'a>>, Error>,
    q: Result<Outcome<MessageRef<'a>>, Error>,
)
    requires
        old(reader)@.ready_to_scan(region@),
        call_ensures(Reader::<M>::try_read, (reader, region, visible), r),
        ({
            let s = old(reader)@;
            let off = s.read_position as int % s.region_size_cached as int;
            let h = header_at(region@, off);
            &&& off < visible && h.committed == 1
            &&& h.header_type == 0 || h.header_type == 2
            &&& off + 16 + h.length <= region@.len()
            &&& old(behind)@ == (ReaderView {
                read_position: (s.read_position + (16 + h.length + 7) / 8 * 8) as u64,
                ..s
            })
            &&& off + (16 + h.length + 7) / 8 * 8 < region@.len() ==> call_ensures(
                Reader::<M>::try_read,
                (behind, region, visible),
                q,
            )
        }),
    ensures
        ({
            let s = old(reader)@;
            let off = s.read_position as int % s.region_size_cached as int;
            let h = header_at(region@, off);
            let next = off + (16 + h.length + 7) / 8 * 8;
            if next < region@.len() {
                &&& same_outcome(r, q)
                &&& final(reader)@ == final(behind)@
            } else {
                &&& r matches Ok(Outcome::SwitchRegion { index }) && index == s.read_position as int
                    / s.region_size_cached as int + 1
                &&& final(reader)@ == (ReaderView {
                    maps: seq![s.maps.last()],
                    read_position: (s.read_position - off + region@.len()) as u64,
                    ..s
                })
            }
        }),
{
    let s = old(reader)@;
    let b = old(behind)@;
    let off = s.off();
    s.lemma_at();
    let h = header_at(region@, off);
    let next = off + (16 + h.length + 7) / 8 * 8;
    crate::layout::law_align_up(16 + h.length, off);
    assert(slot_at(region@, off, visible as int) == Slot::Service { next });
    if next < region@.len() {
        crate::layout::lemma_position(s.region(), next, s.region_size_cached as int);
        assert(s.hit(region@, visible as int) == b.hit(region@, visible as int));
        crate::log::lemma_seek_bounds(region@, next, visible as int);
    } else {
        assert(seek(region@, next, visible as int) == Hit::Edge);
        assert(s.hit(region@, visible as int) == Hit::Edge);
    }
}

/// Two reads have the same outcome.
pub open spec fn same_outcome<'a>(
    r: Result<Outcome<MessageRef<'a>>, Error>,
    q: Result<Outcome<MessageRef<'a>>, Error>,
) -> bool {
    match (r, q) {
        (Err(e), Err(f)) => e == f,
        (Ok(Outcome::Ready(m)), Ok(Outcome::Ready(n))) => {
            &&& m.mapping@ == n.mapping@
            &&& m.header_offset == n.header_offset
            &&& m.payload_len == n.payload_len
        },
        (Ok(Outcome::CaughtUp), Ok(Outcome::CaughtUp)) => true,
        (Ok(Outcome::SwitchRegion { index: i }), Ok(Outcome::SwitchRegion { index: j })) => i == j,
        (
            Ok(Outcome::NextSegment { sequence: i }),
            Ok(Outcome::NextSegment { sequence: j }),
        ) => i == j,
        _ => false,
    }
}

/// Two steps stand at a message both, or report the same.
pub open spec fn same_report<A, B>(
    r: Result<Outcome<A>, Error>,
    q: Result<Outcome<B>, Error>,
) -> bool {
    match (r, q) {
        (Err(e), Err(f)) => e == f,
        (Ok(Outcome::Ready(_)), Ok(Outcome::Ready(_))) => true,
        (Ok(Outcome::CaughtUp), Ok(Outcome::CaughtUp)) => true,
        (Ok(Outcome::SwitchRegion { index: i }), Ok(Outcome::SwitchRegion { index: j })) => i == j,
        (
            Ok(Outcome::NextSegment { sequence: i }),
            Ok(Outcome::NextSegment { sequence: j }),
        ) => i == j,
        _ => false,
    }
}

/// A peek says what the read says that takes the message: its type, its metadata and its
/// length. It leaves the reader at the message, and where there is none it reports and
/// leaves what the read does.
pub proof fn law_peek_says_what_the_read_says<'a, M>(
    a: &mut Reader<M>,
    b: &mut Reader<M>,
    region: &'a [u8],
    visible: usize,
    p: Result<Outcome<PeekedHeader>, Error>,
    r: Result<Outcome<MessageRef<'a>>, Error>,
)
    requires
        old(a)@ == old(b)@,
        old(a)@.ready_to_scan(region@),
        call_ensures(Reader::<M>::peek_header, (a, region, visible), p),
        call_ensures(Reader::<M>::try_read, (b, region, visible), r),
    ensures
        same_report(p, r),
        p matches Ok(Outcome::Ready(peeked)) ==> {
            let m = r->Ok_0->Ready_0;
            &&& peeked.message_type == le16(region@, m.header_offset + 2)
            &&& peeked.length == le32(region@, m.header_offset + 4)
            &&& peeked.user_meta_u64 == le64(region@, m.header_offset + 8)
            &&& peeked.length == m.payload_len
        },
        final(a)@ == (ReaderView {
            read_position: match r {
                Ok(Outcome::Ready(m)) => (old(a)@.read_position - old(a)@.off()
                    + m.header_offset) as u64,
                _ => final(b)@.read_position,
            },
            ..final(b)@
        }),
{
    old(a)@.lemma_at();
    crate::log::lemma_seek_bounds(region@, old(a)@.off(), visible as int);
}

/// A poll finds a message exactly when a read would take one. It leaves the reader where a
/// peek does, and reports what a peek reports.
pub proof fn law_poll_says_whether_a_read_would_take<'a, M>(
    a: &mut Reader<M>,
    b: &mut Reader<M>,
    c: &mut Reader<M>,
    region: &'a [u8],
    visible: usize,
    found: Result<Outcome<()>, Error>,
    p: Result<Outcome<PeekedHeader>, Error>,
    r: Result<Outcome<MessageRef<'a>>, Error>,
)
    requires
        old(a)@ == old(b)@,
        old(a)@ == old(c)@,
        old(a)@.ready_to_scan(region@),
        call_ensures(Reader::<M>::poll_for_user_message, (a, region, visible), found),
        call_ensures(Reader::<M>::peek_header, (b, region, visible), p),
        call_ensures(Reader::<M>::try_read, (c, region, visible), r),
    ensures
        same_report(found, r),
        same_report(found, p),
        final(a)@ == final(b)@,
{
    old(a)@.lemma_at();
    crate::log::lemma_seek_bounds(region@, old(a)@.off(), visible as int);
}

/// A scan finds the message that a read takes, in the reader's one region, with the type
/// and the metadata of its header. It leaves the reader where the read does if it is to
/// consume the message, and where a peek does otherwise.
pub proof fn law_scan_finds_what_the_read_takes<'a, M>(
    a: &mut Reader<M>,
    b: &mut Reader<M>,
    c: &mut Reader<M>,
    region: &'a [u8],
    visible: usize,
    consume: bool,
    f: Result<Outcome<FoundRecord>, Error>,
    p: Result<Outcome<PeekedHeader>, Error>,
    r: Result<Outcome<MessageRef<'a>>, Error>,
)
    requires
        old(a)@ == old(b)@,
        old(a)@ == old(c)@,
        old(a)@.ready_to_scan(region@),
        call_ensures(Reader::<M>::scan_to_user_record, (a, region, visible, consume), f),
        call_ensures(Reader::<M>::peek_header, (b, region, visible), p),
        call_ensures(Reader::<M>::try_read, (c, region, visible), r),
    ensures
        same_report(f, r),
        f matches Ok(Outcome::Ready(found)) ==> {
            let m = r->Ok_0->Ready_0;
            &&& found.loc.map_idx == 0
            &&& found.loc.header_offset == m.header_offset
            &&& found.loc.payload_len == m.payload_len
            &&& found.message_type == le16(region@, m.header_offset + 2)
            &&& found.user_meta_u64 == le64(region@, m.header_offset + 8)
        },
        final(a)@ == if consume {
            final(c)@
        } else {
            final(b)@
        },
{
    old(a)@.lemma_at();
    crate::log::lemma_seek_bounds(region@, old(a)@.off(), visible as int);
}

/// An owned read takes the message that a borrowed read takes, with a share of the region
/// that the reader is in, and leaves the reader where that does.
pub proof fn law_owned_read_takes_the_same<'a, M: Clone>(
    a: &mut Reader<M>,
    b: &mut Reader<M>,
    region: &'a [u8],
    visible: usize,
    o: Result<Outcome<OwnedMessage<M>>, Error>,
    r: Result<Outcome<MessageRef<'a>>, Error>,
)
    requires
        old(a)@ == old(b)@,
        old(a)@.ready_to_scan(region@),
        call_ensures(Reader::<M>::try_read_owned, (a, region, visible), o),
        call_ensures(Reader::<M>::try_read, (b, region, visible), r),
    ensures
        same_report(o, r),
        o matches Ok(Outcome::Ready(own)) ==> {
            let m = r->Ok_0->Ready_0;
            &&& own.header_offset == m.header_offset
            &&& own.payload_len == m.payload_len
            &&& cloned(old(a)@.maps.last().mapping, own.region)
        },
        final(a)@ == final(b)@,
{
    old(a)@.lemma_at();
    crate::log::lemma_seek_bounds(region@, old(a)@.off(), visible as int);
}

/// What a peek says is what the log says of the next message that the reader has left.
pub proof fn law_peek_shows_the_next_message<M>(
    reader: &mut Reader<M>,
    regions: Seq<Seq<u8>>,
    region: &[u8],
    p: Result<Outcome<PeekedHeader>, Error>,
)
    requires
        old(reader)@.ready_to_scan(region@),
        regions_of(regions, old(reader)@.region_size_cached as int),
        old(reader)@.region() < regions.len(),
        region@ == regions[old(reader)@.region()],
        call_ensures(
            Reader::<M>::peek_header,
            (reader, region, old(reader)@.region_size_cached),
            p,
        ),
    ensures
        p matches Ok(Outcome::Ready(peeked)) ==> {
            let left = old(reader)@.left(regions).records;
            &&& left.len() > 0
            &&& peeked.message_type == left[0].message_type
            &&& peeked.user_meta_u64 == left[0].user_meta
            &&& peeked.length == left[0].payload.len()
        },
        final(reader)@.left(regions) == old(reader)@.left(regions),
{
    old(reader)@.lemma_at();
    crate::reader_laws::law_reading_takes_the_first_message(old(reader)@, regions, false);
    crate::log::lemma_seek_bounds(
        region@,
        old(reader)@.off(),
        old(reader)@.region_size_cached as int,
    );
}

/// Where a reader comes to rest at a message, the scan says the type, the metadata and the
/// length of the message that the log holds there.
pub proof fn law_found_is_the_message_there<M>(reader: ReaderView<M>, bytes: Seq<u8>, visible: int)
    requires
        reader.wf(),
        bytes.len() == reader.region_size_cached,
        reader.hit(bytes, visible) is User,
    ensures
        reader.found(bytes, visible) matches Ok(Outcome::Ready(found)) && {
            let record = record_at(bytes, reader.hit(bytes, visible)->User_off);
            &&& found.message_type == record.message_type
            &&& found.user_meta_u64 == record.user_meta
            &&& found.loc.payload_len == record.payload.len()
            &&& found.loc.header_offset == reader.hit(bytes, visible)->User_off
        },
{
    reader.lemma_at();
    crate::log::lemma_seek_bounds(bytes, reader.off(), visible);
}

/// A message that is handed out is read where it stands: its header, and as many bytes
/// behind the header as it is long.
pub proof fn law_handed_out_messages<'a, M>(
    m: &MessageRef<'a>,
    h: MessageHeader,
    p: &'a [u8],
    n: usize,
    o: &OwnedMessage<M>,
    bytes: &'a [u8],
    oh: MessageHeader,
    op: &'a [u8],
    on: usize,
    v: MessageRef<'a>,
    i: int,
)
    requires
        m.wf(),
        call_ensures(MessageRef::<'a>::header, (m,), h),
        call_ensures(MessageRef::<'a>::payload, (m,), p),
        call_ensures(MessageRef::<'a>::len, (m,), n),
        o.header_offset + 16 + o.payload_len <= bytes@.len(),
        call_ensures(OwnedMessage::<M>::header, (o, bytes), oh),
        call_ensures(OwnedMessage::<M>::payload, (o, bytes), op),
        call_ensures(OwnedMessage::<M>::len, (o,), on),
        call_ensures(OwnedMessage::<M>::as_ref, (o, bytes), v),
    ensures
        h == header_at(m.mapping@, m.header_offset as int),
        p@.len() == m.payload_len,
        0 <= i < p@.len() ==> p@[i] == m.mapping@[m.header_offset + 16 + i],
        n == m.payload_len,
        oh == header_at(bytes@, o.header_offset as int),
        op@.len() == o.payload_len,
        0 <= i < op@.len() ==> op@[i] == bytes@[o.header_offset + 16 + i],
        on == o.payload_len,
        v.mapping@ == bytes@,
        v.header_offset == o.header_offset,
        v.payload_len == o.payload_len,
{
}

/// A segment is opened for reading exactly when it begins with a Channel record, its
/// channel header is valid at the expected place in the series, and the reader starts at
/// an aligned position. A reader that joins late starts at the beginning, and one that
/// joins live one slot before the write position.
pub proof fn law_opening_a_segment(
    page: &[u8],
    ch: ChannelHeader,
    mode: ReaderMode,
    sequence: u64,
    r: Result<Opening, Error>,
)
    requires
        fields_at(ch, page@),
        call_ensures(read_channel_header, (page, mode, sequence), r),
    ensures
        ({
            let wp = le64(page@, 16);
            let start = if mode is LateJoin || wp < 16 {
                0
            } else {
                wp - 16
            };
            let valid = header_valid(ch, ch.region_size as usize, sequence);
            &&& r is Ok <==> page@[1] == 0 && valid && start % 8 == 0
            &&& r matches Ok(o) ==> {
                &&& o.read_pos == start
                &&& o.region_size == ch.region_size
                &&& o.channel_name@ == ch.channel_name@
                &&& o.base_record_index == ch.base_record_index
                &&& o.mtu == ch.mtu
                &&& o.generation == ch.generation
            }
            &&& r matches Err(e) ==> if page@[1] > 3 {
                e == (Error::InvalidHeaderType { raw: page@[1] })
            } else if page@[1] != 0 {
                e matches Error::FirstRecordNotChannel { kind } && kind.spec_code() == page@[1]
            } else if !valid {
                header_error(ch, ch.region_size as usize, sequence, e)
            } else {
                e == (Error::InvalidWritePosition { position: wp })
            }
        }),
{
}

/// A reader stands where it is opened, in the segment and with the settings that it is
/// opened with, and says so.
pub proof fn law_opened_reader<M>(
    o: &Opening,
    sequence: u64,
    mapping: M,
    reader: Reader<M>,
    position: u64,
    base: u64,
    generation: u64,
    file: u64,
    mtu: u32,
    size: usize,
    maps: &[MappedRegion<M>],
)
    requires
        call_ensures(Reader::<M>::open_at, (o, sequence, mapping), reader),
        call_ensures(Reader::<M>::read_position, (&reader,), position),
        call_ensures(Reader::<M>::base_record_index, (&reader,), base),
        call_ensures(Reader::<M>::generation, (&reader,), generation),
        call_ensures(Reader::<M>::file_sequence, (&reader,), file),
        call_ensures(Reader::<M>::mtu, (&reader,), mtu),
        call_ensures(Reader::<M>::region_size, (&reader,), size),
        call_ensures(Reader::<M>::maps, (&reader,), maps),
    ensures
        position == o.read_pos,
        base == o.base_record_index,
        generation == o.generation,
        file == sequence,
        mtu == o.mtu,
        size == o.region_size,
        reader@.channel_name_cached@ == o.channel_name@,
        reader@.batch_limit is None,
        reader@.batch_pos.len() == 0,
        reader@.batch_segs.len() == 0,
        maps@.len() == 1,
        maps@[0].file_sequence == sequence,
        maps@[0].region_idx == (o.read_pos as int / o.region_size as int) as u64,
        maps@[0].mapping == mapping,
{
}

/// What a reader says of itself is what it is.
pub proof fn law_reader_says<M>(
    reader: &Reader<M>,
    position: u64,
    base: u64,
    generation: u64,
    file: u64,
    mtu: u32,
    size: usize,
    maps: &[MappedRegion<M>],
    name: String,
    n: int,
)
    requires
        call_ensures(Reader::<M>::read_position, (reader,), position),
        call_ensures(Reader::<M>::base_record_index, (reader,), base),
        call_ensures(Reader::<M>::generation, (reader,), generation),
        call_ensures(Reader::<M>::file_sequence, (reader,), file),
        call_ensures(Reader::<M>::mtu, (reader,), mtu),
        call_ensures(Reader::<M>::region_size, (reader,), size),
        call_ensures(Reader::<M>::maps, (reader,), maps),
        call_ensures(Reader::<M>::channel_name, (reader,), name),
        0 <= n <= 48,
        n == 0 || reader@.channel_name_cached@[n - 1] != 0,
        forall|i: int| n <= i < 48 ==> reader@.channel_name_cached@[i] == 0,
    ensures
        position == reader@.read_position,
        base == reader@.base_record_index_cached,
        generation == reader@.generation_cached,
        file == reader@.file_sequence,
        mtu == reader@.mtu_cached,
        size == reader@.region_size_cached,
        maps@ == reader@.maps,
        name@ == crate::text::utf8_lossy(reader@.channel_name_cached@.subrange(0, n)),
        vstd::utf8::valid_utf8(reader@.channel_name_cached@.subrange(0, n)) ==> name@
            == vstd::utf8::decode_utf8(reader@.channel_name_cached@.subrange(0, n)),
{
    crate::reader::lemma_trimmed(reader@.channel_name_cached@, n);
}

/// The head of a channel is the number of its next message, told by a latest segment that
/// begins with a Channel record.
pub proof fn law_head_of_the_channel(page: &[u8], r: Result<u64, Error>)
    requires
        call_ensures(head_record_index, (page,), r),
        page@[1] == 0 ==> le64(page@, 32) + le64(page@, 24) <= u64::MAX,
    ensures
        r is Ok <==> page@[1] == 0,
        r matches Ok(n) ==> n == le64(page@, 32) + le64(page@, 24),
        r matches Err(e) ==> if page@[1] > 3 {
            e == (Error::InvalidHeaderType { raw: page@[1] })
        } else {
            e == Error::LatestSegmentNotChannel
        },
{
}

/// A reader needs the region that it stands in, unless that is the last one that it has
/// mapped; it takes that region over behind the others, lets go of all but the last, and
/// keeps its place and all else in either case.
pub proof fn law_regions_of_a_reader<M>(
    a: &Reader<M>,
    need: Option<u64>,
    b: &mut Reader<M>,
    mapping: M,
    c: &mut Reader<M>,
    d: &mut Reader<M>,
    limit: Option<u16>,
)
    requires
        a@.wf(),
        call_ensures(Reader::<M>::needs_region, (a,), need),
        old(b)@.wf(),
        call_ensures(Reader::<M>::switch_region, (b, mapping), ()),
        old(c)@.maps.len() > 0,
        call_ensures(Reader::<M>::prune_to_current, (c,), ()),
        call_ensures(Reader::<M>::set_batch_limit, (d, limit), ()),
    ensures
        need is None <==> a@.maps.len() > 0 && a@.maps.last().file_sequence == a@.file_sequence
            && a@.maps.last().region_idx == a@.read_position as int / a@.region_size_cached as int,
        need matches Some(i) ==> i == a@.read_position as int / a@.region_size_cached as int,
        final(b)@.maps.len() == old(b)@.maps.len() + 1,
        final(b)@.maps.drop_last() == old(b)@.maps,
        final(b)@.maps.last().file_sequence == old(b)@.file_sequence,
        final(b)@.maps.last().region_idx == old(b)@.read_position as int
            / old(b)@.region_size_cached as int,
        final(b)@.maps.last().mapping == mapping,
        final(b)@ == (ReaderView { maps: final(b)@.maps, ..old(b)@ }),
        final(c)@.maps.len() == 1,
        final(c)@.maps[0] == old(c)@.maps.last(),
        final(c)@ == (ReaderView { maps: final(c)@.maps, ..old(c)@ }),
        final(d)@ == (ReaderView { batch_limit: limit, ..old(d)@ }),
{
    a@.lemma_at();
    old(b)@.lemma_at();
    assert(final(b)@.maps.drop_last() =~= old(b)@.maps);
}

/// The segment that starts with `region0` is the one at `sequence` of the incarnation
/// `generation`, has regions of `region_size` bytes, and numbers its first message `base`.
/// Nothing is asked of its write position, its count or its messages.
pub open spec fn continues(
    region0: Seq<u8>,
    sequence: int,
    region_size: usize,
    generation: u64,
    base: int,
) -> bool {
    &&& region0[1] == 0
    &&& le16(region0, 56) == 3
    &&& region0[58] == 1
    &&& region0[59] == 8
    &&& region0[64] == 8
    &&& le32(region0, 60) == 0
    &&& le32(region0, 48) == region_size
    &&& le64(region0, 40) == sequence
    &&& le64(region0, 32) == base
    &&& le64(region0, 136) == generation
}

/// The error that is told of a segment that does not continue another.
pub open spec fn continuation_error(
    ch: ChannelHeader,
    kind: u8,
    sequence: u64,
    region_size: usize,
    generation: u64,
    base: int,
    e: Error,
) -> bool {
    match e {
        Error::InvalidHeaderType { raw } => raw == kind && kind > 3,
        Error::NextSegmentNotChannel => 0 < kind <= 3,
        Error::BaseDiscontinuity { sequence: s, found, expected } => {
            &&& kind == 0
            &&& header_valid(ch, region_size, sequence)
            &&& s == sequence
            &&& found == ch.base_record_index
            &&& expected == base
            &&& found != expected
        },
        Error::GenerationMismatch { sequence: s, found, expected } => {
            &&& kind == 0
            &&& header_valid(ch, region_size, sequence)
            &&& s == sequence
            &&& found == ch.generation
            &&& expected == generation
            &&& found != expected
            &&& ch.base_record_index == base
        },
        _ => kind == 0 && header_error(ch, region_size, sequence, e),
    }
}

/// A segment is accepted as the continuation of another exactly when it continues it,
/// whatever has been written to it since, and its channel header is handed on.
pub proof fn law_continuation(
    sequence: u64,
    region_size: usize,
    generation: u64,
    current: &[u8],
    region0: &[u8],
    ch: ChannelHeader,
    r: Result<ChannelHeader, Error>,
)
    requires
        le64(current@, 32) + le64(current@, 24) <= u64::MAX,
        fields_at(ch, region0@),
        call_ensures(
            check_continuation,
            (sequence, region_size, generation, current, region0),
            r,
        ),
    ensures
        ({
            let base = le64(current@, 32) + le64(current@, 24);
            &&& r is Ok <==> continues(
                region0@,
                sequence as int,
                region_size,
                generation,
                base,
            )
            &&& r matches Ok(found) ==> fields_at(found, region0@)
            &&& r matches Err(e) ==> continuation_error(
                ch,
                region0@[1],
                sequence,
                region_size,
                generation,
                base,
                e,
            )
        }),
{
}

/// A reader moves on to the next segment exactly when that continues its own. It then
/// stands at the beginning, with the numbering and the name of that segment and only its
/// first region mapped. Where it does not move on, nothing of it changes.
pub proof fn law_moving_on_to_the_next_segment<M>(
    reader: &mut Reader<M>,
    current: &[u8],
    region0: &[u8],
    mapping: M,
    ch: ChannelHeader,
    r: Result<(), Error>,
)
    requires
        old(reader)@.wf(),
        old(reader)@.file_sequence < u64::MAX,
        le64(current@, 32) + le64(current@, 24) <= u64::MAX,
        fields_at(ch, region0@),
        call_ensures(Reader::<M>::open_next_file, (reader, current, region0, mapping), r),
    ensures
        ({
            let s = old(reader)@;
            let t = final(reader)@;
            let base = le64(current@, 32) + le64(current@, 24);
            &&& r is Ok <==> continues(
                region0@,
                s.file_sequence + 1,
                s.region_size_cached,
                s.generation_cached,
                base,
            )
            &&& r is Ok ==> {
                &&& t.file_sequence == s.file_sequence + 1
                &&& t.read_position == 0
                &&& t.base_record_index_cached == base
                &&& t.channel_name_cached@ == ch.channel_name@
                &&& t.maps.len() == 1
                &&& t.maps[0].file_sequence == s.file_sequence + 1
                &&& t.maps[0].region_idx == 0
                &&& t.maps[0].mapping == mapping
                &&& t.region_size_cached == s.region_size_cached
                &&& t.mtu_cached == s.mtu_cached
                &&& t.generation_cached == s.generation_cached
                &&& t.batch_limit == s.batch_limit
                &&& t.batch_segs == s.batch_segs
                &&& t.batch_pos == s.batch_pos
            }
            &&& r matches Err(e) ==> t == s && continuation_error(
                ch,
                region0@[1],
                (s.file_sequence + 1) as u64,
                s.region_size_cached,
                s.generation_cached,
                base,
                e,
            )
        }),
{
}

/// A reader can follow a roll whatever the writer has done to the next segment since: the
/// segment may hold any number of messages and regions, may have been rolled itself, and
/// may have any write position and count stored and any bytes behind its channel header.
pub proof fn law_roll_is_followed_at_any_time<M>(
    reader: &mut Reader<M>,
    w: WriterState,
    next: Seq<Seq<u8>>,
    now_ns: u64,
    current: &[u8],
    region0: &[u8],
    mapping: M,
    r: Result<(), Error>,
)
    requires
        old(reader)@.wf(),
        old(reader)@.file_sequence < u64::MAX,
        le64(current@, 32) + le64(current@, 24) <= u64::MAX,
        w.in_order(next),
        w.file_sequence == old(reader)@.file_sequence + 1,
        w.region_size == old(reader)@.region_size_cached,
        le64(next[0], 136) == old(reader)@.generation_cached,
        le64(next[0], 32) == le64(current@, 32) + le64(current@, 24),
        region0@ == next[0] || region0@ == rolled(w, next, now_ns)[0] || {
            &&& region0@.len() == next[0].len()
            &&& forall|i: int| 0 <= i < 16 || 32 <= i < 144 ==> region0@[i] == next[0][i]
        },
        call_ensures(Reader::<M>::open_next_file, (reader, current, region0, mapping), r),
    ensures
        r is Ok,
        final(reader)@.file_sequence == w.file_sequence,
        final(reader)@.read_position == 0,
        old(reader)@.next_segment_fault(current@, next[0]) is None,
        old(reader)@.next_segment_fault(current@, rolled(w, next, now_ns)[0]) is None,
{
    lemma_identity(w, next, now_ns, next[0]);
    lemma_identity(w, next, now_ns, rolled(w, next, now_ns)[0]);
    lemma_identity(w, next, now_ns, region0@);
}

/// What a segment in order says of itself is found in every beginning of it that agrees on
/// the identity.
proof fn lemma_identity(w: WriterState, next: Seq<Seq<u8>>, now_ns: u64, t: Seq<u8>)
    requires
        w.in_order(next),
        t == next[0] || t == rolled(w, next, now_ns)[0] || {
            &&& t.len() == next[0].len()
            &&& forall|i: int| 0 <= i < 16 || 32 <= i < 144 ==> t[i] == next[0][i]
        },
    ensures
        continues(
            t,
            w.file_sequence as int,
            w.region_size,
            le64(next[0], 136),
            le64(next[0], 32) as int,
        ),
{
    broadcast use crate::channel::group_header_len;

    let s = next[0];
    crate::writer_laws::lemma_tail_behind_head(
        next,
        w.region_size as int,
        w.current_region_index as int,
        w.off(),
    );
    crate::log::lemma_seg_stop_bounds(next, w.region_size as int, 0, 0);
    assert(forall|i: int| 0 <= i < 16 || 32 <= i < 144 ==> t[i] == s[i]);
    crate::bytes::lemma_le16_frame(s, t, 56);
    crate::bytes::lemma_le32_frame(s, t, 60);
    crate::bytes::lemma_le32_frame(s, t, 48);
    crate::bytes::lemma_le64_frame(s, t, 40);
    crate::bytes::lemma_le64_frame(s, t, 32);
    crate::bytes::lemma_le64_frame(s, t, 136);
    assert(header_at(s, 0).header_type == s[1]);
}

} // verus!
