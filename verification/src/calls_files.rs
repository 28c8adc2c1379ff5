//! What the calls that look after files come to: sizes, names, settings, waiting, and the
//! life of a segment before its writer appends.
//!
//! Each law takes a call of the named operation with its arguments and its result, and
//! says what holds between them.
use vstd::prelude::*;

use crate::builder::{ReaderBuilder, ReaderMode, WriterBuilder, WriterPlan};
use crate::bytes::le64;
use crate::calls_format::{fields_at, header_error, header_valid, is_free, same_but};
use crate::channel::{header_at, ChannelHeader, HeaderType, MessageHeader};
use crate::error::Error;
use crate::layout::{
    align_up, align_up_pos, check_geometry, preallocation_len, MAX_FILE_OFFSET,
};
use crate::migrate::migrate_channel_v2_to_v3;
use crate::names::{
    find_all_sequences, find_earliest_sequence, find_latest_sequence, find_sequence,
    is_channel_file_name, is_partial_segment_name, make_channel_file_path,
    make_partial_channel_file_path, parse_sequence, sequence_of, sequences_in, texts,
};
use crate::region::{check_alignment, get_bytes_mut, page_size, required_len, RegionMapping};
use crate::segment::{
    finish_recovery, open_step, plan_reopen, prepare_segment_at, recover, recover_skip,
    reopen_fits, store_wp, OpenStep, Recovery, Reopen, SegmentSpec,
};
use crate::text::{decimal, digits_value, hex, is_digit, parse_u64};
use crate::wait::{retry_open, wait_step, Backoff, WaitStep};

verus! {

broadcast use crate::channel::group_header_len;

/// Rounding up gives the least multiple of eight that is large enough.
pub proof fn law_rounding(x: usize, r: usize, y: u64, p: u64, m: int)
    requires
        call_ensures(align_up, (x,), r),
        call_ensures(align_up_pos, (y,), p),
        m % 8 == 0,
    ensures
        r % 8 == 0,
        r >= x,
        m >= x ==> m >= r,
        p % 8 == 0,
        p >= y,
        m >= y ==> m >= p,
{
}

/// A segment is born with the least number of whole regions that hold the roll size, or
/// with one where files do not roll. Only a length that is no file offset is refused.
pub proof fn law_segment_length(region_size: usize, roll: u64, r: Result<u64, Error>)
    requires
        region_size > 0,
        call_ensures(preallocation_len, (region_size, roll), r),
    ensures
        roll == 0 ==> r == Ok::<u64, Error>(region_size as u64),
        roll > 0 ==> {
            let len = (roll + region_size - 1) / region_size as int * region_size;
            if len <= 0x7fff_ffff_ffff_ffff {
                r == Ok::<u64, Error>(len as u64)
            } else if len <= u64::MAX {
                r == Err::<u64, Error>(
                    Error::RollSizePastOffsetLimit { file_roll_size: roll, len: len as u64 },
                )
            } else {
                r == Err::<u64, Error>(
                    Error::RollSizeOverflow { file_roll_size: roll, region_size },
                )
            }
        },
{
    lemma_whole_regions(roll as int, region_size as int);
}

/// Rounding up to whole regions.
proof fn lemma_whole_regions(roll: int, size: int)
    requires
        0 <= roll,
        0 < size,
    ensures
        (roll + size - 1) / size * size == if roll % size == 0 {
            roll
        } else {
            roll + size - roll % size
        },
{
    let q = roll / size;
    let rem = roll % size;
    crate::layout::lemma_split(roll, size);
    crate::layout::lemma_next_region(q, size);
    if rem == 0 {
        crate::layout::lemma_position(q, size - 1, size);
    } else {
        crate::layout::lemma_position(q + 1, rem - 1, size);
    }
}

/// A channel has regions of whole pages, aligned, with room for the channel header, and
/// of a size that fits in 32 bits. No other size is refused or accepted.
pub proof fn law_region_sizes(region_size: usize, page: usize, r: Result<(), Error>)
    requires
        page > 0,
        call_ensures(check_geometry, (region_size, page), r),
    ensures
        r is Ok <==> region_size % page == 0 && region_size % 8 == 0 && 144 <= region_size
            <= 0xffff_ffff,
        r matches Err(e) ==> match e {
            Error::RegionNotPageMultiple { region_size: s, page: p } => s == region_size && p
                == page && region_size % page != 0,
            Error::RegionNotAligned { region_size: s } => s == region_size && region_size % 8
                != 0 && region_size % page == 0,
            Error::RegionTooSmall { region_size: s } => s == region_size && region_size < 144
                && region_size % 8 == 0 && region_size % page == 0,
            Error::RegionTooLarge => region_size > 0xffff_ffff && region_size % 8 == 0
                && region_size % page == 0,
            _ => false,
        },
{
}

/// A window of a file is mapped where it is not empty and stands on pages; a file holds it
/// once the file is as long as the window's end; and a page is as large as is reported.
pub proof fn law_windows<Mode>(
    base: u64,
    size: usize,
    page: usize,
    r: Result<(), Error>,
    len: u64,
    reported: i64,
    known: usize,
    mmap: Mode,
    m: RegionMapping<Mode>,
    at: u64,
    bytes: usize,
)
    requires
        page > 0,
        call_ensures(check_alignment, (base, size, page), r),
        call_ensures(required_len, (base, size), len),
        call_ensures(page_size, (reported,), known),
        call_ensures(RegionMapping::<Mode>::new, (mmap, base, size), m),
        call_ensures(RegionMapping::<Mode>::region_offset, (&m,), at),
        call_ensures(RegionMapping::<Mode>::region_size, (&m,), bytes),
    ensures
        r is Ok <==> size != 0 && size % page == 0 && base as int % page as int == 0,
        r matches Err(e) ==> match e {
            Error::RegionSizeZero => size == 0,
            Error::RegionNotPageMultiple { region_size, page: p } => size != 0 && region_size
                == size && p == page && size % page != 0,
            Error::OffsetNotPageAligned { base_offset, page: p } => base_offset == base && p
                == page && size != 0 && size % page == 0 && base as int % page as int != 0,
            _ => false,
        },
        len == base + size,
        reported > 0 ==> known == reported,
        reported <= 0 ==> known == 4096,
        m.mmap == mmap,
        at == base,
        bytes == size,
{
}

/// Bytes of a region are handed out where the region has them all, as they stand there, and
/// what is then written to them is written to the region and nowhere else.
pub proof fn law_bytes_of_a_region<'a>(
    region: &'a mut [u8],
    offset: usize,
    len: usize,
    r: Option<&'a mut [u8]>,
)
    requires
        call_ensures(get_bytes_mut, (region, offset, len), r),
    ensures
        r is Some <==> offset + len <= old(region)@.len(),
        r is None ==> final(region)@ == old(region)@,
        r matches Some(bytes) ==> {
            &&& bytes@.len() == len
            &&& forall|i: int| 0 <= i < len ==> bytes@[i] == old(region)@[offset + i]
            &&& final(bytes)@.len() == len ==> {
                &&& same_but(old(region)@, final(region)@, offset as int, len as int)
                &&& forall|i: int|
                    0 <= i < len ==> final(region)@[offset + i] == #[trigger] final(bytes)@[i]
            }
        },
{
}

/// A fresh segment says what it is asked to say, in its places, holds no message, and has
/// a free slot right behind the channel header. Bytes behind that slot are left alone,
/// and so is a region without room for it.
pub proof fn law_fresh_segment(
    region0: &mut [u8],
    spec: &SegmentSpec,
    r: Result<u64, Error>,
    ch: ChannelHeader,
)
    requires
        144 <= old(region0)@.len(),
        call_ensures(prepare_segment_at, (region0, spec), r),
        call_ensures(SegmentSpec::channel_header, (spec,), ch),
    ensures
        r == Ok::<u64, Error>(144) <==> old(region0)@.len() >= 160,
        r is Err ==> r == Err::<u64, Error>(Error::FirstHeaderOutside) && final(region0)@
            == old(region0)@,
        ch.write_position == 160,
        ch.message_count == 0,
        ch.base_record_index == spec.base_record_index,
        ch.channel_sequence == spec.sequence,
        ch.region_size == spec.region_size as u32,
        ch.mtu == spec.mtu as u32,
        ch.format_version == 3,
        ch.endianness == 1,
        ch.system_header_size == 8,
        ch.user_header_kind == 0,
        ch.user_header_size == 8,
        ch.channel_name@ == spec.channel_name@,
        ch.generation == spec.generation,
        r is Ok ==> {
            &&& header_at(final(region0)@, 0) == (MessageHeader {
                committed: 1,
                header_type: 0,
                message_type: 0,
                length: 128,
                user_meta_u64: 0,
            })
            &&& fields_at(ch, final(region0)@)
            &&& is_free(header_at(final(region0)@, 144))
            &&& same_but(old(region0)@, final(region0)@, 0, 160)
        },
{
    if r is Ok {
        let r0 = old(region0)@;
        let a = crate::bytes::put(r0, 0, crate::log::channel_record().bytes());
        let b = crate::bytes::put(a, 16, ch.bytes());
        let c = final(region0)@;
        crate::channel::law_message_header_round_trip(r0, 0, crate::log::channel_record());
        crate::channel::law_channel_header_round_trip(a, ch);
        crate::channel::law_message_header_round_trip(
            b,
            144,
            crate::channel::preinstalled_header(),
        );
        crate::channel::lemma_header_frame(a, c, 0);
        crate::segment::lemma_stored_frame(b, c, ch);
    }
}

/// A writer lays out a segment where there is none, replaces an empty file, and takes up
/// any other.
pub proof fn law_how_a_segment_is_opened(existing_len: Option<u64>, s: OpenStep)
    requires
        call_ensures(open_step, (existing_len,), s),
    ensures
        s is Create <==> existing_len is None,
        s is Replace <==> existing_len == Some(0u64),
        s is Reopen <==> existing_len is Some && existing_len->Some_0 > 0,
{
}

/// A segment is taken up exactly when its channel header is valid for the writer, a roll
/// size of the writer's can be had, and the write position leads to an aligned slot inside
/// a region that ends at a file offset. The slot is then the one that the write position
/// leads to, and the file is to hold both its region and what a fresh segment has.
pub proof fn law_taking_up_a_segment(
    region0: &[u8],
    ch: ChannelHeader,
    sequence: u64,
    region_size: usize,
    roll: u64,
    len: Result<u64, Error>,
    r: Result<Reopen, Error>,
)
    requires
        0 < region_size <= 0xffff_ffff,
        fields_at(ch, region0@),
        call_ensures(preallocation_len, (region_size, roll), len),
        call_ensures(plan_reopen, (region0, sequence, region_size, roll), r),
    ensures
        ({
            let wp = le64(region0@, 16);
            let next = if wp < 16 {
                0
            } else {
                wp - 16
            };
            let index = next / region_size as int;
            let end = (index + 1) * region_size;
            let valid = header_valid(ch, region_size, sequence);
            let place = next % 8 == 0 && next % region_size as int + 16 <= region_size && end
                <= 0x7fff_ffff_ffff_ffff;
            &&& r is Ok <==> len is Ok && valid && place
            &&& r matches Ok(plan) ==> {
                &&& plan.next_hdr == next
                &&& plan.region_index == index
                &&& plan.target_len >= end
                &&& plan.target_len >= len->Ok_0
                &&& plan.target_len == end || plan.target_len == len->Ok_0
            }
            &&& len is Err ==> r == Err::<Reopen, Error>(len->Err_0)
            &&& len is Ok && !valid ==> r is Err && header_error(
                ch,
                region_size,
                sequence,
                r->Err_0,
            )
            &&& len is Ok && valid && !place ==> r == Err::<Reopen, Error>(
                Error::InvalidWritePosition { position: wp },
            )
        }),
{
    let wp = le64(region0@, 16);
    let next = if wp < 16 {
        0
    } else {
        wp - 16
    };
    crate::layout::lemma_split(next, region_size as int);
    let index = next / region_size as int;
    assert(index <= index * region_size) by (nonlinear_arith)
        requires
            region_size >= 1,
            index >= 0,
    ;
}

/// Recovery looks at one slot. A free one is the tail. A published message is stepped over
/// if the slot behind it is inside the region and free. Published padding is stepped over
/// if it ends with the region and the file has another region. Anything else is refused.
pub proof fn law_recovery(plan: &Reopen, region: &[u8], file_len: u64, r: Result<Recovery, Error>)
    requires
        reopen_fits(*plan, region@.len() as int, file_len),
        call_ensures(recover, (plan, region, file_len), r),
    ensures
        ({
            let size = region@.len() as int;
            let off = plan.next_hdr as int % size;
            let h = header_at(region@, off);
            let at = off + 16 + (h.length + 7) / 8 * 8;
            let n = header_at(region@, at);
            if h.committed == 0 {
                r == Ok::<Recovery, Error>(Recovery::Clean)
            } else if h.committed > 1 {
                r == Err::<Recovery, Error>(Error::InvalidCommittedFlag)
            } else if h.header_type == 1 {
                if at + 16 > size {
                    r == Err::<Recovery, Error>(Error::RecoveryCrossesRegion)
                } else if is_free(n) {
                    r == Ok::<Recovery, Error>(
                        Recovery::User { next_hdr: (plan.next_hdr + at - off) as u64 },
                    )
                } else if n.committed == 1 {
                    r == Err::<Recovery, Error>(Error::AdvancedSlotCommitted)
                } else if n.committed > 1 {
                    r == Err::<Recovery, Error>(Error::InvalidCommittedFlag)
                } else {
                    r == Err::<Recovery, Error>(Error::AdvancedSlotNotPreinstalled)
                }
            } else if h.header_type == 2 {
                if at != size {
                    r == Err::<Recovery, Error>(Error::SkipNotAligned)
                } else if (plan.region_index + 2) * size > file_len {
                    r == Err::<Recovery, Error>(Error::SkipPastEnd)
                } else {
                    r == Ok::<Recovery, Error>(
                        Recovery::Skip { region_index: (plan.region_index + 1) as u64 },
                    )
                }
            } else if h.header_type == 0 {
                r == Err::<Recovery, Error>(
                    Error::UnexpectedStaleHeader { kind: HeaderType::Channel },
                )
            } else if h.header_type == 3 {
                r == Err::<Recovery, Error>(
                    Error::UnexpectedStaleHeader { kind: HeaderType::Roll },
                )
            } else {
                r == Err::<Recovery, Error>(Error::InvalidHeaderType { raw: h.header_type })
            }
        }),
{
}

/// Padding is stepped over exactly when the next region begins with a free slot, and the
/// tail is then at the start of that region.
pub proof fn law_recovery_over_padding(plan: &Reopen, next: &[u8], r: Result<u64, Error>)
    requires
        reopen_fits(*plan, next@.len() as int, MAX_FILE_OFFSET),
        call_ensures(recover_skip, (plan, next), r),
    ensures
        ({
            let n = header_at(next@, 0);
            if is_free(n) {
                r == Ok::<u64, Error>(((plan.region_index + 1) * next@.len()) as u64)
            } else if n.committed == 1 {
                r == Err::<u64, Error>(Error::AdvancedSlotCommitted)
            } else if n.committed > 1 {
                r == Err::<u64, Error>(Error::InvalidCommittedFlag)
            } else {
                r == Err::<u64, Error>(Error::AdvancedSlotNotPreinstalled)
            }
        }),
{
}

/// The end of recovery stores where the tail is, one slot ahead, and how many messages
/// there are where one was stepped over. A segment that was left in good order is not
/// touched, and nothing else is in any.
pub proof fn law_end_of_recovery(
    plan: &Reopen,
    found: &Recovery,
    records: u64,
    region0: &mut [u8],
    next_hdr: u64,
    other: &mut [u8],
    position: u64,
)
    requires
        144 <= old(region0)@.len(),
        found is Skip ==> found->region_index * old(region0)@.len() + 16 <= u64::MAX,
        found is User ==> found->next_hdr + 16 <= u64::MAX,
        call_ensures(finish_recovery, (plan, found, records, region0), next_hdr),
        144 <= old(other)@.len(),
        call_ensures(store_wp, (other, position), ()),
    ensures
        match *found {
            Recovery::Clean => {
                &&& next_hdr == plan.next_hdr
                &&& final(region0)@ == old(region0)@
            },
            Recovery::User { next_hdr: at } => {
                &&& next_hdr == at
                &&& le64(final(region0)@, 16) == at + 16
                &&& le64(final(region0)@, 24) == records
                &&& same_but(old(region0)@, final(region0)@, 16, 16)
            },
            Recovery::Skip { region_index } => {
                &&& next_hdr == region_index * old(region0)@.len()
                &&& le64(final(region0)@, 16) == next_hdr + 16
                &&& same_but(old(region0)@, final(region0)@, 16, 8)
            },
        },
        le64(final(other)@, 16) == position,
        same_but(old(other)@, final(other)@, 16, 8),
{
    broadcast use crate::bytes::group_le_len;

}

/// Numbers in decimal are runs of digits without a leading zero that spell the number.
pub proof fn law_decimal(n: u64, s: String)
    requires
        call_ensures(decimal, (n,), s),
    ensures
        s@.len() > 0,
        forall|i: int| 0 <= i < s@.len() ==> '0' <= #[trigger] s@[i] <= '9',
        digits_value(s@) == n,
        s@[0] == '0' ==> s@.len() == 1,
{
    crate::text::lemma_decimal_text_spells(n as nat);
    lemma_no_leading_zero(n as nat);
    assert forall|i: int| 0 <= i < s@.len() implies '0' <= #[trigger] s@[i] <= '9' by {
        assert(is_digit(crate::text::decimal_text(n as nat)[i]));
    }
}

/// A number over nine does not begin with a zero.
proof fn lemma_no_leading_zero(n: nat)
    ensures
        crate::text::decimal_text(n).len() > 0,
        n > 0 ==> crate::text::decimal_text(n)[0] != '0',
        n < 10 ==> crate::text::decimal_text(n).len() == 1,
    decreases n,
{
    if n >= 10 {
        lemma_no_leading_zero(n / 10);
    }
}

/// Every digit weighs a tenth of the one before it.
pub proof fn law_digits_weigh(s: Seq<char>, c: char)
    requires
        '0' <= c <= '9',
    ensures
        digits_value(Seq::empty()) == 0,
        digits_value(s.push(c)) == 10 * digits_value(s) + (c as int - 48),
{
    assert(s.push(c).drop_last() =~= s);
}

/// The last hexadecimal digit is that of the number modulo sixteen, those before it are
/// those of the sixteenth part, and there are none of none.
pub proof fn law_hexadecimal(n: u64, width: u64, s: String, rest: String, none: String)
    requires
        width > 0,
        call_ensures(hex, (n, 0u64), none),
        call_ensures(hex, (n, width), s),
        call_ensures(hex, ((n / 16) as u64, (width - 1) as u64), rest),
    ensures
        none@.len() == 0,
        s@.len() == rest@.len() + 1,
        s@.drop_last() == rest@,
        n % 16 < 10 ==> s@.last() as int == 48 + n % 16,
        n % 16 >= 10 ==> s@.last() as int == 87 + n % 16,
{
    assert(s@.drop_last() =~= rest@);
}

/// A text is a number exactly when it is a run of digits, with or without one plus sign
/// before it, of a value that fits in 64 bits; and it is then the number of that value.
pub proof fn law_parsing(s: &str, r: Option<u64>, body: Seq<char>)
    requires
        call_ensures(parse_u64, (s,), r),
        s@ == seq!['+'] + body || (s@ == body && (body.len() == 0 || body[0] != '+')),
    ensures
        r is Some <==> body.len() > 0 && (forall|i: int|
            0 <= i < body.len() ==> '0' <= #[trigger] body[i] <= '9') && digits_value(body)
            <= u64::MAX,
        r matches Some(v) ==> v == digits_value(body),
{
    if s@ == seq!['+'] + body {
        assert(crate::text::without_plus(s@) =~= body);
    }
    assert(crate::text::without_plus(s@) == body);
    if body.len() > 0 && (forall|i: int| 0 <= i < body.len() ==> '0' <= #[trigger] body[i]
        <= '9') {
        assert(forall|i: int| 0 <= i < body.len() ==> is_digit(body[i]));
    }
    if r is Some {
        assert forall|i: int| 0 <= i < body.len() implies '0' <= #[trigger] body[i] <= '9' by {
            assert(is_digit(body[i]));
        }
    }
}

/// The first segment has the name of its channel; the others have it with a dot and their
/// number in decimal behind it; and a segment that is being laid out has `.partial` behind
/// its name.
pub proof fn law_segment_names(base: &str, sequence: u64, s: String, d: String, p: String)
    requires
        call_ensures(make_channel_file_path, (base, sequence), s),
        call_ensures(make_partial_channel_file_path, (base, sequence), p),
        call_ensures(decimal, (sequence,), d),
    ensures
        sequence == 0 ==> s@ == base@,
        sequence > 0 ==> s@ == base@ + seq!['.'] + d@,
        p@ == s@ + seq!['.', 'p', 'a', 'r', 't', 'i', 'a', 'l'],
{
}

/// The name of the channel is that of segment 0, the name with a dot and a number is that
/// of the segment with this number, and no other name is a segment's.
pub proof fn law_sequences_are_parsed(
    name: &str,
    base: &str,
    r: Option<u64>,
    tail: &str,
    number: Option<u64>,
)
    requires
        call_ensures(parse_sequence, (name, base), r),
        call_ensures(parse_u64, (tail,), number),
    ensures
        r == sequence_of(name@, base@),
        name@ == base@ ==> r == Some(0u64),
        name@ == base@ + seq!['.'] + tail@ ==> r == number,
        r is Some ==> name@ == base@ || (name@.len() > base@.len() && name@.subrange(
            0,
            base@.len() as int,
        ) == base@ && name@[base@.len() as int] == '.'),
{
    if name@ == base@ + seq!['.'] + tail@ {
        assert(name@.subrange(0, base@.len() as int) =~= base@);
        assert(crate::names::behind_dot(name@, base@) =~= tail@);
        assert(name@.len() != base@.len());
    }
}

/// A name is that of a segment that is being laid out exactly when it is the name of a
/// segment with `.partial` behind it, and a channel's files are its segments, laid out or
/// not.
pub proof fn law_partial_names(
    name: &str,
    base: &str,
    partial: bool,
    segment: Option<u64>,
    file: bool,
    stem: Seq<char>,
)
    requires
        call_ensures(is_partial_segment_name, (name, base), partial),
        call_ensures(parse_sequence, (name, base), segment),
        call_ensures(is_channel_file_name, (name, base), file),
    ensures
        name@ == stem + seq!['.', 'p', 'a', 'r', 't', 'i', 'a', 'l'] ==> (partial
            <==> sequence_of(stem, base@) is Some),
        partial ==> name@.len() >= 8 && name@.subrange(name@.len() - 8, name@.len() as int)
            == seq!['.', 'p', 'a', 'r', 't', 'i', 'a', 'l'],
        file <==> segment is Some || partial,
{
    let suffix = seq!['.', 'p', 'a', 'r', 't', 'i', 'a', 'l'];
    let n = name@;
    let b = base@;
    if name@ == stem + suffix {
        if crate::names::dotted(stem, b) {
            assert(n.subrange(0, b.len() as int) =~= stem.subrange(0, b.len() as int));
            let rest = crate::names::behind_dot(n, b);
            assert(rest =~= crate::names::behind_dot(stem, b) + suffix);
            assert(rest.subrange(rest.len() - 8, rest.len() as int) =~= suffix);
            assert(crate::names::without_partial(rest) =~= crate::names::behind_dot(stem, b));
        }
        if n == b + suffix {
            assert(stem =~= n.subrange(0, b.len() as int));
            assert(stem =~= b);
        } else if crate::names::dotted(n, b) {
            let rest = crate::names::behind_dot(n, b);
            if crate::names::ends_partial(rest) {
                assert(stem.subrange(0, b.len() as int) =~= n.subrange(0, b.len() as int));
                assert(crate::names::dotted(stem, b));
            }
        }
    }
    if partial {
        if n == b + suffix {
            assert(n.subrange(n.len() - 8, n.len() as int) =~= suffix);
        } else {
            let rest = crate::names::behind_dot(n, b);
            assert(n.subrange(n.len() - 8, n.len() as int) =~= rest.subrange(
                rest.len() - 8,
                rest.len() as int,
            ));
        }
    }
}

/// The sequence numbers among file names are those of the segments.
proof fn lemma_sequences_in(names: Seq<Seq<char>>, base: Seq<char>, s: u64)
    ensures
        sequences_in(names, base).contains(s) <==> exists|i: int|
            0 <= i < names.len() && sequence_of(#[trigger] names[i], base) == Some(s),
    decreases names.len(),
{
    if names.len() > 0 {
        let first = names.drop_last();
        let rest = sequences_in(first, base);
        lemma_sequences_in(first, base, s);
        let q = sequence_of(names.last(), base);
        if rest.contains(s) {
            let i = choose|i: int|
                0 <= i < first.len() && sequence_of(#[trigger] first[i], base) == Some(s);
            assert(names[i] == first[i]);
            let k = choose|k: int| 0 <= k < rest.len() && rest[k] == s;
            if q is Some {
                assert(rest.push(q->Some_0)[k] == s);
            }
        }
        if q == Some(s) {
            assert(rest.push(s)[rest.len() as int] == s);
            assert(names[names.len() - 1] == names.last());
        }
        if exists|i: int| 0 <= i < names.len() && sequence_of(#[trigger] names[i], base) == Some(s)
        {
            let i = choose|i: int|
                0 <= i < names.len() && sequence_of(#[trigger] names[i], base) == Some(s);
            if i < names.len() - 1 {
                assert(first[i] == names[i]);
            }
        }
        if sequences_in(names, base).contains(s) && !rest.contains(s) {
            let all = sequences_in(names, base);
            let k = choose|k: int| 0 <= k < all.len() && all[k] == s;
            if k < rest.len() {
                assert(rest[k] == s);
            }
        }
    }
}

/// A channel's segments are found among the files of its directory: each one, no other
/// file, and in ascending order; the latest and the earliest are the ends of that row, and
/// both are 0 where there is none.
pub proof fn law_segments_are_found(
    names: &Vec<String>,
    base: &str,
    all: Vec<u64>,
    latest: u64,
    earliest: u64,
    which: bool,
    either: u64,
    s: u64,
)
    requires
        call_ensures(find_all_sequences, (names, base), all),
        call_ensures(find_latest_sequence, (names, base), latest),
        call_ensures(find_earliest_sequence, (names, base), earliest),
        call_ensures(find_sequence, (names, base, which), either),
    ensures
        all@.contains(s) <==> exists|i: int|
            0 <= i < names@.len() && sequence_of((#[trigger] names@[i])@, base@) == Some(s),
        forall|i: int, j: int| 0 <= i <= j < all@.len() ==> all@[i] <= all@[j],
        all@.len() == 0 ==> latest == 0 && earliest == 0,
        all@.len() > 0 ==> latest == all@.last() && earliest == all@[0],
        which ==> either == latest,
        !which ==> either == earliest,
{
    let found = sequences_in(texts(names@), base@);
    lemma_sequences_in(texts(names@), base@, s);
    lemma_same_members(all@, found);
    if exists|i: int| 0 <= i < names@.len() && sequence_of((#[trigger] names@[i])@, base@)
        == Some(s) {
        let i = choose|i: int|
            0 <= i < names@.len() && sequence_of((#[trigger] names@[i])@, base@) == Some(s);
        assert(texts(names@)[i] == names@[i]@);
    }
    if all@.contains(s) {
        let i = choose|i: int|
            0 <= i < texts(names@).len() && sequence_of(#[trigger] texts(names@)[i], base@)
                == Some(s);
        assert(texts(names@)[i] == names@[i]@);
    }
    if all@.len() > 0 {
        lemma_chosen(all@, found, true, latest);
        lemma_chosen(all@, found, false, earliest);
        lemma_chosen(all@, found, which, either);
    }
}

/// One file more adds its sequence number where it is a segment, and nothing where it is
/// not; and among no files there is no segment.
pub proof fn law_one_file_more(
    names: &Vec<String>,
    more: &Vec<String>,
    name: &str,
    base: &str,
    all: Vec<u64>,
    now: Vec<u64>,
    s: Option<u64>,
)
    requires
        call_ensures(find_all_sequences, (names, base), all),
        call_ensures(find_all_sequences, (more, base), now),
        call_ensures(parse_sequence, (name, base), s),
        more@.len() == names@.len() + 1,
        forall|i: int| 0 <= i < names@.len() ==> (#[trigger] more@[i])@ == names@[i]@,
        more@.last()@ == name@,
    ensures
        names@.len() == 0 ==> all@.len() == 0,
        s is None ==> now@ == all@,
        s matches Some(q) ==> now@.to_multiset() == all@.to_multiset().insert(q),
{
    let a = texts(names@);
    let b = texts(more@);
    assert(b.drop_last() =~= a);
    assert(b.last() == name@);
    let found = sequences_in(a, base@);
    found.to_multiset_ensures();
    lemma_same_members(all@, found);
    if s is None {
        lemma_sorted_is_unique(now@, all@);
    }
}

/// The chosen one of some numbers is an end of them in order.
proof fn lemma_chosen(all: Seq<u64>, found: Seq<u64>, latest: bool, s: u64)
    requires
        crate::names::ascending(all),
        all.to_multiset() == found.to_multiset(),
        all.len() > 0,
        crate::names::chosen(found, latest, s),
    ensures
        latest ==> s == all.last(),
        !latest ==> s == all[0],
{
    lemma_same_members(all, found);
    let n = all.len() as int;
    assert(all.contains(s));
    let k = choose|k: int| 0 <= k < n && all[k] == s;
    assert(all[0] <= all[k] <= all[n - 1]);
    assert(all.contains(all[0]) && all.contains(all[n - 1]));
    assert(found.contains(all[0]));
    assert(found.contains(all[n - 1]));
    let i = choose|i: int| 0 <= i < found.len() && found[i] == all[0];
    let j = choose|j: int| 0 <= j < found.len() && found[j] == all[n - 1];
    assert(found[i] == all[0]);
    assert(found[j] == all[n - 1]);
}

/// Sequences with the same items have the same members.
proof fn lemma_same_members(a: Seq<u64>, b: Seq<u64>)
    requires
        a.to_multiset() == b.to_multiset(),
    ensures
        a.len() == b.len(),
        forall|x: u64| #[trigger] a.contains(x) <==> b.contains(x),
{
    a.to_multiset_ensures();
    b.to_multiset_ensures();
    assert forall|x: u64| a.contains(x) implies b.contains(x) by {
        assert(a.to_multiset().count(x) > 0);
        assert(b.to_multiset().count(x) > 0);
    }
    assert forall|x: u64| b.contains(x) implies a.contains(x) by {
        assert(b.to_multiset().count(x) > 0);
        assert(a.to_multiset().count(x) > 0);
    }
}

/// All segments of a channel are migrated, in ascending order, unless there is none or the
/// destination has a segment already.
pub proof fn law_channels_are_migrated(
    names: &Vec<String>,
    base: &str,
    all: Vec<u64>,
    dst_names: &Vec<String>,
    dst_base: &str,
    there: Vec<u64>,
    r: Result<Vec<u64>, Error>,
)
    requires
        call_ensures(find_all_sequences, (names, base), all),
        call_ensures(find_all_sequences, (dst_names, dst_base), there),
        call_ensures(migrate_channel_v2_to_v3, (names, base, dst_names, dst_base), r),
    ensures
        r is Ok <==> all@.len() > 0 && there@.len() == 0,
        r matches Ok(v) ==> v@ == all@,
        r matches Err(e) ==> if all@.len() == 0 {
            e == Error::NoChannelFiles
        } else {
            e == Error::DestinationOccupied
        },
{
    lemma_same_members(all@, sequences_in(texts(names@), base@));
    lemma_same_members(there@, sequences_in(texts(dst_names@), dst_base@));
    if r is Ok {
        lemma_sorted_is_unique(r->Ok_0@, all@);
    }
}

/// Two ascending rows of the same numbers are the same row.
proof fn lemma_sorted_is_unique(a: Seq<u64>, b: Seq<u64>)
    requires
        crate::names::ascending(a),
        crate::names::ascending(b),
        a.to_multiset() == b.to_multiset(),
    ensures
        a == b,
    decreases a.len(),
{
    lemma_same_members(a, b);
    if a.len() > 0 {
        assert(a.contains(a.last()) && b.contains(b.last()));
        assert(b.contains(a.last()) && a.contains(b.last()));
        let i = choose|i: int| 0 <= i < b.len() && b[i] == a.last();
        let j = choose|j: int| 0 <= j < a.len() && a[j] == b.last();
        assert(b[i] <= b.last() && a[j] <= a.last());
        let x = a.last();
        assert(a.drop_last().push(x) =~= a);
        assert(b.drop_last().push(x) =~= b);
        a.drop_last().to_multiset_ensures();
        b.drop_last().to_multiset_ensures();
        assert(a.drop_last().to_multiset().insert(x) == b.drop_last().to_multiset().insert(x));
        assert(a.drop_last().to_multiset() =~= a.drop_last().to_multiset().insert(x).remove(x));
        assert(b.drop_last().to_multiset() =~= b.drop_last().to_multiset().insert(x).remove(x));
        lemma_sorted_is_unique(a.drop_last(), b.drop_last());
    }
    assert(a =~= b);
}

/// A poll loop first sleeps one microsecond, then twice as long each time, up to ten
/// milliseconds, and never past the time that is left. It ends when a message is there or
/// no time is left.
pub proof fn law_waiting(
    first: Backoff,
    a: &mut Backoff,
    left: Option<u64>,
    sleep: Option<u64>,
    b: &mut Backoff,
    found: bool,
    step: WaitStep,
)
    requires
        call_ensures(Backoff::new, (), first),
        1 <= old(a).us <= 10000,
        call_ensures(Backoff::next_sleep, (a, left), sleep),
        1 <= old(b).us <= 10000,
        call_ensures(wait_step, (b, found, left), step),
    ensures
        first.us == 1,
        sleep is None <==> left == Some(0u64),
        sleep matches Some(us) ==> {
            &&& us > 0
            &&& us <= old(a).us
            &&& left is Some ==> us <= left->Some_0
            &&& us == old(a).us || left == Some(us)
            &&& final(a).us == if old(a).us <= 5000 {
                2 * old(a).us
            } else {
                10000
            }
        },
        sleep is None ==> final(a).us == old(a).us,
        step is Ready <==> found,
        step is TimedOut <==> !found && left == Some(0u64),
        step matches WaitStep::Sleep { us } ==> {
            &&& us > 0
            &&& us <= old(b).us
            &&& left is Some ==> us <= left->Some_0
            &&& us == old(b).us || left == Some(us)
            &&& final(b).us == if old(b).us <= 5000 {
                2 * old(b).us
            } else {
                10000
            }
        },
        !(step is Sleep) ==> final(b).us == old(b).us,
{
}

/// Opening is repeated, up to seven times, for a reader that joins late and finds its
/// segment gone, and for no other.
pub proof fn law_opening_is_repeated(mode: ReaderMode, attempt: usize, not_found: bool, r: bool)
    requires
        call_ensures(retry_open, (mode, attempt, not_found), r),
    ensures
        r <==> mode == ReaderMode::LateJoin && not_found && attempt < 8,
{
}

/// Every setting of a writer is set by its own call, which leaves the others alone.
pub proof fn law_writer_settings<P>(
    path: P,
    fresh: WriterBuilder<P>,
    b: WriterBuilder<P>,
    n: u64,
    size: usize,
    generation: WriterBuilder<P>,
    base: WriterBuilder<P>,
    region: WriterBuilder<P>,
    roll: WriterBuilder<P>,
    mtu: WriterBuilder<P>,
    keep: WriterBuilder<P>,
)
    requires
        call_ensures(WriterBuilder::<P>::new, (path,), fresh),
        call_ensures(WriterBuilder::<P>::generation, (b, n), generation),
        call_ensures(WriterBuilder::<P>::base_record_index, (b, n), base),
        call_ensures(WriterBuilder::<P>::region_size, (b, size), region),
        call_ensures(WriterBuilder::<P>::file_roll_size, (b, n), roll),
        call_ensures(WriterBuilder::<P>::mtu, (b, n), mtu),
        call_ensures(WriterBuilder::<P>::keep_files, (b, n), keep),
    ensures
        fresh.path == path,
        fresh.region_size == 1048576,
        fresh.file_roll_size == 0,
        fresh.mtu == 0,
        fresh.keep_files is None,
        forall|i: int| 0 <= i < 48 ==> fresh.channel_name@[i] == 0,
        fresh.base_record_index == 0,
        fresh.generation == 0,
        generation == (WriterBuilder { generation: n, ..b }),
        base == (WriterBuilder { base_record_index: n, ..b }),
        region == (WriterBuilder { region_size: size, ..b }),
        roll == (WriterBuilder { file_roll_size: n, ..b }),
        mtu == (WriterBuilder { mtu: n, ..b }),
        keep == (WriterBuilder { keep_files: Some(n), ..b }),
{
}

/// A name of up to 48 bytes is stored with zero bytes behind it, and a longer one is
/// refused. Settings are accepted exactly when files do not roll or two regions fit in the
/// roll size, and are accepted as they are. A fresh segment is asked to say what the
/// settings say.
pub proof fn law_writer_plans<P>(
    b: WriterBuilder<P>,
    name: &str,
    named: Result<WriterBuilder<P>, Error>,
    built: Result<WriterPlan<P>, Error>,
    plan: &WriterPlan<P>,
    sequence: u64,
    spec: SegmentSpec,
)
    requires
        call_ensures(WriterBuilder::<P>::channel_name, (b, name), named),
        call_ensures(WriterBuilder::<P>::build, (b,), built),
        call_ensures(WriterPlan::<P>::segment, (plan, sequence), spec),
    ensures
        ({
            let bytes = vstd::utf8::encode_utf8(name@);
            &&& named is Ok <==> bytes.len() <= 48
            &&& named matches Err(e) ==> e == (Error::ChannelNameTooLong {
                len: bytes.len() as usize,
            })
            &&& named matches Ok(a) ==> {
                &&& a == (WriterBuilder { channel_name: a.channel_name, ..b })
                &&& forall|i: int| 0 <= i < bytes.len() ==> a.channel_name@[i] == bytes[i]
                &&& forall|i: int| bytes.len() <= i < 48 ==> a.channel_name@[i] == 0
            }
        }),
        2 * b.region_size <= u64::MAX ==> (built is Ok <==> b.file_roll_size == 0
            || b.file_roll_size >= 2 * b.region_size),
        2 * b.region_size > u64::MAX ==> (built is Ok <==> b.file_roll_size == 0
            || b.file_roll_size == u64::MAX),
        built matches Ok(p) ==> p.settings == b,
        built matches Err(e) ==> {
            &&& e matches Error::RollSizeBelowTwoRegions { file_roll_size, minimum }
            &&& file_roll_size == b.file_roll_size
            &&& 2 * b.region_size <= u64::MAX ==> minimum == 2 * b.region_size
            &&& 2 * b.region_size > u64::MAX ==> minimum == u64::MAX
        },
        spec.sequence == sequence,
        spec.region_size == plan.settings.region_size,
        spec.mtu == plan.settings.mtu,
        spec.channel_name@ == plan.settings.channel_name@,
        spec.base_record_index == plan.settings.base_record_index,
        spec.generation == plan.settings.generation,
{
}

/// Every setting of a reader is set by its own call, which leaves the others alone.
pub proof fn law_reader_settings<P>(
    path: P,
    fresh: ReaderBuilder<P>,
    b: ReaderBuilder<P>,
    m: ReaderMode,
    mode: ReaderBuilder<P>,
    live: ReaderBuilder<P>,
    late: ReaderBuilder<P>,
    n: u16,
    limit: ReaderBuilder<P>,
)
    requires
        call_ensures(ReaderBuilder::<P>::new, (path,), fresh),
        call_ensures(ReaderBuilder::<P>::mode, (b, m), mode),
        call_ensures(ReaderBuilder::<P>::live, (b,), live),
        call_ensures(ReaderBuilder::<P>::late_join, (b,), late),
        call_ensures(ReaderBuilder::<P>::batch_limit, (b, n), limit),
    ensures
        fresh.path == path,
        fresh.mode is LateJoin,
        fresh.batch_limit is None,
        mode == (ReaderBuilder { mode: m, ..b }),
        live == (ReaderBuilder { mode: ReaderMode::Live, ..b }),
        late == (ReaderBuilder { mode: ReaderMode::LateJoin, ..b }),
        limit == (ReaderBuilder { batch_limit: Some(n), ..b }),
{
}

} // verus!
