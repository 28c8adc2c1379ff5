//! What the calls of a writer come to, said of what goes in and what comes out.
//!
//! Each law takes a call of the named operation with its arguments and its result, and
//! says what holds between them.
use vstd::prelude::*;

use crate::builder::WriterPlan;
use crate::calls_format::{is_free, same_but};
use crate::channel::{
    base_record_index_at, generation_at, header_at, message_count_at, write_position_at,
    MessageHeader,
};
use crate::error::Error;
use crate::segment::SegmentSpec;
use crate::writer::{
    fetch_add_wp, publish_wp, NamedRoll, RegionRoll, Reserve, StagedCommit, StagedRoll, Writer,
    WriterState,
};

verus! {

broadcast use crate::channel::group_header_len;

/// Two writers go by the same settings.
pub open spec fn same_settings(a: WriterState, b: WriterState) -> bool {
    &&& a.region_size == b.region_size
    &&& a.file_roll_size == b.file_roll_size
    &&& a.mtu == b.mtu
    &&& a.keep_files == b.keep_files
    &&& a.channel_name@ == b.channel_name@
}

/// A reservation is granted where the record, its padding and the slot behind it fit in
/// what is left of the region and of the segment.
///
/// The segment is rolled exactly when they would end behind a roll size that is not zero,
/// and the region exactly when they would end behind the region. A size is refused exactly
/// when it is over the MTU or fits in no region.
pub proof fn law_reservation(
    w: &mut Writer,
    region: &mut [u8],
    msg_size: usize,
    r: Result<Reserve, Error>,
)
    requires
        old(w)@.wf(),
        old(region)@.len() == old(w)@.region_size,
        call_ensures(Writer::try_reserve, (w, region, msg_size), r),
    ensures
        ({
            let s = old(w)@;
            let at = s.next_hdr_pos as int;
            let size = s.region_size as int;
            let span = (16 + msg_size + 7) / 8 * 8;
            let needed = span + 16;
            let allowed = (s.mtu == 0 || msg_size <= s.mtu) && needed <= size;
            let in_file = s.file_roll_size == 0 || at + needed <= s.file_roll_size;
            let in_region = at % size + needed <= size;
            &&& r is Ok <==> allowed
            &&& r == Err::<Reserve, Error>(Error::MtuExceeded) <==> s.mtu != 0 && msg_size > s.mtu
            &&& (s.mtu == 0 || msg_size <= s.mtu) && needed > size ==> r == Err::<Reserve, Error>(
                Error::ReservationExceedsRegion {
                    msg_size,
                    region_size: s.region_size,
                    needed: if needed > usize::MAX {
                        usize::MAX
                    } else {
                        needed as usize
                    },
                },
            )
            &&& r == Ok::<Reserve, Error>(Reserve::RollFile) <==> allowed && !in_file
            &&& r == Ok::<Reserve, Error>(Reserve::RollRegion) <==> allowed && in_file
                && !in_region
            &&& r == Ok::<Reserve, Error>(
                Reserve::Ready { payload_off: (at % size + 16) as usize },
            ) <==> allowed && in_file && in_region
        }),
        final(w)@ == (WriterState {
            pending_msg_size: if r is Ok && r->Ok_0 is Ready {
                Some(msg_size)
            } else {
                old(w)@.pending_msg_size
            },
            ..old(w)@
        }),
        if r is Ok && r->Ok_0 is Ready {
            let slot = old(w)@.next_hdr_pos as int % old(w)@.region_size as int + (16 + msg_size
                + 7) / 8 * 8;
            &&& is_free(header_at(final(region)@, slot))
            &&& same_but(old(region)@, final(region)@, slot, 16)
        } else {
            final(region)@ == old(region)@
        },
{
    let s = old(w)@;
    let slot = s.off() + (16 + msg_size + 7) / 8 * 8;
    s.lemma_at();
    if r is Ok && r->Ok_0 is Ready {
        crate::channel::law_message_header_round_trip(
            old(region)@,
            slot,
            crate::channel::preinstalled_header(),
        );
    }
}

/// A commit is accepted exactly when a reservation waits that is large enough, and the
/// reservation is spent either way.
///
/// What is committed is found in the region: the header says that it is a published
/// message of the given type, length and metadata, the slot behind the message is free,
/// and no other byte is touched, those of the payload among them.
pub proof fn law_commit(
    w: &mut Writer,
    region: &mut [u8],
    message_type: u16,
    length: u32,
    user_meta: u64,
    r: Result<u64, Error>,
)
    requires
        old(w)@.wf(),
        old(region)@.len() == old(w)@.region_size,
        call_ensures(Writer::commit, (w, region, message_type, length, user_meta), r),
    ensures
        ({
            let s = old(w)@;
            let at = s.next_hdr_pos as int;
            let off = at % s.region_size as int;
            let span = (16 + length + 7) / 8 * 8;
            match s.pending_msg_size {
                None => {
                    &&& r == Err::<u64, Error>(Error::CommitWithoutReserve)
                    &&& final(region)@ == old(region)@
                    &&& final(w)@ == s
                },
                Some(reserved) if length > reserved => {
                    &&& r == Err::<u64, Error>(Error::CommitExceedsReservation { length, reserved })
                    &&& final(region)@ == old(region)@
                    &&& final(w)@ == (WriterState { pending_msg_size: None, ..s })
                },
                Some(reserved) => {
                    &&& r == Ok::<u64, Error>((at + span + 16) as u64)
                    &&& final(w)@ == (WriterState {
                        next_hdr_pos: (at + span) as u64,
                        pending_msg_size: None,
                        ..s
                    })
                    &&& header_at(final(region)@, off) == (MessageHeader {
                        committed: 1,
                        header_type: 1,
                        message_type,
                        length,
                        user_meta_u64: user_meta,
                    })
                    &&& length < reserved ==> is_free(header_at(final(region)@, off + span))
                    &&& final(region)@.len() == old(region)@.len()
                    &&& forall|i: int|
                        0 <= i < old(region)@.len() && !(off <= i < off + 16) && !(length
                            < reserved && off + span <= i < off + span + 16)
                            ==> final(region)@[i] == old(region)@[i]
                },
            }
        }),
{
    let s = old(w)@;
    let off = s.off();
    s.lemma_at();
    crate::layout::law_align_up(16 + length, 0);
    if s.pending_msg_size is Some && length <= s.pending_msg_size->Some_0 {
        lemma_staged(
            old(region)@,
            off,
            s.pending_msg_size->Some_0,
            message_type,
            length,
            user_meta,
        );
        crate::layout::law_align_up(16 + s.pending_msg_size->Some_0, 0);
        let t = crate::writer::staged_at(
            old(region)@,
            off,
            s.pending_msg_size->Some_0,
            message_type,
            length,
            user_meta,
        );
        crate::channel::law_commit_sets_the_flag_only(t, off);
        if length < s.pending_msg_size->Some_0 {
            crate::channel::lemma_header_frame(
                t,
                final(region)@,
                off + (16 + length + 7) / 8 * 8,
            );
        }
    }
}

/// What a region says with a staged message.
proof fn lemma_staged(
    r: Seq<u8>,
    off: int,
    reserved: usize,
    message_type: u16,
    length: u32,
    user_meta: u64,
)
    requires
        0 <= off,
        length <= reserved,
        off + (16 + reserved + 7) / 8 * 8 + 16 <= r.len(),
    ensures
        ({
            let span = (16 + length + 7) / 8 * 8;
            let t = crate::writer::staged_at(r, off, reserved, message_type, length, user_meta);
            &&& t.len() == r.len()
            &&& header_at(t, off) == (MessageHeader {
                committed: 0,
                header_type: 1,
                message_type,
                length,
                user_meta_u64: user_meta,
            })
            &&& length < reserved ==> is_free(header_at(t, off + span))
            &&& forall|i: int|
                0 <= i < r.len() && !(off <= i < off + 16) && !(length < reserved && off + span
                    <= i < off + span + 16) ==> t[i] == r[i]
        }),
{
    let span = (16 + length + 7) / 8 * 8;
    let h = crate::writer::user_header(0, message_type, length, user_meta);
    let a = crate::bytes::put(r, off, h.bytes());
    let t = crate::writer::staged_at(r, off, reserved, message_type, length, user_meta);
    crate::layout::law_align_up(16 + length, 0);
    crate::layout::law_align_up(16 + reserved, 0);
    crate::channel::law_message_header_round_trip(r, off, h);
    if length < reserved {
        crate::channel::law_message_header_round_trip(
            a,
            off + span,
            crate::channel::preinstalled_header(),
        );
        crate::channel::lemma_header_frame(a, t, off);
    }
}

/// Staging a commit does all that the commit does but for the commit flag and for moving
/// on, and names the flag and the slot behind the message.
pub proof fn law_stage_commit(
    w: &mut Writer,
    region: &mut [u8],
    message_type: u16,
    length: u32,
    user_meta: u64,
    r: Result<StagedCommit, Error>,
)
    requires
        old(w)@.wf(),
        old(region)@.len() == old(w)@.region_size,
        call_ensures(Writer::stage_commit, (w, region, message_type, length, user_meta), r),
    ensures
        final(w)@ == (WriterState { pending_msg_size: None, ..old(w)@ }),
        ({
            let s = old(w)@;
            let at = s.next_hdr_pos as int;
            let off = at % s.region_size as int;
            let span = (16 + length + 7) / 8 * 8;
            match s.pending_msg_size {
                None => {
                    &&& r matches Err(e) && e == Error::CommitWithoutReserve
                    &&& final(region)@ == old(region)@
                },
                Some(reserved) if length > reserved => {
                    &&& r matches Err(e) && e == (Error::CommitExceedsReservation {
                        length,
                        reserved,
                    })
                    &&& final(region)@ == old(region)@
                },
                Some(reserved) => {
                    &&& r matches Ok(staged) && staged.off() == off && staged.next() == at + span
                    &&& header_at(final(region)@, off) == (MessageHeader {
                        committed: 0,
                        header_type: 1,
                        message_type,
                        length,
                        user_meta_u64: user_meta,
                    })
                    &&& length < reserved ==> is_free(header_at(final(region)@, off + span))
                    &&& final(region)@.len() == old(region)@.len()
                    &&& forall|i: int|
                        0 <= i < old(region)@.len() && !(off <= i < off + 16) && !(length
                            < reserved && off + span <= i < off + span + 16)
                            ==> final(region)@[i] == old(region)@[i]
                },
            }
        }),
{
    let s = old(w)@;
    s.lemma_at();
    if s.pending_msg_size is Some && length <= s.pending_msg_size->Some_0 {
        lemma_staged(
            old(region)@,
            s.off(),
            s.pending_msg_size->Some_0,
            message_type,
            length,
            user_meta,
        );
    }
}

/// Settling a staged commit moves the writer to the slot behind the message and returns
/// the position one slot further on; publishing sets the flag and does the same.
pub proof fn law_settle_commit(
    w: &mut Writer,
    region: &mut [u8],
    staged: StagedCommit,
    wp: u64,
    published: bool,
)
    requires
        published ==> call_ensures(Writer::publish_commit, (w, region, staged), wp),
        !published ==> call_ensures(Writer::settle_commit, (w, staged), wp),
    ensures
        wp == staged.next() + 16,
        final(w)@ == (WriterState {
            next_hdr_pos: staged.next() as u64,
            pending_msg_size: None,
            ..old(w)@
        }),
        published ==> final(region)@ == old(region)@.update(staged.off(), 1u8),
{
}

/// A commit flag that is named is the one of the record.
pub proof fn law_flags_are_named(
    c: &StagedCommit,
    n: &NamedRoll,
    s: StagedRoll,
    named: NamedRoll,
    w: &Writer,
    of_commit: usize,
    of_roll: usize,
    of_slot: usize,
)
    requires
        call_ensures(StagedCommit::flag_off, (c,), of_commit),
        call_ensures(NamedRoll::flag_off, (n,), of_roll),
        call_ensures(StagedRoll::renamed, (s,), named),
        call_ensures(Writer::slot_off, (w,), of_slot),
    ensures
        of_commit == c.off(),
        of_roll == n.off(),
        named.off() == s.off(),
        of_slot == w@.next_hdr_pos as int % w@.region_size as int,
{
}

/// Moving on to the next region pads what is left of the current one, to its last byte,
/// frees the first slot of the next one, and leaves the writer there with the same
/// settings and without a reservation.
pub proof fn law_region_roll(
    w: &mut Writer,
    region: &mut [u8],
    next_region: &mut [u8],
    wp: u64,
)
    requires
        old(w)@.wf(),
        (old(w)@.current_region_index + 2) * old(w)@.region_size <= old(w)@.file_len,
        old(region)@.len() == old(w)@.region_size,
        old(next_region)@.len() == old(w)@.region_size,
        call_ensures(Writer::roll_over_region, (w, region, next_region), wp),
    ensures
        ({
            let s = old(w)@;
            let off = s.next_hdr_pos as int % s.region_size as int;
            let h = header_at(final(region)@, off);
            &&& h.committed == 1
            &&& h.header_type == 2
            &&& h.message_type == 0
            &&& h.user_meta_u64 == 0
            &&& off + 16 + h.length == s.region_size
            &&& same_but(old(region)@, final(region)@, off, 16)
            &&& is_free(header_at(final(next_region)@, 0))
            &&& same_but(old(next_region)@, final(next_region)@, 0, 16)
            &&& final(w)@.next_hdr_pos == (s.current_region_index + 1) * s.region_size
            &&& final(w)@.current_region_index == s.current_region_index + 1
            &&& wp == final(w)@.next_hdr_pos + 16
            &&& final(w)@.pending_msg_size is None
            &&& final(w)@.file_sequence == s.file_sequence
            &&& final(w)@.file_len == s.file_len
            &&& same_settings(s, final(w)@)
        }),
{
    let s = old(w)@;
    let off = s.off();
    s.lemma_at();
    let h = crate::writer::skip_header(0, s.skip_len() as u32);
    let t = crate::bytes::put(old(region)@, off, h.bytes());
    crate::channel::law_message_header_round_trip(old(region)@, off, h);
    crate::channel::law_commit_sets_the_flag_only(t, off);
    crate::channel::law_message_header_round_trip(
        old(next_region)@,
        0,
        crate::channel::preinstalled_header(),
    );
}

/// The steps of moving on to the next region: which region it is and how long the file
/// must be for it, the padding without its flag, the writer behind it, and the flag.
pub proof fn law_region_roll_steps(
    a: &mut Writer,
    roll: RegionRoll,
    b: &Writer,
    region: &mut [u8],
    next_region: &mut [u8],
    c: &mut Writer,
    wp: u64,
    d: &mut Writer,
    padded: &mut [u8],
    published: u64,
)
    requires
        old(a)@.wf(),
        call_ensures(Writer::plan_region_roll, (a,), roll),
        b@.wf(),
        old(region)@.len() == b@.region_size,
        old(next_region)@.len() == b@.region_size,
        call_ensures(Writer::stage_region_roll, (b, region, next_region), ()),
        old(c)@.wf(),
        (old(c)@.current_region_index + 2) * old(c)@.region_size <= old(c)@.file_len,
        call_ensures(Writer::settle_region_roll, (c,), wp),
        old(d)@ == old(c)@,
        call_ensures(Writer::publish_region_roll, (d, padded), published),
    ensures
        roll.region_index == old(a)@.next_hdr_pos as int / old(a)@.region_size as int + 1,
        roll.needed_end == (roll.region_index + 1) * old(a)@.region_size,
        final(a)@ == (WriterState { pending_msg_size: None, ..old(a)@ }),
        ({
            let off = b@.next_hdr_pos as int % b@.region_size as int;
            let h = header_at(final(region)@, off);
            &&& h.committed == 0
            &&& h.header_type == 2
            &&& h.message_type == 0
            &&& h.user_meta_u64 == 0
            &&& off + 16 + h.length == b@.region_size
            &&& same_but(old(region)@, final(region)@, off, 16)
            &&& is_free(header_at(final(next_region)@, 0))
            &&& same_but(old(next_region)@, final(next_region)@, 0, 16)
        }),
        final(c)@.next_hdr_pos == (old(c)@.current_region_index + 1) * old(c)@.region_size,
        final(c)@.current_region_index == old(c)@.current_region_index + 1,
        wp == final(c)@.next_hdr_pos + 16,
        final(c)@.pending_msg_size is None,
        final(c)@.file_sequence == old(c)@.file_sequence,
        final(c)@.file_len == old(c)@.file_len,
        same_settings(old(c)@, final(c)@),
        final(d)@ == final(c)@,
        published == wp,
        final(padded)@ == old(padded)@.update(
            old(d)@.next_hdr_pos as int % old(d)@.region_size as int,
            1u8,
        ),
{
    let s = b@;
    old(a)@.lemma_at();
    s.lemma_at();
    old(c)@.lemma_at();
    let h = crate::writer::skip_header(0, s.skip_len() as u32);
    crate::channel::law_message_header_round_trip(old(region)@, s.off(), h);
    crate::channel::law_message_header_round_trip(
        old(next_region)@,
        0,
        crate::channel::preinstalled_header(),
    );
}

/// A file is grown exactly when it is too short, to exactly what is wanted, and is never
/// taken to be shorter than it was.
pub proof fn law_growth(w: &Writer, v: &mut Writer, want: u64, r: Option<u64>)
    requires
        call_ensures(Writer::growth, (w, want), r),
        call_ensures(Writer::ensure_len, (v, want), ()),
    ensures
        r is Some <==> want > w@.file_len,
        r is Some ==> r->Some_0 == want,
        final(v)@.file_len >= want,
        final(v)@.file_len >= old(v)@.file_len,
        final(v)@.file_len == want || final(v)@.file_len == old(v)@.file_len,
        final(v)@ == (WriterState { file_len: final(v)@.file_len, ..old(v)@ }),
{
}

/// The next segment is planned as the continuation of the current one: next in the series,
/// with the same region size, MTU, name and incarnation, and with the number of the next
/// message as its base. The plan changes nothing.
pub proof fn law_roll_plan(w: &Writer, region0: &[u8], spec: SegmentSpec)
    requires
        w@.file_sequence < u64::MAX,
        base_record_index_at(region0@) + message_count_at(region0@) <= u64::MAX,
        call_ensures(Writer::plan_roll, (w, region0), spec),
    ensures
        spec.sequence == w@.file_sequence + 1,
        spec.region_size == w@.region_size,
        spec.mtu == w@.mtu,
        spec.channel_name@ == w@.channel_name@,
        spec.base_record_index == base_record_index_at(region0@) + message_count_at(region0@),
        spec.generation == generation_at(region0@),
{
}

/// Rolling marks the end of the segment at the writer's slot and leaves the writer at the
/// first slot of the next segment, with the same settings and without a reservation. With
/// `n` segments kept it removes the one that is `n` behind the new one, once there is one,
/// and without a limit it removes none.
pub proof fn law_roll(
    w: &mut Writer,
    region: &mut [u8],
    now_ns: u64,
    file_len: u64,
    prune: Option<u64>,
)
    requires
        old(w)@.wf(),
        old(w)@.file_sequence < u64::MAX,
        old(region)@.len() == old(w)@.region_size,
        call_ensures(Writer::roll_file, (w, region, now_ns, file_len), prune),
    ensures
        ({
            let s = old(w)@;
            let off = s.next_hdr_pos as int % s.region_size as int;
            &&& header_at(final(region)@, off) == (MessageHeader {
                committed: 1,
                header_type: 3,
                message_type: 0,
                length: 0,
                user_meta_u64: now_ns,
            })
            &&& same_but(old(region)@, final(region)@, off, 16)
            &&& rolled_state(s, file_len, final(w)@, prune)
        }),
{
    let s = old(w)@;
    s.lemma_at();
    let h = crate::writer::roll_header(0, now_ns);
    let t = crate::bytes::put(old(region)@, s.off(), h.bytes());
    crate::channel::law_message_header_round_trip(old(region)@, s.off(), h);
    crate::channel::law_commit_sets_the_flag_only(t, s.off());
}

/// A writer before and after a roll, and the segment that the roll removes.
pub open spec fn rolled_state(
    before: WriterState,
    file_len: u64,
    after: WriterState,
    prune: Option<u64>,
) -> bool {
    &&& after.file_sequence == before.file_sequence + 1
    &&& after.file_len == file_len
    &&& after.current_region_index == 0
    &&& after.next_hdr_pos == 144
    &&& after.pending_msg_size is None
    &&& same_settings(before, after)
    &&& match before.keep_files {
        None => prune is None,
        Some(n) => {
            &&& prune is Some <==> after.file_sequence >= n
            &&& prune matches Some(gone) ==> gone + n == after.file_sequence
        },
    }
}

/// The steps of a roll: the mark without its flag, and the writer in the next segment.
pub proof fn law_roll_steps(
    a: &Writer,
    region: &mut [u8],
    now_ns: u64,
    staged: StagedRoll,
    b: &mut Writer,
    c: &mut Writer,
    last: &mut [u8],
    named: NamedRoll,
    again: NamedRoll,
    file_len: u64,
    pruned_b: Option<u64>,
    pruned_c: Option<u64>,
)
    requires
        a@.wf(),
        old(region)@.len() == a@.region_size,
        call_ensures(Writer::stage_roll, (a, region, now_ns), staged),
        old(b)@.file_sequence < u64::MAX,
        call_ensures(Writer::settle_roll, (b, named, file_len), pruned_b),
        old(c)@.file_sequence < u64::MAX,
        call_ensures(Writer::publish_roll, (c, last, again, file_len), pruned_c),
    ensures
        ({
            let off = a@.next_hdr_pos as int % a@.region_size as int;
            &&& staged.off() == off
            &&& header_at(final(region)@, off) == (MessageHeader {
                committed: 0,
                header_type: 3,
                message_type: 0,
                length: 0,
                user_meta_u64: now_ns,
            })
            &&& same_but(old(region)@, final(region)@, off, 16)
        }),
        rolled_state(old(b)@, file_len, final(b)@, pruned_b),
        rolled_state(old(c)@, file_len, final(c)@, pruned_c),
        final(last)@ == old(last)@.update(
            old(c)@.next_hdr_pos as int % old(c)@.region_size as int,
            1u8,
        ),
{
    a@.lemma_at();
    let h = crate::writer::roll_header(0, now_ns);
    crate::channel::law_message_header_round_trip(old(region)@, a@.off(), h);
}

/// A writer goes by the settings that it is opened with, however it comes to its segment:
/// on a fresh one and on one that it takes up, at any slot.
pub proof fn law_writer_goes_by_its_settings<P>(
    plan: &WriterPlan<P>,
    sequence: u64,
    file_len: u64,
    next_hdr: u64,
    fresh: Writer,
    adopted: Writer,
)
    requires
        call_ensures(Writer::fresh::<P>, (plan, sequence, file_len), fresh),
        call_ensures(Writer::adopted::<P>, (plan, sequence, file_len, next_hdr), adopted),
    ensures
        has_settings(fresh@, *plan),
        has_settings(adopted@, *plan),
        fresh@.file_sequence == sequence,
        adopted@.file_sequence == sequence,
        fresh@.file_len == file_len,
        adopted@.file_len == file_len,
        fresh@.next_hdr_pos == 144,
        fresh@.current_region_index == (144int / plan.settings.region_size as int) as u64,
        adopted@.next_hdr_pos == next_hdr,
        adopted@.current_region_index == (next_hdr as int
            / plan.settings.region_size as int) as u64,
        fresh@.wf(),
        adopted@.wf(),
        fresh@.pending_msg_size is None,
        adopted@.pending_msg_size is None,
{
}

/// The writer has exactly the settings of the plan.
pub open spec fn has_settings<P>(s: WriterState, plan: WriterPlan<P>) -> bool {
    &&& s.region_size == plan.settings.region_size
    &&& s.file_roll_size == plan.settings.file_roll_size
    &&& s.mtu == plan.settings.mtu
    &&& s.keep_files == plan.settings.keep_files
    &&& s.channel_name@ == plan.settings.channel_name@
}

/// Every roll of a writer that was opened to keep `n` segments removes the segment that is
/// `n` behind, once there is one, whether the writer laid its segment out or took it up.
pub proof fn law_retention_holds_from_the_start<P>(
    plan: &WriterPlan<P>,
    n: u64,
    sequence: u64,
    file_len: u64,
    next_hdr: u64,
    w: &mut Writer,
    region: &mut [u8],
    now_ns: u64,
    next_len: u64,
    prune: Option<u64>,
)
    requires
        plan.settings.keep_files == Some(n),
        call_ensures(Writer::adopted::<P>, (plan, sequence, file_len, next_hdr), *old(w)),
        sequence < u64::MAX,
        call_ensures(Writer::roll_file, (w, region, now_ns, next_len), prune),
    ensures
        prune is Some <==> sequence + 1 >= n,
        prune matches Some(gone) ==> gone == sequence + 1 - n,
        final(w)@.keep_files == Some(n),
{
}

/// What a writer says of itself, of the number of its next message and of the incarnation
/// of its channel.
pub proof fn law_writer_says(
    w: &Writer,
    region0: &[u8],
    s: WriterState,
    index: u64,
    generation: u64,
)
    requires
        call_ensures(Writer::state, (w,), s),
        call_ensures(Writer::next_record_index, (w, region0), index),
        call_ensures(Writer::generation, (w, region0), generation),
    ensures
        s == w@,
        index == base_record_index_at(region0@) + message_count_at(region0@),
        generation == generation_at(region0@),
{
}

/// Publishing a write position counts one message more and stores the position; adding to
/// the write position counts none. Both wrap around at 64 bits. Nothing else that the segment says is touched.
pub proof fn law_write_position(
    a: &mut [u8],
    position: u64,
    b: &mut [u8],
    delta: u64,
    before: u64,
)
    requires
        144 <= old(a)@.len(),
        144 <= old(b)@.len(),
        call_ensures(publish_wp, (a, position), ()),
        call_ensures(fetch_add_wp, (b, delta), before),
    ensures
        write_position_at(final(a)@) == position,
        message_count_at(final(a)@) == (message_count_at(old(a)@) + 1)
            % 0x1_0000_0000_0000_0000,
        same_but(old(a)@, final(a)@, 16, 16),
        before == write_position_at(old(b)@),
        write_position_at(final(b)@) == (before + delta) % 0x1_0000_0000_0000_0000,
        same_but(old(b)@, final(b)@, 16, 8),
{
    broadcast use crate::bytes::group_le_len;

    let n = message_count_at(old(a)@);
    crate::writer::lemma_settled(
        old(a)@,
        if n == u64::MAX {
            0
        } else {
            (n + 1) as u64
        },
        position,
    );
    crate::segment::lemma_stored_wp(
        old(b)@,
        if before + delta > u64::MAX {
            (before + delta - 0x1_0000_0000_0000_0000) as u64
        } else {
            (before + delta) as u64
        },
    );
}

} // verus!
