//! One-time migration of channel files without a wire version.
//!
//! Such a file has a channel header of 64 bytes whose second half is a name field of
//! 32 bytes. The first wire version keeps the first half and the records as they are,
//! and divides the second half into the version, the framing, the header sizes and a
//! name field of 20 bytes. So migration rewrites file bytes 48 to 79 and nothing else.
use vstd::prelude::*;

use crate::bytes::{get_u16, get_u32, put_u16, put_u32};
use crate::channel::{
    CHANNEL_HEADER_SIZE, COMMITTED, ENDIANNESS_LE, FIRST_SLOT, HEADER_SLOT, SYSTEM_HEADER_SIZE,
    USER_HEADER_KIND_DEFAULT, USER_HEADER_SIZE,
};
use crate::error::Error;
use crate::names::{ascending, find_all_sequences, sequences_in, texts};
use crate::segment::{prepared, SegmentSpec};

verus! {

broadcast use {vstd::slice::group_slice_axioms, crate::bytes::group_le_len};

/// Bytes up to the end of the channel header.
pub const REGION0_PREFIX_LEN: usize = 80;

/// The wire version that migrated files carry.
pub const MIGRATED_FORMAT_VERSION: u16 = 1;

/// Why a file of `len` bytes that starts with `p` is not migrated, if it is not.
pub open spec fn migration_fault(len: u64, p: Seq<u8>) -> Option<Error> {
    if len < REGION0_PREFIX_LEN {
        Some(Error::SourceTooSmall { len })
    } else if p[0] != COMMITTED {
        Some(Error::SourceNotCommitted)
    } else if p[1] != 0 {
        Some(Error::SourceNotChannel { raw: p[1] })
    } else if crate::bytes::le16(p, 48) != 0 {
        Some(Error::SourceNotV2 { probe: crate::bytes::le16(p, 48) })
    } else if crate::bytes::le32(p, 4) == CHANNEL_HEADER_SIZE && crate::bytes::le16(p, 56) != 0 {
        Some(Error::SourceNotV2 { probe: crate::bytes::le16(p, 56) })
    } else if crate::bytes::le32(p, 4) != 64 {
        Some(Error::SourceRecordLength { found: crate::bytes::le32(p, 4) })
    } else if crate::bytes::le32(p, 40) == 0 {
        Some(Error::SourceRegionSizeZero)
    } else {
        None
    }
}

/// The migrated second half of a channel header with the given name field.
pub open spec fn migrated_half(name: Seq<u8>) -> Seq<u8> {
    crate::bytes::le16_bytes(MIGRATED_FORMAT_VERSION) + seq![
        ENDIANNESS_LE,
        SYSTEM_HEADER_SIZE,
        USER_HEADER_SIZE,
        0u8,
        0u8,
        0u8,
    ] + crate::bytes::le32_bytes(USER_HEADER_KIND_DEFAULT) + name.subrange(0, 20)
}

/// A migrated prefix.
pub open spec fn migrated(p: Seq<u8>) -> Seq<u8> {
    crate::bytes::put(p, 48, migrated_half(p.subrange(48, 80)))
}

/// Migrates the first bytes of a file of `src_len` bytes. The name is cut to the
/// twenty bytes that the new field has. A file that is not of the old format is
/// refused and its bytes are left alone.
///
/// The wire version is looked at first, where the first version has it and, for a
/// channel header of the current size, where the current version has it.
///
/// `dst_exists` says whether there is a file at the destination. It would be overwritten,
/// so it is looked at before the source.
pub fn migrate_file_v2_to_v3(src_len: u64, dst_exists: bool, prefix: &mut [u8]) -> (r: Result<
    (),
    Error,
>)
    requires
        src_len >= REGION0_PREFIX_LEN ==> old(prefix)@.len() == REGION0_PREFIX_LEN,
    ensures
        if dst_exists {
            r == Err::<(), Error>(Error::DestinationExists) && final(prefix)@ == old(prefix)@
        } else {
            match migration_fault(src_len, old(prefix)@) {
                Some(e) => r == Err::<(), Error>(e) && final(prefix)@ == old(prefix)@,
                None => r == Ok::<(), Error>(()) && final(prefix)@ == migrated(old(prefix)@),
            }
        },
{
    if dst_exists {
        return Err(Error::DestinationExists);
    }
    if src_len < REGION0_PREFIX_LEN as u64 {
        return Err(Error::SourceTooSmall { len: src_len });
    }
    if prefix[0] != COMMITTED {
        return Err(Error::SourceNotCommitted);
    }
    if prefix[1] != 0 {
        return Err(Error::SourceNotChannel { raw: prefix[1] });
    }
    let probe = get_u16(prefix, 48);
    if probe != 0 {
        return Err(Error::SourceNotV2 { probe });
    }
    let length = get_u32(prefix, 4);
    let current = get_u16(prefix, 56);
    if length == CHANNEL_HEADER_SIZE as u32 && current != 0 {
        return Err(Error::SourceNotV2 { probe: current });
    }
    if length != 64 {
        return Err(Error::SourceRecordLength { found: length });
    }
    if get_u32(prefix, 40) == 0 {
        return Err(Error::SourceRegionSizeZero);
    }
    let ghost before = prefix@;
    let mut i: usize = 20;
    while i > 0
        invariant
            i <= 20,
            before.len() == REGION0_PREFIX_LEN,
            prefix@.len() == REGION0_PREFIX_LEN,
            forall|k: int| 0 <= k < 60 + i ==> prefix@[k] == before[k],
            forall|k: int| 60 + i <= k < 80 ==> prefix@[k] == before[k - 12],
        decreases i,
    {
        i = i - 1;
        prefix[60 + i] = prefix[48 + i];
    }
    put_u16(prefix, 48, MIGRATED_FORMAT_VERSION);
    prefix[50] = ENDIANNESS_LE;
    prefix[51] = SYSTEM_HEADER_SIZE;
    prefix[52] = USER_HEADER_SIZE;
    prefix[53] = 0;
    prefix[54] = 0;
    prefix[55] = 0;
    put_u32(prefix, 56, USER_HEADER_KIND_DEFAULT);
    assert(prefix@ =~= migrated(before));
    Ok(())
}

/// Migration touches the second half of the channel header only, and does not accept
/// what it has made.
pub proof fn law_migration_is_done_once(len: u64, p: Seq<u8>)
    requires
        p.len() == REGION0_PREFIX_LEN,
        migration_fault(len, p) is None,
    ensures
        migrated(p).len() == REGION0_PREFIX_LEN,
        forall|i: int| 0 <= i < 48 ==> migrated(p)[i] == p[i],
        migration_fault(len, migrated(p)) == Some(
            Error::SourceNotV2 { probe: MIGRATED_FORMAT_VERSION },
        ),
{
    let t = migrated(p);
    crate::bytes::lemma_le32_frame(p, t, 4);
    assert(t.subrange(48, 50) =~= crate::bytes::le16_bytes(MIGRATED_FORMAT_VERSION));
    crate::bytes::law_le16_round_trip(t, 48, MIGRATED_FORMAT_VERSION);
}

/// A segment that this library lays out is refused for its wire version, whatever its
/// region size.
pub proof fn law_current_segments_are_not_migrated(r: Seq<u8>, spec: SegmentSpec, len: u64)
    requires
        FIRST_SLOT + HEADER_SLOT <= r.len(),
        r.len() == spec.region_size <= u32::MAX,
        len >= REGION0_PREFIX_LEN,
    ensures
        migration_fault(len, prepared(r, spec).subrange(0, 80)) matches Some(
            Error::SourceNotV2 { .. },
        ),
{
    let s = prepared(r, spec);
    let p = s.subrange(0, 80);
    crate::segment::law_prepared_segment(r, spec);
    assert(forall|i: int| 0 <= i < 80 ==> s[i] == p[i]);
    crate::channel::lemma_header_frame(s, p, 0);
    crate::bytes::lemma_le16_frame(s, p, 56);
}

/// The segments to migrate of the channel at `base_name` to the one at `dst_base`, in
/// ascending order. A channel without segments is refused, and so is a destination that
/// has a segment already. `names` and `dst_names` are the files in the two directories.
pub fn migrate_channel_v2_to_v3(
    names: &Vec<String>,
    base_name: &str,
    dst_names: &Vec<String>,
    dst_base: &str,
) -> (r: Result<Vec<u64>, Error>)
    ensures
        ({
            let all = sequences_in(texts(names@), base_name@);
            if all.len() == 0 {
                r matches Err(e) && e == Error::NoChannelFiles
            } else if sequences_in(texts(dst_names@), dst_base@).len() > 0 {
                r matches Err(e) && e == Error::DestinationOccupied
            } else {
                r matches Ok(v) && ascending(v@) && v@.to_multiset() == all.to_multiset()
            }
        }),
{
    let v = find_all_sequences(names, base_name);
    let there = find_all_sequences(dst_names, dst_base);
    proof {
        v@.to_multiset_ensures();
        sequences_in(texts(names@), base_name@).to_multiset_ensures();
        there@.to_multiset_ensures();
        sequences_in(texts(dst_names@), dst_base@).to_multiset_ensures();
    }
    if v.len() == 0 {
        return Err(Error::NoChannelFiles);
    }
    if there.len() > 0 {
        return Err(Error::DestinationOccupied);
    }
    Ok(v)
}

} // verus!
