//! Sizes and positions: alignment, regions, segment lengths.
use vstd::prelude::*;

use crate::channel::{ALIGN, CHANNEL_HEADER_SIZE, HEADER_SLOT};
use crate::error::Error;

verus! {

/// The largest file offset that an operating system accepts.
pub const MAX_FILE_OFFSET: u64 = 0x7fff_ffff_ffff_ffff;

/// The smallest multiple of the header alignment that is at least `x`.
pub open spec fn align8(x: int) -> int {
    (x + 7) / 8 * 8
}

/// Rounds `x` up to the header alignment.
pub fn align_up(x: usize) -> (r: usize)
    requires
        x + 7 <= usize::MAX,
    ensures
        r == align8(x as int),
        r % ALIGN == 0,
        x <= r < x + ALIGN,
{
    (x + (ALIGN - 1)) / ALIGN * ALIGN
}

/// Rounds a file position up to the header alignment.
pub fn align_up_pos(x: u64) -> (r: u64)
    requires
        x + 7 <= u64::MAX,
    ensures
        r == align8(x as int),
        r % 8 == 0,
        x <= r < x + 8,
{
    (x + 7) / 8 * 8
}

/// Rounding up keeps multiples, never rounds down, moves by less than one
/// alignment, and commutes with adding a multiple.
pub proof fn law_align_up(x: int, m: int)
    requires
        m % 8 == 0,
    ensures
        align8(x) % 8 == 0,
        x <= align8(x) < x + 8,
        align8(m) == m,
        align8(m + x) == m + align8(x),
{
}

/// A position inside region `idx` splits into that index and its offset.
pub proof fn lemma_position(idx: int, off: int, size: int)
    requires
        0 <= off < size,
        0 <= idx,
    ensures
        (idx * size + off) / size == idx,
        (idx * size + off) % size == off,
        0 <= idx * size,
{
    vstd::arithmetic::div_mod::lemma_fundamental_div_mod_converse(idx * size + off, size, idx, off);
    vstd::arithmetic::mul::lemma_mul_nonnegative(idx, size);
}

/// A position is its region's start plus its offset there.
pub proof fn lemma_split(pos: int, size: int)
    requires
        0 <= pos,
        0 < size,
    ensures
        pos == pos / size * size + pos % size,
        0 <= pos % size < size,
        0 <= pos / size,
        0 <= pos / size * size <= pos,
{
    vstd::arithmetic::div_mod::lemma_fundamental_div_mod(pos, size);
    vstd::arithmetic::div_mod::lemma_div_pos_is_pos(pos, size);
    vstd::arithmetic::mul::lemma_mul_nonnegative(pos / size, size);
    vstd::arithmetic::mul::lemma_mul_is_commutative(pos / size, size);
}

/// The start of the region after `idx`.
pub proof fn lemma_next_region(idx: int, size: int)
    ensures
        (idx + 1) * size == idx * size + size,
        (idx + 2) * size == idx * size + 2 * size,
{
    vstd::arithmetic::mul::lemma_mul_is_distributive_add_other_way(size, idx, 1);
    vstd::arithmetic::mul::lemma_mul_is_distributive_add_other_way(size, idx, 2);
}

/// A multiple of a multiple of the alignment is aligned.
pub proof fn lemma_region_start_aligned(idx: int, size: int)
    requires
        size % 8 == 0,
    ensures
        (idx * size) % 8 == 0,
{
    let k = size / 8;
    assert(idx * size == (idx * k) * 8) by (nonlinear_arith)
        requires
            size == k * 8,
    ;
}

/// Why a roll size cannot be turned into a segment length, if it cannot.
pub open spec fn preallocation(region_size: usize, file_roll_size: u64) -> Result<u64, Error> {
    let size = region_size as u64;
    let rem = file_roll_size % size;
    let len = if rem == 0 {
        file_roll_size as int
    } else {
        file_roll_size + size - rem
    };
    if file_roll_size == 0 {
        Ok(size)
    } else if len > u64::MAX {
        Err(Error::RollSizeOverflow { file_roll_size, region_size })
    } else if len > MAX_FILE_OFFSET {
        Err(Error::RollSizePastOffsetLimit { file_roll_size, len: len as u64 })
    } else {
        Ok(len as u64)
    }
}

/// The length that a fresh segment is born with: the roll size rounded up to
/// whole regions, or one region where files do not roll.
pub fn preallocation_len(region_size: usize, file_roll_size: u64) -> (r: Result<u64, Error>)
    requires
        region_size > 0,
    ensures
        r == preallocation(region_size, file_roll_size),
{
    if file_roll_size == 0 {
        return Ok(region_size as u64);
    }
    let size = region_size as u64;
    let rem = file_roll_size % size;
    let len: u64 = if rem == 0 {
        file_roll_size
    } else {
        match file_roll_size.checked_add(size - rem) {
            Some(len) => len,
            None => {
                return Err(Error::RollSizeOverflow { file_roll_size, region_size });
            },
        }
    };
    if len > MAX_FILE_OFFSET {
        return Err(Error::RollSizePastOffsetLimit { file_roll_size, len });
    }
    Ok(len)
}

/// A segment is born with whole regions, with room for the roll size, and with
/// less than one region to spare.
pub proof fn law_preallocation(region_size: usize, file_roll_size: u64)
    requires
        region_size > 0,
    ensures
        preallocation(region_size, file_roll_size) matches Ok(len) ==> {
            &&& len as int % region_size as int == 0
            &&& file_roll_size <= len
            &&& len - region_size < file_roll_size || (file_roll_size == 0 && len == region_size)
        },
{
    let size = region_size as u64;
    let rem = file_roll_size % size;
    if preallocation(region_size, file_roll_size) is Ok {
        let len = preallocation(region_size, file_roll_size)->Ok_0;
        let roll = file_roll_size as int;
        let s = region_size as int;
        vstd::arithmetic::div_mod::lemma_fundamental_div_mod(roll, s);
        if file_roll_size == 0 {
            vstd::arithmetic::div_mod::lemma_mod_self_0(s);
        } else if rem != 0 {
            let q = roll / s;
            assert(len == s * q + s);
            assert(s * q + s == (q + 1) * s) by (nonlinear_arith);
            vstd::arithmetic::div_mod::lemma_mod_multiples_basic(q + 1, s);
        }
    }
}

/// What is wrong with a region size, if anything.
pub open spec fn geometry_fault(region_size: usize, page: usize) -> Option<Error> {
    if region_size % page != 0 {
        Some(Error::RegionNotPageMultiple { region_size, page })
    } else if region_size % ALIGN != 0 {
        Some(Error::RegionNotAligned { region_size })
    } else if region_size < HEADER_SLOT + CHANNEL_HEADER_SIZE {
        Some(Error::RegionTooSmall { region_size })
    } else if region_size > u32::MAX {
        Some(Error::RegionTooLarge)
    } else {
        None
    }
}

/// Checks that a channel can have regions of `region_size` bytes on a system with
/// pages of `page` bytes.
pub fn check_geometry(region_size: usize, page: usize) -> (r: Result<(), Error>)
    requires
        page > 0,
    ensures
        match r {
            Ok(_) => geometry_fault(region_size, page) is None,
            Err(e) => geometry_fault(region_size, page) == Some(e),
        },
{
    if region_size % page != 0 {
        return Err(Error::RegionNotPageMultiple { region_size, page });
    }
    if region_size % ALIGN != 0 {
        return Err(Error::RegionNotAligned { region_size });
    }
    if region_size < HEADER_SLOT + CHANNEL_HEADER_SIZE {
        return Err(Error::RegionTooSmall { region_size });
    }
    if region_size as u64 > u32::MAX as u64 {
        return Err(Error::RegionTooLarge);
    }
    Ok(())
}

} // verus!
