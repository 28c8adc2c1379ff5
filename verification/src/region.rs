//! Regions: the windows through which a segment is seen.
use vstd::prelude::*;

use crate::error::Error;

verus! {

broadcast use vstd::slice::group_slice_axioms;

/// A mapped region. `Mode` is the caller's handle of the mapped memory.
#[derive(Debug)]
pub struct RegionMapping<Mode> {
    /// The handle of the mapped memory.
    pub mmap: Mode,
    /// Region offset from the beginning of the file.
    pub region_offset: u64,
    /// Region size in bytes.
    pub region_size: usize,
}

impl<Mode> RegionMapping<Mode> {
    /// The mapping `mmap` of the `region_size` bytes at `region_offset`.
    pub fn new(mmap: Mode, region_offset: u64, region_size: usize) -> (m: Self)
        ensures
            m == (RegionMapping { mmap, region_offset, region_size }),
    {
        RegionMapping { mmap, region_offset, region_size }
    }

    /// Region offset from the beginning of the file.
    pub fn region_offset(&self) -> (offset: u64)
        ensures
            offset == self.region_offset,
    {
        self.region_offset
    }

    /// Region size in bytes.
    pub fn region_size(&self) -> (size: usize)
        ensures
            size == self.region_size,
    {
        self.region_size
    }
}

/// The file length that holds the `region_size` bytes at `base_offset`.
pub fn required_len(base_offset: u64, region_size: usize) -> (len: u64)
    requires
        base_offset + region_size <= u64::MAX,
    ensures
        len == base_offset + region_size,
{
    base_offset + region_size as u64
}

/// The page size, given what the operating system reports: 4096 where it reports
/// none.
pub fn page_size(reported: i64) -> (page: usize)
    requires
        reported <= usize::MAX,
    ensures
        page == if reported > 0 {
            reported as int
        } else {
            4096
        },
        page > 0,
{
    if reported > 0 {
        reported as usize
    } else {
        4096
    }
}

/// Why the `region_size` bytes at `base_offset` cannot be mapped, if they cannot.
pub open spec fn alignment_fault(base_offset: u64, region_size: usize, page: usize) -> Option<
    Error,
> {
    if region_size == 0 {
        Some(Error::RegionSizeZero)
    } else if region_size % page != 0 {
        Some(Error::RegionNotPageMultiple { region_size, page })
    } else if base_offset as int % page as int != 0 {
        Some(Error::OffsetNotPageAligned { base_offset, page })
    } else {
        None
    }
}

/// Checks that the `region_size` bytes at `base_offset` can be mapped on a system
/// with pages of `page` bytes.
pub fn check_alignment(base_offset: u64, region_size: usize, page: usize) -> (r: Result<(), Error>)
    requires
        page > 0,
    ensures
        match r {
            Ok(_) => alignment_fault(base_offset, region_size, page) is None,
            Err(e) => alignment_fault(base_offset, region_size, page) == Some(e),
        },
{
    if region_size == 0 {
        return Err(Error::RegionSizeZero);
    }
    if region_size % page != 0 {
        return Err(Error::RegionNotPageMultiple { region_size, page });
    }
    if base_offset % page as u64 != 0 {
        return Err(Error::OffsetNotPageAligned { base_offset, page });
    }
    Ok(())
}

/// The `len` bytes of a region from `offset` on, if the region has them.
pub fn get_bytes_mut(region: &mut [u8], offset: usize, len: usize) -> (r: Option<&mut [u8]>)
    ensures
        match r {
            Some(bytes) => {
                &&& offset + len <= old(region)@.len()
                &&& bytes@ == old(region)@.subrange(offset as int, offset + len)
                &&& final(bytes)@.len() == len ==> final(region)@ == crate::bytes::put(
                    old(region)@,
                    offset as int,
                    final(bytes)@,
                )
            },
            None => offset + len > old(region)@.len() && final(region)@ == old(region)@,
        },
{
    let size = region.len();
    match offset.checked_add(len) {
        None => None,
        Some(end) => {
            if end > size {
                return None;
            }
            let ghost before = region@;
            let (head, rest) = region.split_at_mut(offset);
            let (bytes, tail) = rest.split_at_mut(len);
            assert(bytes@ =~= before.subrange(offset as int, offset + len));
            proof {
                assert(head@ == final(head)@);
                assert(tail@ == final(tail)@);
                assert(final(bytes)@.len() == len ==> head@ + (final(bytes)@ + tail@)
                    =~= crate::bytes::put(before, offset as int, final(bytes)@));
            }
            Some(bytes)
        },
    }
}

} // verus!
