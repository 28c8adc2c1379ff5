//! Messages as readers hand them out.
use vstd::prelude::*;
use vstd::slice::slice_subrange;

use crate::channel::{header_at, MessageHeader, HEADER_SLOT};
use crate::log::{record_at, Record};

verus! {

broadcast use vstd::slice::group_slice_axioms;

/// Borrowed view of a message: the region that it stands in, and where.
#[derive(Debug, Clone, Copy)]
pub struct MessageRef<'a> {
    /// The bytes of the region.
    pub mapping: &'a [u8],
    /// Offset of the message's header.
    pub header_offset: usize,
    /// Payload length in bytes.
    pub payload_len: usize,
}

impl<'a> MessageRef<'a> {
    /// The header and the payload stand inside the region.
    pub open spec fn wf(self) -> bool {
        self.header_offset + HEADER_SLOT + self.payload_len <= self.mapping@.len()
    }

    /// This is a view of the message `record`.
    pub open spec fn shows(self, record: Record) -> bool {
        &&& self.wf()
        &&& self.payload_len == header_at(self.mapping@, self.header_offset as int).length
        &&& record_at(self.mapping@, self.header_offset as int) == record
    }

    /// The header of the message.
    pub fn header(&self) -> (h: MessageHeader)
        requires
            self.wf(),
        ensures
            h == header_at(self.mapping@, self.header_offset as int),
    {
        assert(self.header_offset + HEADER_SLOT <= self.mapping.len());
        MessageHeader::read(self.mapping, self.header_offset)
    }

    /// The payload of the message.
    pub fn payload(&self) -> (p: &'a [u8])
        requires
            self.wf(),
        ensures
            p@ == self.mapping@.subrange(
                self.header_offset + HEADER_SLOT,
                self.header_offset + HEADER_SLOT + self.payload_len,
            ),
    {
        assert(self.header_offset + HEADER_SLOT + self.payload_len <= self.mapping.len());
        let start = self.header_offset + HEADER_SLOT;
        slice_subrange(self.mapping, start, start + self.payload_len)
    }

    /// Payload length in bytes.
    pub fn len(&self) -> (n: usize)
        ensures
            n == self.payload_len,
    {
        self.payload_len
    }
}

/// What the next message says about itself, read without taking it.
#[derive(Debug, Clone, Copy, PartialEq, Eq, Structural)]
pub struct PeekedHeader {
    /// The producer's record kind.
    pub message_type: u16,
    /// The producer's eight opaque bytes.
    pub user_meta_u64: u64,
    /// Payload length in bytes.
    pub length: u32,
}

/// A message that owns a share of the region it stands in. `M` is the caller's handle
/// of mapped memory; whoever holds a handle keeps the memory mapped.
#[derive(Debug)]
pub struct OwnedMessage<M> {
    /// A share of the region.
    pub region: M,
    /// Offset of the message's header.
    pub header_offset: usize,
    /// Payload length in bytes.
    pub payload_len: usize,
}

impl<M> OwnedMessage<M> {
    /// The header and the payload stand inside a region of `len` bytes.
    pub open spec fn fits(self, len: nat) -> bool {
        self.header_offset + HEADER_SLOT + self.payload_len <= len
    }

    /// This is the message `record` of a region with bytes `bytes`.
    pub open spec fn shows(self, bytes: Seq<u8>, record: Record) -> bool {
        &&& self.fits(bytes.len())
        &&& self.payload_len == header_at(bytes, self.header_offset as int).length
        &&& record_at(bytes, self.header_offset as int) == record
    }

    /// Borrowed view of the message, given the bytes of its region.
    pub fn as_ref<'a>(&self, bytes: &'a [u8]) -> (m: MessageRef<'a>)
        ensures
            m.mapping@ == bytes@,
            m.header_offset == self.header_offset,
            m.payload_len == self.payload_len,
            self.fits(bytes@.len()) ==> m.wf(),
    {
        MessageRef {
            mapping: bytes,
            header_offset: self.header_offset,
            payload_len: self.payload_len,
        }
    }

    /// The header of the message, given the bytes of its region.
    pub fn header(&self, bytes: &[u8]) -> (h: MessageHeader)
        requires
            self.fits(bytes@.len()),
        ensures
            h == header_at(bytes@, self.header_offset as int),
    {
        self.as_ref(bytes).header()
    }

    /// The payload of the message, given the bytes of its region.
    pub fn payload<'a>(&self, bytes: &'a [u8]) -> (p: &'a [u8])
        requires
            self.fits(bytes@.len()),
        ensures
            p@ == bytes@.subrange(
                self.header_offset + HEADER_SLOT,
                self.header_offset + HEADER_SLOT + self.payload_len,
            ),
    {
        self.as_ref(bytes).payload()
    }

    /// Payload length in bytes.
    pub fn len(&self) -> (n: usize)
        ensures
            n == self.payload_len,
    {
        self.payload_len
    }
}

} // verus!
