//! What a channel's ends are opened with.
use vstd::prelude::*;

use crate::channel::CHANNEL_NAME_MAX;
use crate::error::Error;
use crate::segment::SegmentSpec;

verus! {

/// How a channel is opened for writing. `P` is the caller's type of path.
#[derive(Clone, Debug)]
pub struct WriterBuilder<P> {
    pub path: P,
    pub region_size: usize,
    pub file_roll_size: u64,
    pub mtu: u64,
    pub keep_files: Option<u64>,
    pub channel_name: [u8; CHANNEL_NAME_MAX],
    pub base_record_index: u64,
    pub generation: u64,
}

/// `name` in a name field: followed by zero bytes.
pub open spec fn padded(name: Seq<u8>) -> Seq<u8> {
    Seq::new(
        CHANNEL_NAME_MAX as nat,
        |i: int|
            if i < name.len() {
                name[i]
            } else {
                0u8
            },
    )
}

/// The least roll size that is not zero.
pub open spec fn two_regions(region_size: usize) -> u64 {
    if 2 * region_size > u64::MAX {
        u64::MAX
    } else {
        (2 * region_size) as u64
    }
}

impl<P> WriterBuilder<P> {
    /// A channel at `path` with regions of 1 MiB, without rolling, without an MTU,
    /// without a name, with all segments kept, starting at record 0 of incarnation 0.
    pub fn new(path: P) -> (b: Self)
        ensures
            b.path == path,
            b.region_size == 1048576,
            b.file_roll_size == 0,
            b.mtu == 0,
            b.keep_files is None,
            b.channel_name@ == padded(seq![]),
            b.base_record_index == 0,
            b.generation == 0,
    {
        let channel_name: [u8; CHANNEL_NAME_MAX] = [0;CHANNEL_NAME_MAX];
        assert(channel_name@ =~= padded(seq![]));
        WriterBuilder {
            path,
            region_size: 1048576,
            file_roll_size: 0,
            mtu: 0,
            keep_files: None,
            channel_name,
            base_record_index: 0,
            generation: 0,
        }
    }

    /// Stamps an incarnation id into every segment. Used only when the channel is
    /// created: an existing channel keeps the id that it was created with.
    pub fn generation(self, generation: u64) -> (b: Self)
        ensures
            b == (Self { generation, ..self }),
    {
        Self { generation, ..self }
    }

    /// Sets the absolute index of the first record. Used only when the channel is
    /// created: an existing channel keeps its numbering.
    pub fn base_record_index(self, base: u64) -> (b: Self)
        ensures
            b == (Self { base_record_index: base, ..self }),
    {
        Self { base_record_index: base, ..self }
    }

    /// Sets the region size in bytes.
    pub fn region_size(self, region_size: usize) -> (b: Self)
        ensures
            b == (Self { region_size, ..self }),
    {
        Self { region_size, ..self }
    }

    /// Sets the bytes after which a segment is rolled; 0 disables rolling. Any other
    /// size must span at least two regions and be a file offset once it is rounded up
    /// to whole regions.
    pub fn file_roll_size(self, file_roll_size: u64) -> (b: Self)
        ensures
            b == (Self { file_roll_size, ..self }),
    {
        Self { file_roll_size, ..self }
    }

    /// Sets the maximum payload size; 0 is unlimited.
    pub fn mtu(self, mtu: u64) -> (b: Self)
        ensures
            b == (Self { mtu, ..self }),
    {
        Self { mtu, ..self }
    }

    /// Sets the channel name. A name of more than [`CHANNEL_NAME_MAX`] bytes is
    /// refused.
    pub fn channel_name(self, name: &str) -> (r: Result<Self, Error>)
        ensures
            ({
                let bytes = vstd::utf8::encode_utf8(name@);
                if bytes.len() > CHANNEL_NAME_MAX {
                    r == Err::<Self, Error>(
                        Error::ChannelNameTooLong { len: bytes.len() as usize },
                    )
                } else {
                    r matches Ok(b) && b == (Self { channel_name: b.channel_name, ..self })
                        && b.channel_name@ == padded(bytes)
                }
            }),
    {
        let bytes = name.as_bytes();
        if bytes.len() > CHANNEL_NAME_MAX {
            return Err(Error::ChannelNameTooLong { len: bytes.len() });
        }
        let mut channel_name: [u8; CHANNEL_NAME_MAX] = [0;CHANNEL_NAME_MAX];
        let mut i: usize = 0;
        while i < bytes.len()
            invariant
                i <= bytes@.len() <= CHANNEL_NAME_MAX,
                forall|k: int| 0 <= k < i ==> channel_name@[k] == bytes@[k],
                forall|k: int| i <= k < CHANNEL_NAME_MAX ==> channel_name@[k] == 0,
            decreases bytes@.len() - i,
        {
            channel_name[i] = bytes[i];
            i = i + 1;
        }
        assert(channel_name@ =~= padded(bytes@));
        Ok(Self { channel_name, ..self })
    }

    /// Keeps at most `n` segments: the current one and `n - 1` before it.
    pub fn keep_files(self, n: u64) -> (b: Self)
        requires
            n >= 1,
        ensures
            b == (Self { keep_files: Some(n), ..self }),
    {
        Self { keep_files: Some(n), ..self }
    }

    /// Why a channel cannot be opened with these settings, if it cannot.
    pub open spec fn fault(self) -> Option<Error> {
        if self.file_roll_size != 0 && self.file_roll_size < two_regions(self.region_size) {
            Some(
                Error::RollSizeBelowTwoRegions {
                    file_roll_size: self.file_roll_size,
                    minimum: two_regions(self.region_size),
                },
            )
        } else {
            None
        }
    }

    /// Accepts the settings: a roll size that is not zero must span two regions,
    /// because the head of region 0 holds the channel header, so that one region
    /// alone could not hold a record of full size.
    pub fn build(self) -> (r: Result<WriterPlan<P>, Error>)
        ensures
            match self.fault() {
                Some(e) => r == Err::<WriterPlan<P>, Error>(e),
                None => r == Ok::<WriterPlan<P>, Error>(WriterPlan { settings: self }),
            },
    {
        let minimum: u64 = if self.region_size as u64 > u64::MAX / 2 {
            u64::MAX
        } else {
            2 * self.region_size as u64
        };
        if self.file_roll_size != 0 && self.file_roll_size < minimum {
            return Err(
                Error::RollSizeBelowTwoRegions { file_roll_size: self.file_roll_size, minimum },
            );
        }
        Ok(WriterPlan { settings: self })
    }
}

/// Accepted settings of a writer.
#[derive(Clone, Debug)]
pub struct WriterPlan<P> {
    pub settings: WriterBuilder<P>,
}

impl<P> WriterPlan<P> {
    /// What a fresh segment at `sequence` is to say of itself.
    pub open spec fn spec_segment(self, sequence: u64) -> SegmentSpec {
        SegmentSpec {
            sequence,
            region_size: self.settings.region_size,
            mtu: self.settings.mtu,
            channel_name: self.settings.channel_name,
            base_record_index: self.settings.base_record_index,
            generation: self.settings.generation,
        }
    }

    /// What a fresh segment at `sequence` is to say of itself.
    pub fn segment(&self, sequence: u64) -> (s: SegmentSpec)
        ensures
            s == self.spec_segment(sequence),
    {
        SegmentSpec {
            sequence,
            region_size: self.settings.region_size,
            mtu: self.settings.mtu,
            channel_name: self.settings.channel_name,
            base_record_index: self.settings.base_record_index,
            generation: self.settings.generation,
        }
    }
}

/// Where a reader starts.
#[derive(Debug, Clone, Copy, PartialEq, Eq, Structural)]
pub enum ReaderMode {
    /// At the beginning of the earliest segment.
    LateJoin,
    /// At the end of the latest segment.
    Live,
}

/// How a channel is opened for reading. `P` is the caller's type of path.
#[derive(Clone, Debug)]
pub struct ReaderBuilder<P> {
    pub path: P,
    pub mode: ReaderMode,
    pub batch_limit: Option<u16>,
}

impl<P> ReaderBuilder<P> {
    /// A reader that starts at the beginning and reads batches of any size.
    pub fn new(path: P) -> (b: Self)
        ensures
            b == (Self { path, mode: ReaderMode::LateJoin, batch_limit: None }),
    {
        ReaderBuilder { path, mode: ReaderMode::LateJoin, batch_limit: None }
    }

    /// Sets where the reader starts.
    pub fn mode(self, mode: ReaderMode) -> (b: Self)
        ensures
            b == (Self { mode, ..self }),
    {
        Self { mode, ..self }
    }

    /// Starts at the end of the latest segment.
    pub fn live(self) -> (b: Self)
        ensures
            b == (Self { mode: ReaderMode::Live, ..self }),
    {
        Self { mode: ReaderMode::Live, ..self }
    }

    /// Starts at the beginning of the earliest segment.
    pub fn late_join(self) -> (b: Self)
        ensures
            b == (Self { mode: ReaderMode::LateJoin, ..self }),
    {
        Self { mode: ReaderMode::LateJoin, ..self }
    }

    /// Sets how many messages a batch holds at most where the read does not say.
    pub fn batch_limit(self, limit: u16) -> (b: Self)
        ensures
            b == (Self { batch_limit: Some(limit), ..self }),
    {
        Self { batch_limit: Some(limit), ..self }
    }
}

} // verus!
