//! Append-only channels over rolling, region-structured segment files.
//!
//! A channel is a series of segment files. A segment is a series of regions of equal
//! size. A region is a series of records, each behind a 16-byte header whose commit
//! flag publishes it. One writer appends; any number of readers walk from record to
//! record.
//!
//! The library does no input or output. Every step is handed the bytes of the regions
//! that it works on, and says what is to be done outside: map a region, grow a file,
//! lay out a segment, rename it, remove it, sleep.
#![allow(unused_imports)]

pub mod batch;
pub mod batch_laws;
pub mod builder;
pub mod bytes;
pub mod calls_batch;
pub mod calls_channel;
pub mod calls_errors;
pub mod calls_files;
pub mod calls_format;
pub mod calls_open;
pub mod calls_reader;
pub mod calls_writer;
pub mod channel;
pub mod error;
pub mod layout;
pub mod log;
pub mod message;
pub mod migrate;
pub mod names;
pub mod reader;
pub mod reader_laws;
pub mod region;
pub mod segment;
pub mod tally;
pub mod text;
pub mod wait;
pub mod writer;
pub mod writer_laws;

pub use crate::batch::{BatchScan, BatchStep, Drain, MessageBatch};
pub use crate::builder::{ReaderBuilder, ReaderMode, WriterBuilder, WriterPlan};
pub use crate::channel::{ChannelHeader, HeaderType, MessageHeader, CHANNEL_NAME_MAX};
pub use crate::error::{Error, ErrorKind};
pub use crate::message::{MessageRef, OwnedMessage, PeekedHeader};
pub use crate::reader::{Outcome, Reader};
pub use crate::region::{page_size, RegionMapping};
pub use crate::tally::Tally;
pub use crate::writer::{Reserve, Writer, WriterState};
