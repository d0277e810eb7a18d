//! A single-process dataflow pipeline runtime with a transactional ordered
//! key-value storage engine underneath it.
//!
//! The crate has two halves. The storage half ([`storage`], [`keys`],
//! [`set`], [`checkpoint`]) is an ordered map over byte-encoded keys with
//! snapshot reads, a single serialized writer, and a checkpoint protocol
//! that persists stage state and source position atomically together. The
//! runtime half ([`dag`], [`channel`], [`node`], [`executor`], [`sample`])
//! builds an execution plan out of a stage/edge declaration, moves messages
//! ([`types`]) over bounded FIFO channels, and drives source, processor and
//! sink stages. Connector configuration records and their summary tables
//! live in [`config`].

pub mod channel;
pub mod checkpoint;
pub mod config;
pub mod dag;
pub mod executor;
pub mod node;
pub mod sample;
pub mod keys;
pub mod set;
pub mod storage;
pub mod types;

use vstd::prelude::*;

verus! {

/// Largest sequence number the checkpoint protocol will record; one is
/// added to it on resumption, so the very last value is kept out.
pub const MAX_SEQUENCE: u64 = 0xFFFF_FFFF_FFFF_FFFE;

} // verus!
