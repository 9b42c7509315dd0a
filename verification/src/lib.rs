//! An Immix-family garbage-collector core with reference counting.
//!
//! The collector state lives in side tables indexed by heap position:
//! per-object reference counts, per-block states, per-line marks, and
//! per-edge log and lock bits. Every operation on that state is a
//! verified function with a contract describing exactly how the tables
//! change.

pub mod address;
pub mod barrier;
pub mod block;
pub mod closure;
pub mod defrag;
pub mod forwarding;
pub mod line;
pub mod malloc;
pub mod memory;
pub mod meta;
pub mod pageresource;
pub mod plan;
pub mod predictor;
pub mod queue;
pub mod rc;
pub mod rcwork;
pub mod scheduler;
pub mod space;
pub mod trace;

use vstd::prelude::*;

verus! {

/// Log2 of the bytes in a block.
pub const LOG_BYTES_IN_BLOCK: usize = 15;
/// Bytes in a block.
pub const BYTES_IN_BLOCK: usize = 32768;
/// Log2 of the bytes in a line.
pub const LOG_BYTES_IN_LINE: usize = 8;
/// Bytes in a line.
pub const BYTES_IN_LINE: usize = 256;
/// Log2 of the lines in a block.
pub const LOG_LINES_IN_BLOCK: usize = 7;
/// Lines in a block.
pub const LINES_IN_BLOCK: usize = 128;
/// Log2 of the bytes in a word; the reference-count granularity.
pub const LOG_BYTES_IN_WORD: usize = 3;
/// Bytes in a word.
pub const BYTES_IN_WORD: usize = 8;
/// Log2 of the bytes in a page.
pub const LOG_BYTES_IN_PAGE: usize = 12;
/// Pages in a block.
pub const PAGES_IN_BLOCK: usize = 8;
/// Log2 of the bytes in a chunk, the unit of mapping.
pub const LOG_BYTES_IN_CHUNK: usize = 22;
/// Bytes in a chunk.
pub const BYTES_IN_CHUNK: usize = 4194304;
/// Blocks in a chunk.
pub const BLOCKS_IN_CHUNK: usize = 128;
/// Words in a block.
pub const WORDS_IN_BLOCK: usize = 4096;
/// Words in a line.
pub const WORDS_IN_LINE: usize = 32;

} // verus!
