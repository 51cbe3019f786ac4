//! Parser for the unified diff text format.
//!
//! A diff is read from a sequence of lines whose line terminators have
//! already been removed: two header lines naming the compared files and
//! their modification times, followed by any number of hunks.

pub mod chunk;
pub mod diff;
pub mod error;
pub mod header;
pub mod line;
pub mod number;
pub mod text;
pub mod timestamp;

pub use chunk::DiffChunk;
pub use diff::Unidiff;
pub use error::{Error, ErrorKind};
pub use header::DiffHeader;
pub use line::LineAction;
pub use timestamp::Timestamp;
