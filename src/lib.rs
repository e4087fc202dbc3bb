//! A buffered writer for a file descriptor.
//!
//! Bytes are gathered in a fixed-size buffer and handed out as chunks to be
//! written to the descriptor: when the buffer fills, when what is buffered ends
//! in a newline, on an explicit flush, and when the writer is finished.
//! The writer itself performs no I/O; each operation returns the chunks that
//! the caller must write, in order, with one write call per chunk.

pub mod model;
pub mod writer;
pub mod laws;

pub use model::BUFFER_CAPACITY;
pub use writer::FdWriter;
