//! An in-memory, fixed-capacity byte channel (a pipe).
//!
//! One producer endpoint and one consumer endpoint share a bounded circular
//! byte buffer.  Bytes come out in the order they went in (FIFO); transfers
//! that do not fit complete partially.  Vectored (scatter/gather) transfers
//! run over several buffers in order and stop at the first partial one.
//!
//! The channel itself is a sequential, fully specified object.  A surrounding
//! runtime is expected to wrap it in its own locks and to supply blocking:
//! the `read_ready` / `write_ready` predicates say exactly when a caller that
//! wants to block may proceed, so a wait/wake layer can be built on top
//! without re-deriving any buffer logic.

pub mod model;
pub mod ring;
pub mod pipe;
pub mod laws;
