//! A bounded first-in, first-out event buffer that overwrites its oldest
//! entry when a write arrives at capacity.
//!
//! - [`buffer`] holds the buffer itself, [`CommandBuffer`].
//! - [`model`] says what each operation does to the sequence of held items.
//! - [`laws`] proves what follows for whole runs of writes and reads.
//! - [`console`] reads the lines of a small command console and takes the
//!   queued commands out for running.

pub mod buffer;
pub mod console;
pub mod laws;
pub mod model;

pub use buffer::CommandBuffer;
