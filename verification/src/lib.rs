//! A deterministic, in-memory simulation of an `io_uring` instance and of the file system
//! behind it.
//!
//! # Simulation model
//!
//! A ring keeps its submission and completion queues in memory. Submitting the queue executes
//! each entry immediately, in submission order, and makes its completion available:
//!
//! * The **buffer** side of a `Read` or `Write` is the address carried by the submission
//!   entry, looked up in a [`mem::Memory`].
//! * The **file** side is resolved from the entry's descriptor to a file of a node of the
//!   simulated file system. Obtain such a descriptor from [`fs::File::as_raw_fd`].
//!
//! Completions become available in an order drawn from a [`rng::GlobalRng`], so that every
//! run with the same seed yields the same order. They are paired with their entries by user
//! data.
//!
//! Submission-queue back-pressure is modelled faithfully: [`squeue::SubmissionQueue::push`]
//! returns [`squeue::PushError`] once the queue is at capacity.
pub mod conduct;
pub mod cqueue;
pub mod error;
pub mod fs;
pub mod inode;
pub mod laws;
pub mod mem;
pub mod op;
pub mod opcode;
pub mod path;
pub mod power;
pub mod ring;
pub mod rng;
pub mod run;
pub mod squeue;
pub mod types;

pub use error::{Error, ErrorKind};
pub use op::{Target, UseFixed};
pub use ring::{Builder, IoUring, Submitter};
