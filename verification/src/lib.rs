//! A small job server: a length-prefixed wire format for its messages, the
//! read buffer that splits a byte stream into frames, the shared job queue
//! that feeds the workers, and the decisions the server makes around them.
use vstd::prelude::*;

pub mod connection;
pub mod ingress;
pub mod message;
pub mod thread_pool;
pub mod worker_pool;

pub use message::{SubmitJob, SubmitJobKind};

verus! {

/// The TCP port the server listens on unless told otherwise.
pub const DEFAULT_PORT: u16 = 8888;

} // verus!
