//! A local command-queue daemon: the task model, the queue, the task
//! handler's scheduling decisions, the wire framing and the daemon's
//! request dispatch, each with a verified contract.
use vstd::prelude::*;

pub mod connection;
pub mod daemon;
pub mod frame;
pub mod handler;
pub mod message;
pub mod queue;
pub mod task;
pub mod text;

verus! {

} // verus!
