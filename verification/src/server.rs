// SPDX-License-Identifier: Apache-2.0
//! Plugin side of the protocol: the control loop's state machine and the event
//! stream.
//!
//! A plugin implements [`CaptureServer`]. A [`Session`] takes each request as
//! it arrives and says what comes next: a reply to send, a handler to call, or
//! that there is nothing left to serve. Handlers run on the control loop in
//! arrival order, so they must return promptly; acquisition belongs on its own
//! thread, pushing through the events handle it was given. A plugin that
//! acquires inline cannot answer `AcquireStop`.

pub mod args;
pub mod events;
pub mod laws;
pub mod session;

pub use crate::server::args::{Args, USAGE};
pub use crate::server::events::{Events, StreamSender};
pub use crate::server::session::{
    hello_result, perform, respond, Call, CaptureServer, Outcome, Session, Step, Turn,
};
