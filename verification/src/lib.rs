// SPDX-License-Identifier: Apache-2.0
//! OpenMSO Capture Protocol v1.
//!
//! The message types live in [`proto`]; [`server`] and [`client`] are the two
//! ends of the protocol as state machines: they decide, and the program around
//! them owns the sockets.

pub mod client;
pub mod encoding;
pub mod error;
pub mod framing;
pub mod json;
pub mod manifest;
pub mod path;
pub mod payload;
pub mod proto;
pub mod server;
pub mod text;
pub mod transport;

pub use crate::error::{Error, IoError, IoErrorKind, NngError, NngErrorKind};

use vstd::prelude::*;

verus! {

/// Major version of the protocol that this crate speaks.
pub const PROTOCOL_VERSION: u32 = 1;

/// What a plugin's request handlers return: the error arm is the `Error`
/// message that goes on the wire verbatim.
pub type Reply<T> = std::result::Result<T, proto::Error>;

} // verus!
