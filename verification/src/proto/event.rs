// SPDX-License-Identifier: Apache-2.0
//! What travels on the event stream.

use vstd::prelude::*;

use crate::proto::{CaptureBegin, CaptureData, CaptureEnd, DeviceLost, Log, Status};

verus! {

#[derive(Debug, PartialEq)]
pub enum Event {
    CaptureBegin(CaptureBegin),
    Data(CaptureData),
    CaptureEnd(CaptureEnd),
    DeviceLost(DeviceLost),
    Log(Log),
    Status(Status),
}

impl Event {
    /// A capture is over once its end, or the loss of its device, is announced.
    pub open spec fn ends_capture(self) -> bool {
        self is CaptureEnd || self is DeviceLost
    }
}

} // verus!
