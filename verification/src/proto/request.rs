// SPDX-License-Identifier: Apache-2.0
//! What a frontend asks for.

use vstd::prelude::*;

use crate::proto::{
    AcquireStart, AcquireStop, Describe, GetConfig, Hello, Reset, SetConfig, Shutdown,
};

verus! {

#[derive(Debug, Clone, PartialEq)]
pub enum Request {
    Hello(Hello),
    Describe(Describe),
    GetConfig(GetConfig),
    SetConfig(SetConfig),
    AcquireStart(AcquireStart),
    AcquireStop(AcquireStop),
    Reset(Reset),
    Shutdown(Shutdown),
}

} // verus!
