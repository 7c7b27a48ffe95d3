// SPDX-License-Identifier: Apache-2.0
//! What a plugin answers, one arm for each request.

use vstd::prelude::*;

use crate::proto::request;
use crate::proto::{Config, Description, Empty, HelloResult};

verus! {

#[derive(Debug, Clone, PartialEq)]
pub enum Response {
    Hello(HelloResult),
    Describe(Description),
    GetConfig(Config),
    SetConfig(Config),
    AcquireStart(Empty),
    AcquireStop(Empty),
    Reset(Empty),
    Shutdown(Empty),
}

impl Response {
    /// This is the arm that answers `request`. Every request has exactly one.
    pub open spec fn answers(self, request: request::Request) -> bool {
        match request {
            request::Request::Hello(_) => self is Hello,
            request::Request::Describe(_) => self is Describe,
            request::Request::GetConfig(_) => self is GetConfig,
            request::Request::SetConfig(_) => self is SetConfig,
            request::Request::AcquireStart(_) => self is AcquireStart,
            request::Request::AcquireStop(_) => self is AcquireStop,
            request::Request::Reset(_) => self is Reset,
            request::Request::Shutdown(_) => self is Shutdown,
        }
    }

    /// The name of the arm.
    #[verifier::allow_in_spec]
    pub fn arm_name(&self) -> &'static str
        returns
            (match *self {
                Response::Hello(_) => "Hello",
                Response::Describe(_) => "Describe",
                Response::GetConfig(_) => "GetConfig",
                Response::SetConfig(_) => "SetConfig",
                Response::AcquireStart(_) => "AcquireStart",
                Response::AcquireStop(_) => "AcquireStop",
                Response::Reset(_) => "Reset",
                Response::Shutdown(_) => "Shutdown",
            }),
    {
        match self {
            Response::Hello(_) => "Hello",
            Response::Describe(_) => "Describe",
            Response::GetConfig(_) => "GetConfig",
            Response::SetConfig(_) => "SetConfig",
            Response::AcquireStart(_) => "AcquireStart",
            Response::AcquireStop(_) => "AcquireStop",
            Response::Reset(_) => "Reset",
            Response::Shutdown(_) => "Shutdown",
        }
    }
}

} // verus!
