// SPDX-License-Identifier: Apache-2.0
//! The control loop's state machine: what a request is answered, and when a
//! handler of the plugin is called for it.

use vstd::prelude::*;
use vstd::string::*;

use crate::encoding;
use crate::encoding::{negotiate_codecs, negotiate_encodings, CODECS, ENCODINGS};
use crate::error::{Error, NngError, NngErrorKind};
use crate::proto;
use crate::proto::request;
use crate::proto::response;
use crate::proto::{
    AcquireStart, AcquireStop, Capabilities, Codec, Config, Description, DeviceInfo, Empty,
    ErrorCode, Hello, HelloResult, PluginInfo, Request, Response, SampleEncoding,
};
use crate::server::events::Events;
use crate::{Reply, PROTOCOL_VERSION};

verus! {

/// The handlers of a plugin. The error arm of each is the `Error` message that
/// goes on the wire verbatim.
pub trait CaptureServer {
    /// The handle through which the plugin pushes events, shared with its
    /// acquisition threads.
    type Stream;

    /// Connect to the device named by `--device` and report what it turned out
    /// to be. The negotiated encodings and codecs in the result must be an
    /// intersection of `req.accept_*` and what this plugin can produce; see
    /// [`crate::encoding::negotiate_encodings`].
    fn hello(&mut self, req: &Hello, stream: &Self::Stream) -> Reply<HelloResult>;

    fn describe(&mut self) -> Reply<Description>;

    fn get_config(&mut self) -> Reply<Config>;

    /// Apply the fields present in `config` and report what the device settled
    /// on, which may differ where it snapped a value to a legal step.
    fn set_config(&mut self, config: &Config) -> Reply<Config>;

    /// Start acquiring and return; the work belongs on a thread pushing to
    /// `stream`.
    fn acquire_start(&mut self, req: &AcquireStart, stream: &Self::Stream) -> Reply<()>;

    /// Ask a running acquisition to wind up. `CaptureEnd` still follows on the
    /// event stream.
    fn acquire_stop(&mut self, req: &AcquireStop) -> Reply<()>;

    /// Abandon any acquisition and discard buffered data. A plugin with nothing
    /// to abandon leaves this as it is.
    fn reset(&mut self) -> (r: Reply<()>)
        default_ensures
            r == Ok::<(), proto::Error>(()),
    {
        Ok(())
    }

    /// Called after the `Shutdown` reply is sent, before the process exits.
    fn shutdown(&mut self) {
    }
}

/// A handler to call, with what it is handed.
#[derive(Debug)]
pub enum Call {
    Hello(Hello),
    Describe,
    GetConfig,
    SetConfig(Config),
    AcquireStart(AcquireStart),
    AcquireStop(AcquireStop),
    Reset,
}

/// What a handler returned.
#[derive(Debug)]
pub enum Outcome {
    Hello(Result<HelloResult, proto::Error>),
    Describe(Result<Description, proto::Error>),
    GetConfig(Result<Config, proto::Error>),
    SetConfig(Result<Config, proto::Error>),
    AcquireStart(Result<(), proto::Error>),
    AcquireStop(Result<(), proto::Error>),
    Reset(Result<(), proto::Error>),
}

impl Outcome {
    /// This is an outcome of the handler that `call` names.
    pub open spec fn is_of(self, call: Call) -> bool {
        match call {
            Call::Hello(_) => self is Hello,
            Call::Describe => self is Describe,
            Call::GetConfig => self is GetConfig,
            Call::SetConfig(_) => self is SetConfig,
            Call::AcquireStart(_) => self is AcquireStart,
            Call::AcquireStop(_) => self is AcquireStop,
            Call::Reset => self is Reset,
        }
    }
}

/// Calls the handler that `call` names, on the plugin, with what `call` holds
/// and, where the handler takes one, the events handle; the outcome is what that
/// very call returned.
pub fn perform<P: CaptureServer>(plugin: &mut P, stream: &P::Stream, call: Call) -> (outcome:
    Outcome)
    ensures
        match (call, outcome) {
            (Call::Hello(req), Outcome::Hello(r)) => exists|p: &mut P|
                *p == *old(plugin) && *final(p) == *final(plugin) && #[trigger] call_ensures(
                    P::hello,
                    (p, &req, stream),
                    r,
                ),
            (Call::Describe, Outcome::Describe(r)) => exists|p: &mut P|
                *p == *old(plugin) && *final(p) == *final(plugin) && #[trigger] call_ensures(
                    P::describe,
                    (p,),
                    r,
                ),
            (Call::GetConfig, Outcome::GetConfig(r)) => exists|p: &mut P|
                *p == *old(plugin) && *final(p) == *final(plugin) && #[trigger] call_ensures(
                    P::get_config,
                    (p,),
                    r,
                ),
            (Call::SetConfig(config), Outcome::SetConfig(r)) => exists|p: &mut P|
                *p == *old(plugin) && *final(p) == *final(plugin) && #[trigger] call_ensures(
                    P::set_config,
                    (p, &config),
                    r,
                ),
            (Call::AcquireStart(req), Outcome::AcquireStart(r)) => exists|p: &mut P|
                *p == *old(plugin) && *final(p) == *final(plugin) && #[trigger] call_ensures(
                    P::acquire_start,
                    (p, &req, stream),
                    r,
                ),
            (Call::AcquireStop(req), Outcome::AcquireStop(r)) => exists|p: &mut P|
                *p == *old(plugin) && *final(p) == *final(plugin) && #[trigger] call_ensures(
                    P::acquire_stop,
                    (p, &req),
                    r,
                ),
            (Call::Reset, Outcome::Reset(r)) => exists|p: &mut P|
                *p == *old(plugin) && *final(p) == *final(plugin) && #[trigger] call_ensures(
                    P::reset,
                    (p,),
                    r,
                ),
            _ => false,
        },
{
    match call {
        Call::Hello(req) => Outcome::Hello(plugin.hello(&req, stream)),
        Call::Describe => Outcome::Describe(plugin.describe()),
        Call::GetConfig => Outcome::GetConfig(plugin.get_config()),
        Call::SetConfig(config) => Outcome::SetConfig(plugin.set_config(&config)),
        Call::AcquireStart(req) => Outcome::AcquireStart(plugin.acquire_start(&req, stream)),
        Call::AcquireStop(req) => Outcome::AcquireStop(plugin.acquire_stop(&req)),
        Call::Reset => Outcome::Reset(plugin.reset()),
    }
}

/// What a request comes to: an answer at once, or a handler to call first.
#[derive(Debug)]
pub enum Step {
    Answer(Result<response::Response, proto::Error>),
    Call(Call),
}

impl Step {
    /// The request is refused at once, with this code and text.
    pub open spec fn refuses(self, code: ErrorCode, text: Seq<char>) -> bool {
        self matches Step::Answer(Err(e)) && e.is(code, text)
    }

    /// The request is answered at once, with this result.
    pub open spec fn answers(self, result: response::Response) -> bool {
        self == Step::Answer(Ok(result))
    }
}

/// What the control loop knows: whether `Hello` was answered.
#[derive(Debug)]
pub struct Session {
    greeted: bool,
}

/// The request is refused because a capture is running.
pub open spec fn is_busy(step: Step) -> bool {
    step.refuses(ErrorCode::ErrorBusy, "acquisition in progress"@)
}

/// `config` is what a handler is handed for the configuration of a request: an
/// absent one stands for the configuration with every field absent.
pub open spec fn is_config_of(config: Config, sent: Option<Config>) -> bool {
    match sent {
        Some(c) => config == c,
        None => config.encoded@ == Seq::<u8>::empty(),
    }
}

/// A request comes to `step`, and a capture counts as running afterwards or not.
pub open spec fn dispatches(
    greeted: bool,
    running: bool,
    request: Option<request::Request>,
    step: Step,
    running_after: bool,
) -> bool {
    match request {
        None => step.refuses(ErrorCode::ErrorInvalidRequest, "request carries no payload"@)
            && running_after == running,
        Some(r) => if !greeted && !(r is Hello) {
            step.refuses(ErrorCode::ErrorInvalidRequest, "Hello must be the first request"@)
                && running_after == running
        } else {
            match r {
                request::Request::Hello(req) => {
                    &&& running_after == running
                    &&& if greeted {
                        step.refuses(
                            ErrorCode::ErrorInvalidRequest,
                            "Hello has already been answered"@,
                        )
                    } else {
                        step == Step::Call(Call::Hello(req))
                    }
                },
                request::Request::Describe(_) => {
                    &&& running_after == running
                    &&& if running {
                        is_busy(step)
                    } else {
                        step == Step::Call(Call::Describe)
                    }
                },
                request::Request::GetConfig(_) => {
                    &&& running_after == running
                    &&& if running {
                        is_busy(step)
                    } else {
                        step == Step::Call(Call::GetConfig)
                    }
                },
                request::Request::SetConfig(req) => {
                    &&& running_after == running
                    &&& if running {
                        is_busy(step)
                    } else {
                        step matches Step::Call(Call::SetConfig(config)) && is_config_of(
                            config,
                            req.config,
                        )
                    }
                },
                request::Request::AcquireStart(req) => {
                    &&& running_after
                    &&& if running {
                        is_busy(step)
                    } else {
                        step == Step::Call(Call::AcquireStart(req))
                    }
                },
                request::Request::AcquireStop(req) => {
                    &&& running_after == running
                    &&& if running {
                        step == Step::Call(Call::AcquireStop(req))
                    } else {
                        step.answers(response::Response::AcquireStop(Empty {  }))
                    }
                },
                request::Request::Reset(_) => {
                    &&& running_after == running
                    &&& step == Step::Call(Call::Reset)
                },
                request::Request::Shutdown(_) => {
                    &&& running_after == running
                    &&& step.answers(response::Response::Shutdown(Empty {  }))
                },
            }
        },
    }
}

/// What a handler returned makes this the answer, and a session greeted and a
/// capture running, or not.
pub open spec fn concludes(
    greeted: bool,
    running: bool,
    outcome: Outcome,
    answer: Result<response::Response, proto::Error>,
    greeted_after: bool,
    running_after: bool,
) -> bool {
    match outcome {
        Outcome::Hello(Ok(result)) => answer == Ok::<response::Response, proto::Error>(
            response::Response::Hello(result),
        ) && greeted_after && running_after == running,
        Outcome::Describe(Ok(result)) => answer == Ok::<response::Response, proto::Error>(
            response::Response::Describe(result),
        ) && greeted_after == greeted && running_after == running,
        Outcome::GetConfig(Ok(result)) => answer == Ok::<response::Response, proto::Error>(
            response::Response::GetConfig(result),
        ) && greeted_after == greeted && running_after == running,
        Outcome::SetConfig(Ok(result)) => answer == Ok::<response::Response, proto::Error>(
            response::Response::SetConfig(result),
        ) && greeted_after == greeted && running_after == running,
        Outcome::AcquireStart(Ok(_)) => answer == Ok::<response::Response, proto::Error>(
            response::Response::AcquireStart(Empty {  }),
        ) && greeted_after == greeted && running_after == running,
        Outcome::AcquireStop(Ok(_)) => answer == Ok::<response::Response, proto::Error>(
            response::Response::AcquireStop(Empty {  }),
        ) && greeted_after == greeted && running_after == running,
        Outcome::Reset(Ok(_)) => answer == Ok::<response::Response, proto::Error>(
            response::Response::Reset(Empty {  }),
        ) && greeted_after == greeted && !running_after,
        Outcome::AcquireStart(Err(e)) => answer == Err::<response::Response, proto::Error>(e)
            && greeted_after == greeted && !running_after,
        Outcome::Hello(Err(e)) | Outcome::Describe(Err(e)) | Outcome::GetConfig(Err(e))
        | Outcome::SetConfig(Err(e)) | Outcome::AcquireStop(Err(e)) | Outcome::Reset(
            Err(e),
        ) => answer == Err::<response::Response, proto::Error>(e) && greeted_after == greeted
            && running_after == running,
    }
}

/// `response` carries this answer to the request numbered `seq`.
pub open spec fn is_response(
    seq: u32,
    answer: Result<response::Response, proto::Error>,
    response: Response,
) -> bool {
    match answer {
        Ok(result) => response == (Response { seq, error: None, response: Some(result) }),
        Err(error) => response == (Response { seq, error: Some(error), response: None }),
    }
}

/// The message that carries an answer to the request numbered `seq`.
pub fn respond(seq: u32, answer: Result<response::Response, proto::Error>) -> (response: Response)
    ensures
        is_response(seq, answer, response),
{
    match answer {
        Ok(result) => Response { seq, error: None, response: Some(result) },
        Err(error) => Response { seq, error: Some(error), response: None },
    }
}

fn is_closed(e: &NngError) -> (closed: bool)
    ensures
        closed == e.says_closed(),
{
    matches!(
        e.kind,
        NngErrorKind::Closed | NngErrorKind::ConnectionReset | NngErrorKind::ConnectionAborted
    )
}

fn busy() -> (step: Step)
    ensures
        is_busy(step),
{
    Step::Answer(Err(proto::Error::busy("acquisition in progress".to_owned())))
}

/// What the control loop does next.
#[derive(Debug)]
pub enum Turn {
    /// There is nothing left to serve.
    Stop(Result<(), Error>),
    /// Send the response. If it is the last one, call the plugin's `shutdown`
    /// and stop; otherwise receive again.
    Reply { response: Response, last: bool },
    /// Call the handler, and answer the request numbered `seq` with what it
    /// returns.
    Call { seq: u32, call: Call },
}

/// What was received makes this the next turn.
pub open spec fn serves(
    greeted: bool,
    running: bool,
    received: Result<Request, Error>,
    turn: Turn,
    running_after: bool,
) -> bool {
    match received {
        Ok(request) => exists|step: Step|
            {
                &&& #[trigger] dispatches(greeted, running, request.request, step, running_after)
                &&& match step {
                    Step::Call(call) => turn == (Turn::Call { seq: request.seq, call }),
                    Step::Answer(answer) => {
                        &&& turn matches Turn::Reply { response, last }
                        &&& is_response(request.seq, answer, response)
                        &&& last == (request.request matches Some(request::Request::Shutdown(_))
                            && answer is Ok)
                    },
                }
            },
        Err(Error::Nng(e)) => running_after == running && (if e.says_closed() {
            turn == Turn::Stop(Ok(()))
        } else {
            turn == Turn::Stop(Err(Error::Nng(e)))
        }),
        Err(Error::Decode(text)) => {
            &&& running_after == running
            &&& turn matches Turn::Reply { response, last }
            &&& !last
            &&& response.seq == 0
            &&& response.response is None
            &&& response.error matches Some(e)
            &&& e.is(ErrorCode::ErrorInvalidRequest, "undecodable request: "@ + text@)
        },
        Err(e) => running_after == running && turn == Turn::Stop(Err(e)),
    }
}

impl Session {
    /// `Hello` was answered.
    pub closed spec fn greeted(&self) -> bool {
        self.greeted
    }

    pub fn new() -> (session: Self)
        ensures
            !session.greeted(),
    {
        Session { greeted: false }
    }

    /// What a request comes to.
    pub fn dispatch(&self, events: &mut Events, request: Option<request::Request>) -> (step: Step)
        ensures
            dispatches(
                self.greeted(),
                old(events).running(),
                request,
                step,
                final(events).running(),
            ),
    {
        let request = match request {
            Some(request) => request,
            None => {
                return Step::Answer(
                    Err(proto::Error::invalid("request carries no payload".to_owned())),
                );
            },
        };
        // Hello is the only thing a plugin will answer before it has a device.
        if !self.greeted && !matches!(request, request::Request::Hello(_)) {
            return Step::Answer(
                Err(proto::Error::invalid("Hello must be the first request".to_owned())),
            );
        }
        match request {
            request::Request::Hello(req) => {
                if self.greeted {
                    return Step::Answer(
                        Err(proto::Error::invalid("Hello has already been answered".to_owned())),
                    );
                }
                Step::Call(Call::Hello(req))
            },
            request::Request::Describe(_) => {
                if events.is_running() {
                    return busy();
                }
                Step::Call(Call::Describe)
            },
            request::Request::GetConfig(_) => {
                if events.is_running() {
                    return busy();
                }
                Step::Call(Call::GetConfig)
            },
            request::Request::SetConfig(req) => {
                if events.is_running() {
                    return busy();
                }
                let config = match req.config {
                    Some(config) => config,
                    None => Config::default(),
                };
                Step::Call(Call::SetConfig(config))
            },
            request::Request::AcquireStart(req) => {
                if events.is_running() {
                    return busy();
                }
                // Set before starting: a short capture can push CaptureEnd before
                // acquire_start has even returned, and that must not be undone.
                events.set_running(true);
                Step::Call(Call::AcquireStart(req))
            },
            request::Request::AcquireStop(req) => {
                // Idempotent: a single-shot capture can end on its own between the
                // frontend deciding to stop it and the request arriving.
                if events.is_running() {
                    return Step::Call(Call::AcquireStop(req));
                }
                Step::Answer(Ok(response::Response::AcquireStop(Empty {  })))
            },
            request::Request::Reset(_) => Step::Call(Call::Reset),
            request::Request::Shutdown(_) => Step::Answer(
                Ok(response::Response::Shutdown(Empty {  })),
            ),
        }
    }

    /// The answer to a request, once its handler has returned.
    pub fn conclude(&mut self, events: &mut Events, outcome: Outcome) -> (answer: Result<
        response::Response,
        proto::Error,
    >)
        ensures
            concludes(
                old(self).greeted(),
                old(events).running(),
                outcome,
                answer,
                final(self).greeted(),
                final(events).running(),
            ),
    {
        match outcome {
            Outcome::Hello(Ok(result)) => {
                self.greeted = true;
                Ok(response::Response::Hello(result))
            },
            Outcome::Hello(Err(e)) => Err(e),
            Outcome::Describe(Ok(result)) => Ok(response::Response::Describe(result)),
            Outcome::Describe(Err(e)) => Err(e),
            Outcome::GetConfig(Ok(result)) => Ok(response::Response::GetConfig(result)),
            Outcome::GetConfig(Err(e)) => Err(e),
            Outcome::SetConfig(Ok(result)) => Ok(response::Response::SetConfig(result)),
            Outcome::SetConfig(Err(e)) => Err(e),
            Outcome::AcquireStart(Ok(_)) => Ok(response::Response::AcquireStart(Empty {  })),
            Outcome::AcquireStart(Err(e)) => {
                events.set_running(false);
                Err(e)
            },
            Outcome::AcquireStop(Ok(_)) => Ok(response::Response::AcquireStop(Empty {  })),
            Outcome::AcquireStop(Err(e)) => Err(e),
            Outcome::Reset(Ok(_)) => {
                events.set_running(false);
                Ok(response::Response::Reset(Empty {  }))
            },
            Outcome::Reset(Err(e)) => Err(e),
        }
    }

    /// What comes next, after the control socket yielded a request or failed to.
    pub fn serve(&self, events: &mut Events, received: Result<Request, Error>) -> (turn: Turn)
        ensures
            serves(
                self.greeted(),
                old(events).running(),
                received,
                turn,
                final(events).running(),
            ),
    {
        let request = match received {
            Ok(request) => request,
            Err(Error::Nng(e)) => {
                // The frontend is gone; nothing left to serve.
                if is_closed(&e) {
                    return Turn::Stop(Ok(()));
                }
                return Turn::Stop(Err(Error::Nng(e)));
            },
            Err(Error::Decode(text)) => {
                let message = "undecodable request: ".to_owned().concat(text.as_str());
                return Turn::Reply {
                    response: Response {
                        seq: 0,
                        error: Some(proto::Error::invalid(message)),
                        response: None,
                    },
                    last: false,
                };
            },
            Err(e) => {
                return Turn::Stop(Err(e));
            },
        };
        let seq: u32 = request.seq;
        let shutting_down = matches!(request.request, Some(request::Request::Shutdown(_)));
        match self.dispatch(events, request.request) {
            Step::Answer(answer) => {
                let response = respond(seq, answer);
                let last = shutting_down && response.error.is_none();
                Turn::Reply { response, last }
            },
            Step::Call(call) => Turn::Call { seq, call },
        }
    }

    /// The response to the request numbered `seq`, once its handler has
    /// returned.
    pub fn answer(&mut self, events: &mut Events, seq: u32, outcome: Outcome) -> (response:
        Response)
        ensures
            exists|answer: Result<response::Response, proto::Error>|
                #[trigger] is_response(seq, answer, response) && concludes(
                    old(self).greeted(),
                    old(events).running(),
                    outcome,
                    answer,
                    final(self).greeted(),
                    final(events).running(),
                ),
    {
        let answer = self.conclude(events, outcome);
        respond(seq, answer)
    }
}

/// Convenience for a plugin that supports every encoding this crate implements.
pub fn hello_result(
    req: &Hello,
    plugin: PluginInfo,
    capabilities: Capabilities,
    device: DeviceInfo,
) -> (result: HelloResult)
    ensures
        result.protocol == PROTOCOL_VERSION,
        result.plugin == Some(plugin),
        result.capabilities == Some(capabilities),
        result.device == Some(device),
        result.encodings@ == encoding::agreed(
            req.accept_encodings@,
            encoding::encoding_numbers(ENCODINGS@),
            SampleEncoding::Packed.number(),
        ),
        result.codecs@ == encoding::agreed(
            req.accept_codecs@,
            encoding::codec_numbers(CODECS@),
            Codec::Uncompressed.number(),
        ),
{
    HelloResult {
        protocol: PROTOCOL_VERSION,
        plugin: Some(plugin),
        capabilities: Some(capabilities),
        device: Some(device),
        encodings: negotiate_encodings(req.accept_encodings.as_slice(), ENCODINGS.as_slice()),
        codecs: negotiate_codecs(req.accept_codecs.as_slice(), CODECS.as_slice()),
    }
}

/// Before `Hello` is answered, any other request is refused, and nothing
/// changes.
pub proof fn law_nothing_is_answered_before_hello(
    running: bool,
    request: request::Request,
    step: Step,
    running_after: bool,
)
    requires
        dispatches(false, running, Some(request), step, running_after),
        !(request is Hello),
    ensures
        step.refuses(ErrorCode::ErrorInvalidRequest, "Hello must be the first request"@),
        running_after == running,
{
}

/// The handshake happens once: a `Hello` that the plugin answers makes the
/// session a greeted one, from then on every further `Hello` is refused, and
/// nothing makes the session forget.
pub proof fn law_hello_is_answered_once(
    running: bool,
    result: HelloResult,
    answer: Result<response::Response, proto::Error>,
    greeted: bool,
    running_then: bool,
    hello: Hello,
    step: Step,
    running_after: bool,
)
    requires
        concludes(false, running, Outcome::Hello(Ok(result)), answer, greeted, running_then),
        dispatches(
            greeted,
            running_then,
            Some(request::Request::Hello(hello)),
            step,
            running_after,
        ),
    ensures
        answer == Ok::<response::Response, proto::Error>(response::Response::Hello(result)),
        step.refuses(ErrorCode::ErrorInvalidRequest, "Hello has already been answered"@),
        forall|r: bool, outcome: Outcome, later, greeted_later: bool, running_later: bool|
            #[trigger] concludes(greeted, r, outcome, later, greeted_later, running_later)
                ==> greeted_later,
{
}

/// A `Hello` that the plugin refuses leaves the session open to another.
pub proof fn law_refused_hello_may_be_repeated(
    running: bool,
    refusal: proto::Error,
    answer: Result<response::Response, proto::Error>,
    greeted: bool,
    running_then: bool,
    hello: Hello,
    step: Step,
    running_after: bool,
)
    requires
        concludes(false, running, Outcome::Hello(Err(refusal)), answer, greeted, running_then),
        dispatches(
            greeted,
            running_then,
            Some(request::Request::Hello(hello)),
            step,
            running_after,
        ),
    ensures
        answer == Err::<response::Response, proto::Error>(refusal),
        step == Step::Call(Call::Hello(hello)),
{
}

/// While a capture runs, the plugin's configuration is neither read nor changed
/// and no other capture starts; the capture keeps running.
pub proof fn law_running_capture_blocks_configuration(
    request: request::Request,
    step: Step,
    running_after: bool,
)
    requires
        dispatches(true, true, Some(request), step, running_after),
        request is Describe || request is GetConfig || request is SetConfig
            || request is AcquireStart,
    ensures
        is_busy(step),
        running_after,
{
}

/// A capture can end before the handler that started it has returned, and that
/// is not undone: when the handler returns, a capture runs if and only if it
/// started and has not ended.
pub proof fn law_early_end_is_not_undone(
    req: AcquireStart,
    step: Step,
    running_admitted: bool,
    event: crate::proto::event::Event,
    running_returned: bool,
    outcome: Result<(), proto::Error>,
    answer: Result<response::Response, proto::Error>,
    greeted: bool,
    running_after: bool,
)
    requires
        dispatches(
            true,
            false,
            Some(request::Request::AcquireStart(req)),
            step,
            running_admitted,
        ),
        running_returned == (running_admitted && !event.ends_capture()),
        concludes(
            true,
            running_returned,
            Outcome::AcquireStart(outcome),
            answer,
            greeted,
            running_after,
        ),
    ensures
        step == Step::Call(Call::AcquireStart(req)),
        running_admitted,
        running_after == (outcome is Ok && !event.ends_capture()),
{
}

/// Only the admission of an `AcquireStart` makes a capture run. It runs only
/// once `Hello` was answered.
pub proof fn law_captures_start_by_request_only(
    greeted: bool,
    running: bool,
    request: Option<request::Request>,
    step: Step,
    running_then: bool,
    outcome: Outcome,
    answer: Result<response::Response, proto::Error>,
    greeted_after: bool,
    running_after: bool,
)
    requires
        dispatches(greeted, running, request, step, running_then),
    ensures
        running_then && !running ==> greeted && (request matches Some(r) && r is AcquireStart),
        (running ==> greeted) ==> (running_then ==> greeted),
        concludes(greeted, running_then, outcome, answer, greeted_after, running_after) ==> {
            &&& running_after ==> running_then
            &&& (running ==> greeted) ==> (running_after ==> greeted_after)
        },
{
}

/// Once a capture has ended, a start is handed to the plugin again.
pub proof fn law_ended_capture_is_ready(req: AcquireStart, step: Step, running_after: bool)
    requires
        dispatches(true, false, Some(request::Request::AcquireStart(req)), step, running_after),
    ensures
        step == Step::Call(Call::AcquireStart(req)),
        running_after,
{
}

/// `Reset` reaches the plugin whether or not a capture runs, and when the plugin
/// carries it out, a capture may start.
pub proof fn law_reset_returns_to_ready(
    running: bool,
    reset: proto::Reset,
    step: Step,
    running_then: bool,
    running_returned: bool,
    answer: Result<response::Response, proto::Error>,
    greeted: bool,
    running_ready: bool,
    req: AcquireStart,
    next: Step,
    running_after: bool,
)
    requires
        dispatches(true, running, Some(request::Request::Reset(reset)), step, running_then),
        concludes(
            true,
            running_returned,
            Outcome::Reset(Ok(())),
            answer,
            greeted,
            running_ready,
        ),
        dispatches(
            greeted,
            running_ready,
            Some(request::Request::AcquireStart(req)),
            next,
            running_after,
        ),
    ensures
        step == Step::Call(Call::Reset),
        answer == Ok::<response::Response, proto::Error>(response::Response::Reset(Empty {  })),
        !running_ready,
        next == Step::Call(Call::AcquireStart(req)),
{
}

/// Stopping is idempotent: where no capture runs, `AcquireStop` is answered as
/// done without the plugin, any number of times.
pub proof fn law_stop_is_idempotent(
    req: AcquireStop,
    step: Step,
    running_then: bool,
    again: Step,
    running_after: bool,
)
    requires
        dispatches(true, false, Some(request::Request::AcquireStop(req)), step, running_then),
        dispatches(
            true,
            running_then,
            Some(request::Request::AcquireStop(req)),
            again,
            running_after,
        ),
    ensures
        step.answers(response::Response::AcquireStop(Empty {  })),
        again == step,
        !running_after,
{
}

/// A result always is of the arm that answers the request, whether it comes at
/// once or from a handler.
pub proof fn law_results_answer_their_request(
    greeted: bool,
    running: bool,
    request: request::Request,
    step: Step,
    running_then: bool,
)
    requires
        dispatches(greeted, running, Some(request), step, running_then),
    ensures
        step matches Step::Answer(Ok(result)) ==> result.answers(request),
        step matches Step::Call(call) ==> forall|
            r: bool,
            outcome: Outcome,
            answer: Result<response::Response, proto::Error>,
            greeted_after: bool,
            running_after: bool,
        |
            outcome.is_of(call) && #[trigger] concludes(
                greeted,
                r,
                outcome,
                answer,
                greeted_after,
                running_after,
            ) ==> (answer matches Ok(result) ==> result.answers(request)),
{
}

/// A response echoes the number of its request and carries exactly one of a
/// result and a refusal.
pub proof fn law_response_is_result_or_refusal(
    seq: u32,
    answer: Result<response::Response, proto::Error>,
    response: Response,
)
    requires
        is_response(seq, answer, response),
    ensures
        response.seq == seq,
        response.error is Some <==> response.response is None,
        response.error is Some <==> answer is Err,
{
}

/// The control loop ends by an answered `Shutdown` alone, as far as requests go:
/// a reply is the last one if and only if it answers a `Shutdown` of a greeted
/// session, and that reply is a result.
pub proof fn law_shutdown_ends_the_loop(
    greeted: bool,
    running: bool,
    request: Request,
    turn: Turn,
    running_after: bool,
)
    requires
        serves(greeted, running, Ok(request), turn, running_after),
    ensures
        !(turn is Stop),
        turn matches Turn::Reply { response, last } ==> {
            &&& last <==> (greeted && (request.request matches Some(
                request::Request::Shutdown(_),
            )))
            &&& last ==> response == (Response {
                seq: request.seq,
                error: None,
                response: Some(response::Response::Shutdown(Empty {  })),
            })
        },
{
}

/// A request that does not decode is refused and no more: no handler is called,
/// nothing changes, and serving goes on.
pub proof fn law_undecodable_requests_do_not_stop_the_loop(
    greeted: bool,
    running: bool,
    text: String,
    turn: Turn,
    running_after: bool,
)
    requires
        serves(greeted, running, Err(Error::Decode(text)), turn, running_after),
    ensures
        turn matches Turn::Reply { response, last } && !last,
        running_after == running,
{
}

/// One turn of the control loop that sends a response, with what is known before
/// and after it.
pub struct Exchange {
    pub received: Result<Request, Error>,
    /// `Hello` was answered, and a capture was running, before the turn.
    pub greeted: bool,
    pub running: bool,
    pub turn: Turn,
    /// A capture was running once the turn was decided on.
    pub running_then: bool,
    pub response: Response,
    /// `Hello` was answered, and a capture was running, after the turn.
    pub greeted_after: bool,
    pub running_after: bool,
}

impl Exchange {
    /// The handler that `call` names was called, and what it returned became
    /// `answer`. While it ran, a capture may have ended.
    pub open spec fn is_answered_by(
        self,
        call: Call,
        answer: Result<response::Response, proto::Error>,
    ) -> bool {
        exists|outcome: Outcome, running_returned: bool|
            {
                &&& outcome.is_of(call)
                &&& running_returned ==> self.running_then
                &&& #[trigger] concludes(
                    self.greeted,
                    running_returned,
                    outcome,
                    answer,
                    self.greeted_after,
                    self.running_after,
                )
            }
    }

    /// What was received was served, by a reply at once or by a handler.
    pub open spec fn is_served(self) -> bool {
        &&& serves(self.greeted, self.running, self.received, self.turn, self.running_then)
        &&& match self.turn {
            Turn::Stop(_) => false,
            Turn::Reply { response, .. } => {
                &&& response == self.response
                &&& self.greeted_after == self.greeted
                &&& self.running_after == self.running_then
            },
            Turn::Call { seq, call } => exists|answer: Result<response::Response, proto::Error>|
                #[trigger] is_response(seq, answer, self.response) && self.is_answered_by(
                    call,
                    answer,
                ),
        }
    }

    /// The response ends the loop.
    pub open spec fn is_last(self) -> bool {
        self.turn matches Turn::Reply { last, .. } && last
    }

    /// The number that the response has to have: the request's, or none where
    /// the request does not decode.
    pub open spec fn number(self) -> u32 {
        match self.received {
            Ok(request) => request.seq,
            Err(_) => 0,
        }
    }

    /// The request comes to `answer`: at once, or once its handler has returned.
    pub open spec fn comes_to(
        self,
        request: Request,
        answer: Result<response::Response, proto::Error>,
    ) -> bool {
        exists|step: Step|
            #[trigger] dispatches(
                self.greeted,
                self.running,
                request.request,
                step,
                self.running_then,
            ) && match step {
                Step::Answer(at_once) => answer == at_once,
                Step::Call(call) => self.is_answered_by(call, answer),
            }
    }
}

/// The turns of a control loop, from its start. Between two turns a capture may
/// end, and nothing else happens.
pub open spec fn is_run(run: Seq<Exchange>) -> bool {
    &&& run.len() > 0 ==> !run[0].greeted && !run[0].running
    &&& forall|i: int| 0 <= i < run.len() ==> (#[trigger] run[i]).is_served()
    &&& forall|i: int, j: int|
        #![trigger run[i], run[j]]
        0 <= i && j == i + 1 && j < run.len() ==> {
            &&& run[j].greeted == run[i].greeted_after
            &&& run[j].running ==> run[i].running_after
            &&& !run[i].is_last()
        }
}

/// Every request gets exactly one response, in the order of arrival. The response
/// echoes the request's number and carries exactly one of a result and a refusal:
/// what the request comes to. A request that does not decode is refused under the
/// number 0, without a handler, and changes nothing.
pub proof fn law_requests_are_answered_in_order(run: Seq<Exchange>)
    requires
        is_run(run),
    ensures
        run.map_values(|x: Exchange| x.response.seq) == run.map_values(|x: Exchange| x.number()),
        forall|i: int|
            0 <= i < run.len() ==> {
                let x = #[trigger] run[i];
                &&& x.response.seq == x.number()
                &&& x.response.error is Some <==> x.response.response is None
                &&& match x.received {
                    Ok(request) => exists|answer: Result<response::Response, proto::Error>|
                        #[trigger] is_response(request.seq, answer, x.response) && x.comes_to(
                            request,
                            answer,
                        ),
                    Err(Error::Decode(text)) => {
                        &&& !(x.turn is Call)
                        &&& !x.is_last()
                        &&& x.greeted_after == x.greeted
                        &&& x.running_after == x.running
                        &&& x.response.error matches Some(e)
                        &&& e.is(
                            ErrorCode::ErrorInvalidRequest,
                            "undecodable request: "@ + text@,
                        )
                    },
                    Err(_) => false,
                }
            },
{
    assert forall|i: int| 0 <= i < run.len() implies (#[trigger] run[i]).response.seq
        == run[i].number() && (run[i].response.error is Some <==> run[i].response.response is None)
        && match run[i].received {
        Ok(request) => exists|answer: Result<response::Response, proto::Error>|
            #[trigger] is_response(request.seq, answer, run[i].response) && run[i].comes_to(
                request,
                answer,
            ),
        Err(Error::Decode(text)) => true,
        Err(_) => false,
    } by {
        lemma_served_requests_are_answered(run[i]);
    }
    assert(run.map_values(|x: Exchange| x.response.seq) =~= run.map_values(
        |x: Exchange| x.number(),
    ));
}

proof fn lemma_served_requests_are_answered(x: Exchange)
    requires
        x.is_served(),
    ensures
        x.response.seq == x.number(),
        x.response.error is Some <==> x.response.response is None,
        match x.received {
            Ok(request) => exists|answer: Result<response::Response, proto::Error>|
                #[trigger] is_response(request.seq, answer, x.response) && x.comes_to(
                    request,
                    answer,
                ),
            Err(Error::Decode(_)) => true,
            Err(_) => false,
        },
{
    if let Ok(request) = x.received {
        let step = choose|step: Step|
            {
                &&& #[trigger] dispatches(
                    x.greeted,
                    x.running,
                    request.request,
                    step,
                    x.running_then,
                )
                &&& match step {
                    Step::Call(call) => x.turn == (Turn::Call { seq: request.seq, call }),
                    Step::Answer(answer) => {
                        &&& x.turn matches Turn::Reply { response, last }
                        &&& is_response(request.seq, answer, response)
                        &&& last == (request.request matches Some(request::Request::Shutdown(_))
                            && answer is Ok)
                    },
                }
            };
        match step {
            Step::Answer(answer) => {
                assert(is_response(request.seq, answer, x.response));
                assert(x.comes_to(request, answer));
            },
            Step::Call(call) => {
                let answer = choose|answer: Result<response::Response, proto::Error>|
                    #[trigger] is_response(request.seq, answer, x.response) && x.is_answered_by(
                        call,
                        answer,
                    );
                assert(x.comes_to(request, answer));
            },
        }
    }
}

/// Whatever the requests and however captures end: a capture runs only in a
/// greeted session, and a greeted session stays one.
pub proof fn law_captures_run_in_greeted_sessions(run: Seq<Exchange>, i: int)
    requires
        is_run(run),
        0 <= i < run.len(),
    ensures
        run[i].running ==> run[i].greeted,
        run[i].running_after ==> run[i].greeted_after,
        run[i].greeted ==> run[i].greeted_after,
    decreases i,
{
    let x = run[i];
    if i > 0 {
        law_captures_run_in_greeted_sessions(run, i - 1);
        assert(run[i - 1].running_after ==> run[i - 1].greeted_after);
    }
    assert(x.is_served());
}

} // verus!
