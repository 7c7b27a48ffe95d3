// SPDX-License-Identifier: Apache-2.0
//! What holds of the control loop, whatever is requested and whatever a plugin
//! answers.

use vstd::prelude::*;

use crate::error::{Error, NngErrorKind};
use crate::proto;
use crate::proto::event;
use crate::proto::request;
use crate::proto::response;
use crate::proto::{AcquireStop, Config, Empty, ErrorCode, Request, Response};
use crate::server::session;
use crate::server::session::{Call, Exchange, Outcome, Step, Turn};

verus! {

/// The request is refused at once, with the number of a code and a text.
pub open spec fn is_refusal(step: Step, number: i32, text: Seq<char>) -> bool {
    step matches Step::Answer(Err(e)) && e.code == number && e.message@ == text
}

/// The end of a capture and the loss of its device end a capture, and no other
/// event does.
pub proof fn law_only_two_events_end_a_capture(event: event::Event)
    ensures
        event is CaptureEnd ==> event.ends_capture(),
        event is DeviceLost ==> event.ends_capture(),
        event is CaptureBegin || event is Data || event is Log || event is Status
            ==> !event.ends_capture(),
{
}

/// A request alone never ends a capture, and only an `AcquireStart` of a greeted
/// session begins one.
pub proof fn law_requests_do_not_end_captures(
    greeted: bool,
    running: bool,
    request: Option<request::Request>,
    step: Step,
    running_after: bool,
)
    requires
        session::dispatches(greeted, running, request, step, running_after),
    ensures
        running ==> running_after,
        running_after && !running <==> !running && greeted && (request matches Some(r) && r
            is AcquireStart),
{
}

/// A capture that runs when a handler returns runs on, unless the handler carried
/// out a reset or failed to start the capture. No handler begins one by returning.
pub proof fn law_captures_outlast_their_handlers(
    greeted: bool,
    running: bool,
    outcome: Outcome,
    answer: Result<response::Response, proto::Error>,
    greeted_after: bool,
    running_after: bool,
)
    requires
        session::concludes(greeted, running, outcome, answer, greeted_after, running_after),
    ensures
        running_after <==> running && !(outcome matches Outcome::Reset(Ok(_))) && !(
        outcome matches Outcome::AcquireStart(Err(_))),
{
}

/// `AcquireStop` does not end a capture by itself: until the end of the capture,
/// or the loss of the device, is pushed, the plugin is busy. What is pushed
/// meanwhile makes no other difference.
pub proof fn law_stopped_captures_run_until_they_end(
    stop: AcquireStop,
    step: Step,
    running_then: bool,
    result: Result<(), proto::Error>,
    answer: Result<response::Response, proto::Error>,
    greeted: bool,
    running_stopped: bool,
    pushed: Seq<event::Event>,
    running_next: bool,
    request: request::Request,
    next: Step,
    running_after: bool,
)
    requires
        session::dispatches(
            true,
            true,
            Some(request::Request::AcquireStop(stop)),
            step,
            running_then,
        ),
        session::concludes(
            true,
            running_then,
            Outcome::AcquireStop(result),
            answer,
            greeted,
            running_stopped,
        ),
        running_next <==> running_stopped && forall|i: int|
            0 <= i < pushed.len() ==> !(#[trigger] pushed[i]).ends_capture(),
        session::dispatches(greeted, running_next, Some(request), next, running_after),
        request is Describe || request is GetConfig || request is SetConfig
            || request is AcquireStart,
    ensures
        step == Step::Call(Call::AcquireStop(stop)),
        (forall|i: int|
            0 <= i < pushed.len() ==> !((#[trigger] pushed[i]) is CaptureEnd) && !(pushed[i]
                is DeviceLost)) <==> is_refusal(
            next,
            ErrorCode::ErrorBusy.number(),
            "acquisition in progress"@,
        ),
        is_refusal(next, ErrorCode::ErrorBusy.number(), "acquisition in progress"@) || next
            is Call,
{
    if forall|i: int|
        0 <= i < pushed.len() ==> !((#[trigger] pushed[i]) is CaptureEnd) && !(pushed[i]
            is DeviceLost) {
        assert forall|i: int| 0 <= i < pushed.len() implies !(
        #[trigger] pushed[i]).ends_capture() by {
            law_only_two_events_end_a_capture(pushed[i]);
        }
    } else {
        let i = choose|i: int|
            0 <= i < pushed.len() && !(!((#[trigger] pushed[i]) is CaptureEnd) && !(pushed[i]
                is DeviceLost));
        law_only_two_events_end_a_capture(pushed[i]);
        assert(pushed[i].ends_capture());
    }
}

/// What a handler returns is what is answered: the very result, under the arm of
/// its request, or the very refusal.
pub proof fn law_results_are_carried_unchanged(
    greeted: bool,
    running: bool,
    outcome: Outcome,
    answer: Result<response::Response, proto::Error>,
    greeted_after: bool,
    running_after: bool,
)
    requires
        session::concludes(greeted, running, outcome, answer, greeted_after, running_after),
    ensures
        outcome matches Outcome::Hello(r) ==> (match answer {
            Ok(got) => got is Hello && r == Ok::<proto::HelloResult, proto::Error>(got->Hello_0),
            Err(e) => r == Err::<proto::HelloResult, proto::Error>(e),
        }),
        outcome matches Outcome::Describe(r) ==> (match answer {
            Ok(got) => got is Describe && r == Ok::<proto::Description, proto::Error>(
                got->Describe_0,
            ),
            Err(e) => r == Err::<proto::Description, proto::Error>(e),
        }),
        outcome matches Outcome::GetConfig(r) ==> (match answer {
            Ok(got) => got is GetConfig && r == Ok::<Config, proto::Error>(got->GetConfig_0),
            Err(e) => r == Err::<Config, proto::Error>(e),
        }),
        outcome matches Outcome::SetConfig(r) ==> (match answer {
            Ok(got) => got is SetConfig && r == Ok::<Config, proto::Error>(got->SetConfig_0),
            Err(e) => r == Err::<Config, proto::Error>(e),
        }),
        outcome matches Outcome::AcquireStart(r) ==> (match answer {
            Ok(got) => got is AcquireStart && r is Ok,
            Err(e) => r == Err::<(), proto::Error>(e),
        }),
        outcome matches Outcome::AcquireStop(r) ==> (match answer {
            Ok(got) => got is AcquireStop && r is Ok,
            Err(e) => r == Err::<(), proto::Error>(e),
        }),
        outcome matches Outcome::Reset(r) ==> (match answer {
            Ok(got) => got is Reset && r is Ok,
            Err(e) => r == Err::<(), proto::Error>(e),
        }),
{
}

/// A session is greeted from the first `Hello` that the plugin answers on, and by
/// nothing else.
pub proof fn law_only_hello_greets(
    greeted: bool,
    running: bool,
    outcome: Outcome,
    answer: Result<response::Response, proto::Error>,
    greeted_after: bool,
    running_after: bool,
)
    requires
        session::concludes(greeted, running, outcome, answer, greeted_after, running_after),
    ensures
        greeted_after <==> greeted || (outcome matches Outcome::Hello(Ok(_))),
{
}

/// A request that is not refused reaches the handler of its own name, with what
/// the request holds, but for two that need none: `Shutdown`, and an `AcquireStop`
/// where nothing runs. An absent configuration stands for one with every field
/// absent.
pub proof fn law_requests_reach_their_handlers(
    greeted: bool,
    running: bool,
    request: request::Request,
    step: Step,
    running_after: bool,
)
    requires
        session::dispatches(greeted, running, Some(request), step, running_after),
        !(step matches Step::Answer(Err(_))),
    ensures
        match request {
            request::Request::Hello(req) => step == Step::Call(Call::Hello(req)),
            request::Request::Describe(_) => step == Step::Call(Call::Describe),
            request::Request::GetConfig(_) => step == Step::Call(Call::GetConfig),
            request::Request::SetConfig(req) => step matches Step::Call(Call::SetConfig(config))
                && (match req.config {
                Some(sent) => config == sent,
                None => config.encoded@.len() == 0,
            }),
            request::Request::AcquireStart(req) => step == Step::Call(Call::AcquireStart(req)),
            request::Request::AcquireStop(req) => if running {
                step == Step::Call(Call::AcquireStop(req))
            } else {
                step == Step::Answer(Ok(response::Response::AcquireStop(Empty {  })))
            },
            request::Request::Reset(_) => step == Step::Call(Call::Reset),
            request::Request::Shutdown(_) => step == Step::Answer(
                Ok(response::Response::Shutdown(Empty {  })),
            ),
        },
{
}

/// A request is refused for four reasons and no others, each with its code and
/// text: it is empty, it comes before `Hello`, it is a second `Hello`, or a
/// capture runs that it would disturb.
pub proof fn law_requests_are_refused_for_four_reasons(
    greeted: bool,
    running: bool,
    request: Option<request::Request>,
    step: Step,
    running_after: bool,
)
    requires
        session::dispatches(greeted, running, request, step, running_after),
    ensures
        request is None ==> is_refusal(
            step,
            ErrorCode::ErrorInvalidRequest.number(),
            "request carries no payload"@,
        ),
        !greeted && (request matches Some(r) && !(r is Hello)) ==> is_refusal(
            step,
            ErrorCode::ErrorInvalidRequest.number(),
            "Hello must be the first request"@,
        ),
        greeted && (request matches Some(r) && r is Hello) ==> is_refusal(
            step,
            ErrorCode::ErrorInvalidRequest.number(),
            "Hello has already been answered"@,
        ),
        greeted && running && (request matches Some(r) && (r is Describe || r is GetConfig || r
            is SetConfig || r is AcquireStart)) ==> is_refusal(
            step,
            ErrorCode::ErrorBusy.number(),
            "acquisition in progress"@,
        ),
        step matches Step::Answer(Err(_)) <==> match request {
            None => true,
            Some(r) => if r is Hello {
                greeted
            } else if !greeted {
                true
            } else {
                running && (r is Describe || r is GetConfig || r is SetConfig || r is AcquireStart)
            },
        },
{
}

/// A response holds the number it was made with and what is answered, a result or
/// a refusal, in its own place.
pub proof fn law_responses_hold_their_answer(
    seq: u32,
    answer: Result<response::Response, proto::Error>,
    response: Response,
)
    requires
        session::is_response(seq, answer, response),
    ensures
        response.seq == seq,
        response.response == (match answer {
            Ok(result) => Some(result),
            Err(_) => None,
        }),
        response.error == (match answer {
            Ok(_) => None,
            Err(refusal) => Some(refusal),
        }),
{
}

/// What the loop does with a request that it received is what the request comes
/// to: a handler to call under the request's number, or a response with that
/// number and that answer.
pub proof fn law_turns_follow_requests(
    greeted: bool,
    running: bool,
    request: Request,
    turn: Turn,
    running_after: bool,
)
    requires
        session::serves(greeted, running, Ok(request), turn, running_after),
    ensures
        match turn {
            Turn::Stop(_) => false,
            Turn::Call { seq, call } => seq == request.seq && session::dispatches(
                greeted,
                running,
                request.request,
                Step::Call(call),
                running_after,
            ),
            Turn::Reply { response, .. } => response.seq == request.seq && (match (
                response.error,
                response.response,
            ) {
                (Some(e), None) => session::dispatches(
                    greeted,
                    running,
                    request.request,
                    Step::Answer(Err(e)),
                    running_after,
                ),
                (None, Some(result)) => session::dispatches(
                    greeted,
                    running,
                    request.request,
                    Step::Answer(Ok(result)),
                    running_after,
                ),
                _ => false,
            }),
        },
{
}

/// A dead pipe ends the loop in peace, whichever way it died. Any other failure
/// to receive ends it with that failure, but for a request that does not decode:
/// that one is refused under the number 0.
pub proof fn law_failures_to_receive(
    greeted: bool,
    running: bool,
    failure: Error,
    turn: Turn,
    running_after: bool,
)
    requires
        session::serves(greeted, running, Err(failure), turn, running_after),
    ensures
        running_after == running,
        match failure {
            Error::Nng(e) => if e.kind == NngErrorKind::Closed || e.kind
                == NngErrorKind::ConnectionReset || e.kind == NngErrorKind::ConnectionAborted {
                turn == Turn::Stop(Ok(()))
            } else {
                turn == Turn::Stop(Err(failure))
            },
            Error::Decode(text) => {
                &&& turn matches Turn::Reply { response, last }
                &&& !last
                &&& response.seq == 0
                &&& response.response is None
                &&& response.error matches Some(e)
                &&& e.code == ErrorCode::ErrorInvalidRequest.number()
                &&& e.message@ == "undecodable request: "@ + text@
            },
            _ => turn == Turn::Stop(Err(failure)),
        },
{
}

/// In a run of the control loop, a capture that runs before a turn runs when the
/// turn is decided on. If it does not run after the turn, it ended on the event
/// stream while a handler ran, or the request was a `Reset`.
pub proof fn law_turns_do_not_end_captures(x: Exchange, request: Request)
    requires
        x.is_served(),
        x.received == Ok::<Request, Error>(request),
        x.running,
    ensures
        x.running_then,
        x.turn is Reply ==> x.running_after,
        !(request.request matches Some(request::Request::Reset(_))) && x.turn is Call ==> exists|
            outcome: Outcome,
            running_returned: bool,
            answer: Result<response::Response, proto::Error>,
        |
            x.running_after == running_returned && #[trigger] session::concludes(
                x.greeted,
                running_returned,
                outcome,
                answer,
                x.greeted_after,
                x.running_after,
            ),
{
    if let Turn::Call { seq, call } = x.turn {
        law_turns_follow_requests(x.greeted, x.running, request, x.turn, x.running_then);
        let answer = choose|answer: Result<response::Response, proto::Error>|
            #[trigger] session::is_response(seq, answer, x.response) && x.is_answered_by(
                call,
                answer,
            );
        let (outcome, running_returned) = choose|outcome: Outcome, running_returned: bool|
            {
                &&& outcome.is_of(call)
                &&& running_returned ==> x.running_then
                &&& #[trigger] session::concludes(
                    x.greeted,
                    running_returned,
                    outcome,
                    answer,
                    x.greeted_after,
                    x.running_after,
                )
            };
        law_captures_outlast_their_handlers(
            x.greeted,
            running_returned,
            outcome,
            answer,
            x.greeted_after,
            x.running_after,
        );
    }
}

} // verus!
