// SPDX-License-Identifier: Apache-2.0
//! Frontend side of the protocol: the argv a plugin is launched with, the
//! requests on its control socket, and what its replies come to.
//!
//! The frontend listens on both sockets before spawning the plugin, which then
//! dials them, so there is no window in which the plugin can find nothing to
//! connect to.

use vstd::prelude::*;
use vstd::string::*;

use crate::encoding;
use crate::encoding::{CODECS, ENCODINGS};
use crate::error::Error;
use crate::proto;
use crate::proto::request;
use crate::proto::response;
use crate::proto::{
    AcquireMode, AcquireStart, AcquireStop, Codec, Config, Describe, Description,
    GetConfig, Hello, HelloResult, Request, Reset, Response, SampleEncoding, SetConfig, Shutdown,
};
use crate::server::args;
use crate::server::session;
use crate::text;
use crate::text::decimal_string;
use crate::transport::Endpoints;
use crate::PROTOCOL_VERSION;

verus! {

/// Seconds to wait for a reply: long enough for the slowest thing a plugin does
/// while answering a request, which is an fx2 firmware upload.
pub const REQUEST_TIMEOUT: u64 = 60;

/// What a frontend keeps of one plugin process.
#[derive(Debug)]
pub struct CaptureClient {
    seq: u32,
    capture_id: u64,
}

/// There is nothing to spawn without a program.
pub fn check_argv(argv: &[String]) -> (r: Result<(), Error>)
    ensures
        argv@.len() > 0 ==> r == Ok::<(), Error>(()),
        argv@.len() == 0 ==> (r matches Err(e) && e.is_protocol("plugin has an empty argv"@)),
{
    if argv.len() == 0 {
        return Err(Error::Protocol("plugin has an empty argv".to_owned()));
    }
    Ok(())
}

/// The arguments that tell a plugin what to drive and where to dial.
pub open spec fn launch_flags(
    device: Seq<char>,
    control: Seq<char>,
    events: Seq<char>,
) -> Seq<Seq<char>> {
    seq!["--device"@, device, "--control"@, control, "--events"@, events]
}

/// A reply to the request numbered `seq` comes to `outcome`, as far as every
/// request is concerned.
pub open spec fn replies(
    seq: u32,
    received: Result<Response, Error>,
    outcome: Result<response::Response, Error>,
) -> bool {
    match received {
        Err(e) => outcome == Err::<response::Response, Error>(e),
        Ok(reply) => if reply.seq != seq {
            outcome matches Err(e) && e.is_protocol(
                "plugin answered request "@ + text::decimal(seq as nat) + " with a reply to "@
                    + text::decimal(reply.seq as nat),
            )
        } else {
            match (reply.error, reply.response) {
                (Some(e), _) => outcome == Err::<response::Response, Error>(Error::Remote(e)),
                (None, Some(r)) => outcome == Ok::<response::Response, Error>(r),
                (None, None) => outcome matches Err(e) && e.is_protocol(
                    "reply carries neither result nor error"@,
                ),
            }
        },
    }
}

/// What is wrong with a reply of the wrong arm.
pub open spec fn unexpected_text(request: Seq<char>, got: response::Response) -> Seq<char> {
    request + " answered with a "@ + got.arm_name()@ + " result"@
}

fn unexpected(request: &str, got: &response::Response) -> (e: Error)
    ensures
        e.is_protocol(unexpected_text(request@, *got)),
{
    let mut message = request.to_owned();
    message.append(" answered with a ");
    message.append(got.arm_name());
    message.append(" result");
    Error::Protocol(message)
}

/// The reply to the request numbered `seq`, which is the one named `request`,
/// comes to `r`. Every request has exactly one legal reply arm; `pick` takes the
/// result out of it.
pub open spec fn is_answer<T>(
    seq: u32,
    received: Result<Response, Error>,
    request: Seq<char>,
    pick: spec_fn(response::Response) -> Option<T>,
    r: Result<T, Error>,
) -> bool {
    exists|outcome: Result<response::Response, Error>|
        #[trigger] replies(seq, received, outcome) && match outcome {
            Err(e) => r == Err::<T, Error>(e),
            Ok(got) => match pick(got) {
                Some(result) => r == Ok::<T, Error>(result),
                None => r matches Err(e) && e.is_protocol(unexpected_text(request, got)),
            },
        }
}

impl CaptureClient {
    /// The number of the last request.
    pub closed spec fn seq(&self) -> u32 {
        self.seq
    }

    /// The last capture id that was assigned.
    pub closed spec fn last_capture_id(&self) -> u64 {
        self.capture_id
    }

    /// What to spawn: `argv`, with the device URL and the two socket URLs
    /// appended.
    pub fn launch(argv: &[String], device: &str, endpoints: &Endpoints) -> (r: Result<
        (CaptureClient, Vec<String>),
        Error,
    >)
        ensures
            argv@.len() == 0 ==> (r matches Err(e) && e.is_protocol("plugin has an empty argv"@)),
            argv@.len() > 0 ==> (r matches Ok((client, command)) && {
                &&& client.seq() == 0
                &&& client.last_capture_id() == 0
                &&& text::texts(command@) == text::texts(argv@) + launch_flags(
                    device@,
                    endpoints.control@,
                    endpoints.events@,
                )
            }),
    {
        match check_argv(argv) {
            Ok(_) => {},
            Err(e) => {
                return Err(e);
            },
        }
        let mut command: Vec<String> = Vec::new();
        let mut i: usize = 0;
        while i < argv.len()
            invariant
                i <= argv@.len(),
                command@.len() == i,
                forall|j: int| 0 <= j < i ==> #[trigger] command@[j]@ == argv@[j]@,
            decreases argv@.len() - i,
        {
            command.push(argv[i].clone());
            i = i + 1;
        }
        command.push("--device".to_owned());
        command.push(device.to_owned());
        command.push("--control".to_owned());
        command.push(endpoints.control.clone());
        command.push("--events".to_owned());
        command.push(endpoints.events.clone());
        assert(text::texts(command@) =~= text::texts(argv@) + launch_flags(
            device@,
            endpoints.control@,
            endpoints.events@,
        ));
        Ok((CaptureClient { seq: 0, capture_id: 0 }, command))
    }

    /// Capture ids are the frontend's to assign, so that an event arriving
    /// before the `AcquireStart` reply still names a capture it knows about.
    pub fn next_capture_id(&mut self) -> (id: u64)
        requires
            old(self).last_capture_id() < u64::MAX,
        ensures
            id == old(self).last_capture_id() + 1,
            final(self).last_capture_id() == id,
            final(self).seq() == old(self).seq(),
    {
        self.capture_id = self.capture_id + 1;
        self.capture_id
    }

    /// The message that carries `request`, with the next number.
    pub fn request(&mut self, request: request::Request) -> (message: Request)
        ensures
            final(self).seq() == old(self).seq().wrapping_add(1),
            final(self).last_capture_id() == old(self).last_capture_id(),
            message.seq == final(self).seq(),
            message.request == Some(request),
    {
        self.seq = self.seq.wrapping_add(1);
        Request { seq: self.seq, request: Some(request) }
    }

    /// What came back for the last request, whichever it was.
    pub fn reply(&self, received: Result<Response, Error>) -> (outcome: Result<
        response::Response,
        Error,
    >)
        ensures
            replies(self.seq(), received, outcome),
    {
        let reply = match received {
            Ok(reply) => reply,
            Err(e) => {
                return Err(e);
            },
        };
        if reply.seq != self.seq {
            let mut message = "plugin answered request ".to_owned();
            message.append(decimal_string(self.seq as u128).as_str());
            message.append(" with a reply to ");
            message.append(decimal_string(reply.seq as u128).as_str());
            return Err(Error::Protocol(message));
        }
        match (reply.error, reply.response) {
            (Some(e), _) => Err(Error::Remote(e)),
            (None, Some(r)) => Ok(r),
            (None, None) => {
                Err(Error::Protocol("reply carries neither result nor error".to_owned()))
            },
        }
    }

    pub fn hello(&mut self, client_name: &str, client_version: &str) -> (message: Request)
        ensures
            final(self).seq() == old(self).seq().wrapping_add(1),
            final(self).last_capture_id() == old(self).last_capture_id(),
            message.seq == final(self).seq(),
            (message.request matches Some(request::Request::Hello(hello)) && {
                &&& hello.protocol == PROTOCOL_VERSION
                &&& hello.client_name@ == client_name@
                &&& hello.client_version@ == client_version@
                &&& hello.accept_encodings@ == encoding::encoding_numbers(ENCODINGS@)
                &&& hello.accept_codecs@ == encoding::codec_numbers(CODECS@)
            }),
    {
        let hello = Hello {
            protocol: PROTOCOL_VERSION,
            client_name: client_name.to_owned(),
            client_version: client_version.to_owned(),
            accept_encodings: encoding::numbers_of_encodings(ENCODINGS.as_slice()),
            accept_codecs: encoding::numbers_of_codecs(CODECS.as_slice()),
        };
        self.request(request::Request::Hello(hello))
    }

    /// What the plugin answered [`CaptureClient::hello`].
    pub fn hello_reply(&self, received: Result<Response, Error>) -> (r: Result<HelloResult, Error>)
        ensures
            is_answer(
                self.seq(),
                received,
                "Hello"@,
                |got: response::Response|
                    match got {
                        response::Response::Hello(result) => Some(result),
                        _ => None,
                    },
                r,
            ),
    {
        match self.reply(received) {
            Ok(response::Response::Hello(r)) => Ok(r),
            Ok(other) => Err(unexpected("Hello", &other)),
            Err(e) => Err(e),
        }
    }

    pub fn describe(&mut self) -> (message: Request)
        ensures
            final(self).seq() == old(self).seq().wrapping_add(1),
            final(self).last_capture_id() == old(self).last_capture_id(),
            message.seq == final(self).seq(),
            message.request == Some(request::Request::Describe(Describe {  })),
    {
        self.request(request::Request::Describe(Describe {  }))
    }

    /// What the plugin answered [`CaptureClient::describe`].
    pub fn describe_reply(&self, received: Result<Response, Error>) -> (r: Result<
        Description,
        Error,
    >)
        ensures
            is_answer(
                self.seq(),
                received,
                "Describe"@,
                |got: response::Response|
                    match got {
                        response::Response::Describe(result) => Some(result),
                        _ => None,
                    },
                r,
            ),
    {
        match self.reply(received) {
            Ok(response::Response::Describe(r)) => Ok(r),
            Ok(other) => Err(unexpected("Describe", &other)),
            Err(e) => Err(e),
        }
    }

    pub fn get_config(&mut self) -> (message: Request)
        ensures
            final(self).seq() == old(self).seq().wrapping_add(1),
            final(self).last_capture_id() == old(self).last_capture_id(),
            message.seq == final(self).seq(),
            message.request == Some(request::Request::GetConfig(GetConfig {  })),
    {
        self.request(request::Request::GetConfig(GetConfig {  }))
    }

    /// What the plugin answered [`CaptureClient::get_config`].
    pub fn get_config_reply(&self, received: Result<Response, Error>) -> (r: Result<Config, Error>)
        ensures
            is_answer(
                self.seq(),
                received,
                "GetConfig"@,
                |got: response::Response|
                    match got {
                        response::Response::GetConfig(result) => Some(result),
                        _ => None,
                    },
                r,
            ),
    {
        match self.reply(received) {
            Ok(response::Response::GetConfig(r)) => Ok(r),
            Ok(other) => Err(unexpected("GetConfig", &other)),
            Err(e) => Err(e),
        }
    }

    /// Sparse: only the fields present in `config` are applied. The result is
    /// what the device settled on.
    pub fn set_config(&mut self, config: Config) -> (message: Request)
        ensures
            final(self).seq() == old(self).seq().wrapping_add(1),
            final(self).last_capture_id() == old(self).last_capture_id(),
            message.seq == final(self).seq(),
            message.request == Some(
                request::Request::SetConfig(SetConfig { config: Some(config) }),
            ),
    {
        self.request(request::Request::SetConfig(SetConfig { config: Some(config) }))
    }

    /// What the plugin answered [`CaptureClient::set_config`].
    pub fn set_config_reply(&self, received: Result<Response, Error>) -> (r: Result<Config, Error>)
        ensures
            is_answer(
                self.seq(),
                received,
                "SetConfig"@,
                |got: response::Response|
                    match got {
                        response::Response::SetConfig(result) => Some(result),
                        _ => None,
                    },
                r,
            ),
    {
        match self.reply(received) {
            Ok(response::Response::SetConfig(r)) => Ok(r),
            Ok(other) => Err(unexpected("SetConfig", &other)),
            Err(e) => Err(e),
        }
    }

    pub fn acquire_start(&mut self, capture_id: u64, mode: AcquireMode) -> (message: Request)
        ensures
            final(self).seq() == old(self).seq().wrapping_add(1),
            final(self).last_capture_id() == old(self).last_capture_id(),
            message.seq == final(self).seq(),
            message.request == Some(
                request::Request::AcquireStart(AcquireStart { capture_id, mode: mode.number() }),
            ),
    {
        self.request(
            request::Request::AcquireStart(AcquireStart { capture_id, mode: mode.number() }),
        )
    }

    /// What the plugin answered [`CaptureClient::acquire_start`].
    pub fn acquire_start_reply(&self, received: Result<Response, Error>) -> (r: Result<(), Error>)
        ensures
            is_answer(
                self.seq(),
                received,
                "AcquireStart"@,
                |got: response::Response|
                    match got {
                        response::Response::AcquireStart(_) => Some(()),
                        _ => None,
                    },
                r,
            ),
    {
        match self.reply(received) {
            Ok(response::Response::AcquireStart(_)) => Ok(()),
            Ok(other) => Err(unexpected("AcquireStart", &other)),
            Err(e) => Err(e),
        }
    }

    pub fn acquire_stop(&mut self, capture_id: u64) -> (message: Request)
        ensures
            final(self).seq() == old(self).seq().wrapping_add(1),
            final(self).last_capture_id() == old(self).last_capture_id(),
            message.seq == final(self).seq(),
            message.request == Some(
                request::Request::AcquireStop(AcquireStop { capture_id }),
            ),
    {
        self.request(request::Request::AcquireStop(AcquireStop { capture_id }))
    }

    /// What the plugin answered [`CaptureClient::acquire_stop`].
    pub fn acquire_stop_reply(&self, received: Result<Response, Error>) -> (r: Result<(), Error>)
        ensures
            is_answer(
                self.seq(),
                received,
                "AcquireStop"@,
                |got: response::Response|
                    match got {
                        response::Response::AcquireStop(_) => Some(()),
                        _ => None,
                    },
                r,
            ),
    {
        match self.reply(received) {
            Ok(response::Response::AcquireStop(_)) => Ok(()),
            Ok(other) => Err(unexpected("AcquireStop", &other)),
            Err(e) => Err(e),
        }
    }

    pub fn reset(&mut self) -> (message: Request)
        ensures
            final(self).seq() == old(self).seq().wrapping_add(1),
            final(self).last_capture_id() == old(self).last_capture_id(),
            message.seq == final(self).seq(),
            message.request == Some(request::Request::Reset(Reset {  })),
    {
        self.request(request::Request::Reset(Reset {  }))
    }

    /// What the plugin answered [`CaptureClient::reset`].
    pub fn reset_reply(&self, received: Result<Response, Error>) -> (r: Result<(), Error>)
        ensures
            is_answer(
                self.seq(),
                received,
                "Reset"@,
                |got: response::Response|
                    match got {
                        response::Response::Reset(_) => Some(()),
                        _ => None,
                    },
                r,
            ),
    {
        match self.reply(received) {
            Ok(response::Response::Reset(_)) => Ok(()),
            Ok(other) => Err(unexpected("Reset", &other)),
            Err(e) => Err(e),
        }
    }

    /// Ask the plugin to exit; it is reaped once the reply is there, or none
    /// came.
    pub fn shutdown(&mut self) -> (message: Request)
        ensures
            final(self).seq() == old(self).seq().wrapping_add(1),
            final(self).last_capture_id() == old(self).last_capture_id(),
            message.seq == final(self).seq(),
            message.request == Some(request::Request::Shutdown(Shutdown {  })),
    {
        self.request(request::Request::Shutdown(Shutdown {  }))
    }

    /// What the plugin answered [`CaptureClient::shutdown`].
    pub fn shutdown_reply(&self, received: Result<Response, Error>) -> (r: Result<(), Error>)
        ensures
            is_answer(
                self.seq(),
                received,
                "Shutdown"@,
                |got: response::Response|
                    match got {
                        response::Response::Shutdown(_) => Some(()),
                        _ => None,
                    },
                r,
            ),
    {
        match self.reply(received) {
            Ok(response::Response::Shutdown(_)) => Ok(()),
            Ok(other) => Err(unexpected("Shutdown", &other)),
            Err(e) => Err(e),
        }
    }
}

/// A plugin that parses the arguments it was launched with gets back exactly the
/// URLs the frontend passed, whatever characters they hold.
pub proof fn law_launch_flags_parse_back(
    device: Seq<char>,
    control: Seq<char>,
    events: Seq<char>,
)
    ensures
        args::parsed(launch_flags(device, control, events), None, None, None) == Ok::<
            (Seq<char>, Seq<char>, Seq<char>),
            Seq<char>,
        >((device, control, events)),
{
    reveal_strlit("--device");
    reveal_strlit("--control");
    reveal_strlit("--events");
    assert(!"--device"@.contains('='));
    assert(!"--control"@.contains('='));
    assert(!"--events"@.contains('='));
    text::lemma_first_index_tells("--device"@, '=');
    text::lemma_first_index_tells("--control"@, '=');
    text::lemma_first_index_tells("--events"@, '=');
    assert("--device"@[2] == 'd' && "--control"@[2] == 'c' && "--events"@[2] == 'e');
    let all = launch_flags(device, control, events);
    let second = all.skip(2);
    let third = second.skip(2);
    assert(second =~= seq!["--control"@, control, "--events"@, events]);
    assert(third =~= seq!["--events"@, events]);
    assert(third.skip(2) =~= Seq::<Seq<char>>::empty());
    reveal_with_fuel(args::parsed, 4);
}

/// A plugin's answer arrives as it was given: the frontend gets the result, where
/// it is of the arm that answers the request, or the refusal verbatim.
pub proof fn law_answers_arrive<T>(
    seq: u32,
    answer: Result<response::Response, proto::Error>,
    message: Response,
    request: Seq<char>,
    pick: spec_fn(response::Response) -> Option<T>,
    r: Result<T, Error>,
)
    requires
        session::is_response(seq, answer, message),
        is_answer(seq, Ok(message), request, pick, r),
    ensures
        match answer {
            Ok(got) => pick(got) matches Some(result) ==> r == Ok::<T, Error>(result),
            Err(refusal) => r == Err::<T, Error>(Error::Remote(refusal)),
        },
{
}

/// A reply that is out of step with its request yields no result, whatever it
/// carries.
pub proof fn law_out_of_step_replies_are_refused(
    seq: u32,
    message: Response,
    outcome: Result<response::Response, Error>,
)
    requires
        message.seq != seq,
        replies(seq, Ok(message), outcome),
    ensures
        outcome matches Err(Error::Protocol(_)),
{
}

/// Consecutive requests are never numbered alike, so that the reply to one is
/// not taken for the reply to the next.
pub proof fn law_consecutive_requests_differ(seq: u32)
    ensures
        seq.wrapping_add(1) != seq,
{
}

/// A frontend and a plugin that both support what this crate supports agree on
/// all of it.
pub proof fn law_own_ends_agree_on_everything()
    ensures
        encoding::agreed(
            encoding::encoding_numbers(ENCODINGS@),
            encoding::encoding_numbers(ENCODINGS@),
            SampleEncoding::Packed.number(),
        ) == encoding::encoding_numbers(ENCODINGS@),
        encoding::agreed(
            encoding::codec_numbers(CODECS@),
            encoding::codec_numbers(CODECS@),
            Codec::Uncompressed.number(),
        ) == encoding::codec_numbers(CODECS@),
{
    let encodings = encoding::encoding_numbers(ENCODINGS@);
    let codecs = encoding::codec_numbers(CODECS@);
    assert(encodings[1] == SampleEncoding::Packed.number());
    assert(codecs[0] == Codec::Uncompressed.number());
    lemma_filter_keeps_own(encodings);
    lemma_filter_keeps_own(codecs);
}

proof fn lemma_filter_keeps_own(members: Seq<i32>)
    ensures
        members.filter(|m: i32| members.contains(m)) == members,
{
    lemma_filter_keeps(members, |m: i32| members.contains(m));
}

proof fn lemma_filter_keeps(members: Seq<i32>, keep: spec_fn(i32) -> bool)
    requires
        forall|i: int| 0 <= i < members.len() ==> keep(members[i]),
    ensures
        members.filter(keep) == members,
    decreases members.len(),
{
    reveal(Seq::filter);
    if members.len() > 0 {
        lemma_filter_keeps(members.drop_last(), keep);
        assert(members.drop_last().push(members.last()) =~= members);
    }
}

/// A reply comes to exactly one thing: a failure to receive to that failure, a
/// reply to another request to a fault that names both, a refusal to that
/// refusal, even beside a result, and a result to itself, or to a fault where it
/// is of the wrong arm. An empty reply is a fault.
pub proof fn law_replies_come_to_one_thing<T>(
    seq: u32,
    received: Result<Response, Error>,
    request: Seq<char>,
    pick: spec_fn(response::Response) -> Option<T>,
    r: Result<T, Error>,
)
    requires
        is_answer(seq, received, request, pick, r),
    ensures
        match received {
            Err(e) => r == Err::<T, Error>(e),
            Ok(reply) => if reply.seq != seq {
                r matches Err(Error::Protocol(message)) && message@ == "plugin answered request "@
                    + text::decimal(seq as nat) + " with a reply to "@ + text::decimal(
                    reply.seq as nat,
                )
            } else if let Some(refusal) = reply.error {
                r == Err::<T, Error>(Error::Remote(refusal))
            } else if let Some(got) = reply.response {
                match pick(got) {
                    Some(result) => r == Ok::<T, Error>(result),
                    None => r matches Err(Error::Protocol(message)) && message@ == request
                        + " answered with a "@ + got.arm_name()@ + " result"@,
                }
            } else {
                r matches Err(Error::Protocol(message)) && message@
                    == "reply carries neither result nor error"@
            },
        },
{
}

/// Each arm of a result has the name of the request it answers.
pub proof fn law_arms_have_the_names_of_requests(got: response::Response)
    ensures
        got is Hello ==> got.arm_name()@ == "Hello"@,
        got is Describe ==> got.arm_name()@ == "Describe"@,
        got is GetConfig ==> got.arm_name()@ == "GetConfig"@,
        got is SetConfig ==> got.arm_name()@ == "SetConfig"@,
        got is AcquireStart ==> got.arm_name()@ == "AcquireStart"@,
        got is AcquireStop ==> got.arm_name()@ == "AcquireStop"@,
        got is Reset ==> got.arm_name()@ == "Reset"@,
        got is Shutdown ==> got.arm_name()@ == "Shutdown"@,
{
}

/// The flags a plugin is launched with are the three there are, each followed by
/// its value, and nothing else.
pub proof fn law_launch_flags_are_three_settings(
    device: Seq<char>,
    control: Seq<char>,
    events: Seq<char>,
)
    ensures
        launch_flags(device, control, events) == args::argv_of(
            seq![
                args::Setting { flag: "--device"@, value: device, inline: false },
                args::Setting { flag: "--control"@, value: control, inline: false },
                args::Setting { flag: "--events"@, value: events, inline: false },
            ],
        ),
{
    let three = seq![
        args::Setting { flag: "--device"@, value: device, inline: false },
        args::Setting { flag: "--control"@, value: control, inline: false },
        args::Setting { flag: "--events"@, value: events, inline: false },
    ];
    let two = three.drop_first();
    let one = two.drop_first();
    reveal_with_fuel(args::argv_of, 4);
    assert(two[0] == three[1] && one[0] == three[2]);
    assert(one.drop_first().len() == 0);
    assert(args::argv_of(three) =~= launch_flags(device, control, events));
}

} // verus!
