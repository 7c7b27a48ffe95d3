// SPDX-License-Identifier: Apache-2.0
//! The server's state machine, driven by a frontend that speaks
//! `Request`/`Response` by hand rather than through `CaptureClient`.

use std::cell::RefCell;
use std::collections::VecDeque;
use std::rc::Rc;

use openmso::encoding::decode_transition;
use openmso::proto;
use openmso::proto::{
    event, request, response, AcquireMode, AcquireStart, AcquireStop, CaptureBegin, CaptureEnd,
    Config, Describe, Description, DeviceLost, Empty, ErrorCode, Event, GetConfig, Hello,
    HelloResult, Request, Reset, Response, SetConfig, Shutdown,
};
use openmso::server::{
    hello_result, perform, Call, CaptureServer, Events, Outcome, Session, StreamSender, Turn,
};
use openmso::{Error, NngError, NngErrorKind, Reply};

const UNITSIZE: usize = 1;
/// Two chunks' worth, so the splitting in `StreamSender` is exercised.
const SAMPLES: usize = (1 << 20) + 5000;

/// The event stream, with what is in flight on it.
struct Wire {
    events: Events,
    sent: VecDeque<Event>,
}

type Stream = Rc<RefCell<Wire>>;

fn push(stream: &Stream, event: event::Event) {
    let mut wire = stream.borrow_mut();
    let message = wire.events.send(event);
    wire.sent.push_back(message);
}

/// A plugin whose acquisitions happen within the calls that start and stop them.
struct Stub {
    stream: Option<Stream>,
    running: Option<u64>,
    refuse_start: bool,
    refuse_hello: bool,
    refuse_reset: bool,
    stops: usize,
    shut_down: bool,
}

impl Stub {
    fn new() -> Stub {
        Stub {
            stream: None,
            running: None,
            refuse_start: false,
            refuse_hello: false,
            refuse_reset: false,
            stops: 0,
            shut_down: false,
        }
    }

    fn end(&mut self) {
        if let (Some(stream), Some(capture_id)) = (&self.stream, self.running.take()) {
            push(stream, event::Event::CaptureEnd(CaptureEnd { capture_id, error: None }));
        }
    }
}

impl CaptureServer for Stub {
    type Stream = Stream;

    fn hello(&mut self, req: &Hello, _stream: &Stream) -> Reply<HelloResult> {
        if self.refuse_hello {
            return Err(proto::Error::device("no such device".to_string()));
        }
        Ok(hello_result(req, Default::default(), Default::default(), Default::default()))
    }

    fn describe(&mut self) -> Reply<Description> {
        Ok(Description::default())
    }

    fn get_config(&mut self) -> Reply<Config> {
        Ok(Config { encoded: vec![1, 2] })
    }

    fn set_config(&mut self, config: &Config) -> Reply<Config> {
        Ok(config.clone())
    }

    fn acquire_start(&mut self, req: &AcquireStart, stream: &Stream) -> Reply<()> {
        if self.refuse_start {
            return Err(proto::Error::device("not now".to_string()));
        }
        let capture_id = req.capture_id;
        let continuous = req.mode == AcquireMode::AcquireContinuous as i32;
        self.stream = Some(stream.clone());
        self.running = Some(capture_id);
        push(
            stream,
            event::Event::CaptureBegin(CaptureBegin {
                capture_id,
                samplerate_bits: 1e6f64.to_bits(),
                streams: vec![],
            }),
        );
        let mut sender = StreamSender::new(capture_id, 0, 0, UNITSIZE).transition();
        for data in sender.send(&vec![0xa5u8; SAMPLES]) {
            push(stream, event::Event::Data(data));
        }
        if !continuous {
            self.end();
        }
        Ok(())
    }

    fn acquire_stop(&mut self, _req: &AcquireStop) -> Reply<()> {
        self.stops += 1;
        self.end();
        Ok(())
    }

    fn reset(&mut self) -> Reply<()> {
        if self.refuse_reset {
            return Err(proto::Error::unsupported("no reset".to_string()));
        }
        self.running = None;
        Ok(())
    }

    fn shutdown(&mut self) {
        self.shut_down = true;
    }
}

/// The frontend half, with the plugin's control loop behind it.
struct Harness {
    session: Session,
    plugin: Stub,
    stream: Stream,
    seq: u32,
    over: bool,
}

impl Harness {
    fn start() -> Harness {
        Harness {
            session: Session::new(),
            plugin: Stub::new(),
            stream: Rc::new(RefCell::new(Wire { events: Events::new(), sent: VecDeque::new() })),
            seq: 0,
            over: false,
        }
    }

    /// One turn of the plugin's control loop.
    fn exchange(&mut self, received: Result<Request, Error>) -> Response {
        let turn = self.session.serve(&mut self.stream.borrow_mut().events, received);
        match turn {
            Turn::Reply { response, last } => {
                if last {
                    self.plugin.shutdown();
                    self.over = true;
                }
                response
            }
            Turn::Call { seq, call } => {
                let outcome = perform(&mut self.plugin, &self.stream, call);
                self.session.answer(&mut self.stream.borrow_mut().events, seq, outcome)
            }
            Turn::Stop(r) => panic!("stopped: {r:?}"),
        }
    }

    fn send(&mut self, request: request::Request) -> Response {
        self.seq += 1;
        let response = self.exchange(Ok(Request { seq: self.seq, request: Some(request) }));
        assert_eq!(response.seq, self.seq, "reply is out of step with the request");
        response
    }

    fn ok(&mut self, request: request::Request) -> response::Response {
        let response = self.send(request);
        assert_eq!(response.error, None, "request was refused");
        response.response.expect("a reply with no error carries a result")
    }

    fn refusal(&mut self, request: request::Request) -> proto::Error {
        let response = self.send(request);
        assert!(response.response.is_none(), "a refusal must not carry a result");
        response.error.expect("expected a refusal")
    }

    fn refused(&mut self, request: request::Request) -> ErrorCode {
        ErrorCode::from_number(self.refusal(request).code).unwrap()
    }

    fn hello(&mut self) {
        self.ok(request::Request::Hello(Hello {
            protocol: openmso::PROTOCOL_VERSION,
            client_name: "test".into(),
            ..Default::default()
        }));
    }

    fn send_raw_empty(&mut self) -> Response {
        self.seq += 1;
        self.exchange(Ok(Request { seq: self.seq, request: None }))
    }

    fn next_event(&self) -> event::Event {
        let event = self.stream.borrow_mut().sent.pop_front().expect("no event in flight");
        event.event.expect("an event with no arm")
    }

    /// Drain a capture, returning the samples it delivered.
    fn drain_capture(&self) -> Vec<u8> {
        let mut samples = Vec::new();
        let mut expected_seq = 0;
        let mut expected_first = 0;
        loop {
            match self.next_event() {
                event::Event::CaptureBegin(_) => {}
                event::Event::Data(data) => {
                    assert_eq!(data.seq, expected_seq, "chunk sequence must not skip");
                    assert_eq!(data.first_sample, expected_first);
                    assert_eq!(data.decoded_len, data.payload.len() as u64);
                    expected_seq += 1;
                    expected_first += data.sample_count;
                    samples.extend(
                        decode_transition(&data.payload, UNITSIZE, data.sample_count as usize)
                            .unwrap(),
                    );
                }
                event::Event::CaptureEnd(end) => {
                    assert_eq!(end.error, None);
                    return samples;
                }
                other => panic!("unexpected event {other:?}"),
            }
        }
    }
}

fn start(capture_id: u64, mode: AcquireMode) -> request::Request {
    request::Request::AcquireStart(AcquireStart { capture_id, mode: mode as i32 })
}

#[test]
fn nothing_is_answered_before_hello() {
    let mut h = Harness::start();
    assert_eq!(
        h.refused(request::Request::Describe(Describe {})),
        ErrorCode::ErrorInvalidRequest
    );
    h.hello();
    h.ok(request::Request::Describe(Describe {}));
    // The handshake happens once per process.
    assert_eq!(
        h.refused(request::Request::Hello(Hello::default())),
        ErrorCode::ErrorInvalidRequest
    );
}

#[test]
fn a_running_capture_blocks_configuration() {
    let mut h = Harness::start();
    h.hello();
    h.ok(request::Request::AcquireStart(AcquireStart {
        capture_id: 7,
        mode: AcquireMode::AcquireContinuous as i32,
    }));

    // The control loop must answer while the acquisition runs.
    for request in [
        request::Request::SetConfig(SetConfig { config: Some(Config::default()) }),
        request::Request::GetConfig(GetConfig {}),
        request::Request::Describe(Describe {}),
        request::Request::AcquireStart(AcquireStart { capture_id: 8, mode: 2 }),
    ] {
        assert_eq!(h.refused(request), ErrorCode::ErrorBusy);
    }

    h.ok(request::Request::AcquireStop(AcquireStop { capture_id: 7 }));
    let samples = h.drain_capture();
    assert_eq!(samples, vec![0xa5u8; SAMPLES]);

    // CaptureEnd on the event stream is what returns the plugin to READY.
    h.ok(request::Request::SetConfig(SetConfig { config: Some(Config::default()) }));
}

#[test]
fn a_capture_that_ends_on_its_own_returns_to_ready() {
    let mut h = Harness::start();
    h.hello();
    h.ok(request::Request::AcquireStart(AcquireStart {
        capture_id: 1,
        mode: AcquireMode::AcquireSingle as i32,
    }));
    h.drain_capture();

    // Stopping an already-finished capture is a race the frontend must win.
    h.ok(request::Request::AcquireStop(AcquireStop { capture_id: 1 }));
    h.ok(request::Request::Describe(Describe {}));
}

#[test]
fn reset_returns_to_ready_from_a_running_capture() {
    let mut h = Harness::start();
    h.hello();
    h.ok(request::Request::AcquireStart(AcquireStart {
        capture_id: 1,
        mode: AcquireMode::AcquireContinuous as i32,
    }));
    h.ok(request::Request::Reset(Reset {}));
    h.ok(request::Request::AcquireStart(AcquireStart {
        capture_id: 2,
        mode: AcquireMode::AcquireSingle as i32,
    }));
}

#[test]
fn a_request_with_no_arm_is_refused() {
    let mut h = Harness::start();
    h.hello();
    let response = h.send_raw_empty();
    assert_eq!(
        ErrorCode::from_number(response.error.unwrap().code).unwrap(),
        ErrorCode::ErrorInvalidRequest
    );
    h.ok(request::Request::Describe(Describe {}));
}

#[test]
fn shutdown_is_answered() {
    let mut h = Harness::start();
    h.hello();
    assert_eq!(
        h.ok(request::Request::Shutdown(Shutdown {})),
        response::Response::Shutdown(Empty {})
    );
    assert!(h.over && h.plugin.shut_down);
}

#[test]
fn each_refusal_says_why() {
    let mut h = Harness::start();
    let refusal = h.refusal(request::Request::Shutdown(Shutdown {}));
    assert_eq!(refusal.message, "Hello must be the first request");
    assert!(!h.over, "a refused Shutdown does not end the loop");
    assert_eq!(h.send_raw_empty().error.unwrap().message, "request carries no payload");
    h.hello();
    let refusal = h.refusal(request::Request::Hello(Hello::default()));
    assert_eq!(refusal.message, "Hello has already been answered");
    h.ok(start(1, AcquireMode::AcquireContinuous));
    let refusal = h.refusal(request::Request::GetConfig(GetConfig {}));
    assert_eq!(refusal.message, "acquisition in progress");
}

#[test]
fn a_refused_hello_may_be_repeated() {
    let mut h = Harness::start();
    h.plugin.refuse_hello = true;
    let refusal = h.refusal(request::Request::Hello(Hello::default()));
    assert_eq!((refusal.code, refusal.message.as_str()), (
        ErrorCode::ErrorDevice as i32,
        "no such device",
    ));
    assert_eq!(
        h.refused(request::Request::Describe(Describe {})),
        ErrorCode::ErrorInvalidRequest
    );
    h.plugin.refuse_hello = false;
    h.hello();
    h.ok(request::Request::Describe(Describe {}));
}

#[test]
fn a_start_that_fails_leaves_the_plugin_ready() {
    let mut h = Harness::start();
    h.hello();
    h.plugin.refuse_start = true;
    assert_eq!(h.refused(start(1, AcquireMode::AcquireSingle)), ErrorCode::ErrorDevice);
    assert!(!h.stream.borrow().events.is_running());
    h.plugin.refuse_start = false;
    h.ok(start(2, AcquireMode::AcquireContinuous));
    assert!(h.stream.borrow().events.is_running());
}

#[test]
fn a_reset_that_fails_leaves_the_capture_running() {
    let mut h = Harness::start();
    h.hello();
    h.ok(start(1, AcquireMode::AcquireContinuous));
    h.plugin.refuse_reset = true;
    assert_eq!(h.refused(request::Request::Reset(Reset {})), ErrorCode::ErrorUnsupported);
    assert_eq!(h.refused(request::Request::Describe(Describe {})), ErrorCode::ErrorBusy);
}

#[test]
fn stopping_reaches_the_plugin_only_while_a_capture_runs() {
    let mut h = Harness::start();
    h.hello();
    for _ in 0..3 {
        let result = h.ok(request::Request::AcquireStop(AcquireStop { capture_id: 1 }));
        assert!(matches!(result, response::Response::AcquireStop(Empty {})));
    }
    assert_eq!(h.plugin.stops, 0);
    h.ok(start(1, AcquireMode::AcquireContinuous));
    h.ok(request::Request::AcquireStop(AcquireStop { capture_id: 1 }));
    assert_eq!(h.plugin.stops, 1);
    assert!(!h.stream.borrow().events.is_running());
}

#[test]
fn the_loss_of_the_device_ends_the_capture() {
    let mut h = Harness::start();
    h.hello();
    h.ok(start(1, AcquireMode::AcquireContinuous));
    push(&h.stream, event::Event::DeviceLost(DeviceLost { encoded: vec![] }));
    h.ok(request::Request::Describe(Describe {}));
}

#[test]
fn each_handler_is_handed_what_the_request_holds() {
    let mut h = Harness::start();
    h.hello();
    let set = |config| request::Request::SetConfig(SetConfig { config });
    match h.ok(set(Some(Config { encoded: vec![9, 8] }))) {
        response::Response::SetConfig(config) => assert_eq!(config.encoded, vec![9, 8]),
        other => panic!("{other:?}"),
    }
    match h.ok(set(None)) {
        response::Response::SetConfig(config) => assert_eq!(config.encoded, Vec::<u8>::new()),
        other => panic!("{other:?}"),
    }
    match h.ok(request::Request::GetConfig(GetConfig {})) {
        response::Response::GetConfig(config) => assert_eq!(config.encoded, vec![1, 2]),
        other => panic!("{other:?}"),
    }
}

#[test]
fn an_undecodable_request_is_refused_and_the_loop_goes_on() {
    let mut h = Harness::start();
    h.hello();
    let response = h.exchange(Err(Error::Decode("bad tag".to_string())));
    assert_eq!(response.seq, 0);
    assert!(response.response.is_none());
    let refusal = response.error.unwrap();
    assert_eq!(refusal.code, ErrorCode::ErrorInvalidRequest as i32);
    assert_eq!(refusal.message, "undecodable request: bad tag");
    h.ok(request::Request::Describe(Describe {}));
}

#[test]
fn a_dead_pipe_ends_the_loop() {
    let session = Session::new();
    let mut events = Events::new();
    for kind in [
        NngErrorKind::Closed,
        NngErrorKind::ConnectionReset,
        NngErrorKind::ConnectionAborted,
    ] {
        let e = Error::Nng(NngError { kind, text: "gone".to_string() });
        assert!(matches!(session.serve(&mut events, Err(e)), Turn::Stop(Ok(()))));
    }
    let e = Error::Nng(NngError { kind: NngErrorKind::Other, text: "odd".to_string() });
    match session.serve(&mut events, Err(e)) {
        Turn::Stop(Err(Error::Nng(e))) => assert_eq!(e.text, "odd"),
        other => panic!("{other:?}"),
    }
    match session.serve(&mut events, Err(Error::Protocol("p".to_string()))) {
        Turn::Stop(Err(Error::Protocol(text))) => assert_eq!(text, "p"),
        other => panic!("{other:?}"),
    }
}

#[test]
fn hello_agrees_on_what_both_ends_support() {
    let req = Hello { accept_encodings: vec![1, 2], ..Default::default() };
    let result = hello_result(&req, Default::default(), Default::default(), Default::default());
    assert_eq!(result.protocol, 1);
    assert!(result.plugin.is_some() && result.capabilities.is_some() && result.device.is_some());
    let ours = openmso::encoding::negotiate_encodings(&[1, 2], &openmso::encoding::ENCODINGS);
    assert_eq!(result.encodings, ours);
    assert_eq!(result.codecs, vec![proto::Codec::Uncompressed as i32]);
}

/// A plugin that does no more than it must.
struct Bare;

impl CaptureServer for Bare {
    type Stream = ();

    fn hello(&mut self, _req: &Hello, _stream: &()) -> Reply<HelloResult> {
        Err(proto::Error::unsupported("hello".to_string()))
    }

    fn describe(&mut self) -> Reply<Description> {
        Err(proto::Error::unsupported("describe".to_string()))
    }

    fn get_config(&mut self) -> Reply<Config> {
        Err(proto::Error::unsupported("get_config".to_string()))
    }

    fn set_config(&mut self, _config: &Config) -> Reply<Config> {
        Err(proto::Error::unsupported("set_config".to_string()))
    }

    fn acquire_start(&mut self, _req: &AcquireStart, _stream: &()) -> Reply<()> {
        Err(proto::Error::unsupported("acquire_start".to_string()))
    }

    fn acquire_stop(&mut self, _req: &AcquireStop) -> Reply<()> {
        Err(proto::Error::unsupported("acquire_stop".to_string()))
    }
}

#[test]
fn each_call_reaches_its_own_handler() {
    let named = |outcome: Outcome| match outcome {
        Outcome::Hello(Err(e)) => ("hello", e.message),
        Outcome::Describe(Err(e)) => ("describe", e.message),
        Outcome::GetConfig(Err(e)) => ("get_config", e.message),
        Outcome::SetConfig(Err(e)) => ("set_config", e.message),
        Outcome::AcquireStart(Err(e)) => ("acquire_start", e.message),
        Outcome::AcquireStop(Err(e)) => ("acquire_stop", e.message),
        other => panic!("{other:?}"),
    };
    for call in [
        Call::Hello(Hello::default()),
        Call::Describe,
        Call::GetConfig,
        Call::SetConfig(Config::default()),
        Call::AcquireStart(AcquireStart { capture_id: 1, mode: 1 }),
        Call::AcquireStop(AcquireStop { capture_id: 1 }),
    ] {
        let (arm, message) = named(perform(&mut Bare, &(), call));
        assert_eq!(arm, message);
    }
    // A plugin with nothing to abandon resets by doing nothing.
    assert!(matches!(perform(&mut Bare, &(), Call::Reset), Outcome::Reset(Ok(()))));
    Bare.shutdown();
}

#[test]
fn requests_are_answered_in_order() {
    let mut h = Harness::start();
    let hello = || request::Request::Hello(Hello::default());
    let describe = || request::Request::Describe(Describe {});
    let sent: Vec<Option<(u32, Option<request::Request>)>> = vec![
        Some((7, Some(describe()))),
        Some((3, Some(hello()))),
        None,
        Some((3, Some(start(1, AcquireMode::AcquireContinuous)))),
        Some((4, Some(describe()))),
        Some((9, None)),
        Some((5, Some(request::Request::Reset(Reset {})))),
        Some((u32::MAX, Some(request::Request::Shutdown(Shutdown {})))),
    ];
    let refused = [true, false, true, false, true, true, false, false];
    for (q, refused) in sent.into_iter().zip(refused) {
        assert!(!h.over);
        let number = q.as_ref().map_or(0, |(seq, _)| *seq);
        let received = match q {
            Some((seq, request)) => Ok(Request { seq, request }),
            None => Err(Error::Decode("cut short".to_string())),
        };
        let response = h.exchange(received);
        assert_eq!(response.seq, number);
        assert_eq!(response.error.is_some(), refused);
        assert_eq!(response.response.is_some(), !refused);
    }
    assert!(h.over);
}
