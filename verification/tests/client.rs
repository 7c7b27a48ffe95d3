// SPDX-License-Identifier: Apache-2.0
use openmso::client::{check_argv, CaptureClient, REQUEST_TIMEOUT};
use openmso::encoding::{negotiate_codecs, negotiate_encodings, CODECS, ENCODINGS};
use openmso::proto;
use openmso::proto::{
    request, response, AcquireMode, Config, Description, Empty, HelloResult, Response,
};
use openmso::server::{respond, Args};
use openmso::transport::Endpoints;
use openmso::Error;

fn endpoints() -> Endpoints {
    Endpoints::create("/run", 1).unwrap()
}

fn client() -> CaptureClient {
    CaptureClient::launch(&["plugin".to_string()], "demo://0", &endpoints()).unwrap().0
}

fn fault<T: std::fmt::Debug>(r: Result<T, Error>) -> String {
    match r {
        Err(Error::Protocol(text)) => text,
        other => panic!("no protocol error: {other:?}"),
    }
}

fn result(seq: u32, result: response::Response) -> Result<Response, Error> {
    Ok(Response { seq, error: None, response: Some(result) })
}

#[test]
fn a_plugin_is_launched_with_three_urls() {
    let argv = ["python3", "-u", "plugin.py"].map(String::from);
    let (_, command) = CaptureClient::launch(&argv, "demo://0", &endpoints()).unwrap();
    assert_eq!(
        command,
        ["python3", "-u", "plugin.py", "--device", "demo://0", "--control",
         "ipc:///run/openmso/0001/ctl", "--events", "ipc:///run/openmso/0001/evt"]
    );
}

#[test]
fn a_plugin_parses_what_it_was_launched_with() {
    let (_, command) =
        CaptureClient::launch(&["p".to_string()], "--control=odd", &endpoints()).unwrap();
    let args = Args::parse(command[1..].to_vec()).unwrap();
    assert_eq!(args.device, "--control=odd");
    assert_eq!(args.control, endpoints().control);
    assert_eq!(args.events, endpoints().events);
}

#[test]
fn an_empty_argv_is_refused() {
    assert_eq!(fault(check_argv(&[])), "plugin has an empty argv");
    assert_eq!(
        fault(CaptureClient::launch(&[], "demo://0", &endpoints())),
        "plugin has an empty argv"
    );
    assert!(check_argv(&["p".to_string()]).is_ok());
}

#[test]
fn capture_ids_count_up() {
    let mut c = client();
    assert_eq!((c.next_capture_id(), c.next_capture_id()), (1, 2));
}

#[test]
fn requests_are_numbered() {
    let mut c = client();
    for seq in 1..=3 {
        assert_eq!(c.describe().seq, seq);
    }
    assert_eq!(REQUEST_TIMEOUT, 60);
}

#[test]
fn each_request_holds_what_it_was_made_of() {
    let mut c = client();
    match c.hello("scope", "1.2").request {
        Some(request::Request::Hello(hello)) => {
            assert_eq!(hello.protocol, 1);
            assert_eq!(hello.client_name, "scope");
            assert_eq!(hello.client_version, "1.2");
            // The two ends of this crate agree on all that it supports.
            let encodings: Vec<i32> = ENCODINGS.iter().map(|e| *e as i32).collect();
            let codecs: Vec<i32> = CODECS.iter().map(|c| *c as i32).collect();
            assert_eq!(hello.accept_encodings, encodings);
            assert_eq!(hello.accept_codecs, codecs);
            assert_eq!(negotiate_encodings(&hello.accept_encodings, &ENCODINGS), encodings);
            assert_eq!(negotiate_codecs(&hello.accept_codecs, &CODECS), codecs);
        }
        other => panic!("{other:?}"),
    }
    assert!(matches!(c.describe().request, Some(request::Request::Describe(_))));
    assert!(matches!(c.get_config().request, Some(request::Request::GetConfig(_))));
    match c.set_config(Config { encoded: vec![5] }).request {
        Some(request::Request::SetConfig(set)) => {
            assert_eq!(set.config.unwrap().encoded, vec![5]);
        }
        other => panic!("{other:?}"),
    }
    match c.acquire_start(7, AcquireMode::AcquireContinuous).request {
        Some(request::Request::AcquireStart(start)) => {
            assert_eq!((start.capture_id, start.mode), (7, 2));
        }
        other => panic!("{other:?}"),
    }
    match c.acquire_stop(7).request {
        Some(request::Request::AcquireStop(stop)) => assert_eq!(stop.capture_id, 7),
        other => panic!("{other:?}"),
    }
    assert!(matches!(c.reset().request, Some(request::Request::Reset(_))));
    assert!(matches!(c.shutdown().request, Some(request::Request::Shutdown(_))));
}

#[test]
fn each_reply_yields_its_result() {
    let mut c = client();
    let seq = c.hello("a", "b").seq;
    let hello = HelloResult {
        protocol: 1,
        plugin: None,
        capabilities: None,
        device: None,
        encodings: vec![3],
        codecs: vec![],
    };
    let r = c.hello_reply(result(seq, response::Response::Hello(hello))).unwrap();
    assert_eq!(r.encodings, vec![3]);
    let seq = c.describe().seq;
    let description = Description { encoded: vec![4] };
    let r = c.describe_reply(result(seq, response::Response::Describe(description))).unwrap();
    assert_eq!(r.encoded, vec![4]);
    let seq = c.get_config().seq;
    let config = Config { encoded: vec![5] };
    let r = c.get_config_reply(result(seq, response::Response::GetConfig(config))).unwrap();
    assert_eq!(r.encoded, vec![5]);
    let seq = c.set_config(Config::default()).seq;
    let config = Config { encoded: vec![6] };
    let r = c.set_config_reply(result(seq, response::Response::SetConfig(config))).unwrap();
    assert_eq!(r.encoded, vec![6]);
    let seq = c.acquire_start(1, AcquireMode::AcquireSingle).seq;
    assert!(c.acquire_start_reply(result(seq, response::Response::AcquireStart(Empty {}))).is_ok());
    let seq = c.acquire_stop(1).seq;
    assert!(c.acquire_stop_reply(result(seq, response::Response::AcquireStop(Empty {}))).is_ok());
    let seq = c.reset().seq;
    assert!(c.reset_reply(result(seq, response::Response::Reset(Empty {}))).is_ok());
    let seq = c.shutdown().seq;
    assert!(c.shutdown_reply(result(seq, response::Response::Shutdown(Empty {}))).is_ok());
}

#[test]
fn a_reply_of_the_wrong_arm_is_a_plugin_bug() {
    let mut c = client();
    let seq = c.reset().seq;
    let wrong = || result(seq, response::Response::AcquireStop(Empty {}));
    assert_eq!(fault(c.hello_reply(wrong())), "Hello answered with a AcquireStop result");
    assert_eq!(fault(c.describe_reply(wrong())), "Describe answered with a AcquireStop result");
    assert_eq!(fault(c.get_config_reply(wrong())), "GetConfig answered with a AcquireStop result");
    assert_eq!(fault(c.set_config_reply(wrong())), "SetConfig answered with a AcquireStop result");
    assert_eq!(
        fault(c.acquire_start_reply(wrong())),
        "AcquireStart answered with a AcquireStop result"
    );
    assert_eq!(fault(c.reset_reply(wrong())), "Reset answered with a AcquireStop result");
    assert_eq!(fault(c.shutdown_reply(wrong())), "Shutdown answered with a AcquireStop result");
    let wrong = result(seq, response::Response::Reset(Empty {}));
    assert_eq!(fault(c.acquire_stop_reply(wrong)), "AcquireStop answered with a Reset result");
}

#[test]
fn a_reply_out_of_step_is_refused() {
    let mut c = client();
    c.reset();
    c.reset();
    assert_eq!(
        fault(c.reset_reply(result(1, response::Response::Reset(Empty {})))),
        "plugin answered request 2 with a reply to 1"
    );
}

#[test]
fn an_empty_reply_is_refused() {
    let mut c = client();
    let seq = c.reset().seq;
    let empty = Ok(Response { seq, error: None, response: None });
    assert_eq!(fault(c.reset_reply(empty)), "reply carries neither result nor error");
}

#[test]
fn a_refusal_arrives_verbatim() {
    let mut c = client();
    let seq = c.reset().seq;
    let refusal = proto::Error::busy("later".to_string());
    match c.reset_reply(Ok(respond(seq, Err(refusal)))) {
        Err(Error::Remote(e)) => assert_eq!((e.code, e.message.as_str()), (
            proto::ErrorCode::ErrorBusy as i32,
            "later",
        )),
        other => panic!("{other:?}"),
    }
    // A refusal outweighs a result that comes with it.
    let both = Ok(Response {
        seq,
        error: Some(proto::Error::device("d".to_string())),
        response: Some(response::Response::Reset(Empty {})),
    });
    assert!(matches!(c.reset_reply(both), Err(Error::Remote(_))));
}

#[test]
fn a_failure_of_the_socket_is_passed_on() {
    let mut c = client();
    c.reset();
    match c.reset_reply(Err(Error::Decode("cut short".to_string()))) {
        Err(Error::Decode(text)) => assert_eq!(text, "cut short"),
        other => panic!("{other:?}"),
    }
}
