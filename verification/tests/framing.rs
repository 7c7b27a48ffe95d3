// SPDX-License-Identifier: Apache-2.0
use openmso::framing::{MessageStream, Read};
use openmso::{IoError, IoErrorKind};
use serde_json::Value;

fn object(members: Vec<(&str, Value)>) -> Value {
    let mut map = serde_json::Map::new();
    for (key, value) in members {
        map.insert(key.to_string(), value);
    }
    Value::Object(map)
}

/// A stream over the whole of `input`, which ends after it.
fn stream_of(input: &[u8]) -> MessageStream {
    let mut stream = MessageStream::new();
    if !input.is_empty() {
        stream.feed(input);
    }
    stream.feed(&[]);
    stream
}

fn message(stream: &mut MessageStream) -> (Value, Option<Vec<u8>>) {
    match stream.read_message() {
        Ok(Read::Message(value, payload)) => (value, payload),
        other => panic!("no message: {other:?}"),
    }
}

fn fault(stream: &mut MessageStream) -> String {
    match stream.read_message() {
        Err(e) => {
            assert_eq!(e.kind, IoErrorKind::InvalidData);
            e.text
        }
        other => panic!("no fault: {other:?}"),
    }
}

fn roundtrip(msg: &Value, payload: Option<&[u8]>) -> (Value, Option<Vec<u8>>) {
    let mut out = MessageStream::new();
    out.write_message(msg, payload).unwrap();
    let wire = out.take_output();
    message(&mut stream_of(&wire))
}

#[test]
fn plain_message_roundtrip() {
    let msg = object(vec![
        ("jsonrpc", Value::from("2.0")),
        ("id", Value::from(1)),
        ("method", Value::from("scan")),
        ("params", object(vec![])),
    ]);
    let (out, payload) = roundtrip(&msg, None);
    assert_eq!(out, msg);
    assert!(payload.is_none());
}

#[test]
fn binary_payload_roundtrip() {
    let data = b"\x00\x01binary\nwith\nnewlines\xff";
    let msg = object(vec![
        ("jsonrpc", Value::from("2.0")),
        ("method", Value::from("capture.data")),
        ("params", object(vec![("seq", Value::from(0))])),
    ]);
    let (out, payload) = roundtrip(&msg, Some(data));
    assert_eq!(out["binlen"], Value::from(data.len()));
    assert_eq!(payload.as_deref(), Some(&data[..]));
}

#[test]
fn eof_returns_none() {
    assert!(matches!(stream_of(b"").read_message(), Ok(Read::End)));
}

#[test]
fn bad_json_is_error() {
    assert!(stream_of(b"{nope\n").read_message().is_err());
}

#[test]
fn blank_lines_skipped() {
    let (msg, _) = message(&mut stream_of(b"\n  \n{\"a\":1}\n"));
    assert_eq!(msg, object(vec![("a", Value::from(1))]));
}

#[test]
fn the_wire_holds_the_line_and_the_payload() {
    let mut out = MessageStream::new();
    out.write_message(&object(vec![("z", Value::from(true))]), Some(b"xyz")).unwrap();
    out.write_message(&object(vec![("a", Value::Null)]), None).unwrap();
    assert_eq!(out.take_output(), b"{\"binlen\":3,\"z\":true}\nxyz{\"a\":null}\n".to_vec());
    assert_eq!(out.take_output(), Vec::<u8>::new());
}

#[test]
fn a_payload_replaces_what_the_message_declared() {
    let msg = object(vec![("binlen", Value::from(99))]);
    let (out, payload) = roundtrip(&msg, Some(b"ab"));
    assert_eq!(out["binlen"], Value::from(2));
    assert_eq!(payload, Some(b"ab".to_vec()));
}

#[test]
fn only_an_object_carries_a_payload() {
    let mut out = MessageStream::new();
    assert!(out.try_write_message(&Value::from(7), Some(b"ab")).is_none());
    assert_eq!(out.take_output(), Vec::<u8>::new());
    assert!(matches!(out.try_write_message(&Value::from(7), None), Some(Ok(()))));
    assert_eq!(out.take_output(), b"7\n".to_vec());
    let msg = object(vec![]);
    assert!(matches!(out.try_write_message(&msg, Some(b"ab")), Some(Ok(()))));
    assert_eq!(out.take_output(), b"{\"binlen\":2}\nab".to_vec());
}

#[test]
fn bad_json_is_shown_up_to_its_two_hundredth_byte() {
    assert_eq!(
        fault(&mut stream_of(b"{nope\n")),
        "bad JSON line: key must be a string at line 1 column 2: \"{nope\\n\""
    );
    let long = vec![b'x'; 300];
    let shown = format!("\"{}\"", "x".repeat(200));
    assert!(fault(&mut stream_of(&long)).ends_with(&shown));
    assert!(fault(&mut stream_of(b"\xff\n")).ends_with(": \"\u{fffd}\\n\""));
}

#[test]
fn a_message_is_an_object() {
    assert_eq!(fault(&mut stream_of(b"[1]\n")), "message is not an object");
    assert_eq!(fault(&mut stream_of(b"\"{\"\n")), "message is not an object");
}

#[test]
fn binlen_is_a_whole_number() {
    assert_eq!(fault(&mut stream_of(b"{\"binlen\": -1}\n")), "invalid binlen: -1");
    assert_eq!(fault(&mut stream_of(b"{\"binlen\": 1.0}\n")), "invalid binlen: 1.0");
    assert_eq!(fault(&mut stream_of(b"{\"binlen\": \"3\"}\nabc")), "invalid binlen: \"3\"");
    assert_eq!(message(&mut stream_of(b"{\"binlen\": null}\nabc")).1, None);
    assert_eq!(message(&mut stream_of(b"{\"binlen\": 0}\nabc")).1, Some(vec![]));
}

#[test]
fn input_that_ends_inside_a_payload_is_at_fault() {
    let mut stream = stream_of(b"{\"binlen\": 4}\nabc");
    assert_eq!(
        fault(&mut stream),
        "EOF inside binary payload: failed to fill whole buffer"
    );
    // What was left of the input is gone with the fault.
    assert!(matches!(stream.read_message(), Ok(Read::More)));
    stream.feed(&[]);
    assert!(matches!(stream.read_message(), Ok(Read::End)));
}

#[test]
fn reading_goes_on_after_a_fault() {
    let mut stream = stream_of(b"[]\n{\"binlen\":\"x\"}\n{\"a\":1}\n");
    fault(&mut stream);
    fault(&mut stream);
    assert_eq!(message(&mut stream).0["a"], Value::from(1));
    assert!(matches!(stream.read_message(), Ok(Read::End)));
}

#[test]
fn the_last_line_needs_no_line_feed() {
    assert_eq!(message(&mut stream_of(b"{\"a\":1}")).0["a"], Value::from(1));
    assert_eq!(message(&mut stream_of(b"\n {}")).0, object(vec![]));
}

#[test]
fn messages_may_arrive_byte_by_byte() {
    let mut out = MessageStream::new();
    let first = object(vec![("n", Value::from(1))]);
    let second = object(vec![("n", Value::from(2))]);
    out.write_message(&first, Some(b"\n\n{")).unwrap();
    out.write_message(&second, None).unwrap();
    let mut stream = MessageStream::new();
    let mut read = Vec::new();
    for byte in out.take_output() {
        stream.feed(&[byte]);
        while let Read::Message(value, payload) = stream.read_message().unwrap() {
            read.push((value["n"].clone(), payload));
        }
    }
    assert_eq!(
        read,
        vec![(Value::from(1), Some(b"\n\n{".to_vec())), (Value::from(2), None)]
    );
    assert!(matches!(stream.read_message(), Ok(Read::More)));
}

#[test]
fn a_failed_read_within_a_payload_is_a_fault_of_the_input() {
    let broken = || IoError { kind: IoErrorKind::Other, text: "pipe broke".to_string() };
    let mut stream = MessageStream::new();
    stream.feed(b"{\"binlen\": 4");
    let e = stream.read_failed(broken());
    assert_eq!((e.kind, e.text.as_str()), (IoErrorKind::Other, "pipe broke"));
    stream.feed(b"{\"binlen\": 4}\nab");
    let e = stream.read_failed(broken());
    assert_eq!(
        (e.kind, e.text.as_str()),
        (IoErrorKind::InvalidData, "EOF inside binary payload: pipe broke")
    );
}

#[test]
fn a_failed_read_drops_the_part_of_a_message_that_was_there() {
    let broken = || IoError { kind: IoErrorKind::Other, text: "pipe broke".to_string() };
    let mut stream = MessageStream::new();
    stream.feed(b"\n{\"lost\": tr");
    stream.read_failed(broken());
    stream.feed(b"{\"binlen\": 4}\nab");
    stream.read_failed(broken());
    stream.feed(b"{\"a\":1}\n");
    // Nothing is missing of this one.
    stream.read_failed(broken());
    assert_eq!(message(&mut stream).0, object(vec![("a", Value::from(1))]));
    assert!(matches!(stream.read_message(), Ok(Read::More)));
}

#[test]
fn input_may_go_on_after_it_has_ended() {
    let mut stream = stream_of(b"");
    assert!(matches!(stream.read_message(), Ok(Read::End)));
    assert!(matches!(stream.read_message(), Ok(Read::More)));
    stream.feed(b"{\"a\":1}");
    stream.feed(&[]);
    assert_eq!(message(&mut stream).0["a"], Value::from(1));
    assert!(matches!(stream.read_message(), Ok(Read::More)));
    stream.feed(b"{\"a\":2}\n");
    assert_eq!(message(&mut stream).0["a"], Value::from(2));
}

#[test]
fn messages_are_read_back_in_order() {
    let payloads: [Option<&[u8]>; 4] = [None, Some(b"\n{}\n"), Some(b""), None];
    let mut out = MessageStream::new();
    for (i, payload) in payloads.iter().enumerate() {
        out.write_message(&object(vec![("i", Value::from(i))]), *payload).unwrap();
    }
    let wire = out.take_output();
    let mut stream = stream_of(&wire);
    for (i, payload) in payloads.iter().enumerate() {
        let (msg, got) = message(&mut stream);
        let mut expected = vec![("i", Value::from(i))];
        if let Some(p) = payload {
            expected.push(("binlen", Value::from(p.len())));
        }
        assert_eq!(msg, object(expected));
        assert_eq!(got.as_deref(), *payload);
    }
    assert!(matches!(stream.read_message(), Ok(Read::End)));
}

#[test]
fn messages_survive_as_deep_as_they_can_be_decoded() {
    let nested = |depth: usize| {
        let mut value = object(vec![("s", Value::from("a.b\"\\\n\u{1}1e5 [{"))]);
        for _ in 1..depth {
            value = object(vec![("n", Value::from(-7)), ("v", value)]);
        }
        value
    };
    let deep = nested(127);
    assert_eq!(roundtrip(&deep, None).0, deep);
    let mut out = MessageStream::new();
    out.write_message(&nested(128), None).unwrap();
    let wire = out.take_output();
    assert!(fault(&mut stream_of(&wire)).starts_with("bad JSON line: recursion limit exceeded"));
}

#[test]
fn a_message_that_declares_a_payload_it_lacks_takes_what_follows() {
    let mut out = MessageStream::new();
    out.write_message(&object(vec![("binlen", Value::from(3))]), None).unwrap();
    out.write_message(&object(vec![]), None).unwrap();
    let wire = out.take_output();
    let mut stream = stream_of(&wire);
    assert_eq!(message(&mut stream).1, Some(b"{}\n".to_vec()));
    assert!(matches!(stream.read_message(), Ok(Read::End)));
}

#[test]
fn an_end_that_closes_a_line_closes_nothing_else() {
    // A blank line: the input is asked again before it counts as ended.
    let mut stream = stream_of(b"  ");
    assert!(matches!(stream.read_message(), Ok(Read::More)));
    stream.feed(b"{\"a\":1}\n");
    assert_eq!(message(&mut stream).0["a"], Value::from(1));
    let mut stream = stream_of(b" ");
    stream.feed(&[]);
    assert!(matches!(stream.read_message(), Ok(Read::End)));
    // A line that declares a payload: the payload may still come.
    let mut stream = stream_of(b"{\"binlen\":3}");
    assert!(matches!(stream.read_message(), Ok(Read::More)));
    stream.feed(b"abcd");
    assert_eq!(message(&mut stream).1, Some(b"abc".to_vec()));
    assert!(matches!(stream.read_message(), Ok(Read::More)));
    let mut stream = stream_of(b"{\"binlen\":3}");
    stream.feed(b"ab");
    stream.feed(&[]);
    stream.feed(b"{}\n");
    assert_eq!(
        fault(&mut stream),
        "EOF inside binary payload: failed to fill whole buffer"
    );
    assert_eq!(message(&mut stream).0, object(vec![]));
}

#[test]
fn each_end_is_told_once() {
    let mut stream = stream_of(b"{}\n");
    stream.feed(&[]);
    message(&mut stream);
    assert!(matches!(stream.read_message(), Ok(Read::End)));
    assert!(matches!(stream.read_message(), Ok(Read::End)));
    assert!(matches!(stream.read_message(), Ok(Read::More)));
}
