// SPDX-License-Identifier: Apache-2.0
//! Framing: newline-delimited JSON messages with optional raw binary payloads.
//!
//! A message is one JSON object per LF-terminated line. If the object carries a
//! top-level integer `binlen`, exactly that many raw bytes follow the LF and
//! form the message's binary payload.
//!
//! An input stream yields signals: a byte, or that it has ended. A stream may go
//! on after it has ended, so each end is a signal of its own, at its own place.

use serde_json::Value;
use vstd::prelude::*;
use vstd::slice::slice_subrange;
use vstd::string::*;
use vstd::utf8;

use crate::error::{IoError, IoErrorKind};
use crate::json;
use crate::text;
use crate::text::{debug_string, lossy_string};

verus! {

/// Line feed.
pub const LF: u8 = 10;

/// How much of a line that is no JSON an error shows.
pub const SHOWN: usize = 200;

/// Space, tab, line feed, form feed or carriage return.
pub open spec fn is_space(byte: u8) -> bool {
    byte == 32 || byte == 9 || byte == 10 || byte == 12 || byte == 13
}

/// A line without a message.
pub open spec fn is_blank(line: Seq<u8>) -> bool {
    forall|i: int| 0 <= i < line.len() ==> is_space(#[trigger] line[i])
}

/// The signals of some bytes that arrive.
pub open spec fn arriving(bytes: Seq<u8>) -> Seq<Option<u8>> {
    bytes.map_values(|byte: u8| Some(byte))
}

/// The bytes of some signals, none of which is an end.
pub open spec fn heard(signals: Seq<Option<u8>>) -> Seq<u8> {
    signals.map_values(|signal: Option<u8>| signal->0)
}

/// A line feed or the end of the input: either closes a line.
pub open spec fn closes_line(signal: Option<u8>) -> bool {
    signal is None || signal == Some(LF)
}

/// How many signals the first line takes, with the one that closes it, if it is
/// closed.
pub open spec fn first_line(input: Seq<Option<u8>>) -> Option<nat>
    decreases input.len(),
{
    if input.len() == 0 {
        None
    } else if closes_line(input[0]) {
        Some(1)
    } else {
        match first_line(input.drop_first()) {
            Some(n) => Some(n + 1),
            None => None,
        }
    }
}

/// The bytes of a closed line: a line feed is one of them, an end is not.
pub open spec fn line_bytes(signals: Seq<Option<u8>>) -> Seq<u8> {
    if signals.last() is None {
        heard(signals.drop_last())
    } else {
        heard(signals)
    }
}

/// Where the input first ends within the next `n` signals.
pub open spec fn end_within(input: Seq<Option<u8>>, n: nat) -> Option<nat>
    decreases n,
{
    if n == 0 || input.len() == 0 {
        None
    } else if input[0] is None {
        Some(0)
    } else {
        match end_within(input.drop_first(), (n - 1) as nat) {
            Some(i) => Some(i + 1),
            None => None,
        }
    }
}

/// What some input comes to.
pub enum Reading {
    /// Nothing yet: the input goes on, within a payload or before it.
    More { within_payload: bool },
    /// There is no further message before the input ends; it may go on after
    /// that.
    End { rest: Seq<Option<u8>> },
    /// The input is at fault, and goes on after it.
    Fault { fault: Seq<char>, rest: Seq<Option<u8>> },
    /// A message, by its compact text, with its payload; the input goes on after
    /// it.
    Message { text: Seq<u8>, payload: Option<Seq<u8>>, rest: Seq<Option<u8>> },
}

/// What is wrong with a line that is no JSON.
pub open spec fn bad_line(line: Seq<u8>, fault: Seq<char>) -> Seq<char> {
    let shown = if line.len() < SHOWN {
        line
    } else {
        line.take(SHOWN as int)
    };
    "bad JSON line: "@ + fault + ": "@ + text::debug_text(text::lossy_text(shown))
}

/// How many payload bytes a message declares, by its compact text: none, or a
/// number that may be no number.
pub open spec fn declared(text: Seq<u8>) -> Option<Option<u64>> {
    let members = json::members(text);
    if !members.contains_key("binlen"@) || json::is_null_text(members["binlen"@]) {
        None
    } else if exists|n: u64| members["binlen"@] == #[trigger] json::numeral(n as nat) {
        Some(Some(choose|n: u64| members["binlen"@] == #[trigger] json::numeral(n as nat)))
    } else {
        Some(None)
    }
}

/// What a line with a message comes to, with the input after it.
pub open spec fn line_reading(line: Seq<u8>, rest: Seq<Option<u8>>) -> Reading {
    match json::decoded(line) {
        Err(fault) => Reading::Fault { fault: bad_line(line, fault), rest },
        Ok(text) => if !json::is_object_text(text) {
            Reading::Fault { fault: "message is not an object"@, rest }
        } else {
            match declared(text) {
                None => Reading::Message { text, payload: None, rest },
                Some(None) => Reading::Fault {
                    fault: "invalid binlen: "@ + utf8::decode_utf8(
                        json::members(text)["binlen"@],
                    ),
                    rest,
                },
                Some(Some(n)) => match end_within(rest, n as nat) {
                    Some(end) => Reading::Fault {
                        fault: "EOF inside binary payload: failed to fill whole buffer"@,
                        rest: rest.skip(end as int + 1),
                    },
                    None => if n <= rest.len() {
                        Reading::Message {
                            text,
                            payload: Some(heard(rest.take(n as int))),
                            rest: rest.skip(n as int),
                        }
                    } else {
                        Reading::More { within_payload: true }
                    },
                },
            }
        },
    }
}

/// What some input comes to. Blank lines are skipped.
pub open spec fn reading(input: Seq<Option<u8>>) -> Reading
    decreases input.len(),
{
    match first_line(input) {
        None => Reading::More { within_payload: false },
        Some(n) => {
            proof {
                lemma_first_line(input);
            }
            let line = line_bytes(input.take(n as int));
            let rest = input.skip(n as int);
            if line.len() == 0 {
                Reading::End { rest }
            } else if is_blank(line) {
                reading(rest)
            } else {
                line_reading(line, rest)
            }
        },
    }
}

/// A line is not empty, within the input, and closed by its last signal alone.
pub proof fn lemma_first_line(input: Seq<Option<u8>>)
    ensures
        match first_line(input) {
            Some(n) => {
                &&& 0 < n <= input.len()
                &&& closes_line(input[n - 1])
                &&& forall|i: int| 0 <= i < n - 1 ==> !closes_line(#[trigger] input[i])
            },
            None => forall|i: int| 0 <= i < input.len() ==> !closes_line(#[trigger] input[i]),
        },
    decreases input.len(),
{
    if input.len() > 0 && !closes_line(input[0]) {
        let rest = input.drop_first();
        lemma_first_line(rest);
        let n = match first_line(rest) {
            Some(n) => n - 1,
            None => rest.len() as int,
        };
        assert forall|i: int| 0 <= i < n + 1 implies !closes_line(#[trigger] input[i]) by {
            if i > 0 {
                assert(rest[i - 1] == input[i]);
            }
        }
    }
}

/// A line is closed by the first signal that closes one.
proof fn lemma_first_line_is(input: Seq<Option<u8>>, n: nat)
    requires
        n < input.len(),
        forall|i: int| 0 <= i < n ==> !closes_line(#[trigger] input[i]),
        closes_line(input[n as int]),
    ensures
        first_line(input) == Some(n + 1),
{
    lemma_first_line(input);
    match first_line(input) {
        Some(m) => {
            if m - 1 < n {
                assert(!closes_line(input[m - 1]));
            } else if m - 1 > n {
                assert(!closes_line(input[n as int]));
            }
        },
        None => {
            assert(!closes_line(input[n as int]));
        },
    }
}

/// An end within some signals is the first of them.
proof fn lemma_end_within(input: Seq<Option<u8>>, n: nat)
    ensures
        match end_within(input, n) {
            Some(end) => {
                &&& end < n
                &&& end < input.len()
                &&& input[end as int] is None
                &&& forall|i: int| 0 <= i < end ==> (#[trigger] input[i]) is Some
            },
            None => forall|i: int|
                0 <= i < n && i < input.len() ==> (#[trigger] input[i]) is Some,
        },
    decreases n,
{
    if n > 0 && input.len() > 0 && input[0] is Some {
        let rest = input.drop_first();
        lemma_end_within(rest, (n - 1) as nat);
        let stop = match end_within(rest, (n - 1) as nat) {
            Some(end) => end as int,
            None => if n - 1 < rest.len() {
                n - 1
            } else {
                rest.len() as int
            },
        };
        assert forall|i: int| 0 <= i < stop + 1 implies (#[trigger] input[i]) is Some by {
            if i > 0 {
                assert(rest[i - 1] == input[i]);
            }
        }
    }
}

/// How many signals the line that starts at `from` takes.
fn line_at(input: &[Option<u8>], from: usize) -> (r: Option<usize>)
    requires
        from <= input@.len(),
    ensures
        match first_line(input@.skip(from as int)) {
            Some(n) => r matches Some(len) && len == n,
            None => r is None,
        },
{
    let ghost rest = input@.skip(from as int);
    let mut i: usize = from;
    while i < input.len()
        invariant
            from <= i <= input@.len(),
            rest == input@.skip(from as int),
            forall|j: int| 0 <= j < i - from ==> !closes_line(#[trigger] rest[j]),
        decreases input@.len() - i,
    {
        assert(rest[i - from] == input@[i as int]);
        let closed = match input[i] {
            Some(byte) => byte == LF,
            None => true,
        };
        if closed {
            proof {
                lemma_first_line_is(rest, (i - from) as nat);
            }
            return Some(i - from + 1);
        }
        i = i + 1;
    }
    proof {
        lemma_first_line(rest);
    }
    None
}

/// The bytes of the signals from `from` to `to`.
fn bytes_between(input: &[Option<u8>], from: usize, to: usize) -> (bytes: Vec<u8>)
    requires
        from <= to <= input@.len(),
        forall|i: int| from <= i < to ==> (#[trigger] input@[i]) is Some,
    ensures
        bytes@ == heard(input@.subrange(from as int, to as int)),
{
    let mut bytes: Vec<u8> = Vec::new();
    let mut i: usize = from;
    while i < to
        invariant
            from <= i <= to <= input@.len(),
            forall|j: int| from <= j < to ==> (#[trigger] input@[j]) is Some,
            bytes@.len() == i - from,
            forall|j: int| 0 <= j < i - from ==> #[trigger] bytes@[j] == input@[from + j]->0,
        decreases to - i,
    {
        if let Some(byte) = input[i] {
            bytes.push(byte);
        }
        i = i + 1;
    }
    assert(bytes@ =~= heard(input@.subrange(from as int, to as int)));
    bytes
}

/// Where the input first ends within the `n` signals from `from` on.
fn end_at(input: &[Option<u8>], from: usize, n: u64) -> (r: Option<usize>)
    requires
        from <= input@.len(),
    ensures
        match end_within(input@.skip(from as int), n as nat) {
            Some(end) => r matches Some(i) && i == end,
            None => r is None,
        },
{
    let ghost rest = input@.skip(from as int);
    proof {
        lemma_end_within(rest, n as nat);
    }
    let mut i: usize = from;
    while i < input.len() && ((i - from) as u64) < n
        invariant
            from <= i <= input@.len(),
            rest == input@.skip(from as int),
            forall|j: int| 0 <= j < i - from ==> (#[trigger] rest[j]) is Some,
        decreases input@.len() - i,
    {
        assert(rest[i - from] == input@[i as int]);
        if input[i].is_none() {
            proof {
                lemma_end_within(rest, n as nat);
            }
            return Some(i - from);
        }
        i = i + 1;
    }
    None
}

fn blank(line: &[u8]) -> (r: bool)
    ensures
        r == is_blank(line@),
{
    let mut i: usize = 0;
    while i < line.len()
        invariant
            i <= line@.len(),
            forall|j: int| 0 <= j < i ==> is_space(#[trigger] line@[j]),
        decreases line@.len() - i,
    {
        let b: u8 = line[i];
        if !(b == 32 || b == 9 || b == 10 || b == 12 || b == 13) {
            assert(!is_space(line@[i as int]));
            return false;
        }
        i = i + 1;
    }
    true
}

/// A fault of the input.
pub open spec fn is_protocol_error(e: IoError, text: Seq<char>) -> bool {
    e.kind == IoErrorKind::InvalidData && e.text@ == text
}

fn protocol_error(text: String) -> (e: IoError)
    ensures
        is_protocol_error(e, text@),
{
    IoError { kind: IoErrorKind::InvalidData, text }
}

/// What a read yields.
#[derive(Debug)]
pub enum Read {
    /// Nothing yet: read more input, and [`feed`](MessageStream::feed) it.
    More,
    /// There is no further message.
    End,
    /// A message, with its payload if it has one.
    Message(Value, Option<Vec<u8>>),
}

/// `r` is what the input comes to.
pub open spec fn is_read(reading: Reading, r: Result<Read, IoError>) -> bool {
    match reading {
        Reading::More { .. } => r == Ok::<Read, IoError>(Read::More),
        Reading::End { .. } => r == Ok::<Read, IoError>(Read::End),
        Reading::Fault { fault, .. } => r matches Err(e) && is_protocol_error(e, fault),
        Reading::Message { text, payload, .. } => {
            &&& r matches Ok(Read::Message(value, bytes))
            &&& json::compact(value) == text
            &&& match payload {
                Some(p) => bytes matches Some(b) && b@ == p,
                None => bytes is None,
            }
        },
    }
}

/// What is left of the input.
pub open spec fn remainder(reading: Reading, input: Seq<Option<u8>>) -> Seq<Option<u8>> {
    match reading {
        Reading::More { .. } => input,
        Reading::End { rest } => rest,
        Reading::Fault { rest, .. } => rest,
        Reading::Message { rest, .. } => rest,
    }
}

/// The payload that a message declares.
fn declared_len(value: &Value) -> (r: Option<Result<u64, IoError>>)
    ensures
        match declared(json::compact(*value)) {
            None => r is None,
            Some(Some(n)) => r == Some(Ok::<u64, IoError>(n)),
            Some(None) => r matches Some(Err(e)) && is_protocol_error(
                e,
                "invalid binlen: "@ + utf8::decode_utf8(
                    json::members(json::compact(*value))["binlen"@],
                ),
            ),
        },
{
    let member = match json::get(value, "binlen") {
        Some(member) => member,
        None => {
            return None;
        },
    };
    if json::is_null(member) {
        return None;
    }
    match json::as_u64(member) {
        Some(n) => {
            proof {
                let text = json::compact(*member);
                assert(text == json::numeral(n as nat));
                let m = choose|m: u64| text == #[trigger] json::numeral(m as nat);
                json::lemma_numeral_injective(n as nat, m as nat);
            }
            Some(Ok(n))
        },
        None => {
            let shown = json::display(member);
            proof {
                utf8::encode_utf8_decode_utf8(shown@);
            }
            Some(Err(protocol_error("invalid binlen: ".to_owned().concat(shown.as_str()))))
        },
    }
}

/// What the input comes to, and where it goes on. The flag tells where the input
/// broke off.
fn scan(input: &[Option<u8>]) -> (r: (Result<Read, IoError>, usize, bool))
    ensures
        is_read(reading(input@), r.0),
        r.1 <= input@.len(),
        input@.skip(r.1 as int) == remainder(reading(input@), input@),
        r.2 == (reading(input@) matches Reading::More { within_payload: true }),
{
    let ghost outcome = reading(input@);
    let total: usize = input.len();
    let mut from: usize = 0;
    assert(input@.skip(0) =~= input@);
    loop
        invariant
            from <= total,
            total == input@.len(),
            outcome == reading(input@),
            outcome == reading(input@.skip(from as int)),
        decreases total - from,
    {
        let ghost here = input@.skip(from as int);
        proof {
            lemma_first_line(here);
        }
        let len: usize = match line_at(input, from) {
            Some(len) => len,
            None => {
                assert(input@.skip(0) =~= input@);
                return (Ok(Read::More), 0, false);
            },
        };
        let start: usize = from + len;
        let close: usize = if input[start - 1].is_none() {
            start - 1
        } else {
            start
        };
        let ghost signals = here.take(len as int);
        assert(signals.last() == input@[start - 1]);
        assert forall|i: int| from <= i < close implies (#[trigger] input@[i]) is Some by {
            if i < start - 1 {
                assert(!closes_line(here[i - from]));
            }
        }
        let line = bytes_between(input, from, close);
        let ghost rest = input@.skip(start as int);
        proof {
            if close < start {
                assert(input@.subrange(from as int, close as int) =~= signals.drop_last());
            } else {
                assert(input@.subrange(from as int, close as int) =~= signals);
            }
            assert(line@ == line_bytes(signals));
            assert(rest =~= here.skip(len as int));
        }
        if line.len() == 0 {
            return (Ok(Read::End), start, false);
        }
        if blank(line.as_slice()) {
            from = start;
            continue;
        }
        let value = match json::decode(line.as_slice()) {
            Ok(value) => value,
            Err(fault) => {
                let shown = if line.len() < SHOWN {
                    line.as_slice()
                } else {
                    slice_subrange(line.as_slice(), 0, SHOWN)
                };
                assert(line@.len() >= SHOWN ==> shown@ =~= line@.take(SHOWN as int));
                let mut message = "bad JSON line: ".to_owned();
                message.append(fault.as_str());
                message.append(": ");
                message.append(debug_string(lossy_string(shown).as_str()).as_str());
                return (Err(protocol_error(message)), start, false);
            },
        };
        if !json::is_object(&value) {
            let message = "message is not an object".to_owned();
            return (Err(protocol_error(message)), start, false);
        }
        let declared: u64 = match declared_len(&value) {
            None => {
                return (Ok(Read::Message(value, None)), start, false);
            },
            Some(Err(e)) => {
                return (Err(e), start, false);
            },
            Some(Ok(n)) => n,
        };
        proof {
            lemma_end_within(rest, declared as nat);
        }
        match end_at(input, start, declared) {
            Some(end) => {
                let message = "EOF inside binary payload: failed to fill whole buffer".to_owned();
                assert(input@.skip(start + end + 1) =~= rest.skip(end + 1));
                return (Err(protocol_error(message)), start + end + 1, false);
            },
            None => {},
        }
        if declared <= (total - start) as u64 {
            let stop: usize = start + declared as usize;
            assert forall|i: int| start <= i < stop implies (#[trigger] input@[i]) is Some by {
                assert(rest[i - start] == input@[i]);
            }
            let payload = bytes_between(input, start, stop);
            assert(input@.subrange(start as int, stop as int) =~= rest.take(declared as int));
            assert(input@.skip(stop as int) =~= rest.skip(declared as int));
            return (Ok(Read::Message(value, Some(payload))), stop, false);
        }
        assert(input@.skip(0) =~= input@);
        return (Ok(Read::More), 0, true);
    }
}

/// The line of a message: with a payload, it declares the payload's length.
pub open spec fn message_line(text: Seq<u8>, payload: Option<Seq<u8>>) -> Seq<u8> {
    match payload {
        Some(p) => json::inserted(text, "binlen"@, json::numeral(p.len())),
        None => text,
    }
}

/// A line and its payload, as they are written.
pub open spec fn frame(line: Seq<u8>, payload: Option<Seq<u8>>) -> Seq<u8> {
    line.push(LF) + match payload {
        Some(p) => p,
        None => Seq::empty(),
    }
}

/// A line that says of its payload what is true.
pub open spec fn declares(line: Seq<u8>, payload: Option<Seq<u8>>) -> bool {
    match payload {
        Some(p) => p.len() <= u64::MAX && declared(line) == Some(Some(p.len() as u64)),
        None => declared(line) is None,
    }
}

/// Wherever a line and its payload are written, they are read back: the message,
/// the very payload, and nothing of what follows.
pub open spec fn reads_back(line: Seq<u8>, payload: Option<Seq<u8>>) -> bool {
    forall|rest: Seq<Option<u8>>|
        #[trigger] reading(arriving(frame(line, payload)) + rest) == (Reading::Message {
            text: line,
            payload,
            rest,
        })
}

/// What is true of the line of a message. A message reads back, with its payload
/// or without, where its numbers are whole, it does not nest too deep and it
/// declares no payload that it does not have.
pub open spec fn is_good_line(text: Seq<u8>, payload: Option<Seq<u8>>) -> bool {
    let line = message_line(text, payload);
    &&& json::is_compact(line)
    &&& payload matches Some(p) ==> {
        &&& json::is_object_text(line)
        &&& json::members(line) == json::members(text).insert("binlen"@, json::numeral(p.len()))
        &&& declares(line, payload)
    }
    &&& json::is_exact(line) && json::is_object_text(line) && declares(line, payload)
        ==> reads_back(line, payload)
    &&& json::is_exact(text) && json::is_object_text(text) && (payload is None ==> declared(
        text,
    ) is None) ==> reads_back(line, payload)
}

/// The bytes of a payload.
pub open spec fn payload_bytes(payload: Option<&[u8]>) -> Option<Seq<u8>> {
    match payload {
        Some(p) => Some(p@),
        None => None,
    }
}

/// Reads and writes messages over a pair of byte streams.
///
/// What was read is fed in and what is to be written is taken out, so the byte
/// streams may be anything.
#[derive(Debug)]
pub struct MessageStream {
    input: Vec<Option<u8>>,
    output: Vec<u8>,
}

impl MessageStream {
    /// What was fed in and not read yet.
    pub closed spec fn pending(&self) -> Seq<Option<u8>> {
        self.input@
    }

    /// What was written and not taken out yet.
    pub closed spec fn written(&self) -> Seq<u8> {
        self.output@
    }

    pub fn new() -> (stream: Self)
        ensures
            stream.pending() == Seq::<Option<u8>>::empty(),
            stream.written() == Seq::<u8>::empty(),
    {
        MessageStream { input: Vec::new(), output: Vec::new() }
    }

    /// Takes what the input stream yielded; no bytes mean that it has ended.
    pub fn feed(&mut self, bytes: &[u8])
        ensures
            final(self).pending() == old(self).pending() + (if bytes@.len() == 0 {
                seq![None]
            } else {
                arriving(bytes@)
            }),
            final(self).written() == old(self).written(),
    {
        if bytes.len() == 0 {
            self.input.push(None);
            assert(self.input@ =~= old(self).input@ + seq![None]);
            return;
        }
        let mut i: usize = 0;
        assert(bytes@.take(0) =~= Seq::<u8>::empty());
        assert(self.input@ =~= old(self).input@ + arriving(bytes@.take(0)));
        while i < bytes.len()
            invariant
                i <= bytes@.len(),
                self.input@ == old(self).input@ + arriving(bytes@.take(i as int)),
                self.output@ == old(self).output@,
            decreases bytes@.len() - i,
        {
            self.input.push(Some(bytes[i]));
            i = i + 1;
            assert(self.input@ =~= old(self).input@ + arriving(bytes@.take(i as int)));
        }
        assert(bytes@.take(i as int) =~= bytes@);
    }

    /// The next message with its payload, as far as the input has come. Input
    /// that is at fault is skipped, as far as its line goes.
    pub fn read_message(&mut self) -> (r: Result<Read, IoError>)
        ensures
            is_read(reading(old(self).pending()), r),
            final(self).pending() == remainder(
                reading(old(self).pending()),
                old(self).pending(),
            ),
            final(self).written() == old(self).written(),
    {
        let (r, consumed, _) = scan(self.input.as_slice());
        let rest = self.input.split_off(consumed);
        assert(rest@ =~= old(self).input@.skip(consumed as int));
        self.input = rest;
        r
    }

    /// What a failure to read more input comes to: within a payload it is a
    /// fault of the input. The part of a message that was read is gone.
    pub fn read_failed(&mut self, e: IoError) -> (fault: IoError)
        ensures
            match reading(old(self).pending()) {
                Reading::More { within_payload } => {
                    &&& final(self).pending() == Seq::<Option<u8>>::empty()
                    &&& if within_payload {
                        is_protocol_error(fault, "EOF inside binary payload: "@ + e.text@)
                    } else {
                        fault == e
                    }
                },
                _ => final(self).pending() == old(self).pending() && fault == e,
            },
            final(self).written() == old(self).written(),
    {
        let (r, _, within_payload) = scan(self.input.as_slice());
        if matches!(r, Ok(Read::More)) {
            self.input.clear();
        }
        if within_payload {
            protocol_error("EOF inside binary payload: ".to_owned().concat(e.text.as_str()))
        } else {
            e
        }
    }

    /// Writes a message, and the payload behind it. Only an object can carry a
    /// payload.
    pub fn write_message(&mut self, msg: &Value, payload: Option<&[u8]>) -> (r: Result<
        (),
        IoError,
    >)
        requires
            payload is Some ==> json::is_object_text(json::compact(*msg)),
        ensures
            r == Ok::<(), IoError>(()),
            final(self).pending() == old(self).pending(),
            final(self).written() == old(self).written() + frame(
                message_line(json::compact(*msg), payload_bytes(payload)),
                payload_bytes(payload),
            ),
            is_good_line(json::compact(*msg), payload_bytes(payload)),
    {
        let line = match payload {
            Some(p) => {
                let mut m = json::clone(msg);
                let len: usize = p.len();
                json::insert(&mut m, "binlen", json::from_usize(len));
                proof {
                    assert(json::numeral(len as nat) == json::numeral(p@.len()));
                    lemma_declares(json::compact(m), p@);
                }
                json::encode(&m)
            },
            None => json::encode(msg),
        };
        let line = match line {
            Ok(line) => line,
            Err(e) => {
                return Err(protocol_error(e));
            },
        };
        self.output.extend_from_slice(line.as_slice());
        self.output.push(LF);
        match payload {
            Some(p) => self.output.extend_from_slice(p),
            None => {},
        }
        assert(self.output@ =~= old(self).output@ + frame(line@, payload_bytes(payload)));
        proof {
            let bytes = payload_bytes(payload);
            if json::is_exact(line@) && json::is_object_text(line@) && declares(line@, bytes) {
                assert forall|rest: Seq<Option<u8>>|
                    #[trigger] reading(arriving(frame(line@, bytes)) + rest) == (
                    Reading::Message { text: line@, payload: bytes, rest }) by {
                    law_written_messages_read_back(line@, bytes, rest);
                }
            }
        }
        Ok(())
    }

    /// Writes a message if it can carry its payload, and leaves everything as it
    /// is if it cannot.
    pub fn try_write_message(&mut self, msg: &Value, payload: Option<&[u8]>) -> (r: Option<
        Result<(), IoError>,
    >)
        ensures
            final(self).pending() == old(self).pending(),
            if payload is Some && !json::is_object_text(json::compact(*msg)) {
                r is None && final(self).written() == old(self).written()
            } else {
                &&& r == Some(Ok::<(), IoError>(()))
                &&& final(self).written() == old(self).written() + frame(
                    message_line(json::compact(*msg), payload_bytes(payload)),
                    payload_bytes(payload),
                )
                &&& is_good_line(json::compact(*msg), payload_bytes(payload))
            },
    {
        if payload.is_some() && !json::is_object(msg) {
            return None;
        }
        Some(self.write_message(msg, payload))
    }

    /// What is to be written, in full messages.
    pub fn take_output(&mut self) -> (bytes: Vec<u8>)
        ensures
            bytes@ == old(self).written(),
            final(self).written() == Seq::<u8>::empty(),
            final(self).pending() == old(self).pending(),
    {
        let rest = self.output.split_off(0);
        assert(rest@ =~= old(self).output@);
        rest
    }
}

proof fn lemma_declares(line: Seq<u8>, payload: Seq<u8>)
    requires
        payload.len() <= u64::MAX,
        json::members(line).contains_key("binlen"@),
        json::members(line)["binlen"@] == json::numeral(payload.len()),
    ensures
        declares(line, Some(payload)),
{
    let member = json::members(line)["binlen"@];
    let len = payload.len() as u64;
    assert(member == json::numeral(len as nat));
    let n = choose|n: u64| member == #[trigger] json::numeral(n as nat);
    json::lemma_numeral_injective(n as nat, len as nat);
    if json::is_null_text(member) {
        reveal_strlit("null");
        utf8::encode_utf8_decode_utf8(text::decimal(len as nat));
        utf8::encode_utf8_decode_utf8("null"@);
        text::lemma_decimal_digits(len as nat);
        assert(text::decimal(len as nat)[0] == 'n');
    }
}

/// What is written is read back: the message, the very payload, which may hold
/// any bytes, and nothing of what follows. The two exceptions are a line that
/// the JSON codec itself does not read back as it wrote it, and a message without
/// a payload that declares one.
pub proof fn law_written_messages_read_back(
    line: Seq<u8>,
    payload: Option<Seq<u8>>,
    rest: Seq<Option<u8>>,
)
    requires
        json::is_compact(line),
        json::is_object_text(line),
        declares(line, payload),
        json::decoded(line.push(LF)) == Ok::<Seq<u8>, Seq<char>>(line),
    ensures
        reading(arriving(frame(line, payload)) + rest) == (Reading::Message {
            text: line,
            payload,
            rest,
        }),
{
    let written = frame(line, payload);
    let input = arriving(written) + rest;
    let n = line.len() + 1;
    assert(input[line.len() as int] == Some(LF));
    assert forall|i: int| 0 <= i < line.len() implies !closes_line(#[trigger] input[i]) by {
        assert(input[i] == Some(line[i]));
    }
    lemma_first_line_is(input, line.len());
    let signals = input.take(n as int);
    assert(signals.last() == Some(LF));
    assert(line_bytes(signals) =~= line.push(LF));
    assert(line_bytes(signals)[0] == line[0] && !is_space(line[0]));
    let tail = input.skip(n as int);
    match payload {
        Some(p) => {
            assert(tail =~= arriving(p) + rest);
            lemma_end_within(tail, p.len());
            assert(end_within(tail, p.len()) is None) by {
                if let Some(end) = end_within(tail, p.len()) {
                    assert(tail[end as int] == Some(p[end as int]));
                }
            }
            assert(heard(tail.take(p.len() as int)) =~= p);
            assert(tail.skip(p.len() as int) =~= rest);
        },
        None => {
            assert(tail =~= rest);
        },
    }
}

/// A message, a fault or an end does not depend on what follows it: how the
/// signals arrive, in one piece or in many, makes no difference.
pub proof fn law_reading_ignores_what_follows(input: Seq<Option<u8>>, more: Seq<Option<u8>>)
    requires
        !(reading(input) is More),
    ensures
        reading(input + more) == (match reading(input) {
            Reading::Message { text, payload, rest } => Reading::Message {
                text,
                payload,
                rest: rest + more,
            },
            Reading::Fault { fault, rest } => Reading::Fault { fault, rest: rest + more },
            Reading::End { rest } => Reading::End { rest: rest + more },
            other => other,
        }),
    decreases input.len(),
{
    lemma_first_line(input);
    let n = first_line(input).unwrap();
    let all = input + more;
    assert forall|i: int| 0 <= i < n - 1 implies !closes_line(#[trigger] all[i]) by {
        assert(all[i] == input[i]);
    }
    lemma_first_line_is(all, (n - 1) as nat);
    assert(all.take(n as int) =~= input.take(n as int));
    let rest = input.skip(n as int);
    assert(all.skip(n as int) =~= rest + more);
    let line = line_bytes(input.take(n as int));
    if line.len() > 0 && is_blank(line) {
        law_reading_ignores_what_follows(rest, more);
    } else if line.len() > 0 {
        if let Ok(text) = json::decoded(line) {
            if json::is_object_text(text) {
                if let Some(Some(len)) = declared(text) {
                    lemma_end_stands(rest, more, len as nat);
                    match end_within(rest, len as nat) {
                        Some(end) => {
                            lemma_end_within(rest, len as nat);
                            assert((rest + more).skip(end as int + 1) =~= rest.skip(
                                end as int + 1,
                            ) + more);
                        },
                        None => {
                            assert((rest + more).take(len as int) =~= rest.take(len as int));
                            assert((rest + more).skip(len as int) =~= rest.skip(len as int)
                                + more);
                        },
                    }
                }
            }
        }
    }
}

/// An end within a payload, or that a whole payload holds none, is the same
/// whatever follows.
proof fn lemma_end_stands(input: Seq<Option<u8>>, more: Seq<Option<u8>>, n: nat)
    requires
        end_within(input, n) is Some || n <= input.len(),
    ensures
        end_within(input + more, n) == end_within(input, n),
    decreases n,
{
    if n > 0 && input.len() > 0 && input[0] is Some {
        lemma_end_stands(input.drop_first(), more, (n - 1) as nat);
        assert((input + more).drop_first() =~= input.drop_first() + more);
    }
}

/// Blank lines between messages make no difference, whether a line feed closes
/// them or, unless there is nothing to close, an end.
pub proof fn law_blank_lines_are_skipped(
    line: Seq<u8>,
    close: Option<u8>,
    input: Seq<Option<u8>>,
)
    requires
        is_blank(line),
        !line.contains(LF),
        closes_line(close),
        close is None ==> line.len() > 0,
    ensures
        reading(arriving(line).push(close) + input) == reading(input),
{
    let all = arriving(line).push(close) + input;
    let n = line.len() + 1;
    assert forall|i: int| 0 <= i < line.len() implies !closes_line(#[trigger] all[i]) by {
        assert(all[i] == Some(line[i]));
        assert(line.contains(line[i]));
    }
    assert(all[line.len() as int] == close);
    lemma_first_line_is(all, line.len());
    let signals = all.take(n as int);
    assert(signals =~= arriving(line).push(close));
    assert(signals.drop_last() =~= arriving(line));
    let bytes = line_bytes(signals);
    if close is None {
        assert(bytes =~= line);
    } else {
        assert(bytes =~= line.push(LF));
    }
    assert forall|i: int| 0 <= i < bytes.len() implies is_space(#[trigger] bytes[i]) by {
        if i < line.len() {
            assert(is_space(line[i]));
        }
    }
    assert(all.skip(n as int) =~= input);
}

/// Five bytes leave a line blank: the space, the tab, the line feed, the form feed
/// and the carriage return. Any other makes a message of it. A line is closed by a
/// line feed or by the end of the input.
pub proof fn law_five_bytes_are_blank(line: Seq<u8>, close: Option<u8>)
    ensures
        is_blank(line) <==> forall|i: int|
            0 <= i < line.len() ==> #[trigger] line[i] == 0x20 || line[i] == 0x09 || line[i] == 0x0a
                || line[i] == 0x0c || line[i] == 0x0d,
        closes_line(close) <==> close is None || close == Some(0x0au8),
{
    if is_blank(line) {
        assert forall|i: int| 0 <= i < line.len() implies #[trigger] line[i] == 0x20 || line[i]
            == 0x09 || line[i] == 0x0a || line[i] == 0x0c || line[i] == 0x0d by {
            assert(is_space(line[i]));
        }
    }
}

/// An end that closes no line is told, and the input may go on after it.
pub proof fn law_ends_are_told(input: Seq<Option<u8>>)
    ensures
        reading(seq![None] + input) == (Reading::End { rest: input }),
{
    let all = seq![None] + input;
    lemma_first_line_is(all, 0);
    assert(all.take(1).last() is None);
    assert(line_bytes(all.take(1)) =~= Seq::<u8>::empty());
    assert(all.skip(1) =~= input);
}

/// Lines with their payloads, written one after the other.
pub open spec fn wire(frames: Seq<(Seq<u8>, Option<Seq<u8>>)>) -> Seq<u8>
    decreases frames.len(),
{
    if frames.len() == 0 {
        Seq::empty()
    } else {
        wire(frames.drop_last()) + frame(frames.last().0, frames.last().1)
    }
}

/// What the read after `n` others comes to.
pub open spec fn nth_reading(input: Seq<Option<u8>>, n: nat) -> Reading
    decreases n,
{
    if n == 0 {
        reading(input)
    } else {
        nth_reading(remainder(reading(input), input), (n - 1) as nat)
    }
}

/// What is written first comes first.
proof fn lemma_wire_starts(frames: Seq<(Seq<u8>, Option<Seq<u8>>)>)
    requires
        frames.len() > 0,
    ensures
        wire(frames) == frame(frames[0].0, frames[0].1) + wire(frames.drop_first()),
    decreases frames.len(),
{
    let first = frame(frames[0].0, frames[0].1);
    if frames.len() == 1 {
        assert(frames.drop_last() =~= Seq::empty());
        assert(frames.drop_first() =~= Seq::empty());
        assert(wire(frames.drop_last()) =~= Seq::empty());
        assert(wire(frames) =~= first);
        assert(first + wire(frames.drop_first()) =~= first);
    } else {
        lemma_wire_starts(frames.drop_last());
        let middle = frames.drop_first().drop_last();
        assert(frames.drop_last().drop_first() =~= middle);
        let last = frame(frames.last().0, frames.last().1);
        assert(frames.drop_first().last() == frames.last());
        assert((first + wire(middle)) + last =~= first + (wire(middle) + last));
    }
}

/// Messages that were written one after the other are read back in this order,
/// each with its own payload, which may hold any bytes. Then comes what follows:
/// where the input ends there, its end.
pub proof fn law_messages_read_back_in_order(
    frames: Seq<(Seq<u8>, Option<Seq<u8>>)>,
    rest: Seq<Option<u8>>,
    n: nat,
)
    requires
        forall|i: int| 0 <= i < frames.len() ==> #[trigger] reads_back(frames[i].0, frames[i].1),
        n <= frames.len(),
    ensures
        nth_reading(arriving(wire(frames)) + rest, n) == (if n < frames.len() {
            Reading::Message {
                text: frames[n as int].0,
                payload: frames[n as int].1,
                rest: arriving(wire(frames.skip(n as int + 1))) + rest,
            }
        } else {
            reading(rest)
        }),
        n == frames.len() && rest == seq![None::<u8>] ==> nth_reading(
            arriving(wire(frames)) + rest,
            n,
        ) == (Reading::End { rest: Seq::empty() }),
    decreases frames.len(),
{
    if rest == seq![None::<u8>] {
        law_ends_are_told(Seq::empty());
        assert(seq![None::<u8>] + Seq::<Option<u8>>::empty() =~= rest);
    }
    if frames.len() == 0 {
        assert(arriving(wire(frames)) + rest =~= rest);
    } else {
        lemma_wire_starts(frames);
        let tail = frames.drop_first();
        let first = frame(frames[0].0, frames[0].1);
        let after = arriving(wire(tail)) + rest;
        assert(arriving(wire(frames)) + rest =~= arriving(first) + after);
        assert(reads_back(frames[0].0, frames[0].1));
        assert(reading(arriving(first) + after) == (Reading::Message {
            text: frames[0].0,
            payload: frames[0].1,
            rest: after,
        }));
        if n == 0 {
            assert(frames.skip(1) =~= tail);
        } else {
            assert forall|i: int| 0 <= i < tail.len() implies #[trigger] reads_back(
                tail[i].0,
                tail[i].1,
            ) by {
                assert(reads_back(frames[i + 1].0, frames[i + 1].1));
            }
            law_messages_read_back_in_order(tail, rest, (n - 1) as nat);
            if n < frames.len() {
                assert(tail.skip(n as int) =~= frames.skip(n as int + 1));
            }
        }
    }
}

/// Writing one more message puts it behind the others.
pub proof fn law_messages_are_written_in_order(
    frames: Seq<(Seq<u8>, Option<Seq<u8>>)>,
    line: Seq<u8>,
    payload: Option<Seq<u8>>,
)
    ensures
        wire(frames.push((line, payload))) == wire(frames) + frame(line, payload),
{
    assert(frames.push((line, payload)).drop_last() =~= frames);
}

/// A line with something on it: one byte at least is none of space, tab, line feed,
/// form feed and carriage return. It holds no line feed.
pub open spec fn has_content(line: Seq<u8>) -> bool {
    &&& exists|i: int|
        0 <= i < line.len() && (#[trigger] line[i]) != 0x20 && line[i] != 0x09 && line[i] != 0x0a
            && line[i] != 0x0c && line[i] != 0x0d
    &&& forall|i: int| 0 <= i < line.len() ==> #[trigger] line[i] != 0x0a
}

/// A line of bytes that something closes: a line feed, or the end of the input.
pub open spec fn closed_by(line: Seq<u8>, close: Option<u8>) -> Seq<Option<u8>> {
    arriving(line).push(close)
}

/// What the codec gets to see of a closed line: its bytes, and the line feed that
/// closed it.
pub open spec fn seen_of(line: Seq<u8>, close: Option<u8>) -> Seq<u8> {
    match close {
        Some(lf) => line.push(lf),
        None => line,
    }
}

/// A closed line with content is handed to the codec, with the rest behind it.
proof fn lemma_closed_line(line: Seq<u8>, close: Option<u8>, rest: Seq<Option<u8>>)
    requires
        has_content(line),
        close is None || close == Some(0x0au8),
    ensures
        reading(closed_by(line, close) + rest) == line_reading(seen_of(line, close), rest),
{
    let all = closed_by(line, close) + rest;
    let n = line.len() + 1;
    assert forall|i: int| 0 <= i < line.len() implies !closes_line(#[trigger] all[i]) by {
        assert(all[i] == Some(line[i]));
    }
    assert(all[line.len() as int] == close);
    lemma_first_line_is(all, line.len());
    let signals = all.take(n as int);
    assert(signals =~= closed_by(line, close));
    assert(signals.last() == close);
    assert(signals.drop_last() =~= arriving(line));
    assert(line_bytes(signals) =~= seen_of(line, close));
    let i = choose|i: int|
        0 <= i < line.len() && (#[trigger] line[i]) != 0x20 && line[i] != 0x09 && line[i] != 0x0a
            && line[i] != 0x0c && line[i] != 0x0d;
    assert(seen_of(line, close)[i] == line[i]);
    assert(!is_space(seen_of(line, close)[i]));
    assert(all.skip(n as int) =~= rest);
}

/// The declared number is the number that `binlen` spells.
proof fn lemma_declared(text: Seq<u8>, n: u64)
    requires
        json::members(text).contains_key("binlen"@),
        json::members(text)["binlen"@] == json::numeral(n as nat),
    ensures
        declared(text) == Some(Some(n)),
{
    let bytes = Seq::new(n as nat, |i: int| 0u8);
    lemma_declares(text, bytes);
}

/// What a line is that is no message: the fault says what is wrong, with the first
/// 200 bytes of what is no JSON, and the input goes on behind the line.
pub proof fn law_bad_lines_are_faults(
    line: Seq<u8>,
    close: Option<u8>,
    rest: Seq<Option<u8>>,
    fault: Seq<char>,
    text: Seq<u8>,
)
    requires
        has_content(line),
        close is None || close == Some(0x0au8),
    ensures
        json::decoded(seen_of(line, close)) == Err::<Seq<u8>, Seq<char>>(fault) ==> reading(
            closed_by(line, close) + rest,
        ) == (Reading::Fault {
            fault: "bad JSON line: "@ + fault + ": "@ + text::debug_text(
                text::lossy_text(
                    if seen_of(line, close).len() <= 200 {
                        seen_of(line, close)
                    } else {
                        seen_of(line, close).take(200)
                    },
                ),
            ),
            rest,
        }),
        json::decoded(seen_of(line, close)) == Ok::<Seq<u8>, Seq<char>>(text) && !(text.len() > 0
            && text[0] == 0x7b) ==> reading(closed_by(line, close) + rest) == (Reading::Fault {
            fault: "message is not an object"@,
            rest,
        }),
        json::decoded(seen_of(line, close)) == Ok::<Seq<u8>, Seq<char>>(text) && text.len() > 0
            && text[0] == 0x7b && json::members(text).contains_key("binlen"@) && json::members(
            text,
        )["binlen"@] != utf8::encode_utf8("null"@) && (forall|n: u64|
            json::members(text)["binlen"@] != #[trigger] json::numeral(n as nat)) ==> reading(
            closed_by(line, close) + rest,
        ) == (Reading::Fault {
            fault: "invalid binlen: "@ + utf8::decode_utf8(json::members(text)["binlen"@]),
            rest,
        }),
{
    lemma_closed_line(line, close, rest);
    let seen = seen_of(line, close);
    if seen.len() == 200 {
        assert(seen.take(200) =~= seen);
    }
}

/// What a line is that is a message without a payload: one that declares none, or
/// null.
pub proof fn law_messages_without_payload(
    line: Seq<u8>,
    close: Option<u8>,
    rest: Seq<Option<u8>>,
    text: Seq<u8>,
)
    requires
        has_content(line),
        close is None || close == Some(0x0au8),
        json::decoded(seen_of(line, close)) == Ok::<Seq<u8>, Seq<char>>(text),
        text.len() > 0 && text[0] == 0x7b,
        json::members(text).contains_key("binlen"@) ==> json::members(text)["binlen"@]
            == utf8::encode_utf8("null"@),
    ensures
        reading(closed_by(line, close) + rest) == (Reading::Message { text, payload: None, rest }),
{
    lemma_closed_line(line, close, rest);
}

/// What a line is that declares `n` bytes: the next `n` bytes are its payload,
/// whatever they are, and the input goes on behind them. Where fewer have come,
/// there is no message yet; where the input ends before them, they are lost, and
/// the input goes on behind its end.
pub proof fn law_messages_with_payload(
    line: Seq<u8>,
    close: Option<u8>,
    n: u64,
    bytes: Seq<u8>,
    rest: Seq<Option<u8>>,
    text: Seq<u8>,
)
    requires
        has_content(line),
        close is None || close == Some(0x0au8),
        json::decoded(seen_of(line, close)) == Ok::<Seq<u8>, Seq<char>>(text),
        text.len() > 0 && text[0] == 0x7b,
        json::members(text).contains_key("binlen"@),
        json::members(text)["binlen"@] == json::numeral(n as nat),
    ensures
        bytes.len() == n ==> reading(closed_by(line, close) + (arriving(bytes) + rest)) == (
        Reading::Message { text, payload: Some(bytes), rest }),
        bytes.len() < n ==> reading(closed_by(line, close) + arriving(bytes)) == (Reading::More {
            within_payload: true,
        }),
        bytes.len() < n ==> reading(closed_by(line, close) + (arriving(bytes).push(None) + rest))
            == (Reading::Fault {
            fault: "EOF inside binary payload: failed to fill whole buffer"@,
            rest,
        }),
{
    lemma_declared(text, n);
    if bytes.len() == n {
        let tail = arriving(bytes) + rest;
        lemma_closed_line(line, close, tail);
        lemma_end_within(tail, n as nat);
        if let Some(end) = end_within(tail, n as nat) {
            assert(tail[end as int] == Some(bytes[end as int]));
        }
        assert(heard(tail.take(n as int)) =~= bytes);
        assert(tail.skip(n as int) =~= rest);
    }
    if bytes.len() < n {
        let tail = arriving(bytes);
        lemma_closed_line(line, close, tail);
        lemma_end_within(tail, n as nat);
        if let Some(end) = end_within(tail, n as nat) {
            assert(tail[end as int] == Some(bytes[end as int]));
        }
        let ended = arriving(bytes).push(None) + rest;
        lemma_closed_line(line, close, ended);
        lemma_end_within(ended, n as nat);
        assert(ended[bytes.len() as int] is None);
        match end_within(ended, n as nat) {
            Some(end) => {
                if end < bytes.len() {
                    assert(ended[end as int] == Some(bytes[end as int]));
                }
                assert(end == bytes.len());
            },
            None => {
                assert(ended[bytes.len() as int] is Some);
            },
        }
        assert(ended.skip(bytes.len() as int + 1) =~= rest);
    }
}

/// A line that nothing has closed yet is no message yet.
pub proof fn law_open_lines_wait(line: Seq<u8>)
    requires
        forall|i: int| 0 <= i < line.len() ==> #[trigger] line[i] != 0x0a,
    ensures
        reading(arriving(line)) == (Reading::More { within_payload: false }),
{
    let input = arriving(line);
    lemma_first_line(input);
    if let Some(n) = first_line(input) {
        assert(input[n - 1] == Some(line[n - 1]));
    }
}

/// What a read hands out is what the input comes to, and what it leaves is the
/// rest: all of it where there is nothing to hand out yet.
pub proof fn law_reads_hand_out_what_there_is(
    input: Seq<Option<u8>>,
    outcome: Reading,
    r: Result<Read, IoError>,
)
    requires
        is_read(outcome, r),
    ensures
        match outcome {
            Reading::More { .. } => r == Ok::<Read, IoError>(Read::More) && remainder(
                outcome,
                input,
            ) == input,
            Reading::End { rest } => r == Ok::<Read, IoError>(Read::End) && remainder(
                outcome,
                input,
            ) == rest,
            Reading::Fault { fault, rest } => {
                &&& remainder(outcome, input) == rest
                &&& r matches Err(e)
                &&& e.kind == IoErrorKind::InvalidData
                &&& e.text@ == fault
            },
            Reading::Message { text, payload, rest } => {
                &&& remainder(outcome, input) == rest
                &&& r matches Ok(Read::Message(value, bytes))
                &&& json::compact(value) == text
                &&& payload is Some <==> bytes is Some
                &&& payload matches Some(p) ==> bytes->0@ == p
            },
        },
{
}

/// A frame is the line, a line feed and the bytes of the payload. The line of a
/// message without a payload is the message's own text.
pub proof fn law_frames_are_lines_and_payloads(text: Seq<u8>, payload: Seq<u8>)
    ensures
        message_line(text, None) == text,
        frame(text, None) == text + seq![0x0au8],
        frame(text, Some(payload)) == text + seq![0x0au8] + payload,
{
    assert(text.push(LF) =~= text + seq![0x0au8]);
    assert(frame(text, None) =~= text + seq![0x0au8]);
}

/// Bytes arrive one by one, each as it is.
pub proof fn law_bytes_arrive_as_they_are(bytes: Seq<u8>, payload: Option<&[u8]>)
    ensures
        arriving(bytes).len() == bytes.len(),
        forall|i: int| 0 <= i < bytes.len() ==> #[trigger] arriving(bytes)[i] == Some(bytes[i]),
        heard(arriving(bytes)) == bytes,
        payload matches Some(p) ==> payload_bytes(payload) == Some(p@),
        payload is None ==> payload_bytes(payload) is None,
{
    assert(heard(arriving(bytes)) =~= bytes);
}

} // verus!
