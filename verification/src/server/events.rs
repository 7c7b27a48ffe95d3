// SPDX-License-Identifier: Apache-2.0
//! The event stream: the plugin's half of the PUSH/PULL socket.

use bytes::Bytes;
use vstd::prelude::*;
use vstd::slice::slice_subrange;

use crate::encoding;
use crate::encoding::encode_transition;
use crate::encoding::transition;
use crate::payload;
use crate::proto::event;
use crate::proto::{CaptureData, Codec, Event, Log, LogLevel, SampleEncoding, State, Status};
use crate::transport::MAX_PAYLOAD;

verus! {

/// What the event stream says of the plugin: whether a capture is running.
///
/// The control loop reads the end of a capture off the event stream rather
/// than guessing when an acquisition thread finished.
#[derive(Debug)]
pub struct Events {
    running: bool,
}

impl Events {
    /// A capture is running.
    pub closed spec fn running(&self) -> bool {
        self.running
    }

    pub fn new() -> (events: Self)
        ensures
            !events.running(),
    {
        Events { running: false }
    }

    /// The message that carries `event`. The end of a capture, or the loss of
    /// the device, is taken note of here.
    pub fn send(&mut self, event: event::Event) -> (message: Event)
        ensures
            message.event == Some(event),
            final(self).running() == (old(self).running() && !event.ends_capture()),
    {
        if matches!(event, event::Event::CaptureEnd(_) | event::Event::DeviceLost(_)) {
            self.running = false;
        }
        Event { event: Some(event) }
    }

    pub fn log(&mut self, level: LogLevel, message: String) -> (event: Event)
        ensures
            event.event == Some(event::Event::Log(Log { level: level.number, message })),
            final(self).running() == old(self).running(),
    {
        self.send(event::Event::Log(Log { level: level.number, message }))
    }

    pub fn status(&mut self, state: State, detail: String) -> (event: Event)
        ensures
            event.event == Some(event::Event::Status(Status { state: state.number, detail })),
            final(self).running() == old(self).running(),
    {
        self.send(event::Event::Status(Status { state: state.number, detail }))
    }

    pub fn is_running(&self) -> (running: bool)
        ensures
            running == self.running(),
    {
        self.running
    }

    pub(crate) fn set_running(&mut self, running: bool)
        ensures
            final(self).running() == running,
    {
        self.running = running;
    }
}

/// Cuts one stream of one acquisition into `CaptureData` events, keeping `seq`
/// and `first_sample` consistent across calls.
#[derive(Debug)]
pub struct StreamSender {
    capture_id: u64,
    acquisition: u64,
    stream: u32,
    unitsize: usize,
    encoding: SampleEncoding,
    seq: u64,
    first_sample: u64,
}

/// Where a stream stands.
pub struct StreamState {
    pub capture_id: u64,
    pub acquisition: u64,
    pub stream: u32,
    pub unitsize: usize,
    pub encoding: SampleEncoding,
    /// Number of the next chunk.
    pub seq: int,
    /// Index of the next sample.
    pub first_sample: int,
}

impl StreamState {
    /// Bytes of a full chunk: as many whole samples as fit a payload.
    pub open spec fn chunk_len(self) -> int {
        MAX_PAYLOAD - MAX_PAYLOAD % self.unitsize
    }

    /// The state once `parts` full chunks have gone out.
    pub open spec fn after(self, parts: int) -> StreamState {
        StreamState {
            seq: self.seq + parts,
            first_sample: self.first_sample + parts * (self.chunk_len() / self.unitsize as int),
            ..self
        }
    }

    /// The payload of the chunk that carries `part`.
    pub open spec fn payload(self, part: Seq<u8>) -> Seq<u8> {
        if self.encoding == SampleEncoding::Transition {
            transition::transitions(transition::samples(part, self.unitsize as nat))
        } else {
            part
        }
    }

    /// `data` is the next chunk, and carries `part`.
    pub open spec fn is_chunk(self, data: CaptureData, part: Seq<u8>) -> bool {
        &&& data.capture_id == self.capture_id
        &&& data.acquisition == self.acquisition
        &&& data.stream == self.stream
        &&& data.seq == self.seq
        &&& data.first_sample == self.first_sample
        &&& data.sample_count == part.len() / self.unitsize as nat
        &&& data.encoding == self.encoding.number()
        &&& data.codec == Codec::Uncompressed.number()
        &&& data.decoded_len == payload::content(data.payload).len()
        &&& payload::content(data.payload) == self.payload(part)
    }

    /// How many chunks `packed` is cut into.
    pub open spec fn chunk_count(self, packed: Seq<u8>) -> int {
        (packed.len() + self.chunk_len() - 1) / self.chunk_len()
    }

    /// The bytes that chunk `k` of `packed` carries.
    pub open spec fn part(self, packed: Seq<u8>, k: int) -> Seq<u8> {
        part_at(packed, k * self.chunk_len(), self.chunk_len())
    }

    /// `chunks` carry `packed`, cut at whole samples, in order.
    pub open spec fn is_transfer(self, chunks: Seq<CaptureData>, packed: Seq<u8>) -> bool {
        &&& chunks.len() == self.chunk_count(packed)
        &&& forall|k: int|
            0 <= k < chunks.len() ==> self.after(k).is_chunk(
                #[trigger] chunks[k],
                self.part(packed, k),
            )
    }
}

/// Up to `len` bytes of `packed`, from `offset` on.
pub open spec fn part_at(packed: Seq<u8>, offset: int, len: int) -> Seq<u8> {
    packed.subrange(
        offset,
        if offset + len <= packed.len() {
            offset + len
        } else {
            packed.len() as int
        },
    )
}

impl View for StreamSender {
    type V = StreamState;

    closed spec fn view(&self) -> StreamState {
        StreamState {
            capture_id: self.capture_id,
            acquisition: self.acquisition,
            stream: self.stream,
            unitsize: self.unitsize,
            encoding: self.encoding,
            seq: self.seq as int,
            first_sample: self.first_sample as int,
        }
    }
}

impl StreamSender {
    #[verifier::type_invariant]
    spec fn has_samples(self) -> bool {
        self.unitsize > 0
    }

    /// `unitsize` is the packed size of one sample: `LogicFormat.unitsize`, or
    /// the width of the `SampleType` for an analog stream.
    pub fn new(capture_id: u64, acquisition: u64, stream: u32, unitsize: usize) -> (sender: Self)
        requires
            unitsize > 0,
        ensures
            sender@ == (StreamState {
                capture_id,
                acquisition,
                stream,
                unitsize,
                encoding: SampleEncoding::Packed,
                seq: 0,
                first_sample: 0,
            }),
    {
        StreamSender {
            capture_id,
            acquisition,
            stream,
            unitsize,
            encoding: SampleEncoding::Packed,
            seq: 0,
            first_sample: 0,
        }
    }

    /// Emit run-length rather than verbatim samples. Only legal if the
    /// frontend accepted `TRANSITION` in the `Hello` negotiation.
    pub fn transition(self) -> (sender: Self)
        ensures
            sender@ == (StreamState { encoding: SampleEncoding::Transition, ..self@ }),
    {
        proof {
            use_type_invariant(&self);
        }
        StreamSender { encoding: SampleEncoding::Transition, ..self }
    }

    /// The chunk that carries `packed` from `offset` on, and where the chunk
    /// after it starts; nothing at the end.
    pub fn next_chunk(&self, packed: &[u8], offset: usize) -> (r: Option<(CaptureData, usize)>)
        requires
            self@.unitsize <= MAX_PAYLOAD,
        ensures
            offset >= packed.len() ==> r is None,
            offset < packed.len() ==> (r matches Some((data, next)) && self@.is_chunk(
                data,
                part_at(packed@, offset as int, self@.chunk_len()),
            ) && next == offset + part_at(packed@, offset as int, self@.chunk_len()).len()),
    {
        proof {
            use_type_invariant(self);
        }
        if offset >= packed.len() {
            return None;
        }
        let chunk: usize = MAX_PAYLOAD - MAX_PAYLOAD % self.unitsize;
        let end: usize = if packed.len() - offset <= chunk {
            packed.len()
        } else {
            offset + chunk
        };
        let part = slice_subrange(packed, offset, end);
        let samples: u64 = (part.len() / self.unitsize) as u64;
        let payload: Bytes = match self.encoding {
            SampleEncoding::Transition => payload::from_vec(encode_transition(part, self.unitsize)),
            _ => Bytes::copy_from_slice(part),
        };
        let data = CaptureData {
            capture_id: self.capture_id,
            acquisition: self.acquisition,
            stream: self.stream,
            seq: self.seq,
            first_sample: self.first_sample,
            sample_count: samples,
            encoding: self.encoding.number(),
            codec: Codec::Uncompressed.number(),
            decoded_len: payload.len() as u64,
            payload,
        };
        Some((data, end))
    }

    /// Take note that the chunk with `samples` samples has gone out.
    pub fn advance(&mut self, samples: u64)
        requires
            old(self)@.seq < u64::MAX,
            old(self)@.first_sample + samples <= u64::MAX,
        ensures
            final(self)@ == (StreamState {
                seq: old(self)@.seq + 1,
                first_sample: old(self)@.first_sample + samples,
                ..old(self)@
            }),
    {
        proof {
            use_type_invariant(&*self);
        }
        self.seq = self.seq + 1;
        self.first_sample = self.first_sample + samples;
    }

    /// `packed` is verbatim samples; chunking and encoding happen here. What
    /// comes back is to be sent in this order.
    pub fn send(&mut self, packed: &[u8]) -> (chunks: Vec<CaptureData>)
        requires
            old(self)@.unitsize <= MAX_PAYLOAD,
            old(self)@.seq + old(self)@.chunk_count(packed@) <= u64::MAX,
            old(self)@.first_sample + packed.len() / old(self)@.unitsize <= u64::MAX,
        ensures
            old(self)@.is_transfer(chunks@, packed@),
            final(self)@ == state_after(old(self)@, packed@),
    {
        proof {
            use_type_invariant(&*self);
        }
        let ghost start = self@;
        let mut chunks: Vec<CaptureData> = Vec::new();
        let mut offset: usize = 0;
        proof {
            lemma_chunk_len(start.unitsize);
            lemma_part_bounds(start.unitsize, packed@.len(), 0);
        }
        while offset < packed.len()
            invariant
                0 < start.unitsize <= MAX_PAYLOAD,
                start == old(self)@,
                start.seq + start.chunk_count(packed@) <= u64::MAX,
                start.first_sample + packed.len() / start.unitsize <= u64::MAX,
                chunks.len() <= start.chunk_count(packed@),
                offset <= packed.len(),
                offset < packed.len() ==> offset == chunks.len() * start.chunk_len() && self@
                    == start.after(chunks.len() as int),
                offset == packed.len() ==> chunks.len() == start.chunk_count(packed@) && self@ == (
                StreamState {
                    seq: start.seq + chunks.len(),
                    first_sample: start.first_sample + packed.len() / start.unitsize,
                    ..start
                }),
                forall|k: int|
                    0 <= k < chunks.len() ==> start.after(k).is_chunk(
                        #[trigger] chunks@[k],
                        start.part(packed@, k),
                    ),
            decreases packed.len() - offset,
        {
            match self.next_chunk(packed, offset) {
                Some((data, next)) => {
                    let samples: u64 = data.sample_count;
                    proof {
                        lemma_part_bounds(start.unitsize, packed@.len(), chunks.len() as nat);
                    }
                    self.advance(samples);
                    chunks.push(data);
                    offset = next;
                },
                None => {
                    return chunks;
                },
            }
        }
        chunks
    }
}

/// A full chunk holds at least one sample, and only whole ones.
proof fn lemma_chunk_len(unitsize: usize)
    requires
        0 < unitsize <= MAX_PAYLOAD,
    ensures
        unitsize <= MAX_PAYLOAD - MAX_PAYLOAD % unitsize <= MAX_PAYLOAD,
        (MAX_PAYLOAD - MAX_PAYLOAD % unitsize) % unitsize as int == 0,
        MAX_PAYLOAD - MAX_PAYLOAD % unitsize == ((MAX_PAYLOAD - MAX_PAYLOAD % unitsize)
            / unitsize as int) * unitsize,
{
    let q: int = MAX_PAYLOAD as int / unitsize as int;
    let r: int = MAX_PAYLOAD as int % unitsize as int;
    vstd::arithmetic::div_mod::lemma_fundamental_div_mod(MAX_PAYLOAD as int, unitsize as int);
    assert(0 <= r < unitsize && q >= 1) by (nonlinear_arith)
        requires
            0 < unitsize <= MAX_PAYLOAD,
            q == MAX_PAYLOAD as int / unitsize as int,
            r == MAX_PAYLOAD as int % unitsize as int,
    ;
    assert(MAX_PAYLOAD - r == q * unitsize) by (nonlinear_arith)
        requires
            MAX_PAYLOAD as int == unitsize as int * q + r,
    ;
    assert(q * unitsize >= unitsize) by (nonlinear_arith)
        requires
            q >= 1,
            unitsize > 0,
    ;
    vstd::arithmetic::div_mod::lemma_div_multiples_vanish(q, unitsize as int);
    vstd::arithmetic::div_mod::lemma_mod_multiples_basic(q, unitsize as int);
    assert(q * unitsize == unitsize as int * q) by (nonlinear_arith);
}

/// Where chunk `k` of `len` bytes ends, and how many samples come before.
proof fn lemma_part_bounds(unitsize: usize, len: nat, k: nat)
    requires
        0 < unitsize <= MAX_PAYLOAD,
    ensures
        ({
            let chunk = MAX_PAYLOAD - MAX_PAYLOAD % unitsize;
            let count = (len + chunk - 1) / chunk;
            &&& 0 <= count
            &&& len == 0 ==> count == 0
            &&& 0 <= k * chunk
            &&& (k + 1) * chunk == k * chunk + chunk
            &&& k * chunk < len ==> k < count
            &&& k * chunk < len && k * chunk + chunk >= len ==> count == k + 1
            &&& k * chunk < len ==> {
                let part = if k * chunk + chunk <= len { chunk } else { len - k * chunk };
                let before = k * (chunk / unitsize as int);
                &&& part > 0
                &&& before + part / unitsize as int <= len / unitsize as nat
                &&& k * chunk + chunk >= len ==> before + part / unitsize as int == len
                    / unitsize as nat
                &&& k * chunk + chunk < len ==> before + part / unitsize as int == (k + 1) * (chunk
                    / unitsize as int)
            }
        }),
{
    lemma_chunk_len(unitsize);
    let u = unitsize as int;
    let chunk = MAX_PAYLOAD - MAX_PAYLOAD % unitsize;
    let per = chunk / u;
    let count = (len + chunk - 1) / chunk;
    assert((k + 1) * chunk == k * chunk + chunk && 0 <= k * chunk) by (nonlinear_arith)
        requires
            chunk >= 0,
            k >= 0,
    ;
    vstd::arithmetic::div_mod::lemma_fundamental_div_mod(len + chunk - 1, chunk);
    let rem = (len + chunk - 1) % chunk;
    assert(0 <= rem < chunk);
    assert(chunk * count == count * chunk) by (nonlinear_arith);
    assert(count >= 0) by (nonlinear_arith)
        requires
            count * chunk + rem == len + chunk - 1,
            rem < chunk,
            len >= 0,
            chunk > 0,
    ;
    if len == 0 {
        assert(count == 0) by (nonlinear_arith)
            requires
                count * chunk + rem == chunk - 1,
                0 <= rem,
                chunk > 0,
                count >= 0,
        ;
    }
    if k * chunk < len {
        assert(k < count) by (nonlinear_arith)
            requires
                k * chunk < len,
                count * chunk + rem == len + chunk - 1,
                rem < chunk,
                chunk > 0,
        ;
        if k * chunk + chunk >= len {
            assert(count <= k + 1) by (nonlinear_arith)
                requires
                    k * chunk + chunk >= len,
                    count * chunk + rem == len + chunk - 1,
                    0 <= rem,
                    chunk > 0,
            ;
        }
        let part = if k * chunk + chunk <= len { chunk } else { len - k * chunk };
        let before = k * per;
        assert(k * chunk == before * u) by (nonlinear_arith)
            requires
                chunk == per * u,
                before == k * per,
        ;
        vstd::arithmetic::div_mod::lemma_hoist_over_denominator(part, before, u as nat);
        assert((k + 1) * per == before + per) by (nonlinear_arith)
            requires
                before == k * per,
        ;
        vstd::arithmetic::div_mod::lemma_div_is_ordered(part + before * u, len as int, u);
    }
}

/// What a frontend that decodes `chunks` in order ends up with.
pub open spec fn delivered(chunks: Seq<CaptureData>, unitsize: nat) -> Result<Seq<u8>, Seq<char>>
    decreases chunks.len(),
{
    if chunks.len() == 0 {
        Ok(Seq::empty())
    } else {
        match delivered(chunks.drop_last(), unitsize) {
            Ok(before) => transition::prepend(before, encoding::unpacked(chunks.last(), unitsize)),
            Err(fault) => Err(fault),
        }
    }
}

/// What a stream carries of `packed`: all of it, or where samples are counted,
/// the whole samples.
pub open spec fn carried(state: StreamState, packed: Seq<u8>) -> Seq<u8> {
    if state.encoding == SampleEncoding::Transition {
        packed.take((packed.len() / state.unitsize as nat) * state.unitsize)
    } else {
        packed
    }
}

/// A chunk decodes to the part it carries.
pub proof fn law_chunk_decodes(state: StreamState, data: CaptureData, part: Seq<u8>)
    requires
        state.unitsize > 0,
        part.len() <= u64::MAX,
        state.is_chunk(data, part),
    ensures
        encoding::unpacked(data, state.unitsize as nat) == Ok::<Seq<u8>, Seq<char>>(
            carried(state, part),
        ),
{
    if state.encoding == SampleEncoding::Transition {
        transition::law_transition_round_trip(part, state.unitsize as nat);
    }
}

proof fn lemma_delivered(state: StreamState, chunks: Seq<CaptureData>, packed: Seq<u8>, k: int)
    requires
        0 < state.unitsize <= MAX_PAYLOAD,
        state.is_transfer(chunks, packed),
        0 <= k <= chunks.len(),
    ensures
        k < chunks.len() ==> 0 <= k * state.chunk_len() <= packed.len() && delivered(
            chunks.take(k),
            state.unitsize as nat,
        ) == Ok::<Seq<u8>, Seq<char>>(packed.take(k * state.chunk_len())),
        k == chunks.len() ==> delivered(chunks.take(k), state.unitsize as nat) == Ok::<
            Seq<u8>,
            Seq<char>,
        >(carried(state, packed)),
    decreases k,
{
    let u = state.unitsize as nat;
    let chunk = state.chunk_len();
    lemma_chunk_len(state.unitsize);
    lemma_chunk_starts(state.unitsize, packed.len(), k);
    if k == 0 {
        assert(k * chunk == 0) by (nonlinear_arith)
            requires
                k == 0,
        ;
        assert(packed.take(0) =~= Seq::<u8>::empty());
        if chunks.len() == 0 {
            assert(packed.len() == 0);
            assert(carried(state, packed) =~= Seq::<u8>::empty());
        }
    } else {
        let j = k - 1;
        lemma_delivered(state, chunks, packed, j);
        lemma_part_bounds(state.unitsize, packed.len(), j as nat);
        lemma_chunk_starts(state.unitsize, packed.len(), j);
        let part = state.part(packed, j);
        law_chunk_decodes(state.after(j), chunks[j], part);
        assert(chunks.take(k).drop_last() =~= chunks.take(j));
        assert(chunks.take(k).last() == chunks[j]);
        if k < chunks.len() {
            assert(part.len() == chunk);
            assert(part.take((part.len() / u) * u as int) =~= part);
            assert(packed.take(j * chunk) + part =~= packed.take(k * chunk));
        } else {
            assert(packed.take(j * chunk) + part =~= packed);
            let per = chunk / u as int;
            let tail = part.len() / u;
            assert(j * chunk == (j * per) * u) by (nonlinear_arith)
                requires
                    chunk == per * u,
            ;
            assert((j * per + tail) * u == (j * per) * u + tail * u) by (nonlinear_arith);
            assert(0 <= tail * u <= part.len()) by (nonlinear_arith)
                requires
                    u > 0,
                    tail == part.len() / u,
            ;
            assert(packed.take(j * chunk) + part.take((tail * u) as int) =~= packed.take(
                (packed.len() / u) * u as int,
            ));
        }
    }
}

/// Chunk `k` of `len` bytes starts within them, or there is no such chunk.
proof fn lemma_chunk_starts(unitsize: usize, len: nat, k: int)
    requires
        0 < unitsize <= MAX_PAYLOAD,
        k >= 0,
    ensures
        ({
            let chunk = MAX_PAYLOAD - MAX_PAYLOAD % unitsize;
            let count = (len + chunk - 1) / chunk;
            &&& k < count <==> k * chunk < len
            &&& k + 1 == count ==> k * chunk + chunk >= len
            &&& k + 1 < count ==> k * chunk + chunk < len
        }),
{
    lemma_chunk_len(unitsize);
    let chunk = MAX_PAYLOAD - MAX_PAYLOAD % unitsize;
    let count = (len + chunk - 1) / chunk;
    let rem = (len + chunk - 1) % chunk;
    vstd::arithmetic::div_mod::lemma_fundamental_div_mod(len + chunk - 1, chunk);
    assert(chunk * count == count * chunk) by (nonlinear_arith);
    assert(k < count <==> k * chunk < len) by (nonlinear_arith)
        requires
            count * chunk + rem == len + chunk - 1,
            0 <= rem < chunk,
    ;
    assert(k + 1 < count <==> k * chunk + chunk < len) by (nonlinear_arith)
        requires
            count * chunk + rem == len + chunk - 1,
            0 <= rem < chunk,
    ;
}

/// A frontend that decodes the chunks of one call in order gets the samples
/// back: every byte of verbatim samples, every whole sample of run-length ones.
pub proof fn law_transfer_delivers(state: StreamState, chunks: Seq<CaptureData>, packed: Seq<u8>)
    requires
        0 < state.unitsize <= MAX_PAYLOAD,
        state.is_transfer(chunks, packed),
    ensures
        delivered(chunks, state.unitsize as nat) == Ok::<Seq<u8>, Seq<char>>(
            carried(state, packed),
        ),
{
    lemma_delivered(state, chunks, packed, chunks.len() as int);
    assert(chunks.take(chunks.len() as int) =~= chunks);
}

/// Chunk numbers do not skip, and each chunk starts at the sample where the one
/// before it ended.
pub proof fn law_chunks_are_consecutive(
    state: StreamState,
    chunks: Seq<CaptureData>,
    packed: Seq<u8>,
    k: int,
)
    requires
        0 < state.unitsize <= MAX_PAYLOAD,
        state.is_transfer(chunks, packed),
        0 <= k < chunks.len(),
    ensures
        k == 0 ==> chunks[k].seq == state.seq && chunks[k].first_sample == state.first_sample,
        k > 0 ==> chunks[k].seq == chunks[k - 1].seq + 1 && chunks[k].first_sample == chunks[k
            - 1].first_sample + chunks[k - 1].sample_count,
        k == chunks.len() - 1 ==> chunks[k].seq + 1 == state.seq + chunks.len()
            && chunks[k].first_sample + chunks[k].sample_count == state.first_sample + packed.len()
            / state.unitsize as nat,
{
    let per = state.chunk_len() / state.unitsize as int;
    assert(state.after(k).is_chunk(chunks[k], state.part(packed, k)));
    lemma_chunk_len(state.unitsize);
    lemma_chunk_starts(state.unitsize, packed.len(), k);
    lemma_part_bounds(state.unitsize, packed.len(), k as nat);
    if k == 0 {
        assert(k * per == 0) by (nonlinear_arith)
            requires
                k == 0,
        ;
    } else {
        let j = k - 1;
        assert(state.after(j).is_chunk(chunks[j], state.part(packed, j)));
        lemma_chunk_starts(state.unitsize, packed.len(), j);
        lemma_part_bounds(state.unitsize, packed.len(), j as nat);
    }
}

/// The state of a stream once `packed` has gone out.
pub open spec fn state_after(state: StreamState, packed: Seq<u8>) -> StreamState {
    StreamState {
        seq: state.seq + state.chunk_count(packed),
        first_sample: state.first_sample + packed.len() / state.unitsize as nat,
        ..state
    }
}

/// Calls in a row number their chunks through: the first chunk of the second call
/// has the number after the last of the first, and starts at the sample where
/// that one ended. A call that sent nothing changes nothing.
pub proof fn law_transfers_continue(
    state: StreamState,
    chunks: Seq<CaptureData>,
    packed: Seq<u8>,
    next_chunks: Seq<CaptureData>,
    next_packed: Seq<u8>,
)
    requires
        0 < state.unitsize <= MAX_PAYLOAD,
        state.is_transfer(chunks, packed),
        state_after(state, packed).is_transfer(next_chunks, next_packed),
        next_chunks.len() > 0,
    ensures
        chunks.len() > 0 ==> {
            &&& next_chunks[0].seq == chunks.last().seq + 1
            &&& next_chunks[0].first_sample == chunks.last().first_sample
                + chunks.last().sample_count
        },
        next_chunks[0].seq == state.seq + chunks.len(),
        next_chunks[0].first_sample == state.first_sample + packed.len() / state.unitsize as nat,
        next_chunks[0].capture_id == state.capture_id,
        next_chunks[0].acquisition == state.acquisition,
        next_chunks[0].stream == state.stream,
        next_chunks[0].encoding == state.encoding.number(),
{
    if chunks.len() > 0 {
        law_chunks_are_consecutive(state, chunks, packed, chunks.len() - 1);
    }
    law_chunks_are_consecutive(state_after(state, packed), next_chunks, next_packed, 0);
    law_chunks_say_what_they_carry(state_after(state, packed), next_chunks, next_packed, 0);
}

/// Every chunk but the last holds as many samples as fit a payload of 1 MiB, the
/// last one what is left, and there are no more chunks than that takes. Each says
/// whose it is, how it is encoded and how much it holds; verbatim samples are in
/// it to the byte.
pub proof fn law_chunks_say_what_they_carry(
    state: StreamState,
    chunks: Seq<CaptureData>,
    packed: Seq<u8>,
    k: int,
)
    requires
        0 < state.unitsize <= MAX_PAYLOAD,
        state.is_transfer(chunks, packed),
        0 <= k < chunks.len(),
    ensures
        ({
            let chunk = chunks[k];
            let full = (0x10_0000int / state.unitsize as int) * state.unitsize;
            let start = k * full;
            let end = if k + 1 < chunks.len() {
                start + full
            } else {
                packed.len() as int
            };
            &&& 0 <= start < end <= start + full
            &&& end <= packed.len()
            &&& chunk.capture_id == state.capture_id
            &&& chunk.acquisition == state.acquisition
            &&& chunk.stream == state.stream
            &&& chunk.encoding == state.encoding.number()
            &&& chunk.codec == Codec::Uncompressed.number()
            &&& chunk.sample_count == (end - start) / state.unitsize as int
            &&& chunk.decoded_len == payload::content(chunk.payload).len()
            &&& payload::content(chunk.payload) == (if state.encoding
                == SampleEncoding::Transition {
                transition::transitions(
                    transition::samples(packed.subrange(start, end), state.unitsize as nat),
                )
            } else {
                packed.subrange(start, end)
            })
        }),
{
    let u = state.unitsize;
    assert(state.after(k).is_chunk(chunks[k], state.part(packed, k)));
    lemma_chunk_len(u);
    lemma_chunk_starts(u, packed.len(), k);
    lemma_part_bounds(u, packed.len(), k as nat);
    vstd::arithmetic::div_mod::lemma_fundamental_div_mod(0x10_0000, u as int);
    assert((0x10_0000int / u as int) * u == u as int * (0x10_0000int / u as int))
        by (nonlinear_arith);
    assert(state.chunk_len() == (0x10_0000int / u as int) * u);
}

/// Nothing is sent of nothing, and something of something.
pub proof fn law_empty_transfers_send_nothing(
    state: StreamState,
    chunks: Seq<CaptureData>,
    packed: Seq<u8>,
)
    requires
        0 < state.unitsize <= MAX_PAYLOAD,
        state.is_transfer(chunks, packed),
    ensures
        chunks.len() == 0 <==> packed.len() == 0,
{
    lemma_chunk_len(state.unitsize);
    lemma_chunk_starts(state.unitsize, packed.len(), 0);
    lemma_part_bounds(state.unitsize, packed.len(), 0);
    assert(0 * state.chunk_len() == 0) by (nonlinear_arith);
}

/// No payload reaches the protocol's ceiling of 4 MiB, whatever the samples.
pub proof fn law_payload_stays_under_the_ceiling(
    state: StreamState,
    chunks: Seq<CaptureData>,
    packed: Seq<u8>,
    k: int,
)
    requires
        0 < state.unitsize <= MAX_PAYLOAD,
        state.is_transfer(chunks, packed),
        0 <= k < chunks.len(),
    ensures
        payload::content(chunks[k].payload).len() <= 2 * MAX_PAYLOAD < 4 * 1024 * 1024,
        state.encoding != SampleEncoding::Transition ==> payload::content(chunks[k].payload).len()
            <= MAX_PAYLOAD,
{
    let part = state.part(packed, k);
    let u = state.unitsize as nat;
    assert(state.after(k).is_chunk(chunks[k], part));
    lemma_chunk_len(state.unitsize);
    lemma_chunk_starts(state.unitsize, packed.len(), k);
    lemma_part_bounds(state.unitsize, packed.len(), k as nat);
    assert(part.len() <= MAX_PAYLOAD);
    transition::law_transition_worst_case(part, u);
    let whole = part.len() / u;
    assert(whole * u <= part.len() && whole <= part.len()) by (nonlinear_arith)
        requires
            u > 0,
            whole == part.len() / u,
    ;
}

} // verus!
