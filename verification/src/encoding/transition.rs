// SPDX-License-Identifier: Apache-2.0
//! Run-length encoded samples: `(varint run, unitsize bytes)` pairs.

use vstd::prelude::*;
use vstd::slice::slice_subrange;
use vstd::string::*;

use crate::encoding::varint;
use crate::encoding::varint::{get_varint, put_varint, MAX_VARINT};
use crate::error::Error;
use crate::text;
use crate::text::decimal_string;

verus! {

/// The whole samples of `unitsize` bytes each at the front of `packed`.
pub open spec fn samples(packed: Seq<u8>, unitsize: nat) -> Seq<Seq<u8>> {
    Seq::new(
        packed.len() / unitsize,
        |i: int| packed.subrange(i * unitsize, i * unitsize + unitsize),
    )
}

/// The bytes of a sequence of samples, one after the other.
pub open spec fn flatten(samples: Seq<Seq<u8>>) -> Seq<u8>
    decreases samples.len(),
{
    if samples.len() == 0 {
        Seq::empty()
    } else {
        samples[0] + flatten(samples.drop_first())
    }
}

/// How many samples at the front are equal to the first.
pub open spec fn run_length(samples: Seq<Seq<u8>>) -> nat
    decreases samples.len(),
{
    if samples.len() == 0 {
        0
    } else if samples.len() > 1 && samples[1] == samples[0] {
        1 + run_length(samples.drop_first())
    } else {
        1
    }
}

/// One pair of run length and value for each maximal run of equal samples.
pub open spec fn transitions(samples: Seq<Seq<u8>>) -> Seq<u8>
    decreases samples.len(),
    via transitions_decreases
{
    if samples.len() == 0 {
        Seq::empty()
    } else {
        let run = run_length(samples);
        varint::varint(run) + samples[0] + transitions(samples.skip(run as int))
    }
}

#[via_fn]
proof fn transitions_decreases(samples: Seq<Seq<u8>>) {
    lemma_run_length(samples);
}

/// A leading run is the longest stretch of samples equal to the first.
proof fn lemma_run_length(samples: Seq<Seq<u8>>)
    ensures
        run_length(samples) <= samples.len(),
        samples.len() > 0 ==> run_length(samples) >= 1,
        forall|i: int| 0 <= i < run_length(samples) ==> #[trigger] samples[i] == samples[0],
        run_length(samples) < samples.len() ==> samples[run_length(samples) as int] != samples[0],
    decreases samples.len(),
{
    if samples.len() > 1 && samples[1] == samples[0] {
        let rest = samples.drop_first();
        lemma_run_length(rest);
        assert forall|i: int| 0 <= i < run_length(samples) implies #[trigger] samples[i]
            == samples[0] by {
            if i > 0 {
                assert(rest[i - 1] == rest[0]);
            }
        }
        if run_length(samples) < samples.len() {
            assert(rest[run_length(rest) as int] == samples[run_length(samples) as int]);
        }
    }
}

/// A stretch of equal samples that something else follows is the leading run.
proof fn lemma_run_length_is(samples: Seq<Seq<u8>>, n: nat)
    requires
        1 <= n <= samples.len(),
        forall|i: int| 0 <= i < n ==> #[trigger] samples[i] == samples[0],
        n < samples.len() ==> samples[n as int] != samples[0],
    ensures
        run_length(samples) == n,
{
    lemma_run_length(samples);
    if run_length(samples) < n {
        assert(samples[run_length(samples) as int] == samples[0]);
    }
}

/// Whether two byte strings are the same.
fn same_bytes(a: &[u8], b: &[u8]) -> (same: bool)
    ensures
        same == (a@ == b@),
{
    if a.len() != b.len() {
        return false;
    }
    let mut i: usize = 0;
    while i < a.len()
        invariant
            a.len() == b.len(),
            i <= a.len(),
            forall|j: int| 0 <= j < i ==> a@[j] == b@[j],
        decreases a.len() - i,
    {
        if a[i] != b[i] {
            return false;
        }
        i = i + 1;
    }
    assert(a@ =~= b@);
    true
}

/// Run-length encode packed samples as `(varint run, unitsize bytes)` pairs.
/// Bytes after the last whole sample are not encoded.
///
/// Worst case, every sample different, costs one byte per sample; chunking
/// therefore happens on the packed side.
pub fn encode_transition(packed: &[u8], unitsize: usize) -> (out: Vec<u8>)
    requires
        unitsize > 0,
    ensures
        out@ == transitions(samples(packed@, unitsize as nat)),
{
    let mut out: Vec<u8> = Vec::new();
    let count: usize = packed.len() / unitsize;
    let ghost all = samples(packed@, unitsize as nat);
    if count == 0 {
        assert(all =~= Seq::<Seq<u8>>::empty());
        return out;
    }
    proof {
        lemma_sample_fits(packed@.len(), unitsize as nat, 0);
    }
    let mut current = slice_subrange(packed, 0, unitsize);
    let mut run: u64 = 1;
    let mut next: usize = 1;
    let ghost mut start: int = 0;
    assert(all.skip(0) =~= all);
    while next < count
        invariant
            unitsize > 0,
            count == packed.len() / unitsize,
            all == samples(packed@, unitsize as nat),
            0 <= start,
            start + run == next,
            1 <= run,
            next <= count,
            current@ == all[start],
            forall|i: int| start <= i < next ==> #[trigger] all[i] == all[start],
            out@ + transitions(all.skip(start)) == transitions(all),
        decreases count - next,
    {
        proof {
            lemma_sample_fits(packed@.len(), unitsize as nat, next as nat);
        }
        let sample = slice_subrange(packed, next * unitsize, next * unitsize + unitsize);
        assert(sample@ == all[next as int]);
        if same_bytes(sample, current) {
            run = run + 1;
        } else {
            let ghost tail = all.skip(start);
            let ghost before = out@;
            proof {
                assert forall|i: int| 0 <= i < run implies #[trigger] tail[i] == tail[0] by {
                    assert(all[start + i] == all[start]);
                }
                lemma_run_length_is(tail, run as nat);
                assert(tail.skip(run as int) =~= all.skip(next as int));
            }
            put_varint(&mut out, run);
            out.extend_from_slice(current);
            assert(out@ =~= before + varint::varint(run as nat) + current@);
            assert(out@ + transitions(all.skip(next as int)) =~= before + transitions(tail));
            current = sample;
            run = 1;
            proof {
                start = next as int;
            }
        }
        next = next + 1;
    }
    let ghost tail = all.skip(start);
    let ghost before = out@;
    proof {
        assert forall|i: int| 0 <= i < run implies #[trigger] tail[i] == tail[0] by {
            assert(all[start + i] == all[start]);
        }
        lemma_run_length_is(tail, run as nat);
        assert(tail.skip(run as int) =~= Seq::<Seq<u8>>::empty());
        assert(transitions(tail.skip(run as int)) == Seq::<u8>::empty());
    }
    put_varint(&mut out, run);
    out.extend_from_slice(current);
    assert(out@ =~= before + varint::varint(run as nat) + current@);
    assert(out@ =~= before + transitions(tail));
    out
}

/// A whole sample ends within the bytes it was counted from.
proof fn lemma_sample_fits(len: nat, unitsize: nat, i: nat)
    by (nonlinear_arith)
    requires
        unitsize > 0,
        i < len / unitsize,
    ensures
        0 <= i * unitsize,
        i * unitsize + unitsize <= len,
{
}

/// `value` written `times` times.
pub open spec fn repeat(value: Seq<u8>, times: nat) -> Seq<u8>
    decreases times,
{
    if times == 0 {
        Seq::empty()
    } else {
        repeat(value, (times - 1) as nat) + value
    }
}

/// The samples that a run-length encoded payload stands for, or what is wrong
/// with the first pair that is not one.
pub open spec fn expand(payload: Seq<u8>, unitsize: nat) -> Result<Seq<u8>, Seq<char>>
    decreases payload.len(),
    via expand_decreases
{
    if payload.len() == 0 {
        Ok(Seq::empty())
    } else {
        match varint::read_varint(payload) {
            None => Err("truncated or oversized varint"@),
            Some((run, rest)) => if run == 0 {
                Err("transition run length of 0"@)
            } else if rest.len() < unitsize {
                Err("transition run is missing its value"@)
            } else {
                prepend(
                    repeat(rest.take(unitsize as int), run),
                    expand(rest.skip(unitsize as int), unitsize),
                )
            },
        }
    }
}

#[via_fn]
proof fn expand_decreases(payload: Seq<u8>, unitsize: nat) {
    lemma_read_varint_shortens(payload);
}

/// `bytes` in front of what a payload stands for, if it stands for anything.
pub open spec fn prepend(bytes: Seq<u8>, rest: Result<Seq<u8>, Seq<char>>) -> Result<
    Seq<u8>,
    Seq<char>,
> {
    match rest {
        Ok(tail) => Ok(bytes + tail),
        Err(fault) => Err(fault),
    }
}

/// What decoding a payload that declares `samples` samples comes to: the packed
/// samples, or the text of the protocol error.
pub open spec fn decoded(payload: Seq<u8>, unitsize: nat, samples: nat) -> Result<
    Seq<u8>,
    Seq<char>,
> {
    if unitsize == 0 {
        Err("logic stream declared unitsize 0"@)
    } else {
        match expand(payload, unitsize) {
            Err(fault) => Err(fault),
            Ok(bytes) => if bytes.len() == samples * unitsize {
                Ok(bytes)
            } else {
                Err(
                    "transition payload expands to "@ + text::decimal(bytes.len() / unitsize)
                        + " samples, not the "@ + text::decimal(samples) + " declared"@,
                )
            },
        }
    }
}

/// `r` is this outcome: these bytes, or the protocol error with this text.
pub open spec fn is_outcome(
    r: Result<Vec<u8>, Error>,
    outcome: Result<Seq<u8>, Seq<char>>,
) -> bool {
    match outcome {
        Ok(bytes) => r matches Ok(out) && out@ == bytes,
        Err(fault) => r matches Err(e) && e.is_protocol(fault),
    }
}

/// Expand a run-length encoded payload of `samples` samples.
///
/// Nothing past the declared number of samples is ever held in memory.
pub fn decode_transition(payload: &[u8], unitsize: usize, samples: usize) -> (r: Result<
    Vec<u8>,
    Error,
>)
    ensures
        is_outcome(r, decoded(payload@, unitsize as nat, samples as nat)),
{
    if unitsize == 0 {
        return Err(Error::Protocol("logic stream declared unitsize 0".to_owned()));
    }
    let declared: u128 = samples as u128;
    let mut out: Vec<u8> = Vec::new();
    let mut total: u128 = 0;
    let mut rest = payload;
    let ghost mut done: Seq<u8> = Seq::empty();
    proof {
        assert(prepend(done, expand(payload@, unitsize as nat)) == expand(
            payload@,
            unitsize as nat,
        )) by {
            if let Ok(tail) = expand(payload@, unitsize as nat) {
                assert(done + tail =~= tail);
            }
        }
    }
    while rest.len() > 0
        invariant
            unitsize > 0,
            declared == samples,
            rest.len() <= payload.len(),
            expand(payload@, unitsize as nat) == prepend(done, expand(rest@, unitsize as nat)),
            done.len() == total * unitsize,
            total <= (payload.len() - rest.len()) * u64::MAX,
            total <= declared ==> out@ == done,
        decreases rest.len(),
    {
        proof {
            lemma_read_varint_shortens(rest@);
        }
        let (run, tail) = match get_varint(rest) {
            Ok(pair) => pair,
            Err(e) => {
                return Err(e);
            },
        };
        if tail.len() < unitsize {
            return Err(Error::Protocol("transition run is missing its value".to_owned()));
        }
        let value = slice_subrange(tail, 0, unitsize);
        let after = slice_subrange(tail, unitsize, tail.len());
        assert(value@ =~= tail@.take(unitsize as int));
        assert(after@ =~= tail@.skip(unitsize as int));
        let ghost step = repeat(value@, run as nat);
        proof {
            lemma_repeat_len(value@, run as nat);
            assert(prepend(done, prepend(step, expand(after@, unitsize as nat))) == prepend(
                done + step,
                expand(after@, unitsize as nat),
            )) by {
                if let Ok(more) = expand(after@, unitsize as nat) {
                    assert(done + (step + more) =~= (done + step) + more);
                }
            }
            let used = payload.len() - rest.len();
            let used_next = payload.len() - after.len();
            assert(total + run <= used_next * u64::MAX) by (nonlinear_arith)
                requires
                    total <= used * u64::MAX,
                    run <= u64::MAX,
                    used + 1 <= used_next,
            ;
            assert(used_next * u64::MAX <= u128::MAX) by (nonlinear_arith)
                requires
                    0 <= used_next <= u64::MAX,
            ;
            assert((total + run) * unitsize == total * unitsize + run * unitsize)
                by (nonlinear_arith);
        }
        if total <= declared && run as u128 <= declared - total {
            let mut copies: u64 = 0;
            while copies < run
                invariant
                    copies <= run,
                    out@ == done + repeat(value@, copies as nat),
                decreases run - copies,
            {
                let ghost before = out@;
                out.extend_from_slice(value);
                copies = copies + 1;
                assert(out@ =~= before + value@);
                assert(out@ =~= done + repeat(value@, copies as nat));
            }
        }
        total = total + run as u128;
        rest = after;
        proof {
            done = done + step;
        }
    }
    assert(rest@ =~= Seq::<u8>::empty());
    assert(done + Seq::<u8>::empty() =~= done);
    proof {
        assert(total != samples ==> total * unitsize != samples * unitsize) by (nonlinear_arith)
            requires
                unitsize > 0,
        ;
        vstd::arithmetic::div_mod::lemma_div_multiples_vanish(total as int, unitsize as int);
        assert(total * unitsize == unitsize * total) by (nonlinear_arith);
    }
    if total != declared {
        let mut message = "transition payload expands to ".to_owned();
        message.append(decimal_string(total).as_str());
        message.append(" samples, not the ");
        message.append(decimal_string(declared).as_str());
        message.append(" declared");
        return Err(Error::Protocol(message));
    }
    Ok(out)
}

/// Reading a varint uses at least one byte.
proof fn lemma_read_varint_shortens(payload: Seq<u8>)
    ensures
        varint::read_varint(payload) matches Some((_, rest)) ==> rest.len() < payload.len(),
{
    lemma_varint_end_bounds(payload, MAX_VARINT as nat);
}

/// A varint ends within its input.
proof fn lemma_varint_end_bounds(input: Seq<u8>, limit: nat)
    ensures
        varint::varint_end(input, limit) matches Some(n) ==> 1 <= n <= input.len(),
    decreases limit,
{
    if limit > 0 && input.len() > 0 && input[0] >= 0x80 {
        lemma_varint_end_bounds(input.drop_first(), (limit - 1) as nat);
    }
}

/// Repeating multiplies the length.
proof fn lemma_repeat_len(value: Seq<u8>, times: nat)
    ensures
        repeat(value, times).len() == times * value.len(),
    decreases times,
{
    if times > 0 {
        lemma_repeat_len(value, (times - 1) as nat);
        assert(times * value.len() == (times - 1) * value.len() + value.len())
            by (nonlinear_arith)
            requires
                times > 0,
        ;
    } else {
        assert(times * value.len() == 0) by (nonlinear_arith)
            requires
                times == 0,
        ;
    }
}

/// Repeating one sample `n` times is `n` equal samples, one after the other.
proof fn lemma_flatten_run(all: Seq<Seq<u8>>, n: nat)
    requires
        n <= all.len(),
        forall|i: int| 0 <= i < n ==> #[trigger] all[i] == all[0],
    ensures
        flatten(all) == repeat(all[0], n) + flatten(all.skip(n as int)),
    decreases n,
{
    if n == 0 {
        assert(all.skip(0) =~= all);
        assert(repeat(all[0], n) + flatten(all) =~= flatten(all));
    } else {
        let last = (n - 1) as nat;
        lemma_flatten_run(all, last);
        let tail = all.skip(last as int);
        assert(tail[0] == all[last as int]);
        assert(tail.drop_first() =~= all.skip(n as int));
        assert(repeat(all[0], last) + (all[0] + flatten(all.skip(n as int))) =~= repeat(
            all[0],
            n,
        ) + flatten(all.skip(n as int)));
    }
}

/// The encoding of samples expands to those samples.
proof fn lemma_expand_transitions(all: Seq<Seq<u8>>, unitsize: nat)
    requires
        unitsize > 0,
        all.len() <= u64::MAX,
        forall|i: int| 0 <= i < all.len() ==> (#[trigger] all[i]).len() == unitsize,
    ensures
        expand(transitions(all), unitsize) == Ok::<Seq<u8>, Seq<char>>(flatten(all)),
    decreases all.len(),
{
    if all.len() > 0 {
        lemma_run_length(all);
        let run = run_length(all);
        let tail = all.skip(run as int);
        assert forall|i: int| 0 <= i < tail.len() implies (#[trigger] tail[i]).len()
            == unitsize by {
            assert(all[run + i].len() == unitsize);
        }
        lemma_expand_transitions(tail, unitsize);
        let rest = all[0] + transitions(tail);
        varint::lemma_varint_len(run);
        varint::law_varint_reads_back(run as u64, rest);
        assert(transitions(all) =~= varint::varint(run) + rest);
        assert(all[0].len() == unitsize);
        assert(rest.take(unitsize as int) =~= all[0]);
        assert(rest.skip(unitsize as int) =~= transitions(tail));
        lemma_flatten_run(all, run);
    }
}

/// Cutting bytes into whole samples and laying them out again keeps them.
proof fn lemma_flatten_samples(packed: Seq<u8>, unitsize: nat)
    requires
        unitsize > 0,
    ensures
        flatten(samples(packed, unitsize)) == packed.take(
            (packed.len() / unitsize) * unitsize as int,
        ),
    decreases packed.len(),
{
    let count = packed.len() / unitsize;
    let all = samples(packed, unitsize);
    if packed.len() < unitsize {
        assert(count == 0) by {
            vstd::arithmetic::div_mod::lemma_basic_div(packed.len() as int, unitsize as int);
        }
        assert(count * unitsize == 0) by (nonlinear_arith)
            requires
                count == 0,
        ;
        assert(packed.take(0) =~= Seq::<u8>::empty());
    } else {
        let rest = packed.skip(unitsize as int);
        lemma_flatten_samples(rest, unitsize);
        lemma_one_sample_less(packed.len(), unitsize);
        assert forall|i: int| 0 <= i < all.len() - 1 implies #[trigger] all.drop_first()[i]
            == samples(rest, unitsize)[i] by {
            lemma_sample_fits(rest.len(), unitsize, i as nat);
            lemma_next_sample(i, unitsize);
            assert(packed.subrange((i + 1) * unitsize, (i + 1) * unitsize + unitsize)
                =~= rest.subrange(i * unitsize, i * unitsize + unitsize));
        }
        assert(all.drop_first() =~= samples(rest, unitsize));
        assert(all[0] =~= packed.take(unitsize as int));
        let whole = (rest.len() / unitsize) * unitsize;
        assert(0 <= whole <= rest.len()) by (nonlinear_arith)
            requires
                unitsize > 0,
                whole == (rest.len() / unitsize) * unitsize,
        ;
        assert(packed.take(unitsize as int) + rest.take(whole as int) =~= packed.take(
            (whole + unitsize) as int,
        ));
    }
}

/// Taking one sample off the front leaves one sample less.
proof fn lemma_one_sample_less(len: nat, unitsize: nat)
    requires
        unitsize > 0,
        len >= unitsize,
    ensures
        (len - unitsize) as nat / unitsize == len / unitsize - 1,
        (len / unitsize) * unitsize == ((len - unitsize) as nat / unitsize) * unitsize + unitsize,
{
    vstd::arithmetic::div_mod::lemma_div_minus_one(len as int, unitsize as int);
    let n = len / unitsize;
    let m = (len - unitsize) as nat / unitsize;
    assert(n * unitsize == m * unitsize + unitsize) by (nonlinear_arith)
        requires
            m == n - 1,
    ;
}

proof fn lemma_next_sample(i: int, unitsize: nat)
    by (nonlinear_arith)
    ensures
        (i + 1) * unitsize == i * unitsize + unitsize,
{
}

/// Samples that are encoded and decoded again come back: every whole sample,
/// unchanged and in order.
pub proof fn law_transition_round_trip(packed: Seq<u8>, unitsize: nat)
    requires
        unitsize > 0,
        packed.len() <= u64::MAX,
    ensures
        decoded(
            transitions(samples(packed, unitsize)),
            unitsize,
            packed.len() / unitsize,
        ) == Ok::<Seq<u8>, Seq<char>>(packed.take((packed.len() / unitsize) * unitsize as int)),
{
    let all = samples(packed, unitsize);
    let count = packed.len() / unitsize;
    assert(count <= packed.len() && count * unitsize <= packed.len()) by (nonlinear_arith)
        requires
            unitsize > 0,
            count == packed.len() / unitsize,
    ;
    assert forall|i: int| 0 <= i < all.len() implies (#[trigger] all[i]).len() == unitsize by {
        lemma_sample_fits(packed.len(), unitsize, i as nat);
    }
    lemma_expand_transitions(all, unitsize);
    lemma_flatten_samples(packed, unitsize);
}

/// No two neighbouring samples are equal.
pub open spec fn always_changes(all: Seq<Seq<u8>>) -> bool {
    forall|i: int, j: int|
        #![trigger all[i], all[j]]
        0 <= i && j == i + 1 && j < all.len() ==> all[i] != all[j]
}

/// Encoding never costs more than one byte per sample, and costs just that where
/// every sample differs from the one before it.
pub proof fn law_transition_worst_case(packed: Seq<u8>, unitsize: nat)
    requires
        unitsize > 0,
    ensures
        transitions(samples(packed, unitsize)).len() <= (packed.len() / unitsize) * unitsize
            + packed.len() / unitsize,
        always_changes(samples(packed, unitsize)) ==> transitions(samples(packed, unitsize)).len()
            == (packed.len() / unitsize) * unitsize + packed.len() / unitsize,
{
    let all = samples(packed, unitsize);
    assert forall|i: int| 0 <= i < all.len() implies (#[trigger] all[i]).len() == unitsize by {
        lemma_sample_fits(packed.len(), unitsize, i as nat);
    }
    lemma_transitions_len(all, unitsize);
}

proof fn lemma_transitions_len(all: Seq<Seq<u8>>, unitsize: nat)
    requires
        unitsize > 0,
        forall|i: int| 0 <= i < all.len() ==> (#[trigger] all[i]).len() == unitsize,
    ensures
        transitions(all).len() <= all.len() * unitsize + all.len(),
        always_changes(all) ==> transitions(all).len() == all.len() * unitsize + all.len(),
    decreases all.len(),
{
    if all.len() > 0 {
        lemma_run_length(all);
        let run = run_length(all);
        let tail = all.skip(run as int);
        assert forall|i: int| 0 <= i < tail.len() implies (#[trigger] tail[i]).len()
            == unitsize by {
            assert(all[run + i].len() == unitsize);
        }
        lemma_transitions_len(tail, unitsize);
        varint::lemma_varint_len(run);
        assert(all[0].len() == unitsize);
        assert(tail.len() * unitsize + unitsize <= all.len() * unitsize) by (nonlinear_arith)
            requires
                tail.len() + run == all.len(),
                run >= 1,
        ;
        if always_changes(all) {
            if all.len() > 1 {
                assert(all[0] != all[1]);
            }
            assert(run == 1);
            assert forall|i: int, j: int|
                #![trigger tail[i], tail[j]]
                0 <= i && j == i + 1 && j < tail.len() implies tail[i] != tail[j] by {
                assert(all[i + 1] != all[j + 1]);
            }
            assert(varint::varint(1).len() == 1);
            assert(tail.len() * unitsize + unitsize == all.len() * unitsize) by (nonlinear_arith)
                requires
                    tail.len() + 1 == all.len(),
            ;
        }
    }
}

/// A stretch of equal samples, however long, collapses to one run and one value.
pub proof fn law_idle_collapses(all: Seq<Seq<u8>>)
    requires
        all.len() > 0,
        forall|i: int| 0 <= i < all.len() ==> #[trigger] all[i] == all[0],
    ensures
        transitions(all) == varint::varint(all.len()) + all[0],
{
    lemma_run_length_is(all, all.len());
    let none = all.skip(all.len() as int);
    assert(none =~= Seq::<Seq<u8>>::empty());
    assert(transitions(none) == Seq::<u8>::empty());
    assert(transitions(all) =~= varint::varint(all.len()) + all[0]);
}

/// Some equal samples in a row, with the bytes that say how many.
pub struct Run {
    pub head: Seq<u8>,
    pub count: nat,
    pub value: Seq<u8>,
}

impl Run {
    /// The head says how many samples there are, at least one, and a sample has
    /// `unitsize` bytes.
    pub open spec fn is_good(self, unitsize: nat) -> bool {
        &&& varint::spells(self.head, self.count)
        &&& self.count > 0
        &&& self.value.len() == unitsize
    }
}

/// Every run is a good one.
pub open spec fn are_good(runs: Seq<Run>, unitsize: nat) -> bool {
    forall|i: int| 0 <= i < runs.len() ==> (#[trigger] runs[i]).is_good(unitsize)
}

/// Pairs of head and value, one after the other.
pub open spec fn pairs(runs: Seq<Run>) -> Seq<u8>
    decreases runs.len(),
{
    if runs.len() == 0 {
        Seq::empty()
    } else {
        runs[0].head + runs[0].value + pairs(runs.drop_first())
    }
}

/// The samples of all runs, each value as often as its run says.
pub open spec fn run_samples(runs: Seq<Run>) -> Seq<Seq<u8>>
    decreases runs.len(),
{
    if runs.len() == 0 {
        Seq::empty()
    } else {
        Seq::new(runs[0].count, |i: int| runs[0].value) + run_samples(runs.drop_first())
    }
}

/// `packed` holds just these samples, of `unitsize` bytes each, in order.
pub open spec fn holds(packed: Seq<u8>, unitsize: nat, all: Seq<Seq<u8>>) -> bool {
    &&& packed.len() == all.len() * unitsize
    &&& forall|k: int|
        0 <= k < all.len() ==> packed.subrange(k * unitsize, k * unitsize + unitsize)
            == #[trigger] all[k]
}

/// Any pairs decode to their samples: each value as often as its run says, in
/// order. Neighbouring runs may have equal values, and a run length may be
/// written in more bytes than it needs.
pub proof fn law_pairs_decode(runs: Seq<Run>, unitsize: nat)
    requires
        unitsize > 0,
        are_good(runs, unitsize),
    ensures
        decoded(pairs(runs), unitsize, run_samples(runs).len()) matches Ok(packed) && holds(
            packed,
            unitsize,
            run_samples(runs),
        ),
{
    let all = run_samples(runs);
    lemma_expand_pairs(runs, Seq::empty(), unitsize);
    assert(pairs(runs) + Seq::<u8>::empty() =~= pairs(runs));
    assert(flatten(all) + Seq::<u8>::empty() =~= flatten(all));
    lemma_run_samples_fit(runs, unitsize);
    lemma_flatten_holds(all, unitsize);
}

/// A payload that declares another number of samples than its pairs come to is
/// refused, with both numbers.
pub proof fn law_wrong_counts_are_refused(runs: Seq<Run>, unitsize: nat, samples: nat)
    requires
        unitsize > 0,
        are_good(runs, unitsize),
        samples != run_samples(runs).len(),
    ensures
        decoded(pairs(runs), unitsize, samples) == Err::<Seq<u8>, Seq<char>>(
            "transition payload expands to "@ + text::decimal(run_samples(runs).len())
                + " samples, not the "@ + text::decimal(samples) + " declared"@,
        ),
{
    let all = run_samples(runs);
    lemma_expand_pairs(runs, Seq::empty(), unitsize);
    assert(pairs(runs) + Seq::<u8>::empty() =~= pairs(runs));
    assert(flatten(all) + Seq::<u8>::empty() =~= flatten(all));
    lemma_run_samples_fit(runs, unitsize);
    lemma_flatten_holds(all, unitsize);
    let count = all.len();
    assert(samples * unitsize != count * unitsize) by (nonlinear_arith)
        requires
            samples != count,
            unitsize > 0,
    ;
    vstd::arithmetic::div_mod::lemma_div_multiples_vanish(count as int, unitsize as int);
    assert(count * unitsize == unitsize * count) by (nonlinear_arith);
}

/// What is no pair makes the whole payload one to refuse, whatever pairs come
/// before it and however many samples are declared: a number that does not end,
/// a run of no samples, a value that is cut off.
pub proof fn law_bad_pairs_are_refused(
    runs: Seq<Run>,
    head: Seq<u8>,
    count: nat,
    rest: Seq<u8>,
    unitsize: nat,
    samples: nat,
)
    requires
        unitsize > 0,
        are_good(runs, unitsize),
    ensures
        head.len() > 0 && (forall|i: int| 0 <= i < 10 && i < head.len() ==> head[i] >= 0x80)
            ==> decoded(pairs(runs) + head, unitsize, samples) == Err::<Seq<u8>, Seq<char>>(
            "truncated or oversized varint"@,
        ),
        varint::spells(head, 0) ==> decoded(pairs(runs) + (head + rest), unitsize, samples)
            == Err::<Seq<u8>, Seq<char>>("transition run length of 0"@),
        varint::spells(head, count) && count > 0 && rest.len() < unitsize ==> decoded(
            pairs(runs) + (head + rest),
            unitsize,
            samples,
        ) == Err::<Seq<u8>, Seq<char>>("transition run is missing its value"@),
{
    if head.len() > 0 && (forall|i: int| 0 <= i < 10 && i < head.len() ==> head[i] >= 0x80) {
        varint::law_open_numbers_are_refused(head);
        lemma_expand_pairs(runs, head, unitsize);
    }
    lemma_expand_pairs(runs, head + rest, unitsize);
    if varint::spells(head, 0) {
        varint::law_every_spelling_is_read(head, 0, rest);
    }
    if varint::spells(head, count) {
        varint::law_every_spelling_is_read(head, count, rest);
    }
}

/// Samples without a size are refused, whatever the payload.
pub proof fn law_unitsize_zero_is_refused(payload: Seq<u8>, samples: nat)
    ensures
        decoded(payload, 0, samples) == Err::<Seq<u8>, Seq<char>>(
            "logic stream declared unitsize 0"@,
        ),
{
}

/// Samples encode to one pair for each stretch of equal samples: where
/// neighbouring runs have different values, the pairs of the runs, with each run
/// length in as few bytes as there can be. Bytes after the last whole sample make
/// no difference.
pub proof fn law_runs_encode(runs: Seq<Run>, unitsize: nat, packed: Seq<u8>, spare: Seq<u8>)
    requires
        unitsize > 0,
        are_good(runs, unitsize),
        forall|i: int| 0 <= i < runs.len() ==> (#[trigger] runs[i]).head == varint::varint(
            runs[i].count,
        ),
        forall|i: int, j: int|
            #![trigger runs[i], runs[j]]
            0 <= i && j == i + 1 && j < runs.len() ==> runs[i].value != runs[j].value,
        holds(packed, unitsize, run_samples(runs)),
        spare.len() < unitsize,
    ensures
        transitions(samples(packed + spare, unitsize)) == pairs(runs),
{
    let all = run_samples(runs);
    let count = all.len();
    let whole = packed + spare;
    vstd::arithmetic::div_mod::lemma_fundamental_div_mod_converse(
        whole.len() as int,
        unitsize as int,
        count as int,
        spare.len() as int,
    );
    assert(count * unitsize == unitsize * count) by (nonlinear_arith);
    assert(whole.len() / unitsize == count);
    assert forall|k: int| 0 <= k < count implies #[trigger] samples(whole, unitsize)[k]
        == all[k] by {
        lemma_sample_fits(whole.len(), unitsize, k as nat);
        lemma_sample_fits_exactly(count, unitsize, k as nat);
        assert(whole.subrange(k * unitsize, k * unitsize + unitsize) =~= packed.subrange(
            k * unitsize,
            k * unitsize + unitsize,
        ));
    }
    assert(samples(whole, unitsize) =~= all);
    lemma_transitions_pairs(runs, unitsize);
}

proof fn lemma_sample_fits_exactly(count: nat, unitsize: nat, k: nat)
    by (nonlinear_arith)
    requires
        k < count,
    ensures
        0 <= k * unitsize,
        k * unitsize + unitsize <= count * unitsize,
{
}

proof fn lemma_transitions_pairs(runs: Seq<Run>, unitsize: nat)
    requires
        are_good(runs, unitsize),
        forall|i: int| 0 <= i < runs.len() ==> (#[trigger] runs[i]).head == varint::varint(
            runs[i].count,
        ),
        forall|i: int, j: int|
            #![trigger runs[i], runs[j]]
            0 <= i && j == i + 1 && j < runs.len() ==> runs[i].value != runs[j].value,
    ensures
        transitions(run_samples(runs)) == pairs(runs),
    decreases runs.len(),
{
    if runs.len() > 0 {
        let tail = runs.drop_first();
        let all = run_samples(runs);
        let run = runs[0];
        assert(run.is_good(unitsize));
        assert forall|i: int| 0 <= i < tail.len() implies (#[trigger] tail[i]).is_good(unitsize)
            && tail[i].head == varint::varint(tail[i].count) by {
            assert(runs[i + 1].is_good(unitsize));
        }
        assert forall|i: int, j: int|
            #![trigger tail[i], tail[j]]
            0 <= i && j == i + 1 && j < tail.len() implies tail[i].value != tail[j].value by {
            assert(runs[i + 1].value != runs[j + 1].value);
        }
        lemma_transitions_pairs(tail, unitsize);
        assert forall|i: int| 0 <= i < run.count implies #[trigger] all[i] == all[0] by {}
        if run.count < all.len() {
            assert(tail.len() > 0);
            assert(tail[0].is_good(unitsize));
            assert(run_samples(tail)[0] == tail[0].value);
            assert(runs[0].value != runs[1].value);
        }
        lemma_run_length_is(all, run.count);
        assert(all.skip(run.count as int) =~= run_samples(tail));
        assert(all[0] == run.value);
    }
}

/// Pairs in front of anything expand to their samples in front of what the rest
/// expands to.
proof fn lemma_expand_pairs(runs: Seq<Run>, tail: Seq<u8>, unitsize: nat)
    requires
        unitsize > 0,
        are_good(runs, unitsize),
    ensures
        expand(pairs(runs) + tail, unitsize) == prepend(
            flatten(run_samples(runs)),
            expand(tail, unitsize),
        ),
    decreases runs.len(),
{
    let all = run_samples(runs);
    if runs.len() == 0 {
        assert(pairs(runs) + tail =~= tail);
        if let Ok(bytes) = expand(tail, unitsize) {
            assert(flatten(all) + bytes =~= bytes);
        }
    } else {
        let run = runs[0];
        let others = runs.drop_first();
        assert(run.is_good(unitsize));
        assert forall|i: int| 0 <= i < others.len() implies (#[trigger] others[i]).is_good(
            unitsize,
        ) by {
            assert(runs[i + 1].is_good(unitsize));
        }
        lemma_expand_pairs(others, tail, unitsize);
        let rest = run.value + (pairs(others) + tail);
        varint::law_every_spelling_is_read(run.head, run.count, rest);
        assert(pairs(runs) + tail =~= run.head + rest);
        assert(rest.take(unitsize as int) =~= run.value);
        assert(rest.skip(unitsize as int) =~= pairs(others) + tail);
        assert forall|i: int| 0 <= i < run.count implies #[trigger] all[i] == all[0] by {}
        lemma_flatten_run(all, run.count);
        assert(all.skip(run.count as int) =~= run_samples(others));
        let first = repeat(run.value, run.count);
        if let Ok(bytes) = expand(tail, unitsize) {
            assert(first + (flatten(run_samples(others)) + bytes) =~= (first + flatten(
                run_samples(others),
            )) + bytes);
        }
    }
}

proof fn lemma_run_samples_fit(runs: Seq<Run>, unitsize: nat)
    requires
        are_good(runs, unitsize),
    ensures
        forall|i: int|
            0 <= i < run_samples(runs).len() ==> (#[trigger] run_samples(runs)[i]).len()
                == unitsize,
    decreases runs.len(),
{
    if runs.len() > 0 {
        let others = runs.drop_first();
        assert(runs[0].is_good(unitsize));
        assert forall|i: int| 0 <= i < others.len() implies (#[trigger] others[i]).is_good(
            unitsize,
        ) by {
            assert(runs[i + 1].is_good(unitsize));
        }
        lemma_run_samples_fit(others, unitsize);
        let all = run_samples(runs);
        assert forall|i: int| 0 <= i < all.len() implies (#[trigger] all[i]).len() == unitsize by {
            if i >= runs[0].count {
                assert(all[i] == run_samples(others)[i - runs[0].count]);
            }
        }
    }
}

/// Samples that are laid out one after the other are found where they were put.
proof fn lemma_flatten_holds(all: Seq<Seq<u8>>, unitsize: nat)
    requires
        forall|i: int| 0 <= i < all.len() ==> (#[trigger] all[i]).len() == unitsize,
    ensures
        holds(flatten(all), unitsize, all),
    decreases all.len(),
{
    if all.len() == 0 {
        assert(all.len() * unitsize == 0) by (nonlinear_arith)
            requires
                all.len() == 0,
        ;
    } else {
        let tail = all.drop_first();
        assert forall|i: int| 0 <= i < tail.len() implies (#[trigger] tail[i]).len()
            == unitsize by {
            assert(all[i + 1].len() == unitsize);
        }
        lemma_flatten_holds(tail, unitsize);
        assert(all[0].len() == unitsize);
        assert(all.len() * unitsize == tail.len() * unitsize + unitsize) by (nonlinear_arith)
            requires
                all.len() == tail.len() + 1,
        ;
        assert forall|k: int| 0 <= k < all.len() implies flatten(all).subrange(
            k * unitsize,
            k * unitsize + unitsize,
        ) == #[trigger] all[k] by {
            lemma_sample_fits_exactly(all.len(), unitsize, k as nat);
            if k == 0 {
                assert(k * unitsize == 0) by (nonlinear_arith)
                    requires
                        k == 0,
                ;
                assert(flatten(all).subrange(0, unitsize as int) =~= all[0]);
            } else {
                let j = k - 1;
                lemma_next_sample(j, unitsize);
                lemma_sample_fits_exactly(tail.len(), unitsize, j as nat);
                assert(tail[j] == all[k]);
                assert(flatten(all).subrange(k * unitsize, k * unitsize + unitsize)
                    =~= flatten(tail).subrange(j * unitsize, j * unitsize + unitsize));
            }
        }
    }
}

/// Decoding yields all the bytes it comes to, or the protocol error with the text
/// of what is wrong.
pub proof fn law_outcomes_are_told(r: Result<Vec<u8>, Error>, outcome: Result<Seq<u8>, Seq<char>>)
    requires
        is_outcome(r, outcome),
    ensures
        outcome matches Ok(bytes) ==> (r matches Ok(out) && out@ == bytes),
        outcome matches Err(fault) ==> (r matches Err(Error::Protocol(message)) && message@
            == fault),
{
}

} // verus!
