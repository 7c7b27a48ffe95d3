// SPDX-License-Identifier: Apache-2.0
//! Run lengths on the wire: little-endian base 128, at most ten bytes.

use vstd::arithmetic::power2::{lemma2_to64, lemma2_to64_rest, lemma_pow2_adds, pow2};
use vstd::bits::lemma_u64_shl_is_mul;
use vstd::prelude::*;

use crate::error::Error;

verus! {

/// A varint never has more bytes than this.
pub const MAX_VARINT: usize = 10;

/// The varint of `value`: seven bits a byte, the high bit on all but the last.
pub open spec fn varint(value: nat) -> Seq<u8>
    decreases value,
{
    if value < 0x80 {
        seq![value as u8]
    } else {
        seq![(value % 0x80 + 0x80) as u8] + varint(value / 0x80)
    }
}

/// The number that the low seven bits of `bytes` spell, least significant first.
pub open spec fn base128(bytes: Seq<u8>) -> nat
    decreases bytes.len(),
{
    if bytes.len() == 0 {
        0
    } else {
        bytes[0] as nat % 0x80 + 0x80 * base128(bytes.drop_first())
    }
}

/// How many bytes the varint at the front of `input` takes: up to and with the
/// first byte without a high bit, which is one of the first `limit`.
pub open spec fn varint_end(input: Seq<u8>, limit: nat) -> Option<nat>
    decreases limit,
{
    if limit == 0 || input.len() == 0 {
        None
    } else if input[0] < 0x80 {
        Some(1)
    } else {
        match varint_end(input.drop_first(), (limit - 1) as nat) {
            Some(n) => Some(n + 1),
            None => None,
        }
    }
}

/// What the front of `input` says: a number modulo 2^64, and the bytes after it.
pub open spec fn read_varint(input: Seq<u8>) -> Option<(nat, Seq<u8>)> {
    match varint_end(input, MAX_VARINT as nat) {
        Some(n) => Some((base128(input.take(n as int)) % pow2(64), input.skip(n as int))),
        None => None,
    }
}

/// Appends the varint of `value` to `out`.
pub fn put_varint(out: &mut Vec<u8>, value: u64)
    ensures
        final(out)@ == old(out)@ + varint(value as nat),
        varint(value as nat).len() <= MAX_VARINT,
{
    proof {
        lemma_varint_len(value as nat);
    }
    let mut rest: u64 = value;
    while rest >= 0x80
        invariant
            old(out)@ + varint(value as nat) == out@ + varint(rest as nat),
        decreases rest,
    {
        let ghost before = out@;
        proof {
            let v = rest;
            assert((((v as u8) | 0x80u8) as u64) == v % 0x80 + 0x80) by (bit_vector);
            assert(v >> 7 == v / 0x80) by (bit_vector);
        }
        out.push(#[verifier::truncate] (rest as u8) | 0x80);
        assert(before + varint(rest as nat) =~= out@ + varint((rest / 0x80) as nat));
        rest = rest >> 7;
    }
    out.push(rest as u8);
    assert(out@ =~= old(out)@ + varint(value as nat));
}

/// A byte's low seven bits land above what `value` already holds.
proof fn lemma_or_is_sum(value: u64, low: u64, shift: u64)
    requires
        shift < 64,
        value < 1u64 << shift,
    ensures
        (value | (low << shift)) as int == value + (low << shift),
{
    assert((value | (low << shift)) as int == value + (low << shift)) by (bit_vector)
        requires
            shift < 64,
            value < 1u64 << shift,
    ;
}

/// One more byte on top of `n` bytes adds its low seven bits times 128^n.
proof fn lemma_base128_push(bytes: Seq<u8>, byte: u8)
    ensures
        base128(bytes.push(byte)) == base128(bytes) + (byte as nat % 0x80) * pow2(7 * bytes.len()),
        base128(bytes) < pow2(7 * bytes.len()),
    decreases bytes.len(),
{
    lemma2_to64();
    if bytes.len() == 0 {
        assert(bytes.push(byte).drop_first() =~= Seq::<u8>::empty());
        assert(base128(bytes.push(byte).drop_first()) == 0);
        assert(pow2(7 * bytes.len()) == 1);
    } else {
        let rest = bytes.drop_first();
        lemma_base128_push(rest, byte);
        assert(bytes.push(byte).drop_first() =~= rest.push(byte));
        lemma_pow2_adds(7, 7 * rest.len());
        assert(pow2(7 * bytes.len()) == 0x80 * pow2(7 * rest.len()));
        let low = byte as nat % 0x80;
        let scale = pow2(7 * rest.len());
        assert(0x80 * (low * scale) == low * (0x80 * scale)) by (nonlinear_arith);
        assert(bytes.push(byte)[0] == bytes[0]);
        assert(base128(bytes.push(byte)) == bytes[0] as nat % 0x80 + 0x80 * base128(
            rest.push(byte),
        ));
        assert(base128(rest.push(byte)) == base128(rest) + low * scale);
        assert(low * (0x80 * scale) == low * pow2(7 * bytes.len()));
    }
}

/// The varint at the front of `input` ends at the first byte without a high bit.
proof fn lemma_varint_end(input: Seq<u8>, limit: nat, n: nat)
    requires
        n < limit,
        n <= input.len(),
        forall|i: int| 0 <= i < n ==> input[i] >= 0x80,
    ensures
        n < input.len() && input[n as int] < 0x80 ==> varint_end(input, limit) == Some(n + 1),
        n == input.len() ==> varint_end(input, limit) is None,
    decreases n,
{
    if n > 0 {
        let rest = input.drop_first();
        assert forall|i: int| 0 <= i < n - 1 implies rest[i] >= 0x80 by {
            assert(input[i + 1] >= 0x80);
        }
        assert(input[0] >= 0x80);
        lemma_varint_end(rest, (limit - 1) as nat, (n - 1) as nat);
    }
}

/// No varint ends among the first `limit` bytes where all have a high bit.
proof fn lemma_varint_open(input: Seq<u8>, limit: nat)
    requires
        limit <= input.len(),
        forall|i: int| 0 <= i < limit ==> input[i] >= 0x80,
    ensures
        varint_end(input, limit) is None,
    decreases limit,
{
    if limit > 0 {
        let rest = input.drop_first();
        assert forall|i: int| 0 <= i < limit - 1 implies rest[i] >= 0x80 by {
            assert(input[i + 1] >= 0x80);
        }
        assert(input[0] >= 0x80);
        lemma_varint_open(rest, (limit - 1) as nat);
    }
}

/// Adding the `n`th byte to the number so far, as a machine does it.
proof fn lemma_accumulate(bytes: Seq<u8>, value: u64, byte: u8)
    requires
        bytes.len() < MAX_VARINT,
        value == base128(bytes),
    ensures
        (value | (((byte & 0x7f) as u64) << (bytes.len() * 7) as u64)) == base128(
            bytes.push(byte),
        ) % pow2(64),
        bytes.len() < 9 ==> base128(bytes.push(byte)) < pow2(63) && pow2(63) < pow2(64),
{
    let low = (byte & 0x7f) as u64;
    let shift = (bytes.len() * 7) as u64;
    assert((byte & 0x7f) as u64 == byte % 0x80) by (bit_vector);
    lemma_base128_push(bytes, byte);
    lemma_base128_push(bytes.push(byte), 0);
    lemma2_to64();
    lemma2_to64_rest();
    vstd::bits::lemma_u64_pow2_no_overflow(shift as nat);
    lemma_u64_shl_is_mul(1, shift);
    assert(1u64 << shift == pow2(shift as nat));
    lemma_or_is_sum(value, low, shift);
    if bytes.len() < 9 {
        lemma_pow2_adds(7, shift as nat);
        assert(low * pow2(shift as nat) <= 0x7f * pow2(shift as nat)) by (nonlinear_arith)
            requires
                low <= 0x7f,
        ;
        vstd::arithmetic::power2::lemma_pow2_strictly_increases(63, 64);
        if shift + 7 < 63 {
            vstd::arithmetic::power2::lemma_pow2_strictly_increases((shift + 7) as nat, 63);
        }
        lemma_u64_shl_is_mul(low, shift);
        vstd::arithmetic::div_mod::lemma_small_mod(base128(bytes.push(byte)), pow2(64));
    } else {
        assert(shift == 63);
        assert((low << 63u64) == (low % 2) * 0x8000_0000_0000_0000) by (bit_vector);
        let half: int = 0x8000_0000_0000_0000;
        assert(pow2(63) == half);
        assert(pow2(64) == 2 * half);
        let total = value + low * half;
        assert(base128(bytes.push(byte)) == total);
        assert(total == (low / 2) * (2 * half) + (value + (low % 2) * half)) by (nonlinear_arith)
            requires
                total == value + low * half,
        ;
        vstd::arithmetic::div_mod::lemma_fundamental_div_mod_converse_mod(
            total,
            2 * half,
            (low / 2) as int,
            value + (low % 2) * half,
        );
    }
}

/// Reads the run length at the front of `input`.
///
/// The tenth byte counts its lowest bit only, as the number is a `u64`.
pub fn get_varint(input: &[u8]) -> (r: Result<(u64, &[u8]), Error>)
    ensures
        match read_varint(input@) {
            Some((value, rest)) => if value == 0 {
                r matches Err(e) && e.is_protocol("transition run length of 0"@)
            } else {
                r matches Ok((v, tail)) && v == value && tail@ == rest
            },
            None => r matches Err(e) && e.is_protocol("truncated or oversized varint"@),
        },
{
    let mut value: u64 = 0;
    let mut i: usize = 0;
    while i < input.len() && i < MAX_VARINT
        invariant
            i <= input.len(),
            i <= MAX_VARINT,
            forall|j: int| 0 <= j < i ==> input@[j] >= 0x80,
            i < MAX_VARINT ==> value == base128(input@.take(i as int)),
        decreases input.len() - i,
    {
        let byte: u8 = input[i];
        let low: u64 = (byte & 0x7f) as u64;
        let ghost before = input@.take(i as int);
        proof {
            lemma_accumulate(before, value, byte);
            assert(before.push(byte) =~= input@.take(i + 1));
            assert((byte & 0x80 == 0) == (byte < 0x80)) by (bit_vector);
            lemma_varint_end(input@, MAX_VARINT as nat, i as nat);
            if i < 9 {
                vstd::arithmetic::div_mod::lemma_small_mod(
                    base128(input@.take(i + 1)),
                    pow2(64),
                );
            }
        }
        value = value | (low << ((i * 7) as u64));
        if byte & 0x80 == 0 {
            if value == 0 {
                return Err(Error::Protocol("transition run length of 0".to_owned()));
            }
            let tail = vstd::slice::slice_subrange(input, i + 1, input.len());
            assert(tail@ =~= input@.skip(i + 1));
            return Ok((value, tail));
        }
        i = i + 1;
    }
    proof {
        if i < MAX_VARINT {
            lemma_varint_end(input@, MAX_VARINT as nat, i as nat);
        } else {
            lemma_varint_open(input@, MAX_VARINT as nat);
        }
    }
    Err(Error::Protocol("truncated or oversized varint".to_owned()))
}

/// A varint spells the number it was made from.
proof fn lemma_base128_varint(value: nat)
    ensures
        base128(varint(value)) == value,
        varint(value).len() >= 1,
    decreases value,
{
    if value < 0x80 {
        assert(varint(value).drop_first() =~= Seq::<u8>::empty());
        assert(base128(varint(value).drop_first()) == 0);
    } else {
        lemma_base128_varint(value / 0x80);
        assert(varint(value).drop_first() =~= varint(value / 0x80));
        assert(varint(value)[0] as nat % 0x80 == value % 0x80);
    }
}

/// A varint says where it ends, whatever follows it.
proof fn lemma_varint_end_of_varint(value: nat, rest: Seq<u8>, limit: nat)
    requires
        limit > 0,
        value < pow2(7 * limit),
    ensures
        varint_end(varint(value) + rest, limit) == Some(varint(value).len()),
    decreases value,
{
    let input = varint(value) + rest;
    if value >= 0x80 {
        lemma2_to64();
        if limit == 1 {
            assert(false);
        }
        lemma_pow2_adds(7, (7 * (limit - 1)) as nat);
        assert(7 * limit == 7 + 7 * (limit - 1));
        lemma_varint_end_of_varint(value / 0x80, rest, (limit - 1) as nat);
        assert(input.drop_first() =~= varint(value / 0x80) + rest);
        assert(input[0] == (value % 0x80 + 0x80) as u8);
    }
}

/// A varint takes at least one byte, and no more bytes than the number it spells.
/// That of a `u64` takes ten at most.
pub proof fn lemma_varint_len(value: nat)
    ensures
        1 <= varint(value).len(),
        value >= 1 ==> varint(value).len() <= value,
        value <= u64::MAX ==> varint(value).len() <= MAX_VARINT,
    decreases value,
{
    if value >= 0x80 {
        lemma_varint_len(value / 0x80);
    }
    if value <= u64::MAX {
        lemma2_to64();
        lemma2_to64_rest();
        vstd::arithmetic::power2::lemma_pow2_strictly_increases(64, 70);
        lemma_varint_fits(value, MAX_VARINT as nat);
    }
}

/// A number of so many times seven bits takes so many bytes at most.
proof fn lemma_varint_fits(value: nat, limit: nat)
    requires
        limit > 0,
        value < pow2(7 * limit),
    ensures
        varint(value).len() <= limit,
    decreases value,
{
    lemma2_to64();
    if value >= 0x80 {
        if limit == 1 {
            assert(false);
        }
        assert(7 * limit == 7 + 7 * (limit - 1));
        lemma_pow2_adds(7, (7 * (limit - 1)) as nat);
        lemma_varint_fits(value / 0x80, (limit - 1) as nat);
    }
}

/// Reading back what was written: a `u64` put as a varint is got back, with
/// what follows it untouched.
pub proof fn law_varint_reads_back(value: u64, rest: Seq<u8>)
    ensures
        read_varint(varint(value as nat) + rest) == Some((value as nat, rest)),
{
    let bytes = varint(value as nat);
    let input = bytes + rest;
    lemma2_to64();
    lemma2_to64_rest();
    vstd::arithmetic::power2::lemma_pow2_strictly_increases(64, 70);
    lemma_varint_end_of_varint(value as nat, rest, MAX_VARINT as nat);
    lemma_base128_varint(value as nat);
    assert(input.take(bytes.len() as int) =~= bytes);
    assert(input.skip(bytes.len() as int) =~= rest);
    vstd::arithmetic::div_mod::lemma_small_mod(value as nat, pow2(64));
}

/// The sum of the low seven bits of each byte, each byte weighing 128 times as
/// much as the one before it.
pub open spec fn weighted(head: Seq<u8>) -> nat
    decreases head.len(),
{
    if head.len() == 0 {
        0
    } else {
        weighted(head.drop_last()) + (head.last() as nat % 0x80) * pow2(
            (7 * (head.len() - 1)) as nat,
        )
    }
}

/// `head` is one way to write `n` modulo 2^64: up to ten bytes, of which the last
/// alone has no high bit.
pub open spec fn spells(head: Seq<u8>, n: nat) -> bool {
    &&& 1 <= head.len() <= 10
    &&& head.last() < 0x80
    &&& forall|i: int| 0 <= i < head.len() - 1 ==> #[trigger] head[i] >= 0x80
    &&& n == weighted(head) % 0x1_0000_0000_0000_0000
}

proof fn lemma_weighted_is_base128(head: Seq<u8>)
    ensures
        base128(head) == weighted(head),
    decreases head.len(),
{
    if head.len() > 0 {
        let less = head.drop_last();
        lemma_weighted_is_base128(less);
        lemma_base128_push(less, head.last());
        assert(less.push(head.last()) =~= head);
    }
}

/// However a number is written, shortest or not, it is read, and nothing of what
/// follows it.
pub proof fn law_every_spelling_is_read(head: Seq<u8>, n: nat, rest: Seq<u8>)
    requires
        spells(head, n),
    ensures
        read_varint(head + rest) == Some((n, rest)),
{
    let input = head + rest;
    let last = (head.len() - 1) as nat;
    assert forall|i: int| 0 <= i < last implies input[i] >= 0x80 by {
        assert(head[i] >= 0x80);
    }
    lemma_varint_end(input, MAX_VARINT as nat, last);
    assert(input[last as int] == head.last());
    assert(input.take(head.len() as int) =~= head);
    assert(input.skip(head.len() as int) =~= rest);
    lemma_weighted_is_base128(head);
    lemma2_to64();
    lemma2_to64_rest();
}

/// Bytes of which none of the first ten ends a number hold no number.
pub proof fn law_open_numbers_are_refused(input: Seq<u8>)
    requires
        forall|i: int| 0 <= i < 10 && i < input.len() ==> #[trigger] input[i] >= 0x80,
    ensures
        read_varint(input) is None,
{
    if input.len() < MAX_VARINT {
        assert forall|i: int| 0 <= i < input.len() implies input[i] >= 0x80 by {}
        lemma_varint_end(input, MAX_VARINT as nat, input.len());
    } else {
        lemma_varint_open(input, MAX_VARINT as nat);
    }
}

/// A varint writes the number it is made from, in as few bytes as there can be:
/// the last byte, unless it is the only one, holds a bit.
pub proof fn law_varint_is_the_shortest_spelling(value: u64)
    ensures
        spells(varint(value as nat), value as nat),
        varint(value as nat).len() > 1 ==> varint(value as nat).last() != 0,
{
    lemma_varint_shape(value as nat);
    lemma_varint_len(value as nat);
    lemma_base128_varint(value as nat);
    lemma_weighted_is_base128(varint(value as nat));
}

proof fn lemma_varint_shape(value: nat)
    ensures
        varint(value).len() >= 1,
        varint(value).last() < 0x80,
        varint(value).last() == 0 ==> value == 0,
        forall|i: int| 0 <= i < varint(value).len() - 1 ==> #[trigger] varint(value)[i] >= 0x80,
    decreases value,
{
    if value >= 0x80 {
        let tail = varint(value / 0x80);
        lemma_varint_shape(value / 0x80);
        let all = varint(value);
        assert(all.last() == tail.last());
        assert forall|i: int| 0 <= i < all.len() - 1 implies #[trigger] all[i] >= 0x80 by {
            if i > 0 {
                assert(all[i] == tail[i - 1]);
            }
        }
    }
}

} // verus!
