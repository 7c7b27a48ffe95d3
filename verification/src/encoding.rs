// SPDX-License-Identifier: Apache-2.0
//! Sample encodings, byte codecs, and the `Hello` negotiation between them.

pub mod transition;
pub mod varint;

pub use crate::encoding::transition::{decode_transition, encode_transition};

use std::borrow::Cow;
use vstd::prelude::*;
use vstd::string::*;

use crate::error::Error;
use crate::payload;
use crate::proto::{CaptureData, Codec, SampleEncoding};

verus! {

/// What this crate can decode, in preference order. `Packed` and
/// `Uncompressed` are mandatory for every implementation, so an intersection
/// is never empty.
pub const ENCODINGS: [SampleEncoding; 2] = [SampleEncoding::Transition, SampleEncoding::Packed];

pub const CODECS: [Codec; 1] = [Codec::Uncompressed];

/// The wire numbers of some encodings.
pub open spec fn encoding_numbers(encodings: Seq<SampleEncoding>) -> Seq<i32> {
    encodings.map_values(|e: SampleEncoding| e.number())
}

/// The wire numbers of some codecs.
pub open spec fn codec_numbers(codecs: Seq<Codec>) -> Seq<i32> {
    codecs.map_values(|c: Codec| c.number())
}

/// The wire numbers of some encodings, in their order.
pub(crate) fn numbers_of_encodings(encodings: &[SampleEncoding]) -> (numbers: Vec<i32>)
    ensures
        numbers@ == encoding_numbers(encodings@),
{
    let mut numbers: Vec<i32> = Vec::new();
    let mut i: usize = 0;
    while i < encodings.len()
        invariant
            i <= encodings.len(),
            numbers@ == encoding_numbers(encodings@.take(i as int)),
        decreases encodings.len() - i,
    {
        numbers.push(encodings[i].number());
        i = i + 1;
        assert(numbers@ =~= encoding_numbers(encodings@.take(i as int)));
    }
    assert(encodings@.take(i as int) =~= encodings@);
    numbers
}

/// The wire numbers of some codecs, in their order.
pub(crate) fn numbers_of_codecs(codecs: &[Codec]) -> (numbers: Vec<i32>)
    ensures
        numbers@ == codec_numbers(codecs@),
{
    let mut numbers: Vec<i32> = Vec::new();
    let mut i: usize = 0;
    while i < codecs.len()
        invariant
            i <= codecs.len(),
            numbers@ == codec_numbers(codecs@.take(i as int)),
        decreases codecs.len() - i,
    {
        numbers.push(codecs[i].number());
        i = i + 1;
        assert(numbers@ =~= codec_numbers(codecs@.take(i as int)));
    }
    assert(codecs@.take(i as int) =~= codecs@);
    numbers
}

/// What two ends agree on: what both know, in the order of preference of the
/// end that supports, with the mandatory member last where it would be missing.
/// An end that accepts nothing by name accepts the mandatory member.
pub open spec fn agreed(accept: Seq<i32>, supported: Seq<i32>, mandatory: i32) -> Seq<i32> {
    let common = supported.filter(|s: i32| accept.contains(s));
    if accept.len() == 0 {
        seq![mandatory]
    } else if common.contains(mandatory) {
        common
    } else {
        common.push(mandatory)
    }
}

/// Whether `members` holds `wanted`.
fn contains(members: &[i32], wanted: i32) -> (found: bool)
    ensures
        found == members@.contains(wanted),
{
    let mut i: usize = 0;
    while i < members.len()
        invariant
            i <= members.len(),
            forall|j: int| 0 <= j < i ==> members@[j] != wanted,
        decreases members.len() - i,
    {
        if members[i] == wanted {
            return true;
        }
        i = i + 1;
    }
    false
}

/// Intersect a peer's `accept_` list with ours, keeping our preference order.
/// An empty list from the peer means it only promised the mandatory member.
pub fn intersect(accept: &[i32], supported: &[i32], mandatory: i32) -> (out: Vec<i32>)
    ensures
        out@ == agreed(accept@, supported@, mandatory),
{
    let mut out: Vec<i32> = Vec::new();
    if accept.len() == 0 {
        out.push(mandatory);
        assert(out@ =~= seq![mandatory]);
        return out;
    }
    let ghost known = |s: i32| accept@.contains(s);
    let mut i: usize = 0;
    proof {
        reveal(Seq::filter);
        assert(supported@.take(0) =~= Seq::<i32>::empty());
    }
    while i < supported.len()
        invariant
            i <= supported.len(),
            known == (|s: i32| accept@.contains(s)),
            out@ == supported@.take(i as int).filter(known),
        decreases supported.len() - i,
    {
        proof {
            reveal(Seq::filter);
            assert(supported@.take(i + 1).drop_last() =~= supported@.take(i as int));
        }
        if contains(accept, supported[i]) {
            out.push(supported[i]);
        }
        i = i + 1;
    }
    assert(supported@.take(i as int) =~= supported@);
    if !contains(out.as_slice(), mandatory) {
        out.push(mandatory);
    }
    out
}

/// The encodings that both ends can handle, by number.
pub fn negotiate_encodings(accept: &[i32], supported: &[SampleEncoding]) -> (out: Vec<i32>)
    ensures
        out@ == agreed(
            accept@,
            encoding_numbers(supported@),
            SampleEncoding::Packed.number(),
        ),
{
    let numbers = numbers_of_encodings(supported);
    intersect(accept, numbers.as_slice(), SampleEncoding::Packed.number())
}

/// The codecs that both ends can handle, by number.
pub fn negotiate_codecs(accept: &[i32], supported: &[Codec]) -> (out: Vec<i32>)
    ensures
        out@ == agreed(accept@, codec_numbers(supported@), Codec::Uncompressed.number()),
{
    let numbers = numbers_of_codecs(supported);
    intersect(accept, numbers.as_slice(), Codec::Uncompressed.number())
}

/// Whether a negotiation settled on an encoding, perhaps among others.
pub fn accepts(negotiated: &[i32], encoding: SampleEncoding) -> (yes: bool)
    ensures
        yes == negotiated@.contains(encoding.number()),
{
    contains(negotiated, encoding.number())
}

/// The codec of a chunk; a number without a codec says nothing.
pub open spec fn codec_of(data: CaptureData) -> Codec {
    match Codec::from_number(data.codec) {
        Some(codec) => codec,
        None => Codec::Unspecified,
    }
}

/// The encoding of a chunk; a number without an encoding says nothing.
pub open spec fn encoding_of(data: CaptureData) -> SampleEncoding {
    match SampleEncoding::from_number(data.encoding) {
        Some(encoding) => encoding,
        None => SampleEncoding::Unspecified,
    }
}

/// Whether a chunk is one to expand, rather than to refuse or to hand out as
/// it is.
pub open spec fn is_run_length(data: CaptureData) -> bool {
    codec_of(data) != Codec::Zstd && encoding_of(data) == SampleEncoding::Transition
}

/// What decoding a chunk comes to: packed samples, or the text of the protocol
/// error.
pub open spec fn unpacked(data: CaptureData, unitsize: nat) -> Result<Seq<u8>, Seq<char>> {
    if codec_of(data) == Codec::Zstd {
        Err("CODEC_ZSTD"@ + " is not decodable here"@)
    } else if encoding_of(data) == SampleEncoding::Transition {
        transition::decoded(payload::content(data.payload), unitsize, data.sample_count as nat)
    } else {
        Ok(payload::content(data.payload))
    }
}

/// Undo the codec and the sample encoding of one chunk, yielding packed bytes.
/// Borrows when the chunk is already packed and uncompressed, which is the
/// common path.
pub fn decode_payload(data: &CaptureData, unitsize: usize) -> (r: Result<Cow<'_, [u8]>, Error>)
    requires
        is_run_length(*data) && unitsize > 0 ==> data.sample_count <= usize::MAX,
    ensures
        match unpacked(*data, unitsize as nat) {
            Ok(bytes) => r matches Ok(cow) && cow@ == bytes && (cow is Owned <==> is_run_length(
                *data,
            )),
            Err(fault) => r matches Err(e) && e.is_protocol(fault),
        },
{
    let codec = match Codec::from_number(data.codec) {
        Some(codec) => codec,
        None => Codec::Unspecified,
    };
    match codec {
        Codec::Uncompressed | Codec::Unspecified => {},
        Codec::Zstd => {
            let mut message = codec.as_str_name().to_owned();
            message.append(" is not decodable here");
            return Err(Error::Protocol(message));
        },
    }
    let encoding = match SampleEncoding::from_number(data.encoding) {
        Some(encoding) => encoding,
        None => SampleEncoding::Unspecified,
    };
    match encoding {
        SampleEncoding::Packed | SampleEncoding::Unspecified => Ok(
            Cow::Borrowed(payload::as_slice(&data.payload)),
        ),
        SampleEncoding::Transition => {
            match decode_transition(
                payload::as_slice(&data.payload),
                unitsize,
                #[verifier::truncate] (data.sample_count as usize),
            ) {
                Ok(packed) => Ok(Cow::Owned(packed)),
                Err(e) => Err(e),
            }
        },
    }
}

/// The mandatory member is always agreed on, so an agreement is never empty.
pub proof fn law_agreement_holds_the_mandatory_member(
    accept: Seq<i32>,
    supported: Seq<i32>,
    mandatory: i32,
)
    ensures
        agreed(accept, supported, mandatory).contains(mandatory),
        agreed(accept, supported, mandatory).len() > 0,
{
    let common = supported.filter(|s: i32| accept.contains(s));
    if accept.len() == 0 {
        assert(seq![mandatory][0] == mandatory);
    } else if !common.contains(mandatory) {
        assert(common.push(mandatory)[common.len() as int] == mandatory);
    }
}

/// Nothing but the mandatory member is agreed on that one of the two ends does
/// not know, and everything that both know by name is.
pub proof fn law_agreement_is_an_intersection(
    accept: Seq<i32>,
    supported: Seq<i32>,
    mandatory: i32,
    member: i32,
)
    ensures
        agreed(accept, supported, mandatory).contains(member) <==> (member == mandatory || (
        accept.contains(member) && supported.contains(member))),
{
    broadcast use vstd::seq_lib::group_filter_ensures;

    let known = |s: i32| accept.contains(s);
    let common = supported.filter(known);
    let all = agreed(accept, supported, mandatory);
    law_agreement_holds_the_mandatory_member(accept, supported, mandatory);
    if accept.contains(member) && supported.contains(member) {
        let i = choose|i: int| 0 <= i < supported.len() && supported[i] == member;
        assert(known(supported[i]));
        assert(common.contains(supported[i]));
        let j = choose|j: int| 0 <= j < common.len() && common[j] == member;
        assert(all[j] == member);
    }
    if all.contains(member) && member != mandatory {
        let j = choose|j: int| 0 <= j < all.len() && all[j] == member;
        assert(known(common[j]));
        lemma_filter_keeps(supported, known, j);
    }
}

/// A filter hands out nothing that it was not given.
proof fn lemma_filter_keeps(given: Seq<i32>, keep: spec_fn(i32) -> bool, j: int)
    requires
        0 <= j < given.filter(keep).len(),
    ensures
        given.contains(given.filter(keep)[j]),
    decreases given.len(),
{
    reveal(Seq::filter);
    let before = given.drop_last();
    if j < before.filter(keep).len() {
        lemma_filter_keeps(before, keep, j);
        let i = choose|i: int| 0 <= i < before.len() && before[i] == before.filter(keep)[j];
        assert(given[i] == given.filter(keep)[j]);
    } else {
        assert(given[given.len() - 1] == given.filter(keep)[j]);
    }
}

/// Our preference order wins: of two members that both ends know by name, the
/// one that stands first in the agreement stands first in our list.
pub proof fn law_agreement_keeps_our_order(
    accept: Seq<i32>,
    supported: Seq<i32>,
    mandatory: i32,
    i: int,
    j: int,
)
    requires
        0 <= i < j < supported.filter(|s: i32| accept.contains(s)).len(),
        accept.len() > 0,
    ensures
        exists|a: int, b: int|
            0 <= a < b < supported.len() && #[trigger] supported[a] == agreed(
                accept,
                supported,
                mandatory,
            )[i] && #[trigger] supported[b] == agreed(accept, supported, mandatory)[j],
{
    lemma_filter_keeps_order(supported, |s: i32| accept.contains(s), i, j);
}

proof fn lemma_filter_keeps_order(given: Seq<i32>, keep: spec_fn(i32) -> bool, i: int, j: int)
    requires
        0 <= i < j < given.filter(keep).len(),
    ensures
        exists|a: int, b: int|
            0 <= a < b < given.len() && #[trigger] given[a] == given.filter(keep)[i]
                && #[trigger] given[b] == given.filter(keep)[j],
    decreases given.len(),
{
    reveal(Seq::filter);
    let before = given.drop_last();
    if j < before.filter(keep).len() {
        lemma_filter_keeps_order(before, keep, i, j);
        let (a, b) = choose|a: int, b: int|
            0 <= a < b < before.len() && #[trigger] before[a] == before.filter(keep)[i]
                && #[trigger] before[b] == before.filter(keep)[j];
        assert(given[a] == given.filter(keep)[i] && given[b] == given.filter(keep)[j]);
    } else {
        lemma_filter_keeps(before, keep, i);
        let a = choose|a: int| 0 <= a < before.len() && before[a] == before.filter(keep)[i];
        assert(given[a] == given.filter(keep)[i]);
        assert(given[given.len() - 1] == given.filter(keep)[j]);
    }
}

/// `picks` are the places of all members of `supported` that `accept` holds, in
/// their order.
pub open spec fn are_picks(picks: Seq<int>, accept: Seq<i32>, supported: Seq<i32>) -> bool {
    &&& forall|i: int|
        0 <= i < picks.len() ==> 0 <= #[trigger] picks[i] < supported.len() && accept.contains(
            supported[picks[i]],
        )
    &&& forall|i: int, j: int|
        0 <= i < j < picks.len() ==> #[trigger] picks[i] < #[trigger] picks[j]
    &&& forall|k: int|
        0 <= k < supported.len() && accept.contains(#[trigger] supported[k]) ==> picks.contains(k)
}

/// An agreement is our list without what the peer does not accept, as often and
/// in the order it stands there, with the mandatory member behind it where that
/// is not among them. A peer that accepts nothing by name gets the mandatory
/// member alone.
pub proof fn law_agreement_is_our_list_without_the_rest(
    accept: Seq<i32>,
    supported: Seq<i32>,
    mandatory: i32,
)
    ensures
        accept.len() == 0 ==> agreed(accept, supported, mandatory) == seq![mandatory],
        accept.len() > 0 ==> exists|picks: Seq<int>|
            {
                let common = Seq::new(picks.len(), |i: int| supported[picks[i]]);
                &&& #[trigger] are_picks(picks, accept, supported)
                &&& agreed(accept, supported, mandatory) == (if common.contains(mandatory) {
                    common
                } else {
                    common.push(mandatory)
                })
            },
{
    if accept.len() > 0 {
        let picks = lemma_filter_picks(accept, supported);
        assert(are_picks(picks, accept, supported));
    }
}

proof fn lemma_filter_picks(accept: Seq<i32>, supported: Seq<i32>) -> (picks: Seq<int>)
    ensures
        are_picks(picks, accept, supported),
        supported.filter(|s: i32| accept.contains(s)) == Seq::new(
            picks.len(),
            |i: int| supported[picks[i]],
        ),
    decreases supported.len(),
{
    reveal(Seq::filter);
    let known = |s: i32| accept.contains(s);
    if supported.len() == 0 {
        assert(supported.filter(known) =~= Seq::empty());
        Seq::empty()
    } else {
        let less = supported.drop_last();
        let before = lemma_filter_picks(accept, less);
        let last = supported.len() - 1;
        let picks = if accept.contains(supported.last()) {
            before.push(last)
        } else {
            before
        };
        assert forall|i: int| 0 <= i < before.len() implies 0 <= #[trigger] before[i] < last
            && supported[before[i]] == less[before[i]] by {}
        assert forall|i: int| 0 <= i < picks.len() implies 0 <= #[trigger] picks[i]
            < supported.len() && accept.contains(supported[picks[i]]) by {
            if i < before.len() {
                assert(picks[i] == before[i]);
                assert(accept.contains(less[before[i]]));
            }
        }
        assert forall|i: int, j: int| 0 <= i < j < picks.len() implies #[trigger] picks[i]
            < #[trigger] picks[j] by {
            assert(picks[i] == before[i]);
            if j < before.len() {
                assert(picks[j] == before[j]);
            }
        }
        assert forall|k: int|
            0 <= k < supported.len() && accept.contains(#[trigger] supported[k]) implies
            picks.contains(k) by {
            if k < last {
                assert(less[k] == supported[k]);
                let i = choose|i: int| 0 <= i < before.len() && before[i] == k;
                assert(picks[i] == k);
            } else {
                assert(picks[before.len() as int] == k);
            }
        }
        assert(supported.filter(known) =~= Seq::new(picks.len(), |i: int| supported[picks[i]]));
        picks
    }
}

/// How a chunk is decoded goes by its two numbers. One with the number of the
/// codec that is not decodable here is refused by the codec's name. Any other is
/// expanded if it has the number of the run-length encoding, and is its payload,
/// to the byte, if it has not.
pub proof fn law_chunks_decode_by_their_numbers(data: CaptureData, unitsize: nat)
    ensures
        data.codec == Codec::Zstd.number() ==> unpacked(data, unitsize) == Err::<
            Seq<u8>,
            Seq<char>,
        >("CODEC_ZSTD is not decodable here"@),
        data.codec != Codec::Zstd.number() && data.encoding != SampleEncoding::Transition.number()
            ==> unpacked(data, unitsize) == Ok::<Seq<u8>, Seq<char>>(
            payload::content(data.payload),
        ),
        data.codec != Codec::Zstd.number() && data.encoding == SampleEncoding::Transition.number()
            ==> unpacked(data, unitsize) == transition::decoded(
            payload::content(data.payload),
            unitsize,
            data.sample_count as nat,
        ),
        is_run_length(data) <==> data.codec != Codec::Zstd.number() && data.encoding
            == SampleEncoding::Transition.number(),
{
    reveal_strlit("CODEC_ZSTD is not decodable here");
    reveal_strlit("CODEC_ZSTD");
    reveal_strlit(" is not decodable here");
    assert("CODEC_ZSTD"@ + " is not decodable here"@ =~= "CODEC_ZSTD is not decodable here"@);
}

/// The numbers of some encodings, or codecs, are theirs, one each, in their order.
pub proof fn law_numbers_are_those_of_the_members(
    encodings: Seq<SampleEncoding>,
    codecs: Seq<Codec>,
)
    ensures
        encoding_numbers(encodings).len() == encodings.len(),
        forall|i: int|
            0 <= i < encodings.len() ==> #[trigger] encoding_numbers(encodings)[i]
                == encodings[i].number(),
        codec_numbers(codecs).len() == codecs.len(),
        forall|i: int|
            0 <= i < codecs.len() ==> #[trigger] codec_numbers(codecs)[i] == codecs[i].number(),
{
}

} // verus!
