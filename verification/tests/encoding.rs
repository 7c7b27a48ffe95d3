// SPDX-License-Identifier: Apache-2.0
use std::borrow::Cow;

use bytes::Bytes;
use openmso::encoding::{
    accepts, decode_payload, decode_transition, encode_transition, negotiate_codecs,
    negotiate_encodings, CODECS, ENCODINGS,
};
use openmso::proto::{CaptureData, Codec, SampleEncoding};
use openmso::Error;

fn roundtrip(packed: &[u8], unitsize: usize) {
    let encoded = encode_transition(packed, unitsize);
    let decoded = decode_transition(&encoded, unitsize, packed.len() / unitsize).unwrap();
    assert_eq!(decoded, packed);
}

fn fault<T>(r: Result<T, Error>) -> String {
    match r {
        Err(Error::Protocol(text)) => text,
        Err(e) => panic!("not a protocol error: {}", e.to_text()),
        Ok(_) => panic!("no error"),
    }
}

#[test]
fn runs_round_trip() {
    roundtrip(&[], 1);
    roundtrip(&[7], 1);
    roundtrip(&[1, 1, 1, 2, 2, 3], 1);
    roundtrip(&[0xaa; 500], 1);
    roundtrip(&[1, 2, 1, 2, 3, 4, 3, 4], 2);
}

#[test]
fn idle_bus_collapses_to_one_run() {
    let idle = vec![0u8; 100_000];
    assert!(encode_transition(&idle, 1).len() < 10, "one run, one value");
}

#[test]
fn long_runs_use_multi_byte_varints() {
    // 300 > 127, so the run length needs two bytes plus the value.
    assert_eq!(encode_transition(&[5u8; 300], 1), vec![0xac, 0x02, 5]);
    roundtrip(&[5u8; 100_000], 1);
}

#[test]
fn a_short_count_is_an_error() {
    let encoded = encode_transition(&[1, 1, 2], 1);
    assert!(decode_transition(&encoded, 1, 2).is_err());
    // A value cut off after its run length.
    assert!(decode_transition(&[3], 1, 3).is_err());
    assert!(decode_transition(&[0, 9], 1, 1).is_err(), "zero-length run");
}

#[test]
fn negotiation_keeps_the_mandatory_member() {
    let packed = SampleEncoding::Packed as i32;
    let transition = SampleEncoding::Transition as i32;

    assert_eq!(negotiate_encodings(&[packed], &ENCODINGS), vec![packed]);
    // Our preference order wins, not the client's.
    assert_eq!(
        negotiate_encodings(&[packed, transition], &ENCODINGS),
        vec![transition, packed]
    );
    // A client asking only for what we cannot produce still gets PACKED.
    assert_eq!(
        negotiate_encodings(&[transition], &[SampleEncoding::Packed]),
        vec![packed]
    );
    assert_eq!(negotiate_encodings(&[], &ENCODINGS), vec![packed]);
    assert_eq!(negotiate_codecs(&[], &CODECS), vec![Codec::Uncompressed as i32]);
}

#[test]
fn chunks_decode_by_their_declared_encoding() {
    let packed = [1u8, 1, 1, 2];
    let mut data = CaptureData {
        sample_count: 4,
        encoding: SampleEncoding::Packed as i32,
        codec: Codec::Uncompressed as i32,
        payload: Bytes::from_static(&[1, 1, 1, 2]),
        ..Default::default()
    };
    assert!(matches!(decode_payload(&data, 1).unwrap(), Cow::Borrowed(_)));
    assert_eq!(&*decode_payload(&data, 1).unwrap(), &packed);

    data.encoding = SampleEncoding::Transition as i32;
    data.payload = Bytes::from(encode_transition(&packed, 1));
    assert_eq!(&*decode_payload(&data, 1).unwrap(), &packed);

    data.codec = Codec::Zstd as i32;
    assert!(decode_payload(&data, 1).is_err(), "unimplemented codec must not decode");
}

#[test]
fn numbers_are_those_of_the_variants() {
    assert_eq!(SampleEncoding::Transition.number(), SampleEncoding::Transition as i32);
    assert_eq!(SampleEncoding::Packed.number(), SampleEncoding::Packed as i32);
    assert_eq!(Codec::Uncompressed.number(), Codec::Uncompressed as i32);
    assert_eq!(Codec::Zstd.number(), Codec::Zstd as i32);
}

#[test]
fn each_fault_of_a_transition_payload_says_what_it_is() {
    assert_eq!(fault(decode_transition(&[1, 9], 0, 1)), "logic stream declared unitsize 0");
    assert_eq!(fault(decode_transition(&[3], 1, 3)), "transition run is missing its value");
    assert_eq!(fault(decode_transition(&[0, 9], 1, 1)), "transition run length of 0");
    assert_eq!(fault(decode_transition(&[0x80], 1, 1)), "truncated or oversized varint");
    assert_eq!(
        fault(decode_transition(&[0xff; 11], 1, 1)),
        "truncated or oversized varint"
    );
    assert_eq!(
        fault(decode_transition(&[3, 9], 1, 2)),
        "transition payload expands to 3 samples, not the 2 declared"
    );
}

#[test]
fn runs_of_wide_samples_are_counted_in_samples() {
    let packed = [1u8, 2, 1, 2, 1, 2, 9, 9];
    assert_eq!(encode_transition(&packed, 2), vec![3, 1, 2, 1, 9, 9]);
    // What is no whole sample is left out.
    assert_eq!(encode_transition(&[1, 2, 1, 2, 7], 2), vec![2, 1, 2]);
    assert_eq!(encode_transition(&[], 4), Vec::<u8>::new());
}

#[test]
fn every_sample_different_costs_one_byte_each() {
    let packed: Vec<u8> = (0..=255u8).collect();
    assert_eq!(encode_transition(&packed, 1).len(), 2 * packed.len());
}

#[test]
fn a_codec_out_of_reach_is_named() {
    let data = CaptureData {
        sample_count: 1,
        codec: Codec::Zstd as i32,
        payload: Bytes::from_static(&[1]),
        ..Default::default()
    };
    assert!(fault(decode_payload(&data, 1)).ends_with(" is not decodable here"));
    // A number without a codec or an encoding says nothing.
    let data = CaptureData {
        sample_count: 1,
        codec: 77,
        encoding: 99,
        payload: Bytes::from_static(&[1]),
        ..Default::default()
    };
    assert_eq!(&*decode_payload(&data, 1).unwrap(), &[1u8]);
}

#[test]
fn what_was_negotiated_is_accepted() {
    let negotiated = negotiate_encodings(&[SampleEncoding::Packed as i32], &ENCODINGS);
    assert!(accepts(&negotiated, SampleEncoding::Packed));
    assert!(!accepts(&negotiated, SampleEncoding::Transition));
    // A peer's unknown number is no part of an agreement.
    assert_eq!(
        negotiate_encodings(&[42, SampleEncoding::Transition as i32], &ENCODINGS),
        vec![SampleEncoding::Transition as i32, SampleEncoding::Packed as i32]
    );
}

#[test]
fn a_count_beyond_memory_is_only_a_wrong_count() {
    assert_eq!(
        fault(decode_transition(&[3, 9], 1, usize::MAX)),
        format!("transition payload expands to 3 samples, not the {} declared", usize::MAX)
    );
    let data = CaptureData {
        sample_count: u64::MAX,
        encoding: SampleEncoding::Transition as i32,
        payload: Bytes::from_static(&[1, 9, 9]),
        ..Default::default()
    };
    assert_eq!(
        fault(decode_payload(&data, 2)),
        format!("transition payload expands to 1 samples, not the {} declared", u64::MAX)
    );
}

#[test]
fn the_longest_run_takes_ten_bytes() {
    let mut longest = vec![0xffu8; 9];
    longest.push(1);
    longest.push(7);
    // Not expanded, as it is not what was declared.
    assert_eq!(
        fault(decode_transition(&longest, 1, 1)),
        format!("transition payload expands to {} samples, not the 1 declared", u64::MAX)
    );
    let mut out = Vec::new();
    openmso::encoding::varint::put_varint(&mut out, u64::MAX);
    assert_eq!(out, longest[..10]);
}
