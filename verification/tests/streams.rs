// SPDX-License-Identifier: Apache-2.0
use openmso::encoding::decode_payload;
use openmso::proto::{event, CaptureEnd, Codec, LogLevel, SampleEncoding, State};
use openmso::server::{Events, StreamSender};
use openmso::transport::MAX_PAYLOAD;

fn ramp(len: usize) -> Vec<u8> {
    (0..len).map(|i| (i / 7) as u8).collect()
}

#[test]
fn chunks_are_consecutive_and_deliver_the_samples() {
    for transition in [false, true] {
        let packed = ramp(2 * MAX_PAYLOAD + 31);
        let mut sender = StreamSender::new(3, 4, 5, 3);
        if transition {
            sender = sender.transition();
        }
        let chunks = sender.send(&packed);
        assert_eq!(chunks.len(), 3);
        let mut delivered = Vec::new();
        let mut first = 0;
        for (i, data) in chunks.iter().enumerate() {
            assert_eq!((data.capture_id, data.acquisition, data.stream), (3, 4, 5));
            assert_eq!(data.seq, i as u64);
            assert_eq!(data.first_sample, first);
            assert_eq!(data.codec, Codec::Uncompressed as i32);
            assert_eq!(data.decoded_len, data.payload.len() as u64);
            first += data.sample_count;
            delivered.extend_from_slice(&decode_payload(data, 3).unwrap());
        }
        assert_eq!(delivered, packed);
        assert_eq!(first, (packed.len() / 3) as u64);
        // A chunk holds whole samples only.
        assert_eq!(chunks[0].sample_count, (MAX_PAYLOAD / 3) as u64);
    }
}

#[test]
fn a_later_transfer_goes_on_where_the_last_one_ended() {
    let mut sender = StreamSender::new(1, 0, 0, 2);
    assert_eq!(sender.send(&[1, 2, 3, 4]).len(), 1);
    assert!(sender.send(&[]).is_empty());
    let chunks = sender.send(&[5, 6]);
    assert_eq!((chunks[0].seq, chunks[0].first_sample, chunks[0].sample_count), (1, 2, 1));
    assert_eq!(&chunks[0].payload[..], &[5, 6]);
    assert_eq!(chunks[0].encoding, SampleEncoding::Packed as i32);
}

#[test]
fn run_length_chunks_hold_runs() {
    let mut sender = StreamSender::new(1, 0, 0, 1).transition();
    let chunks = sender.send(&[7u8; 300]);
    assert_eq!(&chunks[0].payload[..], &[0xac, 0x02, 7]);
    assert_eq!(chunks[0].encoding, SampleEncoding::Transition as i32);
    assert_eq!((chunks[0].decoded_len, chunks[0].sample_count), (3, 300));
}

#[test]
fn chunks_can_be_had_one_by_one() {
    let packed = ramp(MAX_PAYLOAD + 1);
    let mut whole = StreamSender::new(1, 0, 0, 1);
    let expected = whole.send(&packed);
    let mut sender = StreamSender::new(1, 0, 0, 1);
    let mut offset = 0;
    let mut i = 0;
    while let Some((data, next)) = sender.next_chunk(&packed, offset) {
        assert_eq!(data.payload, expected[i].payload);
        assert_eq!((data.seq, data.first_sample), (expected[i].seq, expected[i].first_sample));
        sender.advance(data.sample_count);
        offset = next;
        i += 1;
    }
    assert_eq!(i, expected.len());
    assert_eq!(offset, packed.len());
}

#[test]
fn events_carry_what_they_are_made_of() {
    let mut events = Events::new();
    match events.log(LogLevel { number: 3 }, "hot".to_string()).event {
        Some(event::Event::Log(log)) => assert_eq!((log.level, log.message.as_str()), (3, "hot")),
        other => panic!("{other:?}"),
    }
    match events.status(State { number: 2 }, "armed".to_string()).event {
        Some(event::Event::Status(s)) => assert_eq!((s.state, s.detail.as_str()), (2, "armed")),
        other => panic!("{other:?}"),
    }
    let end = event::Event::CaptureEnd(CaptureEnd { capture_id: 9, error: None });
    match events.send(end).event {
        Some(event::Event::CaptureEnd(end)) => assert_eq!(end.capture_id, 9),
        other => panic!("{other:?}"),
    }
    assert!(!events.is_running());
}
