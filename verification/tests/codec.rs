use iggy::codec::{message_from_bytes, message_to_bytes, segment_from_bytes, segment_to_bytes};
use iggy::error::Error;
use iggy::message::{Header, Message};

fn sample_message(offset: u64) -> Message {
    Message {
        offset,
        timestamp: 1_700_000_000 + offset,
        key: if offset % 2 == 0 {
            Some(vec![0xAA, offset as u8])
        } else {
            None
        },
        payload: vec![1, 2, 3, offset as u8],
        headers: vec![
            Header {
                name: b"source".to_vec(),
                value: b"test".to_vec(),
            },
            Header {
                name: b"n".to_vec(),
                value: vec![offset as u8],
            },
        ],
    }
}

fn assert_same_message(a: &Message, b: &Message) {
    assert_eq!(a.offset, b.offset);
    assert_eq!(a.timestamp, b.timestamp);
    assert_eq!(a.key, b.key);
    assert_eq!(a.payload, b.payload);
    assert_eq!(a.headers.len(), b.headers.len());
    for (ha, hb) in a.headers.iter().zip(b.headers.iter()) {
        assert_eq!(ha.name, hb.name);
        assert_eq!(ha.value, hb.value);
    }
}

#[test]
fn one_frame_round_trips() {
    let m = sample_message(3);
    let bytes = message_to_bytes(&m);
    let (back, consumed) = message_from_bytes(&bytes, 0).unwrap();
    assert_eq!(consumed, bytes.len());
    assert_same_message(&m, &back);
}

#[test]
fn segment_files_round_trip_with_index() {
    let messages: Vec<Message> = (0..5).map(sample_message).collect();
    let (bytes, index) = segment_to_bytes(&messages);
    assert_eq!(index.len(), 5);
    assert_eq!(index[0], 0);
    // the index points at each frame: reading there yields that message
    for (k, pos) in index.iter().enumerate() {
        let (m, _) = message_from_bytes(&bytes, *pos as usize).unwrap();
        assert_eq!(m.offset, k as u64);
    }
    let back = segment_from_bytes(&bytes).unwrap();
    assert_eq!(back.len(), messages.len());
    for (a, b) in messages.iter().zip(back.iter()) {
        assert_same_message(a, b);
    }
}

#[test]
fn corrupt_tails_fail_the_scan() {
    let messages: Vec<Message> = (0..2).map(sample_message).collect();
    let (mut bytes, _) = segment_to_bytes(&messages);
    // a truncated tail record must fail the whole scan, never be skipped
    bytes.truncate(bytes.len() - 1);
    assert_eq!(segment_from_bytes(&bytes).unwrap_err(), Error::CorruptState);

    // an impossible key marker fails too
    let m = sample_message(1);
    let mut frame = message_to_bytes(&m);
    frame[16] = 7;
    assert_eq!(segment_from_bytes(&frame).unwrap_err(), Error::CorruptState);
}
