use vectorwar_core::wire::{frame_message, FrameEvent, FrameReader, ReadPhase, DELIMITER, HEADER_LEN};

fn feed(reader: FrameReader, stream: &[u8], at: &mut usize) -> Option<(FrameReader, FrameEvent)> {
    let n = reader.bytes_wanted();
    if *at + n > stream.len() {
        return None;
    }
    let chunk = &stream[*at..*at + n];
    *at += n;
    Some(reader.advance(Some(chunk)))
}

fn decode_all(stream: &[u8]) -> Vec<Vec<u8>> {
    let mut reader = FrameReader::new();
    let mut at = 0;
    let mut out = Vec::new();
    while let Some((next, event)) = feed(reader, stream, &mut at) {
        reader = next;
        if let FrameEvent::Frame { payload } = event {
            out.push(payload);
        }
    }
    out
}

#[test]
fn frame_has_delimiter_and_big_endian_size() {
    let frame = frame_message(&[1, 2, 3]);
    assert_eq!(frame, vec![0x44, 0, 0, 0, 3, 1, 2, 3]);
    assert_eq!(frame[0], DELIMITER);
    assert_eq!(frame.len(), HEADER_LEN + 3);
}

#[test]
fn frame_size_uses_all_four_bytes() {
    let payload = vec![7u8; 0x0102 + 3];
    let frame = frame_message(&payload);
    assert_eq!(&frame[..5], &[0x44, 0, 0, 0x01, 0x05]);
    assert_eq!(&frame[5..], payload.as_slice());
}

#[test]
fn empty_payload_frame() {
    assert_eq!(frame_message(&[]), vec![0x44, 0, 0, 0, 0]);
    assert_eq!(decode_all(&frame_message(&[])), vec![Vec::<u8>::new()]);
}

#[test]
fn reader_reads_a_frame_in_three_steps() {
    let frame = frame_message(b"hello");
    let reader = FrameReader::new();
    assert_eq!(reader.bytes_wanted(), 1);
    let (reader, event) = reader.advance(Some(&frame[0..1]));
    assert!(matches!(event, FrameEvent::Pending));
    assert_eq!(reader, FrameReader::AwaitingSize);
    assert_eq!(reader.bytes_wanted(), 4);
    let (reader, event) = reader.advance(Some(&frame[1..5]));
    assert!(matches!(event, FrameEvent::Pending));
    assert_eq!(reader, FrameReader::AwaitingPayload { size: 5 });
    assert_eq!(reader.bytes_wanted(), 5);
    let (reader, event) = reader.advance(Some(&frame[5..]));
    match event {
        FrameEvent::Frame { payload } => assert_eq!(payload, b"hello".to_vec()),
        other => panic!("unexpected event {:?}", other),
    }
    assert_eq!(reader, FrameReader::AwaitingDelimiter);
}

#[test]
fn frames_roundtrip_in_order() {
    let messages: Vec<Vec<u8>> = vec![b"one".to_vec(), Vec::new(), b"three!".to_vec(), vec![0x44; 9]];
    let mut stream = Vec::new();
    for m in &messages {
        stream.extend(frame_message(m));
    }
    assert_eq!(decode_all(&stream), messages);
}

#[test]
fn noise_before_a_frame_is_skipped() {
    let mut stream = vec![0u8, 1, 2, 0x45, 0xff];
    stream.extend(frame_message(b"after noise"));
    assert_eq!(decode_all(&stream), vec![b"after noise".to_vec()]);
}

#[test]
fn invalid_delimiter_reports_the_byte() {
    let (reader, event) = FrameReader::new().advance(Some(&[0x41]));
    assert_eq!(reader, FrameReader::AwaitingDelimiter);
    assert!(matches!(event, FrameEvent::InvalidDelimiter { found: 0x41 }));
}

#[test]
fn failed_reads_restart_at_the_delimiter() {
    let (reader, event) = FrameReader::new().advance(None);
    assert_eq!(reader, FrameReader::AwaitingDelimiter);
    assert!(matches!(event, FrameEvent::ReadFailed { phase: ReadPhase::Delimiter }));
    let (reader, event) = FrameReader::AwaitingSize.advance(None);
    assert_eq!(reader, FrameReader::AwaitingDelimiter);
    assert!(matches!(event, FrameEvent::ReadFailed { phase: ReadPhase::Size }));
    let (reader, event) = FrameReader::AwaitingPayload { size: 3 }.advance(None);
    assert_eq!(reader, FrameReader::AwaitingDelimiter);
    assert!(matches!(event, FrameEvent::ReadFailed { phase: ReadPhase::Payload }));
}

#[test]
fn truncated_stream_yields_no_frame() {
    let frame = frame_message(b"cut");
    assert!(decode_all(&frame[..frame.len() - 1]).is_empty());
}
