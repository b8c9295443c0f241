use copy_sync::codec::{decode, encode, CodecError};
use copy_sync::content::{ClipboardContent, ImageHeader, PeerState, WireMessage};
use copy_sync::detector::{detector_tick, ClipboardReading};
use copy_sync::envelope::{serialize_notification, ChangeNotification};
use copy_sync::session::{apply_message, ApplyOutcome};

fn text_frame(s: &str) -> WireMessage {
    WireMessage::Text {
        data: serialize_notification(&ChangeNotification::Text { content: s.as_bytes().to_vec() }),
    }
}

fn header_frame(width: u64, height: u64) -> WireMessage {
    WireMessage::Text { data: serialize_notification(&ChangeNotification::Image { width, height }) }
}

const PIXELS_2X2: [u8; 16] =
    [255, 0, 0, 255, 0, 255, 0, 255, 0, 0, 255, 255, 255, 255, 0, 255];

#[test]
fn echo_suppression_after_received_text() {
    let mut state = PeerState::new();
    let outcome = apply_message(&mut state, &text_frame("hello")).unwrap();
    assert_eq!(outcome, ApplyOutcome::SetText { content: b"hello".to_vec() });
    assert_eq!(state.cache, ClipboardContent::Text { content: b"hello".to_vec() });

    // The next detector tick reads the just-applied content back: no re-send.
    let out = detector_tick(&mut state, ClipboardReading::Text { content: b"hello".to_vec() });
    assert!(out.is_empty());
    assert_eq!(state.cache, ClipboardContent::Text { content: b"hello".to_vec() });
}

#[test]
fn detector_sends_on_text_change() {
    let mut state = PeerState::new();
    let out = detector_tick(&mut state, ClipboardReading::Text { content: b"hello".to_vec() });
    assert_eq!(out.len(), 1);
    match &out[0] {
        WireMessage::Text { data } => {
            let s = String::from_utf8(data.clone()).unwrap();
            assert_eq!(s, "{\"payload\":{\"Text\":{\"content\":\"hello\"}}}");
        }
        other => panic!("expected a text frame, got {:?}", other),
    }
    assert_eq!(state.cache, ClipboardContent::Text { content: b"hello".to_vec() });

    // A second tick with the same content sends nothing more.
    let out = detector_tick(&mut state, ClipboardReading::Text { content: b"hello".to_vec() });
    assert!(out.is_empty());
}

#[test]
fn detector_skips_unavailable_tick() {
    let mut state = PeerState::new();
    let out = detector_tick(&mut state, ClipboardReading::Unavailable);
    assert!(out.is_empty());
    assert_eq!(state.cache, ClipboardContent::Text { content: Vec::new() });
}

#[test]
fn end_to_end_text_scenario() {
    // Client side: clipboard now holds "hello".
    let mut client = PeerState::new();
    let out = detector_tick(&mut client, ClipboardReading::Text { content: b"hello".to_vec() });
    assert_eq!(out.len(), 1);

    // Peer side receives the frame and applies it.
    let mut peer = PeerState::new();
    let outcome = apply_message(&mut peer, &out[0]).unwrap();
    assert_eq!(outcome, ApplyOutcome::SetText { content: b"hello".to_vec() });

    // The peer's next tick reads "hello" back and does not re-broadcast.
    let echo = detector_tick(&mut peer, ClipboardReading::Text { content: b"hello".to_vec() });
    assert!(echo.is_empty());
}

#[test]
fn end_to_end_image_scenario() {
    // Client side: clipboard holds a 2x2 RGBA image.
    let mut client = PeerState::new();
    let out = detector_tick(
        &mut client,
        ClipboardReading::Image { width: 2, height: 2, bytes: PIXELS_2X2.to_vec() },
    );
    assert_eq!(out.len(), 2);
    match &out[0] {
        WireMessage::Text { data } => {
            let s = String::from_utf8(data.clone()).unwrap();
            assert_eq!(s, "{\"payload\":{\"Image\":{\"width\":2,\"height\":2}}}");
        }
        other => panic!("expected the header frame, got {:?}", other),
    }
    match &out[1] {
        WireMessage::Binary { data } => {
            assert_eq!(decode(data).unwrap(), PIXELS_2X2.to_vec());
        }
        other => panic!("expected the payload frame, got {:?}", other),
    }

    // Peer side: header, then payload; the image is reconstructed identically.
    let mut peer = PeerState::new();
    assert_eq!(apply_message(&mut peer, &out[0]).unwrap(), ApplyOutcome::StoredHeader);
    let outcome = apply_message(&mut peer, &out[1]).unwrap();
    assert_eq!(
        outcome,
        ApplyOutcome::SetImage { width: 2, height: 2, bytes: PIXELS_2X2.to_vec() }
    );
    assert_eq!(
        peer.cache,
        ClipboardContent::Image { width: 2, height: 2, bytes: PIXELS_2X2.to_vec() }
    );
    assert_eq!(peer.pending, None);

    // And the peer does not echo the image back.
    let echo = detector_tick(
        &mut peer,
        ClipboardReading::Image { width: 2, height: 2, bytes: PIXELS_2X2.to_vec() },
    );
    assert!(echo.is_empty());
}

#[test]
fn second_header_supersedes_first() {
    let mut peer = PeerState::new();
    assert_eq!(apply_message(&mut peer, &header_frame(9, 9)).unwrap(), ApplyOutcome::StoredHeader);
    assert_eq!(peer.pending, Some(ImageHeader { width: 9, height: 9 }));

    // A second header arrives before any payload: the first is discarded.
    assert_eq!(apply_message(&mut peer, &header_frame(2, 2)).unwrap(), ApplyOutcome::StoredHeader);
    assert_eq!(peer.pending, Some(ImageHeader { width: 2, height: 2 }));
    assert_eq!(peer.cache, ClipboardContent::Text { content: Vec::new() });

    // The payload is applied with the superseding header's dimensions.
    let payload = WireMessage::Binary { data: encode(&PIXELS_2X2.to_vec()) };
    let outcome = apply_message(&mut peer, &payload).unwrap();
    assert_eq!(
        outcome,
        ApplyOutcome::SetImage { width: 2, height: 2, bytes: PIXELS_2X2.to_vec() }
    );
}

#[test]
fn payload_without_header_is_dropped() {
    let mut peer = PeerState::new();
    let payload = WireMessage::Binary { data: encode(&PIXELS_2X2.to_vec()) };
    assert_eq!(apply_message(&mut peer, &payload).unwrap(), ApplyOutcome::DroppedViolation);
    assert_eq!(peer.cache, ClipboardContent::Text { content: Vec::new() });
    assert_eq!(peer.pending, None);
}

#[test]
fn malformed_envelope_is_dropped_with_error() {
    let mut peer = PeerState::new();
    let junk = WireMessage::Text { data: b"not json at all".to_vec() };
    assert_eq!(apply_message(&mut peer, &junk), Err(CodecError::MalformedEnvelope));
    assert_eq!(peer.cache, ClipboardContent::Text { content: Vec::new() });
    assert_eq!(peer.pending, None);
}

#[test]
fn corrupt_payload_is_dropped_with_error() {
    let mut peer = PeerState::new();
    assert_eq!(apply_message(&mut peer, &header_frame(2, 2)).unwrap(), ApplyOutcome::StoredHeader);
    let junk = WireMessage::Binary { data: vec![0xde, 0xad, 0xbe, 0xef] };
    assert_eq!(apply_message(&mut peer, &junk), Err(CodecError::CorruptPayload));
    assert_eq!(peer.cache, ClipboardContent::Text { content: Vec::new() });
    assert_eq!(peer.pending, None);
}

#[test]
fn payload_of_wrong_size_is_rejected() {
    let mut peer = PeerState::new();
    assert_eq!(apply_message(&mut peer, &header_frame(3, 3)).unwrap(), ApplyOutcome::StoredHeader);
    // 16 bytes, but a 3x3 RGBA image needs 36.
    let payload = WireMessage::Binary { data: encode(&PIXELS_2X2.to_vec()) };
    assert_eq!(apply_message(&mut peer, &payload), Err(CodecError::PayloadSizeMismatch));
    assert_eq!(peer.cache, ClipboardContent::Text { content: Vec::new() });
}

#[test]
fn image_change_detected_against_text_cache() {
    let mut state = PeerState::new();
    state.cache = ClipboardContent::Text { content: b"old".to_vec() };
    let out = detector_tick(
        &mut state,
        ClipboardReading::Image { width: 2, height: 2, bytes: PIXELS_2X2.to_vec() },
    );
    assert_eq!(out.len(), 2);
    assert_eq!(
        state.cache,
        ClipboardContent::Image { width: 2, height: 2, bytes: PIXELS_2X2.to_vec() }
    );
}
