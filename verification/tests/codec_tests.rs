use oreo_pool::codec::{
    decode_frame, encode_message, encode_message_checked, DMessage, DRequest, DResponse,
    DecodeResult, RegisterWorker,
};

fn register(name: &str) -> DMessage {
    DMessage::RegisterWorker(RegisterWorker { name: name.to_string() })
}

fn request() -> DMessage {
    DMessage::DRequest(DRequest {
        id: "task-1".to_string(),
        address: "addr-xyz".to_string(),
        hash: "00ab".to_string(),
        sequence: 7_000_000_123,
        incoming_view_key: "ivk".to_string(),
        outgoing_view_key: "ovk".to_string(),
    })
}

fn response(id: &str, address: &str, data: &[&str]) -> DMessage {
    DMessage::DResponse(DResponse {
        id: id.to_string(),
        address: address.to_string(),
        data: data.iter().map(|s| s.to_string()).collect(),
    })
}

#[test]
fn register_frame_exact_bytes() {
    let frame = encode_message(&register("ab"));
    assert_eq!(frame, vec![0, 0, 0, 7, 0, 0, 0, 0, 2, b'a', b'b']);
}

#[test]
fn register_round_trip() {
    let frame = encode_message(&register("worker-01"));
    match decode_frame(&frame) {
        DecodeResult::Message(DMessage::RegisterWorker(r), used) => {
            assert_eq!(r.name, "worker-01");
            assert_eq!(used, frame.len());
        }
        _ => panic!("expected a register message"),
    }
}

#[test]
fn register_round_trip_multibyte() {
    let frame = encode_message(&register("wörker-äß-日本"));
    match decode_frame(&frame) {
        DecodeResult::Message(DMessage::RegisterWorker(r), used) => {
            assert_eq!(r.name, "wörker-äß-日本");
            assert_eq!(used, frame.len());
        }
        _ => panic!("expected a register message"),
    }
}

#[test]
fn request_round_trip() {
    let frame = encode_message(&request());
    match decode_frame(&frame) {
        DecodeResult::Message(DMessage::DRequest(r), used) => {
            assert_eq!(r.id, "task-1");
            assert_eq!(r.address, "addr-xyz");
            assert_eq!(r.hash, "00ab");
            assert_eq!(r.sequence, 7_000_000_123);
            assert_eq!(r.incoming_view_key, "ivk");
            assert_eq!(r.outgoing_view_key, "ovk");
            assert_eq!(used, frame.len());
        }
        _ => panic!("expected a request message"),
    }
}

#[test]
fn response_round_trip_empty_data() {
    let frame = encode_message(&response("a", "addr1", &[]));
    match decode_frame(&frame) {
        DecodeResult::Message(DMessage::DResponse(r), used) => {
            assert_eq!(r.id, "a");
            assert_eq!(r.address, "addr1");
            assert!(r.data.is_empty());
            assert_eq!(used, frame.len());
        }
        _ => panic!("expected a response message"),
    }
}

#[test]
fn response_round_trip_ordered_data() {
    let frame = encode_message(&response("a", "addr1", &["tx1", "tx2", "tx3"]));
    match decode_frame(&frame) {
        DecodeResult::Message(DMessage::DResponse(r), used) => {
            assert_eq!(r.data, vec!["tx1", "tx2", "tx3"]);
            assert_eq!(used, frame.len());
        }
        _ => panic!("expected a response message"),
    }
}

#[test]
fn decode_reads_one_frame_and_reports_its_length() {
    let mut buf = encode_message(&register("w1"));
    let first_len = buf.len();
    buf.extend_from_slice(&encode_message(&response("a", "addr1", &["tx1"])));
    match decode_frame(&buf) {
        DecodeResult::Message(DMessage::RegisterWorker(r), used) => {
            assert_eq!(r.name, "w1");
            assert_eq!(used, first_len);
        }
        _ => panic!("expected the first frame"),
    }
}

#[test]
fn decode_needs_more_data_on_short_header() {
    assert!(matches!(decode_frame(&[0, 0, 0]), DecodeResult::NeedMoreData));
}

#[test]
fn decode_needs_more_data_on_truncated_payload() {
    let frame = encode_message(&request());
    assert!(matches!(
        decode_frame(&frame[..frame.len() - 1]),
        DecodeResult::NeedMoreData
    ));
}

#[test]
fn decode_rejects_unknown_tag() {
    // frame of length 1 whose payload is the unassigned tag 9
    assert!(matches!(
        decode_frame(&[0, 0, 0, 1, 9]),
        DecodeResult::ProtocolError
    ));
}

#[test]
fn decode_rejects_trailing_garbage_inside_frame() {
    let mut frame = encode_message(&register("ab"));
    // lengthen the frame by one byte the payload grammar does not cover
    frame.push(0);
    let n = frame.len() as u32 - 4;
    frame[..4].copy_from_slice(&n.to_be_bytes());
    assert!(matches!(decode_frame(&frame), DecodeResult::ProtocolError));
}

#[test]
fn decode_rejects_invalid_utf8() {
    // register frame whose 2-byte name field is not valid UTF-8
    let frame = vec![0, 0, 0, 7, 0, 0, 0, 0, 2, 0xff, 0xfe];
    assert!(matches!(decode_frame(&frame), DecodeResult::ProtocolError));
}

#[test]
fn decode_empty_buffer_waits() {
    assert!(matches!(decode_frame(&[]), DecodeResult::NeedMoreData));
}

#[test]
fn empty_name_round_trips() {
    let frame = encode_message(&register(""));
    assert_eq!(frame, vec![0, 0, 0, 5, 0, 0, 0, 0, 0]);
    match decode_frame(&frame) {
        DecodeResult::Message(DMessage::RegisterWorker(r), _) => assert_eq!(r.name, ""),
        _ => panic!("expected a register message"),
    }
}

#[test]
fn extreme_sequence_round_trips() {
    let frame = encode_message(&DMessage::DRequest(DRequest {
        id: "i".to_string(),
        address: "a".to_string(),
        hash: "h".to_string(),
        sequence: u64::MAX,
        incoming_view_key: String::new(),
        outgoing_view_key: String::new(),
    }));
    match decode_frame(&frame) {
        DecodeResult::Message(DMessage::DRequest(r), _) => assert_eq!(r.sequence, u64::MAX),
        _ => panic!("expected a request message"),
    }
}

#[test]
fn encode_checked_accepts_ordinary_messages() {
    let direct = encode_message(&request());
    match encode_message_checked(&request()) {
        Some(frame) => assert_eq!(frame, direct),
        None => panic!("an ordinary message must encode"),
    }
}
