use peer2package::encoding::{
    decode_confirm_fixed, decode_frame_header, decode_message, decode_message_fixed,
    decode_request, decode_response, encode_confirm_fixed, encode_message, encode_message_fixed,
    encode_request, encode_response, FramingError, MessageAck, PublishConfirm,
};
use peer2package::{Id, Location, Requests, Responses, Value};

fn sample_id() -> Id {
    Id { hash_type: "sha2-256".to_string(), hash: vec![0xde, 0xad, 0xbe, 0xef] }
}

#[test]
fn round_trip_publish_request() {
    let req = Requests::Publish {
        exchange: "e".to_string(),
        routing_key: "r".to_string(),
        payload: b"hello".to_vec(),
    };
    let bytes = encode_request(&req).unwrap();
    let back = decode_request(&bytes).unwrap();
    assert_eq!(back, req);
}

#[test]
fn round_trip_consume_request() {
    let req = Requests::Consume { queue: "q1".to_string() };
    let bytes = encode_request(&req).unwrap();
    assert_eq!(decode_request(&bytes).unwrap(), req);
}

#[test]
fn round_trip_find_node_request() {
    let req = Requests::FindNode(sample_id());
    let bytes = encode_request(&req).unwrap();
    assert_eq!(decode_request(&bytes).unwrap(), req);
}

#[test]
fn round_trip_find_value_request() {
    let req = Requests::FindValue(sample_id());
    let bytes = encode_request(&req).unwrap();
    assert_eq!(decode_request(&bytes).unwrap(), req);
}

#[test]
fn round_trip_put_value_request() {
    let req = Requests::PutValue(Value { id: sample_id(), value_len: 123456 });
    let bytes = encode_request(&req).unwrap();
    assert_eq!(decode_request(&bytes).unwrap(), req);
}

#[test]
fn round_trip_unicode_strings() {
    let req = Requests::Publish {
        exchange: "бiржа".to_string(),
        routing_key: "ключ🔑".to_string(),
        payload: vec![],
    };
    let bytes = encode_request(&req).unwrap();
    assert_eq!(decode_request(&bytes).unwrap(), req);
}

#[test]
fn round_trip_location_response() {
    let resp = Responses::Location(Location { address: "10.0.0.1:4433".to_string(), id: sample_id() });
    let bytes = encode_response(&resp).unwrap();
    assert_eq!(decode_response(&bytes).unwrap(), resp);
}

#[test]
fn round_trip_value_response() {
    let resp = Responses::Value(Value { id: sample_id(), value_len: 7 });
    let bytes = encode_response(&resp).unwrap();
    assert_eq!(decode_response(&bytes).unwrap(), resp);
}

#[test]
fn publish_wire_layout_is_exact() {
    let req = Requests::Publish {
        exchange: "e".to_string(),
        routing_key: "r".to_string(),
        payload: b"hi".to_vec(),
    };
    let bytes = encode_request(&req).unwrap();
    let expected = vec![
        0u8, // variant tag
        1, 0, 0, 0, b'e', // exchange
        1, 0, 0, 0, b'r', // routing key
        2, 0, 0, 0, b'h', b'i', // payload
    ];
    assert_eq!(bytes, expected);
}

#[test]
fn fixed_ack_codes_round_trip() {
    assert_eq!(encode_message_fixed(&MessageAck::Ack), 0);
    assert_eq!(encode_message_fixed(&MessageAck::Nack), 1);
    assert_eq!(encode_message_fixed(&MessageAck::Reject), 2);
    assert_eq!(decode_message_fixed(0).unwrap(), MessageAck::Ack);
    assert_eq!(decode_message_fixed(1).unwrap(), MessageAck::Nack);
    assert_eq!(decode_message_fixed(2).unwrap(), MessageAck::Reject);
}

#[test]
fn fixed_framing_rejects_unknown_bytes() {
    for b in 3u8..=255 {
        assert_eq!(decode_message_fixed(b), Err(FramingError::DecodeError));
    }
    assert_eq!(decode_confirm_fixed(1), Err(FramingError::DecodeError));
    assert_eq!(decode_confirm_fixed(255), Err(FramingError::DecodeError));
    assert_eq!(decode_confirm_fixed(0).unwrap(), PublishConfirm::Ack);
    assert_eq!(encode_confirm_fixed(&PublishConfirm::Ack), 0);
}

#[test]
fn decode_rejects_unknown_tag() {
    assert_eq!(decode_request(&[9]), Err(FramingError::DecodeError));
    assert_eq!(decode_response(&[9]), Err(FramingError::DecodeError));
}

#[test]
fn decode_rejects_empty_and_truncated() {
    assert_eq!(decode_request(&[]), Err(FramingError::DecodeError));
    let req = Requests::Consume { queue: "q1".to_string() };
    let bytes = encode_request(&req).unwrap();
    assert_eq!(decode_request(&bytes[..bytes.len() - 1]), Err(FramingError::DecodeError));
}

#[test]
fn decode_rejects_trailing_bytes() {
    let req = Requests::Consume { queue: "q1".to_string() };
    let mut bytes = encode_request(&req).unwrap();
    bytes.push(0);
    assert_eq!(decode_request(&bytes), Err(FramingError::DecodeError));
}

#[test]
fn decode_rejects_invalid_utf8_field() {
    // Consume frame whose queue-name block holds a lone continuation byte.
    let bytes = vec![1u8, 1, 0, 0, 0, 0x80];
    assert_eq!(decode_request(&bytes), Err(FramingError::DecodeError));
}

#[test]
fn framed_message_round_trips_with_header() {
    let req = Requests::Publish {
        exchange: "e".to_string(),
        routing_key: "r".to_string(),
        payload: b"hello".to_vec(),
    };
    let frame = encode_message(&req).unwrap();
    let body = encode_request(&req).unwrap();
    assert_eq!(frame.len(), body.len() + 4);
    assert_eq!(decode_frame_header(&frame[..4], 1024).unwrap(), body.len());
    let (back, end) = decode_message(&frame, 1024).unwrap();
    assert_eq!(back, req);
    assert_eq!(end, frame.len());
}

#[test]
fn frame_over_limit_is_size_limit_error() {
    let req = Requests::Publish {
        exchange: "e".to_string(),
        routing_key: "r".to_string(),
        payload: vec![7u8; 64],
    };
    let frame = encode_message(&req).unwrap();
    assert_eq!(decode_message(&frame, 8), Err(FramingError::SizeLimitError));
    assert_eq!(decode_frame_header(&frame[..4], 8), Err(FramingError::SizeLimitError));
}

#[test]
fn incomplete_frame_is_decode_error() {
    let req = Requests::Consume { queue: "q1".to_string() };
    let frame = encode_message(&req).unwrap();
    assert_eq!(decode_message(&frame[..frame.len() - 1], 1024), Err(FramingError::DecodeError));
}
