use bytes::BytesMut;
use kvcache::codec::{CacheCodec, CodecError, RequestId, HEADER_LEN};
use kvcache::message::{payload, request, response, Code, Message, Op};
use std::mem;

fn encoded(id: RequestId, msg: &Message) -> Vec<u8> {
    let mut buf = BytesMut::new();
    let mut codec = CacheCodec;
    codec.encode((id, msg.clone()), &mut buf).unwrap();
    buf[..].to_vec()
}

fn round_trip(id: RequestId, msg: Message) {
    let mut buf = BytesMut::new();
    let mut codec = CacheCodec;
    codec.encode((id, msg.clone()), &mut buf).unwrap();
    let (decoded_id, decoded_message) = codec.decode(&mut buf).unwrap().unwrap();
    assert_eq!(decoded_id, id);
    assert_eq!(decoded_message, msg);
    assert!(buf.is_empty());
}

#[test]
fn assert_sizes() {
    assert_eq!(8, mem::size_of::<u64>());
    assert_eq!(1, mem::size_of::<Op>());
    assert_eq!(2, mem::size_of::<u16>());
    assert_eq!(8, mem::size_of::<usize>());
    assert_eq!(4, mem::size_of::<u32>());
}

#[test]
fn test_request() {
    let msg = request(
        Op::Get,
        "foo".into(),
        Some(payload(3, "123124125".into())),
    );
    let req_id = 123 as RequestId;
    let mut buf = BytesMut::new();
    let mut codec = CacheCodec;

    codec.encode((req_id, msg.clone()), &mut buf).unwrap();
    let (decoded_req, decoded_message) = codec.decode(&mut buf).unwrap().unwrap();

    assert_eq!(decoded_req, req_id);
    assert_eq!(decoded_message, msg);
}

#[test]
fn test_response() {
    let msg = response(
        Op::Get,
        Code::Success,
        Some(payload(3, "123124125".into())),
    );
    let req_id = 123 as RequestId;
    let mut buf = BytesMut::new();
    let mut codec = CacheCodec;

    codec.encode((req_id, msg.clone()), &mut buf).unwrap();
    let (decoded_req, decoded_message) = codec.decode(&mut buf).unwrap().unwrap();

    assert_eq!(decoded_req, req_id);
    assert_eq!(decoded_message, msg);
}

#[test]
fn test_request_no_payload() {
    let msg = request(Op::Get, "foo".into(), None);
    let req_id = 123 as RequestId;
    let mut buf = BytesMut::new();
    let mut codec = CacheCodec;

    codec.encode((req_id, msg.clone()), &mut buf).unwrap();
    let (decoded_req, decoded_message) = codec.decode(&mut buf).unwrap().unwrap();

    assert_eq!(decoded_req, req_id);
    assert_eq!(decoded_message, msg);
}

#[test]
fn test_response_no_payload() {
    let msg = Message::Response(Op::Put, Code::Success, None);

    let req_id = 123 as RequestId;
    let mut buf = BytesMut::new();
    let mut codec = CacheCodec;

    codec.encode((req_id, msg.clone()), &mut buf).unwrap();
    let (decoded_req, decoded_message) = codec.decode(&mut buf).unwrap().unwrap();

    assert_eq!(decoded_req, req_id);
    assert_eq!(decoded_message, msg);
}

#[test]
fn header_is_twenty_two_bytes() {
    assert_eq!(HEADER_LEN, 22);
    let bytes = encoded(0, &request(Op::Get, Vec::new(), None));
    assert_eq!(bytes.len(), 22);
}

#[test]
fn request_frame_has_the_exact_layout() {
    let msg = request(Op::Put, "foo".into(), Some(payload(3, "12".into())));
    let bytes = encoded(0x0102_0304_0506_0708, &msg);
    let expected: Vec<u8> = vec![
        1, 2, 3, 4, 5, 6, 7, 8, // request id
        0, // a request
        1, // the store operation
        0, 0, 0, 0, 0, 0, 0, 2, // payload length
        0, 0, 0, 3, // key length
        b'f', b'o', b'o', // key
        0, 0, 0, 3, // tag
        b'1', b'2', // payload
    ];
    assert_eq!(bytes, expected);
}

#[test]
fn response_frame_has_the_exact_layout() {
    let msg = response(Op::Stats, Code::Error, Some(payload(0x0A0B_0C0D, vec![0xFF])));
    let bytes = encoded(123, &msg);
    let expected: Vec<u8> = vec![
        0, 0, 0, 0, 0, 0, 0, 123, // request id
        2, // the error status
        3, // the statistics operation
        0, 0, 0, 0, 0, 0, 0, 1, // payload length
        0, 0, 0, 0, // no key
        0x0A, 0x0B, 0x0C, 0x0D, // tag
        0xFF, // payload
    ];
    assert_eq!(bytes, expected);
}

#[test]
fn op_and_code_bytes_are_stable() {
    assert_eq!(Op::Get.to_byte(), 0);
    assert_eq!(Op::Put.to_byte(), 1);
    assert_eq!(Op::Del.to_byte(), 2);
    assert_eq!(Op::Stats.to_byte(), 3);
    assert_eq!(Code::Success.to_byte(), 1);
    assert_eq!(Code::Error.to_byte(), 2);
    assert_eq!(Op::from_byte(0), Some(Op::Get));
    assert_eq!(Op::from_byte(1), Some(Op::Put));
    assert_eq!(Op::from_byte(2), Some(Op::Del));
    assert_eq!(Op::from_byte(3), Some(Op::Stats));
    assert_eq!(Op::from_byte(4), None);
    assert_eq!(Op::from_byte(255), None);
    assert_eq!(Code::from_byte(0), None);
    assert_eq!(Code::from_byte(1), Some(Code::Success));
    assert_eq!(Code::from_byte(2), Some(Code::Error));
    assert_eq!(Code::from_byte(3), None);
}

#[test]
fn round_trip_for_every_op_and_shape() {
    let ops = [Op::Get, Op::Put, Op::Del, Op::Stats];
    let codes = [Code::Success, Code::Error];
    let mut id: RequestId = 0;
    for op in ops.iter() {
        id += 1;
        round_trip(id, request(*op, "key".into(), None));
        round_trip(id, request(*op, Vec::new(), None));
        round_trip(id, request(*op, "key".into(), Some(payload(9, "value".into()))));
        round_trip(id, request(*op, Vec::new(), Some(payload(0, vec![0]))));
        for code in codes.iter() {
            round_trip(id, response(*op, *code, None));
            round_trip(id, response(*op, *code, Some(payload(u32::MAX, "value".into()))));
        }
    }
}

#[test]
fn round_trip_keeps_extreme_ids() {
    round_trip(0, request(Op::Get, "a".into(), None));
    round_trip(u64::MAX, request(Op::Get, "a".into(), None));
    round_trip(0x8000_0000_0000_0001, response(Op::Del, Code::Success, None));
}

#[test]
fn round_trip_of_a_large_payload() {
    let data: Vec<u8> = (0..70_000u32).map(|i| (i % 251) as u8).collect();
    let key: Vec<u8> = (0..300u32).map(|i| (i % 7) as u8).collect();
    round_trip(5, request(Op::Put, key, Some(payload(77, data))));
}

#[test]
fn one_byte_at_a_time_decodes_only_when_whole() {
    let msg = request(Op::Put, "foo".into(), Some(payload(3, "123124125".into())));
    let bytes = encoded(123, &msg);
    let mut buf = BytesMut::new();
    let mut codec = CacheCodec;
    for (i, b) in bytes.iter().enumerate() {
        buf.extend_from_slice(&[*b]);
        let got = codec.decode(&mut buf).unwrap();
        if i + 1 < bytes.len() {
            assert_eq!(got, None);
            assert_eq!(buf.len(), i + 1);
        } else {
            assert_eq!(got, Some((123, msg.clone())));
            assert!(buf.is_empty());
        }
    }
    assert_eq!(codec.decode(&mut buf).unwrap(), None);
}

#[test]
fn incomplete_header_consumes_nothing() {
    let mut buf = BytesMut::new();
    let mut codec = CacheCodec;
    assert_eq!(codec.decode(&mut buf).unwrap(), None);
    buf.extend_from_slice(&[0u8; 21]);
    assert_eq!(codec.decode(&mut buf).unwrap(), None);
    assert_eq!(&buf[..], &[0u8; 21][..]);
}

#[test]
fn incomplete_body_consumes_nothing() {
    let bytes = encoded(1, &request(Op::Get, "foo".into(), None));
    let mut buf = BytesMut::new();
    buf.extend_from_slice(&bytes[..24]);
    let mut codec = CacheCodec;
    assert_eq!(codec.decode(&mut buf).unwrap(), None);
    assert_eq!(&buf[..], &bytes[..24]);
    assert_eq!(codec.decode(&mut buf).unwrap(), None);
    buf.extend_from_slice(&bytes[24..]);
    assert_eq!(
        codec.decode(&mut buf).unwrap(),
        Some((1, request(Op::Get, "foo".into(), None)))
    );
}

#[test]
fn huge_announced_length_is_incomplete() {
    let mut head = vec![0u8; 22];
    for b in head[10..18].iter_mut() {
        *b = 0xFF;
    }
    for b in head[18..22].iter_mut() {
        *b = 0xFF;
    }
    let mut buf = BytesMut::new();
    buf.extend_from_slice(&head);
    let mut codec = CacheCodec;
    assert_eq!(codec.decode(&mut buf).unwrap(), None);
    assert_eq!(buf.len(), 22);
}

#[test]
fn two_frames_decode_in_order_and_the_rest_stays() {
    let first = request(Op::Put, "a".into(), Some(payload(1, "x".into())));
    let second = response(Op::Get, Code::Success, None);
    let mut buf = BytesMut::new();
    let mut codec = CacheCodec;
    codec.encode((1, first.clone()), &mut buf).unwrap();
    codec.encode((2, second.clone()), &mut buf).unwrap();
    buf.extend_from_slice(&[9, 9, 9]);
    assert_eq!(codec.decode(&mut buf).unwrap(), Some((1, first)));
    assert_eq!(codec.decode(&mut buf).unwrap(), Some((2, second)));
    assert_eq!(&buf[..], &[9u8, 9, 9][..]);
    assert_eq!(codec.decode(&mut buf).unwrap(), None);
    assert_eq!(&buf[..], &[9u8, 9, 9][..]);
}

#[test]
fn encode_appends_behind_what_is_there() {
    let mut buf = BytesMut::new();
    buf.extend_from_slice(&[7, 7]);
    let mut codec = CacheCodec;
    let msg = request(Op::Del, "k".into(), None);
    assert_eq!(codec.encode((4, msg.clone()), &mut buf), Ok(()));
    assert_eq!(&buf[..2], &[7u8, 7][..]);
    assert_eq!(&buf[2..], &encoded(4, &msg)[..]);
}

#[test]
fn unknown_op_is_an_error_and_the_frame_is_gone() {
    let mut bytes = encoded(1, &request(Op::Get, "foo".into(), None));
    bytes[9] = 4;
    let mut buf = BytesMut::new();
    buf.extend_from_slice(&bytes);
    buf.extend_from_slice(&[5]);
    let mut codec = CacheCodec;
    assert_eq!(codec.decode(&mut buf), Err(CodecError::UnknownOp(4)));
    assert_eq!(&buf[..], &[5u8][..]);
}

#[test]
fn unknown_code_is_an_error_and_the_frame_is_gone() {
    let mut bytes = encoded(1, &response(Op::Get, Code::Success, Some(payload(1, "v".into()))));
    bytes[8] = 200;
    let mut buf = BytesMut::new();
    buf.extend_from_slice(&bytes);
    let mut codec = CacheCodec;
    assert_eq!(codec.decode(&mut buf), Err(CodecError::UnknownCode(200)));
    assert!(buf.is_empty());
}

#[test]
fn unknown_op_is_reported_before_unknown_code() {
    let mut bytes = encoded(1, &response(Op::Get, Code::Success, None));
    bytes[8] = 200;
    bytes[9] = 77;
    let mut buf = BytesMut::new();
    buf.extend_from_slice(&bytes);
    let mut codec = CacheCodec;
    assert_eq!(codec.decode(&mut buf), Err(CodecError::UnknownOp(77)));
}

#[test]
fn response_frame_with_key_bytes_drops_them() {
    let mut bytes = encoded(1, &request(Op::Get, "foo".into(), Some(payload(2, "v".into()))));
    bytes[8] = 1;
    let mut buf = BytesMut::new();
    buf.extend_from_slice(&bytes);
    let mut codec = CacheCodec;
    assert_eq!(
        codec.decode(&mut buf).unwrap(),
        Some((1, response(Op::Get, Code::Success, Some(payload(2, "v".into())))))
    );
}

#[test]
fn empty_payload_is_written_like_none() {
    let with_empty = request(Op::Put, "foo".into(), Some(payload(7, Vec::new())));
    let without = request(Op::Put, "foo".into(), None);
    assert_eq!(encoded(1, &with_empty), encoded(1, &without));
    let mut buf = BytesMut::new();
    let mut codec = CacheCodec;
    codec.encode((1, with_empty), &mut buf).unwrap();
    assert_eq!(codec.decode(&mut buf).unwrap(), Some((1, without)));
}

#[test]
fn tag_is_omitted_without_payload() {
    let without = encoded(1, &request(Op::Put, "foo".into(), None));
    let with_one = encoded(1, &request(Op::Put, "foo".into(), Some(payload(7, vec![1]))));
    let with_ten = encoded(1, &request(Op::Put, "foo".into(), Some(payload(7, vec![1; 10]))));
    assert_eq!(without.len(), 22 + 3);
    assert_eq!(with_one.len(), without.len() + 4 + 1);
    assert_eq!(with_ten.len(), without.len() + 4 + 10);
    let resp_without = encoded(1, &response(Op::Get, Code::Success, None));
    let resp_with = encoded(1, &response(Op::Get, Code::Success, Some(payload(7, vec![1, 2]))));
    assert_eq!(resp_with.len(), resp_without.len() + 4 + 2);
}
