use bytes::BytesMut;
use kvcache::cache::Cache;
use kvcache::codec::{CacheCodec, CodecError};
use kvcache::connection::{serve_frame, ServeError};
use kvcache::message::{payload, request, response, Code, Op};
use kvcache::service::{CacheService, LogService, ServiceError, StatService};
use kvcache::stats::Stats;

fn pipeline() -> LogService<StatService<CacheService>> {
    LogService {
        inner: StatService {
            inner: CacheService { cache: Cache::new() },
            stats: Stats::new(),
        },
    }
}

#[test]
fn responses_go_out_under_the_ids_of_their_requests() {
    let mut service = pipeline();
    let mut codec = CacheCodec;
    let mut input = BytesMut::new();
    let mut output = BytesMut::new();
    codec
        .encode((700, request(Op::Put, "k".into(), Some(payload(5, "v".into())))), &mut input)
        .unwrap();
    codec.encode((3, request(Op::Get, "k".into(), None)), &mut input).unwrap();
    codec.encode((u64::MAX, request(Op::Get, "other".into(), None)), &mut input).unwrap();

    assert_eq!(serve_frame(&mut service, &mut input, &mut output), Ok(true));
    assert_eq!(serve_frame(&mut service, &mut input, &mut output), Ok(true));
    assert_eq!(serve_frame(&mut service, &mut input, &mut output), Ok(true));
    assert_eq!(serve_frame(&mut service, &mut input, &mut output), Ok(false));
    assert!(input.is_empty());

    assert_eq!(
        codec.decode(&mut output).unwrap(),
        Some((700, response(Op::Put, Code::Success, None)))
    );
    assert_eq!(
        codec.decode(&mut output).unwrap(),
        Some((3, response(Op::Get, Code::Success, Some(payload(5, "v".into())))))
    );
    assert_eq!(
        codec.decode(&mut output).unwrap(),
        Some((u64::MAX, request(Op::Get, "other".into(), None)))
    );
    assert!(output.is_empty());
    assert_eq!(service.inner.stats.total_requests(), 3);
}

#[test]
fn a_partial_frame_changes_nothing() {
    let mut service = pipeline();
    let mut codec = CacheCodec;
    let mut whole = BytesMut::new();
    codec.encode((1, request(Op::Put, "k".into(), Some(payload(5, "v".into())))), &mut whole).unwrap();
    let mut input = BytesMut::new();
    input.extend_from_slice(&whole[..whole.len() - 1]);
    let mut output = BytesMut::new();
    output.extend_from_slice(&[1, 2, 3]);
    assert_eq!(serve_frame(&mut service, &mut input, &mut output), Ok(false));
    assert_eq!(&input[..], &whole[..whole.len() - 1]);
    assert_eq!(&output[..], &[1u8, 2, 3][..]);
    assert_eq!(service.inner.stats.total_requests(), 0);
    input.extend_from_slice(&whole[whole.len() - 1..]);
    assert_eq!(serve_frame(&mut service, &mut input, &mut output), Ok(true));
    assert_eq!(&output[..3], &[1u8, 2, 3][..]);
    assert_eq!(service.inner.stats.total_requests(), 1);
}

#[test]
fn a_malformed_frame_closes_the_connection() {
    let mut service = pipeline();
    let mut codec = CacheCodec;
    let mut input = BytesMut::new();
    codec.encode((1, request(Op::Get, "k".into(), None)), &mut input).unwrap();
    input[9] = 9;
    let mut output = BytesMut::new();
    assert_eq!(
        serve_frame(&mut service, &mut input, &mut output),
        Err(ServeError::Codec(CodecError::UnknownOp(9)))
    );
    assert!(input.is_empty());
    assert!(output.is_empty());
}

#[test]
fn a_request_given_up_closes_the_connection() {
    let mut service = pipeline();
    let mut codec = CacheCodec;
    let mut input = BytesMut::new();
    codec.encode((1, response(Op::Get, Code::Success, None)), &mut input).unwrap();
    let mut output = BytesMut::new();
    assert_eq!(
        serve_frame(&mut service, &mut input, &mut output),
        Err(ServeError::Service(ServiceError::Internal))
    );
    assert!(input.is_empty());
    assert!(output.is_empty());
}

#[test]
fn stats_are_answered_over_the_wire() {
    let mut service = pipeline();
    let mut codec = CacheCodec;
    let mut input = BytesMut::new();
    let mut output = BytesMut::new();
    codec.encode((9, request(Op::Stats, Vec::new(), None)), &mut input).unwrap();
    assert_eq!(serve_frame(&mut service, &mut input, &mut output), Ok(true));
    assert_eq!(
        codec.decode(&mut output).unwrap(),
        Some((
            9,
            response(
                Op::Stats,
                Code::Success,
                Some(payload(1, "requests: 0, average: 0 us".into()))
            )
        ))
    );
}
