//! The wire codec: exact encodings, round trips, and every way a
//! decode can fail.

use yak::codec::{encode_frame, frame_len};
use yak::error::YakError;
use yak::message::{Datum, Request, Response};

fn u64_le_bytes(v: u64) -> Vec<u8> {
    let mut out = Vec::new();
    let mut x = v;
    for _ in 0..8 {
        out.push((x % 256) as u8);
        x /= 256;
    }
    out
}

#[test]
fn test_request_subscribe_exact_bytes() {
    let req = Request::subscribe(1, "a");
    let mut expected = u64_le_bytes(1);
    expected.extend(u64_le_bytes(1));
    expected.push(b'a');
    expected.push(2);
    assert_eq!(req.encode(), expected);
}

#[test]
fn test_response_okay_exact_bytes() {
    let mut expected = u64_le_bytes(7);
    expected.push(0);
    assert_eq!(Response::Okay(7).encode(), expected);
}

#[test]
fn test_request_read_round_trip() {
    let req = Request::read(3, "space", b"key");
    let decoded = Request::decode(&req.encode()).unwrap();
    assert_eq!(decoded, req);
}

#[test]
fn test_request_write_round_trip() {
    let req = Request::write(u64::MAX, "space", b"key", b"value");
    let decoded = Request::decode(&req.encode()).unwrap();
    assert_eq!(decoded, req);
}

#[test]
fn test_request_subscribe_round_trip() {
    let req = Request::subscribe(0, "space");
    let decoded = Request::decode(&req.encode()).unwrap();
    assert_eq!(decoded, req);
}

#[test]
fn test_request_non_ascii_space_round_trip() {
    let req = Request::write(9, "caf\u{e9}/\u{1f411}", b"k", b"v");
    let decoded = Request::decode(&req.encode()).unwrap();
    assert_eq!(decoded, req);
}

#[test]
fn test_request_empty_key_and_value_round_trip() {
    let req = Request::write(2, "s", b"", b"");
    let decoded = Request::decode(&req.encode()).unwrap();
    assert_eq!(decoded, req);
}

#[test]
fn test_response_okay_round_trip() {
    let resp = Response::Okay(42);
    assert_eq!(Response::decode(&resp.encode()).unwrap(), resp);
}

#[test]
fn test_response_okay_data_round_trip() {
    // Read data travels without keys: a decoder hands each value back
    // under an empty key, and tolerates that defaulting.
    let resp = Response::OkayData(
        5,
        vec![
            Datum { key: vec![], content: b"a".to_vec() },
            Datum { key: vec![], content: b"bb".to_vec() },
        ],
    );
    assert_eq!(Response::decode(&resp.encode()).unwrap(), resp);
}

#[test]
fn test_response_okay_data_drops_keys() {
    let resp = Response::OkayData(
        5,
        vec![Datum { key: b"key".to_vec(), content: b"a".to_vec() }],
    );
    let expected = Response::OkayData(5, vec![Datum { key: vec![], content: b"a".to_vec() }]);
    assert_eq!(Response::decode(&resp.encode()).unwrap(), expected);
}

#[test]
fn test_response_delivery_round_trip() {
    // A delivery carries its real key.
    let resp = Response::Delivery(Datum { key: b"key".to_vec(), content: b"value".to_vec() });
    assert_eq!(Response::decode(&resp.encode()).unwrap(), resp);
}

#[test]
fn test_decode_truncated_request() {
    let req = Request::write(3, "space", b"key", b"value");
    let bytes = req.encode();
    for cut in 0..bytes.len() {
        assert_eq!(Request::decode(&bytes[..cut]), Err(YakError::CodecError));
    }
}

#[test]
fn test_decode_trailing_bytes() {
    let mut bytes = Request::subscribe(1, "s").encode();
    bytes.push(0);
    assert_eq!(Request::decode(&bytes), Err(YakError::CodecError));

    let mut bytes = Response::Okay(1).encode();
    bytes.push(0);
    assert_eq!(Response::decode(&bytes), Err(YakError::CodecError));
}

#[test]
fn test_decode_unknown_tag() {
    let mut bytes = Vec::new();
    bytes.extend(u64_le_bytes(1));
    bytes.extend(u64_le_bytes(1));
    bytes.push(b's');
    bytes.push(9);
    assert_eq!(Request::decode(&bytes), Err(YakError::CodecError));

    let mut bytes = u64_le_bytes(1);
    bytes.push(9);
    assert_eq!(Response::decode(&bytes), Err(YakError::CodecError));
}

#[test]
fn test_decode_invalid_utf8_space() {
    let mut bytes = Vec::new();
    bytes.extend(u64_le_bytes(5));
    bytes.extend(u64_le_bytes(1));
    bytes.push(0xFF);
    bytes.push(2);
    assert_eq!(Request::decode(&bytes), Err(YakError::CodecError));
}

#[test]
fn test_response_truncated_data_count() {
    // An ok-with-data body announcing more values than it carries.
    let mut bytes = u64_le_bytes(1);
    bytes.push(1);
    bytes.extend(u64_le_bytes(2));
    bytes.extend(u64_le_bytes(1));
    bytes.push(b'x');
    assert_eq!(Response::decode(&bytes), Err(YakError::CodecError));
}

#[test]
fn test_frame_exact_bytes() {
    let framed = encode_frame(&[1, 2, 3]);
    let mut expected = u64_le_bytes(3);
    expected.extend([1, 2, 3]);
    assert_eq!(framed, expected);
}

#[test]
fn test_frame_len_reads_header() {
    let framed = encode_frame(b"payload");
    assert_eq!(frame_len(&framed[..8]), 7);
}
