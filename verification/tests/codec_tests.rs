//! Round trips, limit enforcement and exact layouts of the value codec.

use soroban_bridge::codec::{
    can_parse_transaction, decode_value, encode_value, ScValue, ENCODE_OUTPUT_LIMIT,
    MARSHALLING_STACK_LIMIT,
};
use soroban_bridge::errors::{ErrorCategory, ErrorCode, HostFault, MarshallingError};

fn sample_value() -> ScValue {
    ScValue::List(vec![
        ScValue::U64(123456789),
        ScValue::Bytes(vec![1, 2, 3, 4, 5]),
        ScValue::Error(HostFault {
            category: ErrorCategory::Contract,
            code: ErrorCode::InvalidInput,
        }),
        ScValue::List(vec![ScValue::Void, ScValue::U64(0)]),
    ])
}

#[test]
fn round_trip_flat_values() {
    for v in [
        ScValue::Void,
        ScValue::U64(0),
        ScValue::U64(u64::MAX),
        ScValue::Bytes(vec![]),
        ScValue::Bytes(vec![0xFF; 300]),
        ScValue::Error(HostFault {
            category: ErrorCategory::Budget,
            code: ErrorCode::ExceededLimit,
        }),
    ] {
        let encoded = encode_value(&v).unwrap();
        let decoded = decode_value(&encoded, MARSHALLING_STACK_LIMIT).unwrap();
        assert_eq!(decoded, v);
    }
}

#[test]
fn round_trip_nested_value() {
    let v = sample_value();
    let encoded = encode_value(&v).unwrap();
    let decoded = decode_value(&encoded, MARSHALLING_STACK_LIMIT).unwrap();
    assert_eq!(decoded, v);
}

#[test]
fn encode_exact_layout() {
    let encoded = encode_value(&ScValue::U64(1)).unwrap();
    assert_eq!(encoded, vec![1, 0, 0, 0, 0, 0, 0, 0, 1]);
    let encoded = encode_value(&ScValue::Bytes(vec![0xAB, 0xCD])).unwrap();
    assert_eq!(encoded, vec![2, 0, 0, 0, 2, 0xAB, 0xCD]);
    let encoded = encode_value(&ScValue::List(vec![ScValue::Void])).unwrap();
    assert_eq!(encoded, vec![4, 0, 0, 0, 1, 0]);
}

#[test]
fn decode_rejects_too_deep() {
    let mut v = ScValue::Void;
    for _ in 0..5 {
        v = ScValue::List(vec![v]);
    }
    let encoded = encode_value(&v).unwrap();
    assert_eq!(decode_value(&encoded, 6), Ok(v));
    let too_shallow = decode_value(&encoded, 3);
    assert_eq!(too_shallow, Err(MarshallingError::DepthLimitExceeded));
}

#[test]
fn decode_rejects_truncated() {
    let encoded = encode_value(&sample_value()).unwrap();
    let truncated: Vec<u8> = encoded[..encoded.len() - 1].to_vec();
    assert_eq!(
        decode_value(&truncated, MARSHALLING_STACK_LIMIT),
        Err(MarshallingError::Malformed)
    );
}

#[test]
fn decode_rejects_unknown_tag() {
    assert_eq!(
        decode_value(&vec![9, 0, 0], MARSHALLING_STACK_LIMIT),
        Err(MarshallingError::Malformed)
    );
}

#[test]
fn decode_rejects_trailing_bytes() {
    let mut encoded = encode_value(&ScValue::U64(7)).unwrap();
    encoded.push(0);
    assert_eq!(
        decode_value(&encoded, MARSHALLING_STACK_LIMIT),
        Err(MarshallingError::Malformed)
    );
}

#[test]
fn decode_rejects_length_past_buffer() {
    // A byte string declaring four bytes with only two present.
    let buf = vec![2, 0, 0, 0, 4, 1, 2];
    assert_eq!(
        decode_value(&buf, MARSHALLING_STACK_LIMIT),
        Err(MarshallingError::Malformed)
    );
}

#[test]
fn encode_rejects_too_deep_value() {
    let mut v = ScValue::Void;
    for _ in 0..999 {
        v = ScValue::List(vec![v]);
    }
    // Depth 1000 is the deepest value the format admits.
    assert!(encode_value(&v).is_ok());
    let deeper = ScValue::List(vec![v]);
    assert_eq!(
        encode_value(&deeper),
        Err(MarshallingError::DepthLimitExceeded)
    );
}

#[test]
fn encode_rejects_oversized_value() {
    let v = ScValue::Bytes(vec![0u8; ENCODE_OUTPUT_LIMIT + 1]);
    assert_eq!(encode_value(&v), Err(MarshallingError::LengthLimitExceeded));
}

#[test]
fn parse_transaction_checks_syntax_only() {
    let envelope = encode_value(&sample_value()).unwrap();
    assert!(can_parse_transaction(&envelope, MARSHALLING_STACK_LIMIT));
    assert!(!can_parse_transaction(&envelope, 1));
    let mut broken = envelope.clone();
    broken.pop();
    assert!(!can_parse_transaction(&broken, MARSHALLING_STACK_LIMIT));
    assert!(!can_parse_transaction(&vec![], MARSHALLING_STACK_LIMIT));
}
