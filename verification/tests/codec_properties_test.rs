use mo_key_service_core::cbor::{
    cbor_array, cbor_bytes, cbor_map, cbor_text, cbor_uint, decode_canonical_value,
    encode_canonical_value, CborLimits, CborValue,
};
use mo_key_service_core::error::CoreError;
use mo_key_service_core::hash::hex_encode;

fn sample_value() -> CborValue {
    cbor_map(vec![
        (0, cbor_uint(1)),
        (1, cbor_text("scope-1")),
        (2, cbor_bytes(&[0xAB, 0xCD])),
        (3, cbor_array(vec![cbor_uint(7), cbor_text("x")])),
        (23, cbor_uint(0xFFFFFFFFFFFFFFFF)),
    ])
}

#[test]
fn codec_round_trips_canonical_values() {
    let v = sample_value();
    let bytes = encode_canonical_value(&v).expect("encode");
    let decoded = decode_canonical_value(&bytes, &CborLimits::standard()).expect("decode");
    let re_encoded = encode_canonical_value(&decoded).expect("re-encode");
    assert_eq!(bytes, re_encoded);
    match decoded {
        CborValue::Dict(entries) => {
            assert_eq!(entries.len(), 5);
            match &entries[1].1 {
                CborValue::Text(t) => assert_eq!(t, "scope-1"),
                _ => panic!("expected text"),
            }
            match &entries[4].1 {
                CborValue::Uint(n) => assert_eq!(*n, 0xFFFFFFFFFFFFFFFF),
                _ => panic!("expected uint"),
            }
        },
        _ => panic!("expected map"),
    }
}

#[test]
fn decode_rejects_out_of_order_map_keys() {
    // A two-entry map whose integer keys come in descending order.
    let bytes = hex::decode("a201010000").expect("hex");
    let err = decode_canonical_value(&bytes, &CborLimits::standard()).unwrap_err();
    match err {
        CoreError::Cbor(msg) => assert_eq!(msg, "non-canonical cbor"),
        _ => panic!("expected cbor error"),
    }
}

#[test]
fn decode_rejects_non_minimal_integer() {
    // The value 5 spelled with a needless one-byte argument.
    let bytes = hex::decode("1805").expect("hex");
    let err = decode_canonical_value(&bytes, &CborLimits::standard()).unwrap_err();
    match err {
        CoreError::Cbor(msg) => assert_eq!(msg, "non-canonical cbor"),
        _ => panic!("expected cbor error"),
    }
}

#[test]
fn decode_rejects_trailing_bytes() {
    let bytes = hex::decode("0000").expect("hex");
    assert!(decode_canonical_value(&bytes, &CborLimits::standard()).is_err());
}

#[test]
fn decode_rejects_depth_beyond_limit() {
    // 65 nested single-element arrays around a zero.
    let mut bytes = vec![0x81u8; 65];
    bytes.push(0x00);
    let err = decode_canonical_value(&bytes, &CborLimits::standard()).unwrap_err();
    assert!(matches!(err, CoreError::Cbor(_)));
}

#[test]
fn decode_rejects_oversized_container() {
    let mut limits = CborLimits::standard();
    limits.max_items = 1;
    let v = cbor_array(vec![cbor_uint(1), cbor_uint(2)]);
    let bytes = encode_canonical_value(&v).expect("encode");
    assert!(decode_canonical_value(&bytes, &limits).is_err());
}

#[test]
fn decode_rejects_oversized_input() {
    let mut limits = CborLimits::standard();
    limits.max_bytes = 2;
    let v = cbor_bytes(&[1, 2, 3, 4]);
    let bytes = encode_canonical_value(&v).expect("encode");
    assert!(decode_canonical_value(&bytes, &limits).is_err());
}

#[test]
fn encode_rejects_unsorted_map() {
    let v = cbor_map(vec![(1, cbor_uint(1)), (0, cbor_uint(0))]);
    assert!(encode_canonical_value(&v).is_err());
}

#[test]
fn hex_encodes_lowercase_pairs() {
    assert_eq!(hex_encode(&[0x00, 0xAB, 0x0F]), "00ab0f");
}

#[test]
fn empty_containers_encode_canonically() {
    let m = cbor_map(vec![]);
    let bytes = encode_canonical_value(&m).expect("encode");
    assert_eq!(hex::encode(&bytes), "a0");
    let a = cbor_array(vec![]);
    let bytes = encode_canonical_value(&a).expect("encode");
    assert_eq!(hex::encode(&bytes), "80");
}
