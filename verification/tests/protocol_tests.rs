use device_faker::attrs::AttributeMap;
use device_faker::protocol::{
    CompanionRequest, CompanionResponse, DecodeError, ResetpropSessionRequest, RestoreRequest,
    decode_frame, decode_request, decode_response, encode_frame, encode_request, encode_response,
    frame_payload_len,
};

fn s(x: &str) -> String {
    x.to_string()
}

fn map_of(pairs: &[(&str, &str)]) -> AttributeMap {
    let mut m = AttributeMap::new();
    for (k, v) in pairs {
        m.insert(s(k), s(v));
    }
    m
}

fn assert_maps_equal(a: &AttributeMap, b: &AttributeMap) {
    assert_eq!(a.len(), b.len());
    for i in 0..a.len() {
        assert_eq!(a.key_at(i), b.key_at(i));
        assert_eq!(a.value_at(i), b.value_at(i));
    }
}

#[test]
fn apply_request_round_trips() {
    let props = map_of(&[("ro.product.model", "Pixel7")]);
    let req = CompanionRequest::Apply(ResetpropSessionRequest { pid: 1234, props });
    let bytes = encode_request(&req).unwrap();
    let back = decode_request(&bytes).unwrap();
    match back {
        CompanionRequest::Apply(a) => {
            assert_eq!(a.pid, 1234);
            assert_maps_equal(&a.props, &map_of(&[("ro.product.model", "Pixel7")]));
        },
        CompanionRequest::Restore(_) => panic!("wrong variant"),
    }
}

#[test]
fn restore_request_round_trips() {
    let props = map_of(&[("ro.product.model", "RealModel"), ("ro.product.brand", "RealBrand")]);
    let req = CompanionRequest::Restore(RestoreRequest { props });
    let bytes = encode_request(&req).unwrap();
    let back = decode_request(&bytes).unwrap();
    match back {
        CompanionRequest::Restore(r) => {
            assert_maps_equal(
                &r.props,
                &map_of(&[("ro.product.model", "RealModel"), ("ro.product.brand", "RealBrand")]),
            );
        },
        CompanionRequest::Apply(_) => panic!("wrong variant"),
    }
}

#[test]
fn response_with_backups_round_trips() {
    let resp = CompanionResponse::ok_with_backups(map_of(&[("ro.product.model", "RealModel")]));
    let bytes = encode_response(&resp).unwrap();
    let back = decode_response(&bytes).unwrap();
    assert_eq!(back.status, 0);
    assert!(back.message.is_none());
    assert_maps_equal(&back.backups.unwrap(), &map_of(&[("ro.product.model", "RealModel")]));
}

#[test]
fn error_response_round_trips() {
    let resp = CompanionResponse::err(s("companion resetprop failed"));
    let bytes = encode_response(&resp).unwrap();
    let back = decode_response(&bytes).unwrap();
    assert_eq!(back.status, -1);
    assert_eq!(back.message.as_deref(), Some("companion resetprop failed"));
    assert!(back.backups.is_none());
}

#[test]
fn plain_ok_response_round_trips() {
    let bytes = encode_response(&CompanionResponse::ok()).unwrap();
    let back = decode_response(&bytes).unwrap();
    assert_eq!(back.status, 0);
    assert!(back.message.is_none());
    assert!(back.backups.is_none());
}

#[test]
fn non_ascii_values_survive_the_wire() {
    let props = map_of(&[("ro.product.marketname", "Téléphone 七")]);
    let req = CompanionRequest::Restore(RestoreRequest { props });
    let bytes = encode_request(&req).unwrap();
    match decode_request(&bytes).unwrap() {
        CompanionRequest::Restore(r) => {
            assert_eq!(
                r.props.get(&s("ro.product.marketname")).map(|v| v.as_str()),
                Some("Téléphone 七")
            );
        },
        _ => panic!("wrong variant"),
    }
}

#[test]
fn empty_payload_is_truncated() {
    assert!(matches!(decode_request(&Vec::new()), Err(DecodeError::Truncated)));
    assert!(matches!(decode_response(&Vec::new()), Err(DecodeError::Truncated)));
}

#[test]
fn unknown_tag_is_rejected() {
    assert!(matches!(decode_request(&vec![9u8]), Err(DecodeError::BadTag)));
}

#[test]
fn unknown_status_byte_is_rejected() {
    assert!(matches!(decode_response(&vec![7u8, 0, 0]), Err(DecodeError::BadStatus)));
}

#[test]
fn unknown_flag_byte_is_rejected() {
    assert!(matches!(decode_response(&vec![0u8, 5]), Err(DecodeError::BadFlag)));
}

#[test]
fn short_map_is_truncated() {
    // Apply tag, pid, then a map announcing one entry with no bytes for it.
    let mut bytes = vec![1u8];
    bytes.extend_from_slice(&1234u32.to_le_bytes());
    bytes.extend_from_slice(&1u32.to_le_bytes());
    assert!(matches!(decode_request(&bytes), Err(DecodeError::Truncated)));
}

#[test]
fn invalid_utf8_is_rejected() {
    // Restore tag, one entry, key of one byte that is not UTF-8.
    let mut bytes = vec![2u8];
    bytes.extend_from_slice(&1u32.to_le_bytes());
    bytes.extend_from_slice(&1u32.to_le_bytes());
    bytes.push(0xFF);
    bytes.extend_from_slice(&0u32.to_le_bytes());
    assert!(matches!(decode_request(&bytes), Err(DecodeError::BadText)));
}

#[test]
fn repeated_key_is_rejected() {
    // Restore tag, two entries with the same one-byte key "k".
    let mut bytes = vec![2u8];
    bytes.extend_from_slice(&2u32.to_le_bytes());
    for _ in 0..2 {
        bytes.extend_from_slice(&1u32.to_le_bytes());
        bytes.push(b'k');
        bytes.extend_from_slice(&1u32.to_le_bytes());
        bytes.push(b'v');
    }
    assert!(matches!(decode_request(&bytes), Err(DecodeError::DuplicateKey)));
}

#[test]
fn trailing_bytes_are_rejected() {
    let req = CompanionRequest::Restore(RestoreRequest { props: AttributeMap::new() });
    let mut bytes = encode_request(&req).unwrap();
    bytes.push(0);
    assert!(matches!(decode_request(&bytes), Err(DecodeError::Trailing)));
}

#[test]
fn frame_prefixes_payload_with_length() {
    let payload = vec![10u8, 20, 30];
    let framed = encode_frame(&payload).unwrap();
    assert_eq!(framed.len(), 7);
    assert_eq!(&framed[0..4], &3u32.to_le_bytes());
    assert_eq!(&framed[4..], &payload[..]);
    let header = framed[0..4].to_vec();
    assert_eq!(frame_payload_len(&header), 3);
    assert_eq!(decode_frame(&framed), Some(payload));
}

#[test]
fn frame_with_wrong_length_is_rejected() {
    let mut framed = encode_frame(&vec![1u8, 2]).unwrap();
    framed.push(9);
    assert_eq!(decode_frame(&framed), None);
    assert_eq!(decode_frame(&vec![1u8, 2, 3]), None);
}
