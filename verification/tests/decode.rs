//! Decoding responses: every read width, the clock, the bulk payload, and
//! each failure shape.

use qtest_socket::parser::{
    decode_clock_set, decode_hex_u16, decode_hex_u32, decode_hex_u64, decode_hex_u8,
    decode_read_payload, EngineError, PayloadFault,
};
use qtest_socket::Response;

#[test]
fn every_read_width_decodes_a_synthetic_ok_0x2a_as_42() {
    let r = Response::from("OK 0x2a");
    assert_eq!(r, Response::OkVal("0x2a".to_string()));
    assert_eq!(decode_hex_u8(&r), Ok(42u8));
    assert_eq!(decode_hex_u16(&r), Ok(42u16));
    assert_eq!(decode_hex_u32(&r), Ok(42u32));
    assert_eq!(decode_hex_u64(&r), Ok(42u64));
}

#[test]
fn hex_payloads_accept_either_case_and_a_missing_prefix() {
    assert_eq!(decode_hex_u8(&Response::OkVal("2a".to_string())), Ok(42u8));
    assert_eq!(decode_hex_u8(&Response::OkVal("0x2A".to_string())), Ok(42u8));
}

#[test]
fn hex_payload_over_the_width_fails() {
    let r = Response::OkVal("0x1ff".to_string());
    assert_eq!(
        decode_hex_u8(&r),
        Err(EngineError::BadPayload("0x1ff".to_string(), PayloadFault::OutOfRange))
    );
    assert_eq!(decode_hex_u16(&r), Ok(0x1ffu16));
}

#[test]
fn non_hex_payload_and_wrong_shapes_fail() {
    let bad = Response::OkVal("zz".to_string());
    assert_eq!(
        decode_hex_u8(&bad),
        Err(EngineError::BadPayload("zz".to_string(), PayloadFault::NotNumeric))
    );
    assert_eq!(decode_hex_u32(&Response::Okay), Err(EngineError::UnexpectedResponse));
    assert_eq!(
        decode_hex_u32(&Response::Error("ERR no".to_string())),
        Err(EngineError::UnexpectedResponse)
    );
}

#[test]
fn clock_set_decodes_the_new_time() {
    assert_eq!(decode_clock_set(&Response::OkVal("1000000".to_string())), Ok(1000000usize));
    assert_eq!(
        decode_clock_set(&Response::OkVal("abc".to_string())),
        Err(EngineError::BadPayload("abc".to_string(), PayloadFault::NotNumeric))
    );
    assert_eq!(
        decode_clock_set(&Response::OkVal("99999999999999999999999".to_string())),
        Err(EngineError::BadPayload(
            "99999999999999999999999".to_string(),
            PayloadFault::OutOfRange
        ))
    );
    assert_eq!(
        decode_clock_set(&Response::Error("ERR bad".to_string())),
        Err(EngineError::Rejected("ERR bad".to_string()))
    );
    assert_eq!(decode_clock_set(&Response::Okay), Err(EngineError::UnexpectedResponse));
}

#[test]
fn bulk_read_hands_the_payload_back_verbatim() {
    assert_eq!(
        decode_read_payload(Response::OkVal("cafef00d".to_string())),
        Ok("cafef00d".to_string())
    );
    assert_eq!(decode_read_payload(Response::Okay), Err(EngineError::UnexpectedResponse));
}

#[test]
fn payloads_accept_one_leading_plus_sign() {
    assert_eq!(decode_clock_set(&Response::OkVal("+5".to_string())), Ok(5usize));
    assert_eq!(decode_hex_u8(&Response::OkVal("+2a".to_string())), Ok(42u8));
    assert_eq!(decode_hex_u8(&Response::OkVal("0x+2a".to_string())), Ok(42u8));
    assert_eq!(
        decode_clock_set(&Response::OkVal("++5".to_string())),
        Err(EngineError::BadPayload("++5".to_string(), PayloadFault::NotNumeric))
    );
    assert_eq!(
        decode_hex_u8(&Response::OkVal("+".to_string())),
        Err(EngineError::BadPayload("+".to_string(), PayloadFault::NotNumeric))
    );
}
