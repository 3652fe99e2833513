use echo_core::codec::{
    decode_client, decode_server, encode_client, encode_server, ClientRequest, ServerResponse,
};

fn echo_request(text: &str) -> ClientRequest {
    ClientRequest::Echo { content: text.as_bytes().to_vec() }
}

#[test]
fn echo_request_exact_bytes() {
    let out = encode_client(&echo_request("abc"));
    // outer: field 1 length-delimited, body of 5 bytes;
    // inner: field 1 length-delimited, the three content bytes.
    assert_eq!(out, vec![0x0A, 0x05, 0x0A, 0x03, 0x61, 0x62, 0x63]);
}

#[test]
fn add_request_exact_bytes() {
    let out = encode_client(&ClientRequest::Add { a: 1, b: 2 });
    // outer: field 2 length-delimited; inner: two varint fields.
    assert_eq!(out, vec![0x12, 0x04, 0x08, 0x01, 0x10, 0x02]);
}

#[test]
fn add_result_exact_bytes() {
    let out = encode_server(&ServerResponse::AddResult { result: 3 });
    assert_eq!(out, vec![0x12, 0x02, 0x08, 0x03]);
}

#[test]
fn echo_round_trip() {
    let bytes = encode_client(&echo_request("Hello, World!"));
    match decode_client(&bytes) {
        Ok(ClientRequest::Echo { content }) => {
            assert_eq!(content, "Hello, World!".as_bytes().to_vec());
        }
        other => panic!("expected an echo request, got {:?}", other.is_ok()),
    }
}

#[test]
fn echo_round_trip_empty_content() {
    let bytes = encode_client(&echo_request(""));
    assert_eq!(bytes, vec![0x0A, 0x02, 0x0A, 0x00]);
    match decode_client(&bytes) {
        Ok(ClientRequest::Echo { content }) => assert_eq!(content, Vec::<u8>::new()),
        other => panic!("expected an echo request, got {:?}", other.is_ok()),
    }
}

#[test]
fn add_round_trip_negative_operands() {
    let bytes = encode_client(&ClientRequest::Add { a: -1, b: i32::MIN });
    match decode_client(&bytes) {
        Ok(ClientRequest::Add { a, b }) => {
            assert_eq!(a, -1);
            assert_eq!(b, i32::MIN);
        }
        other => panic!("expected an add request, got {:?}", other.is_ok()),
    }
}

#[test]
fn negative_int32_sign_extends_to_ten_bytes() {
    let bytes = encode_client(&ClientRequest::Add { a: -1, b: 0 });
    // field a: tag plus ten varint bytes of the sign-extended value.
    let expected_a: Vec<u8> = vec![
        0x08, 0xFF, 0xFF, 0xFF, 0xFF, 0xFF, 0xFF, 0xFF, 0xFF, 0xFF, 0x01,
    ];
    assert_eq!(&bytes[2..2 + expected_a.len()], &expected_a[..]);
}

#[test]
fn server_echo_round_trip() {
    let bytes = encode_server(&ServerResponse::Echo { content: b"Goodbye!".to_vec() });
    match decode_server(&bytes) {
        Ok(ServerResponse::Echo { content }) => assert_eq!(content, b"Goodbye!".to_vec()),
        other => panic!("expected an echo response, got {:?}", other.is_ok()),
    }
}

#[test]
fn server_add_result_round_trip_negative() {
    let bytes = encode_server(&ServerResponse::AddResult { result: -7 });
    match decode_server(&bytes) {
        Ok(ServerResponse::AddResult { result }) => assert_eq!(result, -7),
        other => panic!("expected an add result, got {:?}", other.is_ok()),
    }
}

#[test]
fn empty_input_is_rejected() {
    assert!(decode_client(&[]).is_err());
    assert!(decode_server(&[]).is_err());
}

#[test]
fn unknown_tag_is_rejected() {
    assert!(decode_client(&[0x1A, 0x02, 0x0A, 0x00]).is_err());
    assert!(decode_client(&[0x00]).is_err());
}

#[test]
fn truncated_input_is_rejected() {
    let mut bytes = encode_client(&echo_request("Hello, World!"));
    bytes.pop();
    assert!(decode_client(&bytes).is_err());
    assert!(decode_client(&[0x0A]).is_err());
}

#[test]
fn trailing_bytes_are_rejected() {
    let mut bytes = encode_client(&echo_request("Hello, World!"));
    bytes.push(0x00);
    assert!(decode_client(&bytes).is_err());
}

#[test]
fn wrong_body_length_is_rejected() {
    // outer claims a 3-byte body but 2 bytes follow.
    assert!(decode_client(&[0x0A, 0x03, 0x0A, 0x00]).is_err());
}

#[test]
fn overlong_varint_is_rejected() {
    // the inner length 0 written in two bytes instead of one.
    assert!(decode_client(&[0x0A, 0x03, 0x0A, 0x80, 0x00]).is_err());
}

#[test]
fn operand_beyond_int32_is_rejected() {
    // an add body whose first operand is 2^32: no 32-bit value has it as
    // its image.
    let body: Vec<u8> = vec![0x08, 0x80, 0x80, 0x80, 0x80, 0x10, 0x10, 0x00];
    let mut bytes = vec![0x12, body.len() as u8];
    bytes.extend_from_slice(&body);
    assert!(decode_client(&bytes).is_err());
}

#[test]
fn decoder_accepts_what_encoder_makes_for_many_values() {
    for a in [i32::MIN, -100_000, -1, 0, 1, 77, i32::MAX] {
        for b in [i32::MIN, -3, 0, 5, i32::MAX] {
            let bytes = encode_client(&ClientRequest::Add { a, b });
            match decode_client(&bytes) {
                Ok(ClientRequest::Add { a: ra, b: rb }) => {
                    assert_eq!((ra, rb), (a, b));
                }
                other => panic!("expected an add request, got {:?}", other.is_ok()),
            }
        }
    }
}
