//! Cross-checks of this crate's codec against prost's wire encoders: the
//! bytes the verified encoder produces are the bytes a protobuf peer
//! would produce, and each side decodes the other's.

use echo_core::codec::{decode_client, encode_client, ClientRequest};
use echo_core::varint::{decode_varint, encode_varint};
use prost::encoding::{encode_key, WireType};

fn prost_varint(v: u64) -> Vec<u8> {
    let mut buf: Vec<u8> = Vec::new();
    prost::encoding::encode_varint(v, &mut buf);
    buf
}

#[test]
fn varint_encoding_matches_prost() {
    for v in [0u64, 1, 127, 128, 300, 16_383, 16_384, 0xFFFF_FFFF, u64::MAX] {
        let mut mine: Vec<u8> = Vec::new();
        encode_varint(v, &mut mine);
        assert_eq!(mine, prost_varint(v), "encodings differ for {}", v);
    }
}

#[test]
fn prost_decodes_this_crate_varints() {
    for v in [0u64, 1, 127, 128, 300, u64::MAX] {
        let mut mine: Vec<u8> = Vec::new();
        encode_varint(v, &mut mine);
        let mut slice: &[u8] = &mine;
        let decoded = prost::encoding::decode_varint(&mut slice).expect("prost rejected it");
        assert_eq!(decoded, v);
        assert!(slice.is_empty());
    }
}

#[test]
fn this_crate_decodes_prost_varints() {
    for v in [0u64, 1, 127, 128, 300, u64::MAX] {
        let theirs = prost_varint(v);
        let (decoded, end) = decode_varint(&theirs, 0).expect("the encoding was rejected");
        assert_eq!(decoded, v);
        assert_eq!(end, theirs.len());
    }
}

#[test]
fn echo_envelope_matches_prost_framing() {
    // the envelope a protobuf peer sends for an echo request: an inner
    // message with one string field, framed as length-delimited field 1.
    let text = String::from("Hello, World!");
    let mut inner: Vec<u8> = Vec::new();
    prost::encoding::string::encode(1, &text, &mut inner);
    let mut outer: Vec<u8> = Vec::new();
    encode_key(1, WireType::LengthDelimited, &mut outer);
    prost::encoding::encode_varint(inner.len() as u64, &mut outer);
    outer.extend_from_slice(&inner);

    let mine = encode_client(&ClientRequest::Echo { content: text.into_bytes() });
    assert_eq!(mine, outer);
    assert!(decode_client(&outer).is_ok());
}

#[test]
fn add_envelope_matches_prost_framing() {
    for (a, b) in [(1i32, 2i32), (-5, 7), (i32::MIN, i32::MAX), (-1, -1)] {
        let mut inner: Vec<u8> = Vec::new();
        prost::encoding::int32::encode(1, &a, &mut inner);
        prost::encoding::int32::encode(2, &b, &mut inner);
        let mut outer: Vec<u8> = Vec::new();
        encode_key(2, WireType::LengthDelimited, &mut outer);
        prost::encoding::encode_varint(inner.len() as u64, &mut outer);
        outer.extend_from_slice(&inner);

        let mine = encode_client(&ClientRequest::Add { a, b });
        assert_eq!(mine, outer, "encodings differ for ({}, {})", a, b);
        assert!(decode_client(&outer).is_ok());
    }
}
