//! The binary wire codec for the request and response envelopes.
//!
//! An envelope is one tagged field holding a length-delimited message body.
//! A request is either `Echo` (field 1) carrying a content field, or `Add`
//! (field 2) carrying two 32-bit operands; a response is either `Echo`
//! (field 1) or `AddResult` (field 2) carrying one 32-bit result. Numeric
//! fields travel as base-128 varints of their 64-bit two's-complement
//! image; byte-string fields travel length-prefixed.
//!
//! The encoder always emits every field of the chosen variant, and the
//! parser is strict: a byte string parses to an envelope if and only if it
//! is exactly that envelope's encoding, with nothing trailing. The two
//! directions are proved as `lemma_parse_client_of_encoding`,
//! `lemma_parse_client_sound` and their server counterparts.

use vstd::prelude::*;
use crate::varint::varint_bytes;
use crate::varint::parse_varint;
use crate::varint::lemma_parse_varint_of_encoding;
use crate::varint::lemma_parse_varint_sound;
use crate::varint::lemma_varint_bytes_len;
use crate::varint::encode_varint;
use crate::varint::decode_varint;
use vstd::slice::slice_subrange;
use vstd::slice::slice_to_vec;

verus! {

/// Wire tag of a length-delimited field numbered 1.
pub const TAG_FIELD1_LEN: u8 = 0x0A;

/// Wire tag of a length-delimited field numbered 2.
pub const TAG_FIELD2_LEN: u8 = 0x12;

/// Wire tag of a varint field numbered 1.
pub const TAG_FIELD1_VAR: u8 = 0x08;

/// Wire tag of a varint field numbered 2.
pub const TAG_FIELD2_VAR: u8 = 0x10;

/// A request envelope, as the handler works on it. The echoed content is
/// held as its raw bytes; the process edge turns text into bytes and back.
pub enum ClientRequest {
    Echo { content: Vec<u8> },
    Add { a: i32, b: i32 },
}

/// A response envelope.
pub enum ServerResponse {
    Echo { content: Vec<u8> },
    AddResult { result: i32 },
}

/// The mathematical model of a request envelope.
pub enum ReqModel {
    Echo { content: Seq<u8> },
    Add { a: i32, b: i32 },
}

/// The mathematical model of a response envelope.
pub enum RespModel {
    Echo { content: Seq<u8> },
    AddResult { result: i32 },
}

impl View for ClientRequest {
    type V = ReqModel;

    open spec fn view(&self) -> ReqModel {
        match self {
            ClientRequest::Echo { content } => ReqModel::Echo { content: content@ },
            ClientRequest::Add { a, b } => ReqModel::Add { a: *a, b: *b },
        }
    }
}

impl View for ServerResponse {
    type V = RespModel;

    open spec fn view(&self) -> RespModel {
        match self {
            ServerResponse::Echo { content } => RespModel::Echo { content: content@ },
            ServerResponse::AddResult { result } => RespModel::AddResult { result: *result },
        }
    }
}

/// The 64-bit two's-complement image of a 32-bit value, as the wire
/// carries signed fields.
pub open spec fn wide_of_i32(x: i32) -> u64 {
    if x >= 0 {
        x as u64
    } else {
        (x + 0x1_0000_0000_0000_0000) as u64
    }
}

/// Whether a 64-bit wire value is the image of some 32-bit value.
pub open spec fn is_wide_i32(v: u64) -> bool {
    v < 0x8000_0000 || v >= 0xFFFF_FFFF_8000_0000
}

/// The 32-bit value whose image a valid wire value is.
pub open spec fn i32_of_wide(v: u64) -> i32 {
    if v < 0x8000_0000 {
        v as i32
    } else {
        (v - 0x1_0000_0000_0000_0000) as i32
    }
}

/// Widening and narrowing invert each other.
pub proof fn lemma_wide_round_trip(x: i32)
    ensures
        is_wide_i32(wide_of_i32(x)),
        i32_of_wide(wide_of_i32(x)) == x,
{
}

/// Body of an echo message: its content field, always emitted.
pub open spec fn enc_echo_body(content: Seq<u8>) -> Seq<u8> {
    seq![TAG_FIELD1_LEN] + varint_bytes(content.len() as u64) + content
}

/// Body of an add request: both operand fields, always emitted.
pub open spec fn enc_add_body(a: i32, b: i32) -> Seq<u8> {
    seq![TAG_FIELD1_VAR] + varint_bytes(wide_of_i32(a)) + seq![TAG_FIELD2_VAR]
        + varint_bytes(wide_of_i32(b))
}

/// Body of an add result: its result field, always emitted.
pub open spec fn enc_result_body(result: i32) -> Seq<u8> {
    seq![TAG_FIELD1_VAR] + varint_bytes(wide_of_i32(result))
}

/// A length-delimited field: tag, body length, body.
pub open spec fn enc_framed(tag: u8, body: Seq<u8>) -> Seq<u8> {
    seq![tag] + varint_bytes(body.len() as u64) + body
}

/// The encoding of a request envelope.
pub open spec fn enc_client(m: ReqModel) -> Seq<u8> {
    match m {
        ReqModel::Echo { content } => enc_framed(TAG_FIELD1_LEN, enc_echo_body(content)),
        ReqModel::Add { a, b } => enc_framed(TAG_FIELD2_LEN, enc_add_body(a, b)),
    }
}

/// The encoding of a response envelope.
pub open spec fn enc_server(m: RespModel) -> Seq<u8> {
    match m {
        RespModel::Echo { content } => enc_framed(TAG_FIELD1_LEN, enc_echo_body(content)),
        RespModel::AddResult { result } => enc_framed(TAG_FIELD2_LEN, enc_result_body(result)),
    }
}

/// A request model the wire can carry: an echo's framed body length must
/// itself fit in 64 bits (the body is the content plus at most eleven
/// bytes of tag and length prefix).
pub open spec fn req_fits(m: ReqModel) -> bool {
    match m {
        ReqModel::Echo { content } => content.len() + 11 <= u64::MAX,
        ReqModel::Add { .. } => true,
    }
}

/// A response model the wire can carry.
pub open spec fn resp_fits(m: RespModel) -> bool {
    match m {
        RespModel::Echo { content } => content.len() + 11 <= u64::MAX,
        RespModel::AddResult { .. } => true,
    }
}

/// Strict parse of an echo body: exactly one content field and nothing
/// after it.
pub open spec fn parse_echo_body(s: Seq<u8>) -> Option<Seq<u8>> {
    if s.len() < 1 || s[0] != TAG_FIELD1_LEN {
        None
    } else {
        match parse_varint(s.skip(1)) {
            None => None,
            Some(p) => {
                let content = s.skip(1 + p.1);
                if content.len() == p.0 {
                    Some(content)
                } else {
                    None
                }
            },
        }
    }
}

/// Strict parse of an add body: operand fields in order and nothing after.
pub open spec fn parse_add_body(s: Seq<u8>) -> Option<(i32, i32)> {
    if s.len() < 1 || s[0] != TAG_FIELD1_VAR {
        None
    } else {
        match parse_varint(s.skip(1)) {
            None => None,
            Some(pa) => {
                if !is_wide_i32(pa.0) {
                    None
                } else {
                    let s2 = s.skip(1 + pa.1);
                    if s2.len() < 1 || s2[0] != TAG_FIELD2_VAR {
                        None
                    } else {
                        match parse_varint(s2.skip(1)) {
                            None => None,
                            Some(pb) => {
                                if is_wide_i32(pb.0) && s2.len() == 1 + pb.1 {
                                    Some((i32_of_wide(pa.0), i32_of_wide(pb.0)))
                                } else {
                                    None
                                }
                            },
                        }
                    }
                }
            },
        }
    }
}

/// Strict parse of a result body: one result field and nothing after.
pub open spec fn parse_result_body(s: Seq<u8>) -> Option<i32> {
    if s.len() < 1 || s[0] != TAG_FIELD1_VAR {
        None
    } else {
        match parse_varint(s.skip(1)) {
            None => None,
            Some(p) => {
                if is_wide_i32(p.0) && s.len() == 1 + p.1 {
                    Some(i32_of_wide(p.0))
                } else {
                    None
                }
            },
        }
    }
}

/// Strict parse of a request envelope: a byte string parses if and only if
/// it is exactly the encoding of one request.
pub open spec fn parse_client(s: Seq<u8>) -> Option<ReqModel> {
    if s.len() < 1 {
        None
    } else if s[0] == TAG_FIELD1_LEN {
        match parse_varint(s.skip(1)) {
            None => None,
            Some(p) => {
                let body = s.skip(1 + p.1);
                if body.len() == p.0 {
                    match parse_echo_body(body) {
                        None => None,
                        Some(content) => Some(ReqModel::Echo { content }),
                    }
                } else {
                    None
                }
            },
        }
    } else if s[0] == TAG_FIELD2_LEN {
        match parse_varint(s.skip(1)) {
            None => None,
            Some(p) => {
                let body = s.skip(1 + p.1);
                if body.len() == p.0 {
                    match parse_add_body(body) {
                        None => None,
                        Some(ab) => Some(ReqModel::Add { a: ab.0, b: ab.1 }),
                    }
                } else {
                    None
                }
            },
        }
    } else {
        None
    }
}

/// Strict parse of a response envelope.
pub open spec fn parse_server(s: Seq<u8>) -> Option<RespModel> {
    if s.len() < 1 {
        None
    } else if s[0] == TAG_FIELD1_LEN {
        match parse_varint(s.skip(1)) {
            None => None,
            Some(p) => {
                let body = s.skip(1 + p.1);
                if body.len() == p.0 {
                    match parse_echo_body(body) {
                        None => None,
                        Some(content) => Some(RespModel::Echo { content }),
                    }
                } else {
                    None
                }
            },
        }
    } else if s[0] == TAG_FIELD2_LEN {
        match parse_varint(s.skip(1)) {
            None => None,
            Some(p) => {
                let body = s.skip(1 + p.1);
                if body.len() == p.0 {
                    match parse_result_body(body) {
                        None => None,
                        Some(result) => Some(RespModel::AddResult { result }),
                    }
                } else {
                    None
                }
            },
        }
    } else {
        None
    }
}

/// Parsing a framed field recovers its tag's body: helper for both
/// completeness directions.
proof fn lemma_parse_framed(tag: u8, body: Seq<u8>)
    requires
        body.len() <= u64::MAX,
    ensures
        ({
            let s = enc_framed(tag, body);
            &&& s.len() >= 1
            &&& s[0] == tag
            &&& parse_varint(s.skip(1)) matches Some(p)
                && p.0 == body.len() && s.skip(1 + p.1) == body
        }),
{
    let s = enc_framed(tag, body);
    let lv = (body.len() as u64);
    lemma_parse_varint_of_encoding(lv, body);
    assert(s.skip(1) =~= varint_bytes(lv) + body);
    let n = varint_bytes(lv).len() as int;
    assert(s.skip(1 + n) =~= body);
}

/// An echo body parses back to its content.
proof fn lemma_parse_echo_body_of_encoding(content: Seq<u8>)
    requires
        content.len() <= u64::MAX,
    ensures
        parse_echo_body(enc_echo_body(content)) == Some(content),
{
    let s = enc_echo_body(content);
    let lv = (content.len() as u64);
    lemma_parse_varint_of_encoding(lv, content);
    assert(s.skip(1) =~= varint_bytes(lv) + content);
    let n = varint_bytes(lv).len() as int;
    assert(s.skip(1 + n) =~= content);
}

/// An add body parses back to its operands.
proof fn lemma_parse_add_body_of_encoding(a: i32, b: i32)
    ensures
        parse_add_body(enc_add_body(a, b)) == Some((a, b)),
{
    let s = enc_add_body(a, b);
    let wa = wide_of_i32(a);
    let wb = wide_of_i32(b);
    let tail_a = seq![TAG_FIELD2_VAR] + varint_bytes(wb);
    lemma_parse_varint_of_encoding(wa, tail_a);
    assert(s.skip(1) =~= varint_bytes(wa) + tail_a);
    let na = varint_bytes(wa).len() as int;
    let s2 = s.skip(1 + na);
    assert(s2 =~= tail_a);
    lemma_parse_varint_of_encoding(wb, Seq::empty());
    assert(s2.skip(1) =~= varint_bytes(wb) + Seq::empty());
    assert(s2.skip(1) =~= varint_bytes(wb));
    lemma_wide_round_trip(a);
    lemma_wide_round_trip(b);
}

/// A result body parses back to its value.
proof fn lemma_parse_result_body_of_encoding(result: i32)
    ensures
        parse_result_body(enc_result_body(result)) == Some(result),
{
    let s = enc_result_body(result);
    let w = wide_of_i32(result);
    lemma_parse_varint_of_encoding(w, Seq::empty());
    assert(s.skip(1) =~= varint_bytes(w) + Seq::empty());
    assert(s.skip(1) =~= varint_bytes(w));
    lemma_wide_round_trip(result);
}

/// Completeness: every request envelope's encoding parses back to it.
pub proof fn lemma_parse_client_of_encoding(m: ReqModel)
    requires
        req_fits(m),
    ensures
        parse_client(enc_client(m)) == Some(m),
{
    match m {
        ReqModel::Echo { content } => {
            let body = enc_echo_body(content);
            lemma_varint_bytes_len(content.len() as u64);
            lemma_parse_echo_body_of_encoding(content);
            lemma_parse_framed(TAG_FIELD1_LEN, body);
        },
        ReqModel::Add { a, b } => {
            let body = enc_add_body(a, b);
            lemma_varint_bytes_len(wide_of_i32(a));
            lemma_varint_bytes_len(wide_of_i32(b));
            lemma_parse_add_body_of_encoding(a, b);
            lemma_parse_framed(TAG_FIELD2_LEN, body);
        },
    }
}

/// Completeness: every response envelope's encoding parses back to it.
pub proof fn lemma_parse_server_of_encoding(m: RespModel)
    requires
        resp_fits(m),
    ensures
        parse_server(enc_server(m)) == Some(m),
{
    match m {
        RespModel::Echo { content } => {
            let body = enc_echo_body(content);
            lemma_varint_bytes_len(content.len() as u64);
            lemma_parse_echo_body_of_encoding(content);
            lemma_parse_framed(TAG_FIELD1_LEN, body);
        },
        RespModel::AddResult { result } => {
            let body = enc_result_body(result);
            lemma_varint_bytes_len(wide_of_i32(result));
            lemma_parse_result_body_of_encoding(result);
            lemma_parse_framed(TAG_FIELD2_LEN, body);
        },
    }
}

/// Soundness helper: a parsed echo body is the encoding of its content.
proof fn lemma_parse_echo_body_sound(s: Seq<u8>)
    ensures
        parse_echo_body(s) matches Some(content) ==> {
            &&& s == enc_echo_body(content)
            &&& content.len() <= u64::MAX
        },
{
    if parse_echo_body(s) is Some {
        let content = parse_echo_body(s)->Some_0;
        lemma_parse_varint_sound(s.skip(1));
        let p = parse_varint(s.skip(1))->Some_0;
        assert(s.skip(1).take(p.1) == varint_bytes(p.0));
        assert(s =~= seq![s[0]] + s.skip(1).take(p.1) + s.skip(1 + p.1));
    }
}

/// Soundness helper: a parsed add body is the encoding of its operands.
proof fn lemma_parse_add_body_sound(s: Seq<u8>)
    ensures
        parse_add_body(s) matches Some(ab) ==> s == enc_add_body(ab.0, ab.1),
{
    if parse_add_body(s) is Some {
        let ab = parse_add_body(s)->Some_0;
        lemma_parse_varint_sound(s.skip(1));
        let pa = parse_varint(s.skip(1))->Some_0;
        let s2 = s.skip(1 + pa.1);
        lemma_parse_varint_sound(s2.skip(1));
        let pb = parse_varint(s2.skip(1))->Some_0;
        assert(s.skip(1).take(pa.1) == varint_bytes(pa.0));
        assert(s2.skip(1).take(pb.1) == varint_bytes(pb.0));
        assert(s2.skip(1).take(pb.1) =~= s2.skip(1));
        lemma_wide_i32_of_valid(pa.0);
        lemma_wide_i32_of_valid(pb.0);
        assert(s2 =~= seq![s2[0]] + s2.skip(1));
        assert(s =~= seq![s[0]] + s.skip(1).take(pa.1) + s2);
    }
}

/// Soundness helper: a parsed result body is the encoding of its value.
proof fn lemma_parse_result_body_sound(s: Seq<u8>)
    ensures
        parse_result_body(s) matches Some(result) ==> s == enc_result_body(result),
{
    if parse_result_body(s) is Some {
        lemma_parse_varint_sound(s.skip(1));
        let p = parse_varint(s.skip(1))->Some_0;
        assert(s.skip(1).take(p.1) == varint_bytes(p.0));
        assert(s.skip(1).take(p.1) =~= s.skip(1));
        lemma_wide_i32_of_valid(p.0);
        assert(s =~= seq![s[0]] + s.skip(1));
    }
}

/// Narrowing and widening invert each other on valid wire values.
proof fn lemma_wide_i32_of_valid(v: u64)
    requires
        is_wide_i32(v),
    ensures
        wide_of_i32(i32_of_wide(v)) == v,
{
}

/// Soundness: a byte string that parses as a request is exactly that
/// request's encoding.
pub proof fn lemma_parse_client_sound(s: Seq<u8>)
    ensures
        parse_client(s) matches Some(m) ==> s == enc_client(m),
{
    if parse_client(s) is Some {
        lemma_parse_varint_sound(s.skip(1));
        let p = parse_varint(s.skip(1))->Some_0;
        let body = s.skip(1 + p.1);
        assert(s.skip(1).take(p.1) == varint_bytes(p.0));
        assert(s =~= seq![s[0]] + s.skip(1).take(p.1) + body);
        if s[0] == TAG_FIELD1_LEN {
            lemma_parse_echo_body_sound(body);
        } else {
            lemma_parse_add_body_sound(body);
        }
    }
}

/// Soundness: a byte string that parses as a response is exactly that
/// response's encoding.
pub proof fn lemma_parse_server_sound(s: Seq<u8>)
    ensures
        parse_server(s) matches Some(m) ==> s == enc_server(m),
{
    if parse_server(s) is Some {
        lemma_parse_varint_sound(s.skip(1));
        let p = parse_varint(s.skip(1))->Some_0;
        let body = s.skip(1 + p.1);
        assert(s.skip(1).take(p.1) == varint_bytes(p.0));
        assert(s =~= seq![s[0]] + s.skip(1).take(p.1) + body);
        if s[0] == TAG_FIELD1_LEN {
            lemma_parse_echo_body_sound(body);
        } else {
            lemma_parse_result_body_sound(body);
        }
    }
}

/// Why a byte string was rejected: it is not the encoding of any envelope.
#[derive(Clone, Copy, PartialEq, Eq, Structural, Debug)]
pub struct DecodeError;

/// Appends a copy of `src` to `dst`.
fn push_bytes(dst: &mut Vec<u8>, src: &[u8])
    ensures
        final(dst)@ == old(dst)@ + src@,
{
    assert(old(dst)@ + src@.take(0) =~= old(dst)@);
    let mut i: usize = 0;
    while i < src.len()
        invariant
            i <= src@.len(),
            dst@ == old(dst)@ + src@.take(i as int),
        decreases src@.len() - i,
    {
        let b = src[i];
        dst.push(b);
        assert(src@.take(i + 1) =~= src@.take(i as int).push(src@[i as int]));
        i = i + 1;
    }
    assert(src@.take(src@.len() as int) =~= src@);
}

/// The 64-bit image of a 32-bit value, as `wide_of_i32` states it.
fn widen_i32(x: i32) -> (r: u64)
    ensures
        r == wide_of_i32(x),
{
    if x >= 0 {
        x as u64
    } else {
        let mag = (-(x as i64)) as u64;
        u64::MAX - mag + 1
    }
}

/// The 32-bit value a wire value stands for, or `None` when it is the
/// image of no 32-bit value.
fn narrow_wide(v: u64) -> (r: Option<i32>)
    ensures
        is_wide_i32(v) ==> r == Some(i32_of_wide(v)),
        !is_wide_i32(v) ==> r is None,
{
    if v < 0x8000_0000 {
        Some(v as i32)
    } else if v >= 0xFFFF_FFFF_8000_0000 {
        let mag = (u64::MAX - v) + 1;
        let neg = -(mag as i64);
        Some(neg as i32)
    } else {
        None
    }
}

/// Builds a framed field: tag, body length, body bytes.
fn encode_framed(tag: u8, body: &Vec<u8>) -> (out: Vec<u8>)
    ensures
        out@ == enc_framed(tag, body@),
{
    let mut out: Vec<u8> = Vec::new();
    out.push(tag);
    encode_varint(body.len() as u64, &mut out);
    push_bytes(&mut out, body.as_slice());
    assert(out@ =~= enc_framed(tag, body@));
    out
}

/// Builds an echo body from its content.
fn encode_echo_body(content: &Vec<u8>) -> (out: Vec<u8>)
    ensures
        out@ == enc_echo_body(content@),
{
    let mut out: Vec<u8> = Vec::new();
    out.push(TAG_FIELD1_LEN);
    encode_varint(content.len() as u64, &mut out);
    push_bytes(&mut out, content.as_slice());
    assert(out@ =~= enc_echo_body(content@));
    out
}

/// Encodes a request envelope; the result is exactly `enc_client` of it.
pub fn encode_client(m: &ClientRequest) -> (out: Vec<u8>)
    ensures
        out@ == enc_client(m@),
{
    match m {
        ClientRequest::Echo { content } => {
            let body = encode_echo_body(content);
            encode_framed(TAG_FIELD1_LEN, &body)
        },
        ClientRequest::Add { a, b } => {
            let mut body: Vec<u8> = Vec::new();
            body.push(TAG_FIELD1_VAR);
            encode_varint(widen_i32(*a), &mut body);
            body.push(TAG_FIELD2_VAR);
            encode_varint(widen_i32(*b), &mut body);
            assert(body@ =~= enc_add_body(*a, *b));
            encode_framed(TAG_FIELD2_LEN, &body)
        },
    }
}

/// Encodes a response envelope; the result is exactly `enc_server` of it.
pub fn encode_server(m: &ServerResponse) -> (out: Vec<u8>)
    ensures
        out@ == enc_server(m@),
{
    match m {
        ServerResponse::Echo { content } => {
            let body = encode_echo_body(content);
            encode_framed(TAG_FIELD1_LEN, &body)
        },
        ServerResponse::AddResult { result } => {
            let mut body: Vec<u8> = Vec::new();
            body.push(TAG_FIELD1_VAR);
            encode_varint(widen_i32(*result), &mut body);
            assert(body@ =~= enc_result_body(*result));
            encode_framed(TAG_FIELD2_LEN, &body)
        },
    }
}

/// Reads an echo body lying at `buf[j..]`, as `parse_echo_body` states it.
fn decode_echo_content(buf: &[u8], j: usize) -> (r: Option<Vec<u8>>)
    requires
        j <= buf@.len(),
    ensures
        match r {
            Some(c) => parse_echo_body(buf@.skip(j as int)) == Some(c@),
            None => parse_echo_body(buf@.skip(j as int)) is None,
        },
{
    let ghost body = buf@.skip(j as int);
    if buf.len() - j < 1 || buf[j] != TAG_FIELD1_LEN {
        return None;
    }
    assert(body.skip(1) =~= buf@.skip(j + 1));
    match decode_varint(buf, j + 1) {
        None => None,
        Some(p) => {
            let cl: u64 = p.0;
            let k: usize = p.1;
            if (buf.len() - k) as u64 != cl {
                return None;
            }
            assert(body.skip(k - j) =~= buf@.skip(k as int));
            let content = slice_to_vec(slice_subrange(buf, k, buf.len()));
            assert(content@ =~= buf@.skip(k as int));
            Some(content)
        },
    }
}

/// Reads an add body lying at `buf[j..]`, as `parse_add_body` states it.
fn decode_add_operands(buf: &[u8], j: usize) -> (r: Option<(i32, i32)>)
    requires
        j <= buf@.len(),
    ensures
        match r {
            Some(ab) => parse_add_body(buf@.skip(j as int)) == Some(ab),
            None => parse_add_body(buf@.skip(j as int)) is None,
        },
{
    let ghost body = buf@.skip(j as int);
    if buf.len() - j < 1 || buf[j] != TAG_FIELD1_VAR {
        return None;
    }
    assert(body.skip(1) =~= buf@.skip(j + 1));
    match decode_varint(buf, j + 1) {
        None => None,
        Some(pa) => {
            let wa: u64 = pa.0;
            let ka: usize = pa.1;
            match narrow_wide(wa) {
                None => None,
                Some(a) => {
                    assert(body.skip(ka - j) =~= buf@.skip(ka as int));
                    if buf.len() - ka < 1 || buf[ka] != TAG_FIELD2_VAR {
                        return None;
                    }
                    assert(buf@.skip(ka as int).skip(1) =~= buf@.skip(ka + 1));
                    match decode_varint(buf, ka + 1) {
                        None => None,
                        Some(pb) => {
                            let wb: u64 = pb.0;
                            let kb: usize = pb.1;
                            match narrow_wide(wb) {
                                None => None,
                                Some(b) => {
                                    if kb != buf.len() {
                                        return None;
                                    }
                                    Some((a, b))
                                },
                            }
                        },
                    }
                },
            }
        },
    }
}

/// Reads a result body lying at `buf[j..]`, as `parse_result_body` states it.
fn decode_result_value(buf: &[u8], j: usize) -> (r: Option<i32>)
    requires
        j <= buf@.len(),
    ensures
        match r {
            Some(x) => parse_result_body(buf@.skip(j as int)) == Some(x),
            None => parse_result_body(buf@.skip(j as int)) is None,
        },
{
    let ghost body = buf@.skip(j as int);
    if buf.len() - j < 1 || buf[j] != TAG_FIELD1_VAR {
        return None;
    }
    assert(body.skip(1) =~= buf@.skip(j + 1));
    match decode_varint(buf, j + 1) {
        None => None,
        Some(p) => {
            let w: u64 = p.0;
            let k: usize = p.1;
            match narrow_wide(w) {
                None => None,
                Some(x) => {
                    if k != buf.len() {
                        return None;
                    }
                    Some(x)
                },
            }
        },
    }
}

/// Decodes a request envelope. Succeeds exactly on the byte strings that
/// `parse_client` accepts, that is, on exact envelope encodings.
pub fn decode_client(buf: &[u8]) -> (r: Result<ClientRequest, DecodeError>)
    ensures
        r matches Ok(m) ==> parse_client(buf@) == Some(m@),
        r is Err ==> parse_client(buf@) is None,
{
    if buf.len() < 1 {
        return Err(DecodeError);
    }
    let tag = buf[0];
    if tag != TAG_FIELD1_LEN && tag != TAG_FIELD2_LEN {
        return Err(DecodeError);
    }
    match decode_varint(buf, 1) {
        None => Err(DecodeError),
        Some(p) => {
            let blen: u64 = p.0;
            let j: usize = p.1;
            if (buf.len() - j) as u64 != blen {
                return Err(DecodeError);
            }
            if tag == TAG_FIELD1_LEN {
                match decode_echo_content(buf, j) {
                    Some(content) => Ok(ClientRequest::Echo { content }),
                    None => Err(DecodeError),
                }
            } else {
                match decode_add_operands(buf, j) {
                    Some(ab) => Ok(ClientRequest::Add { a: ab.0, b: ab.1 }),
                    None => Err(DecodeError),
                }
            }
        },
    }
}

/// Decodes a response envelope. Succeeds exactly on the byte strings that
/// `parse_server` accepts.
pub fn decode_server(buf: &[u8]) -> (r: Result<ServerResponse, DecodeError>)
    ensures
        r matches Ok(m) ==> parse_server(buf@) == Some(m@),
        r is Err ==> parse_server(buf@) is None,
{
    if buf.len() < 1 {
        return Err(DecodeError);
    }
    let tag = buf[0];
    if tag != TAG_FIELD1_LEN && tag != TAG_FIELD2_LEN {
        return Err(DecodeError);
    }
    match decode_varint(buf, 1) {
        None => Err(DecodeError),
        Some(p) => {
            let blen: u64 = p.0;
            let j: usize = p.1;
            if (buf.len() - j) as u64 != blen {
                return Err(DecodeError);
            }
            if tag == TAG_FIELD1_LEN {
                match decode_echo_content(buf, j) {
                    Some(content) => Ok(ServerResponse::Echo { content }),
                    None => Err(DecodeError),
                }
            } else {
                match decode_result_value(buf, j) {
                    Some(result) => Ok(ServerResponse::AddResult { result }),
                    None => Err(DecodeError),
                }
            }
        },
    }
}

} // verus!
