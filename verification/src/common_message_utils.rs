//! Message framing shared by client and server: a body is a four-byte
//! big-endian length, and — when the length is non-zero — a four-byte
//! big-endian CRC32 checksum of the payload followed by the payload
//! bytes (UTF-8 JSON). Type and status codes are two big-endian bytes.

use vstd::prelude::*;

use crate::byte_order::{
    lemma_u32_be_bytes_round_trip, spec_u16_from_be_bytes, spec_u32_from_be_bytes,
    spec_u32_to_be_bytes, u16_from_be_bytes, u32_from_be_bytes, u32_to_be_bytes,
};
use crate::enums::{
    message_type_of_code, spec_message_type_of_code, spec_status_of_code, status_of_code,
    MessageType, ServerError, StatusCode,
};
use vstd::utf8::{
    decode_utf8, encode_scalar, encode_utf8, encode_utf8_decode_utf8, encode_utf8_valid_utf8,
    valid_utf8,
};

verus! {

/// The CRC32 (IEEE polynomial) checksum of a byte string; a function of
/// the bytes alone, computed by an outside crate.
pub uninterp spec fn crc32_of(data: Seq<u8>) -> u32;

/// Relies on `crc32fast::hash`: the CRC32 checksum of the bytes, as
/// computed by the IEEE polynomial, a pure function of its input.
#[verifier::external_body]
fn crc32(data: &[u8]) -> (r: u32)
    ensures
        r == crc32_of(data@),
{
    crc32fast::hash(data)
}

/// Relies on `str::from_utf8`: returns a string exactly when the bytes
/// are valid UTF-8, and then decodes them; vstd's `valid_utf8` and
/// `decode_utf8` are its model of that encoding.
#[verifier::external_body]
fn bytes_to_string(data: &[u8]) -> (r: Option<String>)
    ensures
        r is Some <==> valid_utf8(data@),
        r matches Some(s) ==> s@ == decode_utf8(data@),
{
    match core::str::from_utf8(data) {
        Ok(s) => Some(s.to_owned()),
        Err(_) => None,
    }
}

/// The framed bytes of a message body. An absent or empty payload is
/// four zero bytes and nothing else; a payload whose UTF-8 encoding
/// exceeds `u32::MAX` bytes cannot be framed and yields no bytes at all.
pub open spec fn spec_body_bytes(payload: Option<Seq<char>>) -> Seq<u8> {
    match payload {
        Some(p) => {
            let data = encode_utf8(p);
            if data.len() == 0 {
                spec_u32_to_be_bytes(0)
            } else if data.len() > u32::MAX {
                Seq::empty()
            } else {
                spec_u32_to_be_bytes(data.len() as u32) + spec_u32_to_be_bytes(crc32_of(data))
                    + data
            }
        },
        None => spec_u32_to_be_bytes(0),
    }
}

/// What decoding a framed body yields: the payload string, or the first
/// applicable error — `BodySizeError` when the declared length exceeds
/// the bytes available, `ChecksumError` when the stored checksum is not
/// the CRC32 of the payload bytes, `BytesToStringError` when the payload
/// is not valid UTF-8.
pub open spec fn spec_decode_payload(data: Seq<u8>) -> Result<Seq<char>, ServerError> {
    if data.len() < 4 {
        Err(ServerError::BodySizeError)
    } else {
        let size = spec_u32_from_be_bytes(data.subrange(0, 4)) as int;
        if size == 0 {
            Ok(Seq::empty())
        } else if data.len() < 8 || size > data.len() - 8 {
            Err(ServerError::BodySizeError)
        } else {
            let checksum = spec_u32_from_be_bytes(data.subrange(4, 8));
            let body = data.subrange(8, 8 + size);
            if checksum != crc32_of(body) {
                Err(ServerError::ChecksumError)
            } else if !valid_utf8(body) {
                Err(ServerError::BytesToStringError)
            } else {
                Ok(decode_utf8(body))
            }
        }
    }
}

/// Build the body of a message: length, then checksum and payload when
/// the payload is non-empty.
pub fn build_message_body(body: Option<String>) -> (r: Vec<u8>)
    ensures
        r@ == spec_body_bytes(body.deep_view()),
{
    match body {
        None => u32_to_be_bytes(0),
        Some(data) => {
            let bytes: &[u8] = data.as_str().as_bytes();
            if bytes.len() == 0 {
                u32_to_be_bytes(0)
            } else if bytes.len() > u32::MAX as usize {
                Vec::new()
            } else {
                let mut r = u32_to_be_bytes(bytes.len() as u32);
                let mut checksum = u32_to_be_bytes(crc32(bytes));
                r.append(&mut checksum);
                r.extend_from_slice(bytes);
                proof {
                    assert(r@ =~= spec_body_bytes(Some(data@)));
                }
                r
            }
        },
    }
}

/// Decode the body of a message: extract the length, checksum and
/// payload, verifying the checksum and the UTF-8 encoding.
pub fn parse_message_payload(data: &[u8]) -> (r: Result<String, ServerError>)
    ensures
        spec_decode_payload(data@) matches Ok(p) ==> r matches Ok(s) && s@ == p,
        spec_decode_payload(data@) matches Err(e) ==> r matches Err(e2) && e2 == e,
{
    if data.len() < 4 {
        return Err(ServerError::BodySizeError);
    }
    let size = u32_from_be_bytes(data);
    if size == 0 {
        return Ok(String::new());
    }
    if data.len() < 8 || size as usize > data.len() - 8 {
        return Err(ServerError::BodySizeError);
    }
    let checksum_bytes = vstd::slice::slice_subrange(data, 4, 8);
    let remote_checksum = u32_from_be_bytes(checksum_bytes);
    let body = vstd::slice::slice_subrange(data, 8, 8 + size as usize);
    proof {
        assert(checksum_bytes@.subrange(0, 2) =~= data@.subrange(4, 6));
        assert(checksum_bytes@.subrange(0, 4) =~= data@.subrange(4, 8));
    }
    let local_checksum = crc32(body);
    if remote_checksum != local_checksum {
        return Err(ServerError::ChecksumError);
    }
    match bytes_to_string(body) {
        Some(s) => Ok(s),
        None => Err(ServerError::BytesToStringError),
    }
}

/// Read the two-byte message type code; unknown codes decode to
/// `Unsupported`, never a failure.
pub fn parse_message_type<'a>(data: &'a [u8]) -> (r: (MessageType, &'a [u8]))
    requires
        data@.len() >= 2,
    ensures
        r.0 == spec_message_type_of_code(spec_u16_from_be_bytes(data@.subrange(0, 2))),
        r.1@ == data@.subrange(2, data@.len() as int),
{
    let code = u16_from_be_bytes(data);
    let rest = vstd::slice::slice_subrange(data, 2, data.len());
    (message_type_of_code(code), rest)
}

/// Read the two-byte status code; unknown codes decode to
/// `UnexpectedError`, never a failure.
pub fn parse_status_code<'a>(data: &'a [u8]) -> (r: (StatusCode, &'a [u8]))
    requires
        data@.len() >= 2,
    ensures
        r.0 == spec_status_of_code(spec_u16_from_be_bytes(data@.subrange(0, 2))),
        r.1@ == data@.subrange(2, data@.len() as int),
{
    let code = u16_from_be_bytes(data);
    let rest = vstd::slice::slice_subrange(data, 2, data.len());
    (status_of_code(code), rest)
}

/// A non-empty string of characters never encodes to zero UTF-8 bytes.
proof fn lemma_encode_utf8_nonempty(p: Seq<char>)
    ensures
        p.len() > 0 ==> encode_utf8(p).len() > 0,
{
    if p.len() > 0 {
        assert(encode_scalar(p[0] as u32).len() >= 1);
        assert(encode_utf8(p) == encode_scalar(p[0] as u32) + encode_utf8(p.drop_first()));
    }
}

/// Round trip of the body framing: every payload whose UTF-8 encoding
/// fits the four-byte length field decodes back to itself.
pub proof fn lemma_body_round_trip(p: Seq<char>)
    requires
        encode_utf8(p).len() <= u32::MAX,
    ensures
        spec_decode_payload(spec_body_bytes(Some(p))) == Ok::<Seq<char>, ServerError>(p),
{
    lemma_u32_be_bytes_round_trip();
    let data = encode_utf8(p);
    if data.len() == 0 {
        lemma_encode_utf8_nonempty(p);
        assert(p =~= Seq::<char>::empty());
        let framed = spec_body_bytes(Some(p));
        assert(framed.subrange(0, 4) =~= spec_u32_to_be_bytes(0));
    } else {
        let framed = spec_u32_to_be_bytes(data.len() as u32) + spec_u32_to_be_bytes(
            crc32_of(data),
        ) + data;
        assert(spec_body_bytes(Some(p)) == framed);
        assert(framed.subrange(0, 4) =~= spec_u32_to_be_bytes(data.len() as u32));
        assert(framed.subrange(4, 8) =~= spec_u32_to_be_bytes(crc32_of(data)));
        assert(framed.subrange(8, 8 + data.len() as int) =~= data);
        encode_utf8_valid_utf8(p);
        encode_utf8_decode_utf8(p);
    }
}

/// A corrupted checksum is always caught: whenever the stored checksum
/// of a non-empty, length-consistent body differs from the CRC32 of the
/// payload bytes, decoding fails with `ChecksumError` and never yields a
/// payload.
pub proof fn lemma_corrupt_checksum_rejected(data: Seq<u8>)
    requires
        data.len() >= 8,
        spec_u32_from_be_bytes(data.subrange(0, 4)) != 0,
        spec_u32_from_be_bytes(data.subrange(0, 4)) <= data.len() - 8,
        spec_u32_from_be_bytes(data.subrange(4, 8)) != crc32_of(
            data.subrange(8, 8 + spec_u32_from_be_bytes(data.subrange(0, 4)) as int),
        ),
    ensures
        spec_decode_payload(data) == Err::<Seq<char>, ServerError>(ServerError::ChecksumError),
{
}

} // verus!
