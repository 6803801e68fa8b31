//! Packet framing, independent of any command.
//!
//! Request header (12 bytes):
//! `marker u8 | sequence u32 | 0x01 u8 | length u16 | length u16 | command u16`,
//! where both lengths count the command number and the request body.
//!
//! Response header (16 bytes):
//! `0x0074cbb1 u32 | marker u8 | sequence u32 | reserved u8 | command u16 |
//! compressed length u16 | raw length u16`; differing lengths mean a zlib body.
use std::io::Read;

use flate2::read::ZlibDecoder;
use vstd::prelude::*;
use vstd::string::StringExecFns;

use crate::error::TdxError;
use crate::wire::{
    le_u16_bytes, le_u16_value, le_u32_bytes, le_u32_value, lemma_u16_round_trip,
    lemma_u32_round_trip, parse_u16, parse_u32, ByteWriter,
};

verus! {

/// The size of a response header.
pub const RESPONSE_HEADER_LEN: usize = 16;

/// The first four bytes of every response header.
pub const RESPONSE_MAGIC: u32 = 0x0074_cbb1;

/// The fixed byte after the sequence number of a request header.
pub const REQUEST_FLAG: u8 = 0x01;

/// The packet for a request: header, then the command's body.
pub open spec fn request_packet(marker: u8, sequence: u32, command: u16, body: Seq<u8>) -> Seq<
    u8,
> {
    let length = (body.len() + 2) as u16;
    seq![marker] + le_u32_bytes(sequence) + seq![REQUEST_FLAG] + le_u16_bytes(length)
        + le_u16_bytes(length) + le_u16_bytes(command) + body
}

/// A request packet reads back as its header fields: the marker, the sequence number
/// as a little-endian `u32`, the request flag, twice the length of command and body as a
/// little-endian `u16`, the command as a little-endian `u16`, then the body itself.
pub proof fn lemma_request_packet_layout(marker: u8, sequence: u32, command: u16, body: Seq<u8>)
    requires
        body.len() <= 65533,
    ensures
        ({
            let packet = request_packet(marker, sequence, command, body);
            &&& packet.len() == 12 + body.len()
            &&& packet[0] == marker
            &&& parse_u32(packet.skip(1)) == Some((sequence, 4int))
            &&& packet[5] == REQUEST_FLAG
            &&& parse_u16(packet.skip(6)) == Some(((body.len() + 2) as u16, 2int))
            &&& parse_u16(packet.skip(8)) == Some(((body.len() + 2) as u16, 2int))
            &&& parse_u16(packet.skip(10)) == Some((command, 2int))
            &&& packet.skip(12) == body
        }),
{
    let length = (body.len() + 2) as u16;
    let packet = request_packet(marker, sequence, command, body);
    let t10 = le_u16_bytes(command) + body;
    let t8 = le_u16_bytes(length) + t10;
    let t6 = le_u16_bytes(length) + t8;
    let t1 = le_u32_bytes(sequence) + (seq![REQUEST_FLAG] + t6);
    assert(packet =~= seq![marker] + t1);
    assert(packet.skip(1) =~= t1);
    assert(packet.skip(6) =~= t6);
    assert(packet.skip(8) =~= t8);
    assert(packet.skip(10) =~= t10);
    assert(packet.skip(12) =~= body);
    lemma_u32_round_trip(sequence, seq![REQUEST_FLAG] + t6);
    lemma_u16_round_trip(length, t8);
    lemma_u16_round_trip(length, t10);
    lemma_u16_round_trip(command, body);
}

/// Frames a request body. The header's length field covers the command number and the
/// body, so the body may hold at most 65533 bytes; a longer one is an invalid argument.
pub fn encode_request(marker: u8, sequence: u32, command: u16, body: &[u8]) -> (r: Result<
    Vec<u8>,
    TdxError,
>)
    ensures
        body@.len() <= 65533 ==> (r matches Ok(packet) && packet@ == request_packet(
            marker,
            sequence,
            command,
            body@,
        )),
        body@.len() > 65533 ==> r matches Err(TdxError::InvalidArgument(_)),
{
    if body.len() > 65533 {
        let mut text = String::from_str("request body is too large: ");
        text.append(body.len().to_string().as_str());
        text.append(" bytes");
        return Err(TdxError::InvalidArgument(text));
    }
    let length = (body.len() + 2) as u16;
    let mut writer = ByteWriter::new();
    writer.u8(marker);
    writer.u32(sequence);
    writer.u8(REQUEST_FLAG);
    writer.u16(length);
    writer.u16(length);
    writer.u16(command);
    writer.bytes(body);
    let packet = vstd::slice::slice_to_vec(writer.as_slice());
    proof {
        assert(packet@ =~= request_packet(marker, sequence, command, body@));
    }
    Ok(packet)
}

/// The fields of a response header that the client acts on.
#[derive(Debug, PartialEq, Eq)]
pub struct ResponseHeader {
    pub sequence: u32,
    pub command: u16,
    pub body_len: usize,
    pub raw_len: usize,
}

/// The header that 16 header bytes describe, or `None` when the magic number is wrong.
pub open spec fn response_header_of(bytes: Seq<u8>) -> Option<ResponseHeader> {
    if le_u32_value(bytes) != RESPONSE_MAGIC {
        None
    } else {
        Some(
            ResponseHeader {
                sequence: le_u32_value(bytes.skip(5)) as u32,
                command: le_u16_value(bytes.skip(10)) as u16,
                body_len: le_u16_value(bytes.skip(12)) as usize,
                raw_len: le_u16_value(bytes.skip(14)) as usize,
            },
        )
    }
}

/// A response header reads back as the fields it carries: after the magic number and
/// the marker, the sequence number as a little-endian `u32`, a reserved byte, then the
/// command, the body's length and its raw length as little-endian `u16`s.
pub proof fn lemma_response_header_layout(
    marker: u8,
    sequence: u32,
    reserved: u8,
    command: u16,
    body_len: u16,
    raw_len: u16,
)
    ensures
        response_header_of(
            le_u32_bytes(RESPONSE_MAGIC) + seq![marker] + le_u32_bytes(sequence) + seq![reserved]
                + le_u16_bytes(command) + le_u16_bytes(body_len) + le_u16_bytes(raw_len),
        ) == Some(
            ResponseHeader {
                sequence,
                command,
                body_len: body_len as usize,
                raw_len: raw_len as usize,
            },
        ),
{
    let t14 = le_u16_bytes(raw_len);
    let t12 = le_u16_bytes(body_len) + t14;
    let t10 = le_u16_bytes(command) + t12;
    let t5 = le_u32_bytes(sequence) + (seq![reserved] + t10);
    let t0 = le_u32_bytes(RESPONSE_MAGIC) + (seq![marker] + t5);
    let b = le_u32_bytes(RESPONSE_MAGIC) + seq![marker] + le_u32_bytes(sequence) + seq![reserved]
        + le_u16_bytes(command) + le_u16_bytes(body_len) + le_u16_bytes(raw_len);
    assert(b =~= t0);
    assert(b.skip(5) =~= t5);
    assert(b.skip(10) =~= t10);
    assert(b.skip(12) =~= t12);
    assert(b.skip(14) =~= t14 + Seq::<u8>::empty());
    lemma_u32_round_trip(RESPONSE_MAGIC, seq![marker] + t5);
    lemma_u32_round_trip(sequence, seq![reserved] + t10);
    lemma_u16_round_trip(command, t12);
    lemma_u16_round_trip(body_len, t14);
    lemma_u16_round_trip(raw_len, Seq::<u8>::empty());
    assert(le_u32_value(b) == RESPONSE_MAGIC);
}

/// Decodes a response header; a wrong magic number is a framing error.
pub fn decode_response_header(bytes: &[u8; RESPONSE_HEADER_LEN]) -> (r: Result<
    ResponseHeader,
    TdxError,
>)
    ensures
        match response_header_of(bytes@) {
            Some(header) => r == Ok::<ResponseHeader, TdxError>(header),
            None => r matches Err(TdxError::Frame(_)),
        },
{
    let magic = bytes[0] as u32 + 256 * (bytes[1] as u32) + 65536 * (bytes[2] as u32) + 16777216
        * (bytes[3] as u32);
    if magic != RESPONSE_MAGIC {
        let mut text = String::from_str("unexpected response magic 0x");
        text.append(hex_text(magic, 8).as_str());
        return Err(TdxError::Frame(text));
    }
    let header = ResponseHeader {
        sequence: bytes[5] as u32 + 256 * (bytes[6] as u32) + 65536 * (bytes[7] as u32)
            + 16777216 * (bytes[8] as u32),
        command: bytes[10] as u16 + 256 * (bytes[11] as u16),
        body_len: bytes[12] as usize + 256 * (bytes[13] as usize),
        raw_len: bytes[14] as usize + 256 * (bytes[15] as usize),
    };
    proof {
        let s = bytes@;
        assert(s.skip(5)[0] == s[5] && s.skip(5)[1] == s[6] && s.skip(5)[2] == s[7] && s.skip(
            5,
        )[3] == s[8]);
        assert(s.skip(10)[0] == s[10] && s.skip(10)[1] == s[11]);
        assert(s.skip(12)[0] == s[12] && s.skip(12)[1] == s[13]);
        assert(s.skip(14)[0] == s[14] && s.skip(14)[1] == s[15]);
    }
    Ok(header)
}

/// `value` in lower-case hexadecimal, zero-padded to `width` digits (`{:0width$x}`).
/// Nothing is stated of the result: it only goes into error messages.
#[verifier::external_body]
pub(crate) fn hex_text(value: u32, width: usize) -> String {
    format!("{value:0width$x}")
}

/// What zlib decompression of `compressed` yields when at most `limit` bytes of output
/// are read: the bytes, or `None` when the stream is corrupt or incomplete.
pub uninterp spec fn zlib_inflate(compressed: Seq<u8>, limit: u64) -> Option<Seq<u8>>;

/// Inflates `compressed` with `flate2::read::ZlibDecoder`, reading through
/// `std::io::Read::take(limit)` to the end. The result is named [`zlib_inflate`]; the
/// documentation of `take` gives that no more than `limit` bytes come out. What the
/// decompressed bytes are is left to that name.
#[verifier::external_body]
fn inflate(compressed: &[u8], limit: u64) -> (r: Result<Vec<u8>, std::io::Error>)
    ensures
        r is Ok <==> zlib_inflate(compressed@, limit) is Some,
        r matches Ok(raw) ==> zlib_inflate(compressed@, limit) == Some(raw@) && raw@.len()
            <= limit,
{
    let mut raw = Vec::new();
    match ZlibDecoder::new(compressed).take(limit).read_to_end(&mut raw) {
        Ok(_) => Ok(raw),
        Err(error) => Err(error),
    }
}

/// Whether the lengths of a response body agree with its header and with the protocol's
/// 16-bit length fields.
pub open spec fn body_lengths_valid(header: ResponseHeader, body: Seq<u8>) -> bool {
    &&& body.len() == header.body_len
    &&& header.body_len <= 65535
    &&& header.raw_len <= 65535
}

/// Accepts the result of inflating a body whose header declared `raw_len` bytes: a
/// decompression failure, or any other length, is a framing error.
pub fn accept_inflated(raw_len: usize, inflated: Result<Vec<u8>, std::io::Error>) -> (r: Result<
    Vec<u8>,
    TdxError,
>)
    ensures
        match inflated {
            Ok(raw) => if raw@.len() == raw_len {
                r matches Ok(v) && v@ == raw@
            } else {
                r matches Err(TdxError::Frame(_))
            },
            Err(_) => r matches Err(TdxError::Frame(_)),
        },
{
    match inflated {
        Ok(raw) => {
            if raw.len() != raw_len {
                let mut text = String::from_str("decompressed ");
                text.append(raw.len().to_string().as_str());
                text.append(" bytes, header declared ");
                text.append(raw_len.to_string().as_str());
                Err(TdxError::Frame(text))
            } else {
                Ok(raw)
            }
        },
        Err(error) => {
            let mut text = String::from_str("zlib: ");
            text.append(error.to_string().as_str());
            Err(TdxError::Frame(text))
        },
    }
}

/// What becomes of a response body under its header: lengths that disagree are a
/// framing error; a body whose two lengths agree is returned as it is; any other is
/// inflated, reading at most one byte more than the declared raw length, and must come
/// out exactly that long.
pub open spec fn body_outcome(header: ResponseHeader, body: Seq<u8>, r: Result<Vec<u8>, TdxError>) -> bool {
    if !body_lengths_valid(header, body) {
        r matches Err(TdxError::Frame(_))
    } else if header.body_len == header.raw_len {
        r matches Ok(v) && v@ == body
    } else {
        match zlib_inflate(body, (header.raw_len + 1) as u64) {
            Some(raw) => if raw.len() == header.raw_len {
                r matches Ok(v) && v@ == raw
            } else {
                r matches Err(TdxError::Frame(_))
            },
            None => r matches Err(TdxError::Frame(_)),
        }
    }
}

/// The body of a response: returned as it is when the header's two lengths agree,
/// inflated otherwise (see [`body_outcome`]). Inflation reads at most one byte more than
/// the declared raw length, so an oversized stream is caught without expanding all of it.
pub fn decode_body(header: &ResponseHeader, body: Vec<u8>) -> (r: Result<Vec<u8>, TdxError>)
    ensures
        body_outcome(*header, body@, r),
{
    if body.len() != header.body_len || header.body_len > 65535 || header.raw_len > 65535 {
        return Err(TdxError::Frame(String::from_str("response body length is invalid")));
    }
    if header.body_len == header.raw_len {
        return Ok(body);
    }
    let inflated = inflate(body.as_slice(), header.raw_len as u64 + 1);
    accept_inflated(header.raw_len, inflated)
}

} // verus!
