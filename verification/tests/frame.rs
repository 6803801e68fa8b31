use std::io::Write;

use flate2::write::ZlibEncoder;
use flate2::Compression;

use tdx::frame::{accept_inflated, decode_body, decode_response_header, encode_request, ResponseHeader};
use tdx::wire::{ByteReader, ByteWriter};
use tdx::standard::{BarPeriod, Market, SecurityBars};
use tdx::{check_response, Request, SecurityCode, SessionState, TdxError};

#[test]
fn request_header_carries_marker_sequence_length_and_command() {
    let packet = encode_request(0x0c, 0x1122_3344, 0x052d, &[0xaa, 0xbb]).unwrap();
    assert_eq!(
        packet,
        [0x0c, 0x44, 0x33, 0x22, 0x11, 0x01, 0x04, 0x00, 0x04, 0x00, 0x2d, 0x05, 0xaa, 0xbb]
    );
}

#[test]
fn response_header_matches_live_host_layout() {
    // A header returned by a live host for a daily-bar request with sequence 0x11223344.
    let bytes = [
        0xb1, 0xcb, 0x74, 0x00, 0x0c, 0x44, 0x33, 0x22, 0x11, 0x00, 0x2d, 0x05, 0x28, 0x00, 0x28,
        0x00,
    ];
    assert_eq!(
        decode_response_header(&bytes).unwrap(),
        ResponseHeader {
            sequence: 0x1122_3344,
            command: 0x052d,
            body_len: 40,
            raw_len: 40
        }
    );
    let mut corrupt = bytes;
    corrupt[0] = 0;
    assert!(decode_response_header(&corrupt).is_err());
}

#[test]
fn compressed_body_is_inflated_and_length_checked() {
    let raw = b"tradeflow lite tdx body".repeat(8);
    let mut encoder = ZlibEncoder::new(Vec::new(), Compression::default());
    encoder.write_all(&raw).unwrap();
    let compressed = encoder.finish().unwrap();
    let header = ResponseHeader {
        sequence: 1,
        command: 1,
        body_len: compressed.len(),
        raw_len: raw.len(),
    };
    assert_eq!(decode_body(&header, compressed.clone()).unwrap(), raw);
    let wrong = ResponseHeader {
        raw_len: raw.len() + 1,
        ..header
    };
    assert!(decode_body(&wrong, compressed).is_err());
}

#[test]
fn compressed_expansion_stops_at_the_declared_output_budget() {
    let mut encoder = ZlibEncoder::new(Vec::new(), Compression::default());
    encoder.write_all(&vec![0; 512 * 1024]).unwrap();
    let compressed = encoder.finish().unwrap();
    let header = ResponseHeader {
        sequence: 1,
        command: 1,
        body_len: compressed.len(),
        raw_len: 1024,
    };
    let error = decode_body(&header, compressed).unwrap_err().to_string();
    assert!(
        error.contains("1025"),
        "decoder must stop at declared length + 1, not fully inflate: {error}"
    );
}

#[test]
fn truncated_zlib_and_wrong_plain_lengths_are_rejected() {
    let raw = b"bounded tdx response".repeat(100);
    let mut encoder = ZlibEncoder::new(Vec::new(), Compression::default());
    encoder.write_all(&raw).unwrap();
    let mut compressed = encoder.finish().unwrap();
    compressed.truncate(compressed.len() - 2);
    let header = ResponseHeader {
        sequence: 1,
        command: 1,
        body_len: compressed.len(),
        raw_len: raw.len(),
    };
    assert!(
        decode_body(&header, compressed).is_err(),
        "missing zlib checksum is not a complete response"
    );
    let plain = ResponseHeader {
        sequence: 1,
        command: 1,
        body_len: 2,
        raw_len: 2,
    };
    assert!(decode_body(&plain, vec![1]).is_err());
    assert_eq!(decode_body(&plain, vec![1, 2]).unwrap(), vec![1, 2]);
}

#[test]
fn maximum_protocol_output_still_decodes() {
    let raw = vec![42; u16::MAX as usize];
    let mut encoder = ZlibEncoder::new(Vec::new(), Compression::default());
    encoder.write_all(&raw).unwrap();
    let compressed = encoder.finish().unwrap();
    let header = ResponseHeader {
        sequence: 1,
        command: 1,
        body_len: compressed.len(),
        raw_len: raw.len(),
    };
    assert_eq!(decode_body(&header, compressed).unwrap(), raw);
}

#[test]
fn oversized_request_body_is_an_invalid_argument() {
    assert!(encode_request(0x0c, 1, 1, &vec![0; 65_533]).is_ok());
    assert!(matches!(
        encode_request(0x0c, 1, 1, &vec![0; 65_534]),
        Err(TdxError::InvalidArgument(_))
    ));
}

#[test]
fn bad_magic_is_reported_in_hex() {
    let mut bytes = [0u8; 16];
    bytes[0] = 0x12;
    bytes[1] = 0xab;
    let error = decode_response_header(&bytes).unwrap_err();
    assert_eq!(error.to_string(), "frame: unexpected response magic 0x0000ab12");
}

#[test]
fn declared_lengths_beyond_sixteen_bits_are_a_frame_error() {
    let header = ResponseHeader {
        sequence: 1,
        command: 1,
        body_len: 70_000,
        raw_len: 70_000,
    };
    assert!(matches!(
        decode_body(&header, vec![0; 70_000]),
        Err(TdxError::Frame(_))
    ));
}

#[test]
fn accepted_inflation_must_have_the_declared_length() {
    assert_eq!(accept_inflated(3, Ok(vec![1, 2, 3])).unwrap(), vec![1, 2, 3]);
    let error = accept_inflated(2, Ok(vec![1, 2, 3])).unwrap_err();
    assert_eq!(error.to_string(), "frame: decompressed 3 bytes, header declared 2");
    let failure = std::io::Error::new(std::io::ErrorKind::InvalidData, "corrupt deflate stream");
    let error = accept_inflated(2, Err(failure)).unwrap_err();
    assert_eq!(error.to_string(), "frame: zlib: corrupt deflate stream");
}

#[test]
fn responses_for_another_request_are_rejected() {
    let header = ResponseHeader {
        sequence: 8,
        command: 0x1234,
        body_len: 1,
        raw_len: 1,
    };
    let error = check_response(1, 0x1234, &header, vec![0]).unwrap_err();
    assert_eq!(
        error.to_string(),
        "frame: response for sequence 8 command 0x1234 does not match request 1 0x1234"
    );
    assert!(check_response(8, 0x1235, &header, vec![0]).is_err());
    assert_eq!(check_response(8, 0x1234, &header, vec![42]).unwrap(), vec![42]);
}

#[test]
fn a_broken_session_refuses_every_later_call() {
    let mut state = SessionState::new();
    assert!(state.ensure_usable().is_ok());
    assert_eq!(state.take_sequence(), 1);
    assert_eq!(state.take_sequence(), 2);
    state.mark_broken();
    assert!(state.is_broken());
    assert!(matches!(state.ensure_usable(), Err(TdxError::Broken)));
    assert_eq!(state.take_sequence(), 3);
    assert!(matches!(state.ensure_usable(), Err(TdxError::Broken)));
    assert_eq!(
        TdxError::Broken.to_string(),
        "connection is broken by an earlier error"
    );
}

#[test]
fn exchange_failures_break_the_session() {
    let mut state = SessionState::new();
    let (sequence, packet) = state.start_exchange(0x0c, 0x052d, &[0xaa]).unwrap();
    assert_eq!(sequence, 1);
    assert_eq!(packet, encode_request(0x0c, 1, 0x052d, &[0xaa]).unwrap());
    assert!(!state.is_broken());
    let mut header = [0u8; 16];
    header[..4].copy_from_slice(&[0xb1, 0xcb, 0x74, 0x00]);
    header[5] = 1;
    header[10..12].copy_from_slice(&0x052du16.to_le_bytes());
    header[12] = 1;
    header[14] = 1;
    let decoded = state.accept_header(&header).unwrap();
    assert_eq!(state.accept_body(sequence, 0x052d, &decoded, vec![9]).unwrap(), vec![9]);
    assert!(!state.is_broken());
    assert!(state.accept_body(sequence + 1, 0x052d, &decoded, vec![9]).is_err());
    assert!(state.is_broken());

    let mut state = SessionState::new();
    assert!(state.accept_header(&[0u8; 16]).is_err());
    assert!(matches!(state.ensure_usable(), Err(TdxError::Broken)));

    let mut state = SessionState::new();
    assert!(state.start_exchange(0x0c, 1, &vec![0; 70_000]).is_err());
    assert!(state.is_broken());
    assert_eq!(state.take_sequence(), 2, "the failed exchange used sequence 1");
}

struct Ping(u8);

impl Request for Ping {
    type Dialect = ();
    type Response = u8;
    const COMMAND: u16 = 0x1234;

    fn encode(&self, body: &mut ByteWriter) -> Result<(), TdxError> {
        body.u8(self.0);
        Ok(())
    }

    fn decode(&self, body: &mut ByteReader<'_>) -> Result<u8, TdxError> {
        body.u8()
    }
}

/// The header of a response to `sequence` and `command` carrying `body` uncompressed.
fn response_header(sequence: u32, command: u16, body: &[u8]) -> [u8; 16] {
    let mut header = [0u8; 16];
    header[..5].copy_from_slice(&[0xb1, 0xcb, 0x74, 0x00, 0x0c]);
    header[5..9].copy_from_slice(&sequence.to_le_bytes());
    header[10..12].copy_from_slice(&command.to_le_bytes());
    header[12..14].copy_from_slice(&(body.len() as u16).to_le_bytes());
    header[14..16].copy_from_slice(&(body.len() as u16).to_le_bytes());
    header
}

#[test]
fn client_frames_requests_and_rejects_mismatched_responses() {
    let mut state = SessionState::new();
    let (sequence, request) = state.begin_call(0x0c, &Ping(41)).unwrap();
    assert_eq!(request.len(), 13);
    assert_eq!(request[0], 0x0c);
    assert_eq!(&request[10..12], &[0x34, 0x12]);
    assert_eq!(request[12], 41);
    let answer = [request[12] + 1];
    let header = state.accept_header(&response_header(sequence, 0x1234, &answer)).unwrap();
    assert_eq!(state.finish_call(&Ping(41), sequence, &header, answer.to_vec()).unwrap(), 42);

    let (sequence, _) = state.begin_call(0x0c, &Ping(1)).unwrap();
    let header = state.accept_header(&response_header(sequence + 7, 0x1234, &[0])).unwrap();
    assert!(matches!(
        state.finish_call(&Ping(1), sequence, &header, vec![0]),
        Err(TdxError::Frame(_))
    ));
    assert!(matches!(state.begin_call(0x0c, &Ping(1)), Err(TdxError::Broken)));
    assert_eq!(state.take_sequence(), 3, "a refused call takes no sequence number");
}

#[test]
fn a_decode_error_leaves_the_session_usable() {
    let mut state = SessionState::new();
    let (sequence, _) = state.begin_call(0x0c, &Ping(5)).unwrap();
    let header = state.accept_header(&response_header(sequence, 0x1234, &[])).unwrap();
    assert!(matches!(
        state.finish_call(&Ping(5), sequence, &header, Vec::new()),
        Err(TdxError::Decode(_))
    ));
    assert!(!state.is_broken());
    assert!(state.begin_call(0x0c, &Ping(6)).is_ok());
}

#[test]
fn an_encoding_error_is_returned_without_taking_a_sequence_number() {
    let mut state = SessionState::new();
    let refused = SecurityBars {
        market: Market::Shanghai,
        code: SecurityCode::new("600000").unwrap(),
        period: BarPeriod::Day,
        offset: 0,
        count: 0,
    };
    assert!(matches!(state.begin_call(0x0c, &refused), Err(TdxError::InvalidArgument(_))));
    assert!(!state.is_broken());
    let (sequence, _) = state.begin_call(0x0c, &Ping(1)).unwrap();
    assert_eq!(sequence, 1);

    let mut state = SessionState::new();
    let outcome = state.after_encoding(0x0c, 0x1234, Err(TdxError::Decode("no".into())), &[]);
    assert!(matches!(outcome, Err(TdxError::Decode(message)) if message == "no"));
    assert!(!state.is_broken());
    assert_eq!(state.take_sequence(), 1);
    let (sequence, packet) = state.after_encoding(0x0c, 0x1234, Ok(()), &[7]).unwrap();
    assert_eq!(sequence, 2);
    assert_eq!(packet, encode_request(0x0c, 2, 0x1234, &[7]).unwrap());
}
