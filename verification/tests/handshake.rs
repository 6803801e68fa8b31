use tdx::standard::{Market, SetupStage, Standard};
use tdx::wire::{ByteReader, ByteWriter};
use tdx::{Dialect, Request, Session, TdxError};

#[derive(Default)]
struct HandshakeRecorder {
    commands: Vec<u16>,
    bodies: Vec<Vec<u8>>,
}

impl Session<Standard> for HandshakeRecorder {
    fn call<R: Request<Dialect = Standard>>(&mut self, request: &R) -> Result<R::Response, TdxError> {
        self.commands.push(R::COMMAND);
        let mut body = ByteWriter::new();
        request.encode(&mut body)?;
        self.bodies.push(body.as_slice().to_vec());
        request.decode(&mut ByteReader::new(&[]))
    }
}

#[test]
fn standard_handshake_uses_only_the_two_current_setup_stages() {
    let mut session = HandshakeRecorder::default();
    Standard::handshake(&mut session).unwrap();
    assert_eq!(session.commands, [0x000d, 0x000d]);
}

#[test]
fn setup_stages_send_their_numbers_in_order() {
    let mut session = HandshakeRecorder::default();
    Standard::handshake(&mut session).unwrap();
    assert_eq!(session.bodies, vec![vec![1], vec![2]]);
    let mut body = ByteWriter::new();
    SetupStage::second().encode(&mut body).unwrap();
    assert_eq!(body.as_slice(), &[2]);
    assert_eq!(Standard::MARKER, 0x0c);
}

struct Failing;

impl Session<Standard> for Failing {
    fn call<R: Request<Dialect = Standard>>(&mut self, _request: &R) -> Result<R::Response, TdxError> {
        Err(TdxError::Broken)
    }
}

#[test]
fn handshake_stops_at_the_first_failure() {
    assert!(matches!(Standard::handshake(&mut Failing), Err(TdxError::Broken)));
}

#[test]
fn market_codes_round_trip() {
    for market in [Market::Shenzhen, Market::Shanghai, Market::Beijing] {
        assert_eq!(Market::from_code(market.code()), Some(market));
    }
    assert_eq!(Market::Beijing.code(), 2);
    assert_eq!(Market::from_code(3), None);
}

#[test]
fn each_answer_decides_the_next_stage() {
    let next = SetupStage::first().after_reply(Ok(())).unwrap().unwrap();
    let mut body = ByteWriter::new();
    next.encode(&mut body).unwrap();
    assert_eq!(body.as_slice(), &[2]);
    assert!(next.after_reply(Ok(())).unwrap().is_none());
    assert!(matches!(
        SetupStage::first().after_reply(Err(TdxError::Broken)),
        Err(TdxError::Broken)
    ));
}

/// Answers stage 1 and fails stage 2 with a decode error.
#[derive(Default)]
struct FailsSecondStage {
    bodies: Vec<Vec<u8>>,
}

impl Session<Standard> for FailsSecondStage {
    fn call<R: Request<Dialect = Standard>>(&mut self, request: &R) -> Result<R::Response, TdxError> {
        let mut body = ByteWriter::new();
        request.encode(&mut body)?;
        self.bodies.push(body.as_slice().to_vec());
        if self.bodies.len() == 2 {
            return Err(TdxError::Decode("stage 2 refused".into()));
        }
        request.decode(&mut ByteReader::new(&[]))
    }
}

#[test]
fn handshake_returns_the_second_stage_error_unchanged() {
    let mut session = FailsSecondStage::default();
    match Standard::handshake(&mut session) {
        Err(TdxError::Decode(message)) => assert_eq!(message, "stage 2 refused"),
        other => panic!("unexpected outcome: {other:?}"),
    }
    assert_eq!(session.bodies, vec![vec![1], vec![2]]);
}
