//! Sessions: what runs a command, and the bookkeeping of one connection.
use vstd::prelude::*;
use vstd::string::StringExecFns;

use crate::error::TdxError;
use crate::frame::{
    body_outcome, decode_body, decode_response_header, encode_request, hex_text, request_packet,
    response_header_of, ResponseHeader, RESPONSE_HEADER_LEN,
};
use crate::request::Request;
use crate::wire::{ByteReader, ByteWriter};

verus! {

/// Something that runs protocol commands of dialect `D`. Business code depends on this
/// rather than on a concrete connection, so tests can use one without a network.
pub trait Session<D> {
    /// Sends `request` and decodes its response.
    fn call<R: Request<Dialect = D>>(&mut self, request: &R) -> Result<R::Response, TdxError>;
}

/// The sequence number after `sequence`, wrapping after `u32::MAX`.
pub open spec fn next_sequence(sequence: u32) -> u32 {
    if sequence == u32::MAX {
        0
    } else {
        (sequence + 1) as u32
    }
}

/// The bookkeeping of one connection: the sequence number of the next request, and
/// whether an earlier network or framing failure has made the position in the stream
/// untrustworthy. Once broken, a connection stays broken; it must be dropped and
/// opened again.
pub struct SessionState {
    next_sequence: u32,
    broken: bool,
}

impl SessionState {
    /// The sequence number the next request will carry.
    pub closed spec fn sequence(&self) -> u32 {
        self.next_sequence
    }

    /// Whether an earlier failure broke the connection.
    pub closed spec fn broken(&self) -> bool {
        self.broken
    }

    /// The state of a fresh connection: sequence numbers start at 1.
    pub fn new() -> (state: Self)
        ensures
            state.sequence() == 1,
            !state.broken(),
    {
        SessionState { next_sequence: 1, broken: false }
    }

    /// Whether an earlier failure broke the connection.
    pub fn is_broken(&self) -> (broken: bool)
        ensures
            broken == self.broken(),
    {
        self.broken
    }

    /// Refuses every call on a broken connection with [`TdxError::Broken`].
    pub fn ensure_usable(&self) -> (r: Result<(), TdxError>)
        ensures
            r is Ok <==> !self.broken(),
            r matches Err(error) ==> error is Broken,
    {
        if self.broken {
            Err(TdxError::Broken)
        } else {
            Ok(())
        }
    }

    /// Hands out the sequence number for the next request; the following one is the
    /// next number, wrapping after `u32::MAX`.
    pub fn take_sequence(&mut self) -> (sequence: u32)
        ensures
            sequence == old(self).sequence(),
            final(self).sequence() == next_sequence(old(self).sequence()),
            final(self).broken() == old(self).broken(),
    {
        let sequence = self.next_sequence;
        self.next_sequence = if sequence == u32::MAX {
            0
        } else {
            sequence + 1
        };
        sequence
    }

    /// Starts an exchange: takes the next sequence number and frames the request body
    /// with it. A body too large to frame is an invalid argument, and like every failure
    /// of an exchange it breaks the connection.
    pub fn start_exchange(&mut self, marker: u8, command: u16, body: &[u8]) -> (r: Result<
        (u32, Vec<u8>),
        TdxError,
    >)
        ensures
            final(self).sequence() == next_sequence(old(self).sequence()),
            final(self).broken() == (old(self).broken() || r is Err),
            body@.len() <= 65533 ==> (r matches Ok((sequence, packet)) && sequence == old(
                self,
            ).sequence() && packet@ == request_packet(marker, sequence, command, body@)),
            body@.len() > 65533 ==> r matches Err(TdxError::InvalidArgument(_)),
    {
        let sequence = self.take_sequence();
        match encode_request(marker, sequence, command, body) {
            Ok(packet) => Ok((sequence, packet)),
            Err(error) => {
                self.broken = true;
                Err(error)
            },
        }
    }

    /// Decodes the header of the response to the current exchange; a malformed header
    /// breaks the connection.
    pub fn accept_header(&mut self, bytes: &[u8; RESPONSE_HEADER_LEN]) -> (r: Result<
        ResponseHeader,
        TdxError,
    >)
        ensures
            final(self).sequence() == old(self).sequence(),
            final(self).broken() == (old(self).broken() || r is Err),
            match response_header_of(bytes@) {
                Some(header) => r == Ok::<ResponseHeader, TdxError>(header),
                None => r matches Err(TdxError::Frame(_)),
            },
    {
        let r = decode_response_header(bytes);
        if r.is_err() {
            self.broken = true;
        }
        r
    }

    /// Accepts the body of the response to the request sent with `sequence` and
    /// `command` (see [`check_response`]); a failure breaks the connection.
    pub fn accept_body(
        &mut self,
        sequence: u32,
        command: u16,
        header: &ResponseHeader,
        payload: Vec<u8>,
    ) -> (r: Result<Vec<u8>, TdxError>)
        ensures
            final(self).sequence() == old(self).sequence(),
            final(self).broken() == (old(self).broken() || r is Err),
            header.sequence != sequence || header.command != command ==> r matches Err(
                TdxError::Frame(_),
            ),
            header.sequence == sequence && header.command == command ==> body_outcome(
                *header,
                payload@,
                r,
            ),
    {
        let r = check_response(sequence, command, header, payload);
        if r.is_err() {
            self.broken = true;
        }
        r
    }

    /// Starts a call of `request` on a connection whose requests carry `marker`: a
    /// broken connection refuses it with [`TdxError::Broken`], encodes nothing and
    /// stays as it is; otherwise the request body is encoded and the outcome handed to
    /// [`Self::after_encoding`].
    pub fn begin_call<R: Request>(&mut self, marker: u8, request: &R) -> (r: Result<
        (u32, Vec<u8>),
        TdxError,
    >)
        ensures
            old(self).broken() ==> (r matches Err(TdxError::Broken) && final(self).sequence()
                == old(self).sequence() && final(self).broken()),
            !old(self).broken() ==> {
                ||| (r is Err && final(self).sequence() == old(self).sequence()
                    && !final(self).broken())
                ||| (final(self).sequence() == next_sequence(old(self).sequence())
                    && final(self).broken() == r is Err && (r matches Ok((sequence, packet))
                    ==> sequence == old(self).sequence() && exists|body: Seq<u8>|
                    packet@ == request_packet(marker, sequence, R::COMMAND, body)))
            },
    {
        if self.broken {
            return Err(TdxError::Broken);
        }
        let mut body = ByteWriter::new();
        let encoded = request.encode(&mut body);
        self.after_encoding(marker, R::COMMAND, encoded, body.as_slice())
    }

    /// Goes on from the encoding of a request body: an encoding error is returned as it
    /// is, with no sequence number taken and the connection left as it was; an encoded
    /// `body` is framed by [`Self::start_exchange`].
    pub fn after_encoding(
        &mut self,
        marker: u8,
        command: u16,
        encoded: Result<(), TdxError>,
        body: &[u8],
    ) -> (r: Result<(u32, Vec<u8>), TdxError>)
        ensures
            encoded matches Err(error) ==> (r == Err::<(u32, Vec<u8>), TdxError>(error)
                && final(self).sequence() == old(self).sequence() && final(self).broken()
                == old(self).broken()),
            encoded is Ok ==> {
                &&& final(self).sequence() == next_sequence(old(self).sequence())
                &&& final(self).broken() == (old(self).broken() || r is Err)
                &&& body@.len() <= 65533 ==> (r matches Ok((sequence, packet)) && sequence
                    == old(self).sequence() && packet@ == request_packet(
                    marker,
                    sequence,
                    command,
                    body@,
                ))
                &&& body@.len() > 65533 ==> r matches Err(TdxError::InvalidArgument(_))
            },
    {
        match encoded {
            Err(error) => Err(error),
            Ok(()) => self.start_exchange(marker, command, body),
        }
    }

    /// Finishes the call of `request` begun with `sequence`: the response is accepted as
    /// [`Self::accept_body`] does, a failure there breaking the connection, and then
    /// decoded by the request; a decoding error is returned and leaves the connection
    /// usable.
    pub fn finish_call<R: Request>(
        &mut self,
        request: &R,
        sequence: u32,
        header: &ResponseHeader,
        payload: Vec<u8>,
    ) -> (r: Result<R::Response, TdxError>)
        ensures
            final(self).sequence() == old(self).sequence(),
            header.sequence != sequence || header.command != R::COMMAND ==> (r matches Err(
                TdxError::Frame(_),
            ) && final(self).broken()),
            header.sequence == sequence && header.command == R::COMMAND ==> exists|
                accepted: Result<Vec<u8>, TdxError>,
            |
                {
                    &&& body_outcome(*header, payload@, accepted)
                    &&& final(self).broken() == (old(self).broken() || accepted is Err)
                    &&& accepted matches Err(error) ==> (r matches Err(e) && e == error)
                },
    {
        let accepted = self.accept_body(sequence, R::COMMAND, header, payload);
        match accepted {
            Err(error) => Err(error),
            Ok(body) => {
                let mut reader = ByteReader::new(body.as_slice());
                request.decode(&mut reader)
            },
        }
    }

    /// Records a network or framing failure: from now on the connection is broken.
    pub fn mark_broken(&mut self)
        ensures
            final(self).broken(),
            final(self).sequence() == old(self).sequence(),
    {
        self.broken = true;
    }
}

/// Accepts the response to the request sent with `sequence` and `command`: a header for
/// any other request is a framing error; otherwise the body is decoded as
/// [`decode_body`] does.
pub fn check_response(sequence: u32, command: u16, header: &ResponseHeader, payload: Vec<u8>) -> (r:
    Result<Vec<u8>, TdxError>)
    ensures
        header.sequence != sequence || header.command != command ==> r matches Err(
            TdxError::Frame(_),
        ),
        header.sequence == sequence && header.command == command ==> body_outcome(
            *header,
            payload@,
            r,
        ),
{
    if header.sequence != sequence || header.command != command {
        let mut text = String::from_str("response for sequence ");
        text.append(header.sequence.to_string().as_str());
        text.append(" command 0x");
        text.append(hex_text(header.command as u32, 4).as_str());
        text.append(" does not match request ");
        text.append(sequence.to_string().as_str());
        text.append(" 0x");
        text.append(hex_text(command as u32, 4).as_str());
        return Err(TdxError::Frame(text));
    }
    decode_body(header, payload)
}

} // verus!
