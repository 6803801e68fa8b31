//! The two extension points of the client: protocol dialects and commands.
use vstd::prelude::*;

use crate::client::Session;
use crate::error::TdxError;
use crate::wire::{ByteReader, ByteWriter};

verus! {

/// A dialect of the server protocol. The commands of one dialect share the first byte of
/// the request header and the handshake.
pub trait Dialect: Sized + 'static {
    /// The first byte of every request header.
    const MARKER: u8;

    /// The handshake that must complete after connecting and before any other command.
    fn handshake<S: Session<Self>>(session: &mut S) -> Result<(), TdxError>;
}

/// A protocol command. An implementation describes only how its request body is written
/// and how its response body is read; framing, sequence numbers, compression and the
/// network are the client's.
pub trait Request: 'static {
    /// The dialect whose connections accept this command.
    type Dialect;

    /// What the decoded response is.
    type Response: 'static;

    /// The command number.
    const COMMAND: u16;

    /// Writes the request body that follows the command number.
    fn encode(&self, body: &mut ByteWriter) -> Result<(), TdxError>;

    /// Reads the decompressed response body.
    fn decode(&self, body: &mut ByteReader<'_>) -> Result<Self::Response, TdxError>;
}

} // verus!
