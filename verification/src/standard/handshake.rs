use vstd::prelude::*;

use super::Standard;
use crate::error::TdxError;
use crate::request::Request;
use crate::wire::{ByteReader, ByteWriter};

verus! {

/// A session-setup stage of the handshake; stages 1 and 2 are sent in turn.
pub struct SetupStage(u8);

impl SetupStage {
    /// Setup stage 1.
    pub fn first() -> (stage: Self)
        ensures
            stage.stage() == 1,
    {
        SetupStage(1)
    }

    /// Setup stage 2.
    pub fn second() -> (stage: Self)
        ensures
            stage.stage() == 2,
    {
        SetupStage(2)
    }

    /// The stage number that the request carries.
    pub closed spec fn stage(&self) -> u8 {
        self.0
    }

    /// The handshake's next step once the server has answered this stage: a failed
    /// answer ends the handshake with that error; a successful answer to stage 1 leads
    /// to stage 2; a successful answer to any later stage completes the handshake.
    pub fn after_reply(&self, reply: Result<(), TdxError>) -> (step: Result<
        Option<SetupStage>,
        TdxError,
    >)
        ensures
            reply matches Err(error) ==> step == Err::<Option<SetupStage>, TdxError>(error),
            reply is Ok && self.stage() == 1 ==> (step matches Ok(Some(next)) && next.stage()
                == 2),
            reply is Ok && self.stage() != 1 ==> step matches Ok(None),
    {
        match reply {
            Err(error) => Err(error),
            Ok(()) => {
                if self.0 == 1 {
                    Ok(Some(SetupStage::second()))
                } else {
                    Ok(None)
                }
            },
        }
    }
}

impl Request for SetupStage {
    type Dialect = Standard;

    type Response = ();

    const COMMAND: u16 = 0x000d;

    /// The body is the stage number alone.
    fn encode(&self, body: &mut ByteWriter) -> (r: Result<(), TdxError>)
        ensures
            r is Ok,
            final(body)@ == old(body)@.push(self.stage()),
    {
        body.u8(self.0);
        Ok(())
    }

    /// The response carries nothing of use; nothing is read.
    fn decode(&self, body: &mut ByteReader<'_>) -> (r: Result<(), TdxError>)
        ensures
            r is Ok,
            *final(body) == *old(body),
    {
        Ok(())
    }
}

} // verus!
