use vstd::prelude::*;
use vstd::string::StringExecFns;

verus! {

#[verifier::external_type_specification]
#[verifier::external_body]
pub struct ExIoError(std::io::Error);

/// Every way a call on a TDX connection can fail.
#[derive(Debug)]
pub enum TdxError {
    /// Connecting, reading, writing or a timeout.
    Io(std::io::Error),
    /// The response header is malformed or does not belong to the request just sent.
    Frame(String),
    /// The response body does not have the length or content its command prescribes.
    Decode(String),
    /// A call argument is outside what the protocol allows.
    InvalidArgument(String),
    /// The connection failed earlier; its stream position cannot be trusted.
    Broken,
}

impl TdxError {
    /// The human-readable description of the error: a prefix naming the kind,
    /// then the message it carries.
    pub fn to_string(&self) -> (text: String)
        ensures
            self matches TdxError::Frame(m) ==> text@ == "frame: "@ + m@,
            self matches TdxError::Decode(m) ==> text@ == "decode: "@ + m@,
            self matches TdxError::InvalidArgument(m) ==> text@ == "invalid argument: "@ + m@,
            self matches TdxError::Broken ==> text@ == "connection is broken by an earlier error"@,
            self matches TdxError::Io(_) ==> text@.len() >= "io: "@.len() && text@.take(4) == "io: "@,
    {
        match self {
            TdxError::Io(error) => {
                let mut text = String::from_str("io: ");
                let detail = error.to_string();
                proof { reveal_strlit("io: "); }
                text.append(detail.as_str());
                text
            },
            TdxError::Frame(message) => prefixed("frame: ", message),
            TdxError::Decode(message) => prefixed("decode: ", message),
            TdxError::InvalidArgument(message) => prefixed("invalid argument: ", message),
            TdxError::Broken => String::from_str("connection is broken by an earlier error"),
        }
    }
}

fn prefixed(prefix: &str, message: &String) -> (text: String)
    ensures
        text@ == prefix@ + message@,
{
    let mut text = String::from_str(prefix);
    text.append(message.as_str());
    text
}

impl vstd::std_specs::convert::FromSpecImpl<std::io::Error> for TdxError {
    open spec fn obeys_from_spec() -> bool {
        true
    }

    open spec fn from_spec(error: std::io::Error) -> Self {
        TdxError::Io(error)
    }
}

impl From<std::io::Error> for TdxError {
    fn from(error: std::io::Error) -> (converted: Self) {
        TdxError::Io(error)
    }
}

} // verus!
