//! A client for the TDX (TongdaXin) market data protocol.
//!
//! Layers, from the bottom up; each depends only on those below it:
//!
//! - [`wire`]: reading and writing bytes, and the protocol's number encodings
//!   (variable-length prices, packed dates).
//! - [`frame`]: request and response headers and zlib bodies, independent of commands.
//! - [`Dialect`]: a dialect of the server protocol, which fixes the header marker byte
//!   and the handshake. The standard market server is [`standard::Standard`].
//! - [`Request`]: each protocol command is a type implementing `Request`, which writes
//!   its request body and reads its response body.
//! - [`Session`]: what runs commands; [`SessionState`] is the bookkeeping of one
//!   connection (sequence numbers, and whether a failure broke it).
pub mod client;
pub mod error;
pub mod frame;
pub mod request;
pub mod standard;
pub mod types;
pub mod wire;

pub use client::{check_response, Session, SessionState};
pub use error::TdxError;
pub use request::{Dialect, Request};
pub use types::{SecurityCode, TdxDate, TdxDateTime};
