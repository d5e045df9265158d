//! The errors of the client and of the server.
use vstd::prelude::*;

use crate::codec::DecodeError;
use crate::frame::FramingError;

verus! {

/// What can go wrong in the client.
#[derive(Debug, PartialEq, Eq)]
pub enum ClientError {
    /// Reading or writing a file, the terminal or the socket failed.
    Io(String),
    /// A received payload is not an encoded message.
    Serialization(DecodeError),
    /// The user typed something that cannot be sent.
    InvalidInput(String),
    /// The server could not be reached or refused the client.
    ConnectionError(String),
    /// Anything else, such as a send abandoned after waiting too long.
    Other(String),
}

/// What can go wrong in the server.
#[derive(Debug, PartialEq, Eq)]
pub enum ServerError {
    /// The socket failed or was closed.
    Io(String),
    /// A frame was cut short.
    Framing(FramingError),
    /// A payload is not an encoded message.
    Decode(DecodeError),
    /// The connection presented the wrong secret.
    Auth,
    /// A connection's send path stayed busy too long; the message was dropped.
    SendTimeout,
    /// The message store failed.
    Database(String),
    /// Anything else.
    Other(String),
}

/// The errors after which a connection cannot go on.
pub open spec fn spec_is_connection_fatal(e: ServerError) -> bool {
    match e {
        ServerError::Io(_) | ServerError::Framing(_) | ServerError::Auth => true,
        _ => false,
    }
}

impl ServerError {
    /// Whether the connection on which this happened must be closed and
    /// forgotten. A malformed message or a send that timed out is only
    /// reported, and the connection goes on.
    pub fn is_connection_fatal(&self) -> (r: bool)
        ensures
            r == spec_is_connection_fatal(*self),
    {
        match self {
            ServerError::Io(_) | ServerError::Framing(_) | ServerError::Auth => true,
            _ => false,
        }
    }
}

} // verus!
