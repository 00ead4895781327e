//! Errors raised by the ingestion side of the observer.

use vstd::prelude::*;

verus! {

/// A condition fatal to the current transport connection.
#[derive(Clone, Copy, Debug, PartialEq, Eq, Structural)]
pub enum ObserverError {
    /// A binary frame arrived on the text protocol.
    SocketBinary,
    /// The peer closed the connection.
    SocketClosed,
    /// A text frame did not decode as a block notification.
    BlockDecode,
}

impl ObserverError {
    /// A human-readable description of the error.
    pub fn message(&self) -> (r: String)
        ensures
            r@ == match self {
                ObserverError::SocketBinary => "Socket Binary Message Unexpected"@,
                ObserverError::SocketClosed => "Socket Closed"@,
                ObserverError::BlockDecode => "Error parsing block"@,
            },
    {
        match self {
            ObserverError::SocketBinary => "Socket Binary Message Unexpected".to_owned(),
            ObserverError::SocketClosed => "Socket Closed".to_owned(),
            ObserverError::BlockDecode => "Error parsing block".to_owned(),
        }
    }
}

} // verus!
