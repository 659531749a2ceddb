//! Errors of the transport and gossip layers.

use vstd::prelude::*;

verus! {

/// Errors of the transport layer.
#[derive(Debug, PartialEq, Eq)]
pub enum TransportError {
    Connection(String),
    Tls(String),
    Send(String),
    Subscribe(String),
    Io(String),
    NotImplemented(String),
}

impl TransportError {
    /// The text of this error.
    pub open spec fn message_text(self) -> Seq<char> {
        match self {
            TransportError::Connection(s) => "connection failed: "@ + s@,
            TransportError::Tls(s) => "tls handshake failed: "@ + s@,
            TransportError::Send(s) => "send failed: "@ + s@,
            TransportError::Subscribe(s) => "subscribe failed: "@ + s@,
            TransportError::Io(s) => "transport IO error: "@ + s@,
            TransportError::NotImplemented(s) => "not implemented: "@ + s@,
        }
    }

    /// The text of this error.
    pub fn message(&self) -> (text: String)
        ensures
            text@ == self.message_text(),
    {
        match self {
            TransportError::Connection(s) => String::from_str("connection failed: ").concat(
                s.as_str(),
            ),
            TransportError::Tls(s) => String::from_str("tls handshake failed: ").concat(s.as_str()),
            TransportError::Send(s) => String::from_str("send failed: ").concat(s.as_str()),
            TransportError::Subscribe(s) => String::from_str("subscribe failed: ").concat(
                s.as_str(),
            ),
            TransportError::Io(s) => String::from_str("transport IO error: ").concat(s.as_str()),
            TransportError::NotImplemented(s) => String::from_str("not implemented: ").concat(
                s.as_str(),
            ),
        }
    }
}

/// Errors of the gossip layer.
#[derive(Debug, PartialEq, Eq)]
pub enum GossipError {
    InvalidUpdate(String),
    IncarnationConflict(String),
    Io(String),
    NotImplemented(String),
}

impl GossipError {
    /// The text of this error.
    pub open spec fn message_text(self) -> Seq<char> {
        match self {
            GossipError::InvalidUpdate(s) => "invalid update: "@ + s@,
            GossipError::IncarnationConflict(s) => "incarnation conflict: "@ + s@,
            GossipError::Io(s) => "gossip IO error: "@ + s@,
            GossipError::NotImplemented(s) => "not implemented: "@ + s@,
        }
    }

    /// The text of this error.
    pub fn message(&self) -> (text: String)
        ensures
            text@ == self.message_text(),
    {
        match self {
            GossipError::InvalidUpdate(s) => String::from_str("invalid update: ").concat(s.as_str()),
            GossipError::IncarnationConflict(s) => String::from_str(
                "incarnation conflict: ",
            ).concat(s.as_str()),
            GossipError::Io(s) => String::from_str("gossip IO error: ").concat(s.as_str()),
            GossipError::NotImplemented(s) => String::from_str("not implemented: ").concat(
                s.as_str(),
            ),
        }
    }
}

} // verus!
