//! The network error taxonomy.
//!
//! Protocol errors carry a stable numeric code for the wire `Error` message.
//! Lower-level identity is kept rather than flattened into text.

use vstd::prelude::*;
use vstd::string::*;

use crate::base::error::{Error, ErrorView};
use crate::base::ids::ConnectionId;
use crate::base::text::{decimal, join, number, with_number};
use crate::runtime::error::{RuntimeError, RuntimeErrorView};

verus! {

/// A failure while decoding or validating a protocol frame.
#[derive(Debug, PartialEq, Eq)]
pub enum ProtocolError {
    /// The frame did not start with the magic.
    BadMagic,
    /// The client negotiated an unsupported protocol version.
    UnsupportedVersion(u16),
    /// The declared payload length exceeds the configured bound.
    Oversized { len: u64, max: u64 },
    /// The frame ended before its declared length.
    Truncated,
    /// The frame checksum did not match.
    BadChecksum,
    /// The frame carried an unknown message kind.
    UnknownKind(u8),
    /// The payload did not decode.
    Malformed(String),
}

/// The mathematical content of a [`ProtocolError`].
pub enum ProtocolErrorView {
    BadMagic,
    UnsupportedVersion(u16),
    Oversized { len: u64, max: u64 },
    Truncated,
    BadChecksum,
    UnknownKind(u8),
    Malformed(Seq<char>),
}

impl View for ProtocolError {
    type V = ProtocolErrorView;

    open spec fn view(&self) -> ProtocolErrorView {
        match self {
            ProtocolError::BadMagic => ProtocolErrorView::BadMagic,
            ProtocolError::UnsupportedVersion(v) => ProtocolErrorView::UnsupportedVersion(*v),
            ProtocolError::Oversized { len, max } => ProtocolErrorView::Oversized {
                len: *len,
                max: *max,
            },
            ProtocolError::Truncated => ProtocolErrorView::Truncated,
            ProtocolError::BadChecksum => ProtocolErrorView::BadChecksum,
            ProtocolError::UnknownKind(k) => ProtocolErrorView::UnknownKind(*k),
            ProtocolError::Malformed(m) => ProtocolErrorView::Malformed(m@),
        }
    }
}

impl ProtocolErrorView {
    /// The stable numeric code of the error.
    pub open spec fn code(self) -> u16 {
        match self {
            ProtocolErrorView::BadMagic => 1,
            ProtocolErrorView::UnsupportedVersion(_) => 2,
            ProtocolErrorView::Oversized { .. } => 3,
            ProtocolErrorView::Truncated => 4,
            ProtocolErrorView::BadChecksum => 5,
            ProtocolErrorView::UnknownKind(_) => 6,
            ProtocolErrorView::Malformed(_) => 7,
        }
    }

    /// The text shown to people.
    pub open spec fn text(self) -> Seq<char> {
        match self {
            ProtocolErrorView::BadMagic => "bad frame magic"@,
            ProtocolErrorView::UnsupportedVersion(v) => "unsupported protocol version "@ + decimal(
                v as nat,
            ),
            ProtocolErrorView::Oversized { len, max } => "frame payload of "@ + decimal(len as nat)
                + " bytes exceeds the maximum of "@ + decimal(max as nat),
            ProtocolErrorView::Truncated => "truncated frame"@,
            ProtocolErrorView::BadChecksum => "frame checksum mismatch"@,
            ProtocolErrorView::UnknownKind(k) => "unknown message kind "@ + decimal(k as nat),
            ProtocolErrorView::Malformed(m) => "malformed message: "@ + m,
        }
    }
}

impl ProtocolError {
    /// A stable numeric code for the wire `Error` message.
    pub fn code(&self) -> (code: u16)
        ensures
            code == self@.code(),
    {
        match self {
            ProtocolError::BadMagic => 1,
            ProtocolError::UnsupportedVersion(_) => 2,
            ProtocolError::Oversized { .. } => 3,
            ProtocolError::Truncated => 4,
            ProtocolError::BadChecksum => 5,
            ProtocolError::UnknownKind(_) => 6,
            ProtocolError::Malformed(_) => 7,
        }
    }

    /// The text shown to people.
    pub fn to_text(&self) -> (text: String)
        ensures
            text@ == self@.text(),
    {
        match self {
            ProtocolError::BadMagic => "bad frame magic".to_owned(),
            ProtocolError::UnsupportedVersion(v) => {
                let digits = number(*v as u64);
                join("unsupported protocol version ", digits.as_str())
            },
            ProtocolError::Oversized { len, max } => {
                let mut text = with_number(
                    "frame payload of ",
                    *len,
                    " bytes exceeds the maximum of ",
                );
                let digits = number(*max);
                text.append(digits.as_str());
                text
            },
            ProtocolError::Truncated => "truncated frame".to_owned(),
            ProtocolError::BadChecksum => "frame checksum mismatch".to_owned(),
            ProtocolError::UnknownKind(k) => {
                let digits = number(*k as u64);
                join("unknown message kind ", digits.as_str())
            },
            ProtocolError::Malformed(m) => join("malformed message: ", m.as_str()),
        }
    }
}

/// A failure while authenticating a connection.
#[derive(Debug, PartialEq, Eq)]
pub enum AuthError {
    /// The presented credentials did not map to a principal.
    InvalidCredentials,
    /// The authenticator could not complete the request.
    Internal(String),
}

/// The mathematical content of an [`AuthError`].
pub enum AuthErrorView {
    InvalidCredentials,
    Internal(Seq<char>),
}

impl View for AuthError {
    type V = AuthErrorView;

    open spec fn view(&self) -> AuthErrorView {
        match self {
            AuthError::InvalidCredentials => AuthErrorView::InvalidCredentials,
            AuthError::Internal(m) => AuthErrorView::Internal(m@),
        }
    }
}

impl AuthErrorView {
    /// The text shown to people.
    pub open spec fn text(self) -> Seq<char> {
        match self {
            AuthErrorView::InvalidCredentials => "invalid credentials"@,
            AuthErrorView::Internal(m) => "authenticator failure: "@ + m,
        }
    }
}

impl AuthError {
    /// The text shown to people.
    pub fn to_text(&self) -> (text: String)
        ensures
            text@ == self@.text(),
    {
        match self {
            AuthError::InvalidCredentials => "invalid credentials".to_owned(),
            AuthError::Internal(m) => join("authenticator failure: ", m.as_str()),
        }
    }
}

/// A failure of a transport connection.
#[derive(Clone, Copy, Debug, PartialEq, Eq, Structural)]
pub enum TransportError {
    /// The bounded peer queue is at capacity; apply the overflow policy.
    Full,
    /// The connection is closed (or the transport broke).
    Closed,
    /// An I/O failure occurred.
    Io,
}

impl TransportError {
    /// The text shown to people.
    pub open spec fn text(self) -> Seq<char> {
        match self {
            TransportError::Full => "outbound queue full"@,
            TransportError::Closed => "transport closed"@,
            TransportError::Io => "transport I/O failure"@,
        }
    }

    /// The text shown to people.
    pub fn to_text(self) -> (text: &'static str)
        ensures
            text@ == self.text(),
    {
        match self {
            TransportError::Full => "outbound queue full",
            TransportError::Closed => "transport closed",
            TransportError::Io => "transport I/O failure",
        }
    }

    /// How a transport reports a protocol violation (bad magic, over-limit
    /// length, checksum failure): as a broken connection.
    pub fn from_protocol(violation: ProtocolError) -> (error: TransportError)
        ensures
            error == TransportError::Io,
    {
        TransportError::Io
    }
}

/// A failure at the network boundary.
#[derive(Debug, PartialEq, Eq)]
pub enum NetworkError {
    /// A referenced connection does not exist.
    UnknownConnection(ConnectionId),
    /// The connection limit was reached.
    ConnectionLimit,
    /// A protocol (frame or message) violation.
    Protocol(ProtocolError),
    /// An authentication failure.
    Auth(AuthError),
    /// A session-state violation.
    Session(String),
    /// A runtime operation failed (identity preserved).
    Runtime(RuntimeError),
    /// A core operation failed (identity preserved).
    Core(Error),
    /// A bounded resource (queue, subscription count) overflowed.
    Capacity(String),
    /// The transport reported a failure.
    Transport(TransportError),
    /// The gateway is not running (shutdown).
    Shutdown,
    /// An internal invariant violation (a bug).
    Internal(String),
}

/// The mathematical content of a [`NetworkError`].
pub enum NetworkErrorView {
    UnknownConnection(ConnectionId),
    ConnectionLimit,
    Protocol(ProtocolErrorView),
    Auth(AuthErrorView),
    Session(Seq<char>),
    Runtime(RuntimeErrorView),
    Core(ErrorView),
    Capacity(Seq<char>),
    Transport(TransportError),
    Shutdown,
    Internal(Seq<char>),
}

impl View for NetworkError {
    type V = NetworkErrorView;

    open spec fn view(&self) -> NetworkErrorView {
        match self {
            NetworkError::UnknownConnection(c) => NetworkErrorView::UnknownConnection(*c),
            NetworkError::ConnectionLimit => NetworkErrorView::ConnectionLimit,
            NetworkError::Protocol(e) => NetworkErrorView::Protocol(e@),
            NetworkError::Auth(e) => NetworkErrorView::Auth(e@),
            NetworkError::Session(m) => NetworkErrorView::Session(m@),
            NetworkError::Runtime(e) => NetworkErrorView::Runtime(e@),
            NetworkError::Core(e) => NetworkErrorView::Core(e@),
            NetworkError::Capacity(m) => NetworkErrorView::Capacity(m@),
            NetworkError::Transport(e) => NetworkErrorView::Transport(*e),
            NetworkError::Shutdown => NetworkErrorView::Shutdown,
            NetworkError::Internal(m) => NetworkErrorView::Internal(m@),
        }
    }
}

impl NetworkErrorView {
    /// The core error this failure carries, if any.
    pub open spec fn cause(self) -> Option<ErrorView> {
        match self {
            NetworkErrorView::Runtime(e) => e.cause(),
            NetworkErrorView::Core(e) => Some(e),
            _ => None,
        }
    }

    /// The text shown to people.
    pub open spec fn text(self) -> Seq<char> {
        match self {
            NetworkErrorView::UnknownConnection(c) => "connection "@ + decimal(c.0 as nat)
                + " does not exist"@,
            NetworkErrorView::ConnectionLimit => "connection limit reached"@,
            NetworkErrorView::Protocol(e) => "protocol error: "@ + e.text(),
            NetworkErrorView::Auth(e) => "authentication failed: "@ + e.text(),
            NetworkErrorView::Session(m) => "session error: "@ + m,
            NetworkErrorView::Runtime(e) => "runtime error: "@ + e.text(),
            NetworkErrorView::Core(e) => "core error: "@ + e.text(),
            NetworkErrorView::Capacity(m) => "capacity exceeded: "@ + m,
            NetworkErrorView::Transport(e) => "transport error: "@ + e.text(),
            NetworkErrorView::Shutdown => "gateway is shut down"@,
            NetworkErrorView::Internal(m) => "internal network error: "@ + m,
        }
    }
}

impl NetworkError {
    /// The core error this failure carries, if any.
    pub fn core_error(&self) -> (found: Option<&Error>)
        ensures
            match found {
                Some(e) => self@.cause() == Some(e@),
                None => self@.cause() is None,
            },
    {
        match self {
            NetworkError::Runtime(e) => e.core_error(),
            NetworkError::Core(e) => Some(e),
            _ => None,
        }
    }

    /// The text shown to people.
    pub fn to_text(&self) -> (text: String)
        ensures
            text@ == self@.text(),
    {
        match self {
            NetworkError::UnknownConnection(c) => with_number(
                "connection ",
                c.as_u64(),
                " does not exist",
            ),
            NetworkError::ConnectionLimit => "connection limit reached".to_owned(),
            NetworkError::Protocol(e) => {
                let tail = e.to_text();
                join("protocol error: ", tail.as_str())
            },
            NetworkError::Auth(e) => {
                let tail = e.to_text();
                join("authentication failed: ", tail.as_str())
            },
            NetworkError::Session(m) => join("session error: ", m.as_str()),
            NetworkError::Runtime(e) => {
                let tail = e.to_text();
                join("runtime error: ", tail.as_str())
            },
            NetworkError::Core(e) => {
                let tail = e.to_text();
                join("core error: ", tail.as_str())
            },
            NetworkError::Capacity(m) => join("capacity exceeded: ", m.as_str()),
            NetworkError::Transport(e) => join("transport error: ", e.to_text()),
            NetworkError::Shutdown => "gateway is shut down".to_owned(),
            NetworkError::Internal(m) => join("internal network error: ", m.as_str()),
        }
    }
}

} // verus!
