//! Why a connection was given up.
use vstd::prelude::*;

verus! {

/// The failures that end a connection. Each of them ends that one
/// connection and nothing else.
#[derive(Clone, Copy, Debug, PartialEq, Eq, Structural)]
pub enum ProxyError {
    /// A read from the client failed before the head was complete.
    ClientRead,
    /// The capture buffer filled up before the head ended.
    HeadTooLarge,
    /// The head holds no request line.
    MissingRequestLine,
    /// The request line holds no method.
    MissingMethod,
    /// The request line holds no target behind the method.
    MissingTarget,
    /// The target is no address that can be understood.
    MalformedTarget,
    /// The target names no host and no `Host` header supplies one.
    NoHost,
    /// The upstream could not be connected.
    UpstreamConnect,
    /// The handshake could not be written.
    HandshakeWrite,
}

impl ProxyError {
    /// The text of [`ProxyError::message`].
    pub open spec fn message_text(self) -> Seq<char> {
        match self {
            ProxyError::ClientRead => "reading from the client failed"@,
            ProxyError::HeadTooLarge => "request head too large for capture buffer"@,
            ProxyError::MissingRequestLine => "no request line"@,
            ProxyError::MissingMethod => "no method in the request line"@,
            ProxyError::MissingTarget => "no target in the request line"@,
            ProxyError::MalformedTarget => "the request target is malformed"@,
            ProxyError::NoHost => "the request names no host"@,
            ProxyError::UpstreamConnect => "connecting to the upstream failed"@,
            ProxyError::HandshakeWrite => "writing the handshake failed"@,
        }
    }

    /// A line that says what went wrong.
    pub fn message(self) -> (text: &'static str)
        ensures
            text@ == self.message_text(),
    {
        match self {
            ProxyError::ClientRead => "reading from the client failed",
            ProxyError::HeadTooLarge => "request head too large for capture buffer",
            ProxyError::MissingRequestLine => "no request line",
            ProxyError::MissingMethod => "no method in the request line",
            ProxyError::MissingTarget => "no target in the request line",
            ProxyError::MalformedTarget => "the request target is malformed",
            ProxyError::NoHost => "the request names no host",
            ProxyError::UpstreamConnect => "connecting to the upstream failed",
            ProxyError::HandshakeWrite => "writing the handshake failed",
        }
    }
}

} // verus!
