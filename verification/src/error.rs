//! The errors of the library.

use vstd::prelude::*;

verus! {

/// The error type of the operating system's I/O.
#[verifier::external_type_specification]
#[verifier::external_body]
pub struct ExIoError(std::io::Error);

/// The error type of the TLS implementation.
#[verifier::external_type_specification]
#[verifier::external_body]
pub struct ExTlsError(native_tls::Error);

/// The error type of the URL parser.
#[verifier::external_type_specification]
#[verifier::external_body]
pub struct ExUrlParseError(url::ParseError);

/// The error type of the HTTP client that carries the opening handshake.
#[verifier::external_type_specification]
#[verifier::external_body]
pub struct ExHttpError(hyper::Error);

/// The possible error types from the WebSocket connection.
#[derive(Debug)]
pub enum WebSocketError {
    /// Error connecting using TCP
    TcpConnectionError(std::io::Error),
    /// Error connecting using TLS
    TlsConnectionError(native_tls::Error),
    /// Error building WebSocket with given TLS configuration
    TlsBuilderError(native_tls::Error),
    /// Error creating a TLS configuration
    TlsConfigurationError(native_tls::Error),
    /// Attempted to use the WebSocket when it is already closed
    WebSocketClosedError,
    /// Error shutting down the internal stream
    ShutdownError(std::io::Error),
    /// Invalid handshake response from the server
    InvalidHandshakeError,
    /// The exchange of the opening handshake failed
    HandshakeError(hyper::Error),
    /// The server rejected the handshake request
    HandshakeFailedError {
        /// Status code from the server's handshake response
        status_code: String,
        /// Headers from the server's handshake response
        headers: Vec<(String, Vec<u8>)>,
        /// Body of the server's handshake response
        body: Vec<u8>,
    },
    /// Attempted to use a control frame whose payload is more than 125 bytes
    ControlFrameTooLarge,
    /// Attempted to use a frame whose payload is too large
    PayloadTooLarge,
    /// Received an invalid frame
    InvalidFrame(InvalidFrameReason),
    /// Received a masked frame from the server
    ReceivedMaskedFrame,
    /// Attempted to close the WebSocket with a status that may not be sent
    BadStatus,
    /// URL could not be parsed
    ParseError(url::ParseError),
    /// URL has invalid WebSocket scheme (use "ws" or "wss")
    SchemeError,
    /// URL host is invalid or missing
    HostError,
    /// URL port is invalid
    PortError,
    /// Could not parse URL into SocketAddrs
    SocketAddrError(std::io::Error),
    /// Could not resolve the URL's domain
    ResolutionError,
    /// Error reading from WebSocket
    ReadError(std::io::Error),
    /// Error writing to WebSocket
    WriteError(std::io::Error),
    /// Issue with the channel between the two halves
    ChannelError,
}

impl WebSocketError {
    /// What the error says.
    pub open spec fn text(self) -> Seq<char> {
        match self {
            WebSocketError::TcpConnectionError(_) => "could not connect using TCP"@,
            WebSocketError::TlsConnectionError(_) => "could not connect using TLS"@,
            WebSocketError::TlsBuilderError(_) => {
                "could not build WebSocket with given TLS configuration"@
            },
            WebSocketError::TlsConfigurationError(_) => "error with TLS configuration"@,
            WebSocketError::WebSocketClosedError => "websocket is already closed"@,
            WebSocketError::ShutdownError(_) => "error shutting down stream"@,
            WebSocketError::InvalidHandshakeError => "invalid handshake response"@,
            WebSocketError::HandshakeError(_) => "error performing handshake"@,
            WebSocketError::HandshakeFailedError { .. } => "server rejected handshake"@,
            WebSocketError::ControlFrameTooLarge => {
                "control frame has payload larger than 125 bytes"@
            },
            WebSocketError::PayloadTooLarge => "payload is too large"@,
            WebSocketError::InvalidFrame(_) => "received frame is invalid"@,
            WebSocketError::ReceivedMaskedFrame => "received masked frame"@,
            WebSocketError::BadStatus => "status cannot be sent"@,
            WebSocketError::ParseError(_) => "url could not be parsed"@,
            WebSocketError::SchemeError => "invalid websocket scheme (use \"ws\" or \"wss\")"@,
            WebSocketError::HostError => "invalid or missing host"@,
            WebSocketError::PortError => "invalid or unknown port"@,
            WebSocketError::SocketAddrError(_) => "could not parse into SocketAddrs"@,
            WebSocketError::ResolutionError => "could not resolve domain"@,
            WebSocketError::ReadError(_) => "could not read from WebSocket"@,
            WebSocketError::WriteError(_) => "could not write to WebSocket"@,
            WebSocketError::ChannelError => "error using channel"@,
        }
    }

    /// What the error says, for people to read.
    pub fn message(&self) -> (r: &'static str)
        ensures
            r@ == self.text(),
    {
        match self {
            WebSocketError::TcpConnectionError(_) => "could not connect using TCP",
            WebSocketError::TlsConnectionError(_) => "could not connect using TLS",
            WebSocketError::TlsBuilderError(_) => {
                "could not build WebSocket with given TLS configuration"
            },
            WebSocketError::TlsConfigurationError(_) => "error with TLS configuration",
            WebSocketError::WebSocketClosedError => "websocket is already closed",
            WebSocketError::ShutdownError(_) => "error shutting down stream",
            WebSocketError::InvalidHandshakeError => "invalid handshake response",
            WebSocketError::HandshakeError(_) => "error performing handshake",
            WebSocketError::HandshakeFailedError { .. } => "server rejected handshake",
            WebSocketError::ControlFrameTooLarge => {
                "control frame has payload larger than 125 bytes"
            },
            WebSocketError::PayloadTooLarge => "payload is too large",
            WebSocketError::InvalidFrame(_) => "received frame is invalid",
            WebSocketError::ReceivedMaskedFrame => "received masked frame",
            WebSocketError::BadStatus => "status cannot be sent",
            WebSocketError::ParseError(_) => "url could not be parsed",
            WebSocketError::SchemeError => "invalid websocket scheme (use \"ws\" or \"wss\")",
            WebSocketError::HostError => "invalid or missing host",
            WebSocketError::PortError => "invalid or unknown port",
            WebSocketError::SocketAddrError(_) => "could not parse into SocketAddrs",
            WebSocketError::ResolutionError => "could not resolve domain",
            WebSocketError::ReadError(_) => "could not read from WebSocket",
            WebSocketError::WriteError(_) => "could not write to WebSocket",
            WebSocketError::ChannelError => "error using channel",
        }
    }
}

/// Delineation between types of malformed frames.
#[derive(Debug, Clone, Copy, PartialEq, Eq, Structural)]
pub enum InvalidFrameReason {
    /// The peer sent a continuation frame even though
    /// the previous message has finished with the `fin` flag
    FalseContinuation,
    /// The close code held by a `Close` frame is not one that may be sent.
    BadCloseCode,
    /// The peer sent a frame whose payload length specifier is 128 (127 max).
    BadPayloadLength,
    /// The payload length of a close frame was set to `1`.
    BadCloseFramePayload,
    /// The peer sent a text frame containing invalid UTF-8.
    BadUtf8,
    /// The peer sent a frame whose opcode is reserved for a data frame.
    ReservedDataOpcode,
    /// The peer sent a frame whose opcode is reserved for a control frame.
    ReservedControlOpcode,
}

/// A newtype that implements `From<std::io::Error>`
/// and converts such errors to `WebSocketError::ReadError`.
///
/// Useful as the error of a stream decoder.
#[derive(Debug)]
pub struct WsReadError(pub WebSocketError);

impl From<std::io::Error> for WsReadError {
    fn from(value: std::io::Error) -> (r: Self) {
        WsReadError(WebSocketError::ReadError(value))
    }
}

impl vstd::std_specs::convert::FromSpecImpl<std::io::Error> for WsReadError {
    open spec fn obeys_from_spec() -> bool {
        true
    }

    open spec fn from_spec(value: std::io::Error) -> Self {
        WsReadError(WebSocketError::ReadError(value))
    }
}

/// A newtype that implements `From<std::io::Error>`
/// and converts such errors to `WebSocketError::WriteError`.
///
/// Useful as the error of a stream encoder.
#[derive(Debug)]
pub struct WsWriteError(pub WebSocketError);

impl From<std::io::Error> for WsWriteError {
    fn from(value: std::io::Error) -> (r: Self) {
        WsWriteError(WebSocketError::WriteError(value))
    }
}

impl vstd::std_specs::convert::FromSpecImpl<std::io::Error> for WsWriteError {
    open spec fn obeys_from_spec() -> bool {
        true
    }

    open spec fn from_spec(value: std::io::Error) -> Self {
        WsWriteError(WebSocketError::WriteError(value))
    }
}

} // verus!
