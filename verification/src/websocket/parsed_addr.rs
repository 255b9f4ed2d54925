//! The address that a connection is made to.

use vstd::prelude::*;
use vstd::string::*;

use crate::boundary;
use crate::boundary::{UrlParts, UrlPartsView};
use crate::error::WebSocketError;
use crate::websocket::text;

verus! {

/// The parts of a WebSocket URL.
#[derive(Debug, PartialEq, Eq)]
pub struct ParsedAddr {
    /// The scheme, `ws` or `wss`.
    pub scheme: String,
    /// The name or the address of the host.
    pub host: String,
    /// The port on the host.
    pub port: u16,
    /// The path, and the query if there is one.
    pub path: String,
}

/// The parts of a WebSocket URL as a mathematical value.
#[verifier::ext_equal]
pub struct AddrView {
    pub scheme: Seq<char>,
    pub host: Seq<char>,
    pub port: u16,
    pub path: Seq<char>,
}

impl View for ParsedAddr {
    type V = AddrView;

    open spec fn view(&self) -> AddrView {
        AddrView {
            scheme: self.scheme@,
            host: self.host@,
            port: self.port,
            path: self.path@,
        }
    }
}

impl AddrView {
    /// Whether connections to the address are encrypted, if its scheme is one of the two.
    pub open spec fn security(self) -> Option<bool> {
        if self.scheme == "ws"@ {
            Some(false)
        } else if self.scheme == "wss"@ {
            Some(true)
        } else {
            None
        }
    }

    /// The host and the port.
    pub open spec fn authority(self) -> Seq<char> {
        self.host + ":"@ + text::decimal(self.port as nat)
    }

    /// The address under which the handshake is requested.
    pub open spec fn http_uri(self) -> Seq<char> {
        let scheme = if self.scheme == "wss"@ {
            "https"@
        } else {
            "http"@
        };
        scheme + "://"@ + self.authority() + self.path
    }
}

/// The address that the parts of a URL stand for, or what is wrong with them.
pub open spec fn addr_of(parts: UrlPartsView) -> Result<AddrView, WebSocketError> {
    if parts.scheme != "ws"@ && parts.scheme != "wss"@ {
        Err(WebSocketError::SchemeError)
    } else {
        match (parts.host, parts.port) {
            (None, _) => Err(WebSocketError::HostError),
            (_, None) => Err(WebSocketError::PortError),
            (Some(host), Some(port)) => Ok(
                AddrView {
                    scheme: parts.scheme,
                    host,
                    port,
                    path: match parts.query {
                        Some(query) => parts.path + "?"@ + query,
                        None => parts.path,
                    },
                },
            ),
        }
    }
}

/// Compares two texts.
fn same_text(a: &str, b: &str) -> (r: bool)
    ensures
        r == (a@ == b@),
{
    a.to_owned() == b.to_owned()
}

impl Clone for ParsedAddr {
    fn clone(&self) -> (r: Self)
        ensures
            r@ == self@,
    {
        ParsedAddr {
            scheme: self.scheme.clone(),
            host: self.host.clone(),
            port: self.port,
            path: self.path.clone(),
        }
    }
}

impl ParsedAddr {
    /// Reads a URL.
    pub fn parse(url: &str) -> (r: Result<ParsedAddr, WebSocketError>)
        ensures
            match boundary::url_parts(url@) {
                None => r matches Err(WebSocketError::ParseError(_)),
                Some(parts) => match addr_of(parts) {
                    Ok(addr) => r matches Ok(a) && a@ == addr,
                    Err(error) => r == Err::<ParsedAddr, WebSocketError>(error),
                },
            },
    {
        match boundary::url_parse(url) {
            Ok(parts) => ParsedAddr::from_parts(parts),
            Err(error) => Err(WebSocketError::ParseError(error)),
        }
    }

    /// Checks the parts of a URL.
    pub fn from_parts(parts: UrlParts) -> (r: Result<ParsedAddr, WebSocketError>)
        ensures
            match addr_of(parts@) {
                Ok(addr) => r matches Ok(a) && a@ == addr,
                Err(error) => r == Err::<ParsedAddr, WebSocketError>(error),
            },
    {
        if !same_text(parts.scheme.as_str(), "ws") && !same_text(parts.scheme.as_str(), "wss") {
            return Err(WebSocketError::SchemeError);
        }
        match (parts.host, parts.port) {
            (None, _) => Err(WebSocketError::HostError),
            (Some(_), None) => Err(WebSocketError::PortError),
            (Some(host), Some(port)) => {
                let mut path: String = parts.path;
                match parts.query {
                    Some(query) => {
                        path.append("?");
                        path.append(query.as_str());
                    },
                    None => {},
                }
                Ok(ParsedAddr { scheme: parts.scheme, host, port, path })
            },
        }
    }

    /// Whether the connection has to be encrypted.
    pub fn is_secure(&self) -> (r: Result<bool, WebSocketError>)
        ensures
            r == match self@.security() {
                Some(secure) => Ok(secure),
                None => Err(WebSocketError::SchemeError),
            },
    {
        if same_text(self.scheme.as_str(), "ws") {
            Ok(false)
        } else if same_text(self.scheme.as_str(), "wss") {
            Ok(true)
        } else {
            Err(WebSocketError::SchemeError)
        }
    }

    /// The host and the port.
    pub fn authority(&self) -> (r: String)
        ensures
            r@ == self@.authority(),
    {
        let mut out: String = self.host.clone();
        out.append(":");
        text::push_decimal(&mut out, self.port as usize);
        out
    }

    /// The address under which the handshake is requested.
    pub fn http_uri(&self) -> (r: String)
        requires
            self@.security() is Some,
        ensures
            r@ == self@.http_uri(),
    {
        let mut out: String = if same_text(self.scheme.as_str(), "wss") {
            "https".to_owned()
        } else {
            "http".to_owned()
        };
        out.append("://");
        out.append(self.authority().as_str());
        out.append(self.path.as_str());
        out
    }
}

/// The parts of a URL make an address if the scheme is `ws` or `wss` and there are a host and a
/// port. All parts are kept, and the query follows the path. What is missing is told, the scheme
/// first and the port last.
pub proof fn law_address_keeps_the_parts(parts: UrlPartsView)
    ensures
        match addr_of(parts) {
            Ok(addr) => {
                &&& parts.scheme == "ws"@ || parts.scheme == "wss"@
                &&& addr.scheme == parts.scheme
                &&& parts.host == Some(addr.host)
                &&& parts.port == Some(addr.port)
                &&& parts.query is None ==> addr.path == parts.path
                &&& parts.query matches Some(query) ==> addr.path == parts.path + "?"@ + query
            },
            Err(WebSocketError::SchemeError) => parts.scheme != "ws"@ && parts.scheme != "wss"@,
            Err(WebSocketError::HostError) => {
                &&& parts.scheme == "ws"@ || parts.scheme == "wss"@
                &&& parts.host is None
            },
            Err(WebSocketError::PortError) => {
                &&& parts.scheme == "ws"@ || parts.scheme == "wss"@
                &&& parts.host is Some
                &&& parts.port is None
            },
            Err(_) => false,
        },
{
}

/// A handshake is requested over HTTP, from the host and the port of the address and under its
/// path; and over HTTPS where, and only where, the scheme asks for encryption.
pub proof fn law_request_goes_to_the_address(addr: AddrView)
    ensures
        addr.security() == Some(true) <==> addr.scheme == "wss"@,
        addr.security() == Some(false) <==> addr.scheme == "ws"@,
        addr.authority() == addr.host + ":"@ + text::decimal(addr.port as nat),
        addr.security() == Some(true) ==> addr.http_uri() == "https://"@ + addr.host + ":"@
            + text::decimal(addr.port as nat) + addr.path,
        addr.security() == Some(false) ==> addr.http_uri() == "http://"@ + addr.host + ":"@
            + text::decimal(addr.port as nat) + addr.path,
{
    reveal_strlit("ws");
    reveal_strlit("wss");
    reveal_strlit("http");
    reveal_strlit("https");
    reveal_strlit("://");
    reveal_strlit("http://");
    reveal_strlit("https://");
    assert("ws"@.len() != "wss"@.len());
    assert("https"@ + "://"@ =~= "https://"@);
    assert("http"@ + "://"@ =~= "http://"@);
    assert(addr.security() == Some(true) ==> addr.http_uri() =~= "https://"@ + addr.host + ":"@
        + text::decimal(addr.port as nat) + addr.path);
    assert(addr.security() == Some(false) ==> addr.http_uri() =~= "http://"@ + addr.host + ":"@
        + text::decimal(addr.port as nat) + addr.path);
}

} // verus!
