//! How a secure connection is to be made.

use vstd::prelude::*;

verus! {

/// A certificate to trust, as it is stored in DER.
#[derive(Debug, PartialEq, Eq)]
pub struct TlsCertificate {
    pub der: Vec<u8>,
}

/// A certificate with its private key, to identify the client with, as they are stored in PKCS #12.
#[derive(Debug, PartialEq, Eq)]
pub struct TlsIdentity {
    pub pkcs12: Vec<u8>,
    pub password: String,
}

/// The versions of the TLS protocol.
#[derive(Debug, Clone, Copy, PartialEq, Eq, Structural)]
pub enum TlsProtocol {
    Sslv3,
    Tlsv10,
    Tlsv11,
    Tlsv12,
    Tlsv13,
}

/// The choices that a secure connection is made with.
#[derive(Debug, PartialEq, Eq)]
pub struct TlsOptions {
    /// Whether certificates are not validated.
    pub accept_invalid_certs: bool,
    /// Whether the names in certificates are not checked.
    pub accept_invalid_hostnames: bool,
    /// Certificates to trust besides those of the system.
    pub root_certificates: Vec<TlsCertificate>,
    /// Whether the certificates of the system are not used.
    pub disable_built_in_roots: bool,
    /// What the client identifies itself with.
    pub identity: Option<TlsIdentity>,
    /// The newest version to use; the newest there is if there is no such limit.
    pub max_protocol_version: Option<TlsProtocol>,
    /// The oldest version to use; the oldest there is if there is no such limit.
    pub min_protocol_version: Option<TlsProtocol>,
    /// Whether the name of the server is sent in the clear.
    pub use_sni: bool,
}

impl TlsOptions {
    /// The defaults.
    pub fn new() -> (r: Self)
        ensures
            !r.accept_invalid_certs,
            !r.accept_invalid_hostnames,
            r.root_certificates@.len() == 0,
            !r.disable_built_in_roots,
            r.identity is None,
            r.max_protocol_version is None,
            r.min_protocol_version == Some(TlsProtocol::Tlsv10),
            r.use_sni,
    {
        TlsOptions {
            accept_invalid_certs: false,
            accept_invalid_hostnames: false,
            root_certificates: Vec::new(),
            disable_built_in_roots: false,
            identity: None,
            max_protocol_version: None,
            min_protocol_version: Some(TlsProtocol::Tlsv10),
            use_sni: true,
        }
    }
}

} // verus!
