//! The settings of transport security.

use vstd::prelude::*;
use vstd::string::StringExecFns;

verus! {

/// The settings of transport security. The handshake timeout is in
/// milliseconds.
#[derive(Debug, Clone)]
pub struct TlsConfig {
    /// Where the certificate is.
    pub cert_path: Option<String>,
    /// Where the private key is.
    pub key_path: Option<String>,
    /// Whether client certificates are verified.
    pub verify_client: bool,
    /// How long a handshake may take.
    pub handshake_timeout: u64,
}

/// What the settings are.
pub struct TlsConfigView {
    pub cert_path: Option<Seq<char>>,
    pub key_path: Option<Seq<char>>,
    pub verify_client: bool,
    pub handshake_timeout: u64,
}

impl View for TlsConfig {
    type V = TlsConfigView;

    open spec fn view(&self) -> TlsConfigView {
        TlsConfigView {
            cert_path: match self.cert_path {
                Some(p) => Some(p@),
                None => None,
            },
            key_path: match self.key_path {
                Some(p) => Some(p@),
                None => None,
            },
            verify_client: self.verify_client,
            handshake_timeout: self.handshake_timeout,
        }
    }
}

/// The default settings: no certificate, no key, clients not verified,
/// thirty seconds for a handshake.
pub open spec fn default_tls() -> TlsConfigView {
    TlsConfigView {
        cert_path: None,
        key_path: None,
        verify_client: false,
        handshake_timeout: 30000,
    }
}

impl Default for TlsConfig {
    fn default() -> (r: TlsConfig)
        ensures
            r@ == default_tls(),
    {
        TlsConfig { cert_path: None, key_path: None, verify_client: false, handshake_timeout: 30000 }
    }
}

impl TlsConfig {
    /// The default settings.
    pub fn new() -> (r: TlsConfig)
        ensures
            r@ == default_tls(),
    {
        TlsConfig { cert_path: None, key_path: None, verify_client: false, handshake_timeout: 30000 }
    }

    /// The same settings with a certificate path.
    pub fn with_cert(self, path: &str) -> (r: TlsConfig)
        ensures
            r@ == (TlsConfigView { cert_path: Some(path@), ..self@ }),
    {
        let mut r = self;
        r.cert_path = Some(String::from_str(path));
        r
    }

    /// The same settings with a private key path.
    pub fn with_key(self, path: &str) -> (r: TlsConfig)
        ensures
            r@ == (TlsConfigView { key_path: Some(path@), ..self@ }),
    {
        let mut r = self;
        r.key_path = Some(String::from_str(path));
        r
    }

    /// The same settings with client verification on or off.
    pub fn verify_client(self, verify: bool) -> (r: TlsConfig)
        ensures
            r@ == (TlsConfigView { verify_client: verify, ..self@ }),
    {
        let mut r = self;
        r.verify_client = verify;
        r
    }

    /// The same settings with another handshake timeout, in milliseconds.
    pub fn handshake_timeout(self, timeout: u64) -> (r: TlsConfig)
        ensures
            r@ == (TlsConfigView { handshake_timeout: timeout, ..self@ }),
    {
        let mut r = self;
        r.handshake_timeout = timeout;
        r
    }
}

} // verus!
