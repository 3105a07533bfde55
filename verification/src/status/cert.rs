//! Who may use the status service, and whether it speaks TLS.

use vstd::prelude::*;
use crate::bytes::bytes_eq;
use crate::event::views;

verus! {

/// The node's settings for TLS.
#[derive(Debug)]
pub struct SecurityConfig {
    pub ca_path: Vec<u8>,
    pub cert_path: Vec<u8>,
    pub key_path: Vec<u8>,
    /// The common names that a client's certificate may bear; empty where
    /// any will do.
    pub cert_allowed_cn: Vec<Vec<u8>>,
}

/// The mathematical value of a `SecurityConfig`.
pub struct SecurityView {
    pub ca_path: Seq<u8>,
    pub cert_path: Seq<u8>,
    pub key_path: Seq<u8>,
    pub cert_allowed_cn: Seq<Seq<u8>>,
}

impl View for SecurityConfig {
    type V = SecurityView;

    open spec fn view(&self) -> SecurityView {
        SecurityView {
            ca_path: self.ca_path@,
            cert_path: self.cert_path@,
            key_path: self.key_path@,
            cert_allowed_cn: views(self.cert_allowed_cn@),
        }
    }
}

impl SecurityView {
    /// Whether the service speaks TLS: it has a certificate, a key and a
    /// certificate authority.
    pub open spec fn uses_tls(self) -> bool {
        self.cert_path.len() > 0 && self.key_path.len() > 0 && self.ca_path.len() > 0
    }

    /// Whether a client must show a certificate when it connects.
    pub open spec fn wants_peer_cert(self) -> bool {
        self.cert_allowed_cn.len() > 0
    }

    /// Whether a client whose certificate bears the common name `name`, or
    /// that shows no certificate with a common name, may make a request
    /// that is checked: any may where no names are set; else its name must
    /// be one of them.
    pub open spec fn allows(self, name: Option<Seq<u8>>) -> bool {
        self.cert_allowed_cn.len() == 0 || match name {
            Some(n) => self.cert_allowed_cn.contains(n),
            None => false,
        }
    }
}

impl SecurityConfig {
    /// Whether the service speaks TLS.
    pub fn uses_tls(&self) -> (r: bool)
        ensures
            r == self@.uses_tls(),
    {
        self.cert_path.len() > 0 && self.key_path.len() > 0 && self.ca_path.len() > 0
    }

    /// Whether a client must show a certificate when it connects.
    pub fn wants_peer_cert(&self) -> (r: bool)
        ensures
            r == self@.wants_peer_cert(),
    {
        self.cert_allowed_cn.len() > 0
    }
}

/// Whether `name` is one of the allowed names.
pub fn match_peer_names(allowed: &Vec<Vec<u8>>, name: &[u8]) -> (r: bool)
    ensures
        r == views(allowed@).contains(name@),
{
    let mut i: usize = 0;
    while i < allowed.len()
        invariant
            i <= allowed.len(),
            forall|j: int| 0 <= j < i ==> views(allowed@)[j] != name@,
        decreases allowed.len() - i,
    {
        if bytes_eq(allowed[i].as_slice(), name) {
            assert(views(allowed@)[i as int] == name@);
            return true;
        }
        i = i + 1;
    }
    false
}

/// Whether a client may make a request that is checked. `name` is the
/// common name that its certificate bears, if it showed one with a name.
pub fn check_cert(security: &SecurityConfig, name: Option<&[u8]>) -> (r: bool)
    ensures
        r == security@.allows(crate::status::profile::header_view(name)),
{
    if security.cert_allowed_cn.len() == 0 {
        return true;
    }
    match name {
        Some(n) => match_peer_names(&security.cert_allowed_cn, n),
        None => false,
    }
}

/// What to do after a TLS handshake failed.
#[derive(Clone, Copy, Debug, PartialEq, Eq, Structural)]
pub enum AfterTlsError {
    /// Go on with the certificate in use.
    Keep,
    /// Load the certificate anew: its files have changed.
    Reload,
}

/// What to do after a TLS handshake failed: the certificate is loaded anew
/// where its files are known to have changed.
pub fn after_tls_error(files_changed: Option<bool>) -> (r: AfterTlsError)
    ensures
        r == if files_changed == Some(true) { AfterTlsError::Reload } else { AfterTlsError::Keep },
{
    match files_changed {
        Some(true) => AfterTlsError::Reload,
        _ => AfterTlsError::Keep,
    }
}

} // verus!
