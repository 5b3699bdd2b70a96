//! Errors of the TLS acceptor setup, and the one decision it makes that is
//! plain data: picking the private key out of a parsed PEM item.
//!
//! Reading the certificate and key files, parsing PEM and building the TLS
//! configuration are the collaborators' work and stay outside this library;
//! they hand a parsed item in as a [`PemItem`] and take the chosen key back.

use vstd::prelude::*;

verus! {

/// Why building the TLS acceptor failed.
#[derive(Clone, Copy, Debug, PartialEq, Eq, Structural)]
pub enum Error {
    CertificateLoadError,
    PrivateKeyLoadError,
    TlsConfigError,
}

/// One item parsed out of a PEM file, as DER bytes.
#[derive(Debug, PartialEq, Eq)]
pub enum PemItem {
    X509Certificate(Vec<u8>),
    RSAKey(Vec<u8>),
    PKCS8Key(Vec<u8>),
    ECKey(Vec<u8>),
    Crl(Vec<u8>),
}

/// The private key of a key file's first PEM item: an RSA, PKCS#8 or SEC1
/// key is accepted as it is; anything else — a certificate, a revocation
/// list, or no item at all — is a key-load error.
pub fn select_private_key(item: Option<PemItem>) -> (r: Result<Vec<u8>, Error>)
    ensures
        match item {
            Option::Some(PemItem::RSAKey(k)) => r == Ok::<Vec<u8>, Error>(k),
            Option::Some(PemItem::PKCS8Key(k)) => r == Ok::<Vec<u8>, Error>(k),
            Option::Some(PemItem::ECKey(k)) => r == Ok::<Vec<u8>, Error>(k),
            _ => r == Err::<Vec<u8>, Error>(Error::PrivateKeyLoadError),
        },
{
    match item {
        Option::Some(PemItem::RSAKey(k)) => Ok(k),
        Option::Some(PemItem::PKCS8Key(k)) => Ok(k),
        Option::Some(PemItem::ECKey(k)) => Ok(k),
        _ => Err(Error::PrivateKeyLoadError),
    }
}

} // verus!

