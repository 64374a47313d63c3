//! The certificates and the key of the web kernel's TLS listener.
use crate::listener;
use crate::listener::TlsListener;
use rustls::pki_types::PrivateKeyDer;
use vstd::prelude::*;

verus! {

/// An error of the PEM reader; only the fact that there is one is used.
#[verifier::external_type_specification]
#[verifier::external_body]
pub struct ExIoError(std::io::Error);

/// How a private key is encoded.
#[derive(Clone, Copy, Debug, PartialEq, Eq, Structural)]
pub enum KeyFormat {
    Pkcs1,
    Pkcs8,
    Sec1,
}

/// A private key in its DER encoding.
pub struct PrivateKey {
    pub format: KeyFormat,
    pub der: Vec<u8>,
}

/// Why a TLS listener could not be configured.
pub enum TlsError {
    /// The file of the certificates is malformed.
    InvalidCertificates(std::io::Error),
    /// The file of the private key is malformed.
    InvalidPrivateKey(std::io::Error),
    /// The file of the private key holds no private key.
    NoPrivateKey,
    /// The certificates and the key cannot be used, or not together.
    Rejected(rustls::Error),
}

/// What `TlsError::NoPrivateKey` says.
pub const NO_PRIVATE_KEY: &'static str = "No private key found";

/// The byte strings of a list of byte strings.
pub open spec fn ders(v: Seq<Vec<u8>>) -> Seq<Seq<u8>> {
    v.map_values(|d: Vec<u8>| d@)
}

/// The format and the bytes of a key.
pub open spec fn key_parts(key: PrivateKey) -> (KeyFormat, Seq<u8>) {
    (key.format, key.der@)
}

/// The certificates in a PEM file, in order, as `rustls_pemfile::certs` finds them; `None` where
/// it comes upon an error.
pub uninterp spec fn pem_certificates(pem: Seq<u8>) -> Option<Seq<Seq<u8>>>;

/// The first private key in a PEM file, as `rustls_pemfile::private_key` finds it; `Some(None)`
/// where there is none, and `None` where it comes upon an error.
pub uninterp spec fn pem_private_key(pem: Seq<u8>) -> Option<Option<(KeyFormat, Seq<u8>)>>;

/// `rustls_pemfile::certs`, on a file that was read into memory: the certificates up to the end
/// of the file, or the first error, as the bytes alone determine.
#[verifier::external_body]
fn read_certs(pem: &[u8]) -> (r: Result<Vec<Vec<u8>>, std::io::Error>)
    ensures
        match r {
            Ok(certs) => pem_certificates(pem@) == Some(ders(certs@)),
            Err(_) => pem_certificates(pem@) is None,
        },
{
    let mut reader = pem;
    rustls_pemfile::certs(&mut reader).map(|cert| cert.map(|der| der.to_vec())).collect()
}

/// `rustls_pemfile::private_key`, on a file that was read into memory: the first private key in
/// any of its three formats, nothing, or an error, as the bytes alone determine. Its result has no
/// fourth kind of key, though its type leaves room for one.
#[verifier::external_body]
fn read_private_key(pem: &[u8]) -> (r: Result<Option<PrivateKey>, std::io::Error>)
    ensures
        match r {
            Ok(Some(key)) => pem_private_key(pem@) == Some(Some(key_parts(key))),
            Ok(None) => pem_private_key(pem@) == Some(None::<(KeyFormat, Seq<u8>)>),
            Err(_) => pem_private_key(pem@) is None,
        },
{
    let mut reader = pem;
    let found = match rustls_pemfile::private_key(&mut reader)? {
        Some(PrivateKeyDer::Pkcs1(key)) => Some((KeyFormat::Pkcs1, key.secret_pkcs1_der().to_vec())),
        Some(PrivateKeyDer::Pkcs8(key)) => Some((KeyFormat::Pkcs8, key.secret_pkcs8_der().to_vec())),
        Some(PrivateKeyDer::Sec1(key)) => Some((KeyFormat::Sec1, key.secret_sec1_der().to_vec())),
        _ => None,
    };
    Ok(found.map(|(format, der)| PrivateKey { format, der }))
}

/// The certificates that were read, or the error that says why not.
pub fn check_certs(read: Result<Vec<Vec<u8>>, std::io::Error>) -> (r: Result<
    Vec<Vec<u8>>,
    TlsError,
>)
    ensures
        r == (match read {
            Ok(certs) => Ok::<Vec<Vec<u8>>, TlsError>(certs),
            Err(e) => Err(TlsError::InvalidCertificates(e)),
        }),
{
    match read {
        Ok(certs) => Ok(certs),
        Err(e) => Err(TlsError::InvalidCertificates(e)),
    }
}

/// Reads the certificates of a PEM file.
pub fn load_certs(pem: &[u8]) -> (r: Result<Vec<Vec<u8>>, TlsError>)
    ensures
        match r {
            Ok(certs) => pem_certificates(pem@) == Some(ders(certs@)),
            Err(e) => e is InvalidCertificates && pem_certificates(pem@) is None,
        },
{
    check_certs(read_certs(pem))
}

/// The private key that was read, or the error that says why there is none.
pub fn check_private_key(read: Result<Option<PrivateKey>, std::io::Error>) -> (r: Result<
    PrivateKey,
    TlsError,
>)
    ensures
        r == (match read {
            Ok(Some(key)) => Ok::<PrivateKey, TlsError>(key),
            Ok(None) => Err(TlsError::NoPrivateKey),
            Err(e) => Err(TlsError::InvalidPrivateKey(e)),
        }),
{
    match read {
        Ok(Some(key)) => Ok(key),
        Ok(None) => Err(TlsError::NoPrivateKey),
        Err(e) => Err(TlsError::InvalidPrivateKey(e)),
    }
}

/// Reads the private key of a PEM file.
pub fn load_private_key(pem: &[u8]) -> (r: Result<PrivateKey, TlsError>)
    ensures
        match r {
            Ok(key) => pem_private_key(pem@) == Some(Some(key_parts(key))),
            Err(TlsError::NoPrivateKey) => pem_private_key(pem@) == Some(
                None::<(KeyFormat, Seq<u8>)>,
            ),
            Err(e) => e is InvalidPrivateKey && pem_private_key(pem@) is None,
        },
{
    check_private_key(read_private_key(pem))
}

/// The listener that was built, or the error that says why not.
pub fn check_config(built: Result<TlsListener, rustls::Error>) -> (r: Result<TlsListener, TlsError>)
    ensures
        r == (match built {
            Ok(listener) => Ok::<TlsListener, TlsError>(listener),
            Err(e) => Err(TlsError::Rejected(e)),
        }),
{
    match built {
        Ok(listener) => Ok(listener),
        Err(e) => Err(TlsError::Rejected(e)),
    }
}

/// Configures a TLS listener that presents this certificate chain with this key and asks no client
/// for a certificate. Whether the chain and the key are accepted is up to the cryptography
/// provider; they are handed to it as they are.
pub fn server_config(certs: Vec<Vec<u8>>, key: PrivateKey) -> (r: Result<TlsListener, TlsError>)
    ensures
        listener::may_configure(ders(certs@), key.format, key.der@, r is Ok),
        match r {
            Ok(listener) => listener@ == listener::presenting(
                ders(certs@),
                key.format,
                key.der@,
            ),
            Err(e) => e is Rejected,
        },
{
    check_config(listener::build_config(certs, key))
}

/// Configures a TLS listener from the PEM files of its certificates and its private key. The
/// certificates are looked at first, then the key, and only then whether the two are accepted.
pub fn tls_config(cert_pem: &[u8], key_pem: &[u8]) -> (r: Result<TlsListener, TlsError>)
    ensures
        r matches Err(TlsError::InvalidCertificates(_)) <==> pem_certificates(cert_pem@) is None,
        r matches Err(TlsError::InvalidPrivateKey(_)) <==> pem_certificates(cert_pem@) is Some
            && pem_private_key(key_pem@) is None,
        r matches Err(TlsError::NoPrivateKey) <==> pem_certificates(cert_pem@) is Some
            && pem_private_key(key_pem@) == Some(None::<(KeyFormat, Seq<u8>)>),
        match (pem_certificates(cert_pem@), pem_private_key(key_pem@)) {
            (Some(chain), Some(Some((format, key)))) => {
                &&& listener::may_configure(chain, format, key, r is Ok)
                &&& match r {
                    Ok(listener) => listener@ == listener::presenting(chain, format, key),
                    Err(e) => e is Rejected,
                }
            },
            _ => r is Err,
        },
{
    let certs = match load_certs(cert_pem) {
        Ok(certs) => certs,
        Err(e) => return Err(e),
    };
    let key = match load_private_key(key_pem) {
        Ok(key) => key,
        Err(e) => return Err(e),
    };
    server_config(certs, key)
}

/// A list of certificates stands for the bytes of each of them, in order, and a key for its format
/// and its bytes.
pub proof fn every_byte_is_there(certs: Seq<Vec<u8>>, key: PrivateKey, i: int)
    requires
        0 <= i < certs.len(),
    ensures
        ders(certs).len() == certs.len(),
        ders(certs)[i] == certs[i]@,
        key_parts(key).0 == key.format,
        key_parts(key).1 == key.der@,
{
}

} // verus!
