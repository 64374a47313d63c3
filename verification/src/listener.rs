//! A TLS listener's configuration, and what it was built for.
use crate::tls;
use crate::tls::{KeyFormat, PrivateKey};
use rustls::pki_types::{
    CertificateDer, PrivatePkcs1KeyDer, PrivatePkcs8KeyDer, PrivateSec1KeyDer,
};
use std::sync::Arc;
use vstd::prelude::*;

verus! {

/// The TLS library's configuration of a listener, carried through as it is.
#[verifier::external_type_specification]
#[verifier::external_body]
pub struct ExServerConfig(rustls::ServerConfig);

/// An error of the TLS library; only the fact that there is one is used.
#[verifier::external_type_specification]
#[verifier::external_body]
pub struct ExRustlsError(rustls::Error);

/// What a TLS listener presents to its clients: a certificate chain, and the key that goes with it.
/// `asks_clients` tells whether it asks them for a certificate in turn.
pub struct Presented {
    pub chain: Seq<Seq<u8>>,
    pub format: KeyFormat,
    pub key: Seq<u8>,
    pub asks_clients: bool,
}

/// The configuration of a TLS listener. None can be made but out of a chain and a key, and what a
/// listener stands for is the two that it was made of.
pub struct TlsListener {
    config: rustls::ServerConfig,
    built_for: Ghost<Presented>,
}

impl View for TlsListener {
    type V = Presented;

    closed spec fn view(&self) -> Presented {
        self.built_for@
    }
}

impl TlsListener {
    /// The TLS library's configuration of this listener.
    pub closed spec fn config(self) -> rustls::ServerConfig {
        self.config
    }

    /// Hands out the TLS library's configuration, ready to be shared.
    pub fn into_config(self) -> (r: Arc<rustls::ServerConfig>)
        ensures
            *r == self.config(),
    {
        Arc::new(self.config)
    }
}

/// What a listener is to present, given a chain and a key; it asks no client for a certificate.
pub open spec fn presenting(chain: Seq<Seq<u8>>, format: KeyFormat, key: Seq<u8>) -> Presented {
    Presented { chain, format, key, asks_clients: false }
}

/// Whether rustls may answer a chain and a key with a configuration (`accepted`), or with an error
/// (not `accepted`). Under one cryptography provider only one of the two is so.
pub uninterp spec fn may_configure(
    chain: Seq<Seq<u8>>,
    format: KeyFormat,
    key: Seq<u8>,
    accepted: bool,
) -> bool;

/// `ServerConfig::builder`, `with_no_client_auth` and `with_single_cert` of rustls: the
/// configuration of a listener that presents this chain with this key and asks no client for a
/// certificate, or an error where the key cannot be read or does not belong to the first
/// certificate. `with_single_cert` keeps the chain and the key that it is given, and
/// `with_no_client_auth` has clients asked for nothing: that is what the listener stands for. Which
/// keys can be read rests on the cryptography provider that the process has installed, so all that
/// is said of which outcome there is, is that it is one that rustls may have for this chain and
/// this key. There must be such a provider, or `ServerConfig::builder` panics: rustls is built here
/// with exactly one, which it installs by itself where the program has installed none.
#[verifier::external_body]
pub(crate) fn build_config(certs: Vec<Vec<u8>>, key: PrivateKey) -> (r: Result<
    TlsListener,
    rustls::Error,
>)
    ensures
        may_configure(tls::ders(certs@), key.format, key.der@, r is Ok),
        r matches Ok(listener) ==> listener@ == presenting(
            tls::ders(certs@),
            key.format,
            key.der@,
        ),
{
    let built_for = Ghost(presenting(tls::ders(certs@), key.format, key.der@));
    let chain = certs.into_iter().map(CertificateDer::from).collect();
    let key = match key.format {
        KeyFormat::Pkcs1 => PrivatePkcs1KeyDer::from(key.der).into(),
        KeyFormat::Pkcs8 => PrivatePkcs8KeyDer::from(key.der).into(),
        KeyFormat::Sec1 => PrivateSec1KeyDer::from(key.der).into(),
    };
    let built = rustls::ServerConfig::builder().with_no_client_auth().with_single_cert(chain, key);
    built.map(|config| TlsListener { config, built_for })
}

/// What is to be presented is the chain and the key that are given, to clients that are asked for
/// nothing.
pub proof fn what_is_given_is_presented(chain: Seq<Seq<u8>>, format: KeyFormat, key: Seq<u8>)
    ensures
        presenting(chain, format, key).chain == chain,
        presenting(chain, format, key).format == format,
        presenting(chain, format, key).key == key,
        !presenting(chain, format, key).asks_clients,
{
}

} // verus!
