//! Certificates and keys of the server, and the TLS configuration made of
//! them. Clients have to show a certificate of one of the trusted authorities.

use std::sync::Arc;

use vstd::prelude::*;

use rustls::pki_types::{CertificateDer, PrivateKeyDer};
use rustls::server::WebPkiClientVerifier;
use rustls::{RootCertStore, ServerConfig as RustlsConfig};

use crate::session::byte_lists;
use crate::tls::tls_acceptable;

verus! {

/// Why there is no TLS configuration.
#[derive(Debug, Clone, Copy, PartialEq, Eq, Structural)]
pub enum TlsConfigError {
    /// The text is damaged.
    BadPem,
    /// The text holds no certificate.
    NoCertificates,
    /// The text holds no private key.
    NoPrivateKey,
    /// A certificate cannot be that of an authority.
    BadAuthority,
    /// There is no authority to trust.
    NoAuthority,
    /// The private key is invalid, or does not fit the certificate.
    BadKeyPair,
}

/// How a private key is encoded.
#[derive(Debug, Clone, Copy, PartialEq, Eq, Structural)]
pub enum KeyKind {
    Pkcs1,
    Sec1,
    Pkcs8,
}

/// A private key.
pub struct PrivateKey {
    pub kind: KeyKind,
    pub der: Vec<u8>,
}

/// The authorities that a TLS server trusts.
#[verifier::external_type_specification]
#[verifier::external_body]
pub struct ExRootCertStore(rustls::RootCertStore);

/// The certificates in a PEM text, in order; nothing if the text is damaged.
pub uninterp spec fn pem_certs_of(pem: Seq<u8>) -> Option<Seq<Seq<u8>>>;

/// The first private key in a PEM text, if there is one; nothing if the text
/// is damaged.
pub uninterp spec fn pem_private_key_of(pem: Seq<u8>) -> Option<Option<(KeyKind, Seq<u8>)>>;

/// Whether a certificate can be that of a trusted authority.
pub uninterp spec fn is_authority(der: Seq<u8>) -> bool;

/// The certificates of the authorities in a store.
pub uninterp spec fn authorities_of(store: RootCertStore) -> Seq<Seq<u8>>;

/// Whether a private key is valid and fits the first certificate of a chain.
pub uninterp spec fn key_fits(chain: Seq<Seq<u8>>, kind: KeyKind, der: Seq<u8>) -> bool;

/// What a configuration was made of: the certificates of the authorities that
/// it trusts, the chain that it shows, and the private key.
pub uninterp spec fn tls_identity_of(cfg: RustlsConfig) -> (
    Seq<Seq<u8>>,
    Seq<Seq<u8>>,
    KeyKind,
    Seq<u8>,
);

/// Calls `rustls_pemfile::certs` and collects what it yields; the result
/// depends on the text alone, and is named.
#[verifier::external_body]
fn pem_certs(pem: &[u8]) -> (r: Option<Vec<Vec<u8>>>)
    ensures
        match r {
            Some(certs) => pem_certs_of(pem@) == Some(byte_lists(certs@)),
            None => pem_certs_of(pem@) is None,
        },
{
    let mut rest = pem;
    rustls_pemfile::certs(&mut rest).map(|c| c.map(|der| der.to_vec()).ok()).collect()
}

/// Calls `rustls_pemfile::private_key`; the result depends on the text alone,
/// and is named. The three encodings are all that the call yields.
#[verifier::external_body]
fn pem_private_key(pem: &[u8]) -> (r: Option<Option<PrivateKey>>)
    ensures
        match r {
            Some(Some(key)) => pem_private_key_of(pem@) == Some(Some((key.kind, key.der@))),
            Some(None) => pem_private_key_of(pem@) == Some(None::<(KeyKind, Seq<u8>)>),
            None => pem_private_key_of(pem@) is None,
        },
{
    let mut rest = pem;
    let key = rustls_pemfile::private_key(&mut rest).ok()?;
    Some(key.and_then(|key| {
        let kind = match &key {
            PrivateKeyDer::Pkcs1(_) => KeyKind::Pkcs1,
            PrivateKeyDer::Sec1(_) => KeyKind::Sec1,
            PrivateKeyDer::Pkcs8(_) => KeyKind::Pkcs8,
            _ => return None,
        };
        Some(PrivateKey { kind, der: key.secret_der().to_vec() })
    }))
}

/// Calls `rustls::RootCertStore::empty`: a store without authorities.
#[verifier::external_body]
fn authorities_new() -> (store: RootCertStore)
    ensures
        authorities_of(store) == Seq::<Seq<u8>>::empty(),
{
    RootCertStore::empty()
}

/// Calls `rustls::RootCertStore::add`: a certificate that can be that of an
/// authority is added, and nothing changes otherwise. Whether it can depends
/// on the certificate alone, and is named.
#[verifier::external_body]
fn authorities_add(store: &mut RootCertStore, der: &[u8]) -> (ok: bool)
    ensures
        ok == is_authority(der@),
        authorities_of(*final(store)) == if ok {
            authorities_of(*old(store)).push(der@)
        } else {
            authorities_of(*old(store))
        },
{
    store.add(CertificateDer::from_slice(der)).is_ok()
}

/// Calls `with_single_cert` of a `rustls::ServerConfig` builder whose client
/// verifier comes from `rustls::server::WebPkiClientVerifier`, both with the
/// ring provider. It fails if there is no authority in the store, and if the
/// key does not fit the chain, which is named; else the configuration holds
/// what it was given, and connections can be set up with it, since the builder
/// leaves the fragment size at its default. What it makes of a handshake is
/// not stated.
#[verifier::external_body]
fn config_new(store: RootCertStore, chain: Vec<Vec<u8>>, key: PrivateKey) -> (r: Option<
    Arc<RustlsConfig>,
>)
    ensures
        (r is Some) == (authorities_of(store).len() > 0 && key_fits(
            byte_lists(chain@),
            key.kind,
            key.der@,
        )),
        match r {
            Some(cfg) => tls_identity_of(*cfg) == (
                authorities_of(store),
                byte_lists(chain@),
                key.kind,
                key.der@,
            ) && tls_acceptable(*cfg),
            None => true,
        },
{
    let provider = Arc::new(rustls::crypto::ring::default_provider());
    let key_der = match key.kind {
        KeyKind::Pkcs1 => PrivateKeyDer::Pkcs1(key.der.into()),
        KeyKind::Sec1 => PrivateKeyDer::Sec1(key.der.into()),
        KeyKind::Pkcs8 => PrivateKeyDer::Pkcs8(key.der.into()),
    };
    let clients = WebPkiClientVerifier::builder_with_provider(Arc::new(store), provider.clone());
    let builder = RustlsConfig::builder_with_provider(provider);
    let builder = builder.with_safe_default_protocol_versions().ok()?;
    let builder = builder.with_client_cert_verifier(clients.build().ok()?);
    let chain = chain.into_iter().map(CertificateDer::from).collect();
    builder.with_single_cert(chain, key_der).ok().map(Arc::new)
}

/// Reads the certificates of a PEM text; there must be one.
pub fn load_certs(pem: &[u8]) -> (r: Result<Vec<Vec<u8>>, TlsConfigError>)
    ensures
        match r {
            Ok(certs) => pem_certs_of(pem@) == Some(byte_lists(certs@)) && certs@.len() > 0,
            Err(e) => match pem_certs_of(pem@) {
                None => e == TlsConfigError::BadPem,
                Some(certs) => certs.len() == 0 && e == TlsConfigError::NoCertificates,
            },
        },
{
    match pem_certs(pem) {
        None => Err(TlsConfigError::BadPem),
        Some(certs) => {
            if certs.len() == 0 {
                Err(TlsConfigError::NoCertificates)
            } else {
                Ok(certs)
            }
        },
    }
}

/// Reads the first private key of a PEM text.
pub fn load_private_key(pem: &[u8]) -> (r: Result<PrivateKey, TlsConfigError>)
    ensures
        match r {
            Ok(key) => pem_private_key_of(pem@) == Some(Some((key.kind, key.der@))),
            Err(e) => match pem_private_key_of(pem@) {
                None => e == TlsConfigError::BadPem,
                Some(key) => key is None && e == TlsConfigError::NoPrivateKey,
            },
        },
{
    match pem_private_key(pem) {
        None => Err(TlsConfigError::BadPem),
        Some(None) => Err(TlsConfigError::NoPrivateKey),
        Some(Some(key)) => Ok(key),
    }
}

/// Makes the TLS configuration of the server: it shows `chain`, and accepts
/// clients with a certificate of one of the authorities `ca`. Connections can
/// be set up with it.
pub fn build_server_config(ca: Vec<Vec<u8>>, chain: Vec<Vec<u8>>, key: PrivateKey) -> (r: Result<
    Arc<RustlsConfig>,
    TlsConfigError,
>)
    ensures
        ({
            let accepted = forall|i: int| 0 <= i < ca@.len() ==> is_authority((#[trigger] ca@[i])@);
            let fits = key_fits(byte_lists(chain@), key.kind, key.der@);
            match r {
                Ok(cfg) => accepted && ca@.len() > 0 && fits && tls_identity_of(*cfg) == (
                    byte_lists(ca@),
                    byte_lists(chain@),
                    key.kind,
                    key.der@,
                ) && tls_acceptable(*cfg),
                Err(TlsConfigError::BadAuthority) => !accepted,
                Err(TlsConfigError::NoAuthority) => ca@.len() == 0,
                Err(TlsConfigError::BadKeyPair) => accepted && ca@.len() > 0 && !fits,
                Err(_) => false,
            }
        }),
{
    if ca.len() == 0 {
        return Err(TlsConfigError::NoAuthority);
    }
    let mut store: RootCertStore = authorities_new();
    let mut i: usize = 0;
    assert(authorities_of(store) =~= byte_lists(ca@).take(0));
    while i < ca.len()
        invariant
            i <= ca@.len(),
            authorities_of(store) == byte_lists(ca@).take(i as int),
            forall|j: int| 0 <= j < i ==> is_authority((#[trigger] ca@[j])@),
        decreases ca@.len() - i,
    {
        if !authorities_add(&mut store, ca[i].as_slice()) {
            return Err(TlsConfigError::BadAuthority);
        }
        i += 1;
        assert(authorities_of(store) =~= byte_lists(ca@).take(i as int));
    }
    assert(authorities_of(store) =~= byte_lists(ca@));
    match config_new(store, chain, key) {
        Some(cfg) => Ok(cfg),
        None => Err(TlsConfigError::BadKeyPair),
    }
}

} // verus!
