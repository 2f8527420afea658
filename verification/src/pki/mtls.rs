//! Mutual TLS: configurations for both ends, and what a peer's certificate says.

use std::sync::Arc;

use rustls::crypto::ring::default_provider;
use rustls::pki_types::CertificateDer;
use rustls::server::WebPkiClientVerifier;
use rustls::version::{TLS12, TLS13};
use rustls::{ClientConfig, ServerConfig};
use vstd::prelude::*;
use x509_parser::certificate::X509Certificate;
use x509_parser::prelude::FromDer;

use crate::pki::error::Error;
use crate::pki::error::ErrorView;
use crate::pki::mtls::PeerCertificate::{Optional, Required};
use crate::pki::mtls::ServerFault::{Refused, Verifier};
use crate::pki::mtls::TlsVersion::{Tls12, Tls13};

verus! {

#[verifier::external_type_specification]
#[verifier::external_body]
pub struct ExRootCertStore(rustls::RootCertStore);

#[verifier::external_type_specification]
#[verifier::external_body]
pub struct ExServerConfig(rustls::ServerConfig);

#[verifier::external_type_specification]
#[verifier::external_body]
pub struct ExClientConfig(rustls::ClientConfig);

#[verifier::external_type_specification]
#[verifier::external_body]
pub struct ExPrivateKeyDer<'a>(rustls::pki_types::PrivateKeyDer<'a>);

/// The certificates of a chain as byte sequences.
pub open spec fn der_bytes(certs: Seq<Vec<u8>>) -> Seq<Seq<u8>> {
    certs.map_values(|c: Vec<u8>| c@)
}

/// A text, or the message that says why there is none, as sequences of characters.
pub open spec fn name_view(name: Result<String, String>) -> Result<Seq<char>, Seq<char>> {
    match name {
        Ok(s) => Ok(s@),
        Err(m) => Err(m@),
    }
}

/// The names of a subject as sequences of characters.
pub open spec fn name_views(names: Seq<Result<String, String>>) -> Seq<
    Result<Seq<char>, Seq<char>>,
> {
    names.map_values(|n: Result<String, String>| name_view(n))
}

/// The certificates that `rustls_pemfile::certs` finds in a PEM text, each in DER, or the
/// message of the error that it stops at.
pub uninterp spec fn pem_certificates(pem: Seq<char>) -> Result<Seq<Seq<u8>>, Seq<char>>;

/// What `rustls_pemfile::private_key` finds in a PEM text: whether there is a private key
/// in it, or the message of the error that it stops at.
pub uninterp spec fn pem_private_key(pem: Seq<char>) -> Result<bool, Seq<char>>;

/// What `rustls::RootCertStore::add` has against a certificate, as its error's message;
/// `None` where it takes it.
pub uninterp spec fn root_fault(der: Seq<u8>) -> Option<Seq<char>>;

/// The certificates that a root store holds, in the order in which they were added.
pub uninterp spec fn trusted_roots(store: rustls::RootCertStore) -> Seq<Seq<u8>>;

/// What is read off a certificate: the common names in its subject, each as text or as the
/// message that says why it is none, its public key in DER, and between which seconds since
/// 1970 it is valid.
pub struct Fields {
    pub common_names: Vec<Result<String, String>>,
    pub public_key: Vec<u8>,
    pub not_before: i64,
    pub not_after: i64,
}

/// What [`Fields`] say.
#[verifier::ext_equal]
pub struct FieldsView {
    pub common_names: Seq<Result<Seq<char>, Seq<char>>>,
    pub public_key: Seq<u8>,
    pub not_before: int,
    pub not_after: int,
}

impl View for Fields {
    type V = FieldsView;

    open spec fn view(&self) -> FieldsView {
        FieldsView {
            common_names: name_views(self.common_names@),
            public_key: self.public_key@,
            not_before: self.not_before as int,
            not_after: self.not_after as int,
        }
    }
}

/// What `x509_parser` reads off a certificate in DER, or the message of the error that it
/// stops at.
pub uninterp spec fn certificate_fields(der: Seq<u8>) -> Result<FieldsView, Seq<char>>;

/// The common names in the subject of a certificate, or the message of the error at which its
/// reading stops.
pub open spec fn subject_common_names(der: Seq<u8>) -> Result<
    Seq<Result<Seq<char>, Seq<char>>>,
    Seq<char>,
> {
    match certificate_fields(der) {
        Ok(fields) => Ok(fields.common_names),
        Err(m) => Err(m),
    }
}

/// What `x509_parser` has against the signature of the certificate `leaf` under the public
/// key of the certificate `ca`, as its error's message; `None` where the signature holds.
pub uninterp spec fn signature_fault(leaf: Seq<u8>, ca: Seq<u8>) -> Option<Seq<char>>;

/// A private key for TLS.
struct PrivateKey {
    inner: rustls::pki_types::PrivateKeyDer<'static>,
    source: Ghost<Seq<char>>,
}

impl PrivateKey {
    /// The PEM text that the key was read from.
    closed spec fn pem(self) -> Seq<char> {
        self.source@
    }
}

/// A version of TLS.
pub enum TlsVersion {
    Tls12,
    Tls13,
}

/// Whether the other end must show a certificate.
pub enum PeerCertificate {
    /// Who shows none is turned away.
    Required,
    /// Who shows none is let in, too.
    Optional,
}

/// One end of a mutual-TLS connection: the chain that it shows, the key that it proves it
/// with, the roots that it holds the other end's certificate to, whether the other end must
/// show one, and the versions that it speaks.
#[verifier::ext_equal]
pub struct TlsMaterial {
    pub chain: Seq<Seq<u8>>,
    pub key_pem: Seq<char>,
    pub trusted: Seq<Seq<u8>>,
    pub peer: PeerCertificate,
    pub versions: Seq<TlsVersion>,
}

/// TLS 1.3 and no other version.
pub open spec fn only_tls13() -> Seq<TlsVersion> {
    seq![TlsVersion::Tls13]
}

/// One end that shows `chain`, proves it with the key in `key_pem`, holds the other end's
/// certificate to `roots` and speaks one version.
pub open spec fn material_of(
    chain: Seq<Vec<u8>>,
    key_pem: Seq<char>,
    roots: rustls::RootCertStore,
    peer: PeerCertificate,
    version: TlsVersion,
) -> TlsMaterial {
    TlsMaterial {
        chain: der_bytes(chain),
        key_pem,
        trusted: trusted_roots(roots),
        peer,
        versions: seq![version],
    }
}

/// Why a server's configuration was not made.
enum ServerFault {
    /// No verifier of client certificates can be made.
    Verifier(String),
    /// The TLS library refused the chain or the key.
    Refused(String),
}

/// The server's end. It speaks TLS 1.3 only and turns away clients without a certificate
/// from one of its roots.
pub struct ServerTls {
    inner: rustls::ServerConfig,
    made_of: Ghost<TlsMaterial>,
}

impl ServerTls {
    /// What the configuration was made of.
    pub closed spec fn material(self) -> TlsMaterial {
        self.made_of@
    }

    /// The configuration as the TLS library takes it.
    pub fn into_config(self) -> (r: rustls::ServerConfig)
        ensures
            r == self.config(),
    {
        self.inner
    }

    /// The configuration as the TLS library takes it.
    pub closed spec fn config(self) -> rustls::ServerConfig {
        self.inner
    }
}

/// The client's end. It speaks TLS 1.3 only and shows its own certificate.
pub struct ClientTls {
    inner: rustls::ClientConfig,
    made_of: Ghost<TlsMaterial>,
}

impl ClientTls {
    /// What the configuration was made of.
    pub closed spec fn material(self) -> TlsMaterial {
        self.made_of@
    }

    /// The configuration as the TLS library takes it.
    pub fn into_config(self) -> (r: rustls::ClientConfig)
        ensures
            r == self.config(),
    {
        self.inner
    }

    /// The configuration as the TLS library takes it.
    pub closed spec fn config(self) -> rustls::ClientConfig {
        self.inner
    }
}

/// The certificates in a PEM text, each in DER.
///
/// Calls `rustls_pemfile::certs` on the text in memory: what it finds depends on the text
/// alone, and the first error ends the reading.
#[verifier::external_body]
fn read_certificates(pem: &str) -> (r: Result<Vec<Vec<u8>>, String>)
    ensures
        match r {
            Ok(certs) => pem_certificates(pem@) == Ok::<Seq<Seq<u8>>, Seq<char>>(
                der_bytes(certs@),
            ),
            Err(m) => pem_certificates(pem@) == Err::<Seq<Seq<u8>>, Seq<char>>(m@),
        },
{
    rustls_pemfile::certs(&mut std::io::BufReader::new(pem.as_bytes()))
        .map(|c| c.map(|der| der.as_ref().to_vec()).map_err(|e| e.to_string()))
        .collect()
}

/// The first private key in a PEM text.
///
/// Calls `rustls_pemfile::private_key` on the text in memory: what it finds depends on the
/// text alone.
#[verifier::external_body]
fn read_private_key(pem: &str) -> (r: Result<Option<PrivateKey>, String>)
    ensures
        match r {
            Ok(Some(key)) => pem_private_key(pem@) == Ok::<bool, Seq<char>>(true) && key.pem()
                == pem@,
            Ok(None) => pem_private_key(pem@) == Ok::<bool, Seq<char>>(false),
            Err(m) => pem_private_key(pem@) == Err::<bool, Seq<char>>(m@),
        },
{
    match rustls_pemfile::private_key(&mut std::io::BufReader::new(pem.as_bytes())) {
        Ok(Some(inner)) => Ok(Some(PrivateKey { inner, source: Ghost(pem@) })),
        Ok(None) => Ok(None),
        Err(e) => Err(e.to_string()),
    }
}

/// A root store without certificates: `rustls::RootCertStore::empty`.
#[verifier::external_body]
fn empty_roots() -> (r: rustls::RootCertStore)
    ensures
        trusted_roots(r) == Seq::<Seq<u8>>::empty(),
{
    rustls::RootCertStore::empty()
}

/// Puts one more certificate into a root store.
///
/// Calls `rustls::RootCertStore::add`, which parses the certificate and, where that
/// succeeds, appends it; whether it does, and the message otherwise, depends on the
/// certificate's bytes alone.
#[verifier::external_body]
fn add_root(store: &mut rustls::RootCertStore, der: &Vec<u8>) -> (r: Result<(), String>)
    ensures
        match r {
            Ok(_) => root_fault(der@) is None && trusted_roots(*final(store)) == trusted_roots(
                *old(store),
            ).push(der@),
            Err(m) => root_fault(der@) == Some(m@) && trusted_roots(*final(store))
                == trusted_roots(*old(store)),
        },
{
    store.add(CertificateDer::from(der.clone())).map_err(|e| e.to_string())
}

/// The server's configuration: the one version `version`, client certificates verified
/// against `roots` and asked for as `peer` says, the given chain and key.
///
/// Makes a verifier with `rustls::server::WebPkiClientVerifier::builder_with_provider`, its
/// `allow_unauthenticated` where a client may go without a certificate, and `build`. Without
/// revocation lists `build` refuses the empty store only, with a fixed message. Then calls
/// `rustls::ServerConfig::builder_with_provider`, `with_protocol_versions`,
/// `with_client_cert_verifier` and `with_single_cert`. The last one loads the key, which may
/// draw on randomness, and refuses a key that does not belong to the chain; no success is
/// claimed.
#[verifier::external_body]
fn build_server(
    chain: Vec<Vec<u8>>,
    key: PrivateKey,
    roots: rustls::RootCertStore,
    peer: PeerCertificate,
    version: TlsVersion,
) -> (r: Result<ServerTls, ServerFault>)
    ensures
        match r {
            Ok(tls) => trusted_roots(roots).len() > 0 && tls.material() == material_of(
                chain@,
                key.pem(),
                roots,
                peer,
                version,
            ),
            Err(ServerFault::Verifier(m)) => trusted_roots(roots).len() == 0 && m@
                == "no root trust anchors were provided"@,
            Err(ServerFault::Refused(_)) => trusted_roots(roots).len() > 0,
        },
{
    let made_of = Ghost(material_of(chain@, key.pem(), roots, peer, version));
    let speaks = match version { Tls12 => &TLS12, Tls13 => &TLS13 };
    let provider = Arc::new(default_provider());
    let certs = chain.into_iter().map(CertificateDer::from).collect();
    let asks = WebPkiClientVerifier::builder_with_provider(Arc::new(roots), provider.clone());
    let verifier = match peer {
        Required => asks,
        Optional => asks.allow_unauthenticated(),
    }.build().map_err(|e| Verifier(e.to_string()))?;
    let inner = ServerConfig::builder_with_provider(provider).with_protocol_versions(&[speaks])
        .and_then(|b| b.with_client_cert_verifier(verifier).with_single_cert(certs, key.inner))
        .map_err(|e| Refused(e.to_string()))?;
    Ok(ServerTls { inner, made_of })
}

/// The client's configuration: the one version `version`, the server verified against
/// `roots`, the given chain and key. TLS has every server show a certificate.
///
/// Calls `rustls::ClientConfig::builder_with_provider`, `with_protocol_versions`,
/// `with_root_certificates` and `with_client_auth_cert`. The last one loads the key, which
/// may draw on randomness, and refuses a key that does not belong to the chain; no success
/// is claimed.
#[verifier::external_body]
fn build_client(
    chain: Vec<Vec<u8>>,
    key: PrivateKey,
    roots: rustls::RootCertStore,
    version: TlsVersion,
) -> (r: Result<ClientTls, String>)
    ensures
        r matches Ok(tls) ==> tls.material() == material_of(
            chain@,
            key.pem(),
            roots,
            PeerCertificate::Required,
            version,
        ),
{
    let made_of = Ghost(material_of(chain@, key.pem(), roots, Required, version));
    let speaks = match version { Tls12 => &TLS12, Tls13 => &TLS13 };
    let provider = Arc::new(default_provider());
    let certs = chain.into_iter().map(CertificateDer::from).collect();
    let inner = ClientConfig::builder_with_provider(provider).with_protocol_versions(&[speaks])
        .and_then(|b| b.with_root_certificates(roots).with_client_auth_cert(certs, key.inner))
        .map_err(|e| e.to_string())?;
    Ok(ClientTls { inner, made_of })
}

/// What is read off a certificate in DER.
///
/// Calls `x509_parser::certificate::X509Certificate::from_der`; of the certificate its
/// `subject` with `iter_common_name` and `as_str` on each name, the `raw` bytes of its
/// `public_key`, and its `validity` in seconds. All of them read the bytes and nothing else;
/// bytes that follow the certificate are not looked at.
#[verifier::external_body]
fn read_certificate(der: &Vec<u8>) -> (r: Result<Fields, String>)
    ensures
        match r {
            Ok(fields) => certificate_fields(der@) == Ok::<FieldsView, Seq<char>>(fields@),
            Err(m) => certificate_fields(der@) == Err::<FieldsView, Seq<char>>(m@),
        },
{
    let (_rest, cert) = X509Certificate::from_der(der).map_err(|e| e.to_string())?;
    let names = cert.subject().iter_common_name();
    Ok(Fields {
        common_names: names
            .map(|cn| cn.as_str().map(|s| s.to_owned()).map_err(|e| e.to_string()))
            .collect(),
        public_key: cert.public_key().raw.to_vec(),
        not_before: cert.validity().not_before.timestamp(),
        not_after: cert.validity().not_after.timestamp(),
    })
}

/// Checks the signature on one certificate with the public key of another, both in DER.
///
/// Calls `verify_signature` on `x509_parser::certificate::X509Certificate`, which computes
/// from the two certificates alone. Bytes that are no certificates are ruled out.
#[verifier::external_body]
fn check_signature(leaf: &Vec<u8>, ca: &Vec<u8>) -> (r: Result<(), String>)
    requires
        certificate_fields(leaf@) is Ok,
        certificate_fields(ca@) is Ok,
    ensures
        match r {
            Ok(_) => signature_fault(leaf@, ca@) is None,
            Err(m) => signature_fault(leaf@, ca@) == Some(m@),
        },
{
    let (_, signer) = X509Certificate::from_der(ca).map_err(|e| e.to_string())?;
    let (_, signed) = X509Certificate::from_der(leaf).map_err(|e| e.to_string())?;
    signed.verify_signature(Some(signer.public_key())).map_err(|e| e.to_string())
}

/// What [`certs_from_pem`] answers.
pub open spec fn certs_outcome(pem: Seq<char>) -> Result<Seq<Seq<u8>>, ErrorView> {
    match pem_certificates(pem) {
        Ok(certs) => Ok(certs),
        Err(m) => Err(ErrorView::Pem(m)),
    }
}

/// Reading a private key from PEM text: `None` where there is one, or the error.
pub open spec fn private_key_fault(pem: Seq<char>) -> Option<ErrorView> {
    match pem_private_key(pem) {
        Ok(true) => None,
        Ok(false) => Some(ErrorView::Pem("no private key found in PEM"@)),
        Err(m) => Some(ErrorView::Pem(m)),
    }
}

/// The first of `certs` that no root store takes, as the message against it.
pub open spec fn first_root_fault(certs: Seq<Seq<u8>>) -> Option<Seq<char>>
    decreases certs.len(),
{
    if certs.len() == 0 {
        None
    } else {
        match root_fault(certs[0]) {
            Some(m) => Some(m),
            None => first_root_fault(certs.drop_first()),
        }
    }
}

/// The roots in a PEM text: all of its certificates, or the first error.
pub open spec fn roots_outcome(pem: Seq<char>) -> Result<Seq<Seq<u8>>, ErrorView> {
    match certs_outcome(pem) {
        Err(e) => Err(e),
        Ok(certs) => match first_root_fault(certs) {
            Some(m) => Err(ErrorView::CertVerification(m)),
            None => Ok(certs),
        },
    }
}

/// Reading the three PEM texts of one end of a connection, in the order chain, key, roots:
/// what the configuration will be made of, or the first error.
pub open spec fn material_outcome(
    cert_pem: Seq<char>,
    key_pem: Seq<char>,
    roots_pem: Seq<char>,
) -> Result<TlsMaterial, ErrorView> {
    match certs_outcome(cert_pem) {
        Err(e) => Err(e),
        Ok(chain) => match private_key_fault(key_pem) {
            Some(e) => Err(e),
            None => match roots_outcome(roots_pem) {
                Err(e) => Err(e),
                Ok(trusted) => Ok(
                    TlsMaterial {
                        chain,
                        key_pem,
                        trusted,
                        peer: PeerCertificate::Required,
                        versions: only_tls13(),
                    },
                ),
            },
        },
    }
}

/// The certificates in a PEM text.
pub fn certs_from_pem(pem: &str) -> (r: Result<Vec<Vec<u8>>, Error>)
    ensures
        match r {
            Ok(certs) => certs_outcome(pem@) == Ok::<Seq<Seq<u8>>, ErrorView>(der_bytes(certs@)),
            Err(e) => certs_outcome(pem@) == Err::<Seq<Seq<u8>>, ErrorView>(e@),
        },
{
    match read_certificates(pem) {
        Ok(certs) => Ok(certs),
        Err(m) => Err(Error::Pem(m)),
    }
}

/// The private key in a PEM text.
fn private_key_from_pem(pem: &str) -> (r: Result<PrivateKey, Error>)
    ensures
        match r {
            Ok(key) => private_key_fault(pem@) is None && key.pem() == pem@,
            Err(e) => private_key_fault(pem@) == Some(e@),
        },
{
    match read_private_key(pem) {
        Ok(Some(key)) => Ok(key),
        Ok(None) => Err(Error::Pem("no private key found in PEM".to_owned())),
        Err(m) => Err(Error::Pem(m)),
    }
}

/// A root store of all the certificates in a PEM text.
fn root_store_from_pem(pem: &str) -> (r: Result<rustls::RootCertStore, Error>)
    ensures
        match r {
            Ok(store) => roots_outcome(pem@) == Ok::<Seq<Seq<u8>>, ErrorView>(
                trusted_roots(store),
            ),
            Err(e) => roots_outcome(pem@) == Err::<Seq<Seq<u8>>, ErrorView>(e@),
        },
{
    let mut store: rustls::RootCertStore = empty_roots();
    let certs: Vec<Vec<u8>> = match certs_from_pem(pem) {
        Ok(c) => c,
        Err(e) => return Err(e),
    };
    let ghost all = der_bytes(certs@);
    assert(all.skip(0) =~= all);
    let mut i: usize = 0;
    while i < certs.len()
        invariant
            i <= certs.len(),
            all == der_bytes(certs@),
            certs_outcome(pem@) == Ok::<Seq<Seq<u8>>, ErrorView>(all),
            trusted_roots(store) == all.take(i as int),
            first_root_fault(all) == first_root_fault(all.skip(i as int)),
        decreases certs.len() - i,
    {
        proof {
            assert(all.skip(i as int)[0] == certs@[i as int]@);
            assert(all.skip(i as int).drop_first() =~= all.skip(i + 1));
            assert(all.take(i as int).push(certs@[i as int]@) =~= all.take(i + 1));
        }
        match add_root(&mut store, &certs[i]) {
            Ok(_) => {},
            Err(m) => return Err(Error::CertVerification(m)),
        }
        i = i + 1;
    }
    assert(all.take(i as int) =~= all);
    Ok(store)
}

/// The server's end of a mutual-TLS connection, from PEM texts: its chain, its key, and the
/// authorities of the clients that it lets in. A client without a certificate is turned away,
/// and so is one that does not speak TLS 1.3.
pub fn server_tls_config(cert_pem: &str, key_pem: &str, client_ca_pem: &str) -> (r: Result<
    ServerTls,
    Error,
>)
    ensures
        match material_outcome(cert_pem@, key_pem@, client_ca_pem@) {
            Err(fault) => r matches Err(e) && e@ == fault,
            Ok(material) => if material.trusted.len() == 0 {
                r matches Err(e) && e@ == ErrorView::CertVerification(
                    "no root trust anchors were provided"@,
                )
            } else {
                match r {
                    Ok(tls) => tls.material() == material,
                    Err(e) => e@ is Tls,
                }
            },
        },
        r matches Ok(tls) ==> tls.material().peer is Required && tls.material().versions
            == only_tls13(),
{
    let chain: Vec<Vec<u8>> = match certs_from_pem(cert_pem) {
        Ok(c) => c,
        Err(e) => return Err(e),
    };
    let key: PrivateKey = match private_key_from_pem(key_pem) {
        Ok(k) => k,
        Err(e) => return Err(e),
    };
    let roots: rustls::RootCertStore = match root_store_from_pem(client_ca_pem) {
        Ok(s) => s,
        Err(e) => return Err(e),
    };
    match build_server(chain, key, roots, PeerCertificate::Required, TlsVersion::Tls13) {
        Ok(tls) => Ok(tls),
        Err(ServerFault::Verifier(m)) => Err(Error::CertVerification(m)),
        Err(ServerFault::Refused(m)) => Err(Error::Tls(m)),
    }
}

/// The client's end of a mutual-TLS connection, from PEM texts: its chain, its key, and the
/// authorities of the servers that it trusts.
pub fn client_tls_config(cert_pem: &str, key_pem: &str, server_ca_pem: &str) -> (r: Result<
    ClientTls,
    Error,
>)
    ensures
        match material_outcome(cert_pem@, key_pem@, server_ca_pem@) {
            Err(fault) => r matches Err(e) && e@ == fault,
            Ok(material) => match r {
                Ok(tls) => tls.material() == material,
                Err(e) => e@ is Tls,
            },
        },
{
    let chain: Vec<Vec<u8>> = match certs_from_pem(cert_pem) {
        Ok(c) => c,
        Err(e) => return Err(e),
    };
    let key: PrivateKey = match private_key_from_pem(key_pem) {
        Ok(k) => k,
        Err(e) => return Err(e),
    };
    let roots: rustls::RootCertStore = match root_store_from_pem(server_ca_pem) {
        Ok(s) => s,
        Err(e) => return Err(e),
    };
    match build_client(chain, key, roots, TlsVersion::Tls13) {
        Ok(tls) => Ok(tls),
        Err(m) => Err(Error::Tls(m)),
    }
}

/// The serial in a subject, given its common names: the first of them.
pub open spec fn first_name(names: Seq<Result<Seq<char>, Seq<char>>>) -> Result<
    Seq<char>,
    ErrorView,
> {
    if names.len() == 0 {
        Err(ErrorView::Pem("no CN in subject"@))
    } else {
        match names[0] {
            Ok(cn) => Ok(cn),
            Err(m) => Err(ErrorView::Pem(m)),
        }
    }
}

/// What [`extract_serial`] answers.
pub open spec fn serial_outcome(peer_certs: Seq<Seq<u8>>) -> Result<Seq<char>, ErrorView> {
    if peer_certs.len() == 0 {
        Err(ErrorView::NoPeerCert)
    } else {
        match subject_common_names(peer_certs[0]) {
            Err(m) => Err(ErrorView::Pem(m)),
            Ok(names) => first_name(names),
        }
    }
}

/// The serial in a subject, given its common names.
pub fn serial_from_names(names: Vec<Result<String, String>>) -> (r: Result<String, Error>)
    ensures
        match r {
            Ok(cn) => first_name(name_views(names@)) == Ok::<Seq<char>, ErrorView>(cn@),
            Err(e) => first_name(name_views(names@)) == Err::<Seq<char>, ErrorView>(e@),
        },
{
    if names.len() == 0 {
        return Err(Error::Pem("no CN in subject".to_owned()));
    }
    match &names[0] {
        Ok(cn) => Ok(cn.clone()),
        Err(m) => Err(Error::Pem(m.clone())),
    }
}

/// Extracts the subject's common name from the first certificate of the peer's chain. It
/// is the serial of the device throughout the fleet.
pub fn extract_serial(peer_certs: &Vec<Vec<u8>>) -> (r: Result<String, Error>)
    ensures
        match r {
            Ok(serial) => serial_outcome(der_bytes(peer_certs@)) == Ok::<Seq<char>, ErrorView>(
                serial@,
            ),
            Err(e) => serial_outcome(der_bytes(peer_certs@)) == Err::<Seq<char>, ErrorView>(e@),
        },
{
    if peer_certs.len() == 0 {
        return Err(Error::NoPeerCert);
    }
    match read_certificate(&peer_certs[0]) {
        Ok(fields) => serial_from_names(fields.common_names),
        Err(m) => Err(Error::Pem(m)),
    }
}

/// What [`verify_signed_by`] has against the first of `peer_certs` as a certificate signed
/// by the first certificate in `ca_pem`; `None` where it accepts it.
pub open spec fn signer_fault(peer_certs: Seq<Seq<u8>>, ca_pem: Seq<char>) -> Option<ErrorView> {
    if peer_certs.len() == 0 {
        Some(ErrorView::NoPeerCert)
    } else {
        match certs_outcome(ca_pem) {
            Err(e) => Some(e),
            Ok(cas) => if cas.len() == 0 {
                Some(ErrorView::Pem("no certificate in CA PEM"@))
            } else {
                match (subject_common_names(cas[0]), subject_common_names(peer_certs[0])) {
                    (Err(m), _) => Some(ErrorView::CertVerification(m)),
                    (Ok(_), Err(m)) => Some(ErrorView::CertVerification(m)),
                    (Ok(_), Ok(_)) => match signature_fault(peer_certs[0], cas[0]) {
                        Some(m) => Some(ErrorView::CertVerification(m)),
                        None => None,
                    },
                }
            },
        }
    }
}

/// Verifies that the leaf certificate in `peer_certs` was signed by the authority whose
/// certificate comes first in `ca_pem`.
pub fn verify_signed_by(peer_certs: &Vec<Vec<u8>>, ca_pem: &str) -> (r: Result<(), Error>)
    ensures
        match r {
            Ok(_) => signer_fault(der_bytes(peer_certs@), ca_pem@) is None,
            Err(e) => signer_fault(der_bytes(peer_certs@), ca_pem@) == Some(e@),
        },
{
    if peer_certs.len() == 0 {
        return Err(Error::NoPeerCert);
    }
    let cas: Vec<Vec<u8>> = match certs_from_pem(ca_pem) {
        Ok(c) => c,
        Err(e) => return Err(e),
    };
    if cas.len() == 0 {
        return Err(Error::Pem("no certificate in CA PEM".to_owned()));
    }
    match read_certificate(&cas[0]) {
        Ok(_) => {},
        Err(m) => return Err(Error::CertVerification(m)),
    }
    match read_certificate(&peer_certs[0]) {
        Ok(_) => {},
        Err(m) => return Err(Error::CertVerification(m)),
    }
    match check_signature(&peer_certs[0], &cas[0]) {
        Ok(_) => Ok(()),
        Err(m) => Err(Error::CertVerification(m)),
    }
}

} // verus!
