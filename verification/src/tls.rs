//! TLS toward a target: which connections use it, with which roots, identity and protocols.
pub mod cache;
pub mod laws;

use crate::config::{Target, TargetView};
use crate::text;
use crate::tls::cache::{loaded_contents, LoadStep, Slot, SlotView};
use rustls::crypto::CryptoProvider;
use rustls::{ClientConfig, RootCertStore};
use rustls_pki_types::{CertificateDer, PrivateKeyDer, ServerName, TrustAnchor};
use std::sync::Arc;
use tokio_rustls::TlsConnector;
use vstd::prelude::*;
use vstd::string::StrSliceExecFns;

verus! {

/// The contents of a file, shared.
pub type Bytes = Arc<Vec<u8>>;

/// A TLS connector of `tokio_rustls`.
#[verifier::external_type_specification]
#[verifier::external_body]
pub struct ExTlsConnector(TlsConnector);

/// A server name of `rustls_pki_types`.
#[verifier::external_type_specification]
#[verifier::external_body]
pub struct ExServerName<'a>(ServerName<'a>);

/// A private key of `rustls_pki_types`.
#[verifier::external_type_specification]
#[verifier::external_body]
pub struct ExPrivateKeyDer<'a>(PrivateKeyDer<'a>);

/// A client configuration of `rustls`.
#[verifier::external_type_specification]
#[verifier::external_body]
pub struct ExClientConfig(ClientConfig);

/// A store of root certificates of `rustls`.
#[verifier::external_type_specification]
#[verifier::external_body]
pub struct ExRootCertStore(RootCertStore);

/// A cryptography provider of `rustls`.
#[verifier::external_type_specification]
#[verifier::external_body]
pub struct ExCryptoProvider(CryptoProvider);

/// A trust anchor of `rustls_pki_types`.
#[verifier::external_type_specification]
#[verifier::external_body]
pub struct ExTrustAnchor<'a>(TrustAnchor<'a>);

/// The bytes of an item of a PEM file, or why it cannot be read.
pub open spec fn item_view(item: Result<Vec<u8>, String>) -> Result<Seq<u8>, Seq<char>> {
    match item {
        Ok(b) => Ok(b@),
        Err(cause) => Err(cause@),
    }
}

/// The views of a sequence of byte vectors.
pub open spec fn byte_views(v: Seq<Vec<u8>>) -> Seq<Seq<u8>> {
    v.map_values(|b: Vec<u8>| b@)
}

/// The views of the items of a PEM file.
pub open spec fn item_views(v: Seq<Result<Vec<u8>, String>>) -> Seq<Result<Seq<u8>, Seq<char>>> {
    v.map_values(|c: Result<Vec<u8>, String>| item_view(c))
}

/// The contents of an optional file.
pub open spec fn contents(file: Option<Bytes>) -> Option<Seq<u8>> {
    match file {
        Some(b) => Some(b@),
        None => None,
    }
}

/// The certificates in a PEM file, in order, as `rustls_pemfile::certs` reads them; for an item that
/// cannot be read, the text of the error.
pub uninterp spec fn pem_certificates(pem: Seq<u8>) -> Seq<Result<Seq<u8>, Seq<char>>>;

/// `rustls_pemfile::certs`: the certificates in a PEM file, in DER, with an error taken by its text,
/// under the name `pem_certificates`.
#[verifier::external_body]
fn read_certificates(pem: &Vec<u8>) -> (r: Vec<Result<Vec<u8>, String>>)
    ensures
        item_views(r@) == pem_certificates(pem@),
{
    rustls_pemfile::certs(&mut pem.as_slice()).map(
        |c| c.map(|c| c.as_ref().to_vec()).map_err(|e| e.to_string()),
    ).collect()
}

/// The first private key in a PEM file, as `rustls_pemfile::private_key` reads it: `Ok(None)` where
/// there is none, the text of the error where an item before it cannot be read.
pub uninterp spec fn pem_private_key(pem: Seq<u8>) -> Result<
    Option<PrivateKeyDer<'static>>,
    Seq<char>,
>;

/// `rustls_pemfile::private_key`: the first private key in a PEM file, with an error taken by its
/// text, under the name `pem_private_key`.
#[verifier::external_body]
fn read_private_key(pem: &Vec<u8>) -> (r: Result<Option<PrivateKeyDer<'static>>, String>)
    ensures
        match r {
            Ok(key) => pem_private_key(pem@) == Ok::<Option<PrivateKeyDer<'static>>, Seq<char>>(key),
            Err(cause) => pem_private_key(pem@) == Err::<
                Option<PrivateKeyDer<'static>>,
                Seq<char>,
            >(cause@),
        },
{
    rustls_pemfile::private_key(&mut pem.as_slice()).map_err(|e| e.to_string())
}

/// The roots in a store, in order: the field `roots` of `RootCertStore`.
pub uninterp spec fn store_roots(store: RootCertStore) -> Seq<TrustAnchor<'static>>;

/// The trust anchor that a certificate in DER stands for, as `RootCertStore::add` reads it; where it
/// cannot be read as one, the text of the error.
pub uninterp spec fn trust_anchor(der: Seq<u8>) -> Result<TrustAnchor<'static>, Seq<char>>;

/// `RootCertStore::empty`: a store without roots.
pub assume_specification[ RootCertStore::empty ]() -> (r: RootCertStore)
    ensures
        store_roots(r) == Seq::<TrustAnchor<'static>>::empty(),
;

/// `RootCertStore::add`, with an error taken by its text: appends the trust anchor that a
/// certificate stands for, under the name `trust_anchor`, or leaves the roots as they are and says
/// why it stands for none.
#[verifier::external_body]
fn add_root(store: &mut RootCertStore, der: Vec<u8>) -> (r: Result<(), String>)
    ensures
        match trust_anchor(der@) {
            Ok(anchor) => r is Ok && store_roots(*final(store)) == store_roots(*old(store)).push(
                anchor,
            ),
            Err(cause) => r matches Err(c) && c@ == cause && store_roots(*final(store))
                == store_roots(*old(store)),
        },
{
    store.add(CertificateDer::from(der)).map_err(|e| e.to_string())
}

/// The roots that a client configuration trusts.
pub uninterp spec fn config_roots(config: ClientConfig) -> Seq<TrustAnchor<'static>>;

/// The certificate chain and key that a client configuration presents, if any.
pub uninterp spec fn config_identity(config: ClientConfig) -> Option<
    (Seq<Seq<u8>>, PrivateKeyDer<'static>),
>;

/// The application protocols that a client configuration offers, in order.
pub uninterp spec fn config_protocols(config: ClientConfig) -> Seq<Seq<u8>>;

/// `ClientConfig::builder` with `with_root_certificates` and `with_no_client_auth`: a configuration
/// that trusts the given roots, presents no certificate and offers no protocols. The builder takes
/// the process's cryptography provider, which is the one that `rustls` is built with unless another
/// was installed.
#[verifier::external_body]
fn anonymous_config(roots: RootCertStore) -> (r: ClientConfig)
    ensures
        config_roots(r) == store_roots(roots),
        config_identity(r) is None,
        config_protocols(r) == Seq::<Seq<u8>>::empty(),
{
    ClientConfig::builder().with_root_certificates(roots).with_no_client_auth()
}

/// What is wrong with a chain and key for a cryptography provider, as `with_client_auth_cert` finds
/// it: the text of the error where the provider cannot load the key, or where the key does not fit
/// the first certificate of the chain.
pub uninterp spec fn pair_problem(
    provider: CryptoProvider,
    chain: Seq<Seq<u8>>,
    key: PrivateKeyDer<'static>,
) -> Option<Seq<char>>;

/// `ClientConfig::builder` with `with_root_certificates` and `with_client_auth_cert`: a
/// configuration that trusts the given roots, presents the given chain and key, and offers no
/// protocols; or an error, taken by its text, where the process's cryptography provider finds a
/// problem with the chain and key, under the name `pair_problem`. Nothing is claimed of which
/// provider that is.
#[verifier::external_body]
fn identified_config(
    roots: RootCertStore,
    chain: Vec<Vec<u8>>,
    key: PrivateKeyDer<'static>,
) -> (r: Result<ClientConfig, String>)
    ensures
        r matches Ok(config) ==> {
            &&& config_roots(config) == store_roots(roots)
            &&& config_identity(config) == Some((byte_views(chain@), key))
            &&& config_protocols(config) == Seq::<Seq<u8>>::empty()
        },
        exists|provider: CryptoProvider| #[trigger]
            pair_problem(provider, byte_views(chain@), key) == (match r {
                Ok(_) => None,
                Err(cause) => Some(cause@),
            }),
{
    let chain = chain.into_iter().map(CertificateDer::from).collect();
    ClientConfig::builder().with_root_certificates(roots).with_client_auth_cert(chain, key).map_err(
        |e| e.to_string(),
    )
}

/// The field `alpn_protocols` of `ClientConfig`: sets the protocols that the configuration offers,
/// and nothing else.
#[verifier::external_body]
fn set_protocols(config: &mut ClientConfig, protocols: Vec<Vec<u8>>)
    ensures
        config_protocols(*final(config)) == byte_views(protocols@),
        config_roots(*final(config)) == config_roots(*old(config)),
        config_identity(*final(config)) == config_identity(*old(config)),
{
    config.alpn_protocols = protocols;
}

/// The configuration that a connector uses.
pub uninterp spec fn connector_config(connector: TlsConnector) -> ClientConfig;

/// `TlsConnector::from`: a connector that uses the given configuration.
#[verifier::external_body]
fn connector_for(config: ClientConfig) -> (r: TlsConnector)
    ensures
        connector_config(r) == config,
{
    TlsConnector::from(Arc::new(config))
}

/// The server name that a host is, as `ServerName::try_from` reads it; where it is neither a DNS name
/// nor an IP address, the text of the error.
pub uninterp spec fn parsed_server_name(host: Seq<char>) -> Result<ServerName<'static>, Seq<char>>;

/// `ServerName::try_from`: the DNS name or IP address that a text is, with an error taken by its
/// text, under the name `parsed_server_name`.
#[verifier::external_body]
fn parse_server_name(host: String) -> (r: Result<ServerName<'static>, String>)
    ensures
        match r {
            Ok(name) => parsed_server_name(host@) == Ok::<ServerName<'static>, Seq<char>>(name),
            Err(cause) => parsed_server_name(host@) == Err::<ServerName<'static>, Seq<char>>(
                cause@,
            ),
        },
{
    ServerName::try_from(host).map_err(|e| e.to_string())
}

/// Why there is no TLS for a target, with the cause where there is one.
#[derive(Debug, Clone)]
pub enum TlsError {
    InvalidCa(String),
    RejectedCa(String),
    InvalidClientCert(String),
    InvalidClientKey(String),
    NoClientKey,
    InvalidClientPair(String),
    InvalidServerName(String),
    /// The file at this path cannot be read, for this reason.
    UnreadableFile(String, String),
}

/// Why there is no TLS for a target, by the texts.
pub enum TlsProblem {
    InvalidCa(Seq<char>),
    RejectedCa(Seq<char>),
    InvalidClientCert(Seq<char>),
    InvalidClientKey(Seq<char>),
    NoClientKey,
    InvalidClientPair(Seq<char>),
    InvalidServerName(Seq<char>),
    UnreadableFile(Seq<char>, Seq<char>),
}

impl View for TlsError {
    type V = TlsProblem;

    open spec fn view(&self) -> TlsProblem {
        match *self {
            TlsError::InvalidCa(cause) => TlsProblem::InvalidCa(cause@),
            TlsError::RejectedCa(cause) => TlsProblem::RejectedCa(cause@),
            TlsError::InvalidClientCert(cause) => TlsProblem::InvalidClientCert(cause@),
            TlsError::InvalidClientKey(cause) => TlsProblem::InvalidClientKey(cause@),
            TlsError::NoClientKey => TlsProblem::NoClientKey,
            TlsError::InvalidClientPair(cause) => TlsProblem::InvalidClientPair(cause@),
            TlsError::InvalidServerName(cause) => TlsProblem::InvalidServerName(cause@),
            TlsError::UnreadableFile(path, cause) => TlsProblem::UnreadableFile(path@, cause@),
        }
    }
}

/// A result with its error taken by its texts.
pub open spec fn result_view<T>(r: Result<T, TlsError>) -> Result<T, TlsProblem> {
    match r {
        Ok(t) => Ok(t),
        Err(e) => Err(e@),
    }
}

impl TlsProblem {
    /// The text of the error.
    pub open spec fn text(self) -> Seq<char> {
        match self {
            TlsProblem::InvalidCa(cause) => "invalid CA cert in PEM"@ + ": "@ + cause,
            TlsProblem::RejectedCa(cause) => "failed to add CA certificate"@ + ": "@ + cause,
            TlsProblem::InvalidClientCert(cause) => "invalid client cert PEM"@ + ": "@ + cause,
            TlsProblem::InvalidClientKey(cause) => "invalid client key PEM"@ + ": "@ + cause,
            TlsProblem::NoClientKey => "no private key found in key PEM"@,
            TlsProblem::InvalidClientPair(cause) => "invalid client cert/key pair"@ + ": "@ + cause,
            TlsProblem::InvalidServerName(cause) => "invalid TLS server name"@ + ": "@ + cause,
            TlsProblem::UnreadableFile(path, cause) => "failed to read TLS file: "@ + path + ": "@
                + cause,
        }
    }
}

impl TlsError {
    /// The error in words.
    pub fn message(&self) -> (r: String)
        ensures
            r@ == self@.text(),
    {
        match self {
            TlsError::InvalidCa(cause) => text::because("invalid CA cert in PEM", cause.as_str()),
            TlsError::RejectedCa(cause) => text::because(
                "failed to add CA certificate",
                cause.as_str(),
            ),
            TlsError::InvalidClientCert(cause) => text::because(
                "invalid client cert PEM",
                cause.as_str(),
            ),
            TlsError::InvalidClientKey(cause) => text::because(
                "invalid client key PEM",
                cause.as_str(),
            ),
            TlsError::NoClientKey => "no private key found in key PEM".to_owned(),
            TlsError::InvalidClientPair(cause) => text::because(
                "invalid client cert/key pair",
                cause.as_str(),
            ),
            TlsError::InvalidServerName(cause) => text::because(
                "invalid TLS server name",
                cause.as_str(),
            ),
            TlsError::UnreadableFile(path, cause) => text::chained(
                "failed to read TLS file: ",
                path.as_str(),
                cause.as_str(),
            ),
        }
    }
}

/// The protocols that every connector offers, by priority.
pub open spec fn offered_protocols() -> Seq<Seq<u8>> {
    seq![
        seq![0x68u8, 0x32u8],
        seq![0x68u8, 0x74u8, 0x74u8, 0x70u8, 0x2fu8, 0x31u8, 0x2eu8, 0x31u8],
    ]
}

/// The roots that the items of a CA file give, or the first problem with them.
pub open spec fn ca_roots(items: Seq<Result<Seq<u8>, Seq<char>>>) -> Result<
    Seq<TrustAnchor<'static>>,
    TlsProblem,
>
    decreases items.len(),
{
    if items.len() == 0 {
        Ok(Seq::empty())
    } else {
        match ca_roots(items.drop_last()) {
            Err(e) => Err(e),
            Ok(roots) => match items.last() {
                Err(cause) => Err(TlsProblem::InvalidCa(cause)),
                Ok(der) => match trust_anchor(der) {
                    Ok(anchor) => Ok(roots.push(anchor)),
                    Err(cause) => Err(TlsProblem::RejectedCa(cause)),
                },
            },
        }
    }
}

/// The roots among the certificates of the system.
pub open spec fn system_roots(native: Seq<Seq<u8>>) -> Seq<TrustAnchor<'static>>
    decreases native.len(),
{
    if native.len() == 0 {
        Seq::empty()
    } else {
        match trust_anchor(native.last()) {
            Ok(anchor) => system_roots(native.drop_last()).push(anchor),
            Err(_) => system_roots(native.drop_last()),
        }
    }
}

/// The certificates of a chain, or why the first item that cannot be read cannot.
pub open spec fn readable_chain(items: Seq<Result<Seq<u8>, Seq<char>>>) -> Result<
    Seq<Seq<u8>>,
    Seq<char>,
>
    decreases items.len(),
{
    if items.len() == 0 {
        Ok(Seq::empty())
    } else {
        match readable_chain(items.drop_last()) {
            Err(cause) => Err(cause),
            Ok(chain) => match items.last() {
                Err(cause) => Err(cause),
                Ok(der) => Ok(chain.push(der)),
            },
        }
    }
}

/// The chain and key that a client certificate file and a key file give, or the first problem
/// with them.
pub open spec fn client_identity(cert: Seq<u8>, key: Seq<u8>) -> Result<
    (Seq<Seq<u8>>, PrivateKeyDer<'static>),
    TlsProblem,
> {
    match readable_chain(pem_certificates(cert)) {
        Err(cause) => Err(TlsProblem::InvalidClientCert(cause)),
        Ok(chain) => match pem_private_key(key) {
            Err(cause) => Err(TlsProblem::InvalidClientKey(cause)),
            Ok(None) => Err(TlsProblem::NoClientKey),
            Ok(Some(k)) => Ok((chain, k)),
        },
    }
}

/// Whether the files of a target call for TLS: a CA, or a client certificate with its key.
pub open spec fn wants_tls(
    ca: Option<Seq<u8>>,
    cert: Option<Seq<u8>>,
    key: Option<Seq<u8>>,
) -> bool {
    ca is Some || (cert is Some && key is Some)
}

/// The roots to trust: those of the CA file where there is one, else those of the system.
pub open spec fn trusted_roots(ca: Option<Seq<u8>>, native: Seq<Seq<u8>>) -> Result<
    Seq<TrustAnchor<'static>>,
    TlsProblem,
> {
    match ca {
        Some(pem) => ca_roots(pem_certificates(pem)),
        None => Ok(system_roots(native)),
    }
}

/// What a connector is to be made with: its roots and its identity, if any.
pub open spec fn connector_plan(
    ca: Option<Seq<u8>>,
    cert: Option<Seq<u8>>,
    key: Option<Seq<u8>>,
    native: Seq<Seq<u8>>,
) -> Result<
    (Seq<TrustAnchor<'static>>, Option<(Seq<Seq<u8>>, PrivateKeyDer<'static>)>),
    TlsProblem,
> {
    match trusted_roots(ca, native) {
        Err(e) => Err(e),
        Ok(roots) => if cert is Some && key is Some {
            match client_identity(cert->0, key->0) {
                Err(e) => Err(e),
                Ok(identity) => Ok((roots, Some(identity))),
            }
        } else {
            Ok((roots, None))
        },
    }
}

/// Whether a connector was made with these roots and this identity, and offers the protocols that
/// every connector offers.
pub open spec fn made_with(
    connector: TlsConnector,
    roots: Seq<TrustAnchor<'static>>,
    identity: Option<(Seq<Seq<u8>>, PrivateKeyDer<'static>)>,
) -> bool {
    &&& config_roots(connector_config(connector)) == roots
    &&& config_identity(connector_config(connector)) == identity
    &&& config_protocols(connector_config(connector)) == offered_protocols()
}

/// Whether a cryptography provider finds this, or nothing, wrong with a chain and key.
pub open spec fn may_find(
    identity: (Seq<Seq<u8>>, PrivateKeyDer<'static>),
    problem: Option<Seq<char>>,
) -> bool {
    exists|provider: CryptoProvider| #[trigger]
        pair_problem(provider, identity.0, identity.1) == problem
}

/// Whether `r` is what building a connector from these files may come to. Everything is decided by
/// the files and the system's roots, except whether the key fits the chain, which the process's
/// cryptography provider decides.
pub open spec fn connector_outcome(
    ca: Option<Seq<u8>>,
    cert: Option<Seq<u8>>,
    key: Option<Seq<u8>>,
    native: Seq<Seq<u8>>,
    r: Result<Option<TlsConnector>, TlsError>,
) -> bool {
    if !wants_tls(ca, cert, key) {
        r == Ok::<Option<TlsConnector>, TlsError>(None)
    } else {
        match connector_plan(ca, cert, key, native) {
            Err(e) => r matches Err(f) && f@ == e,
            Ok((roots, identity)) => match r {
                Ok(Some(connector)) => {
                    &&& made_with(connector, roots, identity)
                    &&& identity matches Some(pair) ==> may_find(pair, None)
                },
                Ok(None) => false,
                Err(e) => e@ matches TlsProblem::InvalidClientPair(cause) && identity matches Some(
                    pair,
                ) && may_find(pair, Some(cause)),
            },
        }
    }
}

/// `s` up to the last occurrence of `c`, if there is one.
pub open spec fn before_last(s: Seq<char>, c: char) -> Option<Seq<char>>
    decreases s.len(),
{
    if s.len() == 0 {
        None
    } else if s.last() == c {
        Some(s.drop_last())
    } else {
        before_last(s.drop_last(), c)
    }
}

/// The host part of an address: all of it up to the last colon.
pub open spec fn host_part(addr: Seq<char>) -> Seq<char> {
    match before_last(addr, ':') {
        Some(host) => host,
        None => addr,
    }
}

/// TLS toward a target, or none.
#[derive(Clone)]
pub struct Tls {
    pub inner: Option<(TlsConnector, ServerName<'static>)>,
}

impl Default for Tls {
    /// No TLS.
    fn default() -> (r: Self)
        ensures
            r.inner is None,
    {
        Tls { inner: None }
    }
}

impl Tls {
    /// Whether connections to the target use TLS.
    pub fn is_enabled(&self) -> (r: bool)
        ensures
            r == (self.inner is Some),
    {
        self.inner.is_some()
    }
}

/// The host part of an address.
pub fn host(addr: &str) -> (r: &str)
    ensures
        r@ == host_part(addr@),
{
    let v = text::chars(addr);
    let mut i: usize = v.len();
    assert(addr@.take(i as int) == addr@);
    while i > 0
        invariant
            v@ == addr@,
            i <= v.len(),
            before_last(addr@, ':') == before_last(addr@.take(i as int), ':'),
        decreases i,
    {
        assert(addr@.take(i as int).drop_last() == addr@.take(i - 1));
        if v[i - 1] == ':' {
            assert(addr@.take(i - 1) == addr@.subrange(0, i - 1));
            return addr.substring_char(0, i - 1);
        }
        i -= 1;
    }
    addr
}

/// The server name to expect of a target: the host part of its address.
pub fn server_name(addr: &str) -> (r: Result<ServerName<'static>, TlsError>)
    ensures
        result_view(r) == (match parsed_server_name(host_part(addr@)) {
            Ok(name) => Ok::<ServerName<'static>, TlsProblem>(name),
            Err(cause) => Err(TlsProblem::InvalidServerName(cause)),
        }),
{
    match parse_server_name(host(addr).to_owned()) {
        Ok(name) => Ok(name),
        Err(cause) => Err(TlsError::InvalidServerName(cause)),
    }
}

/// The roots that the items of a CA file give, or the first problem with them.
pub fn roots_from_items(items: Vec<Result<Vec<u8>, String>>) -> (r: Result<
    RootCertStore,
    TlsError,
>)
    ensures
        match ca_roots(item_views(items@)) {
            Ok(roots) => r matches Ok(store) && store_roots(store) == roots,
            Err(e) => r matches Err(f) && f@ == e,
        },
{
    let ghost all = item_views(items@);
    let mut store = RootCertStore::empty();
    assert(ca_roots(all.take(0)) == Ok::<Seq<TrustAnchor<'static>>, TlsProblem>(store_roots(store)));
    for item in it: items
        invariant
            all == item_views(it.seq()),
            ca_roots(all.take(it.index() as int)) == Ok::<Seq<TrustAnchor<'static>>, TlsProblem>(
                store_roots(store),
            ),
    {
        let ghost i = it.index() as int;
        proof {
            assert(all[i] == item_view(item));
            assert(all.take(i + 1).drop_last() == all.take(i));
            assert(all.take(i + 1).last() == item_view(item));
        }
        let der = match item {
            Ok(der) => der,
            Err(cause) => {
                proof {
                    first_problem_decides(all, i + 1);
                }
                return Err(TlsError::InvalidCa(cause));
            },
        };
        if let Err(cause) = add_root(&mut store, der) {
            proof {
                first_problem_decides(all, i + 1);
            }
            return Err(TlsError::RejectedCa(cause));
        }
    }
    assert(all.take(all.len() as int) == all);
    Ok(store)
}

proof fn first_problem_decides(items: Seq<Result<Seq<u8>, Seq<char>>>, n: int)
    requires
        0 <= n <= items.len(),
        ca_roots(items.take(n)) is Err,
    ensures
        ca_roots(items) == ca_roots(items.take(n)),
    decreases items.len() - n,
{
    if n == items.len() {
        assert(items.take(n) == items);
    } else {
        assert(items.take(n + 1).drop_last() == items.take(n));
        first_problem_decides(items, n + 1);
    }
}

fn roots_from_system(native: Vec<Vec<u8>>) -> (r: RootCertStore)
    ensures
        store_roots(r) == system_roots(byte_views(native@)),
{
    let ghost all = byte_views(native@);
    let mut store = RootCertStore::empty();
    for der in it: native
        invariant
            all == byte_views(it.seq()),
            store_roots(store) == system_roots(all.take(it.index() as int)),
    {
        let ghost i = it.index() as int;
        proof {
            assert(all[i] == der@);
            assert(all.take(i + 1).drop_last() == all.take(i));
            assert(all.take(i + 1).last() == der@);
        }
        let _ = add_root(&mut store, der);
    }
    assert(all.take(all.len() as int) == all);
    store
}

/// The certificates of a chain, or why the first item that cannot be read cannot.
pub fn chain_from_items(items: Vec<Result<Vec<u8>, String>>) -> (r: Result<Vec<Vec<u8>>, String>)
    ensures
        match readable_chain(item_views(items@)) {
            Ok(chain) => r matches Ok(v) && byte_views(v@) == chain,
            Err(cause) => r matches Err(c) && c@ == cause,
        },
{
    let ghost all = item_views(items@);
    let mut r: Vec<Vec<u8>> = Vec::new();
    assert(byte_views(r@) == Seq::<Seq<u8>>::empty());
    for item in it: items
        invariant
            all == item_views(it.seq()),
            readable_chain(all.take(it.index() as int)) == Ok::<Seq<Seq<u8>>, Seq<char>>(
                byte_views(r@),
            ),
    {
        let ghost i = it.index() as int;
        proof {
            assert(all[i] == item_view(item));
            assert(all.take(i + 1).drop_last() == all.take(i));
            assert(all.take(i + 1).last() == item_view(item));
        }
        let der = match item {
            Ok(der) => der,
            Err(cause) => {
                proof {
                    first_unreadable_decides(all, i + 1);
                }
                return Err(cause);
            },
        };
        let ghost before = byte_views(r@);
        let ghost view = der@;
        r.push(der);
        assert(byte_views(r@) == before.push(view));
    }
    assert(all.take(all.len() as int) == all);
    Ok(r)
}

proof fn first_unreadable_decides(items: Seq<Result<Seq<u8>, Seq<char>>>, n: int)
    requires
        0 <= n <= items.len(),
        readable_chain(items.take(n)) is Err,
    ensures
        readable_chain(items) == readable_chain(items.take(n)),
    decreases items.len() - n,
{
    if n == items.len() {
        assert(items.take(n) == items);
    } else {
        assert(items.take(n + 1).drop_last() == items.take(n));
        first_unreadable_decides(items, n + 1);
    }
}

fn protocol_list() -> (r: Vec<Vec<u8>>)
    ensures
        byte_views(r@) == offered_protocols(),
{
    let h2: Vec<u8> = vec![0x68u8, 0x32u8];
    let http: Vec<u8> = vec![0x68u8, 0x74u8, 0x74u8, 0x70u8, 0x2fu8, 0x31u8, 0x2eu8, 0x31u8];
    let mut r: Vec<Vec<u8>> = Vec::new();
    r.push(h2);
    r.push(http);
    assert(byte_views(r@) == offered_protocols());
    r
}

/// Whether the certificates of the system are needed as roots for a target.
pub fn needs_system_roots(target: &Target) -> (r: bool)
    ensures
        r == (target@.ca is None && target@.cert is Some && target@.key is Some),
{
    target.ca.is_none() && target.cert.is_some() && target.key.is_some()
}

/// The connector for a target with these files, or none where they do not call for TLS. `native`
/// holds the certificates of the system, in DER.
pub fn build_connector(
    ca: Option<Bytes>,
    cert: Option<Bytes>,
    key: Option<Bytes>,
    native: Vec<Vec<u8>>,
) -> (r: Result<Option<TlsConnector>, TlsError>)
    ensures
        connector_outcome(
            contents(ca),
            contents(cert),
            contents(key),
            byte_views(native@),
            r,
        ),
{
    if ca.is_none() && (cert.is_none() || key.is_none()) {
        return Ok(None);
    }
    let roots = match ca {
        Some(pem) => match roots_from_items(read_certificates(&pem)) {
            Ok(roots) => roots,
            Err(e) => return Err(e),
        },
        None => roots_from_system(native),
    };
    match (cert, key) {
        (Some(cert), Some(key)) => {
            let chain = match chain_from_items(read_certificates(&cert)) {
                Ok(chain) => chain,
                Err(cause) => return Err(TlsError::InvalidClientCert(cause)),
            };
            match usable_key(read_private_key(&key)) {
                Ok(key) => connector_from(identified_config(roots, chain, key)),
                Err(e) => Err(e),
            }
        },
        _ => connector_from(Ok(anonymous_config(roots))),
    }
}

/// The private key that was read from a key file, or what is wrong with the file.
pub fn usable_key(key: Result<Option<PrivateKeyDer<'static>>, String>) -> (r: Result<
    PrivateKeyDer<'static>,
    TlsError,
>)
    ensures
        r == (match key {
            Ok(Some(k)) => Ok::<PrivateKeyDer<'static>, TlsError>(k),
            Ok(None) => Err(TlsError::NoClientKey),
            Err(cause) => Err(TlsError::InvalidClientKey(cause)),
        }),
{
    match key {
        Ok(Some(k)) => Ok(k),
        Ok(None) => Err(TlsError::NoClientKey),
        Err(cause) => Err(TlsError::InvalidClientKey(cause)),
    }
}

/// The connector for a configuration, which then offers the protocols that every connector offers.
pub fn connector_from(config: Result<ClientConfig, String>) -> (r: Result<
    Option<TlsConnector>,
    TlsError,
>)
    ensures
        match config {
            Ok(c) => r matches Ok(Some(connector)) && made_with(
                connector,
                config_roots(c),
                config_identity(c),
            ),
            Err(cause) => r == Err::<Option<TlsConnector>, TlsError>(
                TlsError::InvalidClientPair(cause),
            ),
        },
{
    match config {
        Ok(mut config) => {
            set_protocols(&mut config, protocol_list());
            Ok(Some(connector_for(config)))
        },
        Err(cause) => Err(TlsError::InvalidClientPair(cause)),
    }
}

/// What a TLS file is for.
#[derive(Debug, Clone, Copy, PartialEq, Eq, Hash, Structural)]
pub enum FileKind {
    Ca,
    Cert,
    Key,
}

/// The files that a target's TLS is made from, in the order in which they are loaded: its CA if set,
/// then its client certificate and key if both are set.
pub open spec fn files_of(target: TargetView) -> Seq<(FileKind, Seq<char>)> {
    let ca = match target.ca {
        Some(path) => seq![(FileKind::Ca, path)],
        None => Seq::empty(),
    };
    if target.cert is Some && target.key is Some {
        ca + seq![(FileKind::Cert, target.cert->0), (FileKind::Key, target.key->0)]
    } else {
        ca
    }
}

/// The contents of a target's file of one kind, given those of all its files in order.
pub open spec fn file_contents(
    target: TargetView,
    loaded: Seq<Bytes>,
    kind: FileKind,
) -> Option<Seq<u8>> {
    let first: int = if target.ca is Some {
        1
    } else {
        0
    };
    match kind {
        FileKind::Ca => if target.ca is Some {
            Some(loaded[0]@)
        } else {
            None
        },
        FileKind::Cert => if target.cert is Some && target.key is Some {
            Some(loaded[first]@)
        } else {
            None
        },
        FileKind::Key => if target.cert is Some && target.key is Some {
            Some(loaded[first + 1]@)
        } else {
            None
        },
    }
}

/// What a target's TLS comes to, given how building its connector ended.
pub open spec fn tls_outcome(
    addr: String,
    connector: Result<Option<TlsConnector>, TlsError>,
) -> Result<(String, Tls), TlsProblem> {
    match connector {
        Err(e) => Err(e@),
        Ok(None) => Ok((addr, Tls { inner: None })),
        Ok(Some(connector)) => match parsed_server_name(host_part(addr@)) {
            Ok(name) => Ok((addr, Tls { inner: Some((connector, name)) })),
            Err(cause) => Err(TlsProblem::InvalidServerName(cause)),
        },
    }
}

/// The TLS of the target at `addr`, given how building its connector ended.
pub fn tls_for(addr: String, connector: Result<Option<TlsConnector>, TlsError>) -> (r: Result<
    (String, Tls),
    TlsError,
>)
    ensures
        result_view(r) == tls_outcome(addr, connector),
{
    match connector {
        Err(e) => Err(e),
        Ok(None) => Ok((addr, Tls { inner: None })),
        Ok(Some(connector)) => match server_name(addr.as_str()) {
            Ok(name) => Ok((addr, Tls { inner: Some((connector, name)) })),
            Err(e) => Err(e),
        },
    }
}

/// The TLS files of all targets, by kind.
pub struct TlsManager {
    pub ca: Slot,
    pub cert: Slot,
    pub key: Slot,
}

impl Default for TlsManager {
    /// No file was read.
    fn default() -> (r: Self)
        ensures
            forall|kind: FileKind| #[trigger] r.slot(kind) == SlotView::empty(),
    {
        TlsManager { ca: Slot::new(), cert: Slot::new(), key: Slot::new() }
    }
}

impl TlsManager {
    /// What is known of the files of one kind.
    pub open spec fn slot(&self, kind: FileKind) -> SlotView {
        match kind {
            FileKind::Ca => self.ca@,
            FileKind::Cert => self.cert@,
            FileKind::Key => self.key@,
        }
    }

    /// The next file to load for a target of which `loaded` files are loaded; `None` where it has
    /// no more.
    pub fn next_file(target: &Target, loaded: usize) -> (r: Option<(FileKind, String)>)
        ensures
            match r {
                Some((kind, path)) => loaded < files_of(target@).len() && files_of(
                    target@,
                )[loaded as int] == (kind, path@),
                None => loaded >= files_of(target@).len(),
            },
    {
        let mut left: usize = loaded;
        if let Some(path) = &target.ca {
            if left == 0 {
                return Some((FileKind::Ca, path.clone()));
            }
            left -= 1;
        }
        match (&target.cert, &target.key) {
            (Some(cert), Some(key)) => if left == 0 {
                Some((FileKind::Cert, cert.clone()))
            } else if left == 1 {
                Some((FileKind::Key, key.clone()))
            } else {
                None
            },
            _ => None,
        }
    }

    /// What to do for a file that is asked for. Of several requests for one file of one kind, only
    /// the first reads it.
    pub fn begin(&mut self, kind: FileKind, path: &str) -> (r: LoadStep)
        ensures
            final(self).slot(kind) == old(self).slot(kind).begun(path@),
            forall|k: FileKind| k != kind ==> #[trigger] final(self).slot(k) == old(self).slot(k),
            r.answers(old(self).slot(kind), path@),
    {
        match kind {
            FileKind::Ca => self.ca.begin(path),
            FileKind::Cert => self.cert.begin(path),
            FileKind::Key => self.key.begin(path),
        }
    }

    /// Takes note of how the read of a file ended, with the reason if it failed. What is returned
    /// goes to everyone who asked for the file.
    pub fn finish(
        &mut self,
        kind: FileKind,
        path: &str,
        outcome: Result<Bytes, String>,
    ) -> (r: Result<Bytes, TlsError>)
        ensures
            final(self).slot(kind) == old(self).slot(kind).finished(
                path@,
                loaded_contents(outcome),
            ),
            forall|k: FileKind| k != kind ==> #[trigger] final(self).slot(k) == old(self).slot(k),
            match outcome {
                Ok(bytes) => r matches Ok(b) && b == bytes,
                Err(cause) => r matches Err(TlsError::UnreadableFile(p, c)) && p@ == path@ && c
                    == cause,
            },
    {
        match kind {
            FileKind::Ca => self.ca.finish(path, outcome),
            FileKind::Cert => self.cert.finish(path, outcome),
            FileKind::Key => self.key.finish(path, outcome),
        }
    }

    /// The address and the TLS of a target, from the contents of its files in the order in which
    /// they are loaded. `native` holds the certificates of the system, in DER.
    pub fn fetch(target: Target, loaded: Vec<Bytes>, native: Vec<Vec<u8>>) -> (r: Result<
        (String, Tls),
        TlsError,
    >)
        requires
            loaded.len() == files_of(target@).len(),
        ensures
            exists|connector: Result<Option<TlsConnector>, TlsError>|
                {
                    &&& #[trigger] connector_outcome(
                        file_contents(target@, loaded@, FileKind::Ca),
                        file_contents(target@, loaded@, FileKind::Cert),
                        file_contents(target@, loaded@, FileKind::Key),
                        byte_views(native@),
                        connector,
                    )
                    &&& result_view(r) == tls_outcome(target.addr, connector)
                },
    {
        let mut first: usize = 0;
        let mut ca: Option<Bytes> = None;
        if target.ca.is_some() {
            ca = Some(loaded[0].clone());
            first = 1;
        }
        let mut cert: Option<Bytes> = None;
        let mut key: Option<Bytes> = None;
        if target.cert.is_some() && target.key.is_some() {
            cert = Some(loaded[first].clone());
            key = Some(loaded[first + 1].clone());
        }
        let connector = build_connector(ca, cert, key, native);
        tls_for(target.addr, connector)
    }
}

/// A target without TLS files has no TLS, whatever the system trusts.
pub proof fn no_files_no_tls(
    addr: String,
    native: Seq<Seq<u8>>,
    connector: Result<Option<TlsConnector>, TlsError>,
)
    requires
        connector_outcome(None, None, None, native, connector),
    ensures
        tls_outcome(addr, connector) == Ok::<(String, Tls), TlsProblem>((addr, Tls { inner: None })),
{
}

/// Every connector that is built offers HTTP/2 first and HTTP/1.1 second, and no other protocol.
pub proof fn protocols_are_fixed(
    ca: Option<Seq<u8>>,
    cert: Option<Seq<u8>>,
    key: Option<Seq<u8>>,
    native: Seq<Seq<u8>>,
    connector: TlsConnector,
)
    requires
        connector_outcome(ca, cert, key, native, Ok(Some(connector))),
    ensures
        config_protocols(connector_config(connector)) == offered_protocols(),
{
}

/// With a CA file, or without a client certificate and its key, the certificates of the system make
/// no difference.
pub proof fn system_roots_are_a_fallback(
    ca: Option<Seq<u8>>,
    cert: Option<Seq<u8>>,
    key: Option<Seq<u8>>,
    a: Seq<Seq<u8>>,
    b: Seq<Seq<u8>>,
    r: Result<Option<TlsConnector>, TlsError>,
)
    requires
        ca is Some || cert is None || key is None,
    ensures
        connector_outcome(ca, cert, key, a, r) == connector_outcome(ca, cert, key, b, r),
{
}

} // verus!
