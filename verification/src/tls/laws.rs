//! What holds of the TLS toward a target, in terms of its files and its address.
use crate::config::TargetView;
use crate::tls::cache::{LoadStep, SlotView};
use crate::tls::{
    before_last, byte_views, ca_roots, config_identity, config_protocols, config_roots,
    connector_config, connector_outcome, file_contents, files_of, host_part, item_views,
    pair_problem, parsed_server_name, pem_certificates, pem_private_key, readable_chain,
    system_roots, tls_outcome, trust_anchor, Bytes, FileKind, Tls, TlsError, TlsProblem,
};
use rustls::crypto::CryptoProvider;
use rustls_pki_types::{PrivateKeyDer, TrustAnchor};
use tokio_rustls::TlsConnector;
use vstd::prelude::*;

verus! {

proof fn usable_positions(native: Seq<Seq<u8>>) -> (pos: Seq<int>)
    ensures
        ({
            let roots = system_roots(native);
            &&& pos.len() == roots.len()
            &&& forall|k: int|
                0 <= k < pos.len() ==> 0 <= #[trigger] pos[k] < native.len() && trust_anchor(
                    native[pos[k]],
                ) == Ok::<TrustAnchor<'static>, Seq<char>>(roots[k])
            &&& forall|j: int, k: int|
                0 <= j < k < pos.len() ==> #[trigger] pos[j] < #[trigger] pos[k]
            &&& forall|i: int|
                0 <= i < native.len() && trust_anchor(#[trigger] native[i]) is Ok ==> pos.contains(
                    i,
                )
        }),
    decreases native.len(),
{
    if native.len() == 0 {
        Seq::empty()
    } else {
        let front = native.drop_last();
        let before = usable_positions(front);
        let roots = system_roots(front);
        assert forall|k: int| 0 <= k < before.len() implies 0 <= #[trigger] before[k] < native.len()
            && trust_anchor(native[before[k]]) == Ok::<TrustAnchor<'static>, Seq<char>>(
            roots[k],
        ) by {
            assert(front[before[k]] == native[before[k]]);
        }
        if trust_anchor(native.last()) is Ok {
            let last = front.len() as int;
            let pos = before.push(last);
            assert forall|k: int| 0 <= k < pos.len() implies 0 <= #[trigger] pos[k] < native.len()
                && trust_anchor(native[pos[k]]) == Ok::<TrustAnchor<'static>, Seq<char>>(
                system_roots(native)[k],
            ) by {
                if k < before.len() {
                    assert(pos[k] == before[k]);
                    assert(system_roots(native)[k] == roots[k]);
                }
            }
            assert forall|j: int, k: int| 0 <= j < k < pos.len() implies #[trigger] pos[j]
                < #[trigger] pos[k] by {
                assert(pos[j] == before[j]);
                if k < before.len() {
                    assert(pos[k] == before[k]);
                }
            }
            assert forall|i: int|
                0 <= i < native.len() && trust_anchor(
                    #[trigger] native[i],
                ) is Ok implies pos.contains(i) by {
                if i < front.len() {
                    assert(front[i] == native[i]);
                    let k = choose|k: int| 0 <= k < before.len() && before[k] == i;
                    assert(pos[k] == i);
                } else {
                    assert(pos[before.len() as int] == i);
                }
            }
            pos
        } else {
            assert forall|i: int|
                0 <= i < native.len() && trust_anchor(
                    #[trigger] native[i],
                ) is Ok implies before.contains(i) by {
                assert(front[i] == native[i]);
            }
            before
        }
    }
}

/// Without a CA file, a connector trusts exactly the certificates of the system that can be roots,
/// each as often as the system has it and in the system's order. The result gives the positions of
/// these certificates.
pub proof fn usable_system_certificates_are_trusted(
    cert: Option<Seq<u8>>,
    key: Option<Seq<u8>>,
    native: Seq<Seq<u8>>,
    connector: TlsConnector,
) -> (pos: Seq<int>)
    requires
        connector_outcome(None, cert, key, native, Ok(Some(connector))),
    ensures
        ({
            let roots = config_roots(connector_config(connector));
            &&& forall|i: int|
                0 <= i < native.len() && trust_anchor(#[trigger] native[i]) is Ok
                    ==> roots.contains(trust_anchor(native[i])->Ok_0)
            &&& pos.len() == roots.len()
            &&& forall|k: int|
                0 <= k < roots.len() ==> 0 <= #[trigger] pos[k] < native.len() && trust_anchor(
                    native[pos[k]],
                ) == Ok::<TrustAnchor<'static>, Seq<char>>(roots[k])
            &&& forall|j: int, k: int|
                0 <= j < k < pos.len() ==> #[trigger] pos[j] < #[trigger] pos[k]
            &&& forall|i: int|
                0 <= i < native.len() && trust_anchor(#[trigger] native[i]) is Ok ==> pos.contains(
                    i,
                )
        }),
{
    let pos = usable_positions(native);
    let roots = config_roots(connector_config(connector));
    assert(roots == system_roots(native));
    assert forall|i: int|
        0 <= i < native.len() && trust_anchor(
            #[trigger] native[i],
        ) is Ok implies roots.contains(trust_anchor(native[i])->Ok_0) by {
        let k = choose|k: int| 0 <= k < pos.len() && pos[k] == i;
        assert(0 <= pos[k] < native.len());
        assert(roots[k] == trust_anchor(native[i])->Ok_0);
    }
    pos
}

proof fn roots_item_by_item(items: Seq<Result<Seq<u8>, Seq<char>>>)
    ensures
        ca_roots(items) matches Ok(roots) ==> {
            &&& roots.len() == items.len()
            &&& forall|i: int|
                0 <= i < items.len() ==> (#[trigger] items[i]) is Ok && trust_anchor(items[i]->Ok_0)
                    == Ok::<TrustAnchor<'static>, Seq<char>>(roots[i])
        },
    decreases items.len(),
{
    if items.len() > 0 {
        let front = items.drop_last();
        roots_item_by_item(front);
        if let Ok(roots) = ca_roots(items) {
            let before = ca_roots(front)->Ok_0;
            assert forall|i: int| 0 <= i < items.len() implies (#[trigger] items[i]) is Ok
                && trust_anchor(items[i]->Ok_0) == Ok::<TrustAnchor<'static>, Seq<char>>(
                roots[i],
            ) by {
                if i < front.len() {
                    assert(front[i] == items[i]);
                    assert(roots[i] == before[i]);
                }
            }
        }
    }
}

/// With a CA file, a connector trusts exactly the certificates of the file, in the file's order, and
/// nothing of the system.
pub proof fn ca_certificates_are_trusted(
    ca: Seq<u8>,
    cert: Option<Seq<u8>>,
    key: Option<Seq<u8>>,
    native: Seq<Seq<u8>>,
    connector: TlsConnector,
)
    requires
        connector_outcome(Some(ca), cert, key, native, Ok(Some(connector))),
    ensures
        ({
            let roots = config_roots(connector_config(connector));
            let items = pem_certificates(ca);
            &&& roots.len() == items.len()
            &&& forall|i: int|
                0 <= i < items.len() ==> (#[trigger] items[i]) is Ok && trust_anchor(items[i]->Ok_0)
                    == Ok::<TrustAnchor<'static>, Seq<char>>(roots[i])
        }),
{
    roots_item_by_item(pem_certificates(ca));
}

proof fn roots_up_to_a_problem(items: Seq<Result<Seq<u8>, Seq<char>>>, i: int)
    requires
        0 <= i < items.len(),
        forall|j: int|
            0 <= j < i ==> (#[trigger] items[j]) is Ok && trust_anchor(items[j]->Ok_0) is Ok,
        items[i] is Err || trust_anchor(items[i]->Ok_0) is Err,
    ensures
        ca_roots(items) is Err,
        items[i] matches Err(cause) ==> ca_roots(items)->Err_0 == TlsProblem::InvalidCa(cause),
        items[i] matches Ok(der) ==> ca_roots(items)->Err_0 == TlsProblem::RejectedCa(
            trust_anchor(der)->Err_0,
        ),
    decreases items.len(),
{
    let front = items.drop_last();
    if i < front.len() {
        assert forall|j: int| 0 <= j < i implies (#[trigger] front[j]) is Ok && trust_anchor(
            front[j]->Ok_0,
        ) is Ok by {
            assert(front[j] == items[j]);
        }
        assert(front[i] == items[i]);
        roots_up_to_a_problem(front, i);
    } else {
        readable_roots(front, items);
    }
}

proof fn readable_roots(
    front: Seq<Result<Seq<u8>, Seq<char>>>,
    items: Seq<Result<Seq<u8>, Seq<char>>>,
)
    requires
        front.len() <= items.len(),
        front == items.take(front.len() as int),
        forall|j: int|
            0 <= j < front.len() ==> (#[trigger] items[j]) is Ok && trust_anchor(
                items[j]->Ok_0,
            ) is Ok,
    ensures
        ca_roots(front) is Ok,
    decreases front.len(),
{
    if front.len() > 0 {
        assert(front.drop_last() == items.take(front.len() - 1));
        readable_roots(front.drop_last(), items);
        assert(front.last() == items[front.len() - 1]);
    }
}

/// The first certificate of a CA file that cannot be read, or cannot be a root, decides: there is no
/// connector, and the error tells which of the two it was and why.
pub proof fn a_bad_ca_certificate_is_an_error(
    ca: Seq<u8>,
    cert: Option<Seq<u8>>,
    key: Option<Seq<u8>>,
    native: Seq<Seq<u8>>,
    r: Result<Option<TlsConnector>, TlsError>,
    i: int,
)
    requires
        connector_outcome(Some(ca), cert, key, native, r),
        0 <= i < pem_certificates(ca).len(),
        forall|j: int|
            0 <= j < i ==> (#[trigger] pem_certificates(ca)[j]) is Ok && trust_anchor(
                pem_certificates(ca)[j]->Ok_0,
            ) is Ok,
        pem_certificates(ca)[i] is Err || trust_anchor(pem_certificates(ca)[i]->Ok_0) is Err,
    ensures
        r is Err,
        pem_certificates(ca)[i] matches Err(cause) ==> r->Err_0@ == TlsProblem::InvalidCa(cause),
        pem_certificates(ca)[i] matches Ok(der) ==> r->Err_0@ == TlsProblem::RejectedCa(
            trust_anchor(der)->Err_0,
        ),
{
    roots_up_to_a_problem(pem_certificates(ca), i);
}

proof fn chain_item_by_item(items: Seq<Result<Seq<u8>, Seq<char>>>)
    ensures
        readable_chain(items) matches Ok(chain) ==> {
            &&& chain.len() == items.len()
            &&& forall|i: int|
                0 <= i < items.len() ==> #[trigger] items[i] == Ok::<Seq<u8>, Seq<char>>(chain[i])
        },
        readable_chain(items) matches Err(cause) ==> exists|i: int|
            {
                &&& 0 <= i < items.len()
                &&& #[trigger] items[i] == Err::<Seq<u8>, Seq<char>>(cause)
                &&& forall|j: int| 0 <= j < i ==> (#[trigger] items[j]) is Ok
            },
    decreases items.len(),
{
    if items.len() > 0 {
        let front = items.drop_last();
        chain_item_by_item(front);
        match readable_chain(front) {
            Ok(before) => {
                if let Ok(chain) = readable_chain(items) {
                    assert forall|i: int| 0 <= i < items.len() implies #[trigger] items[i] == Ok::<
                        Seq<u8>,
                        Seq<char>,
                    >(chain[i]) by {
                        if i < front.len() {
                            assert(front[i] == items[i]);
                            assert(chain[i] == before[i]);
                        }
                    }
                } else {
                    let n = front.len() as int;
                    assert(items[n] == items.last());
                    assert forall|j: int| 0 <= j < n implies (#[trigger] items[j]) is Ok by {
                        assert(front[j] == items[j]);
                    }
                }
            },
            Err(cause) => {
                let i = choose|i: int|
                    {
                        &&& 0 <= i < front.len()
                        &&& #[trigger] front[i] == Err::<Seq<u8>, Seq<char>>(cause)
                        &&& forall|j: int| 0 <= j < i ==> (#[trigger] front[j]) is Ok
                    };
                assert(items[i] == front[i]);
                assert forall|j: int| 0 <= j < i implies (#[trigger] items[j]) is Ok by {
                    assert(front[j] == items[j]);
                }
            },
        }
    }
}

/// A connector presents a client certificate exactly if the target has both a certificate file and a
/// key file: the certificates of the one, in order, and the private key of the other.
pub proof fn the_client_pair_is_presented(
    ca: Option<Seq<u8>>,
    cert: Option<Seq<u8>>,
    key: Option<Seq<u8>>,
    native: Seq<Seq<u8>>,
    connector: TlsConnector,
)
    requires
        connector_outcome(ca, cert, key, native, Ok(Some(connector))),
    ensures
        config_identity(connector_config(connector)) is Some <==> cert is Some && key is Some,
        config_identity(connector_config(connector)) matches Some((chain, k)) ==> {
            &&& chain.len() == pem_certificates(cert->0).len()
            &&& forall|i: int|
                0 <= i < chain.len() ==> #[trigger] pem_certificates(cert->0)[i] == Ok::<
                    Seq<u8>,
                    Seq<char>,
                >(chain[i])
            &&& pem_private_key(key->0) matches Ok(Some(read)) && read == k
        },
{
    if cert is Some && key is Some {
        chain_item_by_item(pem_certificates(cert->0));
    }
}

/// Problems with the client pair are errors that tell what is wrong, once the roots are fine: first
/// a certificate that cannot be read, then a key that cannot be read, then a missing key.
pub proof fn a_bad_client_pair_is_an_error(
    ca: Option<Seq<u8>>,
    cert: Seq<u8>,
    key: Seq<u8>,
    native: Seq<Seq<u8>>,
    r: Result<Option<TlsConnector>, TlsError>,
    i: int,
)
    requires
        connector_outcome(ca, Some(cert), Some(key), native, r),
        ca matches Some(pem) ==> ca_roots(pem_certificates(pem)) is Ok,
    ensures
        ({
            let items = pem_certificates(cert);
            &&& 0 <= i < items.len() && items[i] is Err && (forall|j: int|
                0 <= j < i ==> (#[trigger] items[j]) is Ok) ==> r is Err && r->Err_0@
                == TlsProblem::InvalidClientCert(items[i]->Err_0)
            &&& (forall|j: int| 0 <= j < items.len() ==> (#[trigger] items[j]) is Ok) ==> {
                &&& pem_private_key(key) matches Err(cause) ==> r is Err && r->Err_0@
                    == TlsProblem::InvalidClientKey(cause)
                &&& pem_private_key(key) matches Ok(None) ==> r is Err && r->Err_0@
                    == TlsProblem::NoClientKey
                &&& pem_private_key(key) matches Ok(Some(_)) ==> (r is Err ==> r->Err_0
                    is InvalidClientPair)
            }
        }),
{
    let items = pem_certificates(cert);
    chain_item_by_item(items);
    if let Err(cause) = readable_chain(items) {
        let k = choose|k: int|
            {
                &&& 0 <= k < items.len()
                &&& #[trigger] items[k] == Err::<Seq<u8>, Seq<char>>(cause)
                &&& forall|j: int| 0 <= j < k ==> (#[trigger] items[j]) is Ok
            };
        if 0 <= i < items.len() && items[i] is Err && (forall|j: int|
            0 <= j < i ==> (#[trigger] items[j]) is Ok) {
            if k < i {
                assert(items[k] is Ok);
            } else if i < k {
                assert(items[i] is Ok);
            }
        }
    }
}

/// TLS is used exactly with a CA file, or with both a client certificate and a key. Without them
/// there is no connector and no error.
pub proof fn files_call_for_tls(
    ca: Option<Seq<u8>>,
    cert: Option<Seq<u8>>,
    key: Option<Seq<u8>>,
    native: Seq<Seq<u8>>,
    r: Result<Option<TlsConnector>, TlsError>,
)
    requires
        connector_outcome(ca, cert, key, native, r),
    ensures
        (r matches Ok(None)) <==> ca is None && (cert is None || key is None),
        ca is None && (cert is None || key is None) ==> r is Ok,
{
}

/// Every connector offers HTTP/2 first and HTTP/1.1 second: the protocol names `h2` and `http/1.1`,
/// in ASCII.
pub proof fn offered_protocols_are_h2_and_http1(
    ca: Option<Seq<u8>>,
    cert: Option<Seq<u8>>,
    key: Option<Seq<u8>>,
    native: Seq<Seq<u8>>,
    connector: TlsConnector,
)
    requires
        connector_outcome(ca, cert, key, native, Ok(Some(connector))),
    ensures
        ({
            let offered = config_protocols(connector_config(connector));
            &&& offered.len() == 2
            &&& offered[0].map_values(|b: u8| b as char) == "h2"@
            &&& offered[1].map_values(|b: u8| b as char) == "http/1.1"@
        }),
{
    reveal_strlit("h2");
    reveal_strlit("http/1.1");
    let offered = config_protocols(connector_config(connector));
    assert(offered[0].map_values(|b: u8| b as char) =~= "h2"@);
    assert(offered[1].map_values(|b: u8| b as char) =~= "http/1.1"@);
}

/// The host of an address with a port is what stands before the port; an address without a colon is
/// all host. Colons before the last one belong to the host.
pub proof fn the_port_is_cut_off(host: Seq<char>, port: Seq<char>)
    requires
        !port.contains(':'),
    ensures
        host_part(host.push(':') + port) == host,
        host_part(port) == port,
{
    last_colon(host, port);
    no_colon(port);
}

proof fn last_colon(host: Seq<char>, port: Seq<char>)
    requires
        !port.contains(':'),
    ensures
        before_last(host.push(':') + port, ':') == Some(host),
    decreases port.len(),
{
    let s = host.push(':') + port;
    if port.len() == 0 {
        assert(s == host.push(':'));
        assert(s.drop_last() == host);
    } else {
        let front = port.drop_last();
        assert(port[port.len() - 1] != ':');
        assert(s.last() == port.last());
        assert forall|i: int| 0 <= i < front.len() implies #[trigger] front[i] != ':' by {
            assert(port[i] == front[i]);
        }
        last_colon(host, front);
        assert(s.drop_last() == host.push(':') + front);
    }
}

proof fn no_colon(s: Seq<char>)
    requires
        !s.contains(':'),
    ensures
        before_last(s, ':') is None,
    decreases s.len(),
{
    if s.len() > 0 {
        let front = s.drop_last();
        assert(s[s.len() - 1] != ':');
        assert forall|i: int| 0 <= i < front.len() implies #[trigger] front[i] != ':' by {
            assert(s[i] == front[i]);
        }
        no_colon(front);
    }
}

/// A target with a connector has TLS toward the server name that its host is, and it is an error if
/// the host is none. A target without a connector has no TLS, whatever its address. An address that
/// comes back is the target's own.
pub proof fn tls_is_toward_the_host(
    addr: String,
    host: Seq<char>,
    port: Seq<char>,
    connector: Result<Option<TlsConnector>, TlsError>,
)
    requires
        addr@ == host.push(':') + port,
        !port.contains(':'),
    ensures
        tls_outcome(addr, connector) matches Ok((a, tls)) ==> {
            &&& a == addr
            &&& connector matches Ok(c) && (tls.inner is Some <==> c is Some)
            &&& tls.inner matches Some((c, name)) ==> {
                &&& connector matches Ok(Some(made)) && c == made
                &&& parsed_server_name(host) matches Ok(parsed) && name == parsed
            }
        },
        connector matches Err(e) ==> tls_outcome(addr, connector) == Err::<
            (String, Tls),
            TlsProblem,
        >(e@),
        connector matches Ok(Some(_)) ==> (tls_outcome(addr, connector) is Ok
            <==> parsed_server_name(host) is Ok),
        connector matches Ok(Some(_)) ==> (parsed_server_name(host) matches Err(cause)
            ==> tls_outcome(addr, connector) == Err::<(String, Tls), TlsProblem>(
            TlsProblem::InvalidServerName(cause),
        )),
        connector matches Ok(None) ==> tls_outcome(addr, connector) is Ok,
{
    the_port_is_cut_off(host, port);
}

/// The files that are loaded for a target are its CA file, and its client certificate and key files
/// if it has both, in this order and no others; and what was loaded for a file is used as that file.
pub proof fn each_file_is_used_as_itself(target: TargetView, loaded: Seq<Bytes>)
    requires
        loaded.len() == files_of(target).len(),
    ensures
        forall|i: int|
            0 <= i < loaded.len() ==> {
                let (kind, path) = #[trigger] files_of(target)[i];
                &&& file_contents(target, loaded, kind) == Some(loaded[i]@)
                &&& match kind {
                    FileKind::Ca => target.ca == Some(path),
                    FileKind::Cert => target.cert == Some(path) && target.key is Some,
                    FileKind::Key => target.key == Some(path) && target.cert is Some,
                }
            },
        forall|i: int, j: int|
            0 <= i < j < loaded.len() ==> (#[trigger] files_of(target)[i]).0 != (
            #[trigger] files_of(target)[j]).0,
        files_of(target).len() == (if target.ca is Some {
            1int
        } else {
            0int
        }) + (if target.cert is Some && target.key is Some {
            2int
        } else {
            0int
        }),
        file_contents(target, loaded, FileKind::Ca) is Some <==> target.ca is Some,
        file_contents(target, loaded, FileKind::Cert) is Some <==> target.cert is Some
            && target.key is Some,
        file_contents(target, loaded, FileKind::Key) is Some <==> target.cert is Some
            && target.key is Some,
{
}

/// The texts of the errors, with their causes.
pub proof fn problems_tell_their_cause(path: Seq<char>, cause: Seq<char>)
    ensures
        TlsProblem::InvalidCa(cause).text() == "invalid CA cert in PEM"@ + ": "@ + cause,
        TlsProblem::RejectedCa(cause).text() == "failed to add CA certificate"@ + ": "@ + cause,
        TlsProblem::InvalidClientCert(cause).text() == "invalid client cert PEM"@ + ": "@ + cause,
        TlsProblem::InvalidClientKey(cause).text() == "invalid client key PEM"@ + ": "@ + cause,
        TlsProblem::NoClientKey.text() == "no private key found in key PEM"@,
        TlsProblem::InvalidClientPair(cause).text() == "invalid client cert/key pair"@ + ": "@
            + cause,
        TlsProblem::InvalidServerName(cause).text() == "invalid TLS server name"@ + ": "@ + cause,
        TlsProblem::UnreadableFile(path, cause).text() == "failed to read TLS file: "@ + path + ": "@
            + cause,
{
}

/// Asking for a file, or the end of its read, changes nothing for other files; a failed read changes
/// nothing of what is known of any file.
pub proof fn files_do_not_disturb_each_other(
    state: SlotView,
    path: Seq<char>,
    other: Seq<char>,
    outcome: Option<Seq<u8>>,
)
    requires
        other != path,
    ensures
        state.begun(path).cached(other) == state.cached(other),
        state.begun(path).cached(path) == state.cached(path),
        state.begun(path).inflight.contains(other) == state.inflight.contains(other),
        state.begun(path).inflight.contains(path) == (state.inflight.contains(path) || state.cached(
            path,
        ) is None),
        state.finished(path, outcome).cached(other) == state.cached(other),
        state.finished(path, outcome).inflight.contains(other) == state.inflight.contains(other),
        !state.finished(path, outcome).inflight.contains(path),
        state.finished(path, None).cached(path) == state.cached(path),
        outcome is Some ==> state.finished(path, outcome).cached(path) == outcome,
{
}

/// A target with a CA file whose certificates can all be roots, and without a client certificate or
/// without a key, gets a connector: nothing else can go wrong.
pub proof fn a_good_ca_file_is_enough(
    ca: Seq<u8>,
    cert: Option<Seq<u8>>,
    key: Option<Seq<u8>>,
    native: Seq<Seq<u8>>,
    r: Result<Option<TlsConnector>, TlsError>,
)
    requires
        connector_outcome(Some(ca), cert, key, native, r),
        cert is None || key is None,
        forall|i: int|
            0 <= i < pem_certificates(ca).len() ==> (#[trigger] pem_certificates(ca)[i]) is Ok
                && trust_anchor(pem_certificates(ca)[i]->Ok_0) is Ok,
    ensures
        r matches Ok(Some(_)),
{
    let items = pem_certificates(ca);
    assert(items == items.take(items.len() as int));
    readable_roots(items, items);
}

/// A client certificate and key that can be read, with fine roots, give a connector or are refused
/// by a cryptography provider for a reason that it has.
pub proof fn only_a_provider_refuses_a_pair(
    ca: Option<Seq<u8>>,
    cert: Seq<u8>,
    key: Seq<u8>,
    native: Seq<Seq<u8>>,
    r: Result<Option<TlsConnector>, TlsError>,
    k: PrivateKeyDer<'static>,
)
    requires
        connector_outcome(ca, Some(cert), Some(key), native, r),
        ca matches Some(pem) ==> ca_roots(pem_certificates(pem)) is Ok,
        forall|i: int|
            0 <= i < pem_certificates(cert).len() ==> (#[trigger] pem_certificates(cert)[i]) is Ok,
        pem_private_key(key) == Ok::<Option<PrivateKeyDer<'static>>, Seq<char>>(Some(k)),
    ensures
        ({
            let chain = pem_certificates(cert).map_values(|c: Result<Seq<u8>, Seq<char>>| c->Ok_0);
            match r {
                Ok(Some(_)) => exists|p: CryptoProvider| #[trigger]
                    pair_problem(p, chain, k) is None,
                Ok(None) => false,
                Err(e) => e@ matches TlsProblem::InvalidClientPair(cause) && exists|
                    p: CryptoProvider,
                | #[trigger]
                    pair_problem(p, chain, k) == Some(cause),
            }
        }),
{
    let items = pem_certificates(cert);
    chain_item_by_item(items);
    if let Err(cause) = readable_chain(items) {
        let i = choose|i: int|
            {
                &&& 0 <= i < items.len()
                &&& #[trigger] items[i] == Err::<Seq<u8>, Seq<char>>(cause)
                &&& forall|j: int| 0 <= j < i ==> (#[trigger] items[j]) is Ok
            };
        assert(items[i] is Ok);
    }
    let chain = readable_chain(items)->Ok_0;
    assert(chain =~= items.map_values(|c: Result<Seq<u8>, Seq<char>>| c->Ok_0));
}

/// What to do when a file is asked for is settled by what is known of it: use its contents if it was
/// read, wait if it is being read, and read it otherwise.
pub proof fn requests_are_settled(step: LoadStep, state: SlotView, path: Seq<char>)
    requires
        step.answers(state, path),
    ensures
        step is Cached <==> state.cache.contains_key(path),
        step matches LoadStep::Cached(bytes) ==> bytes@ == state.cache[path],
        step is Join <==> !state.cache.contains_key(path) && state.inflight.contains(path),
        step is Read <==> !state.cache.contains_key(path) && !state.inflight.contains(path),
{
}

/// Lists of byte strings and of items are looked at one by one.
pub proof fn lists_are_looked_at_one_by_one(
    v: Seq<Vec<u8>>,
    items: Seq<Result<Vec<u8>, String>>,
    i: int,
)
    ensures
        byte_views(v).len() == v.len(),
        0 <= i < v.len() ==> byte_views(v)[i] == v[i]@,
        item_views(items).len() == items.len(),
        0 <= i < items.len() ==> match items[i] {
            Ok(bytes) => item_views(items)[i] == Ok::<Seq<u8>, Seq<char>>(bytes@),
            Err(cause) => item_views(items)[i] == Err::<Seq<u8>, Seq<char>>(cause@),
        },
{
}

} // verus!
