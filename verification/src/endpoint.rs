//! How a worker is spoken to, and the tonic endpoint that does so.

use crate::calls::{called, called0, called2};
use crate::plan::copy_bytes;
use tonic::transport::{ClientTlsConfig, Endpoint};
use vstd::prelude::*;

verus! {

/// A CA certificate, PEM encoded. It is not looked into before a TLS connection is attempted.
#[derive(Debug)]
pub struct Certificate {
    pub pem: Vec<u8>,
}

pub open spec fn certificate_view(certificate: Option<Certificate>) -> Option<Seq<u8>> {
    match certificate {
        Some(certificate) => Some(certificate.pem@),
        None => None,
    }
}

/// Which certificates a worker's certificate is checked against.
#[derive(Debug)]
pub enum TrustRoots {
    /// This CA alone.
    Ca(Certificate),
    /// The public ones.
    Enabled,
}

/// The TLS that a worker expects.
#[derive(Debug)]
pub struct TlsSettings {
    /// The name for SNI and for checking the certificate; an IP address has none.
    pub domain_name: Option<String>,
    pub roots: TrustRoots,
}

/// How to speak to a worker: the URI it is told as authority, and the TLS it expects.
#[derive(Debug)]
pub struct EndpointSettings {
    pub uri: String,
    /// In milliseconds.
    pub connect_timeout: u64,
    pub tls: Option<TlsSettings>,
}

pub ghost struct TlsView {
    pub domain_name: Option<Seq<char>>,
    /// The CA to check against, or `None` for the public ones.
    pub ca_certificate: Option<Seq<u8>>,
}

/// [`EndpointSettings`] as a mathematical value.
pub ghost struct EndpointView {
    pub uri: Seq<char>,
    pub connect_timeout: u64,
    pub tls: Option<TlsView>,
}

impl View for TlsSettings {
    type V = TlsView;

    open spec fn view(&self) -> TlsView {
        TlsView {
            domain_name: match self.domain_name {
                Some(name) => Some(name@),
                None => None,
            },
            ca_certificate: match self.roots {
                TrustRoots::Ca(certificate) => Some(certificate.pem@),
                TrustRoots::Enabled => None,
            },
        }
    }
}

impl View for EndpointSettings {
    type V = EndpointView;

    open spec fn view(&self) -> EndpointView {
        EndpointView {
            uri: self.uri@,
            connect_timeout: self.connect_timeout,
            tls: match self.tls {
                Some(tls) => Some(tls@),
                None => None,
            },
        }
    }
}

impl Certificate {
    pub fn from_pem(pem: &[u8]) -> (r: Self)
        ensures
            r.pem@ == pem@,
    {
        Certificate { pem: copy_bytes(pem) }
    }
}

impl Clone for Certificate {
    fn clone(&self) -> (r: Self)
        ensures
            r.pem@ == self.pem@,
    {
        Certificate { pem: copy_bytes(self.pem.as_slice()) }
    }
}

#[verifier::external_type_specification]
#[verifier::external_body]
pub struct ExEndpoint(Endpoint);

#[verifier::external_type_specification]
#[verifier::external_body]
pub struct ExClientTlsConfig(ClientTlsConfig);

#[verifier::external_type_specification]
#[verifier::external_body]
pub struct ExTransportError(tonic::transport::Error);

/// Whether tonic takes a text for the URI of an endpoint.
pub uninterp spec fn uri_accepted(uri: Seq<char>) -> bool;

/// `Endpoint::from_shared`. Whether a text is accepted depends on the text alone. The endpoint is
/// only handed on, and nothing is said of it.
#[verifier::external_body]
fn shared_endpoint(uri: String) -> (r: Result<Endpoint, tonic::transport::Error>)
    ensures
        r is Ok == uri_accepted(uri@),
{
    Endpoint::from_shared(uri)
}

/// `Endpoint::connect_timeout`. The endpoint is only handed on, and nothing is said of it.
#[verifier::external_body]
fn timed_endpoint(endpoint: Endpoint, millis: u64) -> Endpoint {
    endpoint.connect_timeout(std::time::Duration::from_millis(millis))
}

/// `ClientTlsConfig::new`. The configuration is only handed on, and nothing is said of it.
#[verifier::external_body]
fn new_tls() -> ClientTlsConfig {
    ClientTlsConfig::new()
}

/// `ClientTlsConfig::domain_name`. The configuration is only handed on, and nothing is said of it.
#[verifier::external_body]
fn tls_for_domain(tls: ClientTlsConfig, domain_name: String) -> ClientTlsConfig {
    tls.domain_name(domain_name)
}

/// `ClientTlsConfig::ca_certificate`. The configuration is only handed on, and nothing is said of
/// it.
#[verifier::external_body]
fn tls_with_ca(tls: ClientTlsConfig, pem: Vec<u8>) -> ClientTlsConfig {
    tls.ca_certificate(tonic::transport::Certificate::from_pem(pem))
}

/// `ClientTlsConfig::with_enabled_roots`. The configuration is only handed on, and nothing is said
/// of it.
#[verifier::external_body]
fn tls_with_enabled_roots(tls: ClientTlsConfig) -> ClientTlsConfig {
    tls.with_enabled_roots()
}

/// Whether `named` is the TLS configuration `fresh`, for the domain name if there is one.
spec fn names(
    domain_name: Option<Seq<char>>,
    fresh: ClientTlsConfig,
    named: ClientTlsConfig,
) -> bool {
    match domain_name {
        Some(domain_name) => exists|text: String|
            text@ == domain_name && #[trigger] call_ensures(tls_for_domain, (fresh, text), named),
        None => named == fresh,
    }
}

/// Whether `tls` is the TLS configuration `named`, with the CA or else the enabled roots.
spec fn trusts(
    ca_certificate: Option<Seq<u8>>,
    named: ClientTlsConfig,
    tls: ClientTlsConfig,
) -> bool {
    match ca_certificate {
        Some(ca_certificate) => exists|pem: Vec<u8>|
            pem@ == ca_certificate && #[trigger] call_ensures(tls_with_ca, (named, pem), tls),
        None => call_ensures(tls_with_enabled_roots, (named,), tls),
    }
}

/// Whether `tls` is the TLS configuration that the settings ask for: a new one, for the domain
/// name, with the roots.
spec fn configures(settings: TlsView, tls: ClientTlsConfig) -> bool {
    exists|fresh: ClientTlsConfig, named: ClientTlsConfig|
        {
            &&& call_ensures(new_tls, (), fresh)
            &&& #[trigger] names(settings.domain_name, fresh, named)
            &&& trusts(settings.ca_certificate, named, tls)
        }
}

/// Whether `endpoint` is the endpoint for the URI of the settings, with their connect timeout.
spec fn reaches(settings: EndpointView, endpoint: Endpoint) -> bool {
    exists|uri: String, shared: Endpoint|
        {
            &&& uri@ == settings.uri
            &&& #[trigger] call_ensures(
                shared_endpoint,
                (uri,),
                Ok::<Endpoint, tonic::transport::Error>(shared),
            )
            &&& call_ensures(timed_endpoint, (shared, settings.connect_timeout), endpoint)
        }
}

/// Whether tonic takes a URI, a domain name and a CA, or else the enabled roots, for the TLS of an
/// endpoint.
pub uninterp spec fn tls_accepted(
    uri: Seq<char>,
    domain_name: Option<Seq<char>>,
    ca_certificate: Option<Seq<u8>>,
) -> bool;

/// `Endpoint::tls_config`. Whether there is an endpoint depends on the URI that the endpoint was
/// made for and on the domain name and the CA of the configuration alone: on the name, or else the
/// host of the URI, being one for a server, and on no PEM of the CA being broken. The enabled roots
/// are built in.
/// A cryptography of its own that the process has set up has to speak some version of TLS. The
/// endpoint is only handed on, and nothing else is said of it.
#[verifier::external_body]
fn tls_endpoint(endpoint: Endpoint, tls: ClientTlsConfig) -> (r: Result<
    Endpoint,
    tonic::transport::Error,
>)
    ensures
        forall|settings: EndpointView, asked: TlsView| #[trigger]
            reaches(settings, endpoint) && #[trigger] configures(asked, tls) ==> (r is Ok
                == tls_accepted(settings.uri, asked.domain_name, asked.ca_certificate)),
{
    endpoint.tls_config(tls)
}

/// Whether tonic refuses the URI of the settings with this error.
spec fn refused(settings: EndpointView, error: tonic::transport::Error) -> bool {
    exists|uri: String|
        uri@ == settings.uri && #[trigger] call_ensures(
            shared_endpoint,
            (uri,),
            Err::<Endpoint, tonic::transport::Error>(error),
        )
}

/// Whether setting up the TLS of the settings can end like this.
spec fn secures(
    settings: EndpointView,
    tls: TlsView,
    result: Result<Endpoint, tonic::transport::Error>,
) -> bool {
    exists|plain: Endpoint, config: ClientTlsConfig|
        {
            &&& reaches(settings, plain)
            &&& configures(tls, config)
            &&& #[trigger] call_ensures(tls_endpoint, (plain, config), result)
        }
}

impl EndpointView {
    /// Whether there is an endpoint for the settings.
    pub open spec fn accepted(self) -> bool {
        &&& uri_accepted(self.uri)
        &&& self.tls matches Some(tls) ==> tls_accepted(
            self.uri,
            tls.domain_name,
            tls.ca_certificate,
        )
    }

    /// Whether building the endpoint can end like this: it is made for the URI, with the connect
    /// timeout, and with the TLS if there is any.
    pub closed spec fn builds(self, result: Result<Endpoint, tonic::transport::Error>) -> bool {
        if !uri_accepted(self.uri) {
            result matches Err(error) && refused(self, error)
        } else {
            match self.tls {
                Some(tls) => secures(self, tls, result),
                None => result matches Ok(endpoint) && reaches(self, endpoint),
            }
        }
    }
}

/// The TLS configuration that the settings ask for.
fn configured(settings: TlsSettings) -> (r: ClientTlsConfig)
    ensures
        configures(settings@, r),
{
    let ghost view = settings@;
    let fresh: ClientTlsConfig = called0(new_tls);
    let ghost first = fresh;
    let named: ClientTlsConfig = match settings.domain_name {
        Some(domain_name) => called2(tls_for_domain, fresh, domain_name),
        None => fresh,
    };
    assert(names(view.domain_name, first, named));
    let ghost second = named;
    let tls: ClientTlsConfig = match settings.roots {
        TrustRoots::Ca(certificate) => called2(tls_with_ca, named, certificate.pem),
        TrustRoots::Enabled => called(tls_with_enabled_roots, named),
    };
    assert(trusts(view.ca_certificate, second, tls));
    tls
}

/// Builds the endpoint that the settings ask for.
pub fn build_endpoint(settings: EndpointSettings) -> (r: Result<Endpoint, tonic::transport::Error>)
    ensures
        settings@.builds(r),
        r is Ok <==> settings@.accepted(),
{
    let ghost view = settings@;
    let shared: Endpoint = match called(shared_endpoint, settings.uri) {
        Ok(endpoint) => endpoint,
        Err(error) => {
            return Err(error);
        },
    };
    let plain: Endpoint = called2(timed_endpoint, shared, settings.connect_timeout);
    assert(reaches(view, plain));
    match settings.tls {
        Some(tls) => {
            let config: ClientTlsConfig = configured(tls);
            tls_endpoint(plain, config)
        },
        None => Ok(plain),
    }
}

/// There is an endpoint if and only if its URI is accepted and, where TLS is asked for, its TLS for
/// that URI is.
pub proof fn when_there_is_an_endpoint(settings: EndpointView)
    ensures
        settings.tls is None ==> (settings.accepted() <==> uri_accepted(settings.uri)),
        settings.tls matches Some(tls) ==> (settings.accepted() <==> uri_accepted(settings.uri)
            && tls_accepted(settings.uri, tls.domain_name, tls.ca_certificate)),
{
}

/// The views of settings and of certificates leave nothing out.
pub proof fn settings_are_seen_whole(
    settings: EndpointSettings,
    tls: TlsSettings,
    certificate: Option<Certificate>,
)
    ensures
        settings@.uri == settings.uri@,
        settings@.connect_timeout == settings.connect_timeout,
        settings@.tls is Some <==> settings.tls is Some,
        settings.tls matches Some(asked) ==> settings@.tls == Some(asked@),
        tls@.domain_name is Some <==> tls.domain_name is Some,
        tls.domain_name matches Some(name) ==> tls@.domain_name == Some(name@),
        match tls.roots {
            TrustRoots::Ca(ca) => tls@.ca_certificate == Some(ca.pem@),
            TrustRoots::Enabled => tls@.ca_certificate is None,
        },
        certificate_view(certificate) is Some <==> certificate is Some,
        certificate matches Some(ca) ==> certificate_view(certificate) == Some(ca.pem@),
{
}

/// The TLS configuration that settings ask for is a new one, made for the domain name if there is
/// one, and with the CA if there is one and the enabled roots otherwise.
proof fn how_tls_is_configured(asked: TlsView, tls: ClientTlsConfig)
    requires
        configures(asked, tls),
    ensures
        exists|fresh: ClientTlsConfig, named: ClientTlsConfig|
            {
                &&& #[trigger] call_ensures(new_tls, (), fresh)
                &&& asked.domain_name is None ==> named == fresh
                &&& asked.domain_name matches Some(name) ==> exists|text: String|
                    text@ == name && #[trigger] call_ensures(tls_for_domain, (fresh, text), named)
                &&& asked.ca_certificate is None ==> call_ensures(
                    tls_with_enabled_roots,
                    (named,),
                    tls,
                )
                &&& asked.ca_certificate matches Some(ca) ==> exists|pem: Vec<u8>|
                    pem@ == ca && #[trigger] call_ensures(tls_with_ca, (named, pem), tls)
                &&& #[trigger] names(asked.domain_name, fresh, named)
            },
{
}

/// An endpoint is made for the URI of the settings and then given their connect timeout. With TLS it
/// is given the configuration that the settings ask for, and without it is left as it is. A URI that
/// is refused is refused with tonic's own error.
proof fn how_an_endpoint_is_built(
    settings: EndpointView,
    result: Result<Endpoint, tonic::transport::Error>,
)
    requires
        settings.builds(result),
    ensures
        !uri_accepted(settings.uri) ==> result is Err && exists|uri: String|
            uri@ == settings.uri && #[trigger] call_ensures(shared_endpoint, (uri,), result),
        uri_accepted(settings.uri) ==> exists|uri: String, shared: Endpoint, plain: Endpoint|
            {
                &&& uri@ == settings.uri
                &&& #[trigger] call_ensures(
                    shared_endpoint,
                    (uri,),
                    Ok::<Endpoint, tonic::transport::Error>(shared),
                )
                &&& #[trigger] call_ensures(
                    timed_endpoint,
                    (shared, settings.connect_timeout),
                    plain,
                )
                &&& settings.tls is None ==> result == Ok::<Endpoint, tonic::transport::Error>(
                    plain,
                )
                &&& settings.tls matches Some(tls) ==> exists|config: ClientTlsConfig|
                    configures(tls, config) && #[trigger] call_ensures(
                        tls_endpoint,
                        (plain, config),
                        result,
                    )
            },
{
}

} // verus!
