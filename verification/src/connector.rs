//! How the console reaches workers: which address to dial for a worker, and by which name and with
//! which TLS to speak to it.

use crate::address::{
    is_http, result_view, unbracketed, url_parsed, with_port, with_scheme, Host, HostView,
    ParseError, ParseErrorView, Url, UrlView,
};
use crate::endpoint::{
    build_endpoint, certificate_view, Certificate, EndpointSettings, EndpointView, TlsSettings,
    TlsView, TrustRoots,
};
use crate::text::{decimal, decimal_text, joined, same_text};
use tonic::transport::Endpoint;
use vstd::prelude::*;

verus! {

/// Budget, in milliseconds, for opening a worker connection: the TCP connect and the TLS handshake
/// together.
///
/// The console dials on the tick of its interface, so an unreachable worker must fail rather than
/// stall the whole cluster view; a second is long enough for a handshake across a region and short
/// enough to notice.
pub const DEFAULT_CONNECT_TIMEOUT: u64 = 1000;

/// The name a cluster answers to, as opposed to the address the console dials: scheme, host and
/// port, and the CA that signs the workers if it is not a public one.
///
/// It is always an http or https URL with a host, and a CA goes with https only.
#[derive(Debug)]
pub struct LogicalOrigin {
    url: Url,
    ca_certificate: Option<Certificate>,
}

/// A [`LogicalOrigin`] as a mathematical value.
pub ghost struct OriginView {
    pub url: UrlView,
    pub ca_certificate: Option<Seq<u8>>,
}

impl View for LogicalOrigin {
    type V = OriginView;

    closed spec fn view(&self) -> OriginView {
        OriginView { url: self.url@, ca_certificate: certificate_view(self.ca_certificate) }
    }
}

impl OriginView {
    pub open spec fn wf(self) -> bool {
        origin_refusal(self.url, self.ca_certificate is Some) is None
    }
}

/// Why a URL cannot be an origin, with or without a CA.
pub open spec fn origin_refusal(url: UrlView, has_ca: bool) -> Option<Seq<char>> {
    if !is_http(url.scheme) {
        Some(
            "worker origin must be http or https, got `"@ + url.scheme + "` in "@ + url.text,
        )
    } else if url.host is None {
        Some("worker origin "@ + url.text + " has no host"@)
    } else if url.scheme != "https"@ && has_ca {
        Some("a CA certificate requires an https worker origin"@)
    } else {
        None
    }
}

impl LogicalOrigin {
    #[verifier::type_invariant]
    closed spec fn origin_wf(self) -> bool {
        self@.wf()
    }

    /// Builds an origin, rejecting URLs that cannot name an endpoint.
    ///
    /// The origin is only ever used for its scheme, host and port, so a URL missing any of them
    /// would fail later, at dial time, with a much less obvious message.
    pub fn new(url: Url, ca_certificate: Option<Certificate>) -> (r: Result<Self, String>)
        ensures
            match r {
                Ok(origin) => {
                    &&& origin_refusal(url@, ca_certificate is Some) is None
                    &&& origin@ == (OriginView {
                        url: url@,
                        ca_certificate: certificate_view(ca_certificate),
                    })
                },
                Err(message) => origin_refusal(url@, ca_certificate is Some) == Some(message@),
            },
    {
        let https: bool = same_text(url.scheme(), "https");
        if !https && !same_text(url.scheme(), "http") {
            let got = joined("worker origin must be http or https, got `", url.scheme());
            return Err(joined(joined(got.as_str(), "` in ").as_str(), url.as_str()));
        }
        if !url.has_host() {
            let named = joined("worker origin ", url.as_str());
            return Err(joined(named.as_str(), " has no host"));
        }
        if !https && ca_certificate.is_some() {
            return Err("a CA certificate requires an https worker origin".to_string());
        }
        Ok(LogicalOrigin { url, ca_certificate })
    }
}

/// Decides how worker URLs become connections.
///
/// Polling a worker and discovering the cluster both dial workers, and both must agree on how a
/// worker URL becomes a connection.
#[derive(Debug)]
pub struct WorkerConnector {
    /// `None` dials whatever address the worker reports, in the clear. A worker that reports an https
    /// address is not reached so.
    origin: Option<LogicalOrigin>,
    connect_timeout: u64,
}

/// A [`WorkerConnector`] as a mathematical value.
pub ghost struct ConnectorView {
    pub origin: Option<OriginView>,
    pub connect_timeout: u64,
}

impl View for WorkerConnector {
    type V = ConnectorView;

    closed spec fn view(&self) -> ConnectorView {
        ConnectorView {
            origin: match self.origin {
                Some(origin) => Some(origin@),
                None => None,
            },
            connect_timeout: self.connect_timeout,
        }
    }
}

/// Where to send the bytes of a connection, and how to speak over it.
#[derive(Debug)]
pub struct Dial {
    pub host: String,
    pub port: u16,
    pub endpoint: Endpoint,
}

/// Why a worker cannot be connected to, before anything is sent.
#[derive(Debug)]
pub enum ConnectError {
    /// There is no address to dial.
    NoAddress(String),
    /// There is no endpoint for its name.
    Endpoint(tonic::transport::Error),
}

/// The host and port of a URL for the socket layer, if it has both.
pub open spec fn dial_address(url: UrlView) -> Option<(Seq<char>, u16)> {
    match (url.host, url.port_or_known_default()) {
        (Some(host), Some(port)) => Some((host.socket_text(), port)),
        _ => None,
    }
}

/// Whether a report is to be read again, as the authority of a URL: it was read without a host, or
/// not at all for want of a scheme.
pub open spec fn lacks_authority(read: Result<UrlView, ParseErrorView>) -> bool {
    match read {
        Ok(url) => url.host is None,
        Err(error) => error is RelativeUrlWithoutBase,
    }
}

/// What a report stands for: a full URL, or a bare authority under `scheme`.
pub open spec fn reported_url(reported: Seq<char>, scheme: Seq<char>) -> Result<
    UrlView,
    ParseErrorView,
> {
    if lacks_authority(url_parsed(reported)) {
        url_parsed(with_scheme(scheme, reported))
    } else {
        url_parsed(reported)
    }
}

/// The port for a worker: the one it states, or else the one of the origin.
pub open spec fn worker_port(origin: UrlView, reported: UrlView) -> Option<u16> {
    match reported.port {
        Some(port) => Some(port),
        None => origin.port_or_known_default(),
    }
}

/// A report moved onto the scheme of the origin.
pub open spec fn moved(origin: UrlView, reported: UrlView) -> Seq<char> {
    let host = reported.host_str->0;
    with_scheme(
        origin.scheme,
        match worker_port(origin, reported) {
            Some(port) => with_port(host, port),
            None => host,
        },
    )
}

impl ConnectorView {
    /// The scheme of reports that do not say.
    pub open spec fn scheme(self) -> Seq<char> {
        match self.origin {
            Some(origin) => origin.url.scheme,
            None => "http"@,
        }
    }

    /// The URL to dial for a report.
    pub open spec fn worker_url(self, reported: Seq<char>) -> Result<UrlView, ParseErrorView> {
        match (self.origin, reported_url(reported, self.scheme())) {
            (Some(origin), Ok(url)) => match url.host_str {
                Some(_) => url_parsed(moved(origin.url, url)),
                None => Err(ParseErrorView::EmptyHost),
            },
            (_, read) => read,
        }
    }

    /// Whether a worker URL is where its report puts it: it has a host and, with an origin, the
    /// origin's scheme, the host that the report states and the port that the report states or else
    /// the origin's.
    pub open spec fn placed(self, reported: Seq<char>, url: UrlView) -> bool {
        &&& url.wf()
        &&& url.host is Some
        &&& self.origin matches Some(origin) ==> {
            &&& url.scheme == origin.url.scheme
            &&& url.port_or_known_default() == worker_port(
                origin.url,
                reported_url(reported, origin.url.scheme)->Ok_0,
            )
            &&& reported_url(reported, origin.url.scheme) is Ok
            &&& reported_url(reported, origin.url.scheme)->Ok_0.host_str is Some
            &&& url_parsed(
                origin.url.scheme + "://"@ + (reported_url(
                    reported,
                    origin.url.scheme,
                )->Ok_0.host_str->0 + ":"@ + decimal(url.port_or_known_default()->0 as nat)),
            ) == Ok::<UrlView, ParseErrorView>(url)
        }
        &&& self.origin is None ==> reported_url(reported, "http"@) == Ok::<
            UrlView,
            ParseErrorView,
        >(url)
    }

    /// Whether a worker URL keeps its port where it is moved onto the origin again: an origin that
    /// states a port moves a URL without one onto that port.
    pub open spec fn keeps_port(self, url: UrlView) -> bool {
        self.origin matches Some(origin) ==> origin.url.port is None || url.port is Some
    }

    /// The URL that names a worker: the origin, or else the address that is dialed.
    pub open spec fn named(self, target: UrlView) -> UrlView {
        match self.origin {
            Some(origin) => origin.url,
            None => target,
        }
    }

    /// An origin is always one that was accepted.
    pub open spec fn wf(self) -> bool {
        self.origin matches Some(origin) ==> origin.wf()
    }

    /// How to speak to the worker at `target`.
    pub open spec fn settings(self, target: UrlView) -> EndpointView {
        let named = self.named(target);
        EndpointView {
            uri: named.text,
            connect_timeout: self.connect_timeout,
            tls: match self.origin {
                Some(origin) => if origin.url.scheme == "https"@ {
                    Some(
                        TlsView {
                            domain_name: match origin.url.host {
                                Some(HostView::Domain(domain)) => Some(domain),
                                _ => None,
                            },
                            ca_certificate: origin.ca_certificate,
                        },
                    )
                } else {
                    None
                },
                None => None,
            },
        }
    }
}

/// Whether a report is to be read again as the authority of a URL.
pub fn needs_scheme(read: &Result<Url, ParseError>) -> (r: bool)
    ensures
        r == lacks_authority(result_view(*read)),
{
    match read {
        Ok(url) => !url.has_host(),
        Err(ParseError::RelativeUrlWithoutBase) => true,
        Err(_) => false,
    }
}

/// Parses a worker's self-report, which may be a full URL or a bare authority.
///
/// `localhost:9001` reads as the scheme `localhost` with the path `9001`, and `10.0.0.1:9001` and
/// `[::1]:9001` do not read as URLs at all, so anything that comes back without a host is retried
/// as an authority under `scheme`.
pub fn parse_reported(reported: &str, scheme: &str) -> (r: Result<Url, ParseError>)
    ensures
        result_view(r) == reported_url(reported@, scheme@),
        match r {
            Ok(url) => reported_url(reported@, scheme@) == Ok::<UrlView, ParseErrorView>(url@),
            Err(error) => reported_url(reported@, scheme@) == Err::<UrlView, ParseErrorView>(
                error@,
            ),
        },
        r matches Ok(url) ==> url@.wf(),
        is_http(scheme@) ==> (r matches Ok(url) ==> url@.host is Some),
{
    let read = Url::parse(reported);
    if !needs_scheme(&read) {
        return read;
    }
    let full = joined(joined(scheme, "://").as_str(), reported);
    assert(full@ =~= with_scheme(scheme@, reported@));
    Url::parse(full.as_str())
}

/// Splits a URL into the host and port to hand to the TCP stack.
///
/// The host is unbracketed: URLs write IPv6 literals as `[::1]`, but the socket layer wants `::1`.
pub fn dial_target(url: &Url) -> (r: Option<(String, u16)>)
    ensures
        match r {
            Some((host, port)) => dial_address(url@) == Some((host@, port)),
            None => dial_address(url@) is None,
        },
        match r {
            Some((host, port)) => {
                &&& url@.port_or_known_default() == Some(port)
                &&& match url@.host {
                    Some(HostView::Domain(domain)) => host@ == domain,
                    Some(HostView::Ipv4(address)) => host@ == address,
                    Some(HostView::Ipv6(address)) => host@ == address,
                    None => false,
                }
            },
            None => url@.host is None || url@.port_or_known_default() is None,
        },
        r matches Some((host, _)) ==> unbracketed(host@),
{
    match (url.host(), url.port_or_known_default()) {
        (Some(host), Some(port)) => Some((host.socket_text(), port)),
        _ => None,
    }
}

impl Clone for LogicalOrigin {
    fn clone(&self) -> (r: Self)
        ensures
            r@ == self@,
    {
        proof {
            use_type_invariant(self);
        }
        let ca_certificate: Option<Certificate> = match &self.ca_certificate {
            Some(certificate) => Some(certificate.clone()),
            None => None,
        };
        LogicalOrigin { url: self.url.clone(), ca_certificate }
    }
}

impl Clone for WorkerConnector {
    fn clone(&self) -> (r: Self)
        ensures
            r@ == self@,
    {
        let origin: Option<LogicalOrigin> = match &self.origin {
            Some(origin) => Some(origin.clone()),
            None => None,
        };
        WorkerConnector { origin, connect_timeout: self.connect_timeout }
    }
}

impl WorkerConnector {
    /// Builds a connector that talks plaintext to the addresses workers report.
    pub fn new(connect_timeout: u64) -> (r: Self)
        ensures
            r@ == (ConnectorView { origin: None, connect_timeout }),
    {
        WorkerConnector { origin: None, connect_timeout }
    }

    /// Makes every connection present `origin` on the wire while still dialing the physical
    /// address it was handed.
    pub fn with_origin(self, origin: LogicalOrigin) -> (r: Self)
        ensures
            r@ == (ConnectorView { origin: Some(origin@), ..self@ }),
            r@.wf(),
    {
        proof {
            use_type_invariant(&origin);
        }
        WorkerConnector { origin: Some(origin), connect_timeout: self.connect_timeout }
    }

    /// The text of a report moved onto the scheme of the origin: the report's host, and its port
    /// or else the origin's. `None` without an origin or without a host.
    pub fn moved_report(&self, reported: &Url) -> (r: Option<String>)
        ensures
            match r {
                Some(text) => {
                    &&& self@.origin is Some
                    &&& reported@.host_str is Some
                    &&& text@ == moved(self@.origin->0.url, reported@)
                },
                None => self@.origin is None || reported@.host_str is None,
            },
            r matches Some(text) ==> text@ == self@.origin->0.url.scheme + "://"@ + (
            reported@.host_str->0 + ":"@ + decimal(
                (match reported@.port {
                    Some(port) => port,
                    None => match self@.origin->0.url.port {
                        Some(port) => port,
                        None => if self@.origin->0.url.scheme == "https"@ {
                            443
                        } else {
                            80
                        },
                    },
                }) as nat,
            )),
    {
        proof {
            if let Some(origin) = &self.origin {
                use_type_invariant(origin);
                lemma_default_ports(origin@.url);
            }
        }
        match (&self.origin, reported.host_str()) {
            (Some(origin), Some(host)) => {
                let port: Option<u16> = match reported.port() {
                    Some(port) => Some(port),
                    None => origin.url.port_or_known_default(),
                };
                let rest: String = match port {
                    Some(port) => {
                        let number = decimal_text(port as u64);
                        joined(joined(host, ":").as_str(), number.as_str())
                    },
                    None => host.to_string(),
                };
                let before = joined(origin.url.scheme(), "://");
                Some(joined(before.as_str(), rest.as_str()))
            },
            _ => None,
        }
    }

    /// Turns a worker's report of itself into a URL this connector can dial.
    ///
    /// With an origin the report is moved onto the origin's scheme, because a worker that only
    /// knows its in-cluster plaintext address cannot report the https front door the console
    /// reaches it through. A port the worker states explicitly is kept, and otherwise the origin's
    /// port applies. A reported port that is its scheme's default is indistinguishable from no
    /// port at all and takes the origin's port.
    ///
    /// With an origin, whatever comes back can be dialed. Normalizing what comes back once more
    /// changes nothing, where it is read back from its own text and keeps its port.
    pub fn worker_url(&self, reported: &str) -> (r: Result<Url, ParseError>)
        ensures
            result_view(r) == self@.worker_url(reported@),
            match r {
                Ok(url) => self@.worker_url(reported@) == Ok::<UrlView, ParseErrorView>(url@),
                Err(error) => self@.worker_url(reported@) == Err::<UrlView, ParseErrorView>(error@),
            },
            r matches Ok(url) ==> self@.placed(reported@, url@),
            self@.origin is Some ==> (r matches Ok(url) ==> dial_address(url@) is Some),
            r matches Ok(url) ==> (url@.reads_back() && self@.keeps_port(url@)
                ==> self@.worker_url(url@.text) == Ok::<UrlView, ParseErrorView>(url@)),
    {
        proof {
            reveal_strlit("http");
            reveal_strlit("https");
        }
        let scheme = self.scheme();
        match &self.origin {
            None => parse_reported(reported, scheme),
            Some(origin) => {
                proof {
                    use_type_invariant(origin);
                }
                let read: Url = match parse_reported(reported, scheme) {
                    Ok(url) => url,
                    Err(error) => {
                        return Err(error);
                    },
                };
                match self.moved_report(&read) {
                    None => Err(ParseError::EmptyHost),
                    Some(text) => {
                        let ghost host = read@.host_str->0;
                        let ghost port = worker_port(origin@.url, read@)->0;
                        assert(text@ == with_scheme(origin@.url.scheme, with_port(host, port)));
                        Url::parse(text.as_str())
                    },
                }
            },
        }
    }

    /// Scheme reported URLs are assumed to use when they do not say.
    fn scheme(&self) -> (r: &str)
        ensures
            r@ == self@.scheme(),
            is_http(r@),
    {
        match &self.origin {
            Some(origin) => {
                proof {
                    use_type_invariant(origin);
                }
                origin.url.scheme()
            },
            None => "http",
        }
    }

    /// Describes a worker: the URI it is told as authority and the TLS it expects.
    ///
    /// The scheme of the origin is what turns TLS on; without an origin everything is in the clear,
    /// and a worker that reports an https address is not reached: tonic connects to it, and then
    /// refuses to speak https without TLS. SNI needs a DNS name, which an IP address does not have.
    pub fn settings(&self, target: &Url) -> (r: EndpointSettings)
        ensures
            r@ == self@.settings(target@),
            r.connect_timeout == self@.connect_timeout,
            match self@.origin {
                Some(origin) => {
                    &&& r.uri@ == origin.url.text
                    &&& r.tls is Some <==> origin.url.scheme == "https"@
                    &&& r.tls matches Some(tls) ==> {
                        &&& match origin.url.host {
                            Some(HostView::Domain(domain)) => tls.domain_name matches Some(name)
                                && name@ == domain,
                            _ => tls.domain_name is None,
                        }
                        &&& match origin.ca_certificate {
                            Some(pem) => tls.roots matches TrustRoots::Ca(certificate)
                                && certificate.pem@ == pem,
                            None => tls.roots is Enabled,
                        }
                    }
                },
                None => r.uri@ == target@.text && r.tls is None,
            },
    {
        let origin: &LogicalOrigin = match &self.origin {
            Some(origin) => origin,
            None => {
                return EndpointSettings {
                    uri: target.as_str().to_string(),
                    connect_timeout: self.connect_timeout,
                    tls: None,
                };
            },
        };
        let tls: Option<TlsSettings> = if same_text(origin.url.scheme(), "https") {
            let domain_name: Option<String> = match origin.url.host() {
                Some(Host::Domain(domain)) => Some(domain.clone()),
                _ => None,
            };
            let roots: TrustRoots = match &origin.ca_certificate {
                Some(certificate) => TrustRoots::Ca(certificate.clone()),
                None => TrustRoots::Enabled,
            };
            Some(TlsSettings { domain_name, roots })
        } else {
            None
        };
        EndpointSettings {
            uri: origin.url.as_str().to_string(),
            connect_timeout: self.connect_timeout,
            tls,
        }
    }

    /// The endpoint to speak to a worker by. Without an origin there is one for an https address too,
    /// without TLS, and it reaches nothing.
    pub fn endpoint(&self, target: &Url) -> (r: Result<Endpoint, tonic::transport::Error>)
        ensures
            self@.settings(target@).builds(r),
            r is Ok <==> self@.settings(target@).accepted(),
    {
        build_endpoint(self.settings(target))
    }

    /// What it takes to connect to the worker at `target`.
    ///
    /// `target` is the address to dial. Where there is an origin, it, and not `target`, decides the
    /// scheme, the certificate name and the authority, so that the console can reach a worker
    /// through a tunnel or a rewritten address without the worker's certificate having to mention
    /// it.
    pub fn connect(&self, target: &Url) -> (r: Result<Dial, ConnectError>)
        ensures
            match r {
                Ok(dial) => {
                    &&& dial_address(target@) == Some((dial.host@, dial.port))
                    &&& self@.settings(target@).accepted()
                    &&& self@.settings(target@).builds(Ok(dial.endpoint))
                },
                Err(ConnectError::NoAddress(message)) => {
                    &&& dial_address(target@) is None
                    &&& message@ == "worker address "@ + target@.text
                        + " has no host and port to dial"@
                },
                Err(ConnectError::Endpoint(error)) => {
                    &&& dial_address(target@) is Some
                    &&& !self@.settings(target@).accepted()
                    &&& self@.settings(target@).builds(Err(error))
                },
            },
    {
        match dial_target(target) {
            Some((host, port)) => match self.endpoint(target) {
                Ok(endpoint) => Ok(Dial { host, port, endpoint }),
                Err(error) => Err(ConnectError::Endpoint(error)),
            },
            None => {
                let named = joined("worker address ", target.as_str());
                let message = joined(named.as_str(), " has no host and port to dial");
                Err(ConnectError::NoAddress(message))
            },
        }
    }
}

impl Default for WorkerConnector {
    fn default() -> (r: Self)
        ensures
            r@ == (ConnectorView { origin: None, connect_timeout: DEFAULT_CONNECT_TIMEOUT }),
    {
        WorkerConnector::new(DEFAULT_CONNECT_TIMEOUT)
    }
}

/// With an origin, workers are spoken to in one way whatever address they are dialed at: the
/// scheme, the certificate name, the authority and the CA are the origin's.
pub proof fn the_origin_speaks_for_every_worker(
    connector: ConnectorView,
    target: UrlView,
    other: UrlView,
)
    requires
        connector.origin is Some,
    ensures
        connector.settings(target) == connector.settings(other),
        connector.settings(target).uri == connector.origin->0.url.text,
        connector.settings(target).tls is Some <==> connector.origin->0.url.scheme == "https"@,
{
}

/// A CA is never ignored: the workers of a cluster with a CA are spoken to over TLS only, and
/// checked against that CA.
pub proof fn a_ca_is_never_ignored(connector: ConnectorView, target: UrlView)
    requires
        connector.wf(),
        connector.origin is Some,
        connector.origin->0.ca_certificate is Some,
    ensures
        connector.settings(target).tls matches Some(tls) && tls.ca_certificate
            == connector.origin->0.ca_certificate,
{
}

/// Without an origin everything goes to the address that a worker reports, in the clear.
pub proof fn without_an_origin_workers_speak_for_themselves(
    connector: ConnectorView,
    target: UrlView,
)
    requires
        connector.origin is None,
    ensures
        connector.scheme() == "http"@,
        connector.settings(target).uri == target.text,
        connector.settings(target).tls is None,
        forall|reported: Seq<char>| #[trigger]
            connector.worker_url(reported) == reported_url(reported, "http"@),
{
}

/// A report that says no scheme is read as if it had the connector's, whatever else it is.
pub proof fn a_bare_authority_takes_the_scheme(
    connector: ConnectorView,
    reported: Seq<char>,
)
    requires
        lacks_authority(url_parsed(reported)),
        !lacks_authority(url_parsed(with_scheme(connector.scheme(), reported))),
    ensures
        connector.worker_url(reported) == connector.worker_url(
            with_scheme(connector.scheme(), reported),
        ),
{
}

/// The default ports of the two schemes that workers are reached by.
proof fn lemma_default_ports(url: UrlView)
    requires
        is_http(url.scheme),
    ensures
        url.port_or_known_default() == Some(
            match url.port {
                Some(port) => port,
                None => if url.scheme == "https"@ {
                    443u16
                } else {
                    80u16
                },
            },
        ),
{
    reveal_strlit("http");
    reveal_strlit("https");
    reveal_strlit("ws");
    if url.scheme == "https"@ {
        assert(url.scheme.len() == 5);
    }
}

/// A report is read as the URL that it is, where that has a host. A report without one, and one
/// that lacks a scheme, is read as what comes after the scheme; no other report is read again.
pub proof fn how_a_report_is_read(reported: Seq<char>, scheme: Seq<char>)
    ensures
        match url_parsed(reported) {
            Ok(url) => if url.host is Some {
                reported_url(reported, scheme) == Ok::<UrlView, ParseErrorView>(url)
            } else {
                reported_url(reported, scheme) == url_parsed(scheme + "://"@ + reported)
            },
            Err(ParseErrorView::RelativeUrlWithoutBase) => reported_url(reported, scheme)
                == url_parsed(scheme + "://"@ + reported),
            Err(error) => reported_url(reported, scheme) == Err::<UrlView, ParseErrorView>(error),
        },
{
}

/// With an origin, what is dialed is the host that a report states, under the scheme of the origin
/// and at the port that the report states. A report that states none takes the port of the origin,
/// and an origin that states none that of its scheme.
pub proof fn a_report_is_moved_onto_the_origin(
    connector: ConnectorView,
    reported: Seq<char>,
    read: UrlView,
)
    requires
        connector.wf(),
        connector.origin is Some,
        reported_url(reported, connector.origin->0.url.scheme) == Ok::<UrlView, ParseErrorView>(
            read,
        ),
        read.host_str is Some,
    ensures
        ({
            let origin = connector.origin->0.url;
            let port: u16 = match read.port {
                Some(port) => port,
                None => match origin.port {
                    Some(port) => port,
                    None => if origin.scheme == "https"@ {
                        443
                    } else {
                        80
                    },
                },
            };
            let text = origin.scheme + "://"@ + (read.host_str->0 + ":"@ + decimal(port as nat));
            &&& moved(origin, read) == text
            &&& connector.worker_url(reported) == url_parsed(text)
        }),
{
    lemma_default_ports(connector.origin->0.url);
}

/// A report that cannot be read is passed on as it is, and with an origin one without a host is
/// refused for that. Without an origin what was read is what is dialed.
pub proof fn other_reports_are_not_moved(connector: ConnectorView, reported: Seq<char>)
    ensures
        connector.origin is None ==> connector.worker_url(reported) == reported_url(
            reported,
            "http"@,
        ),
        connector.origin matches Some(origin) ==> match reported_url(reported, origin.url.scheme) {
            Ok(read) => read.host_str is None ==> connector.worker_url(reported) == Err::<
                UrlView,
                ParseErrorView,
            >(ParseErrorView::EmptyHost),
            Err(error) => connector.worker_url(reported) == Err::<UrlView, ParseErrorView>(error),
        },
{
}

/// Where a worker URL is put by its report: at the host and port that the report states, or else at
/// the port of the origin.
pub proof fn a_worker_is_where_its_report_puts_it(
    connector: ConnectorView,
    reported: Seq<char>,
    url: UrlView,
)
    requires
        connector.wf(),
        connector.placed(reported, url),
    ensures
        url.host is Some,
        connector.origin is None ==> reported_url(reported, "http"@) == Ok::<
            UrlView,
            ParseErrorView,
        >(url),
        connector.origin matches Some(origin) ==> {
            let read = reported_url(reported, origin.url.scheme)->Ok_0;
            let port: u16 = match read.port {
                Some(port) => port,
                None => match origin.url.port {
                    Some(port) => port,
                    None => if origin.url.scheme == "https"@ {
                        443
                    } else {
                        80
                    },
                },
            };
            &&& reported_url(reported, origin.url.scheme) is Ok
            &&& read.host_str is Some
            &&& url.scheme == origin.url.scheme
            &&& url.port_or_known_default() == Some(port)
            &&& url_parsed(
                origin.url.scheme + "://"@ + (read.host_str->0 + ":"@ + decimal(port as nat)),
            ) == Ok::<UrlView, ParseErrorView>(url)
        },
{
    if connector.origin is Some {
        lemma_default_ports(connector.origin->0.url);
    }
}

/// A URL is dialed at its host, without brackets, and at its port or the default of its scheme.
pub proof fn what_is_dialed(url: UrlView)
    ensures
        dial_address(url) is Some <==> url.host is Some && url.port_or_known_default() is Some,
        dial_address(url) matches Some((host, port)) ==> {
            &&& url.port_or_known_default() == Some(port)
            &&& match url.host->0 {
                HostView::Domain(domain) => host == domain,
                HostView::Ipv4(address) => host == address,
                HostView::Ipv6(address) => host == address,
            }
        },
{
}

/// An origin is refused for its scheme, for want of a host, or for a CA that it has no use for, in
/// this order, and for nothing else.
pub proof fn why_an_origin_is_refused(url: UrlView, has_ca: bool)
    ensures
        origin_refusal(url, has_ca) is None <==> {
            &&& url.scheme == "https"@ || url.scheme == "http"@ && !has_ca
            &&& url.host is Some
        },
        url.scheme != "http"@ && url.scheme != "https"@ ==> origin_refusal(url, has_ca) == Some(
            "worker origin must be http or https, got `"@ + url.scheme + "` in "@ + url.text,
        ),
        (url.scheme == "http"@ || url.scheme == "https"@) && url.host is None ==> origin_refusal(
            url,
            has_ca,
        ) == Some("worker origin "@ + url.text + " has no host"@),
        url.scheme == "http"@ && url.host is Some && has_ca ==> origin_refusal(url, has_ca) == Some(
            "a CA certificate requires an https worker origin"@,
        ),
{
    reveal_strlit("http");
    reveal_strlit("https");
    assert("http"@.len() != "https"@.len());
}

/// How workers are spoken to. With an origin, it names them, its scheme turns TLS on, its host is
/// the name for SNI if it is one, and its CA is the one to check against. Without an origin a worker
/// is named by its own address, in the clear. The connect timeout is always the connector's.
pub proof fn how_workers_are_spoken_to(connector: ConnectorView, target: UrlView)
    ensures
        connector.settings(target).connect_timeout == connector.connect_timeout,
        connector.origin is None ==> {
            &&& connector.scheme() == "http"@
            &&& connector.named(target) == target
            &&& connector.settings(target).uri == target.text
            &&& connector.settings(target).tls is None
        },
        connector.origin matches Some(origin) ==> {
            &&& connector.scheme() == origin.url.scheme
            &&& connector.named(target) == origin.url
            &&& connector.settings(target).uri == origin.url.text
            &&& connector.settings(target).tls is Some <==> origin.url.scheme == "https"@
            &&& connector.settings(target).tls matches Some(tls) ==> {
                &&& tls.ca_certificate == origin.ca_certificate
                &&& tls.domain_name == match origin.url.host {
                    Some(HostView::Domain(domain)) => Some(domain),
                    _ => None,
                }
            }
        },
{
}

/// A connector holds an origin with or without a CA as it was accepted, or none.
pub proof fn a_connector_has_an_accepted_origin(connector: ConnectorView)
    ensures
        connector.wf() <==> match connector.origin {
            Some(origin) => {
                &&& origin.url.host is Some
                &&& origin.url.scheme == "https"@ || origin.url.scheme == "http"@
                    && origin.ca_certificate is None
            },
            None => true,
        },
{
    if let Some(origin) = connector.origin {
        why_an_origin_is_refused(origin.url, origin.ca_certificate is Some);
    }
}

/// The views of origins and connectors leave nothing out.
proof fn connectors_are_seen_whole(origin: LogicalOrigin, connector: WorkerConnector)
    ensures
        origin@.url == origin.url@,
        origin@.ca_certificate is Some <==> origin.ca_certificate is Some,
        origin.ca_certificate matches Some(certificate) ==> origin@.ca_certificate == Some(
            certificate.pem@,
        ),
        connector@.origin is Some <==> connector.origin is Some,
        connector.origin matches Some(named) ==> connector@.origin == Some(named@),
        connector@.connect_timeout == connector.connect_timeout,
{
}

} // verus!
