//! Worker addresses: what the `url` crate reads out of a text.

use crate::text::{decimal, same_text};
use vstd::prelude::*;

verus! {

/// The host of a URL. Addresses are written the way the socket layer takes them, without brackets.
#[derive(Debug)]
pub enum Host {
    Domain(String),
    Ipv4(String),
    Ipv6(String),
}

/// A URL, taken apart. Its parts always fit together as [`UrlView::wf`] says.
#[derive(Debug)]
pub struct Url {
    text: String,
    scheme: String,
    host: Option<Host>,
    host_str: Option<String>,
    port: Option<u16>,
}

/// Why a text is not a URL.
#[derive(Debug)]
pub enum ParseError {
    EmptyHost,
    RelativeUrlWithoutBase,
    /// Any other reason, described.
    Other(String),
}

pub ghost enum HostView {
    Domain(Seq<char>),
    Ipv4(Seq<char>),
    Ipv6(Seq<char>),
}

/// A [`Url`] as a mathematical value.
pub ghost struct UrlView {
    /// The whole URL, normalized.
    pub text: Seq<char>,
    pub scheme: Seq<char>,
    pub host: Option<HostView>,
    /// The host as it stands in the URL: an IPv6 address is in brackets.
    pub host_str: Option<Seq<char>>,
    /// The port, where the URL states one other than its scheme's default.
    pub port: Option<u16>,
}

pub ghost enum ParseErrorView {
    EmptyHost,
    RelativeUrlWithoutBase,
    Other(Seq<char>),
}

impl View for Host {
    type V = HostView;

    open spec fn view(&self) -> HostView {
        match self {
            Host::Domain(domain) => HostView::Domain(domain@),
            Host::Ipv4(address) => HostView::Ipv4(address@),
            Host::Ipv6(address) => HostView::Ipv6(address@),
        }
    }
}

impl View for Url {
    type V = UrlView;

    closed spec fn view(&self) -> UrlView {
        UrlView {
            text: self.text@,
            scheme: self.scheme@,
            host: match self.host {
                Some(host) => Some(host@),
                None => None,
            },
            host_str: match self.host_str {
                Some(host) => Some(host@),
                None => None,
            },
            port: self.port,
        }
    }
}

impl View for ParseError {
    type V = ParseErrorView;

    open spec fn view(&self) -> ParseErrorView {
        match self {
            ParseError::EmptyHost => ParseErrorView::EmptyHost,
            ParseError::RelativeUrlWithoutBase => ParseErrorView::RelativeUrlWithoutBase,
            ParseError::Other(reason) => ParseErrorView::Other(reason@),
        }
    }
}

/// A parse result as a mathematical value.
pub open spec fn result_view(result: Result<Url, ParseError>) -> Result<UrlView, ParseErrorView> {
    match result {
        Ok(url) => Ok(url@),
        Err(error) => Err(error@),
    }
}

/// The default port of a scheme, where it has one that is known.
pub open spec fn known_default(scheme: Seq<char>) -> Option<u16> {
    if scheme == "http"@ || scheme == "ws"@ {
        Some(80)
    } else if scheme == "https"@ || scheme == "wss"@ {
        Some(443)
    } else if scheme == "ftp"@ {
        Some(21)
    } else {
        None
    }
}

/// The two schemes that workers are reached by.
pub open spec fn is_http(scheme: Seq<char>) -> bool {
    scheme == "http"@ || scheme == "https"@
}

/// The characters that end a host, or begin something else than a host name.
pub open spec fn is_delimiter(c: char) -> bool {
    c == '/' || c == '\\' || c == '?' || c == '#' || c == '@' || c == ':' || c == '[' || c == ']'
}

/// The characters of an IPv6 address in a URL.
pub open spec fn is_ipv6_char(c: char) -> bool {
    ('0' <= c && c <= '9') || ('a' <= c && c <= 'f') || c == ':'
}

/// Whether a text can stand as a host in a URL without being taken for something else.
pub open spec fn is_host_text(host: Seq<char>) -> bool {
    ||| host.len() > 0 && forall|i: int| 0 <= i < host.len() ==> !is_delimiter(#[trigger] host[i])
    ||| {
        &&& host.len() > 2
        &&& host[0] == '['
        &&& host.last() == ']'
        &&& forall|i: int| 1 <= i < host.len() - 1 ==> is_ipv6_char(#[trigger] host[i])
    }
}

/// Whether a text holds no square bracket.
pub open spec fn unbracketed(text: Seq<char>) -> bool {
    forall|i: int| 0 <= i < text.len() ==> #[trigger] text[i] != '[' && text[i] != ']'
}

/// `scheme://rest`.
pub open spec fn with_scheme(scheme: Seq<char>, rest: Seq<char>) -> Seq<char> {
    scheme + "://"@ + rest
}

/// `host:port`.
pub open spec fn with_port(host: Seq<char>, port: u16) -> Seq<char> {
    host + ":"@ + decimal(port as nat)
}

impl HostView {
    /// The host as the socket layer takes it.
    pub open spec fn socket_text(self) -> Seq<char> {
        match self {
            HostView::Domain(domain) => domain,
            HostView::Ipv4(address) => address,
            HostView::Ipv6(address) => address,
        }
    }
}

impl UrlView {
    /// The port of the URL, or else the default of its scheme, where that is known.
    pub open spec fn port_or_known_default(self) -> Option<u16> {
        match self.port {
            Some(port) => Some(port),
            None => known_default(self.scheme),
        }
    }

    /// Whether the URL is what its own text stands for. A label of very many characters beyond ASCII
    /// can be too long to be read once it is encoded.
    pub open spec fn reads_back(self) -> bool {
        url_parsed(self.text) == Ok::<UrlView, ParseErrorView>(self)
    }

    /// What holds of the parts of every URL.
    pub open spec fn wf(self) -> bool {
        // The host and its text come together, and the text can stand in a URL.
        &&& self.host is Some <==> self.host_str is Some
        &&& self.host_str matches Some(host) ==> is_host_text(host)
        &&& self.host matches Some(HostView::Domain(domain)) ==> self.host_str == Some(domain)
        &&& self.host matches Some(HostView::Ipv4(address)) ==> self.host_str == Some(address)
        // The socket layer takes a host without brackets.
        &&& self.host matches Some(host) ==> unbracketed(host.socket_text())
        // Only a host has a port, and a scheme's default port is not kept.
        &&& self.port is Some ==> self.host is Some && self.port != known_default(self.scheme)
        // A scheme with a default port needs a host.
        &&& known_default(self.scheme) is Some ==> self.host is Some
    }
}

/// What `url::Url::parse` reads out of a text.
pub uninterp spec fn url_parsed(input: Seq<char>) -> Result<UrlView, ParseErrorView>;

/// `url::Url::parse`, with the URL taken apart by `as_str`, `scheme`, `host`, `host_str` and
/// `port`.
///
/// The result depends on the text alone. Of every URL the parts fit together as [`UrlView::wf`]
/// says. A text that begins with `http://` or `https://` has that scheme if it is a URL, and one
/// that is only such a scheme, a host and a port has that port. Such a text also stands for the same
/// URL with the host as the URL writes it, provided that the URL is read back from its own text.
/// Which texts are URLs, and how they are normalized, is left to the name.
#[verifier::external_body]
fn parse_url(input: &str) -> (r: Result<Url, ParseError>)
    ensures
        result_view(r) == url_parsed(input@),
        r matches Ok(url) ==> url@.wf(),
        forall|scheme: Seq<char>, rest: Seq<char>|
            input@ == #[trigger] with_scheme(scheme, rest) && is_http(scheme) ==> (r matches Ok(
                url,
            ) ==> url@.scheme == scheme),
        forall|scheme: Seq<char>, host: Seq<char>, port: u16|
            input@ == #[trigger] with_scheme(scheme, with_port(host, port)) && is_http(scheme)
                && is_host_text(host) ==> (r matches Ok(url) ==> url@.port_or_known_default()
                == Some(port)),
        forall|scheme: Seq<char>, host: Seq<char>, port: u16|
            input@ == #[trigger] with_scheme(scheme, with_port(host, port)) && is_http(scheme)
                && is_host_text(host) ==> (r matches Ok(url) ==> (url@.reads_back()
                ==> url_parsed(with_scheme(scheme, with_port(url@.host_str->0, port))) == Ok::<
                UrlView,
                ParseErrorView,
            >(url@))),
{
    match url::Url::parse(input) {
        Ok(url) => Ok(Url {
            text: url.as_str().to_string(),
            scheme: url.scheme().to_string(),
            host: url.host().map(|host| match host {
                url::Host::Domain(domain) => Host::Domain(domain.to_string()),
                url::Host::Ipv4(address) => Host::Ipv4(address.to_string()),
                url::Host::Ipv6(address) => Host::Ipv6(address.to_string()),
            }),
            host_str: url.host_str().map(String::from), port: url.port(),
        }),
        Err(url::ParseError::EmptyHost) => Err(ParseError::EmptyHost),
        Err(url::ParseError::RelativeUrlWithoutBase) => Err(ParseError::RelativeUrlWithoutBase),
        Err(error) => Err(ParseError::Other(error.to_string())),
    }
}

impl Clone for Host {
    fn clone(&self) -> (r: Self)
        ensures
            r == *self,
    {
        match self {
            Host::Domain(domain) => Host::Domain(domain.clone()),
            Host::Ipv4(address) => Host::Ipv4(address.clone()),
            Host::Ipv6(address) => Host::Ipv6(address.clone()),
        }
    }
}

impl Clone for Url {
    fn clone(&self) -> (r: Self)
        ensures
            r == *self,
    {
        proof {
            use_type_invariant(self);
        }
        Url {
            text: self.text.clone(),
            scheme: self.scheme.clone(),
            host: match &self.host {
                Some(host) => Some(host.clone()),
                None => None,
            },
            host_str: match &self.host_str {
                Some(host) => Some(host.clone()),
                None => None,
            },
            port: self.port,
        }
    }
}

impl ParseErrorView {
    /// The error in words.
    pub open spec fn message(self) -> Seq<char> {
        match self {
            ParseErrorView::EmptyHost => "empty host"@,
            ParseErrorView::RelativeUrlWithoutBase => "relative URL without a base"@,
            ParseErrorView::Other(reason) => reason,
        }
    }
}

impl ParseError {
    /// The error in words.
    pub fn message(&self) -> (r: String)
        ensures
            r@ == self@.message(),
            match *self {
                ParseError::EmptyHost => r@ == "empty host"@,
                ParseError::RelativeUrlWithoutBase => r@ == "relative URL without a base"@,
                ParseError::Other(reason) => r@ == reason@,
            },
    {
        match self {
            ParseError::EmptyHost => "empty host".to_string(),
            ParseError::RelativeUrlWithoutBase => "relative URL without a base".to_string(),
            ParseError::Other(reason) => reason.clone(),
        }
    }
}

impl Host {
    /// The host as the socket layer takes it.
    pub fn socket_text(&self) -> (r: String)
        ensures
            r@ == self@.socket_text(),
            match *self {
                Host::Domain(domain) => r@ == domain@,
                Host::Ipv4(address) => r@ == address@,
                Host::Ipv6(address) => r@ == address@,
            },
    {
        match self {
            Host::Domain(domain) => domain.clone(),
            Host::Ipv4(address) => address.clone(),
            Host::Ipv6(address) => address.clone(),
        }
    }
}

impl Url {
    #[verifier::type_invariant]
    closed spec fn parts_fit(self) -> bool {
        self@.wf()
    }

    /// Reads a URL.
    pub fn parse(input: &str) -> (r: Result<Url, ParseError>)
        ensures
            result_view(r) == url_parsed(input@),
            match r {
                Ok(url) => url_parsed(input@) == Ok::<UrlView, ParseErrorView>(url@),
                Err(error) => url_parsed(input@) == Err::<UrlView, ParseErrorView>(error@),
            },
            r matches Ok(url) ==> url@.wf(),
            forall|scheme: Seq<char>, rest: Seq<char>|
                input@ == #[trigger] with_scheme(scheme, rest) && is_http(scheme) ==> (r matches Ok(
                    url,
                ) ==> url@.scheme == scheme),
            forall|scheme: Seq<char>, host: Seq<char>, port: u16|
                input@ == #[trigger] with_scheme(scheme, with_port(host, port)) && is_http(scheme)
                    && is_host_text(host) ==> (r matches Ok(url) ==> url@.port_or_known_default()
                    == Some(port)),
            forall|scheme: Seq<char>, host: Seq<char>, port: u16|
                input@ == #[trigger] with_scheme(scheme, with_port(host, port)) && is_http(scheme)
                    && is_host_text(host) ==> (r matches Ok(url) ==> (url@.reads_back()
                    ==> url_parsed(with_scheme(scheme, with_port(url@.host_str->0, port))) == Ok::<
                    UrlView,
                    ParseErrorView,
                >(url@))),
    {
        parse_url(input)
    }

    /// The whole URL, normalized.
    pub fn as_str(&self) -> (r: &str)
        ensures
            r@ == self@.text,
    {
        self.text.as_str()
    }

    pub fn scheme(&self) -> (r: &str)
        ensures
            r@ == self@.scheme,
    {
        self.scheme.as_str()
    }

    pub fn has_host(&self) -> (r: bool)
        ensures
            r == self@.host is Some,
    {
        self.host.is_some()
    }

    pub fn host(&self) -> (r: Option<&Host>)
        ensures
            match r {
                Some(host) => self@.host == Some(host@),
                None => self@.host is None,
            },
            self@.wf(),
    {
        proof {
            use_type_invariant(self);
        }
        match &self.host {
            Some(host) => Some(host),
            None => None,
        }
    }

    /// The host as it stands in the URL: an IPv6 address is in brackets.
    pub fn host_str(&self) -> (r: Option<&str>)
        ensures
            match r {
                Some(host) => self@.host_str == Some(host@),
                None => self@.host_str is None,
            },
            self@.wf(),
    {
        proof {
            use_type_invariant(self);
        }
        match &self.host_str {
            Some(host) => Some(host.as_str()),
            None => None,
        }
    }

    /// The port, where the URL states one other than its scheme's default.
    pub fn port(&self) -> (r: Option<u16>)
        ensures
            r == self@.port,
    {
        self.port
    }

    /// The port of the URL, or else the default of its scheme, where that is known.
    pub fn port_or_known_default(&self) -> (r: Option<u16>)
        ensures
            r == self@.port_or_known_default(),
            self@.port is Some ==> r == self@.port,
            self@.port is None ==> r == known_default(self@.scheme),
    {
        let scheme: &str = self.scheme.as_str();
        match self.port {
            Some(port) => Some(port),
            None => if same_text(scheme, "http") || same_text(scheme, "ws") {
                Some(80)
            } else if same_text(scheme, "https") || same_text(scheme, "wss") {
                Some(443)
            } else if same_text(scheme, "ftp") {
                Some(21)
            } else {
                None
            },
        }
    }
}

/// The schemes whose default port is known, and no other scheme.
pub proof fn which_default_ports_are_known(scheme: Seq<char>)
    ensures
        known_default(scheme) == Some(80u16) <==> scheme == "http"@ || scheme == "ws"@,
        known_default(scheme) == Some(443u16) <==> scheme == "https"@ || scheme == "wss"@,
        known_default(scheme) == Some(21u16) <==> scheme == "ftp"@,
        known_default(scheme) is None <==> scheme != "http"@ && scheme != "ws"@ && scheme
            != "https"@ && scheme != "wss"@ && scheme != "ftp"@,
        is_http(scheme) <==> scheme == "http"@ || scheme == "https"@,
{
    reveal_strlit("http");
    reveal_strlit("https");
    reveal_strlit("ws");
    reveal_strlit("wss");
    reveal_strlit("ftp");
    assert("http"@.len() == 4 && "https"@.len() == 5 && "ws"@.len() == 2 && "wss"@.len() == 3
        && "ftp"@.len() == 3);
    assert("wss"@[0] != "ftp"@[0]);
}

/// A port that a URL states wins over the default of its scheme.
pub proof fn a_stated_port_wins(url: UrlView)
    ensures
        url.port is Some ==> url.port_or_known_default() == url.port,
        url.port is None ==> url.port_or_known_default() == known_default(url.scheme),
{
}

/// How the parts of an address are put together.
pub proof fn how_addresses_are_written(
    scheme: Seq<char>,
    rest: Seq<char>,
    host: Seq<char>,
    port: u16,
)
    ensures
        with_scheme(scheme, rest) == scheme + "://"@ + rest,
        with_port(host, port) == host + ":"@ + decimal(port as nat),
{
}

/// The socket layer takes a host as it is written, and an address without brackets.
pub proof fn what_the_socket_layer_takes(text: Seq<char>)
    ensures
        HostView::Domain(text).socket_text() == text,
        HostView::Ipv4(text).socket_text() == text,
        HostView::Ipv6(text).socket_text() == text,
{
}

/// An error is reported in words of its own, or in those that describe it.
pub proof fn how_errors_are_worded(reason: Seq<char>)
    ensures
        ParseErrorView::EmptyHost.message() == "empty host"@,
        ParseErrorView::RelativeUrlWithoutBase.message() == "relative URL without a base"@,
        ParseErrorView::Other(reason).message() == reason,
{
}

/// The view of a result tells the same URLs and the same errors apart.
pub proof fn a_result_is_seen_whole(result: Result<Url, ParseError>)
    ensures
        match result {
            Ok(url) => result_view(result) == Ok::<UrlView, ParseErrorView>(url@),
            Err(ParseError::EmptyHost) => result_view(result) == Err::<UrlView, ParseErrorView>(
                ParseErrorView::EmptyHost,
            ),
            Err(ParseError::RelativeUrlWithoutBase) => result_view(result) == Err::<
                UrlView,
                ParseErrorView,
            >(ParseErrorView::RelativeUrlWithoutBase),
            Err(ParseError::Other(reason)) => result_view(result) == Err::<
                UrlView,
                ParseErrorView,
            >(ParseErrorView::Other(reason@)),
        },
{
}

/// The view of a host tells names and the two kinds of addresses apart.
pub proof fn a_host_is_seen_whole(host: Host)
    ensures
        match host {
            Host::Domain(domain) => host@ == HostView::Domain(domain@),
            Host::Ipv4(address) => host@ == HostView::Ipv4(address@),
            Host::Ipv6(address) => host@ == HostView::Ipv6(address@),
        },
{
}

/// The view of a URL leaves nothing out.
proof fn a_url_is_seen_whole(url: Url)
    ensures
        url@.text == url.text@,
        url@.scheme == url.scheme@,
        url@.host is Some <==> url.host is Some,
        url.host matches Some(host) ==> url@.host == Some(host@),
        url@.host_str is Some <==> url.host_str is Some,
        url.host_str matches Some(host) ==> url@.host_str == Some(host@),
        url@.port == url.port,
{
}

} // verus!
