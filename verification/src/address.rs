//! The URLs that name a file system.
use vstd::prelude::*;

use crate::error::{ErrorView, HdfsError, UrlError};
use crate::text::optional_text;
use url::ParseError;

verus! {

/// The parts of a URL that decide which file system it names.
#[derive(Debug)]
pub struct UrlParts {
    pub scheme: String,
    pub host: Option<String>,
    pub port: Option<u16>,
    pub path: String,
}

/// What the parts of a URL say.
#[verifier::ext_equal]
pub struct UrlView {
    pub scheme: Seq<char>,
    pub host: Option<Seq<char>>,
    pub port: Option<u16>,
    pub path: Seq<char>,
}

impl View for UrlParts {
    type V = UrlView;

    open spec fn view(&self) -> UrlView {
        UrlView {
            scheme: self.scheme@,
            host: optional_text(self.host),
            port: self.port,
            path: self.path@,
        }
    }
}

/// What the outcome of parsing a URL says.
pub open spec fn parsed(outcome: Result<UrlParts, UrlError>) -> Result<UrlView, UrlError> {
    match outcome {
        Ok(parts) => Ok(parts@),
        Err(e) => Err(e),
    }
}

/// What `url::Url::parse` makes of a text.
pub uninterp spec fn url_of(text: Seq<char>) -> Result<UrlView, UrlError>;

/// Calls `url::Url::parse` and takes the scheme, host, port and path out of the URL that it
/// returns, or the reason out of its error. The contract claims only that the outcome depends
/// on nothing but the text; what the outcome is for a given text is left to the URL standard
/// that the crate implements.
#[verifier::external_body]
pub(crate) fn parse_url(text: &str) -> (res: Result<UrlParts, UrlError>)
    ensures
        parsed(res) == url_of(text@),
{
    match url::Url::parse(text) {
        Ok(u) => Ok(UrlParts { scheme: u.scheme().to_string(), host: u.host_str().map(|h| h.to_string()), port: u.port(), path: u.path().to_string() }),
        Err(e) => Err(match e {
            ParseError::EmptyHost => UrlError::EmptyHost,
            ParseError::IdnaError => UrlError::IdnaError,
            ParseError::InvalidPort => UrlError::InvalidPort,
            ParseError::InvalidIpv4Address => UrlError::InvalidIpv4Address,
            ParseError::InvalidIpv6Address => UrlError::InvalidIpv6Address,
            ParseError::InvalidDomainCharacter => UrlError::InvalidDomainCharacter,
            ParseError::RelativeUrlWithoutBase => UrlError::RelativeUrlWithoutBase,
            ParseError::Overflow => UrlError::Overflow,
            _ => UrlError::Other,
        }),
    }
}

impl UrlParts {
    /// The parts of the URL that a text is, or why the text is no URL.
    pub fn parse(text: &str) -> (res: Result<UrlParts, HdfsError>)
        ensures
            match url_of(text@) {
                Ok(url) => res matches Ok(parts) && parts@ == url,
                Err(e) => res matches Err(error) && error@ == ErrorView::UrlParseError(e),
            },
    {
        match parse_url(text) {
            Ok(parts) => Ok(parts),
            Err(e) => Err(HdfsError::UrlParseError(e)),
        }
    }
}

/// Where the requests for a file system go.
#[derive(Debug)]
pub enum NameService {
    /// A single NameNode.
    NameNode { host: String, port: u16 },
    /// A name service whose NameNodes the configuration lists.
    Named { name: String },
}

/// What a name service says.
pub enum NameServiceView {
    NameNode { host: Seq<char>, port: u16 },
    Named { name: Seq<char> },
}

impl View for NameService {
    type V = NameServiceView;

    open spec fn view(&self) -> NameServiceView {
        match *self {
            NameService::NameNode { host, port } => NameServiceView::NameNode { host: host@, port },
            NameService::Named { name } => NameServiceView::Named { name: name@ },
        }
    }
}

/// With a port, the host is a single NameNode; without one, it is the name of a name service.
pub open spec fn service_of(host: Seq<char>, port: Option<u16>) -> NameServiceView {
    match port {
        Some(port) => NameServiceView::NameNode { host, port },
        None => NameServiceView::Named { name: host },
    }
}

/// With a port, a host is the single NameNode that listens on that port; without one, it is the
/// name service of that name. So two services of hosts are the same only if host and port are.
pub proof fn law_host_and_port_decide_service(
    a: Seq<char>,
    p: Option<u16>,
    b: Seq<char>,
    q: Option<u16>,
)
    ensures
        p matches Some(port) ==> service_of(a, p) == (NameServiceView::NameNode { host: a, port }),
        p is None ==> service_of(a, p) == (NameServiceView::Named { name: a }),
        service_of(a, p) == service_of(b, q) <==> a == b && p == q,
{
}

/// What a name service says is what it holds.
pub proof fn law_service_says_what_it_holds(service: NameService)
    ensures
        service matches NameService::NameNode { host, port } ==> service@ == (
        NameServiceView::NameNode { host: host@, port }),
        service matches NameService::Named { name } ==> service@ == (NameServiceView::Named {
            name: name@,
        }),
{
}

/// What the parts of a URL say is what they hold, and parsing a URL says nothing else.
pub proof fn law_url_says_what_it_holds(url: UrlParts, e: UrlError)
    ensures
        url@.scheme == url.scheme@,
        url@.host is Some <==> url.host is Some,
        url.host matches Some(host) ==> url@.host == Some(host@),
        url@.port == url.port,
        url@.path == url.path@,
        parsed(Ok(url)) == Ok::<UrlView, UrlError>(url@),
        parsed(Err(e)) == Err::<UrlView, UrlError>(e),
{
}

impl NameService {
    /// The name service at a host, with or without a port.
    pub fn new(host: &str, port: Option<u16>) -> (res: NameService)
        ensures
            res@ == service_of(host@, port),
            match port {
                Some(p) => res matches NameService::NameNode { host: h, port: q } && h@ == host@
                    && q == p,
                None => res matches NameService::Named { name } && name@ == host@,
            },
    {
        match port {
            Some(port) => NameService::NameNode { host: host.to_string(), port },
            None => NameService::Named { name: host.to_string() },
        }
    }
}

} // verus!
