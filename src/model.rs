//! The canonical, protocol-generic route model.
use vstd::prelude::*;

verus! {

#[derive(Clone, Debug)]
pub enum PathMatch {
    Exact(String),
    Prefix(String),
    Regex(String),
}

#[derive(Clone, Debug)]
pub enum HeaderMatch {
    Exact(String, String),
    Regex(String, String),
}

#[derive(Clone, Debug)]
pub enum QueryParamMatch {
    Exact(String, String),
    Regex(String, String),
}

/// A host pattern: a whole host name, or every host under a domain
/// (written `*.domain`; the suffix holds `domain`).
#[derive(Clone, Debug)]
pub enum HostMatch {
    Exact(String),
    Suffix(String),
}

#[derive(Clone, Debug)]
pub struct HttpRouteMatch {
    pub path: Option<PathMatch>,
    pub headers: Vec<HeaderMatch>,
    pub query_params: Vec<QueryParamMatch>,
    pub method: Option<String>,
}

#[derive(Clone, Debug)]
pub struct GrpcMethodMatch {
    pub method: Option<String>,
    pub service: Option<String>,
}

#[derive(Clone, Debug)]
pub struct GrpcRouteMatch {
    pub headers: Vec<HeaderMatch>,
    pub method: Option<GrpcMethodMatch>,
}

#[derive(Clone, Debug)]
pub struct HeaderModifierFilter {
    pub add: Vec<(String, String)>,
    pub set: Vec<(String, String)>,
    pub remove: Vec<String>,
}

#[derive(Clone, Debug)]
pub enum PathModifier {
    Full(String),
    Prefix(String),
}

#[derive(Clone, Debug)]
pub struct RequestRedirectFilter {
    pub scheme: Option<String>,
    pub host: Option<String>,
    pub path: Option<PathModifier>,
    pub port: Option<u16>,
    pub status: Option<u16>,
}

#[derive(Clone, Debug)]
pub enum Filter {
    RequestHeaderModifier(HeaderModifierFilter),
    ResponseHeaderModifier(HeaderModifierFilter),
    RequestRedirect(RequestRedirectFilter),
}

/// One rule of a route: its matches are alternatives, its filters apply in order.
#[derive(Clone, Debug)]
pub struct InboundRouteRule<M> {
    pub matches: Vec<M>,
    pub filters: Vec<Filter>,
}

/// How a client must authenticate.
#[derive(Clone, Debug)]
pub enum ClientAuthentication {
    Unauthenticated,
    TlsUnauthenticated,
    TlsAuthenticated(Vec<String>),
}

/// A resolved authorization: the networks it admits and how clients authenticate.
#[derive(Clone, Debug)]
pub struct ClientAuthorization {
    pub networks: Vec<String>,
    pub authentication: ClientAuthentication,
}

/// A route, independent of the resource kind it came from. The authorizations
/// are filled in by the index; the adapter leaves them empty.
#[derive(Clone, Debug)]
pub struct InboundRoute<M> {
    pub hostnames: Vec<HostMatch>,
    pub rules: Vec<InboundRouteRule<M>>,
    pub authorizations: Vec<(String, ClientAuthorization)>,
    pub creation_timestamp: Option<i64>,
}

/// Why a parent reference cannot be used.
#[derive(Clone, Copy, Debug, PartialEq, Eq, Structural)]
pub enum InvalidParentRef {
    ServerInAnotherNamespace,
    SpecifiesPort,
    SpecifiesSection,
}

/// A filter kind that inbound routes do not support.
#[derive(Clone, Copy, Debug, PartialEq, Eq, Structural)]
pub enum UnsupportedFilter {
    RequestMirror,
    UrlRewrite,
    ExtensionRef,
}

/// Why a route resource cannot be converted.
#[derive(Clone, Copy, Debug, PartialEq, Eq, Structural)]
pub enum RouteError {
    InvalidParent(InvalidParentRef),
    RelativePath,
    InvalidHostname,
    InvalidHeaderName,
    InvalidHeaderValue,
    InvalidMethod,
    InvalidScheme,
    InvalidStatusCode,
    Unsupported(UnsupportedFilter),
    KindMismatch,
}

} // verus!
