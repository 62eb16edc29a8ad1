//! Route resources as the cluster API delivers them, held as plain values.
use vstd::prelude::*;

verus! {

/// A route's reference to the resource it attaches to.
#[derive(Clone, Debug)]
pub struct ParentReference {
    pub group: Option<String>,
    pub kind: Option<String>,
    pub namespace: Option<String>,
    pub name: String,
    pub section_name: Option<String>,
    pub port: Option<u16>,
}

/// One persisted condition of a parent status.
#[derive(Clone, Debug)]
pub struct Condition {
    pub type_: String,
    pub status: String,
    pub reason: String,
}

/// The status that one controller wrote for one parent of a route.
#[derive(Clone, Debug)]
pub struct RouteParentStatus {
    pub parent_ref: ParentReference,
    pub controller_name: String,
    pub conditions: Vec<Condition>,
}

/// The status subresource of a route.
#[derive(Clone, Debug)]
pub struct RouteStatus {
    pub parents: Vec<RouteParentStatus>,
}

#[derive(Clone, Debug)]
pub enum HttpPathMatch {
    Exact { value: String },
    PathPrefix { value: String },
    RegularExpression { value: String },
}

#[derive(Clone, Debug)]
pub enum HttpHeaderMatch {
    Exact { name: String, value: String },
    RegularExpression { name: String, value: String },
}

#[derive(Clone, Debug)]
pub enum HttpQueryParamMatch {
    Exact { name: String, value: String },
    RegularExpression { name: String, value: String },
}

#[derive(Clone, Debug)]
pub struct HttpRouteMatch {
    pub path: Option<HttpPathMatch>,
    pub headers: Option<Vec<HttpHeaderMatch>>,
    pub query_params: Option<Vec<HttpQueryParamMatch>>,
    pub method: Option<String>,
}

#[derive(Clone, Debug)]
pub enum GrpcMethodMatch {
    Exact { method: Option<String>, service: Option<String> },
    RegularExpression { method: Option<String>, service: Option<String> },
}

#[derive(Clone, Debug)]
pub struct GrpcRouteMatch {
    pub headers: Option<Vec<HttpHeaderMatch>>,
    pub method: Option<GrpcMethodMatch>,
}

#[derive(Clone, Debug)]
pub struct HttpHeader {
    pub name: String,
    pub value: String,
}

#[derive(Clone, Debug)]
pub struct HttpRequestHeaderFilter {
    pub set: Option<Vec<HttpHeader>>,
    pub add: Option<Vec<HttpHeader>>,
    pub remove: Option<Vec<String>>,
}

#[derive(Clone, Debug)]
pub enum HttpPathModifier {
    ReplaceFullPath { replace_full_path: String },
    ReplacePrefixMatch { replace_prefix_match: String },
}

#[derive(Clone, Debug)]
pub struct HttpRequestRedirectFilter {
    pub scheme: Option<String>,
    pub hostname: Option<String>,
    pub path: Option<HttpPathModifier>,
    pub port: Option<u16>,
    pub status_code: Option<u16>,
}

/// The filters that the gateway API family defines.
#[derive(Clone, Debug)]
pub enum HttpRouteFilter {
    RequestHeaderModifier { request_header_modifier: HttpRequestHeaderFilter },
    ResponseHeaderModifier { response_header_modifier: HttpRequestHeaderFilter },
    RequestMirror { backend_name: String },
    RequestRedirect { request_redirect: HttpRequestRedirectFilter },
    URLRewrite { hostname: Option<String> },
    ExtensionRef { group: String, kind: String, name: String },
}

/// Metadata of a resource that the adapter reads.
#[derive(Clone, Debug)]
pub struct ObjectMeta {
    pub namespace: Option<String>,
    pub name: Option<String>,
    pub creation_timestamp: Option<i64>,
}

#[derive(Clone, Debug)]
pub struct HttpRouteRule {
    pub matches: Option<Vec<HttpRouteMatch>>,
    pub filters: Option<Vec<HttpRouteFilter>>,
}

#[derive(Clone, Debug)]
pub struct GrpcRouteRule {
    pub matches: Option<Vec<GrpcRouteMatch>>,
    pub filters: Option<Vec<HttpRouteFilter>>,
}

/// An HTTP route of the gateway API family.
#[derive(Clone, Debug)]
pub struct HttpRoute {
    pub metadata: ObjectMeta,
    pub parent_refs: Option<Vec<ParentReference>>,
    pub hostnames: Option<Vec<String>>,
    pub rules: Option<Vec<HttpRouteRule>>,
    pub status: Option<RouteStatus>,
}

/// An RPC-method route of the gateway API family.
#[derive(Clone, Debug)]
pub struct GrpcRoute {
    pub metadata: ObjectMeta,
    pub parent_refs: Option<Vec<ParentReference>>,
    pub hostnames: Option<Vec<String>>,
    pub rules: Option<Vec<GrpcRouteRule>>,
    pub status: Option<RouteStatus>,
}

} // verus!
