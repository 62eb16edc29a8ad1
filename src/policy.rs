//! HTTP routes of the policy API family, held as plain values.
use vstd::prelude::*;
use crate::gateway::{
    HttpRequestHeaderFilter, HttpRequestRedirectFilter, HttpRouteMatch, ObjectMeta,
    ParentReference, RouteStatus,
};

verus! {

/// The filters that the policy API family defines.
#[derive(Clone, Debug)]
pub enum HttpRouteFilter {
    RequestHeaderModifier { request_header_modifier: HttpRequestHeaderFilter },
    ResponseHeaderModifier { response_header_modifier: HttpRequestHeaderFilter },
    RequestRedirect { request_redirect: HttpRequestRedirectFilter },
}

#[derive(Clone, Debug)]
pub struct HttpRouteRule {
    pub matches: Option<Vec<HttpRouteMatch>>,
    pub filters: Option<Vec<HttpRouteFilter>>,
}

/// An HTTP route of the policy API family.
#[derive(Clone, Debug)]
pub struct HttpRoute {
    pub metadata: ObjectMeta,
    pub parent_refs: Option<Vec<ParentReference>>,
    pub hostnames: Option<Vec<String>>,
    pub rules: Option<Vec<HttpRouteRule>>,
    pub status: Option<RouteStatus>,
}

} // verus!
