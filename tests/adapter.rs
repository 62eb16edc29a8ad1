use policy_index::gateway::{
    Condition as GwCondition, GrpcMethodMatch, GrpcRouteMatch, HttpHeader, HttpHeaderMatch,
    HttpPathMatch, HttpPathModifier, HttpQueryParamMatch, HttpRequestHeaderFilter,
    HttpRequestRedirectFilter, HttpRoute, HttpRouteFilter, HttpRouteMatch, HttpRouteRule,
    ObjectMeta, ParentReference, RouteParentStatus, RouteStatus,
};
use policy_index::model::{
    Filter, HeaderMatch, HostMatch, PathMatch, PathModifier, QueryParamMatch, RouteError,
    UnsupportedFilter,
};
use policy_index::policy;
use policy_index::routes::{ConditionType, ParentRef, RouteBinding, Status, POLICY_CONTROLLER_NAME};

fn server_ref(name: &str) -> ParentReference {
    ParentReference {
        group: Some("policy.linkerd.io".to_string()),
        kind: Some("Server".to_string()),
        namespace: None,
        name: name.to_string(),
        section_name: None,
        port: None,
    }
}

fn meta() -> ObjectMeta {
    ObjectMeta { namespace: Some("ns".to_string()), name: Some("route".to_string()), creation_timestamp: Some(42) }
}

fn http_route(hostnames: Option<Vec<String>>, rules: Vec<HttpRouteRule>) -> HttpRoute {
    HttpRoute { metadata: meta(), parent_refs: Some(vec![server_ref("srv")]), hostnames, rules: Some(rules), status: None }
}

fn path_rule(path: HttpPathMatch) -> HttpRouteRule {
    HttpRouteRule {
        matches: Some(vec![HttpRouteMatch { path: Some(path), headers: None, query_params: None, method: None }]),
        filters: None,
    }
}

fn filter_rule(filter: HttpRouteFilter) -> HttpRouteRule {
    HttpRouteRule { matches: None, filters: Some(vec![filter]) }
}

#[test]
fn http_route_converts_matches_and_hostnames() {
    let rule = HttpRouteRule {
        matches: Some(vec![HttpRouteMatch {
            path: Some(HttpPathMatch::PathPrefix { value: "/api".to_string() }),
            headers: Some(vec![HttpHeaderMatch::Exact { name: "x-user".to_string(), value: "alice".to_string() }]),
            query_params: Some(vec![HttpQueryParamMatch::RegularExpression { name: "q".to_string(), value: "a.*".to_string() }]),
            method: Some("POST".to_string()),
        }]),
        filters: None,
    };
    let route = http_route(Some(vec!["*.example.com".to_string(), "api.test".to_string()]), vec![rule]);
    let b = RouteBinding::try_from_http_route(route).expect("route must convert");
    assert_eq!(b.route.creation_timestamp, Some(42));
    assert!(b.route.authorizations.is_empty());
    assert!(matches!(&b.route.hostnames[0], HostMatch::Suffix(s) if s == "example.com"));
    assert!(matches!(&b.route.hostnames[1], HostMatch::Exact(s) if s == "api.test"));
    let m = &b.route.rules[0].matches[0];
    assert!(matches!(&m.path, Some(PathMatch::Prefix(p)) if p == "/api"));
    assert!(matches!(&m.headers[0], HeaderMatch::Exact(n, v) if n == "x-user" && v == "alice"));
    assert!(matches!(&m.query_params[0], QueryParamMatch::Regex(n, v) if n == "q" && v == "a.*"));
    assert_eq!(m.method.as_deref(), Some("POST"));
    assert!(b.selects_server("srv"));
}

#[test]
fn relative_path_fails_conversion() {
    let route = http_route(None, vec![path_rule(HttpPathMatch::Exact { value: "api".to_string() })]);
    assert_eq!(RouteBinding::try_from_http_route(route).err(), Some(RouteError::RelativePath));
}

#[test]
fn malformed_header_and_method_fail_conversion() {
    let m = HttpRouteMatch {
        path: None,
        headers: Some(vec![HttpHeaderMatch::RegularExpression { name: "bad name".to_string(), value: ".*".to_string() }]),
        query_params: None,
        method: None,
    };
    assert_eq!(RouteBinding::<()>::try_http_match(&m).err(), Some(RouteError::InvalidHeaderName));
    let m = HttpRouteMatch { path: None, headers: None, query_params: None, method: Some("GE T".to_string()) };
    assert_eq!(RouteBinding::<()>::try_http_match(&m).err(), Some(RouteError::InvalidMethod));
    let m = HttpRouteMatch {
        path: None,
        headers: Some(vec![HttpHeaderMatch::Exact { name: "x".to_string(), value: "a\u{7f}".to_string() }]),
        query_params: None,
        method: None,
    };
    assert_eq!(RouteBinding::<()>::try_http_match(&m).err(), Some(RouteError::InvalidHeaderValue));
}

#[test]
fn malformed_hostname_fails_conversion() {
    let route = http_route(Some(vec!["*.".to_string()]), vec![]);
    assert_eq!(RouteBinding::try_from_http_route(route).err(), Some(RouteError::InvalidHostname));
    let route = http_route(Some(vec!["".to_string()]), vec![]);
    assert_eq!(RouteBinding::try_from_http_route(route).err(), Some(RouteError::InvalidHostname));
}

#[test]
fn unsupported_filters_fail_conversion() {
    let cases = vec![
        (HttpRouteFilter::RequestMirror { backend_name: "b".to_string() }, UnsupportedFilter::RequestMirror),
        (HttpRouteFilter::URLRewrite { hostname: None }, UnsupportedFilter::UrlRewrite),
        (
            HttpRouteFilter::ExtensionRef { group: "g".to_string(), kind: "k".to_string(), name: "n".to_string() },
            UnsupportedFilter::ExtensionRef,
        ),
    ];
    for (filter, kind) in cases {
        let route = http_route(None, vec![filter_rule(filter)]);
        assert_eq!(RouteBinding::try_from_http_route(route).err(), Some(RouteError::Unsupported(kind)));
    }
}

#[test]
fn supported_filters_convert() {
    let modifier = HttpRequestHeaderFilter {
        set: Some(vec![HttpHeader { name: "x-set".to_string(), value: "1".to_string() }]),
        add: None,
        remove: Some(vec!["x-drop".to_string()]),
    };
    let redirect = HttpRequestRedirectFilter {
        scheme: Some("https".to_string()),
        hostname: Some("example.com".to_string()),
        path: Some(HttpPathModifier::ReplacePrefixMatch { replace_prefix_match: "/v2".to_string() }),
        port: Some(0),
        status_code: Some(301),
    };
    let route = http_route(
        None,
        vec![HttpRouteRule {
            matches: None,
            filters: Some(vec![
                HttpRouteFilter::ResponseHeaderModifier { response_header_modifier: modifier },
                HttpRouteFilter::RequestRedirect { request_redirect: redirect },
            ]),
        }],
    );
    let b = RouteBinding::try_from_http_route(route).expect("route must convert");
    let filters = &b.route.rules[0].filters;
    match &filters[0] {
        Filter::ResponseHeaderModifier(m) => {
            assert_eq!(m.set, vec![("x-set".to_string(), "1".to_string())]);
            assert!(m.add.is_empty());
            assert_eq!(m.remove, vec!["x-drop".to_string()]);
        },
        other => panic!("unexpected filter {:?}", other),
    }
    match &filters[1] {
        Filter::RequestRedirect(r) => {
            assert_eq!(r.scheme.as_deref(), Some("https"));
            assert_eq!(r.host.as_deref(), Some("example.com"));
            assert!(matches!(&r.path, Some(PathModifier::Prefix(p)) if p == "/v2"));
            assert_eq!(r.port, None);
            assert_eq!(r.status, Some(301));
        },
        other => panic!("unexpected filter {:?}", other),
    }
}

#[test]
fn bad_redirect_fails_conversion() {
    let redirect = HttpRequestRedirectFilter { scheme: None, hostname: None, path: None, port: None, status_code: Some(42) };
    let route = http_route(None, vec![filter_rule(HttpRouteFilter::RequestRedirect { request_redirect: redirect })]);
    assert_eq!(RouteBinding::try_from_http_route(route).err(), Some(RouteError::InvalidStatusCode));
    let redirect = HttpRequestRedirectFilter { scheme: Some("1http".to_string()), hostname: None, path: None, port: None, status_code: None };
    let route = http_route(None, vec![filter_rule(HttpRouteFilter::RequestRedirect { request_redirect: redirect })]);
    assert_eq!(RouteBinding::try_from_http_route(route).err(), Some(RouteError::InvalidScheme));
}

#[test]
fn policy_route_converts() {
    let route = policy::HttpRoute {
        metadata: meta(),
        parent_refs: Some(vec![server_ref("srv")]),
        hostnames: None,
        rules: Some(vec![policy::HttpRouteRule {
            matches: Some(vec![HttpRouteMatch {
                path: Some(HttpPathMatch::Exact { value: "/".to_string() }),
                headers: None,
                query_params: None,
                method: Some("GET".to_string()),
            }]),
            filters: Some(vec![policy::HttpRouteFilter::RequestHeaderModifier {
                request_header_modifier: HttpRequestHeaderFilter { set: None, add: None, remove: Some(vec!["bad name".to_string()]) },
            }]),
        }]),
        status: None,
    };
    assert_eq!(RouteBinding::try_from_policy_route(route).err(), Some(RouteError::InvalidHeaderName));
}

#[test]
fn grpc_match_keeps_service_and_method() {
    let m = GrpcRouteMatch {
        headers: None,
        method: Some(GrpcMethodMatch::RegularExpression { method: Some("Get.*".to_string()), service: Some("svc".to_string()) }),
    };
    let r = RouteBinding::<()>::try_grpc_match(&m).expect("match must convert");
    let method = r.method.expect("method must be kept");
    assert_eq!(method.method.as_deref(), Some("Get.*"));
    assert_eq!(method.service.as_deref(), Some("svc"));
}

fn status_entry(controller: &str, kind: &str, name: &str, conditions: Vec<(&str, &str)>) -> RouteParentStatus {
    let mut parent_ref = server_ref(name);
    parent_ref.kind = Some(kind.to_string());
    RouteParentStatus {
        parent_ref,
        controller_name: controller.to_string(),
        conditions: conditions
            .into_iter()
            .map(|(t, s)| GwCondition { type_: t.to_string(), status: s.to_string(), reason: "r".to_string() })
            .collect(),
    }
}

#[test]
fn statuses_keep_only_own_server_conditions() {
    let status = RouteStatus {
        parents: vec![
            status_entry(POLICY_CONTROLLER_NAME, "Server", "a", vec![("Accepted", "True"), ("Ready", "True"), ("Accepted", "Maybe")]),
            status_entry("someone.else/controller", "Server", "b", vec![("Accepted", "True")]),
            status_entry(POLICY_CONTROLLER_NAME, "Service", "c", vec![("Accepted", "True")]),
            status_entry(POLICY_CONTROLLER_NAME, "Server", "d", vec![("Accepted", "False")]),
        ],
    };
    let statuses: Vec<Status> = Status::collect_from(status);
    assert_eq!(statuses.len(), 2);
    match &statuses[0].parent {
        ParentRef::Server(n) => assert_eq!(n, "a"),
    }
    assert_eq!(statuses[0].conditions.len(), 1);
    assert_eq!(statuses[0].conditions[0].type_, ConditionType::Accepted);
    assert!(statuses[0].conditions[0].status);
    match &statuses[1].parent {
        ParentRef::Server(n) => assert_eq!(n, "d"),
    }
    assert!(!statuses[1].conditions[0].status);

    let mut route = http_route(None, vec![]);
    route.parent_refs = Some(vec![server_ref("a"), server_ref("d")]);
    route.status = Some(RouteStatus {
        parents: vec![
            status_entry(POLICY_CONTROLLER_NAME, "Server", "a", vec![("Accepted", "True")]),
            status_entry(POLICY_CONTROLLER_NAME, "Server", "d", vec![("Accepted", "False")]),
        ],
    });
    let b = RouteBinding::try_from_http_route(route).expect("route must convert");
    assert!(b.accepted_by_server("a"));
    assert!(!b.accepted_by_server("d"));
    assert!(!b.accepted_by_server("x"));
}

#[test]
fn typed_binding_yields_route_of_its_kind() {
    let route = http_route(Some(vec!["api.test".to_string()]), vec![]);
    let typed = policy_index::routes::TypedRouteBinding::from(RouteBinding::try_from_http_route(route).unwrap());
    assert_eq!(typed.http_route().unwrap().hostnames.len(), 1);
    assert_eq!(typed.grpc_route().err(), Some(RouteError::KindMismatch));
    assert!(typed.selects_server("srv"));
    assert!(!typed.accepted_by_server("srv"));
}
