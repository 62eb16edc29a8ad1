use policy_index::gateway::{
    Condition as GwCondition, GrpcMethodMatch, GrpcRoute, GrpcRouteMatch, GrpcRouteRule,
    ObjectMeta, ParentReference, RouteParentStatus, RouteStatus,
};
use policy_index::cluster::Cluster;
use policy_index::index::{
    probe_route, AuthorizationPolicy, AuthorizationTarget, NamedPort, Probe,
    ProxyProtocol, Server, ServerPort, StoredRoute, Subscription, Workload,
};
use policy_index::model::{ClientAuthentication, PathMatch};
use policy_index::routes::{RouteBinding, TypedRouteBinding, POLICY_CONTROLLER_NAME};

fn server_ref(name: &str) -> ParentReference {
    ParentReference {
        group: Some("policy.linkerd.io".to_string()),
        kind: Some("Server".to_string()),
        namespace: None,
        name: name.to_string(),
        section_name: None,
        port: None,
    }
}

fn mk_route(ns: &str, name: &str, server: &str) -> GrpcRoute {
    GrpcRoute {
        metadata: ObjectMeta {
            namespace: Some(ns.to_string()),
            name: Some(name.to_string()),
            creation_timestamp: Some(1),
        },
        parent_refs: Some(vec![server_ref(server)]),
        hostnames: None,
        rules: Some(vec![GrpcRouteRule {
            matches: Some(vec![GrpcRouteMatch {
                headers: None,
                method: Some(GrpcMethodMatch::Exact {
                    method: Some("Test".to_string()),
                    service: Some("io.linkerd.testing".to_string()),
                }),
            }]),
            filters: None,
        }]),
        status: Some(RouteStatus {
            parents: vec![RouteParentStatus {
                parent_ref: server_ref(server),
                controller_name: POLICY_CONTROLLER_NAME.to_string(),
                conditions: vec![GwCondition {
                    type_: "Accepted".to_string(),
                    status: "True".to_string(),
                    reason: "Accepted".to_string(),
                }],
            }],
        }),
    }
}

fn stored(name: &str, route: GrpcRoute) -> StoredRoute {
    let binding = RouteBinding::try_from_grpc_route(route).expect("route must convert");
    StoredRoute { name: name.to_string(), generation: 1, binding: TypedRouteBinding::from(binding) }
}

fn mk_pod(name: &str, port: u16, probes: Vec<Probe>) -> Workload {
    Workload {
        name: name.to_string(),
        labels: vec![("app".to_string(), "app-0".to_string())],
        ports: vec![NamedPort { number: port, name: "grpc".to_string() }],
        probes,
    }
}

fn mk_server(name: &str, port: u16, protocol: ProxyProtocol) -> Server {
    Server {
        name: name.to_string(),
        selector: vec![("app".to_string(), "app-0".to_string())],
        port: ServerPort::Number(port),
        protocol,
    }
}

fn has(entries: &[(String, u64)], name: &str) -> bool {
    entries.iter().any(|(n, _)| n == name)
}

#[test]
fn route_attaches_to_server() {
    let mut index = Cluster::new();
    index.apply_workload("ns-0", mk_pod("pod-0", 8080, vec![]));
    let sub: Subscription = index.subscribe("ns-0", "pod-0", 8080).expect("pod-0.ns-0 should exist");

    let (state, version) = index.latest("ns-0", &sub).unwrap();
    assert_eq!(state.reference, None);
    assert_eq!(state.protocol, ProxyProtocol::Detect);
    assert!(state.routes.is_empty());
    let first = version;

    index.apply_server("ns-0", mk_server("srv-8080", 8080, ProxyProtocol::Grpc));
    let (state, version) = index.latest("ns-0", &sub).unwrap();
    assert!(version > first);
    assert_eq!(state.reference.as_deref(), Some("srv-8080"));
    assert_eq!(state.protocol, ProxyProtocol::Grpc);
    assert!(state.routes.is_empty());
    assert!(state.authorizations.is_empty());
    let second = version;

    index.apply_route("ns-0", stored("route-foo", mk_route("ns-0", "route-foo", "srv-8080")));
    let (state, version) = index.latest("ns-0", &sub).unwrap();
    assert!(version > second);
    assert_eq!(state.reference.as_deref(), Some("srv-8080"));
    assert!(has(&state.routes, "route-foo"));
    assert!(state.authorizations.is_empty());
    let third = version;

    index.apply_policy("ns-0", AuthorizationPolicy {
        name: "authz-foo".to_string(),
        target: AuthorizationTarget::Server("srv-8080".to_string()),
        generation: 1,
    });
    let (state, version) = index.latest("ns-0", &sub).unwrap();
    assert!(version > third);
    assert!(has(&state.routes, "route-foo"));
    assert!(has(&state.authorizations, "authz-foo"));
}

#[test]
fn does_not_create_grpc_routes_for_probes() {
    let probes = vec![
        Probe { port: 5432, path: "/liveness-container-1".to_string() },
        Probe { port: 5432, path: "/ready-container-1".to_string() },
    ];
    let mut index = Cluster::new();
    index.apply_workload("ns-0", mk_pod("pod-0", 5432, probes));
    let sub = index.subscribe("ns-0", "pod-0", 5432).expect("pod-0.ns-0 should exist");
    let networks = vec!["10.0.0.1/24".to_string()];

    let (state, first) = index.latest("ns-0", &sub).unwrap();
    assert_eq!(state.protocol, ProxyProtocol::Detect);
    let route = probe_route(state, &networks);
    let rule = route.rules.first().unwrap();
    let paths: Vec<String> = rule
        .matches
        .iter()
        .map(|m| match &m.path {
            Some(PathMatch::Exact(p)) => p.clone(),
            _ => panic!("expected an exact path"),
        })
        .collect();
    assert!(paths.contains(&"/liveness-container-1".to_string()), "matches: {:#?}", rule.matches);
    assert!(paths.contains(&"/ready-container-1".to_string()), "matches: {:#?}", rule.matches);
    assert!(rule.matches.iter().all(|m| m.method.as_deref() == Some("GET")));
    assert_eq!(route.authorizations.len(), 1);
    assert_eq!(route.authorizations[0].0, "probe");
    assert_eq!(route.authorizations[0].1.networks, networks);
    assert!(matches!(route.authorizations[0].1.authentication, ClientAuthentication::Unauthenticated));

    index.apply_server("ns-0", mk_server("srv-5432", 5432, ProxyProtocol::Grpc));
    let (state, second) = index.latest("ns-0", &sub).unwrap();
    assert!(second > first);
    assert_eq!(state.protocol, ProxyProtocol::Grpc);
    assert!(state.probe_paths.is_empty());

    index.apply_route("ns-0", stored("route-foo", mk_route("ns-0", "route-foo", "srv-5432")));
    let (state, third) = index.latest("ns-0", &sub).unwrap();
    assert!(third > second);
    assert!(has(&state.routes, "route-foo"));
    assert!(state.probe_paths.is_empty());
}

#[test]
fn namespaces_are_independent() {
    let mut index = Cluster::new();
    index.apply_workload("ns-0", mk_pod("pod-0", 8080, vec![]));
    index.apply_workload("ns-1", mk_pod("pod-0", 8080, vec![]));
    let s0 = index.subscribe("ns-0", "pod-0", 8080).unwrap();
    let s1 = index.subscribe("ns-1", "pod-0", 8080).unwrap();
    index.apply_server("ns-1", mk_server("srv-8080", 8080, ProxyProtocol::Grpc));
    let (state0, v0) = index.latest("ns-0", &s0).unwrap();
    assert_eq!(state0.reference, None);
    assert_eq!(v0, 0);
    let (state1, v1) = index.latest("ns-1", &s1).unwrap();
    assert_eq!(state1.reference.as_deref(), Some("srv-8080"));
    assert_eq!(v1, 1);
    assert!(index.latest("ns-2", &s0).is_none());
    assert!(index.subscribe("ns-2", "pod-0", 8080).is_err());
    let route = TypedRouteBinding::from(
        RouteBinding::try_from_grpc_route(mk_route("ns-0", "route-foo", "srv-8080")).unwrap(),
    );
    assert!(!index.route_status("ns-0", &route)[0].conditions[0].status);
    assert!(index.route_status("ns-1", &route)[0].conditions[0].status);
}

#[test]
fn route_with_foreign_parent_is_not_stored() {
    let mut index = Cluster::new();
    index.apply_workload("ns-0", mk_pod("pod-0", 8080, vec![]));
    let sub = index.subscribe("ns-0", "pod-0", 8080).unwrap();
    index.apply_server("ns-0", mk_server("srv-8080", 8080, ProxyProtocol::Grpc));
    let good = RouteBinding::try_from_grpc_route(mk_route("ns-0", "route-foo", "srv-8080")).map(TypedRouteBinding::from);
    index.apply_route_result("ns-0", "route-foo".to_string(), 1, good);
    let (state, _) = index.latest("ns-0", &sub).unwrap();
    assert!(has(&state.routes, "route-foo"));

    let mut foreign = mk_route("ns-0", "route-foo", "srv-8080");
    foreign.parent_refs.as_mut().unwrap()[0].namespace = Some("ns-1".to_string());
    let bad = RouteBinding::try_from_grpc_route(foreign).map(TypedRouteBinding::from);
    assert_eq!(
        bad.as_ref().err(),
        Some(&policy_index::model::RouteError::InvalidParent(policy_index::model::InvalidParentRef::ServerInAnotherNamespace))
    );
    index.apply_route_result("ns-0", "route-foo".to_string(), 2, bad);
    let (state, _) = index.latest("ns-0", &sub).unwrap();
    assert!(state.routes.is_empty());
}
