use policy_index::gateway::{GrpcRoute, ObjectMeta, ParentReference};
use policy_index::index::{
    same_state, AuthorizationPolicy, AuthorizationTarget, Index, IndexError, NamedPort, Probe,
    ProxyProtocol, Server, ServerPort, StoredRoute, Workload,
};
use policy_index::routes::{Condition, ConditionType, ParentRef, RouteBinding, Status, TypedRouteBinding};

fn pod(labels: Vec<(&str, &str)>, probes: Vec<Probe>) -> Workload {
    Workload {
        name: "pod-0".to_string(),
        labels: labels.into_iter().map(|(k, v)| (k.to_string(), v.to_string())).collect(),
        ports: vec![NamedPort { number: 8080, name: "http".to_string() }],
        probes,
    }
}

fn server(name: &str, port: ServerPort, protocol: ProxyProtocol) -> Server {
    Server { name: name.to_string(), selector: vec![("app".to_string(), "app-0".to_string())], port, protocol }
}

fn grpc_route(name: &str, parent: &str, accepted: bool, generation: u64) -> StoredRoute {
    let route = GrpcRoute {
        metadata: ObjectMeta { namespace: Some("ns-0".to_string()), name: Some(name.to_string()), creation_timestamp: None },
        parent_refs: Some(vec![ParentReference {
            group: Some("policy.linkerd.io".to_string()),
            kind: Some("Server".to_string()),
            namespace: None,
            name: parent.to_string(),
            section_name: None,
            port: None,
        }]),
        hostnames: None,
        rules: None,
        status: None,
    };
    let mut binding = RouteBinding::try_from_grpc_route(route).expect("route must convert");
    if accepted {
        binding.statuses.push(Status {
            parent: ParentRef::Server(parent.to_string()),
            conditions: vec![Condition { type_: ConditionType::Accepted, status: true }],
        });
    }
    StoredRoute { name: name.to_string(), generation, binding: TypedRouteBinding::Grpc(binding) }
}

fn subscribed(index: &mut Index) -> policy_index::index::Subscription {
    index.apply_workload(pod(vec![("app", "app-0")], vec![]));
    index.subscribe("pod-0", 8080).expect("pod-0 should exist")
}

#[test]
fn applying_twice_publishes_once() {
    let mut index = Index::new();
    let sub = subscribed(&mut index);
    index.apply_server(server("srv", ServerPort::Number(8080), ProxyProtocol::Grpc));
    let (_, v1) = index.latest(&sub).unwrap();
    index.apply_server(server("srv", ServerPort::Number(8080), ProxyProtocol::Grpc));
    let (_, v2) = index.latest(&sub).unwrap();
    assert_eq!(v1, v2);
    index.apply_route(grpc_route("r", "srv", true, 1));
    let (_, v3) = index.latest(&sub).unwrap();
    index.apply_route(grpc_route("r", "srv", true, 1));
    let (_, v4) = index.latest(&sub).unwrap();
    assert_eq!(v3, v1 + 1);
    assert_eq!(v3, v4);
}

#[test]
fn order_of_application_does_not_matter() {
    let mut a = Index::new();
    let sa = subscribed(&mut a);
    a.apply_server(server("srv", ServerPort::Number(8080), ProxyProtocol::Grpc));
    a.apply_route(grpc_route("r1", "srv", true, 1));
    a.apply_route(grpc_route("r2", "srv", true, 1));
    a.apply_policy(AuthorizationPolicy { name: "p".to_string(), target: AuthorizationTarget::Namespace, generation: 3 });

    let mut b = Index::new();
    b.apply_policy(AuthorizationPolicy { name: "p".to_string(), target: AuthorizationTarget::Namespace, generation: 3 });
    b.apply_route(grpc_route("r2", "srv", true, 1));
    b.apply_route(grpc_route("r1", "srv", true, 1));
    let sb = subscribed(&mut b);
    b.apply_server(server("srv", ServerPort::Number(8080), ProxyProtocol::Grpc));

    let (x, _) = a.latest(&sa).unwrap();
    let (y, _) = b.latest(&sb).unwrap();
    assert!(same_state(x, y));
    assert_eq!(x.routes.len(), 2);
    assert_eq!(x.authorizations, vec![("p".to_string(), 3)]);
}

#[test]
fn unaccepted_route_is_not_published() {
    let mut index = Index::new();
    let sub = subscribed(&mut index);
    index.apply_server(server("srv", ServerPort::Number(8080), ProxyProtocol::Grpc));
    index.apply_route(grpc_route("pending", "srv", false, 1));
    let (state, _) = index.latest(&sub).unwrap();
    assert!(state.routes.is_empty());
    index.apply_route(grpc_route("pending", "srv", true, 2));
    let (state, _) = index.latest(&sub).unwrap();
    assert_eq!(state.routes, vec![("pending".to_string(), 2)]);
}

#[test]
fn unmatched_endpoint_gets_probe_default() {
    let probes = vec![
        Probe { port: 8080, path: "/live".to_string() },
        Probe { port: 9090, path: "/other".to_string() },
        Probe { port: 8080, path: "/ready".to_string() },
    ];
    let mut index = Index::new();
    index.apply_workload(pod(vec![("app", "other")], probes));
    index.apply_server(server("srv", ServerPort::Number(8080), ProxyProtocol::Grpc));
    index.apply_route(grpc_route("r", "srv", true, 1));
    let sub = index.subscribe("pod-0", 8080).unwrap();
    let (state, version) = index.latest(&sub).unwrap();
    assert_eq!(version, 0);
    assert_eq!(state.reference, None);
    assert_eq!(state.protocol, ProxyProtocol::Detect);
    assert_eq!(state.probe_paths, vec!["/live".to_string(), "/ready".to_string()]);
    assert!(state.routes.is_empty());
    assert!(state.authorizations.is_empty());
}

#[test]
fn least_name_governs_endpoint() {
    let mut index = Index::new();
    let sub = subscribed(&mut index);
    index.apply_server(server("srv-b", ServerPort::Number(8080), ProxyProtocol::Http1));
    index.apply_server(server("srv-a", ServerPort::Name("http".to_string()), ProxyProtocol::Grpc));
    index.apply_server(server("srv-c", ServerPort::Number(8080), ProxyProtocol::Opaque));
    let (state, _) = index.latest(&sub).unwrap();
    assert_eq!(state.reference.as_deref(), Some("srv-a"));
    assert_eq!(state.protocol, ProxyProtocol::Grpc);
    index.delete_server("srv-a");
    let (state, _) = index.latest(&sub).unwrap();
    assert_eq!(state.reference.as_deref(), Some("srv-b"));
}

#[test]
fn declaration_after_workload_publishes_grpc() {
    let mut index = Index::new();
    let sub = subscribed(&mut index);
    let (first, v0) = index.latest(&sub).unwrap();
    assert_eq!(first.protocol, ProxyProtocol::Detect);
    index.apply_server(server("srv-8080", ServerPort::Number(8080), ProxyProtocol::Grpc));
    let (second, v1) = index.latest(&sub).unwrap();
    assert_eq!(v1, v0 + 1);
    assert_eq!(second.protocol, ProxyProtocol::Grpc);
    assert!(second.routes.is_empty());
}

#[test]
fn authorization_added_later_changes_only_authorizations() {
    let mut index = Index::new();
    let sub = subscribed(&mut index);
    index.apply_server(server("srv-8080", ServerPort::Number(8080), ProxyProtocol::Grpc));
    index.apply_route(grpc_route("route-foo", "srv-8080", true, 1));
    let (before, _) = index.latest(&sub).unwrap();
    assert_eq!(before.routes, vec![("route-foo".to_string(), 1)]);
    assert!(before.authorizations.is_empty());
    let reference = before.reference.clone();
    let routes = before.routes.clone();
    index.apply_policy(AuthorizationPolicy {
        name: "authz-foo".to_string(),
        target: AuthorizationTarget::Server("srv-8080".to_string()),
        generation: 1,
    });
    index.apply_policy(AuthorizationPolicy {
        name: "authz-bar".to_string(),
        target: AuthorizationTarget::Server("srv-other".to_string()),
        generation: 1,
    });
    let (after, _) = index.latest(&sub).unwrap();
    assert_eq!(after.reference, reference);
    assert_eq!(after.routes, routes);
    assert_eq!(after.authorizations, vec![("authz-foo".to_string(), 1)]);
}

#[test]
fn deleted_declaration_drops_routes() {
    let mut index = Index::new();
    let sub = subscribed(&mut index);
    index.apply_server(server("srv-8080", ServerPort::Number(8080), ProxyProtocol::Grpc));
    index.apply_route(grpc_route("route-foo", "srv-8080", true, 1));
    index.delete_server("srv-8080");
    let (state, _) = index.latest(&sub).unwrap();
    assert_eq!(state.reference, None);
    assert!(state.routes.is_empty());
}

#[test]
fn subscribe_to_unknown_endpoint_fails() {
    let mut index = Index::new();
    assert_eq!(index.subscribe("pod-0", 8080).err(), Some(IndexError::NotFound));
    index.apply_workload(pod(vec![("app", "app-0")], vec![]));
    assert_eq!(index.subscribe("pod-0", 9999).err(), Some(IndexError::NotFound));
    let sub = index.subscribe("pod-0", 8080).unwrap();
    index.delete_workload("pod-0");
    assert!(index.latest(&sub).is_none());
}

#[test]
fn only_affected_endpoints_republish() {
    let mut index = Index::new();
    let mut a = pod(vec![("app", "a")], vec![]);
    a.name = "pod-a".to_string();
    let mut b = pod(vec![("app", "b")], vec![]);
    b.name = "pod-b".to_string();
    index.apply_workload(a);
    index.apply_workload(b);
    let sa = index.subscribe("pod-a", 8080).unwrap();
    let sb = index.subscribe("pod-b", 8080).unwrap();
    let mut srv_a = server("srv-a", ServerPort::Number(8080), ProxyProtocol::Grpc);
    srv_a.selector = vec![("app".to_string(), "a".to_string())];
    let mut srv_b = server("srv-b", ServerPort::Number(8080), ProxyProtocol::Grpc);
    srv_b.selector = vec![("app".to_string(), "b".to_string())];
    index.apply_server(srv_a);
    index.apply_server(srv_b);
    let (_, a0) = index.latest(&sa).unwrap();
    let (_, b0) = index.latest(&sb).unwrap();
    index.apply_route(grpc_route("r", "srv-a", true, 1));
    let (state_a, a1) = index.latest(&sa).unwrap();
    let (state_b, b1) = index.latest(&sb).unwrap();
    assert_eq!(a1, a0 + 1);
    assert_eq!(b1, b0);
    assert_eq!(state_a.routes.len(), 1);
    assert!(state_b.routes.is_empty());
}
