use policy_index::gateway::{GrpcRoute, ObjectMeta, ParentReference};
use policy_index::index::{
    needs_update, reason, Index, ProxyProtocol, Reason, Server, ServerPort,
};
use policy_index::model::{InvalidParentRef, RouteError};
use policy_index::routes::{Condition, ConditionType, ParentRef, RouteBinding, Status, TypedRouteBinding};

fn parent(ns: Option<&str>, name: &str) -> ParentReference {
    ParentReference {
        group: Some("policy.linkerd.io".to_string()),
        kind: Some("Server".to_string()),
        namespace: ns.map(|n| n.to_string()),
        name: name.to_string(),
        section_name: None,
        port: None,
    }
}

fn mk_route(ns: &str, name: &str, parent_refs: Option<Vec<ParentReference>>) -> GrpcRoute {
    GrpcRoute {
        metadata: ObjectMeta {
            namespace: Some(ns.to_string()),
            name: Some(name.to_string()),
            creation_timestamp: None,
        },
        parent_refs,
        hostnames: None,
        rules: Some(vec![]),
        status: None,
    }
}

fn binding(route: GrpcRoute) -> TypedRouteBinding {
    TypedRouteBinding::Grpc(RouteBinding::try_from_grpc_route(route).expect("route must convert"))
}

fn mk_server(name: &str) -> Server {
    Server {
        name: name.to_string(),
        selector: vec![("app".to_string(), name.to_string())],
        port: ServerPort::Name("grpc".to_string()),
        protocol: ProxyProtocol::Grpc,
    }
}

fn condition_for(statuses: &[Status], server: &str) -> Condition {
    let status = statuses
        .iter()
        .find(|s| match &s.parent {
            ParentRef::Server(n) => n == server,
        })
        .expect("must have at least one parent status");
    *status.conditions.first().expect("must have at least one 'Accepted' condition")
}

#[test]
fn inbound_accepted_parent() {
    let mut index = Index::new();
    index.apply_server(mk_server("test-accepted-server"));
    let route = binding(mk_route("ns", "test-accepted-route", Some(vec![parent(Some("ns"), "test-accepted-server")])));
    let statuses = index.route_status(&route);
    assert_eq!(statuses.len(), 1);
    let cond = condition_for(&statuses, "test-accepted-server");
    assert_eq!(cond.type_, ConditionType::Accepted);
    assert!(cond.status);
    assert_eq!(reason(&cond), Reason::Accepted);
    assert_eq!(cond.type_.to_string(), "Accepted");
}

#[test]
fn inbound_multiple_parents() {
    let mut index = Index::new();
    index.apply_server(mk_server("test-valid-server"));
    let route = binding(mk_route(
        "ns",
        "test-multiple-parents-route",
        Some(vec![parent(Some("ns"), "test-valid-server"), parent(Some("ns"), "test-invalid-server")]),
    ));
    let statuses = index.route_status(&route);
    assert_eq!(statuses.len(), 2);
    let invalid = condition_for(&statuses, "test-invalid-server");
    assert!(!invalid.status);
    assert_eq!(reason(&invalid), Reason::NoMatchingParent);
    let valid = condition_for(&statuses, "test-valid-server");
    assert!(valid.status);
    assert_eq!(reason(&valid), Reason::Accepted);
    match &statuses[0].parent {
        ParentRef::Server(n) => assert_eq!(n, "test-valid-server"),
    }
}

#[test]
fn inbound_no_parent_ref_patch() {
    let mut index = Index::new();
    index.apply_server(mk_server("test-accepted-server"));
    let with_parent = binding(mk_route("ns", "test-no-parent-refs-route", Some(vec![parent(None, "test-accepted-server")])));
    let before = index.route_status(&with_parent);
    assert_eq!(before.len(), 1, "GRPCRoute Status should have 1 parent status");
    let without = binding(mk_route("ns", "test-no-parent-refs-route", None));
    let after = index.route_status(&without);
    assert!(after.is_empty(), "GRPCRoute Status should have no parent status");
    assert!(needs_update(&before, &after));
}

#[test]
fn inbound_accepted_reconcile_no_parent() {
    let mut index = Index::new();
    let route = binding(mk_route("ns", "test-reconcile-inbound-route", Some(vec![parent(None, "test-reconcile-inbound-server")])));
    let first = index.route_status(&route);
    let cond = condition_for(&first, "test-reconcile-inbound-server");
    assert!(!cond.status);
    assert_eq!(reason(&cond), Reason::NoMatchingParent);

    index.apply_server(mk_server("test-reconcile-inbound-server"));
    let second = index.route_status(&route);
    let cond = condition_for(&second, "test-reconcile-inbound-server");
    assert!(cond.status);
    assert_eq!(reason(&cond), Reason::Accepted);
    assert!(needs_update(&first, &second));
    assert!(!needs_update(&second, &index.route_status(&route)));
}

#[test]
fn inbound_accepted_reconcile_parent_delete() {
    let mut index = Index::new();
    index.apply_server(mk_server("test-reconcile-delete-server"));
    let route = binding(mk_route("ns", "test-reconcile-delete-route", Some(vec![parent(None, "test-reconcile-delete-server")])));
    let first = index.route_status(&route);
    assert!(condition_for(&first, "test-reconcile-delete-server").status);

    index.delete_server("test-reconcile-delete-server");
    let second = index.route_status(&route);
    let cond = condition_for(&second, "test-reconcile-delete-server");
    assert!(!cond.status);
    assert_eq!(reason(&cond), Reason::NoMatchingParent);
}

#[test]
fn cross_namespace_parent_fails_conversion() {
    let route = mk_route("ns-0", "route-foo", Some(vec![parent(Some("ns-1"), "srv-8080")]));
    match RouteBinding::try_from_grpc_route(route) {
        Err(e) => assert_eq!(e, RouteError::InvalidParent(InvalidParentRef::ServerInAnotherNamespace)),
        Ok(_) => panic!("a parent in another namespace must be refused"),
    }
}

#[test]
fn port_and_section_parents_fail_conversion() {
    let mut p = parent(None, "srv");
    p.port = Some(8080);
    match RouteBinding::try_from_grpc_route(mk_route("ns", "r", Some(vec![p]))) {
        Err(e) => assert_eq!(e, RouteError::InvalidParent(InvalidParentRef::SpecifiesPort)),
        Ok(_) => panic!("a parent with a port must be refused"),
    }
    let mut p = parent(None, "srv");
    p.section_name = Some("http".to_string());
    match RouteBinding::try_from_grpc_route(mk_route("ns", "r", Some(vec![p]))) {
        Err(e) => assert_eq!(e, RouteError::InvalidParent(InvalidParentRef::SpecifiesSection)),
        Ok(_) => panic!("a parent with a section must be refused"),
    }
}

#[test]
fn other_kinds_and_empty_names_are_skipped() {
    let mut service = parent(None, "svc");
    service.kind = Some("Service".to_string());
    service.group = Some("core".to_string());
    let empty = parent(None, "");
    let mut lower = parent(None, "srv");
    lower.kind = Some("server".to_string());
    let route = mk_route("ns", "r", Some(vec![service, empty, lower]));
    let b = RouteBinding::try_from_grpc_route(route).expect("route must convert");
    assert_eq!(b.parents.len(), 1);
    assert!(b.selects_server("srv"));
    assert!(!b.selects_server("svc"));
}
