//! Properties of the derived policy that hold for every store content.
use vstd::prelude::*;
use crate::index::{
    best_server, computed_conditions, default_state, derived_state, is_best, lemma_best_unique,
    reason_of, server_selects, Reason,
    AuthorizationPolicy, Server, StoredRoute, Workload,
};

verus! {

/// Storing the same declaration twice gives every endpoint the policy that
/// storing it once gives.
pub proof fn lemma_apply_server_idempotent(
    servers: Map<Seq<char>, Server>,
    routes: Map<Seq<char>, StoredRoute>,
    policies: Map<Seq<char>, AuthorizationPolicy>,
    s: Server,
    w: Workload,
    port: u16,
)
    ensures
        derived_state(servers.insert(s.name@, s).insert(s.name@, s), routes, policies, w, port)
            == derived_state(servers.insert(s.name@, s), routes, policies, w, port),
{
    assert(servers.insert(s.name@, s).insert(s.name@, s) =~= servers.insert(s.name@, s));
}

/// Storing the same route twice gives every endpoint the policy that storing
/// it once gives.
pub proof fn lemma_apply_route_idempotent(
    servers: Map<Seq<char>, Server>,
    routes: Map<Seq<char>, StoredRoute>,
    policies: Map<Seq<char>, AuthorizationPolicy>,
    r: StoredRoute,
    w: Workload,
    port: u16,
)
    ensures
        derived_state(servers, routes.insert(r.name@, r).insert(r.name@, r), policies, w, port)
            == derived_state(servers, routes.insert(r.name@, r), policies, w, port),
{
    assert(routes.insert(r.name@, r).insert(r.name@, r) =~= routes.insert(r.name@, r));
}

/// Storing the same authorization policy twice gives every endpoint the
/// policy that storing it once gives.
pub proof fn lemma_apply_policy_idempotent(
    servers: Map<Seq<char>, Server>,
    routes: Map<Seq<char>, StoredRoute>,
    policies: Map<Seq<char>, AuthorizationPolicy>,
    a: AuthorizationPolicy,
    w: Workload,
    port: u16,
)
    ensures
        derived_state(servers, routes, policies.insert(a.name@, a).insert(a.name@, a), w, port)
            == derived_state(servers, routes, policies.insert(a.name@, a), w, port),
{
    assert(policies.insert(a.name@, a).insert(a.name@, a) =~= policies.insert(a.name@, a));
}

/// Two declarations of different names may be stored in either order: every
/// endpoint ends with the same policy.
pub proof fn lemma_apply_servers_commute(
    servers: Map<Seq<char>, Server>,
    routes: Map<Seq<char>, StoredRoute>,
    policies: Map<Seq<char>, AuthorizationPolicy>,
    a: Server,
    b: Server,
    w: Workload,
    port: u16,
)
    requires
        a.name@ != b.name@,
    ensures
        derived_state(servers.insert(a.name@, a).insert(b.name@, b), routes, policies, w, port)
            == derived_state(servers.insert(b.name@, b).insert(a.name@, a), routes, policies, w, port),
{
    assert(servers.insert(a.name@, a).insert(b.name@, b) =~= servers.insert(b.name@, b).insert(a.name@, a));
}

/// Two routes of different names may be stored in either order: every
/// endpoint ends with the same policy.
pub proof fn lemma_apply_routes_commute(
    servers: Map<Seq<char>, Server>,
    routes: Map<Seq<char>, StoredRoute>,
    policies: Map<Seq<char>, AuthorizationPolicy>,
    a: StoredRoute,
    b: StoredRoute,
    w: Workload,
    port: u16,
)
    requires
        a.name@ != b.name@,
    ensures
        derived_state(servers, routes.insert(a.name@, a).insert(b.name@, b), policies, w, port)
            == derived_state(servers, routes.insert(b.name@, b).insert(a.name@, a), policies, w, port),
{
    assert(routes.insert(a.name@, a).insert(b.name@, b) =~= routes.insert(b.name@, b).insert(a.name@, a));
}

/// Two authorization policies of different names may be stored in either
/// order: every endpoint ends with the same policy.
pub proof fn lemma_apply_policies_commute(
    servers: Map<Seq<char>, Server>,
    routes: Map<Seq<char>, StoredRoute>,
    policies: Map<Seq<char>, AuthorizationPolicy>,
    a: AuthorizationPolicy,
    b: AuthorizationPolicy,
    w: Workload,
    port: u16,
)
    requires
        a.name@ != b.name@,
    ensures
        derived_state(servers, routes, policies.insert(a.name@, a).insert(b.name@, b), w, port)
            == derived_state(servers, routes, policies.insert(b.name@, b).insert(a.name@, a), w, port),
{
    assert(policies.insert(a.name@, a).insert(b.name@, b) =~= policies.insert(b.name@, b).insert(a.name@, a));
}

/// When several declarations select an endpoint, the one whose name comes
/// first governs it, whatever the order they were stored in.
pub proof fn lemma_least_name_governs(servers: Map<Seq<char>, Server>, w: Workload, port: u16, k: Seq<char>)
    requires
        is_best(servers, w, port, k),
    ensures
        best_server(servers, w, port) == Some(k),
{
    let c = choose|c: Seq<char>| is_best(servers, w, port, c);
    lemma_best_unique(servers, w, port, c, k);
}

/// A route whose status for the governing declaration does not show
/// acceptance is not among the endpoint's routes.
pub proof fn lemma_unaccepted_route_excluded(
    servers: Map<Seq<char>, Server>,
    routes: Map<Seq<char>, StoredRoute>,
    policies: Map<Seq<char>, AuthorizationPolicy>,
    w: Workload,
    port: u16,
    name: Seq<char>,
)
    requires
        routes.contains_key(name),
        derived_state(servers, routes, policies, w, port).reference is Some,
        !routes[name].binding.accepted_spec(derived_state(servers, routes, policies, w, port).reference->0),
    ensures
        !derived_state(servers, routes, policies, w, port).routes.contains_key(name),
{
}

/// An endpoint that no declaration selects gets the default policy: the
/// protocol is detected, there are no routes and no authorization policies,
/// and only the workload's own probes on the port are allowed.
pub proof fn lemma_fallback_default(
    servers: Map<Seq<char>, Server>,
    routes: Map<Seq<char>, StoredRoute>,
    policies: Map<Seq<char>, AuthorizationPolicy>,
    w: Workload,
    port: u16,
)
    requires
        forall|k: Seq<char>| servers.contains_key(k) ==> !server_selects(#[trigger] servers[k], w, port),
    ensures
        derived_state(servers, routes, policies, w, port) == default_state(w, port),
{
    assert forall|k: Seq<char>| !is_best(servers, w, port, k) by {}
}

/// The status computed for a route's parent is `Accepted` with status true and
/// reason `Accepted` when the declaration is stored, and otherwise status false
/// with reason `NoMatchingParent`.
pub proof fn lemma_status_reason(servers: Map<Seq<char>, Server>, parent: Seq<char>)
    ensures
        computed_conditions(servers.contains_key(parent)).len() == 1,
        computed_conditions(servers.contains_key(parent))[0].status == servers.contains_key(parent),
        reason_of(computed_conditions(servers.contains_key(parent))[0]) == if servers.contains_key(parent) {
            Reason::Accepted
        } else {
            Reason::NoMatchingParent
        },
{
}

} // verus!
