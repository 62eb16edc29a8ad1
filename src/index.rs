//! The policy index: stores the resources of one namespace and derives, for
//! every subscribed workload endpoint, the inbound policy it must enforce.
use vstd::prelude::*;
use crate::keyed::{
    has_key, keyed, keys_unique, lemma_keyed_index, lemma_keyed_push, lemma_keyed_remove,
    lemma_keyed_update, pairs_view, same_keyed,
};
use crate::order::{lemma_name_lt_total, lemma_name_lt_transitive, name_less, name_lt};
use crate::routes::{Condition, ConditionType, ParentRef, Status, TypedRouteBinding};
use crate::model::{
    ClientAuthentication, ClientAuthorization, HttpRouteMatch, InboundRoute, InboundRouteRule,
    PathMatch,
};
use crate::text::str_eq;

verus! {

/// The protocol an endpoint expects.
#[derive(Clone, Copy, Debug, PartialEq, Eq, Structural)]
pub enum ProxyProtocol {
    Detect,
    Http1,
    Http2,
    Grpc,
    Opaque,
    Tls,
}

/// The port an exposure declaration selects: by number or by the name a
/// workload gives its port.
#[derive(Clone, Debug)]
pub enum ServerPort {
    Number(u16),
    Name(String),
}

/// An exposure declaration: the workloads it selects by label, the port, and
/// the protocol declared for it.
#[derive(Clone, Debug)]
pub struct Server {
    pub name: String,
    pub selector: Vec<(String, String)>,
    pub port: ServerPort,
    pub protocol: ProxyProtocol,
}

#[derive(Clone, Debug)]
pub struct NamedPort {
    pub number: u16,
    pub name: String,
}

/// An HTTP GET probe that a workload declares.
#[derive(Clone, Debug)]
pub struct Probe {
    pub port: u16,
    pub path: String,
}

/// A workload: its labels, its named ports and its probes.
#[derive(Clone, Debug)]
pub struct Workload {
    pub name: String,
    pub labels: Vec<(String, String)>,
    pub ports: Vec<NamedPort>,
    pub probes: Vec<Probe>,
}

/// What an authorization policy applies to.
#[derive(Clone, Debug)]
pub enum AuthorizationTarget {
    Server(String),
    Namespace,
}

/// An authorization policy; its generation changes whenever its content does.
#[derive(Clone, Debug)]
pub struct AuthorizationPolicy {
    pub name: String,
    pub target: AuthorizationTarget,
    pub generation: u64,
}

/// A route as the index stores it; its generation changes whenever its
/// content does.
#[derive(Clone, Debug)]
pub struct StoredRoute {
    pub name: String,
    pub generation: u64,
    pub binding: TypedRouteBinding,
}

/// The derived inbound policy of one endpoint.
///
/// `reference` names the exposure declaration, or is absent for the default
/// policy. `probe_paths` are the paths of the probe route, whose clients are
/// authorized by the probe networks. `routes` maps each route on the endpoint
/// to its generation; `authorizations` maps each authorization policy that
/// applies to every route of the endpoint to its generation.
#[derive(Clone, Debug)]
pub struct InboundServer {
    pub reference: Option<String>,
    pub protocol: ProxyProtocol,
    pub probe_paths: Vec<String>,
    pub routes: Vec<(String, u64)>,
    pub authorizations: Vec<(String, u64)>,
}

/// The derived policy as a mathematical value.
pub struct InboundView {
    pub reference: Option<Seq<char>>,
    pub protocol: ProxyProtocol,
    pub probe_paths: Seq<Seq<char>>,
    pub routes: Map<Seq<char>, u64>,
    pub authorizations: Map<Seq<char>, u64>,
}

impl View for InboundServer {
    type V = InboundView;

    open spec fn view(&self) -> InboundView {
        InboundView {
            reference: match self.reference {
                Some(r) => Some(r@),
                None => None,
            },
            protocol: self.protocol,
            probe_paths: self.probe_paths@.map_values(|p: String| p@),
            routes: keyed(pairs_view(self.routes@)),
            authorizations: keyed(pairs_view(self.authorizations@)),
        }
    }
}

impl InboundServer {
    /// Route and authorization names are unique.
    pub open spec fn wf(&self) -> bool {
        keys_unique(pairs_view(self.routes@)) && keys_unique(pairs_view(self.authorizations@))
    }
}

pub open spec fn server_pairs(v: Seq<Server>) -> Seq<(Seq<char>, Server)> {
    v.map_values(|s: Server| (s.name@, s))
}

pub open spec fn route_pairs(v: Seq<StoredRoute>) -> Seq<(Seq<char>, StoredRoute)> {
    v.map_values(|r: StoredRoute| (r.name@, r))
}

pub open spec fn policy_pairs(v: Seq<AuthorizationPolicy>) -> Seq<(Seq<char>, AuthorizationPolicy)> {
    v.map_values(|p: AuthorizationPolicy| (p.name@, p))
}

pub open spec fn workload_pairs(v: Seq<Workload>) -> Seq<(Seq<char>, Workload)> {
    v.map_values(|w: Workload| (w.name@, w))
}

/// Every label of the selector stands among the workload's labels.
pub open spec fn labels_match(selector: Seq<(String, String)>, labels: Seq<(String, String)>) -> bool {
    forall|i: int| 0 <= i < selector.len() ==> has_label_spec(labels, (#[trigger] selector[i]).0@, selector[i].1@)
}

/// The labels hold the key with the value.
pub open spec fn has_label_spec(labels: Seq<(String, String)>, key: Seq<char>, value: Seq<char>) -> bool {
    exists|j: int| 0 <= j < labels.len() && (#[trigger] labels[j]).0@ == key && labels[j].1@ == value
}

/// The declaration's port is the endpoint's port.
pub open spec fn port_matches(p: ServerPort, w: Workload, port: u16) -> bool {
    match p {
        ServerPort::Number(n) => n == port,
        ServerPort::Name(name) => exists|j: int| 0 <= j < w.ports@.len() && (#[trigger] w.ports@[j]).number == port
            && w.ports@[j].name@ == name@,
    }
}

/// The declaration selects the workload's port.
pub open spec fn server_selects(s: Server, w: Workload, port: u16) -> bool {
    labels_match(s.selector@, w.labels@) && port_matches(s.port, w, port)
}

/// `k` names a declaration that selects the endpoint, and no other such
/// declaration has a name that comes before it.
pub open spec fn is_best(servers: Map<Seq<char>, Server>, w: Workload, port: u16, k: Seq<char>) -> bool {
    &&& servers.contains_key(k)
    &&& server_selects(servers[k], w, port)
    &&& forall|k2: Seq<char>| servers.contains_key(k2) && server_selects(#[trigger] servers[k2], w, port) ==> !name_lt(k2, k)
}

/// The declaration that governs the endpoint: of those that select it, the
/// one whose name comes first.
pub open spec fn best_server(servers: Map<Seq<char>, Server>, w: Workload, port: u16) -> Option<Seq<char>> {
    if exists|k: Seq<char>| is_best(servers, w, port, k) {
        Some(choose|k: Seq<char>| is_best(servers, w, port, k))
    } else {
        None
    }
}

/// At most one name is best.
pub proof fn lemma_best_unique(servers: Map<Seq<char>, Server>, w: Workload, port: u16, a: Seq<char>, b: Seq<char>)
    requires
        is_best(servers, w, port, a),
        is_best(servers, w, port, b),
    ensures
        a == b,
{
    if a != b {
        lemma_name_lt_total(a, b);
        assert(server_selects(servers[a], w, port));
        assert(server_selects(servers[b], w, port));
    }
}

/// The paths of the workload's probes on the port, in order.
pub open spec fn probe_paths(probes: Seq<Probe>, port: u16) -> Seq<Seq<char>>
    decreases probes.len(),
{
    if probes.len() == 0 {
        Seq::empty()
    } else {
        let v = probe_paths(probes.drop_last(), port);
        if probes.last().port == port {
            v.push(probes.last().path@)
        } else {
            v
        }
    }
}

/// HTTP routes and probes apply to endpoints whose protocol is detected or HTTP.
pub open spec fn http_like(p: ProxyProtocol) -> bool {
    p == ProxyProtocol::Detect || p == ProxyProtocol::Http1 || p == ProxyProtocol::Http2
}

/// The route is of the kind the protocol carries.
pub open spec fn kind_fits(b: TypedRouteBinding, p: ProxyProtocol) -> bool {
    match b {
        TypedRouteBinding::Http(_) => http_like(p),
        TypedRouteBinding::Grpc(_) => p == ProxyProtocol::Grpc,
    }
}

/// The route applies to the declaration: it is of the kind the protocol
/// carries, names the declaration as a parent, and its status for the
/// declaration shows acceptance.
pub open spec fn route_applies(r: StoredRoute, k: Seq<char>, p: ProxyProtocol) -> bool {
    kind_fits(r.binding, p) && r.binding.selects_spec(k) && r.binding.accepted_spec(k)
}

/// The routes on a declaration, each with its generation.
pub open spec fn routes_for(routes: Map<Seq<char>, StoredRoute>, k: Seq<char>, p: ProxyProtocol) -> Map<Seq<char>, u64> {
    Map::new(|r: Seq<char>| routes.contains_key(r) && route_applies(routes[r], k, p), |r: Seq<char>| routes[r].generation)
}

/// The policy applies to the declaration: it names it, or the whole namespace.
pub open spec fn policy_applies(a: AuthorizationPolicy, k: Seq<char>) -> bool {
    match a.target {
        AuthorizationTarget::Server(n) => n@ == k,
        AuthorizationTarget::Namespace => true,
    }
}

/// The authorization policies of a declaration, each with its generation.
pub open spec fn policies_for(policies: Map<Seq<char>, AuthorizationPolicy>, k: Seq<char>) -> Map<Seq<char>, u64> {
    Map::new(|p: Seq<char>| policies.contains_key(p) && policy_applies(policies[p], k), |p: Seq<char>| policies[p].generation)
}

/// The default policy of an endpoint that no declaration selects: detect the
/// protocol, and allow only the workload's own probes on the port.
pub open spec fn default_state(w: Workload, port: u16) -> InboundView {
    InboundView {
        reference: None,
        protocol: ProxyProtocol::Detect,
        probe_paths: probe_paths(w.probes@, port),
        routes: Map::empty(),
        authorizations: Map::empty(),
    }
}

/// The inbound policy of the endpoint `(w, port)`, given the stored resources.
pub open spec fn derived_state(
    servers: Map<Seq<char>, Server>,
    routes: Map<Seq<char>, StoredRoute>,
    policies: Map<Seq<char>, AuthorizationPolicy>,
    w: Workload,
    port: u16,
) -> InboundView {
    match best_server(servers, w, port) {
        None => default_state(w, port),
        Some(k) => InboundView {
            reference: Some(k),
            protocol: servers[k].protocol,
            probe_paths: if http_like(servers[k].protocol) { probe_paths(w.probes@, port) } else { Seq::empty() },
            routes: routes_for(routes, k, servers[k].protocol),
            authorizations: policies_for(policies, k),
        },
    }
}

fn has_label(labels: &Vec<(String, String)>, key: &String, value: &String) -> (r: bool)
    ensures
        r == has_label_spec(labels@, key@, value@),
{
    let mut j: usize = 0;
    while j < labels.len()
        invariant
            j <= labels@.len(),
            forall|x: int| 0 <= x < j ==> !((#[trigger] labels@[x]).0@ == key@ && labels@[x].1@ == value@),
        decreases labels@.len() - j,
    {
        if str_eq(labels[j].0.as_str(), key.as_str()) && str_eq(labels[j].1.as_str(), value.as_str()) {
            assert(labels@[j as int].0@ == key@ && labels@[j as int].1@ == value@);
            return true;
        }
        j = j + 1;
    }
    false
}

/// Whether every label of the selector stands among the labels.
pub fn selector_matches(selector: &Vec<(String, String)>, labels: &Vec<(String, String)>) -> (r: bool)
    ensures
        r == labels_match(selector@, labels@),
{
    let mut i: usize = 0;
    while i < selector.len()
        invariant
            i <= selector@.len(),
            forall|x: int| 0 <= x < i ==> has_label_spec(labels@, (#[trigger] selector@[x]).0@, selector@[x].1@),
        decreases selector@.len() - i,
    {
        if !has_label(labels, &selector[i].0, &selector[i].1) {
            return false;
        }
        i = i + 1;
    }
    true
}

fn port_selected(p: &ServerPort, w: &Workload, port: u16) -> (r: bool)
    ensures
        r == port_matches(*p, *w, port),
{
    match p {
        ServerPort::Number(n) => *n == port,
        ServerPort::Name(name) => {
            let mut j: usize = 0;
            while j < w.ports.len()
                invariant
                    *p == ServerPort::Name(*name),
                    j <= w.ports@.len(),
                    forall|x: int| 0 <= x < j ==> !((#[trigger] w.ports@[x]).number == port && w.ports@[x].name@ == name@),
                decreases w.ports@.len() - j,
            {
                if w.ports[j].number == port && str_eq(w.ports[j].name.as_str(), name.as_str()) {
                    assert(w.ports@[j as int].number == port && w.ports@[j as int].name@ == name@);
                    return true;
                }
                j = j + 1;
            }
            false
        },
    }
}

/// Whether the declaration selects the workload's port.
pub fn selects(s: &Server, w: &Workload, port: u16) -> (r: bool)
    ensures
        r == server_selects(*s, *w, port),
{
    selector_matches(&s.selector, &w.labels) && port_selected(&s.port, w, port)
}

/// Where the governing declaration stands in the list, if any declaration
/// selects the endpoint.
fn best_index(servers: &Vec<Server>, w: &Workload, port: u16) -> (r: Option<usize>)
    requires
        keys_unique(server_pairs(servers@)),
    ensures
        match r {
            Some(b) => b < servers@.len() && best_server(keyed(server_pairs(servers@)), *w, port) == Some(servers@[b as int].name@),
            None => best_server(keyed(server_pairs(servers@)), *w, port) is None,
        },
{
    let ghost sp = server_pairs(servers@);
    let ghost m = keyed(sp);
    let mut best: Option<usize> = None;
    let mut i: usize = 0;
    while i < servers.len()
        invariant
            sp == server_pairs(servers@),
            m == keyed(sp),
            keys_unique(sp),
            i <= servers@.len(),
            match best {
                Some(b) => b < i && server_selects(servers@[b as int], *w, port)
                    && forall|j: int| 0 <= j < i && server_selects(#[trigger] servers@[j], *w, port) ==> !name_lt(servers@[j].name@, servers@[b as int].name@),
                None => forall|j: int| 0 <= j < i ==> !server_selects(#[trigger] servers@[j], *w, port),
            },
        decreases servers@.len() - i,
    {
        if selects(&servers[i], w, port) {
            match best {
                None => {
                    best = Some(i);
                    proof {
                        assert forall|j: int| 0 <= j < i + 1 && server_selects(#[trigger] servers@[j], *w, port) implies !name_lt(servers@[j].name@, servers@[i as int].name@) by {
                            crate::order::lemma_name_lt_irreflexive(servers@[i as int].name@);
                        }
                    }
                },
                Some(b) => {
                    if name_less(servers[i].name.as_str(), servers[b].name.as_str()) {
                        proof {
                            assert forall|j: int| 0 <= j < i + 1 && server_selects(#[trigger] servers@[j], *w, port) implies !name_lt(servers@[j].name@, servers@[i as int].name@) by {
                                if j == i {
                                    crate::order::lemma_name_lt_irreflexive(servers@[i as int].name@);
                                } else if name_lt(servers@[j].name@, servers@[i as int].name@) {
                                    lemma_name_lt_transitive(servers@[j].name@, servers@[i as int].name@, servers@[b as int].name@);
                                }
                            }
                        }
                        best = Some(i);
                    } else {
                        proof {
                            assert forall|j: int| 0 <= j < i + 1 && server_selects(#[trigger] servers@[j], *w, port) implies !name_lt(servers@[j].name@, servers@[b as int].name@) by {
                            }
                        }
                    }
                },
            }
        }
        i = i + 1;
    }
    match best {
        Some(b) => {
            proof {
                assert(sp[b as int] == (servers@[b as int].name@, servers@[b as int]));
                lemma_keyed_index(sp, b as int);
                let k = servers@[b as int].name@;
                assert forall|k2: Seq<char>| m.contains_key(k2) && server_selects(#[trigger] m[k2], *w, port) implies !name_lt(k2, k) by {
                    let j = choose|j: int| 0 <= j < sp.len() && (#[trigger] sp[j]).0 == k2;
                    assert(sp[j] == (servers@[j].name@, servers@[j]));
                    lemma_keyed_index(sp, j);
                }
                assert(is_best(m, *w, port, k));
                let c = choose|c: Seq<char>| is_best(m, *w, port, c);
                lemma_best_unique(m, *w, port, c, k);
            }
            Some(b)
        },
        None => {
            proof {
                assert forall|k: Seq<char>| !is_best(m, *w, port, k) by {
                    if m.contains_key(k) {
                        let j = choose|j: int| 0 <= j < sp.len() && (#[trigger] sp[j]).0 == k;
                        assert(sp[j] == (servers@[j].name@, servers@[j]));
                        lemma_keyed_index(sp, j);
                    }
                }
            }
            None
        },
    }
}

fn probe_paths_on(probes: &Vec<Probe>, port: u16) -> (r: Vec<String>)
    ensures
        r@.map_values(|p: String| p@) == probe_paths(probes@, port),
{
    let ghost s = probes@;
    let mut out: Vec<String> = Vec::new();
    let mut i: usize = 0;
    assert(s.subrange(0, 0) =~= Seq::<Probe>::empty());
    assert(out@.map_values(|p: String| p@) =~= Seq::<Seq<char>>::empty());
    while i < probes.len()
        invariant
            s == probes@,
            i <= s.len(),
            out@.map_values(|p: String| p@) == probe_paths(s.subrange(0, i as int), port),
        decreases s.len() - i,
    {
        assert(s.subrange(0, i + 1).drop_last() =~= s.subrange(0, i as int));
        assert(s.subrange(0, i + 1).last() == s[i as int]);
        if probes[i].port == port {
            let ghost before = out@;
            out.push(probes[i].path.clone());
            assert(out@.map_values(|p: String| p@) =~= before.map_values(|p: String| p@).push(s[i as int].path@));
        }
        i = i + 1;
    }
    assert(s.subrange(0, s.len() as int) =~= s);
    out
}

proof fn lemma_routes_for_insert(m: Map<Seq<char>, StoredRoute>, key: Seq<char>, r: StoredRoute, k: Seq<char>, p: ProxyProtocol)
    requires
        !m.contains_key(key),
    ensures
        routes_for(m.insert(key, r), k, p) == if route_applies(r, k, p) {
            routes_for(m, k, p).insert(key, r.generation)
        } else {
            routes_for(m, k, p)
        },
{
    if route_applies(r, k, p) {
        assert(routes_for(m.insert(key, r), k, p) =~= routes_for(m, k, p).insert(key, r.generation));
    } else {
        assert(routes_for(m.insert(key, r), k, p) =~= routes_for(m, k, p));
    }
}

proof fn lemma_policies_for_insert(m: Map<Seq<char>, AuthorizationPolicy>, key: Seq<char>, a: AuthorizationPolicy, k: Seq<char>)
    requires
        !m.contains_key(key),
    ensures
        policies_for(m.insert(key, a), k) == if policy_applies(a, k) {
            policies_for(m, k).insert(key, a.generation)
        } else {
            policies_for(m, k)
        },
{
    if policy_applies(a, k) {
        assert(policies_for(m.insert(key, a), k) =~= policies_for(m, k).insert(key, a.generation));
    } else {
        assert(policies_for(m.insert(key, a), k) =~= policies_for(m, k));
    }
}

/// The prefix of a list with unique keys, seen as a map, grows by one entry.
proof fn lemma_prefix_step<V>(s: Seq<(Seq<char>, V)>, i: int)
    requires
        keys_unique(s),
        0 <= i < s.len(),
    ensures
        keys_unique(s.subrange(0, i)),
        !keyed(s.subrange(0, i)).contains_key(s[i].0),
        keyed(s.subrange(0, i + 1)) == keyed(s.subrange(0, i)).insert(s[i].0, s[i].1),
{
    let pre = s.subrange(0, i);
    assert(keys_unique(pre)) by {
        assert forall|a: int, b: int| 0 <= a < pre.len() && 0 <= b < pre.len() && a != b implies (#[trigger] pre[a]).0 != (#[trigger] pre[b]).0 by {
            assert(pre[a] == s[a] && pre[b] == s[b]);
        }
    }
    if has_key(pre, s[i].0) {
        let j = choose|j: int| 0 <= j < pre.len() && (#[trigger] pre[j]).0 == s[i].0;
        assert(pre[j] == s[j]);
    }
    assert(s.subrange(0, i + 1) =~= pre.push(s[i]));
    lemma_keyed_push(pre, s[i]);
}

fn route_applies_exec(r: &StoredRoute, k: &str, p: ProxyProtocol) -> (b: bool)
    ensures
        b == route_applies(*r, k@, p),
{
    let fits = match &r.binding {
        TypedRouteBinding::Http(_) => p == ProxyProtocol::Detect || p == ProxyProtocol::Http1 || p == ProxyProtocol::Http2,
        TypedRouteBinding::Grpc(_) => p == ProxyProtocol::Grpc,
    };
    fits && r.binding.selects_server(k) && r.binding.accepted_by_server(k)
}

fn routes_on(routes: &Vec<StoredRoute>, k: &str, p: ProxyProtocol) -> (r: Vec<(String, u64)>)
    requires
        keys_unique(route_pairs(routes@)),
    ensures
        keys_unique(pairs_view(r@)),
        keyed(pairs_view(r@)) == routes_for(keyed(route_pairs(routes@)), k@, p),
{
    let ghost rp = route_pairs(routes@);
    let mut out: Vec<(String, u64)> = Vec::new();
    let mut i: usize = 0;
    assert(keyed(rp.subrange(0, 0)) =~= Map::<Seq<char>, StoredRoute>::empty());
    assert(keyed(pairs_view(out@)) =~= Map::<Seq<char>, u64>::empty());
    assert(routes_for(keyed(rp.subrange(0, 0)), k@, p) =~= Map::<Seq<char>, u64>::empty());
    while i < routes.len()
        invariant
            rp == route_pairs(routes@),
            keys_unique(rp),
            i <= routes@.len(),
            keys_unique(pairs_view(out@)),
            keyed(pairs_view(out@)) == routes_for(keyed(rp.subrange(0, i as int)), k@, p),
        decreases routes@.len() - i,
    {
        proof {
            lemma_prefix_step(rp, i as int);
            assert(rp[i as int] == (routes@[i as int].name@, routes@[i as int]));
            lemma_routes_for_insert(keyed(rp.subrange(0, i as int)), rp[i as int].0, rp[i as int].1, k@, p);
        }
        if route_applies_exec(&routes[i], k, p) {
            let ghost before = out@;
            let entry = (routes[i].name.clone(), routes[i].generation);
            out.push(entry);
            proof {
                assert(pairs_view(out@) =~= pairs_view(before).push((entry.0@, entry.1)));
                assert(!routes_for(keyed(rp.subrange(0, i as int)), k@, p).contains_key(rp[i as int].0));
                assert(!keyed(pairs_view(before)).contains_key(entry.0@));
                assert(!has_key(pairs_view(before), entry.0@));
                lemma_keyed_push(pairs_view(before), (entry.0@, entry.1));
            }
        }
        i = i + 1;
    }
    assert(rp.subrange(0, rp.len() as int) =~= rp);
    out
}

fn policies_on(policies: &Vec<AuthorizationPolicy>, k: &str) -> (r: Vec<(String, u64)>)
    requires
        keys_unique(policy_pairs(policies@)),
    ensures
        keys_unique(pairs_view(r@)),
        keyed(pairs_view(r@)) == policies_for(keyed(policy_pairs(policies@)), k@),
{
    let ghost pp = policy_pairs(policies@);
    let mut out: Vec<(String, u64)> = Vec::new();
    let mut i: usize = 0;
    assert(keyed(pp.subrange(0, 0)) =~= Map::<Seq<char>, AuthorizationPolicy>::empty());
    assert(keyed(pairs_view(out@)) =~= Map::<Seq<char>, u64>::empty());
    assert(policies_for(keyed(pp.subrange(0, 0)), k@) =~= Map::<Seq<char>, u64>::empty());
    while i < policies.len()
        invariant
            pp == policy_pairs(policies@),
            keys_unique(pp),
            i <= policies@.len(),
            keys_unique(pairs_view(out@)),
            keyed(pairs_view(out@)) == policies_for(keyed(pp.subrange(0, i as int)), k@),
        decreases policies@.len() - i,
    {
        proof {
            lemma_prefix_step(pp, i as int);
            assert(pp[i as int] == (policies@[i as int].name@, policies@[i as int]));
            lemma_policies_for_insert(keyed(pp.subrange(0, i as int)), pp[i as int].0, pp[i as int].1, k@);
        }
        let applies = match &policies[i].target {
            AuthorizationTarget::Server(n) => str_eq(n.as_str(), k),
            AuthorizationTarget::Namespace => true,
        };
        if applies {
            let ghost before = out@;
            let entry = (policies[i].name.clone(), policies[i].generation);
            out.push(entry);
            proof {
                assert(pairs_view(out@) =~= pairs_view(before).push((entry.0@, entry.1)));
                assert(!policies_for(keyed(pp.subrange(0, i as int)), k@).contains_key(pp[i as int].0));
                assert(!keyed(pairs_view(before)).contains_key(entry.0@));
                assert(!has_key(pairs_view(before), entry.0@));
                lemma_keyed_push(pairs_view(before), (entry.0@, entry.1));
            }
        }
        i = i + 1;
    }
    assert(pp.subrange(0, pp.len() as int) =~= pp);
    out
}

fn upsert_server(v: &mut Vec<Server>, x: Server)
    requires
        keys_unique(server_pairs(old(v)@)),
    ensures
        keys_unique(server_pairs(final(v)@)),
        keyed(server_pairs(final(v)@)) == keyed(server_pairs(old(v)@)).insert(x.name@, x),
{
    let ghost before = v@;
    let mut i: usize = 0;
    while i < v.len()
        invariant
            v@ == before,
            before == old(v)@,
            keys_unique(server_pairs(before)),
            i <= v@.len(),
            forall|j: int| 0 <= j < i ==> (#[trigger] v@[j]).name@ != x.name@,
        decreases v@.len() - i,
    {
        if str_eq(v[i].name.as_str(), x.name.as_str()) {
            let ghost key = x.name@;
            let ghost xv = x;
            v.set(i, x);
            proof {
                assert(server_pairs(v@) =~= server_pairs(before).update(i as int, (key, xv)));
                assert(server_pairs(before)[i as int] == (before[i as int].name@, before[i as int]));
                lemma_keyed_update(server_pairs(before), i as int, (key, xv));
            }
            return;
        }
        i = i + 1;
    }
    proof {
        assert forall|j: int| 0 <= j < server_pairs(before).len() implies (#[trigger] server_pairs(before)[j]).0 != x.name@ by {
            assert(server_pairs(before)[j] == (before[j].name@, before[j]));
        }
        lemma_keyed_push(server_pairs(before), (x.name@, x));
    }
    let ghost xv = x;
    v.push(x);
    assert(server_pairs(v@) =~= server_pairs(before).push((xv.name@, xv)));
}

fn remove_server(v: &mut Vec<Server>, name: &str)
    requires
        keys_unique(server_pairs(old(v)@)),
    ensures
        keys_unique(server_pairs(final(v)@)),
        keyed(server_pairs(final(v)@)) == keyed(server_pairs(old(v)@)).remove(name@),
{
    let ghost before = v@;
    let mut i: usize = 0;
    while i < v.len()
        invariant
            v@ == before,
            before == old(v)@,
            keys_unique(server_pairs(before)),
            i <= v@.len(),
            forall|j: int| 0 <= j < i ==> (#[trigger] v@[j]).name@ != name@,
        decreases v@.len() - i,
    {
        if str_eq(v[i].name.as_str(), name) {
            v.remove(i);
            proof {
                assert(server_pairs(v@) =~= server_pairs(before).remove(i as int));
                assert(server_pairs(before)[i as int] == (before[i as int].name@, before[i as int]));
                lemma_keyed_remove(server_pairs(before), i as int);
            }
            return;
        }
        i = i + 1;
    }
    proof {
        if keyed(server_pairs(before)).contains_key(name@) {
            let j = choose|j: int| 0 <= j < server_pairs(before).len() && (#[trigger] server_pairs(before)[j]).0 == name@;
            assert(server_pairs(before)[j] == (before[j].name@, before[j]));
        }
        assert(keyed(server_pairs(before)).remove(name@) =~= keyed(server_pairs(before)));
    }
}

fn upsert_route(v: &mut Vec<StoredRoute>, x: StoredRoute)
    requires
        keys_unique(route_pairs(old(v)@)),
    ensures
        keys_unique(route_pairs(final(v)@)),
        keyed(route_pairs(final(v)@)) == keyed(route_pairs(old(v)@)).insert(x.name@, x),
{
    let ghost before = v@;
    let mut i: usize = 0;
    while i < v.len()
        invariant
            v@ == before,
            before == old(v)@,
            keys_unique(route_pairs(before)),
            i <= v@.len(),
            forall|j: int| 0 <= j < i ==> (#[trigger] v@[j]).name@ != x.name@,
        decreases v@.len() - i,
    {
        if str_eq(v[i].name.as_str(), x.name.as_str()) {
            let ghost key = x.name@;
            let ghost xv = x;
            v.set(i, x);
            proof {
                assert(route_pairs(v@) =~= route_pairs(before).update(i as int, (key, xv)));
                assert(route_pairs(before)[i as int] == (before[i as int].name@, before[i as int]));
                lemma_keyed_update(route_pairs(before), i as int, (key, xv));
            }
            return;
        }
        i = i + 1;
    }
    proof {
        assert forall|j: int| 0 <= j < route_pairs(before).len() implies (#[trigger] route_pairs(before)[j]).0 != x.name@ by {
            assert(route_pairs(before)[j] == (before[j].name@, before[j]));
        }
        lemma_keyed_push(route_pairs(before), (x.name@, x));
    }
    let ghost xv = x;
    v.push(x);
    assert(route_pairs(v@) =~= route_pairs(before).push((xv.name@, xv)));
}

fn remove_route(v: &mut Vec<StoredRoute>, name: &str)
    requires
        keys_unique(route_pairs(old(v)@)),
    ensures
        keys_unique(route_pairs(final(v)@)),
        keyed(route_pairs(final(v)@)) == keyed(route_pairs(old(v)@)).remove(name@),
{
    let ghost before = v@;
    let mut i: usize = 0;
    while i < v.len()
        invariant
            v@ == before,
            before == old(v)@,
            keys_unique(route_pairs(before)),
            i <= v@.len(),
            forall|j: int| 0 <= j < i ==> (#[trigger] v@[j]).name@ != name@,
        decreases v@.len() - i,
    {
        if str_eq(v[i].name.as_str(), name) {
            v.remove(i);
            proof {
                assert(route_pairs(v@) =~= route_pairs(before).remove(i as int));
                assert(route_pairs(before)[i as int] == (before[i as int].name@, before[i as int]));
                lemma_keyed_remove(route_pairs(before), i as int);
            }
            return;
        }
        i = i + 1;
    }
    proof {
        if keyed(route_pairs(before)).contains_key(name@) {
            let j = choose|j: int| 0 <= j < route_pairs(before).len() && (#[trigger] route_pairs(before)[j]).0 == name@;
            assert(route_pairs(before)[j] == (before[j].name@, before[j]));
        }
        assert(keyed(route_pairs(before)).remove(name@) =~= keyed(route_pairs(before)));
    }
}

fn upsert_policy(v: &mut Vec<AuthorizationPolicy>, x: AuthorizationPolicy)
    requires
        keys_unique(policy_pairs(old(v)@)),
    ensures
        keys_unique(policy_pairs(final(v)@)),
        keyed(policy_pairs(final(v)@)) == keyed(policy_pairs(old(v)@)).insert(x.name@, x),
{
    let ghost before = v@;
    let mut i: usize = 0;
    while i < v.len()
        invariant
            v@ == before,
            before == old(v)@,
            keys_unique(policy_pairs(before)),
            i <= v@.len(),
            forall|j: int| 0 <= j < i ==> (#[trigger] v@[j]).name@ != x.name@,
        decreases v@.len() - i,
    {
        if str_eq(v[i].name.as_str(), x.name.as_str()) {
            let ghost key = x.name@;
            let ghost xv = x;
            v.set(i, x);
            proof {
                assert(policy_pairs(v@) =~= policy_pairs(before).update(i as int, (key, xv)));
                assert(policy_pairs(before)[i as int] == (before[i as int].name@, before[i as int]));
                lemma_keyed_update(policy_pairs(before), i as int, (key, xv));
            }
            return;
        }
        i = i + 1;
    }
    proof {
        assert forall|j: int| 0 <= j < policy_pairs(before).len() implies (#[trigger] policy_pairs(before)[j]).0 != x.name@ by {
            assert(policy_pairs(before)[j] == (before[j].name@, before[j]));
        }
        lemma_keyed_push(policy_pairs(before), (x.name@, x));
    }
    let ghost xv = x;
    v.push(x);
    assert(policy_pairs(v@) =~= policy_pairs(before).push((xv.name@, xv)));
}

fn remove_policy(v: &mut Vec<AuthorizationPolicy>, name: &str)
    requires
        keys_unique(policy_pairs(old(v)@)),
    ensures
        keys_unique(policy_pairs(final(v)@)),
        keyed(policy_pairs(final(v)@)) == keyed(policy_pairs(old(v)@)).remove(name@),
{
    let ghost before = v@;
    let mut i: usize = 0;
    while i < v.len()
        invariant
            v@ == before,
            before == old(v)@,
            keys_unique(policy_pairs(before)),
            i <= v@.len(),
            forall|j: int| 0 <= j < i ==> (#[trigger] v@[j]).name@ != name@,
        decreases v@.len() - i,
    {
        if str_eq(v[i].name.as_str(), name) {
            v.remove(i);
            proof {
                assert(policy_pairs(v@) =~= policy_pairs(before).remove(i as int));
                assert(policy_pairs(before)[i as int] == (before[i as int].name@, before[i as int]));
                lemma_keyed_remove(policy_pairs(before), i as int);
            }
            return;
        }
        i = i + 1;
    }
    proof {
        if keyed(policy_pairs(before)).contains_key(name@) {
            let j = choose|j: int| 0 <= j < policy_pairs(before).len() && (#[trigger] policy_pairs(before)[j]).0 == name@;
            assert(policy_pairs(before)[j] == (before[j].name@, before[j]));
        }
        assert(keyed(policy_pairs(before)).remove(name@) =~= keyed(policy_pairs(before)));
    }
}

fn upsert_workload(v: &mut Vec<Workload>, x: Workload)
    requires
        keys_unique(workload_pairs(old(v)@)),
    ensures
        keys_unique(workload_pairs(final(v)@)),
        keyed(workload_pairs(final(v)@)) == keyed(workload_pairs(old(v)@)).insert(x.name@, x),
{
    let ghost before = v@;
    let mut i: usize = 0;
    while i < v.len()
        invariant
            v@ == before,
            before == old(v)@,
            keys_unique(workload_pairs(before)),
            i <= v@.len(),
            forall|j: int| 0 <= j < i ==> (#[trigger] v@[j]).name@ != x.name@,
        decreases v@.len() - i,
    {
        if str_eq(v[i].name.as_str(), x.name.as_str()) {
            let ghost key = x.name@;
            let ghost xv = x;
            v.set(i, x);
            proof {
                assert(workload_pairs(v@) =~= workload_pairs(before).update(i as int, (key, xv)));
                assert(workload_pairs(before)[i as int] == (before[i as int].name@, before[i as int]));
                lemma_keyed_update(workload_pairs(before), i as int, (key, xv));
            }
            return;
        }
        i = i + 1;
    }
    proof {
        assert forall|j: int| 0 <= j < workload_pairs(before).len() implies (#[trigger] workload_pairs(before)[j]).0 != x.name@ by {
            assert(workload_pairs(before)[j] == (before[j].name@, before[j]));
        }
        lemma_keyed_push(workload_pairs(before), (x.name@, x));
    }
    let ghost xv = x;
    v.push(x);
    assert(workload_pairs(v@) =~= workload_pairs(before).push((xv.name@, xv)));
}

fn remove_workload(v: &mut Vec<Workload>, name: &str)
    requires
        keys_unique(workload_pairs(old(v)@)),
    ensures
        keys_unique(workload_pairs(final(v)@)),
        keyed(workload_pairs(final(v)@)) == keyed(workload_pairs(old(v)@)).remove(name@),
{
    let ghost before = v@;
    let mut i: usize = 0;
    while i < v.len()
        invariant
            v@ == before,
            before == old(v)@,
            keys_unique(workload_pairs(before)),
            i <= v@.len(),
            forall|j: int| 0 <= j < i ==> (#[trigger] v@[j]).name@ != name@,
        decreases v@.len() - i,
    {
        if str_eq(v[i].name.as_str(), name) {
            v.remove(i);
            proof {
                assert(workload_pairs(v@) =~= workload_pairs(before).remove(i as int));
                assert(workload_pairs(before)[i as int] == (before[i as int].name@, before[i as int]));
                lemma_keyed_remove(workload_pairs(before), i as int);
            }
            return;
        }
        i = i + 1;
    }
    proof {
        if keyed(workload_pairs(before)).contains_key(name@) {
            let j = choose|j: int| 0 <= j < workload_pairs(before).len() && (#[trigger] workload_pairs(before)[j]).0 == name@;
            assert(workload_pairs(before)[j] == (before[j].name@, before[j]));
        }
        assert(keyed(workload_pairs(before)).remove(name@) =~= keyed(workload_pairs(before)));
    }
}

fn same_texts(a: &Vec<String>, b: &Vec<String>) -> (r: bool)
    ensures
        r == (a@.map_values(|p: String| p@) == b@.map_values(|p: String| p@)),
{
    let ghost va = a@.map_values(|p: String| p@);
    let ghost vb = b@.map_values(|p: String| p@);
    if a.len() != b.len() {
        assert(va.len() != vb.len());
        return false;
    }
    let mut i: usize = 0;
    while i < a.len()
        invariant
            va == a@.map_values(|p: String| p@),
            vb == b@.map_values(|p: String| p@),
            a@.len() == b@.len(),
            i <= a@.len(),
            forall|j: int| 0 <= j < i ==> va[j] == vb[j],
        decreases a@.len() - i,
    {
        if !str_eq(a[i].as_str(), b[i].as_str()) {
            assert(va[i as int] != vb[i as int]);
            return false;
        }
        i = i + 1;
    }
    assert(va =~= vb);
    true
}

/// Whether two derived policies are the same value.
pub fn same_state(a: &InboundServer, b: &InboundServer) -> (r: bool)
    requires
        a.wf(),
        b.wf(),
    ensures
        r == (a@ == b@),
{
    let same_ref = match (&a.reference, &b.reference) {
        (Some(x), Some(y)) => str_eq(x.as_str(), y.as_str()),
        (None, None) => true,
        _ => false,
    };
    let r = same_ref && a.protocol == b.protocol && same_texts(&a.probe_paths, &b.probe_paths)
        && same_keyed(&a.routes, &b.routes) && same_keyed(&a.authorizations, &b.authorizations);
    proof {
        if a@ == b@ {
            assert(a@.reference == b@.reference);
        }
    }
    r
}

/// The texts of a list of strings.
pub open spec fn texts(v: Seq<String>) -> Seq<Seq<char>> {
    v.map_values(|s: String| s@)
}

/// A change may touch the endpoint: every endpoint, one governed by a
/// declaration of one of the names, or one of the workloads.
pub open spec fn touched(e: Endpoint, names: Seq<Seq<char>>, all: bool, workloads: Seq<Seq<char>>) -> bool {
    all || workloads.contains(e.workload@) || match e.state@.reference {
        Some(k) => names.contains(k),
        None => false,
    }
}

/// Whether the name stands in the list.
fn text_in(v: &Vec<String>, name: &str) -> (r: bool)
    ensures
        r == texts(v@).contains(name@),
{
    let mut j: usize = 0;
    while j < v.len()
        invariant
            j <= v@.len(),
            forall|x: int| 0 <= x < j ==> (#[trigger] v@[x])@ != name@,
        decreases v@.len() - j,
    {
        if str_eq(v[j].as_str(), name) {
            assert(texts(v@)[j as int] == name@);
            return true;
        }
        j = j + 1;
    }
    assert(!texts(v@).contains(name@)) by {
        if texts(v@).contains(name@) {
            let x = choose|x: int| 0 <= x < texts(v@).len() && texts(v@)[x] == name@;
            assert(v@[x]@ == name@);
        }
    }
    false
}

/// Appends the names of the parents to the list.
fn push_parent_names(parents: &Vec<ParentRef>, out: &mut Vec<String>)
    ensures
        final(out)@.len() >= old(out)@.len(),
        forall|j: int| 0 <= j < old(out)@.len() ==> final(out)@[j] == old(out)@[j],
        forall|j: int| 0 <= j < parents@.len() ==> texts(final(out)@).contains((#[trigger] parents@[j])@),
{
    let mut i: usize = 0;
    while i < parents.len()
        invariant
            i <= parents@.len(),
            out@.len() >= old(out)@.len(),
            forall|j: int| 0 <= j < old(out)@.len() ==> out@[j] == old(out)@[j],
            forall|j: int| 0 <= j < i ==> texts(out@).contains((#[trigger] parents@[j])@),
        decreases parents@.len() - i,
    {
        let name = match &parents[i] {
            ParentRef::Server(n) => n.clone(),
        };
        let ghost before = out@;
        out.push(name);
        proof {
            assert(texts(out@)[before.len() as int] == parents@[i as int]@);
            assert forall|j: int| 0 <= j < i + 1 implies texts(out@).contains((#[trigger] parents@[j])@) by {
                if j < i {
                    let x = choose|x: int| 0 <= x < texts(before).len() && texts(before)[x] == parents@[j]@;
                    assert(texts(out@)[x] == texts(before)[x]);
                }
            }
        }
        i = i + 1;
    }
}

/// Appends the names of the declarations that the route names as parents.
fn push_binding_parents(b: &TypedRouteBinding, out: &mut Vec<String>)
    ensures
        final(out)@.len() >= old(out)@.len(),
        forall|j: int| 0 <= j < old(out)@.len() ==> final(out)@[j] == old(out)@[j],
        forall|k: Seq<char>| b.selects_spec(k) ==> texts(final(out)@).contains(k),
{
    let parents = match b {
        TypedRouteBinding::Http(x) => &x.parents,
        TypedRouteBinding::Grpc(x) => &x.parents,
    };
    push_parent_names(parents, out);
    assert forall|k: Seq<char>| b.selects_spec(k) implies texts(out@).contains(k) by {
        let j = choose|j: int| 0 <= j < parents@.len() && (#[trigger] parents@[j])@ == k;
    }
}

/// Texts kept at the front of a longer list stay in it.
proof fn lemma_texts_prefix(a: Seq<String>, b: Seq<String>, k: Seq<char>)
    requires
        b.len() >= a.len(),
        forall|j: int| 0 <= j < a.len() ==> b[j] == a[j],
        texts(a).contains(k),
    ensures
        texts(b).contains(k),
{
    let x = choose|x: int| 0 <= x < texts(a).len() && texts(a)[x] == k;
    assert(texts(b)[x] == k);
}

/// A change of one route leaves the policy of an endpoint alone when neither
/// its old nor its new version names the governing declaration.
proof fn lemma_route_change_untouched(
    servers: Map<Seq<char>, Server>,
    routes: Map<Seq<char>, StoredRoute>,
    policies: Map<Seq<char>, AuthorizationPolicy>,
    w: Workload,
    port: u16,
    key: Seq<char>,
    next: Option<StoredRoute>,
)
    requires
        derived_state(servers, routes, policies, w, port).reference matches Some(k) ==> {
            &&& !(routes.contains_key(key) && routes[key].binding.selects_spec(k))
            &&& !(next is Some && next->0.binding.selects_spec(k))
        },
    ensures
        derived_state(servers, match next { Some(r) => routes.insert(key, r), None => routes.remove(key) }, policies, w, port)
            == derived_state(servers, routes, policies, w, port),
{
    let routes2 = match next {
        Some(r) => routes.insert(key, r),
        None => routes.remove(key),
    };
    match best_server(servers, w, port) {
        Some(k) => {
            let p = servers[k].protocol;
            assert(routes_for(routes2, k, p) =~= routes_for(routes, k, p));
        },
        None => {},
    }
}

/// A change of one authorization policy leaves the policy of an endpoint
/// alone when neither its old nor its new version applies to the governing
/// declaration.
proof fn lemma_policy_change_untouched(
    servers: Map<Seq<char>, Server>,
    routes: Map<Seq<char>, StoredRoute>,
    policies: Map<Seq<char>, AuthorizationPolicy>,
    w: Workload,
    port: u16,
    key: Seq<char>,
    next: Option<AuthorizationPolicy>,
)
    requires
        derived_state(servers, routes, policies, w, port).reference matches Some(k) ==> {
            &&& !(policies.contains_key(key) && policy_applies(policies[key], k))
            &&& !(next is Some && policy_applies(next->0, k))
        },
    ensures
        derived_state(servers, routes, match next { Some(a) => policies.insert(key, a), None => policies.remove(key) }, w, port)
            == derived_state(servers, routes, policies, w, port),
{
    let policies2 = match next {
        Some(a) => policies.insert(key, a),
        None => policies.remove(key),
    };
    match best_server(servers, w, port) {
        Some(k) => {
            assert(policies_for(policies2, k) =~= policies_for(policies, k));
        },
        None => {},
    }
}

/// Appends the declaration the policy names; true when it applies to the
/// whole namespace.
fn push_policy_target(a: &AuthorizationPolicy, out: &mut Vec<String>) -> (all: bool)
    ensures
        final(out)@.len() >= old(out)@.len(),
        forall|j: int| 0 <= j < old(out)@.len() ==> final(out)@[j] == old(out)@[j],
        forall|k: Seq<char>| policy_applies(*a, k) ==> all || texts(final(out)@).contains(k),
{
    match &a.target {
        AuthorizationTarget::Server(n) => {
            let ghost before = out@;
            out.push(n.clone());
            assert(texts(out@)[before.len() as int] == n@);
            false
        },
        AuthorizationTarget::Namespace => true,
    }
}

/// A change of one declaration leaves the policy of an endpoint alone when
/// neither its old nor its new version selects the endpoint.
proof fn lemma_server_change_untouched(
    servers: Map<Seq<char>, Server>,
    routes: Map<Seq<char>, StoredRoute>,
    policies: Map<Seq<char>, AuthorizationPolicy>,
    w: Workload,
    port: u16,
    key: Seq<char>,
    next: Option<Server>,
)
    requires
        !(servers.contains_key(key) && server_selects(servers[key], w, port)),
        !(next is Some && server_selects(next->0, w, port)),
    ensures
        derived_state(match next { Some(s) => servers.insert(key, s), None => servers.remove(key) }, routes, policies, w, port)
            == derived_state(servers, routes, policies, w, port),
{
    let m = servers;
    let m2 = match next {
        Some(s) => servers.insert(key, s),
        None => servers.remove(key),
    };
    assert forall|k2: Seq<char>| #[trigger] m2.contains_key(k2) && server_selects(m2[k2], w, port)
        <==> m.contains_key(k2) && server_selects(m[k2], w, port) by {
        if k2 != key {
            assert(m2.contains_key(k2) == m.contains_key(k2));
            if m.contains_key(k2) {
                assert(m2[k2] == m[k2]);
            }
        }
    }
    assert forall|k: Seq<char>| is_best(m2, w, port, k) == is_best(m, w, port, k) by {
        if is_best(m2, w, port, k) {
            assert forall|k2: Seq<char>| m.contains_key(k2) && server_selects(#[trigger] m[k2], w, port) implies !name_lt(k2, k) by {
                assert(m2.contains_key(k2) && server_selects(m2[k2], w, port));
            }
        }
        if is_best(m, w, port, k) {
            assert(m2.contains_key(k) && server_selects(m2[k], w, port));
            assert forall|k2: Seq<char>| m2.contains_key(k2) && server_selects(#[trigger] m2[k2], w, port) implies !name_lt(k2, k) by {
                assert(m.contains_key(k2) && server_selects(m[k2], w, port));
            }
        }
    }
    if exists|k: Seq<char>| is_best(m, w, port, k) {
        let c = choose|k: Seq<char>| is_best(m, w, port, k);
        assert(is_best(m2, w, port, c));
        let c2 = choose|k: Seq<char>| is_best(m2, w, port, k);
        lemma_best_unique(m, w, port, c, c2);
        assert(c != key);
        assert(m2[c] == m[c]);
    } else {
        assert forall|k: Seq<char>| !is_best(m2, w, port, k) by {}
    }
}

/// An endpoint that has subscribers: the latest derived policy and the number
/// of times it has changed.
#[derive(Debug)]
pub struct Endpoint {
    pub workload: String,
    pub port: u16,
    pub state: InboundServer,
    pub version: u64,
}

/// The next version number; it stays at the largest value once reached.
pub open spec fn next_version(v: u64) -> u64 {
    if v < u64::MAX { (v + 1) as u64 } else { v }
}

/// Why a subscription cannot be made.
#[derive(Clone, Copy, Debug, PartialEq, Eq, Structural)]
pub enum IndexError {
    NotFound,
}

/// The stored resources of one namespace and the endpoints with subscribers.
pub struct Index {
    servers: Vec<Server>,
    routes: Vec<StoredRoute>,
    policies: Vec<AuthorizationPolicy>,
    workloads: Vec<Workload>,
    endpoints: Vec<Endpoint>,
}

impl Index {
    pub closed spec fn server_map(&self) -> Map<Seq<char>, Server> {
        keyed(server_pairs(self.servers@))
    }

    pub closed spec fn route_map(&self) -> Map<Seq<char>, StoredRoute> {
        keyed(route_pairs(self.routes@))
    }

    pub closed spec fn policy_map(&self) -> Map<Seq<char>, AuthorizationPolicy> {
        keyed(policy_pairs(self.policies@))
    }

    pub closed spec fn workload_map(&self) -> Map<Seq<char>, Workload> {
        keyed(workload_pairs(self.workloads@))
    }

    /// The endpoints with subscribers, in order of subscription.
    pub closed spec fn endpoints(&self) -> Seq<Endpoint> {
        self.endpoints@
    }

    /// The policy the stored resources give the endpoint `(w, port)`.
    pub open spec fn state_of(&self, w: Workload, port: u16) -> InboundView {
        derived_state(self.server_map(), self.route_map(), self.policy_map(), w, port)
    }

    /// The endpoint's published policy is the one the stored resources give it.
    pub open spec fn current(&self, e: Endpoint) -> bool {
        &&& self.workload_map().contains_key(e.workload@)
        &&& e.state.wf()
        &&& e.state@ == self.state_of(self.workload_map()[e.workload@], e.port)
    }

    pub closed spec fn stores_wf(&self) -> bool {
        &&& keys_unique(server_pairs(self.servers@))
        &&& keys_unique(route_pairs(self.routes@))
        &&& keys_unique(policy_pairs(self.policies@))
        &&& keys_unique(workload_pairs(self.workloads@))
    }

    /// Names are unique in every store, and every endpoint holds its current policy.
    pub open spec fn wf(&self) -> bool {
        &&& self.stores_wf()
        &&& forall|i: int| 0 <= i < self.endpoints().len() ==> self.current(#[trigger] self.endpoints()[i])
    }

    /// `new` holds the endpoints of `old`, each with its current policy; an
    /// endpoint's version moves on exactly when its policy changed.
    pub open spec fn republished(old: &Index, new: &Index) -> bool {
        &&& new.endpoints().len() == old.endpoints().len()
        &&& forall|i: int| 0 <= i < new.endpoints().len() ==> {
            let o = #[trigger] old.endpoints()[i];
            let n = new.endpoints()[i];
            &&& n.workload@ == o.workload@
            &&& n.port == o.port
            &&& new.current(n)
            &&& n.version == if n.state@ == o.state@ { o.version } else { next_version(o.version) }
        }
    }

    /// An empty index.
    pub fn new() -> (r: Index)
        ensures
            r.wf(),
            r.server_map().is_empty(),
            r.route_map().is_empty(),
            r.policy_map().is_empty(),
            r.workload_map().is_empty(),
            r.endpoints().len() == 0,
    {
        let r = Index {
            servers: Vec::new(),
            routes: Vec::new(),
            policies: Vec::new(),
            workloads: Vec::new(),
            endpoints: Vec::new(),
        };
        assert(r.server_map() =~= Map::empty());
        assert(r.route_map() =~= Map::empty());
        assert(r.policy_map() =~= Map::empty());
        assert(r.workload_map() =~= Map::empty());
        r
    }

    fn derive_state(&self, w: &Workload, port: u16) -> (r: InboundServer)
        requires
            self.stores_wf(),
        ensures
            r.wf(),
            r@ == self.state_of(*w, port),
    {
        match best_index(&self.servers, w, port) {
            None => {
                let probe_paths = probe_paths_on(&w.probes, port);
                let r = InboundServer {
                    reference: None,
                    protocol: ProxyProtocol::Detect,
                    probe_paths,
                    routes: Vec::new(),
                    authorizations: Vec::new(),
                };
                assert(keyed(pairs_view(r.routes@)) =~= Map::<Seq<char>, u64>::empty());
                assert(keyed(pairs_view(r.authorizations@)) =~= Map::<Seq<char>, u64>::empty());
                r
            },
            Some(b) => {
                let srv = &self.servers[b];
                proof {
                    assert(server_pairs(self.servers@)[b as int] == (srv.name@, *srv));
                    lemma_keyed_index(server_pairs(self.servers@), b as int);
                }
                let protocol = srv.protocol;
                let probe_paths = if protocol == ProxyProtocol::Detect || protocol == ProxyProtocol::Http1 || protocol == ProxyProtocol::Http2 {
                    probe_paths_on(&w.probes, port)
                } else {
                    let v: Vec<String> = Vec::new();
                    assert(v@.map_values(|p: String| p@) =~= Seq::<Seq<char>>::empty());
                    v
                };
                let routes = routes_on(&self.routes, srv.name.as_str(), protocol);
                let authorizations = policies_on(&self.policies, srv.name.as_str());
                InboundServer {
                    reference: Some(srv.name.clone()),
                    protocol,
                    probe_paths,
                    routes,
                    authorizations,
                }
            },
        }
    }

    fn find_workload(&self, name: &str) -> (r: Option<usize>)
        requires
            self.stores_wf(),
        ensures
            match r {
                Some(j) => j < self.workloads@.len() && self.workloads@[j as int].name@ == name@
                    && self.workload_map().contains_key(name@) && self.workload_map()[name@] == self.workloads@[j as int],
                None => !self.workload_map().contains_key(name@),
            },
    {
        let mut j: usize = 0;
        while j < self.workloads.len()
            invariant
                self.stores_wf(),
                j <= self.workloads@.len(),
                forall|x: int| 0 <= x < j ==> (#[trigger] self.workloads@[x]).name@ != name@,
            decreases self.workloads@.len() - j,
        {
            if str_eq(self.workloads[j].name.as_str(), name) {
                proof {
                    assert(workload_pairs(self.workloads@)[j as int] == (self.workloads@[j as int].name@, self.workloads@[j as int]));
                    lemma_keyed_index(workload_pairs(self.workloads@), j as int);
                }
                return Some(j);
            }
            j = j + 1;
        }
        proof {
            if self.workload_map().contains_key(name@) {
                let x = choose|x: int| 0 <= x < workload_pairs(self.workloads@).len() && (#[trigger] workload_pairs(self.workloads@)[x]).0 == name@;
                assert(workload_pairs(self.workloads@)[x] == (self.workloads@[x].name@, self.workloads@[x]));
            }
        }
        None
    }
}

/// A subscription to the derived policy of one endpoint.
#[derive(Clone, Debug)]
pub struct Subscription {
    pub workload: String,
    pub port: u16,
}

impl Index {
    /// The workload of every endpoint is stored, and its policy is well formed.
    pub closed spec fn endpoints_tracked(&self) -> bool {
        forall|i: int| 0 <= i < self.endpoints@.len() ==> self.workload_map().contains_key((#[trigger] self.endpoints@[i]).workload@)
            && self.endpoints@[i].state.wf()
    }

    /// Recomputes the endpoints that a change may have touched: all of them,
    /// or those governed by a declaration of one of the names. The others must
    /// hold their current policy already.
    fn refresh_where(&mut self, names: &Vec<String>, all: bool, workloads: &Vec<String>)
        requires
            old(self).stores_wf(),
            old(self).endpoints_tracked(),
            forall|i: int| 0 <= i < old(self).endpoints@.len() && !touched(#[trigger] old(self).endpoints@[i], texts(names@), all, texts(workloads@))
                ==> old(self).current(old(self).endpoints@[i]),
        ensures
            final(self).servers@ == old(self).servers@,
            final(self).routes@ == old(self).routes@,
            final(self).policies@ == old(self).policies@,
            final(self).workloads@ == old(self).workloads@,
            final(self).wf(),
            Index::republished(&*old(self), &*final(self)),
    {
        let ghost before = self.endpoints@;
        let mut i: usize = 0;
        while i < self.endpoints.len()
            invariant
                self.stores_wf(),
                self.servers@ == old(self).servers@,
                self.routes@ == old(self).routes@,
                self.policies@ == old(self).policies@,
                self.workloads@ == old(self).workloads@,
                before == old(self).endpoints@,
                old(self).endpoints_tracked(),
                forall|j: int| 0 <= j < before.len() && !touched(#[trigger] before[j], texts(names@), all, texts(workloads@))
                    ==> old(self).current(before[j]),
                self.endpoints@.len() == before.len(),
                i <= before.len(),
                forall|j: int| i <= j < before.len() ==> self.endpoints@[j] == before[j],
                forall|j: int| 0 <= j < i ==> {
                    let o = #[trigger] before[j];
                    let n = self.endpoints@[j];
                    &&& n.workload@ == o.workload@
                    &&& n.port == o.port
                    &&& self.current(n)
                    &&& n.version == if n.state@ == o.state@ { o.version } else { next_version(o.version) }
                },
            decreases before.len() - i,
        {
            assert(old(self).workload_map() == self.workload_map());
            assert(self.endpoints@[i as int] == old(self).endpoints@[i as int]);
            assert(old(self).workload_map().contains_key(old(self).endpoints@[i as int].workload@));
            assert(old(self).endpoints@[i as int].state.wf());
            let recompute = all || text_in(workloads, self.endpoints[i].workload.as_str()) || match &self.endpoints[i].state.reference {
                Some(k) => text_in(names, k.as_str()),
                None => false,
            };
            if recompute {
                let wi = match self.find_workload(self.endpoints[i].workload.as_str()) {
                    Some(wi) => wi,
                    None => {
                        assert(false);
                        i
                    },
                };
                let port = self.endpoints[i].port;
                let state = self.derive_state(&self.workloads[wi], port);
                if !same_state(&state, &self.endpoints[i].state) {
                    let version = if self.endpoints[i].version < u64::MAX {
                        self.endpoints[i].version + 1
                    } else {
                        self.endpoints[i].version
                    };
                    let workload = self.endpoints[i].workload.clone();
                    self.endpoints.set(i, Endpoint { workload, port, state, version });
                }
            } else {
                assert(!touched(before[i as int], texts(names@), all, texts(workloads@)));
            }
            i = i + 1;
        }
        assert forall|j: int| 0 <= j < self.endpoints().len() implies self.current(#[trigger] self.endpoints()[j]) by {
            assert(before[j] == old(self).endpoints@[j]);
        }
    }

    fn refresh(&mut self)
        requires
            old(self).stores_wf(),
            old(self).endpoints_tracked(),
        ensures
            final(self).servers@ == old(self).servers@,
            final(self).routes@ == old(self).routes@,
            final(self).policies@ == old(self).policies@,
            final(self).workloads@ == old(self).workloads@,
            final(self).wf(),
            Index::republished(&*old(self), &*final(self)),
    {
        let none: Vec<String> = Vec::new();
        self.refresh_where(&none, true, &none);
    }

    proof fn lemma_wf_tracked(&self)
        requires
            self.wf(),
        ensures
            self.endpoints_tracked(),
    {
        assert forall|i: int| 0 <= i < self.endpoints@.len() implies self.workload_map().contains_key((#[trigger] self.endpoints@[i]).workload@)
            && self.endpoints@[i].state.wf() by {
            assert(self.current(self.endpoints()[i]));
        }
    }

    fn find_server(&self, name: &str) -> (r: Option<usize>)
        requires
            self.stores_wf(),
        ensures
            match r {
                Some(j) => j < self.servers@.len() && self.server_map().contains_key(name@) && self.server_map()[name@] == self.servers@[j as int],
                None => !self.server_map().contains_key(name@),
            },
    {
        let mut j: usize = 0;
        while j < self.servers.len()
            invariant
                self.stores_wf(),
                j <= self.servers@.len(),
                forall|x: int| 0 <= x < j ==> (#[trigger] self.servers@[x]).name@ != name@,
            decreases self.servers@.len() - j,
        {
            if str_eq(self.servers[j].name.as_str(), name) {
                proof {
                    assert(server_pairs(self.servers@)[j as int] == (self.servers@[j as int].name@, self.servers@[j as int]));
                    lemma_keyed_index(server_pairs(self.servers@), j as int);
                }
                return Some(j);
            }
            j = j + 1;
        }
        proof {
            if self.server_map().contains_key(name@) {
                let x = choose|x: int| 0 <= x < server_pairs(self.servers@).len() && (#[trigger] server_pairs(self.servers@)[x]).0 == name@;
                assert(server_pairs(self.servers@)[x].0 == self.servers@[x].name@);
            }
        }
        None
    }

    /// The workloads of the endpoints that the stored declaration of that
    /// name, or the new one, selects.
    fn selected_workloads(&self, name: &str, next: Option<&Server>) -> (r: Vec<String>)
        requires
            self.stores_wf(),
            self.endpoints_tracked(),
        ensures
            forall|i: int| 0 <= i < self.endpoints@.len() ==> {
                let e = #[trigger] self.endpoints@[i];
                let w = self.workload_map()[e.workload@];
                (self.server_map().contains_key(name@) && server_selects(self.server_map()[name@], w, e.port))
                    || (next is Some && server_selects(*next->0, w, e.port))
                    ==> texts(r@).contains(e.workload@)
            },
    {
        let stored = self.find_server(name);
        let mut out: Vec<String> = Vec::new();
        let mut i: usize = 0;
        while i < self.endpoints.len()
            invariant
                self.stores_wf(),
                self.endpoints_tracked(),
                match stored {
                    Some(j) => j < self.servers@.len() && self.server_map().contains_key(name@) && self.server_map()[name@] == self.servers@[j as int],
                    None => !self.server_map().contains_key(name@),
                },
                i <= self.endpoints@.len(),
                forall|x: int| 0 <= x < i ==> {
                    let e = #[trigger] self.endpoints@[x];
                    let w = self.workload_map()[e.workload@];
                    (self.server_map().contains_key(name@) && server_selects(self.server_map()[name@], w, e.port))
                        || (next is Some && server_selects(*next->0, w, e.port))
                        ==> texts(out@).contains(e.workload@)
                },
            decreases self.endpoints@.len() - i,
        {
            let wi = match self.find_workload(self.endpoints[i].workload.as_str()) {
                Some(wi) => wi,
                None => {
                    assert(false);
                    i
                },
            };
            let port = self.endpoints[i].port;
            let by_stored = match stored {
                Some(j) => selects(&self.servers[j], &self.workloads[wi], port),
                None => false,
            };
            let by_next = match next {
                Some(s) => selects(s, &self.workloads[wi], port),
                None => false,
            };
            if by_stored || by_next {
                let ghost before = out@;
                out.push(self.endpoints[i].workload.clone());
                proof {
                    assert(texts(out@)[before.len() as int] == self.endpoints@[i as int].workload@);
                    assert forall|x: int| 0 <= x < i && texts(before).contains((#[trigger] self.endpoints@[x]).workload@)
                        implies texts(out@).contains(self.endpoints@[x].workload@) by {
                        lemma_texts_prefix(before, out@, self.endpoints@[x].workload@);
                    }
                }
            }
            i = i + 1;
        }
        out
    }

    /// Stores an exposure declaration, replacing one of the same name, and
    /// republishes every endpoint whose policy changed. Only the workloads
    /// with an endpoint that the old or the new declaration selects are
    /// recomputed.
    pub fn apply_server(&mut self, server: Server)
        requires
            old(self).wf(),
        ensures
            final(self).wf(),
            final(self).server_map() == old(self).server_map().insert(server.name@, server),
            final(self).route_map() == old(self).route_map(),
            final(self).policy_map() == old(self).policy_map(),
            final(self).workload_map() == old(self).workload_map(),
            Index::republished(&*old(self), &*final(self)),
    {
        proof { self.lemma_wf_tracked(); }
        let none: Vec<String> = Vec::new();
        let workloads = self.selected_workloads(server.name.as_str(), Some(&server));
        let ghost old_servers = self.server_map();
        let ghost sv = server;
        upsert_server(&mut self.servers, server);
        proof {
            assert forall|i: int| 0 <= i < self.endpoints@.len() && !touched(#[trigger] self.endpoints@[i], texts(none@), false, texts(workloads@))
                implies self.current(self.endpoints@[i]) by {
                let e = self.endpoints@[i];
                assert(old(self).current(old(self).endpoints()[i]));
                let w = self.workload_map()[e.workload@];
                lemma_server_change_untouched(old_servers, self.route_map(), self.policy_map(), w, e.port, sv.name@, Some(sv));
            }
        }
        self.refresh_where(&none, false, &workloads);
    }

    /// Removes the exposure declaration of that name, if stored, and
    /// republishes every endpoint whose policy changed. Only the workloads
    /// with an endpoint that the declaration selects are recomputed.
    pub fn delete_server(&mut self, name: &str)
        requires
            old(self).wf(),
        ensures
            final(self).wf(),
            final(self).server_map() == old(self).server_map().remove(name@),
            final(self).route_map() == old(self).route_map(),
            final(self).policy_map() == old(self).policy_map(),
            final(self).workload_map() == old(self).workload_map(),
            Index::republished(&*old(self), &*final(self)),
    {
        proof { self.lemma_wf_tracked(); }
        let none: Vec<String> = Vec::new();
        let workloads = self.selected_workloads(name, None);
        let ghost old_servers = self.server_map();
        remove_server(&mut self.servers, name);
        proof {
            assert forall|i: int| 0 <= i < self.endpoints@.len() && !touched(#[trigger] self.endpoints@[i], texts(none@), false, texts(workloads@))
                implies self.current(self.endpoints@[i]) by {
                let e = self.endpoints@[i];
                assert(old(self).current(old(self).endpoints()[i]));
                let w = self.workload_map()[e.workload@];
                lemma_server_change_untouched(old_servers, self.route_map(), self.policy_map(), w, e.port, name@, None);
            }
        }
        self.refresh_where(&none, false, &workloads);
    }

    fn stored_route_parents(&self, name: &str, out: &mut Vec<String>)
        requires
            self.stores_wf(),
        ensures
            final(out)@.len() >= old(out)@.len(),
            forall|j: int| 0 <= j < old(out)@.len() ==> final(out)@[j] == old(out)@[j],
            self.route_map().contains_key(name@) ==> forall|k: Seq<char>| self.route_map()[name@].binding.selects_spec(k)
                ==> texts(final(out)@).contains(k),
    {
        let mut j: usize = 0;
        while j < self.routes.len()
            invariant
                self.stores_wf(),
                out@ == old(out)@,
                j <= self.routes@.len(),
                forall|x: int| 0 <= x < j ==> (#[trigger] self.routes@[x]).name@ != name@,
            decreases self.routes@.len() - j,
        {
            if str_eq(self.routes[j].name.as_str(), name) {
                proof {
                    assert(route_pairs(self.routes@)[j as int] == (self.routes@[j as int].name@, self.routes@[j as int]));
                    lemma_keyed_index(route_pairs(self.routes@), j as int);
                }
                push_binding_parents(&self.routes[j].binding, out);
                return;
            }
            j = j + 1;
        }
        proof {
            if self.route_map().contains_key(name@) {
                let x = choose|x: int| 0 <= x < route_pairs(self.routes@).len() && (#[trigger] route_pairs(self.routes@)[x]).0 == name@;
                assert(route_pairs(self.routes@)[x].0 == self.routes@[x].name@);
            }
        }
    }

    fn stored_policy_target(&self, name: &str, out: &mut Vec<String>) -> (all: bool)
        requires
            self.stores_wf(),
        ensures
            final(out)@.len() >= old(out)@.len(),
            forall|j: int| 0 <= j < old(out)@.len() ==> final(out)@[j] == old(out)@[j],
            self.policy_map().contains_key(name@) ==> forall|k: Seq<char>| policy_applies(self.policy_map()[name@], k)
                ==> all || texts(final(out)@).contains(k),
    {
        let mut j: usize = 0;
        while j < self.policies.len()
            invariant
                self.stores_wf(),
                out@ == old(out)@,
                j <= self.policies@.len(),
                forall|x: int| 0 <= x < j ==> (#[trigger] self.policies@[x]).name@ != name@,
            decreases self.policies@.len() - j,
        {
            if str_eq(self.policies[j].name.as_str(), name) {
                proof {
                    assert(policy_pairs(self.policies@)[j as int] == (self.policies@[j as int].name@, self.policies@[j as int]));
                    lemma_keyed_index(policy_pairs(self.policies@), j as int);
                }
                return push_policy_target(&self.policies[j], out);
            }
            j = j + 1;
        }
        proof {
            if self.policy_map().contains_key(name@) {
                let x = choose|x: int| 0 <= x < policy_pairs(self.policies@).len() && (#[trigger] policy_pairs(self.policies@)[x]).0 == name@;
                assert(policy_pairs(self.policies@)[x].0 == self.policies@[x].name@);
            }
        }
        false
    }

    /// Stores a route, replacing one of the same name, and republishes every
    /// endpoint whose policy changed. Only the endpoints governed by a
    /// declaration that the old or the new route names are recomputed.
    pub fn apply_route(&mut self, route: StoredRoute)
        requires
            old(self).wf(),
        ensures
            final(self).wf(),
            final(self).server_map() == old(self).server_map(),
            final(self).route_map() == old(self).route_map().insert(route.name@, route),
            final(self).policy_map() == old(self).policy_map(),
            final(self).workload_map() == old(self).workload_map(),
            Index::republished(&*old(self), &*final(self)),
    {
        proof { self.lemma_wf_tracked(); }
        let no_workloads: Vec<String> = Vec::new();
        let mut names: Vec<String> = Vec::new();
        self.stored_route_parents(route.name.as_str(), &mut names);
        let ghost mid = names@;
        push_binding_parents(&route.binding, &mut names);
        let ghost old_routes = self.route_map();
        let ghost r = route;
        upsert_route(&mut self.routes, route);
        proof {
            assert forall|i: int| 0 <= i < self.endpoints@.len() && !touched(#[trigger] self.endpoints@[i], texts(names@), false, texts(no_workloads@))
                implies self.current(self.endpoints@[i]) by {
                let e = self.endpoints@[i];
                assert(old(self).current(old(self).endpoints()[i]));
                let w = self.workload_map()[e.workload@];
                match e.state@.reference {
                    Some(k) => {
                        if old_routes.contains_key(r.name@) && old_routes[r.name@].binding.selects_spec(k) {
                            lemma_texts_prefix(mid, names@, k);
                        }
                    },
                    None => {},
                }
                lemma_route_change_untouched(self.server_map(), old_routes, self.policy_map(), w, e.port, r.name@, Some(r));
            }
        }
        self.refresh_where(&names, false, &no_workloads);
    }

    /// Removes the route of that name, if stored, and republishes every
    /// endpoint whose policy changed. Only the endpoints governed by a
    /// declaration that the route names are recomputed.
    pub fn delete_route(&mut self, name: &str)
        requires
            old(self).wf(),
        ensures
            final(self).wf(),
            final(self).server_map() == old(self).server_map(),
            final(self).route_map() == old(self).route_map().remove(name@),
            final(self).policy_map() == old(self).policy_map(),
            final(self).workload_map() == old(self).workload_map(),
            Index::republished(&*old(self), &*final(self)),
    {
        proof { self.lemma_wf_tracked(); }
        let no_workloads: Vec<String> = Vec::new();
        let mut names: Vec<String> = Vec::new();
        self.stored_route_parents(name, &mut names);
        let ghost old_routes = self.route_map();
        remove_route(&mut self.routes, name);
        proof {
            assert forall|i: int| 0 <= i < self.endpoints@.len() && !touched(#[trigger] self.endpoints@[i], texts(names@), false, texts(no_workloads@))
                implies self.current(self.endpoints@[i]) by {
                let e = self.endpoints@[i];
                assert(old(self).current(old(self).endpoints()[i]));
                let w = self.workload_map()[e.workload@];
                lemma_route_change_untouched(self.server_map(), old_routes, self.policy_map(), w, e.port, name@, None);
            }
        }
        self.refresh_where(&names, false, &no_workloads);
    }

    /// Stores an authorization policy, replacing one of the same name, and
    /// republishes every endpoint whose policy changed. Only the endpoints
    /// governed by a declaration that the old or the new policy applies to are
    /// recomputed.
    pub fn apply_policy(&mut self, policy: AuthorizationPolicy)
        requires
            old(self).wf(),
        ensures
            final(self).wf(),
            final(self).server_map() == old(self).server_map(),
            final(self).route_map() == old(self).route_map(),
            final(self).policy_map() == old(self).policy_map().insert(policy.name@, policy),
            final(self).workload_map() == old(self).workload_map(),
            Index::republished(&*old(self), &*final(self)),
    {
        proof { self.lemma_wf_tracked(); }
        let no_workloads: Vec<String> = Vec::new();
        let mut names: Vec<String> = Vec::new();
        let all_old = self.stored_policy_target(policy.name.as_str(), &mut names);
        let ghost mid = names@;
        let all_new = push_policy_target(&policy, &mut names);
        let all = all_old || all_new;
        let ghost old_policies = self.policy_map();
        let ghost a = policy;
        upsert_policy(&mut self.policies, policy);
        proof {
            assert forall|i: int| 0 <= i < self.endpoints@.len() && !touched(#[trigger] self.endpoints@[i], texts(names@), all, texts(no_workloads@))
                implies self.current(self.endpoints@[i]) by {
                let e = self.endpoints@[i];
                assert(old(self).current(old(self).endpoints()[i]));
                let w = self.workload_map()[e.workload@];
                match e.state@.reference {
                    Some(k) => {
                        if old_policies.contains_key(a.name@) && policy_applies(old_policies[a.name@], k) && !all_old {
                            lemma_texts_prefix(mid, names@, k);
                        }
                    },
                    None => {},
                }
                lemma_policy_change_untouched(self.server_map(), self.route_map(), old_policies, w, e.port, a.name@, Some(a));
            }
        }
        self.refresh_where(&names, all, &no_workloads);
    }

    /// Removes the authorization policy of that name, if stored, and
    /// republishes every endpoint whose policy changed. Only the endpoints
    /// governed by a declaration that the policy applies to are recomputed.
    pub fn delete_policy(&mut self, name: &str)
        requires
            old(self).wf(),
        ensures
            final(self).wf(),
            final(self).server_map() == old(self).server_map(),
            final(self).route_map() == old(self).route_map(),
            final(self).policy_map() == old(self).policy_map().remove(name@),
            final(self).workload_map() == old(self).workload_map(),
            Index::republished(&*old(self), &*final(self)),
    {
        proof { self.lemma_wf_tracked(); }
        let no_workloads: Vec<String> = Vec::new();
        let mut names: Vec<String> = Vec::new();
        let all = self.stored_policy_target(name, &mut names);
        let ghost old_policies = self.policy_map();
        remove_policy(&mut self.policies, name);
        proof {
            assert forall|i: int| 0 <= i < self.endpoints@.len() && !touched(#[trigger] self.endpoints@[i], texts(names@), all, texts(no_workloads@))
                implies self.current(self.endpoints@[i]) by {
                let e = self.endpoints@[i];
                assert(old(self).current(old(self).endpoints()[i]));
                let w = self.workload_map()[e.workload@];
                lemma_policy_change_untouched(self.server_map(), self.route_map(), old_policies, w, e.port, name@, None);
            }
        }
        self.refresh_where(&names, all, &no_workloads);
    }

    /// Stores a workload, replacing one of the same name, and republishes
    /// every endpoint whose policy changed. Only the workload's own endpoints
    /// are recomputed.
    pub fn apply_workload(&mut self, workload: Workload)
        requires
            old(self).wf(),
        ensures
            final(self).wf(),
            final(self).server_map() == old(self).server_map(),
            final(self).route_map() == old(self).route_map(),
            final(self).policy_map() == old(self).policy_map(),
            final(self).workload_map() == old(self).workload_map().insert(workload.name@, workload),
            Index::republished(&*old(self), &*final(self)),
    {
        proof { self.lemma_wf_tracked(); }
        let ghost key = workload.name@;
        let none: Vec<String> = Vec::new();
        let mut workloads: Vec<String> = Vec::new();
        workloads.push(workload.name.clone());
        assert(texts(workloads@)[0] == key);
        upsert_workload(&mut self.workloads, workload);
        assert forall|i: int| 0 <= i < self.endpoints@.len() implies self.workload_map().contains_key((#[trigger] self.endpoints@[i]).workload@)
            && self.endpoints@[i].state.wf() by {
            assert(old(self).workload_map().contains_key(old(self).endpoints@[i].workload@));
        }
        assert forall|i: int| 0 <= i < self.endpoints@.len() && !touched(#[trigger] self.endpoints@[i], texts(none@), false, texts(workloads@))
            implies self.current(self.endpoints@[i]) by {
            assert(old(self).current(old(self).endpoints()[i]));
            assert(self.endpoints@[i].workload@ != key);
        }
        self.refresh_where(&none, false, &workloads);
    }
}

/// The conditions computed for a route's parent: `Accepted`, true exactly when
/// the declaration is stored.
pub open spec fn computed_conditions(accepted: bool) -> Seq<Condition> {
    seq![Condition { type_: ConditionType::Accepted, status: accepted }]
}

pub open spec fn parents_of(b: TypedRouteBinding) -> Seq<ParentRef> {
    match b {
        TypedRouteBinding::Http(x) => x.parents@,
        TypedRouteBinding::Grpc(x) => x.parents@,
    }
}

/// The reason that goes with a computed condition.
#[derive(Clone, Copy, Debug, PartialEq, Eq, Structural)]
pub enum Reason {
    Accepted,
    NoMatchingParent,
}

pub open spec fn reason_of(c: Condition) -> Reason {
    if c.status { Reason::Accepted } else { Reason::NoMatchingParent }
}

/// The reason for a condition: `Accepted` when it holds, else `NoMatchingParent`.
pub fn reason(c: &Condition) -> (r: Reason)
    ensures
        r == reason_of(*c),
{
    if c.status { Reason::Accepted } else { Reason::NoMatchingParent }
}

/// Whether the persisted status records differ from the computed ones, so
/// that they must be written back.
pub fn needs_update(current: &Vec<Status>, computed: &Vec<Status>) -> (r: bool)
    ensures
        r == (current@.map_values(|st: Status| st@) != computed@.map_values(|st: Status| st@)),
{
    let ghost a = current@.map_values(|st: Status| st@);
    let ghost b = computed@.map_values(|st: Status| st@);
    if current.len() != computed.len() {
        assert(a.len() != b.len());
        return true;
    }
    let mut i: usize = 0;
    while i < current.len()
        invariant
            a == current@.map_values(|st: Status| st@),
            b == computed@.map_values(|st: Status| st@),
            current@.len() == computed@.len(),
            i <= current@.len(),
            forall|j: int| 0 <= j < i ==> a[j] == b[j],
        decreases current@.len() - i,
    {
        let x = &current[i];
        let y = &computed[i];
        let same_parent = match (&x.parent, &y.parent) {
            (ParentRef::Server(p), ParentRef::Server(q)) => str_eq(p.as_str(), q.as_str()),
        };
        if !same_parent {
            assert(a[i as int].0 != b[i as int].0);
            assert(a[i as int] != b[i as int]);
            return true;
        }
        if x.conditions.len() != y.conditions.len() {
            assert(a[i as int].1.len() != b[i as int].1.len());
            assert(a[i as int] != b[i as int]);
            return true;
        }
        let mut j: usize = 0;
        while j < x.conditions.len()
            invariant
                a == current@.map_values(|st: Status| st@),
                b == computed@.map_values(|st: Status| st@),
                current@.len() == computed@.len(),
                i < current@.len(),
                *x == current@[i as int],
                *y == computed@[i as int],
                x.conditions@.len() == y.conditions@.len(),
                j <= x.conditions@.len(),
                forall|k: int| 0 <= k < j ==> x.conditions@[k] == y.conditions@[k],
            decreases x.conditions@.len() - j,
        {
            if x.conditions[j] != y.conditions[j] {
                assert(x@.1[j as int] != y@.1[j as int]);
                assert(a[i as int] != b[i as int]);
                return true;
            }
            j = j + 1;
        }
        assert(x.conditions@ =~= y.conditions@);
        assert(a[i as int] == b[i as int]);
        i = i + 1;
    }
    assert(a =~= b);
    false
}

/// Whether the workload names the port.
fn names_port(w: &Workload, port: u16) -> (r: bool)
    ensures
        r == exists|j: int| 0 <= j < w.ports@.len() && (#[trigger] w.ports@[j]).number == port,
{
    let mut j: usize = 0;
    while j < w.ports.len()
        invariant
            j <= w.ports@.len(),
            forall|x: int| 0 <= x < j ==> (#[trigger] w.ports@[x]).number != port,
        decreases w.ports@.len() - j,
    {
        if w.ports[j].number == port {
            assert(w.ports@[j as int].number == port);
            return true;
        }
        j = j + 1;
    }
    false
}

impl Index {
    /// Removes the workload of that name, if stored, and the endpoints
    /// subscribed on it; republishes the others whose policy changed.
    pub fn delete_workload(&mut self, name: &str)
        requires
            old(self).wf(),
        ensures
            final(self).wf(),
            final(self).server_map() == old(self).server_map(),
            final(self).route_map() == old(self).route_map(),
            final(self).policy_map() == old(self).policy_map(),
            final(self).workload_map() == old(self).workload_map().remove(name@),
            forall|i: int| 0 <= i < final(self).endpoints().len() ==> (#[trigger] final(self).endpoints()[i]).workload@ != name@,
    {
        proof { self.lemma_wf_tracked(); }
        let mut i: usize = 0;
        while i < self.endpoints.len()
            invariant
                self.stores_wf(),
                self.servers@ == old(self).servers@,
                self.routes@ == old(self).routes@,
                self.policies@ == old(self).policies@,
                self.workloads@ == old(self).workloads@,
                self.endpoints_tracked(),
                i <= self.endpoints@.len(),
                forall|j: int| 0 <= j < i ==> (#[trigger] self.endpoints@[j]).workload@ != name@,
            decreases self.endpoints@.len() - i,
        {
            if str_eq(self.endpoints[i].workload.as_str(), name) {
                let ghost before = self.endpoints@;
                self.endpoints.remove(i);
                assert forall|j: int| 0 <= j < self.endpoints@.len() implies self.workload_map().contains_key((#[trigger] self.endpoints@[j]).workload@)
                    && self.endpoints@[j].state.wf() by {
                    if j < i {
                        assert(self.endpoints@[j] == before[j]);
                    } else {
                        assert(self.endpoints@[j] == before[j + 1]);
                    }
                }
                assert forall|j: int| 0 <= j < i implies (#[trigger] self.endpoints@[j]).workload@ != name@ by {
                    assert(self.endpoints@[j] == before[j]);
                }
            } else {
                i = i + 1;
            }
        }
        let ghost kept = self.endpoints@;
        remove_workload(&mut self.workloads, name);
        assert forall|j: int| 0 <= j < self.endpoints@.len() implies self.workload_map().contains_key((#[trigger] self.endpoints@[j]).workload@)
            && self.endpoints@[j].state.wf() by {
            assert(old(self).workload_map().contains_key(kept[j].workload@));
        }
        self.refresh();
        assert forall|j: int| 0 <= j < self.endpoints().len() implies (#[trigger] self.endpoints()[j]).workload@ != name@ by {
            assert(kept[j].workload@ != name@);
        }
    }

    /// Subscribes to the endpoint `(workload, port)`: it must be a stored
    /// workload that names the port. Its current policy is then published.
    pub fn subscribe(&mut self, workload: &str, port: u16) -> (r: Result<Subscription, IndexError>)
        requires
            old(self).wf(),
        ensures
            final(self).wf(),
            final(self).server_map() == old(self).server_map(),
            final(self).route_map() == old(self).route_map(),
            final(self).policy_map() == old(self).policy_map(),
            final(self).workload_map() == old(self).workload_map(),
            r is Ok <==> old(self).workload_map().contains_key(workload@) && exists|j: int|
                0 <= j < old(self).workload_map()[workload@].ports@.len() && (#[trigger] old(self).workload_map()[workload@].ports@[j]).number == port,
            match r {
                Ok(sub) => sub.workload@ == workload@ && sub.port == port && exists|i: int| 0 <= i < final(self).endpoints().len()
                    && (#[trigger] final(self).endpoints()[i]).workload@ == workload@ && final(self).endpoints()[i].port == port,
                Err(e) => e == IndexError::NotFound && final(self).endpoints() == old(self).endpoints(),
            },
    {
        let wi = match self.find_workload(workload) {
            Some(wi) => wi,
            None => return Err(IndexError::NotFound),
        };
        if !names_port(&self.workloads[wi], port) {
            return Err(IndexError::NotFound);
        }
        let sub = Subscription { workload: self.workloads[wi].name.clone(), port };
        match self.find_endpoint(workload, port) {
            Some(i) => {
                assert(self.endpoints()[i as int].workload@ == workload@ && self.endpoints()[i as int].port == port);
                return Ok(sub);
            },
            None => {},
        }
        let state = self.derive_state(&self.workloads[wi], port);
        let ghost before = self.endpoints@;
        self.endpoints.push(Endpoint { workload: self.workloads[wi].name.clone(), port, state, version: 0 });
        assert forall|x: int| 0 <= x < self.endpoints().len() implies self.current(#[trigger] self.endpoints()[x]) by {
            if x < before.len() {
                assert(self.endpoints()[x] == before[x]);
                assert(old(self).current(old(self).endpoints()[x]));
            }
        }
        assert(self.endpoints()[before.len() as int].workload@ == workload@);
        Ok(sub)
    }

    fn find_endpoint(&self, workload: &str, port: u16) -> (r: Option<usize>)
        ensures
            match r {
                Some(i) => i < self.endpoints@.len() && self.endpoints@[i as int].workload@ == workload@ && self.endpoints@[i as int].port == port,
                None => forall|x: int| 0 <= x < self.endpoints@.len() ==> !((#[trigger] self.endpoints@[x]).workload@ == workload@ && self.endpoints@[x].port == port),
            },
    {
        let mut i: usize = 0;
        while i < self.endpoints.len()
            invariant
                i <= self.endpoints@.len(),
                forall|x: int| 0 <= x < i ==> !((#[trigger] self.endpoints@[x]).workload@ == workload@ && self.endpoints@[x].port == port),
            decreases self.endpoints@.len() - i,
        {
            if self.endpoints[i].port == port && str_eq(self.endpoints[i].workload.as_str(), workload) {
                return Some(i);
            }
            i = i + 1;
        }
        None
    }

    /// The latest policy of a subscribed endpoint and the number of times it
    /// has changed; none when nobody subscribed to the endpoint.
    pub fn latest(&self, sub: &Subscription) -> (r: Option<(&InboundServer, u64)>)
        requires
            self.wf(),
        ensures
            match r {
                Some((st, v)) => exists|i: int| 0 <= i < self.endpoints().len() && {
                    let e = #[trigger] self.endpoints()[i];
                    &&& e.workload@ == sub.workload@
                    &&& e.port == sub.port
                    &&& e.state == *st
                    &&& e.version == v
                    &&& self.current(e)
                },
                None => forall|i: int| 0 <= i < self.endpoints().len() ==> !((#[trigger] self.endpoints()[i]).workload@ == sub.workload@
                    && self.endpoints()[i].port == sub.port),
            },
    {
        let mut i: usize = 0;
        while i < self.endpoints.len()
            invariant
                self.wf(),
                i <= self.endpoints@.len(),
                forall|x: int| 0 <= x < i ==> !((#[trigger] self.endpoints@[x]).workload@ == sub.workload@ && self.endpoints@[x].port == sub.port),
            decreases self.endpoints@.len() - i,
        {
            let e = &self.endpoints[i];
            if e.port == sub.port && str_eq(e.workload.as_str(), sub.workload.as_str()) {
                assert(self.current(self.endpoints()[i as int]));
                return Some((&e.state, e.version));
            }
            i = i + 1;
        }
        None
    }

    /// The status records to persist for a route: for each parent, in order,
    /// the `Accepted` condition, true exactly when the declaration is stored.
    pub fn route_status(&self, binding: &TypedRouteBinding) -> (r: Vec<Status>)
        requires
            self.wf(),
        ensures
            r@.len() == parents_of(*binding).len(),
            forall|i: int| 0 <= i < r@.len() ==> (#[trigger] r@[i])@ == (parents_of(*binding)[i]@,
                computed_conditions(self.server_map().contains_key(parents_of(*binding)[i]@))),
    {
        let parents = match binding {
            TypedRouteBinding::Http(b) => &b.parents,
            TypedRouteBinding::Grpc(b) => &b.parents,
        };
        let mut out: Vec<Status> = Vec::new();
        let mut i: usize = 0;
        while i < parents.len()
            invariant
                self.wf(),
                parents@ == parents_of(*binding),
                i <= parents@.len(),
                out@.len() == i,
                forall|j: int| 0 <= j < i ==> (#[trigger] out@[j])@ == (parents@[j]@, computed_conditions(self.server_map().contains_key(parents@[j]@))),
            decreases parents@.len() - i,
        {
            let name = match &parents[i] {
                ParentRef::Server(n) => n,
            };
            let exists = self.has_server(name.as_str());
            let mut conditions: Vec<Condition> = Vec::new();
            conditions.push(Condition { type_: ConditionType::Accepted, status: exists });
            assert(conditions@ =~= computed_conditions(exists));
            out.push(Status { parent: ParentRef::Server(name.clone()), conditions });
            i = i + 1;
        }
        out
    }

    /// Whether a declaration of that name is stored.
    pub fn has_server(&self, name: &str) -> (r: bool)
        requires
            self.wf(),
        ensures
            r == self.server_map().contains_key(name@),
    {
        let mut j: usize = 0;
        while j < self.servers.len()
            invariant
                j <= self.servers@.len(),
                forall|x: int| 0 <= x < j ==> (#[trigger] self.servers@[x]).name@ != name@,
            decreases self.servers@.len() - j,
        {
            if str_eq(self.servers[j].name.as_str(), name) {
                assert(server_pairs(self.servers@)[j as int].0 == name@);
                return true;
            }
            j = j + 1;
        }
        proof {
            if self.server_map().contains_key(name@) {
                let x = choose|x: int| 0 <= x < server_pairs(self.servers@).len() && (#[trigger] server_pairs(self.servers@)[x]).0 == name@;
                assert(server_pairs(self.servers@)[x].0 == self.servers@[x].name@);
            }
        }
        false
    }
}

fn copy_texts(v: &Vec<String>) -> (r: Vec<String>)
    ensures
        r@.map_values(|p: String| p@) == v@.map_values(|p: String| p@),
{
    let mut out: Vec<String> = Vec::new();
    let mut i: usize = 0;
    while i < v.len()
        invariant
            i <= v@.len(),
            out@.len() == i,
            forall|j: int| 0 <= j < i ==> (#[trigger] out@[j])@ == v@[j]@,
        decreases v@.len() - i,
    {
        out.push(v[i].clone());
        i = i + 1;
    }
    assert(out@.map_values(|p: String| p@) =~= v@.map_values(|p: String| p@));
    out
}

/// The match of one probe: a GET of exactly the path.
pub open spec fn probe_match(m: HttpRouteMatch, path: Seq<char>) -> bool {
    &&& m.path matches Some(PathMatch::Exact(p)) && p@ == path
    &&& m.headers@.len() == 0
    &&& m.query_params@.len() == 0
    &&& m.method matches Some(x) && x@ == "GET"@
}

/// The probe route of a derived policy: one rule whose matches are GETs of
/// the probe paths, authorized for the probe networks without authentication
/// under the name `probe`.
pub fn probe_route(state: &InboundServer, probe_networks: &Vec<String>) -> (r: InboundRoute<HttpRouteMatch>)
    ensures
        r.hostnames@.len() == 0,
        r.rules@.len() == 1,
        r.rules@[0].filters@.len() == 0,
        r.rules@[0].matches@.len() == state.probe_paths@.len(),
        forall|i: int| 0 <= i < state.probe_paths@.len() ==> probe_match(#[trigger] r.rules@[0].matches@[i], state.probe_paths@[i]@),
        r.authorizations@.len() == 1,
        r.authorizations@[0].0@ == "probe"@,
        r.authorizations@[0].1.networks@.map_values(|p: String| p@) == probe_networks@.map_values(|p: String| p@),
        r.authorizations@[0].1.authentication is Unauthenticated,
        r.creation_timestamp is None,
{
    let mut matches: Vec<HttpRouteMatch> = Vec::new();
    let mut i: usize = 0;
    while i < state.probe_paths.len()
        invariant
            i <= state.probe_paths@.len(),
            matches@.len() == i,
            forall|j: int| 0 <= j < i ==> probe_match(#[trigger] matches@[j], state.probe_paths@[j]@),
        decreases state.probe_paths@.len() - i,
    {
        let get = "GET".to_owned();
        matches.push(HttpRouteMatch {
            path: Some(PathMatch::Exact(state.probe_paths[i].clone())),
            headers: Vec::new(),
            query_params: Vec::new(),
            method: Some(get),
        });
        i = i + 1;
    }
    let mut rules: Vec<InboundRouteRule<HttpRouteMatch>> = Vec::new();
    rules.push(InboundRouteRule { matches, filters: Vec::new() });
    let mut authorizations: Vec<(String, ClientAuthorization)> = Vec::new();
    authorizations.push((
        "probe".to_owned(),
        ClientAuthorization { networks: copy_texts(probe_networks), authentication: ClientAuthentication::Unauthenticated },
    ));
    InboundRoute { hostnames: Vec::new(), rules, authorizations, creation_timestamp: None }
}

} // verus!
