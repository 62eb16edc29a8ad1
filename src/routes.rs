//! The route adapter: turns route resources into route bindings.
use vstd::prelude::*;
use crate::checks::{first_error, flat, lemma_first_error_step, lemma_whole_suffix};
use crate::gateway;
use crate::http::{
    header_matches, headers_converted, host_matches, hostnames_converted, hostnames_error, header_modifier, header_modifier_check,
    header_modifier_converted, headers_error, method, method_check, opt_text, opt_text_eq,
    path_check, path_converted, path_match, query_param_converted, query_param_matches,
    redirect_check, redirect_converted, req_redirect,
};
use crate::model::{
    Filter, GrpcMethodMatch, HostMatch, GrpcRouteMatch, HttpRouteMatch, InboundRoute,
    InboundRouteRule, QueryParamMatch,
    InvalidParentRef, RouteError, UnsupportedFilter,
};
use crate::policy;
use crate::text::{eq_ignore_ascii_case, eq_ignore_case_spec, str_eq};

verus! {

/// The identity that this controller writes into the statuses it owns.
pub const POLICY_CONTROLLER_NAME: &'static str = "linkerd.io/policy-controller";

/// The resource a route attaches to: an exposure declaration, by name.
#[derive(Clone, Debug)]
pub enum ParentRef {
    Server(String),
}

impl View for ParentRef {
    type V = Seq<char>;

    open spec fn view(&self) -> Seq<char> {
        match self {
            ParentRef::Server(n) => n@,
        }
    }
}

#[derive(Clone, Copy, Debug, PartialEq, Eq, Structural)]
pub enum ConditionType {
    Accepted,
}

#[derive(Clone, Copy, Debug, PartialEq, Eq, Structural)]
pub struct Condition {
    pub type_: ConditionType,
    pub status: bool,
}

/// The conditions recorded for one parent of a route.
#[derive(Clone, Debug)]
pub struct Status {
    pub parent: ParentRef,
    pub conditions: Vec<Condition>,
}

impl View for Status {
    type V = (Seq<char>, Seq<Condition>);

    open spec fn view(&self) -> (Seq<char>, Seq<Condition>) {
        (self.parent@, self.conditions@)
    }
}

impl ConditionType {
    /// The name of the condition type as the cluster API writes it.
    pub fn to_string(&self) -> (r: String)
        ensures
            r@ == "Accepted"@,
    {
        "Accepted".to_owned()
    }
}

/// The API group a reference names; an absent or empty group is the core group.
pub open spec fn group_of(p: gateway::ParentReference) -> Seq<char> {
    match p.group {
        Some(g) => if g@.len() == 0 { "core"@ } else { g@ },
        None => "core"@,
    }
}

/// The reference targets an exposure declaration: kind `Server` of the policy
/// group, both compared without regard to ASCII case.
pub open spec fn targets_server(p: gateway::ParentReference) -> bool {
    &&& p.kind is Some
    &&& eq_ignore_case_spec(p.kind->0@, "Server"@)
    &&& eq_ignore_case_spec(group_of(p), "policy.linkerd.io"@)
}

/// What one parent reference contributes: nothing when it names no exposure
/// declaration, else the declaration's name or why the reference is invalid.
pub open spec fn parent_ref_spec(route_ns: Option<Seq<char>>, p: gateway::ParentReference) -> Option<Result<Seq<char>, InvalidParentRef>> {
    if !targets_server(p) || p.name@.len() == 0 {
        None
    } else if p.namespace is Some && (route_ns is None || p.namespace->0@ != route_ns->0) {
        Some(Err(InvalidParentRef::ServerInAnotherNamespace))
    } else if p.port is Some {
        Some(Err(InvalidParentRef::SpecifiesPort))
    } else if p.section_name is Some {
        Some(Err(InvalidParentRef::SpecifiesSection))
    } else {
        Some(Ok(p.name@))
    }
}

/// The parents collected from a list of references: the first invalid
/// reference fails the whole list.
pub open spec fn parents_spec(route_ns: Option<Seq<char>>, s: Seq<gateway::ParentReference>) -> Result<Seq<Seq<char>>, InvalidParentRef>
    decreases s.len(),
{
    if s.len() == 0 {
        Ok(Seq::empty())
    } else {
        match parents_spec(route_ns, s.drop_last()) {
            Err(e) => Err(e),
            Ok(v) => match parent_ref_spec(route_ns, s.last()) {
                None => Ok(v),
                Some(Err(e)) => Err(e),
                Some(Ok(n)) => Ok(v.push(n)),
            },
        }
    }
}

proof fn lemma_parents_err_extends(route_ns: Option<Seq<char>>, s: Seq<gateway::ParentReference>, i: int)
    requires
        0 <= i <= s.len(),
        parents_spec(route_ns, s.subrange(0, i)) is Err,
    ensures
        parents_spec(route_ns, s) == parents_spec(route_ns, s.subrange(0, i)),
    decreases s.len() - i,
{
    if i == s.len() {
        assert(s.subrange(0, i) =~= s);
    } else {
        assert(s.subrange(0, i + 1).drop_last() =~= s.subrange(0, i));
        lemma_parents_err_extends(route_ns, s, i + 1);
    }
}

pub open spec fn opt_view(o: Option<&str>) -> Option<Seq<char>> {
    match o {
        Some(s) => Some(s@),
        None => None,
    }
}

impl ParentRef {
    fn from_parent_ref(route_ns: Option<&str>, parent_ref: &gateway::ParentReference) -> (r: Option<Result<ParentRef, InvalidParentRef>>)
        ensures
            match (r, parent_ref_spec(opt_view(route_ns), *parent_ref)) {
                (None, None) => true,
                (Some(Err(e)), Some(Err(f))) => e == f,
                (Some(Ok(p)), Some(Ok(n))) => p@ == n,
                _ => false,
            },
    {
        let kind_ok = match &parent_ref.kind {
            Some(k) => eq_ignore_ascii_case(k.as_str(), "Server"),
            None => false,
        };
        let group_ok = match &parent_ref.group {
            Some(g) => if g.as_str().unicode_len() == 0 {
                eq_ignore_ascii_case("core", "policy.linkerd.io")
            } else {
                eq_ignore_ascii_case(g.as_str(), "policy.linkerd.io")
            },
            None => eq_ignore_ascii_case("core", "policy.linkerd.io"),
        };
        if !(kind_ok && group_ok) || parent_ref.name.as_str().unicode_len() == 0 {
            return None;
        }
        match &parent_ref.namespace {
            Some(ns) => {
                let same = match route_ns {
                    Some(rns) => str_eq(ns.as_str(), rns),
                    None => false,
                };
                if !same {
                    return Some(Err(InvalidParentRef::ServerInAnotherNamespace));
                }
            },
            None => {},
        }
        if parent_ref.port.is_some() {
            return Some(Err(InvalidParentRef::SpecifiesPort));
        }
        if parent_ref.section_name.is_some() {
            return Some(Err(InvalidParentRef::SpecifiesSection));
        }
        Some(Ok(ParentRef::Server(parent_ref.name.clone())))
    }

    /// Collects the exposure declarations that a route's parent references
    /// name, skipping references to other kinds; the first invalid reference
    /// fails the whole list.
    pub fn collect_from(route_ns: Option<&str>, parent_refs: &Option<Vec<gateway::ParentReference>>) -> (r: Result<Vec<ParentRef>, InvalidParentRef>)
        ensures
            match r {
                Ok(v) => parents_spec(opt_view(route_ns), flat(*parent_refs)) == Ok::<Seq<Seq<char>>, InvalidParentRef>(v@.map_values(|p: ParentRef| p@)),
                Err(e) => parents_spec(opt_view(route_ns), flat(*parent_refs)) == Err::<Seq<Seq<char>>, InvalidParentRef>(e),
            },
    {
        let ghost ns = opt_view(route_ns);
        let ghost s = flat(*parent_refs);
        let mut out: Vec<ParentRef> = Vec::new();
        assert(s.subrange(0, 0) =~= Seq::<gateway::ParentReference>::empty());
        assert(out@.map_values(|p: ParentRef| p@) =~= Seq::<Seq<char>>::empty());
        match parent_refs {
            Some(items) => {
                let mut i: usize = 0;
                while i < items.len()
                    invariant
                        items@ == s,
                        s == flat(*parent_refs),
                        ns == opt_view(route_ns),
                        i <= s.len(),
                        parents_spec(ns, s.subrange(0, i as int)) == Ok::<Seq<Seq<char>>, InvalidParentRef>(out@.map_values(|p: ParentRef| p@)),
                    decreases s.len() - i,
                {
                    assert(s.subrange(0, i + 1).drop_last() =~= s.subrange(0, i as int));
                    match Self::from_parent_ref(route_ns, &items[i]) {
                        None => {},
                        Some(Err(e)) => {
                            proof {
                                assert(s.subrange(0, i + 1).last() == s[i as int]);
                                assert(parents_spec(ns, s.subrange(0, i + 1)) == Err::<Seq<Seq<char>>, InvalidParentRef>(e));
                                lemma_parents_err_extends(ns, s, i + 1);
                            }
                            return Err(e);
                        },
                        Some(Ok(p)) => {
                            let ghost before = out@;
                            out.push(p);
                            assert(out@.map_values(|p: ParentRef| p@) =~= before.map_values(|p: ParentRef| p@).push(p@));
                        },
                    }
                    i = i + 1;
                }
                assert(s.subrange(0, s.len() as int) =~= s);
            },
            None => {},
        }
        Ok(out)
    }
}

/// The condition that one persisted condition stands for, if this controller
/// understands it: type `Accepted`, status `True` or `False`.
pub open spec fn condition_spec(c: gateway::Condition) -> Option<Condition> {
    if c.type_@ != "Accepted"@ {
        None
    } else if c.status@ == "True"@ {
        Some(Condition { type_: ConditionType::Accepted, status: true })
    } else if c.status@ == "False"@ {
        Some(Condition { type_: ConditionType::Accepted, status: false })
    } else {
        None
    }
}

/// The understood conditions of a list, in order.
pub open spec fn conditions_spec(s: Seq<gateway::Condition>) -> Seq<Condition>
    decreases s.len(),
{
    if s.len() == 0 {
        Seq::empty()
    } else {
        let v = conditions_spec(s.drop_last());
        match condition_spec(s.last()) {
            Some(c) => v.push(c),
            None => v,
        }
    }
}

/// The status record kept of one persisted parent status: only those whose
/// parent is of kind `Server`.
pub open spec fn parent_status_spec(st: gateway::RouteParentStatus) -> Option<(Seq<char>, Seq<Condition>)> {
    if st.parent_ref.kind is Some && st.parent_ref.kind->0@ == "Server"@ {
        Some((st.parent_ref.name@, conditions_spec(st.conditions@)))
    } else {
        None
    }
}

/// The status records kept of a route's persisted statuses: those written by
/// this controller for exposure declarations, in order.
pub open spec fn statuses_spec(s: Seq<gateway::RouteParentStatus>) -> Seq<(Seq<char>, Seq<Condition>)>
    decreases s.len(),
{
    if s.len() == 0 {
        Seq::empty()
    } else {
        let v = statuses_spec(s.drop_last());
        if s.last().controller_name@ == POLICY_CONTROLLER_NAME@ && parent_status_spec(s.last()) is Some {
            v.push(parent_status_spec(s.last())->0)
        } else {
            v
        }
    }
}

impl Status {
    fn from_parent_status(status: &gateway::RouteParentStatus) -> (r: Option<Status>)
        ensures
            match (r, parent_status_spec(*status)) {
                (Some(st), Some(v)) => st@ == v,
                (None, None) => true,
                _ => false,
            },
    {
        let is_server = match &status.parent_ref.kind {
            Some(k) => str_eq(k.as_str(), "Server"),
            None => false,
        };
        if !is_server {
            return None;
        }
        let ghost s = status.conditions@;
        let mut conditions: Vec<Condition> = Vec::new();
        let mut i: usize = 0;
        assert(s.subrange(0, 0) =~= Seq::<gateway::Condition>::empty());
        while i < status.conditions.len()
            invariant
                s == status.conditions@,
                i <= s.len(),
                conditions@ == conditions_spec(s.subrange(0, i as int)),
            decreases s.len() - i,
        {
            assert(s.subrange(0, i + 1).drop_last() =~= s.subrange(0, i as int));
            let c = &status.conditions[i];
            if str_eq(c.type_.as_str(), "Accepted") {
                if str_eq(c.status.as_str(), "True") {
                    conditions.push(Condition { type_: ConditionType::Accepted, status: true });
                } else if str_eq(c.status.as_str(), "False") {
                    conditions.push(Condition { type_: ConditionType::Accepted, status: false });
                }
            }
            i = i + 1;
        }
        assert(s.subrange(0, s.len() as int) =~= s);
        Some(Status { parent: ParentRef::Server(status.parent_ref.name.clone()), conditions })
    }

    /// The status records of a route: the persisted parent statuses that this
    /// controller wrote for exposure declarations, with the conditions it
    /// understands; the others are dropped one by one.
    pub fn collect_from(status: gateway::RouteStatus) -> (r: Vec<Status>)
        ensures
            r@.map_values(|st: Status| st@) == statuses_spec(status.parents@),
    {
        let ghost s = status.parents@;
        let mut out: Vec<Status> = Vec::new();
        let mut i: usize = 0;
        assert(s.subrange(0, 0) =~= Seq::<gateway::RouteParentStatus>::empty());
        assert(out@.map_values(|st: Status| st@) =~= Seq::<(Seq<char>, Seq<Condition>)>::empty());
        while i < status.parents.len()
            invariant
                s == status.parents@,
                i <= s.len(),
                out@.map_values(|st: Status| st@) == statuses_spec(s.subrange(0, i as int)),
            decreases s.len() - i,
        {
            assert(s.subrange(0, i + 1).drop_last() =~= s.subrange(0, i as int));
            assert(s.subrange(0, i + 1).last() == s[i as int]);
            let p = &status.parents[i];
            if str_eq(p.controller_name.as_str(), POLICY_CONTROLLER_NAME) {
                match Self::from_parent_status(p) {
                    Some(st) => {
                        let ghost before = out@;
                        out.push(st);
                        assert(out@.map_values(|st: Status| st@) =~= before.map_values(|st: Status| st@).push(st@));
                    },
                    None => {},
                }
            }
            i = i + 1;
        }
        assert(s.subrange(0, s.len() as int) =~= s);
        out
    }
}

/// The status record shows the `Accepted` condition with status true.
pub open spec fn shows_accepted(st: (Seq<char>, Seq<Condition>)) -> bool {
    exists|j: int| 0 <= j < st.1.len() && (#[trigger] st.1[j]).type_ == ConditionType::Accepted && st.1[j].status
}

/// A route in its canonical form, with the exposure declarations it names and
/// the statuses persisted for them.
#[derive(Clone, Debug)]
pub struct RouteBinding<MatchType> {
    pub parents: Vec<ParentRef>,
    pub route: InboundRoute<MatchType>,
    pub statuses: Vec<Status>,
}

/// A route binding of one of the two route kinds.
#[derive(Clone, Debug)]
pub enum TypedRouteBinding {
    Http(RouteBinding<HttpRouteMatch>),
    Grpc(RouteBinding<GrpcRouteMatch>),
}

impl<MatchType> RouteBinding<MatchType> {
    /// Some parent reference names the exposure declaration.
    pub open spec fn selects_spec(&self, name: Seq<char>) -> bool {
        exists|i: int| 0 <= i < self.parents@.len() && (#[trigger] self.parents@[i])@ == name
    }

    /// Some status record for the exposure declaration shows acceptance.
    pub open spec fn accepted_spec(&self, name: Seq<char>) -> bool {
        exists|i: int| 0 <= i < self.statuses@.len() && (#[trigger] self.statuses@[i]).parent@ == name
            && shows_accepted(self.statuses@[i]@)
    }

    /// Whether some parent reference names the exposure declaration.
    pub fn selects_server(&self, name: &str) -> (r: bool)
        ensures
            r == self.selects_spec(name@),
    {
        let mut i: usize = 0;
        while i < self.parents.len()
            invariant
                i <= self.parents@.len(),
                forall|j: int| 0 <= j < i ==> (#[trigger] self.parents@[j])@ != name@,
            decreases self.parents@.len() - i,
        {
            match &self.parents[i] {
                ParentRef::Server(n) => {
                    if str_eq(n.as_str(), name) {
                        return true;
                    }
                },
            }
            i = i + 1;
        }
        false
    }

    /// Whether a status record for the exposure declaration shows the
    /// `Accepted` condition with status true.
    pub fn accepted_by_server(&self, name: &str) -> (r: bool)
        ensures
            r == self.accepted_spec(name@),
    {
        let mut i: usize = 0;
        while i < self.statuses.len()
            invariant
                i <= self.statuses@.len(),
                forall|j: int| 0 <= j < i ==> !((#[trigger] self.statuses@[j]).parent@ == name@
                    && shows_accepted(self.statuses@[j]@)),
            decreases self.statuses@.len() - i,
        {
            let st = &self.statuses[i];
            let same = match &st.parent {
                ParentRef::Server(n) => str_eq(n.as_str(), name),
            };
            if same {
                let mut j: usize = 0;
                while j < st.conditions.len()
                    invariant
                        i < self.statuses@.len(),
                        *st == self.statuses@[i as int],
                        st.parent@ == name@,
                        j <= st.conditions@.len(),
                        forall|k: int| 0 <= k < j ==> !((#[trigger] st.conditions@[k]).type_ == ConditionType::Accepted && st.conditions@[k].status),
                    decreases st.conditions@.len() - j,
                {
                    let c = st.conditions[j];
                    if c.status && match c.type_ { ConditionType::Accepted => true } {
                        assert(shows_accepted(st@));
                        assert(self.statuses@[i as int].parent@ == name@ && shows_accepted(self.statuses@[i as int]@));
                        return true;
                    }
                    j = j + 1;
                }
            }
            i = i + 1;
        }
        false
    }
}

impl From<RouteBinding<HttpRouteMatch>> for TypedRouteBinding {
    fn from(binding: RouteBinding<HttpRouteMatch>) -> (r: Self) {
        TypedRouteBinding::Http(binding)
    }
}

impl vstd::std_specs::convert::FromSpecImpl<RouteBinding<HttpRouteMatch>> for TypedRouteBinding {
    open spec fn obeys_from_spec() -> bool {
        true
    }

    open spec fn from_spec(binding: RouteBinding<HttpRouteMatch>) -> Self {
        TypedRouteBinding::Http(binding)
    }
}

impl From<RouteBinding<GrpcRouteMatch>> for TypedRouteBinding {
    fn from(binding: RouteBinding<GrpcRouteMatch>) -> (r: Self) {
        TypedRouteBinding::Grpc(binding)
    }
}

impl vstd::std_specs::convert::FromSpecImpl<RouteBinding<GrpcRouteMatch>> for TypedRouteBinding {
    open spec fn obeys_from_spec() -> bool {
        true
    }

    open spec fn from_spec(binding: RouteBinding<GrpcRouteMatch>) -> Self {
        TypedRouteBinding::Grpc(binding)
    }
}

impl TypedRouteBinding {
    pub open spec fn selects_spec(&self, name: Seq<char>) -> bool {
        match self {
            TypedRouteBinding::Http(b) => b.selects_spec(name),
            TypedRouteBinding::Grpc(b) => b.selects_spec(name),
        }
    }

    pub open spec fn accepted_spec(&self, name: Seq<char>) -> bool {
        match self {
            TypedRouteBinding::Http(b) => b.accepted_spec(name),
            TypedRouteBinding::Grpc(b) => b.accepted_spec(name),
        }
    }

    /// The route of an HTTP binding; an RPC-method binding has none.
    pub fn http_route(&self) -> (r: Result<&InboundRoute<HttpRouteMatch>, RouteError>)
        ensures
            match (self, r) {
                (TypedRouteBinding::Http(b), Ok(route)) => *route == b.route,
                (TypedRouteBinding::Grpc(_), Err(e)) => e == RouteError::KindMismatch,
                _ => false,
            },
    {
        match self {
            TypedRouteBinding::Http(b) => Ok(&b.route),
            TypedRouteBinding::Grpc(_) => Err(RouteError::KindMismatch),
        }
    }

    /// The route of an RPC-method binding; an HTTP binding has none.
    pub fn grpc_route(&self) -> (r: Result<&InboundRoute<GrpcRouteMatch>, RouteError>)
        ensures
            match (self, r) {
                (TypedRouteBinding::Grpc(b), Ok(route)) => *route == b.route,
                (TypedRouteBinding::Http(_), Err(e)) => e == RouteError::KindMismatch,
                _ => false,
            },
    {
        match self {
            TypedRouteBinding::Grpc(b) => Ok(&b.route),
            TypedRouteBinding::Http(_) => Err(RouteError::KindMismatch),
        }
    }

    /// Whether some parent reference names the exposure declaration.
    pub fn selects_server(&self, name: &str) -> (r: bool)
        ensures
            r == self.selects_spec(name@),
    {
        match self {
            TypedRouteBinding::Http(b) => b.selects_server(name),
            TypedRouteBinding::Grpc(b) => b.selects_server(name),
        }
    }

    /// Whether a status record for the exposure declaration shows acceptance.
    pub fn accepted_by_server(&self, name: &str) -> (r: bool)
        ensures
            r == self.accepted_spec(name@),
    {
        match self {
            TypedRouteBinding::Http(b) => b.accepted_by_server(name),
            TypedRouteBinding::Grpc(b) => b.accepted_by_server(name),
        }
    }
}

/// What is wrong with an HTTP match, if anything: its path, then its headers,
/// then its method.
pub open spec fn http_match_check(m: gateway::HttpRouteMatch) -> Option<RouteError> {
    if m.path is Some && path_check(m.path->0) is Some {
        path_check(m.path->0)
    } else if headers_error(flat(m.headers)) is Some {
        headers_error(flat(m.headers))
    } else if m.method is Some {
        method_check(m.method->0@)
    } else {
        None
    }
}

/// Each item of the result is the model of the item at its place in the list.
pub open spec fn query_params_converted(s: Seq<gateway::HttpQueryParamMatch>, v: Seq<QueryParamMatch>) -> bool {
    v.len() == s.len() && forall|i: int| 0 <= i < v.len() ==> query_param_converted(s[i], #[trigger] v[i])
}

/// The HTTP match is the model of the resource's match.
pub open spec fn http_match_converted(m: gateway::HttpRouteMatch, r: HttpRouteMatch) -> bool {
    &&& match (m.path, r.path) {
        (Some(p), Some(q)) => path_converted(p, q),
        (None, None) => true,
        _ => false,
    }
    &&& headers_converted(flat(m.headers), r.headers@)
    &&& query_params_converted(flat(m.query_params), r.query_params@)
    &&& opt_text_eq(r.method, m.method)
}

/// What is wrong with an RPC-method match, if anything: only its headers can be.
pub open spec fn grpc_match_check(m: gateway::GrpcRouteMatch) -> Option<RouteError> {
    headers_error(flat(m.headers))
}

/// The RPC-method match is the model of the resource's match; exact and
/// regular-expression method matches both keep the service and method names.
pub open spec fn grpc_match_converted(m: gateway::GrpcRouteMatch, r: GrpcRouteMatch) -> bool {
    &&& headers_converted(flat(m.headers), r.headers@)
    &&& match (m.method, r.method) {
        (Some(gateway::GrpcMethodMatch::Exact { method, service }), Some(g)) => opt_text_eq(g.method, method) && opt_text_eq(g.service, service),
        (Some(gateway::GrpcMethodMatch::RegularExpression { method, service }), Some(g)) => opt_text_eq(g.method, method) && opt_text_eq(g.service, service),
        (None, None) => true,
        _ => false,
    }
}

/// What is wrong with a gateway filter, if anything: mirroring, rewriting and
/// extension references are not supported.
pub open spec fn gateway_filter_check(f: gateway::HttpRouteFilter) -> Option<RouteError> {
    match f {
        gateway::HttpRouteFilter::RequestHeaderModifier { request_header_modifier } => header_modifier_check(request_header_modifier),
        gateway::HttpRouteFilter::ResponseHeaderModifier { response_header_modifier } => header_modifier_check(response_header_modifier),
        gateway::HttpRouteFilter::RequestRedirect { request_redirect } => redirect_check(request_redirect),
        gateway::HttpRouteFilter::RequestMirror { .. } => Some(RouteError::Unsupported(UnsupportedFilter::RequestMirror)),
        gateway::HttpRouteFilter::URLRewrite { .. } => Some(RouteError::Unsupported(UnsupportedFilter::UrlRewrite)),
        gateway::HttpRouteFilter::ExtensionRef { .. } => Some(RouteError::Unsupported(UnsupportedFilter::ExtensionRef)),
    }
}

pub open spec fn gateway_filter_converted(f: gateway::HttpRouteFilter, m: Filter) -> bool {
    match (f, m) {
        (gateway::HttpRouteFilter::RequestHeaderModifier { request_header_modifier }, Filter::RequestHeaderModifier(x)) => header_modifier_converted(request_header_modifier, x),
        (gateway::HttpRouteFilter::ResponseHeaderModifier { response_header_modifier }, Filter::ResponseHeaderModifier(x)) => header_modifier_converted(response_header_modifier, x),
        (gateway::HttpRouteFilter::RequestRedirect { request_redirect }, Filter::RequestRedirect(x)) => redirect_converted(request_redirect, x),
        _ => false,
    }
}

/// What is wrong with a policy filter, if anything.
pub open spec fn policy_filter_check(f: policy::HttpRouteFilter) -> Option<RouteError> {
    match f {
        policy::HttpRouteFilter::RequestHeaderModifier { request_header_modifier } => header_modifier_check(request_header_modifier),
        policy::HttpRouteFilter::ResponseHeaderModifier { response_header_modifier } => header_modifier_check(response_header_modifier),
        policy::HttpRouteFilter::RequestRedirect { request_redirect } => redirect_check(request_redirect),
    }
}

pub open spec fn policy_filter_converted(f: policy::HttpRouteFilter, m: Filter) -> bool {
    match (f, m) {
        (policy::HttpRouteFilter::RequestHeaderModifier { request_header_modifier }, Filter::RequestHeaderModifier(x)) => header_modifier_converted(request_header_modifier, x),
        (policy::HttpRouteFilter::ResponseHeaderModifier { response_header_modifier }, Filter::ResponseHeaderModifier(x)) => header_modifier_converted(response_header_modifier, x),
        (policy::HttpRouteFilter::RequestRedirect { request_redirect }, Filter::RequestRedirect(x)) => redirect_converted(request_redirect, x),
        _ => false,
    }
}

impl<MatchType> RouteBinding<MatchType> {
    /// Converts one HTTP match of a route rule.
    pub fn try_http_match(m: &gateway::HttpRouteMatch) -> (r: Result<HttpRouteMatch, RouteError>)
        ensures
            match r {
                Ok(v) => http_match_check(*m) is None && http_match_converted(*m, v),
                Err(e) => http_match_check(*m) == Some(e),
            },
    {
        let path = match &m.path {
            Some(p) => match path_match(p) {
                Ok(v) => Some(v),
                Err(e) => return Err(e),
            },
            None => None,
        };
        let headers = match header_matches(&m.headers) {
            Ok(v) => v,
            Err(e) => return Err(e),
        };
        let query_params = query_param_matches(&m.query_params);
        let method = match &m.method {
            Some(x) => match method(x) {
                Ok(v) => Some(v),
                Err(e) => return Err(e),
            },
            None => None,
        };
        Ok(HttpRouteMatch { path, headers, query_params, method })
    }

    /// Converts one RPC-method match of a route rule.
    pub fn try_grpc_match(m: &gateway::GrpcRouteMatch) -> (r: Result<GrpcRouteMatch, RouteError>)
        ensures
            match r {
                Ok(v) => grpc_match_check(*m) is None && grpc_match_converted(*m, v),
                Err(e) => grpc_match_check(*m) == Some(e),
            },
    {
        let headers = match header_matches(&m.headers) {
            Ok(v) => v,
            Err(e) => return Err(e),
        };
        let method = match &m.method {
            Some(gateway::GrpcMethodMatch::Exact { method, service }) => Some(GrpcMethodMatch { method: opt_text(method), service: opt_text(service) }),
            Some(gateway::GrpcMethodMatch::RegularExpression { method, service }) => Some(GrpcMethodMatch { method: opt_text(method), service: opt_text(service) }),
            None => None,
        };
        Ok(GrpcRouteMatch { headers, method })
    }

    fn try_gateway_filter(f: &gateway::HttpRouteFilter) -> (r: Result<Filter, RouteError>)
        ensures
            match r {
                Ok(v) => gateway_filter_check(*f) is None && gateway_filter_converted(*f, v),
                Err(e) => gateway_filter_check(*f) == Some(e),
            },
    {
        match f {
            gateway::HttpRouteFilter::RequestHeaderModifier { request_header_modifier } => match header_modifier(request_header_modifier) {
                Ok(x) => Ok(Filter::RequestHeaderModifier(x)),
                Err(e) => Err(e),
            },
            gateway::HttpRouteFilter::ResponseHeaderModifier { response_header_modifier } => match header_modifier(response_header_modifier) {
                Ok(x) => Ok(Filter::ResponseHeaderModifier(x)),
                Err(e) => Err(e),
            },
            gateway::HttpRouteFilter::RequestRedirect { request_redirect } => match req_redirect(request_redirect) {
                Ok(x) => Ok(Filter::RequestRedirect(x)),
                Err(e) => Err(e),
            },
            gateway::HttpRouteFilter::RequestMirror { .. } => Err(RouteError::Unsupported(UnsupportedFilter::RequestMirror)),
            gateway::HttpRouteFilter::URLRewrite { .. } => Err(RouteError::Unsupported(UnsupportedFilter::UrlRewrite)),
            gateway::HttpRouteFilter::ExtensionRef { .. } => Err(RouteError::Unsupported(UnsupportedFilter::ExtensionRef)),
        }
    }

    fn try_policy_filter(f: &policy::HttpRouteFilter) -> (r: Result<Filter, RouteError>)
        ensures
            match r {
                Ok(v) => policy_filter_check(*f) is None && policy_filter_converted(*f, v),
                Err(e) => policy_filter_check(*f) == Some(e),
            },
    {
        match f {
            policy::HttpRouteFilter::RequestHeaderModifier { request_header_modifier } => match header_modifier(request_header_modifier) {
                Ok(x) => Ok(Filter::RequestHeaderModifier(x)),
                Err(e) => Err(e),
            },
            policy::HttpRouteFilter::ResponseHeaderModifier { response_header_modifier } => match header_modifier(response_header_modifier) {
                Ok(x) => Ok(Filter::ResponseHeaderModifier(x)),
                Err(e) => Err(e),
            },
            policy::HttpRouteFilter::RequestRedirect { request_redirect } => match req_redirect(request_redirect) {
                Ok(x) => Ok(Filter::RequestRedirect(x)),
                Err(e) => Err(e),
            },
        }
    }
}

/// The check applied to each item of the list.
pub open spec fn http_matches_check_fn() -> spec_fn(gateway::HttpRouteMatch) -> Option<RouteError> {
    |x: gateway::HttpRouteMatch| http_match_check(x)
}

/// The error of the first malformed item of the list, if any.
pub open spec fn http_matches_error(s: Seq<gateway::HttpRouteMatch>) -> Option<RouteError> {
    first_error(s, http_matches_check_fn())
}

/// Each item of the result is the model of the item at its place in the list.
pub open spec fn http_matches_converted(s: Seq<gateway::HttpRouteMatch>, v: Seq<HttpRouteMatch>) -> bool {
    v.len() == s.len() && forall|i: int| 0 <= i < v.len() ==> http_match_converted(s[i], #[trigger] v[i])
}

fn try_http_matches(o: &Option<Vec<gateway::HttpRouteMatch>>) -> (r: Result<Vec<HttpRouteMatch>, RouteError>)
    ensures
        match r {
            Ok(v) => http_matches_error(flat(*o)) is None && http_matches_converted(flat(*o), v@),
            Err(e) => http_matches_error(flat(*o)) == Some(e),
        },
{
    let mut out: Vec<HttpRouteMatch> = Vec::new();
    match o {
        Some(items) => {
            let ghost s = items@;
            let ghost check = http_matches_check_fn();
            proof { lemma_whole_suffix(s); }
            let mut i: usize = 0;
            while i < items.len()
                invariant
                    items@ == s,
                    s == flat(*o),
                    check == http_matches_check_fn(),
                    i <= s.len(),
                    out@.len() == i,
                    forall|j: int| 0 <= j < i ==> http_match_converted(s[j], #[trigger] out@[j]),
                    http_matches_error(s) == first_error(s.subrange(i as int, s.len() as int), check),
                decreases s.len() - i,
            {
                proof {
                    lemma_first_error_step(s, i as int, check);
                    assert(check(s[i as int]) == http_match_check(s[i as int]));
                }
                match RouteBinding::<HttpRouteMatch>::try_http_match(&items[i]) {
                    Ok(m) => out.push(m),
                    Err(e) => return Err(e),
                }
                i = i + 1;
            }
        },
        None => {},
    }
    Ok(out)
}

/// The check applied to each item of the list.
pub open spec fn grpc_matches_check_fn() -> spec_fn(gateway::GrpcRouteMatch) -> Option<RouteError> {
    |x: gateway::GrpcRouteMatch| grpc_match_check(x)
}

/// The error of the first malformed item of the list, if any.
pub open spec fn grpc_matches_error(s: Seq<gateway::GrpcRouteMatch>) -> Option<RouteError> {
    first_error(s, grpc_matches_check_fn())
}

/// Each item of the result is the model of the item at its place in the list.
pub open spec fn grpc_matches_converted(s: Seq<gateway::GrpcRouteMatch>, v: Seq<GrpcRouteMatch>) -> bool {
    v.len() == s.len() && forall|i: int| 0 <= i < v.len() ==> grpc_match_converted(s[i], #[trigger] v[i])
}

fn try_grpc_matches(o: &Option<Vec<gateway::GrpcRouteMatch>>) -> (r: Result<Vec<GrpcRouteMatch>, RouteError>)
    ensures
        match r {
            Ok(v) => grpc_matches_error(flat(*o)) is None && grpc_matches_converted(flat(*o), v@),
            Err(e) => grpc_matches_error(flat(*o)) == Some(e),
        },
{
    let mut out: Vec<GrpcRouteMatch> = Vec::new();
    match o {
        Some(items) => {
            let ghost s = items@;
            let ghost check = grpc_matches_check_fn();
            proof { lemma_whole_suffix(s); }
            let mut i: usize = 0;
            while i < items.len()
                invariant
                    items@ == s,
                    s == flat(*o),
                    check == grpc_matches_check_fn(),
                    i <= s.len(),
                    out@.len() == i,
                    forall|j: int| 0 <= j < i ==> grpc_match_converted(s[j], #[trigger] out@[j]),
                    grpc_matches_error(s) == first_error(s.subrange(i as int, s.len() as int), check),
                decreases s.len() - i,
            {
                proof {
                    lemma_first_error_step(s, i as int, check);
                    assert(check(s[i as int]) == grpc_match_check(s[i as int]));
                }
                match RouteBinding::<GrpcRouteMatch>::try_grpc_match(&items[i]) {
                    Ok(m) => out.push(m),
                    Err(e) => return Err(e),
                }
                i = i + 1;
            }
        },
        None => {},
    }
    Ok(out)
}

/// The check applied to each item of the list.
pub open spec fn gateway_filters_check_fn() -> spec_fn(gateway::HttpRouteFilter) -> Option<RouteError> {
    |x: gateway::HttpRouteFilter| gateway_filter_check(x)
}

/// The error of the first malformed item of the list, if any.
pub open spec fn gateway_filters_error(s: Seq<gateway::HttpRouteFilter>) -> Option<RouteError> {
    first_error(s, gateway_filters_check_fn())
}

/// Each item of the result is the model of the item at its place in the list.
pub open spec fn gateway_filters_converted(s: Seq<gateway::HttpRouteFilter>, v: Seq<Filter>) -> bool {
    v.len() == s.len() && forall|i: int| 0 <= i < v.len() ==> gateway_filter_converted(s[i], #[trigger] v[i])
}

fn try_gateway_filters(o: &Option<Vec<gateway::HttpRouteFilter>>) -> (r: Result<Vec<Filter>, RouteError>)
    ensures
        match r {
            Ok(v) => gateway_filters_error(flat(*o)) is None && gateway_filters_converted(flat(*o), v@),
            Err(e) => gateway_filters_error(flat(*o)) == Some(e),
        },
{
    let mut out: Vec<Filter> = Vec::new();
    match o {
        Some(items) => {
            let ghost s = items@;
            let ghost check = gateway_filters_check_fn();
            proof { lemma_whole_suffix(s); }
            let mut i: usize = 0;
            while i < items.len()
                invariant
                    items@ == s,
                    s == flat(*o),
                    check == gateway_filters_check_fn(),
                    i <= s.len(),
                    out@.len() == i,
                    forall|j: int| 0 <= j < i ==> gateway_filter_converted(s[j], #[trigger] out@[j]),
                    gateway_filters_error(s) == first_error(s.subrange(i as int, s.len() as int), check),
                decreases s.len() - i,
            {
                proof {
                    lemma_first_error_step(s, i as int, check);
                    assert(check(s[i as int]) == gateway_filter_check(s[i as int]));
                }
                match RouteBinding::<HttpRouteMatch>::try_gateway_filter(&items[i]) {
                    Ok(m) => out.push(m),
                    Err(e) => return Err(e),
                }
                i = i + 1;
            }
        },
        None => {},
    }
    Ok(out)
}

/// The check applied to each item of the list.
pub open spec fn policy_filters_check_fn() -> spec_fn(policy::HttpRouteFilter) -> Option<RouteError> {
    |x: policy::HttpRouteFilter| policy_filter_check(x)
}

/// The error of the first malformed item of the list, if any.
pub open spec fn policy_filters_error(s: Seq<policy::HttpRouteFilter>) -> Option<RouteError> {
    first_error(s, policy_filters_check_fn())
}

/// Each item of the result is the model of the item at its place in the list.
pub open spec fn policy_filters_converted(s: Seq<policy::HttpRouteFilter>, v: Seq<Filter>) -> bool {
    v.len() == s.len() && forall|i: int| 0 <= i < v.len() ==> policy_filter_converted(s[i], #[trigger] v[i])
}

fn try_policy_filters(o: &Option<Vec<policy::HttpRouteFilter>>) -> (r: Result<Vec<Filter>, RouteError>)
    ensures
        match r {
            Ok(v) => policy_filters_error(flat(*o)) is None && policy_filters_converted(flat(*o), v@),
            Err(e) => policy_filters_error(flat(*o)) == Some(e),
        },
{
    let mut out: Vec<Filter> = Vec::new();
    match o {
        Some(items) => {
            let ghost s = items@;
            let ghost check = policy_filters_check_fn();
            proof { lemma_whole_suffix(s); }
            let mut i: usize = 0;
            while i < items.len()
                invariant
                    items@ == s,
                    s == flat(*o),
                    check == policy_filters_check_fn(),
                    i <= s.len(),
                    out@.len() == i,
                    forall|j: int| 0 <= j < i ==> policy_filter_converted(s[j], #[trigger] out@[j]),
                    policy_filters_error(s) == first_error(s.subrange(i as int, s.len() as int), check),
                decreases s.len() - i,
            {
                proof {
                    lemma_first_error_step(s, i as int, check);
                    assert(check(s[i as int]) == policy_filter_check(s[i as int]));
                }
                match RouteBinding::<HttpRouteMatch>::try_policy_filter(&items[i]) {
                    Ok(m) => out.push(m),
                    Err(e) => return Err(e),
                }
                i = i + 1;
            }
        },
        None => {},
    }
    Ok(out)
}

pub open spec fn http_rule_check(r: gateway::HttpRouteRule) -> Option<RouteError> {
    if http_matches_error(flat(r.matches)) is Some {
        http_matches_error(flat(r.matches))
    } else {
        gateway_filters_error(flat(r.filters))
    }
}

pub open spec fn http_rule_converted(r: gateway::HttpRouteRule, m: InboundRouteRule<HttpRouteMatch>) -> bool {
    http_matches_converted(flat(r.matches), m.matches@) && gateway_filters_converted(flat(r.filters), m.filters@)
}

pub open spec fn grpc_rule_check(r: gateway::GrpcRouteRule) -> Option<RouteError> {
    if grpc_matches_error(flat(r.matches)) is Some {
        grpc_matches_error(flat(r.matches))
    } else {
        gateway_filters_error(flat(r.filters))
    }
}

pub open spec fn grpc_rule_converted(r: gateway::GrpcRouteRule, m: InboundRouteRule<GrpcRouteMatch>) -> bool {
    grpc_matches_converted(flat(r.matches), m.matches@) && gateway_filters_converted(flat(r.filters), m.filters@)
}

pub open spec fn policy_rule_check(r: policy::HttpRouteRule) -> Option<RouteError> {
    if http_matches_error(flat(r.matches)) is Some {
        http_matches_error(flat(r.matches))
    } else {
        policy_filters_error(flat(r.filters))
    }
}

pub open spec fn policy_rule_converted(r: policy::HttpRouteRule, m: InboundRouteRule<HttpRouteMatch>) -> bool {
    http_matches_converted(flat(r.matches), m.matches@) && policy_filters_converted(flat(r.filters), m.filters@)
}

fn try_http_rule(r: &gateway::HttpRouteRule) -> (res: Result<InboundRouteRule<HttpRouteMatch>, RouteError>)
    ensures
        match res {
            Ok(m) => http_rule_check(*r) is None && http_rule_converted(*r, m),
            Err(e) => http_rule_check(*r) == Some(e),
        },
{
    let matches = match try_http_matches(&r.matches) {
        Ok(v) => v,
        Err(e) => return Err(e),
    };
    let filters = match try_gateway_filters(&r.filters) {
        Ok(v) => v,
        Err(e) => return Err(e),
    };
    Ok(InboundRouteRule { matches, filters })
}

fn try_grpc_rule(r: &gateway::GrpcRouteRule) -> (res: Result<InboundRouteRule<GrpcRouteMatch>, RouteError>)
    ensures
        match res {
            Ok(m) => grpc_rule_check(*r) is None && grpc_rule_converted(*r, m),
            Err(e) => grpc_rule_check(*r) == Some(e),
        },
{
    let matches = match try_grpc_matches(&r.matches) {
        Ok(v) => v,
        Err(e) => return Err(e),
    };
    let filters = match try_gateway_filters(&r.filters) {
        Ok(v) => v,
        Err(e) => return Err(e),
    };
    Ok(InboundRouteRule { matches, filters })
}

fn try_policy_rule(r: &policy::HttpRouteRule) -> (res: Result<InboundRouteRule<HttpRouteMatch>, RouteError>)
    ensures
        match res {
            Ok(m) => policy_rule_check(*r) is None && policy_rule_converted(*r, m),
            Err(e) => policy_rule_check(*r) == Some(e),
        },
{
    let matches = match try_http_matches(&r.matches) {
        Ok(v) => v,
        Err(e) => return Err(e),
    };
    let filters = match try_policy_filters(&r.filters) {
        Ok(v) => v,
        Err(e) => return Err(e),
    };
    Ok(InboundRouteRule { matches, filters })
}

/// The check applied to each item of the list.
pub open spec fn http_rules_check_fn() -> spec_fn(gateway::HttpRouteRule) -> Option<RouteError> {
    |x: gateway::HttpRouteRule| http_rule_check(x)
}

/// The error of the first malformed item of the list, if any.
pub open spec fn http_rules_error(s: Seq<gateway::HttpRouteRule>) -> Option<RouteError> {
    first_error(s, http_rules_check_fn())
}

/// Each item of the result is the model of the item at its place in the list.
pub open spec fn http_rules_converted(s: Seq<gateway::HttpRouteRule>, v: Seq<InboundRouteRule<HttpRouteMatch>>) -> bool {
    v.len() == s.len() && forall|i: int| 0 <= i < v.len() ==> http_rule_converted(s[i], #[trigger] v[i])
}

fn try_http_rules(o: &Option<Vec<gateway::HttpRouteRule>>) -> (r: Result<Vec<InboundRouteRule<HttpRouteMatch>>, RouteError>)
    ensures
        match r {
            Ok(v) => http_rules_error(flat(*o)) is None && http_rules_converted(flat(*o), v@),
            Err(e) => http_rules_error(flat(*o)) == Some(e),
        },
{
    let mut out: Vec<InboundRouteRule<HttpRouteMatch>> = Vec::new();
    match o {
        Some(items) => {
            let ghost s = items@;
            let ghost check = http_rules_check_fn();
            proof { lemma_whole_suffix(s); }
            let mut i: usize = 0;
            while i < items.len()
                invariant
                    items@ == s,
                    s == flat(*o),
                    check == http_rules_check_fn(),
                    i <= s.len(),
                    out@.len() == i,
                    forall|j: int| 0 <= j < i ==> http_rule_converted(s[j], #[trigger] out@[j]),
                    http_rules_error(s) == first_error(s.subrange(i as int, s.len() as int), check),
                decreases s.len() - i,
            {
                proof {
                    lemma_first_error_step(s, i as int, check);
                    assert(check(s[i as int]) == http_rule_check(s[i as int]));
                }
                match try_http_rule(&items[i]) {
                    Ok(m) => out.push(m),
                    Err(e) => return Err(e),
                }
                i = i + 1;
            }
        },
        None => {},
    }
    Ok(out)
}

/// The check applied to each item of the list.
pub open spec fn grpc_rules_check_fn() -> spec_fn(gateway::GrpcRouteRule) -> Option<RouteError> {
    |x: gateway::GrpcRouteRule| grpc_rule_check(x)
}

/// The error of the first malformed item of the list, if any.
pub open spec fn grpc_rules_error(s: Seq<gateway::GrpcRouteRule>) -> Option<RouteError> {
    first_error(s, grpc_rules_check_fn())
}

/// Each item of the result is the model of the item at its place in the list.
pub open spec fn grpc_rules_converted(s: Seq<gateway::GrpcRouteRule>, v: Seq<InboundRouteRule<GrpcRouteMatch>>) -> bool {
    v.len() == s.len() && forall|i: int| 0 <= i < v.len() ==> grpc_rule_converted(s[i], #[trigger] v[i])
}

fn try_grpc_rules(o: &Option<Vec<gateway::GrpcRouteRule>>) -> (r: Result<Vec<InboundRouteRule<GrpcRouteMatch>>, RouteError>)
    ensures
        match r {
            Ok(v) => grpc_rules_error(flat(*o)) is None && grpc_rules_converted(flat(*o), v@),
            Err(e) => grpc_rules_error(flat(*o)) == Some(e),
        },
{
    let mut out: Vec<InboundRouteRule<GrpcRouteMatch>> = Vec::new();
    match o {
        Some(items) => {
            let ghost s = items@;
            let ghost check = grpc_rules_check_fn();
            proof { lemma_whole_suffix(s); }
            let mut i: usize = 0;
            while i < items.len()
                invariant
                    items@ == s,
                    s == flat(*o),
                    check == grpc_rules_check_fn(),
                    i <= s.len(),
                    out@.len() == i,
                    forall|j: int| 0 <= j < i ==> grpc_rule_converted(s[j], #[trigger] out@[j]),
                    grpc_rules_error(s) == first_error(s.subrange(i as int, s.len() as int), check),
                decreases s.len() - i,
            {
                proof {
                    lemma_first_error_step(s, i as int, check);
                    assert(check(s[i as int]) == grpc_rule_check(s[i as int]));
                }
                match try_grpc_rule(&items[i]) {
                    Ok(m) => out.push(m),
                    Err(e) => return Err(e),
                }
                i = i + 1;
            }
        },
        None => {},
    }
    Ok(out)
}

/// The check applied to each item of the list.
pub open spec fn policy_rules_check_fn() -> spec_fn(policy::HttpRouteRule) -> Option<RouteError> {
    |x: policy::HttpRouteRule| policy_rule_check(x)
}

/// The error of the first malformed item of the list, if any.
pub open spec fn policy_rules_error(s: Seq<policy::HttpRouteRule>) -> Option<RouteError> {
    first_error(s, policy_rules_check_fn())
}

/// Each item of the result is the model of the item at its place in the list.
pub open spec fn policy_rules_converted(s: Seq<policy::HttpRouteRule>, v: Seq<InboundRouteRule<HttpRouteMatch>>) -> bool {
    v.len() == s.len() && forall|i: int| 0 <= i < v.len() ==> policy_rule_converted(s[i], #[trigger] v[i])
}

fn try_policy_rules(o: &Option<Vec<policy::HttpRouteRule>>) -> (r: Result<Vec<InboundRouteRule<HttpRouteMatch>>, RouteError>)
    ensures
        match r {
            Ok(v) => policy_rules_error(flat(*o)) is None && policy_rules_converted(flat(*o), v@),
            Err(e) => policy_rules_error(flat(*o)) == Some(e),
        },
{
    let mut out: Vec<InboundRouteRule<HttpRouteMatch>> = Vec::new();
    match o {
        Some(items) => {
            let ghost s = items@;
            let ghost check = policy_rules_check_fn();
            proof { lemma_whole_suffix(s); }
            let mut i: usize = 0;
            while i < items.len()
                invariant
                    items@ == s,
                    s == flat(*o),
                    check == policy_rules_check_fn(),
                    i <= s.len(),
                    out@.len() == i,
                    forall|j: int| 0 <= j < i ==> policy_rule_converted(s[j], #[trigger] out@[j]),
                    policy_rules_error(s) == first_error(s.subrange(i as int, s.len() as int), check),
                decreases s.len() - i,
            {
                proof {
                    lemma_first_error_step(s, i as int, check);
                    assert(check(s[i as int]) == policy_rule_check(s[i as int]));
                }
                match try_policy_rule(&items[i]) {
                    Ok(m) => out.push(m),
                    Err(e) => return Err(e),
                }
                i = i + 1;
            }
        },
        None => {},
    }
    Ok(out)
}

pub open spec fn opt_string_view(o: Option<String>) -> Option<Seq<char>> {
    match o {
        Some(s) => Some(s@),
        None => None,
    }
}

/// What is wrong with the parts that all route resources share, if anything:
/// their parent references, then their host names.
pub open spec fn common_check(meta: gateway::ObjectMeta, parent_refs: Option<Vec<gateway::ParentReference>>, hostnames: Option<Vec<String>>) -> Option<RouteError> {
    match parents_spec(opt_string_view(meta.namespace), flat(parent_refs)) {
        Err(e) => Some(RouteError::InvalidParent(e)),
        Ok(_) => hostnames_error(flat(hostnames)),
    }
}

/// The status records of an optional status subresource.
pub open spec fn route_statuses_spec(status: Option<gateway::RouteStatus>) -> Seq<(Seq<char>, Seq<Condition>)> {
    match status {
        Some(st) => statuses_spec(st.parents@),
        None => Seq::empty(),
    }
}

/// The binding holds the parents, host names, timestamp and status records of
/// the resource, and no authorizations.
pub open spec fn common_converted<M>(
    b: RouteBinding<M>,
    meta: gateway::ObjectMeta,
    parent_refs: Option<Vec<gateway::ParentReference>>,
    hostnames: Option<Vec<String>>,
    status: Option<gateway::RouteStatus>,
) -> bool {
    &&& parents_spec(opt_string_view(meta.namespace), flat(parent_refs)) == Ok::<Seq<Seq<char>>, InvalidParentRef>(b.parents@.map_values(|p: ParentRef| p@))
    &&& hostnames_converted(flat(hostnames), b.route.hostnames@)
    &&& b.route.authorizations@.len() == 0
    &&& b.route.creation_timestamp == meta.creation_timestamp
    &&& b.statuses@.map_values(|st: Status| st@) == route_statuses_spec(status)
}

fn common_parts(meta: &gateway::ObjectMeta, parent_refs: &Option<Vec<gateway::ParentReference>>, hostnames: &Option<Vec<String>>) -> (r: Result<(Vec<ParentRef>, Vec<HostMatch>), RouteError>)
    ensures
        match r {
            Ok((p, h)) => common_check(*meta, *parent_refs, *hostnames) is None
                && parents_spec(opt_string_view(meta.namespace), flat(*parent_refs)) == Ok::<Seq<Seq<char>>, InvalidParentRef>(p@.map_values(|p: ParentRef| p@))
                && hostnames_converted(flat(*hostnames), h@),
            Err(e) => common_check(*meta, *parent_refs, *hostnames) == Some(e),
        },
{
    let ns: Option<&str> = match &meta.namespace {
        Some(n) => Some(n.as_str()),
        None => None,
    };
    let parents = match ParentRef::collect_from(ns, parent_refs) {
        Ok(v) => v,
        Err(e) => return Err(RouteError::InvalidParent(e)),
    };
    let hosts = match host_matches(hostnames) {
        Ok(v) => v,
        Err(e) => return Err(e),
    };
    Ok((parents, hosts))
}

fn statuses_of(status: Option<gateway::RouteStatus>) -> (r: Vec<Status>)
    ensures
        r@.map_values(|st: Status| st@) == route_statuses_spec(status),
{
    match status {
        Some(st) => Status::collect_from(st),
        None => {
            let v: Vec<Status> = Vec::new();
            assert(v@.map_values(|st: Status| st@) =~= Seq::<(Seq<char>, Seq<Condition>)>::empty());
            v
        },
    }
}

/// What is wrong with an HTTP route of the gateway family, if anything.
pub open spec fn http_route_check(route: gateway::HttpRoute) -> Option<RouteError> {
    if common_check(route.metadata, route.parent_refs, route.hostnames) is Some {
        common_check(route.metadata, route.parent_refs, route.hostnames)
    } else {
        http_rules_error(flat(route.rules))
    }
}

/// What is wrong with an RPC-method route, if anything.
pub open spec fn grpc_route_check(route: gateway::GrpcRoute) -> Option<RouteError> {
    if common_check(route.metadata, route.parent_refs, route.hostnames) is Some {
        common_check(route.metadata, route.parent_refs, route.hostnames)
    } else {
        grpc_rules_error(flat(route.rules))
    }
}

/// What is wrong with an HTTP route of the policy family, if anything.
pub open spec fn policy_route_check(route: policy::HttpRoute) -> Option<RouteError> {
    if common_check(route.metadata, route.parent_refs, route.hostnames) is Some {
        common_check(route.metadata, route.parent_refs, route.hostnames)
    } else {
        policy_rules_error(flat(route.rules))
    }
}

impl RouteBinding<HttpRouteMatch> {
    /// Converts an HTTP route of the gateway family; the first malformed part
    /// fails the whole resource.
    pub fn try_from_http_route(route: gateway::HttpRoute) -> (r: Result<Self, RouteError>)
        ensures
            match r {
                Ok(b) => http_route_check(route) is None
                    && common_converted(b, route.metadata, route.parent_refs, route.hostnames, route.status)
                    && http_rules_converted(flat(route.rules), b.route.rules@),
                Err(e) => http_route_check(route) == Some(e),
            },
    {
        let (parents, hostnames) = match common_parts(&route.metadata, &route.parent_refs, &route.hostnames) {
            Ok(v) => v,
            Err(e) => return Err(e),
        };
        let rules = match try_http_rules(&route.rules) {
            Ok(v) => v,
            Err(e) => return Err(e),
        };
        let statuses = statuses_of(route.status);
        Ok(RouteBinding {
            parents,
            route: InboundRoute {
                hostnames,
                rules,
                authorizations: Vec::new(),
                creation_timestamp: route.metadata.creation_timestamp,
            },
            statuses,
        })
    }

    /// Converts an HTTP route of the policy family; the first malformed part
    /// fails the whole resource.
    pub fn try_from_policy_route(route: policy::HttpRoute) -> (r: Result<Self, RouteError>)
        ensures
            match r {
                Ok(b) => policy_route_check(route) is None
                    && common_converted(b, route.metadata, route.parent_refs, route.hostnames, route.status)
                    && policy_rules_converted(flat(route.rules), b.route.rules@),
                Err(e) => policy_route_check(route) == Some(e),
            },
    {
        let (parents, hostnames) = match common_parts(&route.metadata, &route.parent_refs, &route.hostnames) {
            Ok(v) => v,
            Err(e) => return Err(e),
        };
        let rules = match try_policy_rules(&route.rules) {
            Ok(v) => v,
            Err(e) => return Err(e),
        };
        let statuses = statuses_of(route.status);
        Ok(RouteBinding {
            parents,
            route: InboundRoute {
                hostnames,
                rules,
                authorizations: Vec::new(),
                creation_timestamp: route.metadata.creation_timestamp,
            },
            statuses,
        })
    }
}

impl RouteBinding<GrpcRouteMatch> {
    /// Converts an RPC-method route; the first malformed part fails the whole
    /// resource.
    pub fn try_from_grpc_route(route: gateway::GrpcRoute) -> (r: Result<Self, RouteError>)
        ensures
            match r {
                Ok(b) => grpc_route_check(route) is None
                    && common_converted(b, route.metadata, route.parent_refs, route.hostnames, route.status)
                    && grpc_rules_converted(flat(route.rules), b.route.rules@),
                Err(e) => grpc_route_check(route) == Some(e),
            },
    {
        let (parents, hostnames) = match common_parts(&route.metadata, &route.parent_refs, &route.hostnames) {
            Ok(v) => v,
            Err(e) => return Err(e),
        };
        let rules = match try_grpc_rules(&route.rules) {
            Ok(v) => v,
            Err(e) => return Err(e),
        };
        let statuses = statuses_of(route.status);
        Ok(RouteBinding {
            parents,
            route: InboundRoute {
                hostnames,
                rules,
                authorizations: Vec::new(),
                creation_timestamp: route.metadata.creation_timestamp,
            },
            statuses,
        })
    }
}

} // verus!
