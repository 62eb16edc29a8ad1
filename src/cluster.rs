//! The policy indexes of all namespaces, each keyed by its name.
use vstd::prelude::*;
use crate::index::{
    computed_conditions, parents_of, AuthorizationPolicy, InboundServer, Index, IndexError, Server,
    StoredRoute, Subscription, Workload,
};
use crate::model::RouteError;
use crate::routes::{Status, TypedRouteBinding};
use crate::keyed::{keyed, keys_unique, lemma_keyed_index, lemma_keyed_push, lemma_keyed_remove};
use crate::text::str_eq;

verus! {

pub open spec fn namespace_pairs(v: Seq<(String, Index)>) -> Seq<(Seq<char>, Index)> {
    v.map_values(|p: (String, Index)| (p.0@, p.1))
}

impl Index {
    /// Nothing is stored and nobody subscribed.
    pub open spec fn is_blank(&self) -> bool {
        &&& self.server_map().is_empty()
        &&& self.route_map().is_empty()
        &&& self.policy_map().is_empty()
        &&& self.workload_map().is_empty()
        &&& self.endpoints().len() == 0
    }
}

/// One policy index per namespace.
pub struct Cluster {
    namespaces: Vec<(String, Index)>,
}

impl Cluster {
    pub closed spec fn namespace_map(&self) -> Map<Seq<char>, Index> {
        keyed(namespace_pairs(self.namespaces@))
    }

    pub closed spec fn unique(&self) -> bool {
        keys_unique(namespace_pairs(self.namespaces@))
    }

    /// Namespace names are unique and every index is well formed.
    pub open spec fn wf(&self) -> bool {
        &&& self.unique()
        &&& forall|n: Seq<char>| self.namespace_map().contains_key(n) ==> (#[trigger] self.namespace_map()[n]).wf()
    }

    /// The index an operation on the namespace starts from: the stored one,
    /// or a blank one for a namespace not seen yet.
    pub open spec fn found(&self, ns: Seq<char>, idx: Index) -> bool {
        if self.namespace_map().contains_key(ns) {
            idx == self.namespace_map()[ns]
        } else {
            idx.is_blank()
        }
    }

    /// Every namespace but `ns` is as it was.
    pub open spec fn others_unchanged(old: &Cluster, new: &Cluster, ns: Seq<char>) -> bool {
        forall|n: Seq<char>| n != ns ==> {
            &&& (#[trigger] new.namespace_map().contains_key(n)) == old.namespace_map().contains_key(n)
            &&& old.namespace_map().contains_key(n) ==> new.namespace_map()[n] == old.namespace_map()[n]
        }
    }

    /// A cluster with no namespaces.
    pub fn new() -> (r: Cluster)
        ensures
            r.wf(),
            r.namespace_map().is_empty(),
    {
        let r = Cluster { namespaces: Vec::new() };
        assert(r.namespace_map() =~= Map::empty());
        r
    }

    fn find(&self, ns: &str) -> (r: Option<usize>)
        requires
            self.unique(),
        ensures
            match r {
                Some(i) => i < self.namespaces@.len() && self.namespaces@[i as int].0@ == ns@
                    && self.namespace_map().contains_key(ns@) && self.namespace_map()[ns@] == self.namespaces@[i as int].1,
                None => !self.namespace_map().contains_key(ns@),
            },
    {
        let mut i: usize = 0;
        while i < self.namespaces.len()
            invariant
                self.unique(),
                i <= self.namespaces@.len(),
                forall|x: int| 0 <= x < i ==> (#[trigger] self.namespaces@[x]).0@ != ns@,
            decreases self.namespaces@.len() - i,
        {
            if str_eq(self.namespaces[i].0.as_str(), ns) {
                proof {
                    assert(namespace_pairs(self.namespaces@)[i as int] == (self.namespaces@[i as int].0@, self.namespaces@[i as int].1));
                    lemma_keyed_index(namespace_pairs(self.namespaces@), i as int);
                }
                return Some(i);
            }
            i = i + 1;
        }
        proof {
            if self.namespace_map().contains_key(ns@) {
                let x = choose|x: int| 0 <= x < namespace_pairs(self.namespaces@).len() && (#[trigger] namespace_pairs(self.namespaces@)[x]).0 == ns@;
                assert(namespace_pairs(self.namespaces@)[x].0 == self.namespaces@[x].0@);
            }
        }
        None
    }

    fn take(&mut self, ns: &str) -> (r: Index)
        requires
            old(self).wf(),
        ensures
            final(self).wf(),
            final(self).namespace_map() == old(self).namespace_map().remove(ns@),
            old(self).found(ns@, r),
            r.wf(),
    {
        match self.find(ns) {
            Some(i) => {
                let ghost before = self.namespaces@;
                let (_, idx) = self.namespaces.remove(i);
                proof {
                    assert(namespace_pairs(self.namespaces@) =~= namespace_pairs(before).remove(i as int));
                    assert(namespace_pairs(before)[i as int] == (before[i as int].0@, before[i as int].1));
                    lemma_keyed_remove(namespace_pairs(before), i as int);
                    assert forall|n: Seq<char>| self.namespace_map().contains_key(n) implies (#[trigger] self.namespace_map()[n]).wf() by {
                        assert(old(self).namespace_map().contains_key(n));
                    }
                }
                idx
            },
            None => {
                let idx = Index::new();
                proof {
                    assert(old(self).namespace_map().remove(ns@) =~= old(self).namespace_map());
                }
                idx
            },
        }
    }

    fn put(&mut self, ns: &str, idx: Index)
        requires
            old(self).wf(),
            !old(self).namespace_map().contains_key(ns@),
            idx.wf(),
        ensures
            final(self).wf(),
            final(self).namespace_map() == old(self).namespace_map().insert(ns@, idx),
    {
        let ghost before = self.namespaces@;
        let ghost value = idx;
        proof {
            assert(!crate::keyed::has_key(namespace_pairs(before), ns@));
            lemma_keyed_push(namespace_pairs(before), (ns@, value));
        }
        self.namespaces.push((ns.to_owned(), idx));
        assert(namespace_pairs(self.namespaces@) =~= namespace_pairs(before).push((ns@, value)));
        assert forall|n: Seq<char>| self.namespace_map().contains_key(n) implies (#[trigger] self.namespace_map()[n]).wf() by {
            if n != ns@ {
                assert(old(self).namespace_map().contains_key(n));
            }
        }
    }

    /// Stores an exposure declaration in its namespace. Every other namespace is left as it was.
    pub fn apply_server(&mut self, ns: &str, server: Server)
        requires
            old(self).wf(),
        ensures
            final(self).wf(),
            Cluster::others_unchanged(&*old(self), &*final(self), ns@),
            final(self).namespace_map().contains_key(ns@),
            exists|prior: Index| #[trigger] old(self).found(ns@, prior) && {
                let next = final(self).namespace_map()[ns@];
                next.server_map() == prior.server_map().insert(server.name@, server) && next.route_map() == prior.route_map() && next.policy_map() == prior.policy_map() && next.workload_map() == prior.workload_map() && Index::republished(&prior, &next)
            },
    {
        let ghost server_value = server;
        let mut idx = self.take(ns);
        let ghost prior = idx;
        idx.apply_server(server);
        let ghost next = idx;
        self.put(ns, idx);
        assert(old(self).found(ns@, prior));
        assert(self.namespace_map()[ns@] == next);
    }

    /// Removes an exposure declaration from its namespace. Every other namespace is left as it was.
    pub fn delete_server(&mut self, ns: &str, name: &str)
        requires
            old(self).wf(),
        ensures
            final(self).wf(),
            Cluster::others_unchanged(&*old(self), &*final(self), ns@),
            final(self).namespace_map().contains_key(ns@),
            exists|prior: Index| #[trigger] old(self).found(ns@, prior) && {
                let next = final(self).namespace_map()[ns@];
                next.server_map() == prior.server_map().remove(name@) && next.route_map() == prior.route_map() && next.policy_map() == prior.policy_map() && next.workload_map() == prior.workload_map() && Index::republished(&prior, &next)
            },
    {
        let mut idx = self.take(ns);
        let ghost prior = idx;
        idx.delete_server(name);
        let ghost next = idx;
        self.put(ns, idx);
        assert(old(self).found(ns@, prior));
        assert(self.namespace_map()[ns@] == next);
    }

    /// Stores a route in its namespace. Every other namespace is left as it was.
    pub fn apply_route(&mut self, ns: &str, route: StoredRoute)
        requires
            old(self).wf(),
        ensures
            final(self).wf(),
            Cluster::others_unchanged(&*old(self), &*final(self), ns@),
            final(self).namespace_map().contains_key(ns@),
            exists|prior: Index| #[trigger] old(self).found(ns@, prior) && {
                let next = final(self).namespace_map()[ns@];
                next.server_map() == prior.server_map() && next.route_map() == prior.route_map().insert(route.name@, route) && next.policy_map() == prior.policy_map() && next.workload_map() == prior.workload_map() && Index::republished(&prior, &next)
            },
    {
        let ghost route_value = route;
        let mut idx = self.take(ns);
        let ghost prior = idx;
        idx.apply_route(route);
        let ghost next = idx;
        self.put(ns, idx);
        assert(old(self).found(ns@, prior));
        assert(self.namespace_map()[ns@] == next);
    }

    /// Removes a route from its namespace. Every other namespace is left as it was.
    pub fn delete_route(&mut self, ns: &str, name: &str)
        requires
            old(self).wf(),
        ensures
            final(self).wf(),
            Cluster::others_unchanged(&*old(self), &*final(self), ns@),
            final(self).namespace_map().contains_key(ns@),
            exists|prior: Index| #[trigger] old(self).found(ns@, prior) && {
                let next = final(self).namespace_map()[ns@];
                next.server_map() == prior.server_map() && next.route_map() == prior.route_map().remove(name@) && next.policy_map() == prior.policy_map() && next.workload_map() == prior.workload_map() && Index::republished(&prior, &next)
            },
    {
        let mut idx = self.take(ns);
        let ghost prior = idx;
        idx.delete_route(name);
        let ghost next = idx;
        self.put(ns, idx);
        assert(old(self).found(ns@, prior));
        assert(self.namespace_map()[ns@] == next);
    }

    /// Stores an authorization policy in its namespace. Every other namespace is left as it was.
    pub fn apply_policy(&mut self, ns: &str, policy: AuthorizationPolicy)
        requires
            old(self).wf(),
        ensures
            final(self).wf(),
            Cluster::others_unchanged(&*old(self), &*final(self), ns@),
            final(self).namespace_map().contains_key(ns@),
            exists|prior: Index| #[trigger] old(self).found(ns@, prior) && {
                let next = final(self).namespace_map()[ns@];
                next.server_map() == prior.server_map() && next.route_map() == prior.route_map() && next.policy_map() == prior.policy_map().insert(policy.name@, policy) && next.workload_map() == prior.workload_map() && Index::republished(&prior, &next)
            },
    {
        let ghost policy_value = policy;
        let mut idx = self.take(ns);
        let ghost prior = idx;
        idx.apply_policy(policy);
        let ghost next = idx;
        self.put(ns, idx);
        assert(old(self).found(ns@, prior));
        assert(self.namespace_map()[ns@] == next);
    }

    /// Removes an authorization policy from its namespace. Every other namespace is left as it was.
    pub fn delete_policy(&mut self, ns: &str, name: &str)
        requires
            old(self).wf(),
        ensures
            final(self).wf(),
            Cluster::others_unchanged(&*old(self), &*final(self), ns@),
            final(self).namespace_map().contains_key(ns@),
            exists|prior: Index| #[trigger] old(self).found(ns@, prior) && {
                let next = final(self).namespace_map()[ns@];
                next.server_map() == prior.server_map() && next.route_map() == prior.route_map() && next.policy_map() == prior.policy_map().remove(name@) && next.workload_map() == prior.workload_map() && Index::republished(&prior, &next)
            },
    {
        let mut idx = self.take(ns);
        let ghost prior = idx;
        idx.delete_policy(name);
        let ghost next = idx;
        self.put(ns, idx);
        assert(old(self).found(ns@, prior));
        assert(self.namespace_map()[ns@] == next);
    }

    /// Stores a workload in its namespace. Every other namespace is left as it was.
    pub fn apply_workload(&mut self, ns: &str, workload: Workload)
        requires
            old(self).wf(),
        ensures
            final(self).wf(),
            Cluster::others_unchanged(&*old(self), &*final(self), ns@),
            final(self).namespace_map().contains_key(ns@),
            exists|prior: Index| #[trigger] old(self).found(ns@, prior) && {
                let next = final(self).namespace_map()[ns@];
                next.server_map() == prior.server_map() && next.route_map() == prior.route_map() && next.policy_map() == prior.policy_map() && next.workload_map() == prior.workload_map().insert(workload.name@, workload) && Index::republished(&prior, &next)
            },
    {
        let ghost workload_value = workload;
        let mut idx = self.take(ns);
        let ghost prior = idx;
        idx.apply_workload(workload);
        let ghost next = idx;
        self.put(ns, idx);
        assert(old(self).found(ns@, prior));
        assert(self.namespace_map()[ns@] == next);
    }

    /// Removes a workload, and the endpoints subscribed on it, from its namespace. Every other namespace is left as it was.
    pub fn delete_workload(&mut self, ns: &str, name: &str)
        requires
            old(self).wf(),
        ensures
            final(self).wf(),
            Cluster::others_unchanged(&*old(self), &*final(self), ns@),
            final(self).namespace_map().contains_key(ns@),
            exists|prior: Index| #[trigger] old(self).found(ns@, prior) && {
                let next = final(self).namespace_map()[ns@];
                next.server_map() == prior.server_map() && next.route_map() == prior.route_map() && next.policy_map() == prior.policy_map() && next.workload_map() == prior.workload_map().remove(name@) && forall|i: int| 0 <= i < next.endpoints().len() ==> (#[trigger] next.endpoints()[i]).workload@ != name@
            },
    {
        let mut idx = self.take(ns);
        let ghost prior = idx;
        idx.delete_workload(name);
        let ghost next = idx;
        self.put(ns, idx);
        assert(old(self).found(ns@, prior));
        assert(self.namespace_map()[ns@] == next);
    }
    /// Subscribes to the endpoint `(workload, port)` of a namespace: the
    /// namespace must hold a workload that names the port.
    pub fn subscribe(&mut self, ns: &str, workload: &str, port: u16) -> (r: Result<Subscription, IndexError>)
        requires
            old(self).wf(),
        ensures
            final(self).wf(),
            Cluster::others_unchanged(&*old(self), &*final(self), ns@),
            r is Ok <==> old(self).namespace_map().contains_key(ns@) && {
                let idx = old(self).namespace_map()[ns@];
                idx.workload_map().contains_key(workload@) && exists|j: int| 0 <= j < idx.workload_map()[workload@].ports@.len()
                    && (#[trigger] idx.workload_map()[workload@].ports@[j]).number == port
            },
            match r {
                Ok(sub) => sub.workload@ == workload@ && sub.port == port && final(self).namespace_map().contains_key(ns@)
                    && exists|i: int| 0 <= i < final(self).namespace_map()[ns@].endpoints().len()
                        && (#[trigger] final(self).namespace_map()[ns@].endpoints()[i]).workload@ == workload@
                        && final(self).namespace_map()[ns@].endpoints()[i].port == port,
                Err(e) => e == IndexError::NotFound,
            },
    {
        match self.find(ns) {
            None => {
                assert forall|n: Seq<char>| n != ns@ implies {
                    &&& (#[trigger] self.namespace_map().contains_key(n)) == old(self).namespace_map().contains_key(n)
                    &&& old(self).namespace_map().contains_key(n) ==> self.namespace_map()[n] == old(self).namespace_map()[n]
                } by {}
                return Err(IndexError::NotFound);
            },
            Some(_) => {},
        }
        let mut idx = self.take(ns);
        let r = idx.subscribe(workload, port);
        let ghost next = idx;
        self.put(ns, idx);
        assert(self.namespace_map()[ns@] == next);
        r
    }

    /// The latest policy of a subscribed endpoint of a namespace, and the
    /// number of times it has changed.
    pub fn latest(&self, ns: &str, sub: &Subscription) -> (r: Option<(&InboundServer, u64)>)
        requires
            self.wf(),
        ensures
            match r {
                Some((st, v)) => self.namespace_map().contains_key(ns@) && {
                    let idx = self.namespace_map()[ns@];
                    exists|i: int| 0 <= i < idx.endpoints().len() && {
                        let e = #[trigger] idx.endpoints()[i];
                        &&& e.workload@ == sub.workload@
                        &&& e.port == sub.port
                        &&& e.state == *st
                        &&& e.version == v
                        &&& idx.current(e)
                    }
                },
                None => !self.namespace_map().contains_key(ns@) || forall|i: int| 0 <= i < self.namespace_map()[ns@].endpoints().len()
                    ==> !((#[trigger] self.namespace_map()[ns@].endpoints()[i]).workload@ == sub.workload@
                        && self.namespace_map()[ns@].endpoints()[i].port == sub.port),
            },
    {
        match self.find(ns) {
            Some(i) => self.namespaces[i].1.latest(sub),
            None => None,
        }
    }

    /// The status records to persist for a route of a namespace: for each
    /// parent, in order, the `Accepted` condition, true exactly when the
    /// namespace holds the declaration.
    pub fn route_status(&self, ns: &str, binding: &TypedRouteBinding) -> (r: Vec<Status>)
        requires
            self.wf(),
        ensures
            r@.len() == parents_of(*binding).len(),
            forall|i: int| 0 <= i < r@.len() ==> (#[trigger] r@[i])@ == (parents_of(*binding)[i]@,
                computed_conditions(self.namespace_map().contains_key(ns@)
                    && self.namespace_map()[ns@].server_map().contains_key(parents_of(*binding)[i]@))),
    {
        match self.find(ns) {
            Some(i) => self.namespaces[i].1.route_status(binding),
            None => {
                let blank = Index::new();
                blank.route_status(binding)
            },
        }
    }
    /// Takes in the outcome of converting a route resource. A binding is
    /// stored under the route's name; a resource that failed to convert is
    /// treated as absent, so any binding stored earlier under that name is
    /// removed.
    pub fn apply_route_result(&mut self, ns: &str, name: String, generation: u64, result: Result<TypedRouteBinding, RouteError>)
        requires
            old(self).wf(),
        ensures
            final(self).wf(),
            Cluster::others_unchanged(&*old(self), &*final(self), ns@),
            final(self).namespace_map().contains_key(ns@),
            exists|prior: Index| #[trigger] old(self).found(ns@, prior) && {
                let next = final(self).namespace_map()[ns@];
                &&& next.server_map() == prior.server_map()
                &&& next.policy_map() == prior.policy_map()
                &&& next.workload_map() == prior.workload_map()
                &&& Index::republished(&prior, &next)
                &&& match result {
                    Ok(b) => next.route_map() == prior.route_map().insert(name@, (StoredRoute { name, generation, binding: b })),
                    Err(_) => next.route_map() == prior.route_map().remove(name@),
                }
            },
    {
        match result {
            Ok(binding) => self.apply_route(ns, StoredRoute { name, generation, binding }),
            Err(_) => self.delete_route(ns, name.as_str()),
        }
    }
}

} // verus!
