//! The dependency resolver: depth-first post-order walk over the activation
//! dependency graph with a recursion-stack cycle guard.  The output order is
//! proved topological (every dependency ahead of its dependent), duplicate
//! free, and incompatible with any dependency cycle through its members.

use vstd::prelude::*;
use vstd::string::*;
use vstd::seq_lib::seq_to_set_is_finite;
use vstd::set::group_set_axioms;
use crate::error::DiakonosError;
use crate::registry::ServiceManager;
use crate::service::Service;
use crate::text::{spec_stripped, strip_service_suffix, vec_contains_string};

verus! {

/// The resolution-time dependencies of one record: its activation
/// dependencies with a trailing `.service` stripped.
pub open spec fn resolved_deps(s: Service) -> Seq<Seq<char>> {
    s.unit.activation_deps().map_values(|d: Seq<char>| spec_stripped(d))
}

/// `d` occurs in `order` strictly before index `i`.
pub open spec fn appears_before(order: Seq<Seq<char>>, d: Seq<char>, i: int) -> bool {
    exists|j: int| 0 <= j < i && order[j] == d
}

/// Every resolution-time dependency of the record named `order[i]` appears
/// strictly before `i`.
pub open spec fn deps_ordered(m: ServiceManager, order: Seq<Seq<char>>, i: int) -> bool {
    forall|k: int|
        0 <= k < resolved_deps(m.record_of(order[i])).len() ==> appears_before(
            order,
            #[trigger] resolved_deps(m.record_of(order[i]))[k],
            i,
        )
}

/// The order is a topological activation order over the registry: every
/// element is a loaded name and every dependency of an element appears
/// ahead of it.
pub open spec fn topo_ok(m: ServiceManager, order: Seq<Seq<char>>) -> bool {
    forall|i: int|
        0 <= i < order.len() ==> m.has_name(#[trigger] order[i]) && deps_ordered(m, order, i)
}

/// No name occurs twice.
pub open spec fn distinct_seq(s: Seq<Seq<char>>) -> bool {
    forall|i: int, j: int| 0 <= i < j < s.len() ==> s[i] != s[j]
}

/// The successor of position `i` on a cycle.
pub open spec fn cycle_next(c: Seq<Seq<char>>, i: int) -> Seq<char> {
    if i + 1 < c.len() {
        c[i + 1]
    } else {
        c[0]
    }
}

/// `c` is a dependency cycle in the registry: a non-empty circular walk of
/// loaded names, each naming its successor among its resolution-time
/// dependencies.
pub open spec fn is_cycle(m: ServiceManager, c: Seq<Seq<char>>) -> bool {
    c.len() > 0 && forall|i: int|
        0 <= i < c.len() ==> m.has_name(#[trigger] c[i]) && resolved_deps(
            m.record_of(c[i]),
        ).contains(cycle_next(c, i))
}

/// Some dependency cycle runs through the name `n`.
pub open spec fn has_cycle_through(m: ServiceManager, n: Seq<char>) -> bool {
    exists|c: Seq<Seq<char>>| is_cycle(m, c) && c.contains(n)
}

/// No dependency cycle runs through any loaded name.
pub open spec fn cycle_free(m: ServiceManager) -> bool {
    forall|n: Seq<char>| m.has_name(n) ==> !has_cycle_through(m, n)
}

/// `p` is a walk along resolution-time dependency edges: every step is a
/// loaded name, each naming its successor among its dependencies.
pub open spec fn is_dep_chain(m: ServiceManager, p: Seq<Seq<char>>) -> bool {
    &&& (forall|i: int| 0 <= i < p.len() ==> m.has_name(#[trigger] p[i]))
    &&& (forall|i: int|
        0 <= i < p.len() - 1 ==> resolved_deps(m.record_of(p[i])).contains(#[trigger] p[i + 1]))
}

/// `to` is `from` itself or one of its transitive resolution-time
/// dependencies: some dependency walk leads from the one to the other.
pub open spec fn reachable_from(m: ServiceManager, from: Seq<char>, to: Seq<char>) -> bool {
    exists|p: Seq<Seq<char>>|
        p.len() > 0 && p[0] == from && p.last() == to && is_dep_chain(m, p)
}

/// A loaded name reaches itself.
proof fn lemma_reach_self(m: ServiceManager, a: Seq<char>)
    requires
        m.has_name(a),
    ensures
        reachable_from(m, a, a),
{
    let p = seq![a];
    assert(is_dep_chain(m, p));
    assert(p[0] == a && p.last() == a);
}

/// Reachability extends backwards along a dependency edge.
proof fn lemma_reach_step(m: ServiceManager, a: Seq<char>, b: Seq<char>, x: Seq<char>)
    requires
        m.has_name(a),
        resolved_deps(m.record_of(a)).contains(b),
        reachable_from(m, b, x),
    ensures
        reachable_from(m, a, x),
{
    let p = choose|p: Seq<Seq<char>>|
        p.len() > 0 && p[0] == b && p.last() == x && is_dep_chain(m, p);
    let q = seq![a] + p;
    assert(q[0] == a);
    assert(q.last() == x);
    assert forall|i: int| 0 <= i < q.len() implies m.has_name(#[trigger] q[i]) by {
        if i > 0 {
            assert(q[i] == p[i - 1]);
        }
    };
    assert forall|i: int| 0 <= i < q.len() - 1 implies resolved_deps(m.record_of(q[i])).contains(
        #[trigger] q[i + 1],
    ) by {
        if i == 0 {
            assert(q[0] == a);
            assert(q[1] == p[0]);
        } else {
            assert(q[i] == p[i - 1] && q[i + 1] == p[i]);
            assert(resolved_deps(m.record_of(p[i - 1])).contains(p[i - 1 + 1]));
        }
    };
    assert(is_dep_chain(m, q));
}

/// Some loaded unit lists `d` among its resolution-time dependencies.
pub open spec fn some_unit_needs(m: ServiceManager, d: Seq<char>) -> bool {
    exists|i: int|
        0 <= i < m.services@.len() && resolved_deps(#[trigger] m.services@[i]).contains(d)
}

/// Every resolution-time dependency of every loaded unit is itself loaded.
pub open spec fn all_deps_present(m: ServiceManager) -> bool {
    forall|i: int, k: int|
        0 <= i < m.services@.len() && 0 <= k < resolved_deps(m.services@[i]).len()
            ==> m.has_name(#[trigger] resolved_deps(m.services@[i])[k])
}

proof fn lemma_no_cycle_member_in_order(
    m: ServiceManager,
    order: Seq<Seq<char>>,
    c: Seq<Seq<char>>,
    i: int,
    k: int,
)
    requires
        m.wf(),
        topo_ok(m, order),
        is_cycle(m, c),
        0 <= i < order.len(),
        0 <= k < c.len(),
    ensures
        order[i] != c[k],
    decreases i,
{
    if order[i] == c[k] {
        let k1: int = if k + 1 < c.len() {
            k + 1
        } else {
            0
        };
        assert(m.has_name(c[k]) && resolved_deps(m.record_of(c[k])).contains(cycle_next(c, k)));
        assert(cycle_next(c, k) == c[k1]);
        let kd = choose|kd: int|
            0 <= kd < resolved_deps(m.record_of(order[i])).len() && resolved_deps(
                m.record_of(order[i]),
            )[kd] == c[k1];
        assert(deps_ordered(m, order, i));
        assert(appears_before(order, resolved_deps(m.record_of(order[i]))[kd], i));
        let j = choose|j: int| 0 <= j < i && order[j] == c[k1];
        lemma_no_cycle_member_in_order(m, order, c, j, k1);
    }
}

/// A topological activation order and a dependency cycle cannot share a
/// name: if `order` is dependency-closed and `c` is a cycle through `t`,
/// then `t` cannot occur in `order`.  In particular a target on a cycle
/// never resolves.
pub proof fn lemma_topo_order_excludes_cycle(
    m: ServiceManager,
    order: Seq<Seq<char>>,
    c: Seq<Seq<char>>,
    t: Seq<char>,
)
    requires
        m.wf(),
        topo_ok(m, order),
        is_cycle(m, c),
        c.contains(t),
    ensures
        !order.contains(t),
{
    let k = choose|k: int| 0 <= k < c.len() && c[k] == t;
    assert forall|i: int| 0 <= i < order.len() implies order[i] != t by {
        lemma_no_cycle_member_in_order(m, order, c, i, k);
    };
}

/// Entering a fresh node shrinks the set of names not yet on the recursion
/// stack.
proof fn lemma_measure_decrease(names: Seq<Seq<char>>, vis: Seq<Seq<char>>, n: Seq<char>)
    requires
        names.contains(n),
        !vis.contains(n),
    ensures
        names.to_set().difference(vis.push(n).to_set()).len() < names.to_set().difference(
            vis.to_set(),
        ).len(),
{
    broadcast use seq_to_set_is_finite;
    broadcast use group_set_axioms;

    let a = names.to_set();
    let v = vis.to_set();
    let v2 = vis.push(n).to_set();
    assert forall|x: Seq<char>| #[trigger] vis.push(n).contains(x) implies (vis.contains(x) || x
        == n) by {
        let i = choose|i: int| 0 <= i < vis.push(n).len() && vis.push(n)[i] == x;
        if i < vis.len() {
            assert(vis[i] == x);
        }
    };
    assert forall|x: Seq<char>| vis.contains(x) implies vis.push(n).contains(x) by {
        let i = choose|i: int| 0 <= i < vis.len() && vis[i] == x;
        assert(vis.push(n)[i] == x);
    };
    assert(vis.push(n).contains(n)) by {
        assert(vis.push(n)[vis.len() as int] == n);
    };
    assert(v2 =~= v.insert(n));
    assert(a.difference(v2) =~= a.difference(v).remove(n));
    assert(a.finite());
    assert(a.difference(v).finite());
    assert(a.difference(v).contains(n));
    assert(a.difference(v).remove(n).len() == a.difference(v).len() - 1);
}

/// The depth-first walk from the record at `idx`.  `resolved` is the
/// post-order output so far; `visited` marks the names on the recursion
/// stack and is restored before returning.
fn resolve_rec(
    m: &ServiceManager,
    idx: usize,
    resolved: &mut Vec<String>,
    visited: &mut Vec<String>,
    Ghost(vis_snap): Ghost<Seq<Seq<char>>>,
) -> (r: Result<(), DiakonosError>)
    requires
        vis_snap == old(visited).deep_view(),
        m.wf(),
        idx < m.services@.len(),
        !old(visited).deep_view().contains(m.services@[idx as int].unit.name@),
        !old(resolved).deep_view().contains(m.services@[idx as int].unit.name@),
        is_dep_chain(*m, old(visited).deep_view().push(m.services@[idx as int].unit.name@)),
        topo_ok(*m, old(resolved).deep_view()),
        distinct_seq(old(resolved).deep_view()),
    ensures
        r is Ok ==> ({
            let name = m.services@[idx as int].unit.name@;
            &&& final(visited).deep_view() == old(visited).deep_view()
            &&& old(resolved).deep_view().is_prefix_of(final(resolved).deep_view())
            &&& (forall|x: Seq<char>|
                old(resolved).deep_view().contains(x) ==> final(resolved).deep_view().contains(
                    x,
                ))
            &&& topo_ok(*m, final(resolved).deep_view())
            &&& distinct_seq(final(resolved).deep_view())
            &&& final(resolved).deep_view().len() > 0
            &&& final(resolved).deep_view().last() == name
            &&& final(resolved).deep_view().contains(name)
            &&& (forall|x: Seq<char>|
                final(resolved).deep_view().contains(x) && !old(resolved).deep_view().contains(x)
                    ==> !old(visited).deep_view().contains(x) && reachable_from(*m, name, x))
        }),
        r matches Err(e) ==> ((e is DependencyCycle && !cycle_free(*m)) || (e
            matches DiakonosError::DependencyNotMet(dn) && some_unit_needs(*m, dn@)
            && !m.has_name(dn@))),
    decreases m.names().to_set().difference(vis_snap.to_set()).len(),
{
    let ghost name = m.services@[idx as int].unit.name@;
    let ghost vis0 = visited.deep_view();
    let ghost res0 = resolved.deep_view();
    proof {
        crate::registry::lemma_index_of(*m, idx as int);
        assert(m.record_of(name) == m.services@[idx as int]);
    }
    visited.push(m.services[idx].unit.name.clone());
    proof {
        assert(visited.deep_view() =~= vis0.push(name));
    }
    let deps = m.services[idx].unit.dependencies();
    let ghost rdeps = resolved_deps(m.services@[idx as int]);
    proof {
        assert(rdeps.len() == deps.deep_view().len());
        assert(forall|k: int|
            0 <= k < rdeps.len() ==> rdeps[k] == spec_stripped(#[trigger] deps.deep_view()[k]));
    }
    let mut j: usize = 0;
    while j < deps.len()
        invariant
            m.wf(),
            idx < m.services@.len(),
            name == m.services@[idx as int].unit.name@,
            rdeps == resolved_deps(m.services@[idx as int]),
            rdeps.len() == deps.deep_view().len(),
            forall|k: int|
                0 <= k < rdeps.len() ==> rdeps[k] == spec_stripped(
                    #[trigger] deps.deep_view()[k],
                ),
            j <= deps.len(),
            vis_snap == vis0,
            !vis0.contains(name),
            m.has_name(name),
            m.record_of(name) == m.services@[idx as int],
            is_dep_chain(*m, vis0.push(name)),
            visited.deep_view() == vis0.push(name),
            res0.is_prefix_of(resolved.deep_view()),
            forall|x: Seq<char>| res0.contains(x) ==> resolved.deep_view().contains(x),
            topo_ok(*m, resolved.deep_view()),
            distinct_seq(resolved.deep_view()),
            !resolved.deep_view().contains(name),
            forall|k: int| 0 <= k < j ==> resolved.deep_view().contains(#[trigger] rdeps[k]),
            forall|x: Seq<char>|
                resolved.deep_view().contains(x) && !res0.contains(x) ==> !vis0.contains(x) && x
                    != name && reachable_from(*m, name, x),
        decreases deps.len() - j,
    {
        let dep_name = strip_service_suffix(&deps[j]);
        proof {
            assert(deps.deep_view()[j as int] == deps@[j as int]@);
            assert(dep_name@ == rdeps[j as int]);
        }
        if !vec_contains_string(resolved, &dep_name) {
            match m.find_index(&dep_name) {
                None => {
                    proof {
                        assert(rdeps.contains(rdeps[j as int]));
                        assert(some_unit_needs(*m, dep_name@));
                    }
                    return Err(DiakonosError::DependencyNotMet(dep_name));
                },
                Some(di) => {
                    if vec_contains_string(visited, &dep_name) {
                        proof {
                            let vch = visited.deep_view();
                            let k = choose|k: int| 0 <= k < vch.len() && vch[k] == dep_name@;
                            let c = vch.subrange(k, vch.len() as int);
                            assert(vch.last() == name);
                            assert(resolved_deps(m.record_of(name)).contains(dep_name@)) by {
                                assert(rdeps[j as int] == dep_name@);
                            };
                            assert forall|i: int| 0 <= i < c.len() implies m.has_name(
                                #[trigger] c[i],
                            ) && resolved_deps(m.record_of(c[i])).contains(cycle_next(c, i)) by {
                                assert(c[i] == vch[k + i]);
                                assert(m.has_name(vch[k + i]));
                                if i + 1 < c.len() {
                                    assert(cycle_next(c, i) == vch[k + i + 1]);
                                    assert(resolved_deps(m.record_of(vch[k + i])).contains(
                                        vch[k + i + 1],
                                    ));
                                } else {
                                    assert(c[i] == vch[vch.len() - 1]);
                                    assert(cycle_next(c, i) == c[0]);
                                    assert(c[0] == dep_name@);
                                }
                            };
                            assert(is_cycle(*m, c));
                            assert(c.contains(dep_name@)) by {
                                assert(c[0] == dep_name@);
                            };
                            assert(has_cycle_through(*m, dep_name@));
                            assert(m.has_name(dep_name@));
                            assert(!cycle_free(*m));
                        }
                        return Err(DiakonosError::DependencyCycle);
                    }
                    let ghost res_pre = resolved.deep_view();
                    proof {
                        assert(m.names()[idx as int] == name);
                        assert(m.names().contains(name));
                        lemma_measure_decrease(m.names(), vis0, name);
                        let dn = m.services@[di as int].unit.name@;
                        assert(dn == dep_name@);
                        let q = visited.deep_view().push(dn);
                        assert forall|i: int| 0 <= i < q.len() implies m.has_name(
                            #[trigger] q[i],
                        ) by {
                            if i < q.len() - 1 {
                                assert(q[i] == vis0.push(name)[i]);
                            } else {
                                assert(q[i] == dn);
                            }
                        };
                        assert forall|i: int| 0 <= i < q.len() - 1 implies resolved_deps(
                            m.record_of(q[i]),
                        ).contains(#[trigger] q[i + 1]) by {
                            if i < q.len() - 2 {
                                assert(q[i] == vis0.push(name)[i]);
                                assert(q[i + 1] == vis0.push(name)[i + 1]);
                            } else {
                                assert(q[i] == name);
                                assert(q[i + 1] == dn);
                                assert(rdeps[j as int] == dep_name@);
                            }
                        };
                        assert(is_dep_chain(*m, q));
                    }
                    let ghost vsnap = visited.deep_view();
                    match resolve_rec(m, di, resolved, visited, Ghost(vsnap)) {
                        Ok(()) => {
                            proof {
                                assert(resolved.deep_view().contains(rdeps[j as int]));
                                assert forall|x: Seq<char>| res0.contains(
                                    x,
                                ) implies resolved.deep_view().contains(x) by {
                                    assert(res_pre.contains(x));
                                };
                                lemma_prefix_trans(res0, res_pre, resolved.deep_view());
                                assert forall|x: Seq<char>|
                                    resolved.deep_view().contains(x) && !res0.contains(
                                        x,
                                    ) implies !vis0.contains(x) && x != name && reachable_from(
                                    *m,
                                    name,
                                    x,
                                ) by {
                                    if res_pre.contains(x) {
                                        assert(!vis0.contains(x) && x != name && reachable_from(
                                            *m,
                                            name,
                                            x,
                                        ));
                                    } else {
                                        assert(reachable_from(
                                            *m,
                                            m.services@[di as int].unit.name@,
                                            x,
                                        ));
                                        lemma_reach_step(*m, name, dep_name@, x);
                                        assert(!visited.deep_view().contains(x));
                                        assert forall|y: Seq<char>| vis0.contains(
                                            y,
                                        ) implies visited.deep_view().contains(y) by {
                                            let yi = choose|yi: int|
                                                0 <= yi < vis0.len() && vis0[yi] == y;
                                            assert(vis0.push(name)[yi] == y);
                                        };
                                        assert(visited.deep_view()[vis0.len() as int] == name);
                                        assert(visited.deep_view().contains(name));
                                    }
                                };
                            }
                        },
                        Err(e) => {
                            return Err(e);
                        },
                    }
                },
            }
        }
        j = j + 1;
    }
    let ghost pre = resolved.deep_view();
    resolved.push(m.services[idx].unit.name.clone());
    proof {
        let post = resolved.deep_view();
        assert(post =~= pre.push(name));
        let ghost ln = pre.len() as int;
        assert forall|i: int| 0 <= i < post.len() implies m.has_name(#[trigger] post[i])
            && deps_ordered(*m, post, i) by {
            if i < ln {
                assert(m.has_name(pre[i]) && deps_ordered(*m, pre, i));
                assert(post[i] == pre[i]);
                assert forall|k: int|
                    0 <= k < resolved_deps(m.record_of(post[i])).len() implies appears_before(
                    post,
                    #[trigger] resolved_deps(m.record_of(post[i]))[k],
                    i,
                ) by {
                    assert(appears_before(pre, resolved_deps(m.record_of(pre[i]))[k], i));
                    let w = choose|w: int|
                        0 <= w < i && pre[w] == resolved_deps(m.record_of(pre[i]))[k];
                    assert(post[w] == resolved_deps(m.record_of(post[i]))[k]);
                };
            } else {
                assert(post[i] == name);
                assert(m.has_name(name));
                assert(m.record_of(name) == m.services@[idx as int]);
                assert forall|k: int|
                    0 <= k < resolved_deps(m.record_of(post[i])).len() implies appears_before(
                    post,
                    #[trigger] resolved_deps(m.record_of(post[i]))[k],
                    i,
                ) by {
                    assert(pre.contains(rdeps[k]));
                    let w = choose|w: int| 0 <= w < pre.len() && pre[w] == rdeps[k];
                    assert(post[w] == rdeps[k]);
                };
            }
        };
        assert(post.take(res0.len() as int) =~= pre.take(res0.len() as int));
        assert(post.last() == name);
        assert(post.contains(name)) by {
            assert(post[ln] == name);
        };
        assert forall|x: Seq<char>| res0.contains(x) implies post.contains(x) by {
            let w = choose|w: int| 0 <= w < pre.len() && pre[w] == x;
            assert(post[w] == x);
        };
        assert forall|x: Seq<char>| post.contains(x) && !res0.contains(x) implies !vis0.contains(
            x,
        ) && reachable_from(*m, name, x) by {
            let w = choose|w: int| 0 <= w < post.len() && post[w] == x;
            if w < ln {
                assert(pre[w] == x);
                assert(pre.contains(x));
            } else {
                assert(x == name);
                lemma_reach_self(*m, name);
            }
        };
    }
    let ghost vis_before_pop = visited.deep_view();
    let ghost prev_view = visited@;
    let _ = visited.pop();
    proof {
        assert(prev_view.len() == vis_before_pop.len());
        assert(prev_view.len() > 0);
        assert(visited@ == prev_view.subrange(0, prev_view.len() - 1));
        assert forall|i: int| 0 <= i < visited@.len() implies visited.deep_view()[i] == vis0[
            i
        ] by {
            assert(visited@[i] == prev_view[i]);
            assert(vis_before_pop[i] == prev_view[i]@);
            assert(vis_before_pop[i] == vis0.push(name)[i]);
        };
        assert(visited.deep_view() =~= vis0);
    }
    Ok(())
}

/// Prefix ordering of outputs is transitive.
proof fn lemma_prefix_trans(a: Seq<Seq<char>>, b: Seq<Seq<char>>, c: Seq<Seq<char>>)
    requires
        a.is_prefix_of(b),
        b.is_prefix_of(c),
    ensures
        a.is_prefix_of(c),
{
    assert(c.subrange(0, a.len() as int) =~= a);
}

impl ServiceManager {
    /// Computes the activation order for `name`: exactly the target and its
    /// transitive activation dependencies, each exactly once, every
    /// dependency ahead of its dependent, the target last.  Pure over a
    /// snapshot of the registry.
    ///
    /// Success is owed whenever the target is loaded, every dependency of
    /// every loaded unit is loaded, and no dependency cycle runs through any
    /// loaded name.  Failures: `ServiceNotFound` exactly when the target is
    /// not loaded; `DependencyCycle` only when the registry really holds a
    /// cycle — and exactly that when every dependency is loaded and a cycle
    /// runs through the target; `DependencyNotMet(d)` only when some loaded
    /// unit names the unloaded dependency `d`.
    pub fn resolve_dependencies(&self, name: &String) -> (r: Result<Vec<String>, DiakonosError>)
        requires
            self.wf(),
        ensures
            r matches Ok(order) ==> ({
                &&& topo_ok(*self, order.deep_view())
                &&& distinct_seq(order.deep_view())
                &&& order.deep_view().len() > 0
                &&& order.deep_view().last() == name@
                &&& order.deep_view().contains(name@)
                &&& (forall|i: int|
                    0 <= i < order.deep_view().len() ==> reachable_from(
                        *self,
                        name@,
                        #[trigger] order.deep_view()[i],
                    ))
            }),
            r matches Err(e) ==> ((e matches DiakonosError::ServiceNotFound(mn) && mn@ == name@
                && !self.has_name(name@)) || (e is DependencyCycle && !cycle_free(*self)) || (e
                matches DiakonosError::DependencyNotMet(dn) && some_unit_needs(*self, dn@)
                && !self.has_name(dn@))),
            !self.has_name(name@) ==> (r matches Err(e) && (e
                matches DiakonosError::ServiceNotFound(mn) && mn@ == name@)),
            self.has_name(name@) && all_deps_present(*self) && has_cycle_through(*self, name@)
                ==> (r matches Err(e) && e is DependencyCycle),
            self.has_name(name@) && all_deps_present(*self) && cycle_free(*self) ==> r is Ok,
    {
        match self.find_index(name) {
            None => Err(DiakonosError::ServiceNotFound(name.clone())),
            Some(idx) => {
                let mut resolved: Vec<String> = Vec::new();
                let mut visited: Vec<String> = Vec::new();
                proof {
                    crate::registry::lemma_index_of(*self, idx as int);
                    let q = visited.deep_view().push(name@);
                    assert(q.len() == 1 && q[0] == name@);
                    assert(is_dep_chain(*self, q));
                }
                let ghost vsnap = visited.deep_view();
                match resolve_rec(self, idx, &mut resolved, &mut visited, Ghost(vsnap)) {
                    Ok(()) => {
                        proof {
                            if all_deps_present(*self) && has_cycle_through(*self, name@) {
                                let c = choose|c: Seq<Seq<char>>|
                                    is_cycle(*self, c) && c.contains(name@);
                                lemma_topo_order_excludes_cycle(
                                    *self,
                                    resolved.deep_view(),
                                    c,
                                    name@,
                                );
                            }
                            assert forall|i: int|
                                0 <= i < resolved.deep_view().len() implies reachable_from(
                                *self,
                                name@,
                                #[trigger] resolved.deep_view()[i],
                            ) by {
                                assert(resolved.deep_view().contains(resolved.deep_view()[i]));
                            };
                        }
                        Ok(resolved)
                    },
                    Err(e) => {
                        proof {
                            if self.has_name(name@) && all_deps_present(*self) {
                                match &e {
                                    DiakonosError::DependencyNotMet(dn) => {
                                        let i = choose|i: int|
                                            0 <= i < self.services@.len() && resolved_deps(
                                                #[trigger] self.services@[i],
                                            ).contains(dn@);
                                        let k = choose|k: int|
                                            0 <= k < resolved_deps(self.services@[i]).len()
                                                && resolved_deps(self.services@[i])[k] == dn@;
                                        assert(self.has_name(resolved_deps(self.services@[i])[k]));
                                    },
                                    _ => {},
                                }
                            }
                        }
                        Err(e)
                    },
                }
            },
        }
    }
}

} // verus!
