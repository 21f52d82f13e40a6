//! Dependency ordering of component definitions: a depth-first topological
//! sort with three-state marking. A component whose layout references another
//! component must be registered strictly after it; a cycle among component
//! definitions is reported as a `CyclicDefinition` error.

use vstd::prelude::*;
use crate::errors::DictError;
use crate::import::{acyclic, component_refs_of, find_name, identity_order, is_topo_order,
    raw_component_names, strings_v};
use crate::raw::{RawComponent, RawComponentV, items_component_refs, raw_components_v};
use crate::util::{first_index, lemma_first_index, lemma_first_index_is, lemma_first_index_push,
    lemma_map_values_push, names_unique};

verus! {

// ---------------------------------------------------------------------------
// The index-level dependency graph
// ---------------------------------------------------------------------------

/// The positions (in the component list) of the referenced components whose
/// names are defined, in order of reference; references to undefined names
/// are dropped here and surface later as unresolved references.
pub open spec fn known_dep_indices(ds: Seq<Seq<char>>, cnames: Seq<Seq<char>>) -> Seq<int>
    decreases ds,
{
    if ds.len() == 0 {
        Seq::empty()
    } else {
        let rest = known_dep_indices(ds.drop_first(), cnames);
        if first_index(cnames, ds[0]) >= 0 {
            seq![first_index(cnames, ds[0])] + rest
        } else {
            rest
        }
    }
}

/// For the entry at position `k` of `known_dep_indices`, the position in `ds`
/// of the reference it came from.
pub open spec fn known_dep_source(ds: Seq<Seq<char>>, cnames: Seq<Seq<char>>, k: int) -> int
    decreases ds,
{
    if ds.len() == 0 {
        0
    } else if first_index(cnames, ds[0]) >= 0 {
        if k == 0 {
            0
        } else {
            known_dep_source(ds.drop_first(), cnames, k - 1) + 1
        }
    } else {
        known_dep_source(ds.drop_first(), cnames, k) + 1
    }
}

/// The entry at position `k` of `known_dep_indices` is the defined position
/// of the reference it came from.
pub open spec fn dep_entry_ok(ds: Seq<Seq<char>>, cnames: Seq<Seq<char>>, k: int) -> bool {
    let t = known_dep_source(ds, cnames, k);
    &&& 0 <= t < ds.len()
    &&& cnames.contains(ds[t])
    &&& known_dep_indices(ds, cnames)[k] == first_index(cnames, ds[t])
}

pub proof fn lemma_known_dep_indices_props(ds: Seq<Seq<char>>, cnames: Seq<Seq<char>>)
    ensures
        forall|t: int|
            0 <= t < ds.len() && cnames.contains(#[trigger] ds[t]) ==> known_dep_indices(
                ds,
                cnames,
            ).contains(first_index(cnames, ds[t])),
        forall|k: int|
            0 <= k < known_dep_indices(ds, cnames).len() ==> #[trigger] dep_entry_ok(
                ds,
                cnames,
                k,
            ),
    decreases ds,
{
    if ds.len() > 0 {
        lemma_known_dep_indices_props(ds.drop_first(), cnames);
        let rest = known_dep_indices(ds.drop_first(), cnames);
        let whole = known_dep_indices(ds, cnames);
        lemma_first_index(cnames, ds[0]);
        assert forall|t: int|
            0 <= t < ds.len() && cnames.contains(#[trigger] ds[t]) implies whole.contains(
            first_index(cnames, ds[t]),
        ) by {
            if t == 0 {
                assert(whole[0] == first_index(cnames, ds[0]));
            } else {
                assert(ds.drop_first()[t - 1] == ds[t]);
                assert(rest.contains(first_index(cnames, ds[t])));
                let k = choose|k: int|
                    0 <= k < rest.len() && rest[k] == first_index(cnames, ds[t]);
                if first_index(cnames, ds[0]) >= 0 {
                    assert(whole[k + 1] == rest[k]);
                } else {
                    assert(whole[k] == rest[k]);
                }
            }
        }
        assert forall|k: int|
            0 <= k < known_dep_indices(ds, cnames).len() implies #[trigger] dep_entry_ok(
            ds,
            cnames,
            k,
        ) by {
            if first_index(cnames, ds[0]) >= 0 {
                if k == 0 {
                    assert(known_dep_source(ds, cnames, 0) == 0);
                    assert(cnames.contains(ds[0]));
                    assert(whole[0] == first_index(cnames, ds[0]));
                } else {
                    assert(whole[k] == rest[k - 1]);
                    assert(dep_entry_ok(ds.drop_first(), cnames, k - 1));
                    let t1 = known_dep_source(ds.drop_first(), cnames, k - 1);
                    assert(known_dep_source(ds, cnames, k) == t1 + 1);
                    assert(ds.drop_first()[t1] == ds[t1 + 1]);
                }
            } else {
                assert(whole[k] == rest[k]);
                assert(dep_entry_ok(ds.drop_first(), cnames, k));
                let t1 = known_dep_source(ds.drop_first(), cnames, k);
                assert(known_dep_source(ds, cnames, k) == t1 + 1);
                assert(ds.drop_first()[t1] == ds[t1 + 1]);
            }
        }
    } else {
        assert(known_dep_indices(ds, cnames) =~= Seq::<int>::empty());
    }
}

/// The dependency lists of all components, as indices.
pub open spec fn dep_graph(comps: Seq<RawComponentV>) -> Seq<Seq<int>> {
    comps.map_values(
        |c: RawComponentV| known_dep_indices(
            items_component_refs(c.items),
            raw_component_names(comps),
        ),
    )
}

/// Every dependency index lies below `n`.
pub open spec fn deps_wf(deps: Seq<Seq<int>>, n: int) -> bool {
    forall|i: int, k: int|
        0 <= i < deps.len() && 0 <= k < deps[i].len() ==> 0 <= #[trigger] deps[i][k] < n
}

pub proof fn lemma_dep_graph_wf(comps: Seq<RawComponentV>)
    ensures
        dep_graph(comps).len() == comps.len(),
        deps_wf(dep_graph(comps), comps.len() as int),
{
    let deps = dep_graph(comps);
    let cnames = raw_component_names(comps);
    assert forall|i: int, k: int|
        0 <= i < deps.len() && 0 <= k < deps[i].len() implies 0 <= #[trigger] deps[i][k]
        < comps.len() by {
        let ds = items_component_refs(comps[i].items);
        lemma_known_dep_indices_props(ds, cnames);
        assert(deps[i] == known_dep_indices(ds, cnames));
        assert(dep_entry_ok(ds, cnames, k));
        let t = known_dep_source(ds, cnames, k);
        lemma_first_index(cnames, ds[t]);
    }
}

/// `order` is a dependency order for the index graph: a permutation of all
/// positions, each dependency emitted strictly before its dependent.
pub open spec fn index_topo(order: Seq<int>, deps: Seq<Seq<int>>) -> bool {
    &&& order.len() == deps.len()
    &&& forall|k: int| 0 <= k < order.len() ==> 0 <= #[trigger] order[k] < deps.len()
    &&& forall|k1: int, k2: int| 0 <= k1 < k2 < order.len() ==> order[k1] != order[k2]
    &&& forall|x: int| 0 <= x < deps.len() ==> first_index(order, x) >= 0
    &&& forall|k: int, t: int|
        #![trigger deps[order[k]][t]]
        0 <= k < order.len() && 0 <= t < deps[order[k]].len() ==> 0 <= first_index(
            order,
            deps[order[k]][t],
        ) < k
}

/// Under unique component names, the name-level and the index-level
/// dependency orders coincide.
pub proof fn lemma_topo_equiv(order: Seq<int>, comps: Seq<RawComponentV>)
    requires
        names_unique(raw_component_names(comps)),
    ensures
        is_topo_order(order, comps) <==> index_topo(order, dep_graph(comps)),
{
    let cnames = raw_component_names(comps);
    let deps = dep_graph(comps);
    assert(deps.len() == comps.len());
    if is_topo_order(order, comps) {
        assert forall|k: int, t: int|
            #![trigger deps[order[k]][t]]
            0 <= k < order.len() && 0 <= t < deps[order[k]].len() implies 0 <= first_index(
            order,
            deps[order[k]][t],
        ) < k by {
            let ds = items_component_refs(comps[order[k]].items);
            lemma_known_dep_indices_props(ds, cnames);
            assert(deps[order[k]] == known_dep_indices(ds, cnames));
            assert(dep_entry_ok(ds, cnames, t));
            let dt = known_dep_source(ds, cnames, t);
            let d = ds[dt];
            assert(cnames.contains(d));
            assert(deps[order[k]][t] == first_index(cnames, d));
        }
        assert(index_topo(order, deps));
    }
    if index_topo(order, deps) {
        assert forall|k: int, di: int|
            #![trigger items_component_refs(comps[order[k]].items)[di]]
            0 <= k < order.len() && 0 <= di < items_component_refs(
                comps[order[k]].items,
            ).len() implies ({
            let d = items_component_refs(comps[order[k]].items)[di];
            cnames.contains(d) ==> 0 <= first_index(order, first_index(cnames, d)) < k
        }) by {
            let ds = items_component_refs(comps[order[k]].items);
            let d = ds[di];
            if cnames.contains(d) {
                lemma_known_dep_indices_props(ds, cnames);
                assert(deps[order[k]] == known_dep_indices(ds, cnames));
                let x = first_index(cnames, d);
                assert(known_dep_indices(ds, cnames).contains(x));
                let t = choose|t: int|
                    0 <= t < known_dep_indices(ds, cnames).len() && known_dep_indices(
                        ds,
                        cnames,
                    )[t] == x;
                assert(deps[order[k]][t] == x);
            }
        }
        assert(is_topo_order(order, comps));
    }
}

// ---------------------------------------------------------------------------
// Cycles
// ---------------------------------------------------------------------------

/// A closed walk in the index graph.
pub open spec fn cycle_in(cyc: Seq<int>, deps: Seq<Seq<int>>) -> bool {
    &&& cyc.len() > 0
    &&& forall|t: int| 0 <= t < cyc.len() ==> 0 <= #[trigger] cyc[t] < deps.len()
    &&& forall|t: int| 0 <= t < cyc.len() - 1 ==> deps[#[trigger] cyc[t]].contains(cyc[t + 1])
    &&& deps[cyc.last()].contains(cyc[0])
}

/// In a dependency order every edge goes strictly backwards, so positions
/// strictly decrease along a walk.
proof fn lemma_walk_positions(cyc: Seq<int>, deps: Seq<Seq<int>>, order: Seq<int>, t: int)
    requires
        index_topo(order, deps),
        cycle_in(cyc, deps),
        0 <= t < cyc.len(),
    ensures
        first_index(order, cyc[t]) <= first_index(order, cyc[0]) - t,
        first_index(order, cyc[t]) >= 0,
    decreases t,
{
    lemma_first_index(order, cyc[t]);
    if t == 0 {
        assert(first_index(order, cyc[0]) >= 0);
    } else {
        lemma_walk_positions(cyc, deps, order, t - 1);
        let pprev = first_index(order, cyc[t - 1]);
        lemma_first_index(order, cyc[t - 1]);
        assert(order[pprev] == cyc[t - 1]);
        assert(deps[cyc[t - 1]].contains(cyc[t]));
        let e = choose|e: int|
            0 <= e < deps[cyc[t - 1]].len() && #[trigger] deps[cyc[t - 1]][e] == cyc[t];
        assert(deps[order[pprev]][e] == cyc[t]);
        assert(0 <= first_index(order, deps[order[pprev]][e]) < pprev);
    }
}

/// A closed walk rules out every dependency order.
pub proof fn lemma_cycle_no_index_topo(cyc: Seq<int>, deps: Seq<Seq<int>>, order: Seq<int>)
    requires
        cycle_in(cyc, deps),
    ensures
        !index_topo(order, deps),
{
    if index_topo(order, deps) {
        let last = cyc.len() - 1;
        lemma_walk_positions(cyc, deps, order, last);
        let p0 = first_index(order, cyc[0]);
        let plast = first_index(order, cyc[last]);
        lemma_first_index(order, cyc[last]);
        assert(order[plast] == cyc[last]);
        assert(deps[cyc[last]].contains(cyc[0]));
        let e = choose|e: int|
            0 <= e < deps[cyc[last]].len() && #[trigger] deps[cyc[last]][e] == cyc[0];
        assert(deps[order[plast]][e] == cyc[0]);
        assert(0 <= first_index(order, cyc[0]) < plast);
        assert(plast <= p0 - last);
        assert(false);
    }
}

// ---------------------------------------------------------------------------
// Depth-first search with three-state marking
// ---------------------------------------------------------------------------

/// How many entries are marked (in progress or done).
pub open spec fn count_nonzero(s: Seq<u8>) -> int
    decreases s,
{
    if s.len() == 0 {
        0
    } else {
        count_nonzero(s.drop_last()) + if s.last() != 0 {
            1int
        } else {
            0int
        }
    }
}

proof fn lemma_count_nonzero_bounds(s: Seq<u8>)
    ensures
        0 <= count_nonzero(s) <= s.len(),
    decreases s,
{
    if s.len() > 0 {
        lemma_count_nonzero_bounds(s.drop_last());
    }
}

proof fn lemma_count_nonzero_update(s: Seq<u8>, i: int, v: u8)
    requires
        0 <= i < s.len(),
        s[i] == 0,
        v != 0,
    ensures
        count_nonzero(s.update(i, v)) == count_nonzero(s) + 1,
    decreases s,
{
    if s.len() > 0 {
        if i == s.len() - 1 {
            assert(s.update(i, v).drop_last() =~= s.drop_last());
            assert(s.update(i, v).last() == v);
        } else {
            lemma_count_nonzero_update(s.drop_last(), i, v);
            assert(s.update(i, v).drop_last() =~= s.drop_last().update(i, v));
            assert(s.update(i, v).last() == s.last());
        }
    }
}

proof fn lemma_count_nonzero_mono(s1: Seq<u8>, s2: Seq<u8>)
    requires
        s1.len() == s2.len(),
        forall|x: int| 0 <= x < s1.len() && s1[x] != 0 ==> s2[x] != 0,
    ensures
        count_nonzero(s1) <= count_nonzero(s2),
    decreases s1,
{
    if s1.len() > 0 {
        assert forall|x: int|
            0 <= x < s1.drop_last().len() && s1.drop_last()[x] != 0 implies s2.drop_last()[x]
            != 0 by {
            assert(s1[x] == s1.drop_last()[x]);
        }
        lemma_count_nonzero_mono(s1.drop_last(), s2.drop_last());
    }
}

/// The index view of the executable order.
pub open spec fn order_ints(order: Seq<usize>) -> Seq<int> {
    order.map_values(|u: usize| u as int)
}

/// The index view of the executable dependency lists.
pub open spec fn deps_view(d: Seq<Vec<usize>>) -> Seq<Seq<int>> {
    d.map_values(|v: Vec<usize>| v@.map_values(|u: usize| u as int))
}

/// The marking invariant of the depth-first search: `order` lists exactly the
/// done nodes in emission order, each after all of its dependencies; `stack`
/// lists exactly the in-progress nodes, along a dependency chain.
pub open spec fn dfs_inv(
    marks: Seq<u8>,
    order: Seq<int>,
    stack: Seq<int>,
    deps: Seq<Seq<int>>,
) -> bool {
    let n = marks.len() as int;
    &&& deps.len() == n
    &&& deps_wf(deps, n)
    &&& forall|x: int|
        0 <= x < n ==> marks[x] == 0 || marks[x] == 1 || (#[trigger] marks[x]) == 2
    &&& forall|k: int|
        0 <= k < order.len() ==> 0 <= (#[trigger] order[k]) < n && marks[order[k]] == 2
    &&& forall|x: int| 0 <= x < n ==> (marks[x] == 2 <==> first_index(order, x) >= 0)
    &&& forall|k1: int, k2: int| 0 <= k1 < k2 < order.len() ==> order[k1] != order[k2]
    &&& forall|x: int| 0 <= x < n ==> (marks[x] == 1 <==> stack.contains(x))
    &&& forall|t: int| 0 <= t < stack.len() ==> 0 <= #[trigger] stack[t] < n
    &&& forall|t1: int, t2: int| 0 <= t1 < t2 < stack.len() ==> stack[t1] != stack[t2]
    &&& forall|t: int|
        0 <= t < stack.len() - 1 ==> deps[#[trigger] stack[t]].contains(stack[t + 1])
    &&& forall|k: int, t: int|
        #![trigger deps[order[k]][t]]
        0 <= k < order.len() && 0 <= t < deps[order[k]].len() ==> 0 <= first_index(
            order,
            deps[order[k]][t],
        ) < k
}

/// Visits `i`: emits (into `order`) every unfinished dependency of `i` in
/// depth-first postorder, then `i` itself, or reports a dependency cycle.
#[verifier::rlimit(100)]
fn dfs_visit(
    i: usize,
    deps_idx: &Vec<Vec<usize>>,
    marks: &mut Vec<u8>,
    order: &mut Vec<usize>,
    Ghost(stack): Ghost<Seq<int>>,
) -> (r: Result<(), DictError>)
    requires
        old(marks).len() == deps_idx@.len(),
        i < old(marks).len(),
        dfs_inv(old(marks)@, order_ints(old(order)@), stack, deps_view(deps_idx@)),
        stack.len() > 0 ==> deps_view(deps_idx@)[stack.last()].contains(i as int),
    ensures
        final(marks).len() == old(marks).len(),
        match r {
            Ok(()) => {
                &&& dfs_inv(final(marks)@, order_ints(final(order)@), stack, deps_view(deps_idx@))
                &&& final(marks)@[i as int] == 2
                &&& forall|x: int|
                    0 <= x < old(marks).len() && old(marks)@[x] == 2 ==> final(marks)@[x] == 2
                &&& forall|x: int|
                    0 <= x < old(marks).len() ==> (final(marks)@[x] == 1 <==> old(marks)@[x]
                        == 1)
                &&& forall|x: int|
                    0 <= x < old(marks).len() && old(marks)@[x] != 0 ==> final(marks)@[x] != 0
                &&& old(order)@.len() <= final(order)@.len()
                &&& forall|k: int|
                    0 <= k < old(order)@.len() ==> final(order)@[k] == old(order)@[k]
            },
            Err(e) => {
                &&& e == DictError::CyclicDefinition
                &&& exists|cyc: Seq<int>| cycle_in(cyc, deps_view(deps_idx@))
            },
        },
    decreases old(marks).len() - count_nonzero(old(marks)@),
{
    let ghost deps = deps_view(deps_idx@);
    let ghost n = marks@.len() as int;
    let m = marks[i];
    if m == 2 {
        return Ok(());
    }
    if m == 1 {
        // `i` is in progress: the stack from its position onwards, closed by
        // the edge into `i`, is a dependency cycle.
        proof {
            assert(stack.contains(i as int));
            let p = choose|p: int| 0 <= p < stack.len() && stack[p] == i as int;
            let cyc = stack.subrange(p, stack.len() as int);
            assert(cyc.len() > 0);
            assert(cyc[0] == i as int);
            assert(cyc.last() == stack.last());
            assert forall|t: int| 0 <= t < cyc.len() implies 0 <= #[trigger] cyc[t]
                < deps.len() by {
                assert(cyc[t] == stack[p + t]);
            }
            assert forall|t: int| 0 <= t < cyc.len() - 1 implies deps[
            #[trigger] cyc[t]].contains(cyc[t + 1]) by {
                assert(cyc[t] == stack[p + t]);
                assert(cyc[t + 1] == stack[p + t + 1]);
            }
            assert(deps[cyc.last()].contains(cyc[0]));
            assert(cycle_in(cyc, deps));
        }
        return Err(DictError::CyclicDefinition);
    }
    proof {
        lemma_count_nonzero_update(marks@, i as int, 1);
        lemma_count_nonzero_bounds(marks@);
    }
    let ghost marks1 = marks@.update(i as int, 1u8);
    let ghost count1 = count_nonzero(marks1);
    marks.set(i, 1);
    let ghost stack1 = stack.push(i as int);
    proof {
        assert(marks@ =~= marks1);
        assert forall|x: int| 0 <= x < n implies (marks@[x] == 1 <==> stack1.contains(x)) by {
            if x == i as int {
                assert(stack1.last() == i as int);
                assert(stack1.contains(i as int));
            } else {
                if stack.contains(x) {
                    let t = choose|t: int| 0 <= t < stack.len() && stack[t] == x;
                    assert(stack1[t] == x);
                } else if stack1.contains(x) {
                    let t = choose|t: int| 0 <= t < stack1.len() && stack1[t] == x;
                    assert(t < stack.len());
                    assert(stack[t] == x);
                }
            }
        }
        assert forall|t1: int, t2: int| 0 <= t1 < t2 < stack1.len() implies stack1[t1]
            != stack1[t2] by {
            if t2 == stack1.len() - 1 {
                assert(stack1[t2] == i as int);
                assert(stack1[t1] == stack[t1]);
                assert(stack.contains(stack[t1]));
                if stack1[t1] == i as int {
                    assert(stack.contains(i as int));
                }
            } else {
                assert(stack1[t1] == stack[t1]);
                assert(stack1[t2] == stack[t2]);
            }
        }
        assert forall|t: int| 0 <= t < stack1.len() - 1 implies deps[
        #[trigger] stack1[t]].contains(stack1[t + 1]) by {
            if t < stack.len() - 1 {
                assert(stack1[t] == stack[t]);
                assert(stack1[t + 1] == stack[t + 1]);
            } else {
                assert(stack1[t] == stack.last());
                assert(stack1[t + 1] == i as int);
            }
        }
        assert forall|k: int| 0 <= k < order_ints(order@).len() implies 0 <= (
        #[trigger] order_ints(order@)[k]) < n && marks@[order_ints(order@)[k]] == 2 by {
            assert(old(marks)@[order_ints(order@)[k]] == 2);
        }
        assert forall|x: int| 0 <= x < n implies (marks@[x] == 2 <==> first_index(
            order_ints(order@),
            x,
        ) >= 0) by {
            if x != i as int {
                assert(marks@[x] == old(marks)@[x]);
            }
        }
        assert(dfs_inv(marks@, order_ints(order@), stack1, deps));
    }
    let ndeps = deps_idx[i].len();
    let mut k: usize = 0;
    while k < ndeps
        invariant
            i < marks.len(),
            marks.len() == deps_idx@.len(),
            marks.len() == old(marks).len(),
            n == marks@.len() as int,
            deps == deps_view(deps_idx@),
            ndeps == deps_idx@[i as int]@.len(),
            k <= ndeps,
            dfs_inv(marks@, order_ints(order@), stack1, deps),
            stack1 == stack.push(i as int),
            marks1 == old(marks)@.update(i as int, 1u8),
            marks1.len() == marks.len(),
            old(marks)@[i as int] == 0,
            marks@[i as int] == 1,
            count1 == count_nonzero(old(marks)@) + 1,
            forall|x: int| 0 <= x < marks@.len() && old(marks)@[x] == 2 ==> marks@[x] == 2,
            forall|x: int|
                0 <= x < marks@.len() ==> ((marks@[x] == 1 && x != i as int) <==> old(
                    marks,
                )@[x] == 1),
            forall|x: int| 0 <= x < marks@.len() && old(marks)@[x] != 0 ==> marks@[x] != 0,
            old(order)@.len() <= order@.len(),
            forall|t: int| 0 <= t < old(order)@.len() ==> order@[t] == old(order)@[t],
            forall|t: int| 0 <= t < k ==> marks@[#[trigger] deps[i as int][t]] == 2,
        decreases ndeps - k,
    {
        let d = deps_idx[i][k];
        proof {
            assert(deps[i as int][k as int] == deps_idx@[i as int]@[k as int] as int);
            assert(deps[i as int][k as int] == d as int);
            assert(0 <= deps[i as int][k as int] < marks@.len());
            assert(stack1.last() == i as int);
            assert(deps[stack1.last()].contains(d as int)) by {
                assert(deps[i as int][k as int] == d as int);
            }
            assert forall|x: int| 0 <= x < marks1.len() && marks1[x] != 0 implies marks@[x]
                != 0 by {
                if x != i as int {
                    assert(old(marks)@[x] != 0);
                }
            }
            lemma_count_nonzero_mono(marks1, marks@);
            lemma_count_nonzero_bounds(marks@);
            lemma_count_nonzero_update(old(marks)@, i as int, 1u8);
        }
        let res = dfs_visit(d, deps_idx, marks, order, Ghost(stack1));
        match res {
            Ok(()) => {
                proof {
                    assert(marks@[d as int] == 2);
                    assert forall|t: int| 0 <= t < k + 1 implies marks@[
                    #[trigger] deps[i as int][t]] == 2 by {
                        if t < k {
                        }
                    }
                }
            },
            Err(e) => {
                return Err(e);
            },
        }
        k += 1;
    }
    proof {
        assert(marks@[i as int] == 1);
    }
    let ghost marks_before = marks@;
    let ghost order_before = order_ints(order@);
    marks.set(i, 2);
    order.push(i);
    proof {
        assert(marks@ =~= marks_before.update(i as int, 2u8));
        let orderp = order_ints(order@);
        assert(orderp =~= order_before.push(i as int));
        assert(orderp.last() == i as int);
        // i was in progress, so it is not yet emitted
        assert(marks_before[i as int] == 1);
        assert(first_index(order_before, i as int) < 0);
        lemma_first_index(order_before, i as int);
        // order distinctness
        assert forall|k1: int, k2: int| 0 <= k1 < k2 < orderp.len() implies orderp[k1]
            != orderp[k2] by {
            if k2 == orderp.len() - 1 {
                assert(orderp[k2] == i as int);
                assert(orderp[k1] == order_before[k1]);
                if orderp[k1] == i as int {
                    assert(order_before[k1] == i as int);
                    lemma_first_index_is(order_before, i as int, k1);
                }
            } else {
                assert(orderp[k1] == order_before[k1]);
                assert(orderp[k2] == order_before[k2]);
            }
        }
        // membership of done nodes
        assert forall|x: int| 0 <= x < n implies (marks@[x] == 2 <==> first_index(orderp, x)
            >= 0) by {
            lemma_first_index_push(order_before, i as int, x);
            if x == i as int {
            } else {
                assert(marks@[x] == marks_before[x]);
            }
        }
        assert forall|k2: int| 0 <= k2 < orderp.len() implies 0 <= (#[trigger] orderp[k2]) < n
            && marks@[orderp[k2]] == 2 by {
            if k2 < orderp.len() - 1 {
                assert(orderp[k2] == order_before[k2]);
                assert(marks_before[orderp[k2]] == 2);
                assert(orderp[k2] != i as int);
            }
        }
        // in-progress set goes back to `stack`
        assert forall|x: int| 0 <= x < n implies (marks@[x] == 1 <==> stack.contains(x)) by {
            if x == i as int {
                if stack.contains(i as int) {
                    let t = choose|t: int| 0 <= t < stack.len() && stack[t] == i as int;
                    assert(stack1[t] == i as int);
                    assert(stack1[stack1.len() - 1] == i as int);
                    assert(t < stack1.len() - 1);
                }
            } else {
                assert(marks@[x] == marks_before[x]);
                if stack.contains(x) {
                    let t = choose|t: int| 0 <= t < stack.len() && stack[t] == x;
                    assert(stack1[t] == x);
                } else if stack1.contains(x) {
                    let t = choose|t: int| 0 <= t < stack1.len() && stack1[t] == x;
                    assert(t < stack.len());
                    assert(stack[t] == x);
                }
            }
        }
        // dependency closure, including the newly emitted node
        assert forall|k2: int, t: int|
            #![trigger deps[orderp[k2]][t]]
            0 <= k2 < orderp.len() && 0 <= t < deps[orderp[k2]].len() implies 0 <= first_index(
            orderp,
            deps[orderp[k2]][t],
        ) < k2 by {
            lemma_first_index_push(order_before, i as int, deps[orderp[k2]][t]);
            if k2 < orderp.len() - 1 {
                assert(orderp[k2] == order_before[k2]);
                assert(deps[order_before[k2]][t] == deps[orderp[k2]][t]);
                assert(0 <= first_index(order_before, deps[order_before[k2]][t]) < k2);
            } else {
                assert(orderp[k2] == i as int);
                assert(marks_before[deps[i as int][t]] == 2);
                assert(first_index(order_before, deps[i as int][t]) >= 0);
                lemma_first_index(order_before, deps[i as int][t]);
            }
        }
        assert(dfs_inv(marks@, orderp, stack, deps));
    }
    Ok(())
}

/// `known_dep_indices` distributes over concatenation.
pub proof fn lemma_known_concat(a: Seq<Seq<char>>, b: Seq<Seq<char>>, cnames: Seq<Seq<char>>)
    ensures
        known_dep_indices(a + b, cnames) == known_dep_indices(a, cnames) + known_dep_indices(
            b,
            cnames,
        ),
    decreases a,
{
    if a.len() == 0 {
        assert(a + b =~= b);
        assert(known_dep_indices(a, cnames) + known_dep_indices(b, cnames) =~= known_dep_indices(
            b,
            cnames,
        ));
    } else {
        lemma_known_concat(a.drop_first(), b, cnames);
        assert((a + b).drop_first() =~= a.drop_first() + b);
        assert((a + b)[0] == a[0]);
        assert(known_dep_indices(a + b, cnames) =~= known_dep_indices(a, cnames)
            + known_dep_indices(b, cnames));
    }
}

/// The identity order lists every position at itself.
pub proof fn lemma_first_index_identity(n: int, x: int)
    requires
        0 <= x < n,
    ensures
        first_index(identity_order(n), x) == x,
{
    assert(identity_order(n)[x] == x);
    assert forall|j: int| 0 <= j < x implies identity_order(n)[j] != x by {
        assert(identity_order(n)[j] == j);
    }
    lemma_first_index_is(identity_order(n), x, x);
}

/// Performs the topological sort over the raw components: produces the
/// registration order, or reports a dependency cycle. An input already in
/// dependency order is kept as it stands.
#[verifier::rlimit(60)]
pub fn topo_sort(comps: &Vec<RawComponent>) -> (r: Result<Vec<usize>, DictError>)
    requires
        names_unique(raw_component_names(raw_components_v(comps@))),
    ensures
        match r {
            Ok(order) => {
                &&& is_topo_order(order_ints(order@), raw_components_v(comps@))
                &&& is_topo_order(
                    identity_order(comps@.len() as int),
                    raw_components_v(comps@),
                ) ==> order_ints(order@) == identity_order(comps@.len() as int)
            },
            Err(e) => {
                &&& e == DictError::CyclicDefinition
                &&& !acyclic(raw_components_v(comps@))
            },
        },
{
    let ghost comps_v = raw_components_v(comps@);
    let ghost cnames = raw_component_names(comps_v);
    let ghost deps = dep_graph(comps_v);
    let n = comps.len();
    proof {
        lemma_dep_graph_wf(comps_v);
    }
    // The component names, in source order.
    let mut names: Vec<String> = Vec::new();
    let mut i: usize = 0;
    proof {
        assert(strings_v(names@) =~= cnames.take(0));
    }
    while i < n
        invariant
            i <= n,
            n == comps.len(),
            comps_v == raw_components_v(comps@),
            cnames == raw_component_names(comps_v),
            cnames.len() == n,
            strings_v(names@) == cnames.take(i as int),
        decreases n - i,
    {
        names.push(comps[i].name.clone());
        proof {
            lemma_map_values_push(names@.drop_last(), names@.last(), |t: String| t@);
            assert(names@.drop_last().push(names@.last()) =~= names@);
            assert(comps_v[i as int] == comps@[i as int]@);
            assert(cnames[i as int] == comps_v[i as int].name);
            assert(cnames.take(i as int + 1) =~= cnames.take(i as int).push(cnames[i as int]));
            assert(strings_v(names@) =~= cnames.take(i as int + 1));
        }
        i += 1;
    }
    proof {
        assert(cnames.take(n as int) =~= cnames);
    }
    // The dependency lists, as indices into the component list.
    let mut deps_idx: Vec<Vec<usize>> = Vec::new();
    let mut i2: usize = 0;
    proof {
        assert(deps_view(deps_idx@) =~= deps.take(0));
    }
    while i2 < n
        invariant
            i2 <= n,
            n == comps.len(),
            comps_v == raw_components_v(comps@),
            cnames == raw_component_names(comps_v),
            strings_v(names@) == cnames,
            names@.len() == n,
            deps == dep_graph(comps_v),
            deps.len() == n,
            deps_view(deps_idx@) == deps.take(i2 as int),
            deps_idx@.len() == i2,
        decreases n - i2,
    {
        let refs = component_refs_of(&comps[i2]);
        let ghost refs_v = strings_v(refs@);
        proof {
            assert(comps_v[i2 as int] == comps@[i2 as int]@);
            assert(refs_v == items_component_refs(comps_v[i2 as int].items));
        }
        let mut row: Vec<usize> = Vec::new();
        let mut k: usize = 0;
        proof {
            assert(row@.map_values(|u: usize| u as int) =~= known_dep_indices(
                refs_v.take(0),
                cnames,
            ));
        }
        while k < refs.len()
            invariant
                k <= refs.len(),
                refs_v == strings_v(refs@),
                refs_v.len() == refs.len(),
                cnames == raw_component_names(comps_v),
                strings_v(names@) == cnames,
                names@.len() == comps.len(),
                row@.map_values(|u: usize| u as int) == known_dep_indices(
                    refs_v.take(k as int),
                    cnames,
                ),
                forall|t: int| 0 <= t < row@.len() ==> (#[trigger] row@[t]) < comps.len(),
            decreases refs.len() - k,
        {
            let ghost pre = known_dep_indices(refs_v.take(k as int), cnames);
            proof {
                assert(refs_v[k as int] == refs@[k as int]@);
                assert(refs_v.take(k as int + 1) =~= refs_v.take(k as int) + seq![
                    refs_v[k as int]]);
                lemma_known_concat(refs_v.take(k as int), seq![refs_v[k as int]], cnames);
                assert(seq![refs_v[k as int]].drop_first() =~= Seq::<Seq<char>>::empty());
                assert(known_dep_indices(Seq::<Seq<char>>::empty(), cnames) =~= Seq::<
                    int,
                >::empty());
            }
            match find_name(&names, refs[k].as_str()) {
                Some(j) => {
                    row.push(j);
                    proof {
                        assert(first_index(cnames, refs_v[k as int]) == j as int);
                        assert(known_dep_indices(seq![refs_v[k as int]], cnames) =~= seq![
                            j as int]);
                        lemma_map_values_push(
                            row@.drop_last(),
                            row@.last(),
                            |u: usize| u as int,
                        );
                        assert(row@.drop_last().push(row@.last()) =~= row@);
                        assert(row@.map_values(|u: usize| u as int) =~= known_dep_indices(
                            refs_v.take(k as int + 1),
                            cnames,
                        ));
                    }
                },
                None => {
                    proof {
                        crate::util::lemma_first_index(cnames, refs_v[k as int]);
                        assert(first_index(cnames, refs_v[k as int]) < 0);
                        assert(known_dep_indices(seq![refs_v[k as int]], cnames) =~= Seq::<
                            int,
                        >::empty());
                        assert(known_dep_indices(refs_v.take(k as int + 1), cnames)
                            =~= known_dep_indices(refs_v.take(k as int), cnames));
                    }
                },
            }
            k += 1;
        }
        proof {
            assert(refs_v.take(refs.len() as int) =~= refs_v);
            assert(row@.map_values(|u: usize| u as int) == known_dep_indices(refs_v, cnames));
        }
        deps_idx.push(row);
        proof {
            lemma_map_values_push(
                deps_idx@.drop_last(),
                deps_idx@.last(),
                |v: Vec<usize>| v@.map_values(|u: usize| u as int),
            );
            assert(deps_idx@.drop_last().push(deps_idx@.last()) =~= deps_idx@);
            assert(deps.take(i2 as int + 1) =~= deps.take(i2 as int).push(deps[i2 as int]));
            assert(deps[i2 as int] == known_dep_indices(
                items_component_refs(comps_v[i2 as int].items),
                cnames,
            ));
            assert(deps_view(deps_idx@) =~= deps.take(i2 as int + 1));
        }
        i2 += 1;
    }
    proof {
        assert(deps.take(n as int) =~= deps);
        assert(deps_view(deps_idx@) == deps);
    }
    // Is the input already in dependency order?
    let mut sorted = true;
    let mut i3: usize = 0;
    while i3 < n && sorted
        invariant
            i3 <= n,
            n == comps.len(),
            deps_view(deps_idx@) == deps,
            deps_idx@.len() == n,
            deps.len() == n,
            sorted ==> forall|a: int, t: int|
                0 <= a < i3 && 0 <= t < deps[a].len() ==> #[trigger] deps[a][t] < a,
            !sorted ==> exists|a: int, t: int|
                0 <= a < n && 0 <= t < deps[a].len() && #[trigger] deps[a][t] >= a,
        decreases n - i3,
    {
        let mut t: usize = 0;
        let ndeps = deps_idx[i3].len();
        while t < ndeps && sorted
            invariant
                t <= ndeps,
                i3 < n,
                n == comps.len(),
                deps_view(deps_idx@) == deps,
                deps_idx@.len() == n,
                deps.len() == n,
                ndeps == deps_idx@[i3 as int]@.len(),
                ndeps == deps[i3 as int].len(),
                sorted ==> forall|a: int, tt: int|
                    0 <= a < i3 && 0 <= tt < deps[a].len() ==> #[trigger] deps[a][tt] < a,
                sorted ==> forall|tt: int|
                    0 <= tt < t ==> #[trigger] deps[i3 as int][tt] < i3 as int,
                !sorted ==> exists|a: int, tt: int|
                    0 <= a < n && 0 <= tt < deps[a].len() && #[trigger] deps[a][tt] >= a,
            decreases ndeps - t,
        {
            if deps_idx[i3][t] >= i3 {
                proof {
                    assert(deps[i3 as int][t as int] == deps_idx@[i3 as int]@[t as int] as int);
                    assert(deps[i3 as int][t as int] >= i3 as int);
                }
                sorted = false;
            } else {
                proof {
                    assert(deps[i3 as int][t as int] == deps_idx@[i3 as int]@[t as int] as int);
                }
            }
            t += 1;
        }
        i3 += 1;
    }
    let ghost idn = identity_order(n as int);
    proof {
        assert(idn.len() == n);
        assert forall|k: int| 0 <= k < n implies 0 <= #[trigger] idn[k] < n by {}
        if sorted {
            assert forall|k: int, t: int|
                #![trigger deps[idn[k]][t]]
                0 <= k < idn.len() && 0 <= t < deps[idn[k]].len() implies 0 <= first_index(
                idn,
                deps[idn[k]][t],
            ) < k by {
                assert(idn[k] == k);
                assert(deps[k][t] < k);
                lemma_first_index_identity(n as int, deps[k][t]);
            }
            assert forall|x: int| 0 <= x < n implies first_index(idn, x) >= 0 by {
                lemma_first_index_identity(n as int, x);
            }
            assert forall|k1: int, k2: int| 0 <= k1 < k2 < idn.len() implies idn[k1]
                != idn[k2] by {
                assert(idn[k1] == k1);
                assert(idn[k2] == k2);
            }
            assert(index_topo(idn, deps));
            lemma_topo_equiv(idn, comps_v);
        } else {
            let (a, tt): (int, int) = choose|a: int, tt: int|
                0 <= a < n && 0 <= tt < deps[a].len() && #[trigger] deps[a][tt] >= a;
            assert(idn[a] == a);
            if index_topo(idn, deps) {
                lemma_first_index_identity(n as int, deps[a][tt]);
                assert(0 <= first_index(idn, deps[idn[a]][tt]) < a);
            }
            lemma_topo_equiv(idn, comps_v);
            assert(!is_topo_order(idn, comps_v));
        }
    }
    if sorted {
        let mut order: Vec<usize> = Vec::new();
        let mut k: usize = 0;
        while k < n
            invariant
                k <= n,
                order@.len() == k,
                forall|j: int| 0 <= j < k ==> order@[j] == j,
            decreases n - k,
        {
            order.push(k);
            k += 1;
        }
        proof {
            assert(order_ints(order@) =~= idn);
        }
        return Ok(order);
    }
    // Depth-first search with three-state marking.
    let mut marks: Vec<u8> = Vec::new();
    let mut k2: usize = 0;
    while k2 < n
        invariant
            k2 <= n,
            marks@.len() == k2,
            forall|x: int| 0 <= x < k2 ==> marks@[x] == 0,
        decreases n - k2,
    {
        marks.push(0);
        k2 += 1;
    }
    let mut order: Vec<usize> = Vec::new();
    proof {
        assert forall|x: int| 0 <= x < n implies (marks@[x] == 2 <==> first_index(
            order_ints(order@),
            x,
        ) >= 0) by {
            assert(order_ints(order@) =~= Seq::<int>::empty());
            assert(first_index(Seq::<int>::empty(), x) == -1);
        }
        assert forall|x: int| 0 <= x < n implies (marks@[x] == 1 <==> Seq::<int>::empty()
            .contains(x)) by {
            if Seq::<int>::empty().contains(x) {
                let t = choose|t: int|
                    0 <= t < Seq::<int>::empty().len() && Seq::<int>::empty()[t] == x;
            }
        }
        assert(dfs_inv(marks@, order_ints(order@), Seq::empty(), deps));
    }
    let mut i4: usize = 0;
    while i4 < n
        invariant
            i4 <= n,
            n == comps.len(),
            comps_v == raw_components_v(comps@),
            cnames == raw_component_names(comps_v),
            names_unique(cnames),
            deps_view(deps_idx@) == deps,
            deps == dep_graph(comps_v),
            marks.len() == n,
            deps_idx@.len() == n,
            dfs_inv(marks@, order_ints(order@), Seq::empty(), deps),
            forall|x: int| 0 <= x < i4 ==> marks@[x] == 2,
        decreases n - i4,
    {
        match dfs_visit(i4, &deps_idx, &mut marks, &mut order, Ghost(Seq::empty())) {
            Ok(()) => {
                proof {
                    assert forall|x: int| 0 <= x < i4 + 1 implies marks@[x] == 2 by {
                        if x < i4 {
                        }
                    }
                }
            },
            Err(e) => {
                proof {
                    let cyc = choose|cyc: Seq<int>| cycle_in(cyc, deps);
                    assert forall|o: Seq<int>| !is_topo_order(o, comps_v) by {
                        lemma_topo_equiv(o, comps_v);
                        lemma_cycle_no_index_topo(cyc, deps, o);
                    }
                    assert(!acyclic(comps_v));
                }
                return Err(e);
            },
        }
        i4 += 1;
    }
    proof {
        let ov = order_ints(order@);
        assert(marks@.len() == n);
        assert forall|x: int| 0 <= x < n implies first_index(ov, x) >= 0 by {
            assert(marks@[x] == 2);
        }
        lemma_order_len(ov, marks@);
        assert(ov.len() == n);
        assert(index_topo(ov, deps));
        lemma_topo_equiv(ov, comps_v);
    }
    Ok(order)
}

/// A distinct list of done positions has exactly one entry per done mark.
proof fn lemma_order_len(order: Seq<int>, marks: Seq<u8>)
    requires
        forall|k: int| 0 <= k < order.len() ==> 0 <= (#[trigger] order[k]) < marks.len(),
        forall|k1: int, k2: int| 0 <= k1 < k2 < order.len() ==> order[k1] != order[k2],
        forall|x: int| 0 <= x < marks.len() ==> (marks[x] == 2 <==> first_index(order, x) >= 0),
        forall|x: int| 0 <= x < marks.len() ==> marks[x] == 2,
    ensures
        order.len() == marks.len(),
{
    assert forall|x: int| 0 <= x < marks.len() implies first_index(order, x) >= 0 by {
        assert(marks[x] == 2);
    }
    lemma_distinct_cover(order, marks.len() as int);
}

/// A duplicate-free list over `0..n` that covers every value has length `n`.
proof fn lemma_distinct_cover(order: Seq<int>, n: int)
    requires
        n >= 0,
        forall|k: int| 0 <= k < order.len() ==> 0 <= (#[trigger] order[k]) < n,
        forall|k1: int, k2: int| 0 <= k1 < k2 < order.len() ==> order[k1] != order[k2],
        forall|x: int| 0 <= x < n ==> first_index(order, x) >= 0,
    ensures
        order.len() == n,
{
    // the positions of 0..n in order are distinct, so n <= order.len()
    let f = |x: int| first_index(order, x);
    assert forall|x: int| 0 <= x < n implies 0 <= #[trigger] f(x) < order.len() by {
        lemma_first_index(order, x);
    }
    assert forall|x1: int, x2: int| 0 <= x1 < x2 < n implies #[trigger] f(x1) != #[trigger] f(
        x2,
    ) by {
        lemma_first_index(order, x1);
        lemma_first_index(order, x2);
        if f(x1) == f(x2) {
            assert(order[f(x1)] == x1);
            assert(order[f(x2)] == x2);
        }
    }
    lemma_injective_bound(f, n, order.len() as int);
    // and order is distinct over 0..n, so order.len() <= n
    let g = |k: int| order[k];
    assert forall|k1: int, k2: int| 0 <= k1 < k2 < order.len() implies #[trigger] g(k1)
        != #[trigger] g(k2) by {
        assert(order[k1] != order[k2]);
    }
    assert forall|k: int| 0 <= k < order.len() implies 0 <= #[trigger] g(k) < n by {}
    lemma_injective_bound(g, order.len() as int, n);
}

/// An injection from `0..a` into `0..b` forces `a <= b`.
proof fn lemma_injective_bound(f: spec_fn(int) -> int, a: int, b: int)
    requires
        a >= 0,
        b >= 0,
        forall|x: int| 0 <= x < a ==> 0 <= #[trigger] f(x) < b,
        forall|x1: int, x2: int| 0 <= x1 < x2 < a ==> #[trigger] f(x1) != #[trigger] f(x2),
    ensures
        a <= b,
    decreases a,
{
    if a > 0 {
        // swap the image of a-1 with b-1 and recurse on the shrunk ranges
        let last = f(a - 1);
        assert(0 <= last < b);
        let f2 = |x: int|
            if f(x) == b - 1 {
                last
            } else if f(x) == last {
                b - 1
            } else {
                f(x)
            };
        assert(f2(a - 1) == b - 1);
        assert forall|x: int| 0 <= x < a - 1 implies 0 <= #[trigger] f2(x) < b - 1 by {
            if f(x) == b - 1 {
                assert(f2(x) == last);
                assert(f(x) != f(a - 1));
            } else if f(x) == last {
                assert(f(x) != f(a - 1));
                assert(false);
            }
        }
        assert forall|x1: int, x2: int| 0 <= x1 < x2 < a - 1 implies #[trigger] f2(x1)
            != #[trigger] f2(x2) by {
            assert(f(x1) != f(x2));
        }
        lemma_injective_bound(f2, a - 1, b - 1);
    }
}

} // verus!
