//! Removal of the part of the graph that only compiler-synthesised code
//! reaches.

use std::collections::HashSet;
use vstd::prelude::*;
use vstd::set_lib::*;

use crate::graph::{
    edge_endpoints, edge_slots, graph_edges, graph_nodes, graph_wf, in_edges, in_set, node_indices, node_slots, out_edges,
    out_set, remove_node, DepGraph, EdgeModel,
};

verus! {

broadcast use vstd::std_specs::hash::group_hash_axioms;

/// Node `t` has at least one caller, and every caller of `t` lies in `s`.
pub open spec fn fed_only_from(edges: Map<usize, EdgeModel>, t: usize, s: Set<usize>) -> bool {
    &&& exists|e: usize| #[trigger] edges.contains_key(e) && edges[e].1 == t
    &&& forall|e: usize| #[trigger] edges.contains_key(e) && edges[e].1 == t ==> s.contains(edges[e].0)
}

/// One round of pruning: the roots, and every node all of whose callers are in `s`.
pub open spec fn prune_step(edges: Map<usize, EdgeModel>, roots: Set<usize>, s: Set<usize>) -> Set<usize> {
    Set::new(|t: usize| roots.contains(t) || fed_only_from(edges, t, s))
}

/// `s` holds the roots and every node that it alone feeds.
pub open spec fn prune_closed(edges: Map<usize, EdgeModel>, roots: Set<usize>, s: Set<usize>) -> bool {
    prune_step(edges, roots, s).subset_of(s)
}

/// `p` is the set that pruning removes: the least set that holds the roots
/// and every node whose callers it holds all.
pub open spec fn is_prune_set(edges: Map<usize, EdgeModel>, roots: Set<usize>, p: Set<usize>) -> bool {
    &&& p == prune_step(edges, roots, p)
    &&& forall|s: Set<usize>| #[trigger] prune_closed(edges, roots, s) ==> p.subset_of(s)
}

/// The edges of `edges` whose two endpoints stay when the nodes in `p` go.
pub open spec fn edges_outside(edges: Map<usize, EdgeModel>, p: Set<usize>) -> Map<usize, EdgeModel> {
    edges.restrict(edges.dom().filter(|e: usize| !p.contains(edges[e].0) && !p.contains(edges[e].1)))
}

/// Whether every caller of `t` is in `p` (callers given by their incoming edges).
fn callers_all_in(g: &DepGraph, t: usize, p: &HashSet<usize>) -> (r: bool)
    requires
        graph_wf(*g),
        graph_nodes(*g).contains_key(t),
    ensures
        r == forall|e: usize| #[trigger] graph_edges(*g).contains_key(e) && graph_edges(*g)[e].1 == t ==> p@.contains(graph_edges(*g)[e].0),
{
    let ins = in_edges(g, t);
    let mut k: usize = 0;
    while k < ins.len()
        invariant
            graph_wf(*g),
            ins@.to_set() == in_set(*g, t),
            k <= ins.len(),
            forall|j: int| 0 <= j < k ==> p@.contains(#[trigger] graph_edges(*g)[ins@[j]].0),
        decreases ins.len() - k,
    {
        let e = ins[k];
        assert(ins@.to_set().contains(e));
        let (s, _) = edge_endpoints(g, e);
        if !p.contains(&s) {
            return false;
        }
        k = k + 1;
    }
    assert forall|e: usize| #[trigger] graph_edges(*g).contains_key(e) && graph_edges(*g)[e].1 == t implies p@.contains(graph_edges(*g)[e].0) by {
        assert(in_set(*g, t).contains(e));
        assert(ins@.to_set().contains(e));
        let j = choose|j: int| 0 <= j < ins@.len() && ins@[j] == e;
    }
    true
}

/// The nodes that pruning removes, given the lang-item roots.
pub fn prune_set(g: &DepGraph, roots: &Vec<usize>) -> (r: HashSet<usize>)
    requires
        graph_wf(*g),
        forall|i: int| 0 <= i < roots@.len() ==> graph_nodes(*g).contains_key(#[trigger] roots@[i]),
    ensures
        is_prune_set(graph_edges(*g), roots@.to_set(), r@),
        r@.subset_of(graph_nodes(*g).dom()),
{
    let ghost edges = graph_edges(*g);
    let ghost rs = roots@.to_set();
    let mut pruned: HashSet<usize> = HashSet::new();
    let mut worklist: Vec<usize> = Vec::new();
    let mut i: usize = 0;
    while i < roots.len()
        invariant
            i <= roots.len(),
            pruned@ == roots@.take(i as int).to_set(),
            worklist@.to_set() == pruned@,
        decreases roots.len() - i,
    {
        let r = roots[i];
        proof {
            assert(roots@.take(i + 1) =~= roots@.take(i as int).push(r));
            roots@.take(i as int).lemma_push_to_set_commute(r);
        }
        if pruned.insert(r) {
            proof { worklist@.lemma_push_to_set_commute(r); }
            worklist.push(r);
        }
        i = i + 1;
    }
    proof {
        assert(roots@.take(i as int) =~= roots@);
        assert(pruned@.finite()) by {
            assert(pruned@ == worklist@.to_set());
        }
    }
    while worklist.len() > 0
        invariant
            graph_wf(*g),
            edges == graph_edges(*g),
            rs == roots@.to_set(),
            rs.subset_of(pruned@),
            pruned@.subset_of(graph_nodes(*g).dom()),
            pruned@.finite(),
            forall|x: usize| worklist@.contains(x) ==> pruned@.contains(x),
            forall|t: usize| #[trigger] pruned@.contains(t) ==> rs.contains(t) || fed_only_from(edges, t, pruned@),
            forall|s: Set<usize>| #[trigger] prune_closed(edges, rs, s) ==> pruned@.subset_of(s),
            forall|t: usize| !pruned@.contains(t) && #[trigger] fed_only_from(edges, t, pruned@) ==>
                exists|e: usize| #[trigger] edges.contains_key(e) && edges[e].1 == t && worklist@.contains(edges[e].0),
        decreases graph_nodes(*g).dom().len() - pruned@.len(), worklist.len(),
    {
        let ghost w0 = worklist@;
        let u = worklist.pop().unwrap();
        assert(w0 =~= worklist@.push(u));
        assert(w0.contains(u));
        assert(graph_nodes(*g).contains_key(u));
        let outs = out_edges(g, u);
        let mut k: usize = 0;
        let ghost p0 = pruned@;
        proof {
            assert(outs@.subrange(0, outs@.len() as int) =~= outs@);
            assert forall|t: usize| !pruned@.contains(t) && #[trigger] fed_only_from(edges, t, pruned@) implies
                exists|e: usize| #[trigger] edges.contains_key(e) && edges[e].1 == t && (worklist@.contains(edges[e].0)
                    || outs@.subrange(0, outs@.len() as int).contains(e)) by {
                let e = choose|e: usize| #[trigger] edges.contains_key(e) && edges[e].1 == t && w0.contains(edges[e].0);
                if edges[e].0 == u {
                    assert(out_set(*g, u).contains(e));
                    assert(outs@.to_set().contains(e));
                } else {
                    let j = choose|j: int| 0 <= j < w0.len() && w0[j] == edges[e].0;
                    assert(worklist@[j] == edges[e].0);
                }
            }
        }
        while k < outs.len()
            invariant
                graph_wf(*g),
                edges == graph_edges(*g),
                rs.subset_of(pruned@),
                p0.subset_of(pruned@),
                pruned@.subset_of(graph_nodes(*g).dom()),
                pruned@.finite(),
                pruned@.len() >= p0.len(),
                pruned@.len() == p0.len() ==> worklist@.len() + 1 == w0.len(),
                pruned@.contains(u),
                outs@.to_set() == out_set(*g, u),
                k <= outs.len(),
                forall|x: usize| worklist@.contains(x) ==> pruned@.contains(x),
                forall|t: usize| #[trigger] pruned@.contains(t) ==> rs.contains(t) || fed_only_from(edges, t, pruned@),
                forall|s: Set<usize>| #[trigger] prune_closed(edges, rs, s) ==> pruned@.subset_of(s),
                forall|t: usize| !pruned@.contains(t) && #[trigger] fed_only_from(edges, t, pruned@) ==>
                    exists|e: usize| #[trigger] edges.contains_key(e) && edges[e].1 == t && (worklist@.contains(edges[e].0)
                        || outs@.subrange(k as int, outs@.len() as int).contains(e)),
            decreases outs.len() - k,
        {
            let e = outs[k];
            assert(outs@.to_set().contains(e));
            let (_, t) = edge_endpoints(g, e);
            let ghost pb = pruned@;
            let ghost wb = worklist@;
            assert(graph_nodes(*g).contains_key(t));
            if !pruned.contains(&t) && callers_all_in(g, t, &pruned) {
                assert(fed_only_from(edges, t, pb));
                pruned.insert(t);
                worklist.push(t);
                assert(pruned@.len() == pb.len() + 1);
                proof {
                    assert forall|x: usize| #[trigger] pruned@.contains(x) implies rs.contains(x) || fed_only_from(edges, x, pruned@) by {
                        if x != t && !rs.contains(x) {
                            assert(fed_only_from(edges, x, pb));
                        }
                    }
                    assert forall|s: Set<usize>| #[trigger] prune_closed(edges, rs, s) implies pruned@.subset_of(s) by {
                        assert(pb.subset_of(s));
                        assert(prune_step(edges, rs, s).contains(t));
                    }
                    assert forall|x: usize| !pruned@.contains(x) && #[trigger] fed_only_from(edges, x, pruned@) implies
                        exists|e2: usize| #[trigger] edges.contains_key(e2) && edges[e2].1 == x && (worklist@.contains(edges[e2].0)
                            || outs@.subrange(k + 1, outs@.len() as int).contains(e2)) by {
                        if fed_only_from(edges, x, pb) {
                            let e2 = choose|e2: usize| #[trigger] edges.contains_key(e2) && edges[e2].1 == x && (wb.contains(edges[e2].0)
                                || outs@.subrange(k as int, outs@.len() as int).contains(e2));
                            if wb.contains(edges[e2].0) {
                                let j = choose|j: int| 0 <= j < wb.len() && wb[j] == edges[e2].0;
                                assert(worklist@ == wb.push(t));
                                assert(worklist@[j] == edges[e2].0);
                            } else {
                                let j = choose|j: int| 0 <= j < outs@.len() - k && outs@.subrange(k as int, outs@.len() as int)[j] == e2;
                                assert(j != 0);
                                assert(outs@.subrange(k + 1, outs@.len() as int)[j - 1] == e2);
                            }
                        } else {
                            let e2 = choose|e2: usize| #[trigger] edges.contains_key(e2) && edges[e2].1 == x && !pb.contains(edges[e2].0);
                            assert(pruned@.contains(edges[e2].0));
                            assert(edges[e2].0 == t);
                            assert(worklist@[worklist@.len() - 1] == t);
                            assert(worklist@.contains(edges[e2].0));
                        }
                    }
                }
            } else {
                proof {
                    assert forall|x: usize| !pruned@.contains(x) && #[trigger] fed_only_from(edges, x, pruned@) implies
                        exists|e2: usize| #[trigger] edges.contains_key(e2) && edges[e2].1 == x && (worklist@.contains(edges[e2].0)
                            || outs@.subrange(k + 1, outs@.len() as int).contains(e2)) by {
                        let e2 = choose|e2: usize| #[trigger] edges.contains_key(e2) && edges[e2].1 == x && (worklist@.contains(edges[e2].0)
                            || outs@.subrange(k as int, outs@.len() as int).contains(e2));
                        if !worklist@.contains(edges[e2].0) {
                            let j = choose|j: int| 0 <= j < outs@.len() - k && outs@.subrange(k as int, outs@.len() as int)[j] == e2;
                            if j == 0 {
                                assert(x == t);
                                assert(false);
                            }
                            assert(outs@.subrange(k + 1, outs@.len() as int)[j - 1] == e2);
                        }
                    }
                }
            }
            k = k + 1;
        }
        proof {
            lemma_len_subset(pruned@, graph_nodes(*g).dom());
            assert forall|t: usize| !pruned@.contains(t) && #[trigger] fed_only_from(edges, t, pruned@) implies
                exists|e: usize| #[trigger] edges.contains_key(e) && edges[e].1 == t && worklist@.contains(edges[e].0) by {
                let e = choose|e: usize| #[trigger] edges.contains_key(e) && edges[e].1 == t && (worklist@.contains(edges[e].0)
                    || outs@.subrange(k as int, outs@.len() as int).contains(e));
                assert(outs@.subrange(k as int, outs@.len() as int).len() == 0);
            }
        }
    }
    proof {
        assert(pruned@ =~= prune_step(edges, rs, pruned@)) by {
            assert forall|t: usize| prune_step(edges, rs, pruned@).contains(t) implies pruned@.contains(t) by {
                if !rs.contains(t) && !pruned@.contains(t) {
                    assert(fed_only_from(edges, t, pruned@));
                    let e = choose|e: usize| #[trigger] edges.contains_key(e) && edges[e].1 == t && worklist@.contains(edges[e].0);
                }
            }
        }
    }
    pruned
}

/// Removes the nodes of `p`, and with them every edge that touches one.
pub fn remove_pruned(g: &mut DepGraph, p: &HashSet<usize>)
    requires
        graph_wf(*old(g)),
        p@.subset_of(graph_nodes(*old(g)).dom()),
    ensures
        graph_wf(*final(g)),
        graph_nodes(*final(g)) == graph_nodes(*old(g)).remove_keys(p@),
        graph_edges(*final(g)) == edges_outside(graph_edges(*old(g)), p@),
        node_slots(*final(g)) == node_slots(*old(g)),
        edge_slots(*final(g)) == edge_slots(*old(g)),
{
    let ghost n0 = graph_nodes(*g);
    let ghost e0 = graph_edges(*g);
    let ids = node_indices(g);
    let mut i: usize = 0;
    proof {
        assert(p@.intersect(ids@.take(0).to_set()) =~= Set::empty());
        assert(n0.remove_keys(Set::empty()) =~= n0);
        assert(edges_outside(e0, Set::empty()) =~= e0);
    }
    while i < ids.len()
        invariant
            i <= ids.len(),
            ids@.to_set() == n0.dom(),
            forall|a: int, b: int| 0 <= a < b < ids@.len() ==> ids@[a] < ids@[b],
            graph_wf(*g),
            graph_nodes(*g) == n0.remove_keys(p@.intersect(ids@.take(i as int).to_set())),
            graph_edges(*g) == edges_outside(e0, p@.intersect(ids@.take(i as int).to_set())),
            node_slots(*g) == node_slots(*old(g)),
            edge_slots(*g) == edge_slots(*old(g)),
        decreases ids.len() - i,
    {
        let n = ids[i];
        let ghost r0 = p@.intersect(ids@.take(i as int).to_set());
        let ghost r1 = p@.intersect(ids@.take(i + 1).to_set());
        proof {
            assert(ids@.take(i + 1) =~= ids@.take(i as int).push(n));
            ids@.take(i as int).lemma_push_to_set_commute(n);
            assert(!ids@.take(i as int).to_set().contains(n)) by {
                if ids@.take(i as int).to_set().contains(n) {
                    let j = choose|j: int| 0 <= j < i && ids@.take(i as int)[j] == n;
                    assert(ids@[j] < ids@[i as int]);
                }
            }
            assert(ids@.to_set().contains(n));
        }
        if p.contains(&n) {
            let ghost gb = *g;
            assert(graph_nodes(*g).contains_key(n));
            remove_node(g, n);
            proof {
                assert forall|e: usize| #[trigger] graph_edges(*g).contains_key(e) implies {
                    &&& e < u32::MAX
                    &&& graph_nodes(*g).contains_key(graph_edges(*g)[e].0)
                    &&& graph_nodes(*g).contains_key(graph_edges(*g)[e].1)
                } by {
                    assert(graph_edges(gb).contains_key(e));
                }
                lemma_set_subset_finite(graph_edges(gb).dom(), graph_edges(*g).dom());
                assert(r1 =~= r0.insert(n));
                assert(graph_nodes(*g) =~= n0.remove_keys(r1));
                assert(graph_edges(*g) =~= edges_outside(e0, r1));
            }
        } else {
            proof {
                assert(r1 =~= r0);
            }
        }
        i = i + 1;
    }
    proof {
        assert(ids@.take(i as int) =~= ids@);
        assert(p@.intersect(ids@.to_set()) =~= p@);
    }
}

} // verus!
