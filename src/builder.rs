//! Construction of the call graph from the call-edge records.

use vstd::prelude::*;

use crate::graph::{add_edge, add_node, edge_slots, graph_edges, graph_nodes, graph_wf, new_graph, node_slots, DepGraph, EdgeModel};
use crate::summaries::DepEdge;

verus! {

/// Position `(i, j)` names the `j`-th call site of the `i`-th record.
pub open spec fn is_site(recs: Seq<(String, Vec<DepEdge>)>, i: int, j: int) -> bool {
    0 <= i < recs.len() && 0 <= j < recs[i].1@.len()
}

/// The caller of the `i`-th record.
pub open spec fn caller_at(recs: Seq<(String, Vec<DepEdge>)>, i: int) -> Seq<char> {
    recs[i].0@
}

/// The call site at `(i, j)`.
pub open spec fn site_at(recs: Seq<(String, Vec<DepEdge>)>, i: int, j: int) -> DepEdge {
    recs[i].1@[j]
}

/// The instantiated callee of the call site at `(i, j)`.
pub open spec fn callee_at(recs: Seq<(String, Vec<DepEdge>)>, i: int, j: int) -> Seq<char> {
    site_at(recs, i, j).spec_full_callee_name()
}

/// `name` is a caller or an instantiated callee of some record.
pub open spec fn named_in(recs: Seq<(String, Vec<DepEdge>)>, name: Seq<char>) -> bool {
    ||| exists|i: int| 0 <= i < recs.len() && #[trigger] caller_at(recs, i) == name
    ||| exists|i: int, j: int| is_site(recs, i, j) && #[trigger] callee_at(recs, i, j) == name
}

/// No two nodes hold the same identifier.
pub open spec fn names_unique(nodes: Map<usize, Seq<char>>) -> bool {
    forall|a: usize, b: usize|
        nodes.contains_key(a) && nodes.contains_key(b) && #[trigger] nodes[a] == #[trigger] nodes[b] ==> a == b
}

/// Edge `em` stands for the call site at `(i, j)`.
pub open spec fn edge_of_site(
    nodes: Map<usize, Seq<char>>,
    em: EdgeModel,
    recs: Seq<(String, Vec<DepEdge>)>,
    i: int,
    j: int,
) -> bool {
    &&& is_site(recs, i, j)
    &&& nodes.contains_key(em.0)
    &&& nodes[em.0] == caller_at(recs, i)
    &&& nodes.contains_key(em.1)
    &&& nodes[em.1] == callee_at(recs, i, j)
    &&& em.2 == site_at(recs, i, j).src_loc.file@
    &&& em.3 == site_at(recs, i, j).src_loc.line_no
}

/// The graph (`nodes`, `edges`) is the graph of the records: one node per
/// identifier that they name, and one edge per call site, `origin` telling
/// which.
pub open spec fn represents(
    nodes: Map<usize, Seq<char>>,
    edges: Map<usize, EdgeModel>,
    recs: Seq<(String, Vec<DepEdge>)>,
    origin: Map<usize, (int, int)>,
) -> bool {
    &&& names_unique(nodes)
    &&& forall|n: usize| #[trigger] nodes.contains_key(n) ==> named_in(recs, nodes[n])
    &&& forall|name: Seq<char>| #[trigger] named_in(recs, name) ==>
            exists|n: usize| #[trigger] nodes.contains_key(n) && nodes[n] == name
    &&& origin.dom() == edges.dom()
    &&& forall|e: usize| #[trigger] edges.contains_key(e) ==>
            edge_of_site(nodes, edges[e], recs, origin[e].0, origin[e].1)
    &&& forall|e1: usize, e2: usize|
            edges.contains_key(e1) && edges.contains_key(e2) && #[trigger] origin[e1] == #[trigger] origin[e2] ==> e1 == e2
    &&& forall|i: int, j: int| #[trigger] is_site(recs, i, j) ==>
            exists|e: usize| #[trigger] edges.contains_key(e) && origin[e] == (i, j)
}

/// The nodes whose record holds a call site of compiler-synthesised code.
pub open spec fn lang_roots(nodes: Map<usize, Seq<char>>, recs: Seq<(String, Vec<DepEdge>)>) -> Set<usize> {
    Set::new(|n: usize| nodes.contains_key(n) && exists|i: int, j: int|
        #[trigger] is_site(recs, i, j) && site_at(recs, i, j).is_lang_item && nodes[n] == caller_at(recs, i))
}

/// The number of call sites in the first `i` records.
pub open spec fn sites_before(recs: Seq<(String, Vec<DepEdge>)>, i: int) -> nat
    decreases i,
{
    if i <= 0 {
        0
    } else {
        sites_before(recs, i - 1) + recs[i - 1].1@.len()
    }
}

pub proof fn lemma_sites_before_monotone(recs: Seq<(String, Vec<DepEdge>)>, i: int, k: int)
    requires
        0 <= i <= k <= recs.len(),
    ensures
        sites_before(recs, i) <= sites_before(recs, k),
    decreases k - i,
{
    if i < k {
        lemma_sites_before_monotone(recs, i, k - 1);
    }
}

/// `index` lists every node of `nodes` with its identifier.
pub open spec fn index_ok(index: Seq<(String, usize)>, nodes: Map<usize, Seq<char>>) -> bool {
    &&& forall|k: int| 0 <= k < index.len() ==> nodes.contains_key(#[trigger] index[k].1) && nodes[index[k].1] == index[k].0@
    &&& forall|n: usize| #[trigger] nodes.contains_key(n) ==> exists|k: int| 0 <= k < index.len() && #[trigger] index[k].1 == n
    &&& names_unique(nodes)
}

/// The node that holds `name`, added when there is none yet.
fn node_for(g: &mut DepGraph, index: &mut Vec<(String, usize)>, name: &String) -> (r: usize)
    requires
        graph_wf(*old(g)),
        index_ok(old(index)@, graph_nodes(*old(g))),
        node_slots(*old(g)) < u32::MAX,
    ensures
        graph_wf(*final(g)),
        index_ok(final(index)@, graph_nodes(*final(g))),
        graph_nodes(*final(g)) == graph_nodes(*old(g)).insert(r, name@),
        graph_nodes(*old(g)).contains_key(r) ==> graph_nodes(*old(g))[r] == name@,
        graph_nodes(*old(g)).submap_of(graph_nodes(*final(g))),
        graph_edges(*final(g)) == graph_edges(*old(g)),
        node_slots(*final(g)) <= node_slots(*old(g)) + 1,
        edge_slots(*final(g)) == edge_slots(*old(g)),
{
    let mut k: usize = 0;
    while k < index.len()
        invariant
            k <= index.len(),
            index@ == old(index)@,
            *g == *old(g),
            graph_wf(*g),
            index_ok(index@, graph_nodes(*g)),
            forall|m: int| 0 <= m < k ==> index@[m].0@ != name@,
        decreases index.len() - k,
    {
        if index[k].0 == *name {
            let r = index[k].1;
            proof {
                assert(graph_nodes(*g).insert(r, name@) =~= graph_nodes(*g));
            }
            return r;
        }
        k = k + 1;
    }
    let ghost n0 = graph_nodes(*g);
    let r = add_node(g, name.clone());
    index.push((name.clone(), r));
    proof {
        let nodes = graph_nodes(*g);
        assert forall|a: usize, b: usize|
            nodes.contains_key(a) && nodes.contains_key(b) && #[trigger] nodes[a] == #[trigger] nodes[b] implies a == b by {
            if a != r && b == r {
                let m = choose|m: int| 0 <= m < old(index)@.len() && #[trigger] old(index)@[m].1 == a;
                assert(index@[m] == old(index)@[m]);
            } else if a == r && b != r {
                let m = choose|m: int| 0 <= m < old(index)@.len() && #[trigger] old(index)@[m].1 == b;
                assert(index@[m] == old(index)@[m]);
            }
        }
        assert forall|n: usize| #[trigger] nodes.contains_key(n) implies exists|m: int| 0 <= m < index@.len() && #[trigger] index@[m].1 == n by {
            if n == r {
                assert(index@[index@.len() - 1].1 == n);
            } else {
                let m = choose|m: int| 0 <= m < old(index)@.len() && #[trigger] old(index)@[m].1 == n;
                assert(index@[m].1 == n);
            }
        }
        assert forall|m: int| 0 <= m < index@.len() implies nodes.contains_key(#[trigger] index@[m].1) && nodes[index@[m].1] == index@[m].0@ by {
            if m < old(index)@.len() {
                assert(index@[m] == old(index)@[m]);
            }
        }
    }
    r
}

/// Site `(a, b)` comes before position `(i, j)` in the records.
pub open spec fn done(i: int, j: int, a: int, b: int) -> bool {
    a < i || (a == i && b < j)
}

/// `name` is named by the part of the records before position `(i, j)`.
pub open spec fn named_before(recs: Seq<(String, Vec<DepEdge>)>, i: int, j: int, name: Seq<char>) -> bool {
    ||| exists|a: int| 0 <= a < i && #[trigger] caller_at(recs, a) == name
    ||| exists|a: int, b: int| is_site(recs, a, b) && done(i, j, a, b) && #[trigger] callee_at(recs, a, b) == name
}

/// The nodes whose record holds a lang-item call site before position `(i, j)`.
pub open spec fn roots_before(nodes: Map<usize, Seq<char>>, recs: Seq<(String, Vec<DepEdge>)>, i: int, j: int) -> Set<usize> {
    Set::new(|n: usize| nodes.contains_key(n) && exists|a: int, b: int|
        #[trigger] is_site(recs, a, b) && done(i, j, a, b) && site_at(recs, a, b).is_lang_item && nodes[n] == caller_at(recs, a))
}

/// The part of the graph built from the records before position `(i, j)`.
pub open spec fn built_before(
    g: DepGraph,
    recs: Seq<(String, Vec<DepEdge>)>,
    i: int,
    j: int,
    origin: Map<usize, (int, int)>,
    site_edge: Map<(int, int), usize>,
) -> bool {
    let nodes = graph_nodes(g);
    let edges = graph_edges(g);
    &&& graph_wf(g)
    &&& forall|n: usize| #[trigger] nodes.contains_key(n) ==> named_in(recs, nodes[n])
    &&& forall|name: Seq<char>| #[trigger] named_before(recs, i, j, name) ==>
            exists|n: usize| #[trigger] nodes.contains_key(n) && nodes[n] == name
    &&& origin.dom() == edges.dom()
    &&& forall|e: usize| #[trigger] edges.contains_key(e) ==>
            edge_of_site(nodes, edges[e], recs, origin[e].0, origin[e].1) && done(i, j, origin[e].0, origin[e].1)
    &&& forall|e1: usize, e2: usize|
            edges.contains_key(e1) && edges.contains_key(e2) && #[trigger] origin[e1] == #[trigger] origin[e2] ==> e1 == e2
    &&& forall|a: int, b: int| #[trigger] is_site(recs, a, b) && done(i, j, a, b) ==>
            site_edge.contains_key((a, b)) && edges.contains_key(site_edge[(a, b)]) && origin[site_edge[(a, b)]] == (a, b)
}

/// Builds the graph of the call-edge records: one node per identifier, one
/// edge per call site. Also returns the callers that have a lang-item call
/// site (a caller may be listed more than once).
pub fn build_graph(recs: &Vec<(String, Vec<DepEdge>)>) -> (res: (DepGraph, Vec<usize>))
    requires
        recs@.len() + sites_before(recs@, recs@.len() as int) < u32::MAX,
    ensures
        graph_wf(res.0),
        exists|origin: Map<usize, (int, int)>| represents(graph_nodes(res.0), graph_edges(res.0), recs@, origin),
        res.1@.to_set() == lang_roots(graph_nodes(res.0), recs@),
        forall|k: int| 0 <= k < res.1@.len() ==> graph_nodes(res.0).contains_key(#[trigger] res.1@[k]),
{
    let mut g = new_graph();
    let mut index: Vec<(String, usize)> = Vec::new();
    let mut roots: Vec<usize> = Vec::new();
    let ghost mut origin: Map<usize, (int, int)> = Map::empty();
    let ghost mut site_edge: Map<(int, int), usize> = Map::empty();
    proof {
        assert(graph_nodes(g) =~= Map::empty());
        assert(graph_edges(g) =~= Map::empty());
        assert(origin.dom() =~= graph_edges(g).dom());
        assert(roots@.to_set() =~= roots_before(graph_nodes(g), recs@, 0, 0));
    }
    let mut i: usize = 0;
    while i < recs.len()
        invariant
            i <= recs.len(),
            recs@.len() + sites_before(recs@, recs@.len() as int) < u32::MAX,
            node_slots(g) <= i + sites_before(recs@, i as int),
            edge_slots(g) <= sites_before(recs@, i as int),
            index_ok(index@, graph_nodes(g)),
            built_before(g, recs@, i as int, 0, origin, site_edge),
            roots@.to_set() == roots_before(graph_nodes(g), recs@, i as int, 0),
            forall|k: int| 0 <= k < roots@.len() ==> graph_nodes(g).contains_key(#[trigger] roots@[k]),
        decreases recs.len() - i,
    {
        proof {
            lemma_sites_before_monotone(recs@, i + 1, recs@.len() as int);
        }
        let ghost gb = g;
        let caller_idx = node_for(&mut g, &mut index, &recs[i].0);
        let calls = &recs[i].1;
        let mut j: usize = 0;
        proof {
            let nb = graph_nodes(gb);
            let nodes = graph_nodes(g);
            assert forall|name: Seq<char>| #[trigger] named_before(recs@, i as int, 0, name) implies
                exists|n: usize| #[trigger] nodes.contains_key(n) && nodes[n] == name by {
                let n = choose|n: usize| #[trigger] nb.contains_key(n) && nb[n] == name;
                assert(nodes.contains_key(n));
            }
            assert forall|n: usize| #[trigger] nodes.contains_key(n) implies named_in(recs@, nodes[n]) by {
                if n == caller_idx {
                    assert(caller_at(recs@, i as int) == nodes[n]);
                } else {
                    assert(nb.contains_key(n));
                }
            }
            assert forall|x: usize| #[trigger] graph_edges(g).contains_key(x) implies
                edge_of_site(nodes, graph_edges(g)[x], recs@, origin[x].0, origin[x].1) && done(i as int, 0, origin[x].0, origin[x].1) by {
                assert(graph_edges(gb).contains_key(x));
            }
            assert(roots@.to_set() =~= roots_before(nodes, recs@, i as int, 0)) by {
                assert forall|n: usize| roots_before(nodes, recs@, i as int, 0).contains(n) implies
                    roots_before(nb, recs@, i as int, 0).contains(n) by {
                    let (a, b) = choose|a: int, b: int|
                        #[trigger] is_site(recs@, a, b) && done(i as int, 0, a, b) && site_at(recs@, a, b).is_lang_item && nodes[n] == caller_at(recs@, a);
                    assert(named_before(recs@, i as int, 0, caller_at(recs@, a)));
                    let n2 = choose|n2: usize| #[trigger] nb.contains_key(n2) && nb[n2] == caller_at(recs@, a);
                    assert(nodes.contains_key(n2));
                    assert(n2 == n);
                }
                assert forall|n: usize| roots_before(nb, recs@, i as int, 0).contains(n) implies
                    roots_before(nodes, recs@, i as int, 0).contains(n) by {
                    assert(nodes.contains_key(n));
                }
            }
        }
        while j < calls.len()
            invariant
                i < recs.len(),
                calls == recs@[i as int].1,
                j <= calls.len(),
                recs@.len() + sites_before(recs@, recs@.len() as int) < u32::MAX,
                sites_before(recs@, i + 1) <= sites_before(recs@, recs@.len() as int),
                node_slots(g) <= i + 1 + sites_before(recs@, i as int) + j,
                edge_slots(g) <= sites_before(recs@, i as int) + j,
                index_ok(index@, graph_nodes(g)),
                graph_nodes(g).contains_key(caller_idx),
                graph_nodes(g)[caller_idx] == caller_at(recs@, i as int),
                built_before(g, recs@, i as int, j as int, origin, site_edge),
                roots@.to_set() == roots_before(graph_nodes(g), recs@, i as int, j as int),
                forall|k: int| 0 <= k < roots@.len() ==> graph_nodes(g).contains_key(#[trigger] roots@[k]),
            decreases calls.len() - j,
        {
            let ghost g0 = g;
            let ghost r0 = roots@;
            let ce = &calls[j];
            let callee = ce.full_callee_name();
            let callee_idx = node_for(&mut g, &mut index, &callee);
            assert(graph_nodes(g).contains_key(callee_idx));
            assert(graph_nodes(g).contains_key(caller_idx));
            let e = add_edge(&mut g, caller_idx, callee_idx, ce.src_loc.copied());
            proof {
                origin = origin.insert(e, (i as int, j as int));
                site_edge = site_edge.insert((i as int, j as int), e);
            }
            if ce.is_lang_item {
                roots.push(caller_idx);
            }
            proof {
                let nodes = graph_nodes(g);
                let edges = graph_edges(g);
                assert(is_site(recs@, i as int, j as int));
                assert(callee_at(recs@, i as int, j as int) == callee@);
                assert(named_in(recs@, callee@));
                assert forall|n: usize| #[trigger] nodes.contains_key(n) implies named_in(recs@, nodes[n]) by {
                    if n != callee_idx {
                        assert(graph_nodes(g0).contains_key(n));
                    }
                }
                assert forall|name: Seq<char>| #[trigger] named_before(recs@, i as int, j + 1, name) implies
                    exists|n: usize| #[trigger] nodes.contains_key(n) && nodes[n] == name by {
                    if name == callee@ {
                        assert(nodes.contains_key(callee_idx));
                    } else {
                        assert(named_before(recs@, i as int, j as int, name));
                        let n = choose|n: usize| #[trigger] graph_nodes(g0).contains_key(n) && graph_nodes(g0)[n] == name;
                        assert(nodes.contains_key(n));
                    }
                }
                assert(origin.dom() =~= edges.dom());
                assert forall|x: usize| #[trigger] edges.contains_key(x) implies
                    edge_of_site(nodes, edges[x], recs@, origin[x].0, origin[x].1) && done(i as int, j + 1, origin[x].0, origin[x].1) by {
                    if x != e {
                        assert(graph_edges(g0).contains_key(x));
                    }
                }
                assert forall|a: int, b: int| #[trigger] is_site(recs@, a, b) && done(i as int, j + 1, a, b) implies
                    site_edge.contains_key((a, b)) && edges.contains_key(site_edge[(a, b)]) && origin[site_edge[(a, b)]] == (a, b) by {
                    if (a, b) != (i as int, j as int) {
                        assert(done(i as int, j as int, a, b));
                    }
                }
                assert(roots@.to_set() =~= roots_before(nodes, recs@, i as int, j + 1)) by {
                    if ce.is_lang_item {
                        r0.lemma_push_to_set_commute(caller_idx);
                    }
                    assert forall|n: usize| roots_before(nodes, recs@, i as int, j + 1).contains(n) implies roots@.to_set().contains(n) by {
                        let (a, b) = choose|a: int, b: int|
                            #[trigger] is_site(recs@, a, b) && done(i as int, j + 1, a, b) && site_at(recs@, a, b).is_lang_item && nodes[n] == caller_at(recs@, a);
                        if (a, b) == (i as int, j as int) {
                            assert(n == caller_idx);
                        } else {
                            assert(roots_before(graph_nodes(g0), recs@, i as int, j as int).contains(n));
                        }
                    }
                    assert forall|n: usize| roots@.to_set().contains(n) implies roots_before(nodes, recs@, i as int, j + 1).contains(n) by {
                        if r0.to_set().contains(n) {
                            assert(roots_before(graph_nodes(g0), recs@, i as int, j as int).contains(n));
                        } else {
                            assert(n == caller_idx);
                        }
                    }
                }
            }
            j = j + 1;
        }
        proof {
            assert forall|name: Seq<char>| #[trigger] named_before(recs@, i + 1, 0, name) implies
                exists|n: usize| #[trigger] graph_nodes(g).contains_key(n) && graph_nodes(g)[n] == name by {
                if name != caller_at(recs@, i as int) {
                    if exists|a: int| 0 <= a < i + 1 && #[trigger] caller_at(recs@, a) == name {
                        let a = choose|a: int| 0 <= a < i + 1 && #[trigger] caller_at(recs@, a) == name;
                        assert(named_before(recs@, i as int, j as int, name));
                    } else {
                        let (a, b) = choose|a: int, b: int| is_site(recs@, a, b) && done(i + 1, 0, a, b) && #[trigger] callee_at(recs@, a, b) == name;
                        assert(done(i as int, j as int, a, b));
                        assert(named_before(recs@, i as int, j as int, name));
                    }
                }
            }
            assert forall|x: usize| #[trigger] graph_edges(g).contains_key(x) implies
                edge_of_site(graph_nodes(g), graph_edges(g)[x], recs@, origin[x].0, origin[x].1) && done(i + 1, 0, origin[x].0, origin[x].1) by {
            }
            assert forall|a: int, b: int| #[trigger] is_site(recs@, a, b) && done(i + 1, 0, a, b) implies
                site_edge.contains_key((a, b)) && graph_edges(g).contains_key(site_edge[(a, b)]) && origin[site_edge[(a, b)]] == (a, b) by {
                assert(done(i as int, j as int, a, b));
            }
            assert(roots@.to_set() =~= roots_before(graph_nodes(g), recs@, i + 1, 0)) by {
                assert forall|n: usize| roots_before(graph_nodes(g), recs@, i + 1, 0).contains(n) implies
                    roots_before(graph_nodes(g), recs@, i as int, j as int).contains(n) by {
                    let (a, b) = choose|a: int, b: int|
                        #[trigger] is_site(recs@, a, b) && done(i + 1, 0, a, b) && site_at(recs@, a, b).is_lang_item && graph_nodes(g)[n] == caller_at(recs@, a);
                    assert(done(i as int, j as int, a, b));
                }
            }
        }
        i = i + 1;
    }
    proof {
        let nodes = graph_nodes(g);
        let edges = graph_edges(g);
        assert forall|name: Seq<char>| #[trigger] named_in(recs@, name) implies
            exists|n: usize| #[trigger] nodes.contains_key(n) && nodes[n] == name by {
            if exists|a: int| 0 <= a < recs@.len() && #[trigger] caller_at(recs@, a) == name {
                assert(named_before(recs@, i as int, 0, name));
            } else {
                let (a, b) = choose|a: int, b: int| is_site(recs@, a, b) && #[trigger] callee_at(recs@, a, b) == name;
                assert(done(i as int, 0, a, b));
                assert(named_before(recs@, i as int, 0, name));
            }
        }
        assert forall|a: int, b: int| #[trigger] is_site(recs@, a, b) implies
            exists|e: usize| #[trigger] edges.contains_key(e) && origin[e] == (a, b) by {
            assert(done(i as int, 0, a, b));
            assert(edges.contains_key(site_edge[(a, b)]));
        }
        assert(represents(nodes, edges, recs@, origin));
        assert(roots@.to_set() =~= lang_roots(nodes, recs@)) by {
            assert forall|n: usize| lang_roots(nodes, recs@).contains(n) implies roots_before(nodes, recs@, i as int, 0).contains(n) by {
                let (a, b) = choose|a: int, b: int|
                    #[trigger] is_site(recs@, a, b) && site_at(recs@, a, b).is_lang_item && nodes[n] == caller_at(recs@, a);
                assert(done(i as int, 0, a, b));
            }
        }
    }
    (g, roots)
}

} // verus!
