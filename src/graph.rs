//! The dependency graph: a petgraph `StableDiGraph` of identifiers whose
//! edges carry the location of the call. Every operation the analysis needs
//! goes through one of the small trusted functions below; their contracts are
//! stated over the names `graph_nodes`, `graph_edges` and `graph_out`.

use petgraph::dot::{Config, Dot};
use petgraph::stable_graph::{EdgeIndex, NodeIndex, StableDiGraph, StableGraph};
use petgraph::visit::EdgeRef;
use petgraph::{Directed, Direction};
use vstd::prelude::*;

use crate::summaries::SourceLocation;

verus! {

#[verifier::external_type_specification]
#[verifier::external_body]
#[verifier::reject_recursive_types(N)]
#[verifier::reject_recursive_types(E)]
#[verifier::reject_recursive_types(Ty)]
#[verifier::reject_recursive_types(Ix)]
pub struct ExStableGraph<N, E, Ty, Ix>(StableGraph<N, E, Ty, Ix>);

#[verifier::external_type_specification]
#[verifier::external_body]
pub struct ExDirected(Directed);

/// Call graph: nodes are identifiers, edges are call sites.
pub type DepGraph = StableDiGraph<String, SourceLocation>;

/// One edge of the graph: (source node, target node, file, line).
pub type EdgeModel = (usize, usize, Seq<char>, usize);

/// The live nodes of the graph, by index, with the identifier each holds.
pub uninterp spec fn graph_nodes(g: DepGraph) -> Map<usize, Seq<char>>;

/// The live edges of the graph, by index.
pub uninterp spec fn graph_edges(g: DepGraph) -> Map<usize, EdgeModel>;

/// For each node, its outgoing edges in the order in which the graph lists them.
pub uninterp spec fn graph_out(g: DepGraph) -> Map<usize, Seq<usize>>;

/// The node slots the graph has used, live or vacant.
pub uninterp spec fn node_slots(g: DepGraph) -> nat;

/// The edge slots the graph has used, live or vacant.
pub uninterp spec fn edge_slots(g: DepGraph) -> nat;

/// Indices fit the graph's `u32` index type and every edge joins live nodes.
pub open spec fn graph_wf(g: DepGraph) -> bool {
    &&& graph_nodes(g).dom().finite()
    &&& graph_edges(g).dom().finite()
    &&& forall|n: usize| #[trigger] graph_nodes(g).contains_key(n) ==> n < u32::MAX
    &&& forall|e: usize| #[trigger] graph_edges(g).contains_key(e) ==> {
        &&& e < u32::MAX
        &&& graph_nodes(g).contains_key(graph_edges(g)[e].0)
        &&& graph_nodes(g).contains_key(graph_edges(g)[e].1)
    }
}

/// The edges leaving node `n`.
pub open spec fn out_set(g: DepGraph, n: usize) -> Set<usize> {
    graph_edges(g).dom().filter(|e: usize| graph_edges(g)[e].0 == n)
}

/// The edges entering node `n`.
pub open spec fn in_set(g: DepGraph, n: usize) -> Set<usize> {
    graph_edges(g).dom().filter(|e: usize| graph_edges(g)[e].1 == n)
}

/// Relies on `StableGraph::new`: a new graph is empty and has used no slot.
#[verifier::external_body]
pub(crate) fn new_graph() -> (g: DepGraph)
    ensures
        graph_nodes(g).dom() == Set::<usize>::empty(),
        graph_edges(g).dom() == Set::<usize>::empty(),
        node_slots(g) == 0,
        edge_slots(g) == 0,
{
    StableGraph::new()
}

/// Relies on `StableGraph::add_node`: the node gets an index that no live
/// node has, taken from a vacant slot or a new one; it panics only when a new
/// slot would be `u32::MAX`.
#[verifier::external_body]
pub(crate) fn add_node(g: &mut DepGraph, w: String) -> (r: usize)
    requires
        node_slots(*old(g)) < u32::MAX,
    ensures
        r < u32::MAX,
        !graph_nodes(*old(g)).contains_key(r),
        graph_nodes(*final(g)) == graph_nodes(*old(g)).insert(r, w@),
        graph_edges(*final(g)) == graph_edges(*old(g)),
        node_slots(*final(g)) <= node_slots(*old(g)) + 1,
        edge_slots(*final(g)) == edge_slots(*old(g)),
{
    g.add_node(w).index()
}

/// Relies on `StableGraph::add_edge`: the edge gets an index that no live
/// edge has; it panics only on an endpoint that is not a live node, or when a
/// new slot would be `u32::MAX`.
#[verifier::external_body]
pub(crate) fn add_edge(g: &mut DepGraph, a: usize, b: usize, w: SourceLocation) -> (r: usize)
    requires
        a < u32::MAX,
        b < u32::MAX,
        graph_nodes(*old(g)).contains_key(a),
        graph_nodes(*old(g)).contains_key(b),
        edge_slots(*old(g)) < u32::MAX,
    ensures
        r < u32::MAX,
        !graph_edges(*old(g)).contains_key(r),
        graph_edges(*final(g)) == graph_edges(*old(g)).insert(r, (a, b, w.file@, w.line_no)),
        graph_nodes(*final(g)) == graph_nodes(*old(g)),
        node_slots(*final(g)) == node_slots(*old(g)),
        edge_slots(*final(g)) <= edge_slots(*old(g)) + 1,
{
    g.add_edge(NodeIndex::new(a), NodeIndex::new(b), w).index()
}

/// Relies on `StableGraph::remove_node`: the node goes, and with it every
/// edge that starts or ends at it; slots are kept.
#[verifier::external_body]
pub(crate) fn remove_node(g: &mut DepGraph, a: usize)
    requires
        a < u32::MAX,
        graph_nodes(*old(g)).contains_key(a),
    ensures
        graph_nodes(*final(g)) == graph_nodes(*old(g)).remove(a),
        graph_edges(*final(g)) == graph_edges(*old(g)).restrict(
            graph_edges(*old(g)).dom().filter(
                |e: usize| graph_edges(*old(g))[e].0 != a && graph_edges(*old(g))[e].1 != a,
            ),
        ),
        node_slots(*final(g)) == node_slots(*old(g)),
        edge_slots(*final(g)) == edge_slots(*old(g)),
{
    g.remove_node(NodeIndex::new(a));
}

/// Relies on `StableGraph::edges`: the outgoing edges of a live node, each
/// once, in the graph's own order.
#[verifier::external_body]
pub(crate) fn out_edges(g: &DepGraph, n: usize) -> (r: Vec<usize>)
    requires
        n < u32::MAX,
        graph_nodes(*g).contains_key(n),
    ensures
        r@ == graph_out(*g)[n],
        r@.no_duplicates(),
        r@.to_set() == out_set(*g, n),
{
    g.edges(NodeIndex::new(n)).map(|e| e.id().index()).collect()
}

/// Relies on `StableGraph::edges_directed` with `Incoming`: the incoming
/// edges of a live node, each once.
#[verifier::external_body]
pub(crate) fn in_edges(g: &DepGraph, n: usize) -> (r: Vec<usize>)
    requires
        n < u32::MAX,
        graph_nodes(*g).contains_key(n),
    ensures
        r@.no_duplicates(),
        r@.to_set() == in_set(*g, n),
{
    g.edges_directed(NodeIndex::new(n), Direction::Incoming).map(|e| e.id().index()).collect()
}

/// Relies on `StableGraph::node_indices`: the live nodes in increasing order.
#[verifier::external_body]
pub(crate) fn node_indices(g: &DepGraph) -> (r: Vec<usize>)
    ensures
        forall|i: int, j: int| 0 <= i < j < r@.len() ==> r@[i] < r@[j],
        r@.to_set() == graph_nodes(*g).dom(),
{
    g.node_indices().map(|n| n.index()).collect()
}

/// Relies on `StableGraph::node_weight`: the identifier of a live node.
#[verifier::external_body]
pub(crate) fn node_weight(g: &DepGraph, n: usize) -> (r: &String)
    requires
        n < u32::MAX,
        graph_nodes(*g).contains_key(n),
    ensures
        r@ == graph_nodes(*g)[n],
{
    g.node_weight(NodeIndex::new(n)).unwrap()
}

/// Relies on `StableGraph::edge_weight`: the call location of a live edge.
#[verifier::external_body]
pub(crate) fn edge_weight(g: &DepGraph, e: usize) -> (r: &SourceLocation)
    requires
        e < u32::MAX,
        graph_edges(*g).contains_key(e),
    ensures
        r.file@ == graph_edges(*g)[e].2,
        r.line_no == graph_edges(*g)[e].3,
{
    g.edge_weight(EdgeIndex::new(e)).unwrap()
}

/// Relies on `StableGraph::edge_endpoints`: source and target of a live edge.
#[verifier::external_body]
pub(crate) fn edge_endpoints(g: &DepGraph, e: usize) -> (r: (usize, usize))
    requires
        e < u32::MAX,
        graph_edges(*g).contains_key(e),
    ensures
        r.0 == graph_edges(*g)[e].0,
        r.1 == graph_edges(*g)[e].1,
{
    let (a, b) = g.edge_endpoints(EdgeIndex::new(e)).unwrap();
    (a.index(), b.index())
}

/// The graph-description text of a graph, without edge labels.
pub uninterp spec fn dot_text(g: DepGraph) -> Seq<char>;

/// Relies on petgraph's `Dot` with `Config::EdgeNoLabel`: the text depends on
/// the graph alone.
#[verifier::external_body]
pub(crate) fn to_dot(g: &DepGraph) -> (r: String)
    ensures
        r@ == dot_text(*g),
{
    format!("{:?}", Dot::with_config(g, &[Config::EdgeNoLabel]))
}

} // verus!
