//! The analysis: graph, pruning, entry points, walk and report.

use vstd::prelude::*;

use crate::builder::{build_graph, lang_roots, lemma_sites_before_monotone, represents, sites_before};
use crate::graph::{
    edge_weight, graph_edges, graph_nodes, graph_wf, node_indices, node_weight, to_dot, dot_text, DepGraph, EdgeModel,
};
use crate::prune::{edges_outside, is_prune_set, prune_set, remove_pruned};
use crate::summaries::{DepEdge, MarkedItem, SourceLocation};
use crate::traverse::{
    audit_walk, marking_of, walk_graph, walk_sound, Walk,
};

verus! {

/// A point of a reported path: the function reached, and where it is called.
pub type ProgPoint = (String, SourceLocation);

/// The model of a point: identifier, file, line.
pub type PointModel = (Seq<char>, Seq<char>, usize);

/// A reported path, from the first call of an entry point down to the
/// classified call.
pub struct DepPath {
    pub path: Vec<ProgPoint>,
}

/// The model of a sequence of points.
pub open spec fn points_view(s: Seq<ProgPoint>) -> Seq<PointModel> {
    s.map_values(|pp: ProgPoint| (pp.0@, pp.1.file@, pp.1.line_no))
}

impl View for DepPath {
    type V = Seq<PointModel>;

    open spec fn view(&self) -> Seq<PointModel> {
        points_view(self.path@)
    }
}

/// The points of a path of edges: for each call, its target and its location.
pub open spec fn points_of(g: DepGraph, p: Seq<usize>) -> Seq<PointModel> {
    p.map_values(|e: usize| (graph_nodes(g)[graph_edges(g)[e].1], graph_edges(g)[e].2, graph_edges(g)[e].3))
}

impl DepPath {
    fn instantiate(abstract_path: &Vec<usize>, dg: &DepGraph) -> (r: DepPath)
        requires
            graph_wf(*dg),
            forall|i: int| 0 <= i < abstract_path@.len() ==> graph_edges(*dg).contains_key(#[trigger] abstract_path@[i]),
        ensures
            r@ == points_of(*dg, abstract_path@),
    {
        let mut path: Vec<ProgPoint> = Vec::new();
        let mut i: usize = 0;
        while i < abstract_path.len()
            invariant
                graph_wf(*dg),
                forall|j: int| 0 <= j < abstract_path@.len() ==> graph_edges(*dg).contains_key(#[trigger] abstract_path@[j]),
                i <= abstract_path.len(),
                points_view(path@) == points_of(*dg, abstract_path@.take(i as int)),
            decreases abstract_path.len() - i,
        {
            let e = abstract_path[i];
            assert(graph_edges(*dg).contains_key(e));
            let (_, t) = crate::graph::edge_endpoints(dg, e);
            let name = node_weight(dg, t).clone();
            let loc = edge_weight(dg, e).copied();
            let ghost before = path@;
            let ghost pt: PointModel = (name@, loc.file@, loc.line_no);
            path.push((name, loc));
            proof {
                let q = abstract_path@.take(i + 1);
                assert(q =~= abstract_path@.take(i as int).push(e));
                let v = points_view(path@);
                assert(points_view(before).len() == before.len());
                assert(points_of(*dg, abstract_path@.take(i as int)).len() == i);
                assert(before.len() == i);
                assert(v.len() == q.len());
                assert forall|j: int| 0 <= j < v.len() implies v[j] == points_of(*dg, q)[j] by {
                    if j < i {
                        assert(path@[j] == before[j]);
                        assert(points_view(before)[j] == points_of(*dg, abstract_path@.take(i as int))[j]);
                    } else {
                        assert(v[j] == pt);
                    }
                }
                assert(v =~= points_of(*dg, q));
            }
            i = i + 1;
        }
        assert(abstract_path@.take(i as int) =~= abstract_path@);
        DepPath { path }
    }

    /// The points of the path, from the entry point down.
    pub fn points(&self) -> (r: &Vec<ProgPoint>)
        ensures
            r == &self.path,
    {
        &self.path
    }
}

/// The findings of one analysis: audited calls with their escort, and
/// unaudited calls.
pub struct AuditReport {
    pub audited: Vec<(String, DepPath)>,
    pub unaudited: Vec<DepPath>,
}

impl View for AuditReport {
    type V = (Seq<(Seq<char>, Seq<PointModel>)>, Seq<Seq<PointModel>>);

    open spec fn view(&self) -> Self::V {
        (
            self.audited@.map_values(|a: (String, DepPath)| (a.0@, a.1@)),
            self.unaudited@.map_values(|p: DepPath| p@),
        )
    }
}

/// The report of a walk: escorts by identifier, paths as points.
pub open spec fn report_of(g: DepGraph, w: Walk) -> (Seq<(Seq<char>, Seq<PointModel>)>, Seq<Seq<PointModel>>) {
    (
        w.audited.map_values(|a: (usize, Seq<usize>)| (graph_nodes(g)[a.0], points_of(g, a.1))),
        w.unaudited.map_values(|p: Seq<usize>| points_of(g, p)),
    )
}

/// Node `n` is an entry point: its marking says so.
pub open spec fn is_entry_node(g: DepGraph, db: Seq<(String, MarkedItem)>, n: usize) -> bool {
    match marking_of(g, db, n) {
        Some(m) => m.is_entry_point,
        None => false,
    }
}

/// The entry points of `g`, in increasing order.
pub open spec fn entries_of(g: DepGraph, db: Seq<(String, MarkedItem)>, entries: Seq<usize>) -> bool {
    &&& forall|a: int, b: int| 0 <= a < b < entries.len() ==> entries[a] < entries[b]
    &&& entries.to_set() == graph_nodes(g).dom().filter(|n: usize| is_entry_node(g, db, n))
}

/// The nodes of `g` whose marking makes them entry points, in increasing order.
pub fn entry_points(g: &DepGraph, db: &Vec<(String, MarkedItem)>) -> (r: Vec<usize>)
    requires
        graph_wf(*g),
    ensures
        entries_of(*g, db@, r@),
{
    let ids = node_indices(g);
    let mut r: Vec<usize> = Vec::new();
    let mut i: usize = 0;
    while i < ids.len()
        invariant
            graph_wf(*g),
            i <= ids.len(),
            ids@.to_set() == graph_nodes(*g).dom(),
            forall|a: int, b: int| 0 <= a < b < ids@.len() ==> ids@[a] < ids@[b],
            forall|a: int, b: int| 0 <= a < b < r@.len() ==> r@[a] < r@[b],
            forall|a: int| 0 <= a < r@.len() ==> exists|b: int| 0 <= b < i && ids@[b] == #[trigger] r@[a],
            r@.to_set() == ids@.take(i as int).to_set().filter(|n: usize| is_entry_node(*g, db@, n)),
        decreases ids.len() - i,
    {
        let n = ids[i];
        assert(ids@.to_set().contains(n));
        let ghost r0 = r@;
        proof {
            assert(ids@.take(i + 1) =~= ids@.take(i as int).push(n));
            ids@.take(i as int).lemma_push_to_set_commute(n);
        }
        let m = crate::traverse::node_marking(g, db, n);
        let is_entry = match m {
            Some(mk) => mk.is_entry_point,
            None => false,
        };
        if is_entry {
            r.push(n);
            proof {
                r0.lemma_push_to_set_commute(n);
                assert forall|a: int| 0 <= a < r@.len() implies exists|b: int| 0 <= b < i + 1 && ids@[b] == #[trigger] r@[a] by {
                    if a == r0.len() {
                        assert(ids@[i as int] == r@[a]);
                    } else {
                        assert(r@[a] == r0[a]);
                    }
                }
                assert forall|a: int, b: int| 0 <= a < b < r@.len() implies r@[a] < r@[b] by {
                    if b == r0.len() {
                        let c = choose|c: int| 0 <= c < i && ids@[c] == #[trigger] r0[a];
                        assert(ids@[c] < ids@[i as int]);
                    }
                }
            }
        }
        proof {
            assert(r@.to_set() =~= ids@.take(i + 1).to_set().filter(|x: usize| is_entry_node(*g, db@, x)));
        }
        i = i + 1;
    }
    proof {
        assert(ids@.take(i as int) =~= ids@);
    }
    r
}

/// `(nodes, edges)` is the graph of the records once pruned: the full graph
/// of the records, less the nodes that pruning removes from its lang-item
/// roots and every edge that touches one.
pub open spec fn pruned_graph_of(
    nodes: Map<usize, Seq<char>>,
    edges: Map<usize, EdgeModel>,
    recs: Seq<(String, Vec<DepEdge>)>,
) -> bool {
    exists|n0: Map<usize, Seq<char>>, e0: Map<usize, EdgeModel>, origin: Map<usize, (int, int)>, p: Set<usize>|
        #![trigger represents(n0, e0, recs, origin), is_prune_set(e0, lang_roots(n0, recs), p)]
        represents(n0, e0, recs, origin) && is_prune_set(e0, lang_roots(n0, recs), p)
            && nodes == n0.remove_keys(p) && edges == edges_outside(e0, p)
}

/// Walks the graph from its entry points and reports every call into a node
/// that requires an audit.
pub fn audit_graph(dg: &DepGraph, marking_db: &Vec<(String, MarkedItem)>, entries: &Vec<usize>) -> (r: AuditReport)
    requires
        graph_wf(*dg),
        forall|k: int| 0 <= k < entries@.len() ==> graph_nodes(*dg).contains_key(#[trigger] entries@[k]),
    ensures
        r@ == report_of(*dg, audit_walk(*dg, marking_db@, entries@)),
        walk_sound(*dg, marking_db@, entries@, audit_walk(*dg, marking_db@, entries@)),
{
    let st = walk_graph(dg, marking_db, entries);
    let ghost w = st.walk();
    let mut report = AuditReport { audited: Vec::new(), unaudited: Vec::new() };
    let mut i: usize = 0;
    while i < st.audited.len()
        invariant
            graph_wf(*dg),
            w == st.walk(),
            walk_sound(*dg, marking_db@, entries@, w),
            i <= st.audited.len(),
            report@.0 == report_of(*dg, w).0.take(i as int),
            report@.1 == Seq::<Seq<PointModel>>::empty(),
        decreases st.audited.len() - i,
    {
        let esc = st.audited[i].0;
        let ghost p = st.audited@[i as int].1@;
        assert(w.audited[i as int] == (esc, p));
        proof {
            crate::laws::lemma_escort_on_own_path(*dg, marking_db@, p, crate::traverse::requires_group(*dg, marking_db@, graph_edges(*dg)[p.last()].1).unwrap());
            let j = choose|j: int| 0 <= j < p.len() && graph_edges(*dg)[#[trigger] p[j]].0 == esc;
            assert(graph_edges(*dg).contains_key(p[j]));
        }
        let name = node_weight(dg, esc).clone();
        let dp = DepPath::instantiate(&st.audited[i].1, dg);
        let ghost item = (name@, dp@);
        let ghost r0 = report@.0;
        report.audited.push((name, dp));
        proof {
            assert(report@.0 =~= r0.push(item));
            assert(report@.0 =~= report_of(*dg, w).0.take(i + 1));
        }
        i = i + 1;
    }
    assert(report_of(*dg, w).0.take(i as int) =~= report_of(*dg, w).0);
    let mut k: usize = 0;
    while k < st.unaudited.len()
        invariant
            graph_wf(*dg),
            w == st.walk(),
            walk_sound(*dg, marking_db@, entries@, w),
            k <= st.unaudited.len(),
            report@.0 == report_of(*dg, w).0,
            report@.1 == report_of(*dg, w).1.take(k as int),
        decreases st.unaudited.len() - k,
    {
        assert(w.unaudited[k as int] == st.unaudited@[k as int]@);
        let dp = DepPath::instantiate(&st.unaudited[k], dg);
        let ghost item = dp@;
        let ghost r1 = report@.1;
        report.unaudited.push(dp);
        proof {
            assert(report@.1 =~= r1.push(item));
            assert(report@.1 =~= report_of(*dg, w).1.take(k + 1));
        }
        k = k + 1;
    }
    assert(report_of(*dg, w).1.take(k as int) =~= report_of(*dg, w).1);
    report
}

/// The analysis over the two record tables: markings by identifier, and
/// call edges by caller.
pub struct TaurusAnalyzer {
    pub marking_db: Vec<(String, MarkedItem)>,
    pub calledge_db: Vec<(String, Vec<DepEdge>)>,
}

impl TaurusAnalyzer {
    pub fn new(marking_db: Vec<(String, MarkedItem)>, calledge_db: Vec<(String, Vec<DepEdge>)>) -> (r: Self)
        ensures
            r.marking_db == marking_db,
            r.calledge_db == calledge_db,
    {
        TaurusAnalyzer { marking_db, calledge_db }
    }

    /// The graph's `u32` indices can number every caller and call site.
    pub open spec fn fits_index(&self) -> bool {
        self.calledge_db@.len() + sites_before(self.calledge_db@, self.calledge_db@.len() as int) < u32::MAX
    }

    /// Whether the graph's `u32` indices can number every caller and call site.
    pub fn within_index_limits(&self) -> (r: bool)
        ensures
            r == self.fits_index(),
    {
        let recs = &self.calledge_db;
        let n = recs.len();
        if n >= 0xFFFF_FFFF {
            return false;
        }
        let mut total: usize = n;
        let mut i: usize = 0;
        while i < n
            invariant
                recs@ == self.calledge_db@,
                n == recs@.len(),
                i <= n,
                total == n + sites_before(recs@, i as int),
                total < u32::MAX,
            decreases n - i,
        {
            let more = recs[i].1.len();
            if more >= 0xFFFF_FFFF - total {
                proof {
                    lemma_sites_before_monotone(recs@, i + 1, n as int);
                    assert(sites_before(recs@, i + 1) == sites_before(recs@, i as int) + recs@[i as int].1@.len());
                }
                return false;
            }
            total = total + more;
            assert(sites_before(recs@, i + 1) == sites_before(recs@, i as int) + recs@[i as int].1@.len());
            i = i + 1;
        }
        true
    }

    /// The pruned dependency graph and its entry points.
    pub fn get_depgraph(&self) -> (r: (DepGraph, Vec<usize>))
        requires
            self.fits_index(),
        ensures
            graph_wf(r.0),
            pruned_graph_of(graph_nodes(r.0), graph_edges(r.0), self.calledge_db@),
            entries_of(r.0, self.marking_db@, r.1@),
    {
        let (mut g, roots) = build_graph(&self.calledge_db);
        let ghost n0 = graph_nodes(g);
        let ghost e0 = graph_edges(g);
        let pruned = prune_set(&g, &roots);
        remove_pruned(&mut g, &pruned);
        let entries = entry_points(&g, &self.marking_db);
        proof {
            let origin = choose|origin: Map<usize, (int, int)>| represents(n0, e0, self.calledge_db@, origin);
            assert(represents(n0, e0, self.calledge_db@, origin) && is_prune_set(e0, lang_roots(n0, self.calledge_db@), pruned@));
        }
        (g, entries)
    }

    /// Walks the pruned graph from its entry points and reports every call
    /// into a function that requires an audit, with its escort if it has one.
    pub fn audit(&self) -> (r: AuditReport)
        requires
            self.fits_index(),
        ensures
            exists|g: DepGraph, entries: Seq<usize>| {
                &&& graph_wf(g)
                &&& pruned_graph_of(graph_nodes(g), graph_edges(g), self.calledge_db@)
                &&& entries_of(g, self.marking_db@, entries)
                &&& r@ == report_of(g, audit_walk(g, self.marking_db@, entries))
                &&& walk_sound(g, self.marking_db@, entries, audit_walk(g, self.marking_db@, entries))
            },
    {
        let (dg, entry_points) = self.get_depgraph();
        proof {
            assert forall|k: int| 0 <= k < entry_points@.len() implies graph_nodes(dg).contains_key(#[trigger] entry_points@[k]) by {
                assert(entry_points@.to_set().contains(entry_points@[k]));
            }
        }
        audit_graph(&dg, &self.marking_db, &entry_points)
    }

    /// The pruned dependency graph as graph-description text.
    pub fn get_depgraph_dot(&self) -> (r: String)
        requires
            self.fits_index(),
        ensures
            exists|g: DepGraph| {
                &&& pruned_graph_of(graph_nodes(g), graph_edges(g), self.calledge_db@)
                &&& r@ == dot_text(g)
            },
    {
        let dg = self.get_depgraph().0;
        to_dot(&dg)
    }
}

} // verus!
