//! Properties of pruning and of the audit walk, stated over the models the
//! functions' contracts use.

use vstd::prelude::*;

use crate::analyzer::{report_of, AuditReport};
use crate::graph::{graph_edges, DepGraph, EdgeModel};
use crate::prune::{edges_outside, fed_only_from, is_prune_set, prune_step};
use crate::summaries::MarkedItem;
use crate::traverse::{audit_walk, audits_group, escort_of, requires_group, unescorted, walk_sound, Walk};

verus! {

/// A node that is not itself a lang-item root survives pruning as soon as
/// one of its callers survives, whatever other callers it has.
pub proof fn lemma_pruning_unanimity(
    edges: Map<usize, EdgeModel>,
    roots: Set<usize>,
    p: Set<usize>,
    t: usize,
    e: usize,
)
    requires
        is_prune_set(edges, roots, p),
        !roots.contains(t),
        edges.contains_key(e),
        edges[e].1 == t,
        !p.contains(edges[e].0),
    ensures
        !p.contains(t),
{
    if p.contains(t) {
        assert(prune_step(edges, roots, p).contains(t));
        assert(fed_only_from(edges, t, p));
    }
}

/// Pruning removes every lang-item root, and every node that has callers
/// all of which are removed; no edge that touches a removed node is left.
pub proof fn lemma_pruning_totality(edges: Map<usize, EdgeModel>, roots: Set<usize>, p: Set<usize>, t: usize)
    requires
        is_prune_set(edges, roots, p),
        roots.contains(t) || (
            (exists|e: usize| #[trigger] edges.contains_key(e) && edges[e].1 == t)
            && (forall|e: usize| #[trigger] edges.contains_key(e) && edges[e].1 == t ==> p.contains(edges[e].0))
        ),
    ensures
        p.contains(t),
        forall|e: usize| #[trigger] edges_outside(edges, p).contains_key(e) ==>
            !p.contains(edges[e].0) && !p.contains(edges[e].1),
{
    assert(prune_step(edges, roots, p).contains(t));
}

/// The escort named for a group at the end of a path is a caller on that
/// path and audits that group: an auditor on another branch never counts.
pub proof fn lemma_escort_on_own_path(g: DepGraph, db: Seq<(String, MarkedItem)>, path: Seq<usize>, grp: Seq<char>)
    requires
        escort_of(g, db, path, grp).is_some(),
    ensures
        audits_group(g, db, escort_of(g, db, path, grp).unwrap()) == Some(grp),
        exists|i: int| 0 <= i < path.len() && graph_edges(g)[#[trigger] path[i]].0 == escort_of(g, db, path, grp).unwrap(),
    decreases path.len(),
{
    let src = graph_edges(g)[path.last()].0;
    if audits_group(g, db, src) != Some(grp) {
        lemma_escort_on_own_path(g, db, path.drop_last(), grp);
        let i = choose|i: int| 0 <= i < path.drop_last().len() && graph_edges(g)[#[trigger] path.drop_last()[i]].0 == escort_of(g, db, path, grp).unwrap();
        assert(path[i] == path.drop_last()[i]);
    } else {
        assert(graph_edges(g)[path[path.len() - 1]].0 == src);
    }
}

/// Every audited finding names as escort a caller on its own path that
/// audits the group its last call requires.
pub proof fn lemma_findings_scoped(g: DepGraph, db: Seq<(String, MarkedItem)>, entries: Seq<usize>, w: Walk, k: int)
    requires
        walk_sound(g, db, entries, w),
        0 <= k < w.audited.len(),
    ensures
        ({
            let (esc, p) = w.audited[k];
            &&& requires_group(g, db, graph_edges(g)[p.last()].1).is_some()
            &&& audits_group(g, db, esc) == requires_group(g, db, graph_edges(g)[p.last()].1)
            &&& exists|i: int| 0 <= i < p.len() && graph_edges(g)[#[trigger] p[i]].0 == esc
        }),
{
    let (esc, p) = w.audited[k];
    let grp = requires_group(g, db, graph_edges(g)[p.last()].1).unwrap();
    lemma_escort_on_own_path(g, db, p, grp);
}

/// A call is judged only by the callers before it: when no caller on the
/// path audits the group, the call is unescorted even if its target audits
/// that group itself; that target's own role counts from its own calls on.
pub proof fn lemma_no_self_escort(
    g: DepGraph,
    db: Seq<(String, MarkedItem)>,
    path: Seq<usize>,
    grp: Seq<char>,
    next: usize,
)
    requires
        forall|i: int| 0 <= i < path.len() ==> audits_group(g, db, graph_edges(g)[#[trigger] path[i]].0) != Some(grp),
        audits_group(g, db, graph_edges(g)[next].0) == Some(grp),
    ensures
        escort_of(g, db, path, grp).is_none(),
        escort_of(g, db, path.push(next), grp) == Some(graph_edges(g)[next].0),
    decreases path.len(),
{
    assert(path.push(next).drop_last() =~= path);
    if path.len() > 0 {
        let q = path.drop_last();
        assert forall|i: int| 0 <= i < q.len() implies audits_group(g, db, graph_edges(g)[#[trigger] q[i]].0) != Some(grp) by {
            assert(q[i] == path[i]);
        }
        assert(audits_group(g, db, graph_edges(g)[path[path.len() - 1]].0) != Some(grp));
        lemma_no_self_escort(g, db, q, grp, next);
    }
}

/// Once a call is unescorted, nothing reached through it is reported: no
/// finding's path holds an unescorted call before its last one.
pub proof fn lemma_violation_cutoff(g: DepGraph, db: Seq<(String, MarkedItem)>, entries: Seq<usize>, w: Walk, p: Seq<usize>, i: int)
    requires
        walk_sound(g, db, entries, w),
        w.unaudited.contains(p) || exists|esc: usize| w.audited.contains((esc, p)),
        0 < i < p.len(),
    ensures
        !unescorted(g, db, p.take(i)),
{
    if w.unaudited.contains(p) {
        let k = choose|k: int| 0 <= k < w.unaudited.len() && w.unaudited[k] == p;
        assert(w.unaudited[k] == p);
    } else {
        let esc = choose|esc: usize| w.audited.contains((esc, p));
        let k = choose|k: int| 0 <= k < w.audited.len() && w.audited[k] == (esc, p);
        assert(w.audited[k] == (esc, p));
    }
}

/// Walking the same graph with the same markings and entry points again
/// gives the same report, entry for entry.
pub proof fn lemma_walk_repeatable(
    g: DepGraph,
    db: Seq<(String, MarkedItem)>,
    entries: Seq<usize>,
    first: AuditReport,
    second: AuditReport,
)
    requires
        first@ == report_of(g, audit_walk(g, db, entries)),
        second@ == report_of(g, audit_walk(g, db, entries)),
    ensures
        first@ == second@,
        first@.0.to_set() == second@.0.to_set(),
        first@.1.to_set() == second@.1.to_set(),
{
}

} // verus!
