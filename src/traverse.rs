//! The audit walk over the pruned graph.

use std::collections::HashSet;
use vstd::prelude::*;
use vstd::set_lib::*;

use crate::graph::{
    edge_endpoints, graph_edges, graph_nodes, graph_out, graph_wf, node_weight, out_edges, out_set, DepGraph,
};
use crate::summaries::{definition_name, find_marking, lookup_marking, opt_view, without_type_param, MarkedItem, Marking};

verus! {

broadcast use vstd::std_specs::hash::group_hash_axioms;

/// The marking of a node, looked up under its identifier without type arguments.
pub open spec fn marking_of(g: DepGraph, db: Seq<(String, MarkedItem)>, n: usize) -> Option<Marking> {
    lookup_marking(db, definition_name(graph_nodes(g)[n]))
}

/// The group that node `n` audits, if any.
pub open spec fn audits_group(g: DepGraph, db: Seq<(String, MarkedItem)>, n: usize) -> Option<Seq<char>> {
    match marking_of(g, db, n) {
        Some(m) => opt_view(m.audited),
        None => None,
    }
}

/// The group whose audit node `n` requires, if any.
pub open spec fn requires_group(g: DepGraph, db: Seq<(String, MarkedItem)>, n: usize) -> Option<Seq<char>> {
    match marking_of(g, db, n) {
        Some(m) => opt_view(m.require_audit),
        None => None,
    }
}

/// The node that escorts group `grp` at the end of `path` (a sequence of
/// edges): the nearest caller on the path that audits `grp`.
pub open spec fn escort_of(g: DepGraph, db: Seq<(String, MarkedItem)>, path: Seq<usize>, grp: Seq<char>) -> Option<usize>
    decreases path.len(),
{
    if path.len() == 0 {
        None
    } else {
        let src = graph_edges(g)[path.last()].0;
        if audits_group(g, db, src) == Some(grp) {
            Some(src)
        } else {
            escort_of(g, db, path.drop_last(), grp)
        }
    }
}

/// The last call of `path` enters a node that requires an audit for a group
/// that no caller on the path audits.
pub open spec fn unescorted(g: DepGraph, db: Seq<(String, MarkedItem)>, path: Seq<usize>) -> bool {
    match requires_group(g, db, graph_edges(g)[path.last()].1) {
        Some(grp) => escort_of(g, db, path, grp).is_none(),
        None => false,
    }
}

/// What the walk has done so far: the edges it has taken, and its findings
/// as (escort, path) and as paths.
pub struct Walk {
    pub visited: Set<usize>,
    pub audited: Seq<(usize, Seq<usize>)>,
    pub unaudited: Seq<Seq<usize>>,
}

/// The number of edges the walk has not taken yet.
pub open spec fn unvisited(g: DepGraph, visited: Set<usize>) -> nat {
    graph_edges(g).dom().difference(visited).len()
}

pub proof fn lemma_take_edge(g: DepGraph, visited: Set<usize>, e: usize)
    requires
        graph_edges(g).dom().finite(),
        graph_edges(g).contains_key(e),
        !visited.contains(e),
    ensures
        unvisited(g, visited.insert(e)) < unvisited(g, visited),
{
    let d = graph_edges(g).dom().difference(visited);
    assert(graph_edges(g).dom().difference(visited.insert(e)) =~= d.remove(e));
}

pub proof fn lemma_more_visited(g: DepGraph, v1: Set<usize>, v2: Set<usize>)
    requires
        graph_edges(g).dom().finite(),
        v1.subset_of(v2),
    ensures
        unvisited(g, v2) <= unvisited(g, v1),
{
    lemma_len_subset(graph_edges(g).dom().difference(v2), graph_edges(g).dom().difference(v1));
}

/// The walk after taking the last edge of `path` (already marked taken):
/// the call is classified if its target requires an audit, and the walk goes
/// on below the target unless the call is unescorted.
pub open spec fn visit(g: DepGraph, db: Seq<(String, MarkedItem)>, path: Seq<usize>, w: Walk) -> Walk
    decreases unvisited(g, w.visited), 1nat, 0nat
    when graph_edges(g).dom().finite()
{
    let t = graph_edges(g)[path.last()].1;
    match requires_group(g, db, t) {
        Some(grp) => match escort_of(g, db, path, grp) {
            Some(a) => descend(g, db, path, t, 0, Walk { audited: w.audited.push((a, path)), ..w }),
            None => Walk { unaudited: w.unaudited.push(path), ..w },
        },
        None => descend(g, db, path, t, 0, w),
    }
}

/// The walk through the outgoing edges of `n` from the `k`-th on, `path`
/// leading to `n`: each edge not yet taken is marked and visited in turn.
pub open spec fn descend(g: DepGraph, db: Seq<(String, MarkedItem)>, path: Seq<usize>, n: usize, k: nat, w: Walk) -> Walk
    decreases unvisited(g, w.visited), 0nat, (graph_out(g)[n].len() - k) as nat
    when graph_edges(g).dom().finite()
{
    let outs = graph_out(g)[n];
    if k >= outs.len() {
        w
    } else {
        let e = outs[k as int];
        if w.visited.contains(e) || !graph_edges(g).contains_key(e) {
            descend(g, db, path, n, k + 1, w)
        } else {
            let w1 = Walk { visited: w.visited.insert(e), ..w };
            proof {
                lemma_take_edge(g, w.visited, e);
            }
            let w2 = visit(g, db, path.push(e), w1);
            if w1.visited.subset_of(w2.visited) {
                proof {
                    lemma_more_visited(g, w1.visited, w2.visited);
                }
                descend(g, db, path, n, k + 1, w2)
            } else {
                w2
            }
        }
    }
}

/// The walk from each entry point in turn.
pub open spec fn walk_entries(g: DepGraph, db: Seq<(String, MarkedItem)>, entries: Seq<usize>, w: Walk) -> Walk
    decreases entries.len(),
{
    if entries.len() == 0 {
        w
    } else {
        walk_entries(g, db, entries.drop_first(), descend(g, db, Seq::empty(), entries[0], 0, w))
    }
}

/// The whole walk: from each entry point in order, sharing one set of taken edges.
pub open spec fn audit_walk(g: DepGraph, db: Seq<(String, MarkedItem)>, entries: Seq<usize>) -> Walk {
    walk_entries(g, db, entries, Walk { visited: Set::empty(), audited: Seq::empty(), unaudited: Seq::empty() })
}

/// `p` is a chain of calls that starts at an entry point.
pub open spec fn is_call_path(g: DepGraph, entries: Seq<usize>, p: Seq<usize>) -> bool {
    &&& p.len() > 0
    &&& forall|i: int| 0 <= i < p.len() ==> graph_edges(g).contains_key(#[trigger] p[i])
    &&& entries.contains(graph_edges(g)[p[0]].0)
    &&& forall|i: int| 0 <= i < p.len() - 1 ==> graph_edges(g)[#[trigger] p[i]].1 == graph_edges(g)[p[i + 1]].0
}

/// No call of `p` before its last one is unescorted.
pub open spec fn escorted_before_end(g: DepGraph, db: Seq<(String, MarkedItem)>, p: Seq<usize>) -> bool {
    forall|i: int| 0 < i < p.len() ==> !unescorted(g, db, #[trigger] p.take(i))
}

/// Every finding of `w` is a call path from an entry point, with no
/// unescorted call before its end. An audited finding ends in a call into a
/// node that requires an audit, and names as escort the nearest caller on
/// the path that audits that group; an unaudited finding ends in an
/// unescorted call.
pub open spec fn walk_sound(g: DepGraph, db: Seq<(String, MarkedItem)>, entries: Seq<usize>, w: Walk) -> bool {
    &&& forall|k: int| 0 <= k < w.audited.len() ==> {
        let (esc, p) = #[trigger] w.audited[k];
        &&& is_call_path(g, entries, p)
        &&& escorted_before_end(g, db, p)
        &&& match requires_group(g, db, graph_edges(g)[p.last()].1) {
            Some(grp) => escort_of(g, db, p, grp) == Some(esc),
            None => false,
        }
    }
    &&& forall|k: int| 0 <= k < w.unaudited.len() ==> {
        let p = #[trigger] w.unaudited[k];
        &&& is_call_path(g, entries, p)
        &&& escorted_before_end(g, db, p)
        &&& unescorted(g, db, p)
    }
}

/// The auditors in force along `path`: one (group, node) pair per caller on
/// the path that audits a group, nearest last.
pub open spec fn auditor_stack(g: DepGraph, db: Seq<(String, MarkedItem)>, path: Seq<usize>) -> Seq<(Seq<char>, usize)>
    decreases path.len(),
{
    if path.len() == 0 {
        Seq::empty()
    } else {
        let src = graph_edges(g)[path.last()].0;
        let below = auditor_stack(g, db, path.drop_last());
        match audits_group(g, db, src) {
            Some(grp) => below.push((grp, src)),
            None => below,
        }
    }
}

/// The nearest auditor for `grp` on a stack.
pub open spec fn stack_find(s: Seq<(Seq<char>, usize)>, grp: Seq<char>) -> Option<usize>
    decreases s.len(),
{
    if s.len() == 0 {
        None
    } else if s.last().0 == grp {
        Some(s.last().1)
    } else {
        stack_find(s.drop_last(), grp)
    }
}

proof fn lemma_stack_escort(g: DepGraph, db: Seq<(String, MarkedItem)>, path: Seq<usize>, grp: Seq<char>)
    ensures
        stack_find(auditor_stack(g, db, path), grp) == escort_of(g, db, path, grp),
    decreases path.len(),
{
    if path.len() > 0 {
        lemma_stack_escort(g, db, path.drop_last(), grp);
        let src = graph_edges(g)[path.last()].0;
        let below = auditor_stack(g, db, path.drop_last());
        match audits_group(g, db, src) {
            Some(gr) => {
                assert(below.push((gr, src)).drop_last() =~= below);
            },
            None => {},
        }
    }
}

/// The exec view of an auditor stack.
pub open spec fn stack_view(s: Seq<(String, usize)>) -> Seq<(Seq<char>, usize)> {
    s.map_values(|a: (String, usize)| (a.0@, a.1))
}

fn find_auditor(aud: &Vec<(String, usize)>, grp: &String) -> (r: Option<usize>)
    ensures
        r == stack_find(stack_view(aud@), grp@),
{
    let mut k: usize = aud.len();
    assert(aud@.take(k as int) =~= aud@);
    while k > 0
        invariant
            k <= aud.len(),
            stack_find(stack_view(aud@), grp@) == stack_find(stack_view(aud@.take(k as int)), grp@),
        decreases k,
    {
        assert(stack_view(aud@.take(k as int)).drop_last() =~= stack_view(aud@.take(k - 1)));
        if aud[k - 1].0 == *grp {
            return Some(aud[k - 1].1);
        }
        k = k - 1;
    }
    None
}

/// The marking of a node of the graph.
pub(crate) fn node_marking<'a>(g: &DepGraph, db: &'a Vec<(String, MarkedItem)>, n: usize) -> (r: Option<&'a Marking>)
    requires
        graph_wf(*g),
        graph_nodes(*g).contains_key(n),
    ensures
        match r {
            Some(m) => marking_of(*g, db@, n) == Some(*m),
            None => marking_of(*g, db@, n).is_none(),
        },
{
    let name = node_weight(g, n);
    find_marking(db, without_type_param(name.as_str()))
}

fn copy_path(p: &Vec<usize>) -> (r: Vec<usize>)
    ensures
        r@ == p@,
{
    let mut r: Vec<usize> = Vec::new();
    let mut i: usize = 0;
    while i < p.len()
        invariant
            i <= p.len(),
            r@ == p@.take(i as int),
        decreases p.len() - i,
    {
        assert(p@.take(i + 1) =~= p@.take(i as int).push(p@[i as int]));
        r.push(p[i]);
        i = i + 1;
    }
    assert(p@.take(i as int) =~= p@);
    r
}

/// The exec state of the walk.
pub(crate) struct WalkState {
    pub(crate) visited: HashSet<usize>,
    pub(crate) audited: Vec<(usize, Vec<usize>)>,
    pub(crate) unaudited: Vec<Vec<usize>>,
}

impl WalkState {
    pub(crate) open spec fn walk(&self) -> Walk {
        Walk {
            visited: self.visited@,
            audited: self.audited@.map_values(|a: (usize, Vec<usize>)| (a.0, a.1@)),
            unaudited: self.unaudited@.map_values(|p: Vec<usize>| p@),
        }
    }
}

/// Visits the last edge of `path`, already marked taken; `aud` holds the
/// auditors in force at its caller's callers.
fn visit_edge(
    g: &DepGraph,
    db: &Vec<(String, MarkedItem)>,
    entries: Ghost<Seq<usize>>,
    aud: &mut Vec<(String, usize)>,
    path: &mut Vec<usize>,
    st: &mut WalkState,
)
    requires
        graph_wf(*g),
        is_call_path(*g, entries@, old(path)@),
        escorted_before_end(*g, db@, old(path)@),
        stack_view(old(aud)@) == auditor_stack(*g, db@, old(path)@.drop_last()),
        walk_sound(*g, db@, entries@, old(st).walk()),
        old(st).walk().visited.contains(old(path)@.last()),
    ensures
        final(path)@ == old(path)@,
        final(aud)@ == old(aud)@,
        final(st).walk() == visit(*g, db@, old(path)@, old(st).walk()),
        old(st).walk().visited.subset_of(final(st).walk().visited),
        walk_sound(*g, db@, entries@, final(st).walk()),
    decreases unvisited(*g, old(st).walk().visited), 1nat,
{
    let e = path[path.len() - 1];
    let (src, t) = edge_endpoints(g, e);
    let ghost p = path@;
    let ghost w0 = st.walk();
    let mut pushed = false;
    match node_marking(g, db, src) {
        Some(m) => match &m.audited {
            Some(grp) => {
                aud.push((grp.clone(), src));
                pushed = true;
            },
            None => {},
        },
        None => {},
    }
    assert(stack_view(aud@) =~= auditor_stack(*g, db@, p));
    let mut go_on = true;
    match node_marking(g, db, t) {
        Some(m) => match &m.require_audit {
            Some(grp) => {
                proof {
                    lemma_stack_escort(*g, db@, p, grp@);
                }
                match find_auditor(aud, grp) {
                    Some(a) => {
                        st.audited.push((a, copy_path(path)));
                        proof {
                            let w = st.walk();
                            assert(w.audited =~= w0.audited.push((a, p)));
                            assert(w.unaudited =~= w0.unaudited);
                            assert(requires_group(*g, db@, t) == Some(grp@));
                            assert forall|k: int| 0 <= k < w.audited.len() implies {
                                let (esc, q) = #[trigger] w.audited[k];
                                &&& is_call_path(*g, entries@, q)
                                &&& escorted_before_end(*g, db@, q)
                                &&& match requires_group(*g, db@, graph_edges(*g)[q.last()].1) {
                                    Some(gr) => escort_of(*g, db@, q, gr) == Some(esc),
                                    None => false,
                                }
                            } by {
                                if k < w0.audited.len() {
                                    assert(w.audited[k] == w0.audited[k]);
                                }
                            }
                            assert forall|k: int| 0 <= k < w.unaudited.len() implies {
                                let q = #[trigger] w.unaudited[k];
                                &&& is_call_path(*g, entries@, q)
                                &&& escorted_before_end(*g, db@, q)
                                &&& unescorted(*g, db@, q)
                            } by {
                                assert(w.unaudited[k] == w0.unaudited[k]);
                            }
                        }
                    },
                    None => {
                        st.unaudited.push(copy_path(path));
                        proof {
                            let w = st.walk();
                            assert(w.unaudited =~= w0.unaudited.push(p));
                            assert(w.audited =~= w0.audited);
                            assert(requires_group(*g, db@, t) == Some(grp@));
                            assert forall|k: int| 0 <= k < w.audited.len() implies {
                                let (esc, q) = #[trigger] w.audited[k];
                                &&& is_call_path(*g, entries@, q)
                                &&& escorted_before_end(*g, db@, q)
                                &&& match requires_group(*g, db@, graph_edges(*g)[q.last()].1) {
                                    Some(gr) => escort_of(*g, db@, q, gr) == Some(esc),
                                    None => false,
                                }
                            } by {
                                assert(w.audited[k] == w0.audited[k]);
                            }
                            assert forall|k: int| 0 <= k < w.unaudited.len() implies {
                                let q = #[trigger] w.unaudited[k];
                                &&& is_call_path(*g, entries@, q)
                                &&& escorted_before_end(*g, db@, q)
                                &&& unescorted(*g, db@, q)
                            } by {
                                if k < w0.unaudited.len() {
                                    assert(w.unaudited[k] == w0.unaudited[k]);
                                }
                            }
                        }
                        go_on = false;
                    },
                }
            },
            None => {},
        },
        None => {},
    }
    if go_on {
        descend_from(g, db, entries, aud, path, t, st);
    }
    if pushed {
        aud.pop();
    }
}

/// Walks the outgoing edges of `t` that are not taken yet, `path` leading to `t`.
fn descend_from(
    g: &DepGraph,
    db: &Vec<(String, MarkedItem)>,
    entries: Ghost<Seq<usize>>,
    aud: &mut Vec<(String, usize)>,
    path: &mut Vec<usize>,
    t: usize,
    st: &mut WalkState,
)
    requires
        graph_wf(*g),
        graph_nodes(*g).contains_key(t),
        old(path)@.len() == 0 ==> entries@.contains(t),
        old(path)@.len() > 0 ==> {
            &&& is_call_path(*g, entries@, old(path)@)
            &&& escorted_before_end(*g, db@, old(path)@)
            &&& !unescorted(*g, db@, old(path)@)
            &&& graph_edges(*g)[old(path)@.last()].1 == t
        },
        stack_view(old(aud)@) == auditor_stack(*g, db@, old(path)@),
        walk_sound(*g, db@, entries@, old(st).walk()),
    ensures
        final(path)@ == old(path)@,
        final(aud)@ == old(aud)@,
        final(st).walk() == descend(*g, db@, old(path)@, t, 0, old(st).walk()),
        old(st).walk().visited.subset_of(final(st).walk().visited),
        walk_sound(*g, db@, entries@, final(st).walk()),
    decreases unvisited(*g, old(st).walk().visited), 0nat,
{
    let outs = out_edges(g, t);
    let ghost w0 = st.walk();
    let ghost p = path@;
    let mut k: usize = 0;
    while k < outs.len()
        invariant
            graph_wf(*g),
            graph_nodes(*g).contains_key(t),
            outs@ == graph_out(*g)[t],
            outs@.to_set() == out_set(*g, t),
            k <= outs.len(),
            path@ == p,
            p.len() == 0 ==> entries@.contains(t),
            p.len() > 0 ==> {
                &&& is_call_path(*g, entries@, p)
                &&& escorted_before_end(*g, db@, p)
                &&& !unescorted(*g, db@, p)
                &&& graph_edges(*g)[p.last()].1 == t
            },
            aud@ == old(aud)@,
            stack_view(aud@) == auditor_stack(*g, db@, p),
            w0 == old(st).walk(),
            w0.visited.subset_of(st.walk().visited),
            descend(*g, db@, p, t, 0, w0) == descend(*g, db@, p, t, k as nat, st.walk()),
            walk_sound(*g, db@, entries@, st.walk()),
        decreases outs.len() - k,
    {
        let e = outs[k];
        assert(outs@.to_set().contains(e));
        let ghost wk = st.walk();
        if !st.visited.contains(&e) {
            st.visited.insert(e);
            path.push(e);
            proof {
                let q = path@;
                assert(q.drop_last() =~= p);
                assert forall|i: int| 0 < i < q.len() implies !unescorted(*g, db@, #[trigger] q.take(i)) by {
                    assert(q.take(i) =~= p.take(i));
                    if i == p.len() {
                        assert(p.take(i) =~= p);
                    }
                }
                assert(is_call_path(*g, entries@, q)) by {
                    if p.len() > 0 {
                        assert forall|i: int| 0 <= i < q.len() - 1 implies graph_edges(*g)[#[trigger] q[i]].1 == graph_edges(*g)[q[i + 1]].0 by {
                            if i < p.len() - 1 {
                                assert(q[i] == p[i] && q[i + 1] == p[i + 1]);
                            }
                        }
                    }
                }
                lemma_take_edge(*g, wk.visited, e);
                lemma_more_visited(*g, w0.visited, wk.visited);
            }
            visit_edge(g, db, entries, aud, path, st);
            path.pop();
            proof {
                assert(path@ =~= p);
            }
        }
        k = k + 1;
    }
}

/// Walks the graph from each entry point in turn.
pub(crate) fn walk_graph(g: &DepGraph, db: &Vec<(String, MarkedItem)>, entries: &Vec<usize>) -> (r: WalkState)
    requires
        graph_wf(*g),
        forall|k: int| 0 <= k < entries@.len() ==> graph_nodes(*g).contains_key(#[trigger] entries@[k]),
    ensures
        r.walk() == audit_walk(*g, db@, entries@),
        walk_sound(*g, db@, entries@, r.walk()),
{
    let mut st = WalkState { visited: HashSet::new(), audited: Vec::new(), unaudited: Vec::new() };
    let mut aud: Vec<(String, usize)> = Vec::new();
    let mut path: Vec<usize> = Vec::new();
    let mut i: usize = 0;
    proof {
        assert(st.walk() == Walk { visited: Set::empty(), audited: Seq::empty(), unaudited: Seq::empty() }) by {
            assert(st.walk().visited =~= Set::empty());
            assert(st.walk().audited =~= Seq::empty());
            assert(st.walk().unaudited =~= Seq::empty());
        }
        assert(entries@.skip(0) =~= entries@);
    }
    while i < entries.len()
        invariant
            graph_wf(*g),
            forall|k: int| 0 <= k < entries@.len() ==> graph_nodes(*g).contains_key(#[trigger] entries@[k]),
            i <= entries.len(),
            path@ == Seq::<usize>::empty(),
            aud@ == Seq::<(String, usize)>::empty(),
            walk_entries(*g, db@, entries@.skip(i as int), st.walk()) == audit_walk(*g, db@, entries@),
            walk_sound(*g, db@, entries@, st.walk()),
        decreases entries.len() - i,
    {
        let n = entries[i];
        proof {
            assert(entries@.skip(i as int).drop_first() =~= entries@.skip(i + 1));
            assert(entries@.contains(n));
            assert(stack_view(aud@) =~= Seq::empty());
        }
        descend_from(g, db, Ghost(entries@), &mut aud, &mut path, n, &mut st);
        i = i + 1;
    }
    proof {
        assert(entries@.skip(i as int) =~= Seq::empty());
    }
    st
}

} // verus!
