//! Directed graphs on small integers, and their strongly connected components.
use petgraph::Directed;
use petgraph::stable_graph::{NodeIndex, StableGraph};
use vstd::prelude::*;

verus! {

/// The graph type of `petgraph`.
#[verifier::external_type_specification]
#[verifier::external_body]
#[verifier::reject_recursive_types(N)]
#[verifier::reject_recursive_types(E)]
#[verifier::reject_recursive_types(Ty)]
#[verifier::reject_recursive_types(Ix)]
pub struct ExStableGraph<N, E, Ty, Ix>(StableGraph<N, E, Ty, Ix>);

/// The marker of a directed graph.
#[verifier::external_type_specification]
#[verifier::external_body]
pub struct ExDirected(Directed);

/// The nodes of a graph, by their index; a node carries nothing.
pub uninterp spec fn nodes_in(g: StableGraph<(), (), Directed, u32>) -> Seq<()>;

/// The edges of a graph in the order they were added, each from its first node to
/// its second.
pub uninterp spec fn edges_in(g: StableGraph<(), (), Directed, u32>) -> Seq<(usize, usize)>;

/// The strongly connected components of a graph of `nodes` nodes, in the order
/// and with the order inside that Tarjan's algorithm finds them.
pub uninterp spec fn components_of(nodes: nat, edges: Seq<(usize, usize)>) -> Seq<Seq<usize>>;

/// Whether an edge leads from one place of a list of nodes to the next.
pub open spec fn is_step(edges: Seq<(usize, usize)>, path: Seq<usize>, i: int) -> bool {
    edges.contains((path[i], path[i + 1]))
}

/// Whether a list of nodes is a way along the edges.
pub open spec fn is_path(edges: Seq<(usize, usize)>, path: Seq<usize>, a: usize, b: usize) -> bool {
    &&& path.len() > 0
    &&& path[0] == a
    &&& path.last() == b
    &&& forall|i: int| 0 <= i < path.len() - 1 ==> #[trigger] is_step(edges, path, i)
}

/// Whether a way leads from one node to another; one leads from each node to
/// itself.
pub open spec fn reaches(edges: Seq<(usize, usize)>, a: usize, b: usize) -> bool {
    exists|path: Seq<usize>| is_path(edges, path, a, b)
}

/// Whether the components split the nodes: each node is in one of them, at one
/// place, and none is empty.
pub open spec fn splits(nodes: nat, comps: Seq<Seq<usize>>) -> bool {
    &&& forall|c: int, i: int|
        0 <= c < comps.len() && 0 <= i < comps[c].len() ==> (#[trigger] comps[c][i]) < nodes
    &&& forall|c: int, i: int, d: int, j: int|
        0 <= c < comps.len() && 0 <= i < comps[c].len() && 0 <= d < comps.len() && 0 <= j
            < comps[d].len() && (#[trigger] comps[c][i]) == (#[trigger] comps[d][j]) ==> c == d
            && i == j
    &&& forall|n: usize| n < nodes ==> #[trigger] is_member(comps, n)
    &&& forall|c: int| 0 <= c < comps.len() ==> (#[trigger] comps[c]).len() > 0
}

/// Whether a node is in one of the components.
pub open spec fn is_member(comps: Seq<Seq<usize>>, n: usize) -> bool {
    exists|c: int| 0 <= c < comps.len() && (#[trigger] comps[c]).contains(n)
}

/// Whether two nodes share a component exactly when each reaches the other.
#[verifier::opaque]
pub open spec fn strongly_connected(edges: Seq<(usize, usize)>, comps: Seq<Seq<usize>>) -> bool {
    forall|c: int, i: int, d: int, j: int|
        0 <= c < comps.len() && 0 <= i < comps[c].len() && 0 <= d < comps.len() && 0 <= j
            < comps[d].len() ==> (c == d <==> reaches(
            edges,
            #[trigger] comps[c][i],
            #[trigger] comps[d][j],
        ) && reaches(edges, comps[d][j], comps[c][i]))
}

/// Whether every component comes behind those its edges lead to.
#[verifier::opaque]
pub open spec fn sinks_first(edges: Seq<(usize, usize)>, comps: Seq<Seq<usize>>) -> bool {
    forall|c: int, i: int, d: int, j: int|
        0 <= c < comps.len() && 0 <= i < comps[c].len() && 0 <= d < comps.len() && 0 <= j
            < comps[d].len() && edges.contains((#[trigger] comps[c][i], #[trigger] comps[d][j]))
            ==> d <= c
}

/// The models of a list of lists.
pub open spec fn groups(lists: Seq<Vec<usize>>) -> Seq<Seq<usize>> {
    lists.map_values(|v: Vec<usize>| v@)
}

/// Calls `StableGraph::new`: a graph with no nodes and no edges.
#[verifier::external_body]
pub(crate) fn new_graph() -> (g: StableGraph<(), (), Directed, u32>)
    ensures
        nodes_in(g) == Seq::<()>::empty(),
        edges_in(g) == Seq::<(usize, usize)>::empty(),
{
    StableGraph::new()
}

/// Calls `StableGraph::add_node`: in a graph from which nothing has been removed
/// the new node comes behind the others, and its index is their number. It panics
/// where a 32-bit index runs out.
#[verifier::external_body]
pub(crate) fn add_node(g: &mut StableGraph<(), (), Directed, u32>) -> (i: usize)
    requires
        nodes_in(*old(g)).len() < u32::MAX,
    ensures
        i == nodes_in(*old(g)).len(),
        nodes_in(*final(g)) == nodes_in(*old(g)).push(()),
        edges_in(*final(g)) == edges_in(*old(g)),
{
    g.add_node(()).index()
}

/// Calls `StableGraph::add_edge`: the new edge comes behind the others, also when
/// there is one like it already. It panics where a node is missing and where a
/// 32-bit index runs out.
#[verifier::external_body]
pub(crate) fn add_edge(g: &mut StableGraph<(), (), Directed, u32>, a: usize, b: usize)
    requires
        a < nodes_in(*old(g)).len(),
        b < nodes_in(*old(g)).len(),
        nodes_in(*old(g)).len() <= u32::MAX,
        edges_in(*old(g)).len() < u32::MAX,
    ensures
        nodes_in(*final(g)) == nodes_in(*old(g)),
        edges_in(*final(g)) == edges_in(*old(g)).push((a, b)),
{
    g.add_edge(NodeIndex::new(a), NodeIndex::new(b), ());
}

/// Calls `StableGraph::find_edge`, which finds an edge exactly when there is one.
#[verifier::external_body]
pub(crate) fn has_edge(g: &StableGraph<(), (), Directed, u32>, a: usize, b: usize) -> (res: bool)
    requires
        a < nodes_in(*g).len(),
        b < nodes_in(*g).len(),
        nodes_in(*g).len() <= u32::MAX,
    ensures
        res == edges_in(*g).contains((a, b)),
{
    g.find_edge(NodeIndex::new(a), NodeIndex::new(b)).is_some()
}

/// Calls `tarjan_scc`. What it returns is a function of the nodes and the edges in
/// their order. Its components split the nodes, two nodes share one exactly when
/// each reaches the other, and each component comes behind those its edges lead to.
#[verifier::external_body]
pub(crate) fn components(g: &StableGraph<(), (), Directed, u32>) -> (res: Vec<Vec<usize>>)
    ensures
        groups(res@) == components_of(nodes_in(*g).len(), edges_in(*g)),
        splits(nodes_in(*g).len(), groups(res@)),
        strongly_connected(edges_in(*g), groups(res@)),
        sinks_first(edges_in(*g), groups(res@)),
{
    petgraph::algo::tarjan_scc(g).into_iter().map(
        |c| c.into_iter().map(|n| n.index()).collect(),
    ).collect()
}

/// Whether a way that is no single node leads from a node back to itself.
pub open spec fn leads_back(edges: Seq<(usize, usize)>, a: usize) -> bool {
    exists|b: usize| #[trigger] edges.contains((a, b)) && reaches(edges, b, a)
}

proof fn lemma_reaches_on(edges: Seq<(usize, usize)>, a: usize, b: usize, c: usize)
    requires
        reaches(edges, a, b),
        reaches(edges, b, c),
    ensures
        reaches(edges, a, c),
{
    let p = choose|p: Seq<usize>| is_path(edges, p, a, b);
    let q = choose|q: Seq<usize>| is_path(edges, q, b, c);
    let r = p + q.skip(1);
    assert forall|i: int| 0 <= i < r.len() - 1 implies #[trigger] is_step(
        edges,
        r,
        i,
    ) by {
        if i < p.len() - 1 {
            assert(is_step(edges, p, i));
        } else {
            let k = i - (p.len() - 1);
            assert(is_step(edges, q, k));
        }
    }
    assert(is_path(edges, r, a, c));
}

proof fn lemma_edge_reaches(edges: Seq<(usize, usize)>, a: usize, b: usize)
    requires
        edges.contains((a, b)),
    ensures
        reaches(edges, a, b),
{
    assert(is_path(edges, seq![a, b], a, b));
}

/// A component is a cycle exactly when a way leads from its first node back to it.
pub proof fn law_cycles_lead_back(
    nodes: nat,
    edges: Seq<(usize, usize)>,
    comps: Seq<Seq<usize>>,
    c: int,
)
    requires
        splits(nodes, comps),
        strongly_connected(edges, comps),
        forall|i: int| 0 <= i < edges.len() ==> (#[trigger] edges[i]).1 < nodes,
        0 <= c < comps.len(),
    ensures
        (comps[c].len() > 1 || edges.contains((comps[c][0], comps[c][0]))) == leads_back(
            edges,
            comps[c][0],
        ),
{
    reveal(strongly_connected);
    assert(comps[c].len() > 0);
    let a = comps[c][0];
    assert(is_path(edges, seq![a], a, a));
    if edges.contains((a, a)) {
        assert(leads_back(edges, a));
    }
    if comps[c].len() > 1 {
        let b = comps[c][1];
        assert(a != b);
        assert(reaches(edges, a, b) && reaches(edges, b, a));
        let p = choose|p: Seq<usize>| is_path(edges, p, a, b);
        assert(p.len() > 1);
        assert(is_step(edges, p, 0));
        let q = p.skip(1);
        assert forall|i: int| 0 <= i < q.len() - 1 implies #[trigger] is_step(
        edges,
        q,
        i,
    ) by {
            assert(is_step(edges, p, i + 1));
        }
        assert(is_path(edges, q, p[1], b));
        lemma_reaches_on(edges, p[1], b, a);
    }
    if leads_back(edges, a) {
        let b = choose|b: usize| #[trigger] edges.contains((a, b)) && reaches(edges, b, a);
        lemma_edge_reaches(edges, a, b);
        let k = edges.index_of((a, b));
        assert(edges[k].1 < nodes);
        assert(is_member(comps, b));
        let d = choose|d: int| 0 <= d < comps.len() && (#[trigger] comps[d]).contains(b);
        let j = comps[d].index_of(b);
        assert(comps[d][j] == b);
        assert(c == d);
        if comps[c].len() == 1 {
            assert(b == a);
        }
    }
}

} // verus!
