//! The two graph algorithms the pipeline takes from the petgraph
//! crate: immediate dominators and strongly connected components.
//! Everything here either declares petgraph's types to the verifier or
//! wraps one call; nothing else in the crate touches petgraph.
use vstd::prelude::*;
use petgraph::graph::{Graph, NodeIndex};
use petgraph::algo::dominators::Dominators as PgDominators;
use petgraph::Directed;

verus! {

#[verifier::external_type_specification]
#[verifier::external_body]
#[verifier::reject_recursive_types(N)]
#[verifier::reject_recursive_types(E)]
#[verifier::reject_recursive_types(Ty)]
#[verifier::reject_recursive_types(Ix)]
pub struct ExGraph<N, E, Ty, Ix>(Graph<N, E, Ty, Ix>);

#[verifier::external_type_specification]
#[verifier::external_body]
pub struct ExDirected(Directed);

#[verifier::external_type_specification]
#[verifier::external_body]
#[verifier::reject_recursive_types(Ix)]
pub struct ExNodeIndex<Ix>(NodeIndex<Ix>);

#[verifier::external_type_specification]
#[verifier::external_body]
#[verifier::reject_recursive_types(N)]
pub struct ExPgDominators<N: Copy + Eq + core::hash::Hash>(PgDominators<N>);

/// The edge list a graph was built from, in insertion order.
pub uninterp spec fn graph_edge_list(g: Graph<(), (), Directed, usize>) -> Seq<(nat, nat)>;

/// The number of nodes of the graph.  A graph built from an edge
/// list holds the contiguous nodes below this count, so every edge
/// endpoint lies under it.
pub uninterp spec fn graph_node_bound(g: Graph<(), (), Directed, usize>) -> nat;

/// The immediate-dominator map of the digraph given by an edge list,
/// from a root: each reachable node other than the root to the last
/// node that every path from the root to it must cross.
pub uninterp spec fn idoms_of(edges: Seq<(nat, nat)>, root: nat) -> Map<nat, nat>;

/// Which map a dominator structure holds.
pub uninterp spec fn idom_map(d: PgDominators<NodeIndex<usize>>) -> Map<nat, nat>;

/// Which root a dominator structure was built from.
pub uninterp spec fn idom_root(d: PgDominators<NodeIndex<usize>>) -> nat;

/// The strongly connected components of the digraph given by an edge
/// list, each one a list of node ids, in reverse topological order of
/// the condensation.
pub uninterp spec fn sccs_of(edges: Seq<(nat, nat)>) -> Seq<Seq<nat>>;

/// Following the map from `v` reaches the root within `fuel` steps,
/// every step naming a node below `bound`.
pub open spec fn chain_reaches_in(m: Map<nat, nat>, v: nat, root: nat, fuel: nat, bound: nat) -> bool
    decreases fuel,
{
    if v == root {
        true
    } else if fuel == 0 {
        false
    } else {
        m.dom().contains(v) && m[v] < bound && chain_reaches_in(m, m[v], root, (fuel - 1) as nat, bound)
    }
}

/// A larger fuel or a looser bound lets a reaching chain reach still.
pub proof fn lemma_chain_reaches_widen(m: Map<nat, nat>, v: nat, root: nat, fuel: nat, bound: nat, fuel2: nat, bound2: nat)
    requires
        chain_reaches_in(m, v, root, fuel, bound),
        fuel <= fuel2,
        bound <= bound2,
    ensures
        chain_reaches_in(m, v, root, fuel2, bound2),
    decreases fuel,
{
    if v != root {
        lemma_chain_reaches_widen(m, m[v], root, (fuel - 1) as nat, bound, (fuel2 - 1) as nat, bound2);
    }
}

/// One more than the largest node id an edge list names; zero when
/// it is empty.
pub open spec fn edges_node_span(edges: Seq<(usize, usize)>) -> nat
    decreases edges.len(),
{
    if edges.len() == 0 {
        0
    } else {
        let rest = edges_node_span(edges.drop_last());
        let last = edges.last();
        let m: nat = if last.0 >= last.1 {
            last.0 as nat + 1
        } else {
            last.1 as nat + 1
        };
        if m > rest {
            m
        } else {
            rest
        }
    }
}

/// There is a walk along the edges from `root` to `v`.
pub open spec fn edge_reaches(edges: Seq<(nat, nat)>, root: nat, v: nat) -> bool {
    exists|p: Seq<nat>|
        #![trigger p.len()]
        {
            &&& p.len() >= 1
            &&& p[0] == root
            &&& p.last() == v
            &&& forall|i: int| 0 <= i < p.len() - 1 ==> edges.contains((#[trigger] p[i], p[i + 1]))
        }
}

/// Relies on petgraph's Graph::from_edges: builds a directed graph
/// holding exactly the given edges, creating the nodes they name.
#[verifier::external_body]
pub fn graph_from_edges(edges: &Vec<(usize, usize)>) -> (g: Graph<(), (), Directed, usize>)
    ensures
        graph_edge_list(g) == edges@.map(|i: int, e: (usize, usize)| (e.0 as nat, e.1 as nat)),
        forall|i: int| 0 <= i < edges@.len() ==> (#[trigger] edges@[i]).0 < graph_node_bound(g)
            && edges@[i].1 < graph_node_bound(g),
        graph_node_bound(g) == edges_node_span(edges@),
{
    Graph::from_edges(edges.iter().map(|&(a, b)| (a, b)))
}

/// Relies on petgraph's dominators::simple_fast: computes the
/// immediate dominators of every node reachable from `root`.  The
/// root must be a node of the graph.
#[verifier::external_body]
pub fn simple_fast(g: &Graph<(), (), Directed, usize>, root: usize) -> (d: PgDominators<NodeIndex<usize>>)
    requires
        (root as nat) < graph_node_bound(*g),
    ensures
        idom_map(d) == idoms_of(graph_edge_list(*g), root as nat),
        idom_root(d) == root as nat,
        forall|v: nat| v != root as nat && #[trigger] edge_reaches(graph_edge_list(*g), root as nat, v)
            ==> chain_reaches_in(
            idom_map(d),
            v,
            root as nat,
            graph_node_bound(*g),
            graph_node_bound(*g),
        ),
{
    petgraph::algo::dominators::simple_fast(&*g, NodeIndex::new(root))
}

/// Relies on Dominators::immediate_dominator: the map entry for the
/// node, and `None` for the root and for nodes out of its reach.
#[verifier::external_body]
pub fn immediate_dominator(d: &PgDominators<NodeIndex<usize>>, node: usize) -> (r: Option<usize>)
    ensures
        match r {
            Some(p) => idom_map(*d).dom().contains(node as nat)
                && idom_map(*d)[node as nat] == p as nat && node as nat != idom_root(*d),
            None => node as nat == idom_root(*d) || !idom_map(*d).dom().contains(node as nat),
        },
{
    d.immediate_dominator(NodeIndex::new(node)).map(|x| x.index())
}

/// Relies on petgraph's kosaraju_scc: the strongly connected
/// components, in reverse topological order of the condensation.
#[verifier::external_body]
pub fn kosaraju_scc(g: &Graph<(), (), Directed, usize>) -> (r: Vec<Vec<usize>>)
    ensures
        r@.map(|i: int, c: Vec<usize>| c@.map(|j: int, v: usize| v as nat))
            == sccs_of(graph_edge_list(*g)),
{
    petgraph::algo::kosaraju_scc(&*g)
        .into_iter()
        .map(|c| c.into_iter().map(|x| x.index()).collect())
        .collect()
}

} // verus!
