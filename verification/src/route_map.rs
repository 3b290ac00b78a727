//! The graph of known latencies, kept in `petgraph::graphmap::DiGraphMap`.
//!
//! The graph is opaque to the verifier. Its directed edges and their weights
//! are named by [`graph_edges`], and the functions below state, without
//! proof, what the methods of `GraphMap` do to them.

use vstd::prelude::*;
use std::hash::BuildHasher;
use petgraph::graphmap::{DiGraphMap, GraphMap};
use petgraph::Directed;
use crate::types::{NodeID, RouteScalar};

verus! {

/// `petgraph::graphmap::GraphMap`, declared to the verifier as a type it cannot look into.
#[verifier::external_type_specification]
#[verifier::external_body]
#[verifier::reject_recursive_types(N)]
#[verifier::reject_recursive_types(E)]
#[verifier::reject_recursive_types(Ty)]
#[verifier::reject_recursive_types(S)]
pub struct ExGraphMap<N, E, Ty, S: BuildHasher>(GraphMap<N, E, Ty, S>);

/// `petgraph::Directed`, the marker of graphs with directed edges.
#[verifier::external_type_specification]
#[verifier::external_body]
pub struct ExDirected(Directed);

/// The directed edges of a latency graph, each (from, to) with its weight.
pub uninterp spec fn graph_edges(g: DiGraphMap<NodeID, RouteScalar>) -> Map<(NodeID, NodeID), RouteScalar>;

/// `GraphMap::new`: the new graph has no edge.
#[verifier::external_body]
pub(crate) fn graph_new() -> (g: DiGraphMap<NodeID, RouteScalar>)
    ensures
        graph_edges(g) == (Map::<(NodeID, NodeID), RouteScalar>::empty()),
{
    DiGraphMap::new()
}

/// `GraphMap::add_edge`: the edge from `a` to `b` now carries `weight`,
/// whether or not it existed; no other edge changes.
#[verifier::external_body]
pub(crate) fn graph_add_edge(g: &mut DiGraphMap<NodeID, RouteScalar>, a: NodeID, b: NodeID, weight: RouteScalar)
    ensures
        graph_edges(*final(g)) == graph_edges(*old(g)).insert((a, b), weight),
{
    g.add_edge(a, b, weight);
}

/// `GraphMap::edge_weight`: the weight of the edge from `a` to `b`, if the
/// graph has that edge.
#[verifier::external_body]
pub(crate) fn graph_edge_weight(g: &DiGraphMap<NodeID, RouteScalar>, a: NodeID, b: NodeID) -> (w: Option<
    RouteScalar,
>)
    ensures
        w == if graph_edges(*g).contains_key((a, b)) {
            Some(graph_edges(*g)[(a, b)])
        } else {
            None
        },
{
    g.edge_weight(a, b).copied()
}

} // verus!
