//! The two bidirectional maps of a node, kept in `bimap::BiHashMap`:
//! session identifiers paired with nodes, and peers paired with coordinates.
//!
//! A `BiHashMap` is opaque to the verifier. Its contents are named by
//! [`session_pairs`] and [`peer_pairs`], and the functions below state, without
//! proof, what the methods of `BiHashMap` do to those contents.

use vstd::prelude::*;
use bimap::BiHashMap;
use crate::types::{NodeID, RouteCoord, SessionID};

verus! {

/// `bimap::BiHashMap`, declared to the verifier as a type it cannot look into.
#[verifier::external_type_specification]
#[verifier::external_body]
#[verifier::reject_recursive_types(L)]
#[verifier::reject_recursive_types(R)]
#[verifier::reject_recursive_types(LS)]
#[verifier::reject_recursive_types(RS)]
pub struct ExBiHashMap<L, R, LS, RS>(BiHashMap<L, R, LS, RS>);

/// The left-to-right pairs held by a session table.
pub uninterp spec fn session_pairs(m: BiHashMap<SessionID, NodeID>) -> Map<SessionID, NodeID>;

/// The left-to-right pairs held by a peer list.
pub uninterp spec fn peer_pairs(m: BiHashMap<NodeID, RouteCoord>) -> Map<NodeID, RouteCoord>;

/// Pairs after `left` is paired with `right` in a bidirectional map: every
/// pair that held `left` on the left or `right` on the right is gone, and
/// the new pair is present.
pub open spec fn pair_insert<L, R>(m: Map<L, R>, left: L, right: R) -> Map<L, R> {
    Map::new(
        |l: L| l == left || (m.contains_key(l) && m[l] != right),
        |l: L| if l == left { right } else { m[l] },
    )
}

/// No two left values share a right value.
pub open spec fn one_to_one<L, R>(m: Map<L, R>) -> bool {
    forall|a: L, b: L| m.contains_key(a) && m.contains_key(b) && m[a] == m[b] ==> a == b
}

/// Pairing keeps a one-to-one map one-to-one.
pub proof fn lemma_pair_insert_one_to_one<L, R>(m: Map<L, R>, left: L, right: R)
    requires
        one_to_one(m),
    ensures
        one_to_one(pair_insert(m, left, right)),
        pair_insert(m, left, right).contains_key(left),
        pair_insert(m, left, right)[left] == right,
{
}

/// Pairing adds at most one pair to a finite map.
pub proof fn lemma_pair_insert_len<L, R>(m: Map<L, R>, left: L, right: R)
    requires
        m.dom().finite(),
    ensures
        pair_insert(m, left, right).dom().finite(),
        pair_insert(m, left, right).len() <= m.len() + 1,
{
    let grown = m.dom().insert(left);
    let after = pair_insert(m, left, right).dom();
    assert(after.subset_of(grown));
    vstd::set_lib::lemma_len_subset(after, grown);
}

/// `BiHashMap::new`, for a session table: the new map holds no pair.
#[verifier::external_body]
pub(crate) fn sessions_new() -> (m: BiHashMap<SessionID, NodeID>)
    ensures
        session_pairs(m) == (Map::<SessionID, NodeID>::empty()),
{
    BiHashMap::new()
}

/// `BiHashMap::insert`, for a session table: the pairs that held `left` or
/// `right` are removed and the pair (`left`, `right`) is added.
#[verifier::external_body]
pub(crate) fn sessions_insert(m: &mut BiHashMap<SessionID, NodeID>, left: SessionID, right: NodeID)
    ensures
        session_pairs(*final(m)) == pair_insert(session_pairs(*old(m)), left, right),
{
    m.insert(left, right);
}

/// `BiHashMap::get_by_left`, for a session table: the node paired with
/// `left`, if there is one.
#[verifier::external_body]
pub(crate) fn sessions_get_by_left(m: &BiHashMap<SessionID, NodeID>, left: SessionID) -> (r: Option<NodeID>)
    ensures
        r == if session_pairs(*m).contains_key(left) {
            Some(session_pairs(*m)[left])
        } else {
            None
        },
{
    m.get_by_left(&left).copied()
}

/// `BiHashMap::new`, for a peer list: the new map holds no pair.
#[verifier::external_body]
pub(crate) fn peers_new() -> (m: BiHashMap<NodeID, RouteCoord>)
    ensures
        peer_pairs(m) == (Map::<NodeID, RouteCoord>::empty()),
{
    BiHashMap::new()
}

/// `BiHashMap::insert`, for a peer list: the pairs that held `left` or
/// `right` are removed and the pair (`left`, `right`) is added.
#[verifier::external_body]
pub(crate) fn peers_insert(m: &mut BiHashMap<NodeID, RouteCoord>, left: NodeID, right: RouteCoord)
    ensures
        peer_pairs(*final(m)) == pair_insert(peer_pairs(*old(m)), left, right),
{
    m.insert(left, right);
}

/// `BiHashMap::get_by_left`, for a peer list: the coordinate paired with
/// `left`, if there is one.
#[verifier::external_body]
pub(crate) fn peers_get_by_left(m: &BiHashMap<NodeID, RouteCoord>, left: NodeID) -> (r: Option<RouteCoord>)
    ensures
        r == if peer_pairs(*m).contains_key(left) {
            Some(peer_pairs(*m)[left])
        } else {
            None
        },
{
    m.get_by_left(&left).copied()
}

} // verus!
