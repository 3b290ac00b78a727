//! The list of tested nodes: an ordered map from measured distance to node,
//! in which every node stands at most once.

use vstd::prelude::*;
use std::collections::BTreeMap;
use vstd::std_specs::cmp::OrdSpec;
use vstd::std_specs::iter::IteratorSpec;
use crate::types::{NodeID, RouteScalar};

verus! {

/// Whether `s` lists the entries of `m`, each once, by ascending distance.
pub open spec fn is_ascending_listing(m: Map<RouteScalar, NodeID>, s: Seq<(RouteScalar, NodeID)>) -> bool {
    &&& forall|i: int, j: int| 0 <= i < j < s.len() ==> s[i].0 < s[j].0
    &&& forall|i: int| 0 <= i < s.len() ==> m.contains_key(#[trigger] s[i].0) && m[s[i].0] == s[i].1
    &&& forall|d: RouteScalar| m.contains_key(d) ==> exists|i: int| 0 <= i < s.len() && #[trigger] s[i].0 == d
}

/// Whether `distance` is the smallest of `distances`.
pub open spec fn is_least(distances: Set<RouteScalar>, distance: RouteScalar) -> bool {
    &&& distances.contains(distance)
    &&& forall|other: RouteScalar| distances.contains(other) ==> distance <= other
}

/// The smallest of `distances`, where there is any.
pub open spec fn least(distances: Set<RouteScalar>) -> RouteScalar {
    choose|distance: RouteScalar| is_least(distances, distance)
}

/// The entries of a finite list by ascending distance: the nearest
/// first, then the rest in the same way.
pub open spec fn ascending(m: Map<RouteScalar, NodeID>) -> Seq<(RouteScalar, NodeID)>
    decreases m.dom().len(),
    when m.dom().finite()
{
    let nearest = least(m.dom());
    if m.dom().len() == 0 || !m.contains_key(nearest) {
        Seq::empty()
    } else {
        seq![(nearest, m[nearest])] + ascending(m.remove(nearest))
    }
}

/// Every set of distances that is not empty has a smallest one.
pub proof fn lemma_least_exists(distances: Set<RouteScalar>, witness: RouteScalar)
    requires
        distances.contains(witness),
    ensures
        is_least(distances, least(distances)),
    decreases witness,
{
    if exists|smaller: RouteScalar| distances.contains(smaller) && smaller < witness {
        let smaller = choose|smaller: RouteScalar| distances.contains(smaller) && smaller < witness;
        lemma_least_exists(distances, smaller);
    } else {
        assert(is_least(distances, witness));
    }
}

/// The entries by ascending distance list a finite list: each entry
/// once, the nearer before the farther.
pub proof fn lemma_ascending_lists(m: Map<RouteScalar, NodeID>)
    requires
        m.dom().finite(),
    ensures
        is_ascending_listing(m, ascending(m)),
        ascending(m).len() == m.dom().len(),
    decreases m.dom().len(),
{
    if m.dom().len() == 0 {
        assert(m.dom() =~= Set::empty());
    } else {
        let witness = m.dom().choose();
        lemma_least_exists(m.dom(), witness);
        let nearest = least(m.dom());
        let rest = m.remove(nearest);
        lemma_ascending_lists(rest);
        let tail = ascending(rest);
        let all = ascending(m);
        assert(all == seq![(nearest, m[nearest])] + tail);
        assert forall|i: int| 0 <= i < all.len() implies m.contains_key(#[trigger] all[i].0) && m[all[i].0]
            == all[i].1 by {
            if i > 0 {
                assert(all[i] == tail[i - 1]);
                assert(rest.contains_key(tail[i - 1].0));
            }
        }
        assert forall|i: int, j: int| 0 <= i < j < all.len() implies all[i].0 < all[j].0 by {
            assert(all[j] == tail[j - 1]);
            assert(rest.contains_key(tail[j - 1].0));
            if i > 0 {
                assert(all[i] == tail[i - 1]);
            }
        }
        assert forall|d: RouteScalar| m.contains_key(d) implies exists|i: int|
            0 <= i < all.len() && #[trigger] all[i].0 == d by {
            if d == nearest {
                assert(all[0].0 == d);
            } else {
                assert(rest.contains_key(d));
                let i = choose|i: int| 0 <= i < tail.len() && #[trigger] tail[i].0 == d;
                assert(all[i + 1] == tail[i]);
            }
        }
    }
}

/// Whether `node` stands in the list, at whatever distance.
pub open spec fn lists(m: Map<RouteScalar, NodeID>, node: NodeID) -> bool {
    exists|d: RouteScalar| m.contains_key(d) && #[trigger] m[d] == node
}

/// The list after `node` was measured at `distance`: a node that already
/// stands in the list stays where it is; a new node takes the place at
/// `distance`, whoever held it.
pub open spec fn listed(m: Map<RouteScalar, NodeID>, distance: RouteScalar, node: NodeID) -> Map<
    RouteScalar,
    NodeID,
> {
    if lists(m, node) {
        m
    } else {
        m.insert(distance, node)
    }
}

/// No node stands in the list twice.
pub open spec fn each_once(m: Map<RouteScalar, NodeID>) -> bool {
    forall|a: RouteScalar, b: RouteScalar|
        m.contains_key(a) && m.contains_key(b) && #[trigger] m[a] == #[trigger] m[b] ==> a == b
}

/// Listing a node keeps every node at most once in the list, and is
/// idempotent: listing the same node again changes nothing.
pub proof fn lemma_listed(m: Map<RouteScalar, NodeID>, distance: RouteScalar, node: NodeID)
    requires
        each_once(m),
    ensures
        each_once(listed(m, distance, node)),
        lists(listed(m, distance, node), node),
        forall|d: RouteScalar| listed(listed(m, distance, node), d, node) == listed(m, distance, node),
{
    let after = listed(m, distance, node);
    if !lists(m, node) {
        assert(after.contains_key(distance) && after[distance] == node);
    }
}

proof fn lemma_listing_prefix(
    m: Map<RouteScalar, NodeID>,
    a: Seq<(RouteScalar, NodeID)>,
    b: Seq<(RouteScalar, NodeID)>,
    n: int,
)
    requires
        is_ascending_listing(m, a),
        is_ascending_listing(m, b),
        0 <= n <= a.len(),
    ensures
        n <= b.len(),
        forall|i: int| 0 <= i < n ==> a[i] == b[i],
    decreases n,
{
    if n > 0 {
        lemma_listing_prefix(m, a, b, n - 1);
        let k = n - 1;
        let d = a[k].0;
        assert(m.contains_key(d));
        let j = choose|j: int| 0 <= j < b.len() && #[trigger] b[j].0 == d;
        if j < k {
            assert(a[j] == b[j]);
            assert(a[j].0 < a[k].0);
        }
        assert(k < b.len());
        let e = b[k].0;
        assert(m.contains_key(e));
        let i = choose|i: int| 0 <= i < a.len() && #[trigger] a[i].0 == e;
        if i < k {
            assert(a[i] == b[i]);
            assert(b[i].0 < b[k].0);
        }
        if j > k {
            assert(b[k].0 < b[j].0);
            if i > k {
                assert(a[k].0 < a[i].0);
            }
        }
        assert(a[k].0 == b[k].0);
    }
}

/// A map has at most one ascending listing.
pub proof fn lemma_listing_unique(
    m: Map<RouteScalar, NodeID>,
    a: Seq<(RouteScalar, NodeID)>,
    b: Seq<(RouteScalar, NodeID)>,
)
    requires
        is_ascending_listing(m, a),
        is_ascending_listing(m, b),
    ensures
        a == b,
{
    lemma_listing_prefix(m, a, b, a.len() as int);
    lemma_listing_prefix(m, b, a, b.len() as int);
    assert(a =~= b);
}

/// The entries of the list by ascending distance.
pub fn entries(m: &BTreeMap<RouteScalar, NodeID>) -> (v: Vec<(RouteScalar, NodeID)>)
    ensures
        v@ == ascending(m@),
        is_ascending_listing(m@, v@),
{
    let mut out: Vec<(RouteScalar, NodeID)> = Vec::new();
    proof {
        broadcast use vstd::std_specs::btree::axiom_key_obeys_cmp_spec_meaning;
        vstd::std_specs::btree::axiom_spec_btree_map_iter(m);
    }
    assert(vstd::std_specs::btree::key_obeys_cmp_spec::<RouteScalar>());
    let ghost full = vstd::std_specs::btree::spec_btree_map_iter(m).remaining();
    for entry in it: m.iter()
        invariant
            it.seq() == full,
            out@.len() == it.index(),
            forall|i: int| 0 <= i < out@.len() ==> out@[i] == (*full[i].0, *full[i].1),
    {
        let (distance, node) = entry;
        out.push((*distance, *node));
    }
    proof {
        let keys = full.map_values(|kv: (&RouteScalar, &NodeID)| *kv.0);
        vstd::std_specs::btree::axiom_increasing_seq_meaning::<RouteScalar>(keys);
        assert forall|i: int, j: int| 0 <= i < j < out@.len() implies out@[i].0 < out@[j].0 by {
            assert(keys[i].cmp_spec(&keys[j]) is Less);
        }
        assert forall|d: RouteScalar| m@.contains_key(d) implies exists|i: int|
            0 <= i < out@.len() && #[trigger] out@[i].0 == d by {
            assert(full.contains((&d, &m@[d])));
            let i = choose|i: int| 0 <= i < full.len() && full[i] == (&d, &m@[d]);
            assert(out@[i].0 == d);
        }
        assert(is_ascending_listing(m@, out@));
        vstd::std_specs::btree::axiom_btree_map_view_finite_dom(*m);
        lemma_ascending_lists(m@);
        lemma_listing_unique(m@, out@, ascending(m@));
    }
    out
}

/// Whether `node` stands in the list.
pub fn lists_node(m: &BTreeMap<RouteScalar, NodeID>, node: NodeID) -> (b: bool)
    ensures
        b == lists(m@, node),
{
    let all = entries(m);
    let mut i: usize = 0;
    while i < all.len()
        invariant
            i <= all.len(),
            is_ascending_listing(m@, all@),
            forall|j: int| 0 <= j < i ==> all@[j].1 != node,
        decreases all.len() - i,
    {
        if all[i].1 == node {
            assert(m@.contains_key(all@[i as int].0) && m@[all@[i as int].0] == node);
            return true;
        }
        i = i + 1;
    }
    proof {
        if lists(m@, node) {
            let d = choose|d: RouteScalar| m@.contains_key(d) && #[trigger] m@[d] == node;
            let j = choose|j: int| 0 <= j < all@.len() && #[trigger] all@[j].0 == d;
            assert(all@[j].1 == node);
        }
    }
    false
}

/// Lists `node` at `distance`, unless the node already stands in the list.
pub fn list_node(m: &mut BTreeMap<RouteScalar, NodeID>, distance: RouteScalar, node: NodeID)
    ensures
        final(m)@ == listed(old(m)@, distance, node),
{
    if !lists_node(m, node) {
        proof {
            broadcast use vstd::std_specs::btree::axiom_key_obeys_cmp_spec_meaning;
        }
        assert(vstd::laws_cmp::obeys_cmp::<RouteScalar>()) by {
            broadcast use vstd::laws_cmp::group_laws_cmp;
        }
        m.insert(distance, node);
    }
}

} // verus!
