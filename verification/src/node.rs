//! The node and its state.

use vstd::prelude::*;
use std::collections::{BTreeMap, HashMap};
use bimap::BiHashMap;
use petgraph::graphmap::DiGraphMap;
use crate::action::{actions_view, NodeAction};
use crate::envelope::{datagrams, Datagram, InternetPacket, PacketVec};
use crate::laws::lemma_fresh_wf;
use crate::model::{carried, through, Emission, NodeView, Step};
use crate::packet::NodePacket;
use crate::pairing::{
    peer_pairs, peers_get_by_left, peers_new, session_pairs, sessions_get_by_left, sessions_new,
};
use crate::remote::{RemoteNode, RemoteView};
use crate::route_map::{graph_edge_weight, graph_edges, graph_new};
use crate::session::RemoteSession;
use crate::types::{InternetID, NodeError, NodeID, RouteCoord, RouteScalar, SessionID};

verus! {

/// A node of the overlay network.
#[derive(Debug)]
pub struct Node {
    /// Identity of this node.
    pub node_id: NodeID,
    /// Address of this node on the substrate.
    pub net_id: InternetID,
    /// Coordinate handed to the node by a simulation, which the solver takes as its result.
    pub deux_ex_data: Option<RouteCoord>,
    /// Routing coordinate of this node, once it has one.
    pub route_coord: Option<RouteCoord>,
    /// Ticks since the node started.
    pub ticks: usize,
    /// Every remote this node has referred to.
    pub remotes: HashMap<NodeID, RemoteNode>,
    /// Session identifiers paired with the nodes they belong to.
    pub sessions: BiHashMap<SessionID, NodeID>,
    /// Tested nodes by measured distance.
    pub node_list: BTreeMap<RouteScalar, NodeID>,
    /// Peers paired with their coordinates.
    pub peer_list: BiHashMap<NodeID, RouteCoord>,
    /// Known latencies between nodes.
    pub route_map: DiGraphMap<NodeID, RouteScalar>,
    /// Actions that wait for their turn.
    pub actions_queue: Vec<NodeAction>,
}

/// Views of the records of remotes.
pub open spec fn remotes_view(m: Map<NodeID, RemoteNode>) -> Map<NodeID, RemoteView> {
    Map::new(|node: NodeID| m.contains_key(node), |node: NodeID| m[node]@)
}

impl View for Node {
    type V = NodeView;

    open spec fn view(&self) -> NodeView {
        NodeView {
            node_id: self.node_id,
            net_id: self.net_id,
            deux_ex_data: self.deux_ex_data,
            route_coord: self.route_coord,
            ticks: self.ticks,
            remotes: remotes_view(self.remotes@),
            sessions: session_pairs(self.sessions),
            node_list: self.node_list@,
            peer_list: peer_pairs(self.peer_list),
            route_map: graph_edges(self.route_map),
            actions_queue: actions_view(self.actions_queue@),
        }
    }
}

/// Whether a step of the model is what happened between two states of a
/// node and of the datagrams it has sent.
pub open spec fn performed<T>(
    step: Step<T>,
    before: NodeView,
    after: NodeView,
    sent_before: Seq<InternetPacket>,
    sent_after: Seq<InternetPacket>,
) -> bool {
    &&& after == step.node
    &&& datagrams(sent_after) == datagrams(sent_before) + carried(before.net_id, step.out)
}

/// The views of the remotes follow the records through an insertion.
pub proof fn lemma_remotes_insert(m: Map<NodeID, RemoteNode>, node: NodeID, remote: RemoteNode)
    ensures
        remotes_view(m.insert(node, remote)) == remotes_view(m).insert(node, remote@),
        remotes_view(m.remove(node).insert(node, remote)) == remotes_view(m).insert(node, remote@),
        remotes_view(m).dom() == m.dom(),
{
    assert(remotes_view(m.insert(node, remote)) =~= remotes_view(m).insert(node, remote@));
    assert(remotes_view(m.remove(node).insert(node, remote)) =~= remotes_view(m).insert(node, remote@));
    assert(remotes_view(m).dom() =~= m.dom());
}

/// Nothing sent carries nothing.
pub proof fn lemma_carried_nothing(src: InternetID, sent: Seq<Datagram>)
    ensures
        sent + carried(src, Seq::empty()) == sent,
{
    assert(sent + carried(src, Seq::empty()) =~= sent);
}

/// What two series of emissions carry is what the first carries, then the second.
pub proof fn lemma_carried_add(src: InternetID, a: Seq<Emission>, b: Seq<Emission>)
    ensures
        carried(src, a + b) == carried(src, a) + carried(src, b),
{
    assert(carried(src, a + b) =~= carried(src, a) + carried(src, b));
}

/// `HashMap::get_mut`: a mutable reference to the record kept under
/// `node`, if there is one. Whatever is written through the reference is
/// the record kept under `node` afterwards; no other record changes.
#[verifier::external_body]
fn remotes_get_mut<'a>(remotes: &'a mut HashMap<NodeID, RemoteNode>, node: &NodeID) -> (r: Option<
    &'a mut RemoteNode,
>)
    ensures
        match r {
            Some(remote) => old(remotes)@.contains_key(*node) && *remote == old(remotes)@[*node]
                && final(remotes)@ == old(remotes)@.insert(*node, *final(remote)),
            None => !old(remotes)@.contains_key(*node) && final(remotes)@ == old(remotes)@,
        },
{
    remotes.get_mut(node)
}

/// Takes the record of `node` out of `remotes`.
pub(crate) fn take_remote(remotes: &mut HashMap<NodeID, RemoteNode>, node: NodeID) -> (remote: RemoteNode)
    requires
        old(remotes)@.contains_key(node),
    ensures
        remote == old(remotes)@[node],
        final(remotes)@ == old(remotes)@.remove(node),
{
    remotes.remove(&node).unwrap()
}

/// Takes the record of `node` out of `remotes`, or makes a fresh one where none is kept.
pub(crate) fn take_remote_or_fresh(remotes: &mut HashMap<NodeID, RemoteNode>, node: NodeID) -> (remote:
    RemoteNode)
    ensures
        remote@ == (if old(remotes)@.contains_key(node) {
            old(remotes)@[node]@
        } else {
            RemoteView::fresh(node)
        }),
        final(remotes)@ == old(remotes)@.remove(node),
{
    match remotes.remove(&node) {
        Some(remote) => remote,
        None => RemoteNode::new(node),
    }
}

/// Appends the datagram that carries `packet` through `session`.
pub(crate) fn send_through(session: &RemoteSession, packet: NodePacket, src: InternetID, outgoing: &mut PacketVec)
    ensures
        datagrams(final(outgoing)@) == datagrams(old(outgoing)@) + carried(
            src,
            seq![through(session@, packet@)],
        ),
{
    let datagram = session.gen_packet(packet, src);
    outgoing.push(datagram);
    assert(datagrams(outgoing@) =~= datagrams(old(outgoing)@) + carried(
        src,
        seq![through(session@, packet@)],
    ));
}

impl Default for Node {
    /// A node with the identity and the address zero that knows nothing.
    fn default() -> (node: Node)
        ensures
            node@ == NodeView::fresh(0, 0),
            node@.wf(),
    {
        Node::new(0, 0)
    }
}

impl Node {
    /// Creates a node that knows nothing but its own identity and address.
    pub fn new(node_id: NodeID, net_id: InternetID) -> (node: Node)
        ensures
            node@ == NodeView::fresh(node_id, net_id),
            node@.wf(),
    {
        proof {
            lemma_fresh_wf(node_id, net_id);
        }
        let node = Node {
            node_id,
            net_id,
            deux_ex_data: None,
            route_coord: None,
            ticks: 0,
            remotes: HashMap::new(),
            sessions: sessions_new(),
            node_list: BTreeMap::new(),
            peer_list: peers_new(),
            route_map: graph_new(),
            actions_queue: Vec::new(),
        };
        assert(node@.remotes =~= Map::empty());
        assert(node@.actions_queue =~= Seq::empty());
        node
    }

    /// Puts `action` at the end of the queue of a node that has not ticked yet.
    pub fn with_action(self, action: NodeAction) -> (node: Node)
        ensures
            node@ == self@.enqueue(action@),
    {
        let mut node = self;
        node.actions_queue.push(action);
        assert(node@.actions_queue =~= self@.actions_queue.push(action@));
        node
    }

    /// Address of this node on the substrate.
    pub fn net_id(&self) -> (id: InternetID)
        ensures
            id == self@.net_id,
    {
        self.net_id
    }

    /// Puts `action` at the end of the queue.
    pub fn action(&mut self, action: NodeAction)
        ensures
            final(self)@ == old(self)@.enqueue(action@),
    {
        self.actions_queue.push(action);
        assert(self@.actions_queue =~= old(self)@.actions_queue.push(action@));
    }

    /// Hands the node the coordinate that its solver is to find, or takes it away.
    pub fn set_deus_ex_data(&mut self, data: Option<RouteCoord>)
        ensures
            final(self)@ == (NodeView { deux_ex_data: data, ..old(self)@ }),
    {
        self.deux_ex_data = data;
    }

    /// The record of the remote `node_id`, or an error where none is kept.
    pub fn remote(&self, node_id: &NodeID) -> (r: Result<&RemoteNode, NodeError>)
        ensures
            match r {
                Ok(remote) => self.remotes@.contains_key(*node_id) && *remote == self.remotes@[*node_id],
                Err(e) => !self.remotes@.contains_key(*node_id) && e == (NodeError::NoRemoteError {
                    node_id: *node_id,
                }),
            },
    {
        match self.remotes.get(node_id) {
            Some(remote) => Ok(remote),
            None => Err(NodeError::NoRemoteError { node_id: *node_id }),
        }
    }

    /// The record of the remote `node_id`, to be changed in place, or an
    /// error where none is kept. Nothing but that record changes.
    pub fn remote_mut(&mut self, node_id: &NodeID) -> (r: Result<&mut RemoteNode, NodeError>)
        ensures
            match r {
                Ok(remote) => {
                    &&& old(self).remotes@.contains_key(*node_id)
                    &&& *remote == old(self).remotes@[*node_id]
                    &&& final(self)@ == old(self)@.with_remote(*node_id, (*final(remote))@)
                },
                Err(e) => {
                    &&& !old(self).remotes@.contains_key(*node_id)
                    &&& e == (NodeError::NoRemoteError { node_id: *node_id })
                    &&& final(self)@ == old(self)@
                },
            },
    {
        let ghost before = self.remotes@;
        match remotes_get_mut(&mut self.remotes, node_id) {
            Some(remote) => {
                proof {
                    lemma_remotes_insert(before, *node_id, *final(remote));
                }
                Ok(remote)
            },
            None => Err(NodeError::NoRemoteError { node_id: *node_id }),
        }
    }

    /// Whether a session with `node` is active.
    pub fn has_session(&self, node: NodeID) -> (b: bool)
        ensures
            b == self@.has_session(node),
    {
        match self.remotes.get(&node) {
            Some(remote) => remote.session.is_some(),
            None => false,
        }
    }

    /// The latency noted from `a` to `b`, if one is noted.
    pub fn latency(&self, a: NodeID, b: NodeID) -> (w: Option<RouteScalar>)
        ensures
            w == if self@.route_map.contains_key((a, b)) {
                Some(self@.route_map[(a, b)])
            } else {
                None
            },
    {
        graph_edge_weight(&self.route_map, a, b)
    }

    /// The coordinate under which `node` is kept as a peer, if it is one.
    pub fn peer_coord(&self, node: NodeID) -> (c: Option<RouteCoord>)
        ensures
            c == if self@.peer_list.contains_key(node) {
                Some(self@.peer_list[node])
            } else {
                None
            },
    {
        peers_get_by_left(&self.peer_list, node)
    }

    /// The node that the session `session_id` belongs to, if it is known.
    pub fn session_node(&self, session_id: SessionID) -> (node: Option<NodeID>)
        ensures
            node == if self@.sessions.contains_key(session_id) {
                Some(self@.sessions[session_id])
            } else {
                None
            },
    {
        sessions_get_by_left(&self.sessions, session_id)
    }

    /// The active session with `node`.
    pub(crate) fn session_of(&self, node: NodeID) -> (session: &RemoteSession)
        requires
            self@.has_session(node),
        ensures
            session@ == self@.remotes[node].session.unwrap(),
    {
        self.remotes.get(&node).unwrap().session.as_ref().unwrap()
    }

    /// Sends `packet` to `from` through its session.
    pub(crate) fn reply(&self, from: NodeID, packet: NodePacket, outgoing: &mut PacketVec)
        requires
            self@.has_session(from),
        ensures
            datagrams(final(outgoing)@) == datagrams(old(outgoing)@) + carried(
                self.net_id,
                seq![through(self@.remotes[from].session.unwrap(), packet@)],
            ),
    {
        send_through(self.session_of(from), packet, self.net_id, outgoing);
    }

    /// Latency measured to `node` so far.
    pub(crate) fn distance_to(&self, node: NodeID) -> (d: RouteScalar)
        requires
            self@.has_session(node),
        ensures
            d == self@.remotes[node].session.unwrap().tracker.dist_avg,
    {
        self.session_of(node).tracker.distance()
    }

    /// Address that reaches `node` through its session.
    pub(crate) fn address_of(&self, node: NodeID) -> (a: InternetID)
        requires
            self@.has_session(node),
        ensures
            a == self@.remotes[node].session.unwrap().return_net_id,
    {
        self.session_of(node).return_net_id
    }

    /// Number of remotes on record.
    pub(crate) fn known(&self) -> (k: usize)
        ensures
            k == self@.known(),
    {
        assert(remotes_view(self.remotes@).dom() =~= self.remotes@.dom());
        self.remotes.len()
    }

    /// Number of tested nodes.
    pub(crate) fn tested(&self) -> (k: usize)
        ensures
            k == self@.tested(),
    {
        proof {
            broadcast use vstd::std_specs::btree::axiom_key_obeys_cmp_spec_meaning;
        }
        self.node_list.len()
    }

    /// Notes `coord` as the coordinate of `node`.
    pub(crate) fn note_coord(&mut self, node: NodeID, coord: Option<RouteCoord>)
        requires
            old(self)@.remotes.contains_key(node),
        ensures
            final(self)@ == old(self)@.with_remote(
                node,
                RemoteView { route_coord: coord, ..old(self)@.remotes[node] },
            ),
    {
        let mut remote = take_remote(&mut self.remotes, node);
        remote.route_coord = coord;
        proof {
            lemma_remotes_insert(old(self).remotes@, node, remote);
        }
        self.remotes.insert(node, remote);
    }

    /// Notes the rank at which `node` holds this node.
    pub(crate) fn note_rank(&mut self, node: NodeID, rank: u8)
        requires
            old(self)@.remotes.contains_key(node),
        ensures
            final(self)@ == old(self)@.with_remote(
                node,
                RemoteView { peer_rank: Some(rank), ..old(self)@.remotes[node] },
            ),
    {
        let mut remote = take_remote(&mut self.remotes, node);
        remote.peer_rank = Some(rank);
        proof {
            lemma_remotes_insert(old(self).remotes@, node, remote);
        }
        self.remotes.insert(node, remote);
    }
}

} // verus!
