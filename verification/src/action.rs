//! The actions a node can be asked to perform, and the conditions that can
//! hold an action back.

use vstd::prelude::*;
use crate::packet::{clone_packets, packet_view, packets_view, NodePacket, PacketView};
use crate::types::{InternetID, NodeID};

verus! {

/// A condition that must hold before the action it guards is released.
#[derive(Clone, Copy, Debug, PartialEq, Eq, Structural)]
pub enum NodeActionCondition {
    /// Holds once a session with the node is active.
    Session(NodeID),
    /// Holds from the given tick on.
    RunAt(usize),
}

/// Something a node does when its turn in the action queue comes.
#[derive(Debug)]
pub enum NodeAction {
    /// Joins the network through the given node: connects to it and
    /// exchanges information.
    Bootstrap(NodeID, InternetID),
    /// Starts a handshake with the node at the given address; the packets
    /// are sent once the handshake is acknowledged.
    Connect(NodeID, InternetID, Vec<NodePacket>),
    /// Asks a remote to have some of its nearest nodes ping this node.
    RequestPeers(NodeID, usize),
    /// Tries to compute this node's routing coordinate.
    TryCalcRouteCoord,
    /// Rebuilds the peer list from the nodes tested so far.
    CalculatePeers,
    /// Forwards a packet toward a node through the routing layer. Reserved.
    Traverse(NodeID, Box<NodePacket>),
    /// Starts a handshake that is relayed through peers.
    ConnectRouted(NodeID, Vec<NodePacket>),
    /// Sends a packet to a remote through its session.
    Packet(NodeID, NodePacket),
    /// Holds the inner action back until the condition holds.
    Condition(NodeActionCondition, Box<NodeAction>),
}

/// Mathematical content of a [`NodeAction`].
pub enum ActionView {
    Bootstrap(NodeID, InternetID),
    Connect(NodeID, InternetID, Seq<PacketView>),
    RequestPeers(NodeID, usize),
    TryCalcRouteCoord,
    CalculatePeers,
    Traverse(NodeID, Box<PacketView>),
    ConnectRouted(NodeID, Seq<PacketView>),
    Packet(NodeID, PacketView),
    Condition(NodeActionCondition, Box<ActionView>),
}

/// View of one action.
pub open spec fn action_view(a: NodeAction) -> ActionView
    decreases a,
{
    match a {
        NodeAction::Bootstrap(n, a) => ActionView::Bootstrap(n, a),
        NodeAction::Connect(n, a, packets) => ActionView::Connect(n, a, packets_view(packets@)),
        NodeAction::RequestPeers(n, k) => ActionView::RequestPeers(n, k),
        NodeAction::TryCalcRouteCoord => ActionView::TryCalcRouteCoord,
        NodeAction::CalculatePeers => ActionView::CalculatePeers,
        NodeAction::Traverse(n, p) => ActionView::Traverse(n, Box::new(packet_view(*p))),
        NodeAction::ConnectRouted(n, packets) => ActionView::ConnectRouted(n, packets_view(packets@)),
        NodeAction::Packet(n, p) => ActionView::Packet(n, packet_view(p)),
        NodeAction::Condition(c, inner) => ActionView::Condition(c, Box::new(action_view(*inner))),
    }
}

impl View for NodeAction {
    type V = ActionView;

    open spec fn view(&self) -> ActionView {
        action_view(*self)
    }
}

/// Views of a sequence of actions, in order.
pub open spec fn actions_view(s: Seq<NodeAction>) -> Seq<ActionView> {
    Seq::new(s.len(), |i: int| s[i]@)
}

impl Clone for NodeAction {
    /// A copy with the same content.
    fn clone(&self) -> (copy: NodeAction)
        ensures
            copy@ == self@,
        decreases self,
    {
        match self {
            NodeAction::Bootstrap(n, a) => NodeAction::Bootstrap(*n, *a),
            NodeAction::Connect(n, a, packets) => NodeAction::Connect(*n, *a, clone_packets(packets)),
            NodeAction::RequestPeers(n, k) => NodeAction::RequestPeers(*n, *k),
            NodeAction::TryCalcRouteCoord => NodeAction::TryCalcRouteCoord,
            NodeAction::CalculatePeers => NodeAction::CalculatePeers,
            NodeAction::Traverse(n, p) => {
                let copy = (**p).clone();
                NodeAction::Traverse(*n, Box::new(copy))
            },
            NodeAction::ConnectRouted(n, packets) => NodeAction::ConnectRouted(*n, clone_packets(packets)),
            NodeAction::Packet(n, p) => NodeAction::Packet(*n, p.clone()),
            NodeAction::Condition(c, inner) => {
                let copy = (**inner).clone();
                NodeAction::Condition(*c, Box::new(copy))
            },
        }
    }
}

impl NodeAction {
    /// Guards this action with `condition`: the result stays in the queue
    /// until the condition holds, and then gives way to this action.
    pub fn gen_condition(self, condition: NodeActionCondition) -> (guarded: NodeAction)
        ensures
            guarded == NodeAction::Condition(condition, Box::new(self)),
            guarded@ == ActionView::Condition(condition, Box::new(self@)),
    {
        NodeAction::Condition(condition, Box::new(self))
    }
}

} // verus!
