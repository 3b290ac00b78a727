//! The packets that travel inside a session, and their mathematical views.

use vstd::prelude::*;
use crate::types::{InternetID, NodeID, PingID, RouteCoord, RouteScalar};

verus! {

/// A packet of the session protocol.
#[derive(Debug)]
pub enum NodePacket {
    /// First packet of a session: answers the acknowledger's ping and carries
    /// the packets that waited for the handshake.
    ConnectionInit(PingID, Vec<NodePacket>),
    /// Asks for a [`NodePacket::PingResponse`] with the same identifier.
    Ping(PingID),
    /// Answers a ping.
    PingResponse(PingID),
    /// Sender's coordinate, the number of remotes it knows, and its measured latency to the recipient.
    ExchangeInfo(Option<RouteCoord>, usize, RouteScalar),
    /// Answer to [`NodePacket::ExchangeInfo`], with the same fields.
    ExchangeInfoResponse(Option<RouteCoord>, usize, RouteScalar),
    /// Proposal that seeds the coordinate space: the coordinate the sender
    /// takes, then the coordinate it offers to the recipient.
    ProposeRouteCoords(RouteCoord, RouteCoord),
    /// Answer to a proposal: the two coordinates of the proposal in the
    /// order they came, the proposer's first, and whether the proposal was accepted.
    ProposeRouteCoordsResponse(RouteCoord, RouteCoord, bool),
    /// Asks the recipient to have up to this many of its nearest nodes ping the sender.
    RequestPings(usize),
    /// Tells the recipient that the named node, at the given address, wants to be pinged.
    WantPing(NodeID, InternetID),
    /// Sent by a node that answers a [`NodePacket::WantPing`]: the node that
    /// relayed the request, and the sender's latency to it.
    AcceptWantPing(NodeID, RouteScalar),
    /// Tells the recipient at which rank the sender holds it among its peers.
    PeerNotify(u8),
    /// A packet to be forwarded toward the named node. Reserved.
    Traverse(NodeID, Box<NodePacket>),
}

/// Mathematical content of a [`NodePacket`].
pub enum PacketView {
    ConnectionInit(PingID, Seq<PacketView>),
    Ping(PingID),
    PingResponse(PingID),
    ExchangeInfo(Option<RouteCoord>, usize, RouteScalar),
    ExchangeInfoResponse(Option<RouteCoord>, usize, RouteScalar),
    ProposeRouteCoords(RouteCoord, RouteCoord),
    ProposeRouteCoordsResponse(RouteCoord, RouteCoord, bool),
    RequestPings(usize),
    WantPing(NodeID, InternetID),
    AcceptWantPing(NodeID, RouteScalar),
    PeerNotify(u8),
    Traverse(NodeID, Box<PacketView>),
}

/// Views of a sequence of packets, in order.
pub open spec fn packets_view(s: Seq<NodePacket>) -> Seq<PacketView>
    decreases s,
{
    Seq::new(s.len(), |i: int| if 0 <= i < s.len() { packet_view(s[i]) } else { PacketView::Ping(0) })
}

/// View of one packet.
pub open spec fn packet_view(p: NodePacket) -> PacketView
    decreases p,
{
    match p {
        NodePacket::ConnectionInit(id, packets) => PacketView::ConnectionInit(id, packets_view(packets@)),
        NodePacket::Ping(id) => PacketView::Ping(id),
        NodePacket::PingResponse(id) => PacketView::PingResponse(id),
        NodePacket::ExchangeInfo(c, n, d) => PacketView::ExchangeInfo(c, n, d),
        NodePacket::ExchangeInfoResponse(c, n, d) => PacketView::ExchangeInfoResponse(c, n, d),
        NodePacket::ProposeRouteCoords(a, b) => PacketView::ProposeRouteCoords(a, b),
        NodePacket::ProposeRouteCoordsResponse(a, b, ok) => PacketView::ProposeRouteCoordsResponse(a, b, ok),
        NodePacket::RequestPings(n) => PacketView::RequestPings(n),
        NodePacket::WantPing(n, a) => PacketView::WantPing(n, a),
        NodePacket::AcceptWantPing(n, d) => PacketView::AcceptWantPing(n, d),
        NodePacket::PeerNotify(r) => PacketView::PeerNotify(r),
        NodePacket::Traverse(n, inner) => PacketView::Traverse(n, Box::new(packet_view(*inner))),
    }
}

impl View for NodePacket {
    type V = PacketView;

    open spec fn view(&self) -> PacketView {
        packet_view(*self)
    }
}

impl PacketView {
    /// Number that tells the variants apart; the key under which the time
    /// of the last arrival of each kind is kept.
    pub open spec fn kind(self) -> u8 {
        match self {
            PacketView::ConnectionInit(..) => 0,
            PacketView::Ping(..) => 1,
            PacketView::PingResponse(..) => 2,
            PacketView::ExchangeInfo(..) => 3,
            PacketView::ExchangeInfoResponse(..) => 4,
            PacketView::ProposeRouteCoords(..) => 5,
            PacketView::ProposeRouteCoordsResponse(..) => 6,
            PacketView::RequestPings(..) => 7,
            PacketView::WantPing(..) => 8,
            PacketView::AcceptWantPing(..) => 9,
            PacketView::PeerNotify(..) => 10,
            PacketView::Traverse(..) => 11,
        }
    }
}

/// Copies of `packets`, in order.
pub(crate) fn clone_packets(packets: &Vec<NodePacket>) -> (copies: Vec<NodePacket>)
    ensures
        packets_view(copies@) == packets_view(packets@),
    decreases packets,
{
    let mut copies: Vec<NodePacket> = Vec::new();
    let mut i: usize = 0;
    while i < packets.len()
        invariant
            i <= packets.len(),
            copies@.len() == i,
            forall|j: int| 0 <= j < i ==> (#[trigger] copies@[j])@ == packets@[j]@,
        decreases packets.len() - i,
    {
        proof {
            vstd::std_specs::vec::axiom_vec_index_decreases(*packets, i as int);
        }
        copies.push(packets[i].clone());
        i = i + 1;
    }
    assert(packets_view(copies@) =~= packets_view(packets@));
    copies
}

impl Clone for NodePacket {
    /// A copy with the same content.
    fn clone(&self) -> (copy: NodePacket)
        ensures
            copy@ == self@,
        decreases self,
    {
        match self {
            NodePacket::ConnectionInit(id, packets) => NodePacket::ConnectionInit(*id, clone_packets(packets)),
            NodePacket::Ping(id) => NodePacket::Ping(*id),
            NodePacket::PingResponse(id) => NodePacket::PingResponse(*id),
            NodePacket::ExchangeInfo(c, n, d) => NodePacket::ExchangeInfo(*c, *n, *d),
            NodePacket::ExchangeInfoResponse(c, n, d) => NodePacket::ExchangeInfoResponse(*c, *n, *d),
            NodePacket::ProposeRouteCoords(a, b) => NodePacket::ProposeRouteCoords(*a, *b),
            NodePacket::ProposeRouteCoordsResponse(a, b, ok) => NodePacket::ProposeRouteCoordsResponse(
                *a,
                *b,
                *ok,
            ),
            NodePacket::RequestPings(n) => NodePacket::RequestPings(*n),
            NodePacket::WantPing(n, a) => NodePacket::WantPing(*n, *a),
            NodePacket::AcceptWantPing(n, d) => NodePacket::AcceptWantPing(*n, *d),
            NodePacket::PeerNotify(r) => NodePacket::PeerNotify(*r),
            NodePacket::Traverse(n, inner) => {
                let copy = (**inner).clone();
                NodePacket::Traverse(*n, Box::new(copy))
            },
        }
    }
}

impl NodePacket {
    /// Number that tells the variants apart.
    pub fn kind(&self) -> (k: u8)
        ensures
            k == self@.kind(),
    {
        match self {
            NodePacket::ConnectionInit(..) => 0,
            NodePacket::Ping(..) => 1,
            NodePacket::PingResponse(..) => 2,
            NodePacket::ExchangeInfo(..) => 3,
            NodePacket::ExchangeInfoResponse(..) => 4,
            NodePacket::ProposeRouteCoords(..) => 5,
            NodePacket::ProposeRouteCoordsResponse(..) => 6,
            NodePacket::RequestPings(..) => 7,
            NodePacket::WantPing(..) => 8,
            NodePacket::AcceptWantPing(..) => 9,
            NodePacket::PeerNotify(..) => 10,
            NodePacket::Traverse(..) => 11,
        }
    }
}

} // verus!
