//! What a node knows of one remote node.

use vstd::prelude::*;
use crate::envelope::{datagrams, package_spec, InternetPacket};
use crate::packet::{packets_view, NodePacket, PacketView};
use crate::session::{RemoteSession, SessionView};
use crate::types::{InternetID, NodeID, RemoteNodeError, RouteCoord, SessionID};

verus! {

/// A handshake that was sent and not yet acknowledged.
pub struct PendingView {
    pub session_id: SessionID,
    pub time_sent: usize,
    pub initial_packets: Seq<PacketView>,
}

/// Mathematical content of a [`RemoteNode`].
pub struct RemoteView {
    pub node_id: NodeID,
    pub handshake_pending: Option<PendingView>,
    pub session: Option<SessionView>,
    pub route_coord: Option<RouteCoord>,
    pub peer_rank: Option<u8>,
}

impl RemoteView {
    /// A remote of which only the identity is known.
    pub open spec fn fresh(node_id: NodeID) -> RemoteView {
        RemoteView {
            node_id,
            handshake_pending: None,
            session: None,
            route_coord: None,
            peer_rank: None,
        }
    }

    /// The coordinate under which the remote can serve as a peer: its
    /// known coordinate, provided a session with it is active.
    pub open spec fn viable_coord(self) -> Option<RouteCoord> {
        if self.session is Some {
            self.route_coord
        } else {
            None
        }
    }
}

/// Record of one remote node.
#[derive(Debug)]
pub struct RemoteNode {
    /// Identity of the remote.
    pub node_id: NodeID,
    /// Session identifier, tick of sending and waiting packets of a
    /// handshake that was sent and not yet acknowledged.
    pub handshake_pending: Option<(SessionID, usize, Vec<NodePacket>)>,
    /// The active session, once a handshake was acknowledged.
    pub session: Option<RemoteSession>,
    /// Last coordinate learned of the remote.
    pub route_coord: Option<RouteCoord>,
    /// Rank at which the remote holds this node among its peers.
    pub peer_rank: Option<u8>,
}

impl View for RemoteNode {
    type V = RemoteView;

    open spec fn view(&self) -> RemoteView {
        RemoteView {
            node_id: self.node_id,
            handshake_pending: match self.handshake_pending {
                Some(pending) => Some(
                    PendingView {
                        session_id: pending.0,
                        time_sent: pending.1,
                        initial_packets: packets_view(pending.2@),
                    },
                ),
                None => None,
            },
            session: match self.session {
                Some(session) => Some(session@),
                None => None,
            },
            route_coord: self.route_coord,
            peer_rank: self.peer_rank,
        }
    }
}

impl RemoteNode {
    /// Creates the record of a remote of which only the identity is known.
    pub fn new(node_id: NodeID) -> (r: RemoteNode)
        ensures
            r@ == RemoteView::fresh(node_id),
    {
        RemoteNode { node_id, handshake_pending: None, session: None, route_coord: None, peer_rank: None }
    }

    /// Whether a session with the remote is active.
    pub fn session_active(&self) -> (b: bool)
        ensures
            b == (self@.session is Some),
    {
        self.session.is_some()
    }

    /// The active session, or an error where there is none.
    pub fn session(&self) -> (r: Result<&RemoteSession, RemoteNodeError>)
        ensures
            match r {
                Ok(session) => self.session == Some(*session),
                Err(e) => self.session is None && e == (RemoteNodeError::NoSessionError {
                    node_id: self.node_id,
                }),
            },
    {
        match &self.session {
            Some(session) => Ok(session),
            None => Err(RemoteNodeError::NoSessionError { node_id: self.node_id }),
        }
    }

    /// Sends `packet` to the remote through its session: appends the
    /// datagram, stamped with `src_addr` as its sender, to `outgoing`.
    /// Without a session nothing is sent and an error is returned.
    pub fn add_packet(&self, packet: NodePacket, src_addr: InternetID, outgoing: &mut Vec<InternetPacket>) -> (r:
        Result<(), RemoteNodeError>)
        ensures
            match self@.session {
                Some(session) => {
                    &&& r is Ok
                    &&& datagrams(final(outgoing)@) == datagrams(old(outgoing)@).push(
                        package_spec(session.envelope(packet@), src_addr, session.return_net_id),
                    )
                },
                None => {
                    &&& r == Err::<(), RemoteNodeError>(
                        RemoteNodeError::NoSessionError { node_id: self.node_id },
                    )
                    &&& final(outgoing)@ == old(outgoing)@
                },
            },
    {
        match &self.session {
            Some(session) => {
                let datagram = session.gen_packet(packet, src_addr);
                outgoing.push(datagram);
                assert(datagrams(outgoing@) =~= datagrams(old(outgoing)@).push(datagram@));
                Ok(())
            },
            None => Err(RemoteNodeError::NoSessionError { node_id: self.node_id }),
        }
    }

    /// Whether the remote can serve as a peer of a node at `self_coord`, and
    /// under which coordinate: the remote needs an active session and a
    /// known coordinate. The answer is local; nothing is sent.
    pub fn is_viable_peer(&self, self_coord: RouteCoord) -> (c: Option<RouteCoord>)
        ensures
            c == self@.viable_coord(),
    {
        if self.session.is_some() {
            self.route_coord
        } else {
            None
        }
    }
}

} // verus!
