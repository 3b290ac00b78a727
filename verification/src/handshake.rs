//! Session establishment: starting a handshake, accepting one, and
//! completing one when its acknowledgement arrives.

use vstd::prelude::*;
use crate::entropy::random_session_id;
use crate::envelope::{datagrams, InternetPacket, NodeEncryption, PacketVec};
use crate::laws::lemma_receive_keeps_wf;
use crate::model::{
    carried, on_acknowledge, on_connect, on_connect_routed, on_datagram, on_handshake, out_of_reach,
    refreshed,
};
use crate::node::{
    lemma_carried_nothing, lemma_remotes_insert, performed, take_remote, take_remote_or_fresh, Node,
};
use crate::node_list::list_node;
use crate::packet::{packets_view, NodePacket, PacketView};
use crate::pairing::{sessions_get_by_left, sessions_insert};
use crate::remote::{PendingView, RemoteView};
use crate::route_map::graph_add_edge;
use crate::session::RemoteSession;
use crate::types::{
    InternetID, NodeError, NodeID, PingID, RemoteNodeError, RouteCoord, RouteScalar, SessionID,
};

verus! {

/// View of what opening a datagram gives.
pub open spec fn opened_view(r: Result<Option<(NodeID, NodePacket)>, NodeError>) -> Result<
    Option<(NodeID, PacketView)>,
    NodeError,
> {
    match r {
        Ok(Some((node, packet))) => Ok(Some((node, packet@))),
        Ok(None) => Ok(None),
        Err(e) => Err(e),
    }
}

/// Rewrites the packets that waited for a handshake: every `ExchangeInfo`
/// among them is replaced by one that carries `coord`, `known` and `distance`.
pub fn refresh_packets(
    packets: Vec<NodePacket>,
    coord: Option<RouteCoord>,
    known: usize,
    distance: RouteScalar,
) -> (fresh: Vec<NodePacket>)
    ensures
        packets_view(fresh@) == refreshed(packets_view(packets@), coord, known, distance),
{
    let mut fresh: Vec<NodePacket> = Vec::new();
    let ghost all = packets@;
    for packet in it: packets
        invariant
            it.seq() == all,
            fresh@.len() == it.index(),
            forall|i: int|
                0 <= i < fresh@.len() ==> (#[trigger] fresh@[i])@ == refreshed(
                    packets_view(all),
                    coord,
                    known,
                    distance,
                )[i],
    {
        match packet {
            NodePacket::ExchangeInfo(..) => {
                fresh.push(NodePacket::ExchangeInfo(coord, known, distance));
            },
            other => {
                fresh.push(other);
            },
        }
    }
    assert(packets_view(fresh@) =~= refreshed(packets_view(all), coord, known, distance));
    fresh
}

impl Node {
    /// Notes a pending handshake with `node`, on a fresh record where none is kept.
    fn note_pending(&mut self, node: NodeID, session_id: SessionID, time_sent: usize, packets: Vec<NodePacket>)
        ensures
            final(self)@ == old(self)@.with_remote(
                node,
                RemoteView {
                    handshake_pending: Some(
                        PendingView { session_id, time_sent, initial_packets: packets_view(packets@) },
                    ),
                    ..old(self)@.remote_or_fresh(node)
                },
            ),
    {
        let mut remote = take_remote_or_fresh(&mut self.remotes, node);
        remote.handshake_pending = Some((session_id, time_sent, packets));
        proof {
            lemma_remotes_insert(old(self).remotes@, node, remote);
        }
        self.remotes.insert(node, remote);
    }

    /// Starts a handshake with `dest_node_id` at `dest_addr` under
    /// `session_id`, unless a session with it is active: see [`on_connect`].
    pub fn start_handshake(
        &mut self,
        dest_node_id: NodeID,
        dest_addr: InternetID,
        initial_packets: Vec<NodePacket>,
        session_id: SessionID,
        outgoing: &mut PacketVec,
    )
        ensures
            performed(
                on_connect(old(self)@, dest_node_id, dest_addr, packets_view(initial_packets@), session_id),
                old(self)@,
                final(self)@,
                old(outgoing)@,
                final(outgoing)@,
            ),
    {
        if self.has_session(dest_node_id) {
            proof {
                lemma_carried_nothing(self.net_id, datagrams(outgoing@));
            }
            return ;
        }
        self.note_pending(dest_node_id, session_id, self.ticks, initial_packets);
        let handshake = NodeEncryption::Handshake { recipient: dest_node_id, session_id, signer: self.node_id };
        let datagram = handshake.package(self.net_id, dest_addr);
        outgoing.push(datagram);
        proof {
            let step = on_connect(
                old(self)@,
                dest_node_id,
                dest_addr,
                packets_view(initial_packets@),
                session_id,
            );
            assert(datagrams(outgoing@) =~= datagrams(old(outgoing)@) + carried(self.net_id, step.out));
        }
    }

    /// Notes a handshake with `dest_node_id` that is relayed through
    /// peers, unless a session with it is active: see [`on_connect_routed`].
    pub fn start_routed_handshake(
        &mut self,
        dest_node_id: NodeID,
        initial_packets: Vec<NodePacket>,
        session_id: SessionID,
    )
        ensures
            final(self)@ == on_connect_routed(
                old(self)@,
                dest_node_id,
                packets_view(initial_packets@),
                session_id,
            ).node,
    {
        if self.has_session(dest_node_id) {
            return ;
        }
        self.note_pending(dest_node_id, session_id, usize::MAX, initial_packets);
    }

    /// Starts a handshake with `dest_node_id` under a random session
    /// identifier; `initial_packets` are sent once it is acknowledged.
    /// Whatever the identifier, the node does what [`on_connect`] says for it.
    pub fn direct_connect(
        &mut self,
        dest_node_id: NodeID,
        dest_addr: InternetID,
        initial_packets: Vec<NodePacket>,
        outgoing: &mut PacketVec,
    )
        ensures
            exists|session_id: SessionID|
                performed(
                    #[trigger] on_connect(
                        old(self)@,
                        dest_node_id,
                        dest_addr,
                        packets_view(initial_packets@),
                        session_id,
                    ),
                    old(self)@,
                    final(self)@,
                    old(outgoing)@,
                    final(outgoing)@,
                ),
    {
        let session_id = random_session_id();
        self.start_handshake(dest_node_id, dest_addr, initial_packets, session_id, outgoing);
    }

    /// Notes a relayed handshake with `dest_node_id` under a random session
    /// identifier. Whatever the identifier, the node does what
    /// [`on_connect_routed`] says for it.
    pub fn routed_connect(&mut self, dest_node_id: NodeID, initial_packets: Vec<NodePacket>)
        ensures
            exists|session_id: SessionID|
                final(self)@ == (#[trigger] on_connect_routed(
                    old(self)@,
                    dest_node_id,
                    packets_view(initial_packets@),
                    session_id,
                )).node,
    {
        let session_id = random_session_id();
        self.start_routed_handshake(dest_node_id, initial_packets, session_id);
    }

    /// The packets that waited for the handshake with `return_node_id`, as
    /// they are sent once it is acknowledged: see [`refreshed`]. Fails where
    /// the node is unknown or has no session.
    pub fn update_connection_packets(&self, return_node_id: NodeID, packets: Vec<NodePacket>) -> (r: Result<
        Vec<NodePacket>,
        NodeError,
    >)
        ensures
            match r {
                Ok(fresh) => self@.has_session(return_node_id) && packets_view(fresh@) == refreshed(
                    packets_view(packets@),
                    self@.route_coord,
                    self@.known(),
                    self@.remotes[return_node_id].session.unwrap().tracker.dist_avg,
                ),
                Err(e) => !self@.has_session(return_node_id) && e == out_of_reach(self@, return_node_id),
            },
    {
        match self.remotes.get(&return_node_id) {
            None => Err(NodeError::NoRemoteError { node_id: return_node_id }),
            Some(remote) => match &remote.session {
                None => Err(
                    NodeError::RemoteNodeError(RemoteNodeError::NoSessionError { node_id: remote.node_id }),
                ),
                Some(session) => Ok(
                    refresh_packets(packets, self.route_coord, self.known(), session.tracker.distance()),
                ),
            },
        }
    }

    /// Whether this node answers a handshake of `signer` by standing by
    /// its own: see [`NodeView::stands_by_own_handshake`].
    pub fn stands_by_own_handshake(&self, signer: NodeID) -> (b: bool)
        ensures
            b == self@.stands_by_own_handshake(signer),
    {
        match self.remotes.get(&signer) {
            Some(remote) => remote.handshake_pending.is_some() && !(self.node_id < remote.node_id),
            None => false,
        }
    }

    /// Handles the handshake of `signer`, sent from `src`: see [`on_handshake`].
    fn handle_handshake(&mut self, src: InternetID, session_id: SessionID, signer: NodeID, outgoing: &mut PacketVec)
        ensures
            performed(
                on_handshake(old(self)@, src, session_id, signer),
                old(self)@,
                final(self)@,
                old(outgoing)@,
                final(outgoing)@,
            ),
    {
        if self.stands_by_own_handshake(signer) {
            proof {
                lemma_carried_nothing(self.net_id, datagrams(outgoing@));
            }
            return ;
        }
        let mut remote = take_remote_or_fresh(&mut self.remotes, signer);
        remote.handshake_pending = None;
        let mut session = RemoteSession::from_id(session_id, src);
        let return_ping_id = session.tracker.gen_ping(self.ticks);
        remote.session = Some(session);
        proof {
            lemma_remotes_insert(old(self).remotes@, signer, remote);
        }
        self.remotes.insert(signer, remote);
        let acknowledgement = NodeEncryption::Acknowledge {
            session_id,
            acknowledger: self.node_id,
            return_ping_id,
        };
        let datagram = acknowledgement.package(self.net_id, src);
        outgoing.push(datagram);
        sessions_insert(&mut self.sessions, session_id, signer);
        proof {
            let step = on_handshake(old(self)@, src, session_id, signer);
            assert(datagrams(outgoing@) =~= datagrams(old(outgoing)@) + carried(self.net_id, step.out));
        }
    }

    /// Handles the acknowledgement of `acknowledger`, sent from `src`: see [`on_acknowledge`].
    fn handle_acknowledge(
        &mut self,
        src: InternetID,
        session_id: SessionID,
        acknowledger: NodeID,
        return_ping_id: PingID,
        outgoing: &mut PacketVec,
    ) -> (r: Result<(), NodeError>)
        ensures
            performed(
                on_acknowledge(old(self)@, src, session_id, acknowledger, return_ping_id),
                old(self)@,
                final(self)@,
                old(outgoing)@,
                final(outgoing)@,
            ),
            match r {
                Ok(_) => on_acknowledge(old(self)@, src, session_id, acknowledger, return_ping_id).result
                    == Ok::<Option<(NodeID, PacketView)>, NodeError>(None),
                Err(e) => on_acknowledge(old(self)@, src, session_id, acknowledger, return_ping_id).result
                    == Err::<Option<(NodeID, PacketView)>, NodeError>(e),
            },
    {
        proof {
            lemma_carried_nothing(self.net_id, datagrams(outgoing@));
        }
        let pending_id = match self.remotes.get(&acknowledger) {
            None => {
                return Err(NodeError::NoRemoteError { node_id: acknowledger });
            },
            Some(remote) => match &remote.handshake_pending {
                None => {
                    return Err(NodeError::RemoteNodeError(RemoteNodeError::NoPendingHandshake));
                },
                Some(pending) => pending.0,
            },
        };
        if pending_id != session_id {
            return Err(NodeError::RemoteNodeError(RemoteNodeError::UnknownAck { passed: session_id }));
        }
        let mut remote = take_remote(&mut self.remotes, acknowledger);
        let (_, time_sent, packets) = remote.handshake_pending.take().unwrap();
        let mut session = RemoteSession::from_id(session_id, src);
        let ping_id = session.tracker.gen_ping(time_sent);
        let distance = session.tracker.acknowledge_ping(ping_id, self.ticks).unwrap();
        remote.session = Some(session);
        proof {
            lemma_remotes_insert(old(self).remotes@, acknowledger, remote);
            assert(old(self)@.remotes.insert(acknowledger, remote@).dom() =~= old(self)@.remotes.dom());
        }
        self.remotes.insert(acknowledger, remote);
        let fresh = self.update_connection_packets(acknowledger, packets).unwrap();
        self.reply(acknowledger, NodePacket::ConnectionInit(return_ping_id, fresh), outgoing);
        sessions_insert(&mut self.sessions, session_id, acknowledger);
        list_node(&mut self.node_list, distance, acknowledger);
        graph_add_edge(&mut self.route_map, self.node_id, acknowledger, distance);
        Ok(())
    }

    /// Opens a datagram. A handshake or an acknowledgement takes effect at
    /// once and gives nothing back; a session envelope gives back the node
    /// it came from and the packet it carries, for [`Node::parse_node_packet`].
    /// See [`on_datagram`] for each case and each error.
    pub fn parse_packet(&mut self, received_packet: InternetPacket, outgoing: &mut PacketVec) -> (r: Result<
        Option<(NodeID, NodePacket)>,
        NodeError,
    >)
        ensures
            performed(
                on_datagram(old(self)@, received_packet@),
                old(self)@,
                final(self)@,
                old(outgoing)@,
                final(outgoing)@,
            ),
            opened_view(r) == on_datagram(old(self)@, received_packet@).result,
            final(self).net_id == old(self).net_id,
            old(self)@.wf() ==> final(self)@.wf(),
    {
        proof {
            lemma_carried_nothing(self.net_id, datagrams(outgoing@));
            if self@.wf() {
                lemma_receive_keeps_wf(self@, received_packet@);
            }
        }
        if received_packet.dest_addr != self.net_id {
            return Err(
                NodeError::InvalidNetworkRecipient {
                    from: received_packet.src_addr,
                    intended_dest: received_packet.dest_addr,
                },
            );
        }
        let src = received_packet.src_addr;
        let envelope = match NodeEncryption::unpackage(&received_packet) {
            Ok(envelope) => envelope,
            Err(e) => {
                return Err(e);
            },
        };
        match envelope {
            NodeEncryption::Handshake { recipient, session_id, signer } => {
                if recipient != self.node_id {
                    return Err(
                        NodeError::RemoteNodeError(RemoteNodeError::UnknownAckRecipient { recipient }),
                    );
                }
                self.handle_handshake(src, session_id, signer, outgoing);
                Ok(None)
            },
            NodeEncryption::Acknowledge { session_id, acknowledger, return_ping_id } => {
                match self.handle_acknowledge(src, session_id, acknowledger, return_ping_id, outgoing) {
                    Ok(_) => Ok(None),
                    Err(e) => Err(e),
                }
            },
            NodeEncryption::Session { session_id, packet } => {
                match sessions_get_by_left(&self.sessions, session_id) {
                    Some(node) => Ok(Some((node, packet))),
                    None => Err(NodeError::UnknownSession { session_id }),
                }
            },
        }
    }
}

} // verus!
