//! The packet dispatcher: what each packet of a session makes of the node.

use vstd::prelude::*;
use crate::action::NodeAction;
use crate::envelope::{datagrams, PacketVec};
use crate::laws::lemma_packet_keeps_wf;
use crate::model::{
    carried, fan_out, on_accept_want_ping, on_exchange_info, on_exchange_info_response, on_packet,
    on_packets, on_ping_answer, on_propose, on_propose_response, on_request_pings, on_want_ping,
    scalar_coord, then_step, through, Emission,
};
use crate::node::{
    lemma_carried_add, lemma_carried_nothing, lemma_remotes_insert, performed, send_through,
    take_remote, Node,
};
use crate::node_list::{entries, list_node};
use crate::packet::{packets_view, NodePacket, PacketView};
use crate::remote::{RemoteNode, RemoteView};
use crate::route_map::graph_add_edge;
use crate::session::RemoteSession;
use crate::types::{
    InternetID, NodeError, NodeID, PingID, RemoteNodeError, RouteCoord, RouteScalar,
    MAX_REQUEST_PINGS, TARGET_PEER_COUNT,
};

verus! {

/// The latency as a coordinate component.
fn scalar_to_coord(d: RouteScalar) -> (c: i64)
    ensures
        c == scalar_coord(d),
{
    if d <= i64::MAX as u64 {
        d as i64
    } else {
        i64::MAX
    }
}

impl Node {
    /// Records that `packet` arrived from `node` now, and returns the ticks
    /// since the last packet of its kind.
    fn stamp(&mut self, node: NodeID, packet: &NodePacket) -> (elapsed: Option<usize>)
        requires
            old(self)@.has_session(node),
        ensures
            elapsed == old(self)@.remotes[node].session.unwrap().elapsed(packet@.kind(), old(self)@.ticks),
            final(self)@ == old(self)@.with_remote(
                node,
                RemoteView {
                    session: Some(
                        old(self)@.remotes[node].session.unwrap().stamp(packet@.kind(), old(self)@.ticks),
                    ),
                    ..old(self)@.remotes[node]
                },
            ),
    {
        let mut remote = take_remote(&mut self.remotes, node);
        let mut session = remote.session.take().unwrap();
        let elapsed = session.check_packet_time(packet, self.ticks);
        remote.session = Some(session);
        proof {
            lemma_remotes_insert(old(self).remotes@, node, remote);
        }
        self.remotes.insert(node, remote);
        elapsed
    }

    /// The answer to ping `id` arrives from `from`: see [`on_ping_answer`].
    fn handle_ping_answer(&mut self, from: NodeID, id: PingID) -> (r: Result<RouteScalar, NodeError>)
        requires
            old(self)@.has_session(from),
        ensures
            final(self)@ == on_ping_answer(old(self)@, from, id).node,
            r == on_ping_answer(old(self)@, from, id).result,
    {
        let mut remote = take_remote(&mut self.remotes, from);
        let mut session = remote.session.take().unwrap();
        let answered = session.tracker.acknowledge_ping(id, self.ticks);
        remote.session = Some(session);
        proof {
            lemma_remotes_insert(old(self).remotes@, from, remote);
        }
        self.remotes.insert(from, remote);
        match answered {
            Ok(sample) => {
                graph_add_edge(&mut self.route_map, self.node_id, from, sample);
                Ok(sample)
            },
            Err(e) => {
                assert(self@.remotes =~= old(self)@.remotes);
                Err(NodeError::SessionError(e))
            },
        }
    }

    /// `ExchangeInfo` arrives from `from`: see [`on_exchange_info`].
    fn handle_exchange_info(
        &mut self,
        from: NodeID,
        coord: Option<RouteCoord>,
        ping: RouteScalar,
        outgoing: &mut PacketVec,
    )
        requires
            old(self)@.has_session(from),
        ensures
            performed(
                on_exchange_info(old(self)@, from, coord, ping),
                old(self)@,
                final(self)@,
                old(outgoing)@,
                final(outgoing)@,
            ),
    {
        let answer = NodePacket::ExchangeInfoResponse(self.route_coord, self.known(), self.distance_to(from));
        self.reply(from, answer, outgoing);
        graph_add_edge(&mut self.route_map, from, self.node_id, ping);
        self.note_coord(from, coord);
    }

    /// `ExchangeInfoResponse` arrives from `from`: see [`on_exchange_info_response`].
    fn handle_exchange_info_response(
        &mut self,
        from: NodeID,
        coord: Option<RouteCoord>,
        peer_count: usize,
        ping: RouteScalar,
        outgoing: &mut PacketVec,
    )
        requires
            old(self)@.has_session(from),
        ensures
            performed(
                on_exchange_info_response(old(self)@, from, coord, peer_count, ping),
                old(self)@,
                final(self)@,
                old(outgoing)@,
                final(outgoing)@,
            ),
    {
        let tested = self.tested();
        let distance = self.distance_to(from);
        if peer_count <= 1 && coord.is_none() && self.route_coord.is_none() {
            let proposal = NodePacket::ProposeRouteCoords((0, 0), (0, scalar_to_coord(distance)));
            self.reply(from, proposal, outgoing);
        } else if tested == peer_count && tested < TARGET_PEER_COUNT {
            self.action(NodeAction::TryCalcRouteCoord);
            proof {
                lemma_carried_nothing(self.net_id, datagrams(outgoing@));
            }
        } else if tested < TARGET_PEER_COUNT {
            self.reply(from, NodePacket::RequestPings(TARGET_PEER_COUNT), outgoing);
        } else {
            self.action(NodeAction::TryCalcRouteCoord);
            proof {
                lemma_carried_nothing(self.net_id, datagrams(outgoing@));
            }
        }
        graph_add_edge(&mut self.route_map, from, self.node_id, ping);
        self.note_coord(from, coord);
    }

    /// `ProposeRouteCoords` arrives from `from`: see [`on_propose`].
    fn handle_propose(&mut self, from: NodeID, theirs: RouteCoord, ours: RouteCoord, outgoing: &mut PacketVec)
        requires
            old(self)@.has_session(from),
        ensures
            performed(
                on_propose(old(self)@, from, theirs, ours),
                old(self)@,
                final(self)@,
                old(outgoing)@,
                final(outgoing)@,
            ),
    {
        if self.route_coord.is_none() {
            self.reply(from, NodePacket::ProposeRouteCoordsResponse(theirs, ours, true), outgoing);
            self.route_coord = Some(ours);
            self.note_coord(from, Some(theirs));
        } else {
            self.reply(from, NodePacket::ProposeRouteCoordsResponse(theirs, ours, false), outgoing);
        }
    }

    /// `ProposeRouteCoordsResponse` arrives from `from`: see [`on_propose_response`].
    fn handle_propose_response(&mut self, from: NodeID, ours: RouteCoord, theirs: RouteCoord, accepted: bool)
        requires
            old(self)@.has_session(from),
        ensures
            final(self)@ == on_propose_response(old(self)@, from, ours, theirs, accepted).node,
    {
        if accepted {
            self.route_coord = Some(ours);
            self.note_coord(from, Some(theirs));
        }
    }

    /// `RequestPings` arrives from `from`: see [`on_request_pings`].
    #[verifier::loop_isolation(false)]
    fn handle_request_pings(
        &self,
        from: NodeID,
        requests: usize,
        elapsed: Option<usize>,
        outgoing: &mut PacketVec,
    ) -> (r: Result<(), NodeError>)
        requires
            self@.has_session(from),
        ensures
            datagrams(final(outgoing)@) == datagrams(old(outgoing)@) + carried(
                self.net_id,
                on_request_pings(self@, from, requests, elapsed).out,
            ),
            r == on_request_pings(self@, from, requests, elapsed).result,
    {
        if RemoteSession::is_rate_limited(elapsed) {
            proof {
                lemma_carried_nothing(self.net_id, datagrams(outgoing@));
            }
            return Ok(());
        }
        let address = self.address_of(from);
        let nearest = entries(&self.node_list);
        let size = if requests <= MAX_REQUEST_PINGS {
            requests
        } else {
            MAX_REQUEST_PINGS
        };
        let count = if size <= nearest.len() {
            size
        } else {
            nearest.len()
        };
        let ghost targets = nearest@.subrange(0, count as int);
        let ghost packet = PacketView::WantPing(from, address);
        let ghost sent: Seq<Emission> = Seq::empty();
        proof {
            assert(nearest@.subrange(0, nearest@.len() as int) =~= nearest@);
            assert(targets.subrange(0, count as int) =~= targets);
            lemma_carried_nothing(self.net_id, datagrams(outgoing@));
            assert(sent + fan_out(self@, from, targets, packet).0 =~= fan_out(
                self@,
                from,
                targets,
                packet,
            ).0);
        }
        let mut i: usize = 0;
        while i < count
            invariant
                i <= count,
                count <= nearest@.len(),
                targets == nearest@.subrange(0, count as int),
                packet == PacketView::WantPing(from, address),
                fan_out(self@, from, targets, packet).0 == sent + fan_out(
                    self@,
                    from,
                    targets.subrange(i as int, count as int),
                    packet,
                ).0,
                fan_out(self@, from, targets, packet).1 == fan_out(
                    self@,
                    from,
                    targets.subrange(i as int, count as int),
                    packet,
                ).1,
                datagrams(outgoing@) == datagrams(old(outgoing)@) + carried(self.net_id, sent),
            decreases count - i,
        {
            let ghost rest = targets.subrange(i as int, count as int);
            let ghost later = rest.subrange(1, rest.len() as int);
            assert(later =~= targets.subrange(i + 1, count as int));
            assert(rest[0] == nearest@[i as int]);
            let node = nearest[i].1;
            match self.remotes.get(&node) {
                None => {
                    proof {
                        assert(sent + Seq::<Emission>::empty() =~= sent);
                    }
                    return Err(NodeError::NoRemoteError { node_id: node });
                },
                Some(remote) => {
                    if remote.node_id != from {
                        match &remote.session {
                            None => {
                                proof {
                                    assert(sent + Seq::<Emission>::empty() =~= sent);
                                }
                                return Err(
                                    NodeError::RemoteNodeError(
                                        RemoteNodeError::NoSessionError { node_id: remote.node_id },
                                    ),
                                );
                            },
                            Some(session) => {
                                let ghost before = datagrams(outgoing@);
                                send_through(session, NodePacket::WantPing(from, address), self.net_id, outgoing);
                                proof {
                                    let e = through(session@, packet);
                                    lemma_carried_add(self.net_id, sent, seq![e]);
                                    assert(sent + (seq![e] + fan_out(self@, from, later, packet).0) =~= sent.push(
                                        e,
                                    ) + fan_out(self@, from, later, packet).0);
                                    assert(sent + seq![e] =~= sent.push(e));
                                    assert(before + carried(self.net_id, seq![e]) =~= datagrams(
                                        old(outgoing)@,
                                    ) + (carried(self.net_id, sent) + carried(self.net_id, seq![e])));
                                    sent = sent.push(e);
                                }
                            },
                        }
                    }
                },
            }
            i = i + 1;
        }
        proof {
            assert(sent + Seq::<Emission>::empty() =~= sent);
        }
        Ok(())
    }

    /// `WantPing` arrives from `from`: see [`on_want_ping`].
    fn handle_want_ping(&mut self, from: NodeID, requester: NodeID, address: InternetID)
        requires
            old(self)@.has_session(from),
        ensures
            final(self)@ == on_want_ping(old(self)@, from, requester, address).node,
    {
        if self.node_id == requester || self.route_coord.is_none() {
            return ;
        }
        let distance = self.distance_to(from);
        let connect = match self.remotes.get(&requester) {
            Some(record) => {
                assert(self@.remotes =~= self@.remotes.insert(requester, self@.remotes[requester]));
                record.session.is_none() && record.handshake_pending.is_none()
            },
            None => {
                let record = RemoteNode::new(requester);
                proof {
                    lemma_remotes_insert(self.remotes@, requester, record);
                }
                self.remotes.insert(requester, record);
                true
            },
        };
        if connect {
            let mut packets: Vec<NodePacket> = Vec::new();
            packets.push(NodePacket::AcceptWantPing(from, distance));
            assert(packets_view(packets@) =~= seq![PacketView::AcceptWantPing(from, distance)]);
            self.action(NodeAction::Connect(requester, address, packets));
        }
    }

    /// `AcceptWantPing` arrives from `from`: see [`on_accept_want_ping`].
    fn handle_accept_want_ping(
        &mut self,
        from: NodeID,
        relay: NodeID,
        distance: RouteScalar,
        elapsed: Option<usize>,
        outgoing: &mut PacketVec,
    )
        requires
            old(self)@.has_session(from),
        ensures
            performed(
                on_accept_want_ping(old(self)@, from, relay, distance, elapsed),
                old(self)@,
                final(self)@,
                old(outgoing)@,
                final(outgoing)@,
            ),
    {
        if RemoteSession::is_rate_limited(elapsed) {
            proof {
                lemma_carried_nothing(self.net_id, datagrams(outgoing@));
            }
        } else {
            let info = NodePacket::ExchangeInfo(self.route_coord, self.tested(), self.distance_to(from));
            self.reply(from, info, outgoing);
        }
        graph_add_edge(&mut self.route_map, from, relay, distance);
    }

    /// Handles a packet that arrived from `from`: see [`on_packet`].
    fn handle_packet(&mut self, from: NodeID, packet: &NodePacket, outgoing: &mut PacketVec) -> (r: Result<
        (),
        NodeError,
    >)
        ensures
            performed(
                on_packet(old(self)@, from, packet@),
                old(self)@,
                final(self)@,
                old(outgoing)@,
                final(outgoing)@,
            ),
            r == on_packet(old(self)@, from, packet@).result,
            final(self).net_id == old(self).net_id,
        decreases packet,
    {
        match self.remotes.get(&from) {
            None => {
                proof {
                    lemma_carried_nothing(self.net_id, datagrams(outgoing@));
                }
                return Err(NodeError::NoRemoteError { node_id: from });
            },
            Some(remote) => {
                if remote.session.is_none() {
                    proof {
                        lemma_carried_nothing(self.net_id, datagrams(outgoing@));
                    }
                    return Err(
                        NodeError::RemoteNodeError(RemoteNodeError::NoSessionError { node_id: remote.node_id }),
                    );
                }
            },
        }
        let elapsed = self.stamp(from, packet);
        let ghost stamped = self@;
        match packet {
            NodePacket::ConnectionInit(id, packets) => {
                match self.handle_ping_answer(from, *id) {
                    Ok(sample) => {
                        list_node(&mut self.node_list, sample, from);
                        self.handle_packets(from, packets, outgoing)
                    },
                    Err(e) => {
                        proof {
                            lemma_carried_nothing(self.net_id, datagrams(outgoing@));
                        }
                        Err(e)
                    },
                }
            },
            NodePacket::Ping(id) => {
                self.reply(from, NodePacket::PingResponse(*id), outgoing);
                Ok(())
            },
            NodePacket::PingResponse(id) => {
                proof {
                    lemma_carried_nothing(self.net_id, datagrams(outgoing@));
                }
                match self.handle_ping_answer(from, *id) {
                    Ok(_) => Ok(()),
                    Err(e) => Err(e),
                }
            },
            NodePacket::ExchangeInfo(coord, _, ping) => {
                self.handle_exchange_info(from, *coord, *ping, outgoing);
                Ok(())
            },
            NodePacket::ExchangeInfoResponse(coord, peer_count, ping) => {
                self.handle_exchange_info_response(from, *coord, *peer_count, *ping, outgoing);
                Ok(())
            },
            NodePacket::ProposeRouteCoords(theirs, ours) => {
                self.handle_propose(from, *theirs, *ours, outgoing);
                Ok(())
            },
            NodePacket::ProposeRouteCoordsResponse(ours, theirs, accepted) => {
                proof {
                    lemma_carried_nothing(self.net_id, datagrams(outgoing@));
                }
                self.handle_propose_response(from, *ours, *theirs, *accepted);
                Ok(())
            },
            NodePacket::RequestPings(requests) => self.handle_request_pings(from, *requests, elapsed, outgoing),
            NodePacket::WantPing(requester, address) => {
                proof {
                    lemma_carried_nothing(self.net_id, datagrams(outgoing@));
                }
                self.handle_want_ping(from, *requester, *address);
                Ok(())
            },
            NodePacket::AcceptWantPing(relay, distance) => {
                self.handle_accept_want_ping(from, *relay, *distance, elapsed, outgoing);
                Ok(())
            },
            NodePacket::PeerNotify(rank) => {
                proof {
                    lemma_carried_nothing(self.net_id, datagrams(outgoing@));
                }
                self.note_rank(from, *rank);
                Ok(())
            },
            NodePacket::Traverse(..) => {
                proof {
                    lemma_carried_nothing(self.net_id, datagrams(outgoing@));
                }
                Ok(())
            },
        }
    }

    /// Handles packets that arrived from `from`, in order: see [`on_packets`].
    #[verifier::loop_isolation(false)]
    fn handle_packets(&mut self, from: NodeID, packets: &Vec<NodePacket>, outgoing: &mut PacketVec) -> (r:
        Result<(), NodeError>)
        ensures
            performed(
                on_packets(old(self)@, from, packets_view(packets@)),
                old(self)@,
                final(self)@,
                old(outgoing)@,
                final(outgoing)@,
            ),
            r == on_packets(old(self)@, from, packets_view(packets@)).result,
            final(self).net_id == old(self).net_id,
        decreases packets,
    {
        let ghost views = packets_view(packets@);
        let ghost start = old(self)@;
        let ghost sent: Seq<Emission> = Seq::empty();
        proof {
            assert(views.subrange(0, views.len() as int) =~= views);
            lemma_carried_nothing(self.net_id, datagrams(outgoing@));
            assert(sent + on_packets(start, from, views).out =~= on_packets(start, from, views).out);
        }
        let mut i: usize = 0;
        while i < packets.len()
            invariant
                i <= packets.len(),
                views == packets_view(packets@),
                self.net_id == start.net_id,
                on_packets(start, from, views) == then_step(
                    sent,
                    on_packets(self@, from, views.subrange(i as int, views.len() as int)),
                ),
                datagrams(outgoing@) == datagrams(old(outgoing)@) + carried(start.net_id, sent),
            decreases packets.len() - i,
        {
            let ghost rest = views.subrange(i as int, views.len() as int);
            let ghost later = rest.subrange(1, rest.len() as int);
            let ghost before = self@;
            let ghost first = on_packet(before, from, rest[0]);
            proof {
                assert(later =~= views.subrange(i + 1, views.len() as int));
                assert(rest[0] == packets[i as int]@);
                vstd::std_specs::vec::axiom_vec_index_decreases(*packets, i as int);
                lemma_carried_add(start.net_id, sent, first.out);
                assert(datagrams(old(outgoing)@) + carried(start.net_id, sent) + carried(
                    start.net_id,
                    first.out,
                ) =~= datagrams(old(outgoing)@) + (carried(start.net_id, sent) + carried(
                    start.net_id,
                    first.out,
                )));
            }
            match self.handle_packet(from, &packets[i], outgoing) {
                Ok(_) => {
                    proof {
                        assert(sent + (first.out + on_packets(first.node, from, later).out) =~= (sent
                            + first.out) + on_packets(first.node, from, later).out);
                        sent = sent + first.out;
                    }
                },
                Err(e) => {
                    proof {
                        assert(on_packets(before, from, rest) == first);
                    }
                    return Err(e);
                },
            }
            i = i + 1;
        }
        proof {
            assert(sent + Seq::<Emission>::empty() =~= sent);
        }
        Ok(())
    }

    /// Handles a packet that arrived from `return_node_id` through its
    /// session. The arrival is recorded for the rate limit, then the
    /// packet takes effect as [`on_packet`] says; a packet that carries
    /// packets has them handled in order, up to the first that fails.
    pub fn parse_node_packet(
        &mut self,
        return_node_id: NodeID,
        received_packet: NodePacket,
        outgoing: &mut PacketVec,
    ) -> (r: Result<(), NodeError>)
        ensures
            performed(
                on_packet(old(self)@, return_node_id, received_packet@),
                old(self)@,
                final(self)@,
                old(outgoing)@,
                final(outgoing)@,
            ),
            r == on_packet(old(self)@, return_node_id, received_packet@).result,
            final(self).net_id == old(self).net_id,
            old(self)@.wf() ==> final(self)@.wf(),
    {
        proof {
            if self@.wf() {
                lemma_packet_keeps_wf(self@, return_node_id, received_packet@);
            }
        }
        self.handle_packet(return_node_id, &received_packet, outgoing)
    }
}

} // verus!
