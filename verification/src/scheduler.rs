//! The action scheduler and the tick that drives the node.

use vstd::prelude::*;
use crate::action::{actions_view, ActionView, NodeAction, NodeActionCondition};
use crate::entropy::random_session_id;
use crate::envelope::{datagrams, InternetPacket, PacketVec};
use crate::laws::{
    lemma_action_keeps_wf, lemma_actions_keep_frame, lemma_actions_keep_wf, lemma_batch_keeps_frame,
    lemma_batch_keeps_wf, lemma_select_peers, lemma_tick_advances_clock,
    lemma_tick_keeps_first_samples, lemma_tick_keeps_handshakes, lemma_tick_keeps_wf,
};
use crate::model::{
    carried, foreign, next_id, on_action, on_datagram, on_packet, positions, receive, receive_all,
    requeued, run_actions, run_queue, select_peers, send_packet, tick, Emission, NodeView,
};
use crate::node::{lemma_carried_add, lemma_carried_nothing, performed, send_through, Node};
use crate::node_list::{ascending, entries};
use crate::packet::{packets_view, NodePacket, PacketView};
use crate::pairing::{peer_pairs, peers_insert, peers_new};
use crate::route_map::graph_edge_weight;
use crate::types::{
    NodeError, NodeID, RemoteNodeError, RouteCoord, RouteScalar, SessionID, TARGET_PEER_COUNT,
};

verus! {

/// View of what an action gives back.
pub open spec fn returned_view(r: Result<Option<NodeAction>, NodeError>) -> Result<
    Option<ActionView>,
    NodeError,
> {
    match r {
        Ok(Some(action)) => Ok(Some(action@)),
        Ok(None) => Ok(None),
        Err(e) => Err(e),
    }
}

/// Whether an action starts a handshake, and so needs a session
/// identifier of its own.
pub open spec fn connects(action: ActionView) -> bool {
    action is Connect || action is ConnectRouted
}

/// The session identifier for the handshake that `action` may start:
/// random for an action that connects, zero for the others. Of a random
/// identifier nothing is known.
fn draw_session_id(action: &NodeAction) -> (session_id: SessionID)
    ensures
        !connects(action@) ==> session_id == 0,
{
    match action {
        NodeAction::Connect(..) => random_session_id(),
        NodeAction::ConnectRouted(..) => random_session_id(),
        _ => 0,
    }
}

impl NodeActionCondition {
    /// Whether the condition holds of `node`: a session with the named
    /// node is active, or the named tick has come. Nothing changes.
    pub fn check(&self, node: &Node) -> (b: bool)
        ensures
            b == node@.holds(*self),
    {
        match self {
            NodeActionCondition::Session(remote) => node.has_session(*remote),
            NodeActionCondition::RunAt(tick) => node.ticks >= *tick,
        }
    }
}

impl Node {
    /// Sends `packet` to `node` through its session: see [`send_packet`].
    pub fn send_to(&self, node: NodeID, packet: NodePacket, outgoing: &mut PacketVec) -> (r: Result<
        (),
        NodeError,
    >)
        ensures
            datagrams(final(outgoing)@) == datagrams(old(outgoing)@) + carried(
                self.net_id,
                send_packet(self@, node, packet@).out,
            ),
            r == send_packet(self@, node, packet@).result,
    {
        match self.remotes.get(&node) {
            None => {
                proof {
                    lemma_carried_nothing(self.net_id, datagrams(outgoing@));
                }
                Err(NodeError::NoRemoteError { node_id: node })
            },
            Some(remote) => match &remote.session {
                None => {
                    proof {
                        lemma_carried_nothing(self.net_id, datagrams(outgoing@));
                    }
                    Err(NodeError::RemoteNodeError(RemoteNodeError::NoSessionError { node_id: remote.node_id }))
                },
                Some(session) => {
                    send_through(session, packet, self.net_id, outgoing);
                    Ok(())
                },
            },
        }
    }

    /// The coordinate of this node as the solver finds it: the coordinate
    /// that a simulation handed to the node, or an error where it handed none.
    pub fn calculate_route_coord(&self) -> (r: Result<RouteCoord, NodeError>)
        ensures
            r == match self@.deux_ex_data {
                Some(coord) => Ok::<RouteCoord, NodeError>(coord),
                None => Err::<RouteCoord, NodeError>(NodeError::NoCalculatedRouteCoord),
            },
    {
        match self.deux_ex_data {
            Some(coord) => Ok(coord),
            None => Err(NodeError::NoCalculatedRouteCoord),
        }
    }

    /// What the coordinate solver works from: the tested nodes by
    /// ascending distance that have a known coordinate and a measured
    /// latency from this node, each with that coordinate and latency.
    pub fn solver_inputs(&self) -> (inputs: Vec<(NodeID, RouteCoord, RouteScalar)>)
        ensures
            inputs@ == positions(self@, ascending(self@.node_list)),
    {
        let nearest = entries(&self.node_list);
        let mut inputs: Vec<(NodeID, RouteCoord, RouteScalar)> = Vec::new();
        let ghost all = nearest@;
        proof {
            assert(all.subrange(0, all.len() as int) =~= all);
            assert(inputs@ + positions(self@, all) =~= positions(self@, all));
        }
        let mut i: usize = 0;
        while i < nearest.len()
            invariant
                i <= nearest.len(),
                all == nearest@,
                positions(self@, all) == inputs@ + positions(self@, all.subrange(i as int, all.len() as int)),
            decreases nearest.len() - i,
        {
            let ghost rest = all.subrange(i as int, all.len() as int);
            let ghost later = positions(self@, rest.subrange(1, rest.len() as int));
            assert(rest.subrange(1, rest.len() as int) =~= all.subrange(i + 1, all.len() as int));
            assert(rest[0] == all[i as int]);
            let node = nearest[i].1;
            let ghost before = inputs@;
            match self.remotes.get(&node) {
                Some(remote) => match remote.route_coord {
                    Some(coord) => match graph_edge_weight(&self.route_map, self.node_id, node) {
                        Some(weight) => {
                            inputs.push((node, coord, weight));
                            assert(before + (seq![(node, coord, weight)] + later) =~= inputs@ + later);
                        },
                        None => {},
                    },
                    None => {},
                },
                None => {},
            }
            i = i + 1;
        }
        assert(inputs@ + Seq::<(NodeID, RouteCoord, RouteScalar)>::empty() =~= inputs@);
        inputs
    }

    /// Rebuilds the peer list: the nearest tested nodes that are viable,
    /// up to [`TARGET_PEER_COUNT`] of them, each paired with its
    /// coordinate. A node whose coordinate a nearer peer holds takes that
    /// peer's place. See [`select_peers`]. A node without a coordinate of
    /// its own has no peers to choose: it fails and keeps its list.
    pub fn calculate_peers(&mut self) -> (r: Result<(), NodeError>)
        ensures
            match old(self)@.route_coord {
                Some(_) => {
                    &&& r is Ok
                    &&& final(self)@ == (NodeView {
                        peer_list: select_peers(
                            old(self)@,
                            ascending(old(self)@.node_list),
                            Map::empty(),
                            TARGET_PEER_COUNT as nat,
                        ),
                        ..old(self)@
                    })
                    &&& final(self)@.peer_list.dom().finite()
                    &&& final(self)@.peer_list.len() <= TARGET_PEER_COUNT
                    &&& forall|node: NodeID| #[trigger]
                        final(self)@.peer_list.contains_key(node) ==> final(self)@.has_session(node)
                            && final(self)@.remotes[node].route_coord == Some(
                            final(self)@.peer_list[node],
                        )
                },
                None => {
                    &&& r == Err::<(), NodeError>(NodeError::NoCalculatedRouteCoord)
                    &&& final(self)@ == old(self)@
                },
            },
    {
        let self_coord = match self.route_coord {
            Some(coord) => coord,
            None => {
                return Err(NodeError::NoCalculatedRouteCoord);
            },
        };
        proof {
            lemma_select_peers(
                self@,
                ascending(self@.node_list),
                Map::empty(),
                TARGET_PEER_COUNT as nat,
            );
        }
        let nearest = entries(&self.node_list);
        let mut chosen = peers_new();
        let mut room: usize = TARGET_PEER_COUNT;
        let ghost all = nearest@;
        let ghost start = self@;
        proof {
            assert(all.subrange(0, all.len() as int) =~= all);
        }
        let mut i: usize = 0;
        while i < nearest.len() && room > 0
            invariant
                i <= nearest.len(),
                all == nearest@,
                start == self@,
                select_peers(start, all, Map::empty(), TARGET_PEER_COUNT as nat) == select_peers(
                    start,
                    all.subrange(i as int, all.len() as int),
                    peer_pairs(chosen),
                    room as nat,
                ),
            decreases nearest.len() - i,
        {
            let ghost rest = all.subrange(i as int, all.len() as int);
            assert(rest.subrange(1, rest.len() as int) =~= all.subrange(i + 1, all.len() as int));
            assert(rest[0] == all[i as int]);
            let node = nearest[i].1;
            match self.remotes.get(&node) {
                Some(remote) => match remote.is_viable_peer(self_coord) {
                    Some(coord) => {
                        peers_insert(&mut chosen, node, coord);
                        room = room - 1;
                    },
                    None => {},
                },
                None => {},
            }
            i = i + 1;
        }
        self.peer_list = chosen;
        Ok(())
    }

    /// Performs `action`, with `session_id` as the identifier of the
    /// handshake it may start: see [`on_action`]. Gives back the action to
    /// put back in the queue, if any; an action that fails is dropped.
    pub fn perform_action(&mut self, action: NodeAction, session_id: SessionID, outgoing: &mut PacketVec) -> (r:
        Result<Option<NodeAction>, NodeError>)
        ensures
            performed(
                on_action(old(self)@, action@, session_id),
                old(self)@,
                final(self)@,
                old(outgoing)@,
                final(outgoing)@,
            ),
            returned_view(r) == on_action(old(self)@, action@, session_id).result,
            final(self).net_id == old(self).net_id,
            old(self)@.wf() ==> final(self)@.wf(),
    {
        proof {
            if self@.wf() {
                lemma_action_keeps_wf(self@, action@, session_id);
            }
        }
        match action {
            NodeAction::Bootstrap(node, address) => {
                let mut packets: Vec<NodePacket> = Vec::new();
                packets.push(NodePacket::ExchangeInfo(self.route_coord, 0, 0));
                assert(packets_view(packets@) =~= seq![PacketView::ExchangeInfo(self.route_coord, 0, 0)]);
                self.action(NodeAction::Connect(node, address, packets));
                proof {
                    lemma_carried_nothing(self.net_id, datagrams(outgoing@));
                }
                Ok(None)
            },
            NodeAction::Connect(node, address, packets) => {
                self.start_handshake(node, address, packets, session_id, outgoing);
                Ok(None)
            },
            NodeAction::RequestPeers(node, count) => {
                match self.send_to(node, NodePacket::RequestPings(count), outgoing) {
                    Ok(_) => Ok(None),
                    Err(e) => Err(e),
                }
            },
            NodeAction::TryCalcRouteCoord => {
                proof {
                    lemma_carried_nothing(self.net_id, datagrams(outgoing@));
                }
                match self.calculate_route_coord() {
                    Ok(coord) => {
                        self.route_coord = Some(coord);
                        self.action(NodeAction::CalculatePeers);
                        Ok(None)
                    },
                    Err(e) => Err(e),
                }
            },
            NodeAction::CalculatePeers => {
                proof {
                    lemma_carried_nothing(self.net_id, datagrams(outgoing@));
                }
                match self.calculate_peers() {
                    Ok(_) => Ok(None),
                    Err(e) => Err(e),
                }
            },
            NodeAction::Traverse(..) => {
                proof {
                    lemma_carried_nothing(self.net_id, datagrams(outgoing@));
                }
                Ok(None)
            },
            NodeAction::ConnectRouted(node, packets) => {
                proof {
                    lemma_carried_nothing(self.net_id, datagrams(outgoing@));
                }
                self.start_routed_handshake(node, packets, session_id);
                Ok(None)
            },
            NodeAction::Packet(node, packet) => {
                match self.send_to(node, packet, outgoing) {
                    Ok(_) => Ok(None),
                    Err(e) => Err(e),
                }
            },
            NodeAction::Condition(condition, inner) => {
                proof {
                    lemma_carried_nothing(self.net_id, datagrams(outgoing@));
                }
                if condition.check(self) {
                    Ok(Some(*inner))
                } else {
                    Ok(Some(NodeAction::Condition(condition, inner)))
                }
            },
        }
    }

    /// Performs `action`. A handshake that the action starts carries a
    /// random session identifier; whatever the identifier, the node does
    /// what [`on_action`] says for it.
    pub fn parse_action(&mut self, action: NodeAction, outgoing: &mut PacketVec) -> (r: Result<
        Option<NodeAction>,
        NodeError,
    >)
        ensures
            exists|session_id: SessionID|
                {
                    &&& performed(
                        #[trigger] on_action(old(self)@, action@, session_id),
                        old(self)@,
                        final(self)@,
                        old(outgoing)@,
                        final(outgoing)@,
                    )
                    &&& returned_view(r) == on_action(old(self)@, action@, session_id).result
                },
            old(self)@.wf() ==> final(self)@.wf(),
    {
        let session_id = draw_session_id(&action);
        self.perform_action(action, session_id, outgoing)
    }

    /// Takes in one datagram: opens it and handles the packet it carries,
    /// if any. A failure drops the datagram at the point it occurs. See [`receive`].
    pub fn receive(&mut self, packet: InternetPacket, outgoing: &mut PacketVec)
        ensures
            final(self)@ == receive(old(self)@, packet@).0,
            datagrams(final(outgoing)@) == datagrams(old(outgoing)@) + carried(
                old(self).net_id,
                receive(old(self)@, packet@).1,
            ),
            final(self).net_id == old(self).net_id,
            old(self)@.wf() ==> final(self)@.wf(),
    {
        let ghost opened = on_datagram(old(self)@, packet@);
        match self.parse_packet(packet, outgoing) {
            Ok(Some((from, node_packet))) => {
                let ghost handled = on_packet(opened.node, from, node_packet@);
                proof {
                    lemma_carried_add(self.net_id, opened.out, handled.out);
                    assert(datagrams(old(outgoing)@) + carried(self.net_id, opened.out) + carried(
                        self.net_id,
                        handled.out,
                    ) =~= datagrams(old(outgoing)@) + (carried(self.net_id, opened.out) + carried(
                        self.net_id,
                        handled.out,
                    )));
                }
                let _ = self.parse_node_packet(from, node_packet, outgoing);
            },
            Ok(None) => {},
            Err(_) => {},
        }
    }

    /// Takes in a batch of datagrams, in order: see [`receive_all`].
    pub fn receive_batch(&mut self, incoming: PacketVec, outgoing: &mut PacketVec)
        ensures
            final(self)@ == receive_all(old(self)@, datagrams(incoming@)).0,
            datagrams(final(outgoing)@) == datagrams(old(outgoing)@) + carried(
                old(self).net_id,
                receive_all(old(self)@, datagrams(incoming@)).1,
            ),
            final(self).net_id == old(self).net_id,
            old(self)@.wf() ==> final(self)@.wf(),
    {
        proof {
            if self@.wf() {
                lemma_batch_keeps_wf(self@, datagrams(incoming@));
            }
        }
        let ghost batch = datagrams(incoming@);
        let ghost start = old(self)@;
        let ghost sent: Seq<Emission> = Seq::empty();
        proof {
            assert(batch.subrange(0, batch.len() as int) =~= batch);
            lemma_carried_nothing(self.net_id, datagrams(outgoing@));
            assert(sent + receive_all(start, batch).1 =~= receive_all(start, batch).1);
        }
        for packet in it: incoming
            invariant
                it.seq() == incoming@,
                batch == datagrams(incoming@),
                self.net_id == start.net_id,
                receive_all(start, batch).0 == receive_all(
                    self@,
                    batch.subrange(it.index() as int, batch.len() as int),
                ).0,
                receive_all(start, batch).1 == sent + receive_all(
                    self@,
                    batch.subrange(it.index() as int, batch.len() as int),
                ).1,
                datagrams(outgoing@) == datagrams(old(outgoing)@) + carried(start.net_id, sent),
        {
            let ghost i = it.index() as int;
            let ghost rest = batch.subrange(i, batch.len() as int);
            let ghost first = receive(self@, packet@);
            proof {
                assert(rest.subrange(1, rest.len() as int) =~= batch.subrange(i + 1, batch.len() as int));
                assert(rest[0] == packet@);
                lemma_carried_add(start.net_id, sent, first.1);
                assert(datagrams(old(outgoing)@) + carried(start.net_id, sent) + carried(
                    start.net_id,
                    first.1,
                ) =~= datagrams(old(outgoing)@) + (carried(start.net_id, sent) + carried(
                    start.net_id,
                    first.1,
                )));
                let later = receive_all(first.0, rest.subrange(1, rest.len() as int));
                assert(sent + (first.1 + later.1) =~= (sent + first.1) + later.1);
                sent = sent + first.1;
            }
            self.receive(packet, outgoing);
        }
        proof {
            assert(sent + Seq::<Emission>::empty() =~= sent);
        }
    }

    /// One session identifier for each queued action.
    fn draw_session_ids(&self) -> (session_ids: Vec<SessionID>)
        ensures
            session_ids@.len() == self.actions_queue@.len(),
    {
        let mut session_ids: Vec<SessionID> = Vec::new();
        let mut i: usize = 0;
        while i < self.actions_queue.len()
            invariant
                i <= self.actions_queue.len(),
                session_ids@.len() == i,
            decreases self.actions_queue.len() - i,
        {
            session_ids.push(draw_session_id(&self.actions_queue[i]));
            i = i + 1;
        }
        session_ids
    }

    /// Gives every queued action its turn, in order, the i-th with the i-th
    /// of `session_ids` for the handshake it may start. An action that
    /// comes back, and every action enqueued meanwhile, waits for the next
    /// run. See [`run_queue`].
    pub fn run_queue(&mut self, session_ids: &Vec<SessionID>, outgoing: &mut PacketVec)
        ensures
            final(self)@ == run_queue(old(self)@, session_ids@).0,
            datagrams(final(outgoing)@) == datagrams(old(outgoing)@) + carried(
                old(self).net_id,
                run_queue(old(self)@, session_ids@).1,
            ),
            final(self).net_id == old(self).net_id,
            old(self)@.wf() ==> final(self)@.wf(),
    {
        proof {
            if self@.wf() {
                let emptied = NodeView { actions_queue: Seq::empty(), ..self@ };
                assert(emptied.wf());
                lemma_actions_keep_wf(emptied, self@.actions_queue, session_ids@);
            }
        }
        let mut due: Vec<NodeAction> = Vec::new();
        core::mem::swap(&mut due, &mut self.actions_queue);
        let ghost actions = actions_view(due@);
        let ghost start = self@;
        assert(due@.len() <= usize::MAX) by {
            vstd::std_specs::vec::axiom_spec_len(&due);
        }
        let ghost sent: Seq<Emission> = Seq::empty();
        let ghost ids = session_ids@;
        proof {
            assert(start.actions_queue =~= Seq::empty());
            assert(start == (NodeView { actions_queue: Seq::empty(), ..old(self)@ }));
            assert(actions == old(self)@.actions_queue);
            assert(actions.subrange(0, actions.len() as int) =~= actions);
            assert(ids.subrange(0, ids.len() as int) =~= ids);
            lemma_carried_nothing(self.net_id, datagrams(outgoing@));
            assert(sent + run_actions(start, actions, ids).1 =~= run_actions(start, actions, ids).1);
        }
        let mut i: usize = 0;
        for action in it: due
            invariant
                it.seq() == due@,
                actions == actions_view(due@),
                ids == session_ids@,
                i == it.index(),
                due@.len() <= usize::MAX,
                self.net_id == start.net_id,
                run_actions(start, actions, ids).0 == run_actions(
                    self@,
                    actions.subrange(i as int, actions.len() as int),
                    ids.subrange(if i <= ids.len() { i as int } else { ids.len() as int }, ids.len() as int),
                ).0,
                run_actions(start, actions, ids).1 == sent + run_actions(
                    self@,
                    actions.subrange(i as int, actions.len() as int),
                    ids.subrange(if i <= ids.len() { i as int } else { ids.len() as int }, ids.len() as int),
                ).1,
                datagrams(outgoing@) == datagrams(old(outgoing)@) + carried(start.net_id, sent),
        {
            let session_id = if i < session_ids.len() {
                session_ids[i]
            } else {
                0
            };
            let ghost rest = actions.subrange(i as int, actions.len() as int);
            let ghost rest_ids = ids.subrange(
                if i <= ids.len() { i as int } else { ids.len() as int },
                ids.len() as int,
            );
            let ghost first = on_action(self@, action@, session_id);
            proof {
                assert(rest.subrange(1, rest.len() as int) =~= actions.subrange(i + 1, actions.len() as int));
                assert(rest[0] == action@);
                assert(next_id(rest_ids) == session_id);
                if rest_ids.len() > 0 {
                    assert(rest_ids.subrange(1, rest_ids.len() as int) =~= ids.subrange(
                        i + 1,
                        ids.len() as int,
                    ));
                } else {
                    assert(rest_ids =~= ids.subrange(ids.len() as int, ids.len() as int));
                }
                lemma_carried_add(start.net_id, sent, first.out);
                assert(datagrams(old(outgoing)@) + carried(start.net_id, sent) + carried(
                    start.net_id,
                    first.out,
                ) =~= datagrams(old(outgoing)@) + (carried(start.net_id, sent) + carried(
                    start.net_id,
                    first.out,
                )));
            }
            match self.perform_action(action, session_id, outgoing) {
                Ok(Some(back)) => {
                    self.action(back);
                },
                Ok(None) => {},
                Err(_) => {},
            }
            proof {
                let later = run_actions(
                    requeued(first),
                    rest.subrange(1, rest.len() as int),
                    if rest_ids.len() > 0 {
                        rest_ids.subrange(1, rest_ids.len() as int)
                    } else {
                        rest_ids
                    },
                );
                assert(sent + (first.out + later.1) =~= (sent + first.out) + later.1);
                sent = sent + first.out;
            }
            i = i + 1;
        }
        proof {
            assert(sent + Seq::<Emission>::empty() =~= sent);
        }
    }

    /// Advances the node by one tick: takes in the batch `incoming`, gives
    /// every queued action its turn, and advances the clock by one. Returns
    /// the datagrams the node sends. A handshake that an action starts
    /// carries a random session identifier; whatever the identifiers, the
    /// node does what [`tick`] says for them.
    ///
    /// A node that is in order stays in order, and whatever arrives, no
    /// remote ends the tick with a pending handshake beside a session if
    /// none began it so. As long as no datagram
    /// opens or accepts a session in the node's own name, the latency
    /// noted toward a remote stays the running average of its session
    /// while that session has taken one sample.
    pub fn tick(&mut self, incoming: PacketVec) -> (outgoing: PacketVec)
        requires
            old(self).ticks < usize::MAX,
        ensures
            exists|session_ids: Seq<SessionID>|
                {
                    &&& final(self)@ == (#[trigger] tick(old(self)@, datagrams(incoming@), session_ids)).0
                    &&& datagrams(outgoing@) == carried(
                        old(self).net_id,
                        tick(old(self)@, datagrams(incoming@), session_ids).1,
                    )
                },
            final(self)@.ticks == old(self)@.ticks + 1,
            final(self)@.node_id == old(self)@.node_id,
            final(self)@.net_id == old(self)@.net_id,
            old(self)@.wf() ==> final(self)@.wf(),
            old(self)@.all_settled() ==> final(self)@.all_settled(),
            old(self)@.pendings_agree() ==> final(self)@.pendings_agree(),
            old(self)@.first_samples_noted() && old(self)@.no_own_session() && (forall|i: int|
                0 <= i < incoming@.len() ==> foreign(old(self)@, (#[trigger] incoming@[i])@))
                ==> final(self)@.first_samples_noted() && final(self)@.no_own_session(),
    {
        let mut outgoing: PacketVec = Vec::new();
        self.receive_batch(incoming, &mut outgoing);
        let ghost received = receive_all(old(self)@, datagrams(incoming@));
        let session_ids = self.draw_session_ids();
        let ghost ran = run_queue(received.0, session_ids@);
        self.run_queue(&session_ids, &mut outgoing);
        proof {
            lemma_tick_advances_clock(old(self)@, datagrams(incoming@), session_ids@);
            lemma_tick_keeps_handshakes(old(self)@, datagrams(incoming@), session_ids@);
            if old(self)@.wf() {
                lemma_tick_keeps_wf(old(self)@, datagrams(incoming@), session_ids@);
            }
            if old(self)@.first_samples_noted() && old(self)@.no_own_session() && (forall|i: int|
                0 <= i < incoming@.len() ==> foreign(old(self)@, (#[trigger] incoming@[i])@)) {
                assert forall|i: int| 0 <= i < datagrams(incoming@).len() implies foreign(
                    old(self)@,
                    #[trigger] datagrams(incoming@)[i],
                ) by {
                    assert(datagrams(incoming@)[i] == incoming@[i]@);
                }
                lemma_tick_keeps_first_samples(old(self)@, datagrams(incoming@), session_ids@);
            }
            lemma_batch_keeps_frame(old(self)@, datagrams(incoming@));
            lemma_actions_keep_frame(
                NodeView { actions_queue: Seq::empty(), ..received.0 },
                received.0.actions_queue,
                session_ids@,
            );
            lemma_carried_add(self.net_id, received.1, ran.1);
            assert(datagrams(outgoing@) =~= carried(self.net_id, received.1 + ran.1));
        }
        self.ticks = self.ticks + 1;
        assert(self@ == tick(old(self)@, datagrams(incoming@), session_ids@).0);
        outgoing
    }
}

} // verus!
