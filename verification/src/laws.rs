//! Laws of the protocol, proved of the model of the node.

use vstd::prelude::*;
use crate::action::{ActionView, NodeActionCondition};
use crate::envelope::{package_spec, reads_back, unpackage_spec, Datagram, EnvelopeView};
use crate::model::carried;
use crate::session::SessionView;
use crate::model::{
    agrees, settled,
    fan_out, on_request_pings, request_size,
    foreign, next_id, on_acknowledge, on_action, on_connect, on_datagram, on_envelope, on_handshake,
    on_packet, on_packets, on_ping_answer, receive, receive_all, requeued, run_actions,
    select_peers, through, tick, Emission, NodeView,
};
use crate::node_list::{ascending, lemma_ascending_lists, lemma_listed};
use crate::packet::PacketView;
use crate::pairing::{lemma_pair_insert_len, lemma_pair_insert_one_to_one, one_to_one, pair_insert};
use crate::remote::{PendingView, RemoteView};
use crate::tracker::{round_trip, PingTrackerView};
use crate::types::{
    InternetID, NodeError, NodeID, PingID, RemoteNodeError, RouteCoord, RouteScalar, SessionID,
    MAX_REQUEST_PINGS, RATE_LIMIT_TICKS, TARGET_PEER_COUNT,
};

verus! {

/// Whether two states of a node agree on what no step but the tick's
/// clock changes: identity, address, the simulation's coordinate, and the clock.
pub open spec fn same_frame(a: NodeView, b: NodeView) -> bool {
    &&& a.node_id == b.node_id
    &&& a.net_id == b.net_id
    &&& a.deux_ex_data == b.deux_ex_data
    &&& a.ticks == b.ticks
}

/// No packet changes the identity, the address or the clock of a node.
pub proof fn lemma_packet_keeps_frame(n: NodeView, from: NodeID, packet: PacketView)
    ensures
        same_frame(n, on_packet(n, from, packet).node),
    decreases packet,
{
    if n.has_session(from) {
        match packet {
            PacketView::ConnectionInit(id, packets) => {
                let session = n.remotes[from].session.unwrap();
                let stamped = n.with_remote(
                    from,
                    crate::remote::RemoteView {
                        session: Some(session.stamp(packet.kind(), n.ticks)),
                        ..n.remotes[from]
                    },
                );
                let answered = crate::model::on_ping_answer(stamped, from, id);
                if answered.result is Ok {
                    lemma_packets_keep_frame(
                        answered.node.with_listed(answered.result.unwrap(), from),
                        from,
                        packets,
                    );
                }
            },
            _ => {},
        }
    }
}

/// No series of packets changes the identity, the address or the clock of a node.
pub proof fn lemma_packets_keep_frame(n: NodeView, from: NodeID, packets: Seq<PacketView>)
    ensures
        same_frame(n, on_packets(n, from, packets).node),
    decreases packets,
{
    if packets.len() > 0 {
        let first = on_packet(n, from, packets[0]);
        lemma_packet_keeps_frame(n, from, packets[0]);
        if first.result is Ok {
            lemma_packets_keep_frame(first.node, from, packets.subrange(1, packets.len() as int));
        }
    }
}

/// No datagram changes the identity, the address or the clock of a node.
pub proof fn lemma_receive_keeps_frame(n: NodeView, datagram: Datagram)
    ensures
        same_frame(n, receive(n, datagram).0),
{
    let opened = on_datagram(n, datagram);
    match opened.result {
        Ok(Some((from, packet))) => {
            lemma_packet_keeps_frame(opened.node, from, packet);
        },
        _ => {},
    }
}

/// No batch of datagrams changes the identity, the address or the clock of a node.
pub proof fn lemma_batch_keeps_frame(n: NodeView, batch: Seq<Datagram>)
    ensures
        same_frame(n, receive_all(n, batch).0),
    decreases batch.len(),
{
    if batch.len() > 0 {
        lemma_receive_keeps_frame(n, batch[0]);
        lemma_batch_keeps_frame(receive(n, batch[0]).0, batch.subrange(1, batch.len() as int));
    }
}

/// No run of actions changes the identity, the address or the clock of a node.
pub proof fn lemma_actions_keep_frame(n: NodeView, actions: Seq<ActionView>, session_ids: Seq<SessionID>)
    ensures
        same_frame(n, run_actions(n, actions, session_ids).0),
    decreases actions.len(),
{
    if actions.len() > 0 {
        let first = on_action(n, actions[0], crate::model::next_id(session_ids));
        lemma_actions_keep_frame(
            requeued(first),
            actions.subrange(1, actions.len() as int),
            if session_ids.len() > 0 {
                session_ids.subrange(1, session_ids.len() as int)
            } else {
                session_ids
            },
        );
    }
}

/// The clock is strictly increasing: every tick advances it by exactly
/// one, whatever arrives and whatever the actions do, and changes neither
/// the identity nor the address of the node.
pub proof fn lemma_tick_advances_clock(n: NodeView, batch: Seq<Datagram>, session_ids: Seq<SessionID>)
    requires
        n.ticks < usize::MAX,
    ensures
        tick(n, batch, session_ids).0.ticks == n.ticks + 1,
        tick(n, batch, session_ids).0.node_id == n.node_id,
        tick(n, batch, session_ids).0.net_id == n.net_id,
{
    lemma_batch_keeps_frame(n, batch);
    let received = receive_all(n, batch).0;
    lemma_actions_keep_frame(
        NodeView { actions_queue: Seq::empty(), ..received },
        received.actions_queue,
        session_ids,
    );
}

/// A tracker that retires an outstanding ping stays well formed.
pub proof fn lemma_tracker_acknowledge_wf(t: PingTrackerView, id: PingID, now: usize)
    requires
        t.wf(),
        t.pending.contains_key(id),
    ensures
        t.acknowledge_ping(id, now).wf(),
        t.acknowledge_ping(id, now).ping_count == t.ping_count + 1,
{
    assert(t.pending.len() >= 1) by {
        if t.pending.len() == 0 {
            assert(t.pending.dom() =~= Set::empty());
        }
    }
}

/// A tracker that issues a ping stays well formed.
pub proof fn lemma_tracker_gen_wf(t: PingTrackerView, now: usize)
    requires
        t.wf(),
        t.next_ping_id < PingID::MAX,
    ensures
        t.gen_ping(now).wf(),
{
}

/// The peers chosen from the tested nodes: at most as many as there was
/// room for, no coordinate twice, and each with the coordinate that its
/// record holds.
pub proof fn lemma_select_peers(
    n: NodeView,
    targets: Seq<(RouteScalar, NodeID)>,
    chosen: Map<NodeID, RouteCoord>,
    room: nat,
)
    requires
        chosen.dom().finite(),
        one_to_one(chosen),
        forall|node: NodeID| #[trigger]
            chosen.contains_key(node) ==> n.remotes.contains_key(node) && n.remotes[node].viable_coord()
                == Some(chosen[node]),
    ensures
        select_peers(n, targets, chosen, room).dom().finite(),
        select_peers(n, targets, chosen, room).len() <= chosen.len() + room,
        one_to_one(select_peers(n, targets, chosen, room)),
        forall|node: NodeID| #[trigger]
            select_peers(n, targets, chosen, room).contains_key(node) ==> n.remotes.contains_key(node)
                && n.remotes[node].viable_coord() == Some(select_peers(n, targets, chosen, room)[node]),
    decreases targets.len(),
{
    if targets.len() == 0 || room == 0 {
    } else {
        let node = targets[0].1;
        let rest = targets.subrange(1, targets.len() as int);
        if n.remotes.contains_key(node) && n.remotes[node].viable_coord() is Some {
            let coord = n.remotes[node].viable_coord().unwrap();
            lemma_pair_insert_one_to_one(chosen, node, coord);
            lemma_pair_insert_len(chosen, node, coord);
            lemma_select_peers(n, rest, pair_insert(chosen, node, coord), (room - 1) as nat);
        } else {
            lemma_select_peers(n, rest, chosen, room);
        }
    }
}

/// No packet breaks what holds of a node at every tick boundary.
pub proof fn lemma_packet_keeps_wf(n: NodeView, from: NodeID, packet: PacketView)
    requires
        n.wf(),
    ensures
        on_packet(n, from, packet).node.wf(),
    decreases packet,
{
    if n.has_session(from) {
        let remote = n.remotes[from];
        let session = remote.session.unwrap();
        let stamped = n.with_remote(
            from,
            RemoteView { session: Some(session.stamp(packet.kind(), n.ticks)), ..remote },
        );
        assert(stamped.wf());
        match packet {
            PacketView::ConnectionInit(id, packets) => {
                let answered = on_ping_answer(stamped, from, id);
                if answered.result is Ok {
                    lemma_tracker_acknowledge_wf(stamped.remotes[from].session.unwrap().tracker, id, n.ticks);
                    assert(answered.node.wf());
                    let sample = answered.result.unwrap();
                    lemma_listed(answered.node.node_list, sample, from);
                    let listed_node = answered.node.with_listed(sample, from);
                    assert(listed_node.wf());
                    lemma_packets_keep_wf(listed_node, from, packets);
                }
            },
            PacketView::PingResponse(id) => {
                let answered = on_ping_answer(stamped, from, id);
                if answered.result is Ok {
                    lemma_tracker_acknowledge_wf(stamped.remotes[from].session.unwrap().tracker, id, n.ticks);
                }
            },
            PacketView::WantPing(requester, address) => {
                let record = stamped.remote_or_fresh(requester);
                let noted = stamped.with_remote(requester, record);
                assert(noted.wf());
            },
            _ => {},
        }
    }
}

/// No series of packets breaks what holds of a node at every tick boundary.
pub proof fn lemma_packets_keep_wf(n: NodeView, from: NodeID, packets: Seq<PacketView>)
    requires
        n.wf(),
    ensures
        on_packets(n, from, packets).node.wf(),
    decreases packets,
{
    if packets.len() > 0 {
        let first = on_packet(n, from, packets[0]);
        lemma_packet_keeps_wf(n, from, packets[0]);
        if first.result is Ok {
            lemma_packets_keep_wf(first.node, from, packets.subrange(1, packets.len() as int));
        }
    }
}

/// An accepted handshake breaks nothing of what holds of a node at every
/// tick boundary.
pub proof fn lemma_handshake_keeps_wf(n: NodeView, src: InternetID, session_id: SessionID, signer: NodeID)
    requires
        n.wf(),
    ensures
        on_handshake(n, src, session_id, signer).node.wf(),
{
    let after = on_handshake(n, src, session_id, signer).node;
    lemma_pair_insert_one_to_one(n.sessions, session_id, signer);
    lemma_tracker_gen_wf(PingTrackerView::fresh(), n.ticks);
    assert(PingTrackerView::fresh().pending.dom() =~= Set::empty());
    assert forall|session: SessionID| #[trigger] after.sessions.contains_key(session) implies after.has_session(
        after.sessions[session],
    ) && after.remotes[after.sessions[session]].session.unwrap().session_id == session by {
        if session != session_id {
            assert(n.sessions.contains_key(session));
        }
    }
}

/// An acknowledgement breaks nothing of what holds of a node at every
/// tick boundary.
pub proof fn lemma_acknowledge_keeps_wf(
    n: NodeView,
    src: InternetID,
    session_id: SessionID,
    acknowledger: NodeID,
    return_ping_id: PingID,
)
    requires
        n.wf(),
    ensures
        on_acknowledge(n, src, session_id, acknowledger, return_ping_id).node.wf(),
{
    let after = on_acknowledge(n, src, session_id, acknowledger, return_ping_id).node;
    if n.remotes.contains_key(acknowledger) && n.remotes[acknowledger].handshake_pending is Some {
        let pending = n.remotes[acknowledger].handshake_pending.unwrap();
        if pending.session_id == session_id {
            lemma_pair_insert_one_to_one(n.sessions, session_id, acknowledger);
            assert(PingTrackerView::fresh().pending.dom() =~= Set::empty());
            let issued = PingTrackerView::fresh().gen_ping(pending.time_sent);
            lemma_tracker_gen_wf(PingTrackerView::fresh(), pending.time_sent);
            lemma_tracker_acknowledge_wf(issued, 0, n.ticks);
            let paired = n.with_remote(
                acknowledger,
                RemoteView {
                    handshake_pending: None,
                    session: Some(
                        crate::model::acknowledged_session(session_id, src, pending.time_sent, n.ticks),
                    ),
                    ..n.remotes[acknowledger]
                },
            ).with_session_pair(session_id, acknowledger);
            assert forall|session: SessionID| #[trigger]
                paired.sessions.contains_key(session) implies paired.has_session(paired.sessions[session])
                && paired.remotes[paired.sessions[session]].session.unwrap().session_id == session by {
                if session != session_id {
                    assert(n.sessions.contains_key(session));
                }
            }
            assert(paired.wf());
            lemma_listed(paired.node_list, crate::tracker::round_trip(pending.time_sent, n.ticks), acknowledger);
        }
    }
}

/// No datagram breaks what holds of a node at every tick boundary.
pub proof fn lemma_receive_keeps_wf(n: NodeView, datagram: Datagram)
    requires
        n.wf(),
    ensures
        on_datagram(n, datagram).node.wf(),
        receive(n, datagram).0.wf(),
{
    let opened = on_datagram(n, datagram);
    if datagram.dest_addr == n.net_id {
        match unpackage_spec(datagram.data) {
            Some(EnvelopeView::Handshake { recipient, session_id, signer }) => {
                if recipient == n.node_id {
                    lemma_handshake_keeps_wf(n, datagram.src_addr, session_id, signer);
                }
            },
            Some(EnvelopeView::Acknowledge { session_id, acknowledger, return_ping_id }) => {
                lemma_acknowledge_keeps_wf(n, datagram.src_addr, session_id, acknowledger, return_ping_id);
            },
            _ => {},
        }
    }
    match opened.result {
        Ok(Some((from, packet))) => {
            lemma_packet_keeps_wf(opened.node, from, packet);
        },
        _ => {},
    }
}

/// No batch of datagrams breaks what holds of a node at every tick boundary.
pub proof fn lemma_batch_keeps_wf(n: NodeView, batch: Seq<Datagram>)
    requires
        n.wf(),
    ensures
        receive_all(n, batch).0.wf(),
    decreases batch.len(),
{
    if batch.len() > 0 {
        lemma_receive_keeps_wf(n, batch[0]);
        lemma_batch_keeps_wf(receive(n, batch[0]).0, batch.subrange(1, batch.len() as int));
    }
}

/// No action breaks what holds of a node at every tick boundary, whatever
/// session identifier its handshake carries.
pub proof fn lemma_action_keeps_wf(n: NodeView, action: ActionView, session_id: SessionID)
    requires
        n.wf(),
    ensures
        on_action(n, action, session_id).node.wf(),
        requeued(on_action(n, action, session_id)).wf(),
{
    match action {
        ActionView::CalculatePeers => {
            lemma_select_peers(n, ascending(n.node_list), Map::empty(), TARGET_PEER_COUNT as nat);
        },
        _ => {},
    }
}

/// No run of actions breaks what holds of a node at every tick boundary.
pub proof fn lemma_actions_keep_wf(n: NodeView, actions: Seq<ActionView>, session_ids: Seq<SessionID>)
    requires
        n.wf(),
    ensures
        run_actions(n, actions, session_ids).0.wf(),
    decreases actions.len(),
{
    if actions.len() > 0 {
        let first = on_action(n, actions[0], next_id(session_ids));
        lemma_action_keeps_wf(n, actions[0], next_id(session_ids));
        lemma_actions_keep_wf(
            requeued(first),
            actions.subrange(1, actions.len() as int),
            if session_ids.len() > 0 {
                session_ids.subrange(1, session_ids.len() as int)
            } else {
                session_ids
            },
        );
    }
}

/// What holds of a node at a tick boundary holds at the next: whatever
/// arrives and whatever the actions do, the session table stays
/// one-to-one, no remote holds a pending handshake beside a session, and
/// the peer list stays within its bound.
pub proof fn lemma_tick_keeps_wf(n: NodeView, batch: Seq<Datagram>, session_ids: Seq<SessionID>)
    requires
        n.wf(),
        n.ticks < usize::MAX,
    ensures
        tick(n, batch, session_ids).0.wf(),
{
    lemma_batch_keeps_wf(n, batch);
    lemma_batch_keeps_frame(n, batch);
    let received = receive_all(n, batch).0;
    let emptied = NodeView { actions_queue: Seq::empty(), ..received };
    assert(emptied.wf());
    lemma_actions_keep_wf(emptied, received.actions_queue, session_ids);
    lemma_actions_keep_frame(emptied, received.actions_queue, session_ids);
}

/// A node that has just been created is in order.
pub proof fn lemma_fresh_wf(node_id: NodeID, net_id: InternetID)
    ensures
        NodeView::fresh(node_id, net_id).wf(),
        NodeView::fresh(node_id, net_id).first_samples_noted(),
        NodeView::fresh(node_id, net_id).no_own_session(),
{
}

/// Ping round trip, on the tracker: a ping issued at `sent` and answered
/// at `answered` raises the number of samples by exactly one, yields the
/// sample `answered - sent`, and leaves the other outstanding pings as they were.
pub proof fn lemma_ping_round_trip(t: PingTrackerView, sent: usize, answered: usize)
    requires
        t.wf(),
        t.next_ping_id < PingID::MAX,
        sent <= answered,
    ensures
        t.gen_ping(sent).pending.contains_key(t.next_ping_id),
        round_trip(t.gen_ping(sent).pending[t.next_ping_id], answered) == answered - sent,
        t.gen_ping(sent).acknowledge_ping(t.next_ping_id, answered).ping_count == t.ping_count + 1,
        t.gen_ping(sent).acknowledge_ping(t.next_ping_id, answered).pending == t.pending,
        t.gen_ping(sent).acknowledge_ping(t.next_ping_id, answered).wf(),
{
    let issued = t.gen_ping(sent);
    lemma_tracker_gen_wf(t, sent);
    lemma_tracker_acknowledge_wf(issued, t.next_ping_id, answered);
    assert(issued.acknowledge_ping(t.next_ping_id, answered).pending =~= t.pending);
}

/// Ping round trip, on the node that is asked: a `Ping` is answered with a
/// `PingResponse` of the same identifier, through the session it came by.
pub proof fn lemma_ping_is_answered(n: NodeView, from: NodeID, id: PingID)
    requires
        n.has_session(from),
    ensures
        on_packet(n, from, PacketView::Ping(id)).result is Ok,
        on_packet(n, from, PacketView::Ping(id)).out == seq![
            through(n.remotes[from].session.unwrap(), PacketView::PingResponse(id)),
        ],
{
}

/// Ping round trip, on the node that asked: in a node that is in order,
/// the `PingResponse` to a ping that is outstanding since tick `sent`
/// raises the number of samples of the session by exactly one and notes
/// the latency `now - sent` to the remote.
pub proof fn lemma_ping_response_is_sampled(n: NodeView, from: NodeID, id: PingID)
    requires
        n.wf(),
        n.has_session(from),
        n.remotes[from].session.unwrap().tracker.pending.contains_key(id),
    ensures
        on_packet(n, from, PacketView::PingResponse(id)).result is Ok,
        on_packet(n, from, PacketView::PingResponse(id)).out == Seq::<Emission>::empty(),
        ({
            let before = n.remotes[from].session.unwrap().tracker;
            let after = on_packet(n, from, PacketView::PingResponse(id)).node;
            &&& after.has_session(from)
            &&& after.remotes[from].session.unwrap().tracker.ping_count == before.ping_count + 1
            &&& after.route_map.contains_key((n.node_id, from))
            &&& after.route_map[(n.node_id, from)] == n.ticks - before.pending[id]
        }),
{
    lemma_tracker_acknowledge_wf(n.remotes[from].session.unwrap().tracker, id, n.ticks);
}

/// The latency noted toward a remote follows its running average as far
/// as the samples allow: when the answer to a ping is accepted, the
/// latency from this node to the remote is noted as the sample, and it
/// equals the running average of the session exactly when the sample
/// equals the new average, as the first sample of a session always does.
pub proof fn lemma_answer_notes_sample(n: NodeView, from: NodeID, id: PingID)
    requires
        n.has_session(from),
        n.remotes[from].session.unwrap().tracker.pending.contains_key(id),
    ensures
        ({
            let before = n.remotes[from].session.unwrap().tracker;
            let sample = round_trip(before.pending[id], n.ticks);
            let after = on_ping_answer(n, from, id).node;
            &&& on_ping_answer(n, from, id).result == Ok::<RouteScalar, NodeError>(sample)
            &&& after.route_map.contains_key((n.node_id, from))
            &&& after.route_map[(n.node_id, from)] == sample
            &&& after.remotes[from].session.unwrap().tracker.dist_avg == crate::tracker::next_average(
                before.dist_avg,
                before.ping_count,
                sample,
            )
            &&& before.ping_count == 0 ==> after.route_map[(n.node_id, from)]
                == after.remotes[from].session.unwrap().tracker.dist_avg
        }),
{
    let before = n.remotes[from].session.unwrap().tracker;
    crate::tracker::lemma_average_bounded(
        before.dist_avg,
        before.ping_count,
        round_trip(before.pending[id], n.ticks),
    );
}

/// The latency noted toward a remote when its acknowledgement installs a
/// session is the running average of that session: the ticks between the
/// handshake and its acknowledgement. The pending handshake is consumed.
pub proof fn lemma_acknowledge_notes_average(
    n: NodeView,
    src: InternetID,
    session_id: SessionID,
    acknowledger: NodeID,
    return_ping_id: PingID,
)
    requires
        on_acknowledge(n, src, session_id, acknowledger, return_ping_id).result is Ok,
    ensures
        ({
            let after = on_acknowledge(n, src, session_id, acknowledger, return_ping_id).node;
            &&& after.has_session(acknowledger)
            &&& after.route_map.contains_key((n.node_id, acknowledger))
            &&& after.route_map[(n.node_id, acknowledger)]
                == after.remotes[acknowledger].session.unwrap().tracker.dist_avg
            &&& after.remotes[acknowledger].session.unwrap().tracker.ping_count == 1
            &&& after.remotes[acknowledger].handshake_pending is None
            &&& n.remotes[acknowledger].handshake_pending.unwrap().time_sent <= n.ticks
                ==> after.route_map[(n.node_id, acknowledger)] == n.ticks
                - n.remotes[acknowledger].handshake_pending.unwrap().time_sent
        }),
{
    let pending = n.remotes[acknowledger].handshake_pending.unwrap();
    crate::tracker::lemma_average_bounded(0, 0, round_trip(pending.time_sent, n.ticks));
}

/// A datagram that is rejected changes nothing and sends nothing:
/// whether it was addressed elsewhere, could not be read, carried a
/// handshake for another node, an acknowledgement that matches no pending
/// handshake, or a packet of an unknown session.
pub proof fn lemma_rejected_datagram_changes_nothing(n: NodeView, datagram: Datagram)
    requires
        on_datagram(n, datagram).result is Err,
    ensures
        on_datagram(n, datagram).node == n,
        on_datagram(n, datagram).out == Seq::<Emission>::empty(),
        receive(n, datagram) == (n, Seq::<Emission>::empty()),
{
    assert(on_datagram(n, datagram).out + Seq::<Emission>::empty() =~= on_datagram(n, datagram).out);
}

/// Rate limit: once a `RequestPings` of `from` was handled at tick `t`,
/// every `RequestPings` of `from` that arrives fewer than
/// [`RATE_LIMIT_TICKS`] ticks later sends nothing, whatever else the
/// node has done meanwhile; the one that is dropped renews the limit.
pub proof fn lemma_request_pings_rate_limit(
    n: NodeView,
    later: NodeView,
    from: NodeID,
    first: usize,
    second: usize,
)
    requires
        n.has_session(from),
        later.has_session(from),
        later.remotes[from].session.unwrap().last_packet_time == on_packet(
            n,
            from,
            PacketView::RequestPings(first),
        ).node.remotes[from].session.unwrap().last_packet_time,
        n.ticks <= later.ticks < n.ticks + RATE_LIMIT_TICKS,
    ensures
        on_packet(later, from, PacketView::RequestPings(second)).out == Seq::<Emission>::empty(),
        on_packet(later, from, PacketView::RequestPings(second)).result is Ok,
        ({
            let after = on_packet(later, from, PacketView::RequestPings(second)).node;
            let kind = PacketView::RequestPings(second).kind();
            after.remotes[from].session.unwrap().last_packet_time[kind] == later.ticks
        }),
{
    let kind = PacketView::RequestPings(first).kind();
    let stamped = on_packet(n, from, PacketView::RequestPings(first)).node;
    assert(stamped.remotes[from].session.unwrap().last_packet_time.contains_key(kind));
    assert(stamped.remotes[from].session.unwrap().last_packet_time[kind] == n.ticks);
}

/// Rate limit, replayed at once: the same `RequestPings` again in the
/// same tick sends nothing.
pub proof fn lemma_request_pings_replayed(n: NodeView, from: NodeID, requests: usize)
    requires
        n.has_session(from),
    ensures
        on_packet(
            on_packet(n, from, PacketView::RequestPings(requests)).node,
            from,
            PacketView::RequestPings(requests),
        ).out == Seq::<Emission>::empty(),
{
    let after = on_packet(n, from, PacketView::RequestPings(requests)).node;
    lemma_request_pings_rate_limit(n, after, from, requests, requests);
}

/// Condition persistence: while its condition does not hold, a guarded
/// action changes nothing, sends nothing, and comes back as it was; once
/// the condition holds, the action it guards comes back in its place.
pub proof fn lemma_condition_waits(
    n: NodeView,
    condition: NodeActionCondition,
    inner: ActionView,
    session_id: SessionID,
)
    ensures
        !n.holds(condition) ==> on_action(
            n,
            ActionView::Condition(condition, Box::new(inner)),
            session_id,
        ) == n.done(Some(ActionView::Condition(condition, Box::new(inner)))),
        n.holds(condition) ==> on_action(n, ActionView::Condition(condition, Box::new(inner)), session_id)
            == n.done(Some(inner)),
{
}

/// Condition persistence, tick to tick: a node that only waits on a
/// guarded action and receives nothing is, after a tick, the node it was
/// one tick later; it has sent nothing.
pub proof fn lemma_waiting_tick(
    n: NodeView,
    condition: NodeActionCondition,
    inner: ActionView,
    session_ids: Seq<SessionID>,
)
    requires
        n.actions_queue == seq![ActionView::Condition(condition, Box::new(inner))],
        !n.holds(condition),
        n.ticks < usize::MAX,
    ensures
        tick(n, Seq::empty(), session_ids).0 == (NodeView { ticks: (n.ticks + 1) as usize, ..n }),
        tick(n, Seq::empty(), session_ids).1 == Seq::<Emission>::empty(),
{
    let guarded = ActionView::Condition(condition, Box::new(inner));
    let emptied = NodeView { actions_queue: Seq::empty(), ..n };
    let first = on_action(emptied, guarded, next_id(session_ids));
    assert(first == emptied.done(Some(guarded)));
    let rest_ids = if session_ids.len() > 0 {
        session_ids.subrange(1, session_ids.len() as int)
    } else {
        session_ids
    };
    let rest = n.actions_queue.subrange(1, 1);
    assert(rest.len() == 0);
    assert(run_actions(requeued(first), rest, rest_ids) == (requeued(first), Seq::<Emission>::empty()));
    assert(requeued(first).actions_queue =~= n.actions_queue);
    assert(requeued(first) == n);
    assert(run_actions(emptied, n.actions_queue, session_ids).0 == n);
    assert(run_actions(emptied, n.actions_queue, session_ids).1 =~= Seq::<Emission>::empty());
    assert(tick(n, Seq::empty(), session_ids).1 =~= Seq::<Emission>::empty());
}

/// The handshake that `a` sends to the node `b` under `session_id`.
pub open spec fn handshake_of(a: NodeView, b: NodeID, session_id: SessionID) -> EnvelopeView {
    EnvelopeView::Handshake { recipient: b, session_id, signer: a.node_id }
}

/// The acknowledgement that `b` sends for a handshake under `session_id`.
pub open spec fn acknowledgement_of(b: NodeView, session_id: SessionID) -> EnvelopeView {
    EnvelopeView::Acknowledge { session_id, acknowledger: b.node_id, return_ping_id: 0 }
}

/// Handshake symmetry, one initiator: `a` connects to `b`, `b` accepts the
/// handshake, `a` receives the acknowledgement. Then both hold a session
/// with the other under the identifier that `a` chose and no pending
/// handshake beside it, and each pairs that identifier, and no other,
/// with the other node; no other pair of either table changes, but where
/// it held that identifier or that node.
pub proof fn lemma_handshake_symmetry(
    a: NodeView,
    b: NodeView,
    packets: Seq<PacketView>,
    session_id: SessionID,
)
    requires
        a.wf(),
        b.wf(),
        !a.has_session(b.node_id),
        !b.stands_by_own_handshake(a.node_id),
    ensures
        ({
            let started = on_connect(a, b.node_id, b.net_id, packets, session_id);
            let accepted = on_envelope(b, a.net_id, handshake_of(a, b.node_id, session_id));
            let done = on_envelope(started.node, b.net_id, acknowledgement_of(b, session_id));
            &&& started.out == seq![
                Emission { dest: b.net_id, envelope: handshake_of(a, b.node_id, session_id) },
            ]
            &&& accepted.result is Ok
            &&& accepted.out == seq![
                Emission { dest: a.net_id, envelope: acknowledgement_of(b, session_id) },
            ]
            &&& done.result is Ok
            &&& done.node.has_session(b.node_id)
            &&& accepted.node.has_session(a.node_id)
            &&& done.node.remotes[b.node_id].session.unwrap().session_id == session_id
            &&& accepted.node.remotes[a.node_id].session.unwrap().session_id == session_id
            &&& done.node.remotes[b.node_id].handshake_pending is None
            &&& accepted.node.remotes[a.node_id].handshake_pending is None
            &&& done.node.sessions == pair_insert(a.sessions, session_id, b.node_id)
            &&& accepted.node.sessions == pair_insert(b.sessions, session_id, a.node_id)
            &&& forall|other: SessionID| #[trigger]
                done.node.sessions.contains_key(other) && done.node.sessions[other] == b.node_id ==> other
                    == session_id
            &&& forall|other: SessionID| #[trigger]
                accepted.node.sessions.contains_key(other) && accepted.node.sessions[other] == a.node_id
                    ==> other == session_id
            &&& done.node.wf()
            &&& accepted.node.wf()
        }),
{
    let started = on_connect(a, b.node_id, b.net_id, packets, session_id);
    let accepted = on_envelope(b, a.net_id, handshake_of(a, b.node_id, session_id));
    let done = on_envelope(started.node, b.net_id, acknowledgement_of(b, session_id));
    lemma_action_keeps_wf(a, ActionView::Connect(b.node_id, b.net_id, packets), session_id);
    lemma_handshake_keeps_wf(b, a.net_id, session_id, a.node_id);
    lemma_acknowledge_keeps_wf(started.node, b.net_id, session_id, b.node_id, 0);
    lemma_pair_insert_one_to_one(b.sessions, session_id, a.node_id);
    lemma_pair_insert_one_to_one(started.node.sessions, session_id, b.node_id);
}

/// Handshake symmetry, both at once: `a` and `b` connect to each other
/// before either hears of the other, and each receives the other's
/// handshake. The node with the smaller identifier (here `a`) gives its
/// handshake up, accepts that of `b` and acknowledges it; `b` stands by
/// its own, changes nothing and answers nothing, and installs the
/// session when the acknowledgement of `a` arrives.
///
/// At no point does either node hold a pending handshake beside a
/// session. In the end both hold one session with the other, under the
/// identifier that `b` chose; each pairs that identifier, and no other,
/// with the other node; and the identifier that `a` chose stands in no
/// record of the other node and in no pair that was not there before.
pub proof fn lemma_simultaneous_handshake(
    a: NodeView,
    b: NodeView,
    a_id: SessionID,
    b_id: SessionID,
    a_packets: Seq<PacketView>,
    b_packets: Seq<PacketView>,
)
    requires
        a.wf(),
        b.wf(),
        a.node_id < b.node_id,
        !a.has_session(b.node_id),
        !b.has_session(a.node_id),
    ensures
        ({
            let a1 = on_connect(a, b.node_id, b.net_id, a_packets, a_id).node;
            let b1 = on_connect(b, a.node_id, a.net_id, b_packets, b_id).node;
            let a2 = on_envelope(a1, b.net_id, handshake_of(b, a.node_id, b_id));
            let b2 = on_envelope(b1, a.net_id, handshake_of(a, b.node_id, a_id));
            let b3 = on_envelope(b1, a.net_id, acknowledgement_of(a, b_id));
            &&& a2.result is Ok
            &&& a2.out == seq![Emission { dest: b.net_id, envelope: acknowledgement_of(a, b_id) }]
            &&& b2 == b1.done(None::<(NodeID, PacketView)>)
            &&& b3.result is Ok
            &&& a1.wf() && b1.wf() && a2.node.wf() && b3.node.wf()
            &&& a2.node.has_session(b.node_id)
            &&& b3.node.has_session(a.node_id)
            &&& a2.node.remotes[b.node_id].session.unwrap().session_id == b_id
            &&& b3.node.remotes[a.node_id].session.unwrap().session_id == b_id
            &&& a2.node.remotes[b.node_id].handshake_pending is None
            &&& b3.node.remotes[a.node_id].handshake_pending is None
            &&& a2.node.sessions == pair_insert(a.sessions, b_id, b.node_id)
            &&& b3.node.sessions == pair_insert(b.sessions, b_id, a.node_id)
            &&& forall|other: SessionID| #[trigger]
                a2.node.sessions.contains_key(other) && a2.node.sessions[other] == b.node_id ==> other
                    == b_id
            &&& forall|other: SessionID| #[trigger]
                b3.node.sessions.contains_key(other) && b3.node.sessions[other] == a.node_id ==> other
                    == b_id
            &&& a_id != b_id && !a.sessions.contains_key(a_id) ==> !a2.node.sessions.contains_key(a_id)
            &&& a_id != b_id && !b.sessions.contains_key(a_id) ==> !b3.node.sessions.contains_key(a_id)
        }),
{
    let a1 = on_connect(a, b.node_id, b.net_id, a_packets, a_id).node;
    let b1 = on_connect(b, a.node_id, a.net_id, b_packets, b_id).node;
    let a2 = on_envelope(a1, b.net_id, handshake_of(b, a.node_id, b_id));
    let b3 = on_envelope(b1, a.net_id, acknowledgement_of(a, b_id));
    lemma_action_keeps_wf(a, ActionView::Connect(b.node_id, b.net_id, a_packets), a_id);
    lemma_action_keeps_wf(b, ActionView::Connect(a.node_id, a.net_id, b_packets), b_id);
    assert(a1.remotes[b.node_id].node_id == b.node_id);
    assert(b1.remotes[a.node_id].node_id == a.node_id);
    assert(!a1.stands_by_own_handshake(b.node_id));
    assert(b1.stands_by_own_handshake(a.node_id));
    lemma_handshake_keeps_wf(a1, b.net_id, b_id, b.node_id);
    lemma_acknowledge_keeps_wf(b1, a.net_id, b_id, a.node_id, 0);
    lemma_pair_insert_one_to_one(a1.sessions, b_id, b.node_id);
    lemma_pair_insert_one_to_one(b1.sessions, b_id, a.node_id);
}

/// No packet of another node breaks the agreement between the latencies
/// this node notes and the first samples of its sessions.
pub proof fn lemma_packet_keeps_first_samples(n: NodeView, from: NodeID, packet: PacketView)
    requires
        n.first_samples_noted(),
        from != n.node_id,
    ensures
        on_packet(n, from, packet).node.first_samples_noted(),
    decreases packet,
{
    if n.has_session(from) {
        let remote = n.remotes[from];
        let session = remote.session.unwrap();
        let stamped = n.with_remote(
            from,
            RemoteView { session: Some(session.stamp(packet.kind(), n.ticks)), ..remote },
        );
        assert(stamped.first_samples_noted());
        match packet {
            PacketView::ConnectionInit(id, packets) => {
                let answered = on_ping_answer(stamped, from, id);
                if answered.result is Ok {
                    lemma_answer_notes_sample(stamped, from, id);
                    assert(answered.node.first_samples_noted());
                    let listed_node = answered.node.with_listed(answered.result.unwrap(), from);
                    assert(listed_node.first_samples_noted());
                    lemma_packets_keep_first_samples(listed_node, from, packets);
                }
            },
            PacketView::PingResponse(id) => {
                let answered = on_ping_answer(stamped, from, id);
                if answered.result is Ok {
                    lemma_answer_notes_sample(stamped, from, id);
                    assert(answered.node.first_samples_noted());
                }
            },
            PacketView::WantPing(requester, address) => {
                let record = stamped.remote_or_fresh(requester);
                let noted = stamped.with_remote(requester, record);
                assert(noted.first_samples_noted());
            },
            _ => {},
        }
    }
}

/// No series of packets of another node breaks the agreement between the
/// latencies this node notes and the first samples of its sessions.
pub proof fn lemma_packets_keep_first_samples(n: NodeView, from: NodeID, packets: Seq<PacketView>)
    requires
        n.first_samples_noted(),
        from != n.node_id,
    ensures
        on_packets(n, from, packets).node.first_samples_noted(),
    decreases packets,
{
    if packets.len() > 0 {
        let first = on_packet(n, from, packets[0]);
        lemma_packet_keeps_first_samples(n, from, packets[0]);
        lemma_packet_keeps_frame(n, from, packets[0]);
        if first.result is Ok {
            lemma_packets_keep_first_samples(first.node, from, packets.subrange(1, packets.len() as int));
        }
    }
}

/// The session table changes only when a handshake or an
/// acknowledgement arrives: no packet changes it.
pub proof fn lemma_packet_keeps_sessions(n: NodeView, from: NodeID, packet: PacketView)
    ensures
        on_packet(n, from, packet).node.sessions == n.sessions,
    decreases packet,
{
    if n.has_session(from) {
        match packet {
            PacketView::ConnectionInit(id, packets) => {
                let session = n.remotes[from].session.unwrap();
                let stamped = n.with_remote(
                    from,
                    RemoteView { session: Some(session.stamp(packet.kind(), n.ticks)), ..n.remotes[from] },
                );
                let answered = on_ping_answer(stamped, from, id);
                if answered.result is Ok {
                    lemma_packets_keep_sessions(
                        answered.node.with_listed(answered.result.unwrap(), from),
                        from,
                        packets,
                    );
                }
            },
            _ => {},
        }
    }
}

/// No series of packets changes the session table.
pub proof fn lemma_packets_keep_sessions(n: NodeView, from: NodeID, packets: Seq<PacketView>)
    ensures
        on_packets(n, from, packets).node.sessions == n.sessions,
    decreases packets,
{
    if packets.len() > 0 {
        let first = on_packet(n, from, packets[0]);
        lemma_packet_keeps_sessions(n, from, packets[0]);
        if first.result is Ok {
            lemma_packets_keep_sessions(first.node, from, packets.subrange(1, packets.len() as int));
        }
    }
}

/// No datagram that is foreign to the node breaks the agreement between
/// the latencies it notes and the first samples of its sessions, or
/// pairs a session with the node's own identity.
pub proof fn lemma_receive_keeps_first_samples(n: NodeView, datagram: Datagram)
    requires
        n.first_samples_noted(),
        n.no_own_session(),
        foreign(n, datagram),
    ensures
        receive(n, datagram).0.first_samples_noted(),
        receive(n, datagram).0.no_own_session(),
{
    let opened = on_datagram(n, datagram);
    if datagram.dest_addr == n.net_id {
        match unpackage_spec(datagram.data) {
            Some(EnvelopeView::Acknowledge { session_id, acknowledger, return_ping_id }) => {
                if opened.result is Ok {
                    lemma_acknowledge_notes_average(n, datagram.src_addr, session_id, acknowledger, return_ping_id);
                }
                assert(opened.node.first_samples_noted());
            },
            Some(EnvelopeView::Handshake { recipient, session_id, signer }) => {
                assert(opened.node.first_samples_noted());
            },
            _ => {},
        }
    }
    assert(opened.node.no_own_session());
    match opened.result {
        Ok(Some((from, packet))) => {
            lemma_packet_keeps_first_samples(opened.node, from, packet);
            lemma_packet_keeps_sessions(opened.node, from, packet);
            lemma_packet_keeps_frame(opened.node, from, packet);
        },
        _ => {},
    }
}

/// No batch of datagrams that are foreign to the node breaks the
/// agreement between the latencies it notes and the first samples of its
/// sessions.
pub proof fn lemma_batch_keeps_first_samples(n: NodeView, batch: Seq<Datagram>)
    requires
        n.first_samples_noted(),
        n.no_own_session(),
        forall|i: int| 0 <= i < batch.len() ==> foreign(n, #[trigger] batch[i]),
    ensures
        receive_all(n, batch).0.first_samples_noted(),
        receive_all(n, batch).0.no_own_session(),
    decreases batch.len(),
{
    if batch.len() > 0 {
        lemma_receive_keeps_first_samples(n, batch[0]);
        lemma_receive_keeps_frame(n, batch[0]);
        let rest = batch.subrange(1, batch.len() as int);
        assert forall|i: int| 0 <= i < rest.len() implies foreign(receive(n, batch[0]).0, #[trigger] rest[i]) by {
            assert(rest[i] == batch[i + 1]);
        }
        lemma_batch_keeps_first_samples(receive(n, batch[0]).0, rest);
    }
}

/// No run of actions changes a noted latency, a tracker or the session table.
pub proof fn lemma_actions_keep_first_samples(
    n: NodeView,
    actions: Seq<ActionView>,
    session_ids: Seq<SessionID>,
)
    requires
        n.first_samples_noted(),
        n.no_own_session(),
    ensures
        run_actions(n, actions, session_ids).0.first_samples_noted(),
        run_actions(n, actions, session_ids).0.no_own_session(),
    decreases actions.len(),
{
    if actions.len() > 0 {
        let first = on_action(n, actions[0], next_id(session_ids));
        assert(requeued(first).first_samples_noted());
        assert(requeued(first).no_own_session());
        lemma_actions_keep_first_samples(
            requeued(first),
            actions.subrange(1, actions.len() as int),
            if session_ids.len() > 0 {
                session_ids.subrange(1, session_ids.len() as int)
            } else {
                session_ids
            },
        );
    }
}

/// From tick to tick, the latency that a node notes toward a remote is
/// the running average of the remote's session, as long as the session
/// has taken exactly one sample. This holds of every batch in which no
/// datagram opens or accepts a session in the node's own name.
pub proof fn lemma_tick_keeps_first_samples(n: NodeView, batch: Seq<Datagram>, session_ids: Seq<SessionID>)
    requires
        n.first_samples_noted(),
        n.no_own_session(),
        forall|i: int| 0 <= i < batch.len() ==> foreign(n, #[trigger] batch[i]),
    ensures
        tick(n, batch, session_ids).0.first_samples_noted(),
        tick(n, batch, session_ids).0.no_own_session(),
{
    lemma_batch_keeps_first_samples(n, batch);
    let received = receive_all(n, batch).0;
    let emptied = NodeView { actions_queue: Seq::empty(), ..received };
    assert(emptied.first_samples_noted());
    lemma_actions_keep_first_samples(emptied, received.actions_queue, session_ids);
}

/// What a fan-out sends: no more emissions than targets, each through
/// the session of a target other than the node to skip, and each
/// carrying the packet to fan out. Where every target has a session, the
/// fan-out succeeds.
pub proof fn lemma_fan_out(n: NodeView, skip: NodeID, targets: Seq<(RouteScalar, NodeID)>, packet: PacketView)
    ensures
        fan_out(n, skip, targets, packet).0.len() <= targets.len(),
        forall|i: int|
            0 <= i < fan_out(n, skip, targets, packet).0.len() ==> exists|node: NodeID|
                n.has_session(node) && n.remotes[node].node_id != skip && #[trigger] fan_out(
                    n,
                    skip,
                    targets,
                    packet,
                ).0[i] == through(n.remotes[node].session.unwrap(), packet),
        (forall|i: int| 0 <= i < targets.len() ==> n.has_session((#[trigger] targets[i]).1)) ==> fan_out(
            n,
            skip,
            targets,
            packet,
        ).1 is Ok,
    decreases targets.len(),
{
    if targets.len() > 0 {
        let node = targets[0].1;
        let rest = targets.subrange(1, targets.len() as int);
        lemma_fan_out(n, skip, rest, packet);
        let sent = fan_out(n, skip, targets, packet).0;
        let later = fan_out(n, skip, rest, packet).0;
        if forall|i: int| 0 <= i < targets.len() ==> n.has_session((#[trigger] targets[i]).1) {
            assert forall|i: int| 0 <= i < rest.len() implies n.has_session((#[trigger] rest[i]).1) by {
                assert(rest[i] == targets[i + 1]);
            }
            assert(n.has_session(targets[0].1));
        }
        assert forall|i: int| 0 <= i < sent.len() implies exists|other: NodeID|
            n.has_session(other) && n.remotes[other].node_id != skip && #[trigger] sent[i] == through(
                n.remotes[other].session.unwrap(),
                packet,
            ) by {
            if n.remotes.contains_key(node) && n.remotes[node].node_id != skip && n.remotes[node].session
                is Some {
                if i == 0 {
                    assert(n.has_session(node) && sent[0] == through(
                        n.remotes[node].session.unwrap(),
                        packet,
                    ));
                } else {
                    assert(sent[i] == later[i - 1]);
                }
            } else {
                assert(sent[i] == later[i]);
            }
        }
    }
}

/// What a request for pings brings about: at most
/// [`MAX_REQUEST_PINGS`] nodes, and no more than were asked for, are
/// told that the requester wants to be pinged, and none of them is the
/// requester. In a node that is in order the request cannot fail.
pub proof fn lemma_request_pings(n: NodeView, from: NodeID, requests: usize, elapsed: Option<usize>)
    requires
        n.has_session(from),
    ensures
        on_request_pings(n, from, requests, elapsed).node == n,
        on_request_pings(n, from, requests, elapsed).out.len() <= request_size(requests),
        on_request_pings(n, from, requests, elapsed).out.len() <= MAX_REQUEST_PINGS,
        forall|i: int|
            0 <= i < on_request_pings(n, from, requests, elapsed).out.len() ==> exists|node: NodeID|
                n.has_session(node) && n.remotes[node].node_id != from && #[trigger] on_request_pings(
                    n,
                    from,
                    requests,
                    elapsed,
                ).out[i] == through(
                    n.remotes[node].session.unwrap(),
                    PacketView::WantPing(from, n.remotes[from].session.unwrap().return_net_id),
                ),
        n.wf() ==> on_request_pings(n, from, requests, elapsed).result is Ok,
{
    let session = n.remotes[from].session.unwrap();
    let packet = PacketView::WantPing(from, session.return_net_id);
    let nearest = ascending(n.node_list);
    let targets = if request_size(requests) <= nearest.len() {
        nearest.subrange(0, request_size(requests) as int)
    } else {
        nearest
    };
    lemma_fan_out(n, from, targets, packet);
    if n.wf() {
        lemma_ascending_lists(n.node_list);
        assert forall|i: int| 0 <= i < targets.len() implies n.has_session((#[trigger] targets[i]).1) by {
            assert(targets[i] == nearest[i]);
            assert(n.node_list.contains_key(nearest[i].0));
        }
    }
}

/// Whether a step keeps the handshakes in order: if no remote held a
/// pending handshake beside a session before, none does after; and if
/// none held one beside a session under another identifier before, none
/// does after.
pub open spec fn keeps_handshakes(before: NodeView, after: NodeView) -> bool {
    &&& before.all_settled() ==> after.all_settled()
    &&& before.pendings_agree() ==> after.pendings_agree()
}

/// A record that is settled, and whose pending handshake agrees with its
/// session, can take any place among the records.
pub proof fn lemma_record_keeps_handshakes(n: NodeView, node: NodeID, record: RemoteView)
    requires
        n.all_settled() ==> settled(record),
        n.pendings_agree() ==> agrees(record),
    ensures
        keeps_handshakes(n, n.with_remote(node, record)),
{
    let after = n.with_remote(node, record);
    if n.all_settled() {
        assert forall|other: NodeID| #[trigger] after.remotes.contains_key(other) implies settled(
            after.remotes[other],
        ) by {
            if other != node {
                assert(n.remotes.contains_key(other));
            }
        }
    }
    if n.pendings_agree() {
        assert forall|other: NodeID| #[trigger] after.remotes.contains_key(other) implies agrees(
            after.remotes[other],
        ) by {
            if other != node {
                assert(n.remotes.contains_key(other));
            }
        }
    }
}

/// No packet puts a pending handshake beside a session.
pub proof fn lemma_packet_keeps_handshakes(n: NodeView, from: NodeID, packet: PacketView)
    ensures
        keeps_handshakes(n, on_packet(n, from, packet).node),
    decreases packet,
{
    if n.has_session(from) {
        let remote = n.remotes[from];
        let session = remote.session.unwrap();
        let stamped = n.with_remote(
            from,
            RemoteView { session: Some(session.stamp(packet.kind(), n.ticks)), ..remote },
        );
        assert(keeps_handshakes(n, stamped));
        match packet {
            PacketView::ConnectionInit(id, packets) => {
                let answered = on_ping_answer(stamped, from, id);
                if answered.result is Ok {
                    assert(stamped.remotes.contains_key(from));
                    lemma_record_keeps_handshakes(stamped, from, answered.node.remotes[from]);
                    assert(answered.node.remotes == stamped.remotes.insert(from, answered.node.remotes[from]));
                    let listed_node = answered.node.with_listed(answered.result.unwrap(), from);
                    assert(listed_node.remotes == answered.node.remotes);
                    assert(keeps_handshakes(stamped, listed_node));
                    lemma_packets_keep_handshakes(listed_node, from, packets);
                }
            },
            PacketView::PingResponse(id) => {
                let answered = on_ping_answer(stamped, from, id);
                if answered.result is Ok {
                    assert(stamped.remotes.contains_key(from));
                    lemma_record_keeps_handshakes(stamped, from, answered.node.remotes[from]);
                    assert(answered.node.remotes == stamped.remotes.insert(from, answered.node.remotes[from]));
                }
            },
            PacketView::WantPing(requester, address) => {
                let record = stamped.remote_or_fresh(requester);
                assert(keeps_handshakes(stamped, stamped.with_remote(requester, record)));
            },
            _ => {},
        }
    }
}

/// No series of packets puts a pending handshake beside a session.
pub proof fn lemma_packets_keep_handshakes(n: NodeView, from: NodeID, packets: Seq<PacketView>)
    ensures
        keeps_handshakes(n, on_packets(n, from, packets).node),
    decreases packets,
{
    if packets.len() > 0 {
        let first = on_packet(n, from, packets[0]);
        lemma_packet_keeps_handshakes(n, from, packets[0]);
        if first.result is Ok {
            lemma_packets_keep_handshakes(first.node, from, packets.subrange(1, packets.len() as int));
        }
    }
}

/// No datagram puts a pending handshake beside a session: a handshake
/// that is accepted takes the place of a pending one, and an
/// acknowledgement consumes the pending one it installs the session of.
pub proof fn lemma_receive_keeps_handshakes(n: NodeView, datagram: Datagram)
    ensures
        keeps_handshakes(n, receive(n, datagram).0),
{
    let opened = on_datagram(n, datagram);
    assert(keeps_handshakes(n, opened.node));
    match opened.result {
        Ok(Some((from, packet))) => {
            lemma_packet_keeps_handshakes(opened.node, from, packet);
        },
        _ => {},
    }
}

/// No batch of datagrams puts a pending handshake beside a session.
pub proof fn lemma_batch_keeps_handshakes(n: NodeView, batch: Seq<Datagram>)
    ensures
        keeps_handshakes(n, receive_all(n, batch).0),
    decreases batch.len(),
{
    if batch.len() > 0 {
        lemma_receive_keeps_handshakes(n, batch[0]);
        lemma_batch_keeps_handshakes(receive(n, batch[0]).0, batch.subrange(1, batch.len() as int));
    }
}

/// No run of actions puts a pending handshake beside a session: no
/// action starts a handshake with a node that has a session.
pub proof fn lemma_actions_keep_handshakes(
    n: NodeView,
    actions: Seq<ActionView>,
    session_ids: Seq<SessionID>,
)
    ensures
        keeps_handshakes(n, run_actions(n, actions, session_ids).0),
    decreases actions.len(),
{
    if actions.len() > 0 {
        let first = on_action(n, actions[0], next_id(session_ids));
        assert(keeps_handshakes(n, requeued(first)));
        lemma_actions_keep_handshakes(
            requeued(first),
            actions.subrange(1, actions.len() as int),
            if session_ids.len() > 0 {
                session_ids.subrange(1, session_ids.len() as int)
            } else {
                session_ids
            },
        );
    }
}

/// Once acknowledged, a pending handshake is cleared, at every tick
/// boundary and for any batch: if no remote holds a pending handshake
/// beside a session (or beside a session under another identifier)
/// before a tick, none does after it.
pub proof fn lemma_tick_keeps_handshakes(n: NodeView, batch: Seq<Datagram>, session_ids: Seq<SessionID>)
    ensures
        keeps_handshakes(n, tick(n, batch, session_ids).0),
{
    lemma_batch_keeps_handshakes(n, batch);
    let received = receive_all(n, batch).0;
    let emptied = NodeView { actions_queue: Seq::empty(), ..received };
    assert(keeps_handshakes(received, emptied));
    lemma_actions_keep_handshakes(emptied, received.actions_queue, session_ids);
}

/// Whether `node` holds a session and no pending handshake.
pub open spec fn cleared(n: NodeView, node: NodeID) -> bool {
    n.has_session(node) && n.remotes[node].handshake_pending is None
}

/// No packet gives a pending handshake to a remote that holds a session.
pub proof fn lemma_packet_keeps_cleared(n: NodeView, from: NodeID, packet: PacketView, node: NodeID)
    requires
        cleared(n, node),
    ensures
        cleared(on_packet(n, from, packet).node, node),
    decreases packet,
{
    if n.has_session(from) {
        let remote = n.remotes[from];
        let session = remote.session.unwrap();
        let stamped = n.with_remote(
            from,
            RemoteView { session: Some(session.stamp(packet.kind(), n.ticks)), ..remote },
        );
        assert(cleared(stamped, node));
        match packet {
            PacketView::ConnectionInit(id, packets) => {
                let answered = on_ping_answer(stamped, from, id);
                if answered.result is Ok {
                    let listed_node = answered.node.with_listed(answered.result.unwrap(), from);
                    assert(cleared(listed_node, node));
                    lemma_packets_keep_cleared(listed_node, from, packets, node);
                }
            },
            PacketView::PingResponse(id) => {
                assert(cleared(on_ping_answer(stamped, from, id).node, node));
            },
            _ => {},
        }
    }
}

/// No series of packets gives a pending handshake to a remote that holds a session.
pub proof fn lemma_packets_keep_cleared(n: NodeView, from: NodeID, packets: Seq<PacketView>, node: NodeID)
    requires
        cleared(n, node),
    ensures
        cleared(on_packets(n, from, packets).node, node),
    decreases packets,
{
    if packets.len() > 0 {
        let first = on_packet(n, from, packets[0]);
        lemma_packet_keeps_cleared(n, from, packets[0], node);
        if first.result is Ok {
            lemma_packets_keep_cleared(first.node, from, packets.subrange(1, packets.len() as int), node);
        }
    }
}

/// No datagram gives a pending handshake to a remote that holds a session.
pub proof fn lemma_receive_keeps_cleared(n: NodeView, datagram: Datagram, node: NodeID)
    requires
        cleared(n, node),
    ensures
        cleared(on_datagram(n, datagram).node, node),
        cleared(receive(n, datagram).0, node),
{
    let opened = on_datagram(n, datagram);
    assert(cleared(opened.node, node));
    match opened.result {
        Ok(Some((from, packet))) => {
            lemma_packet_keeps_cleared(opened.node, from, packet, node);
        },
        _ => {},
    }
}

/// No batch of datagrams gives a pending handshake to a remote that holds a session.
pub proof fn lemma_batch_keeps_cleared(n: NodeView, batch: Seq<Datagram>, node: NodeID)
    requires
        cleared(n, node),
    ensures
        cleared(receive_all(n, batch).0, node),
    decreases batch.len(),
{
    if batch.len() > 0 {
        lemma_receive_keeps_cleared(n, batch[0], node);
        lemma_batch_keeps_cleared(receive(n, batch[0]).0, batch.subrange(1, batch.len() as int), node);
    }
}

/// No run of actions gives a pending handshake to a remote that holds a session.
pub proof fn lemma_actions_keep_cleared(
    n: NodeView,
    actions: Seq<ActionView>,
    session_ids: Seq<SessionID>,
    node: NodeID,
)
    requires
        cleared(n, node),
    ensures
        cleared(run_actions(n, actions, session_ids).0, node),
    decreases actions.len(),
{
    if actions.len() > 0 {
        let first = on_action(n, actions[0], next_id(session_ids));
        assert(cleared(requeued(first), node));
        lemma_actions_keep_cleared(
            requeued(first),
            actions.subrange(1, actions.len() as int),
            if session_ids.len() > 0 {
                session_ids.subrange(1, session_ids.len() as int)
            } else {
                session_ids
            },
            node,
        );
    }
}

/// Taking in a batch is taking in its first `i` datagrams and then the rest.
pub proof fn lemma_batch_splits(n: NodeView, batch: Seq<Datagram>, i: int)
    requires
        0 <= i <= batch.len(),
    ensures
        receive_all(n, batch).0 == receive_all(
            receive_all(n, batch.subrange(0, i)).0,
            batch.subrange(i, batch.len() as int),
        ).0,
    decreases i,
{
    if i == 0 {
        assert(batch.subrange(0, batch.len() as int) =~= batch);
    } else {
        let first = receive(n, batch[0]).0;
        let rest = batch.subrange(1, batch.len() as int);
        lemma_batch_splits(first, rest, i - 1);
        let head = batch.subrange(0, i);
        assert(head[0] == batch[0]);
        assert(head.subrange(1, head.len() as int) =~= rest.subrange(0, i - 1));
        assert(rest.subrange(i - 1, rest.len() as int) =~= batch.subrange(i, batch.len() as int));
    }
}

/// Once acknowledged, a pending handshake stays cleared to the end of the
/// tick: a remote that holds a session and no pending handshake after one
/// datagram of the batch was opened, as every remote does whose
/// acknowledgement installed its session, holds both so when the tick ends.
pub proof fn lemma_acknowledged_stays_cleared(
    n: NodeView,
    batch: Seq<Datagram>,
    session_ids: Seq<SessionID>,
    i: int,
    node: NodeID,
)
    requires
        0 <= i < batch.len(),
        cleared(on_datagram(receive_all(n, batch.subrange(0, i)).0, batch[i]).node, node),
    ensures
        cleared(tick(n, batch, session_ids).0, node),
{
    let before = receive_all(n, batch.subrange(0, i)).0;
    let opened = on_datagram(before, batch[i]);
    let rest = batch.subrange(i, batch.len() as int);
    lemma_batch_splits(n, batch, i);
    assert(rest[0] == batch[i]);
    match opened.result {
        Ok(Some((from, packet))) => {
            lemma_packet_keeps_cleared(opened.node, from, packet, node);
        },
        _ => {},
    }
    lemma_batch_keeps_cleared(receive(before, batch[i]).0, rest.subrange(1, rest.len() as int), node);
    let received = receive_all(n, batch).0;
    let emptied = NodeView { actions_queue: Seq::empty(), ..received };
    lemma_actions_keep_cleared(emptied, received.actions_queue, session_ids, node);
}

/// The node one tick later, with nothing else changed.
pub open spec fn advanced(n: NodeView) -> NodeView {
    NodeView { ticks: (n.ticks + 1) as usize, ..n }
}

/// A tick of a node that receives nothing and has nothing queued only
/// advances its clock.
pub proof fn lemma_idle_tick(n: NodeView, session_ids: Seq<SessionID>)
    requires
        n.actions_queue.len() == 0,
    ensures
        tick(n, Seq::empty(), session_ids) == (advanced(n), Seq::<Emission>::empty()),
{
    assert(n.actions_queue =~= Seq::empty());
    assert(NodeView { actions_queue: Seq::empty(), ..n } == n);
    assert(tick(n, Seq::empty(), session_ids).1 =~= Seq::<Emission>::empty());
}

/// A tick of a node that receives nothing and has one action queued
/// is that action's turn, with the first of the session identifiers.
pub proof fn lemma_tick_of_one_action(n: NodeView, action: ActionView, session_ids: Seq<SessionID>)
    requires
        n.actions_queue == seq![action],
    ensures
        ({
            let emptied = NodeView { actions_queue: Seq::empty(), ..n };
            let step = on_action(emptied, action, next_id(session_ids));
            tick(n, Seq::empty(), session_ids) == (advanced(requeued(step)), step.out)
        }),
{
    let emptied = NodeView { actions_queue: Seq::empty(), ..n };
    let step = on_action(emptied, action, next_id(session_ids));
    let rest = n.actions_queue.subrange(1, 1);
    let rest_ids = if session_ids.len() > 0 {
        session_ids.subrange(1, session_ids.len() as int)
    } else {
        session_ids
    };
    assert(rest.len() == 0);
    assert(run_actions(requeued(step), rest, rest_ids) == (requeued(step), Seq::<Emission>::empty()));
    assert(n.actions_queue[0] == action);
    assert(step.out + Seq::<Emission>::empty() =~= step.out);
    assert(run_actions(emptied, n.actions_queue, session_ids) == (requeued(step), step.out));
    assert(Seq::<Emission>::empty() + step.out =~= step.out);
}

/// A tick of a node that receives one datagram and has nothing queued
/// before or after it is the arrival of that datagram.
pub proof fn lemma_tick_of_one_datagram(n: NodeView, datagram: Datagram, session_ids: Seq<SessionID>)
    requires
        receive(n, datagram).0.actions_queue.len() == 0,
    ensures
        tick(n, seq![datagram], session_ids) == (advanced(receive(n, datagram).0), receive(n, datagram).1),
{
    let batch = seq![datagram];
    let first = receive(n, datagram);
    assert(batch[0] == datagram);
    assert(batch.subrange(1, 1).len() == 0);
    assert(receive_all(first.0, batch.subrange(1, 1)) == (first.0, Seq::<Emission>::empty()));
    assert(first.1 + Seq::<Emission>::empty() =~= first.1);
    assert(receive_all(n, batch) == (first.0, first.1));
    assert(first.0.actions_queue =~= Seq::empty());
    assert(NodeView { actions_queue: Seq::empty(), ..first.0 } == first.0);
}

/// Two nodes in lockstep on a lossless substrate: in every round both
/// tick, and each takes in what the other sent in the round before. The
/// result is the two nodes after `rounds` rounds, each with what it sent
/// in the last of them.
pub open spec fn lockstep(a: NodeView, b: NodeView, session_ids: Seq<SessionID>, rounds: nat) -> (
    NodeView,
    Seq<Emission>,
    NodeView,
    Seq<Emission>,
)
    decreases rounds,
{
    if rounds == 0 {
        (a, Seq::empty(), b, Seq::empty())
    } else {
        let before = lockstep(a, b, session_ids, (rounds - 1) as nat);
        let a_ticked = tick(before.0, carried(b.net_id, before.3), session_ids);
        let b_ticked = tick(before.2, carried(a.net_id, before.1), session_ids);
        (a_ticked.0, a_ticked.1, b_ticked.0, b_ticked.1)
    }
}

/// What one emission carries is one datagram.
pub proof fn lemma_carried_one(src: InternetID, emission: Emission)
    ensures
        carried(src, seq![emission]) == seq![package_spec(emission.envelope, src, emission.dest)],
        carried(src, Seq::empty()) == Seq::<Datagram>::empty(),
{
    assert(carried(src, seq![emission]) =~= seq![
        package_spec(emission.envelope, src, emission.dest),
    ]);
    assert(carried(src, Seq::empty()) =~= Seq::<Datagram>::empty());
}

/// The record that the initiator of a solo bootstrap keeps of the other
/// node once its handshake, sent at tick 1, is acknowledged at tick 3.
pub open spec fn solo_initiator_record(b_id: NodeID, b_net: InternetID, s: SessionID) -> RemoteView {
    RemoteView {
        session: Some(crate::model::acknowledged_session(s, b_net, 1, 3)),
        ..RemoteView::fresh(b_id)
    }
}

/// The record that the other node of a solo bootstrap keeps of the
/// initiator once it has accepted the handshake at tick 2.
pub open spec fn solo_responder_record(a_id: NodeID, a_net: InternetID, s: SessionID) -> RemoteView {
    RemoteView {
        session: Some(
            SessionView { tracker: PingTrackerView::fresh().gen_ping(2), ..SessionView::fresh(s, a_net) },
        ),
        ..RemoteView::fresh(a_id)
    }
}

/// The first packet of the session of a solo bootstrap: it answers the
/// ping of the acknowledgement and tells that the initiator has no
/// coordinate, knows one node, and measured a round trip of two ticks.
pub open spec fn solo_connection_init(s: SessionID) -> EnvelopeView {
    EnvelopeView::Session {
        session_id: s,
        packet: PacketView::ConnectionInit(0, seq![PacketView::ExchangeInfo(None, 1, 2)]),
    }
}

/// Solo bootstrap: a new node `a` that is asked to bootstrap through a
/// new node `b` holds a session with it after four rounds in lockstep,
/// and `b` one with `a`, under one and the same identifier, the first
/// of `session_ids`; each session table holds that pair and no other;
/// `a` lists `b` at the round trip of two ticks and notes that latency.
/// This holds provided the handshake and its acknowledgement are read
/// back as they were written.
#[verifier::rlimit(60)]
pub proof fn lemma_solo_bootstrap(
    a_id: NodeID,
    a_net: InternetID,
    b_id: NodeID,
    b_net: InternetID,
    session_ids: Seq<SessionID>,
)
    ensures
        ({
            let a = NodeView::fresh(a_id, a_net).enqueue(ActionView::Bootstrap(b_id, b_net));
            let b = NodeView::fresh(b_id, b_net);
            let s = next_id(session_ids);
            let handshake = EnvelopeView::Handshake { recipient: b_id, session_id: s, signer: a_id };
            let acknowledgement = EnvelopeView::Acknowledge {
                session_id: s,
                acknowledger: b_id,
                return_ping_id: 0,
            };
            let end = lockstep(a, b, session_ids, 4);
            reads_back(handshake) && reads_back(acknowledgement) ==> {
                &&& end.0.has_session(b_id)
                &&& end.2.has_session(a_id)
                &&& end.0.remotes[b_id].session.unwrap().session_id == s
                &&& end.2.remotes[a_id].session.unwrap().session_id == s
                &&& end.0.remotes[b_id].handshake_pending is None
                &&& end.2.remotes[a_id].handshake_pending is None
                &&& end.0.sessions == Map::<SessionID, NodeID>::empty().insert(s, b_id)
                &&& end.2.sessions == Map::<SessionID, NodeID>::empty().insert(s, a_id)
                &&& end.0.node_list == Map::<RouteScalar, NodeID>::empty().insert(2, b_id)
                &&& end.0.route_map == Map::<(NodeID, NodeID), RouteScalar>::empty().insert((a_id, b_id), 2)
                &&& end.0.ticks == 4 && end.2.ticks == 4
                &&& end.0.remotes[b_id] == solo_initiator_record(b_id, b_net, s)
                &&& end.2.remotes[a_id] == solo_responder_record(a_id, a_net, s)
                &&& end.0.remotes.dom() == set![b_id] && end.2.remotes.dom() == set![a_id]
                &&& end.0.route_coord is None && end.2.route_coord is None
                &&& end.0.actions_queue.len() == 0 && end.2.actions_queue.len() == 0
                &&& end.0.node_id == a_id && end.0.net_id == a_net
                &&& end.2.node_id == b_id && end.2.net_id == b_net
                &&& end.2.node_list == Map::<RouteScalar, NodeID>::empty()
                &&& end.2.route_map == Map::<(NodeID, NodeID), RouteScalar>::empty()
                &&& end.1 == seq![
                    Emission { dest: b_net, envelope: solo_connection_init(s) },
                ]
                &&& end.3 == Seq::<Emission>::empty()
            }
        }),
{
    let a = NodeView::fresh(a_id, a_net).enqueue(ActionView::Bootstrap(b_id, b_net));
    let b = NodeView::fresh(b_id, b_net);
    let s = next_id(session_ids);
    let handshake = EnvelopeView::Handshake { recipient: b_id, session_id: s, signer: a_id };
    let acknowledgement = EnvelopeView::Acknowledge { session_id: s, acknowledger: b_id, return_ping_id: 0 };
    let none = Seq::<Emission>::empty();
    lemma_carried_one(a_net, Emission { dest: b_net, envelope: handshake });
    lemma_carried_one(b_net, Emission { dest: a_net, envelope: acknowledgement });
    if reads_back(handshake) && reads_back(acknowledgement) {
        // round 1: the bootstrap becomes a connect
        let r0 = lockstep(a, b, session_ids, 0);
        assert(r0 == (a, none, b, none));
        let connect = ActionView::Connect(b_id, b_net, seq![PacketView::ExchangeInfo(None, 0, 0)]);
        assert(a.actions_queue =~= seq![ActionView::Bootstrap(b_id, b_net)]);
        lemma_tick_of_one_action(a, ActionView::Bootstrap(b_id, b_net), session_ids);
        lemma_idle_tick(b, session_ids);
        let a1 = advanced(
            NodeView { actions_queue: Seq::empty(), ..a }.enqueue(connect),
        );
        let b1 = advanced(b);
        let r1 = lockstep(a, b, session_ids, 1);
        assert(r1 == (a1, none, b1, none));
        // round 2: the connect sends the handshake
        assert(a1.actions_queue =~= seq![connect]);
        lemma_tick_of_one_action(a1, connect, session_ids);
        lemma_idle_tick(b1, session_ids);
        let r2 = lockstep(a, b, session_ids, 2);
        let a2 = r2.0;
        let b2 = advanced(b1);
        assert(r2.1 == seq![Emission { dest: b_net, envelope: handshake }]);
        assert(r2.2 == b2 && r2.3 == none);
        assert(a2.ticks == 2 && a2.actions_queue.len() == 0);
        assert(a2.remotes.contains_key(b_id));
        assert(a2.remotes[b_id].handshake_pending is Some);
        assert(a2.remotes[b_id].handshake_pending.unwrap().session_id == s);
        assert(a2.remotes[b_id].handshake_pending.unwrap().time_sent == 1);
        assert(a2.remotes[b_id].session is None);
        assert(a2.sessions == Map::<SessionID, NodeID>::empty());
        // round 3: the handshake is accepted and acknowledged
        let h_datagram = package_spec(handshake, a_net, b_net);
        assert(unpackage_spec(h_datagram.data) == Some(handshake));
        assert(!b2.stands_by_own_handshake(a_id));
        assert(receive(b2, h_datagram).0.actions_queue.len() == 0);
        lemma_tick_of_one_datagram(b2, h_datagram, session_ids);
        lemma_idle_tick(a2, session_ids);
        let r3 = lockstep(a, b, session_ids, 3);
        let a3 = advanced(a2);
        let b3 = r3.2;
        assert(r3.0 == a3 && r3.1 == none);
        assert(r3.3 =~= seq![Emission { dest: a_net, envelope: acknowledgement }]);
        assert(b3.has_session(a_id));
        assert(b3.sessions =~= Map::<SessionID, NodeID>::empty().insert(s, a_id));
        assert(b3.actions_queue.len() == 0);
        // round 4: the acknowledgement installs the session
        let k_datagram = package_spec(acknowledgement, b_net, a_net);
        assert(unpackage_spec(k_datagram.data) == Some(acknowledgement));
        crate::tracker::lemma_average_bounded(0, 0, 2);
        assert(receive(a3, k_datagram).0.actions_queue.len() == 0);
        lemma_tick_of_one_datagram(a3, k_datagram, session_ids);
        lemma_idle_tick(b3, session_ids);
        let r4 = lockstep(a, b, session_ids, 4);
        assert(r4.2 == advanced(b3));
        assert(r4.0 == advanced(receive(a3, k_datagram).0));
        assert(r4.0.sessions =~= Map::<SessionID, NodeID>::empty().insert(s, b_id));
        assert(r4.0.node_list =~= Map::<RouteScalar, NodeID>::empty().insert(2, b_id));
        assert(a3.remotes.dom() =~= set![b_id]);
        assert(r4.0.remotes.dom() =~= set![b_id]);
        assert(r4.2.remotes.dom() =~= set![a_id]);
        assert(a3.remotes.len() == 1);
        let session = crate::model::acknowledged_session(s, b_net, 1, 3);
        assert(session.tracker.dist_avg == 2);
        assert(crate::model::refreshed(seq![PacketView::ExchangeInfo(None, 0, 0)], None, 1, 2) =~= seq![
            PacketView::ExchangeInfo(None, 1, 2),
        ]);
        assert(r4.1 =~= seq![Emission { dest: b_net, envelope: solo_connection_init(s) }]);
    }
}

/// The envelope that carries `packet` through the session `s`.
pub open spec fn in_session(s: SessionID, packet: PacketView) -> EnvelopeView {
    EnvelopeView::Session { session_id: s, packet }
}

/// Whether every datagram of a solo bootstrap under the session `s` is
/// read back as it was written: the handshake, its acknowledgement, the
/// first packet of the session and its answer.
pub open spec fn solo_reads_back(a_id: NodeID, b_id: NodeID, s: SessionID) -> bool {
    &&& reads_back(EnvelopeView::Handshake { recipient: b_id, session_id: s, signer: a_id })
    &&& reads_back(EnvelopeView::Acknowledge { session_id: s, acknowledger: b_id, return_ping_id: 0 })
    &&& reads_back(solo_connection_init(s))
    &&& reads_back(in_session(s, PacketView::ExchangeInfoResponse(None, 1, 2)))
}

/// Solo bootstrap, the latencies: after six rounds in lockstep both
/// nodes note the round trip of two ticks in both directions between
/// them, and nothing else; the initiator has proposed to seed the
/// coordinate space, itself at the origin and the other node on the
/// positive Y axis at that distance.
#[verifier::rlimit(60)]
pub proof fn lemma_solo_bootstrap_latencies(
    a_id: NodeID,
    a_net: InternetID,
    b_id: NodeID,
    b_net: InternetID,
    session_ids: Seq<SessionID>,
)
    ensures
        ({
            let a = NodeView::fresh(a_id, a_net).enqueue(ActionView::Bootstrap(b_id, b_net));
            let b = NodeView::fresh(b_id, b_net);
            let s = next_id(session_ids);
            let end = lockstep(a, b, session_ids, 6);
            solo_reads_back(a_id, b_id, s) ==> {
                &&& end.0.route_map == Map::<(NodeID, NodeID), RouteScalar>::empty().insert(
                    (a_id, b_id),
                    2,
                ).insert((b_id, a_id), 2)
                &&& end.2.route_map == Map::<(NodeID, NodeID), RouteScalar>::empty().insert(
                    (b_id, a_id),
                    2,
                ).insert((a_id, b_id), 2)
                &&& end.0.node_list == Map::<RouteScalar, NodeID>::empty().insert(2, b_id)
                &&& end.2.node_list == Map::<RouteScalar, NodeID>::empty().insert(2, a_id)
                &&& end.0.sessions == Map::<SessionID, NodeID>::empty().insert(s, b_id)
                &&& end.2.sessions == Map::<SessionID, NodeID>::empty().insert(s, a_id)
                &&& end.0.has_session(b_id) && end.2.has_session(a_id)
                &&& end.0.remotes[b_id].session.unwrap().session_id == s
                &&& end.2.remotes[a_id].session.unwrap().session_id == s
                &&& end.0.remotes[b_id].session.unwrap().return_net_id == b_net
                &&& end.2.remotes[a_id].session.unwrap().return_net_id == a_net
                &&& end.0.remotes[b_id].session.unwrap().tracker.dist_avg == 2
                &&& end.2.remotes[a_id].session.unwrap().tracker.dist_avg == 2
                &&& end.0.route_coord is None && end.2.route_coord is None
                &&& end.0.remotes[b_id].route_coord is None && end.2.remotes[a_id].route_coord is None
                &&& end.0.actions_queue.len() == 0 && end.2.actions_queue.len() == 0
                &&& end.0.node_id == a_id && end.0.net_id == a_net
                &&& end.2.node_id == b_id && end.2.net_id == b_net
                &&& end.0.ticks == 6 && end.2.ticks == 6
                &&& end.1 == seq![
                    Emission {
                        dest: b_net,
                        envelope: in_session(s, PacketView::ProposeRouteCoords((0, 0), (0, 2))),
                    },
                ]
                &&& end.3 == Seq::<Emission>::empty()
            }
        }),
{
    let a = NodeView::fresh(a_id, a_net).enqueue(ActionView::Bootstrap(b_id, b_net));
    let b = NodeView::fresh(b_id, b_net);
    let s = next_id(session_ids);
    let none = Seq::<Emission>::empty();
    if solo_reads_back(a_id, b_id, s) {
        lemma_solo_bootstrap(a_id, a_net, b_id, b_net, session_ids);
        let r4 = lockstep(a, b, session_ids, 4);
        let a4 = r4.0;
        let b4 = r4.2;
        // round 5: the first packet of the session reaches the other node
        let init = solo_connection_init(s);
        let init_datagram = package_spec(init, a_net, b_net);
        lemma_carried_one(a_net, Emission { dest: b_net, envelope: init });
        lemma_carried_one(b_net, Emission { dest: a_net, envelope: init });
        assert(unpackage_spec(init_datagram.data) == Some(init));
        crate::tracker::lemma_average_bounded(0, 0, 2);
        reveal_with_fuel(on_packet, 3);
        reveal_with_fuel(on_packets, 3);
        assert(b4.remotes.len() == 1) by {
            assert(b4.remotes.dom() =~= Set::<NodeID>::empty().insert(a_id));
        }
        let opened = on_datagram(b4, init_datagram);
        assert(opened.result == Ok::<Option<(NodeID, PacketView)>, NodeError>(
            Some((a_id, PacketView::ConnectionInit(0, seq![PacketView::ExchangeInfo(None, 1, 2)]))),
        ));
        let packets = seq![PacketView::ExchangeInfo(None, 1, 2)];
        let handled = on_packet(b4, a_id, PacketView::ConnectionInit(0, packets));
        assert(packets.subrange(1, 1).len() == 0);
        assert(packets[0] == PacketView::ExchangeInfo(None, 1, 2));
        let answer = in_session(s, PacketView::ExchangeInfoResponse(None, 1, 2));
        assert(handled.result is Ok);
        assert(handled.out =~= seq![Emission { dest: a_net, envelope: answer }]);
        assert(handled.node.actions_queue.len() == 0);
        assert(handled.node.route_map =~= Map::<(NodeID, NodeID), RouteScalar>::empty().insert(
            (b_id, a_id),
            2,
        ).insert((a_id, b_id), 2));
        assert(handled.node.node_list =~= Map::<RouteScalar, NodeID>::empty().insert(2, a_id)) by {
            assert(!crate::node_list::lists(Map::<RouteScalar, NodeID>::empty(), a_id));
        }
        assert(receive(b4, init_datagram) == (handled.node, opened.out + handled.out));
        assert(opened.out + handled.out =~= handled.out);
        lemma_tick_of_one_datagram(b4, init_datagram, session_ids);
        lemma_idle_tick(a4, session_ids);
        let r5 = lockstep(a, b, session_ids, 5);
        assert(r5.0 == advanced(a4) && r5.1 == none);
        assert(r5.2 == advanced(handled.node));
        assert(r5.3 == seq![Emission { dest: a_net, envelope: answer }]);
        let a5 = r5.0;
        let b5 = r5.2;
        // round 6: the answer reaches the initiator, which proposes
        let answer_datagram = package_spec(answer, b_net, a_net);
        lemma_carried_one(b_net, Emission { dest: a_net, envelope: answer });
        assert(unpackage_spec(answer_datagram.data) == Some(answer));
        assert(a5.node_list.len() == 1) by {
            assert(a5.node_list.dom() =~= Set::<RouteScalar>::empty().insert(2));
        }
        let reopened = on_datagram(a5, answer_datagram);
        assert(reopened.result == Ok::<Option<(NodeID, PacketView)>, NodeError>(
            Some((b_id, PacketView::ExchangeInfoResponse(None, 1, 2))),
        ));
        let seeded = on_packet(a5, b_id, PacketView::ExchangeInfoResponse(None, 1, 2));
        let proposal = in_session(s, PacketView::ProposeRouteCoords((0, 0), (0, 2)));
        assert(seeded.out =~= seq![Emission { dest: b_net, envelope: proposal }]);
        assert(seeded.node.actions_queue.len() == 0);
        assert(seeded.node.route_map =~= Map::<(NodeID, NodeID), RouteScalar>::empty().insert(
            (a_id, b_id),
            2,
        ).insert((b_id, a_id), 2));
        assert(receive(a5, answer_datagram) == (seeded.node, reopened.out + seeded.out));
        assert(reopened.out + seeded.out =~= seeded.out);
        lemma_tick_of_one_datagram(a5, answer_datagram, session_ids);
        lemma_idle_tick(b5, session_ids);
        let r6 = lockstep(a, b, session_ids, 6);
        assert(r6.0 == advanced(seeded.node));
        assert(r6.2 == advanced(b5) && r6.3 == none);
        assert(r6.1 == seq![Emission { dest: b_net, envelope: proposal }]);
    }
}

/// Proposal bootstrap: after eight rounds in lockstep the initiator of a
/// solo bootstrap stands at the origin and holds the other node on the
/// positive Y axis at the round trip of two ticks, and the other node
/// holds the mirror of that: itself at that point, the initiator at the
/// origin. This holds provided the datagrams of the bootstrap, the
/// proposal and its answer are read back as they were written.
#[verifier::rlimit(60)]
pub proof fn lemma_proposal_bootstrap(
    a_id: NodeID,
    a_net: InternetID,
    b_id: NodeID,
    b_net: InternetID,
    session_ids: Seq<SessionID>,
)
    ensures
        ({
            let a = NodeView::fresh(a_id, a_net).enqueue(ActionView::Bootstrap(b_id, b_net));
            let b = NodeView::fresh(b_id, b_net);
            let s = next_id(session_ids);
            let end = lockstep(a, b, session_ids, 8);
            solo_reads_back(a_id, b_id, s) && reads_back(
                in_session(s, PacketView::ProposeRouteCoords((0, 0), (0, 2))),
            ) && reads_back(in_session(s, PacketView::ProposeRouteCoordsResponse((0, 0), (0, 2), true)))
                ==> {
                &&& end.0.route_coord == Some((0i64, 0i64))
                &&& end.0.remotes[b_id].route_coord == Some((0i64, 2i64))
                &&& end.2.route_coord == Some((0i64, 2i64))
                &&& end.2.remotes[a_id].route_coord == Some((0i64, 0i64))
                &&& end.1 == Seq::<Emission>::empty()
                &&& end.3 == Seq::<Emission>::empty()
                &&& end.0.actions_queue.len() == 0 && end.2.actions_queue.len() == 0
            }
        }),
{
    let a = NodeView::fresh(a_id, a_net).enqueue(ActionView::Bootstrap(b_id, b_net));
    let b = NodeView::fresh(b_id, b_net);
    let s = next_id(session_ids);
    let none = Seq::<Emission>::empty();
    let proposal = in_session(s, PacketView::ProposeRouteCoords((0, 0), (0, 2)));
    let answer = in_session(s, PacketView::ProposeRouteCoordsResponse((0, 0), (0, 2), true));
    if solo_reads_back(a_id, b_id, s) && reads_back(proposal) && reads_back(answer) {
        lemma_solo_bootstrap_latencies(a_id, a_net, b_id, b_net, session_ids);
        let r6 = lockstep(a, b, session_ids, 6);
        let a6 = r6.0;
        let b6 = r6.2;
        // round 7: the proposal is accepted
        let proposal_datagram = package_spec(proposal, a_net, b_net);
        lemma_carried_one(a_net, Emission { dest: b_net, envelope: proposal });
        lemma_carried_one(b_net, Emission { dest: a_net, envelope: answer });
        assert(unpackage_spec(proposal_datagram.data) == Some(proposal));
        let opened = on_datagram(b6, proposal_datagram);
        assert(opened.result == Ok::<Option<(NodeID, PacketView)>, NodeError>(
            Some((a_id, PacketView::ProposeRouteCoords((0, 0), (0, 2)))),
        ));
        let accepted = on_packet(b6, a_id, PacketView::ProposeRouteCoords((0, 0), (0, 2)));
        assert(accepted.out =~= seq![Emission { dest: a_net, envelope: answer }]);
        assert(accepted.node.actions_queue.len() == 0);
        assert(receive(b6, proposal_datagram) == (accepted.node, opened.out + accepted.out));
        assert(opened.out + accepted.out =~= accepted.out);
        lemma_tick_of_one_datagram(b6, proposal_datagram, session_ids);
        lemma_idle_tick(a6, session_ids);
        let r7 = lockstep(a, b, session_ids, 7);
        assert(r7.0 == advanced(a6) && r7.1 == none);
        assert(r7.2 == advanced(accepted.node));
        assert(r7.3 == seq![Emission { dest: a_net, envelope: answer }]);
        let a7 = r7.0;
        let b7 = r7.2;
        // round 8: the answer places the initiator
        let answer_datagram = package_spec(answer, b_net, a_net);
        assert(unpackage_spec(answer_datagram.data) == Some(answer));
        let reopened = on_datagram(a7, answer_datagram);
        assert(reopened.result == Ok::<Option<(NodeID, PacketView)>, NodeError>(
            Some((b_id, PacketView::ProposeRouteCoordsResponse((0, 0), (0, 2), true))),
        ));
        let placed = on_packet(a7, b_id, PacketView::ProposeRouteCoordsResponse((0, 0), (0, 2), true));
        assert(placed.out =~= none);
        assert(placed.node.actions_queue.len() == 0);
        assert(receive(a7, answer_datagram) == (placed.node, reopened.out + placed.out));
        assert(reopened.out + placed.out =~= none);
        lemma_tick_of_one_datagram(a7, answer_datagram, session_ids);
        lemma_idle_tick(b7, session_ids);
        let r8 = lockstep(a, b, session_ids, 8);
        assert(r8.0 == advanced(placed.node) && r8.1 == none);
        assert(r8.2 == advanced(b7) && r8.3 == none);
    }
}

/// Whether `datagram` reaches the node `n` and carries `packet` through
/// the session `session` of the remote `from`.
pub open spec fn arrives_from(
    n: NodeView,
    datagram: Datagram,
    session: SessionID,
    from: NodeID,
    packet: PacketView,
) -> bool {
    &&& datagram.dest_addr == n.net_id
    &&& unpackage_spec(datagram.data) == Some(in_session(session, packet))
    &&& n.sessions.contains_key(session)
    &&& n.sessions[session] == from
}

/// A wish to be pinged brings exactly one handshake: a node that is
/// placed, has a session with the relay and has nothing to do with the
/// requester yet answers the tick in which the `WantPing` arrives with
/// one handshake to the requester's address, under the first of the
/// session identifiers, and keeps an `AcceptWantPing` waiting that names
/// the relay and the latency measured to it.
#[verifier::rlimit(60)]
pub proof fn lemma_want_ping_brings_one_handshake(
    n: NodeView,
    datagram: Datagram,
    session: SessionID,
    relay: NodeID,
    requester: NodeID,
    address: InternetID,
    session_ids: Seq<SessionID>,
)
    requires
        n.route_coord is Some,
        n.has_session(relay),
        requester != n.node_id,
        n.remote_or_fresh(requester).session is None,
        n.remote_or_fresh(requester).handshake_pending is None,
        n.actions_queue.len() == 0,
    ensures
        arrives_from(n, datagram, session, relay, PacketView::WantPing(requester, address)) ==> {
            let end = tick(n, seq![datagram], session_ids);
            let distance = n.remotes[relay].session.unwrap().tracker.dist_avg;
            &&& end.1 == seq![
                Emission {
                    dest: address,
                    envelope: EnvelopeView::Handshake {
                        recipient: requester,
                        session_id: next_id(session_ids),
                        signer: n.node_id,
                    },
                },
            ]
            &&& end.0.remotes.contains_key(requester)
            &&& end.0.remotes[requester].session is None
            &&& end.0.remotes[requester].handshake_pending == Some(
                PendingView {
                    session_id: next_id(session_ids),
                    time_sent: n.ticks,
                    initial_packets: seq![PacketView::AcceptWantPing(relay, distance)],
                },
            )
            &&& end.0.actions_queue.len() == 0
        },
{
    let packet = PacketView::WantPing(requester, address);
    if arrives_from(n, datagram, session, relay, packet) {
        let distance = n.remotes[relay].session.unwrap().tracker.dist_avg;
        let connect = ActionView::Connect(
            requester,
            address,
            seq![PacketView::AcceptWantPing(relay, distance)],
        );
        let opened = on_datagram(n, datagram);
        assert(opened.result == Ok::<Option<(NodeID, PacketView)>, NodeError>(Some((relay, packet))));
        let handled = on_packet(n, relay, packet);
        assert(handled.out =~= Seq::<Emission>::empty());
        assert(handled.node.actions_queue =~= seq![connect]);
        let received = receive(n, datagram);
        assert(received.0 == handled.node);
        assert(received.1 =~= Seq::<Emission>::empty());
        let batch = seq![datagram];
        assert(batch[0] == datagram);
        assert(batch.subrange(1, 1).len() == 0);
        assert(receive_all(received.0, batch.subrange(1, 1)) == (received.0, Seq::<Emission>::empty()));
        assert(receive_all(n, batch).0 == received.0);
        assert(receive_all(n, batch).1 =~= Seq::<Emission>::empty());
        let emptied = NodeView { actions_queue: Seq::empty(), ..received.0 };
        let step = on_action(emptied, connect, next_id(session_ids));
        assert(!emptied.has_session(requester));
        let rest_ids = if session_ids.len() > 0 {
            session_ids.subrange(1, session_ids.len() as int)
        } else {
            session_ids
        };
        let queue = received.0.actions_queue;
        assert(queue[0] == connect);
        assert(queue.subrange(1, 1).len() == 0);
        assert(run_actions(requeued(step), queue.subrange(1, 1), rest_ids) == (
            requeued(step),
            Seq::<Emission>::empty(),
        ));
        assert(step.out + Seq::<Emission>::empty() =~= step.out);
        assert(run_actions(emptied, queue, session_ids) == (requeued(step), step.out));
        assert(Seq::<Emission>::empty() + step.out =~= step.out);
        assert(tick(n, batch, session_ids).1 =~= step.out);
    }
}

/// A second wish adds no handshake: while a handshake with the requester
/// is pending, a `WantPing` for it changes neither the pending handshake
/// nor the queue, and the tick in which it arrives sends nothing.
pub proof fn lemma_second_want_ping_adds_none(
    n: NodeView,
    datagram: Datagram,
    session: SessionID,
    relay: NodeID,
    requester: NodeID,
    address: InternetID,
    session_ids: Seq<SessionID>,
)
    requires
        n.has_session(relay),
        n.remotes.contains_key(requester),
        n.remotes[requester].handshake_pending is Some,
        n.remotes[requester].session is None,
        n.actions_queue.len() == 0,
    ensures
        arrives_from(n, datagram, session, relay, PacketView::WantPing(requester, address)) ==> {
            let end = tick(n, seq![datagram], session_ids);
            &&& end.1 == Seq::<Emission>::empty()
            &&& end.0.remotes.contains_key(requester)
            &&& end.0.remotes[requester] == n.remotes[requester]
            &&& end.0.actions_queue.len() == 0
        },
{
    let packet = PacketView::WantPing(requester, address);
    if arrives_from(n, datagram, session, relay, packet) {
        let opened = on_datagram(n, datagram);
        assert(opened.result == Ok::<Option<(NodeID, PacketView)>, NodeError>(Some((relay, packet))));
        let handled = on_packet(n, relay, packet);
        assert(handled.out =~= Seq::<Emission>::empty());
        assert(handled.node.actions_queue.len() == 0);
        assert(receive(n, datagram).1 =~= Seq::<Emission>::empty());
        lemma_tick_of_one_datagram(n, datagram, session_ids);
    }
}

/// A tick that takes in one datagram is the arrival of that datagram,
/// then the turn of whatever is queued, then the advance of the clock;
/// it sends what the arrival sends and then what the queue sends.
pub proof fn lemma_tick_of_one_datagram_then_queue(
    n: NodeView,
    datagram: Datagram,
    session_ids: Seq<SessionID>,
)
    ensures
        ({
            let received = receive(n, datagram);
            let ran = crate::model::run_queue(received.0, session_ids);
            tick(n, seq![datagram], session_ids) == (advanced(ran.0), received.1 + ran.1)
        }),
{
    let batch = seq![datagram];
    let first = receive(n, datagram);
    assert(batch[0] == datagram);
    assert(batch.subrange(1, 1).len() == 0);
    assert(receive_all(first.0, batch.subrange(1, 1)) == (first.0, Seq::<Emission>::empty()));
    assert(first.1 + Seq::<Emission>::empty() =~= first.1);
    assert(receive_all(n, batch) == (first.0, first.1));
}

/// Ping fan-out in a tick, whatever is queued: the tick in which a
/// `RequestPings` of `from` arrives sends, before anything the queue
/// sends, at most [`MAX_REQUEST_PINGS`] datagrams and no more than were
/// asked for, each a `WantPing` that names `from` and its address and
/// goes through the session of a node other than `from`.
pub proof fn lemma_fan_out_in_a_tick(
    n: NodeView,
    datagram: Datagram,
    session: SessionID,
    from: NodeID,
    requests: usize,
    session_ids: Seq<SessionID>,
)
    requires
        n.has_session(from),
    ensures
        arrives_from(n, datagram, session, from, PacketView::RequestPings(requests)) ==> {
            let received = receive(n, datagram);
            let ran = crate::model::run_queue(received.0, session_ids);
            let wanted = PacketView::WantPing(from, n.remotes[from].session.unwrap().return_net_id);
            &&& tick(n, seq![datagram], session_ids).1 == received.1 + ran.1
            &&& received.1.len() <= request_size(requests)
            &&& received.1.len() <= MAX_REQUEST_PINGS
            &&& received.0.actions_queue == n.actions_queue
            &&& forall|i: int|
                0 <= i < received.1.len() ==> exists|node: NodeID|
                    n.has_session(node) && n.remotes[node].node_id != from && #[trigger] received.1[i]
                        == through(received.0.remotes[node].session.unwrap(), wanted)
        },
{
    let packet = PacketView::RequestPings(requests);
    if arrives_from(n, datagram, session, from, packet) {
        lemma_tick_of_one_datagram_then_queue(n, datagram, session_ids);
        let opened = on_datagram(n, datagram);
        assert(opened.result == Ok::<Option<(NodeID, PacketView)>, NodeError>(Some((from, packet))));
        let remote = n.remotes[from];
        let before = remote.session.unwrap();
        let stamped = n.with_remote(
            from,
            RemoteView { session: Some(before.stamp(packet.kind(), n.ticks)), ..remote },
        );
        let elapsed = before.elapsed(packet.kind(), n.ticks);
        let handled = on_request_pings(stamped, from, requests, elapsed);
        assert(on_packet(n, from, packet) == handled);
        lemma_request_pings(stamped, from, requests, elapsed);
        let received = receive(n, datagram);
        assert(received.1 =~= handled.out);
        assert(received.0 == stamped);
        let wanted = PacketView::WantPing(from, before.return_net_id);
        assert forall|i: int| 0 <= i < received.1.len() implies exists|node: NodeID|
            n.has_session(node) && n.remotes[node].node_id != from && #[trigger] received.1[i] == through(
                received.0.remotes[node].session.unwrap(),
                wanted,
            ) by {
            let node = choose|node: NodeID|
                stamped.has_session(node) && stamped.remotes[node].node_id != from && handled.out[i]
                    == through(stamped.remotes[node].session.unwrap(), wanted);
            assert(n.has_session(node) && n.remotes[node].node_id != from);
        }
    }
}

} // verus!
