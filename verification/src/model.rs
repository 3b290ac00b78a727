//! The node as a state machine over mathematical values.
//!
//! [`NodeView`] is the content of a node; the functions of this module say
//! what each datagram, packet and action makes of it and what it sends.
//! The executable node is held to them, and the laws of the protocol are
//! proved of them.

use vstd::prelude::*;
use crate::action::{ActionView, NodeActionCondition};
use crate::envelope::{package_spec, unpackage_spec, Datagram, EnvelopeView};
use crate::node_list::{ascending, each_once, listed};
use crate::packet::PacketView;
use crate::pairing::{one_to_one, pair_insert};
use crate::remote::{PendingView, RemoteView};
use crate::session::{rate_limited, SessionView};
use crate::tracker::round_trip;
use crate::types::{
    InternetID, NodeError, NodeID, PingID, RemoteNodeError, RouteCoord, RouteScalar, SessionError,
    SessionID, MAX_REQUEST_PINGS, TARGET_PEER_COUNT,
};

verus! {

/// An envelope on its way to a substrate address.
pub struct Emission {
    pub dest: InternetID,
    pub envelope: EnvelopeView,
}

/// Mathematical content of a node.
pub struct NodeView {
    pub node_id: NodeID,
    pub net_id: InternetID,
    pub deux_ex_data: Option<RouteCoord>,
    pub route_coord: Option<RouteCoord>,
    pub ticks: usize,
    pub remotes: Map<NodeID, RemoteView>,
    pub sessions: Map<SessionID, NodeID>,
    pub node_list: Map<RouteScalar, NodeID>,
    pub peer_list: Map<NodeID, RouteCoord>,
    pub route_map: Map<(NodeID, NodeID), RouteScalar>,
    pub actions_queue: Seq<ActionView>,
}

/// Outcome of one step: the node after it, what it sent, and its result.
pub struct Step<T> {
    pub node: NodeView,
    pub out: Seq<Emission>,
    pub result: Result<T, NodeError>,
}

/// The datagrams that carry `out` from the address `src`.
pub open spec fn carried(src: InternetID, out: Seq<Emission>) -> Seq<Datagram> {
    Seq::new(out.len(), |i: int| package_spec(out[i].envelope, src, out[i].dest))
}

/// The latency as a coordinate component; a latency beyond the largest
/// coordinate counts as the largest.
pub open spec fn scalar_coord(d: RouteScalar) -> i64 {
    if d <= i64::MAX {
        d as i64
    } else {
        i64::MAX
    }
}

/// The packets that waited for a handshake, as they are sent once it is
/// acknowledged: every `ExchangeInfo` among them carries the node's
/// coordinate, the number of remotes it knows and the measured latency.
pub open spec fn refreshed(
    packets: Seq<PacketView>,
    coord: Option<RouteCoord>,
    known: usize,
    distance: RouteScalar,
) -> Seq<PacketView> {
    Seq::new(
        packets.len(),
        |i: int|
            match packets[i] {
                PacketView::ExchangeInfo(..) => PacketView::ExchangeInfo(coord, known, distance),
                other => other,
            },
    )
}

/// Whether the session of a remote is in order at tick `now`: its ping
/// bookkeeping is well formed, and neither an outstanding ping nor the
/// arrival of a packet lies in the future.
pub open spec fn session_wf(session: SessionView, now: usize) -> bool {
    &&& session.tracker.wf()
    &&& forall|id: PingID| #[trigger]
        session.tracker.pending.contains_key(id) ==> session.tracker.pending[id] <= now
    &&& forall|kind: u8| #[trigger]
        session.last_packet_time.contains_key(kind) ==> session.last_packet_time[kind] <= now
}

/// Whether the record kept under `node` is in order at tick `now`: it
/// names that node, its session, if it has one, is in order, and its
/// pending handshake, if it has one, was sent by now or is a relayed
/// one, stamped with the last tick there is.
pub open spec fn remote_wf(node: NodeID, remote: RemoteView, now: usize) -> bool {
    &&& remote.node_id == node
    &&& remote.session is Some ==> session_wf(remote.session.unwrap(), now)
    &&& remote.handshake_pending is Some ==> remote.handshake_pending.unwrap().time_sent <= now
        || remote.handshake_pending.unwrap().time_sent == usize::MAX
}

/// Whether a remote is past its handshake: it does not hold a pending
/// handshake beside an active session.
pub open spec fn settled(remote: RemoteView) -> bool {
    !(remote.handshake_pending is Some && remote.session is Some)
}

/// Whether the pending handshake and the session of a remote, where it
/// holds both, carry the same session identifier.
pub open spec fn agrees(remote: RemoteView) -> bool {
    remote.handshake_pending is Some && remote.session is Some
        ==> remote.handshake_pending.unwrap().session_id == remote.session.unwrap().session_id
}

impl NodeView {
    /// What holds of a node at every tick boundary.
    ///
    /// - Every record is kept under the node it names; its ping
    ///   bookkeeping is well formed, and nothing it has timed lies in the future.
    /// - No remote holds a pending handshake beside a session: a session
    ///   comes either from a handshake that is accepted, which takes the
    ///   place of a pending one, or from the acknowledgement that consumes
    ///   the pending one, and no handshake starts while a session is active.
    /// - The session table is one-to-one, and every session in it is the
    ///   active session of the node it is paired with.
    /// - Every tested node is listed once, has a session, and has a
    ///   latency noted from this node: it has completed a ping round trip.
    /// - The peer list is one-to-one and holds at most
    ///   [`TARGET_PEER_COUNT`] peers.
    pub open spec fn wf(self) -> bool {
        &&& self.remotes.dom().finite()
        &&& forall|node: NodeID| #[trigger]
            self.remotes.contains_key(node) ==> remote_wf(node, self.remotes[node], self.ticks)
        &&& self.all_settled()
        &&& one_to_one(self.sessions)
        &&& forall|session: SessionID| #[trigger]
            self.sessions.contains_key(session) ==> self.has_session(self.sessions[session])
                && self.remotes[self.sessions[session]].session.unwrap().session_id == session
        &&& self.node_list.dom().finite()
        &&& each_once(self.node_list)
        &&& forall|distance: RouteScalar| #[trigger]
            self.node_list.contains_key(distance) ==> self.has_session(self.node_list[distance])
                && self.route_map.contains_key((self.node_id, self.node_list[distance]))
        &&& self.peer_list.dom().finite()
        &&& self.peer_list.len() <= TARGET_PEER_COUNT
        &&& one_to_one(self.peer_list)
    }

    /// Whether no remote holds a pending handshake beside a session.
    pub open spec fn all_settled(self) -> bool {
        forall|node: NodeID| #[trigger] self.remotes.contains_key(node) ==> settled(self.remotes[node])
    }

    /// Whether no remote holds a pending handshake beside a session under
    /// another identifier.
    pub open spec fn pendings_agree(self) -> bool {
        forall|node: NodeID| #[trigger] self.remotes.contains_key(node) ==> agrees(self.remotes[node])
    }

    /// Whether the latency noted from this node to a remote is the running
    /// average of its session, for every remote whose session has taken
    /// exactly one sample. Later samples are noted as they come, while the
    /// average lags behind them.
    pub open spec fn first_samples_noted(self) -> bool {
        forall|node: NodeID| #[trigger]
            self.route_map.contains_key((self.node_id, node)) && self.has_session(node)
                && self.remotes[node].session.unwrap().tracker.ping_count == 1 ==> self.route_map[(
                self.node_id,
                node,
            )] == self.remotes[node].session.unwrap().tracker.dist_avg
    }

    /// Whether no session is paired with this node's own identity.
    pub open spec fn no_own_session(self) -> bool {
        forall|session: SessionID| #[trigger]
            self.sessions.contains_key(session) ==> self.sessions[session] != self.node_id
    }

    /// A node that knows nothing but its own identity and address.
    pub open spec fn fresh(node_id: NodeID, net_id: InternetID) -> NodeView {
        NodeView {
            node_id,
            net_id,
            deux_ex_data: None,
            route_coord: None,
            ticks: 0,
            remotes: Map::empty(),
            sessions: Map::empty(),
            node_list: Map::empty(),
            peer_list: Map::empty(),
            route_map: Map::empty(),
            actions_queue: Seq::empty(),
        }
    }

    /// A step that changes nothing, sends nothing and succeeds with `value`.
    pub open spec fn done<T>(self, value: T) -> Step<T> {
        Step { node: self, out: Seq::empty(), result: Ok(value) }
    }

    /// A step that leaves this node, sends nothing and fails with `error`.
    pub open spec fn fail<T>(self, error: NodeError) -> Step<T> {
        Step { node: self, out: Seq::empty(), result: Err(error) }
    }

    /// A step that leaves this node, sends `emission` and succeeds with `value`.
    pub open spec fn send<T>(self, emission: Emission, value: T) -> Step<T> {
        Step { node: self, out: seq![emission], result: Ok(value) }
    }

    /// The record of `node`, or a fresh one where none is kept yet.
    pub open spec fn remote_or_fresh(self, node: NodeID) -> RemoteView {
        if self.remotes.contains_key(node) {
            self.remotes[node]
        } else {
            RemoteView::fresh(node)
        }
    }

    /// Whether this node answers a handshake of `signer` by standing by
    /// its own: it has a handshake pending with the signer, and its
    /// identifier is not the smaller of the two.
    pub open spec fn stands_by_own_handshake(self, signer: NodeID) -> bool {
        let record = self.remote_or_fresh(signer);
        record.handshake_pending is Some && !(self.node_id < record.node_id)
    }

    /// Whether a session with `node` is active.
    pub open spec fn has_session(self, node: NodeID) -> bool {
        self.remotes.contains_key(node) && self.remotes[node].session is Some
    }

    /// This node with `remote` kept as the record of `node`.
    pub open spec fn with_remote(self, node: NodeID, remote: RemoteView) -> NodeView {
        NodeView { remotes: self.remotes.insert(node, remote), ..self }
    }

    /// This node with `action` at the end of its queue.
    pub open spec fn enqueue(self, action: ActionView) -> NodeView {
        NodeView { actions_queue: self.actions_queue.push(action), ..self }
    }

    /// This node with the latency from `a` to `b` noted as `weight`.
    pub open spec fn with_edge(self, a: NodeID, b: NodeID, weight: RouteScalar) -> NodeView {
        NodeView { route_map: self.route_map.insert((a, b), weight), ..self }
    }

    /// This node with `node` listed as tested at `distance`.
    pub open spec fn with_listed(self, distance: RouteScalar, node: NodeID) -> NodeView {
        NodeView { node_list: listed(self.node_list, distance, node), ..self }
    }

    /// This node with `session` paired with `node` in the session table.
    pub open spec fn with_session_pair(self, session: SessionID, node: NodeID) -> NodeView {
        NodeView { sessions: pair_insert(self.sessions, session, node), ..self }
    }

    /// The number of remotes on record.
    pub open spec fn known(self) -> usize {
        self.remotes.len() as usize
    }

    /// The number of tested nodes.
    pub open spec fn tested(self) -> usize {
        self.node_list.len() as usize
    }

    /// Whether `condition` holds of this node.
    pub open spec fn holds(self, condition: NodeActionCondition) -> bool {
        match condition {
            NodeActionCondition::Session(node) => self.has_session(node),
            NodeActionCondition::RunAt(tick) => self.ticks >= tick,
        }
    }
}

/// The emission that carries `packet` through `session`.
pub open spec fn through(session: SessionView, packet: PacketView) -> Emission {
    Emission { dest: session.return_net_id, envelope: session.envelope(packet) }
}

/// The error of a remote that has no session.
pub open spec fn no_session(node: NodeID) -> NodeError {
    NodeError::RemoteNodeError(RemoteNodeError::NoSessionError { node_id: node })
}

/// The error of reaching for the session of `node` where there is none:
/// the node is unknown, or known without a session.
pub open spec fn out_of_reach(n: NodeView, node: NodeID) -> NodeError {
    if !n.remotes.contains_key(node) {
        NodeError::NoRemoteError { node_id: node }
    } else {
        no_session(n.remotes[node].node_id)
    }
}

/// Sending `packet` to `node` through its session: fails where the node is
/// unknown or has no session.
pub open spec fn send_packet(n: NodeView, node: NodeID, packet: PacketView) -> Step<()> {
    if n.has_session(node) {
        n.send(through(n.remotes[node].session.unwrap(), packet), ())
    } else {
        n.fail(out_of_reach(n, node))
    }
}

/// The answer to ping `id` arrives from `from`, which has a session: the
/// tracker retires the ping and the latency from this node to `from` is
/// noted as the sample. An identifier that is not outstanding is an error.
pub open spec fn on_ping_answer(n: NodeView, from: NodeID, id: PingID) -> Step<RouteScalar> {
    let remote = n.remotes[from];
    let session = remote.session.unwrap();
    if !session.tracker.pending.contains_key(id) {
        n.fail(NodeError::SessionError(SessionError::UnknownPingID { ping_id: id }))
    } else {
        let sample = round_trip(session.tracker.pending[id], n.ticks);
        let tracker = session.tracker.acknowledge_ping(id, n.ticks);
        let after = RemoteView { session: Some(SessionView { tracker, ..session }), ..remote };
        n.with_remote(from, after).with_edge(n.node_id, from, sample).done(sample)
    }
}

/// `ExchangeInfo` from `from`: its coordinate and its latency to this node
/// are noted, and this node answers with its own.
pub open spec fn on_exchange_info(
    n: NodeView,
    from: NodeID,
    coord: Option<RouteCoord>,
    ping: RouteScalar,
) -> Step<()> {
    let remote = n.remotes[from];
    let session = remote.session.unwrap();
    let answer = PacketView::ExchangeInfoResponse(n.route_coord, n.known(), session.tracker.dist_avg);
    n.with_edge(from, n.node_id, ping).with_remote(
        from,
        RemoteView { route_coord: coord, ..remote },
    ).send(through(session, answer), ())
}

/// `ExchangeInfoResponse` from `from`. Where neither side has a
/// coordinate and the remote knows at most one node, this node seeds the
/// coordinate space: itself at the origin, the remote on the positive Y
/// axis at the measured latency. Otherwise it computes its coordinate, or
/// asks for more pings while it has tested fewer nodes than it wants peers.
pub open spec fn on_exchange_info_response(
    n: NodeView,
    from: NodeID,
    coord: Option<RouteCoord>,
    peer_count: usize,
    ping: RouteScalar,
) -> Step<()> {
    let remote = n.remotes[from];
    let session = remote.session.unwrap();
    let tested = n.tested();
    let noted = n.with_edge(from, n.node_id, ping).with_remote(
        from,
        RemoteView { route_coord: coord, ..remote },
    );
    if peer_count <= 1 && coord is None && n.route_coord is None {
        let proposal = PacketView::ProposeRouteCoords((0, 0), (0, scalar_coord(session.tracker.dist_avg)));
        noted.send(through(session, proposal), ())
    } else if tested == peer_count && tested < TARGET_PEER_COUNT {
        noted.enqueue(ActionView::TryCalcRouteCoord).done(())
    } else if tested < TARGET_PEER_COUNT {
        noted.send(through(session, PacketView::RequestPings(TARGET_PEER_COUNT)), ())
    } else {
        noted.enqueue(ActionView::TryCalcRouteCoord).done(())
    }
}

/// `ProposeRouteCoords` from `from`, with the coordinate the proposer
/// takes and the one it offers: a node without a coordinate takes the
/// one offered to it and notes the proposer's; a node that has one
/// declines. Either way it answers with the two coordinates as they came.
pub open spec fn on_propose(n: NodeView, from: NodeID, theirs: RouteCoord, ours: RouteCoord) -> Step<()> {
    let remote = n.remotes[from];
    let session = remote.session.unwrap();
    if n.route_coord is None {
        NodeView { route_coord: Some(ours), ..n }.with_remote(
            from,
            RemoteView { route_coord: Some(theirs), ..remote },
        ).send(through(session, PacketView::ProposeRouteCoordsResponse(theirs, ours, true)), ())
    } else {
        n.send(through(session, PacketView::ProposeRouteCoordsResponse(theirs, ours, false)), ())
    }
}

/// `ProposeRouteCoordsResponse` from `from`, with the two coordinates of
/// the proposal as this node sent them: on acceptance this node takes
/// the coordinate it proposed for itself, the first, and notes the one it
/// offered to the remote, the second.
pub open spec fn on_propose_response(
    n: NodeView,
    from: NodeID,
    ours: RouteCoord,
    theirs: RouteCoord,
    accepted: bool,
) -> Step<()> {
    if accepted {
        NodeView { route_coord: Some(ours), ..n }.with_remote(
            from,
            RemoteView { route_coord: Some(theirs), ..n.remotes[from] },
        ).done(())
    } else {
        n.done(())
    }
}

/// Sends `packet` to each of `targets` but `skip`, in order, and stops
/// with an error at the first that is unknown or has no session.
pub open spec fn fan_out(
    n: NodeView,
    skip: NodeID,
    targets: Seq<(RouteScalar, NodeID)>,
    packet: PacketView,
) -> (Seq<Emission>, Result<(), NodeError>)
    decreases targets.len(),
{
    if targets.len() == 0 {
        (Seq::empty(), Ok(()))
    } else {
        let node = targets[0].1;
        let rest = targets.subrange(1, targets.len() as int);
        if !n.remotes.contains_key(node) {
            (Seq::empty(), Err(NodeError::NoRemoteError { node_id: node }))
        } else if n.remotes[node].node_id == skip {
            fan_out(n, skip, rest, packet)
        } else {
            match n.remotes[node].session {
                None => (Seq::empty(), Err(no_session(n.remotes[node].node_id))),
                Some(session) => {
                    let later = fan_out(n, skip, rest, packet);
                    (seq![through(session, packet)] + later.0, later.1)
                },
            }
        }
    }
}

/// The number of nodes that a request for `requests` pings reaches.
pub open spec fn request_size(requests: usize) -> usize {
    if requests <= MAX_REQUEST_PINGS {
        requests
    } else {
        MAX_REQUEST_PINGS
    }
}

/// `RequestPings` from `from`, `elapsed` ticks after its last such
/// request: unless the rate limit drops it, the nearest tested nodes are
/// told that `from` wants to be pinged.
pub open spec fn on_request_pings(
    n: NodeView,
    from: NodeID,
    requests: usize,
    elapsed: Option<usize>,
) -> Step<()> {
    let session = n.remotes[from].session.unwrap();
    if rate_limited(elapsed) {
        n.done(())
    } else {
        let nearest = ascending(n.node_list);
        let targets = if request_size(requests) <= nearest.len() {
            nearest.subrange(0, request_size(requests) as int)
        } else {
            nearest
        };
        let sent = fan_out(n, from, targets, PacketView::WantPing(from, session.return_net_id));
        Step { node: n, out: sent.0, result: sent.1 }
    }
}

/// `WantPing` from `from`: a node that has a coordinate connects to the
/// requester, unless it is the requester itself or has a session or a
/// pending handshake with it. The requester is put on record either way.
pub open spec fn on_want_ping(n: NodeView, from: NodeID, requester: NodeID, address: InternetID) -> Step<()> {
    let session = n.remotes[from].session.unwrap();
    if n.node_id == requester || n.route_coord is None {
        n.done(())
    } else {
        let record = n.remote_or_fresh(requester);
        let noted = n.with_remote(requester, record);
        if record.session is None && record.handshake_pending is None {
            noted.enqueue(
                ActionView::Connect(
                    requester,
                    address,
                    seq![PacketView::AcceptWantPing(from, session.tracker.dist_avg)],
                ),
            ).done(())
        } else {
            noted.done(())
        }
    }
}

/// `AcceptWantPing` from `from`, `elapsed` ticks after its last one: the
/// latency between `from` and the node that relayed the request is noted
/// as hearsay; unless the rate limit drops the packet, this node
/// exchanges information with `from`.
pub open spec fn on_accept_want_ping(
    n: NodeView,
    from: NodeID,
    relay: NodeID,
    distance: RouteScalar,
    elapsed: Option<usize>,
) -> Step<()> {
    let session = n.remotes[from].session.unwrap();
    let noted = n.with_edge(from, relay, distance);
    if rate_limited(elapsed) {
        noted.done(())
    } else {
        noted.send(
            through(session, PacketView::ExchangeInfo(n.route_coord, n.tested(), session.tracker.dist_avg)),
            (),
        )
    }
}

/// Puts `second` behind `first`: the node and result of `second`, and
/// what both sent.
pub open spec fn then_step<T>(first: Seq<Emission>, second: Step<T>) -> Step<T> {
    Step { node: second.node, out: first + second.out, result: second.result }
}

/// A packet arrives from `from` through its session.
pub open spec fn on_packet(n: NodeView, from: NodeID, packet: PacketView) -> Step<()>
    decreases packet,
{
    if !n.has_session(from) {
        n.fail(out_of_reach(n, from))
    } else {
        let remote = n.remotes[from];
        let session = remote.session.unwrap();
        let elapsed = session.elapsed(packet.kind(), n.ticks);
        let stamped = n.with_remote(
            from,
            RemoteView { session: Some(session.stamp(packet.kind(), n.ticks)), ..remote },
        );
        match packet {
            PacketView::ConnectionInit(id, packets) => {
                let answered = on_ping_answer(stamped, from, id);
                match answered.result {
                    Ok(sample) => on_packets(answered.node.with_listed(sample, from), from, packets),
                    Err(e) => stamped.fail(e),
                }
            },
            PacketView::Ping(id) => stamped.send(through(session, PacketView::PingResponse(id)), ()),
            PacketView::PingResponse(id) => {
                let answered = on_ping_answer(stamped, from, id);
                match answered.result {
                    Ok(_) => answered.node.done(()),
                    Err(e) => stamped.fail(e),
                }
            },
            PacketView::ExchangeInfo(coord, _, ping) => on_exchange_info(stamped, from, coord, ping),
            PacketView::ExchangeInfoResponse(coord, peer_count, ping) => on_exchange_info_response(
                stamped,
                from,
                coord,
                peer_count,
                ping,
            ),
            PacketView::ProposeRouteCoords(theirs, ours) => on_propose(stamped, from, theirs, ours),
            PacketView::ProposeRouteCoordsResponse(ours, theirs, accepted) => on_propose_response(
                stamped,
                from,
                ours,
                theirs,
                accepted,
            ),
            PacketView::RequestPings(requests) => on_request_pings(stamped, from, requests, elapsed),
            PacketView::WantPing(requester, address) => on_want_ping(stamped, from, requester, address),
            PacketView::AcceptWantPing(relay, distance) => on_accept_want_ping(
                stamped,
                from,
                relay,
                distance,
                elapsed,
            ),
            PacketView::PeerNotify(rank) => stamped.with_remote(
                from,
                RemoteView { peer_rank: Some(rank), ..stamped.remotes[from] },
            ).done(()),
            PacketView::Traverse(..) => stamped.done(()),
        }
    }
}

/// Packets arrive from `from`, one after the other; the first that fails
/// ends the series.
pub open spec fn on_packets(n: NodeView, from: NodeID, packets: Seq<PacketView>) -> Step<()>
    decreases packets,
{
    if packets.len() == 0 {
        n.done(())
    } else {
        let first = on_packet(n, from, packets[0]);
        if first.result is Err {
            first
        } else {
            then_step(first.out, on_packets(first.node, from, packets.subrange(1, packets.len() as int)))
        }
    }
}

/// A handshake of `signer`, sent from `src`, arrives.
///
/// Where this node has a handshake of its own pending with the signer,
/// the two are tied and the identifiers break the tie: the node with
/// the smaller identifier gives its own handshake up and accepts the
/// signer's; the other stands by its own, leaves everything as it is and
/// answers nothing, and gets its session when its own handshake is
/// acknowledged.
///
/// A handshake that is accepted installs the session, with one ping
/// issued for the initiator to answer, and is acknowledged.
pub open spec fn on_handshake(n: NodeView, src: InternetID, session_id: SessionID, signer: NodeID) -> Step<
    Option<(NodeID, PacketView)>,
> {
    if n.stands_by_own_handshake(signer) {
        n.done(None)
    } else {
        let record = n.remote_or_fresh(signer);
        let fresh = SessionView::fresh(session_id, src);
        let session = SessionView { tracker: fresh.tracker.gen_ping(n.ticks), ..fresh };
        let after = RemoteView { handshake_pending: None, session: Some(session), ..record };
        n.with_remote(signer, after).with_session_pair(session_id, signer).send(
            Emission {
                dest: src,
                envelope: EnvelopeView::Acknowledge {
                    session_id,
                    acknowledger: n.node_id,
                    return_ping_id: fresh.tracker.next_ping_id,
                },
            },
            None,
        )
    }
}

/// The session that an acknowledged handshake installs: its only sample
/// is the time between the handshake and its acknowledgement.
pub open spec fn acknowledged_session(
    session_id: SessionID,
    src: InternetID,
    time_sent: usize,
    now: usize,
) -> SessionView {
    let fresh = SessionView::fresh(session_id, src);
    SessionView { tracker: fresh.tracker.gen_ping(time_sent).acknowledge_ping(0, now), ..fresh }
}

/// An acknowledgement of `acknowledger`, sent from `src`, arrives. If a
/// handshake with that node is pending under the acknowledged session
/// identifier, it is consumed: the session is installed, the node is
/// listed at the measured latency, and the waiting packets are sent in a
/// `ConnectionInit` that answers the acknowledger's ping. Any other
/// acknowledgement is an error and changes nothing.
pub open spec fn on_acknowledge(
    n: NodeView,
    src: InternetID,
    session_id: SessionID,
    acknowledger: NodeID,
    return_ping_id: PingID,
) -> Step<Option<(NodeID, PacketView)>> {
    if !n.remotes.contains_key(acknowledger) {
        n.fail(NodeError::NoRemoteError { node_id: acknowledger })
    } else {
        let record = n.remotes[acknowledger];
        match record.handshake_pending {
            None => n.fail(NodeError::RemoteNodeError(RemoteNodeError::NoPendingHandshake)),
            Some(pending) => {
                if pending.session_id != session_id {
                    n.fail(NodeError::RemoteNodeError(RemoteNodeError::UnknownAck { passed: session_id }))
                } else {
                    let session = acknowledged_session(session_id, src, pending.time_sent, n.ticks);
                    let distance = round_trip(pending.time_sent, n.ticks);
                    let after = RemoteView {
                        handshake_pending: None,
                        session: Some(session),
                        ..record
                    };
                    let packets = refreshed(
                        pending.initial_packets,
                        n.route_coord,
                        n.known(),
                        session.tracker.dist_avg,
                    );
                    n.with_remote(acknowledger, after).with_session_pair(
                        session_id,
                        acknowledger,
                    ).with_listed(distance, acknowledger).with_edge(n.node_id, acknowledger, distance).send(
                        through(session, PacketView::ConnectionInit(return_ping_id, packets)),
                        None,
                    )
                }
            },
        }
    }
}

/// An envelope arrives from the address `src`.
pub open spec fn on_envelope(n: NodeView, src: InternetID, envelope: EnvelopeView) -> Step<
    Option<(NodeID, PacketView)>,
> {
    match envelope {
        EnvelopeView::Handshake { recipient, session_id, signer } => {
            if recipient != n.node_id {
                n.fail(NodeError::RemoteNodeError(RemoteNodeError::UnknownAckRecipient { recipient }))
            } else {
                on_handshake(n, src, session_id, signer)
            }
        },
        EnvelopeView::Acknowledge { session_id, acknowledger, return_ping_id } => on_acknowledge(
            n,
            src,
            session_id,
            acknowledger,
            return_ping_id,
        ),
        EnvelopeView::Session { session_id, packet } => {
            if n.sessions.contains_key(session_id) {
                n.done(Some((n.sessions[session_id], packet)))
            } else {
                n.fail(NodeError::UnknownSession { session_id })
            }
        },
    }
}

/// A datagram arrives: it must be addressed to this node and carry an envelope.
pub open spec fn on_datagram(n: NodeView, datagram: Datagram) -> Step<Option<(NodeID, PacketView)>> {
    if datagram.dest_addr != n.net_id {
        n.fail(
            NodeError::InvalidNetworkRecipient {
                from: datagram.src_addr,
                intended_dest: datagram.dest_addr,
            },
        )
    } else {
        match unpackage_spec(datagram.data) {
            Some(envelope) => on_envelope(n, datagram.src_addr, envelope),
            None => n.fail(NodeError::SerdeDecodeError),
        }
    }
}

/// Whether a datagram does not claim to open or accept a session in the
/// name of the node `n` itself.
pub open spec fn foreign(n: NodeView, datagram: Datagram) -> bool {
    match unpackage_spec(datagram.data) {
        Some(EnvelopeView::Handshake { signer, .. }) => signer != n.node_id,
        Some(EnvelopeView::Acknowledge { acknowledger, .. }) => acknowledger != n.node_id,
        _ => true,
    }
}

/// A datagram arrives and the packet it carries, if any, is handled.
/// Failures drop the datagram at the point they occur.
pub open spec fn receive(n: NodeView, datagram: Datagram) -> (NodeView, Seq<Emission>) {
    let opened = on_datagram(n, datagram);
    match opened.result {
        Ok(Some((from, packet))) => {
            let handled = on_packet(opened.node, from, packet);
            (handled.node, opened.out + handled.out)
        },
        _ => (opened.node, opened.out),
    }
}

/// The datagrams of one batch arrive in order.
pub open spec fn receive_all(n: NodeView, batch: Seq<Datagram>) -> (NodeView, Seq<Emission>)
    decreases batch.len(),
{
    if batch.len() == 0 {
        (n, Seq::empty())
    } else {
        let first = receive(n, batch[0]);
        let rest = receive_all(first.0, batch.subrange(1, batch.len() as int));
        (rest.0, first.1 + rest.1)
    }
}

/// `Connect`: unless a session with `node` is active, a handshake under
/// `session_id` is sent to `address` and `packets` wait for its acknowledgement.
pub open spec fn on_connect(
    n: NodeView,
    node: NodeID,
    address: InternetID,
    packets: Seq<PacketView>,
    session_id: SessionID,
) -> Step<Option<ActionView>> {
    if n.has_session(node) {
        n.done(None)
    } else {
        let pending = PendingView { session_id, time_sent: n.ticks, initial_packets: packets };
        n.with_remote(
            node,
            RemoteView { handshake_pending: Some(pending), ..n.remote_or_fresh(node) },
        ).send(
            Emission {
                dest: address,
                envelope: EnvelopeView::Handshake { recipient: node, session_id, signer: n.node_id },
            },
            None,
        )
    }
}

/// `ConnectRouted`: as `Connect`, but nothing is sent by this node, and the
/// pending handshake is stamped with the last tick there is.
pub open spec fn on_connect_routed(
    n: NodeView,
    node: NodeID,
    packets: Seq<PacketView>,
    session_id: SessionID,
) -> Step<Option<ActionView>> {
    if n.has_session(node) {
        n.done(None)
    } else {
        let pending = PendingView { session_id, time_sent: usize::MAX, initial_packets: packets };
        n.with_remote(
            node,
            RemoteView { handshake_pending: Some(pending), ..n.remote_or_fresh(node) },
        ).done(None)
    }
}

/// The peers chosen from `targets`, in order: each target that is viable
/// is paired with its coordinate, until `room` of them were taken.
pub open spec fn select_peers(
    n: NodeView,
    targets: Seq<(RouteScalar, NodeID)>,
    chosen: Map<NodeID, RouteCoord>,
    room: nat,
) -> Map<NodeID, RouteCoord>
    decreases targets.len(),
{
    if targets.len() == 0 || room == 0 {
        chosen
    } else {
        let node = targets[0].1;
        let rest = targets.subrange(1, targets.len() as int);
        if n.remotes.contains_key(node) && n.remotes[node].viable_coord() is Some {
            select_peers(
                n,
                rest,
                pair_insert(chosen, node, n.remotes[node].viable_coord().unwrap()),
                (room - 1) as nat,
            )
        } else {
            select_peers(n, rest, chosen, room)
        }
    }
}

/// What the coordinate solver works from: for each of `targets`, in
/// order, that has a known coordinate and a measured latency from this
/// node, the node, its coordinate and that latency.
pub open spec fn positions(n: NodeView, targets: Seq<(RouteScalar, NodeID)>) -> Seq<
    (NodeID, RouteCoord, RouteScalar),
>
    decreases targets.len(),
{
    if targets.len() == 0 {
        Seq::empty()
    } else {
        let node = targets[0].1;
        let rest = positions(n, targets.subrange(1, targets.len() as int));
        if n.remotes.contains_key(node) && n.remotes[node].route_coord is Some && n.route_map.contains_key(
            (n.node_id, node),
        ) {
            seq![(node, n.remotes[node].route_coord.unwrap(), n.route_map[(n.node_id, node)])] + rest
        } else {
            rest
        }
    }
}

/// Lifts a step without a value to a step of the action queue.
pub open spec fn consumed(step: Step<()>) -> Step<Option<ActionView>> {
    Step {
        node: step.node,
        out: step.out,
        result: match step.result {
            Ok(_) => Ok(None),
            Err(e) => Err(e),
        },
    }
}

/// An action's turn comes. `session_id` is the identifier that a
/// handshake started by the action carries. The result is the action to
/// put back in the queue, if any.
pub open spec fn on_action(n: NodeView, action: ActionView, session_id: SessionID) -> Step<
    Option<ActionView>,
> {
    match action {
        ActionView::Bootstrap(node, address) => n.enqueue(
            ActionView::Connect(node, address, seq![PacketView::ExchangeInfo(n.route_coord, 0, 0)]),
        ).done(None),
        ActionView::Connect(node, address, packets) => on_connect(n, node, address, packets, session_id),
        ActionView::RequestPeers(node, count) => consumed(
            send_packet(n, node, PacketView::RequestPings(count)),
        ),
        ActionView::TryCalcRouteCoord => match n.deux_ex_data {
            Some(coord) => NodeView { route_coord: Some(coord), ..n }.enqueue(
                ActionView::CalculatePeers,
            ).done(None),
            None => n.fail(NodeError::NoCalculatedRouteCoord),
        },
        ActionView::CalculatePeers => match n.route_coord {
            Some(_) => NodeView {
                peer_list: select_peers(n, ascending(n.node_list), Map::empty(), TARGET_PEER_COUNT as nat),
                ..n
            }.done(None),
            None => n.fail(NodeError::NoCalculatedRouteCoord),
        },
        ActionView::Traverse(..) => n.done(None),
        ActionView::ConnectRouted(node, packets) => on_connect_routed(n, node, packets, session_id),
        ActionView::Packet(node, packet) => consumed(send_packet(n, node, packet)),
        ActionView::Condition(condition, inner) => if n.holds(condition) {
            n.done(Some(*inner))
        } else {
            n.done(Some(ActionView::Condition(condition, inner)))
        },
    }
}

/// The node after an action's step, with the action it gave back, if
/// any, at the end of the queue.
pub open spec fn requeued(step: Step<Option<ActionView>>) -> NodeView {
    match step.result {
        Ok(Some(action)) => step.node.enqueue(action),
        _ => step.node,
    }
}

/// The first of `session_ids`, or zero where there is none.
pub open spec fn next_id(session_ids: Seq<SessionID>) -> SessionID {
    if session_ids.len() > 0 {
        session_ids[0]
    } else {
        0
    }
}

/// The actions of one tick take their turns in order, the i-th with the
/// i-th of `session_ids`, or with zero where there are fewer.
pub open spec fn run_actions(n: NodeView, actions: Seq<ActionView>, session_ids: Seq<SessionID>) -> (
    NodeView,
    Seq<Emission>,
)
    decreases actions.len(),
{
    if actions.len() == 0 {
        (n, Seq::empty())
    } else {
        let first = on_action(n, actions[0], next_id(session_ids));
        let rest = run_actions(
            requeued(first),
            actions.subrange(1, actions.len() as int),
            if session_ids.len() > 0 {
                session_ids.subrange(1, session_ids.len() as int)
            } else {
                session_ids
            },
        );
        (rest.0, first.out + rest.1)
    }
}

/// The queued actions take their turns: the queue is emptied, and the
/// actions that are put back or newly enqueued form the queue of the next tick.
pub open spec fn run_queue(n: NodeView, session_ids: Seq<SessionID>) -> (NodeView, Seq<Emission>) {
    run_actions(NodeView { actions_queue: Seq::empty(), ..n }, n.actions_queue, session_ids)
}

/// One tick: the batch arrives, the queued actions take their turns, and
/// the clock advances.
pub open spec fn tick(n: NodeView, batch: Seq<Datagram>, session_ids: Seq<SessionID>) -> (
    NodeView,
    Seq<Emission>,
) {
    let received = receive_all(n, batch);
    let ran = run_queue(received.0, session_ids);
    (NodeView { ticks: (ran.0.ticks + 1) as usize, ..ran.0 }, received.1 + ran.1)
}

} // verus!
