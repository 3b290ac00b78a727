use overlay_node::action::{NodeAction, NodeActionCondition};
use overlay_node::envelope::{InternetPacket, NodeEncryption};
use overlay_node::node::Node;
use overlay_node::packet::NodePacket;

/// Substrate for the scenarios: every node ticks once per round, and what
/// it sends reaches its addressee at the start of the next round.
struct Net {
    nodes: Vec<Node>,
    /// Rounds that a datagram to or from each node spends on its way
    /// beyond the one round that every datagram takes.
    delays: Vec<usize>,
    in_flight: Vec<(usize, usize, InternetPacket)>,
    log: Vec<InternetPacket>,
}

impl Net {
    fn new(nodes: Vec<Node>) -> Net {
        let delays = nodes.iter().map(|_| 0).collect();
        Net { nodes, delays, in_flight: Vec::new(), log: Vec::new() }
    }

    fn with_delays(nodes: Vec<Node>, delays: Vec<usize>) -> Net {
        Net { nodes, delays, in_flight: Vec::new(), log: Vec::new() }
    }

    fn round(&mut self) {
        let mut arriving: Vec<Vec<InternetPacket>> = self.nodes.iter().map(|_| Vec::new()).collect();
        let mut waiting = Vec::new();
        for (rounds, to, packet) in std::mem::take(&mut self.in_flight) {
            if rounds == 0 {
                arriving[to].push(packet);
            } else {
                waiting.push((rounds - 1, to, packet));
            }
        }
        self.in_flight = waiting;
        for (i, node) in self.nodes.iter_mut().enumerate() {
            let incoming = std::mem::take(&mut arriving[i]);
            for packet in node.tick(incoming) {
                self.log.push(packet.clone());
                for (to, address) in [100u32, 200, 300, 400, 500, 600].iter().enumerate() {
                    if to < self.delays.len() && *address == packet.dest_addr {
                        self.in_flight.push((self.delays[i] + self.delays[to], to, packet.clone()));
                    }
                }
            }
        }
    }

    fn rounds(&mut self, count: usize) {
        for _ in 0..count {
            self.round();
        }
    }
}

fn envelope_of(packet: &InternetPacket) -> NodeEncryption {
    NodeEncryption::unpackage(packet).unwrap()
}

fn pair() -> Net {
    let a = Node::new(1, 100).with_action(NodeAction::Bootstrap(2, 200));
    let b = Node::new(2, 200);
    Net::new(vec![a, b])
}

#[test]
fn solo_bootstrap_installs_sessions_within_four_ticks() {
    let mut net = pair();
    net.rounds(4);
    assert!(net.nodes[0].has_session(2));
    assert!(net.nodes[1].has_session(1));
    let a_session = net.nodes[0].remotes.get(&2).unwrap().session.as_ref().unwrap().session_id;
    let b_session = net.nodes[1].remotes.get(&1).unwrap().session.as_ref().unwrap().session_id;
    assert_eq!(a_session, b_session);
    assert_eq!(net.nodes[0].sessions.get_by_left(&a_session), Some(&2));
    assert_eq!(net.nodes[1].sessions.get_by_left(&a_session), Some(&1));
}

#[test]
fn solo_bootstrap_lists_the_remote_at_the_round_trip() {
    let mut net = pair();
    net.rounds(6);
    let a = &net.nodes[0];
    let listed: Vec<(u64, u32)> = a.node_list.iter().map(|(d, n)| (*d, *n)).collect();
    assert_eq!(listed, vec![(2, 2)]);
    assert_eq!(a.route_map.edge_weight(1, 2), Some(&2));
    assert_eq!(a.route_map.edge_weight(2, 1), Some(&2));
    assert_eq!(a.ticks, 6);
}

#[test]
fn proposal_bootstrap_places_both_nodes() {
    let mut net = pair();
    net.rounds(5);
    assert_eq!(net.nodes[0].route_coord, None);
    net.rounds(1);
    let proposals: Vec<&InternetPacket> = net.log.iter().filter(|p| match envelope_of(p) {
        NodeEncryption::Session { packet: NodePacket::ProposeRouteCoords(..), .. } => true,
        _ => false,
    }).collect();
    assert_eq!(proposals.len(), 1);
    assert_eq!(proposals[0].src_addr, 100);
    assert_eq!(proposals[0].dest_addr, 200);
    match envelope_of(proposals[0]) {
        NodeEncryption::Session { packet: NodePacket::ProposeRouteCoords(own, offered), .. } => {
            assert_eq!(own, (0, 0));
            assert_eq!(offered, (0, 2));
        },
        _ => panic!("not a proposal"),
    }
    net.rounds(2);
    let a = &net.nodes[0];
    let b = &net.nodes[1];
    assert_eq!(a.route_coord, Some((0, 0)));
    assert_eq!(a.remotes.get(&2).unwrap().route_coord, Some((0, 2)));
    assert_eq!(b.route_coord, Some((0, 2)));
    assert_eq!(b.remotes.get(&1).unwrap().route_coord, Some((0, 0)));
}

#[test]
fn conditional_action_waits_for_the_session() {
    let waiting = NodeAction::Packet(2, NodePacket::Ping(0)).gen_condition(NodeActionCondition::Session(2));
    let a = Node::new(1, 100).with_action(waiting);
    let b = Node::new(2, 200);
    let mut net = Net::new(vec![a, b]);
    net.rounds(3);
    assert_eq!(net.nodes[0].actions_queue.len(), 1);
    assert!(net.log.is_empty());
    net.nodes[0].action(NodeAction::Connect(2, 200, Vec::new()));
    // round 3: handshake leaves; round 4: acknowledged by 2; round 5: session installs at 1
    net.rounds(3);
    assert!(net.nodes[0].has_session(2));
    let pings_before = net.log.iter().filter(|p| match envelope_of(p) {
        NodeEncryption::Session { packet: NodePacket::Ping(0), .. } => true,
        _ => false,
    }).count();
    assert_eq!(pings_before, 0);
    assert_eq!(net.nodes[0].actions_queue.len(), 1);
    match &net.nodes[0].actions_queue[0] {
        NodeAction::Packet(2, NodePacket::Ping(0)) => {},
        other => panic!("unexpected action {:?}", other),
    }
    net.rounds(1);
    let pings_after = net.log.iter().filter(|p| match envelope_of(p) {
        NodeEncryption::Session { packet: NodePacket::Ping(0), .. } => true,
        _ => false,
    }).count();
    assert_eq!(pings_after, 1);
    assert!(net.nodes[0].actions_queue.is_empty());
}

fn count_in_log(net: &Net, matches: fn(&InternetPacket, &NodeEncryption) -> bool) -> usize {
    net.log.iter().filter(|p| matches(p, &envelope_of(p))).count()
}

#[test]
fn simultaneous_handshake_leaves_one_session() {
    let a = Node::new(1, 100).with_action(NodeAction::Connect(2, 200, Vec::new()));
    let b = Node::new(2, 200).with_action(NodeAction::Connect(1, 100, Vec::new()));
    let mut net = Net::new(vec![a, b]);
    net.rounds(1);
    assert_eq!(net.log.len(), 2);
    let id_of_a = match envelope_of(&net.log[0]) {
        NodeEncryption::Handshake { recipient: 2, session_id, signer: 1 } => session_id,
        other => panic!("unexpected envelope {:?}", other),
    };
    let id_of_b = match envelope_of(&net.log[1]) {
        NodeEncryption::Handshake { recipient: 1, session_id, signer: 2 } => session_id,
        other => panic!("unexpected envelope {:?}", other),
    };
    assert_ne!(id_of_a, id_of_b);
    net.rounds(1);
    // the smaller node has given its handshake up and holds the session;
    // the larger stands by its own and holds none yet
    assert!(net.nodes[0].remote(&2).unwrap().handshake_pending.is_none());
    assert_eq!(net.nodes[0].remote(&2).unwrap().session().unwrap().session_id, id_of_b);
    assert_eq!(net.nodes[1].remote(&1).unwrap().handshake_pending.as_ref().unwrap().0, id_of_b);
    assert!(net.nodes[1].remote(&1).unwrap().session.is_none());
    assert!(net.nodes[1].sessions.is_empty());
    assert_eq!(net.log.len(), 3);
    net.rounds(1);
    let a = &net.nodes[0];
    let b = &net.nodes[1];
    assert_eq!(a.sessions.len(), 1);
    assert_eq!(b.sessions.len(), 1);
    assert_eq!(a.session_node(id_of_b), Some(2));
    assert_eq!(b.session_node(id_of_b), Some(1));
    assert_eq!(a.session_node(id_of_a), None);
    assert_eq!(b.session_node(id_of_a), None);
    assert_eq!(a.remote(&2).unwrap().session().unwrap().session_id, id_of_b);
    assert_eq!(b.remote(&1).unwrap().session().unwrap().session_id, id_of_b);
    assert!(a.remote(&2).unwrap().handshake_pending.is_none());
    assert!(b.remote(&1).unwrap().handshake_pending.is_none());
    // the session works in both directions
    net.nodes[0].action(NodeAction::Packet(2, NodePacket::Ping(5)));
    net.nodes[1].action(NodeAction::Packet(1, NodePacket::Ping(6)));
    net.rounds(3);
    let answers = count_in_log(&net, |_, e| matches!(
        e,
        NodeEncryption::Session { packet: NodePacket::PingResponse(5), .. }
            | NodeEncryption::Session { packet: NodePacket::PingResponse(6), .. }
    ));
    assert_eq!(answers, 2);
}

/// Nodes 1 to 4 at the addresses 100 to 400. Node 3 has connected to the
/// nodes 1 and 2, which are placed; node 4 is new.
fn ring() -> Net {
    let a = Node::new(1, 100);
    let b = Node::new(2, 200);
    let c = Node::new(3, 300)
        .with_action(NodeAction::Connect(1, 100, Vec::new()))
        .with_action(NodeAction::Connect(2, 200, Vec::new()));
    let d = Node::new(4, 400);
    let mut net = Net::with_delays(vec![a, b, c, d], vec![0, 1, 0, 2]);
    net.rounds(8);
    net.nodes[0].route_coord = Some((0, 0));
    net.nodes[1].route_coord = Some((0, 9));
    net
}

#[test]
fn ring_is_set_up_with_distinct_distances() {
    let net = ring();
    let listed: Vec<(u64, u32)> = net.nodes[2].node_list.iter().map(|(d, n)| (*d, *n)).collect();
    assert_eq!(listed, vec![(2, 1), (4, 2)]);
    assert_eq!(net.nodes[2].latency(3, 1), Some(2));
    assert_eq!(net.nodes[2].latency(3, 2), Some(4));
    assert!(net.nodes[0].has_session(3));
    assert!(net.nodes[1].has_session(3));
}

#[test]
fn ping_fan_out_reaches_the_ring_and_brings_handshakes() {
    let mut net = ring();
    let before = net.log.len();
    net.nodes[3].action(NodeAction::Connect(3, 300, vec![NodePacket::RequestPings(10)]));
    net.rounds(30);
    let want_pings: Vec<&InternetPacket> = net.log[before..].iter().filter(|p| matches!(
        envelope_of(p),
        NodeEncryption::Session { packet: NodePacket::WantPing(..), .. }
    )).collect();
    // one for each member of the ring, none for the requester
    assert_eq!(want_pings.len(), 2);
    let mut reached: Vec<u32> = want_pings.iter().map(|p| p.dest_addr).collect();
    reached.sort();
    assert_eq!(reached, vec![100, 200]);
    for packet in &want_pings {
        assert_eq!(packet.src_addr, 300);
        match envelope_of(packet) {
            NodeEncryption::Session { packet: NodePacket::WantPing(4, 400), .. } => {},
            other => panic!("unexpected envelope {:?}", other),
        }
    }
    // each brings a handshake between the requester and a member of the ring
    let handshakes: Vec<(u32, u32)> = net.log[before..].iter().filter_map(|p| match envelope_of(p) {
        NodeEncryption::Handshake { recipient, signer, .. } => Some((signer, recipient)),
        _ => None,
    }).collect();
    assert_eq!(handshakes, vec![(4, 3), (1, 4), (2, 4)]);
    assert!(net.nodes[3].has_session(1));
    assert!(net.nodes[3].has_session(2));
    assert!(net.nodes[3].has_session(3));
    assert!(net.nodes[0].has_session(4));
    assert!(net.nodes[1].has_session(4));
    // the members told the requester how far they are from the relay
    assert_eq!(net.nodes[3].latency(1, 3), Some(2));
    assert_eq!(net.nodes[3].latency(2, 3), Some(4));
}

#[test]
fn rate_limit_drops_the_second_request() {
    // node 5 at 500 asks node 6 at 600, which has tested node 1
    let g = Node::new(1, 100);
    let e = Node::new(5, 500).with_action(NodeAction::Connect(6, 600, Vec::new()));
    let f = Node::new(6, 600).with_action(NodeAction::Connect(1, 100, Vec::new()));
    let mut net = Net::with_delays(
        vec![g, Node::new(92, 200), Node::new(93, 300), Node::new(94, 400), e, f],
        vec![1, 0, 0, 0, 0, 0],
    );
    net.rounds(8);
    let listed: Vec<(u64, u32)> = net.nodes[5].node_list.iter().map(|(d, n)| (*d, *n)).collect();
    assert_eq!(listed, vec![(2, 5), (4, 1)]);
    assert!(net.nodes[5].has_session(1));
    assert!(net.nodes[5].has_session(5));
    let want = |net: &Net| net.log.iter().filter(|p| matches!(
        envelope_of(p),
        NodeEncryption::Session { packet: NodePacket::WantPing(5, 500), .. }
    )).count();
    assert_eq!(want(&net), 0);
    net.nodes[4].action(NodeAction::RequestPeers(6, 10));
    net.rounds(3);
    assert_eq!(want(&net), 1);
    net.rounds(50);
    net.nodes[4].action(NodeAction::RequestPeers(6, 10));
    net.rounds(3);
    assert!(net.nodes[4].ticks < 100);
    assert_eq!(want(&net), 1);
    let requests = net.log.iter().filter(|p| matches!(
        envelope_of(p),
        NodeEncryption::Session { packet: NodePacket::RequestPings(10), .. }
    )).count();
    assert_eq!(requests, 2);
}

#[test]
fn lost_datagrams_leave_the_nodes_well() {
    let mut net = pair();
    net.rounds(2);
    // the handshake is lost on its way
    net.in_flight.clear();
    net.rounds(5);
    assert!(!net.nodes[0].has_session(2));
    assert!(net.nodes[0].remote(&2).unwrap().handshake_pending.is_some());
    assert!(net.nodes[1].remotes.is_empty());
    // a fresh connect overwrites the stale handshake
    net.nodes[0].action(NodeAction::Connect(2, 200, Vec::new()));
    net.rounds(4);
    assert!(net.nodes[0].has_session(2));
    assert!(net.nodes[1].has_session(1));
}
