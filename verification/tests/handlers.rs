use overlay_node::action::NodeAction;
use overlay_node::envelope::{InternetPacket, NodeEncryption};
use overlay_node::node::Node;
use overlay_node::packet::NodePacket;

const ME: u32 = 10;
const MY_NET: u32 = 1000;

fn handshake_from(node: u32, net: u32, session_id: u64) -> InternetPacket {
    NodeEncryption::Handshake { recipient: ME, session_id, signer: node }.package(net, MY_NET)
}

fn in_session(session_id: u64, net: u32, packet: NodePacket) -> InternetPacket {
    NodeEncryption::Session { session_id, packet }.package(net, MY_NET)
}

/// A node that has accepted handshakes of the nodes 1, 2 and 3 at the
/// addresses 100, 200, 300 under the sessions 11, 22, 33, at tick 0.
fn node_with_sessions() -> Node {
    let mut node = Node::new(ME, MY_NET);
    let sent = node.tick(vec![
        handshake_from(1, 100, 11),
        handshake_from(2, 200, 22),
        handshake_from(3, 300, 33),
    ]);
    assert_eq!(sent.len(), 3);
    node
}

fn packets_of(sent: &Vec<InternetPacket>) -> Vec<(u32, u64, String)> {
    sent.iter().map(|datagram| match NodeEncryption::unpackage(datagram).unwrap() {
        NodeEncryption::Session { session_id, packet } => (
            datagram.dest_addr,
            session_id,
            format!("{:?}", packet),
        ),
        other => panic!("unexpected envelope {:?}", other),
    }).collect()
}

fn shown(packet: NodePacket) -> String {
    format!("{:?}", packet)
}

#[test]
fn handshake_is_acknowledged_with_a_ping_to_answer() {
    let mut node = Node::new(ME, MY_NET);
    let sent = node.tick(vec![handshake_from(1, 100, 11)]);
    assert_eq!(sent.len(), 1);
    assert_eq!(sent[0].src_addr, MY_NET);
    assert_eq!(sent[0].dest_addr, 100);
    match NodeEncryption::unpackage(&sent[0]).unwrap() {
        NodeEncryption::Acknowledge { session_id: 11, acknowledger: ME, return_ping_id: 0 } => {},
        other => panic!("unexpected envelope {:?}", other),
    }
    let session = node.remote(&1).unwrap().session().unwrap();
    assert_eq!(session.session_id, 11);
    assert_eq!(session.return_net_id, 100);
    assert_eq!(session.tracker.pending_pings(), 1);
    assert_eq!(node.session_node(11), Some(1));
    assert_eq!(node.session_node(12), None);
}

#[test]
fn ping_is_answered_with_the_same_identifier() {
    let mut node = node_with_sessions();
    let sent = node.tick(vec![in_session(22, 200, NodePacket::Ping(77))]);
    assert_eq!(packets_of(&sent), vec![(200, 22, shown(NodePacket::PingResponse(77)))]);
}

#[test]
fn connection_init_answers_the_ping_and_lists_the_node() {
    let mut node = node_with_sessions();
    node.tick(vec![]);
    node.tick(vec![]);
    // the ping was issued at tick 0 and is answered at tick 3
    let sent = node.tick(vec![in_session(11, 100, NodePacket::ConnectionInit(0, vec![NodePacket::Ping(5)]))]);
    assert_eq!(packets_of(&sent), vec![(100, 11, shown(NodePacket::PingResponse(5)))]);
    assert_eq!(node.latency(ME, 1), Some(3));
    assert_eq!(node.latency(1, ME), None);
    let listed: Vec<(u64, u32)> = node.node_list.iter().map(|(d, n)| (*d, *n)).collect();
    assert_eq!(listed, vec![(3, 1)]);
    let tracker = &node.remote(&1).unwrap().session().unwrap().tracker;
    assert_eq!(tracker.distance(), 3);
    assert_eq!(tracker.ping_count(), 1);
    assert_eq!(tracker.pending_pings(), 0);
}

#[test]
fn packets_behind_a_failing_packet_are_dropped() {
    let mut node = node_with_sessions();
    let inner = vec![
        NodePacket::Ping(1),
        NodePacket::PingResponse(9),
        NodePacket::Ping(2),
    ];
    let sent = node.tick(vec![in_session(11, 100, NodePacket::ConnectionInit(0, inner))]);
    assert_eq!(packets_of(&sent), vec![(100, 11, shown(NodePacket::PingResponse(1)))]);
}

#[test]
fn a_node_is_listed_once() {
    let mut node = node_with_sessions();
    node.tick(vec![in_session(11, 100, NodePacket::ConnectionInit(0, vec![]))]);
    let listed: Vec<(u64, u32)> = node.node_list.iter().map(|(d, n)| (*d, *n)).collect();
    assert_eq!(listed, vec![(1, 1)]);
    // a second handshake of the same node, acknowledged later
    node.tick(vec![handshake_from(1, 100, 12)]);
    node.tick(vec![]);
    node.tick(vec![in_session(12, 100, NodePacket::ConnectionInit(0, vec![]))]);
    let listed: Vec<(u64, u32)> = node.node_list.iter().map(|(d, n)| (*d, *n)).collect();
    assert_eq!(listed, vec![(1, 1)]);
    assert_eq!(node.latency(ME, 1), Some(2));
}

#[test]
fn a_new_node_takes_the_place_at_its_distance() {
    let mut node = node_with_sessions();
    node.tick(vec![
        in_session(11, 100, NodePacket::ConnectionInit(0, vec![])),
        in_session(22, 200, NodePacket::ConnectionInit(0, vec![])),
    ]);
    let listed: Vec<(u64, u32)> = node.node_list.iter().map(|(d, n)| (*d, *n)).collect();
    assert_eq!(listed, vec![(1, 2)]);
}

#[test]
fn exchange_info_is_noted_and_answered() {
    let mut node = node_with_sessions();
    node.route_coord = Some((4, -4));
    let sent = node.tick(vec![in_session(22, 200, NodePacket::ExchangeInfo(Some((7, 8)), 9, 6))]);
    assert_eq!(
        packets_of(&sent),
        vec![(200, 22, shown(NodePacket::ExchangeInfoResponse(Some((4, -4)), 3, 0)))],
    );
    assert_eq!(node.remote(&2).unwrap().route_coord, Some((7, 8)));
    assert_eq!(node.latency(2, ME), Some(6));
    assert_eq!(node.latency(ME, 2), None);
}

#[test]
fn exchange_info_response_seeds_the_space_between_two_lonely_nodes() {
    let mut node = node_with_sessions();
    node.tick(vec![]);
    node.tick(vec![in_session(11, 100, NodePacket::ConnectionInit(0, vec![]))]);
    let sent = node.tick(vec![in_session(11, 100, NodePacket::ExchangeInfoResponse(None, 1, 9))]);
    assert_eq!(
        packets_of(&sent),
        vec![(100, 11, shown(NodePacket::ProposeRouteCoords((0, 0), (0, 2))))],
    );
    assert_eq!(node.latency(1, ME), Some(9));
    assert_eq!(node.remote(&1).unwrap().route_coord, None);
    assert!(node.actions_queue.is_empty());
}

#[test]
fn exchange_info_response_does_not_seed_when_this_node_has_a_coordinate() {
    let mut node = node_with_sessions();
    node.route_coord = Some((1, 1));
    let sent = node.tick(vec![in_session(11, 100, NodePacket::ExchangeInfoResponse(None, 0, 9))]);
    // no node tested yet, the remote knows none: the counts match below the target
    assert!(sent.is_empty());
    assert_eq!(node.route_coord, Some((1, 1)));
}

#[test]
fn exchange_info_response_computes_when_the_counts_match() {
    let mut node = node_with_sessions();
    node.tick(vec![in_session(11, 100, NodePacket::ConnectionInit(0, vec![]))]);
    let mut sent = Vec::new();
    let result = node.parse_node_packet(1, NodePacket::ExchangeInfoResponse(Some((3, 3)), 1, 4), &mut sent);
    assert_eq!(result, Ok(()));
    assert!(sent.is_empty());
    assert_eq!(node.actions_queue.len(), 1);
    assert!(matches!(node.actions_queue[0], NodeAction::TryCalcRouteCoord));
    assert_eq!(node.remote(&1).unwrap().route_coord, Some((3, 3)));
}

#[test]
fn exchange_info_response_asks_for_pings_while_few_nodes_are_tested() {
    let mut node = node_with_sessions();
    let mut sent = Vec::new();
    let result = node.parse_node_packet(1, NodePacket::ExchangeInfoResponse(Some((3, 3)), 4, 4), &mut sent);
    assert_eq!(result, Ok(()));
    assert_eq!(packets_of(&sent), vec![(100, 11, shown(NodePacket::RequestPings(5)))]);
    assert!(node.actions_queue.is_empty());
}

#[test]
fn exchange_info_response_computes_on_a_large_network() {
    let mut node = Node::new(ME, MY_NET);
    let handshakes: Vec<InternetPacket> = (1..=5u32).map(|i| handshake_from(i, i * 100, i as u64)).collect();
    node.tick(handshakes);
    for i in 1..=5u32 {
        // answered at the ticks 1 to 5: five distances, five tested nodes
        node.tick(vec![in_session(i as u64, i * 100, NodePacket::ConnectionInit(0, vec![]))]);
    }
    assert_eq!(node.node_list.len(), 5);
    let mut sent = Vec::new();
    let result = node.parse_node_packet(1, NodePacket::ExchangeInfoResponse(Some((3, 3)), 9, 4), &mut sent);
    assert_eq!(result, Ok(()));
    assert!(sent.is_empty());
    assert!(matches!(node.actions_queue[0], NodeAction::TryCalcRouteCoord));
}

#[test]
fn proposal_is_accepted_by_a_node_without_coordinate() {
    let mut node = node_with_sessions();
    let sent = node.tick(vec![in_session(33, 300, NodePacket::ProposeRouteCoords((0, 0), (0, 7)))]);
    assert_eq!(
        packets_of(&sent),
        vec![(300, 33, shown(NodePacket::ProposeRouteCoordsResponse((0, 0), (0, 7), true)))],
    );
    assert_eq!(node.route_coord, Some((0, 7)));
    assert_eq!(node.remote(&3).unwrap().route_coord, Some((0, 0)));
}

#[test]
fn proposal_is_declined_by_a_node_with_coordinate() {
    let mut node = node_with_sessions();
    node.route_coord = Some((5, 5));
    let sent = node.tick(vec![in_session(33, 300, NodePacket::ProposeRouteCoords((0, 0), (0, 7)))]);
    assert_eq!(
        packets_of(&sent),
        vec![(300, 33, shown(NodePacket::ProposeRouteCoordsResponse((0, 0), (0, 7), false)))],
    );
    assert_eq!(node.route_coord, Some((5, 5)));
    assert_eq!(node.remote(&3).unwrap().route_coord, None);
}

#[test]
fn accepted_proposal_is_installed_by_the_proposer() {
    let mut node = node_with_sessions();
    let sent = node.tick(vec![in_session(33, 300, NodePacket::ProposeRouteCoordsResponse((0, 0), (0, 7), true))]);
    assert!(sent.is_empty());
    assert_eq!(node.route_coord, Some((0, 0)));
    assert_eq!(node.remote(&3).unwrap().route_coord, Some((0, 7)));
}

#[test]
fn declined_proposal_changes_nothing() {
    let mut node = node_with_sessions();
    node.tick(vec![in_session(33, 300, NodePacket::ProposeRouteCoordsResponse((0, 0), (0, 7), false))]);
    assert_eq!(node.route_coord, None);
    assert_eq!(node.remote(&3).unwrap().route_coord, None);
}

#[test]
fn request_pings_reaches_the_nearest_nodes_but_the_requester() {
    let mut node = node_with_sessions();
    node.tick(vec![in_session(11, 100, NodePacket::ConnectionInit(0, vec![]))]);
    node.tick(vec![in_session(22, 200, NodePacket::ConnectionInit(0, vec![]))]);
    node.tick(vec![in_session(33, 300, NodePacket::ConnectionInit(0, vec![]))]);
    let sent = node.tick(vec![in_session(22, 200, NodePacket::RequestPings(10))]);
    assert_eq!(
        packets_of(&sent),
        vec![
            (100, 11, shown(NodePacket::WantPing(2, 200))),
            (300, 33, shown(NodePacket::WantPing(2, 200))),
        ],
    );
}

#[test]
fn request_pings_takes_no_more_than_requested() {
    let mut node = node_with_sessions();
    node.tick(vec![in_session(11, 100, NodePacket::ConnectionInit(0, vec![]))]);
    node.tick(vec![in_session(22, 200, NodePacket::ConnectionInit(0, vec![]))]);
    node.tick(vec![in_session(33, 300, NodePacket::ConnectionInit(0, vec![]))]);
    let sent = node.tick(vec![in_session(33, 300, NodePacket::RequestPings(1))]);
    assert_eq!(packets_of(&sent), vec![(100, 11, shown(NodePacket::WantPing(3, 300)))]);
    let mut other = node_with_sessions();
    other.tick(vec![in_session(11, 100, NodePacket::ConnectionInit(0, vec![]))]);
    let sent = other.tick(vec![in_session(33, 300, NodePacket::RequestPings(0))]);
    assert!(sent.is_empty());
}

#[test]
fn request_pings_takes_no_more_than_ten() {
    let mut node = Node::new(ME, MY_NET);
    let handshakes: Vec<InternetPacket> = (1..=13u32).map(|i| handshake_from(i, i * 100, i as u64)).collect();
    node.tick(handshakes);
    for i in 1..=12u32 {
        node.tick(vec![in_session(i as u64, i * 100, NodePacket::ConnectionInit(0, vec![]))]);
    }
    assert_eq!(node.node_list.len(), 12);
    let sent = node.tick(vec![in_session(13, 1300, NodePacket::RequestPings(50))]);
    let expected: Vec<(u32, u64, String)> = (1..=10u32).map(|i| (
        i * 100,
        i as u64,
        shown(NodePacket::WantPing(13, 1300)),
    )).collect();
    assert_eq!(packets_of(&sent), expected);
}

#[test]
fn want_ping_makes_a_placed_node_connect() {
    let mut node = node_with_sessions();
    node.route_coord = Some((1, 2));
    node.tick(vec![]);
    node.tick(vec![in_session(11, 100, NodePacket::ConnectionInit(0, vec![]))]);
    let sent = node.tick(vec![in_session(11, 100, NodePacket::WantPing(4, 400))]);
    // the action is enqueued while the batch arrives and runs in the same tick
    assert_eq!(sent.len(), 1);
    assert_eq!(sent[0].dest_addr, 400);
    match NodeEncryption::unpackage(&sent[0]).unwrap() {
        NodeEncryption::Handshake { recipient: 4, signer: ME, .. } => {},
        other => panic!("unexpected envelope {:?}", other),
    }
    let pending = node.remote(&4).unwrap().handshake_pending.as_ref().unwrap();
    assert_eq!(pending.1, 3);
    assert_eq!(format!("{:?}", pending.2), format!("{:?}", vec![NodePacket::AcceptWantPing(1, 2)]));
}

#[test]
fn want_ping_is_ignored_without_a_coordinate() {
    let mut node = node_with_sessions();
    let sent = node.tick(vec![in_session(11, 100, NodePacket::WantPing(4, 400))]);
    assert!(sent.is_empty());
    assert!(node.remote(&4).is_err());
}

#[test]
fn want_ping_of_this_node_is_ignored() {
    let mut node = node_with_sessions();
    node.route_coord = Some((1, 2));
    let sent = node.tick(vec![in_session(11, 100, NodePacket::WantPing(ME, MY_NET))]);
    assert!(sent.is_empty());
    assert!(node.remote(&ME).is_err());
}

#[test]
fn want_ping_of_a_connected_node_is_ignored() {
    let mut node = node_with_sessions();
    node.route_coord = Some((1, 2));
    let sent = node.tick(vec![in_session(11, 100, NodePacket::WantPing(2, 200))]);
    assert!(sent.is_empty());
    assert!(node.actions_queue.is_empty());
}

#[test]
fn want_ping_of_a_node_with_a_pending_handshake_is_ignored() {
    let mut node = node_with_sessions();
    node.route_coord = Some((1, 2));
    node.action(NodeAction::Connect(4, 400, vec![]));
    let first = node.tick(vec![]);
    assert_eq!(first.len(), 1);
    let sent = node.tick(vec![in_session(11, 100, NodePacket::WantPing(4, 400))]);
    assert!(sent.is_empty());
    assert!(node.actions_queue.is_empty());
}

#[test]
fn accept_want_ping_notes_hearsay_and_exchanges_information() {
    let mut node = node_with_sessions();
    node.route_coord = Some((9, 9));
    node.tick(vec![in_session(11, 100, NodePacket::ConnectionInit(0, vec![]))]);
    let sent = node.tick(vec![in_session(22, 200, NodePacket::AcceptWantPing(3, 14))]);
    assert_eq!(
        packets_of(&sent),
        vec![(200, 22, shown(NodePacket::ExchangeInfo(Some((9, 9)), 1, 0)))],
    );
    assert_eq!(node.latency(2, 3), Some(14));
    assert_eq!(node.latency(3, 2), None);
}

#[test]
fn accept_want_ping_is_rate_limited_but_still_noted() {
    let mut node = node_with_sessions();
    let first = node.tick(vec![in_session(22, 200, NodePacket::AcceptWantPing(3, 14))]);
    assert_eq!(first.len(), 1);
    let second = node.tick(vec![in_session(22, 200, NodePacket::AcceptWantPing(3, 15))]);
    assert!(second.is_empty());
    assert_eq!(node.latency(2, 3), Some(15));
}

#[test]
fn peer_notify_notes_the_rank() {
    let mut node = node_with_sessions();
    assert_eq!(node.remote(&2).unwrap().peer_rank, None);
    let sent = node.tick(vec![in_session(22, 200, NodePacket::PeerNotify(3))]);
    assert!(sent.is_empty());
    assert_eq!(node.remote(&2).unwrap().peer_rank, Some(3));
    assert_eq!(node.remote(&1).unwrap().peer_rank, None);
}

#[test]
fn traverse_is_reserved() {
    let mut node = node_with_sessions();
    let sent = node.tick(vec![in_session(22, 200, NodePacket::Traverse(3, Box::new(NodePacket::Ping(1))))]);
    assert!(sent.is_empty());
}

#[test]
fn rate_limit_ends_after_three_hundred_ticks() {
    let mut node = node_with_sessions();
    node.tick(vec![in_session(11, 100, NodePacket::ConnectionInit(0, vec![]))]);
    node.tick(vec![]);
    // first request at tick 3
    let first = node.tick(vec![in_session(22, 200, NodePacket::RequestPings(10))]);
    assert_eq!(first.len(), 1);
    for _ in 0..298 {
        node.tick(vec![]);
    }
    // tick 302: 299 ticks after the first, dropped, and the limit starts anew
    assert_eq!(node.ticks, 302);
    let early = node.tick(vec![in_session(22, 200, NodePacket::RequestPings(10))]);
    assert!(early.is_empty());
    for _ in 0..299 {
        node.tick(vec![]);
    }
    // tick 602: 300 ticks after the last arrival
    assert_eq!(node.ticks, 602);
    let late = node.tick(vec![in_session(22, 200, NodePacket::RequestPings(10))]);
    assert_eq!(late.len(), 1);
}

#[test]
fn each_kind_of_packet_has_its_own_rate_limit() {
    let mut node = node_with_sessions();
    node.tick(vec![in_session(11, 100, NodePacket::ConnectionInit(0, vec![]))]);
    let first = node.tick(vec![in_session(22, 200, NodePacket::RequestPings(10))]);
    assert_eq!(first.len(), 1);
    let other_kind = node.tick(vec![in_session(22, 200, NodePacket::AcceptWantPing(3, 1))]);
    assert_eq!(other_kind.len(), 1);
    let other_node = node.tick(vec![in_session(33, 300, NodePacket::RequestPings(10))]);
    assert_eq!(other_node.len(), 1);
}

#[test]
fn every_packet_has_its_kind() {
    let kinds: Vec<u8> = vec![
        NodePacket::ConnectionInit(0, vec![]).kind(),
        NodePacket::Ping(0).kind(),
        NodePacket::PingResponse(0).kind(),
        NodePacket::ExchangeInfo(None, 0, 0).kind(),
        NodePacket::ExchangeInfoResponse(None, 0, 0).kind(),
        NodePacket::ProposeRouteCoords((0, 0), (0, 0)).kind(),
        NodePacket::ProposeRouteCoordsResponse((0, 0), (0, 0), true).kind(),
        NodePacket::RequestPings(0).kind(),
        NodePacket::WantPing(0, 0).kind(),
        NodePacket::AcceptWantPing(0, 0).kind(),
        NodePacket::PeerNotify(0).kind(),
        NodePacket::Traverse(0, Box::new(NodePacket::Ping(0))).kind(),
    ];
    assert_eq!(kinds, vec![0, 1, 2, 3, 4, 5, 6, 7, 8, 9, 10, 11]);
}

#[test]
fn session_table_stays_one_to_one() {
    let mut node = node_with_sessions();
    assert_eq!(node.sessions.len(), 3);
    // the same node again, under a new identifier: the old pair gives way
    node.tick(vec![handshake_from(1, 100, 12)]);
    assert_eq!(node.sessions.len(), 3);
    assert_eq!(node.session_node(11), None);
    assert_eq!(node.session_node(12), Some(1));
    // another node under an identifier in use: the identifier changes hands
    node.tick(vec![handshake_from(4, 400, 22)]);
    assert_eq!(node.sessions.len(), 3);
    assert_eq!(node.session_node(22), Some(4));
    assert_eq!(node.sessions.get_by_right(&2), None);
    assert_eq!(node.sessions.get_by_right(&4), Some(&22));
    // both at once: one pair takes the place of two
    node.tick(vec![handshake_from(3, 300, 12)]);
    assert_eq!(node.sessions.len(), 2);
    assert_eq!(node.session_node(12), Some(3));
    assert_eq!(node.session_node(33), None);
    assert_eq!(node.sessions.get_by_right(&1), None);
    for (session, remote) in node.sessions.iter() {
        assert_eq!(node.remote(remote).unwrap().session().unwrap().session_id, *session);
    }
}

#[test]
fn ping_response_raises_the_count_by_one() {
    let mut node = node_with_sessions();
    for _ in 0..4 {
        node.tick(vec![]);
    }
    // a ping is sent at tick 5 and answered at tick 9
    let now = node.ticks;
    let id = node.remote_mut(&2).unwrap().session.as_mut().unwrap().tracker.gen_ping(now);
    assert_eq!(id, 1);
    node.action(NodeAction::Packet(2, NodePacket::Ping(id)));
    let sent = node.tick(vec![]);
    assert_eq!(packets_of(&sent), vec![(200, 22, shown(NodePacket::Ping(1)))]);
    for _ in 0..3 {
        node.tick(vec![]);
    }
    let before = node.remote(&2).unwrap().session().unwrap().tracker.ping_count();
    let mut out = Vec::new();
    assert_eq!(node.parse_node_packet(2, NodePacket::PingResponse(id), &mut out), Ok(()));
    assert!(out.is_empty());
    let tracker = &node.remote(&2).unwrap().session().unwrap().tracker;
    assert_eq!(tracker.ping_count(), before + 1);
    assert_eq!(tracker.distance(), 4);
    assert_eq!(tracker.pending_pings(), 1);
    assert_eq!(node.latency(ME, 2), Some(4));
}

#[test]
fn noted_latency_is_the_average_of_a_first_sample() {
    let mut node = node_with_sessions();
    node.tick(vec![]);
    node.tick(vec![in_session(11, 100, NodePacket::ConnectionInit(0, vec![]))]);
    let average = node.remote(&1).unwrap().session().unwrap().tracker.distance();
    assert_eq!(average, 2);
    assert_eq!(node.latency(ME, 1), Some(average));
    // a second, longer round trip is noted as it is; the average lags behind
    let now = node.ticks;
    let id = node.remote_mut(&1).unwrap().session.as_mut().unwrap().tracker.gen_ping(now);
    for _ in 0..6 {
        node.tick(vec![]);
    }
    node.tick(vec![in_session(11, 100, NodePacket::PingResponse(id))]);
    assert_eq!(node.latency(ME, 1), Some(6));
    assert_eq!(node.remote(&1).unwrap().session().unwrap().tracker.distance(), 4);
}

#[test]
fn tied_handshake_is_given_up_by_the_smaller_node() {
    // this node is 10; it has a handshake pending with node 20
    let mut node = Node::new(ME, MY_NET);
    let mut sent = Vec::new();
    node.start_handshake(20, 2000, vec![NodePacket::Ping(1)], 4242, &mut sent);
    assert!(!node.stands_by_own_handshake(20));
    let answer = node.tick(vec![handshake_from(20, 2000, 77)]);
    assert_eq!(answer.len(), 1);
    assert_eq!(answer[0].data, b"[1,77,10,0]".to_vec());
    let remote = node.remote(&20).unwrap();
    assert!(remote.handshake_pending.is_none());
    assert_eq!(remote.session().unwrap().session_id, 77);
    assert_eq!(node.session_node(77), Some(20));
    assert_eq!(node.session_node(4242), None);
}

#[test]
fn tied_handshake_is_stood_by_on_the_larger_node() {
    // this node is 10; it has a handshake pending with node 5
    let mut node = Node::new(ME, MY_NET);
    let mut sent = Vec::new();
    node.start_handshake(5, 500, vec![NodePacket::Ping(1)], 4242, &mut sent);
    assert!(node.stands_by_own_handshake(5));
    assert!(!node.stands_by_own_handshake(6));
    let answer = node.tick(vec![handshake_from(5, 500, 77)]);
    assert!(answer.is_empty());
    let remote = node.remote(&5).unwrap();
    assert_eq!(remote.handshake_pending.as_ref().unwrap().0, 4242);
    assert!(remote.session.is_none());
    assert!(node.sessions.is_empty());
    // the acknowledgement of its own handshake installs the session
    let answer = node.tick(vec![
        NodeEncryption::Acknowledge { session_id: 4242, acknowledger: 5, return_ping_id: 0 }.package(500, MY_NET),
    ]);
    assert_eq!(answer.len(), 1);
    let remote = node.remote(&5).unwrap();
    assert!(remote.handshake_pending.is_none());
    assert_eq!(remote.session().unwrap().session_id, 4242);
    assert_eq!(node.session_node(4242), Some(5));
    assert_eq!(node.session_node(77), None);
}

#[test]
fn no_remote_holds_a_pending_handshake_beside_a_session() {
    let mut node = node_with_sessions();
    node.action(NodeAction::Connect(1, 100, vec![]));
    node.action(NodeAction::ConnectRouted(2, vec![]));
    node.action(NodeAction::Connect(4, 400, vec![]));
    node.action(NodeAction::Connect(50, 5000, vec![]));
    node.tick(vec![handshake_from(4, 400, 44), handshake_from(50, 5000, 55)]);
    node.tick(vec![handshake_from(4, 400, 45), handshake_from(50, 5000, 56)]);
    for remote in node.remotes.values() {
        assert!(!(remote.handshake_pending.is_some() && remote.session.is_some()));
    }
    assert!(node.remote(&4).unwrap().handshake_pending.is_none());
    assert_eq!(node.remote(&4).unwrap().session().unwrap().session_id, 45);
    assert_eq!(node.remote(&50).unwrap().session().unwrap().session_id, 56);
}
