use overlay_node::action::{NodeAction, NodeActionCondition};
use overlay_node::envelope::{InternetPacket, NodeEncryption};
use overlay_node::node::Node;
use overlay_node::packet::NodePacket;

const ME: u32 = 10;
const MY_NET: u32 = 1000;

fn handshake_from(node: u32, net: u32, session_id: u64) -> InternetPacket {
    NodeEncryption::Handshake { recipient: ME, session_id, signer: node }.package(net, MY_NET)
}

fn in_session(session_id: u64, net: u32, packet: NodePacket) -> InternetPacket {
    NodeEncryption::Session { session_id, packet }.package(net, MY_NET)
}

#[test]
fn new_node_knows_nothing() {
    let node = Node::new(ME, MY_NET);
    assert_eq!(node.node_id, ME);
    assert_eq!(node.net_id(), MY_NET);
    assert_eq!(node.ticks, 0);
    assert_eq!(node.route_coord, None);
    assert_eq!(node.deux_ex_data, None);
    assert!(node.remotes.is_empty());
    assert!(node.sessions.is_empty());
    assert!(node.node_list.is_empty());
    assert!(node.peer_list.is_empty());
    assert_eq!(node.route_map.edge_count(), 0);
    assert!(node.actions_queue.is_empty());
}

#[test]
fn idle_tick_only_advances_the_clock() {
    let mut node = Node::new(ME, MY_NET);
    for expected in 1..=5usize {
        let sent = node.tick(vec![]);
        assert!(sent.is_empty());
        assert_eq!(node.ticks, expected);
    }
}

#[test]
fn actions_queue_in_the_order_given() {
    let mut node = Node::new(ME, MY_NET)
        .with_action(NodeAction::Traverse(1, Box::new(NodePacket::Ping(1))))
        .with_action(NodeAction::TryCalcRouteCoord);
    node.action(NodeAction::CalculatePeers);
    assert_eq!(node.actions_queue.len(), 3);
    assert!(matches!(node.actions_queue[0], NodeAction::Traverse(1, _)));
    assert!(matches!(node.actions_queue[1], NodeAction::TryCalcRouteCoord));
    assert!(matches!(node.actions_queue[2], NodeAction::CalculatePeers));
}

#[test]
fn bootstrap_enqueues_a_connect_that_exchanges_information() {
    let mut node = Node::new(ME, MY_NET).with_action(NodeAction::Bootstrap(2, 200));
    let sent = node.tick(vec![]);
    assert!(sent.is_empty());
    assert_eq!(node.actions_queue.len(), 1);
    match &node.actions_queue[0] {
        NodeAction::Connect(2, 200, packets) => {
            assert_eq!(format!("{:?}", packets), format!("{:?}", vec![NodePacket::ExchangeInfo(None, 0, 0)]));
        },
        other => panic!("unexpected action {:?}", other),
    }
}

#[test]
fn connect_sends_a_handshake_and_keeps_the_packets() {
    let mut node = Node::new(ME, MY_NET);
    node.tick(vec![]);
    node.action(NodeAction::Connect(2, 200, vec![NodePacket::Ping(4)]));
    let sent = node.tick(vec![]);
    assert_eq!(sent.len(), 1);
    assert_eq!(sent[0].src_addr, MY_NET);
    assert_eq!(sent[0].dest_addr, 200);
    let session_id = match NodeEncryption::unpackage(&sent[0]).unwrap() {
        NodeEncryption::Handshake { recipient: 2, session_id, signer: ME } => session_id,
        other => panic!("unexpected envelope {:?}", other),
    };
    let remote = node.remote(&2).unwrap();
    let pending = remote.handshake_pending.as_ref().unwrap();
    assert_eq!(pending.0, session_id);
    assert_eq!(pending.1, 1);
    assert_eq!(format!("{:?}", pending.2), format!("{:?}", vec![NodePacket::Ping(4)]));
    assert!(remote.session.is_none());
    assert!(node.actions_queue.is_empty());
}

#[test]
fn start_handshake_uses_the_given_identifier() {
    let mut node = Node::new(ME, MY_NET);
    let mut sent = Vec::new();
    node.start_handshake(2, 200, vec![], 4242, &mut sent);
    assert_eq!(sent.len(), 1);
    assert_eq!(sent[0].data, b"[0,2,4242,10]".to_vec());
    assert_eq!(node.remote(&2).unwrap().handshake_pending.as_ref().unwrap().0, 4242);
    let mut again = Vec::new();
    node.perform_action(NodeAction::Connect(3, 300, vec![]), 77, &mut again).unwrap();
    assert_eq!(again[0].data, b"[0,3,77,10]".to_vec());
}

#[test]
fn connect_does_nothing_while_a_session_is_active() {
    let mut node = Node::new(ME, MY_NET);
    node.tick(vec![handshake_from(2, 200, 22)]);
    node.action(NodeAction::Connect(2, 200, vec![NodePacket::Ping(4)]));
    node.action(NodeAction::ConnectRouted(2, vec![NodePacket::Ping(4)]));
    let sent = node.tick(vec![]);
    assert!(sent.is_empty());
    assert!(node.remote(&2).unwrap().handshake_pending.is_none());
    assert_eq!(node.remote(&2).unwrap().session().unwrap().session_id, 22);
}

#[test]
fn acknowledged_handshake_sends_the_refreshed_packets() {
    let mut node = Node::new(ME, MY_NET);
    node.route_coord = Some((3, -3));
    node.tick(vec![handshake_from(7, 700, 70)]);
    let waiting = vec![
        NodePacket::ExchangeInfo(None, 0, 0),
        NodePacket::Ping(9),
        NodePacket::ExchangeInfo(Some((1, 1)), 5, 5),
    ];
    let mut sent = Vec::new();
    node.start_handshake(2, 200, waiting, 4242, &mut sent);
    for _ in 0..4 {
        node.tick(vec![]);
    }
    // sent at tick 1, acknowledged at tick 5
    let sent = node.tick(vec![
        NodeEncryption::Acknowledge { session_id: 4242, acknowledger: 2, return_ping_id: 6 }.package(250, MY_NET),
    ]);
    assert_eq!(sent.len(), 1);
    assert_eq!(sent[0].dest_addr, 250);
    match NodeEncryption::unpackage(&sent[0]).unwrap() {
        NodeEncryption::Session { session_id: 4242, packet: NodePacket::ConnectionInit(6, packets) } => {
            let expected = vec![
                NodePacket::ExchangeInfo(Some((3, -3)), 2, 4),
                NodePacket::Ping(9),
                NodePacket::ExchangeInfo(Some((3, -3)), 2, 4),
            ];
            assert_eq!(format!("{:?}", packets), format!("{:?}", expected));
        },
        other => panic!("unexpected envelope {:?}", other),
    }
    let remote = node.remote(&2).unwrap();
    assert!(remote.handshake_pending.is_none());
    let session = remote.session().unwrap();
    assert_eq!(session.session_id, 4242);
    assert_eq!(session.return_net_id, 250);
    assert_eq!(session.tracker.distance(), 4);
    assert_eq!(session.tracker.ping_count(), 1);
    assert_eq!(session.tracker.pending_pings(), 0);
    assert_eq!(node.session_node(4242), Some(2));
    assert_eq!(node.latency(ME, 2), Some(4));
    let listed: Vec<(u64, u32)> = node.node_list.iter().map(|(d, n)| (*d, *n)).collect();
    assert_eq!(listed, vec![(4, 2)]);
}

#[test]
fn routed_connect_waits_without_sending() {
    let mut node = Node::new(ME, MY_NET).with_action(NodeAction::ConnectRouted(2, vec![NodePacket::Ping(1)]));
    let sent = node.tick(vec![]);
    assert!(sent.is_empty());
    let pending = node.remote(&2).unwrap().handshake_pending.as_ref().unwrap();
    assert_eq!(pending.1, usize::MAX);
    assert_eq!(pending.2.len(), 1);
    assert!(node.actions_queue.is_empty());
    let mut other = Node::new(ME, MY_NET);
    other.start_routed_handshake(3, vec![], 99);
    let pending = other.remote(&3).unwrap().handshake_pending.as_ref().unwrap();
    assert_eq!((pending.0, pending.1), (99, usize::MAX));
}

#[test]
fn packet_action_sends_through_the_session() {
    let mut node = Node::new(ME, MY_NET);
    node.tick(vec![handshake_from(2, 200, 22)]);
    node.action(NodeAction::Packet(2, NodePacket::PeerNotify(1)));
    node.action(NodeAction::RequestPeers(2, 4));
    let sent = node.tick(vec![]);
    assert_eq!(sent.len(), 2);
    assert_eq!(sent[0].data, b"[2,22,10,1]".to_vec());
    assert_eq!(sent[1].data, b"[2,22,7,4]".to_vec());
    assert_eq!(sent[0].dest_addr, 200);
    assert_eq!(sent[1].src_addr, MY_NET);
}

#[test]
fn solver_takes_the_coordinate_it_is_handed() {
    let mut node = Node::new(ME, MY_NET).with_action(NodeAction::TryCalcRouteCoord);
    node.set_deus_ex_data(Some((12, -7)));
    assert_eq!(node.calculate_route_coord(), Ok((12, -7)));
    node.tick(vec![]);
    assert_eq!(node.route_coord, Some((12, -7)));
    assert_eq!(node.actions_queue.len(), 1);
    assert!(matches!(node.actions_queue[0], NodeAction::CalculatePeers));
    node.tick(vec![]);
    assert!(node.actions_queue.is_empty());
    node.set_deus_ex_data(None);
    assert!(node.calculate_route_coord().is_err());
    assert_eq!(node.route_coord, Some((12, -7)));
}

fn node_with_tested(count: u32) -> Node {
    let mut node = Node::new(ME, MY_NET);
    let handshakes: Vec<InternetPacket> = (1..=count).map(|i| handshake_from(i, i * 100, i as u64)).collect();
    node.tick(handshakes);
    for i in 1..=count {
        node.tick(vec![in_session(i as u64, i * 100, NodePacket::ConnectionInit(0, vec![]))]);
    }
    node
}

#[test]
fn peers_are_the_nearest_viable_nodes() {
    let mut node = node_with_tested(8);
    for i in 1..=8u32 {
        if i != 2 {
            node.remote_mut(&i).unwrap().route_coord = Some((i as i64, 0));
        }
    }
    node.route_coord = Some((0, 0));
    node.action(NodeAction::CalculatePeers);
    node.tick(vec![]);
    assert_eq!(node.peer_list.len(), 5);
    assert_eq!(node.peer_coord(1), Some((1, 0)));
    assert_eq!(node.peer_coord(2), None);
    assert_eq!(node.peer_coord(3), Some((3, 0)));
    assert_eq!(node.peer_coord(4), Some((4, 0)));
    assert_eq!(node.peer_coord(5), Some((5, 0)));
    assert_eq!(node.peer_coord(6), Some((6, 0)));
    assert_eq!(node.peer_coord(7), None);
    assert_eq!(node.peer_coord(8), None);
}

#[test]
fn peers_share_no_coordinate() {
    let mut node = node_with_tested(3);
    node.remote_mut(&1).unwrap().route_coord = Some((5, 5));
    node.remote_mut(&2).unwrap().route_coord = Some((5, 5));
    node.remote_mut(&3).unwrap().route_coord = Some((6, 6));
    node.route_coord = Some((0, 0));
    node.calculate_peers().unwrap();
    assert_eq!(node.peer_list.len(), 2);
    assert_eq!(node.peer_coord(1), None);
    assert_eq!(node.peer_coord(2), Some((5, 5)));
    assert_eq!(node.peer_coord(3), Some((6, 6)));
}

#[test]
fn peer_list_is_rebuilt_from_scratch() {
    let mut node = node_with_tested(2);
    node.remote_mut(&1).unwrap().route_coord = Some((1, 1));
    node.route_coord = Some((0, 0));
    node.calculate_peers().unwrap();
    assert_eq!(node.peer_coord(1), Some((1, 1)));
    node.remote_mut(&1).unwrap().route_coord = None;
    node.remote_mut(&2).unwrap().route_coord = Some((2, 2));
    node.calculate_peers().unwrap();
    assert_eq!(node.peer_coord(1), None);
    assert_eq!(node.peer_coord(2), Some((2, 2)));
    assert_eq!(node.peer_list.len(), 1);
}

#[test]
fn solver_inputs_are_the_placed_nodes_with_their_latency() {
    let mut node = node_with_tested(4);
    node.remote_mut(&1).unwrap().route_coord = Some((1, 0));
    node.remote_mut(&3).unwrap().route_coord = Some((0, 3));
    node.remote_mut(&4).unwrap().route_coord = Some((4, 4));
    assert_eq!(node.solver_inputs(), vec![(1, (1, 0), 1), (3, (0, 3), 3), (4, (4, 4), 4)]);
    assert_eq!(Node::new(ME, MY_NET).solver_inputs(), vec![]);
}

#[test]
fn condition_on_the_clock_releases_at_its_tick() {
    let guarded = NodeAction::Bootstrap(2, 200).gen_condition(NodeActionCondition::RunAt(3));
    let mut node = Node::new(ME, MY_NET).with_action(guarded);
    for _ in 0..3 {
        node.tick(vec![]);
        assert_eq!(node.actions_queue.len(), 1);
        assert!(matches!(node.actions_queue[0], NodeAction::Condition(NodeActionCondition::RunAt(3), _)));
    }
    // at tick 3 the condition holds and the action takes its place
    node.tick(vec![]);
    assert!(matches!(node.actions_queue[0], NodeAction::Bootstrap(2, 200)));
    node.tick(vec![]);
    assert!(matches!(node.actions_queue[0], NodeAction::Connect(2, 200, _)));
    assert!(NodeActionCondition::RunAt(5).check(&node));
    assert!(!NodeActionCondition::RunAt(6).check(&node));
    assert!(!NodeActionCondition::Session(2).check(&node));
}

#[test]
fn gen_condition_wraps_the_action() {
    let guarded = NodeAction::CalculatePeers.gen_condition(NodeActionCondition::Session(4));
    match guarded {
        NodeAction::Condition(NodeActionCondition::Session(4), inner) => {
            assert!(matches!(*inner, NodeAction::CalculatePeers));
        },
        other => panic!("unexpected action {:?}", other),
    }
}

#[test]
fn traverse_action_is_reserved() {
    let mut node = Node::new(ME, MY_NET).with_action(NodeAction::Traverse(2, Box::new(NodePacket::Ping(1))));
    let sent = node.tick(vec![]);
    assert!(sent.is_empty());
    assert!(node.actions_queue.is_empty());
    assert!(node.remotes.is_empty());
}

#[test]
fn run_queue_pairs_actions_with_identifiers() {
    let mut node = Node::new(ME, MY_NET)
        .with_action(NodeAction::Connect(2, 200, vec![]))
        .with_action(NodeAction::Traverse(2, Box::new(NodePacket::Ping(1))))
        .with_action(NodeAction::Connect(3, 300, vec![]))
        .with_action(NodeAction::Connect(4, 400, vec![]));
    let mut sent = Vec::new();
    node.run_queue(&vec![5, 6, 7], &mut sent);
    let data: Vec<Vec<u8>> = sent.iter().map(|p| p.data.clone()).collect();
    assert_eq!(data, vec![b"[0,2,5,10]".to_vec(), b"[0,3,7,10]".to_vec(), b"[0,4,0,10]".to_vec()]);
    assert_eq!(node.ticks, 0);
}

#[test]
fn random_session_identifiers_differ() {
    let mut node = Node::new(ME, MY_NET);
    let mut sent = Vec::new();
    for i in 0..8u32 {
        node.direct_connect(100 + i, 5000 + i, vec![], &mut sent);
    }
    let mut ids: Vec<u64> = sent.iter().map(|p| match NodeEncryption::unpackage(p).unwrap() {
        NodeEncryption::Handshake { session_id, .. } => session_id,
        other => panic!("unexpected envelope {:?}", other),
    }).collect();
    ids.sort();
    ids.dedup();
    assert!(ids.len() > 1);
    node.routed_connect(300, vec![]);
    assert!(node.remote(&300).unwrap().handshake_pending.is_some());
}

#[test]
fn default_node_is_a_new_node_at_zero() {
    let node = Node::default();
    assert_eq!(node.node_id, 0);
    assert_eq!(node.net_id(), 0);
    assert_eq!(node.ticks, 0);
    assert!(node.remotes.is_empty());
    assert!(node.actions_queue.is_empty());
}

#[test]
fn datagrams_are_taken_in_one_by_one_or_in_batches() {
    let mut one = Node::new(ME, MY_NET);
    let mut sent = Vec::new();
    one.receive(handshake_from(1, 100, 11), &mut sent);
    one.receive(in_session(11, 100, NodePacket::Ping(3)), &mut sent);
    one.receive(in_session(12, 100, NodePacket::Ping(4)), &mut sent);
    assert_eq!(sent.len(), 2);
    assert_eq!(one.ticks, 0);
    let mut batch = Node::new(ME, MY_NET);
    let mut sent_in_batch = Vec::new();
    batch.receive_batch(
        vec![
            handshake_from(1, 100, 11),
            in_session(11, 100, NodePacket::Ping(3)),
            in_session(12, 100, NodePacket::Ping(4)),
        ],
        &mut sent_in_batch,
    );
    let data = |sent: &Vec<InternetPacket>| sent.iter().map(|p| p.data.clone()).collect::<Vec<Vec<u8>>>();
    assert_eq!(data(&sent), data(&sent_in_batch));
    assert_eq!(data(&sent), vec![b"[1,11,10,0]".to_vec(), b"[2,11,2,3]".to_vec()]);
}

#[test]
fn copies_have_the_same_content() {
    let action = NodeAction::Connect(
        2,
        200,
        vec![NodePacket::ConnectionInit(1, vec![NodePacket::Ping(2)]), NodePacket::ExchangeInfo(Some((1, 2)), 3, 4)],
    ).gen_condition(NodeActionCondition::RunAt(9));
    assert_eq!(format!("{:?}", action.clone()), format!("{:?}", action));
    let traverse = NodeAction::Traverse(4, Box::new(NodePacket::Traverse(5, Box::new(NodePacket::PeerNotify(6)))));
    assert_eq!(format!("{:?}", traverse.clone()), format!("{:?}", traverse));
    let envelope = NodeEncryption::Session { session_id: 8, packet: NodePacket::WantPing(1, 2) };
    assert_eq!(format!("{:?}", envelope.clone()), format!("{:?}", envelope));
    let datagram = envelope.package(3, 4);
    let copy = datagram.clone();
    assert_eq!((copy.src_addr, copy.dest_addr, copy.data), (3, 4, datagram.data));
}
