use overlay_node::action::NodeAction;
use overlay_node::envelope::{InternetPacket, NodeEncryption};
use overlay_node::node::Node;
use overlay_node::packet::NodePacket;
use overlay_node::remote::RemoteNode;
use overlay_node::types::{NodeError, RemoteNodeError, SessionError};

fn node_with_session() -> Node {
    let mut node = Node::new(10, 1000);
    node.tick(vec![NodeEncryption::Handshake { recipient: 10, session_id: 11, signer: 1 }.package(100, 1000)]);
    node
}

#[test]
fn datagram_for_another_address_is_rejected() {
    let mut node = node_with_session();
    let mut sent = Vec::new();
    let datagram = NodeEncryption::Handshake { recipient: 10, session_id: 5, signer: 2 }.package(200, 999);
    let result = node.parse_packet(datagram, &mut sent);
    assert_eq!(result.err(), Some(NodeError::InvalidNetworkRecipient { from: 200, intended_dest: 999 }));
    assert!(sent.is_empty());
    assert!(node.remote(&2).is_err());
}

#[test]
fn the_address_is_checked_before_the_bytes() {
    let mut node = node_with_session();
    let mut sent = Vec::new();
    let datagram = InternetPacket { src_addr: 200, dest_addr: 999, data: b"garbage".to_vec() };
    let result = node.parse_packet(datagram, &mut sent);
    assert_eq!(result.err(), Some(NodeError::InvalidNetworkRecipient { from: 200, intended_dest: 999 }));
}

#[test]
fn undecodable_datagram_is_rejected() {
    let mut node = node_with_session();
    let mut sent = Vec::new();
    let datagram = InternetPacket { src_addr: 200, dest_addr: 1000, data: b"garbage".to_vec() };
    let result = node.parse_packet(datagram, &mut sent);
    assert_eq!(result.err(), Some(NodeError::SerdeDecodeError));
    assert!(sent.is_empty());
}

#[test]
fn handshake_for_another_node_is_rejected() {
    let mut node = node_with_session();
    let mut sent = Vec::new();
    let datagram = NodeEncryption::Handshake { recipient: 12, session_id: 5, signer: 2 }.package(200, 1000);
    let result = node.parse_packet(datagram, &mut sent);
    assert_eq!(
        result.err(),
        Some(NodeError::RemoteNodeError(RemoteNodeError::UnknownAckRecipient { recipient: 12 })),
    );
    assert!(sent.is_empty());
    assert!(node.remote(&2).is_err());
    assert_eq!(node.session_node(5), None);
}

#[test]
fn acknowledgement_of_an_unknown_node_is_rejected() {
    let mut node = node_with_session();
    let mut sent = Vec::new();
    let datagram = NodeEncryption::Acknowledge { session_id: 5, acknowledger: 2, return_ping_id: 0 }.package(200, 1000);
    let result = node.parse_packet(datagram, &mut sent);
    assert_eq!(result.err(), Some(NodeError::NoRemoteError { node_id: 2 }));
    assert!(sent.is_empty());
}

#[test]
fn acknowledgement_without_handshake_is_rejected() {
    let mut node = node_with_session();
    let mut sent = Vec::new();
    let datagram = NodeEncryption::Acknowledge { session_id: 11, acknowledger: 1, return_ping_id: 0 }.package(100, 1000);
    let result = node.parse_packet(datagram, &mut sent);
    assert_eq!(result.err(), Some(NodeError::RemoteNodeError(RemoteNodeError::NoPendingHandshake)));
    assert!(sent.is_empty());
    assert_eq!(node.remote(&1).unwrap().session().unwrap().session_id, 11);
}

#[test]
fn acknowledgement_of_another_session_changes_nothing() {
    let mut node = Node::new(10, 1000).with_action(NodeAction::Connect(2, 200, vec![]));
    let handshakes = node.tick(vec![]);
    let chosen = match NodeEncryption::unpackage(&handshakes[0]).unwrap() {
        NodeEncryption::Handshake { recipient: 2, session_id, signer: 10 } => session_id,
        other => panic!("unexpected envelope {:?}", other),
    };
    let mut sent = Vec::new();
    let wrong = chosen.wrapping_add(1);
    let datagram = NodeEncryption::Acknowledge { session_id: wrong, acknowledger: 2, return_ping_id: 0 }.package(200, 1000);
    let result = node.parse_packet(datagram, &mut sent);
    assert_eq!(result.err(), Some(NodeError::RemoteNodeError(RemoteNodeError::UnknownAck { passed: wrong })));
    assert!(sent.is_empty());
    assert_eq!(node.remote(&2).unwrap().handshake_pending.as_ref().unwrap().0, chosen);
    assert!(!node.has_session(2));
    assert_eq!(node.session_node(wrong), None);
    // the right acknowledgement still completes the handshake
    let datagram = NodeEncryption::Acknowledge { session_id: chosen, acknowledger: 2, return_ping_id: 0 }.package(200, 1000);
    let result = node.parse_packet(datagram, &mut sent);
    assert!(matches!(result, Ok(None)));
    assert_eq!(sent.len(), 1);
    assert!(node.has_session(2));
    assert!(node.remote(&2).unwrap().handshake_pending.is_none());
    // and only once
    let datagram = NodeEncryption::Acknowledge { session_id: chosen, acknowledger: 2, return_ping_id: 0 }.package(200, 1000);
    let result = node.parse_packet(datagram, &mut sent);
    assert_eq!(result.err(), Some(NodeError::RemoteNodeError(RemoteNodeError::NoPendingHandshake)));
    assert_eq!(sent.len(), 1);
}

#[test]
fn packet_of_an_unknown_session_is_rejected() {
    let mut node = node_with_session();
    let mut sent = Vec::new();
    let datagram = NodeEncryption::Session { session_id: 12, packet: NodePacket::Ping(1) }.package(100, 1000);
    let result = node.parse_packet(datagram, &mut sent);
    assert_eq!(result.err(), Some(NodeError::UnknownSession { session_id: 12 }));
    let through_tick = node.tick(vec![
        NodeEncryption::Session { session_id: 12, packet: NodePacket::Ping(1) }.package(100, 1000),
    ]);
    assert!(through_tick.is_empty());
}

#[test]
fn packet_of_a_known_session_is_handed_back() {
    let mut node = node_with_session();
    let mut sent = Vec::new();
    let datagram = NodeEncryption::Session { session_id: 11, packet: NodePacket::Ping(1) }.package(100, 1000);
    match node.parse_packet(datagram, &mut sent) {
        Ok(Some((1, NodePacket::Ping(1)))) => {},
        other => panic!("unexpected result {:?}", other),
    }
    assert!(sent.is_empty());
}

#[test]
fn packet_of_an_unknown_node_is_rejected() {
    let mut node = node_with_session();
    let mut sent = Vec::new();
    let result = node.parse_node_packet(7, NodePacket::Ping(1), &mut sent);
    assert_eq!(result, Err(NodeError::NoRemoteError { node_id: 7 }));
    assert!(sent.is_empty());
}

#[test]
fn packet_of_a_node_without_session_is_rejected() {
    let mut node = node_with_session();
    node.remotes.insert(7, RemoteNode::new(7));
    let mut sent = Vec::new();
    let result = node.parse_node_packet(7, NodePacket::Ping(1), &mut sent);
    assert_eq!(result, Err(NodeError::RemoteNodeError(RemoteNodeError::NoSessionError { node_id: 7 })));
    assert!(sent.is_empty());
}

#[test]
fn answer_to_an_unknown_ping_is_rejected() {
    let mut node = node_with_session();
    let mut sent = Vec::new();
    let result = node.parse_node_packet(1, NodePacket::PingResponse(4), &mut sent);
    assert_eq!(result, Err(NodeError::SessionError(SessionError::UnknownPingID { ping_id: 4 })));
    let result = node.parse_node_packet(1, NodePacket::ConnectionInit(4, vec![NodePacket::Ping(1)]), &mut sent);
    assert_eq!(result, Err(NodeError::SessionError(SessionError::UnknownPingID { ping_id: 4 })));
    assert!(sent.is_empty());
    assert!(node.node_list.is_empty());
    assert_eq!(node.latency(10, 1), None);
}

#[test]
fn actions_on_unknown_nodes_fail() {
    let mut node = node_with_session();
    let mut sent = Vec::new();
    let result = node.parse_action(NodeAction::Packet(7, NodePacket::Ping(1)), &mut sent);
    assert_eq!(result.err(), Some(NodeError::NoRemoteError { node_id: 7 }));
    let result = node.parse_action(NodeAction::RequestPeers(7, 3), &mut sent);
    assert_eq!(result.err(), Some(NodeError::NoRemoteError { node_id: 7 }));
    node.remotes.insert(7, RemoteNode::new(7));
    let result = node.parse_action(NodeAction::Packet(7, NodePacket::Ping(1)), &mut sent);
    assert_eq!(
        result.err(),
        Some(NodeError::RemoteNodeError(RemoteNodeError::NoSessionError { node_id: 7 })),
    );
    assert!(sent.is_empty());
}

#[test]
fn solver_and_peer_selection_need_a_coordinate() {
    let mut node = node_with_session();
    let mut sent = Vec::new();
    let result = node.parse_action(NodeAction::TryCalcRouteCoord, &mut sent);
    assert_eq!(result.err(), Some(NodeError::NoCalculatedRouteCoord));
    assert_eq!(node.calculate_route_coord(), Err(NodeError::NoCalculatedRouteCoord));
    let result = node.parse_action(NodeAction::CalculatePeers, &mut sent);
    assert_eq!(result.err(), Some(NodeError::NoCalculatedRouteCoord));
    assert_eq!(node.calculate_peers(), Err(NodeError::NoCalculatedRouteCoord));
    assert_eq!(node.route_coord, None);
    assert!(node.actions_queue.is_empty());
}

#[test]
fn failing_actions_are_dropped_from_the_queue() {
    let mut node = node_with_session();
    node.action(NodeAction::Packet(7, NodePacket::Ping(1)));
    node.action(NodeAction::CalculatePeers);
    node.action(NodeAction::Packet(1, NodePacket::Ping(2)));
    let sent = node.tick(vec![]);
    assert_eq!(sent.len(), 1);
    assert!(node.actions_queue.is_empty());
}

#[test]
fn remote_record_is_found_or_missing() {
    let mut node = node_with_session();
    assert_eq!(node.remote(&1).unwrap().node_id, 1);
    assert_eq!(node.remote(&2).err(), Some(NodeError::NoRemoteError { node_id: 2 }));
    assert_eq!(node.remote_mut(&2).err(), Some(NodeError::NoRemoteError { node_id: 2 }));
    node.remote_mut(&1).unwrap().route_coord = Some((3, 4));
    assert_eq!(node.remote(&1).unwrap().route_coord, Some((3, 4)));
    assert!(node.remote(&1).unwrap().session_active());
    let fresh = RemoteNode::new(5);
    assert!(!fresh.session_active());
    assert_eq!(fresh.session().err(), Some(RemoteNodeError::NoSessionError { node_id: 5 }));
    let mut sent = Vec::new();
    assert_eq!(
        fresh.add_packet(NodePacket::Ping(1), 1000, &mut sent),
        Err(RemoteNodeError::NoSessionError { node_id: 5 }),
    );
    assert!(sent.is_empty());
    assert_eq!(fresh.is_viable_peer((0, 0)), None);
}

#[test]
fn errors_compare_by_what_they_hold() {
    assert_eq!(
        NodeError::InvalidHandshakeRecipient { node_id: 3 },
        NodeError::InvalidHandshakeRecipient { node_id: 3 },
    );
    assert_ne!(
        NodeError::InvalidHandshakeRecipient { node_id: 3 },
        NodeError::InvalidHandshakeRecipient { node_id: 4 },
    );
    assert_ne!(NodeError::UnknownAcknowledgement { from: 3 }, NodeError::NoRemoteError { node_id: 3 });
    assert_eq!(
        format!("{:?}", NodeError::UnknownAcknowledgement { from: 7 }),
        "UnknownAcknowledgement { from: 7 }",
    );
}
