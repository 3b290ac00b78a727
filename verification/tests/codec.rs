use overlay_node::envelope::{InternetPacket, NodeEncryption};
use overlay_node::packet::NodePacket;
use overlay_node::types::NodeError;
use overlay_node::wire::{coord_to_word, decode_packet, encode_packet, word_to_coord, MAX_PACKET_DEPTH};

fn same_packet(a: &NodePacket, b: &NodePacket) -> bool {
    format!("{:?}", a) == format!("{:?}", b)
}

fn through_the_wire(packet: NodePacket) -> NodePacket {
    let datagram = NodeEncryption::Session { session_id: 9, packet }.package(1, 2);
    match NodeEncryption::unpackage(&datagram).unwrap() {
        NodeEncryption::Session { session_id, packet } => {
            assert_eq!(session_id, 9);
            packet
        },
        other => panic!("unexpected envelope {:?}", other),
    }
}

fn survives(packet: NodePacket) {
    let shown = format!("{:?}", packet);
    let back = through_the_wire(packet);
    assert_eq!(format!("{:?}", back), shown);
}

#[test]
fn handshake_has_the_expected_bytes() {
    let datagram = NodeEncryption::Handshake { recipient: 2, session_id: 7, signer: 1 }.package(100, 200);
    assert_eq!(datagram.src_addr, 100);
    assert_eq!(datagram.dest_addr, 200);
    assert_eq!(datagram.data, b"[0,2,7,1]".to_vec());
}

#[test]
fn acknowledge_has_the_expected_words() {
    let envelope = NodeEncryption::Acknowledge { session_id: 7, acknowledger: 2, return_ping_id: 0 };
    assert_eq!(envelope.to_words(), vec![1, 7, 2, 0]);
    assert_eq!(envelope.package(5, 6).data, b"[1,7,2,0]".to_vec());
}

#[test]
fn session_ping_has_the_expected_words() {
    let envelope = NodeEncryption::Session { session_id: 3, packet: NodePacket::Ping(8) };
    assert_eq!(envelope.to_words(), vec![2, 3, 1, 8]);
}

#[test]
fn envelopes_survive_the_wire() {
    let handshake = NodeEncryption::Handshake { recipient: u32::MAX, session_id: u64::MAX, signer: 0 };
    let back = NodeEncryption::unpackage(&handshake.package(1, 2)).unwrap();
    assert_eq!(format!("{:?}", back), format!("{:?}", handshake));
    let acknowledge = NodeEncryption::Acknowledge { session_id: 12, acknowledger: 4, return_ping_id: u32::MAX };
    let back = NodeEncryption::unpackage(&acknowledge.package(1, 2)).unwrap();
    assert_eq!(format!("{:?}", back), format!("{:?}", acknowledge));
}

#[test]
fn every_kind_of_packet_survives_the_wire() {
    survives(NodePacket::Ping(0));
    survives(NodePacket::PingResponse(u32::MAX));
    survives(NodePacket::ExchangeInfo(None, 3, 17));
    survives(NodePacket::ExchangeInfo(Some((-5, 6)), usize::MAX, u64::MAX));
    survives(NodePacket::ExchangeInfoResponse(Some((i64::MIN, i64::MAX)), 0, 0));
    survives(NodePacket::ExchangeInfoResponse(None, 1, 2));
    survives(NodePacket::ProposeRouteCoords((0, 0), (0, 2)));
    survives(NodePacket::ProposeRouteCoordsResponse((0, 2), (0, 0), true));
    survives(NodePacket::ProposeRouteCoordsResponse((-1, -2), (3, 4), false));
    survives(NodePacket::RequestPings(10));
    survives(NodePacket::WantPing(4, 400));
    survives(NodePacket::AcceptWantPing(3, 6));
    survives(NodePacket::PeerNotify(255));
    survives(NodePacket::Traverse(9, Box::new(NodePacket::Ping(1))));
    survives(NodePacket::ConnectionInit(0, vec![]));
    survives(NodePacket::ConnectionInit(
        5,
        vec![
            NodePacket::ExchangeInfo(None, 1, 2),
            NodePacket::ConnectionInit(1, vec![NodePacket::Ping(3), NodePacket::PeerNotify(2)]),
            NodePacket::AcceptWantPing(7, 8),
        ],
    ));
}

#[test]
fn coordinates_keep_their_order_as_words() {
    assert_eq!(coord_to_word(i64::MIN), 0);
    assert_eq!(coord_to_word(-1), (1u64 << 63) - 1);
    assert_eq!(coord_to_word(0), 1u64 << 63);
    assert_eq!(coord_to_word(i64::MAX), u64::MAX);
    assert_eq!(word_to_coord(0), i64::MIN);
    assert_eq!(word_to_coord(1u64 << 63), 0);
    assert_eq!(word_to_coord(u64::MAX), i64::MAX);
    assert_eq!(word_to_coord(coord_to_word(-123456789)), -123456789);
}

#[test]
fn bytes_that_are_no_json_are_rejected() {
    let datagram = InternetPacket { src_addr: 1, dest_addr: 2, data: b"not json".to_vec() };
    assert_eq!(NodeEncryption::unpackage(&datagram).err(), Some(NodeError::SerdeDecodeError));
    let empty = InternetPacket { src_addr: 1, dest_addr: 2, data: Vec::new() };
    assert_eq!(NodeEncryption::unpackage(&empty).err(), Some(NodeError::SerdeDecodeError));
}

#[test]
fn words_that_are_no_envelope_are_rejected() {
    let rejected: Vec<&[u8]> = vec![
        b"[]",
        b"[0]",
        b"[3,1,2,3]",
        b"[0,2,7]",
        b"[0,2,7,1,5]",
        b"[0,4294967296,7,1]",
        b"[1,7,2,4294967296]",
        b"[2,7]",
        b"[2,7,1]",
        b"[2,7,1,4294967296]",
        b"[2,7,1,8,0]",
        b"[2,7,12,0]",
        b"[2,7,10,256]",
        b"[2,7,6,0,0,0,0,2]",
        b"[2,7,3,2,0,0,1,1]",
        b"[2,7,0,0,2,1,5]",
        b"[-1,2,7,1]",
        b"[0.5,2,7,1]",
    ];
    for data in rejected {
        let datagram = InternetPacket { src_addr: 1, dest_addr: 2, data: data.to_vec() };
        assert_eq!(NodeEncryption::unpackage(&datagram).err(), Some(NodeError::SerdeDecodeError));
    }
}

#[test]
fn words_are_read_as_written() {
    assert!(NodeEncryption::from_words(&vec![0, 2, 7, 1]).is_some());
    assert!(NodeEncryption::from_words(&vec![2, 7, 0, 4, 2, 1, 5, 2, 6]).is_some());
    match NodeEncryption::from_words(&vec![2, 7, 0, 4, 2, 1, 5, 2, 6]).unwrap() {
        NodeEncryption::Session { session_id: 7, packet: NodePacket::ConnectionInit(4, packets) } => {
            assert_eq!(packets.len(), 2);
            assert!(same_packet(&packets[0], &NodePacket::Ping(5)));
            assert!(same_packet(&packets[1], &NodePacket::PingResponse(6)));
        },
        other => panic!("unexpected envelope {:?}", other),
    }
}

#[test]
fn packets_are_appended_to_what_is_there() {
    let mut words: Vec<u64> = vec![42];
    encode_packet(&NodePacket::WantPing(4, 400), &mut words);
    assert_eq!(words, vec![42, 8, 4, 400]);
    let (packet, end) = decode_packet(&words, 1, 0).unwrap();
    assert!(same_packet(&packet, &NodePacket::WantPing(4, 400)));
    assert_eq!(end, 4);
    assert!(decode_packet(&words, 4, 0).is_none());
    assert!(decode_packet(&words, 3, 0).is_none());
}

fn nested(depth: usize) -> NodePacket {
    let mut packet = NodePacket::Ping(1);
    for _ in 0..depth {
        packet = NodePacket::ConnectionInit(0, vec![packet]);
    }
    packet
}

#[test]
fn nesting_is_read_down_to_the_limit() {
    survives(nested(MAX_PACKET_DEPTH));
    let too_deep = NodeEncryption::Session { session_id: 1, packet: nested(MAX_PACKET_DEPTH + 1) };
    let datagram = too_deep.package(1, 2);
    assert_eq!(NodeEncryption::unpackage(&datagram).err(), Some(NodeError::SerdeDecodeError));
    let mut traversed = NodePacket::Ping(1);
    for _ in 0..MAX_PACKET_DEPTH {
        traversed = NodePacket::Traverse(3, Box::new(traversed));
    }
    survives(traversed);
}

#[test]
fn a_count_beyond_the_packets_is_rejected() {
    let datagram = InternetPacket { src_addr: 1, dest_addr: 2, data: b"[2,7,0,4,3,1,5,2,6]".to_vec() };
    assert_eq!(NodeEncryption::unpackage(&datagram).err(), Some(NodeError::SerdeDecodeError));
    let huge = InternetPacket { src_addr: 1, dest_addr: 2, data: b"[2,7,0,4,4294967295,1,5]".to_vec() };
    assert_eq!(NodeEncryption::unpackage(&huge).err(), Some(NodeError::SerdeDecodeError));
}
