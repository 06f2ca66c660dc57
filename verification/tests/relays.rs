use lightscale_server::mesh::MeshTransport;
use lightscale_server::packet::{
    build_packet, frame_header, frame_len, parse_packet, RelayError, RelayPacket, STREAM_MAGIC,
    TYPE_DELIVER, TYPE_REGISTER, TYPE_SEND, UDP_MAGIC,
};
use lightscale_server::stream_relay::{StreamAction, StreamConn, StreamPeers};
use lightscale_server::udp_relay::{after_send, UdpAction, UdpPeers, PEER_TTL};

fn packet(magic: &[u8; 4], kind: u8, from: &str, to: &str, payload: &[u8]) -> Vec<u8> {
    build_packet(magic, kind, from, to, &payload.to_vec()).unwrap()
}

#[test]
fn packets_have_their_layout() {
    assert_eq!(&STREAM_MAGIC, b"LSR2");
    assert_eq!(&UDP_MAGIC, b"LSR1");
    assert_eq!(
        packet(&STREAM_MAGIC, TYPE_SEND, "ab", "c", &[9, 8]),
        vec![b'L', b'S', b'R', b'2', 2, 2, 1, 0, b'a', b'b', b'c', 9, 8]
    );
}

#[test]
fn packets_are_read_back() {
    let bytes = packet(&UDP_MAGIC, TYPE_SEND, "n\u{f6}de", "b", b"hello");
    match parse_packet(&UDP_MAGIC, &bytes) {
        Some(RelayPacket::Send { from_id, to_id, payload }) => {
            assert_eq!(from_id, "n\u{f6}de");
            assert_eq!(to_id, "b");
            assert_eq!(payload, b"hello");
        }
        _ => panic!("send expected"),
    }
    match parse_packet(&UDP_MAGIC, &packet(&UDP_MAGIC, TYPE_REGISTER, "a", "", b"")) {
        Some(RelayPacket::Register { node_id }) => assert_eq!(node_id, "a"),
        _ => panic!("register expected"),
    }
}

#[test]
fn bad_packets_are_rejected() {
    let rejected = |bytes: &[u8]| parse_packet(&UDP_MAGIC, &bytes.to_vec()).is_none();
    let send = packet(&UDP_MAGIC, TYPE_SEND, "a", "b", b"x");
    assert!(!rejected(&send));
    assert!(rejected(&send[..7]));
    assert!(rejected(&send[..9]));
    assert!(rejected(&packet(&STREAM_MAGIC, TYPE_SEND, "a", "b", b"x")));
    assert!(rejected(&packet(&UDP_MAGIC, TYPE_DELIVER, "a", "", b"x")));
    assert!(rejected(&packet(&UDP_MAGIC, TYPE_SEND, "", "b", b"x")));
    assert!(rejected(&packet(&UDP_MAGIC, TYPE_SEND, "a", "", b"x")));
    assert!(rejected(&packet(&UDP_MAGIC, TYPE_REGISTER, "a", "b", b"")));
    assert!(rejected(&packet(&UDP_MAGIC, TYPE_REGISTER, "", "", b"")));
    let mut long = send.clone();
    long[5] = 65;
    long.extend([b'a'; 80]);
    assert!(rejected(&long));
    let mut bad = send.clone();
    bad[8] = 0xff;
    assert!(rejected(&bad));
    let name = "x".repeat(65);
    assert!(matches!(
        build_packet(&UDP_MAGIC, TYPE_SEND, &name, "b", &vec![]),
        Err(RelayError::IdTooLong)
    ));
    assert!(build_packet(&UDP_MAGIC, TYPE_SEND, &name[1..], "b", &vec![]).is_ok());
}

#[test]
fn frames_announce_their_length() {
    assert_eq!(frame_header(1), Ok([0, 0, 0, 1]));
    assert_eq!(frame_header(65536), Ok([0, 1, 0, 0]));
    assert_eq!(frame_header(0x1234), Ok([0, 0, 0x12, 0x34]));
    assert_eq!(frame_header(0), Err(RelayError::FrameLength(0)));
    assert_eq!(frame_header(65537), Err(RelayError::FrameLength(65537)));
    for len in [1usize, 255, 256, 65535, 65536] {
        assert_eq!(frame_len(&frame_header(len).unwrap()), Ok(len));
    }
    assert_eq!(frame_len(&[0, 0, 0, 0]), Err(RelayError::FrameLength(0)));
    assert_eq!(frame_len(&[0, 1, 0, 1]), Err(RelayError::FrameLength(65537)));
    assert_eq!(frame_len(&[1, 0, 0, 0]), Err(RelayError::FrameLength(16777216)));
}

#[test]
fn stream_relay_delivers_to_all_connections_of_the_target() {
    let mut peers = StreamPeers::new();
    let mut first = StreamConn::new(1);
    let mut second = StreamConn::new(2);
    let mut sender = StreamConn::new(3);
    let hello = |name: &str| packet(&STREAM_MAGIC, TYPE_REGISTER, name, "", b"");
    assert!(matches!(first.step(&mut peers, &hello("b")), Ok(StreamAction::Registered)));
    assert!(matches!(second.step(&mut peers, &hello("b")), Ok(StreamAction::Registered)));
    assert!(matches!(sender.step(&mut peers, &hello("a")), Ok(StreamAction::Registered)));
    assert!(matches!(sender.step(&mut peers, &hello("a")), Ok(StreamAction::Unexpected)));
    let send = packet(&STREAM_MAGIC, TYPE_SEND, "a", "b", b"hi");
    match sender.step(&mut peers, &send) {
        Ok(StreamAction::Deliver { conns, packet: bytes }) => {
            assert_eq!(conns, vec![1, 2]);
            assert_eq!(bytes, packet(&STREAM_MAGIC, TYPE_DELIVER, "a", "", b"hi"));
        }
        _ => panic!("delivery expected"),
    }
    let spoofed = packet(&STREAM_MAGIC, TYPE_SEND, "b", "a", b"hi");
    match sender.step(&mut peers, &spoofed) {
        Ok(StreamAction::Spoofed { from_id }) => assert_eq!(from_id, "b"),
        _ => panic!("spoofed expected"),
    }
    let away = packet(&STREAM_MAGIC, TYPE_SEND, "a", "z", b"hi");
    match sender.step(&mut peers, &away) {
        Ok(StreamAction::Forward { from_id, to_id, payload }) => {
            assert_eq!((from_id.as_str(), to_id.as_str()), ("a", "z"));
            assert_eq!(payload, b"hi");
        }
        _ => panic!("forward expected"),
    }
    assert!(matches!(sender.step(&mut peers, &vec![0]), Ok(StreamAction::Invalid)));
    let (conns, bytes) = peers.on_mesh("far", "b", &b"yo".to_vec()).unwrap();
    assert_eq!(conns, vec![1, 2]);
    assert_eq!(bytes, packet(&STREAM_MAGIC, TYPE_DELIVER, "far", "", b"yo"));
    assert!(peers.on_mesh("far", "z", &vec![]).is_none());
    assert!(peers.on_mesh(&"x".repeat(65), "b", &vec![]).is_none());
    first.end(&mut peers);
    assert_eq!(peers.targets("b"), Some(vec![2]));
    second.end(&mut peers);
    assert_eq!(peers.targets("b"), None);
    sender.end(&mut peers);
    assert_eq!(peers.targets("a"), None);
}

#[test]
fn stream_connections_begin_with_a_name() {
    let mut peers = StreamPeers::new();
    let mut conn = StreamConn::new(1);
    assert!(matches!(conn.step(&mut peers, &vec![1, 2]), Err(RelayError::InvalidRegister)));
    let send = packet(&STREAM_MAGIC, TYPE_SEND, "a", "b", b"");
    assert!(matches!(conn.step(&mut peers, &send), Err(RelayError::ExpectedRegister)));
    conn.end(&mut peers);
    assert_eq!(peers.targets("a"), None);
}

#[test]
fn udp_relay_knows_where_nodes_were_heard_of() {
    let mut peers: UdpPeers<u16> = UdpPeers::new();
    let hello = packet(&UDP_MAGIC, TYPE_REGISTER, "b", "", b"");
    assert!(matches!(peers.on_datagram(&hello, 20, 5), UdpAction::Registered));
    assert!(matches!(peers.on_datagram(&vec![], 20, 5), UdpAction::Invalid));
    let send = packet(&UDP_MAGIC, TYPE_SEND, "a", "b", b"hi");
    match peers.on_datagram(&send, 10, 6) {
        UdpAction::Send { target, from_id, to_id, payload } => {
            let (addr, bytes) = target.unwrap();
            assert_eq!(addr, 20);
            assert_eq!(bytes, packet(&UDP_MAGIC, TYPE_DELIVER, "a", "", b"hi"));
            assert_eq!((from_id.as_str(), to_id.as_str()), ("a", "b"));
            assert_eq!(payload, b"hi");
        }
        _ => panic!("send expected"),
    }
    let back = peers.deliver_local("b", "a", &b"yo".to_vec()).unwrap().unwrap();
    assert_eq!(back.0, 10);
    assert_eq!(peers.deliver_local("b", "z", &vec![]).unwrap(), None);
    assert!(matches!(
        peers.deliver_local(&"x".repeat(65), "a", &vec![]),
        Err(RelayError::IdTooLong)
    ));
    let unknown = packet(&UDP_MAGIC, TYPE_SEND, "a", "z", b"hi");
    match peers.on_datagram(&unknown, 11, 7) {
        UdpAction::Send { target, .. } => assert_eq!(target, None),
        _ => panic!("send expected"),
    }
    assert_eq!(peers.deliver_local("b", "a", &vec![]).unwrap().unwrap().0, 11);
}

#[test]
fn udp_relay_forgets_silent_nodes() {
    let mut peers: UdpPeers<u16> = UdpPeers::new();
    peers.upsert_peer("a", 1, 0);
    peers.upsert_peer("b", 2, 100);
    peers.cleanup(PEER_TTL - 1);
    assert!(peers.deliver_local("x", "a", &vec![]).unwrap().is_some());
    peers.cleanup(PEER_TTL);
    assert!(peers.deliver_local("x", "a", &vec![]).unwrap().is_none());
    assert!(peers.deliver_local("x", "b", &vec![]).unwrap().is_some());
    peers.cleanup(0);
    assert!(peers.deliver_local("x", "b", &vec![]).unwrap().is_some());
}

#[test]
fn registration_ignores_a_payload() {
    let bytes = packet(&STREAM_MAGIC, TYPE_REGISTER, "a", "", b"more");
    assert!(matches!(
        parse_packet(&STREAM_MAGIC, &bytes),
        Some(RelayPacket::Register { node_id }) if node_id == "a"
    ));
}

#[test]
fn unsent_packets_go_to_the_mesh() {
    let packet = |sent: bool| after_send(sent, "a".to_string(), "b".to_string(), vec![1]);
    assert!(packet(true).is_none());
    let unsent = packet(false).unwrap();
    assert_eq!(unsent.transport, MeshTransport::Udp);
    assert_eq!((unsent.from_id.as_str(), unsent.to_id.as_str()), ("a", "b"));
    assert_eq!(unsent.payload, vec![1]);
}
