use lightscale_server::config::MeshPeer;
use lightscale_server::mesh::{
    after_delivery, next_targets, peer_server_name, server_name, Mesh, MeshConn, MeshError,
    MeshEvent, MeshFrame, MeshMessage, MeshOutgoingPacket, MeshTransport, MAX_ROUTE_HINTS,
    MAX_SEEN_IDS, ROUTE_TTL, SEEN_TTL,
};

fn peers(ids: &[&str]) -> Vec<MeshPeer> {
    ids.iter()
        .map(|id| MeshPeer {
            id: id.to_string(),
            addr: format!("{}:1", id),
        })
        .collect()
}

fn mesh() -> Mesh {
    Mesh::new("me".to_string(), 4, &peers(&["a", "b", "c"])).ok().unwrap()
}

fn connected() -> Mesh {
    let mut mesh = mesh();
    mesh.connect("a", 1);
    mesh.connect("b", 2);
    mesh.connect("c", 3);
    mesh
}

fn hello(id: &str) -> MeshFrame {
    MeshFrame::Hello {
        server_id: id.to_string(),
    }
}

fn relay(id: &str, payload: &str, hops_left: u8) -> MeshFrame {
    MeshFrame::Relay {
        message_id: id.to_string(),
        transport: MeshTransport::Udp,
        from_id: "n1".to_string(),
        to_id: "n2".to_string(),
        payload_b64: payload.to_string(),
        hops_left,
    }
}

fn refusal<T>(result: Result<T, MeshError>) -> String {
    match result {
        Ok(_) => "ok".to_string(),
        Err(error) => error.text(),
    }
}

fn refusal_or(result: Result<String, MeshError>) -> String {
    match result {
        Ok(name) => name,
        Err(error) => error.text(),
    }
}

#[test]
fn mesh_needs_a_name_and_hops() {
    assert_eq!(
        refusal(Mesh::new("  ".to_string(), 0, &peers(&[]))),
        "mesh server id must be non-empty"
    );
    assert_eq!(
        refusal(Mesh::new("me".to_string(), 0, &peers(&[]))),
        "mesh max hops must be > 0"
    );
    assert!(matches!(mesh().hello(), MeshFrame::Hello { server_id } if server_id == "me"));
}

#[test]
fn peers_are_turned_away_for_each_reason() {
    let mesh = mesh();
    assert_eq!(refusal(mesh.validate_peer(None, "a")), "ok");
    assert_eq!(refusal(mesh.validate_peer(Some("a"), "a")), "ok");
    assert_eq!(refusal(mesh.validate_peer(None, "")), "mesh peer id is empty");
    assert_eq!(
        refusal(mesh.validate_peer(None, "me")),
        "mesh peer id matched local server id"
    );
    assert_eq!(
        refusal(mesh.validate_peer(Some("a"), "b")),
        "mesh peer id mismatch: expected a, got b"
    );
    assert_eq!(
        refusal(mesh.validate_peer(None, "x")),
        "mesh peer x is not in allowlist"
    );
    let lonely = Mesh::new("me".to_string(), 1, &peers(&[])).ok().unwrap();
    assert_eq!(refusal(lonely.validate_peer(None, "a")), "mesh peer allowlist is empty");
}

#[test]
fn connections_begin_with_a_hello() {
    let mut mesh = mesh();
    let mut conn = MeshConn::new(7, Some("a".to_string()));
    assert_eq!(
        refusal(conn.step(&mut mesh, relay("m", "", 1), 0)),
        "mesh expected hello frame"
    );
    assert_eq!(
        refusal(conn.step(&mut mesh, hello("b"), 0)),
        "mesh peer id mismatch: expected a, got b"
    );
    assert!(matches!(conn.step(&mut mesh, hello("a"), 0), Ok(MeshEvent::Connected)));
    assert_eq!(conn.peer(), Some("a".to_string()));
    assert!(matches!(conn.step(&mut mesh, hello("x"), 0), Ok(MeshEvent::Handled)));
    match conn.step(&mut mesh, relay("m", "aGk=", 2), 0) {
        Ok(MeshEvent::Deliver(message)) => {
            assert_eq!(message.payload, b"hi");
            assert_eq!(message.hops_left, 2);
            assert_eq!(message.from_id, "n1");
        }
        _ => panic!("message expected"),
    }
    assert!(matches!(
        conn.step(&mut mesh, relay("m", "aGk=", 2), 1),
        Ok(MeshEvent::Handled)
    ));
    match conn.step(&mut mesh, relay("m2", "?", 2), 1) {
        Ok(MeshEvent::Dropped(error)) => assert_eq!(error.text(), "mesh payload decode failed"),
        _ => panic!("error expected"),
    }
    assert_eq!(mesh.forward_to_target(None, "n1", 2).direct, Some(7));
    conn.end(&mut mesh);
    assert_eq!(mesh.forward_to_target(None, "n1", 2).direct, None);
}

#[test]
fn later_connection_of_a_peer_stays() {
    let mut mesh = mesh();
    mesh.connect("a", 1);
    mesh.connect("a", 2);
    mesh.disconnect("a", 1);
    assert_eq!(mesh.forward_to_target(None, "n", 0).flood, vec![2]);
    mesh.disconnect("a", 2);
    assert!(mesh.forward_to_target(None, "n", 0).flood.is_empty());
}

#[test]
fn messages_are_seen_once() {
    let mut mesh = mesh();
    assert!(mesh.remember_message("m", 0));
    assert!(!mesh.remember_message("m", SEEN_TTL - 1));
    assert!(mesh.remember_message("m", SEEN_TTL));
    assert!(!mesh.remember_message("m", SEEN_TTL));
}

#[test]
fn old_messages_make_room() {
    let mut mesh = mesh();
    for i in 0..=MAX_SEEN_IDS {
        assert!(mesh.remember_message(&format!("m{}", i), i as u64));
    }
    let now = MAX_SEEN_IDS as u64;
    assert!(!mesh.remember_message("m1", now));
    assert!(mesh.remember_message("m0", now));
    assert!(mesh.remember_message("m1", now));
}

#[test]
fn routes_are_learned_and_forgotten() {
    let mut mesh = connected();
    mesh.learn_route("n", "b", 10);
    assert_eq!(mesh.lookup_route("n", 10), Some("b".to_string()));
    let forwarding = mesh.forward_to_target(Some("a"), "n", 10);
    assert_eq!(forwarding.direct, Some(2));
    assert_eq!(forwarding.flood, vec![2, 3]);
    let back = mesh.forward_to_target(Some("b"), "n", 10);
    assert_eq!(back.direct, None);
    assert_eq!(back.flood, vec![1, 3]);
    assert_eq!(mesh.lookup_route("n", 10 + ROUTE_TTL), Some("b".to_string()));
    assert_eq!(mesh.lookup_route("n", 11 + ROUTE_TTL), None);
    assert_eq!(mesh.lookup_route("n", 10), None);
    mesh.learn_route("", "b", 10);
    mesh.learn_route("n", "", 10);
    assert_eq!(mesh.lookup_route("", 10), None);
    assert_eq!(mesh.lookup_route("n", 10), None);
    mesh.learn_route("n", "c", 10);
    mesh.learn_route("n", "a", 11);
    assert_eq!(mesh.lookup_route("n", 11), Some("a".to_string()));
    assert_eq!(MAX_ROUTE_HINTS, 16384);
}

#[test]
fn packets_start_with_all_hops() {
    let mut mesh = mesh();
    let packet = MeshOutgoingPacket {
        transport: MeshTransport::Stream,
        from_id: "n1".to_string(),
        to_id: "n2".to_string(),
        payload: b"hi".to_vec(),
    };
    match mesh.send(packet, "m".to_string(), 5) {
        MeshFrame::Relay { message_id, transport, payload_b64, hops_left, .. } => {
            assert_eq!(message_id, "m");
            assert_eq!(transport, MeshTransport::Stream);
            assert_eq!(payload_b64, "aGk=");
            assert_eq!(hops_left, 4);
        }
        _ => panic!("relay expected"),
    }
    assert!(!mesh.remember_message("m", 6));
}

#[test]
fn messages_go_on_until_hops_run_out() {
    let message = |hops_left: u8| MeshMessage {
        message_id: "m".to_string(),
        transport: MeshTransport::Udp,
        from_id: "n1".to_string(),
        to_id: "n2".to_string(),
        payload: vec![0, 255],
        hops_left,
    };
    match after_delivery(message(1), false) {
        Some(MeshFrame::Relay { hops_left, payload_b64, .. }) => {
            assert_eq!(hops_left, 0);
            assert_eq!(payload_b64, "AP8=");
        }
        _ => panic!("relay expected"),
    }
    assert!(after_delivery(message(0), false).is_none());
    assert!(after_delivery(message(3), true).is_none());
}

#[test]
fn packets_are_dispatched_and_passed_on() {
    let mut mesh = connected();
    mesh.learn_route("n2", "b", 1);
    let packet = MeshOutgoingPacket {
        transport: MeshTransport::Udp,
        from_id: "n1".to_string(),
        to_id: "n2".to_string(),
        payload: b"hi".to_vec(),
    };
    let (frame, forwarding) = mesh.dispatch(packet, 2);
    assert_eq!(forwarding.direct, Some(2));
    assert_eq!(forwarding.flood, vec![1, 2, 3]);
    let MeshFrame::Relay { message_id, hops_left, .. } = frame else {
        panic!("relay expected");
    };
    assert_eq!((message_id.len(), hops_left), (36, 4));
    assert!(!mesh.remember_message(&message_id, 3));
    let message = |hops_left: u8| MeshMessage {
        message_id: "m".to_string(),
        transport: MeshTransport::Udp,
        from_id: "n1".to_string(),
        to_id: "n2".to_string(),
        payload: b"hi".to_vec(),
        hops_left,
    };
    let (frame, forwarding) = mesh.pass_on("b", message(3), false, 4).unwrap();
    assert!(matches!(frame, MeshFrame::Relay { hops_left: 2, .. }));
    assert_eq!(forwarding.direct, None);
    assert_eq!(forwarding.flood, vec![1, 3]);
    assert!(mesh.pass_on("b", message(3), true, 4).is_none());
    assert!(mesh.pass_on("b", message(0), false, 4).is_none());
}

#[test]
fn payloads_arrive_as_they_were_sent() {
    let payload = vec![0u8, 1, 127, 128, 255];
    let mut first = connected();
    let packet = MeshOutgoingPacket {
        transport: MeshTransport::Stream,
        from_id: "n1".to_string(),
        to_id: "n2".to_string(),
        payload: payload.clone(),
    };
    let (frame, _) = first.dispatch(packet, 1);

    let mut second = connected();
    let message = second.handle_frame("a", frame, 2).ok().unwrap().unwrap();
    assert_eq!(message.payload, payload);
    let (frame, _) = second.pass_on("a", message, false, 3).unwrap();

    let mut third = connected();
    let message = third.handle_frame("b", frame, 4).ok().unwrap().unwrap();
    assert_eq!(message.payload, payload);
    assert_eq!((message.from_id.as_str(), message.to_id.as_str()), ("n1", "n2"));
    assert!(third.pass_on("b", message, true, 5).is_none());
}

#[test]
fn flood_follows_where_the_direct_way_fails() {
    let mut mesh = connected();
    mesh.learn_route("n", "b", 1);
    let forwarding = mesh.forward_to_target(None, "n", 1);
    assert_eq!(forwarding.direct, Some(2));
    assert!(next_targets(forwarding, true).is_empty());
    let forwarding = mesh.forward_to_target(None, "n", 1);
    assert_eq!(next_targets(forwarding, false), vec![1, 2, 3]);
}

#[test]
fn peers_are_asked_for_certificates_by_name() {
    let name = |id: &str| refusal_or(server_name(&peers(&[id])[0]));
    assert_eq!(name("peer-1.example.com"), "peer-1.example.com");
    assert_eq!(name("10.0.0.1"), "10.0.0.1");
    assert_eq!(name("fd00::1"), "fd00::1");
    for id in ["", "no spaces", "-a", "a..b", "10.0.0.256"] {
        assert_eq!(
            name(id),
            format!(
                "mesh peer {} has invalid tls server name; expected DNS-like identifier",
                id
            )
        );
    }
}

#[test]
fn valid_names_are_taken_as_they_are() {
    let peer = &peers(&["A.b"])[0];
    assert_eq!(refusal_or(peer_server_name(peer, true)), "A.b");
    assert_eq!(
        refusal_or(peer_server_name(peer, false)),
        "mesh peer A.b has invalid tls server name; expected DNS-like identifier"
    );
}
