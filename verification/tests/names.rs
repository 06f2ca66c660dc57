use hickory_proto::op::{Message, MessageType, OpCode, Query, ResponseCode};
use hickory_proto::rr::{Name, RData, RecordType};
use lightscale_server::dns::{
    build_response, is_within_domains, normalize_name, respond, snapshot, DnsOutcome, DnsQuery,
    DnsQuestion, NO_ERROR, NX_DOMAIN, RECORD_A, RECORD_AAAA, RECORD_ANY, REFUSED,
};
use lightscale_server::model::{AclPolicy, KeyRotationPolicy, NetworkState, NodeState};
use lightscale_server::net::IpAddress;
use lightscale_server::state::State;
use std::str::FromStr;

fn node(id: &str, name: &str, ipv4: &str, ipv6: &str) -> NodeState {
    NodeState {
        id: id.to_string(),
        network_id: "net".to_string(),
        name: name.to_string(),
        machine_public_key: String::new(),
        wg_public_key: String::new(),
        ipv4: ipv4.to_string(),
        ipv6: ipv6.to_string(),
        endpoints: Vec::new(),
        tags: Vec::new(),
        owner_user_id: None,
        owner_email: None,
        owner_is_admin: true,
        routes: Vec::new(),
        created_at: 0,
        last_seen: 0,
        probe_requested_at: None,
        approved: true,
        approved_at: None,
        auth_secret: None,
        auth_expires_at: None,
        node_token: None,
        revoked_at: None,
        key_history: Vec::new(),
    }
}

fn state() -> State {
    let mut state = State::default();
    let network = NetworkState {
        id: "net".to_string(),
        name: "net".to_string(),
        overlay_v4: "100.64.0.0/24".to_string(),
        overlay_v6: "fd00::/48".to_string(),
        dns_domain: "Lab.Test.".to_string(),
        requires_approval: false,
        acl: AclPolicy::default(),
        key_policy: KeyRotationPolicy::default(),
        created_at: 0,
        next_ipv4: 10,
        next_ipv6: 10,
    };
    state.networks.insert("net".to_string(), network);
    state.nodes.insert("1".to_string(), node("1", "Desk", "100.64.0.10", "fd00::a"));
    let mut waiting = node("2", "waits", "100.64.0.11", "fd00::b");
    waiting.approved = false;
    state.nodes.insert("2".to_string(), waiting);
    let mut revoked = node("3", "gone", "100.64.0.12", "fd00::c");
    revoked.revoked_at = Some(1);
    state.nodes.insert("3".to_string(), revoked);
    state.nodes.insert("4".to_string(), node("4", "odd", "nonsense", "fd00::d"));
    state
}

fn ask(name: &str, record_type: u16) -> (u8, Vec<IpAddress>) {
    let query = DnsQuery {
        id: 1,
        op_code: 0,
        recursion_desired: true,
        questions: vec![DnsQuestion {
            name: name.to_string(),
            record_type,
        }],
    };
    let reply = build_response(&query, &snapshot(&state()));
    assert_eq!((reply.id, reply.op_code), (1, 0));
    assert!(reply.recursion_desired && !reply.recursion_available && reply.authoritative);
    for answer in &reply.answers {
        assert_eq!((answer.question, answer.ttl), (0, 30));
    }
    (reply.code, reply.answers.iter().map(|answer| answer.address).collect())
}

#[test]
fn names_are_compared_in_one_form() {
    assert_eq!(normalize_name(" WWW.Example.COM.. "), "www.example.com");
    assert_eq!(normalize_name("\u{c4}."), "\u{e4}");
    assert_eq!(normalize_name("."), "");
}

#[test]
fn domains_hold_their_names() {
    let domains = vec!["lab.test".to_string(), "x.test".to_string()];
    assert!(is_within_domains("lab.test", &domains));
    assert!(is_within_domains("a.b.x.test", &domains));
    assert!(!is_within_domains("slab.test", &domains));
    assert!(!is_within_domains("test", &domains));
    assert!(!is_within_domains("lab.test", &vec![]));
}

#[test]
fn members_are_found_by_kind() {
    let v4 = IpAddress::V4(0x6440_000a);
    let v6 = IpAddress::V6((0xfd00u128 << 112) + 10);
    assert_eq!(ask("desk.lab.test.", RECORD_A), (NO_ERROR, vec![v4]));
    assert_eq!(ask("DESK.LAB.TEST", RECORD_AAAA), (NO_ERROR, vec![v6]));
    assert_eq!(ask("desk.lab.test", RECORD_ANY), (NO_ERROR, vec![v4, v6]));
    assert_eq!(ask("desk.lab.test", 15), (NX_DOMAIN, vec![]));
}

#[test]
fn others_are_not_found() {
    for name in ["waits.lab.test", "gone.lab.test", "odd.lab.test", "nobody.lab.test", "lab.test"] {
        assert_eq!(ask(name, RECORD_ANY), (NX_DOMAIN, vec![]));
    }
    assert_eq!(ask("example.com", RECORD_ANY), (REFUSED, vec![]));
}

#[test]
fn later_node_of_a_name_counts() {
    let mut state = state();
    state.nodes.insert("5".to_string(), node("5", "desk", "100.64.0.99", "fd00::99"));
    let known = snapshot(&state);
    let found = known.records.get("desk.lab.test").unwrap();
    assert_eq!(found.0, IpAddress::V4(0x6440_0063));
}

fn datagram(names: &[(&str, RecordType)]) -> Vec<u8> {
    let mut message = Message::new();
    message.set_id(77);
    message.set_message_type(MessageType::Query);
    message.set_op_code(OpCode::Query);
    message.set_recursion_desired(true);
    for (name, record_type) in names {
        message.add_query(Query::query(Name::from_str(name).unwrap(), *record_type));
    }
    message.to_vec().unwrap()
}

fn exchange(names: &[(&str, RecordType)]) -> Message {
    match respond(&state(), &datagram(names)) {
        DnsOutcome::Reply(bytes) => Message::from_vec(&bytes).unwrap(),
        _ => panic!("reply expected"),
    }
}

#[test]
fn datagrams_are_answered() {
    let reply = exchange(&[("Desk.lab.test.", RecordType::ANY)]);
    assert_eq!(reply.id(), 77);
    assert_eq!(reply.message_type(), MessageType::Response);
    assert_eq!(reply.op_code(), OpCode::Query);
    assert_eq!(reply.response_code(), ResponseCode::NoError);
    assert!(reply.authoritative());
    assert!(reply.recursion_desired());
    assert!(!reply.recursion_available());
    assert_eq!(reply.queries().len(), 1);
    let answers = reply.answers();
    assert_eq!(answers.len(), 2);
    assert_eq!(answers[0].ttl(), 30);
    assert_eq!(answers[0].name(), &Name::from_str("Desk.lab.test.").unwrap());
    assert!(matches!(answers[0].data(), Some(RData::A(a)) if a.0.to_string() == "100.64.0.10"));
    assert!(matches!(answers[1].data(), Some(RData::AAAA(a)) if a.0.to_string() == "fd00::a"));
}

#[test]
fn datagrams_with_other_names_are_answered_with_a_code() {
    let missing = exchange(&[("nobody.lab.test.", RecordType::A)]);
    assert_eq!(missing.response_code(), ResponseCode::NXDomain);
    assert!(missing.answers().is_empty());
    let refused = exchange(&[("example.com.", RecordType::A)]);
    assert_eq!(refused.response_code(), ResponseCode::Refused);
    let both = exchange(&[("example.com.", RecordType::A), ("desk.lab.test.", RecordType::A)]);
    assert_eq!(both.response_code(), ResponseCode::NoError);
    assert_eq!(both.queries().len(), 2);
    assert_eq!(both.answers()[0].name(), &Name::from_str("desk.lab.test.").unwrap());
}

#[test]
fn other_datagrams_are_ignored() {
    assert!(matches!(respond(&state(), &vec![1, 2, 3]), DnsOutcome::Ignored));
    assert!(matches!(respond(&state(), &vec![]), DnsOutcome::Ignored));
}
