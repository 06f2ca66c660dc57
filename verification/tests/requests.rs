use lightscale_server::audit::{audit_log, AuditQuery};
use lightscale_server::auth::{bearer_token, require_admin, require_node, Headers};
use lightscale_server::enroll::{
    approve_at, approve_node, approve_node_secret, register, register_node, register_url,
    RegisterDraws,
};
use lightscale_server::error::{map_store_err, ApiError};
use lightscale_server::ids::{new_id, random_secret, short_id};
use lightscale_server::model::{
    AclAction, AclPolicy, AuditDetail, AuditValue, CreateNetworkRequest, CreateTokenRequest,
    HeartbeatRequest, KeyRotationPolicy, KeyRotationRequest, KeyType, RegisterRequest,
    RegisterUrlRequest, RelayConfig, Route, RouteKind, UpdateAclRequest, UpdateNodeRequest,
};
use lightscale_server::net::IpAddress;
use lightscale_server::netmap::{
    longpoll_timeout, netmap, netmap_at, netmap_longpoll, relay_or_none, NetmapLongpollParams,
};
use lightscale_server::networks::{
    create_network, create_network_at, delete_network, get_acl, get_key_policy, update_acl,
    update_key_policy, NetworkDraws,
};
use lightscale_server::nodes::{
    admin_nodes, delete_node, heartbeat, merge_endpoints, node_keys, revoke_node, rotate_keys,
    rotate_keys_at, update_node,
};
use lightscale_server::state::{AuditStamp, State};
use lightscale_server::table::Table;
use lightscale_server::tokens::{create_token, list_tokens, revoke_token};
use lightscale_server::topology::{admin_topology, infer_control_url_from_headers, MeshPeerMeta};

fn admin() -> Option<String> {
    Some("boss".to_string())
}

fn no_headers() -> Headers {
    Headers {
        authorization: None,
        forwarded_host: None,
        forwarded_proto: None,
        host: None,
    }
}

fn bearer(token: &str) -> Headers {
    Headers {
        authorization: Some(format!("Bearer {}", token).into_bytes()),
        ..no_headers()
    }
}

fn boss() -> Headers {
    bearer("boss")
}

fn stamp() -> AuditStamp {
    AuditStamp {
        id: "entry".to_string(),
        timestamp: 7,
    }
}

fn network_request(name: &str) -> CreateNetworkRequest {
    CreateNetworkRequest {
        name: name.to_string(),
        overlay_v4: None,
        overlay_v6: None,
        dns_domain: None,
        requires_approval: None,
        key_rotation_max_age_seconds: None,
        bootstrap_token_ttl_seconds: Some(3600),
        bootstrap_token_uses: Some(2),
        bootstrap_token_tags: Some(vec!["dev".to_string()]),
    }
}

fn lab() -> CreateNetworkRequest {
    CreateNetworkRequest {
        overlay_v4: Some("100.120.0.0/24".to_string()),
        overlay_v6: Some("fd42:120:0::/48".to_string()),
        dns_domain: Some("lab.test".to_string()),
        ..network_request("lab")
    }
}

fn join(token: &str, name: &str) -> RegisterRequest {
    RegisterRequest {
        token: token.to_string(),
        node_name: name.to_string(),
        machine_public_key: format!("m-{}", name),
        wg_public_key: format!("w-{}", name),
    }
}

/// A state with the network `lab` and a token with two uses: the state, the network, the token.
fn lab_state() -> (State, String, String) {
    let mut state = State::default();
    let answer = create_network(&mut state, &admin(), &boss(), &lab()).unwrap();
    let token = answer.bootstrap_token.unwrap().token;
    (state, answer.network.id, token)
}

/// The same with the nodes `a` and `b` in the network; gives their identifiers and tokens too.
fn lab_with_nodes() -> (State, String, (String, String), (String, String)) {
    let (mut state, network, token) = lab_state();
    let relay = RelayConfig::default();
    let a = register(&mut state, &relay, &join(&token, "a")).unwrap();
    let b = register(&mut state, &relay, &join(&token, "b")).unwrap();
    (
        state,
        network,
        (a.netmap.node.id, a.node_token),
        (b.netmap.node.id, b.node_token),
    )
}

fn error_of<T>(result: Result<T, ApiError>) -> (u16, &'static str) {
    match result {
        Ok(_) => (0, ""),
        Err(error) => (error.status(), error.message()),
    }
}

#[test]
fn errors_have_status_and_words() {
    assert_eq!(ApiError::NotFound("node").text(), "not found: node");
    assert_eq!(ApiError::BadRequest("x").text(), "invalid request: x");
    assert_eq!(ApiError::Unauthorized("x").text(), "unauthorized: x");
    assert_eq!(ApiError::Conflict("x").text(), "conflict: x");
    assert_eq!(ApiError::Internal.text(), "internal error");
    assert_eq!(ApiError::Internal.message(), "internal error");
    let all = [
        ApiError::NotFound("a"),
        ApiError::BadRequest("a"),
        ApiError::Unauthorized("a"),
        ApiError::Conflict("a"),
        ApiError::Internal,
    ];
    let statuses: Vec<u16> = all.iter().map(|error| error.status()).collect();
    assert_eq!(statuses, vec![404, 400, 401, 409, 500]);
    assert!(matches!(map_store_err(None), ApiError::Internal));
    assert!(matches!(
        map_store_err(Some(ApiError::Conflict("c"))),
        ApiError::Conflict("c")
    ));
}

#[test]
fn tokens_are_read_from_headers() {
    assert_eq!(bearer_token(&bearer("  x ")), Some("x".to_string()));
    assert_eq!(bearer_token(&no_headers()), None);
    let raw = |bytes: &[u8]| Headers {
        authorization: Some(bytes.to_vec()),
        ..no_headers()
    };
    assert_eq!(bearer_token(&raw(b"bearer x")), None);
    assert_eq!(bearer_token(&raw(b"Bearer")), None);
    assert_eq!(bearer_token(&raw(b"Bearer ")), Some(String::new()));
    assert_eq!(bearer_token(&raw(b"Bearer \xff")), None);
    assert_eq!(bearer_token(&raw(b"Bearer\tx")), None);
    assert!(require_admin(&boss(), &admin()).is_ok());
    assert!(require_admin(&no_headers(), &None).is_ok());
    assert_eq!(
        error_of(require_admin(&bearer("other"), &admin())),
        (401, "admin token required")
    );
}

#[test]
fn nodes_and_administrators_speak_for_a_node() {
    let (state, _, (a, token), _) = lab_with_nodes();
    let node = state.nodes.get(&a).unwrap();
    assert!(require_node(&bearer(&token), &admin(), node).is_ok());
    assert!(require_node(&boss(), &admin(), node).is_ok());
    assert!(require_node(&boss(), &None, node).is_err());
    assert_eq!(
        error_of(require_node(&no_headers(), &admin(), node)),
        (401, "node token required")
    );
    let mut open = node.clone();
    open.node_token = None;
    assert!(require_node(&no_headers(), &admin(), &open).is_ok());
}

#[test]
fn identifiers_are_uuids() {
    let id = new_id();
    assert_eq!(id.len(), 36);
    assert_eq!(id.as_bytes()[14], b'4');
    assert_eq!(uuid::Uuid::parse_str(&id).unwrap().to_string(), id);
    assert_ne!(new_id(), id);
    let bytes = [
        0x12, 0xab, 0xcd, 0xef, 0x00, 0x11, 0x42, 0x33, 0x84, 0x55, 0x66, 0x77, 0x88, 0x99, 0xaa,
        0xbb,
    ];
    assert_eq!(short_id(&bytes), "12abcdef");
    let secret = random_secret();
    assert_eq!(secret.len(), 43);
    assert!(secret.bytes().all(|b| b.is_ascii_alphanumeric() || b == b'-' || b == b'_'));
    assert_ne!(random_secret(), secret);
}

#[test]
fn network_is_made_with_the_defaults() {
    let mut state = State::default();
    assert_eq!((state.version, state.revision), (1, 0));
    let answer = create_network(&mut state, &admin(), &boss(), &network_request("home")).unwrap();
    assert_eq!(answer.network.name, "home");
    assert!(answer.network.overlay_v4.starts_with("100."));
    assert!(answer.network.overlay_v4.ends_with(".0/24"));
    assert!(answer.network.overlay_v6.starts_with("fd"));
    assert!(answer.network.overlay_v6.ends_with("::/48"));
    assert_eq!(
        answer.network.dns_domain,
        format!("net-{}.lightscale", &answer.network.id[..8])
    );
    assert!(!answer.network.requires_approval);
    let token = answer.bootstrap_token.unwrap();
    assert_eq!(token.uses_left, 2);
    assert_eq!(token.tags, vec!["dev".to_string()]);
    assert_eq!(token.revoked_at, None);
    assert_eq!(state.revision, 1);
    assert_eq!(state.networks.len(), 1);
    assert_eq!(state.tokens.len(), 1);
    let network = state.networks.get(&answer.network.id).unwrap();
    assert_eq!((network.next_ipv4, network.next_ipv6), (10, 10));
    let entry = &state.audit_log[0];
    assert_eq!(entry.action, "network.create");
    assert_eq!(entry.network_id, Some(answer.network.id.clone()));
    match &entry.detail {
        Some(AuditDetail::Fields(fields)) => {
            assert_eq!(fields[0].name, "name");
            assert!(matches!(&fields[0].value, AuditValue::Text(name) if name == "home"));
            assert!(matches!(fields[1].value, AuditValue::Bool(false)));
            assert!(matches!(fields[2].value, AuditValue::Null));
        }
        _ => panic!("fields expected"),
    }
}

#[test]
fn network_requests_are_refused() {
    let (mut state, _, _) = lab_state();
    let mut refuse = |req: CreateNetworkRequest| {
        let before = state.revision;
        let error = error_of(create_network(&mut state, &admin(), &boss(), &req));
        assert_eq!(state.revision, before);
        error
    };
    let with_v4 = |overlay: &str| CreateNetworkRequest {
        overlay_v4: Some(overlay.to_string()),
        ..network_request("x")
    };
    assert_eq!(refuse(with_v4("x")), (400, "invalid overlay_v4 cidr"));
    assert_eq!(
        refuse(with_v4("10.0.0.0/31")),
        (400, "overlay_v4 must provide usable host addresses")
    );
    assert_eq!(
        refuse(with_v4("100.120.0.128/25")),
        (409, "overlay_v4 overlaps existing network")
    );
    let with_v6 = |overlay: &str| CreateNetworkRequest {
        overlay_v6: Some(overlay.to_string()),
        ..with_v4("10.9.0.0/24")
    };
    assert_eq!(refuse(with_v6("x")), (400, "invalid overlay_v6 cidr"));
    assert_eq!(
        refuse(with_v6("fd42::/16")),
        (409, "overlay_v6 overlaps existing network")
    );
    assert_eq!(state.networks.len(), 1);
    assert_eq!(
        error_of(create_network(&mut state, &admin(), &no_headers(), &lab())),
        (401, "admin token required")
    );
    assert_eq!(state.audit_log.len(), 1);
}

#[test]
fn network_identifiers_are_used_once() {
    let mut state = State::default();
    let draws = || NetworkDraws {
        id: [3; 16],
        now: 5,
        stamp: stamp(),
        secret: "s".to_string(),
        token_now: 6,
    };
    let first = create_network_at(&mut state, &lab(), draws()).unwrap();
    assert_eq!(first.network.id, "03030303-0303-0303-0303-030303030303");
    assert_eq!(first.bootstrap_token.unwrap().expires_at, 3606);
    assert_eq!(state.networks.get(&first.network.id).unwrap().created_at, 5);
    assert_eq!(
        error_of(create_network_at(&mut state, &lab(), draws())),
        (409, "network already exists")
    );
}

#[test]
fn broken_ranges_of_other_networks_are_internal_errors() {
    let (mut state, id, _) = lab_state();
    state.networks.get_mut(&id).unwrap().overlay_v6 = "x".to_string();
    let other = CreateNetworkRequest {
        overlay_v4: Some("10.9.0.0/24".to_string()),
        ..network_request("x")
    };
    assert_eq!(
        error_of(create_network(&mut state, &admin(), &boss(), &other)),
        (500, "internal error")
    );
}

#[test]
fn refused_first_token_leaves_the_network() {
    let mut state = State::default();
    let req = CreateNetworkRequest {
        bootstrap_token_uses: Some(0),
        ..lab()
    };
    assert_eq!(
        error_of(create_network(&mut state, &admin(), &boss(), &req)),
        (400, "ttl_seconds and uses must be > 0")
    );
    assert_eq!(state.networks.len(), 1);
    assert_eq!(state.tokens.len(), 0);
    assert_eq!(state.revision, 0);
}

#[test]
fn tokens_are_made_listed_and_revoked() {
    let (mut state, network, first) = lab_state();
    let req = CreateTokenRequest {
        ttl_seconds: 10,
        uses: 1,
        tags: vec!["x".to_string()],
        owner_user_id: Some("  u1 ".to_string()),
        owner_email: Some("  ".to_string()),
        owner_is_admin: None,
    };
    let made = create_token(&mut state, &admin(), &boss(), &network, &req).unwrap().token;
    let kept = state.tokens.get(&made.token).unwrap();
    assert_eq!(kept.owner_user_id, Some("u1".to_string()));
    assert_eq!(kept.owner_email, None);
    assert!(kept.owner_is_admin);
    assert_eq!(kept.network_id, network);
    let listed = list_tokens(&state, &admin(), &boss(), &network).unwrap().tokens;
    let order: Vec<&str> = listed.iter().map(|token| token.token.as_str()).collect();
    assert_eq!(order, vec![first.as_str(), made.token.as_str()]);
    assert_eq!(
        error_of(create_token(&mut state, &admin(), &boss(), "nope", &req)),
        (404, "network")
    );
    let bad = CreateTokenRequest { ttl_seconds: 0, ..req.clone() };
    assert_eq!(
        error_of(create_token(&mut state, &admin(), &boss(), &network, &bad)),
        (400, "ttl_seconds and uses must be > 0")
    );
    assert_eq!(error_of(list_tokens(&state, &admin(), &boss(), "nope")), (404, "network"));
    assert_eq!(
        error_of(list_tokens(&state, &admin(), &no_headers(), &network)),
        (401, "admin token required")
    );
    let revoked = revoke_token(&mut state, &admin(), &boss(), &made.token).unwrap();
    assert!(revoked.revoked_at.is_some());
    assert_eq!(
        error_of(revoke_token(&mut state, &admin(), &boss(), "nope")),
        (404, "token")
    );
    let relay = RelayConfig::default();
    assert_eq!(
        error_of(register(&mut state, &relay, &join(&made.token, "n"))),
        (401, "token revoked")
    );
}

#[test]
fn node_joins_with_a_token() {
    let (mut state, network, token) = lab_state();
    let relay = RelayConfig {
        stun_servers: vec!["stun.example:3478".to_string()],
        ..RelayConfig::default()
    };
    let answer = register(&mut state, &relay, &join(&token, " laptop ")).unwrap();
    let map = &answer.netmap;
    assert_eq!(map.node.name, "laptop");
    assert_eq!(map.node.dns_name, "laptop.lab.test");
    assert_eq!(map.node.ipv4, "100.120.0.10");
    assert_eq!(map.node.ipv6, "fd42:120::a");
    assert!(map.node.approved);
    assert!(!map.node.revoked);
    assert!(map.peers.is_empty());
    assert_eq!(map.network.id, network);
    assert_eq!(map.revision, state.revision);
    assert_eq!(map.relay.as_ref().unwrap().stun_servers, relay.stun_servers);
    let node = state.nodes.get(&map.node.id).unwrap();
    assert_eq!(node.tags, vec!["dev".to_string()]);
    assert_eq!(node.node_token, Some(answer.node_token.clone()));
    assert_eq!(node.key_history.len(), 2);
    assert_eq!(state.tokens.get(&token).unwrap().uses_left, 1);
    assert_eq!(state.audit_log.last().unwrap().action, "node.register");
    let second = register(&mut state, &relay, &join(&token, "phone")).unwrap();
    assert_eq!(second.netmap.node.ipv4, "100.120.0.11");
    assert_eq!(second.netmap.peers.len(), 1);
    assert_eq!(second.netmap.peers[0].name, "laptop");
    assert!(!state.tokens.contains_key(&token));
    assert_eq!(
        error_of(register(&mut state, &relay, &join(&token, "third"))),
        (401, "token not found")
    );
    assert!(relay_or_none(&RelayConfig::default()).is_none());
}

#[test]
fn joining_is_refused_for_each_reason() {
    let (mut state, network, token) = lab_state();
    let draws = |now: i64| RegisterDraws {
        now,
        node_id: "n1".to_string(),
        node_token: "t".to_string(),
        stamp: stamp(),
    };
    let expiry = state.tokens.get(&token).unwrap().expires_at;
    assert_eq!(
        error_of(register_node(&mut state, &join(&token, " "), draws(0))),
        (400, "node name must be non-empty")
    );
    assert_eq!(
        error_of(register_node(&mut state, &join(&token, "a"), draws(expiry))),
        (401, "token expired")
    );
    assert!(register_node(&mut state, &join(&token, "a"), draws(expiry - 1)).is_ok());
    assert_eq!(
        error_of(register_node(&mut state, &join(&token, "A"), draws(0))),
        (409, "node name already exists")
    );
    state.tokens.get_mut(&token).unwrap().uses_left = 0;
    assert_eq!(
        error_of(register_node(&mut state, &join(&token, "b"), draws(0))),
        (401, "token used up")
    );
    state.tokens.get_mut(&token).unwrap().uses_left = 5;
    state.networks.get_mut(&network).unwrap().next_ipv6 = u128::MAX;
    let before = state.networks.get(&network).unwrap().next_ipv4;
    assert_eq!(
        error_of(register_node(&mut state, &join(&token, "b"), draws(0))),
        (409, "ipv6 address space exhausted")
    );
    assert_eq!(state.networks.get(&network).unwrap().next_ipv4, before + 1);
    state.tokens.get_mut(&token).unwrap().network_id = "nope".to_string();
    assert_eq!(
        error_of(register_node(&mut state, &join(&token, "b"), draws(0))),
        (404, "network")
    );
    assert_eq!(state.nodes.len(), 1);
    assert_eq!(state.tokens.get(&token).unwrap().uses_left, 5);
}

fn url_request(network: &str, name: &str) -> RegisterUrlRequest {
    RegisterUrlRequest {
        network_id: network.to_string(),
        node_name: name.to_string(),
        machine_public_key: "m".to_string(),
        wg_public_key: "w".to_string(),
        ttl_seconds: None,
    }
}

#[test]
fn node_waits_and_is_approved_by_its_secret() {
    let (mut state, network, _) = lab_state();
    let answer = register_url(&mut state, &url_request(&network, "desk")).unwrap();
    let node = state.nodes.get(&answer.node_id).unwrap().clone();
    assert!(!node.approved);
    let secret = node.auth_secret.clone().unwrap();
    assert_eq!(
        answer.auth_path,
        format!("/v1/register/approve/{}/{}", answer.node_id, secret)
    );
    assert_eq!(answer.expires_at, node.created_at + 600);
    assert_eq!(answer.ipv4, "100.120.0.10");
    assert_eq!(
        error_of(approve_node_secret(&mut state, &answer.node_id, "wrong")),
        (401, "invalid approval secret")
    );
    assert_eq!(
        error_of(approve_at(&mut state, &answer.node_id, Some(&secret), answer.expires_at, stamp())),
        (401, "approval expired")
    );
    let before = state.revision;
    let approved = approve_node_secret(&mut state, &answer.node_id, &secret).unwrap();
    assert!(approved.approved);
    assert!(approved.approved_at.is_some());
    assert_eq!(state.revision, before + 1);
    assert_eq!(state.nodes.get(&answer.node_id).unwrap().auth_secret, None);
    let log = state.audit_log.len();
    let again = approve_node_secret(&mut state, &answer.node_id, "anything").unwrap();
    assert_eq!(again.approved_at, approved.approved_at);
    assert_eq!(state.audit_log.len(), log);
    assert_eq!(error_of(approve_node_secret(&mut state, "nope", "x")), (404, "node"));
}

#[test]
fn waiting_nodes_are_refused_for_each_reason() {
    let (mut state, network, _) = lab_state();
    let zero = RegisterUrlRequest {
        ttl_seconds: Some(0),
        ..url_request(&network, "a")
    };
    assert_eq!(error_of(register_url(&mut state, &zero)), (400, "ttl_seconds must be > 0"));
    assert_eq!(
        error_of(register_url(&mut state, &url_request(&network, "\t"))),
        (400, "node name must be non-empty")
    );
    assert_eq!(
        error_of(register_url(&mut state, &url_request("nope", "a"))),
        (404, "network")
    );
    assert!(register_url(&mut state, &url_request(&network, "a")).is_ok());
    assert_eq!(
        error_of(register_url(&mut state, &url_request(&network, "A"))),
        (409, "node name already exists")
    );
}

#[test]
fn administrators_approve_nodes() {
    let (mut state, network, _) = lab_state();
    let answer = register_url(&mut state, &url_request(&network, "desk")).unwrap();
    assert_eq!(
        error_of(approve_node(&mut state, &admin(), &no_headers(), &answer.node_id)),
        (401, "admin token required")
    );
    assert!(approve_node(&mut state, &admin(), &boss(), &answer.node_id).unwrap().approved);
    match &state.audit_log.last().unwrap().detail {
        Some(AuditDetail::Fields(fields)) => {
            assert!(matches!(&fields[1].value, AuditValue::Text(via) if via == "admin"));
        }
        _ => panic!("fields expected"),
    }
    let mut plain = state.nodes.get(&answer.node_id).unwrap().clone();
    plain.approved = false;
    state.nodes.insert(answer.node_id.clone(), plain);
    assert_eq!(
        error_of(approve_node_secret(&mut state, &answer.node_id, "x")),
        (401, "approval not allowed")
    );
}

#[test]
fn nodes_are_listed_for_administrators() {
    let (state, network, (a, _), _) = lab_with_nodes();
    let nodes = admin_nodes(&state, &admin(), &boss(), &network).unwrap().nodes;
    assert_eq!(nodes.len(), 2);
    assert_eq!(nodes[0].id, a);
    assert_eq!(nodes[0].dns_name, "a.lab.test");
    assert_eq!(error_of(admin_nodes(&state, &admin(), &boss(), "nope")), (404, "network"));
    assert_eq!(
        error_of(admin_nodes(&state, &admin(), &bearer("x"), &network)),
        (401, "admin token required")
    );
}

#[test]
fn names_and_tags_are_changed() {
    let (mut state, _, (a, _), _) = lab_with_nodes();
    let update = |name: Option<&str>, tags: Option<Vec<&str>>| UpdateNodeRequest {
        name: name.map(|name| name.to_string()),
        tags: tags.map(|tags| tags.iter().map(|tag| tag.to_string()).collect()),
    };
    let mut send = |req: UpdateNodeRequest| update_node(&mut state, &admin(), &boss(), &a, &req);
    let node = send(update(Some(" desk "), Some(vec![" x ", "y", "", "x"]))).unwrap().node;
    assert_eq!(node.name, "desk");
    assert_eq!(node.tags, vec!["x".to_string(), "y".to_string()]);
    assert_eq!(error_of(send(update(None, None))), (400, "no fields to update"));
    assert_eq!(error_of(send(update(Some(" "), None))), (400, "node name must be non-empty"));
    assert_eq!(error_of(send(update(Some("B"), None))), (409, "node name already exists"));
    assert!(send(update(Some("DESK"), None)).is_ok());
    let log = state.audit_log.len();
    let revision = state.revision;
    let same = update(Some("DESK"), Some(vec!["x", "y"]));
    assert!(update_node(&mut state, &admin(), &boss(), &a, &same).is_ok());
    assert_eq!(state.audit_log.len(), log);
    assert_eq!(state.revision, revision + 1);
    assert_eq!(
        error_of(update_node(&mut state, &admin(), &boss(), "nope", &same)),
        (404, "node")
    );
    state.nodes.get_mut(&a).unwrap().network_id = "gone".to_string();
    let moved = update(Some("late"), None);
    assert_eq!(
        error_of(update_node(&mut state, &admin(), &boss(), &a, &moved)),
        (404, "network")
    );
    assert_eq!(state.nodes.get(&a).unwrap().name, "late");
}

#[test]
fn access_rules_are_kept() {
    let (mut state, network, (a, token), (b, _)) = lab_with_nodes();
    let relay = RelayConfig::default();
    let policy = get_acl(&state, &admin(), &boss(), &network).unwrap();
    assert!(policy.default_action == AclAction::Allow);
    let req = UpdateAclRequest {
        policy: AclPolicy {
            default_action: AclAction::Deny,
            rules: vec![],
        },
    };
    assert_eq!(
        netmap(&state, &relay, &admin(), &bearer(&token), &a).unwrap().peers[0].id,
        b
    );
    assert!(update_acl(&mut state, &admin(), &boss(), &network, &req).is_ok());
    assert!(netmap(&state, &relay, &admin(), &bearer(&token), &a).unwrap().peers.is_empty());
    assert_eq!(
        error_of(update_acl(&mut state, &admin(), &boss(), "nope", &req)),
        (404, "network")
    );
    assert_eq!(error_of(get_acl(&state, &admin(), &boss(), "nope")), (404, "network"));
    assert_eq!(
        error_of(get_acl(&state, &admin(), &no_headers(), &network)),
        (401, "admin token required")
    );
}

#[test]
fn key_policy_is_kept() {
    let (mut state, network, (a, _), (b, _)) = lab_with_nodes();
    let policy = KeyRotationPolicy {
        max_age_seconds: Some(30),
    };
    assert!(update_key_policy(&mut state, &admin(), &boss(), &network, &policy).is_ok());
    assert_eq!(
        get_key_policy(&state, &admin(), &boss(), &network).unwrap().policy.max_age_seconds,
        Some(30)
    );
    assert_eq!(
        error_of(update_key_policy(&mut state, &admin(), &boss(), "nope", &policy)),
        (404, "network")
    );
    assert_eq!(error_of(get_key_policy(&state, &admin(), &boss(), "nope")), (404, "network"));
    let born = state.nodes.get(&a).unwrap().created_at;
    let young = netmap_at(&state, &a, None, born + 30, 1).unwrap();
    assert!(young.node.approved);
    assert_eq!(young.peers[0].id, b);
    assert_eq!(young.generated_at, 1);
    let old = netmap_at(&state, &a, None, born + 1000, 2).unwrap();
    assert!(!old.node.approved);
    assert!(old.node.key_rotation_required);
    assert!(old.peers.is_empty());
    assert_eq!(old.network.key_rotation_max_age_seconds, Some(30));
}

#[test]
fn new_keys_replace_old_ones() {
    let (mut state, _, (a, token), _) = lab_with_nodes();
    let rotation = |machine: Option<&str>, wg: Option<&str>| KeyRotationRequest {
        machine_public_key: machine.map(|key| key.to_string()),
        wg_public_key: wg.map(|key| key.to_string()),
    };
    let headers = bearer(&token);
    let answer = rotate_keys_at(
        &mut state,
        &admin(),
        &headers,
        &a,
        &rotation(Some("m2"), Some("w2")),
        500,
        stamp(),
    )
    .unwrap();
    assert_eq!(answer.machine_public_key, "m2");
    assert_eq!(answer.wg_public_key, "w2");
    let keys = node_keys(&state, &admin(), &headers, &a).unwrap().keys;
    let shown: Vec<(&str, Option<i64>)> = keys
        .iter()
        .map(|key| (key.public_key.as_str(), key.revoked_at))
        .collect();
    assert_eq!(
        shown,
        vec![("m-a", Some(500)), ("w-a", Some(500)), ("m2", None), ("w2", None)]
    );
    assert!(keys[2].key_type == KeyType::Machine && keys[3].key_type == KeyType::WireGuard);
    let mut send = |headers: &Headers, req: KeyRotationRequest| {
        error_of(rotate_keys(&mut state, &admin(), headers, &a, &req))
    };
    assert_eq!(send(&headers, rotation(None, None)), (400, "no keys provided"));
    assert_eq!(
        send(&headers, rotation(Some("m2"), None)),
        (400, "machine_public_key unchanged")
    );
    assert_eq!(send(&bearer("x"), rotation(Some("m3"), None)), (401, "node token required"));
    assert_eq!(
        send(&headers, rotation(Some("m3"), Some("w2"))),
        (400, "wg_public_key unchanged")
    );
    assert_eq!(state.nodes.get(&a).unwrap().machine_public_key, "m3");
    let req = rotation(Some("m4"), None);
    assert_eq!(
        error_of(rotate_keys(&mut state, &admin(), &headers, "nope", &req)),
        (404, "node")
    );
    assert_eq!(
        error_of(node_keys(&state, &admin(), &no_headers(), &a)),
        (401, "node token required")
    );
    assert_eq!(error_of(node_keys(&state, &admin(), &headers, "nope")), (404, "node"));
}

#[test]
fn revoked_nodes_are_out_until_they_get_new_keys() {
    let (mut state, _, (a, token_a), (b, token_b)) = lab_with_nodes();
    let relay = RelayConfig::default();
    let revoked = revoke_node(&mut state, &admin(), &boss(), &b).unwrap();
    assert!(revoked.revoked_at.is_some());
    assert_eq!(revoked.node_id, b);
    assert!(netmap(&state, &relay, &admin(), &bearer(&token_a), &a).unwrap().peers.is_empty());
    let own = netmap(&state, &relay, &admin(), &bearer(&token_b), &b).unwrap();
    assert!(own.node.revoked);
    assert!(!own.node.approved);
    assert!(state.nodes.get(&b).unwrap().key_history.iter().all(|key| key.revoked_at.is_some()));
    let req = KeyRotationRequest {
        machine_public_key: Some("m2".to_string()),
        wg_public_key: None,
    };
    assert!(rotate_keys(&mut state, &admin(), &bearer(&token_b), &b, &req).is_ok());
    assert_eq!(
        netmap(&state, &relay, &admin(), &bearer(&token_a), &a).unwrap().peers.len(),
        1
    );
    assert_eq!(error_of(revoke_node(&mut state, &admin(), &boss(), "nope")), (404, "node"));
    assert_eq!(
        error_of(revoke_node(&mut state, &admin(), &no_headers(), &b)),
        (401, "admin token required")
    );
}

#[test]
fn names_of_revoked_nodes_are_free() {
    let (mut state, network, (a, token), _) = lab_with_nodes();
    assert!(revoke_node(&mut state, &admin(), &boss(), &a).is_ok());
    assert!(register_url(&mut state, &url_request(&network, "a")).is_ok());
    let req = KeyRotationRequest {
        machine_public_key: Some("m2".to_string()),
        wg_public_key: None,
    };
    assert!(rotate_keys(&mut state, &admin(), &bearer(&token), &a, &req).is_ok());
    assert_eq!(state.nodes.get(&a).unwrap().name, "a");
    assert_eq!(state.nodes.get(&a).unwrap().revoked_at, None);
}

#[test]
fn nodes_and_networks_are_deleted() {
    let (mut state, network, (a, _), (b, _)) = lab_with_nodes();
    let req = CreateTokenRequest {
        ttl_seconds: 10,
        uses: 1,
        tags: vec![],
        owner_user_id: None,
        owner_email: None,
        owner_is_admin: Some(false),
    };
    assert!(create_token(&mut state, &admin(), &boss(), &network, &req).is_ok());
    assert_eq!(
        error_of(delete_network(&mut state, &admin(), &boss(), &network)),
        (409, "network has connected nodes; revoke or delete nodes first")
    );
    assert_eq!(delete_node(&mut state, &admin(), &boss(), &a).unwrap().node_id, a);
    assert_eq!(state.audit_log.last().unwrap().action, "node.delete");
    assert_eq!(error_of(delete_node(&mut state, &admin(), &boss(), &a)), (404, "node"));
    assert!(delete_node(&mut state, &admin(), &boss(), &b).is_ok());
    assert_eq!(
        error_of(delete_network(&mut state, &admin(), &no_headers(), &network)),
        (401, "admin token required")
    );
    assert!(delete_network(&mut state, &admin(), &boss(), &network).is_ok());
    assert_eq!((state.networks.len(), state.tokens.len(), state.nodes.len()), (0, 0, 0));
    assert_eq!(
        error_of(delete_network(&mut state, &admin(), &boss(), &network)),
        (404, "network")
    );
}

#[test]
fn log_is_searched() {
    let (state, network, (a, _), _) = lab_with_nodes();
    let query = |network_id: Option<&str>, node_id: Option<&str>, limit: Option<usize>| AuditQuery {
        network_id: network_id.map(|id| id.to_string()),
        node_id: node_id.map(|id| id.to_string()),
        limit,
    };
    let actions = |query: AuditQuery| -> Vec<String> {
        audit_log(&state, &admin(), &boss(), &query)
            .unwrap()
            .entries
            .iter()
            .map(|entry| entry.action.clone())
            .collect()
    };
    let all = vec!["network.create", "node.register", "node.register"];
    assert_eq!(actions(query(None, None, None)), all);
    assert_eq!(actions(query(Some(&network), None, Some(9))), all);
    assert_eq!(actions(query(None, Some(&a), None)), vec!["node.register"]);
    assert_eq!(actions(query(None, None, Some(2))), vec!["node.register", "node.register"]);
    assert!(actions(query(None, None, Some(0))).is_empty());
    assert!(actions(query(Some("nope"), None, None)).is_empty());
    assert_eq!(
        error_of(audit_log(&state, &admin(), &no_headers(), &query(None, None, None))),
        (401, "admin token required")
    );
}

fn report(node_id: &str, endpoints: &[&str], port: Option<u16>, probe: Option<bool>) -> HeartbeatRequest {
    HeartbeatRequest {
        node_id: node_id.to_string(),
        endpoints: endpoints.iter().map(|endpoint| endpoint.to_string()).collect(),
        listen_port: port,
        routes: vec![Route {
            prefix: "10.1.0.0/16".to_string(),
            kind: RouteKind::Subnet,
            enabled: true,
            mapped_prefix: None,
        }],
        probe,
    }
}

#[test]
fn nodes_report_where_they_are() {
    let (mut state, _, (a, token_a), (b, token_b)) = lab_with_nodes();
    let relay = RelayConfig::default();
    let remote = IpAddress::V4(0xcb00_7101);
    let req = report(&a, &["10.0.0.1:1", "203.0.113.1:51820", "10.0.0.1:1"], Some(51820), Some(true));
    let answer = heartbeat(&mut state, &relay, &admin(), &bearer(&token_a), &remote, &req).unwrap();
    assert_eq!(
        answer.netmap.node.endpoints,
        vec!["203.0.113.1:51820".to_string(), "10.0.0.1:1".to_string()]
    );
    assert_eq!(answer.netmap.node.routes.len(), 1);
    assert!(answer.netmap.relay.is_none());
    let seen = netmap(&state, &relay, &admin(), &bearer(&token_b), &b).unwrap();
    assert_eq!(seen.probe_requests.len(), 1);
    assert_eq!(seen.probe_requests[0].peer_id, a);
    assert_eq!(seen.probe_requests[0].ipv4, "100.120.0.10");
    assert_eq!(seen.probe_requests[0].endpoints.len(), 2);
    let asked = seen.probe_requests[0].requested_at;
    assert_eq!(netmap_at(&state, &b, None, asked + 30, 0).unwrap().probe_requests.len(), 1);
    assert!(netmap_at(&state, &b, None, asked + 31, 0).unwrap().probe_requests.is_empty());
    let later = report(&a, &[], None, None);
    assert!(heartbeat(&mut state, &relay, &admin(), &boss(), &remote, &later).is_ok());
    assert!(state.nodes.get(&a).unwrap().endpoints.is_empty());
    assert_eq!(state.nodes.get(&a).unwrap().probe_requested_at, Some(asked));
    let wrong = heartbeat(&mut state, &relay, &admin(), &bearer("x"), &remote, &later);
    assert_eq!(error_of(wrong), (401, "node token required"));
    let unknown = report("nope", &[], None, None);
    let missing = heartbeat(&mut state, &relay, &admin(), &boss(), &remote, &unknown);
    assert_eq!(error_of(missing), (404, "node"));
}

#[test]
fn endpoints_are_merged() {
    let provided = vec!["b".to_string(), "a".to_string(), "b".to_string()];
    assert_eq!(merge_endpoints(&provided, None), vec!["b", "a"]);
    assert_eq!(merge_endpoints(&provided, Some("a".to_string())), vec!["a", "b"]);
    assert_eq!(merge_endpoints(&vec![], Some("c".to_string())), vec!["c"]);
}

#[test]
fn report_of_a_node_without_network_is_kept() {
    let (mut state, _, (a, token), _) = lab_with_nodes();
    state.nodes.get_mut(&a).unwrap().network_id = "gone".to_string();
    let revision = state.revision;
    let remote = IpAddress::V6(1);
    let req = report(&a, &[], Some(7), None);
    let answer = heartbeat(
        &mut state,
        &RelayConfig::default(),
        &admin(),
        &bearer(&token),
        &remote,
        &req,
    );
    assert_eq!(error_of(answer), (404, "network"));
    assert_eq!(state.revision, revision + 1);
    assert_eq!(state.nodes.get(&a).unwrap().endpoints, vec!["[::1]:7".to_string()]);
}

#[test]
fn waiting_for_news_ends_with_news_or_time() {
    let (state, _, (a, token), _) = lab_with_nodes();
    let relay = RelayConfig::default();
    let headers = bearer(&token);
    let ask = |since: Option<u64>, passed: bool| {
        let params = NetmapLongpollParams {
            since,
            timeout_seconds: None,
        };
        netmap_longpoll(&state, &relay, &admin(), &headers, &a, &params, passed).unwrap().is_some()
    };
    assert!(ask(None, false));
    assert!(ask(Some(state.revision - 1), false));
    assert!(!ask(Some(state.revision), false));
    assert!(ask(Some(state.revision), true));
    let timeout = |timeout_seconds: Option<u64>| {
        longpoll_timeout(&NetmapLongpollParams {
            since: None,
            timeout_seconds,
        })
    };
    assert_eq!(timeout(None), 30);
    assert_eq!(timeout(Some(5)), 5);
    assert_eq!(timeout(Some(1000)), 300);
    let params = NetmapLongpollParams {
        since: None,
        timeout_seconds: None,
    };
    let refused = netmap_longpoll(&state, &relay, &admin(), &no_headers(), &a, &params, true);
    assert_eq!(error_of(refused), (401, "node token required"));
    let missing = netmap(&state, &relay, &admin(), &headers, "nope");
    assert_eq!(error_of(missing), (404, "node"));
}

#[test]
fn servers_are_told_to_administrators() {
    let urls = vec!["https://b".to_string(), "https://a".to_string(), "https://b".to_string()];
    let peers = vec![MeshPeerMeta {
        id: "x".to_string(),
        addr: "x:1".to_string(),
    }];
    let headers = Headers {
        host: Some(b" a.example/ ".to_vec()),
        forwarded_proto: Some(b"HTTPS".to_vec()),
        ..boss()
    };
    let told = admin_topology(&admin(), &headers, &urls, &Some("me".to_string()), &peers).unwrap();
    assert_eq!(told.control_urls, vec!["https://a.example", "https://b", "https://a"]);
    assert_eq!(told.mesh_server_id, Some("me".to_string()));
    assert_eq!(told.mesh_peers[0].id, "x");
    assert_eq!(told.mesh_peers[0].addr, "x:1");
    assert_eq!(
        error_of(admin_topology(&admin(), &no_headers(), &urls, &None, &peers)),
        (401, "admin token required")
    );
}

#[test]
fn own_url_is_inferred_from_headers() {
    let headers = |forwarded: Option<&[u8]>, host: Option<&[u8]>, proto: Option<&[u8]>| Headers {
        authorization: None,
        forwarded_host: forwarded.map(|bytes| bytes.to_vec()),
        forwarded_proto: proto.map(|bytes| bytes.to_vec()),
        host: host.map(|bytes| bytes.to_vec()),
    };
    let infer = |headers: Headers| infer_control_url_from_headers(&headers);
    assert_eq!(
        infer(headers(Some(b"f.example"), Some(b"h.example"), None)),
        Some("http://f.example".to_string())
    );
    assert_eq!(
        infer(headers(None, Some(b"h.example:8080"), Some(b"http"))),
        Some("http://h.example:8080".to_string())
    );
    assert_eq!(infer(headers(Some(b"  "), Some(b"h"), None)), None);
    assert_eq!(infer(headers(Some(b"\xff"), Some(b"h"), None)), None);
    assert_eq!(infer(headers(None, None, Some(b"https"))), None);
}

#[test]
fn requests_touch_only_what_they_are_about() {
    let (mut state, network, (a, token_a), (b, _)) = lab_with_nodes();
    let ranges = |state: &State| {
        let network = state.networks.value_at(0);
        (network.overlay_v4.clone(), network.overlay_v6.clone())
    };
    let before = ranges(&state);
    let kept = state.nodes.get(&a).unwrap().clone();
    let log: Vec<String> = state.audit_log.iter().map(|entry| entry.id.clone()).collect();
    let revision = state.revision;
    let update = UpdateNodeRequest {
        name: Some("c".to_string()),
        tags: Some(vec!["t".to_string()]),
    };
    assert!(update_node(&mut state, &admin(), &boss(), &b, &update).is_ok());
    assert!(revoke_node(&mut state, &admin(), &boss(), &b).is_ok());
    assert_eq!(state.revision, revision + 2);
    assert_eq!(ranges(&state), before);
    let after = state.nodes.get(&a).unwrap();
    assert_eq!((&after.name, &after.tags), (&kept.name, &kept.tags));
    assert_eq!((&after.ipv4, &after.ipv6), (&kept.ipv4, &kept.ipv6));
    assert_eq!(after.revoked_at, None);
    assert_eq!(after.key_history.len(), kept.key_history.len());
    let ids: Vec<String> = state.audit_log.iter().map(|entry| entry.id.clone()).collect();
    assert_eq!(ids.len(), log.len() + 2);
    assert_eq!(&ids[..log.len()], &log[..]);
    let refused = update_node(&mut state, &admin(), &bearer(&token_a), &a, &update);
    assert_eq!(error_of(refused), (401, "admin token required"));
    assert_eq!(state.nodes.get(&a).unwrap().name, "a");
    assert_eq!(state.revision, revision + 2);
    assert_eq!(state.audit_log.len(), ids.len());
    assert_eq!(state.nodes.get(&b).unwrap().network_id, network);
}

#[test]
fn tables_keep_the_order_of_their_keys() {
    let mut table: Table<u64> = Table::new();
    table.insert("b".to_string(), 1);
    table.insert("a".to_string(), 2);
    table.insert("b".to_string(), 3);
    assert_eq!(table.len(), 2);
    assert_eq!((table.key_at(0).as_str(), *table.value_at(0)), ("b", 3));
    assert_eq!((table.key_at(1).as_str(), *table.value_at(1)), ("a", 2));
    *table.get_mut("a").unwrap() = 5;
    assert_eq!(table.get("a"), Some(&5));
    assert!(table.get_mut("c").is_none());
    assert_eq!(table.remove("b"), Some(3));
    assert_eq!(table.remove("b"), None);
    assert!(!table.contains_key("b"));
    assert_eq!(table.key_at(0), "a");
}

#[test]
fn revoked_tokens_stay_revoked() {
    let (mut state, network, token) = lab_state();
    let expiry = state.tokens.get(&token).unwrap().expires_at;
    assert!(revoke_token(&mut state, &admin(), &boss(), &token).is_ok());
    let waiting = register_url(&mut state, &url_request(&network, "w")).unwrap();
    assert!(approve_node(&mut state, &admin(), &boss(), &waiting.node_id).is_ok());
    let draws = |now: i64| RegisterDraws {
        now,
        node_id: "n".to_string(),
        node_token: "t".to_string(),
        stamp: stamp(),
    };
    let revision = state.revision;
    assert_eq!(
        error_of(register_node(&mut state, &join(&token, "a"), draws(0))),
        (401, "token revoked")
    );
    assert_eq!(
        error_of(register_node(&mut state, &join(&token, "a"), draws(expiry))),
        (401, "token expired")
    );
    assert!(delete_node(&mut state, &admin(), &boss(), &waiting.node_id).is_ok());
    assert!(delete_network(&mut state, &admin(), &boss(), &network).is_ok());
    assert_eq!(
        error_of(register_node(&mut state, &join(&token, "a"), draws(0))),
        (401, "token not found")
    );
    assert_eq!(state.revision, revision + 2);
}

#[test]
fn waiting_nodes_go_on_waiting() {
    let (mut state, network, _) = lab_state();
    let relay = RelayConfig::default();
    let waiting = register_url(&mut state, &url_request(&network, "w")).unwrap();
    let secret = state.nodes.get(&waiting.node_id).unwrap().auth_secret.clone().unwrap();
    let update = UpdateNodeRequest {
        name: Some("x".to_string()),
        tags: None,
    };
    assert!(update_node(&mut state, &admin(), &boss(), &waiting.node_id, &update).is_ok());
    let report = report(&waiting.node_id, &[], None, None);
    let remote = IpAddress::V4(1);
    assert!(heartbeat(&mut state, &relay, &admin(), &boss(), &remote, &report).is_ok());
    assert!(revoke_node(&mut state, &admin(), &boss(), &waiting.node_id).is_ok());
    let mut approve = |secret: &str, now: i64| {
        error_of(approve_at(&mut state, &waiting.node_id, Some(secret), now, stamp()))
    };
    assert_eq!(approve("other", 0), (401, "invalid approval secret"));
    assert_eq!(approve(&secret, waiting.expires_at), (401, "approval expired"));
    assert_eq!(approve(&secret, waiting.expires_at - 1), (0, ""));
    let node = state.nodes.get(&waiting.node_id).unwrap();
    assert_eq!(node.approved_at, Some(waiting.expires_at - 1));
    assert_eq!((&node.ipv4, &node.ipv6), (&waiting.ipv4, &waiting.ipv6));
    assert!(node.revoked_at.is_some());
}
