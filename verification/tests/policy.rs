use lightscale_server::acl::acl_allows;
use lightscale_server::keys::{
    effective_node_status, expires_at, revoke_key_record, seconds_since,
};
use lightscale_server::model::{
    AclAction, AclPolicy, AclRule, AclSelector, KeyRecord, KeyRotationPolicy, KeyType, NodeState,
};

fn sample_node(name: &str, tags: Vec<String>, created_at: i64) -> NodeState {
    let machine_key = format!("machine-{}", name);
    let wg_key = format!("wg-{}", name);
    NodeState {
        id: format!("node-{}", name),
        network_id: "net-1".to_string(),
        name: name.to_string(),
        machine_public_key: machine_key.clone(),
        wg_public_key: wg_key.clone(),
        ipv4: "100.64.0.1".to_string(),
        ipv6: "fd00::1".to_string(),
        endpoints: Vec::new(),
        tags,
        owner_user_id: Some(format!("user-{}", name)),
        owner_email: Some(format!("{}@example.test", name)),
        owner_is_admin: false,
        routes: Vec::new(),
        created_at,
        last_seen: created_at,
        probe_requested_at: None,
        approved: true,
        approved_at: Some(created_at),
        auth_secret: None,
        auth_expires_at: None,
        node_token: Some(format!("token-{}", name)),
        revoked_at: None,
        key_history: vec![
            KeyRecord {
                key_type: KeyType::Machine,
                public_key: machine_key,
                created_at,
                revoked_at: None,
            },
            KeyRecord {
                key_type: KeyType::WireGuard,
                public_key: wg_key,
                created_at,
                revoked_at: None,
            },
        ],
    }
}

#[test]
fn acl_default_allows() {
    let policy = AclPolicy::default();
    let src = sample_node("src", vec!["dev".to_string()], 0);
    let dst = sample_node("dst", vec!["prod".to_string()], 0);
    assert!(acl_allows(&policy, &src, &dst));
}

#[test]
fn acl_rule_denies_tag_pair() {
    let policy = AclPolicy {
        default_action: AclAction::Allow,
        rules: vec![AclRule {
            action: AclAction::Deny,
            src: AclSelector {
                tags: vec!["dev".to_string()],
                ..Default::default()
            },
            dst: AclSelector {
                tags: vec!["prod".to_string()],
                ..Default::default()
            },
        }],
    };
    let src = sample_node("src", vec!["dev".to_string()], 0);
    let dst = sample_node("dst", vec!["prod".to_string()], 0);
    assert!(!acl_allows(&policy, &src, &dst));
}

#[test]
fn key_rotation_required_blocks_peer() {
    let now = 100;
    let node = sample_node("old", vec![], now - 100);
    let policy = KeyRotationPolicy {
        max_age_seconds: Some(30),
    };
    let (approved, required) = effective_node_status(&node, &policy, now);
    assert!(!approved);
    assert!(required);
}

fn rule(action: AclAction, src: AclSelector, dst: AclSelector) -> AclRule {
    AclRule { action, src, dst }
}

#[test]
fn first_matching_rule_decides() {
    let src = sample_node("src", vec![], 0);
    let dst = sample_node("dst", vec![], 0);
    let by_name = AclSelector {
        names: vec!["src".to_string()],
        ..Default::default()
    };
    let by_id = AclSelector {
        node_ids: vec!["node-dst".to_string()],
        ..Default::default()
    };
    let any = AclSelector {
        any: true,
        tags: vec!["nobody".to_string()],
        ..Default::default()
    };
    let policy = AclPolicy {
        default_action: AclAction::Deny,
        rules: vec![
            rule(AclAction::Allow, by_name, by_id),
            rule(AclAction::Deny, any, AclSelector::default()),
        ],
    };
    assert!(acl_allows(&policy, &src, &dst));
    assert!(!acl_allows(&policy, &dst, &src));
}

#[test]
fn default_action_decides_where_no_rule_matches() {
    let src = sample_node("src", vec!["a".to_string()], 0);
    let dst = sample_node("dst", vec![], 0);
    let other = AclSelector {
        tags: vec!["b".to_string()],
        ..Default::default()
    };
    let deny = AclPolicy {
        default_action: AclAction::Deny,
        rules: vec![rule(AclAction::Allow, other, AclSelector::default())],
    };
    assert!(!acl_allows(&deny, &src, &dst));
}

#[test]
fn keys_expire_only_after_the_greatest_age() {
    let policy = KeyRotationPolicy {
        max_age_seconds: Some(30),
    };
    let node = sample_node("n", vec![], 100);
    assert_eq!(effective_node_status(&node, &policy, 130), (true, false));
    assert_eq!(effective_node_status(&node, &policy, 131), (false, true));
    let none = KeyRotationPolicy::default();
    assert_eq!(effective_node_status(&node, &none, i64::MAX), (true, false));
    let wide = KeyRotationPolicy {
        max_age_seconds: Some(u64::MAX),
    };
    assert_eq!(effective_node_status(&node, &wide, 100), (false, true));
}

#[test]
fn keys_without_a_current_record_do_not_expire() {
    let policy = KeyRotationPolicy {
        max_age_seconds: Some(30),
    };
    let mut node = sample_node("n", vec![], 100);
    for record in node.key_history.iter_mut() {
        record.revoked_at = Some(110);
    }
    assert_eq!(effective_node_status(&node, &policy, 1000), (true, false));
    node.revoked_at = Some(110);
    assert_eq!(effective_node_status(&node, &policy, 1000), (false, false));
    node.revoked_at = None;
    node.approved = false;
    assert_eq!(effective_node_status(&node, &policy, 1000), (false, false));
}

#[test]
fn revoking_marks_every_record_of_the_key() {
    let mut history = sample_node("n", vec![], 1).key_history;
    history.extend(sample_node("n", vec![], 2).key_history);
    revoke_key_record(&mut history, KeyType::Machine, &"machine-n".to_string(), 9);
    let marks: Vec<Option<i64>> = history.iter().map(|record| record.revoked_at).collect();
    assert_eq!(marks, vec![Some(9), None, Some(9), None]);
}

#[test]
fn times_saturate_and_wrap() {
    assert_eq!(expires_at(100, 600), 700);
    assert_eq!(expires_at(1, i64::MAX as u64), i64::MIN);
    assert_eq!(expires_at(5, u64::MAX), 4);
    assert_eq!(seconds_since(i64::MAX, -1), i64::MAX);
    assert_eq!(seconds_since(i64::MIN, 1), i64::MIN);
    assert_eq!(seconds_since(100, 30), 70);
}
