//! What every operation keeps.
use vstd::prelude::*;

use crate::consistency::{
    apart, consistent, keys_tidy, lemma_network_added, lemma_network_changed,
    lemma_network_removed, lemma_next_addresses_are_free, lemma_node_added, lemma_node_changed,
    lemma_node_removed, lemma_token_added, lemma_token_removed, network_sound, node_sound,
    placed, placed_at, ranges_apart, v4_of, v6_of,
};
use crate::enroll::{
    allocated, approved_node, name_taken, node_approved, normalized_name, registered, token_node,
    token_refusal, url_registered, waiting_node, RegisterDrawsView, RegisterUrlDrawsView,
};
use crate::auth::HeadersView;
use crate::error::ApiError;
use crate::keys::{key_for, key_revoked};
use crate::model::{
    CreateNetworkRequestView, CreateTokenRequestView, HeartbeatRequestView, KeyRotationPolicyView,
    KeyRotationRequestView, KeyType, NetworkStateView, NodeStateView, RegisterRequestView,
    RegisterUrlRequestView, TokenStateView, UpdateAclRequestView, UpdateNodeRequestView,
};
use crate::net::{
    first_offset4, first_offset6, ipv4_net_of, ipv6_net_of, last_offset4, last_offset6, law_offset4,
    overlap4, overlap6, parsed_ipv6, IpAddress, Ipv4Net, Ipv6Net,
};
use crate::networks::{
    acl_updated, bootstrap_token, has_nodes, key_policy_updated, network_created,
    network_deleted, new_network, range_conflict, NetworkDrawsView,
};
use crate::nodes::{
    heard_from, key_replaced, keys_rotated, next_name, next_tags, node_deleted, node_revoked,
    node_updated, renamed, reported, revoked_node,
};
use crate::state::{AuditStampView, StateView};
use crate::tokens::{token_created, token_of, token_revoked};

verus! {

/// The IPv6 address that a network gives next.
pub open spec fn next_v6(network: NetworkStateView) -> u128 {
    (v6_of(network).first() + network.next_ipv6) as u128
}

/// A network that gives addresses stays sound, keeps its ranges, and goes on from there.
pub proof fn lemma_allocated(id: Seq<char>, network: NetworkStateView)
    requires
        network_sound(id, network),
    ensures
        network_sound(id, allocated(network).0),
        allocated(network).0.overlay_v4 == network.overlay_v4,
        allocated(network).0.overlay_v6 == network.overlay_v6,
        allocated(network).0.next_ipv4 >= network.next_ipv4,
        allocated(network).0.next_ipv6 >= network.next_ipv6,
        allocated(network).1 is Ok ==> {
            &&& network.next_ipv4 <= last_offset4(v4_of(network))->0
            &&& network.next_ipv6 <= last_offset6(v6_of(network))
            &&& allocated(network).0.next_ipv4 == network.next_ipv4 + 1
            &&& allocated(network).0.next_ipv6 == network.next_ipv6 + 1
        },
{
    v4_of(network).lemma_range();
    if network.next_ipv4 <= last_offset4(v4_of(network))->0 {
        law_offset4(v4_of(network), network.next_ipv4 as int);
    }
}

/// A node that gets the next addresses of its network joins a consistent state.
proof fn lemma_joins(state: StateView, id: Seq<char>, node: NodeStateView)
    requires
        consistent(state),
        state.networks.has(id),
        allocated(state.networks.at(id)).1 == Ok::<(Seq<char>, Seq<char>), ApiError>(
            (node.ipv4, node.ipv6),
        ),
        parsed_ipv6(node.ipv6) == Some(next_v6(state.networks.at(id))),
        node.network_id == id,
        keys_tidy(node),
    ensures
        ({
            let spent = StateView {
                networks: state.networks.insert(id, allocated(state.networks.at(id)).0),
                ..state
            };
            consistent(StateView { nodes: spent.nodes.insert(node.id, node), ..spent })
        }),
{
    let network = state.networks.at(id);
    let after = allocated(network).0;
    assert(network_sound(id, network));
    lemma_allocated(id, network);
    lemma_network_changed(state, id, after);
    let spent = StateView { networks: state.networks.insert(id, after), ..state };
    assert forall|k: Seq<char>| #[trigger] spent.nodes.has(k) implies apart(
        node,
        spent.nodes.at(k),
    ) by {
        lemma_next_addresses_are_free(state, id, node, k);
    }
    assert(placed_at(node, after, network.next_ipv4 as int, network.next_ipv6 as int));
    assert(placed(node, spent.networks.at(node.network_id)));
    lemma_node_added(spent, node);
}

/// A network that only spent addresses leaves the state consistent.
proof fn lemma_spent(state: StateView, id: Seq<char>)
    requires
        consistent(state),
        state.networks.has(id),
    ensures
        consistent(
            StateView {
                networks: state.networks.insert(id, allocated(state.networks.at(id)).0),
                ..state
            },
        ),
{
    assert(network_sound(id, state.networks.at(id)));
    lemma_allocated(id, state.networks.at(id));
    lemma_network_changed(state, id, allocated(state.networks.at(id)).0);
}

/// A node that asks to join with a token leaves a consistent state consistent, as long as the
/// address that it gets can be read back.
pub proof fn lemma_registered(state: StateView, req: RegisterRequestView, draws: RegisterDrawsView)
    requires
        consistent(state),
        registered(state, req, draws).1 matches Ok(id) ==> parsed_ipv6(
            registered(state, req, draws).0.nodes.at(id).ipv6,
        ) == Some(next_v6(state.networks.at(state.tokens.at(req.token).network_id))),
    ensures
        consistent(registered(state, req, draws).0),
{
    if normalized_name(req.node_name) is Ok && token_refusal(state.tokens.find(req.token), draws.now)
        is None {
        let name = normalized_name(req.node_name)->Ok_0;
        let token = state.tokens.at(req.token);
        assert(state.tokens.has(req.token));
        let id = token.network_id;
        if !name_taken(state, id, name, None) && state.networks.has(id) {
            let network = state.networks.at(id);
            assert(network_sound(id, network));
            lemma_spent(state, id);
            match allocated(network).1 {
                Err(_) => {},
                Ok(ips) => {
                    let node = token_node(token, network, req, name, ips, draws);
                    let spent = StateView {
                        networks: state.networks.insert(id, allocated(network).0),
                        ..state
                    };
                    let joined = StateView { nodes: spent.nodes.insert(node.id, node), ..spent };
                    assert(registered(state, req, draws).0.nodes.at(node.id) == node);
                    assert(keys_tidy(node));
                    lemma_joins(state, id, node);
                    if token.uses_left == 1 {
                        lemma_token_removed(joined, req.token);
                    } else {
                        let left = TokenStateView {
                            uses_left: (token.uses_left - 1) as u32,
                            ..token
                        };
                        lemma_token_added(joined, left);
                    }
                },
            }
        }
    }
}

/// A node that asks to join and wait leaves a consistent state consistent, as long as the address
/// that it gets can be read back.
pub proof fn lemma_url_registered(
    state: StateView,
    req: RegisterUrlRequestView,
    draws: RegisterUrlDrawsView,
)
    requires
        consistent(state),
        url_registered(state, req, draws).1 matches Ok(answer) ==> parsed_ipv6(answer.ipv6)
            == Some(next_v6(state.networks.at(req.network_id))),
    ensures
        consistent(url_registered(state, req, draws).0),
{
    let id = req.network_id;
    if state.networks.has(id) {
        let network = state.networks.at(id);
        assert(network_sound(id, network));
        lemma_spent(state, id);
        if url_registered(state, req, draws).1 is Ok {
            let name = normalized_name(req.node_name)->Ok_0;
            let ips = allocated(network).1->Ok_0;
            let node = waiting_node(network, req, name, ips, draws);
            assert(keys_tidy(node));
            lemma_joins(state, id, node);
        }
    }
}

/// Ranges that stand beside all networks listed lie apart from each of them.
proof fn lemma_no_conflict(networks: Seq<NetworkStateView>, v4: Ipv4Net, v6: Ipv6Net, i: int)
    requires
        range_conflict(networks, v4, v6) is None,
        0 <= i < networks.len(),
    ensures
        ipv4_net_of(networks[i].overlay_v4) is Some,
        ipv6_net_of(networks[i].overlay_v6) is Some,
        !overlap4(v4, v4_of(networks[i])),
        !overlap6(v6, v6_of(networks[i])),
    decreases networks.len(),
{
    if i > 0 {
        lemma_no_conflict(networks.drop_first(), v4, v6, i - 1);
        assert(networks.drop_first()[i - 1] == networks[i]);
    }
}

/// Making a network leaves a consistent state consistent.
pub proof fn law_network_created(
    state: StateView,
    req: CreateNetworkRequestView,
    draws: NetworkDrawsView,
)
    requires
        consistent(state),
    ensures
        consistent(network_created(state, req, draws).0),
{
    if let Ok((network, v4, v6)) = new_network(req, draws) {
        if !state.networks.has(network.id) && range_conflict(state.networks.values(), v4, v6) is None {
            assert(v4_of(network) == v4 && v6_of(network) == v6);
            v4.lemma_range();
            v6.lemma_range();
            lemma_first_offsets(v4, v6);
            assert(network_sound(network.id, network));
            assert forall|k: Seq<char>| #[trigger] state.networks.has(k) implies ranges_apart(
                network,
                state.networks.at(k),
            ) by {
                assert(state.networks.keys.contains(k));
                let i = state.networks.keys.index_of(k);
                assert(state.networks.values()[i] == state.networks.at(k));
                lemma_no_conflict(state.networks.values(), v4, v6, i);
            }
            lemma_network_added(state, network);
            let made = StateView {
                networks: state.networks.insert(network.id, network),
                ..state
            };
            if let Some(Ok(token)) = bootstrap_token(network.id, req, draws) {
                assert(made.networks.has(network.id));
                lemma_token_added(made, token);
            }
        }
    }
}

/// The first addresses that a network gives lie in its ranges.
proof fn lemma_first_offsets(v4: Ipv4Net, v6: Ipv6Net)
    requires
        v4.wf(),
        v6.wf(),
        first_offset4(v4) is Some,
    ensures
        last_offset4(v4) is Some,
        1 <= first_offset4(v4)->0 <= last_offset4(v4)->0,
        first_offset6(v6) <= last_offset6(v6),
        first_offset6(v6) <= first_offset4(v4)->0 + 9,
{
}

/// Making a token leaves a consistent state consistent.
pub proof fn law_token_created(
    state: StateView,
    network_id: Seq<char>,
    req: CreateTokenRequestView,
    secret: Seq<char>,
    now: i64,
    stamp: AuditStampView,
)
    requires
        consistent(state),
    ensures
        consistent(token_created(state, network_id, req, secret, now, stamp).0),
{
    if state.networks.has(network_id) {
        let network = state.networks.at(network_id);
        assert(network_sound(network_id, network));
        if let Ok(token) = token_of(
            secret,
            network.id,
            now,
            req.ttl_seconds,
            req.uses,
            req.tags,
            req.owner_user_id,
            req.owner_email,
            req.owner_is_admin != Some(false),
        ) {
            lemma_token_added(state, token);
        }
    }
}

/// Revoking a token leaves a consistent state consistent.
pub proof fn law_token_revoked(
    state: StateView,
    token_id: Seq<char>,
    now: i64,
    stamp: AuditStampView,
)
    requires
        consistent(state),
    ensures
        consistent(token_revoked(state, token_id, now, stamp).0),
{
    if state.tokens.has(token_id) {
        let token = state.tokens.at(token_id);
        lemma_token_added(state, TokenStateView { revoked_at: Some(now), ..token });
    }
}

/// Deleting a network leaves a consistent state consistent.
pub proof fn law_network_deleted(state: StateView, network_id: Seq<char>, stamp: AuditStampView)
    requires
        consistent(state),
    ensures
        consistent(network_deleted(state, network_id, stamp).0),
{
    if state.networks.has(network_id) && !has_nodes(state, network_id) {
        lemma_network_removed(state, network_id);
    }
}

/// Changing access rules leaves a consistent state consistent.
pub proof fn law_acl_updated(
    state: StateView,
    network_id: Seq<char>,
    req: UpdateAclRequestView,
    stamp: AuditStampView,
)
    requires
        consistent(state),
    ensures
        consistent(acl_updated(state, network_id, req, stamp).0),
{
    if state.networks.has(network_id) {
        let network = state.networks.at(network_id);
        assert(network_sound(network_id, network));
        lemma_network_changed(
            state,
            network_id,
            NetworkStateView { acl: req.policy, ..network },
        );
    }
}

/// Changing a key policy leaves a consistent state consistent.
pub proof fn law_key_policy_updated(
    state: StateView,
    network_id: Seq<char>,
    req: KeyRotationPolicyView,
    stamp: AuditStampView,
)
    requires
        consistent(state),
    ensures
        consistent(key_policy_updated(state, network_id, req, stamp).0),
{
    if state.networks.has(network_id) {
        let network = state.networks.at(network_id);
        assert(network_sound(network_id, network));
        lemma_network_changed(
            state,
            network_id,
            NetworkStateView { key_policy: req, ..network },
        );
    }
}

/// Approving a node leaves a consistent state consistent.
pub proof fn law_node_approved(
    state: StateView,
    node_id: Seq<char>,
    secret: Option<Seq<char>>,
    now: i64,
    stamp: AuditStampView,
)
    requires
        consistent(state),
    ensures
        consistent(node_approved(state, node_id, secret, now, stamp).0),
{
    if state.nodes.has(node_id) {
        let node = state.nodes.at(node_id);
        assert(node_sound(node_id, node, state.networks));
        let after = approved_node(node, now);
        assert(keys_tidy(after));
        lemma_node_changed(state, node_id, after);
    }
}

/// Changing the name or the tags of a node leaves a consistent state consistent.
pub proof fn law_node_updated(
    state: StateView,
    node_id: Seq<char>,
    req: UpdateNodeRequestView,
    now: i64,
    stamp: AuditStampView,
)
    requires
        consistent(state),
    ensures
        consistent(node_updated(state, node_id, req, now, stamp).0),
{
    if state.nodes.has(node_id) {
        let node = state.nodes.at(node_id);
        assert(node_sound(node_id, node, state.networks));
        if let Ok(name) = next_name(state, node, req.name) {
            let tags = next_tags(node, req.tags);
            let after = renamed(node, name, tags);
            assert(keys_tidy(after));
            lemma_node_changed(state, node_id, after);
        }
    }
}

/// Replacing a key leaves no key that is not revoked but those that the node has.
proof fn lemma_key_replaced_tidy(
    node: NodeStateView,
    key_type: KeyType,
    new_key: Seq<char>,
    now: i64,
)
    requires
        keys_tidy(node),
    ensures
        keys_tidy(key_replaced(node, key_type, new_key, now)),
{
    let after = key_replaced(node, key_type, new_key, now);
    assert forall|i: int|
        0 <= i < after.key_history.len() && (#[trigger] after.key_history[i]).revoked_at
                is None implies after.key_history[i].public_key
        == key_for(after, after.key_history[i].key_type) by {
        if i < node.key_history.len() {
            assert(node.key_history[i].revoked_at is None ==> node.key_history[i].public_key
                == key_for(node, node.key_history[i].key_type));
        }
    }
}

/// Changing keys leaves a consistent state consistent.
pub proof fn law_keys_rotated(
    state: StateView,
    node_id: Seq<char>,
    req: KeyRotationRequestView,
    headers: HeadersView,
    admin_token: Option<Seq<char>>,
    now: i64,
    stamp: AuditStampView,
)
    requires
        consistent(state),
    ensures
        consistent(keys_rotated(state, node_id, req, headers, admin_token, now, stamp).0),
{
    if state.nodes.has(node_id) {
        let node = state.nodes.at(node_id);
        assert(node_sound(node_id, node, state.networks));
        let first = match req.machine_public_key {
            Some(key) => key_replaced(node, KeyType::Machine, key, now),
            None => node,
        };
        if let Some(key) = req.machine_public_key {
            lemma_key_replaced_tidy(node, KeyType::Machine, key, now);
        }
        lemma_node_changed(state, node_id, first);
        let second = match req.wg_public_key {
            Some(key) => key_replaced(first, KeyType::WireGuard, key, now),
            None => first,
        };
        if let Some(key) = req.wg_public_key {
            lemma_key_replaced_tidy(first, KeyType::WireGuard, key, now);
        }
        let after = NodeStateView { revoked_at: None, ..second };
        assert(keys_tidy(after));
        lemma_node_changed(state, node_id, after);
    }
}

/// Revoking a node leaves a consistent state consistent.
pub proof fn law_node_revoked(
    state: StateView,
    node_id: Seq<char>,
    now: i64,
    stamp: AuditStampView,
)
    requires
        consistent(state),
    ensures
        consistent(node_revoked(state, node_id, now, stamp).0),
{
    if state.nodes.has(node_id) {
        let node = state.nodes.at(node_id);
        assert(node_sound(node_id, node, state.networks));
        let after = revoked_node(node, now);
        let once = key_revoked(node.key_history, KeyType::Machine, node.machine_public_key, now);
        assert forall|i: int|
            0 <= i < after.key_history.len() && (#[trigger] after.key_history[i]).revoked_at
                is None implies after.key_history[i].public_key
            == key_for(after, after.key_history[i].key_type) by {
            assert(node.key_history[i].revoked_at is None ==> node.key_history[i].public_key
                == key_for(node, node.key_history[i].key_type));
            assert(once[i].public_key == node.key_history[i].public_key);
        }
        lemma_node_changed(state, node_id, after);
    }
}

/// Deleting a node leaves a consistent state consistent.
pub proof fn law_node_deleted(state: StateView, node_id: Seq<char>, stamp: AuditStampView)
    requires
        consistent(state),
    ensures
        consistent(node_deleted(state, node_id, stamp).0),
{
    lemma_node_removed(state, node_id);
}

/// What a node reports leaves a consistent state consistent.
pub proof fn law_heard_from(
    state: StateView,
    req: HeartbeatRequestView,
    headers: HeadersView,
    admin_token: Option<Seq<char>>,
    remote: IpAddress,
    now: i64,
)
    requires
        consistent(state),
    ensures
        consistent(heard_from(state, req, headers, admin_token, remote, now).0),
{
    if state.nodes.has(req.node_id) {
        let node = state.nodes.at(req.node_id);
        assert(node_sound(req.node_id, node, state.networks));
        let after = reported(node, req, remote, now);
        assert(keys_tidy(after));
        lemma_node_changed(state, req.node_id, after);
    }
}

} // verus!
