//! What the requests about nodes bring about: what is known of a node afterwards, what stays as it
//! was, and what is answered.
use vstd::prelude::*;

use crate::auth::{node_allowed, HeadersView};
use crate::consistency::{consistent, network_sound, node_sound};
use crate::effects::{
    other_networks_same, other_nodes_same, other_tokens_same, same_networks, same_tokens,
};
use crate::enroll::{
    allocated, bears_name, is_register_answer, name_taken, node_approved, registered, url_registered,
    RegisterDrawsView, RegisterUrlDrawsView,
};
use crate::error::ApiError;
use crate::lifecycle::law_endpoints;
use crate::model::{
    ApproveNodeResponseView, DeleteNodeResponseView, HeartbeatRequestView, HeartbeatResponseView,
    KeyHistoryResponseView, KeyRecordView, KeyRotationRequestView, KeyRotationResponseView, KeyType,
    NetworkStateView, NodeInfoView, NodeStateView, RegisterRequestView, RegisterResponseView,
    RegisterUrlRequestView, RegisterUrlResponseView, RelayConfigView, RevokeNodeResponseView,
    TokenStateView, UpdateNodeRequestView, UpdateNodeResponseView,
};
use crate::net::{
    dotted, ipv4_net_of, ipv6_net_of, ipv6_text_of, last_offset4, last_offset6, law_first_offset4,
    law_first_offset6, law_network4, law_network6,
    lemma_last_offset4, IpAddress,
};
use crate::netmap::{is_peer, netmap_of, netmap_refusal, relay_offered};
use crate::nodes::{
    heard_from, is_heartbeat_answer, keys_rotated, keys_told, node_deleted, node_revoked,
    merged_endpoints, node_updated, nodes_listed, observed_endpoint, trimmed_tags,
};
use crate::state::{written, AuditStampView, StateView};
use crate::table::lemma_filter_subset;
use crate::text::{decimal, law_first_occurrences, same_ignoring_case, trimmed};

verus! {

/// Whether a key record is that of a key in use since a time.
pub open spec fn in_use_since(
    record: KeyRecordView,
    key_type: KeyType,
    key: Seq<char>,
    since: i64,
) -> bool {
    &&& record.key_type == key_type
    &&& record.public_key == key
    &&& record.created_at == since
    &&& record.revoked_at is None
}

/// Whether a node is one that has just joined under these keys: it was made and seen now, has not
/// reported anything yet, and its keys are in use from now on.
pub open spec fn just_joined(
    node: NodeStateView,
    machine_public_key: Seq<char>,
    wg_public_key: Seq<char>,
    now: i64,
) -> bool {
    &&& node.machine_public_key == machine_public_key
    &&& node.wg_public_key == wg_public_key
    &&& node.endpoints.len() == 0
    &&& node.routes.len() == 0
    &&& node.created_at == now
    &&& node.last_seen == now
    &&& node.probe_requested_at is None
    &&& node.revoked_at is None
    &&& node.key_history.len() == 2
    &&& in_use_since(node.key_history[0], KeyType::Machine, machine_public_key, now)
    &&& in_use_since(node.key_history[1], KeyType::WireGuard, wg_public_key, now)
}

/// Whether a network gave a node its next addresses, and goes on behind them.
pub open spec fn gave_addresses(
    before: NetworkStateView,
    after: NetworkStateView,
    ipv4: Seq<char>,
    ipv6: Seq<char>,
) -> bool {
    let v4 = ipv4_net_of(before.overlay_v4)->0;
    let v6 = ipv6_net_of(before.overlay_v6)->0;
    &&& ipv4 == dotted((v4.first() + before.next_ipv4) as u32)
    &&& ipv6 == ipv6_text_of((v6.first() + before.next_ipv6) as u128)
    &&& after.next_ipv4 == before.next_ipv4 + 1
    &&& before.next_ipv6 < u128::MAX ==> after.next_ipv6 == before.next_ipv6 + 1
    &&& after == (NetworkStateView {
        next_ipv4: after.next_ipv4,
        next_ipv6: after.next_ipv6,
        ..before
    })
}

/// Whether a node that is not revoked bears this name in the network, whatever the case of its
/// letters.
pub open spec fn bears(state: StateView, network_id: Seq<char>, name: Seq<char>) -> bool {
    exists|k: Seq<char>|
        {
            &&& #[trigger] state.nodes.has(k)
            &&& state.nodes.at(k).network_id == network_id
            &&& state.nodes.at(k).revoked_at is None
            &&& same_ignoring_case(state.nodes.at(k).name, name)
        }
}

/// Whether a network has an address left in both of its ranges.
pub open spec fn has_room(network: NetworkStateView) -> bool {
    &&& network.next_ipv4 <= last_offset4(ipv4_net_of(network.overlay_v4)->0)->0
    &&& network.next_ipv6 <= last_offset6(ipv6_net_of(network.overlay_v6)->0)
}

/// A node that joined with a token is known under the identifier drawn for it, with the keys that
/// it sent, what the token gives it, and the next addresses of the network. It is approved at once
/// unless the network requires approval. The token is good for one use less. No other node changes,
/// and neither does another token or network.
pub proof fn law_join_is_as_asked(
    state: StateView,
    req: RegisterRequestView,
    draws: RegisterDrawsView,
)
    requires
        registered(state, req, draws).1 is Ok,
    ensures
        ({
            let after = registered(state, req, draws).0;
            let token = state.tokens.at(req.token);
            let network = state.networks.at(token.network_id);
            let node = after.nodes.at(draws.node_id);
            &&& registered(state, req, draws).1->Ok_0 == draws.node_id
            &&& state.tokens.has(req.token)
            &&& state.networks.has(token.network_id)
            &&& after.nodes.has(draws.node_id)
            &&& node.id == draws.node_id
            &&& node.network_id == network.id
            &&& node.name == trimmed(req.node_name)
            &&& just_joined(node, req.machine_public_key, req.wg_public_key, draws.now)
            &&& gave_addresses(
                network,
                after.networks.at(token.network_id),
                node.ipv4,
                node.ipv6,
            )
            &&& node.tags == token.tags
            &&& node.owner_user_id == token.owner_user_id
            &&& node.owner_email == token.owner_email
            &&& node.owner_is_admin == token.owner_is_admin
            &&& node.approved <==> !network.requires_approval
            &&& node.approved ==> node.approved_at == Some(draws.now)
            &&& !node.approved ==> node.approved_at is None
            &&& node.auth_secret is None
            &&& node.auth_expires_at is None
            &&& node.node_token == Some(draws.node_token)
            &&& token.uses_left > 1 ==> after.tokens.find(req.token) == Some(
                TokenStateView { uses_left: (token.uses_left - 1) as u32, ..token },
            )
            &&& token.uses_left == 1 ==> !after.tokens.has(req.token)
            &&& other_tokens_same(state, after, req.token)
            &&& other_nodes_same(state, after, draws.node_id)
            &&& other_networks_same(state, after, token.network_id)
        }),
{
    lemma_last_offset4(state.networks.at(state.tokens.at(req.token).network_id).overlay_v4);
}

/// A node joins wherever its name is not blank and no node of the network bears it, its token is
/// known, still good, not revoked and not used up, and the network has an address left; and it does
/// not join where one of these fails.
pub proof fn law_who_joins(state: StateView, req: RegisterRequestView, draws: RegisterDrawsView)
    requires
        consistent(state),
    ensures
        registered(state, req, draws).1 is Ok <==> {
            let token = state.tokens.at(req.token);
            &&& trimmed(req.node_name).len() > 0
            &&& state.tokens.has(req.token)
            &&& draws.now < token.expires_at
            &&& token.revoked_at is None
            &&& token.uses_left > 0
            &&& state.networks.has(token.network_id)
            &&& !bears(state, token.network_id, trimmed(req.node_name))
            &&& has_room(state.networks.at(token.network_id))
        },
        trimmed(req.node_name).len() == 0 ==> registered(state, req, draws).1 == Err::<
            Seq<char>,
            ApiError,
        >(ApiError::BadRequest("node name must be non-empty")),
        registered(state, req, draws).1 == Err::<Seq<char>, ApiError>(
            ApiError::Conflict("node name already exists"),
        ) ==> bears(state, state.tokens.at(req.token).network_id, trimmed(req.node_name)),
{
    let token = state.tokens.at(req.token);
    if state.networks.has(token.network_id) {
        assert(network_sound(token.network_id, state.networks.at(token.network_id)));
    }
    lemma_bears(state, token.network_id, trimmed(req.node_name));
}

/// A name that is borne is taken.
proof fn lemma_bears(state: StateView, network_id: Seq<char>, name: Seq<char>)
    ensures
        bears(state, network_id, name) <==> name_taken(state, network_id, name, None),
{
    if bears(state, network_id, name) {
        let k = choose|k: Seq<char>|
            {
                &&& #[trigger] state.nodes.has(k)
                &&& state.nodes.at(k).network_id == network_id
                &&& state.nodes.at(k).revoked_at is None
                &&& same_ignoring_case(state.nodes.at(k).name, name)
            };
        assert(state.nodes.has(k) && bears_name(
            state.nodes.at(k),
            network_id,
            name,
            None,
        ));
    }
    if name_taken(state, network_id, name, None) {
        let k = choose|k: Seq<char>| #[trigger]
            state.nodes.has(k) && bears_name(
                state.nodes.at(k),
                network_id,
                name,
                None,
            );
        assert(state.nodes.has(k));
    }
}

/// A node that joined to wait is known under the identifier drawn for it, with the keys that it
/// sent and the next addresses of the network, without tags, and is not approved. Whoever has the
/// secret can approve it while the time that was asked for lasts, or ten minutes. The answer says
/// where.
pub proof fn law_waiting_is_as_asked(
    state: StateView,
    req: RegisterUrlRequestView,
    draws: RegisterUrlDrawsView,
)
    requires
        url_registered(state, req, draws).1 is Ok,
    ensures
        ({
            let after = url_registered(state, req, draws).0;
            let answer = url_registered(state, req, draws).1->Ok_0;
            let network = state.networks.at(req.network_id);
            let node = after.nodes.at(draws.node_id);
            let ttl: u64 = match req.ttl_seconds {
                Some(ttl) => ttl,
                None => 600u64,
            };
            &&& ttl > 0
            &&& state.networks.has(req.network_id)
            &&& after.nodes.has(draws.node_id)
            &&& node.id == draws.node_id
            &&& node.network_id == network.id
            &&& node.name == trimmed(req.node_name)
            &&& just_joined(node, req.machine_public_key, req.wg_public_key, draws.now)
            &&& gave_addresses(network, after.networks.at(req.network_id), node.ipv4, node.ipv6)
            &&& node.tags.len() == 0
            &&& node.owner_user_id is None
            &&& node.owner_email is None
            &&& node.owner_is_admin
            &&& !node.approved
            &&& node.approved_at is None
            &&& node.auth_secret == Some(draws.auth_secret)
            &&& draws.now + ttl <= i64::MAX ==> node.auth_expires_at == Some((draws.now + ttl) as i64)
            &&& node.node_token == Some(draws.node_token)
            &&& answer.node_id == node.id
            &&& answer.network_id == node.network_id
            &&& answer.ipv4 == node.ipv4
            &&& answer.ipv6 == node.ipv6
            &&& answer.auth_path == "/v1/register/approve/"@ + node.id + seq!['/']
                + draws.auth_secret
            &&& node.auth_expires_at == Some(answer.expires_at)
            &&& Some(answer.node_token) == node.node_token
            &&& other_nodes_same(state, after, draws.node_id)
            &&& other_networks_same(state, after, req.network_id)
            &&& same_tokens(state, after)
        }),
{
    lemma_last_offset4(state.networks.at(req.network_id).overlay_v4);
}

/// A node joins to wait wherever it is given time, its name is not blank and no node of the network
/// bears it, and the network has an address left; and it does not where one of these fails.
pub proof fn law_who_waits(
    state: StateView,
    req: RegisterUrlRequestView,
    draws: RegisterUrlDrawsView,
)
    requires
        consistent(state),
    ensures
        url_registered(state, req, draws).1 is Ok <==> {
            &&& req.ttl_seconds != Some(0u64)
            &&& trimmed(req.node_name).len() > 0
            &&& state.networks.has(req.network_id)
            &&& !bears(state, req.network_id, trimmed(req.node_name))
            &&& has_room(state.networks.at(req.network_id))
        },
        req.ttl_seconds == Some(0u64) ==> url_registered(state, req, draws).1 == Err::<
            RegisterUrlResponseView,
            ApiError,
        >(ApiError::BadRequest("ttl_seconds must be > 0")),
{
    if state.networks.has(req.network_id) {
        assert(network_sound(req.network_id, state.networks.at(req.network_id)));
    }
    lemma_bears(state, req.network_id, trimmed(req.node_name));
}

/// A node that waits is approved by an administrator, and by whoever has its secret while the time
/// for that lasts, and by nobody else. The approval is dated, the secret is good no more, and the
/// answer says so. Nothing else changes.
pub proof fn law_approval_is_as_asked(
    state: StateView,
    node_id: Seq<char>,
    secret: Option<Seq<char>>,
    now: i64,
    stamp: AuditStampView,
)
    requires
        state.nodes.has(node_id),
        !state.nodes.at(node_id).approved,
    ensures
        ({
            let (after, answer) = node_approved(state, node_id, secret, now, stamp);
            let before = state.nodes.at(node_id);
            let node = after.nodes.at(node_id);
            &&& answer is Ok <==> secret is None || (secret == before.auth_secret && (
            before.auth_expires_at is None || now < before.auth_expires_at->0))
            &&& answer is Ok ==> {
                &&& after.nodes.has(node_id)
                &&& node.approved
                &&& node.approved_at == Some(now)
                &&& node.auth_secret is None
                &&& node.auth_expires_at is None
                &&& node == (NodeStateView {
                    approved: node.approved,
                    approved_at: node.approved_at,
                    auth_secret: node.auth_secret,
                    auth_expires_at: node.auth_expires_at,
                    ..before
                })
                &&& answer->Ok_0.node_id == before.id
                &&& answer->Ok_0.approved
                &&& answer->Ok_0.approved_at == Some(now)
            }
            &&& answer is Err ==> after == state
            &&& secret is Some && secret == before.auth_secret && answer is Err ==> answer == Err::<
                ApproveNodeResponseView,
                ApiError,
            >(ApiError::Unauthorized("approval expired"))
            &&& other_nodes_same(state, after, node_id)
            &&& same_networks(state, after)
            &&& same_tokens(state, after)
        }),
{
}

/// Whether an answer shows a node as it is kept.
pub open spec fn shows_node(shown: NodeInfoView, node: NodeStateView) -> bool {
    &&& shown.id == node.id
    &&& shown.name == node.name
    &&& shown.ipv4 == node.ipv4
    &&& shown.ipv6 == node.ipv6
    &&& shown.wg_public_key == node.wg_public_key
    &&& shown.machine_public_key == node.machine_public_key
    &&& shown.endpoints == node.endpoints
    &&& shown.tags == node.tags
    &&& shown.routes == node.routes
    &&& shown.last_seen == node.last_seen
    &&& shown.revoked <==> node.revoked_at is Some
}

/// The tags of a list, without the white space around them, are those that are left of its items.
proof fn lemma_trimmed_tags(tags: Seq<Seq<char>>, tag: Seq<char>)
    ensures
        trimmed_tags(tags).contains(tag) <==> tag.len() > 0 && exists|i: int|
            0 <= i < tags.len() && trimmed(#[trigger] tags[i]) == tag,
    decreases tags.len(),
{
    if tags.len() > 0 {
        let rest = tags.drop_last();
        lemma_trimmed_tags(rest, tag);
        let all = trimmed_tags(tags);
        let some = trimmed_tags(rest);
        assert forall|i: int| 0 <= i < rest.len() implies #[trigger] rest[i] == tags[i] by {
        }
        if trimmed(tags.last()).len() > 0 {
            assert(all == some.push(trimmed(tags.last())));
            assert(all.last() == trimmed(tags.last()));
            if all.contains(tag) && !some.contains(tag) {
                let i = all.index_of(tag);
                if i < some.len() {
                    assert(some[i] == tag);
                }
            }
            if some.contains(tag) {
                let i = some.index_of(tag);
                assert(all[i] == tag);
            }
        }
        if exists|i: int| 0 <= i < tags.len() && trimmed(#[trigger] tags[i]) == tag {
            let i = choose|i: int| 0 <= i < tags.len() && trimmed(#[trigger] tags[i]) == tag;
            if i < rest.len() {
                assert(rest[i] == tags[i]);
            }
        }
        if exists|i: int| 0 <= i < rest.len() && trimmed(#[trigger] rest[i]) == tag {
            let i = choose|i: int| 0 <= i < rest.len() && trimmed(#[trigger] rest[i]) == tag;
            assert(tags[i] == rest[i]);
        }
        if tag.len() > 0 && trimmed(tags.last()) == tag {
            assert(all[all.len() - 1] == tag);
        }
    }
}

/// A node that is changed has the name that was sent, without the white space around it, and each
/// of the tags that were sent once, without the white space around them and without blank ones;
/// what was not sent stays. The answer shows the node. Nothing else changes.
pub proof fn law_node_is_as_sent(
    state: StateView,
    node_id: Seq<char>,
    req: UpdateNodeRequestView,
    now: i64,
    stamp: AuditStampView,
    tag: Seq<char>,
)
    requires
        node_updated(state, node_id, req, now, stamp).1 is Ok,
    ensures
        ({
            let after = node_updated(state, node_id, req, now, stamp).0;
            let shown = node_updated(state, node_id, req, now, stamp).1->Ok_0.node;
            let before = state.nodes.at(node_id);
            let node = after.nodes.at(node_id);
            &&& state.nodes.has(node_id)
            &&& after.nodes.has(node_id)
            &&& req.name is Some ==> node.name == trimmed(req.name->0) && node.name.len() > 0
            &&& req.name is None ==> node.name == before.name
            &&& req.tags is Some ==> node.tags.no_duplicates() && (node.tags.contains(tag) <==> (
            tag.len() > 0 && exists|i: int|
                0 <= i < req.tags->0.len() && trimmed(#[trigger] req.tags->0[i]) == tag))
            &&& req.tags is None ==> node.tags == before.tags
            &&& node == (NodeStateView { name: node.name, tags: node.tags, ..before })
            &&& shows_node(shown, node)
            &&& shown.dns_name == node.name + seq!['.'] + state.networks.at(
                node.network_id,
            ).dns_domain
            &&& other_nodes_same(state, after, node_id)
            &&& same_networks(state, after)
            &&& same_tokens(state, after)
        }),
{
    if let Some(tags) = req.tags {
        lemma_trimmed_tags(tags, tag);
        law_first_occurrences(trimmed_tags(tags));
    }
}

/// A node is changed wherever something is sent, it is known in a network that is known, and the
/// name, if one is sent, is not blank and borne by no other node of the network that is not
/// revoked.
pub proof fn law_which_nodes_are_changed(
    state: StateView,
    node_id: Seq<char>,
    req: UpdateNodeRequestView,
    now: i64,
    stamp: AuditStampView,
)
    requires
        consistent(state),
    ensures
        node_updated(state, node_id, req, now, stamp).1 is Ok <==> {
            let node = state.nodes.at(node_id);
            &&& req.name is Some || req.tags is Some
            &&& state.nodes.has(node_id)
            &&& req.name matches Some(name) ==> {
                &&& trimmed(name).len() > 0
                &&& trimmed(name) == node.name || !(exists|k: Seq<char>|
                    {
                        &&& #[trigger] state.nodes.has(k)
                        &&& k != node_id
                        &&& state.nodes.at(k).network_id == node.network_id
                        &&& state.nodes.at(k).revoked_at is None
                        &&& same_ignoring_case(state.nodes.at(k).name, trimmed(name))
                    })
            }
        },
        req.name is None && req.tags is None ==> node_updated(state, node_id, req, now, stamp).1
            == Err::<UpdateNodeResponseView, ApiError>(ApiError::BadRequest("no fields to update")),
{
    let node = state.nodes.at(node_id);
    if state.nodes.has(node_id) {
        assert(node_sound(node_id, node, state.networks));
        if let Some(name) = req.name {
            let wanted = trimmed(name);
            if name_taken(state, node.network_id, wanted, Some(node.id)) {
                let k = choose|k: Seq<char>| #[trigger]
                    state.nodes.has(k) && bears_name(
                        state.nodes.at(k),
                        node.network_id,
                        wanted,
                        Some(node.id),
                    );
                assert(node_sound(k, state.nodes.at(k), state.networks));
                assert(state.nodes.has(k) && k != node_id);
            }
            assert forall|k: Seq<char>| #[trigger]
                state.nodes.has(k) && k != node_id && state.nodes.at(k).network_id
                    == node.network_id && state.nodes.at(k).revoked_at is None
                    && same_ignoring_case(
                    state.nodes.at(k).name,
                    wanted,
                ) implies bears_name(
                state.nodes.at(k),
                node.network_id,
                wanted,
                Some(node.id),
            ) by {
                assert(node_sound(k, state.nodes.at(k), state.networks));
            }
        }
    }
}

/// Whether a key history holds what another held, with the records of a key revoked at a time.
pub open spec fn revoked_in(
    before: Seq<KeyRecordView>,
    after: Seq<KeyRecordView>,
    key_type: KeyType,
    key: Seq<char>,
    now: i64,
    i: int,
) -> bool {
    &&& after[i].key_type == before[i].key_type
    &&& after[i].public_key == before[i].public_key
    &&& after[i].created_at == before[i].created_at
    &&& before[i].key_type == key_type && before[i].public_key == key ==> after[i].revoked_at
        == Some(now)
}

/// A node whose keys were changed has the keys that were sent, keeps a key that was not sent, and
/// is not revoked. The records of the keys given up are revoked, and those of the new keys are
/// added as in use from now on. The answer tells the keys. Nothing else changes.
pub proof fn law_keys_are_as_sent(
    state: StateView,
    node_id: Seq<char>,
    req: KeyRotationRequestView,
    headers: HeadersView,
    admin_token: Option<Seq<char>>,
    now: i64,
    stamp: AuditStampView,
    i: int,
)
    requires
        keys_rotated(state, node_id, req, headers, admin_token, now, stamp).1 is Ok,
    ensures
        ({
            let after = keys_rotated(state, node_id, req, headers, admin_token, now, stamp).0;
            let answer =
                keys_rotated(state, node_id, req, headers, admin_token, now, stamp).1->Ok_0;
            let before = state.nodes.at(node_id);
            let node = after.nodes.at(node_id);
            let old = before.key_history;
            let new = node.key_history;
            &&& state.nodes.has(node_id)
            &&& after.nodes.has(node_id)
            &&& req.machine_public_key is Some ==> node.machine_public_key
                == req.machine_public_key->0 && node.machine_public_key
                != before.machine_public_key
            &&& req.machine_public_key is None ==> node.machine_public_key
                == before.machine_public_key
            &&& req.wg_public_key is Some ==> node.wg_public_key == req.wg_public_key->0
                && node.wg_public_key != before.wg_public_key
            &&& req.wg_public_key is None ==> node.wg_public_key == before.wg_public_key
            &&& node.revoked_at is None
            &&& node == (NodeStateView {
                machine_public_key: node.machine_public_key,
                wg_public_key: node.wg_public_key,
                revoked_at: node.revoked_at,
                key_history: node.key_history,
                ..before
            })
            &&& new.len() == old.len() + (if req.machine_public_key is Some {
                1int
            } else {
                0
            }) + (if req.wg_public_key is Some {
                1int
            } else {
                0
            })
            &&& req.machine_public_key is Some ==> in_use_since(
                new[old.len() as int],
                KeyType::Machine,
                req.machine_public_key->0,
                now,
            )
            &&& req.wg_public_key is Some ==> in_use_since(
                new.last(),
                KeyType::WireGuard,
                req.wg_public_key->0,
                now,
            )
            &&& 0 <= i < old.len() ==> {
                &&& req.machine_public_key is Some ==> revoked_in(
                    old,
                    new,
                    KeyType::Machine,
                    before.machine_public_key,
                    now,
                    i,
                )
                &&& req.wg_public_key is Some ==> revoked_in(
                    old,
                    new,
                    KeyType::WireGuard,
                    before.wg_public_key,
                    now,
                    i,
                )
                &&& old[i].key_type == KeyType::Machine && (req.machine_public_key is None
                    || old[i].public_key != before.machine_public_key) ==> new[i] == old[i]
                &&& old[i].key_type == KeyType::WireGuard && (req.wg_public_key is None
                    || old[i].public_key != before.wg_public_key) ==> new[i] == old[i]
            }
            &&& answer.node_id == before.id
            &&& answer.machine_public_key == node.machine_public_key
            &&& answer.wg_public_key == node.wg_public_key
            &&& other_nodes_same(state, after, node_id)
            &&& same_networks(state, after)
            &&& same_tokens(state, after)
        }),
{
}

/// Keys are changed for whoever may speak for the node, where a key is sent and none of those sent
/// is the one in use; and only then.
pub proof fn law_whose_keys_are_changed(
    state: StateView,
    node_id: Seq<char>,
    req: KeyRotationRequestView,
    headers: HeadersView,
    admin_token: Option<Seq<char>>,
    now: i64,
    stamp: AuditStampView,
)
    ensures
        ({
            let answer = keys_rotated(state, node_id, req, headers, admin_token, now, stamp).1;
            let node = state.nodes.at(node_id);
            &&& answer is Ok <==> {
                &&& req.machine_public_key is Some || req.wg_public_key is Some
                &&& state.nodes.has(node_id)
                &&& node_allowed(headers, admin_token, node)
                &&& req.machine_public_key != Some(node.machine_public_key)
                &&& req.wg_public_key != Some(node.wg_public_key)
            }
            &&& req.machine_public_key is None && req.wg_public_key is None ==> answer == Err::<
                KeyRotationResponseView,
                ApiError,
            >(ApiError::BadRequest("no keys provided"))
            &&& state.nodes.has(node_id) && (req.machine_public_key is Some || req.wg_public_key
                is Some) && !node_allowed(headers, admin_token, node) ==> answer
                == Err::<KeyRotationResponseView, ApiError>(
                ApiError::Unauthorized("node token required"),
            )
        }),
{
}

/// A node that is revoked is kept as it was but for the time of its revocation and the records of
/// its keys, which are revoked. The answer tells the time. Nothing else changes.
pub proof fn law_revoking_a_node(
    state: StateView,
    node_id: Seq<char>,
    now: i64,
    stamp: AuditStampView,
    i: int,
)
    ensures
        ({
            let (after, answer) = node_revoked(state, node_id, now, stamp);
            let before = state.nodes.at(node_id);
            let node = after.nodes.at(node_id);
            let old = before.key_history;
            let new = node.key_history;
            &&& answer is Ok <==> state.nodes.has(node_id)
            &&& answer is Ok ==> {
                &&& after.nodes.has(node_id)
                &&& node.revoked_at == Some(now)
                &&& node == (NodeStateView {
                    revoked_at: node.revoked_at,
                    key_history: node.key_history,
                    ..before
                })
                &&& new.len() == old.len()
                &&& 0 <= i < old.len() ==> {
                    &&& revoked_in(
                        old,
                        new,
                        KeyType::Machine,
                        before.machine_public_key,
                        now,
                        i,
                    )
                    &&& revoked_in(old, new, KeyType::WireGuard, before.wg_public_key, now, i)
                    &&& old[i].public_key != before.machine_public_key && old[i].public_key
                        != before.wg_public_key ==> new[i] == old[i]
                }
                &&& answer->Ok_0.node_id == before.id
                &&& answer->Ok_0.revoked_at == Some(now)
            }
            &&& answer is Err ==> after == state && answer == Err::<RevokeNodeResponseView, ApiError>(
                ApiError::NotFound("node"),
            )
            &&& other_nodes_same(state, after, node_id)
            &&& same_networks(state, after)
            &&& same_tokens(state, after)
        }),
{
}

/// A node that is deleted is not known any more. Nothing else changes, and the answer tells which
/// node it was.
pub proof fn law_deleting_a_node(state: StateView, node_id: Seq<char>, stamp: AuditStampView)
    ensures
        ({
            let (after, answer) = node_deleted(state, node_id, stamp);
            &&& answer is Ok <==> state.nodes.has(node_id)
            &&& !after.nodes.has(node_id)
            &&& answer is Ok ==> answer->Ok_0.node_id == state.nodes.at(node_id).id
            &&& answer is Err ==> after == state && answer == Err::<DeleteNodeResponseView, ApiError>(
                ApiError::NotFound("node"),
            )
            &&& other_nodes_same(state, after, node_id)
            &&& same_networks(state, after)
            &&& same_tokens(state, after)
        }),
{
}

/// A node that reports has the endpoints and routes that it sent, after the endpoint under which it
/// was heard, was last seen now, and asks to be probed if it said so. It is heard wherever the
/// sender may speak for it. Nothing else changes.
pub proof fn law_report_is_as_sent(
    state: StateView,
    req: HeartbeatRequestView,
    headers: HeadersView,
    admin_token: Option<Seq<char>>,
    remote: IpAddress,
    now: i64,
    endpoint: Seq<char>,
)
    ensures
        ({
            let (after, answer) = heard_from(state, req, headers, admin_token, remote, now);
            let before = state.nodes.at(req.node_id);
            let node = after.nodes.at(req.node_id);
            let heard = match remote {
                IpAddress::V4(ip) => dotted(ip),
                IpAddress::V6(ip) => seq!['['] + ipv6_text_of(ip) + seq![']'],
            } + seq![':'] + decimal(req.listen_port->0 as nat);
            &&& answer is Ok <==> state.nodes.has(req.node_id) && node_allowed(
                headers,
                admin_token,
                before,
            )
            &&& answer is Ok ==> {
                &&& after.nodes.has(req.node_id)
                &&& node.routes == req.routes
                &&& node.last_seen == now
                &&& req.probe == Some(true) ==> node.probe_requested_at == Some(now)
                &&& req.probe != Some(true) ==> node.probe_requested_at
                    == before.probe_requested_at
                &&& node.endpoints.no_duplicates()
                &&& node.endpoints.contains(endpoint) <==> req.endpoints.contains(endpoint) || (
                req.listen_port is Some && endpoint == heard)
                &&& req.listen_port is Some ==> node.endpoints.len() > 0 && node.endpoints[0]
                    == heard
                &&& node == (NodeStateView {
                    endpoints: node.endpoints,
                    routes: node.routes,
                    last_seen: node.last_seen,
                    probe_requested_at: node.probe_requested_at,
                    ..before
                })
            }
            &&& answer is Err ==> after == state && answer == Err::<(), ApiError>(
                if state.nodes.has(req.node_id) {
                    ApiError::Unauthorized("node token required")
                } else {
                    ApiError::NotFound("node")
                },
            )
            &&& other_nodes_same(state, after, req.node_id)
            &&& same_networks(state, after)
            &&& same_tokens(state, after)
        }),
{
    let observed = observed_endpoint(remote, req.listen_port);
    law_endpoints(req.endpoints, observed, endpoint);
    if let Some(port) = req.listen_port {
        match remote {
            IpAddress::V4(ip) => {},
            IpAddress::V6(ip) => {
                assert(observed->0 =~= seq!['['] + ipv6_text_of(ip) + seq![']'] + seq![':']
                    + decimal(port as nat));
            },
        }
    }
}

/// A node that joined is answered with the token that it was given, and with the netmap of the
/// state in which it is known, in which it finds itself.
pub proof fn law_join_is_answered(
    state: StateView,
    req: RegisterRequestView,
    draws: RegisterDrawsView,
    relay: RelayConfigView,
    answer: RegisterResponseView,
)
    requires
        consistent(state),
        registered(state, req, draws).1 is Ok,
        is_register_answer(
            Ok(answer),
            written(registered(state, req, draws)),
            relay,
            draws.node_token,
        ),
    ensures
        ({
            let after = written(registered(state, req, draws)).0;
            &&& Some(answer.node_token) == after.nodes.at(draws.node_id).node_token
            &&& answer.netmap.node.id == draws.node_id
            &&& answer.netmap.node.wg_public_key == req.wg_public_key
            &&& answer.netmap.node.machine_public_key == req.machine_public_key
            &&& answer.netmap.network.id == state.networks.at(
                state.tokens.at(req.token).network_id,
            ).id
            &&& answer.netmap.revision == after.revision
            &&& answer.netmap.relay == relay_offered(relay)
        }),
{
    law_join_is_as_asked(state, req, draws);
    let id = state.tokens.at(req.token).network_id;
    assert(network_sound(id, state.networks.at(id)));
}

/// A refused node is answered with the refusal, and a node that reported with the netmap of the
/// state in which what it reported is known.
pub proof fn law_report_is_answered(
    heard: (StateView, Result<(), ApiError>),
    node_id: Seq<char>,
    relay: RelayConfigView,
    answer: Result<HeartbeatResponseView, ApiError>,
)
    requires
        is_heartbeat_answer(answer, heard, node_id, relay),
    ensures
        heard.1 matches Err(refusal) ==> answer == Err::<HeartbeatResponseView, ApiError>(refusal),
        heard.1 is Ok && answer is Ok ==> {
            let map = answer->Ok_0.netmap;
            &&& heard.0.nodes.has(node_id)
            &&& map.node.id == heard.0.nodes.at(node_id).id
            &&& map.node.endpoints == heard.0.nodes.at(node_id).endpoints
            &&& map.revision == heard.0.revision
            &&& map.relay == relay_offered(relay)
        },
        heard.1 is Ok && heard.0.nodes.has(node_id) && heard.0.networks.has(
            heard.0.nodes.at(node_id).network_id,
        ) ==> answer is Ok,
{
}

/// A node is told all keys that it has or had, as they are recorded, by whoever may speak for it.
pub proof fn law_keys_told(
    state: StateView,
    node_id: Seq<char>,
    headers: HeadersView,
    admin_token: Option<Seq<char>>,
)
    ensures
        ({
            let answer = keys_told(state, node_id, headers, admin_token);
            let node = state.nodes.at(node_id);
            &&& answer is Ok <==> state.nodes.has(node_id) && node_allowed(
                headers,
                admin_token,
                node,
            )
            &&& answer matches Ok(told) ==> told.node_id == node_id && told.keys == node.key_history
            &&& !state.nodes.has(node_id) ==> answer == Err::<KeyHistoryResponseView, ApiError>(
                ApiError::NotFound("node"),
            )
            &&& state.nodes.has(node_id) && answer is Err ==> answer == Err::<
                KeyHistoryResponseView,
                ApiError,
            >(ApiError::Unauthorized("node token required"))
        }),
{
}

/// Whoever may speak for a node that is known is told its netmap, and nobody else.
pub proof fn law_who_is_told_a_netmap(
    state: StateView,
    node_id: Seq<char>,
    headers: HeadersView,
    admin_token: Option<Seq<char>>,
)
    ensures
        netmap_refusal(state, node_id, headers, admin_token) is None <==> state.nodes.has(node_id)
            && node_allowed(headers, admin_token, state.nodes.at(node_id)),
        !state.nodes.has(node_id) ==> netmap_refusal(state, node_id, headers, admin_token) == Some(
            ApiError::NotFound("node"),
        ),
        state.nodes.has(node_id) && !node_allowed(headers, admin_token, state.nodes.at(node_id))
            ==> netmap_refusal(state, node_id, headers, admin_token) == Some(
            ApiError::Unauthorized("node token required"),
        ),
{
}

/// No node is listed twice, neither to its peers nor to administrators.
pub proof fn law_nodes_are_listed_once(
    state: StateView,
    node_id: Seq<char>,
    network_id: Seq<char>,
    relay: Option<RelayConfigView>,
    now: i64,
    i: int,
    j: int,
)
    requires
        consistent(state),
        i < j,
    ensures
        netmap_of(state, node_id, relay, now, now) matches Ok(map) ==> (0 <= i && j < map.peers.len()
            ==> map.peers[i].id != map.peers[j].id),
        nodes_listed(state, network_id, now) matches Ok(answer) ==> (0 <= i && j
            < answer.nodes.len() ==> answer.nodes[i].id != answer.nodes[j].id),
{
    let values = state.nodes.values();
    assert forall|a: int, b: int| 0 <= a < b < values.len() implies (#[trigger] values[a]).id != (
    #[trigger] values[b]).id by {
        state.nodes.lemma_index(a);
        state.nodes.lemma_index(b);
        assert(node_sound(state.nodes.keys[a], values[a], state.networks));
        assert(node_sound(state.nodes.keys[b], values[b], state.networks));
    }
    if let Ok(map) = netmap_of(state, node_id, relay, now, now) {
        let node = state.nodes.at(node_id);
        let network = state.networks.at(node.network_id);
        let p = |n: NodeStateView|
            is_peer(n, network.id, Some(node_id), node, network.acl, network.key_policy, now);
        lemma_filter_keeps_ids_apart(values, p);
        if 0 <= i && j < map.peers.len() {
            let found = values.filter(p);
            assert(map.peers[i].id == found[i].id && map.peers[j].id == found[j].id);
        }
    }
    if let Ok(answer) = nodes_listed(state, network_id, now) {
        let p = |n: NodeStateView| n.network_id == network_id;
        lemma_filter_keeps_ids_apart(values, p);
        if 0 <= i && j < answer.nodes.len() {
            let found = values.filter(p);
            assert(answer.nodes[i].id == found[i].id && answer.nodes[j].id == found[j].id);
        }
    }
}

/// What is picked from nodes with different identifiers are nodes with different identifiers.
proof fn lemma_filter_keeps_ids_apart(nodes: Seq<NodeStateView>, p: spec_fn(NodeStateView) -> bool)
    requires
        forall|a: int, b: int|
            0 <= a < b < nodes.len() ==> (#[trigger] nodes[a]).id != (#[trigger] nodes[b]).id,
    ensures
        forall|a: int, b: int|
            0 <= a < b < nodes.filter(p).len() ==> (#[trigger] nodes.filter(p)[a]).id != (
            #[trigger] nodes.filter(p)[b]).id,
    decreases nodes.len(),
{
    reveal(Seq::filter);
    if nodes.len() > 0 {
        let rest = nodes.drop_last();
        lemma_filter_keeps_ids_apart(rest, p);
        let some = rest.filter(p);
        let all = nodes.filter(p);
        assert forall|a: int, b: int| 0 <= a < b < all.len() implies (#[trigger] all[a]).id != (
        #[trigger] all[b]).id by {
            if b < some.len() {
                assert(all[a] == some[a] && all[b] == some[b]);
            } else {
                assert(all[b] == nodes.last());
                assert(all[a] == some[a]);
                assert(some.contains(some[a]));
                lemma_filter_subset(rest, p, some[a]);
                let k = rest.index_of(some[a]);
                assert(nodes[k] == some[a]);
                assert(nodes[nodes.len() - 1] == nodes.last());
            }
        }
    }
}

/// A network without an address left in one of its ranges refuses to give any, and says which range
/// it is.
pub proof fn law_exhausted_network_refuses(id: Seq<char>, network: NetworkStateView)
    requires
        network_sound(id, network),
    ensures
        ({
            let v4 = ipv4_net_of(network.overlay_v4)->0;
            let v6 = ipv6_net_of(network.overlay_v6)->0;
            let full4 = v4.first() + network.next_ipv4 >= v4.last();
            let full6 = v6.first() + network.next_ipv6 > v6.last();
            &&& allocated(network).1 is Ok <==> !full4 && !full6
            &&& full4 ==> allocated(network) == (
                network,
                Err::<(Seq<char>, Seq<char>), ApiError>(
                    ApiError::Conflict("ipv4 address space exhausted"),
                ),
            )
            &&& !full4 && full6 ==> allocated(network).1 == Err::<(Seq<char>, Seq<char>), ApiError>(
                ApiError::Conflict("ipv6 address space exhausted"),
            )
        }),
{
    let v4 = ipv4_net_of(network.overlay_v4)->0;
    let v6 = ipv6_net_of(network.overlay_v6)->0;
    law_first_offset4(v4);
    law_first_offset6(v6);
    law_network4(v4);
    law_network6(v6);
    lemma_last_offset4(network.overlay_v4);
    v4.lemma_range();
}

/// The tags of a node stand in the order in which they were sent, and so do the endpoints that it
/// reports, behind the one under which it was heard.
pub proof fn law_order_is_kept(
    tags: Seq<Seq<char>>,
    tag: Seq<char>,
    endpoints: Seq<Seq<char>>,
    heard: Seq<char>,
)
    ensures
        trimmed(tag).len() > 0 ==> trimmed_tags(tags.push(tag)) == trimmed_tags(tags).push(
            trimmed(tag),
        ),
        trimmed(tag).len() == 0 ==> trimmed_tags(tags.push(tag)) == trimmed_tags(tags),
        endpoints.no_duplicates() ==> merged_endpoints(endpoints, None) == endpoints,
        endpoints.no_duplicates() && !endpoints.contains(heard) ==> merged_endpoints(
            endpoints,
            Some(heard),
        ) == seq![heard] + endpoints,
{
    assert(tags.push(tag).drop_last() =~= tags);
    assert(Seq::<Seq<char>>::empty() + endpoints =~= endpoints);
    law_first_occurrences(endpoints);
    let all = seq![heard] + endpoints;
    law_first_occurrences(all);
    if endpoints.no_duplicates() && !endpoints.contains(heard) {
        assert forall|i: int, j: int| 0 <= i < all.len() && 0 <= j < all.len() && i != j implies all[i]
            != all[j] by {
            if i > 0 {
                assert(all[i] == endpoints[i - 1]);
            }
            if j > 0 {
                assert(all[j] == endpoints[j - 1]);
            }
        }
    }
}

} // verus!
